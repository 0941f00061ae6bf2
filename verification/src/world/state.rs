//! The accumulator grid that partial results are merged into.

use vstd::prelude::*;
use crate::{BACKGROUND_RED, BACKGROUND_GREEN, BACKGROUND_BLUE, OPAQUE};
use crate::world::{painted_background, paint_background};
use crate::world::image::Image;

verus! {

/// Whether a step of a fold gives the same whichever of two items comes
/// first.
pub open spec fn order_free<A, B>(step: spec_fn(A, B) -> A) -> bool {
    forall|a: A, x: B, y: B| #[trigger] step(step(a, x), y) == step(step(a, y), x)
}

/// A fold whose step is free of order can take any of its items last.
pub proof fn lemma_fold_moved_to_end<A, B>(step: spec_fn(A, B) -> A, start: A, items: Seq<B>, i: int)
    requires
        order_free(step),
        0 <= i < items.len(),
    ensures
        items.fold_left(start, step) == step(items.remove(i).fold_left(start, step), items[i]),
    decreases items.len(),
{
    if i == items.len() - 1 {
        assert(items.remove(i) =~= items.drop_last());
    } else {
        let rest = items.drop_last();
        lemma_fold_moved_to_end(step, start, rest, i);
        assert(items.remove(i).drop_last() =~= rest.remove(i));
        assert(items.remove(i).last() == items.last());
        let inner = rest.remove(i).fold_left(start, step);
        assert(step(step(inner, rest[i]), items.last()) == step(
            step(inner, items.last()),
            rest[i],
        ));
    }
}

/// A fold whose step is free of order gives the same for the same items
/// in any order.
pub proof fn lemma_fold_any_order<A, B>(
    step: spec_fn(A, B) -> A,
    start: A,
    items: Seq<B>,
    shuffled: Seq<B>,
)
    requires
        order_free(step),
        items.to_multiset() == shuffled.to_multiset(),
    ensures
        items.fold_left(start, step) == shuffled.fold_left(start, step),
    decreases items.len(),
{
    broadcast use vstd::seq_lib::group_to_multiset_ensures;

    if items.len() == 0 {
        vstd::seq_lib::to_multiset_len(items);
        vstd::seq_lib::to_multiset_len(shuffled);
    } else {
        let last = items.last();
        assert(items =~= items.drop_last().push(last));
        assert(items.to_multiset().count(last) > 0);
        assert(shuffled.contains(last));
        let i = choose|i: int| 0 <= i < shuffled.len() && shuffled[i] == last;
        assert(items.drop_last().to_multiset() =~= items.to_multiset().remove(last));
        assert(shuffled.remove(i).to_multiset() =~= shuffled.to_multiset().remove(last));
        lemma_fold_any_order(step, start, items.drop_last(), shuffled.remove(i));
        lemma_fold_moved_to_end(step, start, shuffled, i);
    }
}

/// A grid of `width` by `height` accumulators, row by row, and the number
/// of steps that were folded into it. `P` is the accumulator of one pixel.
pub struct State<P> {
    pub pixels: Vec<P>,
    pub steps: usize,
    pub width: usize,
    pub height: usize,
}

/// The four bytes that a shaded pixel puts into a frame: its colour and full
/// opacity, or the background where the pixel holds nothing.
pub open spec fn shaded_bytes(colour: Option<(u8, u8, u8)>) -> Seq<u8> {
    match colour {
        Some((r, g, b)) => seq![r, g, b, OPAQUE],
        None => seq![BACKGROUND_RED, BACKGROUND_GREEN, BACKGROUND_BLUE, OPAQUE],
    }
}

impl<P: Copy> State<P> {
    /// Whether the grid has one accumulator per pixel.
    pub open spec fn wf(&self) -> bool {
        self.pixels@.len() == self.width * self.height
    }

    /// A grid in which every accumulator is `zero` and no step is counted.
    pub fn empty(width: usize, height: usize, zero: P) -> (state: Self)
        requires
            width * height <= usize::MAX,
        ensures
            state.pixels@ == Seq::new((width * height) as nat, |i: int| zero),
            state.steps == 0,
            state.width == width,
            state.height == height,
            state.wf(),
    {
        let cells: usize = width * height;
        let mut pixels: Vec<P> = Vec::with_capacity(cells);
        let mut done: usize = 0;
        while done < cells
            invariant
                done <= cells,
                pixels@ == Seq::new(done as nat, |i: int| zero),
            decreases cells - done,
        {
            pixels.push(zero);
            done += 1;
            assert(pixels@ =~= Seq::new(done as nat, |i: int| zero));
        }
        State { pixels, steps: 0, width, height }
    }

    /// A grid made of the given parts.
    pub fn new(pixels: Vec<P>, steps: usize, width: usize, height: usize) -> (state: Self)
        requires
            pixels@.len() == width * height,
        ensures
            state.pixels == pixels,
            state.steps == steps,
            state.width == width,
            state.height == height,
            state.wf(),
    {
        State { pixels, steps, width, height }
    }

    /// Whether `after` is what folding `other` into `before` with `merge`
    /// can leave. A grid of another size leaves `before` as it was.
    /// Otherwise the steps add up and every pixel that both grids have is a
    /// result of `merge` on the two accumulators, this grid's first.
    pub open spec fn combined<F: Fn(P, P) -> P>(
        merge: F,
        before: State<P>,
        other: State<P>,
        after: State<P>,
    ) -> bool {
        if other.width == before.width && other.height == before.height {
            &&& after.steps == before.steps + other.steps
            &&& after.width == before.width
            &&& after.height == before.height
            &&& after.pixels@.len() == before.pixels@.len()
            &&& forall|i: int|
                0 <= i < before.pixels@.len() && i < other.pixels@.len() ==> merge.ensures(
                    (before.pixels@[i], other.pixels@[i]),
                    #[trigger] after.pixels@[i],
                )
            &&& forall|i: int|
                other.pixels@.len() <= i < before.pixels@.len() ==> after.pixels@[i]
                    == before.pixels@[i]
        } else {
            after == before
        }
    }

    /// Folds `other` into this grid, pixel by pixel with `merge`, and adds
    /// its steps. A grid of another size is refused and changes nothing.
    pub fn combine<F: Fn(P, P) -> P>(&mut self, other: State<P>, merge: &F) -> (merged: bool)
        requires
            forall|mine: P, theirs: P| merge.requires((mine, theirs)),
            other.width == old(self).width && other.height == old(self).height ==> old(self).steps
                + other.steps <= usize::MAX,
        ensures
            merged == (other.width == old(self).width && other.height == old(self).height),
            Self::combined(*merge, *old(self), other, *final(self)),
    {
        if other.width != self.width || other.height != self.height {
            return false;
        }
        self.steps = self.steps + other.steps;
        let shared: usize = if other.pixels.len() < self.pixels.len() {
            other.pixels.len()
        } else {
            self.pixels.len()
        };
        let mut i: usize = 0;
        while i < shared
            invariant
                i <= shared,
                shared <= other.pixels@.len(),
                shared <= self.pixels@.len(),
                shared == other.pixels@.len() || shared == self.pixels@.len(),
                self.pixels@.len() == old(self).pixels@.len(),
                self.steps == old(self).steps + other.steps,
                self.width == old(self).width,
                self.height == old(self).height,
                forall|mine: P, theirs: P| merge.requires((mine, theirs)),
                forall|j: int|
                    0 <= j < i ==> merge.ensures(
                        (old(self).pixels@[j], other.pixels@[j]),
                        #[trigger] self.pixels@[j],
                    ),
                forall|j: int| i <= j < self.pixels@.len() ==> self.pixels@[j] == old(self).pixels@[j],
            decreases shared - i,
        {
            let folded: P = merge(self.pixels[i], other.pixels[i]);
            self.pixels[i] = folded;
            i += 1;
        }
        true
    }

    /// The steps that the grids of `others` add to a grid of the given
    /// size: those of the grids that have this size.
    pub open spec fn matching_steps(width: usize, height: usize, others: Seq<State<P>>) -> nat
        decreases others.len(),
    {
        if others.len() == 0 {
            0
        } else {
            let last = others.last();
            let rest = Self::matching_steps(width, height, others.drop_last());
            if last.width == width && last.height == height {
                rest + last.steps as nat
            } else {
                rest
            }
        }
    }

    /// Whether `after` is what folding the grids of `others` into `before`,
    /// one after the other with `merge`, can leave.
    pub open spec fn folded<F: Fn(P, P) -> P>(
        merge: F,
        before: State<P>,
        others: Seq<State<P>>,
        after: State<P>,
    ) -> bool
        decreases others.len(),
    {
        if others.len() == 0 {
            after == before
        } else {
            exists|between: State<P>|
                Self::folded(merge, before, others.drop_last(), between) && Self::combined(
                    merge,
                    between,
                    others.last(),
                    after,
                )
        }
    }

    /// Whether `merge` has one result for each pair of accumulators.
    pub open spec fn merge_is_function<F: Fn(P, P) -> P>(merge: F) -> bool {
        forall|a: P, b: P, x: P, y: P|
            #![trigger merge.ensures((a, b), x), merge.ensures((a, b), y)]
            merge.ensures((a, b), x) && merge.ensures((a, b), y) ==> x == y
    }

    /// Whether `merge` gives the same for a pair in either order.
    pub open spec fn merge_commutes<F: Fn(P, P) -> P>(merge: F) -> bool {
        forall|a: P, b: P, x: P|
            #![trigger merge.ensures((a, b), x)]
            merge.ensures((a, b), x) ==> merge.ensures((b, a), x)
    }

    /// Whether `merge` gives the same for three accumulators however they
    /// are grouped.
    pub open spec fn merge_associates<F: Fn(P, P) -> P>(merge: F) -> bool {
        forall|a: P, b: P, c: P, ab: P, bc: P, x: P|
            #![trigger merge.ensures((a, b), ab), merge.ensures((ab, c), x), merge.ensures((b, c), bc)]
            merge.ensures((a, b), ab) && merge.ensures((ab, c), x) && merge.ensures((b, c), bc)
                ==> merge.ensures((a, bc), x)
    }

    /// Whether two grids hold the same: the same size, steps and
    /// accumulators.
    pub open spec fn same(self, other: State<P>) -> bool {
        &&& self.width == other.width
        &&& self.height == other.height
        &&& self.steps == other.steps
        &&& self.pixels@ == other.pixels@
    }

    /// Folding grids commutes where merging accumulators does: two grids of
    /// one size folded into each other give the same in either order.
    pub proof fn lemma_combine_commutes<F: Fn(P, P) -> P>(
        merge: F,
        one: State<P>,
        two: State<P>,
        one_two: State<P>,
        two_one: State<P>,
    )
        requires
            Self::merge_is_function(merge),
            Self::merge_commutes(merge),
            one.width == two.width,
            one.height == two.height,
            one.pixels@.len() == two.pixels@.len(),
            Self::combined(merge, one, two, one_two),
            Self::combined(merge, two, one, two_one),
        ensures
            one_two.same(two_one),
    {
        assert forall|i: int| 0 <= i < one.pixels@.len() implies one_two.pixels@[i]
            == two_one.pixels@[i] by {
            assert(merge.ensures((one.pixels@[i], two.pixels@[i]), one_two.pixels@[i]));
            assert(merge.ensures((two.pixels@[i], one.pixels@[i]), two_one.pixels@[i]));
        }
        assert(one_two.pixels@ =~= two_one.pixels@);
    }

    /// Folding grids associates where merging accumulators does: three
    /// grids of one size give the same whether the third is folded into
    /// the first two, or the first into the last two.
    pub proof fn lemma_combine_associates<F: Fn(P, P) -> P>(
        merge: F,
        one: State<P>,
        two: State<P>,
        three: State<P>,
        one_two: State<P>,
        two_three: State<P>,
        left: State<P>,
        right: State<P>,
    )
        requires
            Self::merge_is_function(merge),
            Self::merge_associates(merge),
            one.width == two.width == three.width,
            one.height == two.height == three.height,
            one.pixels@.len() == two.pixels@.len() == three.pixels@.len(),
            Self::combined(merge, one, two, one_two),
            Self::combined(merge, one_two, three, left),
            Self::combined(merge, two, three, two_three),
            Self::combined(merge, one, two_three, right),
        ensures
            left.same(right),
    {
        assert forall|i: int| 0 <= i < one.pixels@.len() implies left.pixels@[i]
            == right.pixels@[i] by {
            assert(merge.ensures((one.pixels@[i], two.pixels@[i]), one_two.pixels@[i]));
            assert(merge.ensures((one_two.pixels@[i], three.pixels@[i]), left.pixels@[i]));
            assert(merge.ensures((two.pixels@[i], three.pixels@[i]), two_three.pixels@[i]));
            assert(merge.ensures((one.pixels@[i], two_three.pixels@[i]), right.pixels@[i]));
        }
        assert(left.pixels@ =~= right.pixels@);
    }

    /// Whether `merge` computes `sum`: every result of `merge` is what
    /// `sum` says.
    pub open spec fn merge_computes<F: Fn(P, P) -> P>(merge: F, sum: spec_fn(P, P) -> P) -> bool {
        forall|a: P, b: P, x: P| #[trigger] merge.ensures((a, b), x) ==> x == sum(a, b)
    }

    /// Whether `sum` gives the same for a pair in either order and for
    /// three accumulators however they are grouped.
    pub open spec fn sum_is_free(sum: spec_fn(P, P) -> P) -> bool {
        &&& forall|a: P, b: P| #[trigger] sum(a, b) == sum(b, a)
        &&& forall|a: P, b: P, c: P| #[trigger] sum(sum(a, b), c) == sum(a, sum(b, c))
    }

    /// The accumulators after those of another grid were added, pixel by
    /// pixel, as far as the other grid reaches.
    pub open spec fn added(sum: spec_fn(P, P) -> P, mine: Seq<P>, theirs: Seq<P>) -> Seq<P> {
        Seq::new(
            mine.len(),
            |i: int|
                if i < theirs.len() {
                    sum(mine[i], theirs[i])
                } else {
                    mine[i]
                },
        )
    }

    /// What folding one grid into accumulators of a given size does to
    /// them: a grid of that size is added, another one is passed over.
    pub open spec fn adding(sum: spec_fn(P, P) -> P, width: usize, height: usize) -> spec_fn(
        Seq<P>,
        State<P>,
    ) -> Seq<P> {
        |pixels: Seq<P>, other: State<P>|
            if other.width == width && other.height == height {
                Self::added(sum, pixels, other.pixels@)
            } else {
                pixels
            }
    }

    /// What folding one grid into a grid of a given size does to its count
    /// of steps.
    pub open spec fn counting(width: usize, height: usize) -> spec_fn(nat, State<P>) -> nat {
        |steps: nat, other: State<P>|
            if other.width == width && other.height == height {
                steps + other.steps as nat
            } else {
                steps
            }
    }

    /// Folding a burst adds it up: where `merge` computes `sum`, the grid
    /// after a burst holds, pixel by pixel, the sum of what it held and
    /// what the grids of its size in the burst hold, and counts their
    /// steps with its own.
    pub proof fn lemma_folded_is_sum<F: Fn(P, P) -> P>(
        merge: F,
        sum: spec_fn(P, P) -> P,
        before: State<P>,
        others: Seq<State<P>>,
        after: State<P>,
    )
        requires
            Self::merge_computes(merge, sum),
            Self::folded(merge, before, others, after),
        ensures
            after.width == before.width,
            after.height == before.height,
            after.pixels@ == others.fold_left(
                before.pixels@,
                Self::adding(sum, before.width, before.height),
            ),
            after.steps == others.fold_left(
                before.steps as nat,
                Self::counting(before.width, before.height),
            ),
        decreases others.len(),
    {
        if others.len() > 0 {
            let between = choose|between: State<P>|
                Self::folded(merge, before, others.drop_last(), between) && Self::combined(
                    merge,
                    between,
                    others.last(),
                    after,
                );
            Self::lemma_folded_is_sum(merge, sum, before, others.drop_last(), between);
            let last = others.last();
            if last.width == between.width && last.height == between.height {
                assert forall|i: int| 0 <= i < after.pixels@.len() implies after.pixels@[i]
                    == Self::added(sum, between.pixels@, last.pixels@)[i] by {
                    if i < last.pixels@.len() {
                        assert(merge.ensures(
                            (between.pixels@[i], last.pixels@[i]),
                            after.pixels@[i],
                        ));
                    }
                }
                assert(after.pixels@ =~= Self::added(sum, between.pixels@, last.pixels@));
            }
        }
    }

    /// Adding grids and counting their steps give the same whichever of
    /// two grids comes first, where the sum of accumulators is free of
    /// order and grouping.
    pub proof fn lemma_adding_is_order_free(sum: spec_fn(P, P) -> P, width: usize, height: usize)
        requires
            Self::sum_is_free(sum),
        ensures
            order_free(Self::adding(sum, width, height)),
            order_free(Self::counting(width, height)),
    {
        let adding = Self::adding(sum, width, height);
        assert forall|pixels: Seq<P>, one: State<P>, two: State<P>| #[trigger]
            adding(adding(pixels, one), two) == adding(adding(pixels, two), one) by {
            let left = adding(adding(pixels, one), two);
            let right = adding(adding(pixels, two), one);
            assert(left.len() == right.len());
            assert forall|i: int| 0 <= i < left.len() implies left[i] == right[i] by {
                let a = pixels[i];
                if i < one.pixels@.len() && i < two.pixels@.len() {
                    let x = one.pixels@[i];
                    let y = two.pixels@[i];
                    assert(sum(sum(a, x), y) == sum(a, sum(x, y)));
                    assert(sum(x, y) == sum(y, x));
                    assert(sum(sum(a, y), x) == sum(a, sum(y, x)));
                }
            }
            assert(left =~= right);
        }
        let counting = Self::counting(width, height);
        assert forall|steps: nat, one: State<P>, two: State<P>| #[trigger]
            counting(counting(steps, one), two) == counting(counting(steps, two), one) by {}
    }

    /// The grids of a burst can come in any order: where `merge` computes a
    /// sum that is free of order and grouping, two bursts of the same grids
    /// folded into the same grid leave the same grid.
    pub proof fn lemma_fold_in_any_order<F: Fn(P, P) -> P>(
        merge: F,
        sum: spec_fn(P, P) -> P,
        before: State<P>,
        others: Seq<State<P>>,
        shuffled: Seq<State<P>>,
        after: State<P>,
        after_shuffled: State<P>,
    )
        requires
            Self::merge_computes(merge, sum),
            Self::sum_is_free(sum),
            others.to_multiset() == shuffled.to_multiset(),
            Self::folded(merge, before, others, after),
            Self::folded(merge, before, shuffled, after_shuffled),
        ensures
            after.same(after_shuffled),
    {
        Self::lemma_folded_is_sum(merge, sum, before, others, after);
        Self::lemma_folded_is_sum(merge, sum, before, shuffled, after_shuffled);
        Self::lemma_adding_is_order_free(sum, before.width, before.height);
        lemma_fold_any_order(
            Self::adding(sum, before.width, before.height),
            before.pixels@,
            others,
            shuffled,
        );
        lemma_fold_any_order(
            Self::counting(before.width, before.height),
            before.steps as nat,
            others,
            shuffled,
        );
    }

    /// Folds every grid of a burst into this one, in the order of arrival,
    /// and says whether the burst held anything, that is, whether there is
    /// something new to render.
    pub fn combine_all<F: Fn(P, P) -> P>(
        &mut self,
        others: Vec<State<P>>,
        merge: &F,
    ) -> (received: bool)
        requires
            forall|mine: P, theirs: P| merge.requires((mine, theirs)),
            old(self).steps + Self::matching_steps(old(self).width, old(self).height, others@)
                <= usize::MAX,
        ensures
            received == (others@.len() > 0),
            Self::folded(*merge, *old(self), others@, *final(self)),
            final(self).steps == old(self).steps + Self::matching_steps(
                old(self).width,
                old(self).height,
                others@,
            ),
            final(self).width == old(self).width,
            final(self).height == old(self).height,
            final(self).pixels@.len() == old(self).pixels@.len(),
    {
        let received = others.len() > 0;
        let ghost all = others@;
        let ghost mut seen: Seq<State<P>> = Seq::empty();
        proof {
            Self::lemma_matching_steps_grow(self.width, self.height, all, 0);
        }
        for other in iter: others.into_iter()
            invariant
                iter.seq() == all,
                seen == all.take(iter.index() as int),
                forall|mine: P, theirs: P| merge.requires((mine, theirs)),
                self.width == old(self).width,
                self.height == old(self).height,
                self.pixels@.len() == old(self).pixels@.len(),
                self.steps == old(self).steps + Self::matching_steps(self.width, self.height, seen),
                old(self).steps + Self::matching_steps(self.width, self.height, all) <= usize::MAX,
                Self::folded(*merge, *old(self), seen, *self),
        {
            let ghost before = *self;
            let ghost next = seen.push(other);
            proof {
                assert(next =~= all.take(iter.index() + 1));
                assert(next.drop_last() =~= seen);
                Self::lemma_matching_steps_grow(self.width, self.height, all, iter.index() + 1);
            }
            self.combine(other, merge);
            proof {
                seen = next;
            }
        }
        assert(seen =~= all);
        received
    }

    /// The steps that a prefix of a burst adds never exceed those of the
    /// whole burst.
    proof fn lemma_matching_steps_grow(
        width: usize,
        height: usize,
        others: Seq<State<P>>,
        upto: int,
    )
        requires
            0 <= upto <= others.len(),
        ensures
            Self::matching_steps(width, height, others.take(upto)) <= Self::matching_steps(
                width,
                height,
                others,
            ),
        decreases others.len(),
    {
        if upto < others.len() {
            assert(others.drop_last().take(upto) =~= others.take(upto));
            Self::lemma_matching_steps_grow(width, height, others.drop_last(), upto);
        } else {
            assert(others.take(upto) =~= others);
        }
    }

    /// Empties the grid and gives it a new size: every accumulator is `zero`
    /// afterwards and no step is counted.
    pub fn reset(&mut self, width: usize, height: usize, zero: P)
        requires
            width * height <= usize::MAX,
        ensures
            final(self).pixels@ == Seq::new((width * height) as nat, |i: int| zero),
            final(self).steps == 0,
            final(self).width == width,
            final(self).height == height,
            final(self).wf(),
    {
        let cells: usize = width * height;
        if cells == self.pixels.len() {
            let mut i: usize = 0;
            while i < cells
                invariant
                    i <= cells,
                    cells == self.pixels@.len(),
                    forall|j: int| 0 <= j < i ==> self.pixels@[j] == zero,
                decreases cells - i,
            {
                self.pixels[i] = zero;
                i += 1;
            }
            assert(self.pixels@ =~= Seq::new(cells as nat, |i: int| zero));
        } else {
            let fresh = State::empty(width, height, zero);
            self.pixels = fresh.pixels;
        }
        self.width = width;
        self.height = height;
        self.steps = 0;
    }

    /// Whether `bytes` are what a pixel puts into a frame under `shade`.
    pub open spec fn shaded<F: Fn(P) -> Option<(u8, u8, u8)>>(
        shade: F,
        pixel: P,
        bytes: Seq<u8>,
    ) -> bool {
        exists|colour: Option<(u8, u8, u8)>|
            shade.ensures((pixel,), colour) && bytes == shaded_bytes(colour)
    }

    /// Whether `frame` shows this grid under `shade`: four bytes for each
    /// accumulator, in the order of the grid.
    pub open spec fn shown<F: Fn(P) -> Option<(u8, u8, u8)>>(&self, shade: F, frame: Seq<u8>) -> bool {
        &&& frame.len() == 4 * self.pixels@.len()
        &&& forall|i: int|
            0 <= i < self.pixels@.len() ==> #[trigger] Self::shaded(
                shade,
                self.pixels@[i],
                frame.subrange(4 * i, 4 * i + 4),
            )
    }

    /// Renders the grid into an RGBA frame. `shade` gives the colour of an
    /// accumulator, or nothing where it is empty. A grid without steps, or a
    /// frame of another size, is painted as background.
    pub fn draw<F: Fn(P) -> Option<(u8, u8, u8)>>(&self, frame: &mut [u8], shade: &F)
        requires
            self.wf(),
            forall|pixel: P| shade.requires((pixel,)),
        ensures
            final(frame)@.len() == old(frame)@.len(),
            self.steps == 0 || self.pixels@.len() * 4 != old(frame)@.len() ==> final(frame)@
                == painted_background(old(frame)@),
            self.steps != 0 && self.pixels@.len() * 4 == old(frame)@.len() ==> self.shown(
                *shade,
                final(frame)@,
            ),
    {
        let cells: usize = self.pixels.len();
        if self.steps == 0 || frame.len() / 4 != cells || frame.len() % 4 != 0 {
            paint_background(frame);
            return ;
        }
        let mut i: usize = 0;
        while i < cells
            invariant
                i <= cells,
                cells == self.pixels@.len(),
                cells * 4 <= usize::MAX,
                frame@.len() == cells * 4,
                frame@.len() == old(frame)@.len(),
                forall|pixel: P| shade.requires((pixel,)),
                forall|j: int|
                    0 <= j < i ==> #[trigger] Self::shaded(
                        *shade,
                        self.pixels@[j],
                        frame@.subrange(4 * j, 4 * j + 4),
                    ),
            decreases cells - i,
        {
            let ghost before = frame@;
            let colour = shade(self.pixels[i]);
            let (r, g, b) = match colour {
                Some(rgb) => rgb,
                None => (BACKGROUND_RED, BACKGROUND_GREEN, BACKGROUND_BLUE),
            };
            frame[4 * i] = r;
            frame[4 * i + 1] = g;
            frame[4 * i + 2] = b;
            frame[4 * i + 3] = OPAQUE;
            proof {
                assert(frame@.subrange(4 * i, 4 * i + 4) =~= shaded_bytes(colour));
                assert forall|j: int| 0 <= j < i implies #[trigger] Self::shaded(
                    *shade,
                    self.pixels@[j],
                    frame@.subrange(4 * j, 4 * j + 4),
                ) by {
                    assert(frame@.subrange(4 * j, 4 * j + 4) =~= before.subrange(4 * j, 4 * j + 4));
                    assert(Self::shaded(*shade, self.pixels@[j], before.subrange(4 * j, 4 * j + 4)));
                }
            }
            i += 1;
        }
    }

    /// Renders the grid into an image, as `draw` does into a frame, and
    /// stamps the image with the steps of the grid.
    pub fn render<F: Fn(P) -> Option<(u8, u8, u8)>>(&self, image: &mut Image, shade: &F)
        requires
            self.wf(),
            forall|pixel: P| shade.requires((pixel,)),
        ensures
            final(image).steps == self.steps,
            final(image).width == old(image).width,
            final(image).height == old(image).height,
            final(image).pixels@.len() == old(image).pixels@.len(),
            self.steps == 0 || self.pixels@.len() * 4 != old(image).pixels@.len()
                ==> final(image).pixels@ == painted_background(old(image).pixels@),
            self.steps != 0 && self.pixels@.len() * 4 == old(image).pixels@.len() ==> self.shown(
                *shade,
                final(image).pixels@,
            ),
    {
        self.draw(image.pixels.as_mut_slice(), shade);
        image.steps = self.steps;
    }
}

} // verus!
