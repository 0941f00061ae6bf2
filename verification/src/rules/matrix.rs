//! The policy that follows a table of transition weights: from anchor `j`
//! the anchor `k` follows with a chance in proportion to the weight at row
//! `j`, column `k`.

use vstd::prelude::*;
use vstd::arithmetic::div_mod::{lemma_fundamental_div_mod, lemma_fundamental_div_mod_converse};
use crate::rules::Choice;
use crate::rules::rng::{RuleRng, uniform_below};

verus! {

/// The sum of `count` weights from position `start` on.
pub open spec fn weight_sum(weights: Seq<u32>, start: int, count: int) -> int
    decreases count,
{
    if count <= 0 {
        0
    } else {
        weight_sum(weights, start, count - 1) + weights[start + count - 1]
    }
}

/// The running sums of the rows of a table of `n` by `n` weights, row by
/// row. Where `weights` holds one row only, every row of the table is that
/// row.
pub open spec fn cumulative(n: int, weights: Seq<u32>) -> Seq<u64> {
    Seq::new(
        (n * n) as nat,
        |i: int|
            {
                let row = if weights.len() == n * n {
                    i / n
                } else {
                    0
                };
                weight_sum(weights, row * n, i % n + 1) as u64
            },
    )
}

/// The first column from `from` on, and before `limit`, whose running sum
/// lies above `num`.
pub open spec fn first_above(row: Seq<u64>, num: u64, limit: int, from: int) -> Option<int>
    decreases limit - from,
{
    if from >= limit {
        None
    } else if row[from] > num {
        Some(from)
    } else {
        first_above(row, num, limit, from + 1)
    }
}

/// The anchor that follows `last` in a table of running sums when the
/// number `num` was drawn below the total of the row: the first of the
/// `len` anchors of the shape whose running sum lies above `num`, and
/// `last` itself where there is none.
pub open spec fn matrix_index(matrix: Seq<u64>, n: int, last: int, num: u64, len: int) -> int {
    let row = matrix.subrange(last * n, last * n + n);
    let limit = if n <= len {
        n
    } else {
        len
    };
    match first_above(row, num, limit, 0) {
        Some(x) => x,
        None => last,
    }
}

/// A sum of weights is at most as many times the largest weight.
proof fn lemma_weight_sum_bound(weights: Seq<u32>, start: int, count: int)
    requires
        count >= 0,
    ensures
        0 <= weight_sum(weights, start, count) <= count * 0xFFFF_FFFF,
    decreases count,
{
    if count > 0 {
        lemma_weight_sum_bound(weights, start, count - 1);
    }
}

/// The running sums of a table of transition weights. A table always has
/// a row for each of its anchors, and every row runs upwards.
pub struct Table {
    n_points: usize,
    sums: Vec<u64>,
}

impl Table {
    #[verifier::type_invariant]
    spec fn valid(&self) -> bool {
        self.wf()
    }

    /// The number of anchors of the table.
    pub closed spec fn points(&self) -> usize {
        self.n_points
    }

    /// The running sums of the table, row by row.
    pub closed spec fn sums(&self) -> Seq<u64> {
        self.sums@
    }

    /// Whether the table has a row for each of its anchors and every row
    /// runs upwards. Every table that this module hands out is so.
    pub open spec fn wf(&self) -> bool {
        &&& self.points() >= 1
        &&& self.sums().len() == self.points() * self.points()
        &&& forall|i: int|
            #![trigger self.sums()[i]]
            0 <= i < self.sums().len() && i % (self.points() as int) != 0 ==> self.sums()[i - 1]
                <= self.sums()[i]
    }
}

impl Clone for Table {
    fn clone(&self) -> (copy: Self)
        ensures
            copy.points() == self.points(),
            copy.sums() == self.sums(),
            copy.wf(),
    {
        proof {
            use_type_invariant(self);
        }
        Table { n_points: self.n_points, sums: self.sums.clone() }
    }
}

/// A policy that follows a table of transition weights.
pub struct MatrixChoice {
    pub rng: RuleRng,
    pub table: Table,
}

impl MatrixChoice {
    /// The number of anchors of the table.
    pub open spec fn points(&self) -> usize {
        self.table.points()
    }

    /// The running sums of the table, row by row.
    pub open spec fn table(&self) -> Seq<u64> {
        self.table.sums()
    }

    /// The generator of the policy.
    pub open spec fn generator(&self) -> RuleRng {
        self.rng
    }

    /// Whether the table has a row for each of its anchors and every row
    /// runs upwards. Every policy is so.
    pub open spec fn wf(&self) -> bool {
        self.table.wf()
    }

    /// The number of anchors of the table.
    pub fn n_points(&self) -> (n: usize)
        ensures
            n == self.points(),
            self.wf(),
    {
        proof {
            use_type_invariant(&self.table);
        }
        self.table.n_points
    }

    /// The running sums of the table, row by row.
    pub fn matrix(&self) -> (table: &Vec<u64>)
        ensures
            table@ == self.table(),
            self.wf(),
    {
        proof {
            use_type_invariant(&self.table);
        }
        &self.table.sums
    }

    /// The total weight of the transitions from `last`.
    pub open spec fn row_total(&self, last: int) -> u64 {
        self.table()[(last + 1) * self.points() - 1]
    }

    /// A policy for the given weights: `n_points` rows of `n_points`
    /// weights, or one row that holds for every anchor. Weights of any
    /// other number are refused.
    pub fn new(n_points: usize, weights: Vec<u32>) -> (choice: Option<Self>)
        requires
            n_points > 0 || weights@.len() > 0,
            n_points <= 0xFFFF_FFFF,
        ensures
            choice is Some <==> weights@.len() == n_points * n_points || weights@.len()
                == n_points,
            choice matches Some(c) ==> {
                &&& c.points() == n_points
                &&& c.table() == cumulative(n_points as int, weights@)
                &&& c.wf()
                &&& c.generator().fresh()
            },
    {
        if n_points == 0 {
            return None;
        }
        let square: bool = match n_points.checked_mul(n_points) {
            Some(cells) => weights.len() == cells,
            None => false,
        };
        if !square && weights.len() != n_points {
            return None;
        }
        let n: usize = n_points;
        let rows: usize = if square {
            n
        } else {
            1
        };
        assert(rows * n == weights@.len()) by (nonlinear_arith)
            requires
                rows == n && weights@.len() == n * n || rows == 1 && weights@.len() == n,
        ;
        let total: usize = weights.len();
        let mut sums: Vec<u64> = Vec::with_capacity(total);
        let mut y: usize = 0;
        while y < rows
            invariant
                total == weights@.len(),
                n >= 1,
                n <= 0xFFFF_FFFF,
                y <= rows,
                rows * n == weights@.len(),
                sums@.len() == y * n,
                forall|i: int|
                    #![trigger sums@[i]]
                    0 <= i < sums@.len() ==> sums@[i] == weight_sum(
                        weights@,
                        (i / n as int) * n,
                        i % (n as int) + 1,
                    ),
            decreases rows - y,
        {
            assert(0 <= y * n && y * n + n <= rows * n) by (nonlinear_arith)
                requires
                    y < rows,
            ;
            let mut sum: u64 = 0;
            let mut x: usize = 0;
            while x < n
                invariant
                    n >= 1,
                    n <= 0xFFFF_FFFF,
                    x <= n,
                    0 <= y * n,
                    total == weights@.len(),
                    y * n + n <= total,
                    sums@.len() == y * n + x,
                    sum == weight_sum(weights@, y * n, x as int),
                    forall|i: int|
                        #![trigger sums@[i]]
                        0 <= i < sums@.len() ==> sums@[i] == weight_sum(
                            weights@,
                            (i / n as int) * n,
                            i % (n as int) + 1,
                        ),
                decreases n - x,
            {
                proof {
                    lemma_weight_sum_bound(weights@, y * n, x as int);
                    assert(x * 0xFFFF_FFFF + 0xFFFF_FFFF <= 0xFFFF_FFFF * 0x1_0000_0000) by (nonlinear_arith)
                        requires
                            x < 0xFFFF_FFFF,
                    ;
                    lemma_fundamental_div_mod_converse(
                        (y * n + x) as int,
                        n as int,
                        y as int,
                        x as int,
                    );
                }
                sum = sum + weights[y * n + x] as u64;
                sums.push(sum);
                x += 1;
            }
            y += 1;
            assert(y * n == (y - 1) * n + n) by (nonlinear_arith);
        }
        let matrix: Vec<u64> = if square {
            sums
        } else {
            let mut table: Vec<u64> = Vec::new();
            let mut y: usize = 0;
            while y < n
                invariant
                    n >= 1,
                    y <= n,
                    sums@.len() == n,
                    table@.len() == y * n,
                    forall|i: int|
                        #![trigger table@[i]]
                        0 <= i < table@.len() ==> table@[i] == sums@[i % (n as int)],
                decreases n - y,
            {
                let mut x: usize = 0;
                while x < n
                    invariant
                        n >= 1,
                        x <= n,
                        sums@.len() == n,
                        table@.len() == y * n + x,
                        forall|i: int|
                            #![trigger table@[i]]
                            0 <= i < table@.len() ==> table@[i] == sums@[i % (n as int)],
                    decreases n - x,
                {
                    proof {
                        lemma_fundamental_div_mod_converse(
                            (y * n + x) as int,
                            n as int,
                            y as int,
                            x as int,
                        );
                    }
                    table.push(sums[x]);
                    x += 1;
                }
                y += 1;
                assert(y * n == (y - 1) * n + n) by (nonlinear_arith);
            }
            table
        };
        proof {
            let target = cumulative(n as int, weights@);
            assert(matrix@.len() == n * n);
            assert forall|i: int| 0 <= i < matrix@.len() implies matrix@[i] == target[i] by {
                lemma_fundamental_div_mod(i, n as int);
                if !square {
                    let x = i % (n as int);
                    assert(x / (n as int) == 0 && x % (n as int) == x) by {
                        lemma_fundamental_div_mod_converse(x, n as int, 0, x);
                    }
                    assert(matrix@[i] == sums@[x]);
                }
            }
            assert(matrix@ =~= target);
        }
        proof {
            Self::lemma_cumulative_runs_up(n as int, weights@);
        }
        Some(MatrixChoice { rng: RuleRng::from_entropy(), table: Table { n_points, sums: matrix } })
    }

    /// The running sums of a table fit their cells and run upwards within a
    /// row.
    proof fn lemma_cumulative_runs_up(n: int, weights: Seq<u32>)
        requires
            1 <= n <= 0xFFFF_FFFF,
        ensures
            forall|i: int|
                #![trigger cumulative(n, weights)[i]]
                0 <= i < n * n && i % n != 0 ==> cumulative(n, weights)[i - 1] <= cumulative(
                    n,
                    weights,
                )[i],
    {
        let table = cumulative(n, weights);
        assert forall|i: int| 0 <= i < n * n && i % n != 0 implies table[i - 1] <= #[trigger] table[i] by {
            lemma_fundamental_div_mod(i, n);
            let y = i / n;
            let x = i % n;
            assert(y * n == n * y) by (nonlinear_arith);
            lemma_fundamental_div_mod_converse(i - 1, n, y, x - 1);
            let row = if weights.len() == n * n {
                y
            } else {
                0
            };
            lemma_weight_sum_bound(weights, row * n, x);
            lemma_weight_sum_bound(weights, row * n, x + 1);
            assert(x * 0xFFFF_FFFF + 0xFFFF_FFFF <= 0xFFFF_FFFF * 0x1_0000_0000) by (nonlinear_arith)
                requires
                    x < 0xFFFF_FFFF,
            ;
            assert(weight_sum(weights, row * n, x + 1) == weight_sum(weights, row * n, x)
                + weights[row * n + x]);
        }
    }
}

impl MatrixChoice {
    /// The anchor that follows `last` when `num` was drawn. Where the shape
    /// has an anchor for every column and `num` lies below the total of the
    /// row, the running sum of the anchor is the first above `num`: the
    /// anchor is hit as often as its weight says.
    pub fn pick(&self, last: usize, num: u64, len: usize) -> (index: usize)
        requires
            last < self.points(),
        ensures
            index == matrix_index(self.table(), self.points() as int, last as int, num, len as int),
            index < self.points(),
            len >= self.points() && num < self.row_total(last as int) ==> {
                &&& self.table()[last * self.points() + index] > num
                &&& index > 0 ==> self.table()[last * self.points() + index - 1] <= num
            },
    {
        proof {
            use_type_invariant(&self.table);
        }
        let n: usize = self.table.n_points;
        let cells: usize = self.table.sums.len();
        assert(0 <= last * n && last * n + n <= n * n) by (nonlinear_arith)
            requires
                last < n,
        ;
        assert((last + 1) * n - 1 == last * n + n - 1) by (nonlinear_arith);
        let base: usize = last * n;
        let limit: usize = if n <= len {
            n
        } else {
            len
        };
        let ghost row = self.table.sums@.subrange(base as int, base + n);
        let mut x: usize = 0;
        while x < limit
            invariant
                x <= limit,
                limit <= n,
                n == self.table.n_points,
                last < n,
                base == last * n,
                limit == if n <= len {
                    n
                } else {
                    len
                },
                cells == self.table.sums@.len(),
                base + n <= cells,
                self.row_total(last as int) == row[n - 1],
                row == self.table.sums@.subrange(base as int, base + n),
                first_above(row, num, limit as int, 0) == first_above(
                    row,
                    num,
                    limit as int,
                    x as int,
                ),
                forall|j: int| 0 <= j < x ==> row[j] <= num,
            decreases limit - x,
        {
            assert(row[x as int] == self.table.sums@[base + x]);
            if self.table.sums[base + x] > num {
                assert(x > 0 ==> row[x - 1] == self.table.sums@[base + x - 1]);
                return x;
            }
            x += 1;
        }
        last
    }
}

/// A table follows its weights: the anchor picked for a number below the
/// total of a row has a weight above zero in that row, where the shape has
/// an anchor for every column.
pub proof fn lemma_picked_weight_is_positive(
    n: int,
    weights: Seq<u32>,
    last: int,
    num: u64,
    len: int,
)
    requires
        1 <= n <= 0xFFFF_FFFF,
        weights.len() == n * n || weights.len() == n,
        0 <= last < n,
        len >= n,
        num < cumulative(n, weights)[last * n + n - 1],
    ensures
        ({
            let index = matrix_index(cumulative(n, weights), n, last, num, len);
            let row = if weights.len() == n * n {
                last
            } else {
                0
            };
            0 <= index < n && weights[row * n + index] > 0
        }),
{
    let table = cumulative(n, weights);
    assert(0 <= last * n && last * n + n <= n * n) by (nonlinear_arith)
        requires
            0 <= last < n,
    ;
    let row = table.subrange(last * n, last * n + n);
    let source = if weights.len() == n * n {
        last
    } else {
        0
    };
    lemma_first_above_finds(row, num, n, 0);
    let index = first_above(row, num, n, 0)->Some_0;
    assert(row[index] == table[last * n + index]);
    lemma_fundamental_div_mod_converse(last * n + index, n, last, index);
    lemma_weight_sum_bound(weights, source * n, index);
    lemma_weight_sum_bound(weights, source * n, index + 1);
    assert(index * 0xFFFF_FFFF + 0xFFFF_FFFF <= 0xFFFF_FFFF * 0x1_0000_0000) by (nonlinear_arith)
        requires
            index < 0xFFFF_FFFF,
    ;
    if index > 0 {
        assert(row[index - 1] == table[last * n + index - 1]);
        lemma_fundamental_div_mod_converse(last * n + index - 1, n, last, index - 1);
    }
}

/// The policy never picks what has no weight: where the shape has an
/// anchor for every column and the row of the newest anchor has weight, the
/// anchor picked has a weight above zero in that row.
pub proof fn lemma_never_picks_zero_weight(
    choice: MatrixChoice,
    after: MatrixChoice,
    weights: Seq<u32>,
    history: Seq<usize>,
    len: usize,
    index: usize,
)
    requires
        choice.wf(),
        choice.points() <= 0xFFFF_FFFF,
        weights.len() == choice.points() * choice.points() || weights.len() == choice.points(),
        choice.table() == cumulative(choice.points() as int, weights),
        choice.admits(history, len),
        len >= choice.points(),
        choice.row_total(history[0] as int) > 0,
        choice.picked(history, len, index, &after),
    ensures
        ({
            let row = if weights.len() == choice.points() * choice.points() {
                history[0] as int
            } else {
                0
            };
            index < choice.points() && weights[row * choice.points() + index] > 0
        }),
{
    let n = choice.points() as int;
    let last = history[0] as int;
    let total = choice.row_total(last);
    let num = uniform_below(choice.generator().state(), total).0;
    assert((last + 1) * n - 1 == last * n + n - 1) by (nonlinear_arith);
    lemma_picked_weight_is_positive(n, weights, last, num, len as int);
}

/// Where the last running sum before `limit` lies above `num`, some column
/// is found: the running sum of the column lies above `num` and that of no
/// column before it does.
proof fn lemma_first_above_finds(row: Seq<u64>, num: u64, limit: int, from: int)
    requires
        0 <= from < limit <= row.len(),
        row[limit - 1] > num,
    ensures
        first_above(row, num, limit, from) matches Some(x) && from <= x < limit && row[x] > num
            && forall|j: int| from <= j < x ==> row[j] <= num,
    decreases limit - from,
{
    if row[from] <= num {
        lemma_first_above_finds(row, num, limit, from + 1);
    }
}

impl Clone for MatrixChoice {
    /// The same table with a generator that starts anew from the identity
    /// of this one.
    fn clone(&self) -> (copy: Self)
        ensures
            copy.points() == self.points(),
            copy.table() == self.table(),
            copy.generator().cloned_from(&self.generator()),
    {
        MatrixChoice { rng: self.rng.clone(), table: self.table.clone() }
    }
}

impl Choice for MatrixChoice {
    open spec fn admits(&self, history: Seq<usize>, len: usize) -> bool {
        history.len() >= 1 && history[0] < self.points()
    }

    open spec fn bound(&self, len: usize) -> nat {
        self.points() as nat
    }

    open spec fn generators(&self) -> Seq<RuleRng> {
        seq![self.generator()]
    }

    fn accepts(&self, history: &[usize], len: usize) -> (ok: bool) {
        history.len() >= 1 && history[0] < self.table.n_points
    }

    fn index_bound(&self, len: usize) -> (limit: Option<usize>) {
        Some(self.table.n_points)
    }

    /// A row without weight leads nowhere: the index is the newest anchor
    /// and the generator is not asked. Otherwise the index is the anchor
    /// that follows the newest one for the number drawn below the total of
    /// its row.
    open spec fn picked(&self, history: Seq<usize>, len: usize, index: usize, after: &Self) -> bool {
        let last = history[0] as int;
        let total = self.row_total(last);
        let (num, state) = uniform_below(self.generator().state(), total);
        &&& after.points() == self.points()
        &&& after.table() == self.table()
        &&& after.generator().identity() == self.generator().identity()
        &&& if total == 0 {
            index == last && after.generator().state() == self.generator().state()
        } else {
            &&& num < total
            &&& after.generator().state() == state
            &&& index == matrix_index(self.table(), self.points() as int, last, num, len as int)
        }
    }

    fn choose_point(&mut self, history: &[usize], len: usize) -> (index: usize)
    {
        proof {
            use_type_invariant(&self.table);
        }
        let last: usize = history[0];
        let n: usize = self.table.n_points;
        let cells: usize = self.table.sums.len();
        assert(0 <= last * n && (last + 1) * n <= n * n && (last + 1) * n >= 1) by (nonlinear_arith)
            requires
                last < n,
        ;
        let total: u64 = self.table.sums[(last + 1) * n - 1];
        if total == 0 {
            return last;
        }
        let num: u64 = self.rng.below(total);
        self.pick(last, num, len)
    }

    fn reseed(&mut self, seed: &[u8; 32])
        ensures
            final(self).points() == old(self).points(),
            final(self).table() == old(self).table(),
            final(self).generator().reseeded_from(&old(self).generator(), seed@),
    {
        self.rng.reseed(seed);
    }
}

} // verus!
