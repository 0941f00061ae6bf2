//! The bookkeeping of one sampling worker: what it does next, how many
//! steps its buffer stands for, and where a sample lands in the raster.
//!
//! The worker itself draws samples and talks to its channels elsewhere; it
//! asks this module what each event means.

use vstd::prelude::*;

verus! {

/// What the control channel held at the top of the worker's loop.
#[derive(Clone, Copy, Debug, PartialEq, Eq, Structural)]
pub enum Control {
    /// The canvas has a new size.
    Resize(usize, usize),
    /// The worker is to stop.
    Stop,
    /// Nothing was waiting.
    Idle,
}

/// What the worker does after looking at the control channel.
#[derive(Clone, Copy, Debug, PartialEq, Eq, Structural)]
pub enum Plan {
    /// Take a fresh buffer of the new size and look at the channel again.
    Restart,
    /// Hand over what the buffer holds and end.
    Flush,
    /// Run a batch of that many main steps.
    Sample(usize),
}

/// How the attempt to hand a batch to the manager ended.
#[derive(Clone, Copy, Debug, PartialEq, Eq, Structural)]
pub enum Delivery {
    /// The queue took the batch.
    Sent,
    /// The queue was full and gave the batch back.
    Full,
    /// Nobody listens any more.
    Disconnected,
}

/// What becomes of the worker's buffer after a delivery attempt.
#[derive(Clone, Copy, Debug, PartialEq, Eq, Structural)]
pub enum Handoff {
    /// The buffer is gone: go on with an empty one.
    Fresh,
    /// The buffer came back: go on accumulating into it.
    Keep,
    /// The worker cannot go on.
    Fatal,
}

/// The counters of a worker between two events.
#[derive(Clone, Copy, Debug, PartialEq, Eq, Structural)]
pub struct WorkerState {
    pub width: usize,
    pub height: usize,
    /// Steps that the buffer stands for and that no manager has taken yet.
    pub steps: usize,
    /// Whether no batch ran since the start or the last resize.
    pub first_iteration: bool,
}

/// One thing that happens to a worker.
#[derive(Clone, Copy, Debug, PartialEq, Eq, Structural)]
pub enum Event {
    /// It looked at the control channel.
    Control(Control),
    /// It finished a batch of `batch` main steps, each with `scatter_steps`
    /// scatter draws.
    Batch { batch: usize, scatter_steps: usize },
    /// It tried to hand its buffer over.
    Delivery(Delivery),
}

/// The length of a batch: a tenth of the configured length, but at least
/// one step, for the first batch; the configured length afterwards.
pub open spec fn batch_length(configured: usize, first: bool) -> usize {
    if first {
        if configured / 10 >= 1 {
            (configured / 10) as usize
        } else {
            1
        }
    } else {
        configured
    }
}

/// The raster position of the cell in column `column` and row `row` of a
/// canvas, or nothing where the cell lies outside.
pub open spec fn cell_index(width: usize, height: usize, column: i64, row: i64) -> Option<usize> {
    if 0 <= column < width && 0 <= row < height {
        Some((column + row * width) as usize)
    } else {
        None
    }
}

/// The history after `index` became its newest entry: every older entry
/// moves back by one and the oldest leaves.
pub open spec fn pushed(history: Seq<usize>, index: usize) -> Seq<usize> {
    seq![index] + history.drop_last()
}

impl WorkerState {
    /// The counters after an event. A resize starts over with the new
    /// size; an idle channel lets the next batch run; a batch adds its
    /// steps; a delivery that was taken leaves nothing counted; everything
    /// else changes nothing.
    pub open spec fn after(self, event: Event) -> WorkerState {
        match event {
            Event::Control(Control::Resize(width, height)) => WorkerState {
                width,
                height,
                steps: 0,
                first_iteration: true,
            },
            Event::Control(Control::Stop) => self,
            Event::Control(Control::Idle) => WorkerState { first_iteration: false, ..self },
            Event::Batch { batch, scatter_steps } => WorkerState {
                steps: (self.steps + batch * (1 + scatter_steps)) as usize,
                ..self
            },
            Event::Delivery(Delivery::Sent) => WorkerState { steps: 0, ..self },
            Event::Delivery(_) => self,
        }
    }

    /// The counters after a run of events.
    pub open spec fn after_all(self, events: Seq<Event>) -> WorkerState
        decreases events.len(),
    {
        if events.len() == 0 {
            self
        } else {
            self.after_all(events.drop_last()).after(events.last())
        }
    }

    /// Whether the counters can hold every batch of a run of events.
    pub open spec fn holds(self, events: Seq<Event>) -> bool
        decreases events.len(),
    {
        if events.len() == 0 {
            true
        } else {
            &&& self.holds(events.drop_last())
            &&& events.last() matches Event::Batch { batch, scatter_steps } ==> self.after_all(
                events.drop_last(),
            ).steps + batch * (1 + scatter_steps) <= usize::MAX
        }
    }

    /// The steps that the batches of a run of events sampled.
    pub open spec fn sampled(events: Seq<Event>) -> nat
        decreases events.len(),
    {
        if events.len() == 0 {
            0
        } else {
            Self::sampled(events.drop_last()) + match events.last() {
                Event::Batch { batch, scatter_steps } => (batch * (1 + scatter_steps)) as nat,
                _ => 0,
            }
        }
    }

    /// The steps that left the worker during a run of events: those of the
    /// buffers that a delivery handed over, and those of the buffers that a
    /// resize threw away.
    pub open spec fn released(self, events: Seq<Event>) -> nat
        decreases events.len(),
    {
        if events.len() == 0 {
            0
        } else {
            self.released(events.drop_last()) + match events.last() {
                Event::Delivery(Delivery::Sent) | Event::Control(Control::Resize(_, _)) => self.after_all(
                    events.drop_last(),
                ).steps as nat,
                _ => 0,
            }
        }
    }

    /// No step is counted twice and none is lost: after any run of events
    /// the steps that the worker still counts, together with the steps
    /// that left it, are the steps it started with and the steps it
    /// sampled.
    pub proof fn lemma_steps_are_conserved(self, events: Seq<Event>)
        requires
            self.holds(events),
        ensures
            self.after_all(events).steps + self.released(events) == self.steps + Self::sampled(
                events,
            ),
        decreases events.len(),
    {
        if events.len() > 0 {
            self.lemma_steps_are_conserved(events.drop_last());
            match events.last() {
                Event::Batch { batch, scatter_steps } => {
                    assert(batch * (1 + scatter_steps) >= 0) by (nonlinear_arith);
                },
                _ => {},
            }
        }
    }

    /// The counters of a worker that has not run yet.
    pub fn new(width: usize, height: usize) -> (state: Self)
        ensures
            state == (WorkerState { width, height, steps: 0, first_iteration: true }),
    {
        WorkerState { width, height, steps: 0, first_iteration: true }
    }

    /// Decides what follows from the control channel. A resize forgets the
    /// counted steps and makes the next batch a first one; a stop changes
    /// nothing; with nothing waiting, a batch of `configured` steps is due,
    /// shortened if it is the first.
    pub fn plan(&mut self, control: Control, configured: usize) -> (plan: Plan)
        ensures
            *final(self) == old(self).after(Event::Control(control)),
            plan == match control {
                Control::Resize(_, _) => Plan::Restart,
                Control::Stop => Plan::Flush,
                Control::Idle => Plan::Sample(batch_length(configured, old(self).first_iteration)),
            },
    {
        match control {
            Control::Resize(width, height) => {
                self.width = width;
                self.height = height;
                self.steps = 0;
                self.first_iteration = true;
                Plan::Restart
            },
            Control::Stop => Plan::Flush,
            Control::Idle => {
                let length: usize = if self.first_iteration {
                    let tenth: usize = configured / 10;
                    if tenth >= 1 {
                        tenth
                    } else {
                        1
                    }
                } else {
                    configured
                };
                self.first_iteration = false;
                Plan::Sample(length)
            },
        }
    }

    /// Counts a finished batch: each of its `batch` main steps came with
    /// `scatter_steps` scatter draws.
    pub fn record(&mut self, batch: usize, scatter_steps: usize)
        requires
            old(self).steps + batch * (1 + scatter_steps) <= usize::MAX,
        ensures
            *final(self) == old(self).after(Event::Batch { batch, scatter_steps }),
            final(self).steps == old(self).steps + batch * (1 + scatter_steps),
    {
        assert(batch * (1 + scatter_steps) >= 0) by (nonlinear_arith);
        assert(batch > 0 ==> 1 + scatter_steps <= batch * (1 + scatter_steps)) by (nonlinear_arith);
        if batch > 0 {
            self.steps = self.steps + batch * (1 + scatter_steps);
        }
    }

    /// Decides what follows from a delivery attempt. A batch that was taken
    /// leaves nothing counted; one that came back stays counted, so that no
    /// sample is lost while the queue is full.
    pub fn deliver(&mut self, delivery: Delivery) -> (handoff: Handoff)
        ensures
            *final(self) == old(self).after(Event::Delivery(delivery)),
            handoff == match delivery {
                Delivery::Sent => Handoff::Fresh,
                Delivery::Full => Handoff::Keep,
                Delivery::Disconnected => Handoff::Fatal,
            },
    {
        match delivery {
            Delivery::Sent => {
                self.steps = 0;
                Handoff::Fresh
            },
            Delivery::Full => Handoff::Keep,
            Delivery::Disconnected => Handoff::Fatal,
        }
    }

    /// Where the sample of a cell is accumulated: the raster position of
    /// the cell, or nothing where it lies outside the canvas.
    pub fn cell(&self, column: i64, row: i64) -> (at: Option<usize>)
        requires
            self.width * self.height <= usize::MAX,
        ensures
            at == cell_index(self.width, self.height, column, row),
            at matches Some(i) ==> i < self.width * self.height,
    {
        if column < 0 || row < 0 {
            return None;
        }
        let column: u64 = column as u64;
        let row: u64 = row as u64;
        if column < self.width as u64 && row < self.height as u64 {
            let x: usize = column as usize;
            let y: usize = row as usize;
            assert(x + y * self.width < self.width * self.height) by (nonlinear_arith)
                requires
                    x < self.width,
                    y < self.height,
            ;
            Some(x + y * self.width)
        } else {
            None
        }
    }
}

/// What a worker does at one step of a batch.
#[derive(Clone, Copy, Debug, PartialEq, Eq, Structural)]
pub enum Step {
    /// A draw that moves the chain and its history and is not accumulated.
    BurnIn,
    /// A draw around the point of the chain that is accumulated and leaves
    /// the chain and its history where they are.
    Scatter,
    /// A draw that is accumulated and moves the chain and its history.
    Main,
    /// The batch is over.
    Done,
}

/// The steps of a batch that are still due: first the burn-in, then for
/// every main step its scatter draws and the main draw itself.
#[derive(Clone, Copy, Debug, PartialEq, Eq, Structural)]
pub struct Schedule {
    /// Burn-in draws that are still due.
    pub burnin_left: usize,
    /// Main draws that are still due.
    pub main_left: usize,
    /// Scatter draws that are still due before the next main draw.
    pub scatter_left: usize,
    /// Scatter draws that come with every main draw.
    pub scatter_steps: usize,
}

impl Schedule {
    /// What is due now: burn-in as long as there is any, then scatter
    /// draws until the main draw they belong to, until no main draw is
    /// left.
    pub open spec fn due(self) -> Step {
        if self.burnin_left > 0 {
            Step::BurnIn
        } else if self.main_left == 0 {
            Step::Done
        } else if self.scatter_left > 0 {
            Step::Scatter
        } else {
            Step::Main
        }
    }

    /// The schedule after what is due was done. A main draw brings the
    /// scatter draws of the next one with it.
    pub open spec fn stepped(self) -> Schedule {
        match self.due() {
            Step::BurnIn => Schedule { burnin_left: (self.burnin_left - 1) as usize, ..self },
            Step::Scatter => Schedule { scatter_left: (self.scatter_left - 1) as usize, ..self },
            Step::Main => Schedule {
                main_left: (self.main_left - 1) as usize,
                scatter_left: self.scatter_steps,
                ..self
            },
            Step::Done => self,
        }
    }

    /// The draws that are still to be accumulated.
    pub open spec fn accumulating(self) -> nat {
        if self.main_left == 0 {
            0
        } else {
            ((self.main_left - 1) * (1 + self.scatter_steps) + self.scatter_left + 1) as nat
        }
    }

    /// Whether no more scatter draws are due before the next main draw than
    /// come with one.
    pub open spec fn wf(self) -> bool {
        self.scatter_left <= self.scatter_steps
    }

    /// The schedule of a batch of `batch` main steps after `burnin_steps`
    /// of burn-in, with `scatter_steps` scatter draws for every main step.
    /// It accumulates as many draws as the worker counts for the batch.
    pub fn new(burnin_steps: usize, batch: usize, scatter_steps: usize) -> (schedule: Self)
        ensures
            schedule == (Schedule {
                burnin_left: burnin_steps,
                main_left: batch,
                scatter_left: scatter_steps,
                scatter_steps,
            }),
            schedule.wf(),
            schedule.accumulating() == batch * (1 + scatter_steps),
    {
        assert(batch > 0 ==> (batch - 1) * (1 + scatter_steps) + scatter_steps + 1 == batch * (1
            + scatter_steps)) by (nonlinear_arith);
        assert(batch == 0 ==> batch * (1 + scatter_steps) == 0) by (nonlinear_arith);
        Schedule {
            burnin_left: burnin_steps,
            main_left: batch,
            scatter_left: scatter_steps,
            scatter_steps,
        }
    }

    /// Says what is due now and moves on.
    pub fn next_step(&mut self) -> (step: Step)
        ensures
            step == old(self).due(),
            *final(self) == old(self).stepped(),
    {
        if self.burnin_left > 0 {
            self.burnin_left = self.burnin_left - 1;
            Step::BurnIn
        } else if self.main_left == 0 {
            Step::Done
        } else if self.scatter_left > 0 {
            self.scatter_left = self.scatter_left - 1;
            Step::Scatter
        } else {
            self.main_left = self.main_left - 1;
            self.scatter_left = self.scatter_steps;
            Step::Main
        }
    }

    /// Every step does what the schedule says: a burn-in draw accumulates
    /// nothing, a scatter or main draw accumulates one, no draw is
    /// accumulated before the burn-in is over, and the batch is done
    /// exactly when nothing is left to accumulate.
    pub proof fn lemma_step_counts(self)
        requires
            self.wf(),
        ensures
            self.stepped().wf(),
            match self.due() {
                Step::BurnIn => {
                    &&& self.stepped().burnin_left + 1 == self.burnin_left
                    &&& self.stepped().accumulating() == self.accumulating()
                },
                Step::Scatter | Step::Main => {
                    &&& self.burnin_left == 0
                    &&& self.stepped().burnin_left == 0
                    &&& self.stepped().accumulating() + 1 == self.accumulating()
                },
                Step::Done => {
                    &&& self.burnin_left == 0
                    &&& self.accumulating() == 0
                    &&& self.stepped() == self
                },
            },
    {
        let k = self.scatter_steps as int;
        let m = self.main_left as int;
        if self.due() == Step::Main {
            assert(m >= 2 ==> (m - 2) * (1 + k) + k + 1 + 1 == (m - 1) * (1 + k) + 0 + 1)
                by (nonlinear_arith);
            assert(m == 1 ==> (m - 1) * (1 + k) == 0) by (nonlinear_arith);
        }
    }
}

/// Makes `index` the newest entry of the history ring.
pub fn push_history(history: &mut Vec<usize>, index: usize)
    requires
        old(history)@.len() >= 1,
    ensures
        final(history)@ == pushed(old(history)@, index),
{
    let len: usize = history.len();
    let mut at: usize = len - 1;
    while at > 0
        invariant
            at < len,
            len == history@.len(),
            len == old(history)@.len(),
            forall|j: int| 0 <= j <= at ==> history@[j] == old(history)@[j],
            forall|j: int| at < j < len ==> history@[j] == old(history)@[j - 1],
        decreases at,
    {
        history[at] = history[at - 1];
        at -= 1;
    }
    history[0] = index;
    assert(history@ =~= pushed(old(history)@, index));
}

} // verus!
