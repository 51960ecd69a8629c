use vstd::prelude::*;

verus! {

/// What one poll of a task reports back to the runtime.
#[derive(Clone, Copy, Debug, PartialEq, Eq, Structural)]
pub enum RunResult {
    Pending,
    Finished,
    Canceled,
}

/// A future that gives way once: its first poll asks to be woken again and
/// reports pending, every later poll reports ready.
#[derive(Debug)]
pub struct Yield(bool);

impl Yield {
    /// Whether the future already gave way once.
    pub closed spec fn has_yielded(&self) -> bool {
        self.0
    }

    pub fn new() -> (r: Self)
        ensures
            !r.has_yielded(),
    {
        Yield(false)
    }

    /// One poll: `true` means ready; `false` means pending, and the caller
    /// wakes the task so that it is polled again.
    pub fn poll_ready(&mut self) -> (ready: bool)
        ensures
            ready == old(self).has_yielded(),
            final(self).has_yielded(),
    {
        if !self.0 {
            self.0 = true;
            false
        } else {
            true
        }
    }
}

/// The largest reference count a task can carry; the four top bits of the
/// state word hold the lifecycle flags.
pub const REF_COUNT_MAX: usize = !0usize >> 4u32;

/// Set once the future has produced its output.
pub const FINISHED_BIT: usize = 1usize << ((usize::BITS - 1) as u32);

/// Set while the future is being polled.
pub const RUNNING_BIT: usize = 1usize << ((usize::BITS - 2) as u32);

/// Set once the future has been canceled.
pub const CANCEL_BIT: usize = 1usize << ((usize::BITS - 3) as u32);

/// Set once the output has been taken out of the task.
pub const CONSUMED_BIT: usize = 1usize << ((usize::BITS - 4) as u32);

/// The lifecycle of a task as the runtime sees it.
pub struct TaskStateView {
    pub ref_count: nat,
    pub running: bool,
    pub finished: bool,
    pub canceled: bool,
    pub consumed: bool,
}

impl TaskStateView {
    /// The states a task can reach: it is running, finished or canceled, at
    /// most one of them, and only a finished output can have been consumed.
    pub open spec fn wf(self) -> bool {
        &&& !(self.running && self.finished)
        &&& !(self.running && self.canceled)
        &&& !(self.finished && self.canceled)
        &&& self.consumed ==> self.finished
    }

    /// No flag is set: the future may be polled.
    pub open spec fn idle(self) -> bool {
        !self.running && !self.finished && !self.canceled && !self.consumed
    }

    /// The output is there and nobody took it yet.
    pub open spec fn consumable(self) -> bool {
        self.finished && !self.running && !self.canceled && !self.consumed
    }

    pub open spec fn with_ref_count(self, n: nat) -> TaskStateView {
        TaskStateView { ref_count: n, ..self }
    }

    /// The state after a poll that ran the future and got `r` back.
    pub open spec fn after_run(self, r: RunResult) -> TaskStateView {
        match r {
            RunResult::Finished => TaskStateView { finished: true, ..self },
            RunResult::Canceled => TaskStateView { canceled: true, ..self },
            RunResult::Pending => self,
        }
    }

    /// What a poll answers without running the future, or `None` when the
    /// future is run.
    pub open spec fn poll_shortcut(self) -> Option<RunResult> {
        if self.idle() {
            None
        } else if self.finished {
            Some(RunResult::Finished)
        } else if self.canceled {
            Some(RunResult::Canceled)
        } else {
            Some(RunResult::Pending)
        }
    }
}

/// The reference count and lifecycle flags of a task, packed in one word.
pub struct TaskState(usize);

spec fn count_of(s: usize) -> usize {
    s & (!0usize >> 4u32)
}

spec fn has_bit(s: usize, bit: usize) -> bool {
    s & bit != 0
}

impl View for TaskState {
    type V = TaskStateView;

    closed spec fn view(&self) -> TaskStateView {
        TaskStateView {
            ref_count: count_of(self.0) as nat,
            running: has_bit(self.0, 1usize << ((usize::BITS - 2) as u32)),
            finished: has_bit(self.0, 1usize << ((usize::BITS - 1) as u32)),
            canceled: has_bit(self.0, 1usize << ((usize::BITS - 3) as u32)),
            consumed: has_bit(self.0, 1usize << ((usize::BITS - 4) as u32)),
        }
    }
}

proof fn lemma_zero_word()
    by (bit_vector)
    ensures
        0usize & (!0usize >> 4u32) == 0usize,
        0usize & (1usize << ((usize::BITS - 1) as u32)) == 0usize,
        0usize & (1usize << ((usize::BITS - 2) as u32)) == 0usize,
        0usize & (1usize << ((usize::BITS - 3) as u32)) == 0usize,
        0usize & (1usize << ((usize::BITS - 4) as u32)) == 0usize,
{
}

proof fn lemma_increment_word(s: usize)
    by (bit_vector)
    requires
        s & (!0usize >> 4u32) < !0usize >> 4u32,
    ensures
        s < !0usize,
        ((s + 1) as usize) & (!0usize >> 4u32) == (s & (!0usize >> 4u32)) + 1,
        ((s + 1) as usize) & (1usize << ((usize::BITS - 1) as u32)) == s & (1usize << ((usize::BITS - 1) as u32)),
        ((s + 1) as usize) & (1usize << ((usize::BITS - 2) as u32)) == s & (1usize << ((usize::BITS - 2) as u32)),
        ((s + 1) as usize) & (1usize << ((usize::BITS - 3) as u32)) == s & (1usize << ((usize::BITS - 3) as u32)),
        ((s + 1) as usize) & (1usize << ((usize::BITS - 4) as u32)) == s & (1usize << ((usize::BITS - 4) as u32)),
{
}

proof fn lemma_decrement_word(s: usize)
    by (bit_vector)
    requires
        s & (!0usize >> 4u32) > 0,
    ensures
        s > 0,
        ((s - 1) as usize) & (!0usize >> 4u32) == (s & (!0usize >> 4u32)) - 1,
        ((s - 1) as usize) & (1usize << ((usize::BITS - 1) as u32)) == s & (1usize << ((usize::BITS - 1) as u32)),
        ((s - 1) as usize) & (1usize << ((usize::BITS - 2) as u32)) == s & (1usize << ((usize::BITS - 2) as u32)),
        ((s - 1) as usize) & (1usize << ((usize::BITS - 3) as u32)) == s & (1usize << ((usize::BITS - 3) as u32)),
        ((s - 1) as usize) & (1usize << ((usize::BITS - 4) as u32)) == s & (1usize << ((usize::BITS - 4) as u32)),
{
}

proof fn lemma_set_bit_word(s: usize, bit: usize)
    by (bit_vector)
    requires
        bit == (1usize << ((usize::BITS - 1) as u32)) || bit == (1usize << ((usize::BITS - 2) as u32)) || bit == (1usize << ((usize::BITS - 3) as u32)) || bit == (1usize << ((usize::BITS - 4) as u32)),
    ensures
        (s | bit) & (!0usize >> 4u32) == s & (!0usize >> 4u32),
        (s | bit) & bit != 0,
        bit != (1usize << ((usize::BITS - 1) as u32)) ==> (s | bit) & (1usize << ((usize::BITS - 1) as u32)) == s & (1usize << ((usize::BITS - 1) as u32)),
        bit != (1usize << ((usize::BITS - 2) as u32)) ==> (s | bit) & (1usize << ((usize::BITS - 2) as u32)) == s & (1usize << ((usize::BITS - 2) as u32)),
        bit != (1usize << ((usize::BITS - 3) as u32)) ==> (s | bit) & (1usize << ((usize::BITS - 3) as u32)) == s & (1usize << ((usize::BITS - 3) as u32)),
        bit != (1usize << ((usize::BITS - 4) as u32)) ==> (s | bit) & (1usize << ((usize::BITS - 4) as u32)) == s & (1usize << ((usize::BITS - 4) as u32)),
{
}

proof fn lemma_flag_test_word(s: usize)
    by (bit_vector)
    ensures
        (s == (s & (!0usize >> 4u32)) | (1usize << ((usize::BITS - 1) as u32))) == (s & (1usize << ((usize::BITS - 1) as u32)) != 0 && s & (1usize << ((usize::BITS - 2) as u32)) == 0 && s & (1usize << ((usize::BITS - 3) as u32)) == 0
            && s & (1usize << ((usize::BITS - 4) as u32)) == 0),
        (1usize << ((usize::BITS - 1) as u32)) != (1usize << ((usize::BITS - 2) as u32)),
        (1usize << ((usize::BITS - 1) as u32)) != (1usize << ((usize::BITS - 3) as u32)),
        (1usize << ((usize::BITS - 1) as u32)) != (1usize << ((usize::BITS - 4) as u32)),
        (1usize << ((usize::BITS - 2) as u32)) != (1usize << ((usize::BITS - 3) as u32)),
        (1usize << ((usize::BITS - 2) as u32)) != (1usize << ((usize::BITS - 4) as u32)),
        (1usize << ((usize::BITS - 3) as u32)) != (1usize << ((usize::BITS - 4) as u32)),
        (s == s & (!0usize >> 4u32)) == (s & (1usize << ((usize::BITS - 1) as u32)) == 0 && s & (1usize << ((usize::BITS - 2) as u32)) == 0 && s & (1usize << ((usize::BITS - 3) as u32)) == 0 && s & (1usize << ((usize::BITS - 4) as u32)) == 0),
{
}

proof fn lemma_toggle_word(s: usize, bits: usize)
    by (bit_vector)
    requires
        s & (1usize << ((usize::BITS - 2) as u32)) != 0,
        s & (1usize << ((usize::BITS - 1) as u32)) == 0,
        s & (1usize << ((usize::BITS - 3) as u32)) == 0,
        bits == (1usize << ((usize::BITS - 2) as u32)) || bits == (1usize << ((usize::BITS - 2) as u32)) | (1usize << ((usize::BITS - 1) as u32)) || bits == (1usize << ((usize::BITS - 2) as u32)) | (1usize << ((usize::BITS - 3) as u32)),
    ensures
        (1usize << ((usize::BITS - 2) as u32)) != (1usize << ((usize::BITS - 2) as u32)) | (1usize << ((usize::BITS - 1) as u32)),
        (1usize << ((usize::BITS - 2) as u32)) != (1usize << ((usize::BITS - 2) as u32)) | (1usize << ((usize::BITS - 3) as u32)),
        (1usize << ((usize::BITS - 2) as u32)) | (1usize << ((usize::BITS - 1) as u32)) != (1usize << ((usize::BITS - 2) as u32)) | (1usize << ((usize::BITS - 3) as u32)),
        (s ^ bits) & (!0usize >> 4u32) == s & (!0usize >> 4u32),
        (s ^ bits) & (1usize << ((usize::BITS - 2) as u32)) == 0,
        (s ^ bits) & (1usize << ((usize::BITS - 4) as u32)) == s & (1usize << ((usize::BITS - 4) as u32)),
        ((s ^ bits) & (1usize << ((usize::BITS - 1) as u32)) != 0) == (bits == (1usize << ((usize::BITS - 2) as u32)) | (1usize << ((usize::BITS - 1) as u32))),
        ((s ^ bits) & (1usize << ((usize::BITS - 3) as u32)) != 0) == (bits == (1usize << ((usize::BITS - 2) as u32)) | (1usize << ((usize::BITS - 3) as u32))),
{
}

impl TaskState {
    pub fn new() -> (r: Self)
        ensures
            r@ == (TaskStateView {
                ref_count: 0,
                running: false,
                finished: false,
                canceled: false,
                consumed: false,
            }),
    {
        proof {
            lemma_zero_word();
        }
        TaskState(0)
    }

    /// Take one more reference on the task; returns the new count.
    pub fn add_ref(&mut self) -> (r: usize)
        requires
            old(self)@.ref_count < REF_COUNT_MAX,
        ensures
            r == old(self)@.ref_count + 1,
            final(self)@ == old(self)@.with_ref_count(old(self)@.ref_count + 1),
    {
        let old_count = self.0;
        proof {
            lemma_increment_word(old_count);
        }
        self.0 = old_count + 1;
        (old_count & REF_COUNT_MAX) + 1
    }

    /// Drop one reference on the task; returns the new count.
    pub fn sub_ref(&mut self) -> (r: usize)
        requires
            old(self)@.ref_count > 0,
        ensures
            r == old(self)@.ref_count - 1,
            final(self)@ == old(self)@.with_ref_count((old(self)@.ref_count - 1) as nat),
    {
        let old_count = self.0;
        proof {
            lemma_decrement_word(old_count);
        }
        self.0 = old_count - 1;
        (old_count & REF_COUNT_MAX) - 1
    }

    /// Claim the output of a finished task: succeeds once, and only for a
    /// task that finished and was neither canceled nor consumed before.
    pub fn try_consume(&mut self) -> (r: bool)
        requires
            old(self)@.wf(),
        ensures
            r == old(self)@.consumable(),
            r ==> final(self)@ == (TaskStateView { consumed: true, ..old(self)@ }),
            !r ==> final(self)@ == old(self)@,
            final(self)@.wf(),
    {
        let current = self.0;
        proof {
            lemma_flag_test_word(current);
        }
        if current == (current & REF_COUNT_MAX) | FINISHED_BIT {
            proof {
                lemma_set_bit_word(current, CONSUMED_BIT);
            }
            self.0 = current | CONSUMED_BIT;
            return true;
        }
        if current & FINISHED_BIT == 0 {
            // Not finished
            return false;
        }
        if current & CANCEL_BIT != 0 {
            // Canceled
            return false;
        }
        // Already consumed: a finished task that is running cannot occur
        false
    }

    /// Poll a task through its lifecycle: an idle task is marked running,
    /// `poll_fun` is called once, and the task is marked after its answer.
    /// A task that is not idle is not polled: it answers `Finished`,
    /// `Canceled` or, while another poll runs it, `Pending`.
    pub fn poll_lifecycle<F>(&mut self, poll_fun: F) -> (r: RunResult)
        where
            F: FnOnce() -> RunResult,
        requires
            old(self)@.wf(),
            !old(self)@.idle() ==> old(self)@.ref_count > 0,
            call_requires(poll_fun, ()),
        ensures
            old(self)@.poll_shortcut() matches Some(answer) ==> r == answer
                && final(self)@ == old(self)@,
            old(self)@.idle() ==> call_ensures(poll_fun, (), r)
                && final(self)@ == old(self)@.after_run(r),
            final(self)@.wf(),
    {
        let current = self.0;
        proof {
            lemma_flag_test_word(current);
        }
        if current != current & REF_COUNT_MAX {
            if current & FINISHED_BIT != 0 {
                // Future already finished
                return RunResult::Finished;
            }
            if current & CANCEL_BIT != 0 {
                // Future canceled
                return RunResult::Canceled;
            }
            // Future already running
            return RunResult::Pending;
        }
        proof {
            lemma_set_bit_word(current, RUNNING_BIT);
        }
        let running = current | RUNNING_BIT;
        self.0 = running;
        let outcome = poll_fun();
        let bits = match outcome {
            RunResult::Finished => RUNNING_BIT | FINISHED_BIT,
            RunResult::Canceled => RUNNING_BIT | CANCEL_BIT,
            RunResult::Pending => RUNNING_BIT,
        };
        proof {
            lemma_toggle_word(running, bits);
        }
        self.0 = running ^ bits;
        outcome
    }
}

} // verus!

verus! {

/// A task that finished stays finished: every later poll answers `Finished`
/// without running the future again, whatever references are taken or
/// dropped and whether the output was consumed.
pub proof fn lemma_finished_is_final(v: TaskStateView, n: nat)
    requires
        v.wf(),
        v.finished,
    ensures
        v.poll_shortcut() == Some(RunResult::Finished),
        v.with_ref_count(n).poll_shortcut() == Some(RunResult::Finished),
        (TaskStateView { consumed: true, ..v }).poll_shortcut() == Some(RunResult::Finished),
{
}

/// A poll that runs an idle future to completion leaves its output ready to
/// be consumed, and the output is handed out at most once.
pub proof fn lemma_output_consumed_once(v: TaskStateView)
    requires
        v.wf(),
        v.idle(),
    ensures
        v.after_run(RunResult::Finished).consumable(),
        !(TaskStateView { consumed: true, ..v.after_run(RunResult::Finished) }).consumable(),
        !v.after_run(RunResult::Canceled).consumable(),
        !v.after_run(RunResult::Pending).consumable(),
{
}

/// Every transition keeps the task in a reachable state.
pub proof fn lemma_transitions_keep_wf(v: TaskStateView, r: RunResult, n: nat)
    requires
        v.wf(),
    ensures
        v.with_ref_count(n).wf(),
        v.idle() ==> v.after_run(r).wf(),
        v.consumable() ==> (TaskStateView { consumed: true, ..v }).wf(),
{
}

} // verus!
