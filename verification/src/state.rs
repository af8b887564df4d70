//! Single-task guard for searches and transcriptions: at most one task runs at a
//! time, and the running task can be asked to stop.
use vstd::prelude::*;

verus! {

/// `None` while idle; `Some(c)` while a task runs, `c` telling whether it was
/// asked to stop.
pub type SlotView = Option<bool>;

/// The slot after `begin`, and whether a task was started.
pub open spec fn spec_begin(s: SlotView) -> (bool, SlotView) {
    match s {
        Some(_) => (false, s),
        None => (true, Some(false)),
    }
}

/// The slot after `cancel`, and what `cancel` returns.
pub open spec fn spec_cancel(s: SlotView) -> (bool, SlotView) {
    match s {
        Some(_) => (true, Some(true)),
        None => (false, None),
    }
}

/// The slot after `end`.
pub open spec fn spec_end(s: SlotView) -> SlotView {
    None
}

pub struct SearchState {
    slot: Option<bool>,
}

impl View for SearchState {
    type V = SlotView;

    closed spec fn view(&self) -> SlotView {
        self.slot
    }
}

impl SearchState {
    /// An idle guard.
    pub fn new() -> (s: Self)
        ensures
            s@ == None::<bool>,
    {
        SearchState { slot: None }
    }

    /// Starts a task; refuses (returns `false`, changes nothing) while one runs.
    pub fn begin(&mut self) -> (started: bool)
        ensures
            (started, final(self)@) == spec_begin(old(self)@),
    {
        if self.slot.is_some() {
            return false;
        }
        self.slot = Some(false);
        true
    }

    /// Frees the slot, whatever the task's outcome.
    pub fn end(&mut self)
        ensures
            final(self)@ == spec_end(old(self)@),
    {
        self.slot = None;
    }

    /// Asks the running task to stop; `false` when no task runs.
    pub fn cancel(&mut self) -> (requested: bool)
        ensures
            (requested, final(self)@) == spec_cancel(old(self)@),
    {
        match self.slot {
            Some(_) => {
                self.slot = Some(true);
                true
            },
            None => false,
        }
    }

    /// Whether the running task was asked to stop.
    pub fn is_cancelled(&self) -> (r: bool)
        ensures
            r == (self@ == Some(true)),
    {
        match self.slot {
            Some(c) => c,
            None => false,
        }
    }

    /// Whether a task runs.
    pub fn is_busy(&self) -> (r: bool)
        ensures
            r == (self@ is Some),
    {
        self.slot.is_some()
    }
}

/// Only one task at a time: a second `begin` without an `end` in between is refused
/// and leaves the running task as it was.
pub proof fn law_single_task(s: SlotView)
    ensures
        ({
            let (ok1, s1) = spec_begin(s);
            let (ok2, s2) = spec_begin(s1);
            !ok2 && s2 == s1
        }),
{
}

/// After `end` a new task can always start, and it starts not cancelled.
pub proof fn law_end_frees_slot(s: SlotView)
    ensures
        spec_begin(spec_end(s)) == (true, Some(false)),
{
}

/// Cancelling while idle reports `false` and changes nothing; cancelling a running
/// task marks it, and the mark lasts until the task ends.
pub proof fn law_cancel(s: SlotView)
    ensures
        s is None ==> spec_cancel(s) == (false, s),
        s is Some ==> spec_cancel(s) == (true, Some(true)),
        s is Some ==> spec_cancel(spec_cancel(s).1) == (true, Some(true)),
        s is Some ==> spec_begin(spec_cancel(s).1) == (false, Some(true)),
{
}

/// A fresh task is never cancelled before `cancel` is called.
pub proof fn law_fresh_task_not_cancelled(s: SlotView)
    requires
        s is None,
    ensures
        spec_begin(s).1 == Some(false),
{
}

} // verus!
