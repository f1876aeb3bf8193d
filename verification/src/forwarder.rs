//! The flush task between two cycles: which reading it offers to the
//! hand-off channel next, and when it rests.

use crate::reading::Reading;
use std::collections::VecDeque;
use vstd::prelude::*;

verus! {

/// What the flush task is to do next.
#[derive(Clone, Copy, Debug, PartialEq, Eq)]
pub enum FlushAction {
    /// Run a flush cycle and load what it picked.
    Scan,
    /// Offer this reading to the hand-off channel, and wait until the channel
    /// has room for it.
    Offer(Reading),
    /// Rest until the next cycle is due.
    Sleep,
    /// End the task: the channel is closed, or the task was asked to end
    /// and nothing waits any more.
    Stop,
}

/// Where the flush task stands.
pub struct ForwarderState {
    /// The readings that were picked and that the channel has not taken yet,
    /// the oldest first.
    pub waiting: Seq<Reading>,
    /// Whether a flush cycle is due.
    pub due: bool,
    /// Whether the task was asked to end.
    pub stopping: bool,
    /// Whether the channel was found closed.
    pub closed: bool,
}

/// What is to be done in a state. A closed channel ends the task. Else the
/// oldest waiting reading is offered; only when none waits does the task
/// end, if it was asked to, or scan, if a cycle is due, or rest. So a task
/// that is asked to end first offers what its last cycle picked.
pub open spec fn next_action(state: ForwarderState) -> FlushAction {
    if state.closed {
        FlushAction::Stop
    } else if state.waiting.len() > 0 {
        FlushAction::Offer(state.waiting[0])
    } else if state.stopping {
        FlushAction::Stop
    } else if state.due {
        FlushAction::Scan
    } else {
        FlushAction::Sleep
    }
}

/// The state after a flush cycle picked `batch`: its readings wait behind
/// those that waited before, and no cycle is due.
pub open spec fn after_load(state: ForwarderState, batch: Seq<Reading>) -> ForwarderState {
    ForwarderState { waiting: state.waiting + batch, due: false, ..state }
}

/// The state after the channel took the reading that was offered.
pub open spec fn after_accept(state: ForwarderState) -> ForwarderState {
    if state.waiting.len() > 0 {
        ForwarderState { waiting: state.waiting.subrange(1, state.waiting.len() as int), ..state }
    } else {
        state
    }
}

/// The state after the rest: a cycle is due.
pub open spec fn after_rest(state: ForwarderState) -> ForwarderState {
    ForwarderState { due: true, ..state }
}

/// The state after the channel was found closed. What waits is kept.
pub open spec fn after_close(state: ForwarderState) -> ForwarderState {
    ForwarderState { closed: true, ..state }
}

/// The state after the task was asked to end. What waits is kept.
pub open spec fn after_stop_request(state: ForwarderState) -> ForwarderState {
    ForwarderState { stopping: true, ..state }
}

/// The state after the channel took `count` readings, one after the other.
pub open spec fn after_accepts(state: ForwarderState, count: nat) -> ForwarderState
    decreases count,
{
    if count == 0 {
        state
    } else {
        after_accept(after_accepts(state, (count - 1) as nat))
    }
}

/// What waits after the channel took `count` of the waiting readings.
pub proof fn lemma_after_accepts(state: ForwarderState, count: nat)
    requires
        count <= state.waiting.len(),
    ensures
        after_accepts(state, count).waiting == state.waiting.subrange(
            count as int,
            state.waiting.len() as int,
        ),
        after_accepts(state, count).due == state.due,
        after_accepts(state, count).stopping == state.stopping,
        after_accepts(state, count).closed == state.closed,
    decreases count,
{
    if count > 0 {
        lemma_after_accepts(state, (count - 1) as nat);
        let before = after_accepts(state, (count - 1) as nat);
        assert(after_accept(before).waiting =~= state.waiting.subrange(
            count as int,
            state.waiting.len() as int,
        ));
    } else {
        assert(state.waiting =~= state.waiting.subrange(0, state.waiting.len() as int));
    }
}

/// The readings that a cycle picked are offered in their order, each once,
/// and then the task rests, or ends if it was asked to: with nothing waiting
/// before, the reading offered after the channel took `taken` of the batch
/// is the next of the batch.
pub proof fn lemma_offers_in_order(state: ForwarderState, batch: Seq<Reading>, taken: nat)
    requires
        !state.closed,
        state.waiting.len() == 0,
        taken <= batch.len(),
    ensures
        next_action(after_accepts(after_load(state, batch), taken)) == (if taken < batch.len() {
            FlushAction::Offer(batch[taken as int])
        } else if state.stopping {
            FlushAction::Stop
        } else {
            FlushAction::Sleep
        }),
{
    let loaded = after_load(state, batch);
    assert(loaded.waiting =~= batch);
    lemma_after_accepts(loaded, taken);
}

/// A reading that waits for the channel is not dropped and not overtaken:
/// while the channel takes nothing, it stays the one that is offered,
/// whatever rests and cycles go by, also when the task is asked to end.
pub proof fn lemma_waiting_reading_stays(state: ForwarderState, batch: Seq<Reading>)
    requires
        !state.closed,
        state.waiting.len() > 0,
    ensures
        next_action(state) == FlushAction::Offer(state.waiting[0]),
        next_action(after_rest(state)) == next_action(state),
        next_action(after_load(state, batch)) == next_action(state),
        next_action(after_stop_request(state)) == next_action(state),
        after_close(state).waiting == state.waiting,
{
}

/// The flush task's note of what it has picked for the hand-off channel and
/// what it is to do next.
pub struct Forwarder {
    waiting: VecDeque<Reading>,
    due: bool,
    stopping: bool,
    closed: bool,
}

impl View for Forwarder {
    type V = ForwarderState;

    closed spec fn view(&self) -> ForwarderState {
        ForwarderState {
            waiting: self.waiting@,
            due: self.due,
            stopping: self.stopping,
            closed: self.closed,
        }
    }
}

impl Forwarder {
    /// A forwarder with nothing waiting, whose first cycle is due.
    pub fn new() -> (forwarder: Forwarder)
        ensures
            forwarder@.waiting == Seq::<Reading>::empty(),
            forwarder@.due,
            !forwarder@.stopping,
            !forwarder@.closed,
    {
        Forwarder { waiting: VecDeque::new(), due: true, stopping: false, closed: false }
    }

    /// What is to be done next.
    pub fn pending(&self) -> (action: FlushAction)
        ensures
            action == next_action(self@),
    {
        broadcast use vstd::std_specs::vecdeque::axiom_spec_len;

        if self.closed {
            FlushAction::Stop
        } else if self.waiting.len() > 0 {
            FlushAction::Offer(self.waiting[0])
        } else if self.stopping {
            FlushAction::Stop
        } else if self.due {
            FlushAction::Scan
        } else {
            FlushAction::Sleep
        }
    }

    /// How many readings wait for the channel.
    pub fn waiting(&self) -> (count: usize)
        ensures
            count == self@.waiting.len(),
    {
        broadcast use vstd::std_specs::vecdeque::axiom_spec_len;

        self.waiting.len()
    }

    /// Takes note of what a flush cycle picked.
    pub fn loaded(&mut self, batch: Vec<Reading>)
        ensures
            final(self)@ == after_load(old(self)@, batch@),
    {
        let mut i: usize = 0;
        while i < batch.len()
            invariant
                i <= batch.len(),
                self.due == old(self).due,
                self.stopping == old(self).stopping,
                self.closed == old(self).closed,
                self.waiting@ == old(self).waiting@ + batch@.take(i as int),
            decreases batch.len() - i,
        {
            self.waiting.push_back(batch[i]);
            i += 1;
            assert(self.waiting@ =~= old(self).waiting@ + batch@.take(i as int));
        }
        assert(batch@.take(i as int) =~= batch@);
        self.due = false;
    }

    /// Takes note that the channel took the reading that was offered.
    pub fn accepted(&mut self)
        ensures
            final(self)@ == after_accept(old(self)@),
    {
        let _ = self.waiting.pop_front();
    }

    /// Takes note that the rest is over.
    pub fn woke(&mut self)
        ensures
            final(self)@ == after_rest(old(self)@),
    {
        self.due = true;
    }

    /// Takes note that the task was asked to end.
    pub fn stop_requested(&mut self)
        ensures
            final(self)@ == after_stop_request(old(self)@),
    {
        self.stopping = true;
    }

    /// Takes note that the channel is closed.
    pub fn channel_closed(&mut self)
        ensures
            final(self)@ == after_close(old(self)@),
    {
        self.closed = true;
    }
}

} // verus!
