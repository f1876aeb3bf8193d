//! The publish stage: what is sent to the broker for a reading, and how
//! often a failed send is tried again.

use crate::reading::Reading;
use crate::ruuvi::Measurement;
use uuid::Uuid;
use vstd::prelude::*;
use vstd::string::StringExecFns;

verus! {

/// How a client id begins.
pub const CLIENT_ID_PREFIX: &'static str = "ruuvimqtt-";

/// The topic under which readings are published.
pub const TOPIC: &'static str = "hello/rumqtt";

/// `uuid::Uuid`, an identifier of 128 bits. Its value is carried through
/// and never looked into.
#[verifier::external_type_specification]
#[verifier::external_body]
pub struct ExUuid(Uuid);

/// `Uuid::new_v4` draws a random identifier. Nothing is claimed of it.
pub assume_specification[ Uuid::new_v4 ]() -> (id: Uuid)
;

/// The client id that ends in `token`.
pub open spec fn client_id(token: Seq<char>) -> Seq<char> {
    CLIENT_ID_PREFIX@ + token
}

/// Makes the client id that ends in `token`.
pub fn client_id_for(token: &str) -> (id: String)
    ensures
        id@ == client_id(token@),
{
    let mut id = String::from_str(CLIENT_ID_PREFIX);
    id.append(token);
    id
}

/// Makes a client id that ends in a fresh random identifier.
pub fn generate_client_id() -> (id: String)
    ensures
        exists|token: Seq<char>| id@ == #[trigger] client_id(token),
{
    let unique = Uuid::new_v4();
    let token = unique.to_string();
    client_id_for(token.as_str())
}

/// The text that is published for `reading`.
pub open spec fn payload(reading: Reading) -> Seq<char> {
    Measurement::of_reading(reading, true).json()
}

/// Formats the text that is published for `reading`.
pub fn payload_of(reading: &Reading) -> (text: String)
    ensures
        text@ == payload(*reading),
{
    Measurement::from_reading(reading, true).to_string()
}

/// Where the sender stands.
#[derive(Clone, Copy, Debug, PartialEq, Eq)]
pub enum SenderState {
    /// Waiting for the next reading from the hand-off channel.
    Idle,
    /// Waiting for the broker's answer to the send number `attempt` of `reading`.
    Sending { reading: Reading, attempt: u32 },
    /// The channel is closed: nothing more will come.
    Stopped,
}

/// What happened outside the sender.
#[derive(Clone, Copy, Debug, PartialEq, Eq)]
pub enum SenderEvent {
    /// The hand-off channel gave a reading.
    Received(Reading),
    /// The hand-off channel is closed and empty.
    Closed,
    /// The broker took the reading.
    Published,
    /// The send failed.
    Failed,
}

/// What the sender asks to be done next.
#[derive(Clone, Copy, Debug, PartialEq, Eq)]
pub enum SenderAction {
    /// Take the next reading from the hand-off channel.
    Receive,
    /// Send this reading to the broker.
    Publish(Reading),
    /// Report that this reading could not be sent, then take the next one.
    GiveUp(Reading),
    /// End the task.
    Stop,
}

/// What a state waits for.
pub open spec fn awaited(state: SenderState) -> SenderAction {
    match state {
        SenderState::Idle => SenderAction::Receive,
        SenderState::Sending { reading, attempt } => SenderAction::Publish(reading),
        SenderState::Stopped => SenderAction::Stop,
    }
}

/// The sender's rule. A reading that the channel gives is sent. A send that
/// fails is tried again until `max_attempts` sends were made; then the
/// reading is given up and the next one taken, so that one reading cannot
/// hold up those behind it. An event that the state does not wait for
/// changes nothing.
pub open spec fn sender_step(max_attempts: u32, state: SenderState, event: SenderEvent) -> (
    SenderState,
    SenderAction,
) {
    match (state, event) {
        (SenderState::Idle, SenderEvent::Received(reading)) => (
            SenderState::Sending { reading, attempt: 1 },
            SenderAction::Publish(reading),
        ),
        (SenderState::Idle, SenderEvent::Closed) => (SenderState::Stopped, SenderAction::Stop),
        (SenderState::Sending { reading, attempt }, SenderEvent::Published) => (
            SenderState::Idle,
            SenderAction::Receive,
        ),
        (SenderState::Sending { reading, attempt }, SenderEvent::Failed) => if attempt
            < max_attempts {
            (
                SenderState::Sending { reading, attempt: (attempt + 1) as u32 },
                SenderAction::Publish(reading),
            )
        } else {
            (SenderState::Idle, SenderAction::GiveUp(reading))
        },
        _ => (state, awaited(state)),
    }
}

/// Whether a state can be reached with this limit: a send has a number from
/// one up to the limit, or is the single send that is made in any case.
pub open spec fn sender_wf(max_attempts: u32, state: SenderState) -> bool {
    state matches SenderState::Sending { reading, attempt } ==> 1 <= attempt && (attempt
        <= max_attempts || attempt == 1)
}

/// The state after `failures` failed sends in a row.
pub open spec fn after_failures(max_attempts: u32, state: SenderState, failures: nat) -> SenderState
    decreases failures,
{
    if failures == 0 {
        state
    } else {
        sender_step(
            max_attempts,
            after_failures(max_attempts, state, (failures - 1) as nat),
            SenderEvent::Failed,
        ).0
    }
}

/// The sender never makes more sends of a reading than the limit allows:
/// every step keeps the number of the send within it.
pub proof fn lemma_sends_are_bounded(max_attempts: u32, state: SenderState, event: SenderEvent)
    requires
        sender_wf(max_attempts, state),
    ensures
        sender_wf(max_attempts, sender_step(max_attempts, state, event).0),
{
}

/// One reading cannot hold up the queue: while the sends of a reading keep
/// failing, the sender is idle again, ready for the next reading, after at
/// most as many failures as the limit allows; a limit of zero allows one.
pub proof fn lemma_failures_end(max_attempts: u32, state: SenderState, failures: nat)
    requires
        sender_wf(max_attempts, state),
        state is Sending,
        failures >= max_attempts,
        failures >= 1,
    ensures
        after_failures(max_attempts, state, failures) is Idle,
{
    lemma_failures_progress(max_attempts, state, failures);
}

/// After `failures` failed sends in a row the sender is idle, or it is at
/// the send whose number is `failures` higher.
proof fn lemma_failures_progress(max_attempts: u32, state: SenderState, failures: nat)
    requires
        sender_wf(max_attempts, state),
        state is Sending,
    ensures
        match after_failures(max_attempts, state, failures) {
            SenderState::Idle => true,
            SenderState::Sending { reading, attempt } => attempt == state->attempt + failures
                && (attempt <= max_attempts || attempt == 1),
            SenderState::Stopped => false,
        },
        failures >= 1 && failures + state->attempt > max_attempts ==> after_failures(
            max_attempts,
            state,
            failures,
        ) is Idle,
    decreases failures,
{
    if failures > 0 {
        lemma_failures_progress(max_attempts, state, (failures - 1) as nat);
    }
}

/// Sends the readings of the hand-off channel to the broker, one at a time.
pub struct Sender {
    max_attempts: u32,
    state: SenderState,
}

impl Sender {
    /// How many sends of one reading are made at most. Zero counts as one.
    pub closed spec fn max_attempts(&self) -> u32 {
        self.max_attempts
    }

    /// Where the sender stands.
    pub closed spec fn state(&self) -> SenderState {
        self.state
    }

    /// Whether the sender's state is one that its limit allows.
    pub open spec fn wf(&self) -> bool {
        sender_wf(self.max_attempts(), self.state())
    }

    /// An idle sender that makes at most `max_attempts` sends of a reading.
    pub fn new(max_attempts: u32) -> (sender: Sender)
        ensures
            sender.wf(),
            sender.max_attempts() == max_attempts,
            sender.state() == SenderState::Idle,
    {
        Sender { max_attempts, state: SenderState::Idle }
    }

    /// What the sender waits for at present.
    pub fn pending(&self) -> (action: SenderAction)
        ensures
            action == awaited(self.state()),
    {
        match self.state {
            SenderState::Idle => SenderAction::Receive,
            SenderState::Sending { reading, attempt } => SenderAction::Publish(reading),
            SenderState::Stopped => SenderAction::Stop,
        }
    }

    /// Takes note of `event` and says what is to be done next.
    pub fn step(&mut self, event: SenderEvent) -> (action: SenderAction)
        requires
            old(self).wf(),
        ensures
            final(self).wf(),
            final(self).max_attempts() == old(self).max_attempts(),
            (final(self).state(), action) == sender_step(
                old(self).max_attempts(),
                old(self).state(),
                event,
            ),
    {
        match (self.state, event) {
            (SenderState::Idle, SenderEvent::Received(reading)) => {
                self.state = SenderState::Sending { reading, attempt: 1 };
                SenderAction::Publish(reading)
            },
            (SenderState::Idle, SenderEvent::Closed) => {
                self.state = SenderState::Stopped;
                SenderAction::Stop
            },
            (SenderState::Sending { reading, attempt }, SenderEvent::Published) => {
                self.state = SenderState::Idle;
                SenderAction::Receive
            },
            (SenderState::Sending { reading, attempt }, SenderEvent::Failed) => {
                if attempt < self.max_attempts {
                    self.state = SenderState::Sending { reading, attempt: attempt + 1 };
                    SenderAction::Publish(reading)
                } else {
                    self.state = SenderState::Idle;
                    SenderAction::GiveUp(reading)
                }
            },
            _ => self.pending(),
        }
    }
}

} // verus!
