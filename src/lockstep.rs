//! The sending side: one packet in flight at a time, each released by one
//! acknowledgement from the receiver.
use vstd::prelude::*;
use crate::packet::{OutgoingFrame, VideoAudioPacket, encoded};
use crate::framing::{frame_chunks, FrameHeader};
use crate::receiver::{ack_bytes, is_ack};

verus! {

/// What the sender does on the connection.
#[derive(Clone, Copy, Debug, PartialEq, Eq, Structural)]
pub enum ClientEvent {
    /// A packet is framed and written out.
    Send,
    /// One acknowledgement frame is read back.
    Ack,
}

/// The state after `e`, from a state that is waiting for an
/// acknowledgement or not; `None` when `e` is not allowed there.
pub open spec fn client_step(awaiting_ack: bool, e: ClientEvent) -> Option<bool> {
    match e {
        ClientEvent::Send => if awaiting_ack {
            None
        } else {
            Some(true)
        },
        ClientEvent::Ack => if awaiting_ack {
            Some(false)
        } else {
            None
        },
    }
}

/// Whether the sender waits for an acknowledgement after the events `t`,
/// starting idle; `None` when `t` breaks the lockstep.
pub open spec fn client_run(t: Seq<ClientEvent>) -> Option<bool>
    decreases t.len(),
{
    if t.len() == 0 {
        Some(false)
    } else {
        match client_run(t.drop_last()) {
            Some(a) => client_step(a, t.last()),
            None => None,
        }
    }
}

/// Number of occurrences of `e` in `t`.
pub open spec fn count_events(t: Seq<ClientEvent>, e: ClientEvent) -> nat
    decreases t.len(),
{
    if t.len() == 0 {
        0
    } else {
        count_events(t.drop_last(), e) + if t.last() == e {
            1nat
        } else {
            0nat
        }
    }
}

/// Why the sender refused a step.
#[derive(Clone, Copy, Debug, PartialEq, Eq, Structural)]
pub enum LockstepError {
    /// A packet is still waiting for its acknowledgement.
    AckPending,
    /// No packet is waiting for an acknowledgement.
    NothingInFlight,
}

/// How the acknowledgement read back looked. Pacing does not depend on it.
#[derive(Clone, Copy, Debug, PartialEq, Eq, Structural)]
pub enum AckStatus {
    /// Exactly `ACK`.
    Valid,
    /// Some other frame; worth a warning only.
    Unexpected,
}

/// The sender's side of the lockstep.
pub struct LockstepClient {
    awaiting_ack: bool,
}

impl View for LockstepClient {
    type V = bool;

    /// Whether a packet waits for its acknowledgement.
    closed spec fn view(&self) -> bool {
        self.awaiting_ack
    }
}

impl LockstepClient {
    /// A sender with nothing in flight.
    pub fn new() -> (r: LockstepClient)
        ensures
            r@ == false,
    {
        LockstepClient { awaiting_ack: false }
    }

    /// Whether a packet waits for its acknowledgement.
    pub fn is_awaiting_ack(&self) -> (r: bool)
        ensures
            r == self@,
    {
        self.awaiting_ack
    }

    /// Frames `packet` for sending, when nothing is in flight. From then on
    /// the sender waits for an acknowledgement.
    pub fn begin_send(&mut self, packet: &VideoAudioPacket) -> (r: Result<OutgoingFrame, LockstepError>)
        ensures
            old(self)@ ==> r == Err::<OutgoingFrame, LockstepError>(LockstepError::AckPending),
            !old(self)@ ==> r is Ok,
            r is Ok ==> final(self)@ == client_step(old(self)@, ClientEvent::Send)->0
                && r->Ok_0.header == FrameHeader::spec_for_payload(encoded(packet@).len())
                && r->Ok_0.chunks@.len() == frame_chunks(encoded(packet@)).len()
                && forall|i: int| 0 <= i < r->Ok_0.chunks@.len()
                    ==> #[trigger] r->Ok_0.chunks@[i]@ == frame_chunks(encoded(packet@))[i],
            r is Err ==> final(self)@ == old(self)@,
    {
        if self.awaiting_ack {
            return Err(LockstepError::AckPending);
        }
        let frame = packet.to_frame();
        self.awaiting_ack = true;
        Ok(frame)
    }

    /// Takes the frame read back after a send. Whatever it holds, it
    /// releases the next send; its content only decides the status.
    pub fn receive_ack(&mut self, reply: &[u8]) -> (r: Result<AckStatus, LockstepError>)
        ensures
            !old(self)@ ==> r == Err::<AckStatus, LockstepError>(LockstepError::NothingInFlight)
                && final(self)@ == old(self)@,
            old(self)@ ==> final(self)@ == client_step(old(self)@, ClientEvent::Ack)->0,
            old(self)@ && reply@ == ack_bytes() ==> r == Ok::<AckStatus, LockstepError>(AckStatus::Valid),
            old(self)@ && reply@ != ack_bytes() ==> r == Ok::<AckStatus, LockstepError>(AckStatus::Unexpected),
    {
        if !self.awaiting_ack {
            return Err(LockstepError::NothingInFlight);
        }
        self.awaiting_ack = false;
        if is_ack(reply) {
            Ok(AckStatus::Valid)
        } else {
            Ok(AckStatus::Unexpected)
        }
    }
}

proof fn lemma_run_prefix(t: Seq<ClientEvent>, k: int)
    requires
        client_run(t) is Some,
        0 <= k <= t.len(),
    ensures
        client_run(t.take(k)) is Some,
    decreases t.len(),
{
    if k < t.len() {
        assert(t.drop_last().take(k) =~= t.take(k));
        lemma_run_prefix(t.drop_last(), k);
    } else {
        assert(t.take(k) =~= t);
    }
}

proof fn lemma_run_counts(t: Seq<ClientEvent>)
    requires
        client_run(t) is Some,
    ensures
        count_events(t, ClientEvent::Send) == count_events(t, ClientEvent::Ack) + if client_run(t)->0 {
            1nat
        } else {
            0nat
        },
    decreases t.len(),
{
    if t.len() > 0 {
        lemma_run_counts(t.drop_last());
    }
}

/// Lockstep pacing: along any sequence of sends and acknowledgements that
/// the sender accepts, a send happens only when every earlier send has
/// been followed by exactly one acknowledgement, and at any point there is
/// at most one send without its acknowledgement.
pub proof fn lemma_lockstep_pacing(t: Seq<ClientEvent>)
    requires
        client_run(t) is Some,
    ensures
        forall|k: int| 0 <= k < t.len() && t[k] == ClientEvent::Send ==> count_events(
            #[trigger] t.take(k),
            ClientEvent::Send,
        ) == count_events(t.take(k), ClientEvent::Ack),
        forall|k: int| 0 <= k <= t.len() ==> {
            let s = count_events(#[trigger] t.take(k), ClientEvent::Send);
            let a = count_events(t.take(k), ClientEvent::Ack);
            s == a || s == a + 1
        },
{
    assert forall|k: int| 0 <= k < t.len() && t[k] == ClientEvent::Send implies count_events(
        #[trigger] t.take(k),
        ClientEvent::Send,
    ) == count_events(t.take(k), ClientEvent::Ack) by {
        lemma_run_prefix(t, k + 1);
        let p = t.take(k + 1);
        assert(p.drop_last() =~= t.take(k));
        assert(p.last() == t[k]);
        lemma_run_counts(t.take(k));
    }
    assert forall|k: int| 0 <= k <= t.len() implies {
        let s = count_events(#[trigger] t.take(k), ClientEvent::Send);
        let a = count_events(t.take(k), ClientEvent::Ack);
        s == a || s == a + 1
    } by {
        lemma_run_prefix(t, k);
        lemma_run_counts(t.take(k));
    }
}

} // verus!
