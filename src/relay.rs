//! The decisions of a relay session: two forwarding directions, client to
//! backend and backend to client, each copying chunks until its source
//! closes or an I/O error occurs. The caller performs the reads and writes.
use vstd::prelude::*;

verus! {

/// The most bytes one read asks for.
pub const CHUNK_SIZE: usize = 1024;

/// One of the two forwarding directions of a session.
#[derive(Clone, Copy, Debug, PartialEq, Eq, Structural)]
pub enum Direction {
    ToBackend,
    ToClient,
}

/// What a read from a direction's source gave.
#[derive(Clone, Copy, Debug, PartialEq, Eq, Structural)]
pub enum ReadOutcome {
    /// This many bytes arrived (zero means the peer closed).
    Data(usize),
    /// The read failed.
    Failed,
}

/// What the caller does next in a direction.
#[derive(Clone, Copy, Debug, PartialEq, Eq, Structural)]
pub enum RelayAction {
    /// Write the first this many bytes read to the other peer, then read again.
    Forward(usize),
    /// This direction has ended: stop reading and close the write side.
    Finish,
}

/// A direction stays open after a read only if bytes arrived.
pub open spec fn stays_open(open: bool, outcome: ReadOutcome) -> bool {
    open && match outcome {
        ReadOutcome::Data(n) => n > 0,
        ReadOutcome::Failed => false,
    }
}

/// Whether a direction that starts `open` is still open after `events`.
pub open spec fn open_after(open: bool, events: Seq<ReadOutcome>) -> bool
    decreases events.len(),
{
    if events.len() == 0 {
        open
    } else {
        open_after(stays_open(open, events[0]), events.drop_first())
    }
}

/// The read ends its direction: the peer closed, or the read failed.
pub open spec fn ends_direction(outcome: ReadOutcome) -> bool {
    !stays_open(true, outcome)
}

/// Once the source closes or fails, its direction has ended, whatever reads
/// were reported before or after.
pub proof fn lemma_direction_terminates(open: bool, events: Seq<ReadOutcome>, i: int)
    requires
        0 <= i < events.len(),
        ends_direction(events[i]),
    ensures
        !open_after(open, events),
    decreases events.len(),
{
    if i > 0 {
        lemma_direction_terminates(stays_open(open, events[0]), events.drop_first(), i - 1);
    } else {
        lemma_stays_closed(events.drop_first());
    }
}

/// A direction that has ended never reopens.
pub proof fn lemma_stays_closed(events: Seq<ReadOutcome>)
    ensures
        !open_after(false, events),
    decreases events.len(),
{
    if events.len() > 0 {
        lemma_stays_closed(events.drop_first());
    }
}

/// Which directions of one client/backend pairing are still forwarding.
#[derive(Clone, Copy, Debug)]
pub struct RelaySession {
    to_backend: bool,
    to_client: bool,
}

impl RelaySession {
    /// Whether direction `d` is still forwarding.
    pub open spec fn spec_is_open(&self, d: Direction) -> bool {
        match d {
            Direction::ToBackend => self.spec_to_backend(),
            Direction::ToClient => self.spec_to_client(),
        }
    }

    pub closed spec fn spec_to_backend(&self) -> bool {
        self.to_backend
    }

    pub closed spec fn spec_to_client(&self) -> bool {
        self.to_client
    }

    /// A session whose two directions both forward.
    pub fn new() -> (r: RelaySession)
        ensures
            r.spec_is_open(Direction::ToBackend),
            r.spec_is_open(Direction::ToClient),
    {
        RelaySession { to_backend: true, to_client: true }
    }

    /// Whether direction `d` is still forwarding.
    pub fn is_open(&self, d: Direction) -> (r: bool)
        ensures
            r == self.spec_is_open(d),
    {
        match d {
            Direction::ToBackend => self.to_backend,
            Direction::ToClient => self.to_client,
        }
    }

    /// The session is over once both directions have ended.
    pub fn is_complete(&self) -> (r: bool)
        ensures
            r == (!self.spec_is_open(Direction::ToBackend) && !self.spec_is_open(
                Direction::ToClient,
            )),
    {
        !self.to_backend && !self.to_client
    }

    /// Takes the outcome of a read in direction `d`: bytes are forwarded,
    /// while a closed peer or a failed read ends the direction. The other
    /// direction is not touched.
    pub fn on_read(&mut self, d: Direction, outcome: ReadOutcome) -> (r: RelayAction)
        ensures
            final(self).spec_is_open(d) == stays_open(old(self).spec_is_open(d), outcome),
            forall|o: Direction| o != d ==> final(self).spec_is_open(o) == old(
                self,
            ).spec_is_open(o),
            final(self).spec_is_open(d) ==> r == RelayAction::Forward(outcome->Data_0),
            !final(self).spec_is_open(d) ==> r == RelayAction::Finish,
    {
        let keep = match outcome {
            ReadOutcome::Data(n) => n > 0,
            ReadOutcome::Failed => false,
        };
        let open = self.is_open(d) && keep;
        match d {
            Direction::ToBackend => self.to_backend = open,
            Direction::ToClient => self.to_client = open,
        }
        if open {
            match outcome {
                ReadOutcome::Data(n) => RelayAction::Forward(n),
                ReadOutcome::Failed => RelayAction::Finish,
            }
        } else {
            RelayAction::Finish
        }
    }

    /// Takes the outcome of a write in direction `d`: a failed write ends the
    /// direction, as a failed read does. Returns whether to read again.
    pub fn on_write(&mut self, d: Direction, ok: bool) -> (r: bool)
        ensures
            final(self).spec_is_open(d) == (old(self).spec_is_open(d) && ok),
            forall|o: Direction| o != d ==> final(self).spec_is_open(o) == old(
                self,
            ).spec_is_open(o),
            r == final(self).spec_is_open(d),
    {
        let open = self.is_open(d) && ok;
        match d {
            Direction::ToBackend => self.to_backend = open,
            Direction::ToClient => self.to_client = open,
        }
        open
    }
}

} // verus!
