use vstd::prelude::*;

use super::{actions_view, with_status, Action, ActionView, Line, LineView};
use crate::ss::{LineType, Status};

verus! {

/// Whole seconds elapsed between `birth` and `now` (milliseconds), 0 when
/// `now` is earlier.
pub open spec fn elapsed_secs(birth: u64, now: u64) -> int {
    if now >= birth {
        (now - birth) / 1000
    } else {
        0
    }
}

/// A connection still in its handshake for more than a minute.
pub open spec fn is_old_spec(l: LineView, now: u64) -> bool {
    &&& (l.status is Raw || l.status is Established || l.status is FirstPackDone)
    &&& elapsed_secs(l.birth, now) > 60
}

pub open spec fn is_working_spec(l: LineView) -> bool {
    &&& l.pair_id != 0
    &&& (l.status is Established || l.status is FirstPackDone || l.status is SecondPackDone
        || l.status is EncryptDone)
}

/// An unpaired local connection to the remote gate that finished its greeting
/// and is young enough to take a client.
pub open spec fn is_ready_spec(l: LineView, now: u64) -> bool {
    &&& !is_working_spec(l)
    &&& !is_old_spec(l, now)
    &&& l.status is FirstPackDone
}

/// The shutdowns owed when the peer stops sending: the half towards a SOCKS
/// client or a website is closed for writing.
pub open spec fn read_close_actions(lt: LineType) -> Seq<ActionView> {
    if lt is Pc || lt is World {
        seq![ActionView::ShutdownWrite]
    } else {
        Seq::empty()
    }
}

impl Line {
    /// Both halves are closed.
    pub fn turn_into_close(&mut self)
        ensures
            final(self)@ == with_status(old(self)@, Status::Close),
    {
        self.set_status(Status::Close);
    }

    /// The peer stopped sending: the line becomes `ReadClose`, and a SOCKS
    /// client or website socket is shut for writing.
    pub fn turn_into_read_close(&mut self) -> (acts: Vec<Action>)
        ensures
            final(self)@ == with_status(old(self)@, Status::ReadClose),
            actions_view(acts@) == read_close_actions(old(self).line_type),
    {
        self.set_status(Status::Dead);
        self.set_status(Status::ReadClose);
        let mut acts: Vec<Action> = Vec::new();
        match self.line_type {
            LineType::Pc | LineType::World => acts.push(Action::ShutdownWrite),
            _ => {},
        }
        proof {
            assert(actions_view(acts@) =~= read_close_actions(old(self).line_type));
        }
        acts
    }

    pub fn set_status(&mut self, status: Status)
        ensures
            final(self)@ == with_status(old(self)@, status),
    {
        self.status = status;
    }

    /// See [`is_old_spec`]; `now` is in milliseconds of the clock that gave
    /// `birth`.
    pub fn is_old(&self, now: u64) -> (old: bool)
        ensures
            old == is_old_spec(self@, now),
    {
        match self.status {
            Status::Raw | Status::Established | Status::FirstPackDone => {
                let elapsed: u64 = if now >= self.birth {
                    (now - self.birth) / 1000
                } else {
                    0
                };
                elapsed > 60
            },
            _ => false,
        }
    }

    pub fn is_hk_chick(&self) -> (hk: bool)
        ensures
            hk == (self.line_type is Hk),
    {
        match self.line_type {
            LineType::Hk => true,
            _ => false,
        }
    }

    pub fn is_working(&self) -> (working: bool)
        ensures
            working == is_working_spec(self@),
    {
        if self.pair_id == 0 {
            return false;
        }
        match self.status {
            Status::Established | Status::FirstPackDone | Status::SecondPackDone
            | Status::EncryptDone => true,
            _ => false,
        }
    }

    pub fn is_ready(&self, now: u64) -> (ready: bool)
        ensures
            ready == is_ready_spec(self@, now),
    {
        if self.is_working() {
            return false;
        }
        if self.is_old(now) {
            return false;
        }
        match self.status {
            Status::FirstPackDone => true,
            _ => false,
        }
    }

    pub fn is_close(&self) -> (close: bool)
        ensures
            close == (self.status is Close),
    {
        match self.status {
            Status::Close => true,
            _ => false,
        }
    }

    pub fn is_dead(&self) -> (dead: bool)
        ensures
            dead == (self.status is Dead),
    {
        match self.status {
            Status::Dead => true,
            _ => false,
        }
    }
}

/// A connection counts as old exactly when it is still in its handshake
/// (`Raw`, `Established` or `FirstPackDone`) and at least 61 whole seconds
/// have passed since its creation; a ready connection is an unpaired or
/// idle one in `FirstPackDone` that is not old, and it is never working.
pub proof fn lemma_age_and_readiness(l: LineView, now: u64)
    ensures
        is_old_spec(l, now) <==> ((l.status is Raw || l.status is Established || l.status is FirstPackDone)
            && now >= l.birth + 61000),
        is_ready_spec(l, now) ==> !is_working_spec(l) && l.status is FirstPackDone,
        is_working_spec(l) ==> l.pair_id != 0,
        l.pair_id == 0 && l.status is FirstPackDone && now <= l.birth + 60999 ==> is_ready_spec(l, now),
{
}

/// A connection works for a client exactly while it has a pair and is past
/// `Raw` but not closing: an unpaired, `Raw`, waiting, half-closed, closed
/// or dead connection never counts as working.
pub proof fn lemma_working(l: LineView)
    ensures
        l.pair_id == 0 ==> !is_working_spec(l),
        (l.status is Raw || l.status is WaitingDnsResult || l.status is ReadClose || l.status is WriteClose
            || l.status is Close || l.status is Dead) ==> !is_working_spec(l),
        l.pair_id != 0 && (l.status is Established || l.status is FirstPackDone || l.status is SecondPackDone
            || l.status is EncryptDone) ==> is_working_spec(l),
{
}

} // verus!
