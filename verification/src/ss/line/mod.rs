use std::collections::VecDeque;
use vstd::prelude::*;

use super::{u8r, u8r_spec, LineType, Status};

pub mod status;
pub mod data;
pub mod pair;
pub mod network_event;
pub mod redmi;
pub mod aliyun_mainland;

verus! {

/// The bookkeeping of one relayed connection. The socket itself stays with
/// the caller, keyed by `id`; what the connection must do on the network is
/// returned as [`Action`]s.
pub struct Line {
    pub id: usize,
    pub line_type: LineType,
    /// The connection this one relays to, 0 when it has none.
    pub pair_id: usize,
    pub status: Status,
    /// Creation time, in milliseconds of the caller's monotonic clock.
    pub birth: u64,
    pub website_host: String,
    pub website_port: u16,
    /// Bytes read from the network and not yet consumed.
    pub net_data: VecDeque<u8>,
    /// Bytes handed over by the pair, waiting to be written to the network.
    pub mem_data: Vec<u8>,
    /// Bytes to hand over to the pair on the next delivery.
    pub garbage: Vec<u8>,
    /// Total number of bytes received from the network.
    pub traffic: usize,
}

pub struct LineView {
    pub id: usize,
    pub line_type: LineType,
    pub pair_id: usize,
    pub status: Status,
    pub birth: u64,
    pub website_host: Seq<char>,
    pub website_port: u16,
    pub net_data: Seq<u8>,
    pub mem_data: Seq<u8>,
    pub garbage: Seq<u8>,
    pub traffic: usize,
}

impl View for Line {
    type V = LineView;

    open spec fn view(&self) -> LineView {
        LineView {
            id: self.id,
            line_type: self.line_type,
            pair_id: self.pair_id,
            status: self.status,
            birth: self.birth,
            website_host: self.website_host@,
            website_port: self.website_port,
            net_data: self.net_data@,
            mem_data: self.mem_data@,
            garbage: self.garbage@,
            traffic: self.traffic,
        }
    }
}

/// Work on a connection's socket that the caller carries out.
pub enum Action {
    /// Write these bytes once; a short write is not retried.
    Send(Vec<u8>),
    /// Write these bytes and report how many were taken with
    /// [`Line::finish_flush`], which keeps the rest for later.
    Flush(Vec<u8>),
    /// Shut down the writing half of the socket.
    ShutdownWrite,
    /// Shut down both halves of the socket.
    ShutdownBoth,
}

pub enum ActionView {
    Send(Seq<u8>),
    Flush(Seq<u8>),
    ShutdownWrite,
    ShutdownBoth,
}

impl View for Action {
    type V = ActionView;

    open spec fn view(&self) -> ActionView {
        match self {
            Action::Send(v) => ActionView::Send(v@),
            Action::Flush(v) => ActionView::Flush(v@),
            Action::ShutdownWrite => ActionView::ShutdownWrite,
            Action::ShutdownBoth => ActionView::ShutdownBoth,
        }
    }
}

/// A copy of `v`.
pub fn copy_bytes(v: &Vec<u8>) -> (out: Vec<u8>)
    ensures
        out@ == v@,
{
    let mut out: Vec<u8> = Vec::new();
    let mut i: usize = 0;
    while i < v.len()
        invariant
            i <= v@.len(),
            out@ == v@.subrange(0, i as int),
        decreases v@.len() - i,
    {
        out.push(v[i]);
        proof {
            assert(v@.subrange(0, i + 1) =~= v@.subrange(0, i as int).push(v@[i as int]));
        }
        i = i + 1;
    }
    proof {
        assert(v@.subrange(0, v@.len() as int) =~= v@);
    }
    out
}

impl Action {
    /// A copy of this action.
    pub fn clone_action(&self) -> (a: Action)
        ensures
            a@ == self@,
    {
        match self {
            Action::Send(v) => Action::Send(copy_bytes(v)),
            Action::Flush(v) => Action::Flush(copy_bytes(v)),
            Action::ShutdownWrite => Action::ShutdownWrite,
            Action::ShutdownBoth => Action::ShutdownBoth,
        }
    }
}

pub open spec fn actions_view(acts: Seq<Action>) -> Seq<ActionView> {
    acts.map_values(|a: Action| a@)
}

/// Every byte of `s` scrambled with [`u8r_spec`].
pub open spec fn u8r_seq(s: Seq<u8>) -> Seq<u8> {
    s.map_values(|b: u8| u8r_spec(b))
}

pub open spec fn with_status(l: LineView, s: Status) -> LineView {
    LineView { status: s, ..l }
}

pub open spec fn new_line_view(id: usize, pair_id: usize, line_type: LineType, birth: u64) -> LineView {
    LineView {
        id,
        line_type,
        pair_id,
        status: Status::Raw,
        birth,
        website_host: Seq::empty(),
        website_port: 0,
        net_data: Seq::empty(),
        mem_data: Seq::empty(),
        garbage: Seq::empty(),
        traffic: 0,
    }
}

impl Line {
    /// A fresh connection in status `Raw` with empty buffers.
    pub fn new(id: usize, pair_id: usize, line_type: LineType, birth: u64) -> (line: Line)
        ensures
            line@ == new_line_view(id, pair_id, line_type, birth),
    {
        Line {
            id,
            pair_id,
            line_type,
            status: Status::Raw,
            birth,
            website_port: 0,
            net_data: VecDeque::new(),
            mem_data: Vec::new(),
            garbage: Vec::new(),
            website_host: String::new(),
            traffic: 0,
        }
    }

    /// Moves every byte of `net_data`, scrambled, to the end of `garbage`.
    fn u8r_network_data_to_garbage(&mut self)
        ensures
            final(self)@ == (LineView {
                net_data: Seq::empty(),
                garbage: old(self)@.garbage + u8r_seq(old(self)@.net_data),
                ..old(self)@
            }),
    {
        let ghost net0 = self.net_data@;
        let ghost g0 = self.garbage@;
        let n = self.net_data.len();
        let mut i: usize = 0;
        while i < n
            invariant
                n == net0.len(),
                i <= n,
                self.net_data@ == net0.subrange(i as int, n as int),
                self.garbage@ == g0 + u8r_seq(net0.subrange(0, i as int)),
                self.id == old(self).id,
                self.line_type == old(self).line_type,
                self.pair_id == old(self).pair_id,
                self.status == old(self).status,
                self.birth == old(self).birth,
                self.website_host@ == old(self).website_host@,
                self.website_port == old(self).website_port,
                self.mem_data@ == old(self).mem_data@,
                self.traffic == old(self).traffic,
                net0 == old(self).net_data@,
                g0 == old(self).garbage@,
            decreases n - i,
        {
            let input = self.net_data.pop_front().unwrap();
            self.garbage.push(u8r(input));
            proof {
                assert(net0.subrange(0, i + 1) =~= net0.subrange(0, i as int).push(input));
                assert(u8r_seq(net0.subrange(0, i + 1)) =~= u8r_seq(net0.subrange(0, i as int)).push(u8r_spec(input)));
            }
            i = i + 1;
        }
        proof {
            assert(net0.subrange(0, n as int) =~= net0);
            assert(self.net_data@ =~= Seq::<u8>::empty());
        }
    }
}

} // verus!
