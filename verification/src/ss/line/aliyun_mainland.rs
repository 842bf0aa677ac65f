use vstd::prelude::*;
use vstd::utf8::{decode_utf8, valid_utf8};

use super::data::move_network_data_to_garbage_spec;
use super::{actions_view, u8r_seq, with_status, Action, ActionView, Line, LineView};
use crate::ss::text::string_from_utf8;
use crate::ss::{u8r, u8r_spec, Status};

verus! {

/// The host length announced in a scrambled address request.
pub open spec fn requested_host_len(net: Seq<u8>) -> int {
    u8r_spec(net[1]) as int
}

/// A scrambled address request: address type 3 (domain name), the scrambled
/// host length, the scrambled host and the scrambled two-byte port.
pub open spec fn host_request_ok(net: Seq<u8>) -> bool {
    &&& net.len() >= 2
    &&& net[0] == 3
    &&& net.len() >= requested_host_len(net) + 4
}

/// The host bytes of an address request, unscrambled.
pub open spec fn requested_host(net: Seq<u8>) -> Seq<u8> {
    u8r_seq(net.subrange(2, 2 + requested_host_len(net)))
}

/// The port of an address request, unscrambled, big-endian.
pub open spec fn requested_port(net: Seq<u8>) -> u16 {
    let p = u8r_seq(net.subrange(2 + requested_host_len(net), 4 + requested_host_len(net)));
    (p[0] * 256 + p[1]) as u16
}

/// The host and port of an address request: the host is kept only when it is
/// valid UTF-8; the bytes are consumed.
pub open spec fn update_host_name_spec(l: LineView) -> LineView {
    let host = requested_host(l.net_data);
    LineView {
        net_data: Seq::empty(),
        website_host: if valid_utf8(host) {
            decode_utf8(host)
        } else {
            l.website_host
        },
        website_port: requested_port(l.net_data),
        ..l
    }
}

/// What the remote gate's connection from a local `Hk` connection accepts
/// without the original program stopping.
pub open spec fn mainland_consume_ok(l: LineView) -> bool {
    match l.status {
        Status::ReadClose | Status::WriteClose | Status::Close | Status::Dead => false,
        Status::Established => host_request_ok(l.net_data),
        _ => true,
    }
}

/// The first encrypted packet: it replaces whatever was queued, unscrambled.
pub open spec fn client_hello_spec(l: LineView) -> LineView {
    LineView {
        net_data: Seq::empty(),
        garbage: u8r_seq(l.net_data),
        status: Status::EncryptDone,
        ..l
    }
}

/// The remote side of the handshake: the address request names the website,
/// the first packet after the DNS answer is unscrambled, and after that
/// bytes pass unchanged; in the other live statuses nothing is consumed.
pub open spec fn mainland_consume_spec(l: LineView) -> LineView {
    match l.status {
        Status::Established => with_status(update_host_name_spec(l), Status::FirstPackDone),
        Status::SecondPackDone => client_hello_spec(l),
        Status::EncryptDone => move_network_data_to_garbage_spec(l),
        _ => l,
    }
}

/// The DNS answer arrived and the website connection `id` is open.
pub open spec fn dns_query_success_spec(l: LineView, id: usize) -> LineView {
    let l1 = LineView { pair_id: id, status: Status::SecondPackDone, ..l };
    if l.net_data.len() > 0 {
        client_hello_spec(l1)
    } else {
        l1
    }
}

/// The greeting of the remote gate: the connection id, truncated to 16 bits,
/// big-endian.
pub open spec fn mainland_hello(id: usize) -> Seq<u8> {
    let v = id as u16;
    seq![(v / 256) as u8, (v % 256) as u8]
}

impl Line {
    /// Bytes from a local `Hk` connection at the remote gate; see
    /// [`mainland_consume_spec`].
    pub fn aliyun_consume_mainland_data(&mut self)
        requires
            mainland_consume_ok(old(self)@),
        ensures
            final(self)@ == mainland_consume_spec(old(self)@),
    {
        match self.status {
            Status::Established => self.website_addr(),
            Status::SecondPackDone => self.client_hello(),
            Status::EncryptDone => self.move_network_data_to_garbage(),
            Status::WaitingDnsResult => {},
            _ => self.unexpect(),
        }
    }

    pub fn waiting_for_dns_result(&mut self)
        ensures
            final(self)@ == with_status(old(self)@, Status::WaitingDnsResult),
    {
        self.set_status(Status::WaitingDnsResult);
    }

    /// The website's name did not resolve; the line waits on unchanged.
    pub fn dns_query_fail(&mut self)
        ensures
            final(self)@ == old(self)@,
    {
    }

    /// See [`dns_query_success_spec`].
    pub fn dns_query_success(&mut self, id: usize)
        ensures
            final(self)@ == dns_query_success_spec(old(self)@, id),
    {
        self.set_pair_id(id);
        self.set_status(Status::SecondPackDone);
        if self.net_data.len() > 0 {
            self.client_hello();
        }
    }

    /// The greeting sent to a new connection from a local `Hk` line.
    pub fn say_hello_to_mainland(&mut self) -> (acts: Vec<Action>)
        ensures
            final(self)@ == old(self)@,
            actions_view(acts@) == seq![ActionView::Send(mainland_hello(old(self).id))],
    {
        let v = self.id as u16;
        let bytes: Vec<u8> = vec![(v / 256) as u8, (v % 256) as u8];
        proof {
            assert(bytes@ =~= mainland_hello(self.id));
        }
        let mut acts: Vec<Action> = Vec::new();
        acts.push(Action::Send(bytes));
        proof {
            assert(actions_view(acts@) =~= seq![ActionView::Send(mainland_hello(old(self).id))]);
        }
        acts
    }

    fn website_addr(&mut self)
        requires
            host_request_ok(old(self)@.net_data),
        ensures
            final(self)@ == with_status(update_host_name_spec(old(self)@), Status::FirstPackDone),
    {
        self.update_host_name();
        self.set_status(Status::FirstPackDone);
    }

    fn client_hello(&mut self)
        ensures
            final(self)@ == client_hello_spec(old(self)@),
    {
        self.garbage.clear();
        self.u8r_network_data_to_garbage();
        proof {
            assert(Seq::<u8>::empty() + u8r_seq(old(self)@.net_data) =~= u8r_seq(old(self)@.net_data));
        }
        self.set_status(Status::EncryptDone);
    }

    fn update_host_name(&mut self)
        requires
            host_request_ok(old(self)@.net_data),
        ensures
            final(self)@ == update_host_name_spec(old(self)@),
    {
        let ghost net = self.net_data@;
        let _atyp = self.net_data.pop_front().unwrap();
        let len = u8r(self.net_data.pop_front().unwrap()) as usize;
        let ghost rest = self.net_data@;
        assert(rest =~= net.subrange(2, net.len() as int));
        let mut host: Vec<u8> = Vec::new();
        let mut p: Vec<u8> = Vec::new();
        let n = self.net_data.len();
        let mut i: usize = 0;
        while i < n
            invariant
                n == rest.len(),
                self.net_data@ == rest,
                len as int == requested_host_len(net),
                rest.len() >= len + 2,
                i <= n,
                i <= len ==> host@ == u8r_seq(rest.subrange(0, i as int)) && p@ == Seq::<u8>::empty(),
                i > len ==> host@ == u8r_seq(rest.subrange(0, len as int))
                    && p@ == u8r_seq(rest.subrange(len as int, i as int)),
            decreases n - i,
        {
            let v = u8r(self.net_data[i]);
            if host.len() < len {
                host.push(v);
                proof {
                    assert(rest.subrange(0, i + 1) =~= rest.subrange(0, i as int).push(rest[i as int]));
                    assert(u8r_seq(rest.subrange(0, i + 1)) =~= u8r_seq(rest.subrange(0, i as int)).push(v));
                }
            } else {
                p.push(v);
                proof {
                    assert(rest.subrange(len as int, i + 1) =~= rest.subrange(len as int, i as int).push(rest[i as int]));
                    assert(u8r_seq(rest.subrange(len as int, i + 1)) =~= u8r_seq(rest.subrange(len as int, i as int)).push(v));
                    if i == len {
                        assert(rest.subrange(0, i as int) =~= rest.subrange(0, len as int));
                    }
                }
            }
            i = i + 1;
        }
        self.clear_network_data();
        proof {
            assert(host@ =~= requested_host(net));
            assert(p@.subrange(0, 2) =~= u8r_seq(net.subrange(2 + len, 4 + len)));
        }
        match string_from_utf8(host) {
            Some(s) => self.website_host = s,
            None => {},
        }
        let p0 = p[0];
        let p1 = p[1];
        self.website_port = (p0 as u16) * 256 + (p1 as u16);
        proof {
            assert(u8r_seq(net.subrange(2 + len, 4 + len))[0] == p0);
            assert(u8r_seq(net.subrange(2 + len, 4 + len))[1] == p1);
        }
    }
}

/// The DNS answer pairs the remote connection with its website connection
/// and finishes the handshake: with bytes already received, they are the
/// first packet, unscrambled and queued in place of anything queued, and the
/// line is `EncryptDone`; with none, the line is `SecondPackDone`.
pub proof fn lemma_dns_success(l: LineView, id: usize)
    ensures
        dns_query_success_spec(l, id).pair_id == id,
        dns_query_success_spec(l, id).net_data.len() == 0,
        dns_query_success_spec(l, id).mem_data == l.mem_data,
        l.net_data.len() > 0 ==> dns_query_success_spec(l, id).status is EncryptDone
            && dns_query_success_spec(l, id).garbage.len() == l.net_data.len()
            && forall|i: int| 0 <= i < l.net_data.len() ==>
                #[trigger] dns_query_success_spec(l, id).garbage[i] == u8r_spec(l.net_data[i]),
        l.net_data.len() == 0 ==> dns_query_success_spec(l, id).status is SecondPackDone
            && dns_query_success_spec(l, id).garbage == l.garbage,
{
}

/// The greeting to a local `Hk` connection is the connection id's low 16
/// bits, high byte first.
pub proof fn lemma_mainland_hello_bytes(id: usize)
    ensures
        mainland_hello(id).len() == 2,
        mainland_hello(id)[0] * 256 + mainland_hello(id)[1] == id % 65536,
{
    assert((id as u16) as int == id % 65536) by (bit_vector);
}

} // verus!
