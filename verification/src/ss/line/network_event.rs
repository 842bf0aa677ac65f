use vstd::prelude::*;

use super::aliyun_mainland::{mainland_consume_ok, mainland_consume_spec, requested_host, requested_port};
use super::data::{flush_spec, move_network_data_to_garbage_spec};
use super::redmi::{hk_consume_ok, hk_consume_spec, pc_consume_ok, pc_consume_spec};
use super::status::read_close_actions;
use super::{actions_view, u8r_seq, with_status, Action, ActionView, Line, LineView};
use vstd::utf8::{decode_utf8, valid_utf8};
use crate::ss::lemma_u8r_involution;
use crate::ss::text::string_from_utf8;
use crate::ss::{LineType, Status};

verus! {

/// The peer stopped sending. A line already half closed the other way
/// becomes `Close`; a line not yet closed becomes `ReadClose`.
pub open spec fn read_closed_spec(l: LineView) -> (LineView, Seq<ActionView>) {
    match l.status {
        Status::ReadClose | Status::Close => (l, Seq::empty()),
        Status::WriteClose => (with_status(l, Status::Close), Seq::empty()),
        _ => (with_status(l, Status::ReadClose), read_close_actions(l.line_type)),
    }
}

/// The peer stopped receiving; the mirror image of [`read_closed_spec`].
pub open spec fn write_closed_spec(l: LineView) -> LineView {
    match l.status {
        Status::WriteClose | Status::Close => l,
        Status::ReadClose => with_status(l, Status::Close),
        _ => with_status(l, Status::WriteClose),
    }
}

/// The socket can be written: a `Raw` line is now `Established`, and pending
/// bytes are flushed.
pub open spec fn writable_spec(l: LineView) -> (LineView, Seq<ActionView>) {
    let l1 = if l.status is Raw {
        with_status(l, Status::Established)
    } else {
        l
    };
    flush_spec(l1)
}

/// The inputs on which consuming the received bytes does not stop the
/// original program.
pub open spec fn consume_ok(l: LineView) -> bool {
    match l.line_type {
        LineType::Pc => pc_consume_ok(l),
        LineType::Hk => hk_consume_ok(l),
        LineType::MainLand => mainland_consume_ok(l),
        LineType::World => true,
    }
}

/// Received bytes are consumed by the handshake of the line's role; a
/// website connection passes them on unchanged.
pub open spec fn consume_spec(l: LineView) -> (LineView, Seq<ActionView>) {
    match l.line_type {
        LineType::Pc => pc_consume_spec(l),
        LineType::Hk => (hk_consume_spec(l), Seq::empty()),
        LineType::MainLand => (mainland_consume_spec(l), Seq::empty()),
        LineType::World => (move_network_data_to_garbage_spec(l), Seq::empty()),
    }
}

impl Line {
    pub fn on_read_closed(&mut self) -> (acts: Vec<Action>)
        requires
            !(old(self).status is Dead),
        ensures
            (final(self)@, actions_view(acts@)) == read_closed_spec(old(self)@),
    {
        match self.status {
            Status::ReadClose | Status::Close => {
                let acts: Vec<Action> = Vec::new();
                proof {
                    assert(actions_view(acts@) =~= Seq::<ActionView>::empty());
                }
                acts
            },
            Status::WriteClose => {
                self.turn_into_close();
                let acts: Vec<Action> = Vec::new();
                proof {
                    assert(actions_view(acts@) =~= Seq::<ActionView>::empty());
                }
                acts
            },
            _ => self.turn_into_read_close(),
        }
    }

    pub fn on_write_closed(&mut self)
        requires
            !(old(self).status is Dead),
        ensures
            final(self)@ == write_closed_spec(old(self)@),
    {
        match self.status {
            Status::WriteClose | Status::Close => {},
            Status::ReadClose => self.turn_into_close(),
            _ => self.set_status(Status::WriteClose),
        }
    }

    pub fn on_writable(&mut self) -> (acts: Vec<Action>)
        ensures
            (final(self)@, actions_view(acts@)) == writable_spec(old(self)@),
    {
        match self.status {
            Status::Raw => self.set_status(Status::Established),
            _ => {},
        }
        self.flush_mem_data_to_network()
    }

    /// Bytes read from the socket are queued and counted.
    pub fn on_recv(&mut self, buf: &[u8])
        requires
            old(self).traffic + buf@.len() <= usize::MAX,
        ensures
            final(self)@ == (LineView {
                net_data: old(self)@.net_data + buf@,
                traffic: (old(self).traffic + buf@.len()) as usize,
                ..old(self)@
            }),
    {
        self.traffic = self.traffic + buf.len();
        let n = buf.len();
        let mut i: usize = 0;
        while i < n
            invariant
                n == buf@.len(),
                i <= n,
                self.net_data@ == old(self)@.net_data + buf@.subrange(0, i as int),
                self@ == (LineView {
                    net_data: self.net_data@,
                    traffic: (old(self).traffic + buf@.len()) as usize,
                    ..old(self)@
                }),
            decreases n - i,
        {
            self.net_data.push_back(buf[i]);
            proof {
                assert(buf@.subrange(0, i + 1) =~= buf@.subrange(0, i as int).push(buf@[i as int]));
            }
            i = i + 1;
        }
        proof {
            assert(buf@.subrange(0, n as int) =~= buf@);
        }
    }

    /// See [`consume_spec`].
    pub fn consume_network_data(&mut self) -> (acts: Vec<Action>)
        requires
            consume_ok(old(self)@),
        ensures
            (final(self)@, actions_view(acts@)) == consume_spec(old(self)@),
    {
        let mut acts: Vec<Action> = Vec::new();
        match self.line_type {
            LineType::Pc => {
                acts = self.redmi_consume_pc_data();
            },
            LineType::Hk => self.redmi_consume_hk_data(),
            LineType::MainLand => self.aliyun_consume_mainland_data(),
            LineType::World => self.move_network_data_to_garbage(),
        }
        proof {
            assert(actions_view(acts@) =~= consume_spec(old(self)@).1);
        }
        acts
    }

    /// Whether [`Line::consume_network_data`] accepts the line as it stands
    /// (see [`consume_ok`]).
    pub fn can_consume_network_data(&self) -> (ok: bool)
        ensures
            ok == consume_ok(self@),
    {
        let n = self.net_data.len();
        match self.line_type {
            LineType::World => true,
            LineType::Hk => match self.status {
                Status::Close | Status::Dead => false,
                Status::Established => n == 2,
                _ => true,
            },
            LineType::MainLand => match self.status {
                Status::ReadClose | Status::WriteClose | Status::Close | Status::Dead => false,
                Status::Established => {
                    if n < 2 || self.net_data[0] != 3 {
                        false
                    } else {
                        let len = crate::ss::u8r(self.net_data[1]) as usize;
                        n >= len + 4
                    }
                },
                _ => true,
            },
            LineType::Pc => match self.status {
                Status::Raw | Status::SecondPackDone | Status::EncryptDone => true,
                Status::Established => n >= 1 && self.net_data[0] == 5,
                Status::FirstPackDone => {
                    if n < 7 || self.net_data[0] != 5 || self.net_data[1] != 1 || self.net_data[2] != 0 {
                        false
                    } else {
                        let mut host: Vec<u8> = Vec::new();
                        let mut i: usize = 5;
                        while i < n - 2
                            invariant
                                n == self.net_data@.len(),
                                n >= 7,
                                5 <= i <= n - 2,
                                host@ == self.net_data@.subrange(5, i as int),
                            decreases n - 2 - i,
                        {
                            host.push(self.net_data[i]);
                            proof {
                                assert(self.net_data@.subrange(5, i + 1) =~= self.net_data@.subrange(5, i as int).push(self.net_data@[i as int]));
                            }
                            i = i + 1;
                        }
                        string_from_utf8(host).is_some()
                    }
                },
                _ => false,
            },
        }
    }
}

/// Once a line has seen both halves close, in either order, it is `Close`.
pub proof fn lemma_half_closes_make_close(l: LineView)
    requires
        !(l.status is ReadClose || l.status is WriteClose || l.status is Close || l.status is Dead),
    ensures
        write_closed_spec(read_closed_spec(l).0).status == Status::Close,
        read_closed_spec(write_closed_spec(l)).0.status == Status::Close,
{
}

/// A closed line stays closed, with nothing else changed, whichever half
/// closes again.
pub proof fn lemma_close_is_final(l: LineView)
    requires
        l.status is Close,
    ensures
        read_closed_spec(l) == (l, Seq::<ActionView>::empty()),
        write_closed_spec(l) == l,
{
}

/// The SOCKS5 CONNECT request bytes for a domain name `host` and `port`.
pub open spec fn socks_connect_request(host: Seq<u8>, port: u16) -> Seq<u8> {
    seq![5u8, 1u8, 0u8, 3u8, host.len() as u8] + host + seq![(port / 256) as u8, (port % 256) as u8]
}

/// What a SOCKS client's CONNECT request leaves for the remote gate, once
/// it reaches a fresh connection there in one piece, names the same host and
/// port: the scrambling on the client side is undone on the remote side.
pub proof fn lemma_connect_request_round_trip(pc: LineView, mainland: LineView, host: Seq<u8>, port: u16)
    requires
        pc.line_type is Pc,
        pc.status is FirstPackDone,
        host.len() < 256,
        valid_utf8(host),
        pc.net_data == socks_connect_request(host, port),
        mainland.line_type is MainLand,
        mainland.status is Established,
        mainland.net_data == consume_spec(pc).0.garbage,
    ensures
        consume_ok(pc),
        consume_ok(mainland),
        consume_spec(mainland).0.website_host == decode_utf8(host),
        consume_spec(mainland).0.website_port == port,
        consume_spec(mainland).0.status is FirstPackDone,
{
    let req = socks_connect_request(host, port);
    let hl: int = host.len() as int;
    let n = req.len();
    assert(req.subrange(5, n - 2) =~= host);
    let sent = u8r_seq(req.subrange(3, n as int));
    assert(consume_spec(pc).0.garbage == sent);
    lemma_u8r_involution(host.len() as u8);
    assert(req[3] == 3u8);
    assert(sent[0] == 3u8);
    assert(sent[1] == crate::ss::u8r_spec(host.len() as u8));
    assert(u8r_seq(sent.subrange(2, 2 + hl)) =~= host) by {
        assert forall|i: int| 0 <= i < host.len() implies u8r_seq(sent.subrange(2, 2 + hl))[i] == host[i] by {
            lemma_u8r_involution(host[i]);
            assert(req[5 + i] == host[i]);
        }
    }
    assert(requested_host(sent) =~= host);
    let pb = u8r_seq(sent.subrange(2 + hl, 4 + hl));
    lemma_u8r_involution((port / 256) as u8);
    lemma_u8r_involution((port % 256) as u8);
    assert(req[5 + hl] == (port / 256) as u8);
    assert(req[6 + hl] == (port % 256) as u8);
    assert(pb[0] == (port / 256) as u8);
    assert(pb[1] == (port % 256) as u8);
    assert(requested_port(sent) == port);
}

/// Once a connection's handshake is over, what it receives is queued for
/// its pair byte for byte: nothing is scrambled or unscrambled, nothing is
/// dropped, nothing is sent back, and the status stays. This holds for a
/// website connection always, for a local `Hk` connection after its
/// greeting, and for any connection in `EncryptDone`.
pub proof fn lemma_relayed_bytes_pass_unchanged(l: LineView)
    requires
        consume_ok(l),
        l.line_type is World
            || (l.line_type is Hk && !(l.status is Raw) && !(l.status is Established))
            || l.status is EncryptDone,
    ensures
        consume_spec(l).0.garbage == l.garbage + l.net_data,
        consume_spec(l).0.net_data.len() == 0,
        consume_spec(l).0.status == l.status,
        consume_spec(l).0.mem_data == l.mem_data,
        consume_spec(l).0.pair_id == l.pair_id,
        consume_spec(l).1.len() == 0,
{
}

/// The first packet after the handshake crosses the scrambling: on the local
/// side the client's bytes are scrambled, on the remote side they are
/// unscrambled, and in both cases they replace whatever was queued; the line
/// moves to `EncryptDone`.
pub proof fn lemma_first_packet_is_scrambled_once(l: LineView)
    requires
        l.status is SecondPackDone,
        l.line_type is Pc || l.line_type is MainLand,
    ensures
        consume_spec(l).0.garbage == u8r_seq(l.net_data),
        forall|i: int| 0 <= i < l.net_data.len() ==> #[trigger] consume_spec(l).0.garbage[i] == crate::ss::u8r_spec(l.net_data[i]),
        consume_spec(l).0.garbage.len() == l.net_data.len(),
        consume_spec(l).0.net_data.len() == 0,
        consume_spec(l).0.status is EncryptDone,
        consume_spec(l).1.len() == 0,
{
}

/// A connection waiting for the remote side's answer (before its greeting or
/// while its website is being resolved) keeps what it received untouched.
pub proof fn lemma_waiting_lines_keep_bytes(l: LineView)
    requires
        l.status is Raw || (l.line_type is MainLand && (l.status is FirstPackDone || l.status is WaitingDnsResult)),
        !(l.line_type is World),
    ensures
        consume_spec(l).0 == l,
        consume_spec(l).1.len() == 0,
{
}

/// The SOCKS5 handshake on the client side answers each step: the greeting
/// with "version 5, no authentication" and the CONNECT request with
/// "succeeded, bound to 0.0.0.0:0", consuming all received bytes and moving
/// on one status each time.
pub proof fn lemma_socks_replies(l: LineView)
    requires
        l.line_type is Pc,
        consume_ok(l),
    ensures
        l.status is Established ==> {
            &&& consume_spec(l).1 == seq![ActionView::Send(seq![5u8, 0u8])]
            &&& consume_spec(l).0.status is FirstPackDone
            &&& consume_spec(l).0.net_data.len() == 0
            &&& consume_spec(l).0.garbage == l.garbage
        },
        l.status is FirstPackDone ==> {
            &&& consume_spec(l).1 == seq![ActionView::Send(seq![5u8, 0u8, 0u8, 1u8, 0u8, 0u8, 0u8, 0u8, 0u8, 0u8])]
            &&& consume_spec(l).0.status is SecondPackDone
            &&& consume_spec(l).0.net_data.len() == 0
            &&& consume_spec(l).0.garbage.len() == l.net_data.len() - 3
            &&& forall|i: int| 0 <= i < l.net_data.len() - 3 ==>
                #[trigger] consume_spec(l).0.garbage[i] == crate::ss::u8r_spec(l.net_data[i + 3])
        },
{
}

/// The remote gate's greeting makes a local `Hk` connection ready: the two
/// bytes are consumed, nothing is queued or sent, and it moves to
/// `FirstPackDone`.
pub proof fn lemma_hk_greeting(l: LineView)
    requires
        l.line_type is Hk,
        l.status is Established,
        l.net_data.len() == 2,
    ensures
        consume_spec(l).0 == (LineView { net_data: Seq::empty(), status: Status::FirstPackDone, ..l }),
        consume_spec(l).1.len() == 0,
{
}

/// The address request consumes all it received at the remote gate and
/// moves the line to `FirstPackDone`, touching nothing queued.
pub proof fn lemma_address_request_consumed(l: LineView)
    requires
        l.line_type is MainLand,
        l.status is Established,
        consume_ok(l),
    ensures
        consume_spec(l).0.net_data.len() == 0,
        consume_spec(l).0.status is FirstPackDone,
        consume_spec(l).0.garbage == l.garbage,
        consume_spec(l).0.mem_data == l.mem_data,
        consume_spec(l).0.pair_id == l.pair_id,
        consume_spec(l).1.len() == 0,
{
}

/// When the peer stops sending, a live line becomes `ReadClose` and only a
/// SOCKS client or website socket is shut, and only for writing; when the
/// peer stops receiving, a live line becomes `WriteClose`. Nothing else
/// changes.
pub proof fn lemma_half_close_effects(l: LineView)
    requires
        !(l.status is ReadClose || l.status is WriteClose || l.status is Close || l.status is Dead),
    ensures
        read_closed_spec(l).0 == (LineView { status: Status::ReadClose, ..l }),
        (l.line_type is Pc || l.line_type is World) ==> read_closed_spec(l).1 == seq![ActionView::ShutdownWrite],
        (l.line_type is Hk || l.line_type is MainLand) ==> read_closed_spec(l).1.len() == 0,
        write_closed_spec(l) == (LineView { status: Status::WriteClose, ..l }),
{
}

/// A writable socket makes a `Raw` line `Established` (other statuses stay)
/// and writes out everything queued, in one flush, when there is anything.
pub proof fn lemma_writable(l: LineView)
    ensures
        writable_spec(l).0.status == (if l.status is Raw { Status::Established } else { l.status }),
        writable_spec(l).0.mem_data.len() == 0,
        writable_spec(l).0.garbage == l.garbage,
        writable_spec(l).0.net_data == l.net_data,
        l.mem_data.len() > 0 ==> writable_spec(l).1 == seq![ActionView::Flush(l.mem_data)],
        l.mem_data.len() == 0 ==> writable_spec(l).1.len() == 0,
{
}

/// Which received bytes a line can consume: a website connection takes
/// anything; a line not yet connected or past its handshake takes anything
/// while it is open; a SOCKS client's greeting must start with version 5;
/// a CONNECT request needs at least seven bytes starting 5, 1, 0 with a
/// UTF-8 host; a remote gate's greeting is exactly two bytes; an address
/// request starts with type 3 and holds the announced host and a port.
pub proof fn lemma_consume_ok(l: LineView)
    ensures
        l.line_type is World ==> consume_ok(l),
        (l.status is Raw || l.status is EncryptDone) && !(l.line_type is World) ==> consume_ok(l),
        l.line_type is Pc && l.status is Established ==> (consume_ok(l) <==> (l.net_data.len() >= 1 && l.net_data[0] == 5)),
        l.line_type is Pc && l.status is FirstPackDone ==> (consume_ok(l) <==> (l.net_data.len() >= 7
            && l.net_data[0] == 5 && l.net_data[1] == 1 && l.net_data[2] == 0
            && valid_utf8(l.net_data.subrange(5, l.net_data.len() - 2)))),
        l.line_type is Hk && l.status is Established ==> (consume_ok(l) <==> l.net_data.len() == 2),
        l.line_type is MainLand && l.status is Established ==> (consume_ok(l) <==> (l.net_data.len() >= 2
            && l.net_data[0] == 3 && l.net_data.len() >= crate::ss::u8r_spec(l.net_data[1]) + 4)),
        (l.status is Close || l.status is Dead) && !(l.line_type is World) ==> !consume_ok(l),
{
}

/// The address request names its website: the host is the announced number
/// of bytes after the two header bytes, unscrambled, kept only when it is
/// valid UTF-8 (else the previous host stays); the port is the next two
/// bytes, unscrambled, high byte first.
pub proof fn lemma_address_request_names_website(l: LineView)
    requires
        l.line_type is MainLand,
        l.status is Established,
        consume_ok(l),
    ensures
        ({
            let net = l.net_data;
            let len = crate::ss::u8r_spec(net[1]) as int;
            let host = Seq::new(len as nat, |i: int| crate::ss::u8r_spec(net[2 + i]));
            &&& consume_spec(l).0.website_host == if valid_utf8(host) { decode_utf8(host) } else { l.website_host }
            &&& consume_spec(l).0.website_port == crate::ss::u8r_spec(net[2 + len]) * 256 + crate::ss::u8r_spec(net[3 + len])
        }),
{
    let net = l.net_data;
    let len = crate::ss::u8r_spec(net[1]) as int;
    let host = Seq::new(len as nat, |i: int| crate::ss::u8r_spec(net[2 + i]));
    assert(requested_host(net) =~= host);
}

} // verus!
