use vstd::prelude::*;
use vstd::utf8::valid_utf8;

use super::data::move_network_data_to_garbage_spec;
use super::{actions_view, u8r_seq, Action, ActionView, Line, LineView};
use crate::ss::Status;

verus! {

/// What the remote gate may have sent to a local `Hk` connection without
/// the original program stopping: a two-byte greeting when `Established`, and
/// nothing at all once closed.
pub open spec fn hk_consume_ok(l: LineView) -> bool {
    match l.status {
        Status::Close | Status::Dead => false,
        Status::Established => l.net_data.len() == 2,
        _ => true,
    }
}

pub open spec fn hk_consume_spec(l: LineView) -> LineView {
    match l.status {
        Status::Raw => l,
        Status::Established => LineView {
            net_data: Seq::empty(),
            status: Status::FirstPackDone,
            ..l
        },
        _ => move_network_data_to_garbage_spec(l),
    }
}

/// A SOCKS5 greeting starts with version 5.
pub open spec fn s5_hello_ok(net: Seq<u8>) -> bool {
    net.len() >= 1 && net[0] == 5
}

/// A SOCKS5 CONNECT request: version 5, command 1, reserved 0, an address
/// type byte, a length byte, the host as UTF-8, and a two-byte port.
pub open spec fn s5_connect_ok(net: Seq<u8>) -> bool {
    &&& net.len() >= 7
    &&& net[0] == 5
    &&& net[1] == 1
    &&& net[2] == 0
    &&& valid_utf8(net.subrange(5, net.len() - 2))
}

/// The inputs on which a SOCKS client connection can consume its bytes.
pub open spec fn pc_consume_ok(l: LineView) -> bool {
    match l.status {
        Status::Raw | Status::SecondPackDone | Status::EncryptDone => true,
        Status::Established => s5_hello_ok(l.net_data),
        Status::FirstPackDone => s5_connect_ok(l.net_data),
        _ => false,
    }
}

/// The reply to a SOCKS5 greeting: version 5, no authentication.
pub open spec fn s5_hello_reply() -> Seq<u8> {
    seq![5u8, 0u8]
}

/// The reply to a SOCKS5 CONNECT: success, bound to 0.0.0.0:0.
pub open spec fn s5_connect_reply() -> Seq<u8> {
    seq![5u8, 0u8, 0u8, 1u8, 0u8, 0u8, 0u8, 0u8, 0u8, 0u8]
}

/// The SOCKS handshake on the client side: the greeting is answered, the
/// CONNECT request after its three-byte prefix is scrambled and queued for
/// the remote gate, the first encrypted packet replaces whatever was queued,
/// and after that bytes pass unchanged.
pub open spec fn pc_consume_spec(l: LineView) -> (LineView, Seq<ActionView>) {
    match l.status {
        Status::Established => (
            LineView { net_data: Seq::empty(), status: Status::FirstPackDone, ..l },
            seq![ActionView::Send(s5_hello_reply())],
        ),
        Status::FirstPackDone => (
            LineView {
                net_data: Seq::empty(),
                garbage: u8r_seq(l.net_data.subrange(3, l.net_data.len() as int)),
                status: Status::SecondPackDone,
                ..l
            },
            seq![ActionView::Send(s5_connect_reply())],
        ),
        Status::SecondPackDone => (
            LineView {
                net_data: Seq::empty(),
                garbage: u8r_seq(l.net_data),
                status: Status::EncryptDone,
                ..l
            },
            Seq::empty(),
        ),
        Status::EncryptDone => (move_network_data_to_garbage_spec(l), Seq::empty()),
        _ => (l, Seq::empty()),
    }
}

impl Line {
    /// Bytes from the remote gate on a local `Hk` connection.
    pub fn redmi_consume_hk_data(&mut self)
        requires
            hk_consume_ok(old(self)@),
        ensures
            final(self)@ == hk_consume_spec(old(self)@),
    {
        match self.status {
            Status::Raw => self.unexpect(),
            Status::Established => self.aliyun_hello(),
            _ => self.move_network_data_to_garbage(),
        }
    }

    /// The remote gate's two-byte greeting: the connection is ready.
    fn aliyun_hello(&mut self)
        requires
            old(self)@.net_data.len() == 2,
        ensures
            final(self)@ == (LineView {
                net_data: Seq::empty(),
                status: Status::FirstPackDone,
                ..old(self)@
            }),
    {
        self.clear_network_data();
        self.set_status(Status::FirstPackDone);
    }

    /// Bytes from a SOCKS client; see [`pc_consume_spec`].
    pub fn redmi_consume_pc_data(&mut self) -> (acts: Vec<Action>)
        requires
            pc_consume_ok(old(self)@),
        ensures
            (final(self)@, actions_view(acts@)) == pc_consume_spec(old(self)@),
    {
        let mut acts: Vec<Action> = Vec::new();
        match self.status {
            Status::Established => acts.push(self.s5_hello()),
            Status::FirstPackDone => acts.push(self.s5_connect_cmd()),
            Status::SecondPackDone => self.client_hello_from_pc(),
            Status::EncryptDone => self.move_network_data_to_garbage(),
            _ => self.unexpect(),
        }
        proof {
            assert(actions_view(acts@) =~= pc_consume_spec(old(self)@).1);
        }
        acts
    }

    fn s5_hello(&mut self) -> (act: Action)
        requires
            s5_hello_ok(old(self)@.net_data),
        ensures
            final(self)@ == (LineView {
                net_data: Seq::empty(),
                status: Status::FirstPackDone,
                ..old(self)@
            }),
            act@ == ActionView::Send(s5_hello_reply()),
    {
        let _version = self.net_data.pop_front();
        self.clear_network_data();
        self.set_status(Status::FirstPackDone);
        let reply: Vec<u8> = vec![5u8, 0u8];
        proof {
            assert(reply@ =~= s5_hello_reply());
        }
        Action::Send(reply)
    }

    fn s5_connect_cmd(&mut self) -> (act: Action)
        requires
            s5_connect_ok(old(self)@.net_data),
        ensures
            final(self)@ == (LineView {
                net_data: Seq::empty(),
                garbage: u8r_seq(old(self)@.net_data.subrange(3, old(self)@.net_data.len() as int)),
                status: Status::SecondPackDone,
                ..old(self)@
            }),
            act@ == ActionView::Send(s5_connect_reply()),
    {
        let _version = self.net_data.pop_front();
        let _command = self.net_data.pop_front();
        let _reserved = self.net_data.pop_front();
        proof {
            assert(self.net_data@ =~= old(self)@.net_data.subrange(3, old(self)@.net_data.len() as int));
        }
        self.clear_garbage();
        self.u8r_network_data_to_garbage();
        proof {
            assert(Seq::<u8>::empty() + u8r_seq(old(self)@.net_data.subrange(3, old(self)@.net_data.len() as int))
                =~= u8r_seq(old(self)@.net_data.subrange(3, old(self)@.net_data.len() as int)));
        }
        self.set_status(Status::SecondPackDone);
        let reply: Vec<u8> = vec![5u8, 0u8, 0u8, 1u8, 0u8, 0u8, 0u8, 0u8, 0u8, 0u8];
        proof {
            assert(reply@ =~= s5_connect_reply());
        }
        Action::Send(reply)
    }

    fn client_hello_from_pc(&mut self)
        ensures
            final(self)@ == (LineView {
                net_data: Seq::empty(),
                garbage: u8r_seq(old(self)@.net_data),
                status: Status::EncryptDone,
                ..old(self)@
            }),
    {
        self.clear_garbage();
        self.u8r_network_data_to_garbage();
        proof {
            assert(Seq::<u8>::empty() + u8r_seq(old(self)@.net_data) =~= u8r_seq(old(self)@.net_data));
        }
        self.set_status(Status::EncryptDone);
    }

    /// Bytes arrived in a status that expects none; nothing changes.
    pub fn unexpect(&mut self)
        ensures
            final(self)@ == old(self)@,
    {
    }
}

} // verus!
