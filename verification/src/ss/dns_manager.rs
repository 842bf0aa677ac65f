use vstd::prelude::*;

use super::text::{decimal, digits_value, lemma_decimal_round_trip, push_decimal, string_push};

verus! {

/// The fields of a DNS reply that the relay reads: the packet id, the
/// response code, and for each answer record its IPv4 address when it is an
/// `A` record.
pub struct DnsReply {
    pub id: u16,
    pub rcode: u16,
    pub answers: Vec<Option<u32>>,
}

/// The wire bytes that `simple_dns` builds for a recursive query of the `A`
/// record of `host` under packet id `id`; `None` when it refuses the name or
/// the packet.
pub uninterp spec fn a_query_packet(id: u16, host: Seq<char>) -> Option<Seq<u8>>;

/// What `simple_dns` parses out of `data`: packet id, response code number
/// and the answers as in [`DnsReply`]; `None` when the bytes do not parse.
pub uninterp spec fn dns_reply_fields(data: Seq<u8>) -> Option<(u16, u16, Seq<Option<u32>>)>;

/// The 16-bit value of the first two bytes, big-endian: a DNS packet's id.
pub open spec fn header_id(data: Seq<u8>) -> int {
    data[0] * 256 + data[1]
}

/// Builds a query with `simple_dns`: `Name::new(host)`, a `Question` for
/// type `A`, class `IN`, in `Packet::new_query(id)` with the
/// recursion-desired flag, serialised by `build_bytes_vec_compressed`. The
/// bytes are named by [`a_query_packet`]; the header written first holds the
/// id, big-endian, in 12 bytes. When `simple_dns` accepts a name is not
/// stated.
#[verifier::external_body]
fn build_a_query(id: u16, host: &str) -> (bytes: Option<Vec<u8>>)
    ensures
        match a_query_packet(id, host@) {
            Some(b) => bytes matches Some(v) && v@ == b,
            None => bytes is None,
        },
        bytes matches Some(v) ==> v@.len() >= 12 && header_id(v@) == id,
{
    let qname = simple_dns::Name::new(host).ok()?;
    let mut packet = simple_dns::Packet::new_query(id);
    packet.set_flags(simple_dns::PacketFlag::RECURSION_DESIRED);
    let question = simple_dns::Question::new(
        qname, simple_dns::TYPE::A.into(), simple_dns::CLASS::IN.into(), false);
    packet.questions.push(question);
    packet.build_bytes_vec_compressed().ok()
}

/// Parses a reply with `simple_dns::Packet::parse` and keeps the fields of
/// [`DnsReply`]: `id()`, `rcode()` as its number, and each answer's `A`
/// address. The result is named by [`dns_reply_fields`]; a parsed packet has
/// at least its 12-byte header, whose first two bytes are the id. Which
/// bytes parse is not stated.
#[verifier::external_body]
fn parse_reply(data: &[u8]) -> (reply: Option<DnsReply>)
    ensures
        match dns_reply_fields(data@) {
            Some((id, rcode, answers)) => reply matches Some(r) && r.id == id && r.rcode == rcode
                && r.answers@ == answers,
            None => reply is None,
        },
        reply matches Some(r) ==> data@.len() >= 12 && header_id(data@) == r.id,
{
    let packet = simple_dns::Packet::parse(data).ok()?;
    let answers = packet.answers.iter().map(|rr| match &rr.rdata {
        simple_dns::rdata::RData::A(a) => Some(a.address),
        _ => None,
    }).collect();
    Some(DnsReply { id: packet.id(), rcode: packet.rcode() as u16, answers })
}

/// The address of the first `A` answer.
pub open spec fn first_a(answers: Seq<Option<u32>>) -> Option<u32>
    decreases answers.len(),
{
    if answers.len() == 0 {
        None
    } else if answers[0] is Some {
        answers[0]
    } else {
        first_a(answers.drop_first())
    }
}

/// An IPv4 address in dotted decimal, most significant byte first.
pub open spec fn dotted_quad(addr: u32) -> Seq<char> {
    decimal((addr / 0x1000000) as nat) + seq!['.'] + decimal(((addr / 0x10000) % 256) as nat)
        + seq!['.'] + decimal(((addr / 0x100) % 256) as nat) + seq!['.'] + decimal((addr % 256) as nat)
}

pub open spec fn ip_view(ip: Option<String>) -> Option<Seq<char>> {
    match ip {
        Some(s) => Some(s@),
        None => None,
    }
}

/// The result of a reply: its id with the first `A` address when the server
/// reports no error, its id alone on an error code, and `(0, None)` when it
/// does not parse.
pub open spec fn decode_spec(reply: Option<(u16, u16, Seq<Option<u32>>)>) -> (usize, Option<Seq<char>>) {
    match reply {
        Some((id, rcode, answers)) => (
            id as usize,
            if rcode == 0 {
                match first_a(answers) {
                    Some(a) => Some(dotted_quad(a)),
                    None => None,
                }
            } else {
                None
            },
        ),
        None => (0, None),
    }
}

pub open spec fn reply_view(reply: Option<DnsReply>) -> Option<(u16, u16, Seq<Option<u32>>)> {
    match reply {
        Some(r) => Some((r.id, r.rcode, r.answers@)),
        None => None,
    }
}

pub open spec fn results_view(r: Seq<(usize, Option<String>)>) -> Seq<(usize, Option<Seq<char>>)> {
    r.map_values(|e: (usize, Option<String>)| (e.0, ip_view(e.1)))
}

/// Formats an IPv4 address as dotted decimal.
pub fn format_ipv4(addr: u32) -> (s: String)
    ensures
        s@ == dotted_quad(addr),
{
    let b0 = (addr / 0x1000000) as u8;
    let b1 = ((addr / 0x10000) % 256) as u8;
    let b2 = ((addr / 0x100) % 256) as u8;
    let b3 = (addr % 256) as u8;
    let mut s = String::new();
    push_decimal(&mut s, b0 as u64);
    string_push(&mut s, '.');
    push_decimal(&mut s, b1 as u64);
    string_push(&mut s, '.');
    push_decimal(&mut s, b2 as u64);
    string_push(&mut s, '.');
    push_decimal(&mut s, b3 as u64);
    proof {
        assert(s@ =~= dotted_quad(addr));
    }
    s
}

/// The first `A` answer's address in dotted decimal.
pub fn get_ip(data: &Vec<Option<u32>>) -> (ip: Option<String>)
    ensures
        ip_view(ip) == (match first_a(data@) {
            Some(a) => Some(dotted_quad(a)),
            None => None,
        }),
{
    let mut i: usize = 0;
    assert(data@.subrange(0, data@.len() as int) =~= data@);
    while i < data.len()
        invariant
            i <= data@.len(),
            first_a(data@) == first_a(data@.subrange(i as int, data@.len() as int)),
        decreases data@.len() - i,
    {
        let ghost rest = data@.subrange(i as int, data@.len() as int);
        assert(rest.drop_first() =~= data@.subrange(i + 1, data@.len() as int));
        match data[i] {
            Some(a) => {
                return Some(format_ipv4(a));
            },
            None => {},
        }
        i = i + 1;
    }
    None
}

/// See [`decode_spec`]: what a reply, as `simple_dns` parsed it, yields.
pub fn decode_reply(reply: &Option<DnsReply>) -> (res: (usize, Option<String>))
    ensures
        (res.0, ip_view(res.1)) == decode_spec(reply_view(*reply)),
{
    match reply {
        Some(r) => {
            let id = r.id as usize;
            if r.rcode == 0 {
                (id, get_ip(&r.answers))
            } else {
                (id, None)
            }
        },
        None => (0, None),
    }
}

/// The results of DNS replies, in arrival order, until they are taken.
pub struct DnsManager {
    pub dns_result: Vec<(usize, Option<String>)>,
}

impl DnsManager {
    pub fn new() -> (dm: DnsManager)
        ensures
            dm.dns_result@.len() == 0,
    {
        DnsManager { dns_result: Vec::new() }
    }

    /// The number of results waiting.
    pub fn peek(&self) -> (num: usize)
        ensures
            num == self.dns_result@.len(),
    {
        self.dns_result.len()
    }

    /// The query packet for line `id` asking for the address of `host`; its
    /// header carries `id`. `None` where `simple_dns` refuses the name or the
    /// packet.
    pub fn new_dns_query(&self, id: usize, host: String) -> (packet: Option<Vec<u8>>)
        requires
            id <= u16::MAX,
        ensures
            match a_query_packet(id as u16, host@) {
                Some(b) => packet matches Some(v) && v@ == b,
                None => packet is None,
            },
            packet matches Some(v) ==> v@.len() >= 12 && header_id(v@) == id,
    {
        self.build(id as u16, host)
    }

    /// Takes all waiting results, in arrival order.
    pub fn move_out_dns_result(&mut self) -> (ret: Vec<(usize, Option<String>)>)
        ensures
            results_view(ret@) == results_view(old(self).dns_result@),
            final(self).dns_result@.len() == 0,
    {
        let mut ret: Vec<(usize, Option<String>)> = Vec::new();
        std::mem::swap(&mut ret, &mut self.dns_result);
        ret
    }

    pub fn clear_dns_result(&mut self)
        ensures
            final(self).dns_result@.len() == 0,
    {
        self.dns_result.clear();
    }

    /// The result of one reply's bytes; see [`decode_spec`]. A parsed reply's
    /// id is the first two bytes.
    fn decode(&self, data: &[u8]) -> (res: (usize, Option<String>))
        ensures
            (res.0, ip_view(res.1)) == decode_spec(dns_reply_fields(data@)),
            dns_reply_fields(data@) is Some ==> data@.len() >= 12 && res.0 == header_id(data@),
    {
        let reply = parse_reply(data);
        decode_reply(&reply)
    }

    fn build(&self, id: u16, host: String) -> (packet: Option<Vec<u8>>)
        ensures
            match a_query_packet(id, host@) {
                Some(b) => packet matches Some(v) && v@ == b,
                None => packet is None,
            },
            packet matches Some(v) ==> v@.len() >= 12 && header_id(v@) == id,
    {
        build_a_query(id, host.as_str())
    }

    /// A datagram from the DNS server: its result is queued.
    pub fn on_recv(&mut self, buf: &[u8])
        ensures
            results_view(final(self).dns_result@) == results_view(old(self).dns_result@).push(
                decode_spec(dns_reply_fields(buf@)),
            ),
            dns_reply_fields(buf@) is Some ==> buf@.len() >= 12 && final(self).dns_result@.last().0
                == header_id(buf@),
    {
        let ret = self.decode(buf);
        self.dns_result.push(ret);
        proof {
            assert(results_view(self.dns_result@) =~= results_view(old(self).dns_result@).push(
                decode_spec(dns_reply_fields(buf@))));
        }
    }
}

/// The address taken from the answers is the first `A` record's: some
/// answer carries it and every answer before it is not an `A` record; with
/// no `A` record there is none.
pub proof fn lemma_first_a(answers: Seq<Option<u32>>)
    ensures
        first_a(answers) matches Some(a) ==> exists|i: int| #![trigger answers[i]] 0 <= i < answers.len() && answers[i] == Some(a)
            && forall|j: int| 0 <= j < i ==> #[trigger] answers[j] is None,
        first_a(answers) is None <==> forall|i: int| 0 <= i < answers.len() ==> #[trigger] answers[i] is None,
    decreases answers.len(),
{
    if answers.len() > 0 {
        let rest = answers.drop_first();
        lemma_first_a(rest);
        if answers[0] is Some {
            assert(answers[0] == first_a(answers));
            assert(forall|j: int| 0 <= j < 0 ==> #[trigger] answers[j] is None);
        } else {
            if first_a(rest) is Some {
                let a = first_a(rest)->0;
                let i = choose|i: int| #![trigger rest[i]] 0 <= i < rest.len() && rest[i] == Some(a)
                    && forall|j: int| 0 <= j < i ==> #[trigger] rest[j] is None;
                assert(answers[i + 1] == Some(a));
                assert forall|j: int| 0 <= j < i + 1 implies #[trigger] answers[j] is None by {
                    if j > 0 {
                        assert(answers[j] == rest[j - 1]);
                    }
                }
            }
            assert((forall|i: int| 0 <= i < rest.len() ==> #[trigger] rest[i] is None) <==>
                (forall|i: int| 0 <= i < answers.len() ==> #[trigger] answers[i] is None)) by {
                if forall|i: int| 0 <= i < rest.len() ==> #[trigger] rest[i] is None {
                    assert forall|i: int| 0 <= i < answers.len() implies #[trigger] answers[i] is None by {
                        if i > 0 {
                            assert(answers[i] == rest[i - 1]);
                        }
                    }
                }
                if forall|i: int| 0 <= i < answers.len() ==> #[trigger] answers[i] is None {
                    assert forall|i: int| 0 <= i < rest.len() implies #[trigger] rest[i] is None by {
                        assert(rest[i] == answers[i + 1]);
                    }
                }
            }
        }
    }
}

/// A reply yields its own id; an address only when the server reports no
/// error and some answer is an `A` record, and then the first one, in
/// dotted decimal; bytes that do not parse yield `(0, None)`.
pub proof fn lemma_decode(reply: Option<(u16, u16, Seq<Option<u32>>)>)
    ensures
        reply is None ==> decode_spec(reply) == (0usize, None::<Seq<char>>),
        reply matches Some((id, rcode, answers)) ==> {
            &&& decode_spec(reply).0 == id
            &&& rcode != 0 ==> decode_spec(reply).1 is None
            &&& rcode == 0 ==> (decode_spec(reply).1 is Some <==> exists|i: int| 0 <= i < answers.len() && #[trigger] answers[i] is Some)
            &&& rcode == 0 && first_a(answers) is Some ==> decode_spec(reply).1 == Some(dotted_quad(first_a(answers)->0))
        },
{
    if let Some((id, rcode, answers)) = reply {
        lemma_first_a(answers);
    }
}

/// Four runs of decimal digits.
pub open spec fn all_digits(s: Seq<char>) -> bool {
    s.len() >= 1 && forall|i: int| 0 <= i < s.len() ==> '0' <= #[trigger] s[i] <= '9'
}

/// A formatted address is four runs of digits separated by dots, each
/// denoting a byte, and together, most significant first, the address.
pub proof fn lemma_dotted_quad(addr: u32)
    ensures
        exists|a: Seq<char>, b: Seq<char>, c: Seq<char>, d: Seq<char>|
            #![trigger all_digits(a), all_digits(b), all_digits(c), all_digits(d)]
            all_digits(a) && all_digits(b) && all_digits(c) && all_digits(d)
            && dotted_quad(addr) == a + seq!['.'] + b + seq!['.'] + c + seq!['.'] + d
            && digits_value(a) < 256 && digits_value(b) < 256 && digits_value(c) < 256 && digits_value(d) < 256
            && digits_value(a) * 16777216 + digits_value(b) * 65536 + digits_value(c) * 256 + digits_value(d) == addr,
{
    let n0 = (addr / 0x1000000) as nat;
    let n1 = ((addr / 0x10000) % 256) as nat;
    let n2 = ((addr / 0x100) % 256) as nat;
    let n3 = (addr % 256) as nat;
    lemma_decimal_round_trip(n0);
    lemma_decimal_round_trip(n1);
    lemma_decimal_round_trip(n2);
    lemma_decimal_round_trip(n3);
    assert(n0 * 16777216 + n1 * 65536 + n2 * 256 + n3 == addr) by (nonlinear_arith)
        requires
            n0 == addr / 0x1000000,
            n1 == (addr / 0x10000) % 256,
            n2 == (addr / 0x100) % 256,
            n3 == addr % 256,
            addr < 0x1_0000_0000,
    {
    }
    assert(n0 < 256);
    assert(all_digits(decimal(n0)) && all_digits(decimal(n1)) && all_digits(decimal(n2)) && all_digits(decimal(n3)));
}

} // verus!
