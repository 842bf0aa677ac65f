use vstd::prelude::*;

use super::line::is_walk;
use super::{lemma_prefix_step, Gate};
use crate::ss::dns_manager::{a_query_packet, ip_view, results_view, DnsManager};
use crate::ss::line::aliyun_mainland::dns_query_success_spec;
use crate::ss::line::{new_line_view, LineView};
use crate::ss::text::{decimal, digits_value, push_decimal, string_push};
use crate::ss::LineType;

verus! {

broadcast use vstd::std_specs::hash::group_hash_axioms;

/// A remote gate connection that named its website and needs its address.
pub open spec fn wants_dns(l: LineView) -> bool {
    l.line_type is MainLand && l.status is FirstPackDone
}

/// A connection that asked for an address now waits for it.
pub open spec fn waiting(l: LineView) -> LineView {
    if wants_dns(l) {
        LineView { status: crate::ss::Status::WaitingDnsResult, ..l }
    } else {
        l
    }
}

/// The (connection, host) pairs to resolve, in walk order.
pub open spec fn dns_names(m: Map<usize, LineView>, ks: Seq<usize>) -> Seq<(usize, Seq<char>)>
    decreases ks.len(),
{
    if ks.len() == 0 {
        Seq::empty()
    } else {
        let rest = dns_names(m, ks.drop_last());
        let k = ks.last();
        if wants_dns(m[k]) {
            rest.push((m[k].id, m[k].website_host))
        } else {
            rest
        }
    }
}

pub open spec fn packet_view(p: Option<Vec<u8>>) -> Option<Seq<u8>> {
    match p {
        Some(v) => Some(v@),
        None => None,
    }
}

/// The address to connect to: the IP, a colon and the port in decimal.
pub open spec fn connect_addr(ip: Seq<char>, port: u16) -> Seq<char> {
    ip + seq![':'] + decimal(port as nat)
}

/// The connections to open for DNS results, taken from the last result to
/// the first; results without an address open nothing.
pub open spec fn dns_targets(m: Map<usize, LineView>, rs: Seq<(usize, Option<Seq<char>>)>) -> Seq<(usize, Seq<char>)>
    decreases rs.len(),
{
    if rs.len() == 0 {
        Seq::empty()
    } else {
        let last = rs.last();
        let head = match last.1 {
            Some(ip) => seq![(last.0, connect_addr(ip, m[last.0].website_port))],
            None => Seq::empty(),
        };
        head + dns_targets(m, rs.drop_last())
    }
}

pub open spec fn targets_view(t: Seq<(usize, String)>) -> Seq<(usize, Seq<char>)> {
    t.map_values(|e: (usize, String)| (e.0, e.1@))
}

/// The table once website connection `new_id` for connection `id` is open:
/// it is filed, paired with `id` and named by `addr`, and `id` moves on.
pub open spec fn with_world(m: Map<usize, LineView>, id: usize, new_id: usize, addr: Seq<char>, now: u64) -> Map<usize, LineView> {
    let m2 = m.insert(new_id, LineView { website_host: addr, ..new_line_view(new_id, id, LineType::World, now) });
    m2.insert(id, dns_query_success_spec(m2[id], new_id))
}

impl Gate {
    /// Every remote gate connection that named its website starts waiting
    /// for its address, and when the DNS client runs a query packet is built
    /// for each, in the same order (`None` where `simple_dns` refuses one).
    pub fn gather_dns_query(&mut self) -> (packets: Vec<Option<Vec<u8>>>)
        requires
            old(self).wf(),
            old(self).dm is Some ==> forall|k: usize| #[trigger] old(self).lines_view().contains_key(k)
                && wants_dns(old(self).lines_view()[k]) ==> k <= u16::MAX,
        ensures
            final(self).wf(),
            final(self).lines_view() == old(self).lines_view().map_values(|l: LineView| waiting(l)),
            exists|ks: Seq<usize>| #[trigger] is_walk(ks, old(self).lines_view().dom()) && {
                let names = dns_names(old(self).lines_view(), ks);
                if old(self).dm is Some {
                    &&& packets@.len() == names.len()
                    &&& forall|i: int| 0 <= i < names.len() ==> names[i].0 <= u16::MAX
                        && packet_view(#[trigger] packets@[i]) == a_query_packet(names[i].0 as u16, names[i].1)
                } else {
                    packets@.len() == 0
                }
            },
            final(self).dm == old(self).dm,
            final(self).next_id == old(self).next_id,
            final(self).chick_init_num == old(self).chick_init_num,
    {
        let ghost m = self.lines_view();
        let keys = self.line_ids();
        let mut names: Vec<(usize, String)> = Vec::new();
        let mut i: usize = 0;
        while i < keys.len()
            invariant
                self.wf(),
                keys@.no_duplicates(),
                forall|k: usize| keys@.contains(k) <==> m.contains_key(k),
                0 <= i <= keys@.len(),
                self.lines_view().dom() == m.dom(),
                forall|k: usize| #[trigger] self.lines_view().contains_key(k) ==>
                    self.lines_view()[k] == if keys@.subrange(0, i as int).contains(k) {
                        waiting(m[k])
                    } else {
                        m[k]
                    },
                targets_view(names@) == dns_names(m, keys@.subrange(0, i as int)),
                forall|j: int| 0 <= j < names@.len() ==> m.contains_key(#[trigger] names@[j].0) && wants_dns(m[names@[j].0]),
                self.dm == old(self).dm,
                self.next_id == old(self).next_id,
                self.chick_init_num == old(self).chick_init_num,
            decreases keys@.len() - i,
        {
            let id = keys[i];
            proof {
                lemma_prefix_step(keys@, i as int);
                assert(!keys@.subrange(0, i as int).contains(id)) by {
                    if keys@.subrange(0, i as int).contains(id) {
                        let j = choose|j: int| 0 <= j < i && #[trigger] keys@.subrange(0, i as int)[j] == id;
                        assert(keys@[j] == id);
                    }
                }
                assert(keys@.contains(id));
                assert(self.lines_view()[id] == m[id]);
            }
            let wants = {
                let line = self.line_ref(id);
                match line.line_type {
                    LineType::MainLand => match line.status {
                        crate::ss::Status::FirstPackDone => true,
                        _ => false,
                    },
                    _ => false,
                }
            };
            if wants {
                let mut line = self.take_line(id);
                let host = line.website_host.clone();
                names.push((line.id, host));
                line.waiting_for_dns_result();
                self.put_line(line);
                proof {
                    assert(targets_view(names@) =~= dns_names(m, keys@.subrange(0, i + 1)));
                }
            }
            proof {
                assert(self.lines_view().dom() =~= m.dom());
            }
            i = i + 1;
        }
        proof {
            assert(keys@.subrange(0, keys@.len() as int) =~= keys@);
            assert(self.lines_view() =~= m.map_values(|l: LineView| waiting(l)));
            assert(is_walk(keys@, m.dom()));
        }
        let mut packets: Vec<Option<Vec<u8>>> = Vec::new();
        match &self.dm {
            Some(dm) => {
                assert(forall|k: usize| #[trigger] m.contains_key(k) && wants_dns(m[k]) ==> k <= u16::MAX);
                let mut j: usize = 0;
                while j < names.len()
                    invariant
                        0 <= j <= names@.len(),
                        packets@.len() == j,
                        forall|q: int| 0 <= q < names@.len() ==> m.contains_key(#[trigger] names@[q].0) && wants_dns(m[names@[q].0]),
                        forall|k: usize| #[trigger] m.contains_key(k) && wants_dns(m[k]) ==> k <= u16::MAX,
                        forall|q: int| 0 <= q < j ==> packet_view(#[trigger] packets@[q]) == a_query_packet(names@[q].0 as u16, names@[q].1@),
                    decreases names@.len() - j,
                {
                    let (id, host) = (names[j].0, names[j].1.clone());
                    proof {
                        assert(m.contains_key(names@[j as int].0));
                    }
                    let p = dm.new_dns_query(id, host);
                    packets.push(p);
                    j = j + 1;
                }
                proof {
                    let names_s = dns_names(m, keys@);
                    assert forall|q: int| 0 <= q < names_s.len() implies names_s[q].0 <= u16::MAX
                        && packet_view(#[trigger] packets@[q]) == a_query_packet(names_s[q].0 as u16, names_s[q].1) by {
                        assert(names_s[q] == (names@[q].0, names@[q].1@));
                        assert(m.contains_key(names@[q].0));
                    }
                }
            },
            None => {},
        }
        packets
    }

    /// Starts the DNS client of the remote gate with no results.
    pub fn activate_dns_manager(&mut self)
        ensures
            final(self).dm matches Some(dm) && dm.dns_result@.len() == 0,
            final(self).lines_view() == old(self).lines_view(),
            final(self).next_id == old(self).next_id,
            final(self).chick_init_num == old(self).chick_init_num,
    {
        self.dm = Some(DnsManager::new());
    }

    /// The address to connect to for a DNS result of connection `id`: the IP
    /// with the connection's website port, or `None` when the name did not
    /// resolve.
    pub fn on_dns_result(&mut self, id: usize, ret: Option<String>) -> (addr: Option<String>)
        requires
            old(self).lines_view().contains_key(id),
        ensures
            ip_view(addr) == (match ip_view(ret) {
                Some(ip) => Some(connect_addr(ip, old(self).lines_view()[id].website_port)),
                None => None,
            }),
            *final(self) == *old(self),
    {
        let port = self.line_ref(id).website_port;
        match ret {
            Some(ip) => {
                let mut addr = ip;
                string_push(&mut addr, ':');
                push_decimal(&mut addr, port as u64);
                proof {
                    assert(addr@ =~= connect_addr(ip_view(ret).unwrap(), port));
                }
                Some(addr)
            },
            None => None,
        }
    }

    /// The DNS results are taken, last first, and each one that resolved
    /// yields its connection and the address to open for it.
    pub fn check_dns_result(&mut self) -> (targets: Vec<(usize, String)>)
        requires
            old(self).wf(),
            old(self).dm matches Some(dm) ==> forall|i: int| 0 <= i < dm.dns_result@.len()
                ==> old(self).lines_view().contains_key(#[trigger] dm.dns_result@[i].0),
        ensures
            final(self).wf(),
            final(self).lines_view() == old(self).lines_view(),
            match old(self).dm {
                Some(dm) => {
                    &&& final(self).dm matches Some(d) && d.dns_result@.len() == 0
                    &&& targets_view(targets@) == dns_targets(old(self).lines_view(), results_view(dm.dns_result@))
                },
                None => final(self).dm is None && targets@.len() == 0,
            },
            final(self).next_id == old(self).next_id,
            final(self).chick_init_num == old(self).chick_init_num,
    {
        let ghost m = self.lines_view();
        let mut targets: Vec<(usize, String)> = Vec::new();
        let mut data = match &mut self.dm {
            Some(dm) => {
                if dm.peek() > 0 {
                    dm.move_out_dns_result()
                } else {
                    proof {
                        assert(results_view(dm.dns_result@) =~= Seq::<(usize, Option<Seq<char>>)>::empty());
                        assert(targets_view(targets@) =~= Seq::<(usize, Seq<char>)>::empty());
                    }
                    return targets;
                }
            },
            None => {
                return targets;
            },
        };
        let ghost rs = results_view(data@);
        assert(rs == results_view(old(self).dm.unwrap().dns_result@));
        let n = data.len();
        let mut i: usize = 0;
        proof {
            assert(rs.subrange(0, n as int) =~= rs);
        }
        while i < n
            invariant
                self.wf(),
                self.lines_view() == m,
                n == rs.len(),
                0 <= i <= n,
                results_view(data@) == rs.subrange(0, n - i),
                forall|q: int| 0 <= q < rs.len() ==> m.contains_key(#[trigger] rs[q].0),
                targets_view(targets@) + dns_targets(m, rs.subrange(0, n - i)) == dns_targets(m, rs),
                self.dm matches Some(d) && d.dns_result@.len() == 0,
                self.next_id == old(self).next_id,
                self.chick_init_num == old(self).chick_init_num,
            decreases n - i,
        {
            let ghost pre = data@;
            let (id, ip) = data.pop().unwrap();
            proof {
                assert(rs.subrange(0, n - i - 1) =~= rs.subrange(0, n - i).drop_last());
                assert(results_view(data@) =~= rs.subrange(0, n - i - 1));
                assert(rs[n - i - 1] == (id, ip_view(ip)));
                assert(m.contains_key(rs[n - i - 1].0));
            }
            let addr = self.on_dns_result(id, ip);
            match addr {
                Some(a) => {
                    let ghost t0 = targets@;
                    targets.push((id, a));
                    proof {
                        assert(targets_view(targets@) =~= targets_view(t0).push((id, a@)));
                        assert(targets_view(targets@) + dns_targets(m, rs.subrange(0, n - i - 1))
                            =~= targets_view(t0) + dns_targets(m, rs.subrange(0, n - i)));
                    }
                },
                None => {
                    proof {
                        assert(dns_targets(m, rs.subrange(0, n - i)) =~= dns_targets(m, rs.subrange(0, n - i - 1)));
                    }
                },
            }
            i = i + 1;
        }
        proof {
            assert(rs.subrange(0, 0) =~= Seq::<(usize, Option<Seq<char>>)>::empty());
            assert(targets_view(targets@) =~= dns_targets(m, rs));
        }
        targets
    }

    /// Website connection `new_id` for connection `id` is open at `addr`.
    pub fn on_world_connected(&mut self, id: usize, new_id: usize, addr: String, now: u64)
        requires
            old(self).wf(),
            old(self).lines_view().contains_key(id),
        ensures
            final(self).wf(),
            final(self).lines_view() == with_world(old(self).lines_view(), id, new_id, addr@, now),
            final(self).dm == old(self).dm,
            final(self).next_id == old(self).next_id,
            final(self).chick_init_num == old(self).chick_init_num,
    {
        let ghost m = self.lines_view();
        self.new_line(new_id, id, LineType::World, now);
        let mut world = self.take_line(new_id);
        world.set_website_host(addr);
        self.put_line(world);
        let mut line = self.take_line(id);
        line.dns_query_success(new_id);
        self.put_line(line);
        proof {
            assert(self.lines_view() =~= with_world(m, id, new_id, addr@, now));
        }
    }
}

/// Collecting DNS queries concerns remote gate connections that named
/// their website and nothing else: such a connection starts waiting, every
/// other connection (local connections, ready `Hk` connections among them)
/// is left exactly as it was.
pub proof fn lemma_gather_touches_only_named_mainland(l: LineView)
    ensures
        !(l.line_type is MainLand) ==> waiting(l) == l,
        !(l.status is FirstPackDone) ==> waiting(l) == l,
        l.line_type is MainLand && l.status is FirstPackDone ==>
            waiting(l) == (LineView { status: crate::ss::Status::WaitingDnsResult, ..l }),
{
}

/// The queries gathered in a walk are exactly one per remote gate
/// connection that named its website, carrying its id and its host.
pub proof fn lemma_dns_names_exact(m: Map<usize, LineView>, ks: Seq<usize>)
    requires
        ks.no_duplicates(),
        forall|i: int| 0 <= i < ks.len() ==> m.contains_key(#[trigger] ks[i]) && m[ks[i]].id == ks[i],
    ensures
        forall|j: int| 0 <= j < dns_names(m, ks).len() ==> {
            let (id, host) = #[trigger] dns_names(m, ks)[j];
            &&& ks.contains(id)
            &&& m[id].line_type is MainLand
            &&& m[id].status is FirstPackDone
            &&& host == m[id].website_host
        },
        forall|i: int| 0 <= i < ks.len() && m[ks[i]].line_type is MainLand && m[ks[i]].status is FirstPackDone
            ==> dns_names(m, ks).contains((ks[i], m[ks[i]].website_host)),
        dns_names(m, ks).len() == ks.filter(|k: usize| wants_dns(m[k])).len(),
    decreases ks.len(),
{
    if ks.len() > 0 {
        let rest = ks.drop_last();
        let k = ks.last();
        assert(ks =~= rest.push(k));
        assert(rest.no_duplicates()) by {
            assert forall|a: int, b: int| 0 <= a < rest.len() && 0 <= b < rest.len() && a != b implies rest[a] != rest[b] by {
                assert(rest[a] == ks[a] && rest[b] == ks[b]);
            }
        }
        assert forall|i: int| 0 <= i < rest.len() implies m.contains_key(#[trigger] rest[i]) && m[rest[i]].id == rest[i] by {
            assert(rest[i] == ks[i]);
        }
        lemma_dns_names_exact(m, rest);
        rest.lemma_filter_push(k, |k: usize| wants_dns(m[k]));
        let names = dns_names(m, ks);
        let rn = dns_names(m, rest);
        assert(m.contains_key(ks[ks.len() - 1]));
        assert forall|j: int| 0 <= j < names.len() implies {
            let (id, host) = #[trigger] names[j];
            &&& ks.contains(id)
            &&& m[id].line_type is MainLand
            &&& m[id].status is FirstPackDone
            &&& host == m[id].website_host
        } by {
            if j < rn.len() {
                assert(names[j] == rn[j]);
                let (id, host) = rn[j];
                let q = choose|q: int| 0 <= q < rest.len() && rest[q] == id;
                assert(ks[q] == id);
            } else {
                assert(names[j] == (m[k].id, m[k].website_host));
                assert(ks[ks.len() - 1] == k);
            }
        }
        assert forall|i: int| 0 <= i < ks.len() && m[ks[i]].line_type is MainLand && m[ks[i]].status is FirstPackDone
            implies names.contains((ks[i], m[ks[i]].website_host)) by {
            if i < rest.len() {
                assert(rest[i] == ks[i]);
                let q = choose|q: int| 0 <= q < rn.len() && rn[q] == (rest[i], m[rest[i]].website_host);
                assert(names[q] == rn[q]);
            } else {
                assert(names[names.len() - 1] == (ks[i], m[ks[i]].website_host));
            }
        }
    } else {
        assert(ks.filter(|k: usize| wants_dns(m[k])) =~= Seq::<usize>::empty()) by {
            reveal_with_fuel(Seq::filter, 1);
        }
    }
}

/// `x` is the target of some result in `rs` that carries an address.
pub open spec fn target_of_result(m: Map<usize, LineView>, rs: Seq<(usize, Option<Seq<char>>)>, x: (usize, Seq<char>)) -> bool {
    exists|i: int| #![trigger rs[i]] 0 <= i < rs.len() && rs[i].1 is Some
        && x == (rs[i].0, connect_addr(rs[i].1->0, m[rs[i].0].website_port))
}

/// DNS results give one website connection per result that carries an
/// address, none for those that do not, each to that address and the
/// requesting connection's website port.
pub proof fn lemma_dns_targets_exact(m: Map<usize, LineView>, rs: Seq<(usize, Option<Seq<char>>)>)
    ensures
        dns_targets(m, rs).len() == rs.filter(|r: (usize, Option<Seq<char>>)| r.1 is Some).len(),
        forall|i: int| 0 <= i < rs.len() && rs[i].1 is Some ==>
            dns_targets(m, rs).contains((rs[i].0, connect_addr(rs[i].1->0, m[rs[i].0].website_port))),
        forall|j: int| 0 <= j < dns_targets(m, rs).len() ==> target_of_result(m, rs, #[trigger] dns_targets(m, rs)[j]),
    decreases rs.len(),
{
    if rs.len() == 0 {
        assert(rs.filter(|r: (usize, Option<Seq<char>>)| r.1 is Some) =~= Seq::<(usize, Option<Seq<char>>)>::empty()) by {
            reveal_with_fuel(Seq::filter, 1);
        }
    } else {
        let rest = rs.drop_last();
        let last = rs.last();
        assert(rs =~= rest.push(last));
        lemma_dns_targets_exact(m, rest);
        rest.lemma_filter_push(last, |r: (usize, Option<Seq<char>>)| r.1 is Some);
        let t = dns_targets(m, rs);
        let tr = dns_targets(m, rest);
        let head: Seq<(usize, Seq<char>)> = match last.1 {
            Some(ip) => seq![(last.0, connect_addr(ip, m[last.0].website_port))],
            None => Seq::empty(),
        };
        assert(t == head + tr);
        assert forall|i: int| 0 <= i < rs.len() && rs[i].1 is Some implies
            t.contains((rs[i].0, connect_addr(rs[i].1->0, m[rs[i].0].website_port))) by {
            if i < rest.len() {
                assert(rest[i] == rs[i]);
                let q = choose|q: int| 0 <= q < tr.len() && tr[q] == (rest[i].0, connect_addr(rest[i].1->0, m[rest[i].0].website_port));
                assert(t[head.len() + q] == tr[q]);
            } else {
                assert(t[0] == head[0]);
            }
        }
        assert forall|j: int| 0 <= j < t.len() implies target_of_result(m, rs, #[trigger] t[j]) by {
            if j < head.len() {
                let i = rs.len() - 1;
                assert(rs[i] == last);
                assert(t[j] == head[j]);
                assert(0 <= i < rs.len() && rs[i].1 is Some && t[j] == (rs[i].0, connect_addr(rs[i].1->0, m[rs[i].0].website_port)));
            } else {
                assert(t[j] == tr[j - head.len()]);
                assert(0 <= j - head.len() < tr.len());
                assert(target_of_result(m, rest, tr[j - head.len()]));
                let i = choose|i: int| #![trigger rest[i]] 0 <= i < rest.len() && rest[i].1 is Some
                    && tr[j - head.len()] == (rest[i].0, connect_addr(rest[i].1->0, m[rest[i].0].website_port));
                assert(rs[i] == rest[i]);
                assert(0 <= i < rs.len() && rs[i].1 is Some && t[j] == (rs[i].0, connect_addr(rs[i].1->0, m[rs[i].0].website_port)));
            }
        }
    }
}

/// Once the website connection is open, it is a fresh `World` connection
/// named by the address and paired with the requesting connection, which is
/// paired back with it; every other connection is unchanged.
pub proof fn lemma_world_connection(m: Map<usize, LineView>, id: usize, new_id: usize, addr: Seq<char>, now: u64)
    requires
        m.contains_key(id),
        new_id != id,
    ensures
        with_world(m, id, new_id, addr, now).dom() == m.dom().insert(new_id),
        with_world(m, id, new_id, addr, now)[new_id].line_type is World,
        with_world(m, id, new_id, addr, now)[new_id].pair_id == id,
        with_world(m, id, new_id, addr, now)[new_id].website_host == addr,
        with_world(m, id, new_id, addr, now)[new_id].status is Raw,
        with_world(m, id, new_id, addr, now)[new_id].garbage.len() == 0,
        with_world(m, id, new_id, addr, now)[new_id].mem_data.len() == 0,
        with_world(m, id, new_id, addr, now)[new_id].net_data.len() == 0,
        with_world(m, id, new_id, addr, now)[id].pair_id == new_id,
        with_world(m, id, new_id, addr, now)[id].line_type == m[id].line_type,
        forall|k: usize| #[trigger] m.contains_key(k) && k != id && k != new_id ==> with_world(m, id, new_id, addr, now)[k] == m[k],
{
    assert(with_world(m, id, new_id, addr, now).dom() =~= m.dom().insert(new_id));
}

/// The address to connect to is the IP, a colon, and digits that read
/// back as the website port.
pub proof fn lemma_connect_addr(ip: Seq<char>, port: u16)
    ensures
        connect_addr(ip, port).subrange(0, ip.len() as int) == ip,
        connect_addr(ip, port)[ip.len() as int] == ':',
        digits_value(connect_addr(ip, port).subrange(ip.len() as int + 1, connect_addr(ip, port).len() as int)) == port,
        forall|i: int| ip.len() < i < connect_addr(ip, port).len() ==> '0' <= #[trigger] connect_addr(ip, port)[i] <= '9',
{
    crate::ss::text::lemma_decimal_round_trip(port as nat);
    let a = connect_addr(ip, port);
    assert(a.subrange(0, ip.len() as int) =~= ip);
    assert(a.subrange(ip.len() as int + 1, a.len() as int) =~= decimal(port as nat));
    assert forall|i: int| ip.len() < i < a.len() implies '0' <= #[trigger] a[i] <= '9' by {
        assert(a[i] == decimal(port as nat)[i - ip.len() - 1]);
    }
}

} // verus!
