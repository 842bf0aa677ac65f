use std::collections::HashMap;
use vstd::std_specs::iter::IteratorSpec;
use vstd::prelude::*;

use super::dns_manager::DnsManager;
use super::line::{actions_view, new_line_view, Action, ActionView, Line, LineView};
use super::line::aliyun_mainland::mainland_hello;
use self::line::is_walk;
use self::pc::{first_idle, with_john, with_new_chicks};
use super::LineType;

pub mod pc;
pub mod dns;
pub mod line;

verus! {

broadcast use vstd::std_specs::hash::group_hash_axioms;

/// The relay's table of connections, keyed by connection id, with the DNS
/// client of the remote gate when it runs one. Sockets, the poller and the
/// listener stay with the caller.
pub struct Gate {
    pub next_id: usize,
    pub lines: HashMap<usize, Line>,
    pub dm: Option<DnsManager>,
    /// How many `Hk` connections the local gate opens at start; 0 makes this
    /// the remote gate.
    pub chick_init_num: u8,
}

/// The keys of `m`, each once, in the order the map walks them.
pub fn map_keys<V>(m: &HashMap<usize, V>) -> (ids: Vec<usize>)
    ensures
        ids@.no_duplicates(),
        forall|k: usize| ids@.contains(k) <==> m@.contains_key(k),
{
    let mut ids: Vec<usize> = Vec::new();
    let ghost rem = vstd::std_specs::hash::spec_keys_iter(m).remaining();
    for k in it: m.keys()
        invariant
            it.seq() == rem,
            ids@ == rem.subrange(0, it.index() as int).map_values(|r: &usize| *r),
    {
        let ghost idx = it.index();
        ids.push(*k);
        proof {
            assert(rem.subrange(0, idx + 1).map_values(|r: &usize| *r)
                =~= rem.subrange(0, idx).map_values(|r: &usize| *r).push(*k));
        }
    }
    proof {
        assert(rem.subrange(0, rem.len() as int) =~= rem);
        assert(rem.unref().to_set() == m@.dom());
        assert forall|k: usize| ids@.contains(k) <==> m@.contains_key(k) by {
            if ids@.contains(k) {
                let i = choose|i: int| 0 <= i < ids@.len() && ids@[i] == k;
                assert(rem.unref()[i] == k);
                assert(rem.unref().to_set().contains(k));
            }
            if m@.contains_key(k) {
                assert(rem.unref().to_set().contains(k));
                assert(rem.unref().contains(k));
                let i = choose|i: int| 0 <= i < rem.unref().len() && rem.unref()[i] == k;
                assert(ids@[i] == k);
            }
        }
    }
    ids
}

impl Gate {
    /// The connections, each by its view.
    pub open spec fn lines_view(&self) -> Map<usize, LineView> {
        self.lines@.map_values(|l: Line| l@)
    }

    /// Every connection is filed under its own id.
    pub open spec fn wf(&self) -> bool {
        forall|k: usize| #[trigger] self.lines_view().contains_key(k) ==> self.lines_view()[k].id == k
    }

    pub fn new(chick_init_num: u8) -> (gate: Gate)
        ensures
            gate.wf(),
            gate.lines_view() == Map::<usize, LineView>::empty(),
            gate.next_id == 0,
            gate.dm is None,
            gate.chick_init_num == chick_init_num,
    {
        let gate = Gate { next_id: 0, lines: HashMap::new(), dm: None, chick_init_num };
        assert(gate.lines_view() =~= Map::<usize, LineView>::empty());
        gate
    }

    /// The ids of all connections, each once, in the map's order.
    fn line_ids(&self) -> (ids: Vec<usize>)
        ensures
            ids@.no_duplicates(),
            forall|k: usize| ids@.contains(k) <==> self.lines@.contains_key(k),
    {
        map_keys(&self.lines)
    }

    /// Start-up: a local gate opens its `Hk` connections
    /// (their ids are returned, for the caller to connect), a remote gate
    /// starts its DNS client.
    pub fn init(&mut self, now: u64) -> (ids: Vec<usize>)
        requires
            old(self).wf(),
            old(self).next_id + old(self).chick_init_num <= usize::MAX,
        ensures
            final(self).wf(),
            final(self).chick_init_num == old(self).chick_init_num,
            if old(self).chick_init_num > 0 {
                &&& final(self).lines_view() == with_new_chicks(
                    old(self).lines_view(),
                    old(self).next_id,
                    old(self).chick_init_num as nat,
                    now,
                )
                &&& final(self).next_id == old(self).next_id + old(self).chick_init_num
                &&& ids@.len() == old(self).chick_init_num
                &&& forall|i: int| 0 <= i < ids@.len() ==> #[trigger] ids@[i] == old(self).next_id + 1 + i
                &&& final(self).dm == old(self).dm
            } else {
                &&& final(self).lines_view() == old(self).lines_view()
                &&& final(self).next_id == old(self).next_id
                &&& ids@.len() == 0
                &&& final(self).dm matches Some(dm) && dm.dns_result@.len() == 0
            },
    {
        if self.chick_init_num > 0 {
            let n = self.chick_init_num;
            self.create_hk_chicks(n, now)
        } else {
            self.activate_dns_manager();
            Vec::new()
        }
    }

    /// A client connected. The local gate pairs it with an idle `Hk`
    /// connection (see [`Gate::find_chick_for_john`]); the remote gate files
    /// it under its peer port as a `MainLand` connection and greets it.
    /// Returns the id to register the socket under (`None`: drop it) and
    /// the actions for that socket.
    pub fn on_john_connect(&mut self, peer_port: usize, now: u64) -> (res: (Option<usize>, Vec<Action>))
        requires
            old(self).wf(),
            old(self).next_id < usize::MAX,
        ensures
            final(self).wf(),
            final(self).dm == old(self).dm,
            final(self).chick_init_num == old(self).chick_init_num,
            if old(self).chick_init_num > 0 {
                &&& res.1@.len() == 0
                &&& exists|ks: Seq<usize>| #[trigger] is_walk(ks, old(self).lines_view().dom()) && {
                    let chick = first_idle(old(self).lines_view(), ks, now);
                    if chick > 0 {
                        let id = (old(self).next_id + 1) as usize;
                        &&& res.0 == Some(id)
                        &&& final(self).lines_view() == with_john(old(self).lines_view(), id, chick, now)
                        &&& final(self).next_id == id
                    } else {
                        &&& res.0 is None
                        &&& final(self).lines_view() == old(self).lines_view()
                        &&& final(self).next_id == old(self).next_id
                    }
                }
            } else {
                &&& res.0 == Some(peer_port)
                &&& actions_view(res.1@) == seq![ActionView::Send(mainland_hello(peer_port))]
                &&& final(self).lines_view() == old(self).lines_view().insert(
                    peer_port,
                    new_line_view(peer_port, 0, LineType::MainLand, now),
                )
                &&& final(self).next_id == old(self).next_id
            },
    {
        if self.chick_init_num > 0 {
            let john = self.find_chick_for_john(now);
            (john, Vec::new())
        } else {
            let id = peer_port;
            self.new_line(id, 0, LineType::MainLand, now);
            let mut line = self.take_line(id);
            let acts = line.say_hello_to_mainland();
            self.put_line(line);
            proof {
                assert(self.lines_view() =~= old(self).lines_view().insert(
                    peer_port,
                    new_line_view(peer_port, 0, LineType::MainLand, now),
                ));
            }
            (Some(id), acts)
        }
    }

    /// Allocates the next connection id of the local gate: one more than the
    /// last.
    pub fn next_id(&mut self) -> (id: usize)
        requires
            old(self).next_id < usize::MAX,
        ensures
            id == old(self).next_id + 1,
            final(self).next_id == id,
            final(self).lines_view() == old(self).lines_view(),
            final(self).dm == old(self).dm,
            final(self).chick_init_num == old(self).chick_init_num,
    {
        self.next_id = self.next_id + 1;
        self.next_id
    }

    /// Files a fresh connection under `id`, replacing any connection there.
    pub fn new_line(&mut self, id: usize, pair_id: usize, line_type: LineType, now: u64)
        requires
            old(self).wf(),
        ensures
            final(self).wf(),
            final(self).lines_view() == old(self).lines_view().insert(
                id,
                new_line_view(id, pair_id, line_type, now),
            ),
            final(self).next_id == old(self).next_id,
            final(self).dm == old(self).dm,
            final(self).chick_init_num == old(self).chick_init_num,
    {
        let line = Line::new(id, pair_id, line_type, now);
        self.put_line(line);
    }

    /// Takes connection `id` out of the table.
    pub fn take_line(&mut self, id: usize) -> (line: Line)
        requires
            old(self).lines_view().contains_key(id),
        ensures
            line@ == old(self).lines_view()[id],
            final(self).lines_view() == old(self).lines_view().remove(id),
            old(self).wf() ==> final(self).wf(),
            final(self).next_id == old(self).next_id,
            final(self).dm == old(self).dm,
            final(self).chick_init_num == old(self).chick_init_num,
    {
        let line = self.lines.remove(&id).unwrap();
        assert(self.lines_view() =~= old(self).lines_view().remove(id));
        line
    }

    /// Files `line` under its id, replacing any connection there.
    pub fn put_line(&mut self, line: Line)
        ensures
            final(self).lines_view() == old(self).lines_view().insert(line.id, line@),
            old(self).wf() ==> final(self).wf(),
            final(self).next_id == old(self).next_id,
            final(self).dm == old(self).dm,
            final(self).chick_init_num == old(self).chick_init_num,
    {
        let ghost v = line@;
        self.lines.insert(line.id, line);
        assert(self.lines_view() =~= old(self).lines_view().insert(v.id, v));
    }

    /// Whether a connection is filed under `id`.
    pub fn has_line(&self, id: usize) -> (has: bool)
        ensures
            has == self.lines_view().contains_key(id),
    {
        self.lines.contains_key(&id)
    }

    /// The view of connection `id`, read in place.
    fn line_ref(&self, id: usize) -> (line: &Line)
        requires
            self.lines_view().contains_key(id),
        ensures
            line@ == self.lines_view()[id],
    {
        self.lines.get(&id).unwrap()
    }
}

/// Growing a prefix of `s` by one element adds exactly that element.
pub proof fn lemma_prefix_step(s: Seq<usize>, i: int)
    requires
        0 <= i < s.len(),
    ensures
        forall|k: usize| #[trigger] s.subrange(0, i + 1).contains(k) <==> (s.subrange(0, i).contains(k) || k == s[i]),
        s.subrange(0, i + 1).drop_last() == s.subrange(0, i),
        s.subrange(0, i + 1).last() == s[i],
{
    assert(s.subrange(0, i + 1) =~= s.subrange(0, i).push(s[i]));
    assert(s.subrange(0, i + 1).drop_last() =~= s.subrange(0, i));
    assert forall|k: usize| #[trigger] s.subrange(0, i + 1).contains(k) <==> (s.subrange(0, i).contains(k) || k == s[i]) by {
        if s.subrange(0, i).contains(k) {
            let j = choose|j: int| 0 <= j < i && #[trigger] s.subrange(0, i)[j] == k;
            assert(s.subrange(0, i + 1)[j] == k);
        }
        if k == s[i] {
            assert(s.subrange(0, i + 1)[i] == k);
        }
    }
}

} // verus!
