use vstd::prelude::*;

use super::line::is_walk;
use super::Gate;
use crate::ss::line::status::is_ready_spec;
use crate::ss::line::{new_line_view, LineView};
use crate::ss::LineType;

verus! {

broadcast use vstd::std_specs::hash::group_hash_axioms;

/// A local `Hk` connection ready to take a client.
pub open spec fn idle_chick(l: LineView, now: u64) -> bool {
    l.line_type is Hk && is_ready_spec(l, now)
}

/// The first key in walk order whose connection is an idle `Hk`
/// connection, 0 when there is none.
pub open spec fn first_idle(m: Map<usize, LineView>, ks: Seq<usize>, now: u64) -> usize
    decreases ks.len(),
{
    if ks.len() == 0 {
        0
    } else if idle_chick(m[ks[0]], now) {
        ks[0]
    } else {
        first_idle(m, ks.drop_first(), now)
    }
}

/// The table after `n` new `Hk` connections are filed under the ids that
/// follow `next_id`.
pub open spec fn with_new_chicks(m: Map<usize, LineView>, next_id: usize, n: nat, now: u64) -> Map<usize, LineView> {
    Map::new(
        |k: usize| m.contains_key(k) || (next_id < k <= next_id + n),
        |k: usize|
            if next_id < k <= next_id + n {
                new_line_view(k, 0, LineType::Hk, now)
            } else {
                m[k]
            },
    )
}

/// The table after a client connection `id` is paired with the idle
/// connection `chick`.
pub open spec fn with_john(m: Map<usize, LineView>, id: usize, chick: usize, now: u64) -> Map<usize, LineView> {
    let m2 = m.insert(id, new_line_view(id, chick, LineType::Pc, now));
    m2.insert(chick, LineView { pair_id: id, ..m2[chick] })
}

/// The idle connection found is idle and comes from the walk; when none is
/// found, no connection in the walk is idle, unless one filed under 0 is.
pub proof fn lemma_first_idle(m: Map<usize, LineView>, ks: Seq<usize>, now: u64)
    requires
        forall|i: int| 0 <= i < ks.len() ==> m.contains_key(#[trigger] ks[i]),
    ensures
        first_idle(m, ks, now) != 0 ==> ks.contains(first_idle(m, ks, now)) && idle_chick(m[first_idle(m, ks, now)], now),
        first_idle(m, ks, now) == 0 ==> forall|i: int| 0 <= i < ks.len() ==> !idle_chick(m[#[trigger] ks[i]], now)
            || (ks.contains(0) && idle_chick(m[0], now)),
    decreases ks.len(),
{
    if ks.len() > 0 {
        lemma_first_idle(m, ks.drop_first(), now);
        if !idle_chick(m[ks[0]], now) {
            assert forall|i: int| 0 <= i < ks.len() && first_idle(m, ks, now) == 0 implies !idle_chick(m[#[trigger] ks[i]], now)
                || (ks.contains(0) && idle_chick(m[0], now)) by {
                if i > 0 {
                    assert(ks[i] == ks.drop_first()[i - 1]);
                    if ks.drop_first().contains(0) {
                        let j = choose|j: int| 0 <= j < ks.drop_first().len() && ks.drop_first()[j] == 0;
                        assert(ks[j + 1] == 0);
                    }
                }
            }
            if first_idle(m, ks, now) != 0 {
                let j = choose|j: int| 0 <= j < ks.drop_first().len() && ks.drop_first()[j] == first_idle(m, ks, now);
                assert(ks[j + 1] == first_idle(m, ks, now));
            }
        } else {
            assert(ks[0] == first_idle(m, ks, now));
        }
    }
}

impl Gate {
    /// Files `n` local `Hk` connections under fresh ids and returns those
    /// ids, for the caller to connect to the remote gate.
    pub fn create_hk_chicks(&mut self, n: u8, now: u64) -> (ids: Vec<usize>)
        requires
            old(self).wf(),
            old(self).next_id + n <= usize::MAX,
        ensures
            final(self).wf(),
            final(self).lines_view() == with_new_chicks(old(self).lines_view(), old(self).next_id, n as nat, now),
            final(self).next_id == old(self).next_id + n,
            ids@.len() == n,
            forall|i: int| 0 <= i < n ==> #[trigger] ids@[i] == old(self).next_id + 1 + i,
            final(self).dm == old(self).dm,
            final(self).chick_init_num == old(self).chick_init_num,
    {
        let ghost m = self.lines_view();
        let ghost start = self.next_id;
        let mut ids: Vec<usize> = Vec::new();
        let mut i: u8 = 0;
        while i < n
            invariant
                self.wf(),
                i <= n,
                start + n <= usize::MAX,
                self.next_id == start + i,
                self.lines_view() == with_new_chicks(m, start, i as nat, now),
                ids@.len() == i,
                forall|j: int| 0 <= j < i ==> #[trigger] ids@[j] == start + 1 + j,
                self.dm == old(self).dm,
                self.chick_init_num == old(self).chick_init_num,
            decreases n - i,
        {
            let id = self.next_id();
            self.new_line(id, 0, LineType::Hk, now);
            ids.push(id);
            proof {
                assert(self.lines_view() =~= with_new_chicks(m, start, (i + 1) as nat, now));
            }
            i = i + 1;
        }
        ids
    }

    /// A client connection arrived at the local gate: when an idle `Hk`
    /// connection exists, a `Pc` connection is filed under a fresh id and the
    /// two are paired, and the fresh id is returned; otherwise the client is
    /// turned away (`None`).
    pub fn find_chick_for_john(&mut self, now: u64) -> (john: Option<usize>)
        requires
            old(self).wf(),
            old(self).next_id < usize::MAX,
        ensures
            final(self).wf(),
            exists|ks: Seq<usize>| #[trigger] is_walk(ks, old(self).lines_view().dom()) && {
                let chick = first_idle(old(self).lines_view(), ks, now);
                if chick > 0 {
                    let id = (old(self).next_id + 1) as usize;
                    &&& john == Some(id)
                    &&& final(self).lines_view() == with_john(old(self).lines_view(), id, chick, now)
                    &&& final(self).next_id == id
                } else {
                    &&& john is None
                    &&& final(self).lines_view() == old(self).lines_view()
                    &&& final(self).next_id == old(self).next_id
                }
            },
            final(self).dm == old(self).dm,
            final(self).chick_init_num == old(self).chick_init_num,
    {
        let ghost m = self.lines_view();
        let keys = self.line_ids();
        let chick_id = self.find_idle_in(&keys, now);
        proof {
            assert(is_walk(keys@, m.dom()));
            assert forall|i: int| 0 <= i < keys@.len() implies m.contains_key(#[trigger] keys@[i]) by {
                assert(keys@.contains(keys@[i]));
            }
            lemma_first_idle(m, keys@, now);
        }
        if chick_id > 0 {
            let id = self.next_id();
            self.new_line(id, chick_id, LineType::Pc, now);
            let mut chick = self.take_line(chick_id);
            chick.set_pair_id(id);
            self.put_line(chick);
            proof {
                assert(self.lines_view() =~= with_john(m, id, chick_id, now));
            }
            Some(id)
        } else {
            None
        }
    }

    /// The id of an idle `Hk` connection, 0 when there is none.
    pub fn find_idle_hk_chick(&self, now: u64) -> (id: usize)
        ensures
            exists|ks: Seq<usize>| #[trigger] is_walk(ks, self.lines_view().dom()) && id == first_idle(self.lines_view(), ks, now),
            id != 0 ==> self.lines_view().contains_key(id) && idle_chick(self.lines_view()[id], now),
            id == 0 ==> forall|k: usize| #[trigger] self.lines_view().contains_key(k) ==> !idle_chick(self.lines_view()[k], now)
                || (self.lines_view().contains_key(0) && idle_chick(self.lines_view()[0], now)),
    {
        let keys = self.line_ids();
        let id = self.find_idle_in(&keys, now);
        proof {
            assert(is_walk(keys@, self.lines_view().dom()));
            assert forall|i: int| 0 <= i < keys@.len() implies self.lines_view().contains_key(#[trigger] keys@[i]) by {
                assert(keys@.contains(keys@[i]));
            }
            lemma_first_idle(self.lines_view(), keys@, now);
            assert forall|k: usize| #[trigger] self.lines_view().contains_key(k) && id == 0 implies !idle_chick(self.lines_view()[k], now)
                || (self.lines_view().contains_key(0) && idle_chick(self.lines_view()[0], now)) by {
                assert(keys@.contains(k));
                let i = choose|i: int| 0 <= i < keys@.len() && keys@[i] == k;
                assert(!idle_chick(self.lines_view()[keys@[i]], now) || (keys@.contains(0) && idle_chick(self.lines_view()[0], now)));
            }
        }
        id
    }

    /// The first key of `keys` whose connection is an idle `Hk` connection.
    fn find_idle_in(&self, keys: &Vec<usize>, now: u64) -> (id: usize)
        requires
            forall|k: usize| keys@.contains(k) ==> self.lines_view().contains_key(k),
        ensures
            id == first_idle(self.lines_view(), keys@, now),
    {
        let ghost m = self.lines_view();
        let mut i: usize = 0;
        proof {
            assert(keys@.subrange(0, keys@.len() as int) =~= keys@);
        }
        while i < keys.len()
            invariant
                0 <= i <= keys@.len(),
                m == self.lines_view(),
                forall|k: usize| keys@.contains(k) ==> m.contains_key(k),
                first_idle(m, keys@, now) == first_idle(m, keys@.subrange(i as int, keys@.len() as int), now),
            decreases keys@.len() - i,
        {
            let k = keys[i];
            proof {
                assert(keys@.subrange(i as int, keys@.len() as int).drop_first() =~= keys@.subrange(i + 1, keys@.len() as int));
                assert(keys@.contains(k));
            }
            let line = self.line_ref(k);
            if line.is_hk_chick() && line.is_ready(now) {
                return k;
            }
            i = i + 1;
        }
        0
    }
}

/// Pairing a client with an idle connection is mutual: each names the
/// other, and the client connection is a fresh `Pc` connection.
pub proof fn lemma_john_pairing_is_mutual(m: Map<usize, LineView>, id: usize, chick: usize, now: u64)
    requires
        id != chick,
    ensures
        with_john(m, id, chick, now)[id] == new_line_view(id, chick, LineType::Pc, now),
        with_john(m, id, chick, now)[chick].pair_id == id,
        with_john(m, id, chick, now)[id].pair_id == chick,
{
}

/// Opening `n` connections adds exactly the ids after `next_id`, each a
/// fresh unpaired `Hk` connection in `Raw` with empty buffers, and leaves
/// every other connection unchanged.
pub proof fn lemma_new_chicks(m: Map<usize, LineView>, next_id: usize, n: nat, now: u64)
    ensures
        forall|k: usize| #[trigger] with_new_chicks(m, next_id, n, now).contains_key(k) <==> (m.contains_key(k) || (next_id < k <= next_id + n)),
        forall|k: usize| next_id < k <= next_id + n ==> {
            let l = #[trigger] with_new_chicks(m, next_id, n, now)[k];
            &&& l.id == k && l.line_type is Hk && l.pair_id == 0 && l.status is Raw
            &&& l.net_data.len() == 0 && l.mem_data.len() == 0 && l.garbage.len() == 0
        },
        forall|k: usize| #[trigger] m.contains_key(k) && !(next_id < k <= next_id + n) ==> with_new_chicks(m, next_id, n, now)[k] == m[k],
{
}

} // verus!
