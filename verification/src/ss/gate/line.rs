use vstd::prelude::*;

use std::collections::HashMap;
use super::{lemma_prefix_step, map_keys, Gate};
use crate::ss::line::data::on_data_from_mem_spec;
use crate::ss::line::copy_bytes;
use crate::ss::line::status::{is_old_spec, is_ready_spec, is_working_spec};
use crate::ss::line::new_line_view;
use crate::ss::LineType;
use crate::ss::line::pair::pair_close_actions;
use crate::ss::line::{actions_view, Action, ActionView, LineView};

verus! {

broadcast use vstd::std_specs::hash::group_hash_axioms;

/// `ks` lists every key of `dom` exactly once: an order in which a hash map
/// may walk its keys.
pub open spec fn is_walk(ks: Seq<usize>, dom: Set<usize>) -> bool {
    &&& ks.no_duplicates()
    &&& forall|k: usize| ks.contains(k) <==> dom.contains(k)
}

pub open spec fn tagged_view(acts: Seq<(usize, Action)>) -> Seq<(usize, ActionView)> {
    acts.map_values(|a: (usize, Action)| (a.0, a.1@))
}

/// A closed connection that still has a pair.
pub open spec fn closed_paired(l: LineView) -> bool {
    l.status is Close && l.pair_id > 0
}

/// A closed connection forgets its pair.
pub open spec fn decouple_line(l: LineView) -> LineView {
    if closed_paired(l) {
        LineView { pair_id: 0, ..l }
    } else {
        l
    }
}

/// The table once every closed connection forgot its pair.
pub open spec fn decoupled(m: Map<usize, LineView>) -> Map<usize, LineView> {
    m.map_values(|l: LineView| decouple_line(l))
}

/// The connections that stay on clearing.
pub open spec fn kept_lines(m: Map<usize, LineView>, now: u64) -> Map<usize, LineView> {
    Map::new(|k: usize| m.contains_key(k) && !retire(m[k], now), |k: usize| m[k])
}

/// The (connection, pair) of each closed paired connection, in walk order.
pub open spec fn close_pairs(m: Map<usize, LineView>, ks: Seq<usize>) -> Seq<(usize, usize)>
    decreases ks.len(),
{
    if ks.len() == 0 {
        Seq::empty()
    } else {
        let rest = close_pairs(m, ks.drop_last());
        let k = ks.last();
        if closed_paired(m[k]) {
            rest.push((k, m[k].pair_id))
        } else {
            rest
        }
    }
}

/// What each pair that still exists does on hearing its pair closed, tagged
/// with the pair's id.
pub open spec fn pair_close_acts(m: Map<usize, LineView>, cs: Seq<(usize, usize)>) -> Seq<(usize, ActionView)>
    decreases cs.len(),
{
    if cs.len() == 0 {
        Seq::empty()
    } else {
        let rest = pair_close_acts(m, cs.drop_last());
        let p = cs.last().1;
        if m.contains_key(p) {
            rest + pair_close_actions(m[p].line_type).map_values(|a: ActionView| (p, a))
        } else {
            rest
        }
    }
}

/// Appends each of `more`, tagged with connection `id`.
pub fn append_tagged(acts: &mut Vec<(usize, Action)>, id: usize, more: &Vec<Action>)
    ensures
        tagged_view(final(acts)@) == tagged_view(old(acts)@) + actions_view(more@).map_values(
            |a: ActionView| (id, a),
        ),
{
    let mut k: usize = 0;
    while k < more.len()
        invariant
            0 <= k <= more@.len(),
            tagged_view(acts@) == tagged_view(old(acts)@) + actions_view(more@).subrange(0, k as int).map_values(
                |a: ActionView| (id, a),
            ),
        decreases more@.len() - k,
    {
        proof {
            assert(actions_view(more@).subrange(0, k + 1).map_values(|a: ActionView| (id, a))
                =~= actions_view(more@).subrange(0, k as int).map_values(|a: ActionView| (id, a)).push(
                (id, more@[k as int]@),
            ));
        }
        let ghost pre = acts@;
        acts.push((id, more[k].clone_action()));
        proof {
            assert(tagged_view(acts@) =~= tagged_view(pre).push((id, more@[k as int]@)));
        }
        k = k + 1;
    }
    proof {
        assert(actions_view(more@).subrange(0, more@.len() as int) =~= actions_view(more@));
    }
}

/// A connection to drop: dead, or a local `Hk` connection without a client
/// that is too old.
pub open spec fn retire(l: LineView, now: u64) -> bool {
    l.status is Dead || (l.line_type is Hk && !is_working_spec(l) && is_old_spec(l, now))
}

/// The keys of `s` whose connection is a working local `Hk` connection.
pub open spec fn working_keys(m: Map<usize, LineView>, s: Set<usize>) -> Set<usize> {
    s.filter(|k: usize| m[k].line_type is Hk && is_working_spec(m[k]))
}

/// The keys of `s` whose connection is a ready local `Hk` connection.
pub open spec fn ready_keys(m: Map<usize, LineView>, s: Set<usize>, now: u64) -> Set<usize> {
    s.filter(|k: usize| m[k].line_type is Hk && is_ready_spec(m[k], now))
}

/// Some local `Hk` connections carry clients, and fewer than half the
/// initial number wait ready.
pub open spec fn needs_chick(m: Map<usize, LineView>, now: u64, chick_init_num: u8) -> bool {
    &&& working_keys(m, m.dom()).len() > 0
    &&& ready_keys(m, m.dom(), now).len() < chick_init_num / 2
}

proof fn lemma_prefix_set_step(s: Seq<usize>, i: int)
    requires
        0 <= i < s.len(),
        s.no_duplicates(),
    ensures
        s.subrange(0, i + 1).to_set() == s.subrange(0, i).to_set().insert(s[i]),
        !s.subrange(0, i).to_set().contains(s[i]),
        s.subrange(0, i).to_set().finite(),
{
    assert(s.subrange(0, i + 1) =~= s.subrange(0, i).push(s[i]));
    s.subrange(0, i).lemma_push_to_set_commute(s[i]);
    vstd::seq_lib::seq_to_set_is_finite(s.subrange(0, i));
    if s.subrange(0, i).to_set().contains(s[i]) {
        let j = choose|j: int| 0 <= j < i && #[trigger] s.subrange(0, i)[j] == s[i];
        assert(s[j] == s[i]);
    }
}

proof fn lemma_count_step(m: Map<usize, LineView>, s: Set<usize>, x: usize, now: u64)
    requires
        s.finite(),
        !s.contains(x),
    ensures
        working_keys(m, s.insert(x)).len() == working_keys(m, s).len() + if m[x].line_type is Hk && is_working_spec(m[x]) { 1int } else { 0 },
        ready_keys(m, s.insert(x), now).len() == ready_keys(m, s, now).len() + if m[x].line_type is Hk && is_ready_spec(m[x], now) { 1int } else { 0 },
{
    s.lemma_len_filter(|k: usize| m[k].line_type is Hk && is_working_spec(m[k]));
    s.lemma_len_filter(|k: usize| m[k].line_type is Hk && is_ready_spec(m[k], now));
    if m[x].line_type is Hk && is_working_spec(m[x]) {
        assert(working_keys(m, s.insert(x)) =~= working_keys(m, s).insert(x));
    } else {
        assert(working_keys(m, s.insert(x)) =~= working_keys(m, s));
    }
    if m[x].line_type is Hk && is_ready_spec(m[x], now) {
        assert(ready_keys(m, s.insert(x), now) =~= ready_keys(m, s, now).insert(x));
    } else {
        assert(ready_keys(m, s.insert(x), now) =~= ready_keys(m, s, now));
    }
}

proof fn lemma_key_sets_subset(m: Map<usize, LineView>, s: Set<usize>, now: u64)
    requires
        s.subset_of(m.dom()),
        m.dom().finite(),
    ensures
        ready_keys(m, s, now).len() <= ready_keys(m, m.dom(), now).len(),
{
    vstd::set_lib::lemma_len_subset(ready_keys(m, s, now), ready_keys(m, m.dom(), now));
}

/// A connection with a pair and bytes for it.
pub open spec fn hands_over(l: LineView) -> bool {
    l.pair_id > 0 && l.garbage.len() > 0
}

/// A connection that hands its bytes over keeps none.
pub open spec fn emptied(l: LineView) -> LineView {
    if hands_over(l) {
        LineView { garbage: Seq::empty(), ..l }
    } else {
        l
    }
}

/// The bytes each pair receives, gathered in walk order: when two
/// connections name the same pair, the later one's bytes replace the
/// earlier one's.
pub open spec fn collect_garbage(m: Map<usize, LineView>, ks: Seq<usize>) -> Map<usize, Seq<u8>>
    decreases ks.len(),
{
    if ks.len() == 0 {
        Map::empty()
    } else {
        let r = collect_garbage(m, ks.drop_last());
        let k = ks.last();
        if hands_over(m[k]) {
            r.insert(m[k].pair_id, m[k].garbage)
        } else {
            r
        }
    }
}

/// Each connection that is sent bytes takes them as from its pair.
pub open spec fn delivered(m1: Map<usize, LineView>, r: Map<usize, Seq<u8>>) -> Map<usize, LineView> {
    Map::new(
        |k: usize| m1.contains_key(k),
        |k: usize|
            if r.contains_key(k) {
                on_data_from_mem_spec(m1[k], r[k]).0
            } else {
                m1[k]
            },
    )
}

/// The flushes of the receiving connections, in the walk order `ks` of the
/// gathered bytes, tagged with the receiver.
pub open spec fn deliver_acts(m1: Map<usize, LineView>, r: Map<usize, Seq<u8>>, ks: Seq<usize>) -> Seq<(usize, ActionView)>
    decreases ks.len(),
{
    if ks.len() == 0 {
        Seq::empty()
    } else {
        let rest = deliver_acts(m1, r, ks.drop_last());
        let p = ks.last();
        if m1.contains_key(p) {
            rest + on_data_from_mem_spec(m1[p], r[p]).1.map_values(|a: ActionView| (p, a))
        } else {
            rest
        }
    }
}

impl Gate {
    /// Closed connections let go of their pairs, and each pair still in the
    /// table is told (see [`pair_close_actions`]).
    pub fn decouple(&mut self) -> (acts: Vec<(usize, Action)>)
        requires
            old(self).wf(),
        ensures
            final(self).wf(),
            final(self).lines_view() == decoupled(old(self).lines_view()),
            exists|ks: Seq<usize>|
                is_walk(ks, old(self).lines_view().dom()) && tagged_view(acts@) == pair_close_acts(
                    old(self).lines_view(),
                    close_pairs(old(self).lines_view(), ks),
                ),
            final(self).next_id == old(self).next_id,
            final(self).dm == old(self).dm,
            final(self).chick_init_num == old(self).chick_init_num,
    {
        let ghost m0 = self.lines_view();
        let ids = self.line_ids();
        let mut close: Vec<(usize, usize)> = Vec::new();
        let mut i: usize = 0;
        while i < ids.len()
            invariant
                self.wf(),
                ids@.no_duplicates(),
                forall|k: usize| ids@.contains(k) <==> m0.contains_key(k),
                0 <= i <= ids@.len(),
                self.lines_view().dom() == m0.dom(),
                forall|k: usize| #[trigger] self.lines_view().contains_key(k) ==>
                    self.lines_view()[k] == if ids@.subrange(0, i as int).contains(k) {
                        decouple_line(m0[k])
                    } else {
                        m0[k]
                    },
                close@ == close_pairs(m0, ids@.subrange(0, i as int)),
                self.next_id == old(self).next_id,
                self.dm == old(self).dm,
                self.chick_init_num == old(self).chick_init_num,
            decreases ids@.len() - i,
        {
            let id = ids[i];
            proof {
                assert(ids@.contains(id));
                assert(!ids@.subrange(0, i as int).contains(id));
                assert(ids@.subrange(0, i + 1).drop_last() =~= ids@.subrange(0, i as int));
                lemma_prefix_step(ids@, i as int);
            }
            let (closed, pid) = {
                let line = self.line_ref(id);
                (line.is_close() && line.pair_id > 0, line.pair_id)
            };
            if closed {
                close.push((id, pid));
                let mut line = self.take_line(id);
                line.set_pair_id(0);
                self.put_line(line);
            }
            proof {
                assert(self.lines_view().dom() =~= m0.dom());
            }
            i = i + 1;
        }
        proof {
            assert(ids@.subrange(0, ids@.len() as int) =~= ids@);
            assert(self.lines_view() =~= m0.map_values(|l: LineView| decouple_line(l)));
        }
        let ghost m1 = self.lines_view();
        let mut acts: Vec<(usize, Action)> = Vec::new();
        let mut j: usize = 0;
        while j < close.len()
            invariant
                self.wf(),
                self.lines_view() == m1,
                m1 == m0.map_values(|l: LineView| decouple_line(l)),
                0 <= j <= close@.len(),
                tagged_view(acts@) == pair_close_acts(m0, close@.subrange(0, j as int)),
                self.next_id == old(self).next_id,
                self.dm == old(self).dm,
                self.chick_init_num == old(self).chick_init_num,
            decreases close@.len() - j,
        {
            let (id, pid) = close[j];
            proof {
                assert(close@.subrange(0, j + 1).drop_last() =~= close@.subrange(0, j as int));
            }
            if self.has_line(pid) {
                let mut line = self.take_line(pid);
                let more = line.on_pair_close(id);
                self.put_line(line);
                proof {
                    assert(self.lines_view() =~= m1);
                }
                append_tagged(&mut acts, pid, &more);
            } else {
                proof {
                    assert(tagged_view(acts@) =~= pair_close_acts(m0, close@.subrange(0, j + 1)));
                }
            }
            j = j + 1;
        }
        proof {
            assert(close@.subrange(0, close@.len() as int) =~= close@);
            assert(is_walk(ids@, m0.dom()));
        }
        acts
    }

    /// Dead connections, and local `Hk` connections that found no client
    /// and are too old, leave the table; the remaining `Hk` connections are
    /// counted, and while some are working but fewer than half the initial
    /// number are ready, one more is filed. Returns the ids of new
    /// connections to open.
    pub fn clear_dead_line(&mut self, now: u64) -> (ids: Vec<usize>)
        requires
            old(self).wf(),
            ready_keys(old(self).lines_view(), old(self).lines_view().dom(), now).len() <= u8::MAX,
            needs_chick(old(self).lines_view(), now, old(self).chick_init_num) ==> old(self).next_id < usize::MAX,
        ensures
            final(self).wf(),
            ({
                let m = old(self).lines_view();
                let kept = kept_lines(m, now);
                if needs_chick(m, now, old(self).chick_init_num) {
                    let id = (old(self).next_id + 1) as usize;
                    &&& final(self).lines_view() == kept.insert(id, new_line_view(id, 0, LineType::Hk, now))
                    &&& ids@ == seq![id]
                    &&& final(self).next_id == id
                } else {
                    &&& final(self).lines_view() == kept
                    &&& ids@.len() == 0
                    &&& final(self).next_id == old(self).next_id
                }
            }),
            final(self).dm == old(self).dm,
            final(self).chick_init_num == old(self).chick_init_num,
    {
        let ghost m = self.lines_view();
        let keys = self.line_ids();
        let mut working: usize = 0;
        let mut ready: usize = 0;
        let mut dead: Vec<usize> = Vec::new();
        let mut i: usize = 0;
        proof {
            assert(keys@.to_set() =~= m.dom());
            vstd::seq_lib::seq_to_set_is_finite(keys@);
            assert(keys@.subrange(0, 0).to_set() =~= Set::<usize>::empty());
            assert(working_keys(m, Set::<usize>::empty()) =~= Set::<usize>::empty());
            assert(ready_keys(m, Set::<usize>::empty(), now) =~= Set::<usize>::empty());
        }
        while i < keys.len()
            invariant
                self.wf(),
                self.lines_view() == m,
                keys@.no_duplicates(),
                forall|k: usize| keys@.contains(k) <==> m.contains_key(k),
                0 <= i <= keys@.len(),
                working <= i,
                ready <= i,
                working == working_keys(m, keys@.subrange(0, i as int).to_set()).len(),
                ready == ready_keys(m, keys@.subrange(0, i as int).to_set(), now).len(),
                ready_keys(m, m.dom(), now).len() <= u8::MAX,
                m.dom().finite(),
                forall|k: usize| dead@.contains(k) <==> (keys@.subrange(0, i as int).contains(k) && retire(m[k], now)),
                self.next_id == old(self).next_id,
                self.dm == old(self).dm,
                self.chick_init_num == old(self).chick_init_num,
            decreases keys@.len() - i,
        {
            let id = keys[i];
            proof {
                lemma_prefix_step(keys@, i as int);
                lemma_prefix_set_step(keys@, i as int);
                lemma_count_step(m, keys@.subrange(0, i as int).to_set(), id, now);
                lemma_key_sets_subset(m, keys@.subrange(0, i + 1).to_set(), now);
            }
            let ghost d0 = dead@;
            let line = self.line_ref(id);
            if line.is_dead() {
                dead.push(id);
            }
            if line.is_hk_chick() {
                if line.is_ready(now) {
                    ready = ready + 1;
                }
                if line.is_working() {
                    working = working + 1;
                } else if line.is_old(now) {
                    dead.push(id);
                }
            }
            proof {
                assert forall|k: usize| dead@.contains(k) <==> (d0.contains(k) || (k == id && retire(m[id], now))) by {
                    if dead@.contains(k) && !d0.contains(k) {
                        let j = choose|j: int| 0 <= j < dead@.len() && dead@[j] == k;
                        assert(j >= d0.len());
                    }
                    if d0.contains(k) {
                        let j = choose|j: int| 0 <= j < d0.len() && d0[j] == k;
                        assert(dead@[j] == k);
                    }
                    if k == id && retire(m[id], now) {
                        assert(dead@[d0.len() as int] == k);
                    }
                }
                assert(!keys@.subrange(0, i as int).contains(id)) by {
                    if keys@.subrange(0, i as int).contains(id) {
                        assert(keys@.subrange(0, i as int).to_set().contains(id));
                    }
                }
                assert forall|k: usize| dead@.contains(k) <==> (keys@.subrange(0, i + 1).contains(k) && retire(m[k], now)) by {
                    assert(keys@.subrange(0, i + 1).contains(k) <==> (keys@.subrange(0, i as int).contains(k) || k == id));
                    assert(d0.contains(k) <==> (keys@.subrange(0, i as int).contains(k) && retire(m[k], now)));
                    assert(dead@.contains(k) <==> (d0.contains(k) || (k == id && retire(m[id], now))));
                }
            }
            i = i + 1;
        }
        proof {
            assert(keys@.subrange(0, keys@.len() as int) =~= keys@);
            assert(keys@.to_set() =~= m.dom());
        }
        let mut j: usize = 0;
        while j < dead.len()
            invariant
                self.wf(),
                0 <= j <= dead@.len(),
                forall|k: usize| #[trigger] self.lines_view().contains_key(k) <==> (m.contains_key(k) && !dead@.subrange(0, j as int).contains(k)),
                forall|k: usize| #[trigger] self.lines_view().contains_key(k) ==> self.lines_view()[k] == m[k],
                self.next_id == old(self).next_id,
                self.dm == old(self).dm,
                self.chick_init_num == old(self).chick_init_num,
            decreases dead@.len() - j,
        {
            let id = dead[j];
            proof {
                lemma_prefix_step(dead@, j as int);
            }
            if self.has_line(id) {
                let _gone = self.take_line(id);
            }
            j = j + 1;
        }
        proof {
            assert(dead@.subrange(0, dead@.len() as int) =~= dead@);
            assert(self.lines_view() =~= kept_lines(m, now));
        }
        let mut ids: Vec<usize> = Vec::new();
        let half: u8 = self.chick_init_num / 2;
        if working > 0 && ready < half as usize {
            let id = self.next_id();
            self.new_line(id, 0, LineType::Hk, now);
            ids.push(id);
        }
        ids
    }

    /// Every connection with a pair hands its queued bytes to that pair,
    /// which flushes them (see [`collect_garbage`] and [`delivered`]).
    pub fn deliver(&mut self) -> (acts: Vec<(usize, Action)>)
        requires
            old(self).wf(),
        ensures
            final(self).wf(),
            exists|ks: Seq<usize>, ks2: Seq<usize>|
                #![trigger is_walk(ks, old(self).lines_view().dom()), is_walk(ks2, collect_garbage(old(self).lines_view(), ks).dom())]
                {
                let m = old(self).lines_view();
                let m1 = m.map_values(|l: LineView| emptied(l));
                let r = collect_garbage(m, ks);
                &&& is_walk(ks, m.dom())
                &&& is_walk(ks2, r.dom())
                &&& final(self).lines_view() == delivered(m1, r)
                &&& tagged_view(acts@) == deliver_acts(m1, r, ks2)
            },
            final(self).next_id == old(self).next_id,
            final(self).dm == old(self).dm,
            final(self).chick_init_num == old(self).chick_init_num,
    {
        let ghost m = self.lines_view();
        let keys = self.line_ids();
        let mut ret: HashMap<usize, Vec<u8>> = HashMap::new();
        let mut i: usize = 0;
        while i < keys.len()
            invariant
                self.wf(),
                keys@.no_duplicates(),
                forall|k: usize| keys@.contains(k) <==> m.contains_key(k),
                0 <= i <= keys@.len(),
                self.lines_view().dom() == m.dom(),
                forall|k: usize| #[trigger] self.lines_view().contains_key(k) ==>
                    self.lines_view()[k] == if keys@.subrange(0, i as int).contains(k) {
                        emptied(m[k])
                    } else {
                        m[k]
                    },
                ret@.map_values(|v: Vec<u8>| v@) == collect_garbage(m, keys@.subrange(0, i as int)),
                self.next_id == old(self).next_id,
                self.dm == old(self).dm,
                self.chick_init_num == old(self).chick_init_num,
            decreases keys@.len() - i,
        {
            let id = keys[i];
            proof {
                lemma_prefix_step(keys@, i as int);
                assert(!keys@.subrange(0, i as int).contains(id)) by {
                    if keys@.subrange(0, i as int).contains(id) {
                        let j = choose|j: int| 0 <= j < i && #[trigger] keys@.subrange(0, i as int)[j] == id;
                        assert(keys@[j] == id);
                    }
                }
            }
            proof {
                assert(self.lines_view().contains_key(id));
                assert(self.lines_view()[id] == m[id]);
                assert(m[id].id == id);
                assert(collect_garbage(m, keys@.subrange(0, i + 1)) == if hands_over(m[id]) {
                    collect_garbage(m, keys@.subrange(0, i as int)).insert(m[id].pair_id, m[id].garbage)
                } else {
                    collect_garbage(m, keys@.subrange(0, i as int))
                });
            }
            let (pid, len) = {
                let line = self.line_ref(id);
                (line.pair_id, line.garbage.len())
            };
            if pid > 0 && len > 0 {
                let mut line = self.take_line(id);
                let g = line.move_out_garbage();
                self.put_line(line);
                let ghost gv = g@;
                ret.insert(pid, g);
                proof {
                    assert(ret@.map_values(|v: Vec<u8>| v@) =~= collect_garbage(m, keys@.subrange(0, i as int)).insert(pid, gv));
                }
            }
            proof {
                assert(self.lines_view().dom() =~= m.dom());
            }
            i = i + 1;
        }
        proof {
            assert(keys@.subrange(0, keys@.len() as int) =~= keys@);
            assert(self.lines_view() =~= m.map_values(|l: LineView| emptied(l)));
        }
        let ghost m1 = self.lines_view();
        let ghost r = ret@.map_values(|v: Vec<u8>| v@);
        let targets = map_keys(&ret);
        let mut acts: Vec<(usize, Action)> = Vec::new();
        let mut j: usize = 0;
        while j < targets.len()
            invariant
                self.wf(),
                targets@.no_duplicates(),
                forall|k: usize| targets@.contains(k) <==> ret@.contains_key(k),
                r == ret@.map_values(|v: Vec<u8>| v@),
                0 <= j <= targets@.len(),
                self.lines_view().dom() == m1.dom(),
                forall|k: usize| #[trigger] self.lines_view().contains_key(k) ==>
                    self.lines_view()[k] == if targets@.subrange(0, j as int).contains(k) {
                        on_data_from_mem_spec(m1[k], r[k]).0
                    } else {
                        m1[k]
                    },
                tagged_view(acts@) == deliver_acts(m1, r, targets@.subrange(0, j as int)),
                self.next_id == old(self).next_id,
                self.dm == old(self).dm,
                self.chick_init_num == old(self).chick_init_num,
            decreases targets@.len() - j,
        {
            let p = targets[j];
            proof {
                lemma_prefix_step(targets@, j as int);
                assert(!targets@.subrange(0, j as int).contains(p)) by {
                    if targets@.subrange(0, j as int).contains(p) {
                        let q = choose|q: int| 0 <= q < j && #[trigger] targets@.subrange(0, j as int)[q] == p;
                        assert(targets@[q] == p);
                    }
                }
                assert(targets@.contains(p));
            }
            if self.has_line(p) {
                let data = copy_bytes(ret.get(&p).unwrap());
                let mut line = self.take_line(p);
                let more = line.on_data_from_mem(data);
                self.put_line(line);
                append_tagged(&mut acts, p, &more);
            }
            proof {
                assert(self.lines_view().dom() =~= m1.dom());
            }
            j = j + 1;
        }
        proof {
            assert(targets@.subrange(0, targets@.len() as int) =~= targets@);
            assert(self.lines_view() =~= delivered(m1, r));
            assert(is_walk(keys@, m.dom()));
            assert(is_walk(targets@, r.dom()));
        }
        acts
    }
}

/// After decoupling, no closed connection names a pair, and the others are
/// untouched.
pub proof fn lemma_decouple_frees_closed(m: Map<usize, LineView>)
    ensures
        decoupled(m).dom() == m.dom(),
        forall|k: usize| #[trigger] decoupled(m).contains_key(k) ==> !closed_paired(decoupled(m)[k]),
        forall|k: usize| #[trigger] decoupled(m).contains_key(k) && !closed_paired(m[k]) ==> decoupled(m)[k] == m[k],
{
}

/// After clearing, no dead connection is left in the table, including the
/// `Hk` connection that may be added.
pub proof fn lemma_no_dead_after_clear(m: Map<usize, LineView>, now: u64, id: usize)
    ensures
        forall|k: usize| #[trigger] kept_lines(m, now).contains_key(k) ==> !(kept_lines(m, now)[k].status is Dead),
        forall|k: usize| #[trigger] kept_lines(m, now).insert(id, new_line_view(id, 0, LineType::Hk, now)).contains_key(k)
            ==> !(kept_lines(m, now).insert(id, new_line_view(id, 0, LineType::Hk, now))[k].status is Dead),
{
}

/// When no two connections with bytes to hand over name the same pair,
/// delivery is exact whatever the walk order: each such connection's pair
/// receives exactly that connection's bytes.
pub proof fn lemma_deliver_exact(m: Map<usize, LineView>, ks: Seq<usize>, k: usize)
    requires
        ks.no_duplicates(),
        ks.contains(k),
        hands_over(m[k]),
        forall|j: usize| #[trigger] ks.contains(j) && j != k && hands_over(m[j]) ==> m[j].pair_id != m[k].pair_id,
    ensures
        collect_garbage(m, ks).contains_key(m[k].pair_id),
        collect_garbage(m, ks)[m[k].pair_id] == m[k].garbage,
    decreases ks.len(),
{
    let last = ks.last();
    let rest = ks.drop_last();
    if last == k {
        assert(collect_garbage(m, ks) == collect_garbage(m, rest).insert(m[k].pair_id, m[k].garbage));
    } else {
        assert(rest.contains(k)) by {
            let i = choose|i: int| 0 <= i < ks.len() && ks[i] == k;
            assert(i != ks.len() - 1);
            assert(rest[i] == k);
        }
        assert(rest.no_duplicates()) by {
            assert forall|a: int, b: int| 0 <= a < rest.len() && 0 <= b < rest.len() && a != b implies rest[a] != rest[b] by {
                assert(rest[a] == ks[a] && rest[b] == ks[b]);
            }
        }
        assert forall|j: usize| #[trigger] rest.contains(j) && j != k && hands_over(m[j]) implies m[j].pair_id != m[k].pair_id by {
            let i = choose|i: int| 0 <= i < rest.len() && rest[i] == j;
            assert(ks[i] == j);
            assert(ks.contains(j));
        }
        lemma_deliver_exact(m, rest, k);
        assert(ks.contains(last)) by {
            assert(ks[ks.len() - 1] == last);
        }
        if hands_over(m[last]) {
            assert(m[last].pair_id != m[k].pair_id);
        }
    }
}

/// Clearing removes exactly the dead connections and the old local `Hk`
/// connections without a working pair, and keeps every other connection
/// unchanged. A new `Hk` connection is wanted exactly when some `Hk`
/// connection is working and fewer than half the initial number are ready.
pub proof fn lemma_clear_keeps_the_rest(m: Map<usize, LineView>, now: u64, chick_init_num: u8)
    requires
        m.dom().finite(),
    ensures
        forall|k: usize| #[trigger] kept_lines(m, now).contains_key(k) <==> (m.contains_key(k) && !(m[k].status is Dead)
            && !(m[k].line_type is Hk && !is_working_spec(m[k]) && is_old_spec(m[k], now))),
        forall|k: usize| #[trigger] kept_lines(m, now).contains_key(k) ==> kept_lines(m, now)[k] == m[k],
        forall|k: usize| #[trigger] m.contains_key(k) && is_working_spec(m[k]) && !(m[k].status is Dead) ==> kept_lines(m, now).contains_key(k),
        needs_chick(m, now, chick_init_num) <==> (
            (exists|k: usize| #[trigger] m.contains_key(k) && m[k].line_type is Hk && is_working_spec(m[k]))
            && ready_keys(m, m.dom(), now).len() < chick_init_num / 2),
{
    let w = working_keys(m, m.dom());
    m.dom().lemma_len_filter(|k: usize| m[k].line_type is Hk && is_working_spec(m[k]));
    if exists|k: usize| #[trigger] m.contains_key(k) && m[k].line_type is Hk && is_working_spec(m[k]) {
        let k = choose|k: usize| #[trigger] m.contains_key(k) && m[k].line_type is Hk && is_working_spec(m[k]);
        assert(w.contains(k));
    }
    if w.len() > 0 {
        let k = w.choose();
        assert(w.contains(k));
        assert(m.contains_key(k) && m[k].line_type is Hk && is_working_spec(m[k]));
    }
}

/// Decoupling shuts down, both ways, exactly the remote gate connections in
/// the table whose pair closed while still paired with them; nothing else is
/// shut down.
pub proof fn lemma_decouple_actions(m: Map<usize, LineView>, ks: Seq<usize>)
    requires
        forall|i: int| 0 <= i < ks.len() ==> m.contains_key(#[trigger] ks[i]),
    ensures
        forall|j: int| 0 <= j < pair_close_acts(m, close_pairs(m, ks)).len() ==> {
            let (p, a) = #[trigger] pair_close_acts(m, close_pairs(m, ks))[j];
            &&& a == ActionView::ShutdownBoth
            &&& m.contains_key(p)
            &&& m[p].line_type is MainLand
            &&& exists|i: int| #![trigger ks[i]] 0 <= i < ks.len() && closed_paired(m[ks[i]]) && m[ks[i]].pair_id == p
        },
        forall|i: int| 0 <= i < ks.len() && closed_paired(m[ks[i]]) && m.contains_key(m[ks[i]].pair_id)
            && m[m[ks[i]].pair_id].line_type is MainLand
            ==> pair_close_acts(m, close_pairs(m, ks)).contains((#[trigger] m[ks[i]].pair_id, ActionView::ShutdownBoth)),
    decreases ks.len(),
{
    if ks.len() > 0 {
        let rest = ks.drop_last();
        let k = ks.last();
        assert forall|i: int| 0 <= i < rest.len() implies m.contains_key(#[trigger] rest[i]) by {
            assert(rest[i] == ks[i]);
        }
        lemma_decouple_actions(m, rest);
        let cr = close_pairs(m, rest);
        let ar = pair_close_acts(m, cr);
        let acts = pair_close_acts(m, close_pairs(m, ks));
        assert(ks[ks.len() - 1] == k);
        if closed_paired(m[k]) {
            let p = m[k].pair_id;
            assert(close_pairs(m, ks) == cr.push((k, p)));
            assert(close_pairs(m, ks).drop_last() =~= cr);
            let extra = if m.contains_key(p) {
                pair_close_actions(m[p].line_type).map_values(|a: ActionView| (p, a))
            } else {
                Seq::<(usize, ActionView)>::empty()
            };
            assert(acts == ar + extra);
            assert forall|j: int| 0 <= j < acts.len() implies {
                let (q, a) = #[trigger] acts[j];
                &&& a == ActionView::ShutdownBoth
                &&& m.contains_key(q)
                &&& m[q].line_type is MainLand
                &&& exists|i: int| #![trigger ks[i]] 0 <= i < ks.len() && closed_paired(m[ks[i]]) && m[ks[i]].pair_id == q
            } by {
                if j < ar.len() {
                    assert(acts[j] == ar[j]);
                    let (q, a) = ar[j];
                    let i = choose|i: int| #![trigger rest[i]] 0 <= i < rest.len() && closed_paired(m[rest[i]]) && m[rest[i]].pair_id == q;
                    assert(ks[i] == rest[i]);
                } else {
                    assert(acts[j] == extra[j - ar.len()]);
                    assert(ks[ks.len() - 1] == k);
                }
            }
            assert forall|i: int| 0 <= i < ks.len() && closed_paired(m[ks[i]]) && m.contains_key(m[ks[i]].pair_id)
                && m[m[ks[i]].pair_id].line_type is MainLand
                implies acts.contains((#[trigger] m[ks[i]].pair_id, ActionView::ShutdownBoth)) by {
                if i < rest.len() {
                    assert(rest[i] == ks[i]);
                    let q = choose|q: int| 0 <= q < ar.len() && ar[q] == (m[rest[i]].pair_id, ActionView::ShutdownBoth);
                    assert(acts[q] == ar[q]);
                } else {
                    assert(extra[0] == (p, ActionView::ShutdownBoth));
                    assert(acts[ar.len() as int] == extra[0]);
                }
            }
        } else {
            assert(close_pairs(m, ks) == cr);
            assert forall|j: int| 0 <= j < acts.len() implies {
                let (q, a) = #[trigger] acts[j];
                &&& a == ActionView::ShutdownBoth
                &&& m.contains_key(q)
                &&& m[q].line_type is MainLand
                &&& exists|i: int| #![trigger ks[i]] 0 <= i < ks.len() && closed_paired(m[ks[i]]) && m[ks[i]].pair_id == q
            } by {
                let (q, a) = ar[j];
                let i = choose|i: int| #![trigger rest[i]] 0 <= i < rest.len() && closed_paired(m[rest[i]]) && m[rest[i]].pair_id == q;
                assert(ks[i] == rest[i]);
            }
            assert forall|i: int| 0 <= i < ks.len() && closed_paired(m[ks[i]]) && m.contains_key(m[ks[i]].pair_id)
                && m[m[ks[i]].pair_id].line_type is MainLand
                implies acts.contains((#[trigger] m[ks[i]].pair_id, ActionView::ShutdownBoth)) by {
                assert(i < rest.len());
                assert(rest[i] == ks[i]);
            }
        }
    }
}

/// Each flush that delivery produces goes to a connection that was sent
/// bytes, and carries what that connection had queued followed by the bytes
/// sent; every connection in the table that was sent bytes, is connected,
/// not closed and has something to write produces such a flush.
pub proof fn lemma_deliver_actions(m1: Map<usize, LineView>, r: Map<usize, Seq<u8>>, ks: Seq<usize>)
    requires
        forall|i: int| 0 <= i < ks.len() ==> r.contains_key(#[trigger] ks[i]),
    ensures
        forall|j: int| 0 <= j < deliver_acts(m1, r, ks).len() ==> {
            let (p, a) = #[trigger] deliver_acts(m1, r, ks)[j];
            &&& ks.contains(p)
            &&& m1.contains_key(p)
            &&& a == ActionView::Flush(m1[p].mem_data + r[p])
        },
        forall|i: int| 0 <= i < ks.len() && m1.contains_key(#[trigger] ks[i])
            && !(m1[ks[i]].status is Raw || m1[ks[i]].status is Close || m1[ks[i]].status is Dead)
            && m1[ks[i]].mem_data.len() + r[ks[i]].len() > 0
            ==> deliver_acts(m1, r, ks).contains((ks[i], ActionView::Flush(m1[ks[i]].mem_data + r[ks[i]]))),
    decreases ks.len(),
{
    if ks.len() > 0 {
        let rest = ks.drop_last();
        let p = ks.last();
        assert forall|i: int| 0 <= i < rest.len() implies r.contains_key(#[trigger] rest[i]) by {
            assert(rest[i] == ks[i]);
        }
        lemma_deliver_actions(m1, r, rest);
        let ar = deliver_acts(m1, r, rest);
        let acts = deliver_acts(m1, r, ks);
        assert(ks[ks.len() - 1] == p);
        if m1.contains_key(p) {
            crate::ss::line::data::lemma_pair_bytes_are_flushed(m1[p], r[p]);
            let extra = on_data_from_mem_spec(m1[p], r[p]).1.map_values(|a: ActionView| (p, a));
            assert(acts == ar + extra);
            assert forall|j: int| 0 <= j < acts.len() implies {
                let (q, a) = #[trigger] acts[j];
                &&& ks.contains(q)
                &&& m1.contains_key(q)
                &&& a == ActionView::Flush(m1[q].mem_data + r[q])
            } by {
                if j < ar.len() {
                    assert(acts[j] == ar[j]);
                    let q = ar[j].0;
                    let i = choose|i: int| 0 <= i < rest.len() && rest[i] == q;
                    assert(ks[i] == q);
                } else {
                    assert(acts[j] == extra[j - ar.len()]);
                }
            }
            assert forall|i: int| 0 <= i < ks.len() && m1.contains_key(#[trigger] ks[i])
                && !(m1[ks[i]].status is Raw || m1[ks[i]].status is Close || m1[ks[i]].status is Dead)
                && m1[ks[i]].mem_data.len() + r[ks[i]].len() > 0
                implies acts.contains((ks[i], ActionView::Flush(m1[ks[i]].mem_data + r[ks[i]]))) by {
                if i < rest.len() {
                    assert(rest[i] == ks[i]);
                    let q = choose|q: int| 0 <= q < ar.len() && ar[q] == (rest[i], ActionView::Flush(m1[rest[i]].mem_data + r[rest[i]]));
                    assert(acts[q] == ar[q]);
                } else {
                    assert(acts[ar.len() as int] == extra[0]);
                }
            }
        } else {
            assert(acts == ar);
            assert forall|j: int| 0 <= j < acts.len() implies {
                let (q, a) = #[trigger] acts[j];
                &&& ks.contains(q)
                &&& m1.contains_key(q)
                &&& a == ActionView::Flush(m1[q].mem_data + r[q])
            } by {
                let q = ar[j].0;
                let i = choose|i: int| 0 <= i < rest.len() && rest[i] == q;
                assert(ks[i] == q);
            }
            assert forall|i: int| 0 <= i < ks.len() && m1.contains_key(#[trigger] ks[i])
                && !(m1[ks[i]].status is Raw || m1[ks[i]].status is Close || m1[ks[i]].status is Dead)
                && m1[ks[i]].mem_data.len() + r[ks[i]].len() > 0
                implies acts.contains((ks[i], ActionView::Flush(m1[ks[i]].mem_data + r[ks[i]]))) by {
                assert(i < rest.len());
                assert(rest[i] == ks[i]);
            }
        }
    }
}

/// When several connections hand bytes to the same pair, the pair receives
/// those of the last of them in the walk; in any case only pairs named by a
/// connection with bytes to hand over receive anything.
pub proof fn lemma_deliver_last_wins(m: Map<usize, LineView>, ks: Seq<usize>, idx: int)
    requires
        0 <= idx < ks.len(),
        hands_over(m[ks[idx]]),
        forall|j: int| idx < j < ks.len() && hands_over(m[#[trigger] ks[j]]) ==> m[ks[j]].pair_id != m[ks[idx]].pair_id,
    ensures
        collect_garbage(m, ks).contains_key(m[ks[idx]].pair_id),
        collect_garbage(m, ks)[m[ks[idx]].pair_id] == m[ks[idx]].garbage,
    decreases ks.len(),
{
    let rest = ks.drop_last();
    let last = ks.last();
    if idx == ks.len() - 1 {
    } else {
        assert(rest[idx] == ks[idx]);
        assert forall|j: int| idx < j < rest.len() && hands_over(m[#[trigger] rest[j]]) implies m[rest[j]].pair_id != m[rest[idx]].pair_id by {
            assert(rest[j] == ks[j]);
        }
        lemma_deliver_last_wins(m, rest, idx);
        if hands_over(m[last]) {
            assert(m[ks[ks.len() - 1]].pair_id != m[ks[idx]].pair_id);
        }
    }
}

/// Only pairs named by a connection with bytes to hand over receive bytes.
pub proof fn lemma_deliver_receivers(m: Map<usize, LineView>, ks: Seq<usize>)
    ensures
        forall|p: usize| #[trigger] collect_garbage(m, ks).contains_key(p) ==>
            exists|i: int| #![trigger ks[i]] 0 <= i < ks.len() && hands_over(m[ks[i]]) && m[ks[i]].pair_id == p,
    decreases ks.len(),
{
    if ks.len() > 0 {
        let rest = ks.drop_last();
        lemma_deliver_receivers(m, rest);
        assert forall|p: usize| #[trigger] collect_garbage(m, ks).contains_key(p) implies
            exists|i: int| #![trigger ks[i]] 0 <= i < ks.len() && hands_over(m[ks[i]]) && m[ks[i]].pair_id == p by {
            if collect_garbage(m, rest).contains_key(p) {
                let i = choose|i: int| #![trigger rest[i]] 0 <= i < rest.len() && hands_over(m[rest[i]]) && m[rest[i]].pair_id == p;
                assert(ks[i] == rest[i]);
            } else {
                assert(ks[ks.len() - 1] == ks.last());
            }
        }
    }
}

/// A connection that hands its bytes over keeps none of them and nothing
/// else of it changes; other connections are untouched. A connection that
/// receives bytes and can write flushes everything it has queued; one that
/// cannot write keeps them queued after what it had; one that receives
/// nothing is untouched.
pub proof fn lemma_deliver_lines(l: LineView, m1: Map<usize, LineView>, r: Map<usize, Seq<u8>>)
    ensures
        hands_over(l) ==> emptied(l) == (LineView { garbage: Seq::empty(), ..l }),
        !hands_over(l) ==> emptied(l) == l,
        forall|k: usize| #[trigger] delivered(m1, r).contains_key(k) <==> m1.contains_key(k),
        forall|k: usize| #[trigger] m1.contains_key(k) && !r.contains_key(k) ==> delivered(m1, r)[k] == m1[k],
        forall|k: usize| #[trigger] m1.contains_key(k) && r.contains_key(k)
            && !(m1[k].status is Raw || m1[k].status is Close || m1[k].status is Dead)
            ==> delivered(m1, r)[k] == (LineView { mem_data: Seq::empty(), ..m1[k] }),
        forall|k: usize| #[trigger] m1.contains_key(k) && r.contains_key(k)
            && (m1[k].status is Raw || m1[k].status is Close || m1[k].status is Dead)
            ==> delivered(m1, r)[k] == (LineView { mem_data: m1[k].mem_data + r[k], ..m1[k] }),
{
    assert forall|k: usize| #[trigger] m1.contains_key(k) && r.contains_key(k)
        && !(m1[k].status is Raw || m1[k].status is Close || m1[k].status is Dead)
        implies delivered(m1, r)[k] == (LineView { mem_data: Seq::empty(), ..m1[k] }) by {
        crate::ss::line::data::lemma_pair_bytes_are_flushed(m1[k], r[k]);
        if m1[k].mem_data.len() + r[k].len() == 0 {
            assert(m1[k].mem_data =~= Seq::<u8>::empty());
        }
    }
}

/// The counted sets hold exactly the local `Hk` connections that are
/// working, respectively ready.
pub proof fn lemma_counted_keys(m: Map<usize, LineView>, s: Set<usize>, now: u64)
    ensures
        forall|k: usize| #[trigger] working_keys(m, s).contains(k) <==> (s.contains(k) && m[k].line_type is Hk && is_working_spec(m[k])),
        forall|k: usize| #[trigger] ready_keys(m, s, now).contains(k) <==> (s.contains(k) && m[k].line_type is Hk && is_ready_spec(m[k], now)),
{
}

} // verus!
