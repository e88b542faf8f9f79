//! Bookkeeping of the entities each named emitter has spawned, per owner, oldest first.

use vstd::prelude::*;
use crate::text::{str_eq, trim, trim_seq};

verus! {

/// Key of an emitter queue: the emitter's name and the entity that owns it, if any.
pub type EmitterKey = (Seq<char>, Option<u64>);

/// Entities spawned by one emitter for one owner, oldest first.
pub struct EmitterQueue {
    name: String,
    owner: Option<u64>,
    ids: Vec<u64>,
}

/// Live entities per emitter and owner, in spawn order.
pub struct EmitterState {
    queues: Vec<EmitterQueue>,
}

/// The key a queue is stored under.
spec fn queue_key(q: EmitterQueue) -> EmitterKey {
    (q.name@, q.owner)
}

/// Entity ids tracked in a queue.
spec fn queue_ids(q: EmitterQueue) -> Seq<u64> {
    q.ids@
}

/// Index of the queue stored under `k` in `qs` (meaningful when one exists).
spec fn index_of(qs: Seq<EmitterQueue>, k: EmitterKey) -> int {
    choose|i: int| 0 <= i < qs.len() && #[trigger] queue_key(qs[i]) == k
}

/// Whether some queue of `qs` is stored under `k`.
spec fn has_key(qs: Seq<EmitterQueue>, k: EmitterKey) -> bool {
    exists|i: int| 0 <= i < qs.len() && #[trigger] queue_key(qs[i]) == k
}

/// Map from key to tracked ids described by a list of queues.
spec fn queues_map(qs: Seq<EmitterQueue>) -> Map<EmitterKey, Seq<u64>> {
    Map::new(|k: EmitterKey| has_key(qs, k), |k: EmitterKey| queue_ids(qs[index_of(qs, k)]))
}

/// No two queues share a key and no tracked id is zero.
spec fn queues_wf(qs: Seq<EmitterQueue>) -> bool {
    &&& forall|i: int, j: int|
        0 <= i < qs.len() && 0 <= j < qs.len() && i != j ==> queue_key(qs[i]) != queue_key(qs[j])
    &&& forall|i: int, j: int|
        0 <= i < qs.len() && 0 <= j < queue_ids(qs[i]).len() ==> #[trigger] queue_ids(qs[i])[j]
            != 0
}

/// The state after tracking `id` under `k`: `id` joins the back of `k`'s queue.
pub open spec fn with_spawn(m: Map<EmitterKey, Seq<u64>>, k: EmitterKey, id: u64) -> Map<
    EmitterKey,
    Seq<u64>,
> {
    if m.contains_key(k) {
        m.insert(k, m[k].push(id))
    } else {
        m.insert(k, seq![id])
    }
}

/// How many of `len` tracked entities go so that fewer than `max_count`
/// remain (all of them when `max_count` is 0).
pub open spec fn evict_count(len: nat, max_count: usize) -> nat {
    if len >= max_count {
        if max_count == 0 { len } else { (len + 1 - max_count) as nat }
    } else {
        0
    }
}

/// The predicate "differs from `id`".
pub open spec fn ne_id(id: u64) -> spec_fn(u64) -> bool {
    |x: u64| x != id
}

/// The state after removing every occurrence of `id`; queues left empty are dropped.
pub open spec fn without_entity(m: Map<EmitterKey, Seq<u64>>, id: u64) -> Map<
    EmitterKey,
    Seq<u64>,
> {
    Map::new(
        |k: EmitterKey| m.contains_key(k) && m[k].filter(ne_id(id)).len() > 0,
        |k: EmitterKey| m[k].filter(ne_id(id)),
    )
}

proof fn lemma_map_at(qs: Seq<EmitterQueue>, i: int)
    requires
        queues_wf(qs),
        0 <= i < qs.len(),
    ensures
        queues_map(qs).contains_key(queue_key(qs[i])),
        queues_map(qs)[queue_key(qs[i])] == queue_ids(qs[i]),
{
    let k = queue_key(qs[i]);
    assert(has_key(qs, k));
    let j = index_of(qs, k);
    assert(queue_key(qs[j]) == k);
}

proof fn lemma_update_at(qs: Seq<EmitterQueue>, i: int, q: EmitterQueue)
    requires
        queues_wf(qs),
        0 <= i < qs.len(),
        queue_key(q) == queue_key(qs[i]),
    ensures
        queues_map(qs.update(i, q)) == queues_map(qs).insert(queue_key(q), queue_ids(q)),
{
    let ns = qs.update(i, q);
    let k0 = queue_key(q);
    assert forall|k: EmitterKey| #[trigger] has_key(ns, k) == has_key(qs, k) by {
        if has_key(ns, k) {
            let j = choose|j: int| 0 <= j < ns.len() && #[trigger] queue_key(ns[j]) == k;
            if j == i {
                assert(queue_key(qs[i]) == k);
            } else {
                assert(queue_key(qs[j]) == k);
            }
        }
        if has_key(qs, k) {
            let j = choose|j: int| 0 <= j < qs.len() && #[trigger] queue_key(qs[j]) == k;
            assert(queue_key(ns[j]) == k);
        }
    }
    assert forall|k: EmitterKey| has_key(ns, k) implies queue_ids(ns[index_of(ns, k)]) == (if k
        == k0 {
        queue_ids(q)
    } else {
        queue_ids(qs[index_of(qs, k)])
    }) by {
        let j = index_of(ns, k);
        assert(queue_key(ns[j]) == k);
        if k == k0 {
            if j != i {
                assert(queue_key(qs[j]) == k);
                assert(false);
            }
        } else {
            assert(j != i);
            let j2 = index_of(qs, k);
            assert(queue_key(qs[j2]) == k);
            assert(queue_key(qs[j]) == k);
        }
    }
    assert(queues_map(ns) =~= queues_map(qs).insert(k0, queue_ids(q)));
}

proof fn lemma_push_new(qs: Seq<EmitterQueue>, q: EmitterQueue)
    requires
        queues_wf(qs),
        !has_key(qs, queue_key(q)),
    ensures
        queues_map(qs.push(q)) == queues_map(qs).insert(queue_key(q), queue_ids(q)),
{
    let ns = qs.push(q);
    let k0 = queue_key(q);
    assert forall|k: EmitterKey| #[trigger] has_key(ns, k) == (has_key(qs, k) || k == k0) by {
        if has_key(ns, k) {
            let j = choose|j: int| 0 <= j < ns.len() && #[trigger] queue_key(ns[j]) == k;
            if j < qs.len() {
                assert(queue_key(qs[j]) == k);
            }
        }
        if has_key(qs, k) {
            let j = choose|j: int| 0 <= j < qs.len() && #[trigger] queue_key(qs[j]) == k;
            assert(queue_key(ns[j]) == k);
        }
        if k == k0 {
            assert(queue_key(ns[qs.len() as int]) == k);
        }
    }
    assert forall|k: EmitterKey| has_key(ns, k) implies queue_ids(ns[index_of(ns, k)]) == (if k
        == k0 {
        queue_ids(q)
    } else {
        queue_ids(qs[index_of(qs, k)])
    }) by {
        let j = index_of(ns, k);
        assert(queue_key(ns[j]) == k);
        if k == k0 {
            if j < qs.len() {
                assert(queue_key(qs[j]) == k);
                assert(false);
            }
        } else {
            assert(j < qs.len());
            let j2 = index_of(qs, k);
            assert(queue_key(qs[j2]) == k);
            assert(queue_key(qs[j]) == k);
        }
    }
    assert(queues_map(ns) =~= queues_map(qs).insert(k0, queue_ids(q)));
}

proof fn lemma_kept_is_without(qs: Seq<EmitterQueue>, got: Map<EmitterKey, Seq<u64>>, id: u64)
    requires
        queues_wf(qs),
        got == Map::new(
            |k: EmitterKey|
                exists|j: int|
                    0 <= j < qs.len() && #[trigger] queue_key(qs[j]) == k && queue_ids(qs[j]).filter(
                        ne_id(id),
                    ).len() > 0,
            |k: EmitterKey| queue_ids(qs[index_of(qs, k)]).filter(ne_id(id)),
        ),
    ensures
        got == without_entity(queues_map(qs), id),
{
    let m = queues_map(qs);
    let want = without_entity(m, id);
    assert forall|k: EmitterKey| #[trigger] got.contains_key(k) == want.contains_key(k) by {
        if m.contains_key(k) {
            let j0 = index_of(qs, k);
            assert(queue_key(qs[j0]) == k);
        }
        if got.contains_key(k) {
            let j = choose|j: int|
                0 <= j < qs.len() && #[trigger] queue_key(qs[j]) == k && queue_ids(qs[j]).filter(
                    ne_id(id),
                ).len() > 0;
            lemma_map_at(qs, j);
        }
    }
    assert forall|k: EmitterKey| got.contains_key(k) implies #[trigger] got[k] == want[k] by {}
    assert(got =~= want);
}

fn key_matches(q: &EmitterQueue, name: &str, owner: Option<u64>) -> (r: bool)
    ensures
        r == (queue_key(*q) == (name@, owner)),
{
    let same_owner = match (q.owner, owner) {
        (Some(a), Some(b)) => a == b,
        (None, None) => true,
        _ => false,
    };
    same_owner && str_eq(q.name.as_str(), name)
}

fn filter_ids(ids: &Vec<u64>, id: u64) -> (r: Vec<u64>)
    ensures
        r@ == ids@.filter(ne_id(id)),
{
    let mut r: Vec<u64> = Vec::new();
    let mut i: usize = 0;
    while i < ids.len()
        invariant
            i <= ids.len(),
            r@ == ids@.subrange(0, i as int).filter(ne_id(id)),
        decreases ids.len() - i,
    {
        proof {
            assert(ids@.subrange(0, i + 1) =~= ids@.subrange(0, i as int).push(ids@[i as int]));
            ids@.subrange(0, i as int).lemma_filter_push(ids@[i as int], ne_id(id));
        }
        if ids[i] != id {
            r.push(ids[i]);
        }
        i = i + 1;
    }
    assert(ids@.subrange(0, ids.len() as int) =~= ids@);
    r
}

fn copy_ids(ids: &Vec<u64>) -> (r: Vec<u64>)
    ensures
        r@ == ids@,
{
    let mut r: Vec<u64> = Vec::new();
    let mut i: usize = 0;
    while i < ids.len()
        invariant
            i <= ids.len(),
            r@ == ids@.subrange(0, i as int),
        decreases ids.len() - i,
    {
        r.push(ids[i]);
        i = i + 1;
    }
    assert(ids@.subrange(0, ids.len() as int) =~= ids@);
    r
}

impl EmitterState {
    /// No two queues share a key and no tracked id is zero.
    #[verifier::type_invariant]
    spec fn wf(&self) -> bool {
        queues_wf(self.queues@)
    }

    /// Tracked ids per (emitter name, owner), oldest first.
    pub closed spec fn view(&self) -> Map<EmitterKey, Seq<u64>> {
        queues_map(self.queues@)
    }

    /// An empty state.
    pub fn new() -> (r: Self)
        ensures
            r.view() == Map::<EmitterKey, Seq<u64>>::empty(),
    {
        let r = EmitterState { queues: Vec::new() };
        assert(r.view() =~= Map::<EmitterKey, Seq<u64>>::empty());
        r
    }

    fn find(&self, name: &str, owner: Option<u64>) -> (r: Option<usize>)
        ensures
            match r {
                Some(i) => i < self.queues@.len() && queue_key(self.queues@[i as int]) == (
                    name@,
                    owner,
                ),
                None => !has_key(self.queues@, (name@, owner)),
            },
    {
        let mut i: usize = 0;
        while i < self.queues.len()
            invariant
                i <= self.queues@.len(),
                forall|j: int| 0 <= j < i ==> queue_key(#[trigger] self.queues@[j]) != (name@, owner),
            decreases self.queues.len() - i,
        {
            if key_matches(&self.queues[i], name, owner) {
                return Some(i);
            }
            i = i + 1;
        }
        None
    }

    /// Records that emitter `emitter_name` spawned `entity_id` for `owner_id`.
    /// Names that are blank and the id 0 are ignored.
    pub fn track_spawn(&mut self, emitter_name: &str, owner_id: Option<u64>, entity_id: u64)
        ensures
            final(self).view() == if trim_seq(emitter_name@).len() == 0 || entity_id == 0 {
                old(self).view()
            } else {
                with_spawn(old(self).view(), (emitter_name@, owner_id), entity_id)
            },
    {
        proof {
            use_type_invariant(&*self);
        }
        let trimmed = trim(emitter_name);
        if trimmed.unicode_len() == 0 || entity_id == 0 {
            return;
        }
        let ghost qs = self.queues@;
        let ghost k = (emitter_name@, owner_id);
        match self.find(emitter_name, owner_id) {
            Some(i) => {
                proof {
                    lemma_map_at(qs, i as int);
                }
                let mut ids = copy_ids(&self.queues[i].ids);
                ids.push(entity_id);
                let name = self.queues[i].name.clone();
                let q = EmitterQueue { name, owner: owner_id, ids };
                let mut queues: Vec<EmitterQueue> = Vec::new();
                std::mem::swap(&mut queues, &mut self.queues);
                queues.set(i, q);
                proof {
                    lemma_update_at(qs, i as int, q);
                    assert(queues@ == qs.update(i as int, q));
                    assert forall|a: int, b: int|
                        0 <= a < queues@.len() && 0 <= b < queue_ids(
                            queues@[a],
                        ).len() implies #[trigger] queue_ids(queues@[a])[b] != 0 by {
                        if a == i {
                            if b < queue_ids(qs[a]).len() {
                                assert(queue_ids(queues@[a])[b] == queue_ids(qs[a])[b]);
                            }
                        }
                    }
                }
                self.queues = queues;
            },
            None => {
                let mut ids: Vec<u64> = Vec::new();
                ids.push(entity_id);
                let q = EmitterQueue { name: String::from_str(emitter_name), owner: owner_id, ids };
                let mut queues: Vec<EmitterQueue> = Vec::new();
                std::mem::swap(&mut queues, &mut self.queues);
                queues.push(q);
                proof {
                    lemma_push_new(qs, q);
                    assert(queues@ == qs.push(q));
                    assert(queue_ids(q) =~= seq![entity_id]);
                }
                self.queues = queues;
            },
        }
    }

    /// Number of live entities tracked for the emitter and owner.
    pub fn active_count(&self, emitter_name: &str, owner_id: Option<u64>) -> (r: usize)
        ensures
            r == if self.view().contains_key((emitter_name@, owner_id)) {
                self.view()[(emitter_name@, owner_id)].len()
            } else {
                0
            },
    {
        proof {
            use_type_invariant(self);
        }
        match self.find(emitter_name, owner_id) {
            Some(i) => {
                proof {
                    lemma_map_at(self.queues@, i as int);
                }
                self.queues[i].ids.len()
            },
            None => 0,
        }
    }

    /// Stops tracking, and returns, the oldest entity of the emitter and owner.
    pub fn evict_oldest(&mut self, emitter_name: &str, owner_id: Option<u64>) -> (r: Option<u64>)
        ensures
            ({
                let k = (emitter_name@, owner_id);
                let m = old(self).view();
                if m.contains_key(k) && m[k].len() > 0 {
                    &&& r == Some(m[k][0])
                    &&& final(self).view() == m.insert(k, m[k].drop_first())
                } else {
                    &&& r is None
                    &&& final(self).view() == m
                }
            }),
    {
        proof {
            use_type_invariant(&*self);
        }
        let ghost qs = self.queues@;
        match self.find(emitter_name, owner_id) {
            Some(i) => {
                proof {
                    lemma_map_at(qs, i as int);
                }
                if self.queues[i].ids.len() == 0 {
                    return None;
                }
                let first = self.queues[i].ids[0];
                let mut ids: Vec<u64> = Vec::new();
                let mut j: usize = 1;
                let n = self.queues[i].ids.len();
                while j < n
                    invariant
                        self.queues@ == qs,
                        i < qs.len(),
                        n == queue_ids(qs[i as int]).len(),
                        1 <= j <= n,
                        ids@ == queue_ids(qs[i as int]).subrange(1, j as int),
                    decreases n - j,
                {
                    ids.push(self.queues[i].ids[j]);
                    j = j + 1;
                }
                let name = self.queues[i].name.clone();
                let q = EmitterQueue { name, owner: owner_id, ids };
                let mut queues: Vec<EmitterQueue> = Vec::new();
                std::mem::swap(&mut queues, &mut self.queues);
                queues.set(i, q);
                proof {
                    assert(queue_ids(q) =~= queue_ids(qs[i as int]).drop_first());
                    lemma_update_at(qs, i as int, q);
                    assert(queues@ == qs.update(i as int, q));
                    assert forall|a: int, b: int|
                        0 <= a < queues@.len() && 0 <= b < queue_ids(
                            queues@[a],
                        ).len() implies #[trigger] queue_ids(queues@[a])[b] != 0 by {
                        if a == i {
                            assert(queue_ids(queues@[a])[b] == queue_ids(qs[a])[b + 1]);
                        }
                    }
                }
                self.queues = queues;
                Some(first)
            },
            None => None,
        }
    }

    /// Evicts the oldest entities of the emitter and owner while at least
    /// `max_count` are tracked, and returns them, oldest first.
    pub fn make_room(&mut self, emitter_name: &str, owner_id: Option<u64>, max_count: usize) -> (r: Vec<u64>)
        ensures
            ({
                let k = (emitter_name@, owner_id);
                let m = old(self).view();
                let q = if m.contains_key(k) { m[k] } else { Seq::<u64>::empty() };
                let n = evict_count(q.len(), max_count);
                &&& r@ == q.take(n as int)
                &&& final(self).view() == if m.contains_key(k) { m.insert(k, q.skip(n as int)) } else { m }
            }),
    {
        let ghost k = (emitter_name@, owner_id);
        let ghost m = self.view();
        let ghost q = if m.contains_key(k) { m[k] } else { Seq::<u64>::empty() };
        let ghost n = evict_count(q.len(), max_count);
        let mut out: Vec<u64> = Vec::new();
        let mut done = false;
        assert(q.skip(0) =~= q);
        assert(m.contains_key(k) ==> m.insert(k, q) =~= m);
        while !done
            invariant
                k == (emitter_name@, owner_id),
                q == if m.contains_key(k) { m[k] } else { Seq::<u64>::empty() },
                n == evict_count(q.len(), max_count),
                out@ == q.take(out@.len() as int),
                out@.len() <= n,
                n <= q.len(),
                self.view() == if m.contains_key(k) { m.insert(k, q.skip(out@.len() as int)) } else { m },
                done ==> out@.len() == n,
            decreases q.len() - out@.len(), (if done { 0int } else { 1int }),
        {
            let c = self.active_count(emitter_name, owner_id);
            if c < max_count {
                done = true;
            } else {
                let ghost v0 = self.view();
                let evicted = self.evict_oldest(emitter_name, owner_id);
                proof {
                    if v0.contains_key(k) && v0[k].len() > 0 {
                        assert(evicted == Some(v0[k][0]));
                    } else {
                        assert(evicted is None);
                    }
                }
                match evicted {
                    Some(id) => {
                        let ghost before = out@;
                        proof {
                            assert(v0.contains_key(k) && v0[k].len() > 0);
                            assert(m.contains_key(k));
                            assert(v0[k] == q.skip(before.len() as int));
                        }
                        out.push(id);
                        proof {
                            assert(q.skip(before.len() as int)[0] == q[before.len() as int]);
                            assert(out@ =~= q.take(out@.len() as int));
                            assert(q.skip(before.len() as int).drop_first() =~= q.skip(out@.len() as int));
                            assert(m.insert(k, q.skip(before.len() as int)).insert(k, q.skip(out@.len() as int))
                                =~= m.insert(k, q.skip(out@.len() as int)));
                        }
                    },
                    None => {
                        done = true;
                    },
                }
            }
        }
        out
    }

    /// Stops tracking `entity_id` in every queue; queues left empty are dropped.
    /// The id 0 is ignored.
    pub fn remove_entity(&mut self, entity_id: u64)
        ensures
            final(self).view() == if entity_id == 0 {
                old(self).view()
            } else {
                without_entity(old(self).view(), entity_id)
            },
    {
        proof {
            use_type_invariant(&*self);
        }
        if entity_id == 0 {
            return;
        }
        let ghost qs = self.queues@;
        let ghost m = queues_map(qs);
        let mut kept: Vec<EmitterQueue> = Vec::new();
        let mut i: usize = 0;
        while i < self.queues.len()
            invariant
                self.queues@ == qs,
                queues_wf(qs),
                i <= qs.len(),
                queues_wf(kept@),
                forall|k: EmitterKey| #[trigger]
                    has_key(kept@, k) ==> exists|j: int|
                        0 <= j < i && #[trigger] queue_key(qs[j]) == k,
                queues_map(kept@) == Map::new(
                    |k: EmitterKey|
                        exists|j: int| 0 <= j < i && #[trigger] queue_key(qs[j]) == k && queue_ids(
                            qs[j],
                        ).filter(ne_id(entity_id)).len() > 0,
                    |k: EmitterKey| queue_ids(qs[index_of(qs, k)]).filter(ne_id(entity_id)),
                ),
            decreases qs.len() - i,
        {
            let ids = filter_ids(&self.queues[i].ids, entity_id);
            let ghost before = kept@;
            let ghost ki = queue_key(qs[i as int]);
            proof {
                lemma_map_at(qs, i as int);
            }
            if ids.len() > 0 {
                let name = self.queues[i].name.clone();
                let q = EmitterQueue { name, owner: self.queues[i].owner, ids };
                proof {
                    if has_key(before, ki) {
                        let j = choose|j: int| 0 <= j < i && #[trigger] queue_key(qs[j]) == ki;
                        assert(false);
                    }
                    lemma_push_new(before, q);
                }
                kept.push(q);
                proof {
                    assert(kept@ == before.push(q));
                    assert forall|a: int, b: int|
                        0 <= a < kept@.len() && 0 <= b < queue_ids(kept@[a]).len() implies #[trigger] queue_ids(
                            kept@[a],
                        )[b] != 0 by {
                        if a == before.len() {
                            let f = queue_ids(qs[i as int]).filter(ne_id(entity_id));
                            queue_ids(qs[i as int]).lemma_filter_contains_rev(
                                ne_id(entity_id),
                                f[b],
                            );
                            assert(f.contains(f[b]));
                        }
                    }
                    assert forall|k: EmitterKey| #[trigger] has_key(kept@, k) implies exists|j: int|
                        0 <= j < i + 1 && #[trigger] queue_key(qs[j]) == k by {
                        let a = choose|a: int| 0 <= a < kept@.len() && #[trigger] queue_key(kept@[a]) == k;
                        if a < before.len() {
                            assert(queue_key(before[a]) == k);
                            assert(has_key(before, k));
                        } else {
                            assert(queue_key(qs[i as int]) == k);
                        }
                    }
                }
            }
            proof {
                assert(queues_map(kept@) =~= Map::new(
                    |k: EmitterKey|
                        exists|j: int|
                            0 <= j < i + 1 && #[trigger] queue_key(qs[j]) == k && queue_ids(
                                qs[j],
                            ).filter(ne_id(entity_id)).len() > 0,
                    |k: EmitterKey| queue_ids(qs[index_of(qs, k)]).filter(ne_id(entity_id)),
                ));
            }
            i = i + 1;
        }
        self.queues = kept;
        proof {
            lemma_kept_is_without(qs, queues_map(self.queues@), entity_id);
        }
    }
}

impl Default for EmitterState {
    /// An empty state.
    fn default() -> (r: Self)
        ensures
            r.view() == Map::<EmitterKey, Seq<u64>>::empty(),
    {
        EmitterState::new()
    }
}

} // verus!
