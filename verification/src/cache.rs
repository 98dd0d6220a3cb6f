//! The cache of explored states.
//!
//! States are kept in buckets, one for each program counter, with a score
//! beside each state. A state that is evicted moves to a retirement list, where
//! its descendants still find it by its number.

use vstd::prelude::*;

use std::collections::HashMap;

use crate::machine::State;

verus! {

/// How often a cached state was met, and to what effect.
#[derive(Clone, Copy, Debug, PartialEq, Eq, Structural)]
pub struct StateMetrics {
    pub hit_cnt: u32,
    pub miss_cnt: u32,
}

/// New values for the mutable marks of a cached state.
#[derive(Clone, Copy, Debug, PartialEq, Eq)]
pub struct Patch {
    pub children_unsafe: Option<bool>,
    pub cleaned: Option<bool>,
    pub branches: Option<u32>,
    pub dfs_paths: Option<u32>,
}

/// The value of an optional mark, or the old one.
pub open spec fn patched<T>(new: Option<T>, old: T) -> T {
    match new {
        Some(v) => v,
        None => old,
    }
}

/// A state with new marks.
pub open spec fn apply_patch(s: State, p: Patch) -> State {
    State {
        children_unsafe: patched(p.children_unsafe, s.children_unsafe),
        cleaned: patched(p.cleaned, s.cleaned),
        branches: patched(p.branches, s.branches),
        dfs_paths: patched(p.dfs_paths, s.dfs_paths),
        ..s
    }
}

/// The state as the checkpoint that bears a number: one unfinished path runs
/// through it.
pub open spec fn as_checkpoint(state: State, id: u32) -> State {
    State { cache_id: Some(id), branches: 1, dfs_paths: 1, ..state }
}

/// The score of a state that was never met.
pub open spec fn fresh_score() -> StateMetrics {
    StateMetrics { hit_cnt: 0, miss_cnt: 0 }
}

/// A count that stays at the largest number there is.
pub open spec fn saturated(n: int) -> int {
    if n > usize::MAX {
        usize::MAX as int
    } else {
        n
    }
}

/// Whether every number is larger than the ones behind it.
pub open spec fn descending(s: Seq<usize>) -> bool {
    forall|a: int, b: int| 0 <= a < b < s.len() ==> #[trigger] s[a] > #[trigger] s[b]
}

/// A sequence without the elements at the given places; the others keep their
/// order.
pub open spec fn without<T>(s: Seq<T>, places: Seq<usize>) -> Seq<T>
    decreases s.len(),
{
    if s.len() == 0 {
        s
    } else {
        let rest = without(s.drop_last(), places);
        if exists|k: int| 0 <= k < places.len() && #[trigger] places[k] == s.len() - 1 {
            rest
        } else {
            rest.push(s.last())
        }
    }
}

proof fn lemma_without_none<T>(s: Seq<T>, places: Seq<usize>)
    requires
        forall|k: int| 0 <= k < places.len() ==> (#[trigger] places[k]) >= s.len(),
    ensures
        without(s, places) == s,
    decreases s.len(),
{
    if s.len() > 0 {
        lemma_without_none(s.drop_last(), places);
        assert(s.drop_last().push(s.last()) =~= s);
    }
}

/// Taking the first, that is the last standing, element out leaves the others
/// to be taken out where they stood.
proof fn lemma_without_first<T>(s: Seq<T>, places: Seq<usize>)
    requires
        places.len() > 0,
        descending(places),
        places[0] < s.len(),
    ensures
        without(s, places) == without(s.remove(places[0] as int), places.skip(1)),
    decreases s.len(),
{
    let m = places[0] as int;
    let tail = places.skip(1);
    if m == s.len() - 1 {
        assert(places[0] == s.len() - 1);
        assert(s.remove(m) =~= s.drop_last());
        lemma_without_same(s.drop_last(), places, tail);
    } else {
        lemma_without_first(s.drop_last(), places);
        let r = s.remove(m);
        assert(r.drop_last() =~= s.drop_last().remove(m));
        assert(r.last() == s.last());
        assert(!(exists|k: int| 0 <= k < places.len() && #[trigger] places[k] == s.len() - 1)) by {
            if exists|k: int| 0 <= k < places.len() && #[trigger] places[k] == s.len() - 1 {
                let k = choose|k: int| 0 <= k < places.len() && #[trigger] places[k] == s.len() - 1;
                assert(places[0] >= places[k]);
            }
        }
        assert(!(exists|k: int| 0 <= k < tail.len() && #[trigger] tail[k] == r.len() - 1)) by {
            if exists|k: int| 0 <= k < tail.len() && #[trigger] tail[k] == r.len() - 1 {
                let k = choose|k: int| 0 <= k < tail.len() && #[trigger] tail[k] == r.len() - 1;
                assert(tail[k] == places[k + 1]);
                assert(places[0] > places[k + 1]);
            }
        }
    }
}

/// A place past the end takes nothing out.
proof fn lemma_without_same<T>(s: Seq<T>, places: Seq<usize>, tail: Seq<usize>)
    requires
        places.len() > 0,
        tail == places.skip(1),
        places[0] >= s.len(),
    ensures
        without(s, places) == without(s, tail),
    decreases s.len(),
{
    if s.len() > 0 {
        lemma_without_same(s.drop_last(), places, tail);
        let n = s.len() - 1;
        if exists|k: int| 0 <= k < places.len() && #[trigger] places[k] == n {
            let k = choose|k: int| 0 <= k < places.len() && #[trigger] places[k] == n;
            assert(tail[k - 1] == n);
        }
        if exists|k: int| 0 <= k < tail.len() && #[trigger] tail[k] == n {
            let k = choose|k: int| 0 <= k < tail.len() && #[trigger] tail[k] == n;
            assert(places[k + 1] == n);
        }
    }
}

/// What is left does not depend on the order in which the places are given.
pub proof fn lemma_without_any_order<T>(s: Seq<T>, a: Seq<usize>, b: Seq<usize>)
    requires
        forall|x: usize| #[trigger] a.contains(x) == b.contains(x),
    ensures
        without(s, a) == without(s, b),
    decreases s.len(),
{
    if s.len() > 0 {
        lemma_without_any_order(s.drop_last(), a, b);
        let n = s.len() - 1;
        if exists|k: int| 0 <= k < a.len() && #[trigger] a[k] == n {
            let k = choose|k: int| 0 <= k < a.len() && #[trigger] a[k] == n;
            assert(a.contains(a[k]));
        }
        if exists|k: int| 0 <= k < b.len() && #[trigger] b[k] == n {
            let k = choose|k: int| 0 <= k < b.len() && #[trigger] b[k] == n;
            assert(a.contains(b[k]));
        }
    }
}

/// The given places, from the last to the first.
pub fn sorted_down(places: &Vec<usize>) -> (r: Vec<usize>)
    requires
        places@.no_duplicates(),
    ensures
        descending(r@),
        forall|x: usize| #[trigger] r@.contains(x) == places@.contains(x),
{
    let mut out: Vec<usize> = Vec::new();
    let mut k: usize = 0;
    while k < places.len()
        invariant
            k <= places@.len(),
            places@.no_duplicates(),
            descending(out@),
            forall|x: usize| #[trigger] out@.contains(x) == places@.take(k as int).contains(x),
        decreases places@.len() - k,
    {
        let i: usize = places[k];
        let ghost before = out@;
        let ghost taken = places@.take(k as int);
        let ghost more = places@.take(k + 1);
        assert(!before.contains(i)) by {
            if taken.contains(i) {
                let m = choose|m: int| 0 <= m < taken.len() && taken[m] == i;
                assert(places@[m] == places@[k as int]);
            }
        }
        let mut at: usize = 0;
        while at < out.len() && out[at] > i
            invariant
                at <= out@.len(),
                out@ == before,
                forall|m: int| 0 <= m < at ==> #[trigger] out@[m] > i,
            decreases out@.len() - at,
        {
            at += 1;
        }
        out.insert(at, i);
        proof {
            assert(out@ == before.insert(at as int, i));
            assert forall|a: int, b: int| 0 <= a < b < out@.len() implies #[trigger] out@[a]
                > #[trigger] out@[b] by {
                if at < before.len() {
                    assert(before[at as int] != i);
                }
                let a0 = if a < at { a } else { a - 1 };
                let b0 = if b < at { b } else { b - 1 };
                if a != at {
                    assert(out@[a] == before[a0]);
                }
                if b != at {
                    assert(out@[b] == before[b0]);
                }
                if a == at {
                    assert(before[at as int] >= before[b0]);
                }
            }
            assert forall|x: usize| #[trigger] out@.contains(x) == more.contains(x) by {
                if out@.contains(x) {
                    let m = choose|m: int| 0 <= m < out@.len() && out@[m] == x;
                    if m == at {
                        assert(more[k as int] == x);
                    } else {
                        assert(before[if m < at { m } else { m - 1 }] == x);
                        assert(before.contains(x));
                        let n = choose|n: int| 0 <= n < taken.len() && taken[n] == x;
                        assert(more[n] == x);
                    }
                }
                if more.contains(x) {
                    let n = choose|n: int| 0 <= n < more.len() && more[n] == x;
                    if n == k {
                        assert(out@[at as int] == x);
                    } else {
                        assert(taken[n] == x);
                        assert(before.contains(x));
                        let m = choose|m: int| 0 <= m < before.len() && before[m] == x;
                        assert(out@[if m < at { m } else { m + 1 }] == x);
                    }
                }
            }
        }
        k += 1;
    }
    assert(places@.take(k as int) =~= places@);
    out
}

/// Puts new marks on a state.
pub fn patch_state(s: &mut State, p: Patch)
    ensures
        *final(s) == apply_patch(*old(s), p),
{
    match p.children_unsafe {
        Some(v) => {
            s.children_unsafe = v;
        },
        None => {},
    }
    match p.cleaned {
        Some(v) => {
            s.cleaned = v;
        },
        None => {},
    }
    match p.branches {
        Some(v) => {
            s.branches = v;
        },
        None => {},
    }
    match p.dfs_paths {
        Some(v) => {
            s.dfs_paths = v;
        },
        None => {},
    }
}

/// Whether a noted place is index `i` of the bucket at `pc`.
pub open spec fn at(place: (usize, usize), pc: usize, i: int) -> bool {
    place.0 == pc && place.1 == i
}

/// No two states bear the same number.
pub open spec fn distinct_ids(states: Seq<State>) -> bool {
    forall|a: int, b: int|
        0 <= a < b < states.len() && states[a].cache_id is Some ==> (#[trigger] states[a]).cache_id
            != (#[trigger] states[b]).cache_id
}

/// Whether a state from index `from` on bears a number.
pub open spec fn bears(states: Seq<State>, from: int, id: u32) -> bool {
    exists|k: int| from <= k < states.len() && (#[trigger] states[k]).cache_id == Some(id)
}

/// What a cache holds.
pub struct CacheData {
    pub explored: HashMap<usize, Vec<State>>,
    pub metrics: HashMap<usize, Vec<StateMetrics>>,
    /// Where a live state stands: its bucket and its place in it.
    pub loc_by_id: HashMap<u32, (usize, usize)>,
    /// Evicted states with the bucket they came from.
    pub retired: HashMap<u32, (usize, State)>,
    pub next_id: u32,
    pub evictions: usize,
}

impl CacheData {
    /// The states cached at `pc`, oldest first.
    pub open spec fn bucket(&self, pc: usize) -> Seq<State> {
        if self.explored@.contains_key(pc) {
            self.explored@[pc]@
        } else {
            Seq::empty()
        }
    }

    /// The scores of the states cached at `pc`.
    pub open spec fn scores(&self, pc: usize) -> Seq<StateMetrics> {
        if self.metrics@.contains_key(pc) {
            self.metrics@[pc]@
        } else {
            Seq::empty()
        }
    }

    /// Every cached state has a score, and the numbers of live and retired
    /// states lead to exactly the states that bear them.
    pub open spec fn wf(&self) -> bool {
        &&& forall|pc: usize| #[trigger] self.bucket(pc).len() == self.scores(pc).len()
        &&& forall|pc: usize, i: int|
            0 <= i < self.bucket(pc).len() ==> ((#[trigger] self.bucket(pc)[i]).cache_id matches Some(
                id,
            ) ==> self.loc_by_id@.contains_key(id) && at(self.loc_by_id@[id], pc, i))
        &&& forall|id: u32| #[trigger]
            self.loc_by_id@.contains_key(id) ==> {
                let (pc, i) = self.loc_by_id@[id];
                &&& i < self.bucket(pc).len()
                &&& self.bucket(pc)[i as int].cache_id == Some(id)
                &&& id < self.next_id
            }
        &&& forall|id: u32| #[trigger]
            self.retired@.contains_key(id) ==> {
                &&& !self.loc_by_id@.contains_key(id)
                &&& self.retired@[id].1.cache_id == Some(id)
                &&& id < self.next_id
            }
    }

    /// The state that bears a number, with its program counter: a live one
    /// where there is one, else a retired one.
    pub open spec fn resolve(&self, id: u32) -> Option<(usize, State)> {
        if self.loc_by_id@.contains_key(id) {
            let (pc, i) = self.loc_by_id@[id];
            Some((pc, self.bucket(pc)[i as int]))
        } else if self.retired@.contains_key(id) {
            Some(self.retired@[id])
        } else {
            None
        }
    }

    /// The checkpoint above the one that bears a number.
    pub open spec fn parent_of(&self, id: u32) -> Option<u32> {
        match self.resolve(id) {
            Some(e) => e.1.parent_cache_id,
            None => None,
        }
    }

    /// An empty cache.
    pub fn new() -> (r: CacheData)
        ensures
            r.wf(),
            r.explored@ == Map::<usize, Vec<State>>::empty(),
            r.metrics@ == Map::<usize, Vec<StateMetrics>>::empty(),
            r.loc_by_id@ == Map::<u32, (usize, usize)>::empty(),
            r.retired@ == Map::<u32, (usize, State)>::empty(),
            r.next_id == 0,
            r.evictions == 0,
    {
        CacheData {
            explored: HashMap::new(),
            metrics: HashMap::new(),
            loc_by_id: HashMap::new(),
            retired: HashMap::new(),
            next_id: 0,
            evictions: 0,
        }
    }

    /// How many states are cached at `pc`.
    pub fn count(&self, pc: usize) -> (r: usize)
        ensures
            r == self.bucket(pc).len(),
    {
        match self.explored.get(&pc) {
            Some(v) => v.len(),
            None => 0,
        }
    }

    /// The state that bears a number, with its program counter.
    pub fn state_by_cache_id(&self, id: u32) -> (r: Option<(usize, &State)>)
        requires
            self.wf(),
        ensures
            match r {
                Some(e) => self.resolve(id) == Some((e.0, *e.1)),
                None => self.resolve(id) is None,
            },
    {
        match self.loc_by_id.get(&id) {
            Some(loc) => {
                let (pc, i) = *loc;
                match self.explored.get(&pc) {
                    Some(v) => Some((pc, &v[i])),
                    None => None,
                }
            },
            None => match self.retired.get(&id) {
                Some(e) => Some((e.0, &e.1)),
                None => None,
            },
        }
    }

    /// The checkpoint above the one that bears a number.
    pub fn parent(&self, id: u32) -> (r: Option<u32>)
        requires
            self.wf(),
        ensures
            r == self.parent_of(id),
    {
        match self.state_by_cache_id(id) {
            Some((_, s)) => s.parent_cache_id,
            None => None,
        }
    }

    /// Notes the places of the states at `pc` from index `from` on.
    fn reindex(loc: &mut HashMap<u32, (usize, usize)>, states: &Vec<State>, pc: usize, from: usize)
        requires
            from <= states@.len(),
            distinct_ids(states@),
        ensures
            forall|id: u32|
                #![trigger final(loc)@.contains_key(id)]
                #![trigger final(loc)@[id]]
                !bears(states@, from as int, id) ==> {
                    &&& final(loc)@.contains_key(id) == old(loc)@.contains_key(id)
                    &&& final(loc)@[id] == old(loc)@[id]
                },
            forall|k: int|
                from <= k < states@.len() ==> ((#[trigger] states@[k]).cache_id matches Some(id)
                    ==> final(loc)@.contains_key(id) && at(final(loc)@[id], pc, k)),
    {
        let mut k: usize = from;
        while k < states.len()
            invariant
                from <= k <= states@.len(),
                distinct_ids(states@),
                forall|id: u32|
                    #![trigger loc@.contains_key(id)]
                    #![trigger loc@[id]]
                    !bears(states@, from as int, id) ==> {
                        &&& loc@.contains_key(id) == old(loc)@.contains_key(id)
                        &&& loc@[id] == old(loc)@[id]
                    },
                forall|q: int|
                    from <= q < k ==> ((#[trigger] states@[q]).cache_id matches Some(id)
                        ==> loc@.contains_key(id) && at(loc@[id], pc, q)),
            decreases states@.len() - k,
        {
            match states[k].cache_id {
                Some(id) => {
                    loc.insert(id, (pc, k));
                },
                None => {},
            }
            k += 1;
        }
    }

    /// What an eviction leaves is well formed, and finds every state by its
    /// number as before.
    proof fn lemma_evicted(self, before: CacheData, pc: usize, i: int)
        requires
            before.wf(),
            0 <= i < before.bucket(pc).len(),
            self.bucket(pc) == before.bucket(pc).remove(i),
            self.scores(pc) == before.scores(pc).remove(i),
            forall|q: usize|
                q != pc ==> #[trigger] self.bucket(q) == before.bucket(q) && self.scores(q)
                    == before.scores(q),
            self.next_id == before.next_id,
            before.bucket(pc)[i].cache_id is None ==> self.retired@ == before.retired@,
            before.bucket(pc)[i].cache_id matches Some(id) ==> self.retired@
                == before.retired@.insert(id, (pc, before.bucket(pc)[i])),
            forall|id: u32|
                #![trigger self.loc_by_id@.contains_key(id)]
                #![trigger self.loc_by_id@[id]]
                !bears(self.bucket(pc), i, id) ==> if before.bucket(pc)[i].cache_id == Some(id) {
                    !self.loc_by_id@.contains_key(id)
                } else {
                    &&& self.loc_by_id@.contains_key(id) == before.loc_by_id@.contains_key(id)
                    &&& self.loc_by_id@[id] == before.loc_by_id@[id]
                },
            forall|k: int|
                i <= k < self.bucket(pc).len() ==> ((#[trigger] self.bucket(pc)[k]).cache_id matches Some(
                    id,
                ) ==> self.loc_by_id@.contains_key(id) && at(self.loc_by_id@[id], pc, k)),
        ensures
            self.wf(),
            forall|id: u32| #[trigger] self.resolve(id) == before.resolve(id),
    {
        let old_b = before.bucket(pc);
        let new_b = self.bucket(pc);
        assert forall|q: usize| #[trigger] self.bucket(q).len() == self.scores(q).len() by {
            assert(before.bucket(q).len() == before.scores(q).len());
        }
        assert forall|q: usize, k: int|
            0 <= k < self.bucket(q).len() implies ((#[trigger] self.bucket(q)[k]).cache_id matches Some(
            id,
        ) ==> self.loc_by_id@.contains_key(id) && at(self.loc_by_id@[id], q, k)) by {
            if q == pc && k >= i {
            } else {
                let s = self.bucket(q)[k];
                assert(s == before.bucket(q)[k]);
                if s.cache_id is Some {
                    let id = s.cache_id->0;
                    assert(at(before.loc_by_id@[id], q, k));
                    assert(before.bucket(pc)[i].cache_id != Some(id));
                    assert(!bears(new_b, i, id)) by {
                        if bears(new_b, i, id) {
                            let m = choose|m: int|
                                i <= m < new_b.len() && (#[trigger] new_b[m]).cache_id == Some(id);
                            assert(new_b[m] == old_b[m + 1]);
                        }
                    }
                    assert(self.loc_by_id@.contains_key(id) == before.loc_by_id@.contains_key(id));
                }
            }
        }
        assert forall|id: u32| #[trigger] self.loc_by_id@.contains_key(id) implies {
            let (q, k) = self.loc_by_id@[id];
            &&& k < self.bucket(q).len()
            &&& self.bucket(q)[k as int].cache_id == Some(id)
            &&& id < self.next_id
        } by {
            if bears(new_b, i, id) {
                let m = choose|m: int|
                    i <= m < new_b.len() && (#[trigger] new_b[m]).cache_id == Some(id);
                assert(new_b[m] == old_b[m + 1]);
                assert(before.loc_by_id@.contains_key(id));
            } else {
                assert(before.loc_by_id@.contains_key(id));
                let (q, k) = before.loc_by_id@[id];
                assert(before.bucket(q)[k as int].cache_id == Some(id));
                if q == pc {
                    if k > i {
                        assert(new_b[k - 1] == old_b[k as int]);
                    }
                    assert(k < i);
                    assert(new_b[k as int] == old_b[k as int]);
                }
            }
        }
        assert forall|id: u32| #[trigger] self.retired@.contains_key(id) implies {
            &&& !self.loc_by_id@.contains_key(id)
            &&& self.retired@[id].1.cache_id == Some(id)
            &&& id < self.next_id
        } by {
            assert(!bears(new_b, i, id)) by {
                if bears(new_b, i, id) {
                    let m = choose|m: int|
                        i <= m < new_b.len() && (#[trigger] new_b[m]).cache_id == Some(id);
                    assert(new_b[m] == old_b[m + 1]);
                    assert(at(before.loc_by_id@[id], pc, m + 1));
                    assert(old_b[i].cache_id != Some(id));
                    assert(before.retired@.contains_key(id));
                }
            }
            if old_b[i].cache_id == Some(id) {
                assert(before.loc_by_id@.contains_key(id));
            } else {
                assert(before.retired@.contains_key(id));
            }
        }
        assert forall|id: u32| #[trigger] self.resolve(id) == before.resolve(id) by {
            if before.loc_by_id@.contains_key(id) {
                let (q, k) = before.loc_by_id@[id];
                assert(before.bucket(q)[k as int].cache_id == Some(id));
                if q == pc && k > i {
                    assert(new_b[k - 1] == old_b[k as int]);
                    assert(at(self.loc_by_id@[id], pc, k - 1));
                } else if q == pc && k == i {
                    assert(self.retired@.contains_key(id));
                } else {
                    if q == pc {
                        assert(new_b[k as int] == old_b[k as int]);
                    }
                    assert(self.bucket(q)[k as int].cache_id == Some(id));
                }
            } else {
                if self.loc_by_id@.contains_key(id) {
                    let (q, k) = self.loc_by_id@[id];
                    assert(self.bucket(q)[k as int].cache_id == Some(id));
                    if q == pc && k >= i {
                        assert(new_b[k as int] == old_b[k + 1]);
                    } else {
                        assert(before.bucket(q)[k as int].cache_id == Some(id));
                    }
                }
                if old_b[i].cache_id == Some(id) {
                    assert(before.loc_by_id@.contains_key(id));
                }
            }
        }
    }

    /// Evicts one state. It stays reachable by its number.
    pub fn evict(&mut self, pc: usize, i: usize)
        requires
            old(self).wf(),
            i < old(self).bucket(pc).len(),
        ensures
            final(self).wf(),
            final(self).bucket(pc) == old(self).bucket(pc).remove(i as int),
            final(self).scores(pc) == old(self).scores(pc).remove(i as int),
            forall|q: usize| q != pc ==> #[trigger] final(self).bucket(q) == old(self).bucket(q),
            forall|q: usize| q != pc ==> #[trigger] final(self).scores(q) == old(self).scores(q),
            forall|id: u32| #[trigger] final(self).resolve(id) == old(self).resolve(id),
            final(self).next_id == old(self).next_id,
            final(self).evictions == old(self).evictions,
    {
        let ghost before = *self;
        let taken = self.explored.remove(&pc);
        let scored = self.metrics.remove(&pc);
        assert(before.bucket(pc).len() == before.scores(pc).len());
        match (taken, scored) {
            (Some(mut states), Some(mut metrics)) => {
                let gone = states.remove(i);
                metrics.remove(i);
                match gone.cache_id {
                    Some(id) => {
                        self.loc_by_id.remove(&id);
                        self.retired.insert(id, (pc, gone));
                    },
                    None => {},
                }
                proof {
                    assert forall|a: int, b: int|
                        0 <= a < b < states@.len() && states@[a].cache_id is Some implies (
                    #[trigger] states@[a]).cache_id != (#[trigger] states@[b]).cache_id by {
                        let a0 = if a < i { a } else { a + 1 };
                        let b0 = if b < i { b } else { b + 1 };
                        assert(states@[a] == before.bucket(pc)[a0]);
                        assert(states@[b] == before.bucket(pc)[b0]);
                    }
                }
                Self::reindex(&mut self.loc_by_id, &states, pc, i);
                self.explored.insert(pc, states);
                self.metrics.insert(pc, metrics);
                proof {
                    assert(self.bucket(pc) =~= before.bucket(pc).remove(i as int));
                    assert(self.scores(pc) =~= before.scores(pc).remove(i as int));
                    assert forall|q: usize| q != pc implies #[trigger] self.bucket(q)
                        == before.bucket(q) && self.scores(q) == before.scores(q) by {}
                    self.lemma_evicted(before, pc, i as int);
                }
            },
            _ => {},
        }
    }

    /// Replaces the score of one state.
    pub fn set_score(&mut self, pc: usize, i: usize, score: StateMetrics)
        requires
            old(self).wf(),
            i < old(self).scores(pc).len(),
        ensures
            final(self).wf(),
            final(self).scores(pc) == old(self).scores(pc).update(i as int, score),
            forall|q: usize| q != pc ==> #[trigger] final(self).scores(q) == old(self).scores(q),
            final(self).explored == old(self).explored,
            final(self).loc_by_id == old(self).loc_by_id,
            final(self).retired == old(self).retired,
            final(self).next_id == old(self).next_id,
            final(self).evictions == old(self).evictions,
    {
        let ghost before = *self;
        match self.metrics.remove(&pc) {
            Some(mut metrics) => {
                metrics.set(i, score);
                self.metrics.insert(pc, metrics);
                proof {
                    assert(self.scores(pc) =~= before.scores(pc).update(i as int, score));
                    assert forall|q: usize| #[trigger] self.bucket(q).len() == self.scores(q).len() by {
                        assert(before.bucket(q).len() == before.scores(q).len());
                    }
                    assert forall|q: usize, k: int|
                        0 <= k < self.bucket(q).len() implies ((#[trigger] self.bucket(
                        q,
                    )[k]).cache_id matches Some(id) ==> self.loc_by_id@.contains_key(id) && at(
                        self.loc_by_id@[id],
                        q,
                        k,
                    )) by {
                        assert(self.bucket(q)[k] == before.bucket(q)[k]);
                    }
                    assert forall|id: u32| #[trigger] self.loc_by_id@.contains_key(id) implies {
                        let (q, k) = self.loc_by_id@[id];
                        &&& k < self.bucket(q).len()
                        &&& self.bucket(q)[k as int].cache_id == Some(id)
                        &&& id < self.next_id
                    } by {
                        assert(before.loc_by_id@.contains_key(id));
                        let (q, k) = self.loc_by_id@[id];
                        assert(self.bucket(q) == before.bucket(q));
                    }
                }
            },
            None => {},
        }
    }

    /// Puts new marks on the state that bears a number, live or retired.
    pub fn patch(&mut self, id: u32, p: Patch)
        requires
            old(self).wf(),
        ensures
            final(self).wf(),
            final(self).metrics == old(self).metrics,
            final(self).next_id == old(self).next_id,
            final(self).evictions == old(self).evictions,
            forall|q: usize|
                #![trigger final(self).bucket(q)]
                final(self).bucket(q).len() == old(self).bucket(q).len(),
            forall|q: usize, k: int|
                #![trigger final(self).bucket(q)[k]]
                0 <= k < final(self).bucket(q).len() ==> final(self).bucket(q)[k] == (if old(
                    self,
                ).bucket(q)[k].cache_id == Some(id) {
                    apply_patch(old(self).bucket(q)[k], p)
                } else {
                    old(self).bucket(q)[k]
                }),
            final(self).loc_by_id == old(self).loc_by_id,
            forall|other: u32|
                #[trigger] final(self).resolve(other) == (if other == id {
                    match old(self).resolve(id) {
                        Some(e) => Some((e.0, apply_patch(e.1, p))),
                        None => None,
                    }
                } else {
                    old(self).resolve(other)
                }),
    {
        let ghost before = *self;
        let place: Option<(usize, usize)> = match self.loc_by_id.get(&id) {
            Some(l) => Some(*l),
            None => None,
        };
        match place {
            Some((pc, i)) => {
                match self.explored.remove(&pc) {
                    Some(mut states) => {
                        assert(states@ == before.bucket(pc));
                        let mut s = states.remove(i);
                        patch_state(&mut s, p);
                        states.insert(i, s);
                        proof {
                            assert(states@ =~= before.bucket(pc).update(
                                i as int,
                                apply_patch(before.bucket(pc)[i as int], p),
                            ));
                        }
                        self.explored.insert(pc, states);
                        proof {
                            self.lemma_patched(before, id, p, pc, i as int);
                        }
                    },
                    None => {},
                }
            },
            None => {
                match self.retired.remove(&id) {
                    Some((pc, mut s)) => {
                        patch_state(&mut s, p);
                        self.retired.insert(id, (pc, s));
                    },
                    None => {},
                }
                proof {
                    assert forall|q: usize| #[trigger] self.bucket(q) == before.bucket(q) by {}
                    assert forall|q: usize| #[trigger] self.bucket(q).len() == self.scores(q).len() by {
                        assert(before.bucket(q).len() == before.scores(q).len());
                    }
                    assert forall|q: usize, k: int|
                        0 <= k < self.bucket(q).len() implies ((#[trigger] self.bucket(
                        q,
                    )[k]).cache_id matches Some(n) ==> self.loc_by_id@.contains_key(n) && at(
                        self.loc_by_id@[n],
                        q,
                        k,
                    )) by {
                        assert(self.bucket(q)[k] == before.bucket(q)[k]);
                    }
                    assert forall|n: u32| #[trigger] self.loc_by_id@.contains_key(n) implies {
                        let (q, k) = self.loc_by_id@[n];
                        &&& k < self.bucket(q).len()
                        &&& self.bucket(q)[k as int].cache_id == Some(n)
                        &&& n < self.next_id
                    } by {
                        let (q, k) = self.loc_by_id@[n];
                        assert(self.bucket(q) == before.bucket(q));
                    }
                    assert forall|n: u32| #[trigger] self.retired@.contains_key(n) implies {
                        &&& !self.loc_by_id@.contains_key(n)
                        &&& self.retired@[n].1.cache_id == Some(n)
                        &&& n < self.next_id
                    } by {
                        assert(before.retired@.contains_key(n));
                    }
                    assert forall|other: u32| #[trigger] self.resolve(other) == (if other == id {
                        match before.resolve(id) {
                            Some(e) => Some((e.0, apply_patch(e.1, p))),
                            None => None,
                        }
                    } else {
                        before.resolve(other)
                    }) by {
                        if self.loc_by_id@.contains_key(other) {
                            let (q, k) = self.loc_by_id@[other];
                            assert(self.bucket(q) == before.bucket(q));
                        }
                    }
                }
            },
        }
    }

    /// What new marks on a live state leave.
    proof fn lemma_patched(self, before: CacheData, id: u32, p: Patch, pc: usize, i: int)
        requires
            before.wf(),
            before.loc_by_id@.contains_key(id),
            at(before.loc_by_id@[id], pc, i),
            self.bucket(pc) == before.bucket(pc).update(i, apply_patch(before.bucket(pc)[i], p)),
            forall|q: usize| q != pc ==> #[trigger] self.bucket(q) == before.bucket(q),
            self.metrics == before.metrics,
            self.loc_by_id == before.loc_by_id,
            self.retired == before.retired,
            self.next_id == before.next_id,
        ensures
            self.wf(),
            forall|q: usize|
                #![trigger self.bucket(q)]
                self.bucket(q).len() == before.bucket(q).len(),
            forall|q: usize, k: int|
                #![trigger self.bucket(q)[k]]
                0 <= k < self.bucket(q).len() ==> self.bucket(q)[k] == (if before.bucket(
                    q,
                )[k].cache_id == Some(id) {
                    apply_patch(before.bucket(q)[k], p)
                } else {
                    before.bucket(q)[k]
                }),
            forall|other: u32|
                #[trigger] self.resolve(other) == (if other == id {
                    match before.resolve(id) {
                        Some(e) => Some((e.0, apply_patch(e.1, p))),
                        None => None,
                    }
                } else {
                    before.resolve(other)
                }),
    {
        assert(before.bucket(pc)[i].cache_id == Some(id));
        assert forall|q: usize| #![trigger self.bucket(q)] self.bucket(q).len() == before.bucket(
            q,
        ).len() by {}
        assert forall|q: usize| #[trigger] self.bucket(q).len() == self.scores(q).len() by {
            assert(before.bucket(q).len() == before.scores(q).len());
        }
        assert forall|q: usize, k: int|
            #![trigger self.bucket(q)[k]]
            0 <= k < self.bucket(q).len() implies self.bucket(q)[k] == (if before.bucket(
            q,
        )[k].cache_id == Some(id) {
            apply_patch(before.bucket(q)[k], p)
        } else {
            before.bucket(q)[k]
        }) by {
            if before.bucket(q)[k].cache_id == Some(id) {
                assert(at(before.loc_by_id@[id], q, k));
            }
        }
        assert forall|q: usize, k: int|
            0 <= k < self.bucket(q).len() implies ((#[trigger] self.bucket(q)[k]).cache_id matches Some(
            n,
        ) ==> self.loc_by_id@.contains_key(n) && at(self.loc_by_id@[n], q, k)) by {
            assert(self.bucket(q)[k].cache_id == before.bucket(q)[k].cache_id);
        }
        assert forall|n: u32| #[trigger] self.loc_by_id@.contains_key(n) implies {
            let (q, k) = self.loc_by_id@[n];
            &&& k < self.bucket(q).len()
            &&& self.bucket(q)[k as int].cache_id == Some(n)
            &&& n < self.next_id
        } by {
            let (q, k) = self.loc_by_id@[n];
            assert(before.bucket(q)[k as int].cache_id == Some(n));
            assert(self.bucket(q)[k as int].cache_id == before.bucket(q)[k as int].cache_id);
        }
        assert forall|other: u32| #[trigger] self.resolve(other) == (if other == id {
            match before.resolve(id) {
                Some(e) => Some((e.0, apply_patch(e.1, p))),
                None => None,
            }
        } else {
            before.resolve(other)
        }) by {
            if self.loc_by_id@.contains_key(other) {
                let (q, k) = self.loc_by_id@[other];
                assert(before.bucket(q)[k as int].cache_id == Some(other));
                assert(k < self.bucket(q).len());
                let x = self.bucket(q)[k as int];
            }
        }
    }

    /// The count of evictions has no part in what the cache finds.
    proof fn lemma_same_tables(self, other: CacheData)
        requires
            self.wf(),
            other.explored == self.explored,
            other.metrics == self.metrics,
            other.loc_by_id == self.loc_by_id,
            other.retired == self.retired,
            other.next_id == self.next_id,
        ensures
            other.wf(),
            forall|q: usize| #[trigger] other.bucket(q) == self.bucket(q),
            forall|q: usize| #[trigger] other.scores(q) == self.scores(q),
            forall|n: u32| #[trigger] other.resolve(n) == self.resolve(n),
    {
        assert forall|q: usize| #[trigger] other.bucket(q).len() == other.scores(q).len() by {
            assert(self.bucket(q).len() == self.scores(q).len());
        }
        assert forall|q: usize, k: int|
            0 <= k < other.bucket(q).len() implies ((#[trigger] other.bucket(q)[k]).cache_id matches Some(
            n,
        ) ==> other.loc_by_id@.contains_key(n) && at(other.loc_by_id@[n], q, k)) by {
            assert(other.bucket(q)[k] == self.bucket(q)[k]);
        }
        assert forall|n: u32| #[trigger] other.loc_by_id@.contains_key(n) implies {
            let (q, k) = other.loc_by_id@[n];
            &&& k < other.bucket(q).len()
            &&& other.bucket(q)[k as int].cache_id == Some(n)
            &&& n < other.next_id
        } by {
            let (q, k) = self.loc_by_id@[n];
            assert(self.bucket(q) == other.bucket(q));
        }
    }

    /// What caching a state leaves, before any eviction.
    proof fn lemma_recorded(self, before: CacheData, cached: State, id: u32)
        requires
            before.wf(),
            id == before.next_id,
            cached.cache_id == Some(id),
            self.bucket(cached.pc) == before.bucket(cached.pc).push(cached),
            self.scores(cached.pc) == before.scores(cached.pc).push(fresh_score()),
            forall|q: usize|
                q != cached.pc ==> #[trigger] self.bucket(q) == before.bucket(q),
            forall|q: usize|
                q != cached.pc ==> #[trigger] self.scores(q) == before.scores(q),
            self.retired == before.retired,
            before.bucket(cached.pc).len() <= usize::MAX,
            self.loc_by_id@ == before.loc_by_id@.insert(
                id,
                (cached.pc, before.bucket(cached.pc).len() as usize),
            ),
            self.next_id == id + 1,
        ensures
            self.wf(),
            forall|n: u32|
                #[trigger] self.resolve(n) == (if n == id {
                    Some((cached.pc, cached))
                } else {
                    before.resolve(n)
                }),
    {
        let pc = cached.pc;
        assert forall|q: usize| #[trigger] self.bucket(q).len() == self.scores(q).len() by {
            assert(before.bucket(q).len() == before.scores(q).len());
            assert(self.scores(q).len() >= 0);
        }
        assert forall|q: usize, k: int|
            0 <= k < self.bucket(q).len() implies ((#[trigger] self.bucket(q)[k]).cache_id matches Some(
            n,
        ) ==> self.loc_by_id@.contains_key(n) && at(self.loc_by_id@[n], q, k)) by {
            if q == pc && k == before.bucket(pc).len() {
            } else {
                assert(self.bucket(q)[k] == before.bucket(q)[k]);
                if self.bucket(q)[k].cache_id is Some {
                    assert(before.loc_by_id@.contains_key(self.bucket(q)[k].cache_id->0));
                }
            }
        }
        assert forall|n: u32| #[trigger] self.loc_by_id@.contains_key(n) implies {
            let (q, k) = self.loc_by_id@[n];
            &&& k < self.bucket(q).len()
            &&& self.bucket(q)[k as int].cache_id == Some(n)
            &&& n < self.next_id
        } by {
            if n != id {
                assert(before.loc_by_id@.contains_key(n));
                let (q, k) = before.loc_by_id@[n];
                assert(self.bucket(q)[k as int] == before.bucket(q)[k as int]);
            }
        }
        assert forall|n: u32| #[trigger] self.resolve(n) == (if n == id {
            Some((cached.pc, cached))
        } else {
            before.resolve(n)
        }) by {
            if n != id && before.loc_by_id@.contains_key(n) {
                let (q, k) = before.loc_by_id@[n];
                assert(self.bucket(q)[k as int] == before.bucket(q)[k as int]);
            }
        }
    }

    /// Caches a state as a new checkpoint, and evicts the oldest states of its
    /// bucket where there are more than `max`; zero stands for no bound. `None`
    /// where the numbers have run out, and then nothing is cached.
    pub fn record(&mut self, state: State, max: usize) -> (r: Option<u32>)
        requires
            old(self).wf(),
        ensures
            final(self).wf(),
            old(self).next_id == u32::MAX ==> r is None && *final(self) == *old(self),
            old(self).next_id < u32::MAX ==> {
                let pc = state.pc;
                let id = old(self).next_id;
                let full = old(self).bucket(pc).push(as_checkpoint(state, id));
                let scores = old(self).scores(pc).push(fresh_score());
                let gone = if 0 < max < full.len() { full.len() - max } else { 0 };
                &&& r == Some(id)
                &&& final(self).next_id == id + 1
                &&& final(self).bucket(pc) == full.skip(gone)
                &&& final(self).scores(pc) == scores.skip(gone)
                &&& forall|q: usize|
                    q != pc ==> #[trigger] final(self).bucket(q) == old(self).bucket(q)
                &&& forall|q: usize|
                    q != pc ==> #[trigger] final(self).scores(q) == old(self).scores(q)
                &&& forall|n: u32|
                    #[trigger] final(self).resolve(n) == (if n == id {
                        Some((pc, as_checkpoint(state, id)))
                    } else {
                        old(self).resolve(n)
                    })
                &&& final(self).evictions == saturated(old(self).evictions + gone)
            },
    {
        if self.next_id == u32::MAX {
            return None;
        }
        let ghost before = *self;
        let pc = state.pc;
        let id = self.next_id;
        let mut cached = state;
        cached.cache_id = Some(id);
        cached.branches = 1;
        cached.dfs_paths = 1;
        assert(cached == as_checkpoint(state, id));
        assert(before.bucket(pc).len() == before.scores(pc).len());
        let mut states = match self.explored.remove(&pc) {
            Some(v) => v,
            None => Vec::new(),
        };
        let mut metrics = match self.metrics.remove(&pc) {
            Some(v) => v,
            None => Vec::new(),
        };
        assert(states@ =~= before.bucket(pc));
        assert(metrics@ =~= before.scores(pc));
        let place: usize = states.len();
        states.push(cached);
        metrics.push(StateMetrics { hit_cnt: 0, miss_cnt: 0 });
        self.explored.insert(pc, states);
        self.metrics.insert(pc, metrics);
        self.loc_by_id.insert(id, (pc, place));
        self.next_id = id + 1;
        let ghost full = before.bucket(pc).push(cached);
        let ghost scores = before.scores(pc).push(fresh_score());
        proof {
            assert(self.bucket(pc) =~= full);
            assert(self.scores(pc) =~= scores);
            self.lemma_recorded(before, cached, id);
            assert(full.skip(0) =~= full);
            assert(scores.skip(0) =~= scores);
        }
        let ghost grown = *self;
        let ghost mut dropped: int = 0;
        while max > 0 && self.count(pc) > max
            invariant
                self.wf(),
                0 <= dropped <= full.len(),
                full.len() == scores.len(),
                self.bucket(pc) == full.skip(dropped),
                self.scores(pc) == scores.skip(dropped),
                dropped > 0 ==> 0 < max <= full.len() - dropped,
                forall|q: usize| q != pc ==> #[trigger] self.bucket(q) == before.bucket(q),
                forall|q: usize| q != pc ==> #[trigger] self.scores(q) == before.scores(q),
                forall|n: u32| #[trigger] self.resolve(n) == grown.resolve(n),
                self.next_id == grown.next_id,
                self.evictions == saturated(before.evictions + dropped),
            decreases self.bucket(pc).len(),
        {
            self.evict(pc, 0);
            proof {
                assert(full.skip(dropped).remove(0) =~= full.skip(dropped + 1));
                assert(scores.skip(dropped).remove(0) =~= scores.skip(dropped + 1));
                dropped = dropped + 1;
            }
            let ghost evicted = *self;
            self.evictions = self.evictions.saturating_add(1);
            proof {
                evicted.lemma_same_tables(*self);
            }
        }
        Some(id)
    }

    /// Evicts the states at the given places, which are listed from the last to
    /// the first. Every one stays reachable by its number.
    pub fn evict_all(&mut self, pc: usize, places: &Vec<usize>)
        requires
            old(self).wf(),
            descending(places@),
            forall|k: int|
                0 <= k < places@.len() ==> (#[trigger] places@[k]) < old(self).bucket(pc).len(),
        ensures
            final(self).wf(),
            final(self).bucket(pc) == without(old(self).bucket(pc), places@),
            final(self).scores(pc) == without(old(self).scores(pc), places@),
            forall|q: usize| q != pc ==> #[trigger] final(self).bucket(q) == old(self).bucket(q),
            forall|q: usize| q != pc ==> #[trigger] final(self).scores(q) == old(self).scores(q),
            forall|id: u32| #[trigger] final(self).resolve(id) == old(self).resolve(id),
            final(self).next_id == old(self).next_id,
            final(self).evictions == old(self).evictions,
    {
        let ghost b = self.bucket(pc);
        let ghost m = self.scores(pc);
        assert(b.len() == m.len());
        let mut k: usize = 0;
        assert(places@.skip(0) =~= places@);
        while k < places.len()
            invariant
                k <= places@.len(),
                self.wf(),
                descending(places@),
                forall|q: int|
                    k <= q < places@.len() ==> (#[trigger] places@[q]) < self.bucket(pc).len(),
                without(self.bucket(pc), places@.skip(k as int)) == without(b, places@),
                without(self.scores(pc), places@.skip(k as int)) == without(m, places@),
                forall|q: usize|
                    q != pc ==> #[trigger] self.bucket(q) == old(self).bucket(q),
                forall|q: usize|
                    q != pc ==> #[trigger] self.scores(q) == old(self).scores(q),
                forall|id: u32| #[trigger] self.resolve(id) == old(self).resolve(id),
                self.next_id == old(self).next_id,
                self.evictions == old(self).evictions,
            decreases places@.len() - k,
        {
            let i = places[k];
            let ghost b1 = self.bucket(pc);
            let ghost m1 = self.scores(pc);
            assert(b1.len() == m1.len());
            self.evict(pc, i);
            proof {
                lemma_without_first(b1, places@.skip(k as int));
                lemma_without_first(m1, places@.skip(k as int));
                assert(places@.skip(k as int).skip(1) =~= places@.skip(k + 1));
            }
            k += 1;
        }
        proof {
            lemma_without_none(self.bucket(pc), places@.skip(k as int));
            lemma_without_none(self.scores(pc), places@.skip(k as int));
        }
    }
}

/// Whether a cache differs from an earlier one in the states that bear the given
/// numbers alone, live or retired, each of which was changed in the same way.
/// Every state stands where it stood, and the scores are the same.
pub open spec fn changed_at(
    before: CacheData,
    after: CacheData,
    ids: Seq<u32>,
    change: spec_fn(State) -> State,
) -> bool {
    &&& after.metrics == before.metrics
    &&& after.loc_by_id == before.loc_by_id
    &&& after.next_id == before.next_id
    &&& after.evictions == before.evictions
    &&& forall|q: usize| #[trigger] after.bucket(q).len() == before.bucket(q).len()
    &&& forall|q: usize, k: int|
        0 <= k < after.bucket(q).len() ==> #[trigger] after.bucket(q)[k] == (
        if before.bucket(q)[k].cache_id matches Some(id) && ids.contains(id) {
            change(before.bucket(q)[k])
        } else {
            before.bucket(q)[k]
        })
    &&& forall|id: u32|
        #[trigger] after.resolve(id) == (if ids.contains(id) {
            match before.resolve(id) {
                Some(e) => Some((e.0, change(e.1))),
                None => None,
            }
        } else {
            before.resolve(id)
        })
}

/// A number leads to the cached state that bears it.
pub proof fn lemma_resolves_cached(cache: CacheData, q: usize, k: int)
    requires
        cache.wf(),
        0 <= k < cache.bucket(q).len(),
        cache.bucket(q)[k].cache_id is Some,
    ensures
        cache.resolve(cache.bucket(q)[k].cache_id->0) == Some((q, cache.bucket(q)[k])),
{
    let id = cache.bucket(q)[k].cache_id->0;
    assert(cache.loc_by_id@.contains_key(id) && at(cache.loc_by_id@[id], q, k));
}

/// A cache whose tables always agree with one another.
pub struct StateCache {
    data: CacheData,
}

impl View for StateCache {
    type V = CacheData;

    closed spec fn view(&self) -> CacheData {
        self.data
    }
}

impl StateCache {
    #[verifier::type_invariant]
    spec fn agrees(&self) -> bool {
        self.data.wf()
    }

    /// An empty cache.
    pub fn new() -> (r: StateCache)
        ensures
            r@.wf(),
            r@.explored@ == Map::<usize, Vec<State>>::empty(),
            r@.metrics@ == Map::<usize, Vec<StateMetrics>>::empty(),
            r@.loc_by_id@ == Map::<u32, (usize, usize)>::empty(),
            r@.retired@ == Map::<u32, (usize, State)>::empty(),
            r@.next_id == 0,
            r@.evictions == 0,
    {
        StateCache { data: CacheData::new() }
    }

    /// What the cache holds.
    pub fn data(&self) -> (r: &CacheData)
        ensures
            *r == self@,
            r.wf(),
    {
        proof {
            use_type_invariant(self);
        }
        &self.data
    }

    /// Hands out what the cache holds.
    pub fn into_data(self) -> (r: CacheData)
        ensures
            r == self@,
            r.wf(),
    {
        proof {
            use_type_invariant(&self);
        }
        self.data
    }

    /// The checkpoint above the one that bears a number.
    pub fn parent(&self, id: u32) -> (r: Option<u32>)
        ensures
            r == self@.parent_of(id),
    {
        self.data().parent(id)
    }

    /// Replaces the score of one state.
    pub fn set_score(&mut self, pc: usize, i: usize, score: StateMetrics)
        requires
            i < old(self)@.scores(pc).len(),
        ensures
            final(self)@.wf(),
            final(self)@.scores(pc) == old(self)@.scores(pc).update(i as int, score),
            forall|q: usize| q != pc ==> #[trigger] final(self)@.scores(q) == old(self)@.scores(q),
            final(self)@.explored == old(self)@.explored,
            final(self)@.loc_by_id == old(self)@.loc_by_id,
            final(self)@.retired == old(self)@.retired,
            final(self)@.next_id == old(self)@.next_id,
            final(self)@.evictions == old(self)@.evictions,
    {
        proof {
            use_type_invariant(&*self);
        }
        let mut data = CacheData::new();
        std::mem::swap(&mut data, &mut self.data);
        data.set_score(pc, i, score);
        self.data = data;
    }

    /// Puts new marks on the state that bears a number, live or retired.
    pub fn patch(&mut self, id: u32, p: Patch)
        ensures
            final(self)@.wf(),
            final(self)@.metrics == old(self)@.metrics,
            final(self)@.loc_by_id == old(self)@.loc_by_id,
            final(self)@.next_id == old(self)@.next_id,
            final(self)@.evictions == old(self)@.evictions,
            forall|q: usize|
                #![trigger final(self)@.bucket(q)]
                final(self)@.bucket(q).len() == old(self)@.bucket(q).len(),
            forall|q: usize, k: int|
                #![trigger final(self)@.bucket(q)[k]]
                0 <= k < final(self)@.bucket(q).len() ==> final(self)@.bucket(q)[k] == (if old(
                    self,
                )@.bucket(q)[k].cache_id == Some(id) {
                    apply_patch(old(self)@.bucket(q)[k], p)
                } else {
                    old(self)@.bucket(q)[k]
                }),
            forall|other: u32|
                #[trigger] final(self)@.resolve(other) == (if other == id {
                    match old(self)@.resolve(id) {
                        Some(e) => Some((e.0, apply_patch(e.1, p))),
                        None => None,
                    }
                } else {
                    old(self)@.resolve(other)
                }),
    {
        proof {
            use_type_invariant(&*self);
        }
        let mut data = CacheData::new();
        std::mem::swap(&mut data, &mut self.data);
        data.patch(id, p);
        self.data = data;
    }

    /// Caches a state as a new checkpoint, among at most `max` states at its place;
    /// zero stands for no bound. `None` where the numbers have run out.
    pub fn record(&mut self, state: State, max: usize) -> (r: Option<u32>)
        ensures
            final(self)@.wf(),
            old(self)@.next_id == u32::MAX ==> r is None && final(self)@ == old(self)@,
            old(self)@.next_id < u32::MAX ==> {
                let pc = state.pc;
                let id = old(self)@.next_id;
                let full = old(self)@.bucket(pc).push(as_checkpoint(state, id));
                let scores = old(self)@.scores(pc).push(fresh_score());
                let gone = if 0 < max < full.len() { full.len() - max } else { 0 };
                &&& r == Some(id)
                &&& final(self)@.next_id == id + 1
                &&& final(self)@.bucket(pc) == full.skip(gone)
                &&& final(self)@.scores(pc) == scores.skip(gone)
                &&& forall|q: usize|
                    q != pc ==> #[trigger] final(self)@.bucket(q) == old(self)@.bucket(q)
                &&& forall|q: usize|
                    q != pc ==> #[trigger] final(self)@.scores(q) == old(self)@.scores(q)
                &&& forall|n: u32|
                    #[trigger] final(self)@.resolve(n) == (if n == id {
                        Some((pc, as_checkpoint(state, id)))
                    } else {
                        old(self)@.resolve(n)
                    })
                &&& final(self)@.evictions == saturated(old(self)@.evictions + gone)
            },
    {
        proof {
            use_type_invariant(&*self);
        }
        let mut data = CacheData::new();
        std::mem::swap(&mut data, &mut self.data);
        let r = data.record(state, max);
        self.data = data;
        r
    }

    /// Evicts the states at the given places, which are listed from the last to
    /// the first. Every one stays reachable by its number.
    pub fn evict_all(&mut self, pc: usize, places: &Vec<usize>)
        requires
            descending(places@),
            forall|k: int|
                0 <= k < places@.len() ==> (#[trigger] places@[k]) < old(self)@.bucket(pc).len(),
        ensures
            final(self)@.wf(),
            final(self)@.bucket(pc) == without(old(self)@.bucket(pc), places@),
            final(self)@.scores(pc) == without(old(self)@.scores(pc), places@),
            forall|q: usize| q != pc ==> #[trigger] final(self)@.bucket(q) == old(self)@.bucket(q),
            forall|q: usize| q != pc ==> #[trigger] final(self)@.scores(q) == old(self)@.scores(q),
            forall|id: u32| #[trigger] final(self)@.resolve(id) == old(self)@.resolve(id),
            final(self)@.next_id == old(self)@.next_id,
            final(self)@.evictions == old(self)@.evictions,
    {
        proof {
            use_type_invariant(&*self);
        }
        let mut data = CacheData::new();
        std::mem::swap(&mut data, &mut self.data);
        data.evict_all(pc, places);
        self.data = data;
    }
}

}
