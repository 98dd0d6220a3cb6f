//! Two scans by an engine that is decided by what it is given: where they start
//! alike, they end alike.

use vstd::prelude::*;

use crate::ast::Program;
use crate::behaviour::{
    by_contents, lemma_same_cleaned, lemma_same_early, lemma_same_masks, Behaviour,
};
use crate::cache::{descending, without, CacheData, StateCache};
use crate::contents::{
    cache_content, entry_view_of, env_content, history_content, lemma_cache_read, lemma_env_read,
    lemma_same_cache, lemma_same_callsites, lemma_same_env, state_views,
};
use crate::engine::{Engine, LoopFacts, SubsumptionQuery};
use crate::env::{Breadcrumb, VerifierEnv};
use crate::machine::{State, StateView, VerificationError};
use crate::pruning::{
    active, adds_checkpoint, after_misses, answers, arrival_decided, callsites, clean_candidates,
    close_loop, counted_miss, covers, decide_by_candidates, decided_early, deferred_in_loop,
    eligible, evicted_places, evicts, follow_hit, forces_checkpoint, handle_loop_pruning,
    handle_standard_pruning, hit_counted, masks_of, may_reply, scan_by_place, scan_found,
    settle_arrival, should_prune, suppressed_in_loop, visible, Early, ScanOutcome,
};

verus! {


// ---------------------------------------------------------------------------
// Scans
// ---------------------------------------------------------------------------

/// Whether a candidate covers an arrival is decided.
pub(crate) proof fn lemma_same_reply<E: Engine>(
    b: Behaviour<E>,
    engine: E,
    v1: VerifierEnv,
    v2: VerifierEnv,
    s1: State,
    s2: State,
    k1: State,
    k2: State,
    exact: bool,
)
    requires
        by_contents(b),
        env_content(v1) == env_content(v2),
        s1@ == s2@,
        k1@ == k2@,
        may_reply(engine, v1, s1, k1, exact, true),
    ensures
        !may_reply(engine, v2, s2, k2, exact, false),
{
    reveal(by_contents);
    reveal(env_content);
    let (m1, q1) = choose|marks: bool, q: SubsumptionQuery|
        {
            &&& #[trigger] call_ensures(E::incomplete_read_marks, (&engine, &v1, &k1), marks)
            &&& q.force_exact == (exact || marks)
            &&& masks_of(v1, s1, s1.pc, q.live_regs, q.frame_live_regs@)
            &&& #[trigger] call_ensures(E::subsumed, (&engine, &s1, &k1, &q), true)
        };
    if may_reply(engine, v2, s2, k2, exact, false) {
        let (m2, q2) = choose|marks: bool, q: SubsumptionQuery|
            {
                &&& #[trigger] call_ensures(E::incomplete_read_marks, (&engine, &v2, &k2), marks)
                &&& q.force_exact == (exact || marks)
                &&& masks_of(v2, s2, s2.pc, q.live_regs, q.frame_live_regs@)
                &&& #[trigger] call_ensures(E::subsumed, (&engine, &s2, &k2, &q), false)
            };
        assert(m1 == m2);
        lemma_same_masks(v1, v2, s1, s2, q1, q2);
    }
}

pub(crate) proof fn lemma_same_candidates(c1: Seq<State>, c2: Seq<State>, s1: State, s2: State)
    requires
        c1.len() == c2.len(),
        forall|i: int| 0 <= i < c1.len() ==> (#[trigger] c1[i])@ == c2[i]@,
        s1@ == s2@,
    ensures
        forall|i: int| #[trigger] visible(c1, s1, i) == visible(c2, s2, i),
        forall|i: int| #[trigger] eligible(c1, s1, i) == eligible(c2, s2, i),
        forall|i: int| #[trigger] active(c1, s1, i) == active(c2, s2, i),
{
    lemma_same_callsites(s1, s2);
    assert forall|i: int| 0 <= i < c1.len() implies callsites(#[trigger] c1[i]) == callsites(c2[i])
        && c1[i].children_unsafe == c2[i].children_unsafe && c1[i].branches == c2[i].branches by {
        lemma_same_callsites(c1[i], c2[i]);
        assert(c1[i]@.children_unsafe == c2[i]@.children_unsafe);
        assert(c1[i]@.branches == c2[i]@.branches);
    }
    assert forall|i: int| #[trigger] visible(c1, s1, i) == visible(c2, s2, i) by {
        if 0 <= i < c1.len() {
            let x = c1[i];
        }
    }
    assert forall|i: int| #[trigger] eligible(c1, s1, i) == eligible(c2, s2, i) by {
        if 0 <= i < c1.len() {
            let x = c1[i];
        }
    }
    assert forall|i: int| #[trigger] active(c1, s1, i) == active(c2, s2, i) by {
        if 0 <= i < c1.len() {
            let x = c1[i];
        }
    }
}

/// A second scan finds a hit at least as new as the first.
pub(crate) proof fn lemma_hit_as_new<E: Engine>(
    b: Behaviour<E>,
    engine: E,
    v1: VerifierEnv,
    v2: VerifierEnv,
    s1: State,
    s2: State,
    exact: bool,
    add: bool,
    suppress: bool,
    sub1: Seq<bool>,
    sub2: Seq<bool>,
    out1: ScanOutcome,
    out2: ScanOutcome,
)
    requires
        by_contents(b),
        env_content(v1) == env_content(v2),
        s1@ == s2@,
        answers(engine, v1, s1, exact, sub1),
        answers(engine, v2, s2, exact, sub2),
        scan_found(v1.cache@.bucket(s1.pc), s1, add, suppress, sub1, out1),
        scan_found(v2.cache@.bucket(s2.pc), s2, add, suppress, sub2, out2),
    ensures
        out1.hit matches Some(h1) ==> (out2.hit matches Some(h2) && h1 <= h2),
{
    reveal(by_contents);
    reveal(env_content);
    assert(s1@.pc == s2@.pc);
    lemma_cache_read(v1.cache@, v2.cache@);
    let c1 = v1.cache@.bucket(s1.pc);
    let c2 = v2.cache@.bucket(s2.pc);
    lemma_same_candidates(c1, c2, s1, s2);
    match out1.hit {
        Some(h1) => {
            let h = h1 as int;
            assert(covers(c1, s1, sub1, h));
            assert(c1[h]@ == c2[h]@);
            assert(sub1[h]);
            lemma_same_reply(b, engine, v1, v2, s1, s2, c1[h], c2[h], exact);
            assert(eligible(c2, s2, h));
            let newer = out2.hit matches Some(h2) && h1 <= h2;
            if !newer {
                assert(!covers(c2, s2, sub2, h));
                assert forall|j: int| h < j < c2.len() implies !#[trigger] sub2[j] by {
                    if sub2[j] {
                        assert(eligible(c2, s2, j));
                        assert(covers(c2, s2, sub2, j));
                    }
                }
                assert(may_reply(engine, v2, s2, c2[h], exact, false));
            }
        },
        None => {},
    }
}

/// Places that are listed from the last to the first are listed in one way only.
pub(crate) proof fn lemma_one_descent(x: Seq<usize>, y: Seq<usize>)
    requires
        descending(x),
        descending(y),
        forall|i: usize| #[trigger] x.contains(i) == y.contains(i),
    ensures
        x == y,
    decreases x.len(),
{
    if x.len() == 0 {
        if y.len() > 0 {
            assert(y.contains(y[0]));
            assert(x.contains(y[0]));
        }
        assert(x =~= y);
    } else {
        assert(x.contains(x[0]));
        let k = choose|k: int| 0 <= k < y.len() && y[k] == x[0];
        assert(y.contains(y[0]));
        assert(x.contains(y[0]));
        let m = choose|m: int| 0 <= m < x.len() && x[m] == y[0];
        assert(x[0] == y[0]);
        let tx = x.skip(1);
        let ty = y.skip(1);
        assert forall|i: usize| #[trigger] tx.contains(i) == ty.contains(i) by {
            if tx.contains(i) {
                let p = choose|p: int| 0 <= p < tx.len() && tx[p] == i;
                assert(x[p + 1] == i && x[0] > x[p + 1]);
                assert(x.contains(i));
                let r = choose|r: int| 0 <= r < y.len() && y[r] == i;
                assert(ty[r - 1] == i);
            }
            if ty.contains(i) {
                let p = choose|p: int| 0 <= p < ty.len() && ty[p] == i;
                assert(y[p + 1] == i && y[0] > y[p + 1]);
                assert(y.contains(i));
                assert(x.contains(i));
                let r = choose|r: int| 0 <= r < x.len() && x[r] == i;
                assert(tx[r - 1] == i);
            }
        }
        lemma_one_descent(tx, ty);
        assert(x =~= seq![x[0]] + tx);
        assert(y =~= seq![y[0]] + ty);
    }
}

pub(crate) proof fn lemma_same_scan<E: Engine>(
    b: Behaviour<E>,
    engine: E,
    v1: VerifierEnv,
    v2: VerifierEnv,
    s1: State,
    s2: State,
    exact: bool,
    add: bool,
    suppress: bool,
    sub1: Seq<bool>,
    sub2: Seq<bool>,
    out1: ScanOutcome,
    out2: ScanOutcome,
)
    requires
        by_contents(b),
        env_content(v1) == env_content(v2),
        s1@ == s2@,
        answers(engine, v1, s1, exact, sub1),
        answers(engine, v2, s2, exact, sub2),
        scan_found(v1.cache@.bucket(s1.pc), s1, add, suppress, sub1, out1),
        scan_found(v2.cache@.bucket(s2.pc), s2, add, suppress, sub2, out2),
    ensures
        out1.hit == out2.hit,
        out1.misses@ == out2.misses@,
        out1.saw_active == out2.saw_active,
{
    reveal(by_contents);
    reveal(env_content);
    assert(s1@.pc == s2@.pc);
    lemma_hit_as_new(b, engine, v1, v2, s1, s2, exact, add, suppress, sub1, sub2, out1, out2);
    lemma_hit_as_new(b, engine, v2, v1, s2, s1, exact, add, suppress, sub2, sub1, out2, out1);
    lemma_cache_read(v1.cache@, v2.cache@);
    let c1 = v1.cache@.bucket(s1.pc);
    let c2 = v2.cache@.bucket(s2.pc);
    lemma_same_candidates(c1, c2, s1, s2);
    let hit = out1.hit;
    assert forall|i: int| #[trigger] counted_miss(c1, s1, add, suppress, hit, i) == counted_miss(
        c2,
        s2,
        add,
        suppress,
        hit,
        i,
    ) by {
        assert(visible(c1, s1, i) == visible(c2, s2, i));
        if exists|j: int| i <= j && #[trigger] active(c1, s1, j) {
            let j = choose|j: int| i <= j && #[trigger] active(c1, s1, j);
            assert(active(c2, s2, j));
        }
        if exists|j: int| i <= j && #[trigger] active(c2, s2, j) {
            let j = choose|j: int| i <= j && #[trigger] active(c2, s2, j);
            assert(active(c1, s1, j));
        }
    }
    assert forall|i: usize| #[trigger] out1.misses@.contains(i) == out2.misses@.contains(i) by {
        assert(counted_miss(c1, s1, add, suppress, hit, i as int) == counted_miss(
            c2,
            s2,
            add,
            suppress,
            hit,
            i as int,
        ));
    }
    lemma_one_descent(out1.misses@, out2.misses@);
    if out1.saw_active {
        let j = choose|j: int| #[trigger]
            active(c1, s1, j) && (out1.hit matches Some(h) ==> h < j);
        assert(active(c2, s2, j));
    }
    if out2.saw_active {
        let j = choose|j: int| #[trigger]
            active(c2, s2, j) && (out2.hit matches Some(h) ==> h < j);
        assert(active(c1, s1, j));
    }
}

// ---------------------------------------------------------------------------
// Scores
// ---------------------------------------------------------------------------

pub(crate) proof fn lemma_views_without(s: Seq<State>, places: Seq<usize>)
    ensures
        state_views(without(s, places)) == without(state_views(s), places),
    decreases s.len(),
{
    if s.len() > 0 {
        lemma_views_without(s.drop_last(), places);
        assert(state_views(s).drop_last() =~= state_views(s.drop_last()));
        assert(state_views(s).last() == s.last()@);
        let rest = without(s.drop_last(), places);
        assert(state_views(rest.push(s.last())) =~= state_views(rest).push(s.last()@));
    } else {
        assert(state_views(s) =~= Seq::<StateView>::empty());
    }
}

pub(crate) proof fn lemma_filter_alike(
    s: Seq<usize>,
    p: spec_fn(usize) -> bool,
    q: spec_fn(usize) -> bool,
)
    requires
        forall|i: usize| #[trigger] s.contains(i) ==> p(i) == q(i),
    ensures
        s.filter(p) == s.filter(q),
    decreases s.len(),
{
    reveal(Seq::filter);
    if s.len() > 0 {
        let rest = s.drop_last();
        assert forall|i: usize| #[trigger] rest.contains(i) implies p(i) == q(i) by {
            let k = choose|k: int| 0 <= k < rest.len() && rest[k] == i;
            assert(s[k] == i);
            assert(s.contains(i));
        }
        lemma_filter_alike(rest, p, q);
        assert(s[s.len() - 1] == s.last());
        assert(s.contains(s.last()));
    }
}

pub(crate) proof fn lemma_same_missed(
    before1: CacheData,
    after1: CacheData,
    before2: CacheData,
    after2: CacheData,
    pc: usize,
    force: bool,
    misses: Seq<usize>,
)
    requires
        cache_content(before1) == cache_content(before2),
        after_misses(before1, after1, pc, force, misses),
        after_misses(before2, after2, pc, force, misses),
    ensures
        cache_content(after1) == cache_content(after2),
{
    lemma_cache_read(before1, before2);
    let p1 = |i: usize| evicts(before1, pc, force, i);
    let p2 = |i: usize| evicts(before2, pc, force, i);
    assert(before1.scores(pc) == before2.scores(pc));
    assert(before1.bucket(pc).len() == before2.bucket(pc).len());
    assert forall|i: usize| #[trigger] misses.contains(i) implies p1(i) == p2(i) by {
        if i < before1.bucket(pc).len() {
            assert(before1.bucket(pc)[i as int]@ == before2.bucket(pc)[i as int]@);
            assert(before1.bucket(pc)[i as int]@.branches == before2.bucket(
                pc,
            )[i as int]@.branches);
        }
    }
    lemma_filter_alike(misses, p1, p2);
    let gone = evicted_places(before1, pc, force, misses);
    assert(gone == evicted_places(before2, pc, force, misses));
    lemma_views_without(before1.bucket(pc), gone);
    lemma_views_without(before2.bucket(pc), gone);
    assert forall|q: usize| #[trigger] state_views(after1.bucket(q)) == state_views(
        after2.bucket(q),
    ) by {
        assert(state_views(before1.bucket(q)) == state_views(before2.bucket(q)));
        if q != pc {
            assert(after1.bucket(q) == before1.bucket(q));
            assert(after2.bucket(q) == before2.bucket(q));
        }
    }
    assert forall|q: usize| #[trigger] after1.scores(q) == after2.scores(q) by {
        assert(before1.scores(q) == before2.scores(q));
        if q != pc {
            assert(after2.scores(q) == before2.scores(q));
        }
    }
    assert forall|id: u32| #[trigger] entry_view_of(after1.resolve(id)) == entry_view_of(
        after2.resolve(id),
    ) by {
        assert(after1.resolve(id) == before1.resolve(id));
        assert(after2.resolve(id) == before2.resolve(id));
        assert(entry_view_of(before1.resolve(id)) == entry_view_of(before2.resolve(id)));
    }
    lemma_same_cache(after1, after2);
}

pub(crate) proof fn lemma_same_scored(
    before1: VerifierEnv,
    after1: VerifierEnv,
    before2: VerifierEnv,
    after2: VerifierEnv,
    pc: usize,
    idx: usize,
)
    requires
        env_content(before1) == env_content(before2),
        hit_counted(before1, after1, pc, idx),
        hit_counted(before2, after2, pc, idx),
    ensures
        env_content(after1) == env_content(after2),
{
    reveal(env_content);
    let b1 = before1.cache@;
    let b2 = before2.cache@;
    let a1 = after1.cache@;
    let a2 = after2.cache@;
    lemma_cache_read(b1, b2);
    assert forall|q: usize| #[trigger] state_views(a1.bucket(q)) == state_views(a2.bucket(q)) by {
        assert(a1.bucket(q) == b1.bucket(q));
        assert(a2.bucket(q) == b2.bucket(q));
        assert(state_views(b1.bucket(q)) == state_views(b2.bucket(q)));
    }
    assert forall|q: usize| #[trigger] a1.scores(q) == a2.scores(q) by {
        assert(b1.scores(q) == b2.scores(q));
        if q != pc {
            assert(a2.scores(q) == b2.scores(q));
        }
    }
    assert forall|id: u32| #[trigger] entry_view_of(a1.resolve(id)) == entry_view_of(
        a2.resolve(id),
    ) by {
        assert(a1.resolve(id) == b1.resolve(id)) by {
            if b1.loc_by_id@.contains_key(id) {
                let (q, i) = b1.loc_by_id@[id];
                assert(a1.bucket(q) == b1.bucket(q));
            }
        }
        assert(a2.resolve(id) == b2.resolve(id)) by {
            if b2.loc_by_id@.contains_key(id) {
                let (q, i) = b2.loc_by_id@[id];
                assert(a2.bucket(q) == b2.bucket(q));
            }
        }
        assert(entry_view_of(b1.resolve(id)) == entry_view_of(b2.resolve(id)));
    }
    lemma_same_cache(a1, a2);
}

pub(crate) proof fn lemma_same_loop_closed<E: Engine>(
    b: Behaviour<E>,
    e1: &mut E,
    v1: &mut VerifierEnv,
    e2: &mut E,
    v2: &mut VerifierEnv,
    s1: State,
    s2: State,
    k1: State,
    k2: State,
)
    requires
        by_contents(b),
        forall|e: &mut E, c: &mut StateCache, s: &State, id: u32, pc: usize| #[trigger]
            call_ensures(E::add_backedge, (e, c, s, id, pc), ()) ==> {
                let after = (b.backedge)(*e, cache_content((*c)@), s@, id, pc);
                *final(e) == after.0 && cache_content((*final(c))@) == after.1
            },
        call_ensures(close_loop::<E>, (e1, v1, &s1, &k1), ()),
        call_ensures(close_loop::<E>, (e2, v2, &s2, &k2), ()),
        *e1 == *e2,
        env_content(*v1) == env_content(*v2),
        s1@ == s2@,
        k1@ == k2@,
    ensures
        *final(e1) == *final(e2),
        env_content(*final(v1)) == env_content(*final(v2)),
{
    reveal(by_contents);
    reveal(env_content);
    assert(s1@.pc == s2@.pc && k1@.cache_id == k2@.cache_id);
    let o1 = choose|open: bool|
        {
            &&& #[trigger] call_ensures(E::incomplete_read_marks, (&*e1, &*v1, &k1), open)
            &&& if open && k1.cache_id is Some {
                exists|e: &mut E, c: &mut StateCache|
                    {
                        &&& #[trigger] call_ensures(
                            E::add_backedge,
                            (e, c, &s1, k1.cache_id->0, s1.pc),
                            (),
                        )
                        &&& *e == *e1
                        &&& *c == (*v1).cache
                        &&& *final(e1) == *final(e)
                        &&& final(v1).cache == *final(c)
                    }
            } else {
                *final(e1) == *e1 && *final(v1) == *v1
            }
        };
    let o2 = choose|open: bool|
        {
            &&& #[trigger] call_ensures(E::incomplete_read_marks, (&*e2, &*v2, &k2), open)
            &&& if open && k2.cache_id is Some {
                exists|e: &mut E, c: &mut StateCache|
                    {
                        &&& #[trigger] call_ensures(
                            E::add_backedge,
                            (e, c, &s2, k2.cache_id->0, s2.pc),
                            (),
                        )
                        &&& *e == *e2
                        &&& *c == (*v2).cache
                        &&& *final(e2) == *final(e)
                        &&& final(v2).cache == *final(c)
                    }
            } else {
                *final(e2) == *e2 && *final(v2) == *v2
            }
        };
    assert(o1 == o2);
}

pub(crate) proof fn lemma_same_hit_followed<E: Engine>(
    b: Behaviour<E>,
    e1: &mut E,
    v1: &mut VerifierEnv,
    e2: &mut E,
    v2: &mut VerifierEnv,
    s1: State,
    s2: State,
    idx: usize,
    closes_loops: bool,
)
    requires
        by_contents(b),
        forall|e: &mut E, c: &mut StateCache, h: &Vec<Breadcrumb>, s: &State, k: &State| #[trigger]
            call_ensures(E::propagate_precision, (e, c, h, s, k), ()) ==> {
                let after = (b.precision)(
                    *e,
                    cache_content((*c)@),
                    history_content(h@),
                    s@,
                    k@,
                );
                *final(e) == after.0 && cache_content((*final(c))@) == after.1
            },
        forall|e: &mut E, c: &mut StateCache, s: &State, id: u32, pc: usize| #[trigger]
            call_ensures(E::add_backedge, (e, c, s, id, pc), ()) ==> {
                let after = (b.backedge)(*e, cache_content((*c)@), s@, id, pc);
                *final(e) == after.0 && cache_content((*final(c))@) == after.1
            },
        call_ensures(follow_hit::<E>, (e1, v1, &s1, idx, closes_loops), ()),
        call_ensures(follow_hit::<E>, (e2, v2, &s2, idx, closes_loops), ()),
        *e1 == *e2,
        env_content(*v1) == env_content(*v2),
        s1@ == s2@,
        idx < (*v1).cache@.bucket(s1.pc).len(),
    ensures
        *final(e1) == *final(e2),
        env_content(*final(v1)) == env_content(*final(v2)),
{
    reveal(by_contents);
    reveal(env_content);
    let pc = s1.pc;
    assert(s1@.pc == s2@.pc);
    lemma_cache_read((*v1).cache@, (*v2).cache@);
    assert((*v1).cache@.bucket(pc)[idx as int]@ == (*v2).cache@.bucket(pc)[idx as int]@);
    let (scored1, k1, p1, c1) = choose|
        scored: VerifierEnv,
        cached: State,
        e: &mut E,
        c: &mut StateCache,
    |
        {
            &&& #[trigger] hit_counted(*v1, scored, s1.pc, idx)
            &&& cached@ == (*v1).cache@.bucket(s1.pc)[idx as int]@
            &&& #[trigger] call_ensures(
                E::propagate_precision,
                (e, c, &(*v1).history, &s1, &cached),
                (),
            )
            &&& *e == *e1
            &&& *c == scored.cache
            &&& if closes_loops {
                exists|l: &mut E, w: &mut VerifierEnv|
                    {
                        &&& #[trigger] call_ensures(close_loop::<E>, (l, w, &s1, &cached), ())
                        &&& *l == *final(e)
                        &&& *w == (VerifierEnv { cache: *final(c), ..scored })
                        &&& *final(e1) == *final(l)
                        &&& *final(v1) == *final(w)
                    }
            } else {
                &&& *final(e1) == *final(e)
                &&& *final(v1) == (VerifierEnv { cache: *final(c), ..scored })
            }
        };
    let (scored2, k2, p2, c2) = choose|
        scored: VerifierEnv,
        cached: State,
        e: &mut E,
        c: &mut StateCache,
    |
        {
            &&& #[trigger] hit_counted(*v2, scored, s2.pc, idx)
            &&& cached@ == (*v2).cache@.bucket(s2.pc)[idx as int]@
            &&& #[trigger] call_ensures(
                E::propagate_precision,
                (e, c, &(*v2).history, &s2, &cached),
                (),
            )
            &&& *e == *e2
            &&& *c == scored.cache
            &&& if closes_loops {
                exists|l: &mut E, w: &mut VerifierEnv|
                    {
                        &&& #[trigger] call_ensures(close_loop::<E>, (l, w, &s2, &cached), ())
                        &&& *l == *final(e)
                        &&& *w == (VerifierEnv { cache: *final(c), ..scored })
                        &&& *final(e2) == *final(l)
                        &&& *final(v2) == *final(w)
                    }
            } else {
                &&& *final(e2) == *final(e)
                &&& *final(v2) == (VerifierEnv { cache: *final(c), ..scored })
            }
        };
    lemma_same_scored(*v1, scored1, *v2, scored2, pc, idx);
    assert(k1@ == k2@);
    assert(*final(p1) == *final(p2));
    assert(cache_content((*final(c1))@) == cache_content((*final(c2))@));
    if closes_loops {
        let (l1, w1) = choose|l: &mut E, w: &mut VerifierEnv|
            {
                &&& #[trigger] call_ensures(close_loop::<E>, (l, w, &s1, &k1), ())
                &&& *l == *final(p1)
                &&& *w == (VerifierEnv { cache: *final(c1), ..scored1 })
                &&& *final(e1) == *final(l)
                &&& *final(v1) == *final(w)
            };
        let (l2, w2) = choose|l: &mut E, w: &mut VerifierEnv|
            {
                &&& #[trigger] call_ensures(close_loop::<E>, (l, w, &s2, &k2), ())
                &&& *l == *final(p2)
                &&& *w == (VerifierEnv { cache: *final(c2), ..scored2 })
                &&& *final(e2) == *final(l)
                &&& *final(v2) == *final(w)
            };
        lemma_same_loop_closed(b, l1, w1, l2, w2, s1, s2, k1, k2);
    }
}

// ---------------------------------------------------------------------------
// Arrivals at prune points
// ---------------------------------------------------------------------------

pub(crate) proof fn lemma_same_gates(v1: VerifierEnv, v2: VerifierEnv, s1: State, s2: State)
    requires
        env_content(v1) == env_content(v2),
        s1@ == s2@,
    ensures
        s1.pc == s2.pc,
        forces_checkpoint(v1, s1, s1.pc) == forces_checkpoint(v2, s2, s2.pc),
        adds_checkpoint(v1, s1, s1.pc) == adds_checkpoint(v2, s2, s2.pc),
        suppressed_in_loop(v1, s1, s1.pc) == suppressed_in_loop(v2, s2, s2.pc),
        v1.spec_force_checkpoint(s1.pc) == v2.spec_force_checkpoint(s2.pc),
{
    reveal(env_content);
    assert(s1@.pc == s2@.pc && s1@.jmp_history_cnt == s2@.jmp_history_cnt);
}

pub(crate) proof fn lemma_same_settled<E: Engine>(
    b: Behaviour<E>,
    e1: &mut E,
    v1: &mut VerifierEnv,
    e2: &mut E,
    v2: &mut VerifierEnv,
    s1: State,
    s2: State,
    live1: [bool; 11],
    live2: [bool; 11],
    masks1: Vec<Option<[bool; 11]>>,
    masks2: Vec<Option<[bool; 11]>>,
    exact: bool,
    closes_loops: bool,
    pruned1: bool,
    pruned2: bool,
)
    requires
        by_contents(b),
        forall|e: &mut E, c: &mut StateCache, h: &Vec<Breadcrumb>, s: &State, k: &State| #[trigger]
            call_ensures(E::propagate_precision, (e, c, h, s, k), ()) ==> {
                let after = (b.precision)(
                    *e,
                    cache_content((*c)@),
                    history_content(h@),
                    s@,
                    k@,
                );
                *final(e) == after.0 && cache_content((*final(c))@) == after.1
            },
        forall|e: &mut E, c: &mut StateCache, s: &State, id: u32, pc: usize| #[trigger]
            call_ensures(E::add_backedge, (e, c, s, id, pc), ()) ==> {
                let after = (b.backedge)(*e, cache_content((*c)@), s@, id, pc);
                *final(e) == after.0 && cache_content((*final(c))@) == after.1
            },
        call_ensures(
            settle_arrival::<E>,
            (e1, v1, &s1, live1, &masks1, exact, closes_loops),
            pruned1,
        ),
        call_ensures(
            settle_arrival::<E>,
            (e2, v2, &s2, live2, &masks2, exact, closes_loops),
            pruned2,
        ),
        *e1 == *e2,
        env_content(*v1) == env_content(*v2),
        s1@ == s2@,
    ensures
        pruned1 == pruned2,
        *final(e1) == *final(e2),
        env_content(*final(v1)) == env_content(*final(v2)),
{
    reveal(by_contents);
    reveal(env_content);
    let pc = s1.pc;
    lemma_same_gates(*v1, *v2, s1, s2);
    let (sub1, out1) = choose|subsumes: Seq<bool>, out: ScanOutcome|
        {
            &&& #[trigger] arrival_decided(
                *e1,
                *v1,
                *final(v1),
                s1,
                exact,
                pruned1,
                subsumes,
                out,
            )
            &&& match out.hit {
                None => *final(e1) == *e1,
                Some(idx) => exists|e: &mut E, v: &mut VerifierEnv|
                    {
                        &&& #[trigger] call_ensures(
                            follow_hit::<E>,
                            (e, v, &s1, idx, closes_loops),
                            (),
                        )
                        &&& *e == *e1
                        &&& *v == (VerifierEnv {
                            saw_active_state_at_check: final(v1).saw_active_state_at_check,
                            ..*v1
                        })
                        &&& *final(e1) == *final(e)
                        &&& after_misses(
                            final(v).cache@,
                            final(v1).cache@,
                            s1.pc,
                            (*v1).spec_force_checkpoint(s1.pc),
                            out.misses@,
                        )
                    },
            }
        };
    let (sub2, out2) = choose|subsumes: Seq<bool>, out: ScanOutcome|
        {
            &&& #[trigger] arrival_decided(
                *e2,
                *v2,
                *final(v2),
                s2,
                exact,
                pruned2,
                subsumes,
                out,
            )
            &&& match out.hit {
                None => *final(e2) == *e2,
                Some(idx) => exists|e: &mut E, v: &mut VerifierEnv|
                    {
                        &&& #[trigger] call_ensures(
                            follow_hit::<E>,
                            (e, v, &s2, idx, closes_loops),
                            (),
                        )
                        &&& *e == *e2
                        &&& *v == (VerifierEnv {
                            saw_active_state_at_check: final(v2).saw_active_state_at_check,
                            ..*v2
                        })
                        &&& *final(e2) == *final(e)
                        &&& after_misses(
                            final(v).cache@,
                            final(v2).cache@,
                            s2.pc,
                            (*v2).spec_force_checkpoint(s2.pc),
                            out.misses@,
                        )
                    },
            }
        };
    lemma_same_scan(
        b,
        *e1,
        *v1,
        *v2,
        s1,
        s2,
        exact,
        adds_checkpoint(*v1, s1, pc),
        suppressed_in_loop(*v1, s1, pc),
        sub1,
        sub2,
        out1,
        out2,
    );
    let force = (*v1).spec_force_checkpoint(pc);
    match out1.hit {
        None => {
            lemma_same_missed(
                (*v1).cache@,
                final(v1).cache@,
                (*v2).cache@,
                final(v2).cache@,
                pc,
                force,
                out1.misses@,
            );
        },
        Some(idx) => {
            let (x1, w1) = choose|e: &mut E, v: &mut VerifierEnv|
                {
                    &&& #[trigger] call_ensures(
                        follow_hit::<E>,
                        (e, v, &s1, idx, closes_loops),
                        (),
                    )
                    &&& *e == *e1
                    &&& *v == (VerifierEnv {
                        saw_active_state_at_check: final(v1).saw_active_state_at_check,
                        ..*v1
                    })
                    &&& *final(e1) == *final(e)
                    &&& after_misses(
                        final(v).cache@,
                        final(v1).cache@,
                        s1.pc,
                        (*v1).spec_force_checkpoint(s1.pc),
                        out1.misses@,
                    )
                };
            let (x2, w2) = choose|e: &mut E, v: &mut VerifierEnv|
                {
                    &&& #[trigger] call_ensures(
                        follow_hit::<E>,
                        (e, v, &s2, idx, closes_loops),
                        (),
                    )
                    &&& *e == *e2
                    &&& *v == (VerifierEnv {
                        saw_active_state_at_check: final(v2).saw_active_state_at_check,
                        ..*v2
                    })
                    &&& *final(e2) == *final(e)
                    &&& after_misses(
                        final(v).cache@,
                        final(v2).cache@,
                        s2.pc,
                        (*v2).spec_force_checkpoint(s2.pc),
                        out2.misses@,
                    )
                };
            assert(covers((*v1).cache@.bucket(pc), s1, sub1, idx as int));
            assert(env_content(*w1) == env_content(*w2));
            lemma_same_hit_followed(b, x1, w1, x2, w2, s1, s2, idx, closes_loops);
            lemma_same_missed(
                final(w1).cache@,
                final(v1).cache@,
                final(w2).cache@,
                final(v2).cache@,
                pc,
                force,
                out1.misses@,
            );
        },
    }
}

pub(crate) proof fn lemma_same_scanned<E: Engine>(
    b: Behaviour<E>,
    e1: &mut E,
    v1: &mut VerifierEnv,
    e2: &mut E,
    v2: &mut VerifierEnv,
    s1: State,
    s2: State,
    facts: LoopFacts,
    live1: [bool; 11],
    live2: [bool; 11],
    masks1: Vec<Option<[bool; 11]>>,
    masks2: Vec<Option<[bool; 11]>>,
    pruned1: bool,
    pruned2: bool,
)
    requires
        by_contents(b),
        forall|e: &mut E, c: &mut StateCache, h: &Vec<Breadcrumb>, s: &State, k: &State| #[trigger]
            call_ensures(E::propagate_precision, (e, c, h, s, k), ()) ==> {
                let after = (b.precision)(
                    *e,
                    cache_content((*c)@),
                    history_content(h@),
                    s@,
                    k@,
                );
                *final(e) == after.0 && cache_content((*final(c))@) == after.1
            },
        forall|e: &mut E, c: &mut StateCache, s: &State, id: u32, pc: usize| #[trigger]
            call_ensures(E::add_backedge, (e, c, s, id, pc), ()) ==> {
                let after = (b.backedge)(*e, cache_content((*c)@), s@, id, pc);
                *final(e) == after.0 && cache_content((*final(c))@) == after.1
            },
        call_ensures(scan_by_place::<E>, (e1, v1, &s1, facts, live1, &masks1), pruned1),
        call_ensures(scan_by_place::<E>, (e2, v2, &s2, facts, live2, &masks2), pruned2),
        *e1 == *e2,
        env_content(*v1) == env_content(*v2),
        s1@ == s2@,
    ensures
        pruned1 == pruned2,
        *final(e1) == *final(e2),
        env_content(*final(v1)) == env_content(*final(v2)),
{
    reveal(by_contents);
    reveal(env_content);
    lemma_same_gates(*v1, *v2, s1, s2);
    if facts.at_loop_point {
        let (x1, w1) = choose|e: &mut E, v: &mut VerifierEnv|
            {
                &&& #[trigger] call_ensures(
                    handle_loop_pruning::<E>,
                    (e, v, &s1, facts, live1, &masks1),
                    pruned1,
                )
                &&& *e == *e1
                &&& *v == *v1
                &&& *final(e1) == *final(e)
                &&& *final(v1) == *final(v)
            };
        let (x2, w2) = choose|e: &mut E, v: &mut VerifierEnv|
            {
                &&& #[trigger] call_ensures(
                    handle_loop_pruning::<E>,
                    (e, v, &s2, facts, live2, &masks2),
                    pruned2,
                )
                &&& *e == *e2
                &&& *v == *v2
                &&& *final(e2) == *final(e)
                &&& *final(v2) == *final(v)
            };
        assert(deferred_in_loop(*v1, facts, s1.pc) == deferred_in_loop(*v2, facts, s2.pc));
        if !deferred_in_loop(*v1, facts, s1.pc) {
            let (y1, z1) = choose|e: &mut E, v: &mut VerifierEnv|
                {
                    &&& #[trigger] call_ensures(
                        settle_arrival::<E>,
                        (e, v, &s1, live1, &masks1, false, true),
                        pruned1,
                    )
                    &&& *e == *x1
                    &&& *v == *w1
                    &&& *final(x1) == *final(e)
                    &&& *final(w1) == *final(v)
                };
            let (y2, z2) = choose|e: &mut E, v: &mut VerifierEnv|
                {
                    &&& #[trigger] call_ensures(
                        settle_arrival::<E>,
                        (e, v, &s2, live2, &masks2, false, true),
                        pruned2,
                    )
                    &&& *e == *x2
                    &&& *v == *w2
                    &&& *final(x2) == *final(e)
                    &&& *final(w2) == *final(v)
                };
            lemma_same_settled(
                b,
                y1,
                z1,
                y2,
                z2,
                s1,
                s2,
                live1,
                live2,
                masks1,
                masks2,
                false,
                true,
                pruned1,
                pruned2,
            );
        }
    } else {
        let (x1, w1) = choose|e: &mut E, v: &mut VerifierEnv|
            {
                &&& #[trigger] call_ensures(
                    handle_standard_pruning::<E>,
                    (e, v, &s1, live1, &masks1),
                    pruned1,
                )
                &&& *e == *e1
                &&& *v == *v1
                &&& *final(e1) == *final(e)
                &&& *final(v1) == *final(v)
            };
        let (y1, z1, exact1) = choose|e: &mut E, v: &mut VerifierEnv, exact: bool|
            {
                &&& #[trigger] call_ensures(
                    settle_arrival::<E>,
                    (e, v, &s1, live1, &masks1, exact, false),
                    pruned1,
                )
                &&& exact == (*w1).iter_pcs@.contains(s1.pc)
                &&& *e == *x1
                &&& *v == *w1
                &&& *final(x1) == *final(e)
                &&& *final(w1) == *final(v)
            };
        let (x2, w2) = choose|e: &mut E, v: &mut VerifierEnv|
            {
                &&& #[trigger] call_ensures(
                    handle_standard_pruning::<E>,
                    (e, v, &s2, live2, &masks2),
                    pruned2,
                )
                &&& *e == *e2
                &&& *v == *v2
                &&& *final(e2) == *final(e)
                &&& *final(v2) == *final(v)
            };
        let (y2, z2, exact2) = choose|e: &mut E, v: &mut VerifierEnv, exact: bool|
            {
                &&& #[trigger] call_ensures(
                    settle_arrival::<E>,
                    (e, v, &s2, live2, &masks2, exact, false),
                    pruned2,
                )
                &&& exact == (*w2).iter_pcs@.contains(s2.pc)
                &&& *e == *x2
                &&& *v == *w2
                &&& *final(x2) == *final(e)
                &&& *final(w2) == *final(v)
            };
        lemma_same_settled(
            b,
            y1,
            z1,
            y2,
            z2,
            s1,
            s2,
            live1,
            live2,
            masks1,
            masks2,
            exact1,
            false,
            pruned1,
            pruned2,
        );
    }
}

pub(crate) proof fn lemma_same_decided<E: Engine>(
    b: Behaviour<E>,
    e1: &mut E,
    v1: &mut VerifierEnv,
    e2: &mut E,
    v2: &mut VerifierEnv,
    s1: State,
    s2: State,
    prog: Program,
    pruned1: bool,
    pruned2: bool,
)
    requires
        by_contents(b),
        forall|e: &mut E, c: &mut StateCache, h: &Vec<Breadcrumb>, s: &State, k: &State| #[trigger]
            call_ensures(E::propagate_precision, (e, c, h, s, k), ()) ==> {
                let after = (b.precision)(
                    *e,
                    cache_content((*c)@),
                    history_content(h@),
                    s@,
                    k@,
                );
                *final(e) == after.0 && cache_content((*final(c))@) == after.1
            },
        forall|e: &mut E, c: &mut StateCache, s: &State, id: u32, pc: usize| #[trigger]
            call_ensures(E::add_backedge, (e, c, s, id, pc), ()) ==> {
                let after = (b.backedge)(*e, cache_content((*c)@), s@, id, pc);
                *final(e) == after.0 && cache_content((*final(c))@) == after.1
            },
        call_ensures(decide_by_candidates::<E>, (e1, v1, &s1, &prog), pruned1),
        call_ensures(decide_by_candidates::<E>, (e2, v2, &s2, &prog), pruned2),
        *e1 == *e2,
        env_content(*v1) == env_content(*v2),
        s1@ == s2@,
    ensures
        pruned1 == pruned2,
        *final(e1) == *final(e2),
        env_content(*final(v1)) == env_content(*final(v2)),
{
    reveal(by_contents);
    reveal(env_content);
    assert(s1@.pc == s2@.pc);
    let (facts1, early1) = choose|facts: LoopFacts, early: Early|
        {
            &&& #[trigger] call_ensures(E::loop_facts, (&*e1, &*v1, &s1, &prog), facts)
            &&& #[trigger] decided_early(*e1, *v1, s1, prog, facts, early)
            &&& match early {
                Early::EndlessLoop => {
                    &&& pruned1
                    &&& *final(e1) == *e1
                    &&& *final(v1) == (VerifierEnv {
                        error: Some(VerificationError::InfiniteLoopDetected { pc: s1.pc }),
                        ..*v1
                    })
                },
                Early::Explore => {
                    !pruned1 && *final(e1) == *e1 && *final(v1) == *v1
                },
                Early::Covered => {
                    pruned1 && *final(e1) == *e1 && *final(v1) == *v1
                },
                Early::Undecided => exists|
                    e: &mut E,
                    v: &mut VerifierEnv,
                    live_regs: [bool; 11],
                    masks: Vec<Option<[bool; 11]>>,
                |
                    {
                        &&& #[trigger] masks_of(*v1, s1, s1.pc, live_regs, masks@)
                        &&& #[trigger] call_ensures(
                            scan_by_place::<E>,
                            (e, v, &s1, facts, live_regs, &masks),
                            pruned1,
                        )
                        &&& *e == *e1
                        &&& *v == *v1
                        &&& *final(e1) == *final(e)
                        &&& *final(v1) == *final(v)
                    },
            }
        };
    let (facts2, early2) = choose|facts: LoopFacts, early: Early|
        {
            &&& #[trigger] call_ensures(E::loop_facts, (&*e2, &*v2, &s2, &prog), facts)
            &&& #[trigger] decided_early(*e2, *v2, s2, prog, facts, early)
            &&& match early {
                Early::EndlessLoop => {
                    &&& pruned2
                    &&& *final(e2) == *e2
                    &&& *final(v2) == (VerifierEnv {
                        error: Some(VerificationError::InfiniteLoopDetected { pc: s2.pc }),
                        ..*v2
                    })
                },
                Early::Explore => {
                    !pruned2 && *final(e2) == *e2 && *final(v2) == *v2
                },
                Early::Covered => {
                    pruned2 && *final(e2) == *e2 && *final(v2) == *v2
                },
                Early::Undecided => exists|
                    e: &mut E,
                    v: &mut VerifierEnv,
                    live_regs: [bool; 11],
                    masks: Vec<Option<[bool; 11]>>,
                |
                    {
                        &&& #[trigger] masks_of(*v2, s2, s2.pc, live_regs, masks@)
                        &&& #[trigger] call_ensures(
                            scan_by_place::<E>,
                            (e, v, &s2, facts, live_regs, &masks),
                            pruned2,
                        )
                        &&& *e == *e2
                        &&& *v == *v2
                        &&& *final(e2) == *final(e)
                        &&& *final(v2) == *final(v)
                    },
            }
        };
    assert(facts1 == facts2);
    lemma_same_early(b, *e1, *v1, *v2, s1, s2, prog, facts1, early1, early2);
    if early1 == Early::Undecided {
        let (x1, w1, live1, masks1) = choose|
            e: &mut E,
            v: &mut VerifierEnv,
            live_regs: [bool; 11],
            masks: Vec<Option<[bool; 11]>>,
        |
            {
                &&& #[trigger] masks_of(*v1, s1, s1.pc, live_regs, masks@)
                &&& #[trigger] call_ensures(
                    scan_by_place::<E>,
                    (e, v, &s1, facts1, live_regs, &masks),
                    pruned1,
                )
                &&& *e == *e1
                &&& *v == *v1
                &&& *final(e1) == *final(e)
                &&& *final(v1) == *final(v)
            };
        let (x2, w2, live2, masks2) = choose|
            e: &mut E,
            v: &mut VerifierEnv,
            live_regs: [bool; 11],
            masks: Vec<Option<[bool; 11]>>,
        |
            {
                &&& #[trigger] masks_of(*v2, s2, s2.pc, live_regs, masks@)
                &&& #[trigger] call_ensures(
                    scan_by_place::<E>,
                    (e, v, &s2, facts2, live_regs, &masks),
                    pruned2,
                )
                &&& *e == *e2
                &&& *v == *v2
                &&& *final(e2) == *final(e)
                &&& *final(v2) == *final(v)
            };
        lemma_same_scanned(
            b,
            x1,
            w1,
            x2,
            w2,
            s1,
            s2,
            facts1,
            live1,
            live2,
            masks1,
            masks2,
            pruned1,
            pruned2,
        );
    }
}

pub(crate) proof fn lemma_same_pruned<E: Engine>(
    b: Behaviour<E>,
    e1: &mut E,
    v1: &mut VerifierEnv,
    e2: &mut E,
    v2: &mut VerifierEnv,
    s1: State,
    s2: State,
    prog: Program,
    pruned1: bool,
    pruned2: bool,
)
    requires
        by_contents(b),
        forall|e: &mut E, c: &mut StateCache, id: u32| #[trigger]
            call_ensures(E::clean, (e, c, id), ()) ==> {
                let after = (b.clean)(*e, cache_content((*c)@), id);
                *final(e) == after.0 && cache_content((*final(c))@) == after.1
            },
        forall|e: &mut E, c: &mut StateCache, h: &Vec<Breadcrumb>, s: &State, k: &State| #[trigger]
            call_ensures(E::propagate_precision, (e, c, h, s, k), ()) ==> {
                let after = (b.precision)(
                    *e,
                    cache_content((*c)@),
                    history_content(h@),
                    s@,
                    k@,
                );
                *final(e) == after.0 && cache_content((*final(c))@) == after.1
            },
        forall|e: &mut E, c: &mut StateCache, s: &State, id: u32, pc: usize| #[trigger]
            call_ensures(E::add_backedge, (e, c, s, id, pc), ()) ==> {
                let after = (b.backedge)(*e, cache_content((*c)@), s@, id, pc);
                *final(e) == after.0 && cache_content((*final(c))@) == after.1
            },
        call_ensures(should_prune::<E>, (e1, v1, &s1, &prog), pruned1),
        call_ensures(should_prune::<E>, (e2, v2, &s2, &prog), pruned2),
        *e1 == *e2,
        env_content(*v1) == env_content(*v2),
        s1@ == s2@,
    ensures
        pruned1 == pruned2,
        *final(e1) == *final(e2),
        env_content(*final(v1)) == env_content(*final(v2)),
{
    assert(s1@.pc == s2@.pc);
    lemma_env_read(*v1, *v2);
    if s1.pc < (*v1).insn_aux@.len() {
        let (fresh1, point1) = choose|fresh: VerifierEnv, at_prune_point: bool|
            {
                &&& #[trigger] call_ensures(
                    E::is_prune_point,
                    (&*e1, &fresh, s1.pc),
                    at_prune_point,
                )
                &&& fresh == (VerifierEnv { saw_active_state_at_check: false, ..*v1 })
                &&& if !at_prune_point {
                    !pruned1 && *final(e1) == *e1 && *final(v1) == fresh
                } else {
                    exists|x: &mut E, w: &mut VerifierEnv, y: &mut E, z: &mut VerifierEnv|
                        {
                            &&& #[trigger] call_ensures(
                                clean_candidates::<E>,
                                (x, w, s1.pc),
                                (),
                            )
                            &&& *x == *e1
                            &&& *w == fresh
                            &&& #[trigger] call_ensures(
                                decide_by_candidates::<E>,
                                (y, z, &s1, &prog),
                                pruned1,
                            )
                            &&& *y == *final(x)
                            &&& *z == *final(w)
                            &&& *final(e1) == *final(y)
                            &&& *final(v1) == *final(z)
                        }
                }
            };
        let (fresh2, point2) = choose|fresh: VerifierEnv, at_prune_point: bool|
            {
                &&& #[trigger] call_ensures(
                    E::is_prune_point,
                    (&*e2, &fresh, s2.pc),
                    at_prune_point,
                )
                &&& fresh == (VerifierEnv { saw_active_state_at_check: false, ..*v2 })
                &&& if !at_prune_point {
                    !pruned2 && *final(e2) == *e2 && *final(v2) == fresh
                } else {
                    exists|x: &mut E, w: &mut VerifierEnv, y: &mut E, z: &mut VerifierEnv|
                        {
                            &&& #[trigger] call_ensures(
                                clean_candidates::<E>,
                                (x, w, s2.pc),
                                (),
                            )
                            &&& *x == *e2
                            &&& *w == fresh
                            &&& #[trigger] call_ensures(
                                decide_by_candidates::<E>,
                                (y, z, &s2, &prog),
                                pruned2,
                            )
                            &&& *y == *final(x)
                            &&& *z == *final(w)
                            &&& *final(e2) == *final(y)
                            &&& *final(v2) == *final(z)
                        }
                }
            };
        lemma_same_env(fresh1, fresh2);
        assert(point1 == point2) by {
            reveal(by_contents);
        }
        if point1 {
            let (x1, w1, y1, z1) = choose|
                x: &mut E,
                w: &mut VerifierEnv,
                y: &mut E,
                z: &mut VerifierEnv,
            |
                {
                    &&& #[trigger] call_ensures(clean_candidates::<E>, (x, w, s1.pc), ())
                    &&& *x == *e1
                    &&& *w == fresh1
                    &&& #[trigger] call_ensures(
                        decide_by_candidates::<E>,
                        (y, z, &s1, &prog),
                        pruned1,
                    )
                    &&& *y == *final(x)
                    &&& *z == *final(w)
                    &&& *final(e1) == *final(y)
                    &&& *final(v1) == *final(z)
                };
            let (x2, w2, y2, z2) = choose|
                x: &mut E,
                w: &mut VerifierEnv,
                y: &mut E,
                z: &mut VerifierEnv,
            |
                {
                    &&& #[trigger] call_ensures(clean_candidates::<E>, (x, w, s2.pc), ())
                    &&& *x == *e2
                    &&& *w == fresh2
                    &&& #[trigger] call_ensures(
                        decide_by_candidates::<E>,
                        (y, z, &s2, &prog),
                        pruned2,
                    )
                    &&& *y == *final(x)
                    &&& *z == *final(w)
                    &&& *final(e2) == *final(y)
                    &&& *final(v2) == *final(z)
                };
            lemma_same_cleaned(b, x1, w1, x2, w2, s1.pc);
            lemma_same_decided(b, y1, z1, y2, z2, s1, s2, prog, pruned1, pruned2);
        }
    } else {
        lemma_same_env(*final(v1), *final(v2));
    }
}

}
