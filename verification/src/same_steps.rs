//! Two steps by an engine that is decided by what it is given: where they start
//! alike, they end alike.

use vstd::prelude::*;

use crate::ast::{Instr, Program};
use crate::behaviour::{by_contents, Behaviour};
use crate::cache::{changed_at, StateCache};
use crate::contents::{
    annotations_content, cache_content, certificate_content, crumb_content, entry_view_of,
    env_content, history_content, lemma_cache_read, lemma_env_read, lemma_same_cache,
    lemma_same_callsites, lemma_same_env, lemma_same_views, lemma_same_with_cache, lemma_views_read,
    state_views,
};
use crate::engine::Engine;
use crate::env::{Annotation, Certificate, VerifierEnv};
use crate::machine::State;
use crate::record::recorded;
use crate::worklist::{
    back_edges, check_entries, enqueued, entries_at, execute_step, explore, fork_counted, forked,
    jump_counted, jump_counted_on, marked, originates, proofs_checked, refine_by_certificate,
    refine_successor, settle_step, shown, step_recorded, successors, Origin,
};

verus! {

// ---------------------------------------------------------------------------
// Certificates
// ---------------------------------------------------------------------------

pub(crate) proof fn lemma_same_entries(a: Seq<Annotation>, b: Seq<Annotation>, pc: usize)
    requires
        annotations_content(a) == annotations_content(b),
    ensures
        entries_at(a, pc) == entries_at(b, pc),
    decreases a.len(),
{
    assert(annotations_content(a).len() == a.len());
    assert(annotations_content(b).len() == b.len());
    if a.len() > 0 {
        let n = a.len() - 1;
        assert(annotations_content(a)[n] == (a[n].pc, a[n].entries@));
        assert(annotations_content(b)[n] == (b[n].pc, b[n].entries@));
        assert(annotations_content(a.drop_last()) =~= annotations_content(a).drop_last());
        assert(annotations_content(b.drop_last()) =~= annotations_content(b).drop_last());
        lemma_same_entries(a.drop_last(), b.drop_last(), pc);
    }
}

pub(crate) proof fn lemma_same_proofs<E: Engine>(
    b: Behaviour<E>,
    engine: E,
    v1: VerifierEnv,
    v2: VerifierEnv,
    prog: Program,
    pc: usize,
    entries1: Vec<u32>,
    entries2: Vec<u32>,
    shown1: Vec<u64>,
    shown2: Vec<u64>,
)
    requires
        by_contents(b),
        call_ensures(check_entries::<E>, (&engine, &v1, &prog, pc, &entries1), shown1),
        call_ensures(check_entries::<E>, (&engine, &v2, &prog, pc, &entries2), shown2),
        env_content(v1) == env_content(v2),
        entries1@ == entries2@,
    ensures
        shown1@ == shown2@,
{
    reveal(by_contents);
    let replies1 = choose|replies: Seq<Option<u64>>| #[trigger]
        proofs_checked(engine, v1, prog, pc, entries1@, replies) && shown1@ == shown(replies);
    let replies2 = choose|replies: Seq<Option<u64>>| #[trigger]
        proofs_checked(engine, v2, prog, pc, entries2@, replies) && shown2@ == shown(replies);
    assert forall|i: int| 0 <= i < replies1.len() implies #[trigger] replies1[i]
        == replies2[i] by {
        let entry = entries1@[i];
        assert(call_ensures(
            E::check_proof,
            (&engine, &v1, &prog, pc, entries1@[i]),
            replies1[i],
        ));
        assert(call_ensures(
            E::check_proof,
            (&engine, &v2, &prog, pc, entries2@[i]),
            replies2[i],
        ));
        assert(replies1[i] == (b.proof_checked)(engine, env_content(v1), prog, pc, entry));
    }
    assert(replies1 =~= replies2);
}

pub(crate) proof fn lemma_same_refined<E: Engine>(
    b: Behaviour<E>,
    engine: E,
    v1: VerifierEnv,
    v2: VerifierEnv,
    prog: Program,
    cert1: Certificate,
    cert2: Certificate,
    succ1: State,
    succ2: State,
    r1: State,
    r2: State,
)
    requires
        by_contents(b),
        forall|e: &E, s: &mut State, shown: &Vec<u64>| #[trigger]
            call_ensures(E::apply_refinements, (e, s, shown), ()) ==> (*final(s))@ == (b.refine)(
                *e,
                (*s)@,
                shown@,
            ),
        call_ensures(refine_successor::<E>, (&engine, &v1, &prog, &cert1, succ1), r1),
        call_ensures(refine_successor::<E>, (&engine, &v2, &prog, &cert2, succ2), r2),
        env_content(v1) == env_content(v2),
        annotations_content(cert1.annotations@) == annotations_content(cert2.annotations@),
        succ1@ == succ2@,
    ensures
        r1@ == r2@,
{
    assert(succ1@.pc == succ2@.pc);
    let (entries1, verified1, s1) = choose|entries: Vec<u32>, verified: Vec<u64>, s: &mut State|
        {
            &&& entries@ == entries_at(cert1.annotations@, succ1.pc)
            &&& #[trigger] call_ensures(
                check_entries::<E>,
                (&engine, &v1, &prog, succ1.pc, &entries),
                verified,
            )
            &&& #[trigger] call_ensures(E::apply_refinements, (&engine, s, &verified), ())
            &&& *s == succ1
            &&& r1 == *final(s)
        };
    let (entries2, verified2, s2) = choose|entries: Vec<u32>, verified: Vec<u64>, s: &mut State|
        {
            &&& entries@ == entries_at(cert2.annotations@, succ2.pc)
            &&& #[trigger] call_ensures(
                check_entries::<E>,
                (&engine, &v2, &prog, succ2.pc, &entries),
                verified,
            )
            &&& #[trigger] call_ensures(E::apply_refinements, (&engine, s, &verified), ())
            &&& *s == succ2
            &&& r2 == *final(s)
        };
    lemma_same_entries(cert1.annotations@, cert2.annotations@, succ1.pc);
    lemma_same_proofs(
        b,
        engine,
        v1,
        v2,
        prog,
        succ1.pc,
        entries1,
        entries2,
        verified1,
        verified2,
    );
}

/// Whether a call of `refine_by_certificate` may end so.
#[verifier::opaque]
pub open spec fn refine_call<E: Engine>(
    engine: E,
    env: VerifierEnv,
    prog: Program,
    succs: Vec<State>,
    r: Vec<State>,
) -> bool {
    call_ensures(refine_by_certificate::<E>, (&engine, &env, &prog, succs), r)
}

pub(crate) proof fn lemma_same_refinements<E: Engine>(
    b: Behaviour<E>,
    engine: E,
    v1: VerifierEnv,
    v2: VerifierEnv,
    prog: Program,
    succs1: Vec<State>,
    succs2: Vec<State>,
    r1: Vec<State>,
    r2: Vec<State>,
)
    requires
        by_contents(b),
        forall|e: &E, s: &mut State, shown: &Vec<u64>| #[trigger]
            call_ensures(E::apply_refinements, (e, s, shown), ()) ==> (*final(s))@ == (b.refine)(
                *e,
                (*s)@,
                shown@,
            ),
        refine_call(engine, v1, prog, succs1, r1),
        refine_call(engine, v2, prog, succs2, r2),
        env_content(v1) == env_content(v2),
        state_views(succs1@) == state_views(succs2@),
    ensures
        state_views(r1@) == state_views(r2@),
{
    reveal(refine_call);
    reveal(certificate_content);
    lemma_env_read(v1, v2);
    lemma_views_read(succs1@, succs2@);
    if v1.certificate is Some {
        let cert1 = v1.certificate->0;
        let cert2 = v2.certificate->0;
        assert(r1@.len() == succs1@.len() && r2@.len() == succs2@.len());
        assert forall|i: int| 0 <= i < r1@.len() implies (#[trigger] r1@[i])@ == r2@[i]@ by {
            assert(succs1@[i]@ == succs2@[i]@);
            lemma_same_refined(
                b,
                engine,
                v1,
                v2,
                prog,
                cert1,
                cert2,
                succs1@[i],
                succs2@[i],
                r1@[i],
                r2@[i],
            );
        }
        lemma_same_views(r1@, r2@);
    }
}

// ---------------------------------------------------------------------------
// Steps
// ---------------------------------------------------------------------------

/// Whether a call of `execute_step` may end so.
#[verifier::opaque]
pub open spec fn execute_call<E: Engine>(
    e: &mut E,
    v: &mut VerifierEnv,
    prog: Program,
    s: State,
    instr: Instr,
    r: Vec<State>,
) -> bool {
    call_ensures(execute_step::<E>, (e, v, &prog, s, &instr), r)
}

/// Whether a call of `settle_step` may end so.
#[verifier::opaque]
pub open spec fn settle_call<E: Engine>(
    e: &mut E,
    v: &mut VerifierEnv,
    work: &mut Vec<State>,
    succs: Vec<State>,
    step: usize,
    origin: Origin,
) -> bool {
    call_ensures(settle_step::<E>, (e, v, work, succs, step, &origin), ())
}

/// Whether a call of `explore` may end so.
#[verifier::opaque]
pub open spec fn explore_call<E: Engine>(
    e: &mut E,
    v: &mut VerifierEnv,
    prog: Program,
    s: State,
    work: &mut Vec<State>,
    r: bool,
) -> bool {
    call_ensures(explore::<E>, (e, v, &prog, s, work), r)
}

pub(crate) proof fn lemma_execute_parts<E: Engine>(
    e: &mut E,
    v: &mut VerifierEnv,
    prog: Program,
    s: State,
    instr: Instr,
    r: Vec<State>,
)
    requires
        execute_call(e, v, prog, s, instr, r),
    ensures
        exists|
            x: &mut E,
            t: &mut State,
            y: &mut E,
            z: &mut VerifierEnv,
            entering: State,
            succs: Vec<State>,
            q: &mut E,
        |
            {
                &&& #[trigger] call_ensures(E::begin_step, (x, t), ())
                &&& *x == *old(e)
                &&& *t == s
                &&& #[trigger] call_ensures(E::transfer, (y, z, entering, &instr), succs)
                &&& *y == *final(x)
                &&& *z == *old(v)
                &&& entering == (State { pc: s.pc, ..*final(t) })
                &&& #[trigger] call_ensures(E::end_step, (q,), ())
                &&& *q == *final(y)
                &&& *final(e) == *final(q)
                &&& *final(v) == (VerifierEnv {
                    counters: (*old(v)).counters,
                    bcf_enabled: (*old(v)).bcf_enabled,
                    ..*final(z)
                })
                &&& refine_call(*final(e), *final(v), prog, succs, r)
            },
{
    reveal(execute_call);
    reveal(refine_call);
    let (x, t, y, z, entering, succs, q) = choose|
        x: &mut E,
        t: &mut State,
        y: &mut E,
        z: &mut VerifierEnv,
        entering: State,
        succs: Vec<State>,
        q: &mut E,
    |
        {
            &&& #[trigger] call_ensures(E::begin_step, (x, t), ())
            &&& *x == *e
            &&& *t == s
            &&& #[trigger] call_ensures(E::transfer, (y, z, entering, &instr), succs)
            &&& *y == *final(x)
            &&& *z == *v
            &&& entering == (State { pc: s.pc, ..*final(t) })
            &&& #[trigger] call_ensures(E::end_step, (q,), ())
            &&& *q == *final(y)
            &&& *final(e) == *final(q)
            &&& *final(v) == (VerifierEnv {
                counters: (*v).counters,
                bcf_enabled: (*v).bcf_enabled,
                ..*final(z)
            })
            &&& call_ensures(
                refine_by_certificate::<E>,
                (&*final(e), &*final(v), &prog, succs),
                r,
            )
        };
    assert(refine_call(*final(e), *final(v), prog, succs, r));
}

pub(crate) proof fn lemma_same_executed<E: Engine>(
    b: Behaviour<E>,
    e1: &mut E,
    v1: &mut VerifierEnv,
    e2: &mut E,
    v2: &mut VerifierEnv,
    s1: State,
    s2: State,
    prog: Program,
    instr: Instr,
    r1: Vec<State>,
    r2: Vec<State>,
)
    requires
        by_contents(b),
        forall|e: &mut E, v: &mut VerifierEnv, s: State, instr: &Instr, succs: Vec<State>|
            #[trigger]
            call_ensures(E::transfer, (e, v, s, instr), succs) ==> {
                let after = (b.transfer)(*e, env_content(*v), s@, *instr);
                *final(e) == after.0 && env_content(*final(v)) == after.1 && state_views(succs@)
                    == after.2
            },
        forall|e: &mut E, s: &mut State| #[trigger]
            call_ensures(E::begin_step, (e, s), ()) ==> {
                let after = (b.begin)(*e, (*s)@);
                *final(e) == after.0 && (*final(s))@ == after.1
            },
        forall|e: &mut E| #[trigger]
            call_ensures(E::end_step, (e,), ()) ==> *final(e) == (b.end_step)(*e),
        forall|e: &E, s: &mut State, shown: &Vec<u64>| #[trigger]
            call_ensures(E::apply_refinements, (e, s, shown), ()) ==> (*final(s))@ == (b.refine)(
                *e,
                (*s)@,
                shown@,
            ),
        execute_call(e1, v1, prog, s1, instr, r1),
        execute_call(e2, v2, prog, s2, instr, r2),
        *e1 == *e2,
        env_content(*v1) == env_content(*v2),
        s1@ == s2@,
    ensures
        state_views(r1@) == state_views(r2@),
        *final(e1) == *final(e2),
        env_content(*final(v1)) == env_content(*final(v2)),
{
    lemma_execute_parts(e1, v1, prog, s1, instr, r1);
    lemma_execute_parts(e2, v2, prog, s2, instr, r2);
    let (x1, t1, y1, z1, entering1, succs1, q1) = choose|
        x: &mut E,
        t: &mut State,
        y: &mut E,
        z: &mut VerifierEnv,
        entering: State,
        succs: Vec<State>,
        q: &mut E,
    |
        {
            &&& #[trigger] call_ensures(E::begin_step, (x, t), ())
            &&& *x == *e1
            &&& *t == s1
            &&& #[trigger] call_ensures(E::transfer, (y, z, entering, &instr), succs)
            &&& *y == *final(x)
            &&& *z == *v1
            &&& entering == (State { pc: s1.pc, ..*final(t) })
            &&& #[trigger] call_ensures(E::end_step, (q,), ())
            &&& *q == *final(y)
            &&& *final(e1) == *final(q)
            &&& *final(v1) == (VerifierEnv {
                counters: (*v1).counters,
                bcf_enabled: (*v1).bcf_enabled,
                ..*final(z)
            })
            &&& refine_call(*final(e1), *final(v1), prog, succs, r1)
        };
    let (x2, t2, y2, z2, entering2, succs2, q2) = choose|
        x: &mut E,
        t: &mut State,
        y: &mut E,
        z: &mut VerifierEnv,
        entering: State,
        succs: Vec<State>,
        q: &mut E,
    |
        {
            &&& #[trigger] call_ensures(E::begin_step, (x, t), ())
            &&& *x == *e2
            &&& *t == s2
            &&& #[trigger] call_ensures(E::transfer, (y, z, entering, &instr), succs)
            &&& *y == *final(x)
            &&& *z == *v2
            &&& entering == (State { pc: s2.pc, ..*final(t) })
            &&& #[trigger] call_ensures(E::end_step, (q,), ())
            &&& *q == *final(y)
            &&& *final(e2) == *final(q)
            &&& *final(v2) == (VerifierEnv {
                counters: (*v2).counters,
                bcf_enabled: (*v2).bcf_enabled,
                ..*final(z)
            })
            &&& refine_call(*final(e2), *final(v2), prog, succs, r2)
        };
    assert(s1@.pc == s2@.pc);
    assert(entering1@ == entering2@);
    lemma_env_read(*v1, *v2);
    lemma_env_read(*final(z1), *final(z2));
    lemma_same_env(*final(v1), *final(v2));
    lemma_same_refinements(
        b,
        *final(e1),
        *final(v1),
        *final(v2),
        prog,
        succs1,
        succs2,
        r1,
        r2,
    );
}

pub(crate) proof fn lemma_same_marked(a: Seq<State>, b: Seq<State>, marks: Seq<bool>, wanted: bool)
    requires
        state_views(a) == state_views(b),
    ensures
        state_views(marked(a, marks, wanted)) == state_views(marked(b, marks, wanted)),
    decreases a.len(),
{
    lemma_views_read(a, b);
    if a.len() > 0 {
        assert(a[0]@ == b[0]@);
        assert forall|i: int| 0 <= i < a.skip(1).len() implies (#[trigger] a.skip(1)[i])@
            == b.skip(1)[i]@ by {
            assert(a[i + 1]@ == b[i + 1]@);
        }
        lemma_same_views(a.skip(1), b.skip(1));
        lemma_same_marked(a.skip(1), b.skip(1), marks.skip(1), wanted);
        let x = marked(a.skip(1), marks.skip(1), wanted);
        let y = marked(b.skip(1), marks.skip(1), wanted);
        lemma_views_read(x, y);
        lemma_same_views(seq![a[0]] + x, seq![b[0]] + y);
    }
}

pub(crate) proof fn lemma_same_enqueued(
    w1: Seq<State>,
    w2: Seq<State>,
    a: Seq<State>,
    b: Seq<State>,
    marks: Seq<bool>,
)
    requires
        state_views(w1) == state_views(w2),
        state_views(a) == state_views(b),
    ensures
        state_views(enqueued(w1, a, marks)) == state_views(enqueued(w2, b, marks)),
{
    lemma_same_marked(a, b, marks, true);
    lemma_same_marked(a, b, marks, false);
    let x1 = marked(a, marks, true);
    let x2 = marked(b, marks, true);
    let y1 = marked(a, marks, false);
    let y2 = marked(b, marks, false);
    lemma_views_read(w1, w2);
    lemma_views_read(x1, x2);
    lemma_views_read(y1, y2);
    let all1 = w1 + x1 + y1.reverse();
    let all2 = w2 + x2 + y2.reverse();
    assert forall|i: int| 0 <= i < all1.len() implies (#[trigger] all1[i])@ == all2[i]@ by {
        let n = w1.len() + x1.len();
        if i < w1.len() {
            assert(w1[i]@ == w2[i]@);
        } else if i < n {
            assert(x1[i - w1.len()]@ == x2[i - w1.len()]@);
        } else {
            assert(y1[y1.len() - 1 - (i - n)]@ == y2[y1.len() - 1 - (i - n)]@);
        }
    }
    lemma_same_views(all1, all2);
}

pub(crate) proof fn lemma_same_forked(
    before1: VerifierEnv,
    after1: VerifierEnv,
    before2: VerifierEnv,
    after2: VerifierEnv,
    parent: Option<u32>,
    paths: usize,
)
    requires
        fork_counted(before1, after1, parent, paths),
        fork_counted(before2, after2, parent, paths),
        env_content(before1) == env_content(before2),
    ensures
        env_content(after1) == env_content(after2),
{
    if parent is Some && paths > 1 {
        let id = parent->0;
        let ids = seq![id];
        let change = |s: State| forked(s, (paths - 1) as u32);
        let c1 = before1.cache@;
        let c2 = before2.cache@;
        let d1 = after1.cache@;
        let d2 = after2.cache@;
        assert(changed_at(c1, d1, ids, change));
        assert(changed_at(c2, d2, ids, change));
        lemma_env_read(before1, before2);
        lemma_cache_read(c1, c2);
        assert forall|q: usize| #[trigger] state_views(d1.bucket(q)) == state_views(
            d2.bucket(q),
        ) by {
            assert(d1.bucket(q).len() == c1.bucket(q).len());
            assert(d2.bucket(q).len() == c2.bucket(q).len());
            assert forall|k: int| 0 <= k < d1.bucket(q).len() implies (#[trigger] d1.bucket(
                q,
            )[k])@ == d2.bucket(q)[k]@ by {
                assert(c1.bucket(q)[k]@ == c2.bucket(q)[k]@);
                assert(c1.bucket(q)[k]@.cache_id == c2.bucket(q)[k]@.cache_id);
                assert(change(c1.bucket(q)[k])@ == change(c2.bucket(q)[k])@) by {
                    assert(c1.bucket(q)[k]@.branches == c2.bucket(q)[k]@.branches);
                    assert(c1.bucket(q)[k]@.dfs_paths == c2.bucket(q)[k]@.dfs_paths);
                }
                assert(d2.bucket(q)[k] == (if c2.bucket(q)[k].cache_id matches Some(n)
                    && ids.contains(n) {
                    change(c2.bucket(q)[k])
                } else {
                    c2.bucket(q)[k]
                }));
            }
            lemma_same_views(d1.bucket(q), d2.bucket(q));
        }
        assert forall|q: usize| #[trigger] d1.scores(q) == d2.scores(q) by {
            assert(c1.scores(q) == c2.scores(q));
            assert(d1.scores(q) == c1.scores(q));
            assert(d2.scores(q) == c2.scores(q));
        }
        assert forall|n: u32| #[trigger] entry_view_of(d1.resolve(n)) == entry_view_of(
            d2.resolve(n),
        ) by {
            assert(entry_view_of(c1.resolve(n)) == entry_view_of(c2.resolve(n)));
            if ids.contains(n) && c1.resolve(n) is Some {
                let (q1, s1) = c1.resolve(n)->0;
                let (q2, s2) = c2.resolve(n)->0;
                assert(s1@ == s2@);
                assert(s1@.branches == s2@.branches && s1@.dfs_paths == s2@.dfs_paths);
                assert(change(s1)@ == change(s2)@);
                assert(d1.resolve(n) == Some((q1, change(s1))));
                assert(d2.resolve(n) == Some((q2, change(s2))));
            }
        }
        lemma_same_cache(d1, d2);
        lemma_same_env(after1, after2);
    }
}

pub(crate) proof fn lemma_same_successors(
    a: Seq<State>,
    b: Seq<State>,
    step: usize,
    pc: usize,
    depth: u32,
)
    requires
        state_views(a) == state_views(b),
    ensures
        state_views(successors(a, step, pc, depth)) == state_views(
            successors(b, step, pc, depth),
        ),
{
    lemma_views_read(a, b);
    let ready1 = successors(a, step, pc, depth);
    let ready2 = successors(b, step, pc, depth);
    assert forall|i: int| 0 <= i < ready1.len() implies (#[trigger] ready1[i])@
        == ready2[i]@ by {
        assert(a[i]@ == b[i]@);
    }
    lemma_same_views(ready1, ready2);
}

pub(crate) proof fn lemma_same_back_edges<E: Engine>(
    b: Behaviour<E>,
    engine: E,
    v1: VerifierEnv,
    v2: VerifierEnv,
    step: usize,
    ready1: Seq<State>,
    ready2: Seq<State>,
    back1: Seq<bool>,
    back2: Seq<bool>,
)
    requires
        by_contents(b),
        back_edges(engine, v1, step, ready1, back1),
        back_edges(engine, v2, step, ready2, back2),
        env_content(v1) == env_content(v2),
        state_views(ready1) == state_views(ready2),
    ensures
        back1 == back2,
{
    reveal(by_contents);
    lemma_env_read(v1, v2);
    lemma_views_read(ready1, ready2);
    assert forall|i: int| 0 <= i < back1.len() implies #[trigger] back1[i] == back2[i] by {
        assert(ready1[i]@ == ready2[i]@);
    }
    assert(back1 =~= back2);
}

pub(crate) proof fn lemma_same_step_settled<E: Engine>(
    b: Behaviour<E>,
    e1: &mut E,
    v1: &mut VerifierEnv,
    work1: &mut Vec<State>,
    e2: &mut E,
    v2: &mut VerifierEnv,
    work2: &mut Vec<State>,
    succs1: Vec<State>,
    succs2: Vec<State>,
    step: usize,
    origin1: Origin,
    origin2: Origin,
)
    requires
        by_contents(b),
        forall|e: &mut E, c: &mut StateCache, sites: &Vec<usize>, parent: Option<u32>| #[trigger]
            call_ensures(E::end_path, (e, c, sites, parent), ()) ==> {
                let after = (b.end_path)(*e, cache_content((*c)@), sites@, parent);
                *final(e) == after.0 && cache_content((*final(c))@) == after.1
            },
        settle_call(e1, v1, work1, succs1, step, origin1),
        settle_call(e2, v2, work2, succs2, step, origin2),
        *e1 == *e2,
        env_content(*v1) == env_content(*v2),
        state_views((*work1)@) == state_views((*work2)@),
        state_views(succs1@) == state_views(succs2@),
        origin1.pc == origin2.pc,
        origin1.dfs_depth == origin2.dfs_depth,
        origin1.parent == origin2.parent,
        origin1.sites@ == origin2.sites@,
    ensures
        *final(e1) == *final(e2),
        env_content(*final(v1)) == env_content(*final(v2)),
        state_views((*final(work1))@) == state_views((*final(work2))@),
{
    reveal(settle_call);
    let ready1 = successors(succs1@, step, origin1.pc, origin1.dfs_depth);
    let back1 = choose|back: Seq<bool>|
        {
            &&& #[trigger] back_edges(*e1, *v1, step, ready1, back)
            &&& final(work1)@ == enqueued((*work1)@, ready1, back)
        };
    let ready2 = successors(succs2@, step, origin2.pc, origin2.dfs_depth);
    let back2 = choose|back: Seq<bool>|
        {
            &&& #[trigger] back_edges(*e2, *v2, step, ready2, back)
            &&& final(work2)@ == enqueued((*work2)@, ready2, back)
        };
    lemma_same_successors(succs1@, succs2@, step, origin1.pc, origin1.dfs_depth);
    lemma_same_back_edges(b, *e1, *v1, *v2, step, ready1, ready2, back1, back2);
    lemma_same_enqueued((*work1)@, (*work2)@, ready1, ready2, back1);
    lemma_views_read(succs1@, succs2@);
    if succs1@.len() > 0 {
        lemma_same_forked(
            *v1,
            *final(v1),
            *v2,
            *final(v2),
            origin1.parent,
            succs1@.len() as usize,
        );
    } else {
        let (y1, c1) = choose|y: &mut E, c: &mut StateCache|
            {
                &&& #[trigger] call_ensures(E::end_path, (y, c, &origin1.sites, origin1.parent), ())
                &&& *y == *e1
                &&& *c == (*v1).cache
                &&& *final(e1) == *final(y)
                &&& final(v1).cache == *final(c)
            };
        let (y2, c2) = choose|y: &mut E, c: &mut StateCache|
            {
                &&& #[trigger] call_ensures(E::end_path, (y, c, &origin2.sites, origin2.parent), ())
                &&& *y == *e2
                &&& *c == (*v2).cache
                &&& *final(e2) == *final(y)
                &&& final(v2).cache == *final(c)
            };
        lemma_env_read(*v1, *v2);
        lemma_same_with_cache(*v1, *v2, final(v1).cache, final(v2).cache);
    }
}

pub(crate) proof fn lemma_explore_parts<E: Engine>(
    e: &mut E,
    v: &mut VerifierEnv,
    prog: Program,
    s: State,
    work: &mut Vec<State>,
    r: bool,
)
    requires
        explore_call(e, v, prog, s, work, r),
    ensures
        s.pc >= prog.instrs@.len() ==> {
            &&& r
            &&& *final(e) == *old(e)
            &&& *final(v) == *old(v)
            &&& final(work)@ == old(work)@
        },
        s.pc < prog.instrs@.len() ==> exists|
            instr: Instr,
            recorded: VerifierEnv,
            entering: State,
            x: &mut E,
            z: &mut VerifierEnv,
            succs: Vec<State>,
        |
            {
                &&& instr == prog.instrs@[s.pc as int]
                &&& #[trigger] step_recorded(*old(v), recorded, s, instr)
                &&& *x == *old(e)
                &&& *z == jump_counted(recorded, instr)
                &&& entering == jump_counted_on(s, instr)
                &&& #[trigger] execute_call(x, z, prog, entering, instr, succs)
                &&& r == (final(z).error is None)
                &&& if !r {
                    &&& *final(e) == *final(x)
                    &&& *final(v) == *final(z)
                    &&& final(work)@ == (*old(work))@
                } else {
                    exists|
                        y: &mut E,
                        u: &mut VerifierEnv,
                        q: &mut Vec<State>,
                        step: usize,
                        origin: Origin,
                    |
                        {
                            &&& #[trigger] settle_call(y, u, q, succs, step, origin)
                            &&& step == (*old(v)).history@.len()
                            &&& originates(origin, s)
                            &&& *y == *final(x)
                            &&& *u == *final(z)
                            &&& (*q)@ == (*old(work))@
                            &&& *final(e) == *final(y)
                            &&& *final(v) == *final(u)
                            &&& final(work)@ == (*final(q))@
                        }
                }
            },
{
    reveal(explore_call);
    if s.pc < prog.instrs@.len() {
        reveal(execute_call);
        let (instr, recorded, entering, x, z, succs) = choose|
            instr: Instr,
            recorded: VerifierEnv,
            entering: State,
            x: &mut E,
            z: &mut VerifierEnv,
            succs: Vec<State>,
        |
            {
                &&& instr == prog.instrs@[s.pc as int]
                &&& #[trigger] step_recorded(*v, recorded, s, instr)
                &&& *x == *e
                &&& *z == jump_counted(recorded, instr)
                &&& entering == jump_counted_on(s, instr)
                &&& #[trigger] call_ensures(
                    execute_step::<E>,
                    (x, z, &prog, entering, &instr),
                    succs,
                )
                &&& r == (final(z).error is None)
                &&& if !r {
                    &&& *final(e) == *final(x)
                    &&& *final(v) == *final(z)
                    &&& final(work)@ == (*work)@
                } else {
                    exists|
                        y: &mut E,
                        u: &mut VerifierEnv,
                        q: &mut Vec<State>,
                        step: usize,
                        origin: Origin,
                    |
                        {
                            &&& #[trigger] call_ensures(
                                settle_step::<E>,
                                (y, u, q, succs, step, &origin),
                                (),
                            )
                            &&& step == (*v).history@.len()
                            &&& originates(origin, s)
                            &&& *y == *final(x)
                            &&& *u == *final(z)
                            &&& (*q)@ == (*work)@
                            &&& *final(e) == *final(y)
                            &&& *final(v) == *final(u)
                            &&& final(work)@ == (*final(q))@
                        }
                }
            };
        assert(execute_call(x, z, prog, entering, instr, succs));
        if r {
            reveal(settle_call);
            let (y, u, q, step, origin) = choose|
                y: &mut E,
                u: &mut VerifierEnv,
                q: &mut Vec<State>,
                step: usize,
                origin: Origin,
            |
                {
                    &&& #[trigger] call_ensures(
                        settle_step::<E>,
                        (y, u, q, succs, step, &origin),
                        (),
                    )
                    &&& step == (*v).history@.len()
                    &&& originates(origin, s)
                    &&& *y == *final(x)
                    &&& *u == *final(z)
                    &&& (*q)@ == (*work)@
                    &&& *final(e) == *final(y)
                    &&& *final(v) == *final(u)
                    &&& final(work)@ == (*final(q))@
                };
            assert(settle_call(y, u, q, succs, step, origin));
        }
    }
}

pub(crate) proof fn lemma_same_recorded(
    before1: VerifierEnv,
    after1: VerifierEnv,
    s1: State,
    before2: VerifierEnv,
    after2: VerifierEnv,
    s2: State,
    instr: Instr,
)
    requires
        step_recorded(before1, after1, s1, instr),
        step_recorded(before2, after2, s2, instr),
        env_content(before1) == env_content(before2),
        s1@ == s2@,
    ensures
        before1.history@.len() == before2.history@.len(),
        env_content(jump_counted(after1, instr)) == env_content(jump_counted(after2, instr)),
        jump_counted_on(s1, instr)@ == jump_counted_on(s2, instr)@,
{
    reveal(history_content);
    lemma_env_read(before1, before2);
    lemma_same_callsites(s1, s2);
    assert(s1@.pc == s2@.pc && s1@.history_idx == s2@.history_idx);
    assert(s1@.path_jmp_count == s2@.path_jmp_count);
    let h1 = before1.history@;
    let h2 = before2.history@;
    assert(history_content(h1).len() == h1.len());
    assert(history_content(h2).len() == h2.len());
    let g1 = after1.history@;
    let g2 = after2.history@;
    assert(crumb_content(g1.last()) == crumb_content(g2.last())) by {
        assert(g1.last().linked@ =~= g2.last().linked@);
    }
    assert(history_content(g1) =~= history_content(h1).push(crumb_content(g1.last()))) by {
        assert(g1 =~= h1.push(g1.last()));
    }
    assert(history_content(g2) =~= history_content(h2).push(crumb_content(g2.last()))) by {
        assert(g2 =~= h2.push(g2.last()));
    }
    lemma_same_env(jump_counted(after1, instr), jump_counted(after2, instr));
}

pub(crate) proof fn lemma_same_explored<E: Engine>(
    b: Behaviour<E>,
    e1: &mut E,
    v1: &mut VerifierEnv,
    work1: &mut Vec<State>,
    e2: &mut E,
    v2: &mut VerifierEnv,
    work2: &mut Vec<State>,
    prog: Program,
    s1: State,
    s2: State,
    r1: bool,
    r2: bool,
)
    requires
        by_contents(b),
        forall|e: &mut E, c: &mut StateCache, sites: &Vec<usize>, parent: Option<u32>| #[trigger]
            call_ensures(E::end_path, (e, c, sites, parent), ()) ==> {
                let after = (b.end_path)(*e, cache_content((*c)@), sites@, parent);
                *final(e) == after.0 && cache_content((*final(c))@) == after.1
            },
        forall|e: &mut E, v: &mut VerifierEnv, s: State, instr: &Instr, succs: Vec<State>|
            #[trigger]
            call_ensures(E::transfer, (e, v, s, instr), succs) ==> {
                let after = (b.transfer)(*e, env_content(*v), s@, *instr);
                *final(e) == after.0 && env_content(*final(v)) == after.1 && state_views(succs@)
                    == after.2
            },
        forall|e: &mut E, s: &mut State| #[trigger]
            call_ensures(E::begin_step, (e, s), ()) ==> {
                let after = (b.begin)(*e, (*s)@);
                *final(e) == after.0 && (*final(s))@ == after.1
            },
        forall|e: &mut E| #[trigger]
            call_ensures(E::end_step, (e,), ()) ==> *final(e) == (b.end_step)(*e),
        forall|e: &E, s: &mut State, shown: &Vec<u64>| #[trigger]
            call_ensures(E::apply_refinements, (e, s, shown), ()) ==> (*final(s))@ == (b.refine)(
                *e,
                (*s)@,
                shown@,
            ),
        explore_call(e1, v1, prog, s1, work1, r1),
        explore_call(e2, v2, prog, s2, work2, r2),
        *e1 == *e2,
        env_content(*v1) == env_content(*v2),
        state_views((*work1)@) == state_views((*work2)@),
        s1@ == s2@,
    ensures
        r1 == r2,
        *final(e1) == *final(e2),
        env_content(*final(v1)) == env_content(*final(v2)),
        state_views((*final(work1))@) == state_views((*final(work2))@),
{
    lemma_explore_parts(e1, v1, prog, s1, work1, r1);
    lemma_explore_parts(e2, v2, prog, s2, work2, r2);
    assert(s1@.pc == s2@.pc);
    if s1.pc < prog.instrs@.len() {
        let (instr1, recorded1, entering1, x1, z1, succs1) = choose|
            instr: Instr,
            recorded: VerifierEnv,
            entering: State,
            x: &mut E,
            z: &mut VerifierEnv,
            succs: Vec<State>,
        |
            {
                &&& instr == prog.instrs@[s1.pc as int]
                &&& #[trigger] step_recorded(*v1, recorded, s1, instr)
                &&& *x == *e1
                &&& *z == jump_counted(recorded, instr)
                &&& entering == jump_counted_on(s1, instr)
                &&& #[trigger] execute_call(x, z, prog, entering, instr, succs)
                &&& r1 == (final(z).error is None)
                &&& if !r1 {
                    &&& *final(e1) == *final(x)
                    &&& *final(v1) == *final(z)
                    &&& final(work1)@ == (*work1)@
                } else {
                    exists|
                        y: &mut E,
                        u: &mut VerifierEnv,
                        q: &mut Vec<State>,
                        step: usize,
                        origin: Origin,
                    |
                        {
                            &&& #[trigger] settle_call(y, u, q, succs, step, origin)
                            &&& step == (*v1).history@.len()
                            &&& originates(origin, s1)
                            &&& *y == *final(x)
                            &&& *u == *final(z)
                            &&& (*q)@ == (*work1)@
                            &&& *final(e1) == *final(y)
                            &&& *final(v1) == *final(u)
                            &&& final(work1)@ == (*final(q))@
                        }
                }
            };
        let (instr2, recorded2, entering2, x2, z2, succs2) = choose|
            instr: Instr,
            recorded: VerifierEnv,
            entering: State,
            x: &mut E,
            z: &mut VerifierEnv,
            succs: Vec<State>,
        |
            {
                &&& instr == prog.instrs@[s2.pc as int]
                &&& #[trigger] step_recorded(*v2, recorded, s2, instr)
                &&& *x == *e2
                &&& *z == jump_counted(recorded, instr)
                &&& entering == jump_counted_on(s2, instr)
                &&& #[trigger] execute_call(x, z, prog, entering, instr, succs)
                &&& r2 == (final(z).error is None)
                &&& if !r2 {
                    &&& *final(e2) == *final(x)
                    &&& *final(v2) == *final(z)
                    &&& final(work2)@ == (*work2)@
                } else {
                    exists|
                        y: &mut E,
                        u: &mut VerifierEnv,
                        q: &mut Vec<State>,
                        step: usize,
                        origin: Origin,
                    |
                        {
                            &&& #[trigger] settle_call(y, u, q, succs, step, origin)
                            &&& step == (*v2).history@.len()
                            &&& originates(origin, s2)
                            &&& *y == *final(x)
                            &&& *u == *final(z)
                            &&& (*q)@ == (*work2)@
                            &&& *final(e2) == *final(y)
                            &&& *final(v2) == *final(u)
                            &&& final(work2)@ == (*final(q))@
                        }
                }
            };
        lemma_same_recorded(*v1, recorded1, s1, *v2, recorded2, s2, instr1);
        lemma_same_executed(
            b,
            x1,
            z1,
            x2,
            z2,
            entering1,
            entering2,
            prog,
            instr1,
            succs1,
            succs2,
        );
        lemma_env_read(*final(z1), *final(z2));
        if r1 {
            lemma_same_callsites(s1, s2);
            assert(s1@.dfs_depth == s2@.dfs_depth && s1@.parent_cache_id == s2@.parent_cache_id);
            let (y1, u1, q1, step1, origin1) = choose|
                y: &mut E,
                u: &mut VerifierEnv,
                q: &mut Vec<State>,
                step: usize,
                origin: Origin,
            |
                {
                    &&& #[trigger] settle_call(y, u, q, succs1, step, origin)
                    &&& step == (*v1).history@.len()
                    &&& originates(origin, s1)
                    &&& *y == *final(x1)
                    &&& *u == *final(z1)
                    &&& (*q)@ == (*work1)@
                    &&& *final(e1) == *final(y)
                    &&& *final(v1) == *final(u)
                    &&& final(work1)@ == (*final(q))@
                };
            let (y2, u2, q2, step2, origin2) = choose|
                y: &mut E,
                u: &mut VerifierEnv,
                q: &mut Vec<State>,
                step: usize,
                origin: Origin,
            |
                {
                    &&& #[trigger] settle_call(y, u, q, succs2, step, origin)
                    &&& step == (*v2).history@.len()
                    &&& originates(origin, s2)
                    &&& *y == *final(x2)
                    &&& *u == *final(z2)
                    &&& (*q)@ == (*work2)@
                    &&& *final(e2) == *final(y)
                    &&& *final(v2) == *final(u)
                    &&& final(work2)@ == (*final(q))@
                };
            lemma_same_step_settled(
                b,
                y1,
                u1,
                q1,
                y2,
                u2,
                q2,
                succs1,
                succs2,
                step1,
                origin1,
                origin2,
            );
        }
    }
}

}
