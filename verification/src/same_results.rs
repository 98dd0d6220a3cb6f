//! Two analyses by an engine that is decided by what it is given: where they start
//! alike, they give the same.

use vstd::prelude::*;

use crate::analysis::{
    analyze_callback_from, analyze_exception_cb, analyze_from, analyze_program_full, dbm_at,
    entry_view, explore_program, initial_domain, is_kernel_faithful,
    law_refused_certificates_have_no_part, map_refused, may_refuse, names_refused, nothing_explored,
    plain_entry, refused_by, refuses_certificate, result_of, run_passes, AnalysisResult,
};
use crate::ast::{Instr, Program};
use crate::behaviour::{by_contents, Behaviour};
use crate::cache::{without, StateCache};
use crate::contents::{
    bundle_content, cache_content, check_content, env_content, explored_content, failure_content,
    history_content, lemma_cache_read, lemma_env_read, lemma_same_cache, lemma_same_env,
    state_views,
};
use crate::engine::Engine;
use crate::env::{
    starts_blank, Breadcrumb, Certificate, DomainMode, ExecContext, InsnAux, VerifierConfig,
    VerifierEnv,
};
use crate::machine::{Dbm, NumericDomain, RegType, State, VerificationError};
use crate::same_runs::{lemma_same_run, run_call};
use crate::worklist::{run_worklist, shown};

verus! {

// ---------------------------------------------------------------------------
// Results
// ---------------------------------------------------------------------------

/// Whether two results hold the same, apart from the errors that ended them.
pub open spec fn same_results(a: AnalysisResult, b: AnalysisResult) -> bool {
    &&& a.dbms@ == b.dbms@
    &&& explored_content(a.explored_states) == explored_content(b.explored_states)
    &&& bundle_content(a.bundle@) == bundle_content(b.bundle@)
    &&& a.stats == b.stats
}

pub(crate) proof fn lemma_same_nothing(a: AnalysisResult, b: AnalysisResult)
    requires
        nothing_explored(a),
        nothing_explored(b),
    ensures
        same_results(a, b),
{
    assert(a.dbms@ =~= b.dbms@);
    assert(a.bundle@ =~= b.bundle@);
    assert(explored_content(a.explored_states) =~= explored_content(b.explored_states));
}

pub(crate) proof fn lemma_same_left(
    v1: VerifierEnv,
    v2: VerifierEnv,
    r1: AnalysisResult,
    r2: AnalysisResult,
    pruned: usize,
    n: nat,
)
    requires
        result_of(r1, v1, pruned, n),
        result_of(r2, v2, pruned, n),
        env_content(v1) == env_content(v2),
    ensures
        same_results(r1, r2),
        failure_content(r1.error) == failure_content(r2.error),
{
    lemma_env_read(v1, v2);
    let c1 = v1.cache@;
    let c2 = v2.cache@;
    lemma_cache_read(c1, c2);
    assert forall|q: usize| #[trigger] explored_content(r1.explored_states)[q]
        == explored_content(r2.explored_states)[q] by {
        assert(explored_content(r1.explored_states)[q] =~= state_views(c1.bucket(q)));
        assert(explored_content(r2.explored_states)[q] =~= state_views(c2.bucket(q)));
    }
    assert(explored_content(r1.explored_states) =~= explored_content(r2.explored_states));
    assert forall|i: int| 0 <= i < n implies #[trigger] r1.dbms@[i] == r2.dbms@[i] by {
        let q = i as usize;
        assert(r1.dbms@[i] == dbm_at(r1.explored_states@, q));
        assert(r2.dbms@[i] == dbm_at(r2.explored_states@, q));
        assert(c1.bucket(q).len() == c2.bucket(q).len());
        if c1.bucket(q).len() > 0 {
            assert(c1.bucket(q)[0]@ == c2.bucket(q)[0]@);
            assert(c1.bucket(q)[0]@.domain == c2.bucket(q)[0]@.domain);
        }
    }
    assert(r1.dbms@ =~= r2.dbms@);
}

pub(crate) proof fn lemma_same_blank(
    v1: VerifierEnv,
    v2: VerifierEnv,
    ctx: ExecContext,
    prog: Program,
    cert: Option<Certificate>,
    faithful: bool,
    bcf_enabled: bool,
)
    requires
        starts_blank(v1, ctx, prog, cert, faithful, bcf_enabled),
        starts_blank(v2, ctx, prog, cert, faithful, bcf_enabled),
    ensures
        env_content(v1) == env_content(v2),
{
    let c1 = v1.cache@;
    let c2 = v2.cache@;
    assert forall|q: usize| #[trigger] state_views(c1.bucket(q)) == state_views(c2.bucket(q)) by {
        assert(c1.bucket(q) =~= c2.bucket(q));
    }
    assert forall|q: usize| #[trigger] c1.scores(q) == c2.scores(q) by {
        assert(c1.scores(q) =~= c2.scores(q));
    }
    lemma_same_cache(c1, c2);
    assert(v1.bcf_proofs@ =~= v2.bcf_proofs@);
    assert(v1.history@ =~= v2.history@);
    assert(v1.iter_pcs@ =~= v2.iter_pcs@);
    lemma_same_env(v1, v2);
}

pub(crate) proof fn lemma_same_refusal<E: Engine>(
    b: Behaviour<E>,
    engine: E,
    ctx: ExecContext,
    prog: Program,
    config: VerifierConfig,
    err1: Option<VerificationError>,
    err2: Option<VerificationError>,
)
    requires
        by_contents(b),
        may_refuse(engine, ctx, prog, config, err1),
        may_refuse(engine, ctx, prog, config, err2),
    ensures
        err1 is Some == err2 is Some,
        failure_content(err1) == failure_content(err2),
{
    reveal(by_contents);
    reveal(failure_content);
}

/// Whether a program is refused for its maps in one way at most: every refused map
/// has the same name and is refused for the same field.
pub open spec fn refused_in_one_way(ctx: ExecContext) -> bool {
    forall|i: int, j: int|
        #![trigger ctx.relocs@[i], ctx.relocs@[j]]
        0 <= i < ctx.relocs@.len() && 0 <= j < ctx.relocs@.len() && refused_by(
            ctx,
            ctx.relocs@[i],
        ) is Some && refused_by(ctx, ctx.relocs@[j]) is Some ==> refused_by(ctx, ctx.relocs@[i])
            == refused_by(ctx, ctx.relocs@[j])
            && ctx.map_defs@[ctx.relocs@[i].map_idx as int].name@
            == ctx.map_defs@[ctx.relocs@[j].map_idx as int].name@
}

pub(crate) proof fn lemma_same_map_refusal(
    ctx: ExecContext,
    err1: Option<VerificationError>,
    err2: Option<VerificationError>,
)
    requires
        refused_in_one_way(ctx),
        err1 is Some,
        err2 is Some,
        exists|i: int|
            0 <= i < ctx.relocs@.len() && names_refused(ctx, err1->0, #[trigger] ctx.relocs@[i]),
        exists|i: int|
            0 <= i < ctx.relocs@.len() && names_refused(ctx, err2->0, #[trigger] ctx.relocs@[i]),
    ensures
        failure_content(err1) == failure_content(err2),
{
    reveal(failure_content);
    let i = choose|i: int|
        0 <= i < ctx.relocs@.len() && names_refused(ctx, err1->0, #[trigger] ctx.relocs@[i]);
    let j = choose|i: int|
        0 <= i < ctx.relocs@.len() && names_refused(ctx, err2->0, #[trigger] ctx.relocs@[i]);
    assert(refused_by(ctx, ctx.relocs@[i]) == refused_by(ctx, ctx.relocs@[j]));
}

// ---------------------------------------------------------------------------
// Passes
// ---------------------------------------------------------------------------

/// Whether a call of `run_passes` may end so.
#[verifier::opaque]
pub open spec fn passes_call<E: Engine>(
    e: &mut E,
    v: &mut VerifierEnv,
    prog: Program,
    with_loops: bool,
    f: Option<String>,
) -> bool {
    call_ensures(run_passes::<E>, (e, v, &prog, with_loops), f)
}

pub(crate) proof fn lemma_same_passes<E: Engine>(
    b: Behaviour<E>,
    e1: &mut E,
    v1: &mut VerifierEnv,
    e2: &mut E,
    v2: &mut VerifierEnv,
    prog: Program,
    with_loops: bool,
    f1: Option<String>,
    f2: Option<String>,
)
    requires
        by_contents(b),
        forall|e: &mut E, a: &mut Vec<InsnAux>, prog: &Program, r: Result<(), String>| #[trigger]
            call_ensures(E::check_cfg, (e, a, prog), r) ==> {
                let after = (b.cfg)(*e, (*a)@, *prog);
                *final(e) == after.0 && (*final(a))@ == after.1 && check_content(r) == after.2
            },
        forall|e: &mut E, a: &mut Vec<InsnAux>, prog: &Program| #[trigger]
            call_ensures(E::compute_liveness, (e, a, prog), ()) ==> {
                let after = (b.liveness)(*e, (*a)@, *prog);
                *final(e) == after.0 && (*final(a))@ == after.1
            },
        forall|e: &mut E, prog: &Program| #[trigger]
            call_ensures(E::compute_scc, (e, prog), ()) ==> *final(e) == (b.scc)(*e, *prog),
        passes_call(e1, v1, prog, with_loops, f1),
        passes_call(e2, v2, prog, with_loops, f2),
        *e1 == *e2,
        env_content(*v1) == env_content(*v2),
    ensures
        f1 is Some == f2 is Some,
        f1 is Some ==> f1->0@ == f2->0@,
        *final(e1) == *final(e2),
        env_content(*final(v1)) == env_content(*final(v2)),
{
    reveal(passes_call);
    let (x1, c1, reply1) = choose|x: &mut E, c: &mut Vec<InsnAux>, reply: Result<(), String>|
        {
            &&& #[trigger] call_ensures(E::check_cfg, (x, c, &prog), reply)
            &&& *x == *e1
            &&& *c == (*v1).insn_aux
            &&& match reply {
                Err(text) => {
                    &&& f1 == Some(text)
                    &&& *final(e1) == *final(x)
                    &&& final(v1).insn_aux == *final(c)
                },
                Ok(unit) => {
                    &&& f1 is None
                    &&& exists|y: &mut E, a: &mut Vec<InsnAux>|
                        {
                            &&& #[trigger] call_ensures(E::compute_liveness, (y, a, &prog), ())
                            &&& *y == *final(x)
                            &&& *a == *final(c)
                            &&& final(v1).insn_aux == *final(a)
                            &&& if with_loops {
                                exists|w: &mut E|
                                    {
                                        &&& #[trigger] call_ensures(E::compute_scc, (w, &prog), ())
                                        &&& *w == *final(y)
                                        &&& *final(e1) == *final(w)
                                    }
                            } else {
                                *final(e1) == *final(y)
                            }
                        }
                },
            }
        };
    let (x2, c2, reply2) = choose|x: &mut E, c: &mut Vec<InsnAux>, reply: Result<(), String>|
        {
            &&& #[trigger] call_ensures(E::check_cfg, (x, c, &prog), reply)
            &&& *x == *e2
            &&& *c == (*v2).insn_aux
            &&& match reply {
                Err(text) => {
                    &&& f2 == Some(text)
                    &&& *final(e2) == *final(x)
                    &&& final(v2).insn_aux == *final(c)
                },
                Ok(unit) => {
                    &&& f2 is None
                    &&& exists|y: &mut E, a: &mut Vec<InsnAux>|
                        {
                            &&& #[trigger] call_ensures(E::compute_liveness, (y, a, &prog), ())
                            &&& *y == *final(x)
                            &&& *a == *final(c)
                            &&& final(v2).insn_aux == *final(a)
                            &&& if with_loops {
                                exists|w: &mut E|
                                    {
                                        &&& #[trigger] call_ensures(E::compute_scc, (w, &prog), ())
                                        &&& *w == *final(y)
                                        &&& *final(e2) == *final(w)
                                    }
                            } else {
                                *final(e2) == *final(y)
                            }
                        }
                },
            }
        };
    lemma_env_read(*v1, *v2);
    assert(check_content(reply1) == check_content(reply2));
    if reply1 is Ok {
        let (y1, a1) = choose|y: &mut E, a: &mut Vec<InsnAux>|
            {
                &&& #[trigger] call_ensures(E::compute_liveness, (y, a, &prog), ())
                &&& *y == *final(x1)
                &&& *a == *final(c1)
                &&& final(v1).insn_aux == *final(a)
                &&& if with_loops {
                    exists|w: &mut E|
                        {
                            &&& #[trigger] call_ensures(E::compute_scc, (w, &prog), ())
                            &&& *w == *final(y)
                            &&& *final(e1) == *final(w)
                        }
                } else {
                    *final(e1) == *final(y)
                }
            };
        let (y2, a2) = choose|y: &mut E, a: &mut Vec<InsnAux>|
            {
                &&& #[trigger] call_ensures(E::compute_liveness, (y, a, &prog), ())
                &&& *y == *final(x2)
                &&& *a == *final(c2)
                &&& final(v2).insn_aux == *final(a)
                &&& if with_loops {
                    exists|w: &mut E|
                        {
                            &&& #[trigger] call_ensures(E::compute_scc, (w, &prog), ())
                            &&& *w == *final(y)
                            &&& *final(e2) == *final(w)
                        }
                } else {
                    *final(e2) == *final(y)
                }
            };
        if with_loops {
            let w1 = choose|w: &mut E|
                {
                    &&& #[trigger] call_ensures(E::compute_scc, (w, &prog), ())
                    &&& *w == *final(y1)
                    &&& *final(e1) == *final(w)
                };
            let w2 = choose|w: &mut E|
                {
                    &&& #[trigger] call_ensures(E::compute_scc, (w, &prog), ())
                    &&& *w == *final(y2)
                    &&& *final(e2) == *final(w)
                };
        }
    }
    lemma_same_env(*final(v1), *final(v2));
}

// ---------------------------------------------------------------------------
// Analyses
// ---------------------------------------------------------------------------

/// Whether a call of `explore_program` may end so.
#[verifier::opaque]
pub open spec fn program_call<E: Engine>(
    e: &mut E,
    env: VerifierEnv,
    prog: Program,
    domain: NumericDomain,
    config: VerifierConfig,
    r: AnalysisResult,
) -> bool {
    call_ensures(explore_program::<E>, (e, env, &prog, domain, &config), r)
}

/// Whether a call of `analyze_from` may end so.
#[verifier::opaque]
pub open spec fn analysis_call<E: Engine>(
    e: &mut E,
    ctx: ExecContext,
    prog: Program,
    domain: NumericDomain,
    config: VerifierConfig,
    cert: Option<Certificate>,
    r: AnalysisResult,
) -> bool {
    call_ensures(analyze_from::<E>, (e, &ctx, &prog, domain, &config, cert), r)
}

/// Whether a call of `analyze_callback_from` may end so.
#[verifier::opaque]
pub open spec fn callback_call<E: Engine>(
    e: &mut E,
    ctx: ExecContext,
    prog: Program,
    domain: NumericDomain,
    config: VerifierConfig,
    pc: usize,
    r: Option<VerificationError>,
) -> bool {
    call_ensures(analyze_callback_from::<E>, (e, &ctx, &prog, domain, &config, pc), r)
}

pub(crate) proof fn lemma_program_parts<E: Engine>(
    e: &mut E,
    env: VerifierEnv,
    prog: Program,
    domain: NumericDomain,
    config: VerifierConfig,
    r: AnalysisResult,
)
    requires
        program_call(e, env, prog, domain, config, r),
    ensures
        exists|
            x: &mut E,
            anchored: NumericDomain,
            y: &mut E,
            z: &mut VerifierEnv,
            initial: State,
            pruned: usize,
        |
            {
                &&& #[trigger] call_ensures(E::init_packet_anchors, (x, domain), anchored)
                &&& *x == *old(e)
                &&& #[trigger] run_call(y, z, prog, config, initial, pruned)
                &&& *y == *final(x)
                &&& *z == env
                &&& initial@ == entry_view(*env.ctx, config.bcf_enabled, anchored)
                &&& *final(e) == *final(y)
                &&& result_of(r, *final(z), pruned, prog.instrs@.len())
            },
{
    reveal(program_call);
    reveal(run_call);
    let (x, anchored, y, z, initial, pruned) = choose|
        x: &mut E,
        anchored: NumericDomain,
        y: &mut E,
        z: &mut VerifierEnv,
        initial: State,
        pruned: usize,
    |
        {
            &&& #[trigger] call_ensures(E::init_packet_anchors, (x, domain), anchored)
            &&& *x == *e
            &&& #[trigger] call_ensures(run_worklist::<E>, (y, z, &prog, &config, initial), pruned)
            &&& *y == *final(x)
            &&& *z == env
            &&& initial@ == entry_view(*env.ctx, config.bcf_enabled, anchored)
            &&& *final(e) == *final(y)
            &&& result_of(r, *final(z), pruned, prog.instrs@.len())
        };
    assert(run_call(y, z, prog, config, initial, pruned));
}

pub(crate) proof fn lemma_same_program<E: Engine>(
    b: Behaviour<E>,
    e1: &mut E,
    env1: VerifierEnv,
    e2: &mut E,
    env2: VerifierEnv,
    prog: Program,
    domain: NumericDomain,
    config: VerifierConfig,
    r1: AnalysisResult,
    r2: AnalysisResult,
)
    requires
        by_contents(b),
        forall|e: &mut E, d: NumericDomain, r: NumericDomain| #[trigger]
            call_ensures(E::init_packet_anchors, (e, d), r) ==> {
                let after = (b.anchors)(*e, d);
                *final(e) == after.0 && r == after.1
            },
        forall|e: &mut E, c: &mut StateCache, id: u32| #[trigger]
            call_ensures(E::clean, (e, c, id), ()) ==> {
                let after = (b.clean)(*e, cache_content((*c)@), id);
                *final(e) == after.0 && cache_content((*final(c))@) == after.1
            },
        forall|e: &mut E, c: &mut StateCache, h: &Vec<Breadcrumb>, s: &State, k: &State| #[trigger]
            call_ensures(E::propagate_precision, (e, c, h, s, k), ()) ==> {
                let after = (b.precision)(
                    *e,
                    cache_content((*c)@),
                    history_content(h@),
                    s@,
                    k@,
                );
                *final(e) == after.0 && cache_content((*final(c))@) == after.1
            },
        forall|e: &mut E, c: &mut StateCache, s: &State, id: u32, pc: usize| #[trigger]
            call_ensures(E::add_backedge, (e, c, s, id, pc), ()) ==> {
                let after = (b.backedge)(*e, cache_content((*c)@), s@, id, pc);
                *final(e) == after.0 && cache_content((*final(c))@) == after.1
            },
        forall|e: &mut E, c: &mut StateCache, sites: &Vec<usize>, parent: Option<u32>| #[trigger]
            call_ensures(E::end_path, (e, c, sites, parent), ()) ==> {
                let after = (b.end_path)(*e, cache_content((*c)@), sites@, parent);
                *final(e) == after.0 && cache_content((*final(c))@) == after.1
            },
        forall|e: &mut E, v: &mut VerifierEnv, s: State, instr: &Instr, succs: Vec<State>|
            #[trigger]
            call_ensures(E::transfer, (e, v, s, instr), succs) ==> {
                let after = (b.transfer)(*e, env_content(*v), s@, *instr);
                *final(e) == after.0 && env_content(*final(v)) == after.1 && state_views(succs@)
                    == after.2
            },
        forall|e: &mut E, v: &VerifierEnv, s: &mut State| #[trigger]
            call_ensures(E::resolve_type_conflicts, (e, v, s), ()) ==> {
                let after = (b.adapt)(*e, env_content(*v), (*s)@);
                *final(e) == after.0 && (*final(s))@ == after.1
            },
        forall|e: &mut E, v: &VerifierEnv, s: State, r: State| #[trigger]
            call_ensures(E::prepare_for_cache, (e, v, s), r) ==> {
                let after = (b.prepare)(*e, env_content(*v), s@);
                *final(e) == after.0 && r@ == after.1
            },
        forall|e: &mut E, s: &mut State| #[trigger]
            call_ensures(E::begin_step, (e, s), ()) ==> {
                let after = (b.begin)(*e, (*s)@);
                *final(e) == after.0 && (*final(s))@ == after.1
            },
        forall|e: &mut E| #[trigger]
            call_ensures(E::end_step, (e,), ()) ==> *final(e) == (b.end_step)(*e),
        forall|e: &E, s: &mut State, shown: &Vec<u64>| #[trigger]
            call_ensures(E::apply_refinements, (e, s, shown), ()) ==> (*final(s))@ == (b.refine)(
                *e,
                (*s)@,
                shown@,
            ),
        program_call(e1, env1, prog, domain, config, r1),
        program_call(e2, env2, prog, domain, config, r2),
        *e1 == *e2,
        env_content(env1) == env_content(env2),
    ensures
        *final(e1) == *final(e2),
        same_results(r1, r2),
        failure_content(r1.error) == failure_content(r2.error),
{
    lemma_program_parts(e1, env1, prog, domain, config, r1);
    lemma_program_parts(e2, env2, prog, domain, config, r2);
    let (x1, anchored1, y1, z1, initial1, pruned1) = choose|
        x: &mut E,
        anchored: NumericDomain,
        y: &mut E,
        z: &mut VerifierEnv,
        initial: State,
        pruned: usize,
    |
        {
            &&& #[trigger] call_ensures(E::init_packet_anchors, (x, domain), anchored)
            &&& *x == *e1
            &&& #[trigger] run_call(y, z, prog, config, initial, pruned)
            &&& *y == *final(x)
            &&& *z == env1
            &&& initial@ == entry_view(*env1.ctx, config.bcf_enabled, anchored)
            &&& *final(e1) == *final(y)
            &&& result_of(r1, *final(z), pruned, prog.instrs@.len())
        };
    let (x2, anchored2, y2, z2, initial2, pruned2) = choose|
        x: &mut E,
        anchored: NumericDomain,
        y: &mut E,
        z: &mut VerifierEnv,
        initial: State,
        pruned: usize,
    |
        {
            &&& #[trigger] call_ensures(E::init_packet_anchors, (x, domain), anchored)
            &&& *x == *e2
            &&& #[trigger] run_call(y, z, prog, config, initial, pruned)
            &&& *y == *final(x)
            &&& *z == env2
            &&& initial@ == entry_view(*env2.ctx, config.bcf_enabled, anchored)
            &&& *final(e2) == *final(y)
            &&& result_of(r2, *final(z), pruned, prog.instrs@.len())
        };
    lemma_env_read(env1, env2);
    lemma_same_run(b, y1, z1, y2, z2, prog, config, initial1, initial2, pruned1, pruned2);
    lemma_same_left(*final(z1), *final(z2), r1, r2, pruned1, prog.instrs@.len());
}

pub(crate) proof fn lemma_analysis_parts<E: Engine>(
    e: &mut E,
    ctx: ExecContext,
    prog: Program,
    domain: NumericDomain,
    config: VerifierConfig,
    cert: Option<Certificate>,
    r: AnalysisResult,
)
    requires
        analysis_call(e, ctx, prog, domain, config, cert, r),
    ensures
        exists|refusal: Option<VerificationError>|
            {
                &&& #[trigger] may_refuse(*old(e), ctx, prog, config, refusal)
                &&& if refusal is Some {
                    &&& nothing_explored(r)
                    &&& r.error == refusal
                    &&& *final(e) == *old(e)
                } else if map_refused(ctx) {
                    &&& nothing_explored(r)
                    &&& r.error is Some
                    &&& exists|i: int|
                        0 <= i < ctx.relocs@.len() && names_refused(
                            ctx,
                            r.error->0,
                            #[trigger] ctx.relocs@[i],
                        )
                    &&& *final(e) == *old(e)
                } else {
                    exists|x: &mut E, w: &mut VerifierEnv, failure: Option<String>|
                        {
                            &&& starts_blank(
                                *w,
                                ctx,
                                prog,
                                cert,
                                is_kernel_faithful(config),
                                config.bcf_enabled,
                            )
                            &&& #[trigger] passes_call(x, w, prog, true, failure)
                            &&& *x == *old(e)
                            &&& match failure {
                                Some(text) => {
                                    &&& nothing_explored(r)
                                    &&& r.error == Some(VerificationError::CfgError(text))
                                    &&& *final(e) == *final(x)
                                },
                                None => exists|y: &mut E, explored: VerifierEnv|
                                    {
                                        &&& #[trigger] program_call(
                                            y,
                                            explored,
                                            prog,
                                            domain,
                                            config,
                                            r,
                                        )
                                        &&& *y == *final(x)
                                        &&& explored == *final(w)
                                        &&& *final(e) == *final(y)
                                    },
                            }
                        }
                }
            },
{
    reveal(analysis_call);
    let refusal = choose|refusal: Option<VerificationError>|
        {
            &&& #[trigger] may_refuse(*e, ctx, prog, config, refusal)
            &&& if refusal is Some {
                &&& nothing_explored(r)
                &&& r.error == refusal
                &&& *final(e) == *e
            } else if map_refused(ctx) {
                &&& nothing_explored(r)
                &&& r.error is Some
                &&& exists|i: int|
                    0 <= i < ctx.relocs@.len() && names_refused(
                        ctx,
                        r.error->0,
                        #[trigger] ctx.relocs@[i],
                    )
                &&& *final(e) == *e
            } else {
                exists|x: &mut E, w: &mut VerifierEnv, failure: Option<String>|
                    {
                        &&& starts_blank(
                            *w,
                            ctx,
                            prog,
                            cert,
                            is_kernel_faithful(config),
                            config.bcf_enabled,
                        )
                        &&& #[trigger] call_ensures(run_passes::<E>, (x, w, &prog, true), failure)
                        &&& *x == *e
                        &&& match failure {
                            Some(text) => {
                                &&& nothing_explored(r)
                                &&& r.error == Some(VerificationError::CfgError(text))
                                &&& *final(e) == *final(x)
                            },
                            None => exists|y: &mut E, explored: VerifierEnv|
                                {
                                    &&& #[trigger] call_ensures(
                                        explore_program::<E>,
                                        (y, explored, &prog, domain, &config),
                                        r,
                                    )
                                    &&& *y == *final(x)
                                    &&& explored == *final(w)
                                    &&& *final(e) == *final(y)
                                },
                        }
                    }
            }
        };
    if refusal is None && !map_refused(ctx) {
        reveal(passes_call);
        let (x, w, failure) = choose|x: &mut E, w: &mut VerifierEnv, failure: Option<String>|
            {
                &&& starts_blank(
                    *w,
                    ctx,
                    prog,
                    cert,
                    is_kernel_faithful(config),
                    config.bcf_enabled,
                )
                &&& #[trigger] call_ensures(run_passes::<E>, (x, w, &prog, true), failure)
                &&& *x == *e
                &&& match failure {
                    Some(text) => {
                        &&& nothing_explored(r)
                        &&& r.error == Some(VerificationError::CfgError(text))
                        &&& *final(e) == *final(x)
                    },
                    None => exists|y: &mut E, explored: VerifierEnv|
                        {
                            &&& #[trigger] call_ensures(
                                explore_program::<E>,
                                (y, explored, &prog, domain, &config),
                                r,
                            )
                            &&& *y == *final(x)
                            &&& explored == *final(w)
                            &&& *final(e) == *final(y)
                        },
                }
            };
        assert(passes_call(x, w, prog, true, failure));
        if failure is None {
            reveal(program_call);
            let (y, explored) = choose|y: &mut E, explored: VerifierEnv|
                {
                    &&& #[trigger] call_ensures(
                        explore_program::<E>,
                        (y, explored, &prog, domain, &config),
                        r,
                    )
                    &&& *y == *final(x)
                    &&& explored == *final(w)
                    &&& *final(e) == *final(y)
                };
            assert(program_call(y, explored, prog, domain, config, r));
        }
    }
}

pub(crate) proof fn lemma_same_analysis<E: Engine>(
    b: Behaviour<E>,
    e1: &mut E,
    e2: &mut E,
    ctx: ExecContext,
    prog: Program,
    domain: NumericDomain,
    config: VerifierConfig,
    cert: Option<Certificate>,
    r1: AnalysisResult,
    r2: AnalysisResult,
)
    requires
        by_contents(b),
        forall|e: &mut E, a: &mut Vec<InsnAux>, prog: &Program, r: Result<(), String>| #[trigger]
            call_ensures(E::check_cfg, (e, a, prog), r) ==> {
                let after = (b.cfg)(*e, (*a)@, *prog);
                *final(e) == after.0 && (*final(a))@ == after.1 && check_content(r) == after.2
            },
        forall|e: &mut E, a: &mut Vec<InsnAux>, prog: &Program| #[trigger]
            call_ensures(E::compute_liveness, (e, a, prog), ()) ==> {
                let after = (b.liveness)(*e, (*a)@, *prog);
                *final(e) == after.0 && (*final(a))@ == after.1
            },
        forall|e: &mut E, prog: &Program| #[trigger]
            call_ensures(E::compute_scc, (e, prog), ()) ==> *final(e) == (b.scc)(*e, *prog),
        forall|e: &mut E, d: NumericDomain, r: NumericDomain| #[trigger]
            call_ensures(E::init_packet_anchors, (e, d), r) ==> {
                let after = (b.anchors)(*e, d);
                *final(e) == after.0 && r == after.1
            },
        forall|e: &mut E, c: &mut StateCache, id: u32| #[trigger]
            call_ensures(E::clean, (e, c, id), ()) ==> {
                let after = (b.clean)(*e, cache_content((*c)@), id);
                *final(e) == after.0 && cache_content((*final(c))@) == after.1
            },
        forall|e: &mut E, c: &mut StateCache, h: &Vec<Breadcrumb>, s: &State, k: &State| #[trigger]
            call_ensures(E::propagate_precision, (e, c, h, s, k), ()) ==> {
                let after = (b.precision)(
                    *e,
                    cache_content((*c)@),
                    history_content(h@),
                    s@,
                    k@,
                );
                *final(e) == after.0 && cache_content((*final(c))@) == after.1
            },
        forall|e: &mut E, c: &mut StateCache, s: &State, id: u32, pc: usize| #[trigger]
            call_ensures(E::add_backedge, (e, c, s, id, pc), ()) ==> {
                let after = (b.backedge)(*e, cache_content((*c)@), s@, id, pc);
                *final(e) == after.0 && cache_content((*final(c))@) == after.1
            },
        forall|e: &mut E, c: &mut StateCache, sites: &Vec<usize>, parent: Option<u32>| #[trigger]
            call_ensures(E::end_path, (e, c, sites, parent), ()) ==> {
                let after = (b.end_path)(*e, cache_content((*c)@), sites@, parent);
                *final(e) == after.0 && cache_content((*final(c))@) == after.1
            },
        forall|e: &mut E, v: &mut VerifierEnv, s: State, instr: &Instr, succs: Vec<State>|
            #[trigger]
            call_ensures(E::transfer, (e, v, s, instr), succs) ==> {
                let after = (b.transfer)(*e, env_content(*v), s@, *instr);
                *final(e) == after.0 && env_content(*final(v)) == after.1 && state_views(succs@)
                    == after.2
            },
        forall|e: &mut E, v: &VerifierEnv, s: &mut State| #[trigger]
            call_ensures(E::resolve_type_conflicts, (e, v, s), ()) ==> {
                let after = (b.adapt)(*e, env_content(*v), (*s)@);
                *final(e) == after.0 && (*final(s))@ == after.1
            },
        forall|e: &mut E, v: &VerifierEnv, s: State, r: State| #[trigger]
            call_ensures(E::prepare_for_cache, (e, v, s), r) ==> {
                let after = (b.prepare)(*e, env_content(*v), s@);
                *final(e) == after.0 && r@ == after.1
            },
        forall|e: &mut E, s: &mut State| #[trigger]
            call_ensures(E::begin_step, (e, s), ()) ==> {
                let after = (b.begin)(*e, (*s)@);
                *final(e) == after.0 && (*final(s))@ == after.1
            },
        forall|e: &mut E| #[trigger]
            call_ensures(E::end_step, (e,), ()) ==> *final(e) == (b.end_step)(*e),
        forall|e: &E, s: &mut State, shown: &Vec<u64>| #[trigger]
            call_ensures(E::apply_refinements, (e, s, shown), ()) ==> (*final(s))@ == (b.refine)(
                *e,
                (*s)@,
                shown@,
            ),
        analysis_call(e1, ctx, prog, domain, config, cert, r1),
        analysis_call(e2, ctx, prog, domain, config, cert, r2),
        *e1 == *e2,
    ensures
        *final(e1) == *final(e2),
        same_results(r1, r2),
        r1.error is Some == r2.error is Some,
        refused_in_one_way(ctx) ==> failure_content(r1.error) == failure_content(r2.error),
{
    lemma_analysis_parts(e1, ctx, prog, domain, config, cert, r1);
    lemma_analysis_parts(e2, ctx, prog, domain, config, cert, r2);
    let refusal1 = choose|refusal: Option<VerificationError>|
        {
            &&& #[trigger] may_refuse(*e1, ctx, prog, config, refusal)
            &&& if refusal is Some {
                &&& nothing_explored(r1)
                &&& r1.error == refusal
                &&& *final(e1) == *e1
            } else if map_refused(ctx) {
                &&& nothing_explored(r1)
                &&& r1.error is Some
                &&& exists|i: int|
                    0 <= i < ctx.relocs@.len() && names_refused(
                        ctx,
                        r1.error->0,
                        #[trigger] ctx.relocs@[i],
                    )
                &&& *final(e1) == *e1
            } else {
                exists|x: &mut E, w: &mut VerifierEnv, failure: Option<String>|
                    {
                        &&& starts_blank(
                            *w,
                            ctx,
                            prog,
                            cert,
                            is_kernel_faithful(config),
                            config.bcf_enabled,
                        )
                        &&& #[trigger] passes_call(x, w, prog, true, failure)
                        &&& *x == *e1
                        &&& match failure {
                            Some(text) => {
                                &&& nothing_explored(r1)
                                &&& r1.error == Some(VerificationError::CfgError(text))
                                &&& *final(e1) == *final(x)
                            },
                            None => exists|y: &mut E, explored: VerifierEnv|
                                {
                                    &&& #[trigger] program_call(
                                        y,
                                        explored,
                                        prog,
                                        domain,
                                        config,
                                        r1,
                                    )
                                    &&& *y == *final(x)
                                    &&& explored == *final(w)
                                    &&& *final(e1) == *final(y)
                                },
                        }
                    }
            }
        };
    let refusal2 = choose|refusal: Option<VerificationError>|
        {
            &&& #[trigger] may_refuse(*e2, ctx, prog, config, refusal)
            &&& if refusal is Some {
                &&& nothing_explored(r2)
                &&& r2.error == refusal
                &&& *final(e2) == *e2
            } else if map_refused(ctx) {
                &&& nothing_explored(r2)
                &&& r2.error is Some
                &&& exists|i: int|
                    0 <= i < ctx.relocs@.len() && names_refused(
                        ctx,
                        r2.error->0,
                        #[trigger] ctx.relocs@[i],
                    )
                &&& *final(e2) == *e2
            } else {
                exists|x: &mut E, w: &mut VerifierEnv, failure: Option<String>|
                    {
                        &&& starts_blank(
                            *w,
                            ctx,
                            prog,
                            cert,
                            is_kernel_faithful(config),
                            config.bcf_enabled,
                        )
                        &&& #[trigger] passes_call(x, w, prog, true, failure)
                        &&& *x == *e2
                        &&& match failure {
                            Some(text) => {
                                &&& nothing_explored(r2)
                                &&& r2.error == Some(VerificationError::CfgError(text))
                                &&& *final(e2) == *final(x)
                            },
                            None => exists|y: &mut E, explored: VerifierEnv|
                                {
                                    &&& #[trigger] program_call(
                                        y,
                                        explored,
                                        prog,
                                        domain,
                                        config,
                                        r2,
                                    )
                                    &&& *y == *final(x)
                                    &&& explored == *final(w)
                                    &&& *final(e2) == *final(y)
                                },
                        }
                    }
            }
        };
    lemma_same_refusal(b, *e1, ctx, prog, config, refusal1, refusal2);
    if refusal1 is Some {
        lemma_same_nothing(r1, r2);
    } else if map_refused(ctx) {
        lemma_same_nothing(r1, r2);
        if refused_in_one_way(ctx) {
            lemma_same_map_refusal(ctx, r1.error, r2.error);
        }
    } else {
        let (x1, w1, failure1) = choose|x: &mut E, w: &mut VerifierEnv, failure: Option<String>|
            {
                &&& starts_blank(
                    *w,
                    ctx,
                    prog,
                    cert,
                    is_kernel_faithful(config),
                    config.bcf_enabled,
                )
                &&& #[trigger] passes_call(x, w, prog, true, failure)
                &&& *x == *e1
                &&& match failure {
                    Some(text) => {
                        &&& nothing_explored(r1)
                        &&& r1.error == Some(VerificationError::CfgError(text))
                        &&& *final(e1) == *final(x)
                    },
                    None => exists|y: &mut E, explored: VerifierEnv|
                        {
                            &&& #[trigger] program_call(y, explored, prog, domain, config, r1)
                            &&& *y == *final(x)
                            &&& explored == *final(w)
                            &&& *final(e1) == *final(y)
                        },
                }
            };
        let (x2, w2, failure2) = choose|x: &mut E, w: &mut VerifierEnv, failure: Option<String>|
            {
                &&& starts_blank(
                    *w,
                    ctx,
                    prog,
                    cert,
                    is_kernel_faithful(config),
                    config.bcf_enabled,
                )
                &&& #[trigger] passes_call(x, w, prog, true, failure)
                &&& *x == *e2
                &&& match failure {
                    Some(text) => {
                        &&& nothing_explored(r2)
                        &&& r2.error == Some(VerificationError::CfgError(text))
                        &&& *final(e2) == *final(x)
                    },
                    None => exists|y: &mut E, explored: VerifierEnv|
                        {
                            &&& #[trigger] program_call(y, explored, prog, domain, config, r2)
                            &&& *y == *final(x)
                            &&& explored == *final(w)
                            &&& *final(e2) == *final(y)
                        },
                }
            };
        lemma_same_blank(
            *w1,
            *w2,
            ctx,
            prog,
            cert,
            is_kernel_faithful(config),
            config.bcf_enabled,
        );
        lemma_same_passes(b, x1, w1, x2, w2, prog, true, failure1, failure2);
        reveal(failure_content);
        if failure1 is Some {
            lemma_same_nothing(r1, r2);
        } else {
            let (y1, explored1) = choose|y: &mut E, explored: VerifierEnv|
                {
                    &&& #[trigger] program_call(y, explored, prog, domain, config, r1)
                    &&& *y == *final(x1)
                    &&& explored == *final(w1)
                    &&& *final(e1) == *final(y)
                };
            let (y2, explored2) = choose|y: &mut E, explored: VerifierEnv|
                {
                    &&& #[trigger] program_call(y, explored, prog, domain, config, r2)
                    &&& *y == *final(x2)
                    &&& explored == *final(w2)
                    &&& *final(e2) == *final(y)
                };
            lemma_same_program(
                b,
                y1,
                explored1,
                y2,
                explored2,
                prog,
                domain,
                config,
                r1,
                r2,
            );
        }
    }
}

pub(crate) proof fn lemma_callback_parts<E: Engine>(
    e: &mut E,
    ctx: ExecContext,
    prog: Program,
    domain: NumericDomain,
    config: VerifierConfig,
    pc: usize,
    r: Option<VerificationError>,
)
    requires
        callback_call(e, ctx, prog, domain, config, pc, r),
    ensures
        exists|refusal: Option<VerificationError>|
            {
                &&& #[trigger] may_refuse(*old(e), ctx, prog, config, refusal)
                &&& if refusal is Some {
                    r == refusal && *final(e) == *old(e)
                } else {
                    exists|
                        blank: VerifierEnv,
                        x: &mut E,
                        w: &mut VerifierEnv,
                        failure: Option<String>,
                    |
                        {
                            &&& #[trigger] starts_blank(
                                blank,
                                ctx,
                                prog,
                                None,
                                is_kernel_faithful(config),
                                config.bcf_enabled,
                            )
                            &&& #[trigger] passes_call(x, w, prog, false, failure)
                            &&& *x == *old(e)
                            &&& *w == (VerifierEnv { analyzing_exception_cb: true, ..blank })
                            &&& match failure {
                                Some(text) => {
                                    &&& r == Some(VerificationError::CfgError(text))
                                    &&& *final(e) == *final(x)
                                },
                                None => exists|
                                    q: &mut E,
                                    anchored: NumericDomain,
                                    y: &mut E,
                                    z: &mut VerifierEnv,
                                    initial: State,
                                    pruned: usize,
                                |
                                    {
                                        &&& #[trigger] call_ensures(
                                            E::init_packet_anchors,
                                            (q, domain),
                                            anchored,
                                        )
                                        &&& *q == *final(x)
                                        &&& #[trigger] run_call(y, z, prog, config, initial, pruned)
                                        &&& *y == *final(q)
                                        &&& *z == *final(w)
                                        &&& initial@ == plain_entry(
                                            anchored,
                                            pc,
                                            RegType::ScalarValue,
                                        )
                                        &&& *final(e) == *final(y)
                                        &&& r == final(z).error
                                    },
                            }
                        }
                }
            },
{
    reveal(callback_call);
    let refusal = choose|refusal: Option<VerificationError>|
        {
            &&& #[trigger] may_refuse(*e, ctx, prog, config, refusal)
            &&& if refusal is Some {
                r == refusal && *final(e) == *e
            } else {
                exists|blank: VerifierEnv, x: &mut E, w: &mut VerifierEnv, failure: Option<String>|
                    {
                        &&& #[trigger] starts_blank(
                            blank,
                            ctx,
                            prog,
                            None,
                            is_kernel_faithful(config),
                            config.bcf_enabled,
                        )
                        &&& #[trigger] call_ensures(run_passes::<E>, (x, w, &prog, false), failure)
                        &&& *x == *e
                        &&& *w == (VerifierEnv { analyzing_exception_cb: true, ..blank })
                        &&& match failure {
                            Some(text) => {
                                &&& r == Some(VerificationError::CfgError(text))
                                &&& *final(e) == *final(x)
                            },
                            None => exists|
                                q: &mut E,
                                anchored: NumericDomain,
                                y: &mut E,
                                z: &mut VerifierEnv,
                                initial: State,
                                pruned: usize,
                            |
                                {
                                    &&& #[trigger] call_ensures(
                                        E::init_packet_anchors,
                                        (q, domain),
                                        anchored,
                                    )
                                    &&& *q == *final(x)
                                    &&& #[trigger] call_ensures(
                                        run_worklist::<E>,
                                        (y, z, &prog, &config, initial),
                                        pruned,
                                    )
                                    &&& *y == *final(q)
                                    &&& *z == *final(w)
                                    &&& initial@ == plain_entry(anchored, pc, RegType::ScalarValue)
                                    &&& *final(e) == *final(y)
                                    &&& r == final(z).error
                                },
                        }
                    }
            }
        };
    if refusal is None {
        reveal(passes_call);
        let (blank, x, w, failure) = choose|
            blank: VerifierEnv,
            x: &mut E,
            w: &mut VerifierEnv,
            failure: Option<String>,
        |
            {
                &&& #[trigger] starts_blank(
                    blank,
                    ctx,
                    prog,
                    None,
                    is_kernel_faithful(config),
                    config.bcf_enabled,
                )
                &&& #[trigger] call_ensures(run_passes::<E>, (x, w, &prog, false), failure)
                &&& *x == *e
                &&& *w == (VerifierEnv { analyzing_exception_cb: true, ..blank })
                &&& match failure {
                    Some(text) => {
                        &&& r == Some(VerificationError::CfgError(text))
                        &&& *final(e) == *final(x)
                    },
                    None => exists|
                        q: &mut E,
                        anchored: NumericDomain,
                        y: &mut E,
                        z: &mut VerifierEnv,
                        initial: State,
                        pruned: usize,
                    |
                        {
                            &&& #[trigger] call_ensures(
                                E::init_packet_anchors,
                                (q, domain),
                                anchored,
                            )
                            &&& *q == *final(x)
                            &&& #[trigger] call_ensures(
                                run_worklist::<E>,
                                (y, z, &prog, &config, initial),
                                pruned,
                            )
                            &&& *y == *final(q)
                            &&& *z == *final(w)
                            &&& initial@ == plain_entry(anchored, pc, RegType::ScalarValue)
                            &&& *final(e) == *final(y)
                            &&& r == final(z).error
                        },
                }
            };
        assert(passes_call(x, w, prog, false, failure));
        if failure is None {
            reveal(run_call);
            let (q, anchored, y, z, initial, pruned) = choose|
                q: &mut E,
                anchored: NumericDomain,
                y: &mut E,
                z: &mut VerifierEnv,
                initial: State,
                pruned: usize,
            |
                {
                    &&& #[trigger] call_ensures(E::init_packet_anchors, (q, domain), anchored)
                    &&& *q == *final(x)
                    &&& #[trigger] call_ensures(
                        run_worklist::<E>,
                        (y, z, &prog, &config, initial),
                        pruned,
                    )
                    &&& *y == *final(q)
                    &&& *z == *final(w)
                    &&& initial@ == plain_entry(anchored, pc, RegType::ScalarValue)
                    &&& *final(e) == *final(y)
                    &&& r == final(z).error
                };
            assert(run_call(y, z, prog, config, initial, pruned));
        }
    }
}

pub(crate) proof fn lemma_same_callback<E: Engine>(
    b: Behaviour<E>,
    e1: &mut E,
    e2: &mut E,
    ctx: ExecContext,
    prog: Program,
    domain: NumericDomain,
    config: VerifierConfig,
    pc: usize,
    r1: Option<VerificationError>,
    r2: Option<VerificationError>,
)
    requires
        by_contents(b),
        forall|e: &mut E, a: &mut Vec<InsnAux>, prog: &Program, r: Result<(), String>| #[trigger]
            call_ensures(E::check_cfg, (e, a, prog), r) ==> {
                let after = (b.cfg)(*e, (*a)@, *prog);
                *final(e) == after.0 && (*final(a))@ == after.1 && check_content(r) == after.2
            },
        forall|e: &mut E, a: &mut Vec<InsnAux>, prog: &Program| #[trigger]
            call_ensures(E::compute_liveness, (e, a, prog), ()) ==> {
                let after = (b.liveness)(*e, (*a)@, *prog);
                *final(e) == after.0 && (*final(a))@ == after.1
            },
        forall|e: &mut E, prog: &Program| #[trigger]
            call_ensures(E::compute_scc, (e, prog), ()) ==> *final(e) == (b.scc)(*e, *prog),
        forall|e: &mut E, d: NumericDomain, r: NumericDomain| #[trigger]
            call_ensures(E::init_packet_anchors, (e, d), r) ==> {
                let after = (b.anchors)(*e, d);
                *final(e) == after.0 && r == after.1
            },
        forall|e: &mut E, c: &mut StateCache, id: u32| #[trigger]
            call_ensures(E::clean, (e, c, id), ()) ==> {
                let after = (b.clean)(*e, cache_content((*c)@), id);
                *final(e) == after.0 && cache_content((*final(c))@) == after.1
            },
        forall|e: &mut E, c: &mut StateCache, h: &Vec<Breadcrumb>, s: &State, k: &State| #[trigger]
            call_ensures(E::propagate_precision, (e, c, h, s, k), ()) ==> {
                let after = (b.precision)(
                    *e,
                    cache_content((*c)@),
                    history_content(h@),
                    s@,
                    k@,
                );
                *final(e) == after.0 && cache_content((*final(c))@) == after.1
            },
        forall|e: &mut E, c: &mut StateCache, s: &State, id: u32, pc: usize| #[trigger]
            call_ensures(E::add_backedge, (e, c, s, id, pc), ()) ==> {
                let after = (b.backedge)(*e, cache_content((*c)@), s@, id, pc);
                *final(e) == after.0 && cache_content((*final(c))@) == after.1
            },
        forall|e: &mut E, c: &mut StateCache, sites: &Vec<usize>, parent: Option<u32>| #[trigger]
            call_ensures(E::end_path, (e, c, sites, parent), ()) ==> {
                let after = (b.end_path)(*e, cache_content((*c)@), sites@, parent);
                *final(e) == after.0 && cache_content((*final(c))@) == after.1
            },
        forall|e: &mut E, v: &mut VerifierEnv, s: State, instr: &Instr, succs: Vec<State>|
            #[trigger]
            call_ensures(E::transfer, (e, v, s, instr), succs) ==> {
                let after = (b.transfer)(*e, env_content(*v), s@, *instr);
                *final(e) == after.0 && env_content(*final(v)) == after.1 && state_views(succs@)
                    == after.2
            },
        forall|e: &mut E, v: &VerifierEnv, s: &mut State| #[trigger]
            call_ensures(E::resolve_type_conflicts, (e, v, s), ()) ==> {
                let after = (b.adapt)(*e, env_content(*v), (*s)@);
                *final(e) == after.0 && (*final(s))@ == after.1
            },
        forall|e: &mut E, v: &VerifierEnv, s: State, r: State| #[trigger]
            call_ensures(E::prepare_for_cache, (e, v, s), r) ==> {
                let after = (b.prepare)(*e, env_content(*v), s@);
                *final(e) == after.0 && r@ == after.1
            },
        forall|e: &mut E, s: &mut State| #[trigger]
            call_ensures(E::begin_step, (e, s), ()) ==> {
                let after = (b.begin)(*e, (*s)@);
                *final(e) == after.0 && (*final(s))@ == after.1
            },
        forall|e: &mut E| #[trigger]
            call_ensures(E::end_step, (e,), ()) ==> *final(e) == (b.end_step)(*e),
        forall|e: &E, s: &mut State, shown: &Vec<u64>| #[trigger]
            call_ensures(E::apply_refinements, (e, s, shown), ()) ==> (*final(s))@ == (b.refine)(
                *e,
                (*s)@,
                shown@,
            ),
        callback_call(e1, ctx, prog, domain, config, pc, r1),
        callback_call(e2, ctx, prog, domain, config, pc, r2),
        *e1 == *e2,
    ensures
        *final(e1) == *final(e2),
        failure_content(r1) == failure_content(r2),
{
    lemma_callback_parts(e1, ctx, prog, domain, config, pc, r1);
    lemma_callback_parts(e2, ctx, prog, domain, config, pc, r2);
    let refusal1 = choose|refusal: Option<VerificationError>|
        {
            &&& #[trigger] may_refuse(*e1, ctx, prog, config, refusal)
            &&& if refusal is Some {
                r1 == refusal && *final(e1) == *e1
            } else {
                exists|blank: VerifierEnv, x: &mut E, w: &mut VerifierEnv, failure: Option<String>|
                    {
                        &&& #[trigger] starts_blank(
                            blank,
                            ctx,
                            prog,
                            None,
                            is_kernel_faithful(config),
                            config.bcf_enabled,
                        )
                        &&& #[trigger] passes_call(x, w, prog, false, failure)
                        &&& *x == *e1
                        &&& *w == (VerifierEnv { analyzing_exception_cb: true, ..blank })
                        &&& match failure {
                            Some(text) => {
                                &&& r1 == Some(VerificationError::CfgError(text))
                                &&& *final(e1) == *final(x)
                            },
                            None => exists|
                                q: &mut E,
                                anchored: NumericDomain,
                                y: &mut E,
                                z: &mut VerifierEnv,
                                initial: State,
                                pruned: usize,
                            |
                                {
                                    &&& #[trigger] call_ensures(
                                        E::init_packet_anchors,
                                        (q, domain),
                                        anchored,
                                    )
                                    &&& *q == *final(x)
                                    &&& #[trigger] run_call(y, z, prog, config, initial, pruned)
                                    &&& *y == *final(q)
                                    &&& *z == *final(w)
                                    &&& initial@ == plain_entry(anchored, pc, RegType::ScalarValue)
                                    &&& *final(e1) == *final(y)
                                    &&& r1 == final(z).error
                                },
                        }
                    }
            }
        };
    let refusal2 = choose|refusal: Option<VerificationError>|
        {
            &&& #[trigger] may_refuse(*e2, ctx, prog, config, refusal)
            &&& if refusal is Some {
                r2 == refusal && *final(e2) == *e2
            } else {
                exists|blank: VerifierEnv, x: &mut E, w: &mut VerifierEnv, failure: Option<String>|
                    {
                        &&& #[trigger] starts_blank(
                            blank,
                            ctx,
                            prog,
                            None,
                            is_kernel_faithful(config),
                            config.bcf_enabled,
                        )
                        &&& #[trigger] passes_call(x, w, prog, false, failure)
                        &&& *x == *e2
                        &&& *w == (VerifierEnv { analyzing_exception_cb: true, ..blank })
                        &&& match failure {
                            Some(text) => {
                                &&& r2 == Some(VerificationError::CfgError(text))
                                &&& *final(e2) == *final(x)
                            },
                            None => exists|
                                q: &mut E,
                                anchored: NumericDomain,
                                y: &mut E,
                                z: &mut VerifierEnv,
                                initial: State,
                                pruned: usize,
                            |
                                {
                                    &&& #[trigger] call_ensures(
                                        E::init_packet_anchors,
                                        (q, domain),
                                        anchored,
                                    )
                                    &&& *q == *final(x)
                                    &&& #[trigger] run_call(y, z, prog, config, initial, pruned)
                                    &&& *y == *final(q)
                                    &&& *z == *final(w)
                                    &&& initial@ == plain_entry(anchored, pc, RegType::ScalarValue)
                                    &&& *final(e2) == *final(y)
                                    &&& r2 == final(z).error
                                },
                        }
                    }
            }
        };
    lemma_same_refusal(b, *e1, ctx, prog, config, refusal1, refusal2);
    if refusal1 is None {
        let (blank1, x1, w1, failure1) = choose|
            blank: VerifierEnv,
            x: &mut E,
            w: &mut VerifierEnv,
            failure: Option<String>,
        |
            {
                &&& #[trigger] starts_blank(
                    blank,
                    ctx,
                    prog,
                    None,
                    is_kernel_faithful(config),
                    config.bcf_enabled,
                )
                &&& #[trigger] passes_call(x, w, prog, false, failure)
                &&& *x == *e1
                &&& *w == (VerifierEnv { analyzing_exception_cb: true, ..blank })
                &&& match failure {
                    Some(text) => {
                        &&& r1 == Some(VerificationError::CfgError(text))
                        &&& *final(e1) == *final(x)
                    },
                    None => exists|
                        q: &mut E,
                        anchored: NumericDomain,
                        y: &mut E,
                        z: &mut VerifierEnv,
                        initial: State,
                        pruned: usize,
                    |
                        {
                            &&& #[trigger] call_ensures(
                                E::init_packet_anchors,
                                (q, domain),
                                anchored,
                            )
                            &&& *q == *final(x)
                            &&& #[trigger] run_call(y, z, prog, config, initial, pruned)
                            &&& *y == *final(q)
                            &&& *z == *final(w)
                            &&& initial@ == plain_entry(anchored, pc, RegType::ScalarValue)
                            &&& *final(e1) == *final(y)
                            &&& r1 == final(z).error
                        },
                }
            };
        let (blank2, x2, w2, failure2) = choose|
            blank: VerifierEnv,
            x: &mut E,
            w: &mut VerifierEnv,
            failure: Option<String>,
        |
            {
                &&& #[trigger] starts_blank(
                    blank,
                    ctx,
                    prog,
                    None,
                    is_kernel_faithful(config),
                    config.bcf_enabled,
                )
                &&& #[trigger] passes_call(x, w, prog, false, failure)
                &&& *x == *e2
                &&& *w == (VerifierEnv { analyzing_exception_cb: true, ..blank })
                &&& match failure {
                    Some(text) => {
                        &&& r2 == Some(VerificationError::CfgError(text))
                        &&& *final(e2) == *final(x)
                    },
                    None => exists|
                        q: &mut E,
                        anchored: NumericDomain,
                        y: &mut E,
                        z: &mut VerifierEnv,
                        initial: State,
                        pruned: usize,
                    |
                        {
                            &&& #[trigger] call_ensures(
                                E::init_packet_anchors,
                                (q, domain),
                                anchored,
                            )
                            &&& *q == *final(x)
                            &&& #[trigger] run_call(y, z, prog, config, initial, pruned)
                            &&& *y == *final(q)
                            &&& *z == *final(w)
                            &&& initial@ == plain_entry(anchored, pc, RegType::ScalarValue)
                            &&& *final(e2) == *final(y)
                            &&& r2 == final(z).error
                        },
                }
            };
        lemma_same_blank(
            blank1,
            blank2,
            ctx,
            prog,
            None,
            is_kernel_faithful(config),
            config.bcf_enabled,
        );
        lemma_env_read(blank1, blank2);
        lemma_same_env(*w1, *w2);
        lemma_same_passes(b, x1, w1, x2, w2, prog, false, failure1, failure2);
        if failure1 is Some {
            reveal(failure_content);
        } else {
            let (q1, anchored1, y1, z1, initial1, pruned1) = choose|
                q: &mut E,
                anchored: NumericDomain,
                y: &mut E,
                z: &mut VerifierEnv,
                initial: State,
                pruned: usize,
            |
                {
                    &&& #[trigger] call_ensures(E::init_packet_anchors, (q, domain), anchored)
                    &&& *q == *final(x1)
                    &&& #[trigger] run_call(y, z, prog, config, initial, pruned)
                    &&& *y == *final(q)
                    &&& *z == *final(w1)
                    &&& initial@ == plain_entry(anchored, pc, RegType::ScalarValue)
                    &&& *final(e1) == *final(y)
                    &&& r1 == final(z).error
                };
            let (q2, anchored2, y2, z2, initial2, pruned2) = choose|
                q: &mut E,
                anchored: NumericDomain,
                y: &mut E,
                z: &mut VerifierEnv,
                initial: State,
                pruned: usize,
            |
                {
                    &&& #[trigger] call_ensures(E::init_packet_anchors, (q, domain), anchored)
                    &&& *q == *final(x2)
                    &&& #[trigger] run_call(y, z, prog, config, initial, pruned)
                    &&& *y == *final(q)
                    &&& *z == *final(w2)
                    &&& initial@ == plain_entry(anchored, pc, RegType::ScalarValue)
                    &&& *final(e2) == *final(y)
                    &&& r2 == final(z).error
                };
            lemma_same_run(b, y1, z1, y2, z2, prog, config, initial1, initial2, pruned1, pruned2);
            lemma_env_read(*final(z1), *final(z2));
        }
    }
}

// ---------------------------------------------------------------------------
// Laws
// ---------------------------------------------------------------------------

/// Two analyses of a program that start with the same abstraction and the same
/// certificate give the same, where every method of the engine that a run calls is
/// decided by the engine and by what it is given. Which of several refused maps an
/// error names is left open; both analyses fail there.
pub proof fn law_analyses_are_decided<E: Engine>(
    b: Behaviour<E>,
    engine: &mut E,
    other: &mut E,
    ctx: ExecContext,
    prog: Program,
    domain: NumericDomain,
    config: VerifierConfig,
    cert: Option<Certificate>,
    first: AnalysisResult,
    second: AnalysisResult,
)
    requires
        by_contents(b),
        forall|e: &mut E, a: &mut Vec<InsnAux>, prog: &Program, r: Result<(), String>| #[trigger]
            call_ensures(E::check_cfg, (e, a, prog), r) ==> {
                let after = (b.cfg)(*e, (*a)@, *prog);
                *final(e) == after.0 && (*final(a))@ == after.1 && check_content(r) == after.2
            },
        forall|e: &mut E, a: &mut Vec<InsnAux>, prog: &Program| #[trigger]
            call_ensures(E::compute_liveness, (e, a, prog), ()) ==> {
                let after = (b.liveness)(*e, (*a)@, *prog);
                *final(e) == after.0 && (*final(a))@ == after.1
            },
        forall|e: &mut E, prog: &Program| #[trigger]
            call_ensures(E::compute_scc, (e, prog), ()) ==> *final(e) == (b.scc)(*e, *prog),
        forall|e: &mut E, d: NumericDomain, r: NumericDomain| #[trigger]
            call_ensures(E::init_packet_anchors, (e, d), r) ==> {
                let after = (b.anchors)(*e, d);
                *final(e) == after.0 && r == after.1
            },
        forall|e: &mut E, c: &mut StateCache, id: u32| #[trigger]
            call_ensures(E::clean, (e, c, id), ()) ==> {
                let after = (b.clean)(*e, cache_content((*c)@), id);
                *final(e) == after.0 && cache_content((*final(c))@) == after.1
            },
        forall|e: &mut E, c: &mut StateCache, h: &Vec<Breadcrumb>, s: &State, k: &State| #[trigger]
            call_ensures(E::propagate_precision, (e, c, h, s, k), ()) ==> {
                let after = (b.precision)(
                    *e,
                    cache_content((*c)@),
                    history_content(h@),
                    s@,
                    k@,
                );
                *final(e) == after.0 && cache_content((*final(c))@) == after.1
            },
        forall|e: &mut E, c: &mut StateCache, s: &State, id: u32, pc: usize| #[trigger]
            call_ensures(E::add_backedge, (e, c, s, id, pc), ()) ==> {
                let after = (b.backedge)(*e, cache_content((*c)@), s@, id, pc);
                *final(e) == after.0 && cache_content((*final(c))@) == after.1
            },
        forall|e: &mut E, c: &mut StateCache, sites: &Vec<usize>, parent: Option<u32>| #[trigger]
            call_ensures(E::end_path, (e, c, sites, parent), ()) ==> {
                let after = (b.end_path)(*e, cache_content((*c)@), sites@, parent);
                *final(e) == after.0 && cache_content((*final(c))@) == after.1
            },
        forall|e: &mut E, v: &mut VerifierEnv, s: State, instr: &Instr, succs: Vec<State>|
            #[trigger]
            call_ensures(E::transfer, (e, v, s, instr), succs) ==> {
                let after = (b.transfer)(*e, env_content(*v), s@, *instr);
                *final(e) == after.0 && env_content(*final(v)) == after.1 && state_views(succs@)
                    == after.2
            },
        forall|e: &mut E, v: &VerifierEnv, s: &mut State| #[trigger]
            call_ensures(E::resolve_type_conflicts, (e, v, s), ()) ==> {
                let after = (b.adapt)(*e, env_content(*v), (*s)@);
                *final(e) == after.0 && (*final(s))@ == after.1
            },
        forall|e: &mut E, v: &VerifierEnv, s: State, r: State| #[trigger]
            call_ensures(E::prepare_for_cache, (e, v, s), r) ==> {
                let after = (b.prepare)(*e, env_content(*v), s@);
                *final(e) == after.0 && r@ == after.1
            },
        forall|e: &mut E, s: &mut State| #[trigger]
            call_ensures(E::begin_step, (e, s), ()) ==> {
                let after = (b.begin)(*e, (*s)@);
                *final(e) == after.0 && (*final(s))@ == after.1
            },
        forall|e: &mut E| #[trigger]
            call_ensures(E::end_step, (e,), ()) ==> *final(e) == (b.end_step)(*e),
        forall|e: &E, s: &mut State, shown: &Vec<u64>| #[trigger]
            call_ensures(E::apply_refinements, (e, s, shown), ()) ==> (*final(s))@ == (b.refine)(
                *e,
                (*s)@,
                shown@,
            ),
        *engine == *other,
        call_ensures(
            analyze_from::<E>,
            (engine, &ctx, &prog, domain, &config, cert),
            first,
        ),
        call_ensures(
            analyze_from::<E>,
            (other, &ctx, &prog, domain, &config, cert),
            second,
        ),
    ensures
        *final(engine) == *final(other),
        same_results(first, second),
        first.error is Some == second.error is Some,
        refused_in_one_way(ctx) ==> failure_content(first.error) == failure_content(second.error),
{
    assert(analysis_call(engine, ctx, prog, domain, config, cert, first)) by {
        reveal(analysis_call);
    }
    assert(analysis_call(other, ctx, prog, domain, config, cert, second)) by {
        reveal(analysis_call);
    }
    lemma_same_analysis(b, engine, other, ctx, prog, domain, config, cert, first, second);
}

/// With intervals an analysis gives with a certificate that is refused what it gives
/// without one, and from one entry matrix what it gives from another, where every
/// method of the engine that a run calls is decided by the engine and by what it is
/// given. Which of several refused maps an error names is left open; both analyses
/// fail there.
pub proof fn law_refused_certificates_change_nothing<E: Engine>(
    b: Behaviour<E>,
    engine: &mut E,
    other: &mut E,
    ctx: ExecContext,
    prog: Program,
    entry_dbm: Dbm,
    other_dbm: Dbm,
    config: VerifierConfig,
    cert: Certificate,
    with: AnalysisResult,
    without: AnalysisResult,
)
    requires
        by_contents(b),
        forall|e: &mut E, a: &mut Vec<InsnAux>, prog: &Program, r: Result<(), String>| #[trigger]
            call_ensures(E::check_cfg, (e, a, prog), r) ==> {
                let after = (b.cfg)(*e, (*a)@, *prog);
                *final(e) == after.0 && (*final(a))@ == after.1 && check_content(r) == after.2
            },
        forall|e: &mut E, a: &mut Vec<InsnAux>, prog: &Program| #[trigger]
            call_ensures(E::compute_liveness, (e, a, prog), ()) ==> {
                let after = (b.liveness)(*e, (*a)@, *prog);
                *final(e) == after.0 && (*final(a))@ == after.1
            },
        forall|e: &mut E, prog: &Program| #[trigger]
            call_ensures(E::compute_scc, (e, prog), ()) ==> *final(e) == (b.scc)(*e, *prog),
        forall|e: &mut E, d: NumericDomain, r: NumericDomain| #[trigger]
            call_ensures(E::init_packet_anchors, (e, d), r) ==> {
                let after = (b.anchors)(*e, d);
                *final(e) == after.0 && r == after.1
            },
        forall|e: &mut E, c: &mut StateCache, id: u32| #[trigger]
            call_ensures(E::clean, (e, c, id), ()) ==> {
                let after = (b.clean)(*e, cache_content((*c)@), id);
                *final(e) == after.0 && cache_content((*final(c))@) == after.1
            },
        forall|e: &mut E, c: &mut StateCache, h: &Vec<Breadcrumb>, s: &State, k: &State| #[trigger]
            call_ensures(E::propagate_precision, (e, c, h, s, k), ()) ==> {
                let after = (b.precision)(
                    *e,
                    cache_content((*c)@),
                    history_content(h@),
                    s@,
                    k@,
                );
                *final(e) == after.0 && cache_content((*final(c))@) == after.1
            },
        forall|e: &mut E, c: &mut StateCache, s: &State, id: u32, pc: usize| #[trigger]
            call_ensures(E::add_backedge, (e, c, s, id, pc), ()) ==> {
                let after = (b.backedge)(*e, cache_content((*c)@), s@, id, pc);
                *final(e) == after.0 && cache_content((*final(c))@) == after.1
            },
        forall|e: &mut E, c: &mut StateCache, sites: &Vec<usize>, parent: Option<u32>| #[trigger]
            call_ensures(E::end_path, (e, c, sites, parent), ()) ==> {
                let after = (b.end_path)(*e, cache_content((*c)@), sites@, parent);
                *final(e) == after.0 && cache_content((*final(c))@) == after.1
            },
        forall|e: &mut E, v: &mut VerifierEnv, s: State, instr: &Instr, succs: Vec<State>|
            #[trigger]
            call_ensures(E::transfer, (e, v, s, instr), succs) ==> {
                let after = (b.transfer)(*e, env_content(*v), s@, *instr);
                *final(e) == after.0 && env_content(*final(v)) == after.1 && state_views(succs@)
                    == after.2
            },
        forall|e: &mut E, v: &VerifierEnv, s: &mut State| #[trigger]
            call_ensures(E::resolve_type_conflicts, (e, v, s), ()) ==> {
                let after = (b.adapt)(*e, env_content(*v), (*s)@);
                *final(e) == after.0 && (*final(s))@ == after.1
            },
        forall|e: &mut E, v: &VerifierEnv, s: State, r: State| #[trigger]
            call_ensures(E::prepare_for_cache, (e, v, s), r) ==> {
                let after = (b.prepare)(*e, env_content(*v), s@);
                *final(e) == after.0 && r@ == after.1
            },
        forall|e: &mut E, s: &mut State| #[trigger]
            call_ensures(E::begin_step, (e, s), ()) ==> {
                let after = (b.begin)(*e, (*s)@);
                *final(e) == after.0 && (*final(s))@ == after.1
            },
        forall|e: &mut E| #[trigger]
            call_ensures(E::end_step, (e,), ()) ==> *final(e) == (b.end_step)(*e),
        forall|e: &E, s: &mut State, shown: &Vec<u64>| #[trigger]
            call_ensures(E::apply_refinements, (e, s, shown), ()) ==> (*final(s))@ == (b.refine)(
                *e,
                (*s)@,
                shown@,
            ),
        config.domain_mode == DomainMode::Interval,
        refuses_certificate(*engine, prog, cert),
        *engine == *other,
        call_ensures(
            analyze_program_full::<E>,
            (engine, &ctx, &prog, entry_dbm, &config, Some(cert)),
            with,
        ),
        call_ensures(
            analyze_program_full::<E>,
            (other, &ctx, &prog, other_dbm, &config, None::<Certificate>),
            without,
        ),
    ensures
        *final(engine) == *final(other),
        same_results(with, without),
        with.error is Some == without.error is Some,
        refused_in_one_way(ctx) ==> failure_content(with.error) == failure_content(without.error),
{
    let domain = NumericDomain::Interval(0);
    law_refused_certificates_have_no_part(
        engine,
        ctx,
        prog,
        entry_dbm,
        config,
        Some(cert),
        with,
    );
    law_refused_certificates_have_no_part(other, ctx, prog, other_dbm, config, None, without);
    let x = choose|e: &mut E|
        {
            &&& #[trigger] call_ensures(
                analyze_from::<E>,
                (e, &ctx, &prog, domain, &config, None::<Certificate>),
                with,
            )
            &&& *e == *engine
            &&& *final(e) == *final(engine)
        };
    let y = choose|e: &mut E|
        {
            &&& #[trigger] call_ensures(
                analyze_from::<E>,
                (e, &ctx, &prog, domain, &config, None::<Certificate>),
                without,
            )
            &&& *e == *other
            &&& *final(e) == *final(other)
        };
    law_analyses_are_decided(b, x, y, ctx, prog, domain, config, None, with, without);
}

/// With intervals the analysis of an exception callback gives from one entry matrix
/// what it gives from another, and with zones it gives twice the same from one
/// matrix, where every method of the engine that a run calls is decided by the engine
/// and by what it is given. No certificate has a part in it.
pub proof fn law_callbacks_give_the_same<E: Engine>(
    b: Behaviour<E>,
    engine: &mut E,
    other: &mut E,
    ctx: ExecContext,
    prog: Program,
    entry_dbm: Dbm,
    other_dbm: Dbm,
    config: VerifierConfig,
    cb_entry_pc: usize,
    first: Option<VerificationError>,
    second: Option<VerificationError>,
)
    requires
        by_contents(b),
        forall|e: &mut E, a: &mut Vec<InsnAux>, prog: &Program, r: Result<(), String>| #[trigger]
            call_ensures(E::check_cfg, (e, a, prog), r) ==> {
                let after = (b.cfg)(*e, (*a)@, *prog);
                *final(e) == after.0 && (*final(a))@ == after.1 && check_content(r) == after.2
            },
        forall|e: &mut E, a: &mut Vec<InsnAux>, prog: &Program| #[trigger]
            call_ensures(E::compute_liveness, (e, a, prog), ()) ==> {
                let after = (b.liveness)(*e, (*a)@, *prog);
                *final(e) == after.0 && (*final(a))@ == after.1
            },
        forall|e: &mut E, prog: &Program| #[trigger]
            call_ensures(E::compute_scc, (e, prog), ()) ==> *final(e) == (b.scc)(*e, *prog),
        forall|e: &mut E, d: NumericDomain, r: NumericDomain| #[trigger]
            call_ensures(E::init_packet_anchors, (e, d), r) ==> {
                let after = (b.anchors)(*e, d);
                *final(e) == after.0 && r == after.1
            },
        forall|e: &mut E, c: &mut StateCache, id: u32| #[trigger]
            call_ensures(E::clean, (e, c, id), ()) ==> {
                let after = (b.clean)(*e, cache_content((*c)@), id);
                *final(e) == after.0 && cache_content((*final(c))@) == after.1
            },
        forall|e: &mut E, c: &mut StateCache, h: &Vec<Breadcrumb>, s: &State, k: &State| #[trigger]
            call_ensures(E::propagate_precision, (e, c, h, s, k), ()) ==> {
                let after = (b.precision)(
                    *e,
                    cache_content((*c)@),
                    history_content(h@),
                    s@,
                    k@,
                );
                *final(e) == after.0 && cache_content((*final(c))@) == after.1
            },
        forall|e: &mut E, c: &mut StateCache, s: &State, id: u32, pc: usize| #[trigger]
            call_ensures(E::add_backedge, (e, c, s, id, pc), ()) ==> {
                let after = (b.backedge)(*e, cache_content((*c)@), s@, id, pc);
                *final(e) == after.0 && cache_content((*final(c))@) == after.1
            },
        forall|e: &mut E, c: &mut StateCache, sites: &Vec<usize>, parent: Option<u32>| #[trigger]
            call_ensures(E::end_path, (e, c, sites, parent), ()) ==> {
                let after = (b.end_path)(*e, cache_content((*c)@), sites@, parent);
                *final(e) == after.0 && cache_content((*final(c))@) == after.1
            },
        forall|e: &mut E, v: &mut VerifierEnv, s: State, instr: &Instr, succs: Vec<State>|
            #[trigger]
            call_ensures(E::transfer, (e, v, s, instr), succs) ==> {
                let after = (b.transfer)(*e, env_content(*v), s@, *instr);
                *final(e) == after.0 && env_content(*final(v)) == after.1 && state_views(succs@)
                    == after.2
            },
        forall|e: &mut E, v: &VerifierEnv, s: &mut State| #[trigger]
            call_ensures(E::resolve_type_conflicts, (e, v, s), ()) ==> {
                let after = (b.adapt)(*e, env_content(*v), (*s)@);
                *final(e) == after.0 && (*final(s))@ == after.1
            },
        forall|e: &mut E, v: &VerifierEnv, s: State, r: State| #[trigger]
            call_ensures(E::prepare_for_cache, (e, v, s), r) ==> {
                let after = (b.prepare)(*e, env_content(*v), s@);
                *final(e) == after.0 && r@ == after.1
            },
        forall|e: &mut E, s: &mut State| #[trigger]
            call_ensures(E::begin_step, (e, s), ()) ==> {
                let after = (b.begin)(*e, (*s)@);
                *final(e) == after.0 && (*final(s))@ == after.1
            },
        forall|e: &mut E| #[trigger]
            call_ensures(E::end_step, (e,), ()) ==> *final(e) == (b.end_step)(*e),
        forall|e: &E, s: &mut State, shown: &Vec<u64>| #[trigger]
            call_ensures(E::apply_refinements, (e, s, shown), ()) ==> (*final(s))@ == (b.refine)(
                *e,
                (*s)@,
                shown@,
            ),
        config.domain_mode == DomainMode::Zone ==> entry_dbm == other_dbm,
        *engine == *other,
        call_ensures(
            analyze_exception_cb::<E>,
            (engine, &ctx, &prog, entry_dbm, &config, cb_entry_pc),
            first,
        ),
        call_ensures(
            analyze_exception_cb::<E>,
            (other, &ctx, &prog, other_dbm, &config, cb_entry_pc),
            second,
        ),
    ensures
        *final(engine) == *final(other),
        failure_content(first) == failure_content(second),
        first is Some == second is Some,
{
    let domain = initial_domain(config.domain_mode, entry_dbm, false);
    assert(domain == initial_domain(config.domain_mode, other_dbm, false));
    let x = choose|e: &mut E|
        {
            &&& #[trigger] call_ensures(
                analyze_callback_from::<E>,
                (e, &ctx, &prog, domain, &config, cb_entry_pc),
                first,
            )
            &&& *e == *engine
            &&& *final(engine) == *final(e)
        };
    let y = choose|e: &mut E|
        {
            &&& #[trigger] call_ensures(
                analyze_callback_from::<E>,
                (e, &ctx, &prog, domain, &config, cb_entry_pc),
                second,
            )
            &&& *e == *other
            &&& *final(other) == *final(e)
        };
    assert(callback_call(x, ctx, prog, domain, config, cb_entry_pc, first)) by {
        reveal(callback_call);
    }
    assert(callback_call(y, ctx, prog, domain, config, cb_entry_pc, second)) by {
        reveal(callback_call);
    }
    lemma_same_callback(b, x, y, ctx, prog, domain, config, cb_entry_pc, first, second);
    reveal(failure_content);
}

}
