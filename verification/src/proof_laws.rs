//! What holds of the search for proofs: in which forms, from which checkpoints and in
//! which ways a goal is tried, and when it counts as proved.

use vstd::prelude::*;

use crate::emit_laws::{extends, lemma_extends};
use crate::engine::{Attempt, Engine, GoalForm};
use crate::env::{BundleKind, ProvedGoal, VerifierEnv};
use crate::machine::State;
use crate::replay::try_prove_unreachable_via_replay;
use crate::unreachable::{
    add_attempts, add_replayed, ancestor_attempts, attempts_added, bare_goals, climb, goals_added,
    goals_of, list_base_attempts, may_answer, next_ancestor, try_at_ancestor, visit_ancestor,
    visit_made, visits_made, ClimbMoment, Visit,
};

verus! {

// ---------------------------------------------------------------------------
// Forms
// ---------------------------------------------------------------------------

/// Whether a form keeps only the conditions behind the last pass of the base.
pub open spec fn behind_last_pass(form: GoalForm) -> bool {
    form is Traj || form is TrajFoldLegacy || form is TrajNoRewrite
}

/// Whether a form keeps only the conditions on single registers.
pub open spec fn by_register(form: GoalForm) -> bool {
    form is RegFiltered || form is RegFilteredNoRewrite
}

/// The forms that are tried at a base: the plain ones at it, those behind its last pass
/// only where there is one, and last those by registers, near ones before far ones, which
/// need no base. The form that was tried first is not tried again.
pub proof fn law_forms_at_a_base(base_pc: Option<usize>, prev_pc: Option<usize>, r: Vec<Attempt>)
    requires
        call_ensures(list_base_attempts, (base_pc, prev_pc), r),
    ensures
        forall|i: int|
            0 <= i < r@.len() ==> if by_register((#[trigger] r@[i]).form) {
                r@[i].base_pc is None && r@[i].prev_pc is None
            } else {
                r@[i].base_pc == base_pc && r@[i].prev_pc == prev_pc
            },
        forall|i: int|
            0 <= i < r@.len() && behind_last_pass((#[trigger] r@[i]).form) ==> base_pc is Some,
        forall|i: int| 0 <= i < r@.len() ==> !((#[trigger] r@[i]).form is Rewrite),
        r@.len() == 6 || r@.len() == 9,
        r@.len() == 9 <==> base_pc is Some,
        r@[0].form is NoRewrite && r@[1].form is FoldLegacy,
        base_pc is Some ==> r@[2].form is Traj && r@[3].form is TrajFoldLegacy
            && r@[4].form is TrajNoRewrite,
        ({
            let n = r@.len() as int;
            &&& r@[n - 4].form == (GoalForm::RegFiltered { hops: 1 })
            &&& r@[n - 3].form == (GoalForm::RegFilteredNoRewrite { hops: 1 })
            &&& r@[n - 2].form == (GoalForm::RegFiltered { hops: 2 })
            &&& r@[n - 1].form == (GoalForm::RegFilteredNoRewrite { hops: 2 })
        }),
{
}

proof fn lemma_goals(replies: Seq<Option<ProvedGoal>>)
    ensures
        forall|i: int|
            0 <= i < replies.len() && (#[trigger] replies[i]) is Some ==> goals_of(
                replies,
            ).contains(replies[i]->0),
        forall|k: int|
            0 <= k < goals_of(replies).len() ==> exists|i: int|
                0 <= i < replies.len() && #[trigger] replies[i] == Some(
                    #[trigger] goals_of(replies)[k],
                ),
    decreases replies.len(),
{
    if replies.len() > 0 {
        let before = replies.drop_last();
        lemma_goals(before);
        let g = goals_of(before);
        let all = goals_of(replies);
        let n = replies.len() - 1;
        assert forall|i: int|
            0 <= i < replies.len() && (#[trigger] replies[i]) is Some implies all.contains(
            replies[i]->0,
        ) by {
            if i < n {
                assert(before[i] == replies[i]);
                let k = choose|k: int| 0 <= k < g.len() && g[k] == replies[i]->0;
                assert(all[k] == g[k]);
            } else {
                assert(all[g.len() as int] == replies[i]->0);
            }
        }
        assert forall|k: int| 0 <= k < all.len() implies exists|i: int|
            0 <= i < replies.len() && #[trigger] replies[i] == Some(#[trigger] all[k]) by {
            if k < g.len() {
                let i = choose|i: int|
                    0 <= i < before.len() && #[trigger] before[i] == Some(#[trigger] g[k]);
                assert(replies[i] == Some(all[k]));
            } else {
                assert(replies[n] == Some(all[k]));
            }
        }
    }
}

/// Whether a row of goals are those that the engine gave for some attempts at the goal
/// of a state.
pub open spec fn given_for<E: Engine>(
    engine: E,
    state: State,
    attempts: Seq<Attempt>,
    goals: Seq<ProvedGoal>,
    replies: Seq<Option<ProvedGoal>>,
) -> bool {
    &&& replies.len() == attempts.len()
    &&& forall|i: int|
        0 <= i < attempts.len() ==> call_ensures(
            E::prove_unreachable,
            (&engine, &state, &attempts[i]),
            #[trigger] replies[i],
        )
    &&& forall|i: int|
        0 <= i < replies.len() && (#[trigger] replies[i]) is Some ==> goals.contains(replies[i]->0)
    &&& forall|k: int|
        0 <= k < goals.len() ==> exists|i: int|
            0 <= i < replies.len() && #[trigger] replies[i] == Some(#[trigger] goals[k])
}

/// Every attempt is made: the engine is asked about each of the given forms, and what it
/// proves is in the bundle, each hash once, as a proof that a state cannot be reached.
pub proof fn law_every_attempt_is_made<E: Engine>(
    engine: E,
    env: &mut VerifierEnv,
    state: State,
    attempts: Vec<Attempt>,
)
    requires
        call_ensures(add_attempts::<E>, (&engine, env, &state, &attempts), ()),
    ensures
        exists|goals: Seq<ProvedGoal>, replies: Seq<Option<ProvedGoal>>|
            #[trigger] given_for(engine, state, attempts@, goals, replies) && extends(
                old(env).bcf_proofs@,
                final(env).bcf_proofs@,
                goals,
                BundleKind::Unreachable,
            ),
        *final(env) == (VerifierEnv { bcf_proofs: final(env).bcf_proofs, ..*old(env) }),
{
    let replies = choose|replies: Seq<Option<ProvedGoal>>| #[trigger]
        may_answer(engine, state, attempts@, replies) && goals_added(
            *env,
            *final(env),
            goals_of(replies),
        );
    lemma_goals(replies);
    lemma_extends((*env).bcf_proofs@, goals_of(replies), BundleKind::Unreachable);
    assert(given_for(engine, state, attempts@, goals_of(replies), replies));
}

/// What replays give is kept: every goal that the replays from a checkpoint give is in
/// the bundle, each hash once, and the answer is whether there was one.
pub proof fn law_replayed_goals_are_kept<E: Engine>(
    engine: &mut E,
    env: &mut VerifierEnv,
    state: State,
    base: u32,
    produced: bool,
)
    requires
        call_ensures(add_replayed::<E>, (engine, env, &state, base), produced),
    ensures
        exists|e: &mut E, v: &mut VerifierEnv, goals: Vec<(i32, ProvedGoal)>, bare: Seq<ProvedGoal>|
            #![trigger
                call_ensures(try_prove_unreachable_via_replay::<E>, (e, v, &state, base), goals),
                extends(
                    final(v).bcf_proofs@,
                    final(env).bcf_proofs@,
                    bare,
                    BundleKind::Unreachable,
                )]
            {
                &&& call_ensures(
                    try_prove_unreachable_via_replay::<E>,
                    (e, v, &state, base),
                    goals,
                )
                &&& *e == *old(engine) && *v == *old(env)
                &&& produced <==> goals@.len() > 0
                &&& bare.len() == goals@.len()
                &&& forall|i: int| 0 <= i < bare.len() ==> #[trigger] bare[i] == goals@[i].1
                &&& extends(
                    final(v).bcf_proofs@,
                    final(env).bcf_proofs@,
                    bare,
                    BundleKind::Unreachable,
                )
            },
{
    let (e, v, goals) = choose|e: &mut E, v: &mut VerifierEnv, goals: Vec<(i32, ProvedGoal)>|
        {
            &&& #[trigger] call_ensures(
                try_prove_unreachable_via_replay::<E>,
                (e, v, &state, base),
                goals,
            )
            &&& *e == *engine
            &&& *v == *env
            &&& goals_added(*final(v), *final(env), bare_goals(goals@))
            &&& produced == (goals@.len() > 0)
        };
    let bare = bare_goals(goals@);
    lemma_extends(final(v).bcf_proofs@, bare, BundleKind::Unreachable);
}

// ---------------------------------------------------------------------------
// Ancestors
// ---------------------------------------------------------------------------

/// At an ancestor that is still cached the goal is tried with the recorded names, at the
/// place where it stands; where it is tried everywhere, also with each operand's own
/// names, and that first. At one that is not cached nothing is tried.
pub proof fn law_goals_are_tried_at_ancestors<E: Engine>(
    engine: E,
    env: &mut VerifierEnv,
    state: State,
    id: u32,
    everywhere: bool,
)
    requires
        call_ensures(try_at_ancestor::<E>, (&engine, env, &state, id, everywhere), ()),
    ensures
        old(env).cache@.resolve(id) is None ==> *final(env) == *old(env),
        old(env).cache@.resolve(id) matches Some(entry) ==> exists|
            prev: Option<usize>,
            attempts: Seq<Attempt>,
            goals: Seq<ProvedGoal>,
            replies: Seq<Option<ProvedGoal>>,
        |
            #![trigger
                call_ensures(E::prev_insn_pc, (&engine, &*old(env), id), prev),
                given_for(engine, state, attempts, goals, replies)]
            {
                &&& call_ensures(E::prev_insn_pc, (&engine, &*old(env), id), prev)
                &&& given_for(engine, state, attempts, goals, replies)
                &&& extends(
                    old(env).bcf_proofs@,
                    final(env).bcf_proofs@,
                    goals,
                    BundleKind::Unreachable,
                )
                &&& forall|i: int|
                    0 <= i < attempts.len() ==> (#[trigger] attempts[i]).base_pc == Some(entry.0)
                        && attempts[i].prev_pc == prev
                &&& attempts.len() == if everywhere {
                    2nat
                } else {
                    1
                }
                &&& attempts[attempts.len() - 1].form is NoRewrite
                &&& everywhere ==> attempts[0].form is Rewrite
            },
{
    match (*env).cache@.resolve(id) {
        Some(entry) => {
            let prev = choose|prev: Option<usize>|
                {
                    &&& #[trigger] call_ensures(E::prev_insn_pc, (&engine, &*env, id), prev)
                    &&& attempts_added(
                        engine,
                        *env,
                        *final(env),
                        state,
                        ancestor_attempts(entry.0, prev, everywhere),
                    )
                };
            let attempts = ancestor_attempts(entry.0, prev, everywhere);
            let replies = choose|replies: Seq<Option<ProvedGoal>>| #[trigger]
                may_answer(engine, state, attempts, replies) && goals_added(
                    *env,
                    *final(env),
                    goals_of(replies),
                );
            lemma_goals(replies);
            lemma_extends((*env).bcf_proofs@, goals_of(replies), BundleKind::Unreachable);
            assert(given_for(engine, state, attempts, goals_of(replies), replies));
        },
        None => {},
    }
}

/// A climb starts at the parent of its base: that is the first ancestor that is visited.
/// Where there is no base, no parent or no budget, nothing is visited and nothing
/// changes; and where the goal is tried everywhere, a parent that is no longer cached
/// ends the climb.
pub proof fn law_climbs_start_at_the_parent<E: Engine>(
    engine: &mut E,
    env: &mut VerifierEnv,
    state: State,
    base: Option<u32>,
    everywhere: bool,
    max: usize,
    produced: bool,
    first: Option<u32>,
)
    requires
        call_ensures(climb::<E>, (engine, env, &state, base, everywhere, max), produced),
        match base {
            Some(b) => match env.cache@.resolve(b) {
                Some(e) => first == e.1.parent_cache_id,
                None => first is None,
            },
            None => first is None,
        },
    ensures
        max == 0 || first is None || (everywhere && old(env).cache@.resolve(first->0) is None)
            ==> !produced && *final(env) == *old(env) && *final(engine) == *old(engine),
        max > 0 && first is Some && (everywhere ==> old(env).cache@.resolve(first->0) is Some)
            ==> exists|e: &mut E, v: &mut VerifierEnv, some: bool| #[trigger]
            call_ensures(visit_ancestor::<E>, (e, v, &state, first->0, everywhere), some) && *e
                == *old(engine) && *v == *old(env) && (some ==> produced) && (max == 1 ==> produced
                == some && *final(env) == *final(v)),
{
    let (moments, visits) = choose|moments: Seq<ClimbMoment<E>>, visits: Seq<Visit<E>>|
        {
            &&& #[trigger] visits_made(state, everywhere, moments, visits)
            &&& forall|i: int|
                0 <= i < visits.len() ==> *final((#[trigger] visits[i]).engine) == moments[i
                    + 1].engine && *final(visits[i].env) == moments[i + 1].env
            &&& moments[0] == (ClimbMoment {
                engine: *engine,
                env: *env,
                cur: base,
                produced: false,
            })
            &&& moments.last().engine == *final(engine)
            &&& moments.last().env == *final(env)
            &&& visits.len() <= max
            &&& visits.len() == max || next_ancestor(
                final(env).cache@,
                moments.last().cur,
                everywhere,
            ) is None
            &&& moments.last().produced == produced
        };
    if visits.len() > 0 {
        let v = visits[0];
        assert(visit_made(state, everywhere, moments[0], v, moments[1]));
        lemma_produced(state, everywhere, moments, visits, visits.len() as int);
        assert(moments.last() == moments[visits.len() as int]);
    } else {
        assert(moments.last() == moments[0]);
    }
}

proof fn lemma_produced<E: Engine>(
    state: State,
    everywhere: bool,
    moments: Seq<ClimbMoment<E>>,
    visits: Seq<Visit<E>>,
    n: int,
)
    requires
        visits_made(state, everywhere, moments, visits),
        1 <= n <= visits.len(),
    ensures
        visits[0].produced ==> moments[n].produced,
    decreases n,
{
    let v = visits[n - 1];
    assert(visit_made(state, everywhere, moments[n - 1], v, moments[n]));
    if n > 1 {
        lemma_produced(state, everywhere, moments, visits, n - 1);
    }
}

}
