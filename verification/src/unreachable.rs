//! Proofs that a rejected state cannot be reached.

use vstd::prelude::*;

use crate::cache::{CacheData, StateCache};
use crate::emit::{
    added, all_added, grown, lemma_grown_all_added, lemma_grown_same, mark_path_children_unsafe,
    push_all_unless_known, push_unless_known, unreachable_base, unreachable_base_pc,
};
use crate::engine::{Attempt, Engine, GoalForm};
use crate::env::{BundleKind, ProvedGoal, RefineEntry, VerifierEnv};
use crate::machine::State;
use crate::replay::try_prove_unreachable_via_replay;

verus! {

/// How many ancestors are tried where no replay gave a proof.
pub const MAX_ANCESTOR_DEPTH: usize = 64;

/// How many ancestors are tried in any case.
pub const NEAR_ANCESTORS: usize = 2;

/// The forms in which a goal is tried at its base, where no replay gave a proof.
/// The conditions behind the last pass of the base need a base; those on single
/// registers need none.
pub open spec fn base_attempts(base_pc: Option<usize>, prev_pc: Option<usize>) -> Seq<Attempt> {
    let at = |form: GoalForm| Attempt { form, base_pc, prev_pc };
    let by_reg = |form: GoalForm| Attempt { form, base_pc: None, prev_pc: None };
    let traj = if base_pc is Some {
        seq![at(GoalForm::Traj), at(GoalForm::TrajFoldLegacy), at(GoalForm::TrajNoRewrite)]
    } else {
        Seq::empty()
    };
    seq![at(GoalForm::NoRewrite), at(GoalForm::FoldLegacy)] + traj + seq![
        by_reg(GoalForm::RegFiltered { hops: 1 }),
        by_reg(GoalForm::RegFilteredNoRewrite { hops: 1 }),
        by_reg(GoalForm::RegFiltered { hops: 2 }),
        by_reg(GoalForm::RegFilteredNoRewrite { hops: 2 }),
    ]
}

/// The forms in which a goal is tried at its base.
pub fn list_base_attempts(base_pc: Option<usize>, prev_pc: Option<usize>) -> (r: Vec<Attempt>)
    ensures
        r@ == base_attempts(base_pc, prev_pc),
{
    let mut out: Vec<Attempt> = Vec::new();
    out.push(Attempt { form: GoalForm::NoRewrite, base_pc, prev_pc });
    out.push(Attempt { form: GoalForm::FoldLegacy, base_pc, prev_pc });
    if base_pc.is_some() {
        out.push(Attempt { form: GoalForm::Traj, base_pc, prev_pc });
        out.push(Attempt { form: GoalForm::TrajFoldLegacy, base_pc, prev_pc });
        out.push(Attempt { form: GoalForm::TrajNoRewrite, base_pc, prev_pc });
    }
    out.push(Attempt { form: GoalForm::RegFiltered { hops: 1 }, base_pc: None, prev_pc: None });
    out.push(
        Attempt { form: GoalForm::RegFilteredNoRewrite { hops: 1 }, base_pc: None, prev_pc: None },
    );
    out.push(Attempt { form: GoalForm::RegFiltered { hops: 2 }, base_pc: None, prev_pc: None });
    out.push(
        Attempt { form: GoalForm::RegFilteredNoRewrite { hops: 2 }, base_pc: None, prev_pc: None },
    );
    assert(out@ =~= base_attempts(base_pc, prev_pc));
    out
}

/// The goals among some answers.
pub open spec fn goals_of(replies: Seq<Option<ProvedGoal>>) -> Seq<ProvedGoal>
    decreases replies.len(),
{
    if replies.len() == 0 {
        Seq::empty()
    } else {
        let rest = goals_of(replies.drop_last());
        match replies.last() {
            Some(goal) => rest.push(goal),
            None => rest,
        }
    }
}

/// Whether the engine may have answered some attempts so.
pub open spec fn may_answer<E: Engine>(
    engine: E,
    state: State,
    attempts: Seq<Attempt>,
    replies: Seq<Option<ProvedGoal>>,
) -> bool {
    &&& replies.len() == attempts.len()
    &&& forall|i: int|
        0 <= i < attempts.len() ==> call_ensures(
            E::prove_unreachable,
            (&engine, &state, &#[trigger] attempts[i]),
            replies[i],
        )
}

proof fn lemma_all_added_push(
    bundle: Seq<RefineEntry>,
    goals: Seq<ProvedGoal>,
    goal: ProvedGoal,
    kind: BundleKind,
)
    ensures
        all_added(bundle, goals.push(goal), kind) == added(
            all_added(bundle, goals, kind),
            goal,
            kind,
        ),
    decreases goals.len(),
{
    let more = goals.push(goal);
    if goals.len() == 0 {
        assert(more.skip(1) =~= Seq::<ProvedGoal>::empty());
        assert(all_added(added(bundle, goal, kind), more.skip(1), kind) == added(
            bundle,
            goal,
            kind,
        ));
    } else {
        assert(more.skip(1) =~= goals.skip(1).push(goal));
        assert(more[0] == goals[0]);
        lemma_all_added_push(added(bundle, goals[0], kind), goals.skip(1), goal, kind);
    }
}

/// Tries the goal of a state in the given forms, and adds the proofs to the
/// bundle.
pub fn try_attempts<E: Engine>(
    engine: &E,
    bundle: &mut Vec<RefineEntry>,
    state: &State,
    attempts: &Vec<Attempt>,
)
    ensures
        exists|replies: Seq<Option<ProvedGoal>>| #[trigger]
            may_answer(*engine, *state, attempts@, replies) && final(bundle)@ == all_added(
                old(bundle)@,
                goals_of(replies),
                BundleKind::Unreachable,
            ),
{
    let ghost b0 = bundle@;
    let ghost mut replies: Seq<Option<ProvedGoal>> = Seq::empty();
    let mut i: usize = 0;
    while i < attempts.len()
        invariant
            i <= attempts@.len(),
            replies.len() == i,
            forall|j: int|
                0 <= j < i ==> call_ensures(
                    E::prove_unreachable,
                    (engine, state, &#[trigger] attempts@[j]),
                    replies[j],
                ),
            bundle@ == all_added(b0, goals_of(replies), BundleKind::Unreachable),
        decreases attempts@.len() - i,
    {
        let reply = engine.prove_unreachable(state, &attempts[i]);
        proof {
            let before = replies;
            replies = replies.push(reply);
            assert(replies.drop_last() =~= before);
            if reply is Some {
                lemma_all_added_push(b0, goals_of(before), reply->0, BundleKind::Unreachable);
            }
        }
        match reply {
            Some(goal) => {
                push_unless_known(bundle, goal, BundleKind::Unreachable);
            },
            None => {},
        }
        i += 1;
    }
    assert(may_answer(*engine, *state, attempts@, replies));
}

/// Whether a run kept its counters and its error, and its bundle grew by proofs
/// of unreachability.
pub open spec fn only_grew(before: VerifierEnv, after: VerifierEnv) -> bool {
    &&& after.counters == before.counters
    &&& after.error == before.error
    &&& grown(before.bcf_proofs@, after.bcf_proofs@, BundleKind::Unreachable)
}

proof fn lemma_grown_further(a: Seq<RefineEntry>, b: Seq<RefineEntry>, c: Seq<RefineEntry>)
    requires
        grown(a, b, BundleKind::Unreachable),
        grown(b, c, BundleKind::Unreachable),
    ensures
        grown(a, c, BundleKind::Unreachable),
{
    assert(a =~= c.take(a.len() as int));
    assert forall|i: int| a.len() <= i < c.len() implies (#[trigger] c[i]).kind
        == BundleKind::Unreachable && !known_before(c, i) by {
        if i < b.len() {
            assert(c.take(b.len() as int)[i] == c[i]);
            assert(b[i] == c[i]);
            assert(b.take(i) =~= c.take(i));
        }
    }
}

/// Whether an entry's hash is that of an earlier one.
pub open spec fn known_before(bundle: Seq<RefineEntry>, i: int) -> bool {
    crate::emit::known(bundle.take(i), bundle[i].goal.cond_hash)
}

/// The goals alone.
pub open spec fn bare_goals(goals: Seq<(i32, ProvedGoal)>) -> Seq<ProvedGoal> {
    goals.map_values(|g: (i32, ProvedGoal)| g.1)
}

fn strip_names(goals: Vec<(i32, ProvedGoal)>) -> (r: Vec<ProvedGoal>)
    ensures
        r@ == bare_goals(goals@),
{
    let ghost all = bare_goals(goals@);
    let ghost named = goals@;
    let mut rest = goals;
    let mut out: Vec<ProvedGoal> = Vec::new();
    assert(rest@ =~= named.skip(0));
    assert(out@ =~= all.take(0));
    while rest.len() > 0
        invariant
            all == bare_goals(named),
            out@.len() + rest@.len() == named.len(),
            rest@ == named.skip(out@.len() as int),
            out@ == all.take(out@.len() as int),
        decreases rest@.len(),
    {
        let (_, goal) = rest.remove(0);
        assert(goal == all[out@.len() as int]);
        out.push(goal);
        assert(rest@ =~= named.skip(out@.len() as int));
        assert(out@ =~= all.take(out@.len() as int));
    }
    assert(out@ =~= all);
    out
}

/// A run with more goals in its bundle.
pub open spec fn goals_added(
    before: VerifierEnv,
    after: VerifierEnv,
    goals: Seq<ProvedGoal>,
) -> bool {
    &&& after == (VerifierEnv { bcf_proofs: after.bcf_proofs, ..before })
    &&& after.bcf_proofs@ == all_added(before.bcf_proofs@, goals, BundleKind::Unreachable)
}

/// Adds the proofs that replays from a checkpoint give. Returns whether there
/// were any.
pub fn add_replayed<E: Engine>(
    engine: &mut E,
    env: &mut VerifierEnv,
    state: &State,
    base: u32,
) -> (produced: bool)
    ensures
        only_grew(*old(env), *final(env)),
        exists|e: &mut E, v: &mut VerifierEnv, goals: Vec<(i32, ProvedGoal)>|
            {
                &&& #[trigger] call_ensures(
                    try_prove_unreachable_via_replay::<E>,
                    (e, v, state, base),
                    goals,
                )
                &&& *e == *old(engine)
                &&& *v == *old(env)
                &&& *final(engine) == *final(e)
                &&& goals_added(*final(v), *final(env), bare_goals(goals@))
                &&& produced == (goals@.len() > 0)
            },
{
    let goals = try_prove_unreachable_via_replay(engine, env, state, base);
    let ghost replayed = *env;
    let produced = goals.len() > 0;
    let bare = strip_names(goals);
    proof {
        lemma_grown_same(env.bcf_proofs@, BundleKind::Unreachable);
        lemma_grown_all_added(
            env.bcf_proofs@,
            env.bcf_proofs@,
            bare@,
            BundleKind::Unreachable,
        );
    }
    push_all_unless_known(&mut env.bcf_proofs, bare, BundleKind::Unreachable);
    assert(goals_added(replayed, *env, bare_goals(goals@)));
    produced
}

/// Whether a run got the proofs that the engine gave for some attempts.
pub open spec fn attempts_added<E: Engine>(
    engine: E,
    before: VerifierEnv,
    after: VerifierEnv,
    state: State,
    attempts: Seq<Attempt>,
) -> bool {
    exists|replies: Seq<Option<ProvedGoal>>| #[trigger]
        may_answer(engine, state, attempts, replies) && goals_added(
            before,
            after,
            goals_of(replies),
        )
}

/// Tries the goal of a state in the given forms, and adds the proofs to the bundle.
pub fn add_attempts<E: Engine>(
    engine: &E,
    env: &mut VerifierEnv,
    state: &State,
    attempts: &Vec<Attempt>,
)
    ensures
        only_grew(*old(env), *final(env)),
        attempts_added(*engine, *old(env), *final(env), *state, attempts@),
{
    let ghost env0 = *env;
    let ghost b0 = env.bcf_proofs@;
    try_attempts(engine, &mut env.bcf_proofs, state, attempts);
    proof {
        let replies = choose|replies: Seq<Option<ProvedGoal>>| #[trigger]
            may_answer(*engine, *state, attempts@, replies) && env.bcf_proofs@ == all_added(
                b0,
                goals_of(replies),
                BundleKind::Unreachable,
            );
        lemma_grown_same(b0, BundleKind::Unreachable);
        lemma_grown_all_added(b0, b0, goals_of(replies), BundleKind::Unreachable);
        assert(goals_added(env0, *env, goals_of(replies)));
    }
}

/// The bucket in which a checkpoint stands.
pub open spec fn bucket_of(cache: CacheData, id: u32) -> Option<usize> {
    match cache.resolve(id) {
        Some(e) => Some(e.0),
        None => None,
    }
}

fn bucket_pc(cache: &StateCache, id: u32) -> (r: Option<usize>)
    ensures
        r == bucket_of(cache@, id),
{
    match cache.data().state_by_cache_id(id) {
        Some((pc, _)) => Some(pc),
        None => None,
    }
}

/// The forms in which a goal is tried at an ancestor: with the recorded names, and
/// where no replay gave a proof before that also with each operand's own.
pub open spec fn ancestor_attempts(
    pc: usize,
    prev_pc: Option<usize>,
    everywhere: bool,
) -> Seq<Attempt> {
    let plain = Attempt { form: GoalForm::NoRewrite, base_pc: Some(pc), prev_pc };
    if everywhere {
        seq![Attempt { form: GoalForm::Rewrite, base_pc: Some(pc), prev_pc }, plain]
    } else {
        seq![plain]
    }
}

/// Tries the goal of a state at an ancestor of its base, if that is still cached.
pub fn try_at_ancestor<E: Engine>(
    engine: &E,
    env: &mut VerifierEnv,
    state: &State,
    id: u32,
    everywhere: bool,
)
    ensures
        only_grew(*old(env), *final(env)),
        match bucket_of(old(env).cache@, id) {
            None => *final(env) == *old(env),
            Some(pc) => exists|prev: Option<usize>|
                {
                    &&& #[trigger] call_ensures(E::prev_insn_pc, (engine, &*old(env), id), prev)
                    &&& attempts_added(
                        *engine,
                        *old(env),
                        *final(env),
                        *state,
                        ancestor_attempts(pc, prev, everywhere),
                    )
                },
        },
{
    match bucket_pc(&env.cache, id) {
        Some(pc) => {
            let prev = engine.prev_insn_pc(&*env, id);
            let mut attempts: Vec<Attempt> = Vec::new();
            if everywhere {
                attempts.push(
                    Attempt { form: GoalForm::Rewrite, base_pc: Some(pc), prev_pc: prev },
                );
            }
            attempts.push(Attempt { form: GoalForm::NoRewrite, base_pc: Some(pc), prev_pc: prev });
            assert(attempts@ =~= ancestor_attempts(pc, prev, everywhere));
            add_attempts(engine, env, state, &attempts);
        },
        None => {
            proof {
                lemma_grown_same(env.bcf_proofs@, BundleKind::Unreachable);
            }
        },
    }
}

/// Visits an ancestor of the base: its path is replayed and the goal is tried
/// there. Near the base the replay comes first, else the goal. Returns whether a
/// replay gave a proof.
pub fn visit_ancestor<E: Engine>(
    engine: &mut E,
    env: &mut VerifierEnv,
    state: &State,
    id: u32,
    everywhere: bool,
) -> (produced: bool)
    ensures
        only_grew(*old(env), *final(env)),
        everywhere ==> exists|v1: &mut VerifierEnv, e2: &mut E, v2: &mut VerifierEnv|
            {
                &&& #[trigger] call_ensures(
                    try_at_ancestor::<E>,
                    (&*old(engine), v1, state, id, true),
                    (),
                )
                &&& *v1 == *old(env)
                &&& #[trigger] call_ensures(add_replayed::<E>, (e2, v2, state, id), produced)
                &&& *e2 == *old(engine)
                &&& *v2 == *final(v1)
                &&& *final(engine) == *final(e2)
                &&& *final(env) == *final(v2)
            },
        !everywhere ==> exists|e1: &mut E, v1: &mut VerifierEnv, v2: &mut VerifierEnv|
            {
                &&& #[trigger] call_ensures(add_replayed::<E>, (e1, v1, state, id), produced)
                &&& *e1 == *old(engine)
                &&& *v1 == *old(env)
                &&& #[trigger] call_ensures(
                    try_at_ancestor::<E>,
                    (&*final(engine), v2, state, id, false),
                    (),
                )
                &&& *v2 == *final(v1)
                &&& *final(engine) == *final(e1)
                &&& *final(env) == *final(v2)
            },
{
    if everywhere {
        try_at_ancestor(&*engine, env, state, id, true);
        let ghost mid = *env;
        let produced = add_replayed(engine, env, state, id);
        proof {
            lemma_grown_further(old(env).bcf_proofs@, mid.bcf_proofs@, env.bcf_proofs@);
        }
        produced
    } else {
        let produced = add_replayed(engine, env, state, id);
        let ghost mid = *env;
        try_at_ancestor(&*engine, env, state, id, false);
        proof {
            lemma_grown_further(old(env).bcf_proofs@, mid.bcf_proofs@, env.bcf_proofs@);
        }
        produced
    }
}

/// A climb over the ancestors between two of them: the checkpoint it has come to,
/// and whether a replay gave a proof on the way.
pub struct ClimbMoment<'c, E> {
    pub engine: E,
    pub env: VerifierEnv<'c>,
    pub cur: Option<u32>,
    pub produced: bool,
}

/// A visit of an ancestor: what was handed to `visit_ancestor`, and what it
/// returned.
pub struct Visit<'a, 'c, E> {
    pub engine: &'a mut E,
    pub env: &'a mut VerifierEnv<'c>,
    pub id: u32,
    pub produced: bool,
}

/// The ancestor that is visited next. Where the goal is tried everywhere, one that
/// is no longer cached ends the climb.
pub open spec fn next_ancestor(cache: CacheData, cur: Option<u32>, everywhere: bool) -> Option<
    u32,
> {
    match cur {
        Some(c) => match cache.parent_of(c) {
            Some(id) => if everywhere && bucket_of(cache, id) is None {
                None
            } else {
                Some(id)
            },
            None => None,
        },
        None => None,
    }
}

fn find_next_ancestor(cache: &StateCache, cur: Option<u32>, everywhere: bool) -> (r: Option<u32>)
    ensures
        r == next_ancestor(cache@, cur, everywhere),
{
    match cur {
        Some(c) => match cache.parent(c) {
            Some(id) => {
                if everywhere && bucket_pc(cache, id).is_none() {
                    None
                } else {
                    Some(id)
                }
            },
            None => None,
        },
        None => None,
    }
}

/// Whether the next ancestor was visited at a moment.
pub open spec fn visit_made<E: Engine>(
    state: State,
    everywhere: bool,
    moment: ClimbMoment<E>,
    visit: Visit<E>,
    next: ClimbMoment<E>,
) -> bool {
    &&& *visit.engine == moment.engine
    &&& *visit.env == moment.env
    &&& next_ancestor(moment.env.cache@, moment.cur, everywhere) == Some(visit.id)
    &&& call_ensures(
        visit_ancestor::<E>,
        (visit.engine, visit.env, &state, visit.id, everywhere),
        visit.produced,
    )
    &&& next.cur == Some(visit.id)
    &&& next.produced == (moment.produced || visit.produced)
}

/// Whether ancestors were visited one after the other.
pub open spec fn visits_made<E: Engine>(
    state: State,
    everywhere: bool,
    moments: Seq<ClimbMoment<E>>,
    visits: Seq<Visit<E>>,
) -> bool {
    &&& moments.len() == visits.len() + 1
    &&& forall|i: int|
        0 <= i < visits.len() ==> visit_made(
            state,
            everywhere,
            moments[i],
            #[trigger] visits[i],
            moments[i + 1],
        )
}

/// Visits the ancestors of the base, from the nearest on, at most `max` of them.
/// Returns whether a replay gave a proof.
pub fn climb<E: Engine>(
    engine: &mut E,
    env: &mut VerifierEnv,
    state: &State,
    base: Option<u32>,
    everywhere: bool,
    max: usize,
) -> (produced: bool)
    ensures
        only_grew(*old(env), *final(env)),
        exists|moments: Seq<ClimbMoment<E>>, visits: Seq<Visit<E>>|
            {
                    &&& #[trigger] visits_made(*state, everywhere, moments, visits)
                    &&& forall|i: int|
                        0 <= i < visits.len() ==> *final((#[trigger] visits[i]).engine)
                            == moments[i + 1].engine && *final(visits[i].env) == moments[i + 1].env
                    &&& moments[0] == (ClimbMoment {
                        engine: *old(engine),
                        env: *old(env),
                        cur: base,
                        produced: false,
                    })
                    &&& moments.last().engine == *final(engine)
                    &&& moments.last().env == *final(env)
                    &&& visits.len() <= max
                    &&& visits.len() == max || next_ancestor(
                        final(env).cache@,
                        moments.last().cur,
                        everywhere,
                    ) is None
                    &&& moments.last().produced == produced
                },
{
    let ghost engine0 = *engine;
    let ghost env0 = *env;
    let mut produced = false;
    let mut cur = base;
    let mut depth: usize = 0;
    proof {
        lemma_grown_same(env.bcf_proofs@, BundleKind::Unreachable);
        let m = ClimbMoment { engine: engine0, env: env0, cur: base, produced: false };
        assert(visits_made(*state, everywhere, seq![m], Seq::<Visit<E>>::empty()));
    }
    while depth < max
        invariant
            depth <= max,
            engine0 == *old(engine),
            env0 == *old(env),
            only_grew(env0, *env),
            exists|moments: Seq<ClimbMoment<E>>, visits: Seq<Visit<E>>|
                {
                    &&& #[trigger] visits_made(*state, everywhere, moments, visits)
                    &&& forall|i: int|
                        0 <= i < visits.len() ==> *final((#[trigger] visits[i]).engine)
                            == moments[i + 1].engine && *final(visits[i].env) == moments[i + 1].env
                    &&& moments[0] == (ClimbMoment {
                        engine: engine0,
                        env: env0,
                        cur: base,
                        produced: false,
                    })
                    &&& moments.last().engine == *engine
                    &&& moments.last().env == *env
                    &&& moments.last().cur == cur && visits.len() == depth
                    &&& moments.last().produced == produced
                },
        decreases max - depth,
    {
        let ghost here = ClimbMoment { engine: *engine, env: *env, cur, produced };
        match find_next_ancestor(&env.cache, cur, everywhere) {
            Some(id) => {
                let some = visit_ancestor(engine, env, state, id, everywhere);
                proof {
                    lemma_grown_further(
                        env0.bcf_proofs@,
                        here.env.bcf_proofs@,
                        env.bcf_proofs@,
                    );
                    let (moments, visits) = choose|
                        moments: Seq<ClimbMoment<E>>,
                        visits: Seq<Visit<E>>,
                    |
                        {
                    &&& #[trigger] visits_made(*state, everywhere, moments, visits)
                    &&& forall|i: int|
                        0 <= i < visits.len() ==> *final((#[trigger] visits[i]).engine)
                            == moments[i + 1].engine && *final(visits[i].env) == moments[i + 1].env
                    &&& moments[0] == (ClimbMoment {
                        engine: engine0,
                        env: env0,
                        cur: base,
                        produced: false,
                    })
                    &&& moments.last().engine == here.engine
                    &&& moments.last().env == here.env
                    &&& moments.last().cur == here.cur && visits.len() == depth
                    &&& moments.last().produced == here.produced
                };
                    let (e, v) = choose|e: &mut E, v: &mut VerifierEnv|
                        {
                            &&& #[trigger] call_ensures(
                                visit_ancestor::<E>,
                                (e, v, state, id, everywhere),
                                some,
                            )
                            &&& *e == here.engine
                            &&& *v == here.env
                            &&& *final(e) == *engine
                            &&& *final(v) == *env
                        };
                    let visit = Visit { engine: e, env: v, id, produced: some };
                    let now = ClimbMoment {
                        engine: *engine,
                        env: *env,
                        cur: Some(id),
                        produced: produced || some,
                    };
                    let moments1 = moments.push(now);
                    let visits1 = visits.push(visit);
                    assert(moments.last() == here);
                    assert(visit_made(*state, everywhere, here, visit, now));
                    assert forall|i: int| 0 <= i < visits1.len() implies visit_made(
                        *state,
                        everywhere,
                        moments1[i],
                        #[trigger] visits1[i],
                        moments1[i + 1],
                    ) by {
                        if i < visits.len() {
                            assert(visits1[i] == visits[i]);
                            assert(moments1[i + 1] == moments[i + 1]);
                        }
                    }
                    assert(visits_made(*state, everywhere, moments1, visits1));
                }
                produced = produced || some;
                cur = Some(id);
                depth += 1;
            },
            None => {
                return produced;
            },
        }
    }
    produced
}

/// Where the path on which a rejected state rests begins: its place, the checkpoint
/// there and the instruction before it.
pub struct Basis {
    pub base_pc: Option<usize>,
    pub base: Option<u32>,
    pub prev_pc: Option<usize>,
}

/// Whether the engine may have answered so about where the path on which a state
/// rests begins.
pub open spec fn may_rest_on<E: Engine>(
    engine: E,
    env: VerifierEnv,
    state: State,
    basis: Basis,
) -> bool {
    &&& call_ensures(unreachable_base_pc::<E>, (&engine, &env, &state), basis.base_pc)
    &&& exists|landed: Option<(usize, u32)>|
        {
            &&& #[trigger] call_ensures(unreachable_base::<E>, (&engine, &env, &state), landed)
            &&& match landed {
                Some(l) => basis.base == Some(l.1) && call_ensures(
                    E::prev_insn_pc,
                    (&engine, &env, l.1),
                    basis.prev_pc,
                ),
                None => basis.base is None && basis.prev_pc is None,
            }
        }
}

/// Asks the engine where the path on which a rejected state rests begins.
pub fn find_basis<E: Engine>(engine: &E, env: &VerifierEnv, state: &State) -> (r: Basis)
    ensures
        may_rest_on(*engine, *env, *state, r),
{
    let base_pc = unreachable_base_pc(engine, env, state);
    match unreachable_base(engine, env, state) {
        Some((_, id)) => {
            let prev_pc = engine.prev_insn_pc(env, id);
            Basis { base_pc, base: Some(id), prev_pc }
        },
        None => Basis { base_pc, base: None, prev_pc: None },
    }
}

/// Tries the goal in the given forms and then at the ancestors of its base.
pub fn try_and_climb<E: Engine>(
    engine: &mut E,
    env: &mut VerifierEnv,
    state: &State,
    base: Option<u32>,
    attempts: &Vec<Attempt>,
    everywhere: bool,
    max: usize,
) -> (produced: bool)
    ensures
        only_grew(*old(env), *final(env)),
        exists|tried: VerifierEnv, e: &mut E, v: &mut VerifierEnv|
            {
                &&& #[trigger] attempts_added(
                    *old(engine),
                    *old(env),
                    tried,
                    *state,
                    attempts@,
                )
                &&& #[trigger] call_ensures(
                    climb::<E>,
                    (e, v, state, base, everywhere, max),
                    produced,
                )
                &&& *e == *old(engine)
                &&& *v == tried
                &&& *final(engine) == *final(e)
                &&& *final(env) == *final(v)
            },
{
    add_attempts(&*engine, env, state, attempts);
    let ghost tried = *env;
    assert(attempts_added(*engine, *old(env), tried, *state, attempts@));
    let produced = climb(engine, env, state, base, everywhere, max);
    proof {
        lemma_grown_further(old(env).bcf_proofs@, tried.bcf_proofs@, env.bcf_proofs@);
    }
    produced
}

/// How a bundle grows by the proofs for one rejected state: by proofs with new
/// hashes, among which the natural one may stand whatever its hash.
pub open spec fn grown_around(
    old_bundle: Seq<RefineEntry>,
    bundle: Seq<RefineEntry>,
    natural: Option<ProvedGoal>,
) -> bool {
    ||| grown(old_bundle, bundle, BundleKind::Unreachable)
    ||| natural matches Some(goal) && exists|mid: Seq<RefineEntry>|
        #![trigger grown(old_bundle, mid, BundleKind::Unreachable)]
        grown(old_bundle, mid, BundleKind::Unreachable) && grown(
            mid.push(RefineEntry { kind: BundleKind::Unreachable, goal }),
            bundle,
            BundleKind::Unreachable,
        )
}

/// Adds the proofs of a goal whose natural form was proved. The form with the
/// recorded names is tried at the base and at its nearest ancestors, from which the
/// path is replayed too. Where no replay gave a proof, neither `before` nor now,
/// the natural proof itself is added, whatever its hash, and every form is tried
/// everywhere.
pub fn add_reconstructions<E: Engine>(
    engine: &mut E,
    env: &mut VerifierEnv,
    state: &State,
    basis: &Basis,
    goal: ProvedGoal,
    before: bool,
)
    ensures
        final(env).counters == old(env).counters,
        final(env).error == old(env).error,
        grown_around(old(env).bcf_proofs@, final(env).bcf_proofs@, Some(goal)),
        exists|e1: &mut E, v1: &mut VerifierEnv, at_base: Vec<Attempt>, near: bool|
            {
                &&& #[trigger] call_ensures(
                    try_and_climb::<E>,
                    (e1, v1, state, basis.base, &at_base, false, NEAR_ANCESTORS),
                    near,
                )
                &&& at_base@ == seq![
                    Attempt {
                        form: GoalForm::NoRewrite,
                        base_pc: basis.base_pc,
                        prev_pc: basis.prev_pc,
                    },
                ]
                &&& *e1 == *old(engine)
                &&& *v1 == *old(env)
                &&& if before || near {
                    *final(engine) == *final(e1) && *final(env) == *final(v1)
                } else {
                    exists|e2: &mut E, v2: &mut VerifierEnv, all: Vec<Attempt>, some: bool|
                        {
                            &&& #[trigger] call_ensures(
                                try_and_climb::<E>,
                                (e2, v2, state, basis.base, &all, true, MAX_ANCESTOR_DEPTH),
                                some,
                            )
                            &&& all@ == base_attempts(basis.base_pc, basis.prev_pc)
                            &&& *e2 == *final(e1)
                            &&& (*v2).bcf_proofs@ == final(v1).bcf_proofs@.push(
                                RefineEntry { kind: BundleKind::Unreachable, goal },
                            )
                            &&& *v2 == (VerifierEnv {
                                bcf_proofs: (*v2).bcf_proofs,
                                ..*final(v1)
                            })
                            &&& *final(engine) == *final(e2)
                            &&& *final(env) == *final(v2)
                        }
                }
            },
{
    let ghost b0 = env.bcf_proofs@;
    let ghost natural = goal;
    let mut at_base: Vec<Attempt> = Vec::new();
    at_base.push(
        Attempt {
            form: GoalForm::NoRewrite,
            base_pc: basis.base_pc,
            prev_pc: basis.prev_pc,
        },
    );
    assert(at_base@ =~= seq![
        Attempt { form: GoalForm::NoRewrite, base_pc: basis.base_pc, prev_pc: basis.prev_pc },
    ]);
    let near = try_and_climb(engine, env, state, basis.base, &at_base, false, NEAR_ANCESTORS);
    let ghost b1 = env.bcf_proofs@;
    assert(grown(b0, b1, BundleKind::Unreachable));
    if before || near {
        return;
    }
    env.bcf_proofs.push(RefineEntry { kind: BundleKind::Unreachable, goal });
    assert(env.bcf_proofs@ == b1.push(
        RefineEntry { kind: BundleKind::Unreachable, goal: natural },
    ));
    let all = list_base_attempts(basis.base_pc, basis.prev_pc);
    let _ = try_and_climb(engine, env, state, basis.base, &all, true, MAX_ANCESTOR_DEPTH);
}

/// Adds the proofs that replays from the base give, where there is one. Returns
/// whether there were any.
pub fn add_replayed_from<E: Engine>(
    engine: &mut E,
    env: &mut VerifierEnv,
    state: &State,
    base: Option<u32>,
) -> (produced: bool)
    ensures
        only_grew(*old(env), *final(env)),
        match base {
            None => !produced && *final(engine) == *old(engine) && *final(env) == *old(env),
            Some(id) => exists|e: &mut E, v: &mut VerifierEnv|
                {
                    &&& #[trigger] call_ensures(add_replayed::<E>, (e, v, state, id), produced)
                    &&& *e == *old(engine)
                    &&& *v == *old(env)
                    &&& *final(engine) == *final(e)
                    &&& *final(env) == *final(v)
                },
        },
{
    proof {
        lemma_grown_same(env.bcf_proofs@, BundleKind::Unreachable);
    }
    match base {
        Some(id) => add_replayed(engine, env, state, id),
        None => false,
    }
}

/// Tries to prove that a rejected state cannot be reached, and adds the proofs to
/// the bundle: those of the replays of its path, and where its natural form is
/// proved those of its other forms. Returns whether the goal was proved in its
/// natural form. The checkpoints that the goal rests on no longer cover later
/// arrivals, whether it was proved or not. While a path is replayed, and for a
/// state without a symbolic side, nothing is tried.
pub fn try_emit_path_unreachable_entry<E: Engine>(
    engine: &mut E,
    env: &mut VerifierEnv,
    state: &State,
) -> (proved: bool)
    ensures
        final(env).counters == old(env).counters,
        final(env).error == old(env).error,
        old(env).replay_mode || state.bcf is None ==> {
            !proved && *final(engine) == *old(engine) && *final(env) == *old(env)
        },
        !old(env).replay_mode && state.bcf is Some ==> exists|
            basis: Basis,
            e1: &mut E,
            v1: &mut VerifierEnv,
            produced: bool,
            attempt: Attempt,
            natural: Option<ProvedGoal>,
            e2: &mut E,
            v2: &mut VerifierEnv,
            v3: &mut VerifierEnv,
        |
            {
                &&& #[trigger] may_rest_on(*old(engine), *old(env), *state, basis)
                &&& #[trigger] call_ensures(
                    add_replayed_from::<E>,
                    (e1, v1, state, basis.base),
                    produced,
                )
                &&& *e1 == *old(engine)
                &&& *v1 == *old(env)
                &&& attempt == (Attempt {
                    form: GoalForm::Rewrite,
                    base_pc: basis.base_pc,
                    prev_pc: basis.prev_pc,
                })
                &&& #[trigger] call_ensures(
                    E::prove_unreachable,
                    (&*e2, state, &attempt),
                    natural,
                )
                &&& proved == (natural is Some)
                &&& *e2 == *final(e1)
                &&& *v2 == *final(v1)
                &&& #[trigger] call_ensures(
                    follow_natural::<E>,
                    (e2, v2, state, &basis, natural, produced),
                    (),
                )
                &&& *final(engine) == *final(e2)
                &&& #[trigger] call_ensures(
                    mark_path_children_unsafe::<E>,
                    (&*final(engine), v3, state, basis.base),
                    (),
                )
                &&& *v3 == *final(v2)
                &&& *final(env) == *final(v3)
                &&& grown_around(old(env).bcf_proofs@, final(env).bcf_proofs@, natural)
            },
{
    if env.replay_mode {
        return false;
    }
    if state.bcf.is_none() {
        return false;
    }
    let ghost b0 = env.bcf_proofs@;
    let basis = find_basis(&*engine, &*env, state);
    let produced = add_replayed_from(engine, env, state, basis.base);
    let ghost b1 = env.bcf_proofs@;
    let attempt = Attempt {
        form: GoalForm::Rewrite,
        base_pc: basis.base_pc,
        prev_pc: basis.prev_pc,
    };
    let natural = engine.prove_unreachable(state, &attempt);
    let proved = natural.is_some();
    let ghost answer = natural;
    follow_natural(engine, env, state, &basis, natural, produced);
    let ghost b2 = env.bcf_proofs@;
    proof {
        lemma_grown_around_further(b0, b1, b2, answer);
    }
    mark_path_children_unsafe(&*engine, env, state, basis.base);
    proved
}

/// Adds the proofs of a goal, if its natural form was proved.
pub fn follow_natural<E: Engine>(
    engine: &mut E,
    env: &mut VerifierEnv,
    state: &State,
    basis: &Basis,
    natural: Option<ProvedGoal>,
    before: bool,
)
    ensures
        final(env).counters == old(env).counters,
        final(env).error == old(env).error,
        grown_around(old(env).bcf_proofs@, final(env).bcf_proofs@, natural),
        match natural {
            None => *final(engine) == *old(engine) && *final(env) == *old(env),
            Some(goal) => exists|e: &mut E, v: &mut VerifierEnv|
                {
                    &&& #[trigger] call_ensures(
                        add_reconstructions::<E>,
                        (e, v, state, basis, goal, before),
                        (),
                    )
                    &&& *e == *old(engine)
                    &&& *v == *old(env)
                    &&& *final(engine) == *final(e)
                    &&& *final(env) == *final(v)
                },
        },
{
    proof {
        lemma_grown_same(env.bcf_proofs@, BundleKind::Unreachable);
    }
    match natural {
        Some(goal) => {
            add_reconstructions(engine, env, state, basis, goal, before);
        },
        None => {},
    }
}

proof fn lemma_grown_around_further(
    a: Seq<RefineEntry>,
    b: Seq<RefineEntry>,
    c: Seq<RefineEntry>,
    natural: Option<ProvedGoal>,
)
    requires
        grown(a, b, BundleKind::Unreachable),
        grown_around(b, c, natural),
    ensures
        grown_around(a, c, natural),
{
    if grown(b, c, BundleKind::Unreachable) {
        lemma_grown_further(a, b, c);
    } else {
        let goal = natural->0;
        let mid = choose|mid: Seq<RefineEntry>|
            #![trigger grown(b, mid, BundleKind::Unreachable)]
            grown(b, mid, BundleKind::Unreachable) && grown(
                mid.push(RefineEntry { kind: BundleKind::Unreachable, goal }),
                c,
                BundleKind::Unreachable,
            );
        lemma_grown_further(a, b, mid);
    }
}

}
