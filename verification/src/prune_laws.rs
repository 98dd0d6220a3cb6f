//! What holds of pruning: what is given up is covered, and scores and evictions follow
//! from hits and misses.

use vstd::prelude::*;

use crate::ast::Program;
use crate::cache::{without, CacheData, StateMetrics};
use crate::engine::{Engine, LoopFacts, SubsumptionQuery};
use crate::env::{InsnAux, VerifierEnv};
use crate::machine::{RegInfo, StackSlot, State, StateView};
use crate::pruning::{
    active, arrival_decided, at_may_goto, callsites, clean_candidates, cleanable, covers,
    dampener_would_suppress, decide_by_candidates, decide_early, eligible, evicted_places, evicts,
    frame_mask, in_lineage, lemma_filter_contains, masks_of, may_be_own_past, may_repeat,
    nth_ancestor, prune_decided, record_pruning_hit, record_pruning_misses, relaxed_query,
    relaxed_reply, scan_candidates, scores_after, should_prune, states_to_clean, uncleaned, visible,
    would_add_new_state_base, Early, ScanOutcome,
};

verus! {

// ---------------------------------------------------------------------------
// Candidates
// ---------------------------------------------------------------------------

/// Whether two states were reached through the same calls.
pub open spec fn same_calls(a: State, b: State) -> bool {
    a.frames@.len() == b.frames@.len() && forall|i: int|
        0 <= i < a.frames@.len() ==> (#[trigger] a.frames@[i]).return_pc == b.frames@[i].return_pc
}

proof fn lemma_same_calls(a: State, b: State)
    ensures
        same_calls(a, b) == (callsites(a) == callsites(b)),
{
    if same_calls(a, b) {
        assert(callsites(a) =~= callsites(b));
    }
    if callsites(a) == callsites(b) {
        assert(callsites(a).len() == a.frames@.len());
        assert(callsites(b).len() == b.frames@.len());
        assert forall|i: int| 0 <= i < a.frames@.len() implies (#[trigger] a.frames@[i]).return_pc
            == b.frames@[i].return_pc by {
            assert(callsites(a)[i] == callsites(b)[i]);
        }
    }
}

/// Whether a cached state may stand for an arrival: every path from it was explored, it
/// was not marked as one that must not, and it was reached through the same calls.
pub open spec fn may_stand_for(cached: State, state: State) -> bool {
    cached.branches == 0 && !cached.children_unsafe && same_calls(cached, state)
}

/// Whether the masks of a question are those of the arrival: the registers that are
/// live where it stands, and for each frame those that are live at its call.
pub open spec fn masks_fit(aux: Seq<InsnAux>, state: State, q: SubsumptionQuery) -> bool {
    &&& state.pc < aux.len()
    &&& q.live_regs == aux[state.pc as int].live_regs
    &&& q.frame_live_regs@.len() == state.frames@.len()
    &&& forall|i: int|
        0 <= i < state.frames@.len() ==> {
            let back = (#[trigger] state.frames@[i]).return_pc;
            q.frame_live_regs@[i] == if 0 < back <= aux.len() {
                Some(aux[back - 1].live_regs)
            } else {
                None
            }
        }
}

/// Whether a state is another one without its precision marks.
pub open spec fn without_precision(a: StateView, v: StateView) -> bool {
    &&& a.pc == v.pc
    &&& a.regs.len() == v.regs.len()
    &&& forall|i: int|
        0 <= i < v.regs.len() ==> #[trigger] a.regs[i] == (RegInfo { precise: false, ..v.regs[i] })
    &&& a.frames.len() == v.frames.len()
    &&& forall|i: int, k: int|
        0 <= i < v.frames.len() && 0 <= k < v.frames[i].slots.len()
            ==> #[trigger] a.frames[i].slots[k] == (StackSlot {
            precise: false,
            ..v.frames[i].slots[k]
        })
    &&& a == (StateView { regs: a.regs, frames: a.frames, ..v })
}

/// Whether an arrival may be compared with its candidates: at the head of a loop only
/// where a condition leads out of it, and not before an iterator of the loop was widened
/// at a checkpoint of its body.
pub open spec fn may_be_compared(env: VerifierEnv, state: State, facts: LoopFacts) -> bool {
    facts.at_loop_point ==> {
        &&& facts.conditional_exit
        &&& facts.arrived_via_back_edge && facts.body_has_force_checkpoint
            && facts.iter_pre_widening ==> state.pc < env.insn_aux@.len()
            && env.insn_aux@[state.pc as int].force_checkpoint
    }
}

/// Whether the engine said that a cached state holds every behaviour of an arrival: one
/// that may stand for it, or at a bounded jump one that was reached by another number of
/// bounded jumps, where precision does not count.
pub open spec fn covered<E: Engine>(
    engine: E,
    env: VerifierEnv,
    prog: Program,
    state: State,
    asked: State,
    cached: State,
    q: SubsumptionQuery,
) -> bool {
    &&& call_ensures(E::subsumed, (&engine, &asked, &cached, &q), true)
    &&& env.cache@.bucket(state.pc).contains(cached)
    &&& masks_fit(env.insn_aux@, state, q)
    &&& {
        ||| {
            &&& asked == state && may_stand_for(cached, state)
            &&& exists|facts: LoopFacts, marks: bool| #[trigger]
                call_ensures(E::loop_facts, (&engine, &env, &state, &prog), facts)
                    && #[trigger] call_ensures(
                    E::incomplete_read_marks,
                    (&engine, &env, &cached),
                    marks,
                ) && may_be_compared(env, state, facts) && q.force_exact == (marks
                    || !facts.at_loop_point && env.iter_pcs@.contains(state.pc))
        }
        ||| {
            &&& !q.force_exact
            &&& state.pc < prog.instrs@.len() && prog.instrs@[state.pc as int] is MayGoto
            &&& cached.may_goto_depth != state.may_goto_depth
            &&& without_precision(asked@, state@)
        }
    }
}

/// What is pruned is covered: unless the run has failed with it, an arrival is given up
/// only at a prune point, and only where the engine said of a state that is cached where
/// it stands that it covers the arrival. Where every visit is to be explored that never
/// happens.
pub proof fn law_pruned_arrivals_are_covered<E: Engine>(
    engine: &mut E,
    env: &mut VerifierEnv,
    state: State,
    prog: Program,
)
    requires
        call_ensures(should_prune::<E>, (engine, env, &state, &prog), true),
        final(env).error is None,
    ensures
        !old(env).ctx.test_state_freq,
        exists|e: E, v: VerifierEnv, asked: State, cached: State, q: SubsumptionQuery|
            #[trigger] covered(e, v, prog, state, asked, cached, q) && v.insn_aux@ == old(
                env,
            ).insn_aux@,
        exists|v: VerifierEnv| #[trigger]
            call_ensures(E::is_prune_point, (&*old(engine), &v, state.pc), true) && v.cache
                == old(env).cache,
{
    let (fresh, point) = choose|fresh: VerifierEnv, at_prune_point: bool|
        {
            &&& #[trigger] call_ensures(
                E::is_prune_point,
                (&*engine, &fresh, state.pc),
                at_prune_point,
            )
            &&& fresh == (VerifierEnv { saw_active_state_at_check: false, ..*env })
            &&& at_prune_point
            &&& exists|e1: &mut E, v1: &mut VerifierEnv, e2: &mut E, v2: &mut VerifierEnv|
                {
                    &&& #[trigger] call_ensures(clean_candidates::<E>, (e1, v1, state.pc), ())
                    &&& *v1 == fresh
                    &&& #[trigger] call_ensures(
                        decide_by_candidates::<E>,
                        (e2, v2, &state, &prog),
                        true,
                    )
                    &&& *v2 == *final(v1)
                    &&& *final(env) == *final(v2)
                }
        };
    let (e1, v1, e2, v2) = choose|
        e1: &mut E,
        v1: &mut VerifierEnv,
        e2: &mut E,
        v2: &mut VerifierEnv,
    |
        {
            &&& #[trigger] call_ensures(clean_candidates::<E>, (e1, v1, state.pc), ())
            &&& *v1 == fresh
            &&& #[trigger] call_ensures(
                decide_by_candidates::<E>,
                (e2, v2, &state, &prog),
                true,
            )
            &&& *v2 == *final(v1)
            &&& *final(env) == *final(v2)
        };
    lemma_decided_covered(e2, v2, state, prog);
}

proof fn lemma_decided_covered<E: Engine>(
    engine: &mut E,
    env: &mut VerifierEnv,
    state: State,
    prog: Program,
)
    requires
        call_ensures(decide_by_candidates::<E>, (engine, env, &state, &prog), true),
        final(env).error is None,
    ensures
        !old(env).ctx.test_state_freq,
        exists|asked: State, cached: State, q: SubsumptionQuery|
            #[trigger] covered(*old(engine), *old(env), prog, state, asked, cached, q),
{
    let states = (*env).cache@.bucket(state.pc);
    let facts = choose|facts: LoopFacts|
        #![trigger prune_decided(*engine, *env, *final(env), state, prog, facts, true)]
        call_ensures(E::loop_facts, (&*engine, &*env, &state, &prog), facts) && prune_decided(
            *engine,
            *env,
            *final(env),
            state,
            prog,
            facts,
            true,
        );
    if at_may_goto(prog, state.pc) && relaxed_reply(
        *engine,
        *env,
        state,
        true,
    ) {
        let (asked, q) = choose|relaxed: State, q: SubsumptionQuery| #[trigger]
            relaxed_query(*env, state, relaxed, q) && exists|i: int|
                0 <= i < states.len() && (#[trigger] states[i]).may_goto_depth
                    != state.may_goto_depth && call_ensures(
                    E::subsumed,
                    (&*engine, &relaxed, &states[i], &q),
                    true,
                );
        let i = choose|i: int|
            0 <= i < states.len() && (#[trigger] states[i]).may_goto_depth != state.may_goto_depth
                && call_ensures(E::subsumed, (&*engine, &asked, &states[i], &q), true);
        assert(states.contains(states[i]));
        lemma_masks(*env, state, q);
        assert(covered(*engine, *env, prog, state, asked, states[i], q));
    } else {
        let exact = if facts.at_loop_point {
            false
        } else {
            (*env).iter_pcs@.contains(state.pc)
        };
        let (subsumes, out) = choose|subsumes: Seq<bool>, out: ScanOutcome| #[trigger]
            arrival_decided(*engine, *env, *final(env), state, exact, true, subsumes, out);
        let h = out.hit->0 as int;
        assert(covers(states, state, subsumes, h));
        assert(eligible(states, state, h));
        assert(subsumes[h]);
        let (marks, q) = choose|marks: bool, q: SubsumptionQuery|
            #![trigger
                call_ensures(E::incomplete_read_marks, (&*engine, &*env, &states[h]), marks),
                masks_of(*env, state, state.pc, q.live_regs, q.frame_live_regs@)]
            {
                &&& call_ensures(E::incomplete_read_marks, (&*engine, &*env, &states[h]), marks)
                &&& q.force_exact == (exact || marks)
                &&& masks_of(*env, state, state.pc, q.live_regs, q.frame_live_regs@)
                &&& call_ensures(E::subsumed, (&*engine, &state, &states[h], &q), true)
            };
        assert(states.contains(states[h]));
        lemma_masks(*env, state, q);
        lemma_same_calls(states[h], state);
        assert(covered(*engine, *env, prog, state, state, states[h], q));
    }
}

proof fn lemma_masks(env: VerifierEnv, state: State, q: SubsumptionQuery)
    requires
        masks_of(env, state, state.pc, q.live_regs, q.frame_live_regs@),
    ensures
        masks_fit(env.insn_aux@, state, q),
{
    assert forall|i: int| 0 <= i < state.frames@.len() implies {
        let back = (#[trigger] state.frames@[i]).return_pc;
        q.frame_live_regs@[i] == if 0 < back <= env.insn_aux@.len() {
            Some(env.insn_aux@[back - 1].live_regs)
        } else {
            None
        }
    } by {
        assert(q.frame_live_regs@[i] == frame_mask(
            env,
            state.frames@[i].return_pc,
        ));
    }
}

/// A scan finds the newest candidate that may stand for the arrival and is said to hold
/// every behaviour of it, and none only where there is none.
pub proof fn law_scans_find_the_newest(
    states: Vec<State>,
    state: State,
    add: bool,
    suppress: bool,
    subsumes: Vec<bool>,
    out: ScanOutcome,
)
    requires
        call_ensures(scan_candidates, (&states, &state, add, suppress, &subsumes), out),
        subsumes@.len() == states@.len(),
    ensures
        out.hit matches Some(h) ==> h < states@.len() && subsumes@[h as int] && may_stand_for(
            states@[h as int],
            state,
        ),
        forall|i: int|
            0 <= i < states@.len() && #[trigger] subsumes@[i] && may_stand_for(states@[i], state)
                ==> (out.hit matches Some(h) && h >= i),
        out.saw_active <==> exists|i: int|
            #![trigger states@[i]]
            0 <= i < states@.len() && (out.hit matches Some(h) ==> h < i) && same_calls(
                states@[i],
                state,
            ) && !states@[i].children_unsafe && states@[i].branches > 0,
{
    let s = states@;
    assert forall|i: int| 0 <= i < s.len() implies #[trigger] same_calls(s[i], state) == visible(
        s,
        state,
        i,
    ) by {
        lemma_same_calls(s[i], state);
    }
    assert forall|i: int|
        0 <= i < s.len() && #[trigger] subsumes@[i] && may_stand_for(s[i], state) implies (
    out.hit matches Some(h) && h >= i) by {
        assert(same_calls(s[i], state) == visible(s, state, i));
        assert(covers(s, state, subsumes@, i));
    }
    match out.hit {
        Some(h) => {
            assert(covers(s, state, subsumes@, h as int));
            assert(same_calls(s[h as int], state) == visible(s, state, h as int));
        },
        None => {},
    }
    if out.saw_active {
        let j = choose|j: int|
            #[trigger] active(s, state, j) && (out.hit matches Some(h) ==> h < j);
        assert(same_calls(s[j], state) == visible(s, state, j));
    }
    if exists|i: int|
        #![trigger states@[i]]
        0 <= i < states@.len() && (out.hit matches Some(h) ==> h < i) && same_calls(
            states@[i],
            state,
        ) && !states@[i].children_unsafe && states@[i].branches > 0 {
        let i = choose|i: int|
            #![trigger states@[i]]
            0 <= i < states@.len() && (out.hit matches Some(h) ==> h < i) && same_calls(
                states@[i],
                state,
            ) && !states@[i].children_unsafe && states@[i].branches > 0;
        assert(same_calls(s[i], state) == visible(s, state, i));
        assert(active(s, state, i));
    }
}

/// The candidates that count as missed are those that a scan went past, reached through
/// the same calls, while the arrival still wanted to become a checkpoint.
pub proof fn law_misses_are_passed_candidates(
    states: Vec<State>,
    state: State,
    add: bool,
    suppress: bool,
    subsumes: Vec<bool>,
    out: ScanOutcome,
    i: usize,
)
    requires
        call_ensures(scan_candidates, (&states, &state, add, suppress, &subsumes), out),
    ensures
        out.misses@.contains(i) <==> {
            &&& add
            &&& i < states@.len()
            &&& same_calls(states@[i as int], state)
            &&& out.hit matches Some(h) ==> h < i
            &&& suppress ==> forall|j: int|
                #![trigger states@[j]]
                i <= j < states@.len() && same_calls(states@[j], state)
                    ==> states@[j].children_unsafe || states@[j].branches == 0
        },
        out.misses@.no_duplicates(),
{
    let s = states@;
    assert forall|j: int| 0 <= j < s.len() implies #[trigger] same_calls(s[j], state) == visible(
        s,
        state,
        j,
    ) by {
        lemma_same_calls(s[j], state);
    }
    if i < s.len() {
        assert(same_calls(s[i as int], state) == visible(s, state, i as int));
        if exists|j: int| i <= j && #[trigger] active(s, state, j) {
            let j = choose|j: int| i <= j && #[trigger] active(s, state, j);
            assert(same_calls(s[j], state) == visible(s, state, j));
            assert(s[j].branches > 0);
        } else {
            assert forall|j: int|
                #![trigger s[j]]
                i <= j < s.len() && same_calls(s[j], state) implies s[j].children_unsafe
                || s[j].branches == 0 by {
                assert(same_calls(s[j], state) == visible(s, state, j));
                assert(!active(s, state, j));
            }
        }
    }
}

// ---------------------------------------------------------------------------
// Scores
// ---------------------------------------------------------------------------

/// How many of the first `n` places are kept.
pub open spec fn rank(kept: spec_fn(int) -> bool, n: int) -> nat
    decreases n,
{
    if n <= 0 {
        0
    } else {
        rank(kept, n - 1) + if kept(n - 1) {
            1nat
        } else {
            0
        }
    }
}

/// Whether a row is another one without the places that are not kept; the others keep
/// their order.
pub open spec fn keeps<T>(before: Seq<T>, after: Seq<T>, kept: spec_fn(int) -> bool) -> bool {
    &&& after.len() == rank(kept, before.len() as int)
    &&& forall|i: int|
        #![trigger before[i]]
        #![trigger rank(kept, i)]
        0 <= i < before.len() && kept(i) ==> rank(kept, i) < after.len() && after[rank(
            kept,
            i,
        ) as int] == before[i]
}

proof fn lemma_keeps<T>(s: Seq<T>, places: Seq<usize>, kept: spec_fn(int) -> bool)
    requires
        s.len() <= usize::MAX,
        forall|i: int| 0 <= i < s.len() ==> #[trigger] kept(i) == !places.contains(i as usize),
    ensures
        keeps(s, without(s, places), kept),
    decreases s.len(),
{
    if s.len() > 0 {
        lemma_keeps(s.drop_last(), places, kept);
        let n = s.len() - 1;
        let rest = without(s.drop_last(), places);
        assert(places.contains(n as usize) == exists|k: int|
            0 <= k < places.len() && #[trigger] places[k] == n) by {
            if exists|k: int| 0 <= k < places.len() && #[trigger] places[k] == n {
                let k = choose|k: int| 0 <= k < places.len() && #[trigger] places[k] == n;
                assert(places[k] == n as usize);
            }
        }
        assert(kept(n) == !places.contains(n as usize));
        assert(rank(kept, n + 1) == rank(kept, n) + if kept(n) {
            1nat
        } else {
            0
        });
        assert(without(s, places).len() == rank(kept, s.len() as int));
        assert forall|i: int|
            #![trigger s[i]]
            #![trigger rank(kept, i)]
            0 <= i < s.len() && kept(i) implies rank(kept, i) < without(s, places).len()
            && without(s, places)[rank(kept, i) as int] == s[i] by {
            if i < n {
                assert(s.drop_last()[i] == s[i]);
            }
        }
    } else {
        assert(rank(kept, 0) == 0);
    }
}

/// Whether a state is to leave its bucket with one more miss: it has then been missed
/// more often than it has been hit, at so many misses for a hit and for its being there.
pub open spec fn worn_out(
    aux: Seq<InsnAux>,
    pc: usize,
    cached: State,
    score: StateMetrics,
) -> bool {
    let n: int = if pc < aux.len() && aux[pc as int].force_checkpoint && cached.branches > 0 {
        64
    } else {
        3
    };
    score.miss_cnt < u32::MAX && score.miss_cnt + 1 > score.hit_cnt * n + n || score.miss_cnt
        == u32::MAX && score.miss_cnt > score.hit_cnt * n + n
}

/// Missed states leave: of the states that are cached where the arrival stands, those
/// leave that were missed and are worn out by it. The others stay in order, with one miss
/// more where they were missed and with their scores as they were where they were not.
/// What has left is still found by its number, and nothing changes elsewhere.
pub proof fn law_worn_out_states_leave(
    env: &mut VerifierEnv,
    pc: usize,
    misses: Vec<usize>,
    kept: spec_fn(int) -> bool,
)
    requires
        call_ensures(record_pruning_misses, (env, pc, &misses), ()),
        env.cache@.bucket(pc).len() == env.cache@.scores(pc).len(),
        kept == (|i: int|
            !(misses@.contains(i as usize) && worn_out(
                env.insn_aux@,
                pc,
                env.cache@.bucket(pc)[i],
                env.cache@.scores(pc)[i],
            ))),
    ensures
        keeps(old(env).cache@.bucket(pc), final(env).cache@.bucket(pc), kept),
        final(env).cache@.scores(pc).len() == final(env).cache@.bucket(pc).len(),
        forall|i: int|
            #![trigger old(env).cache@.scores(pc)[i]]
            0 <= i < old(env).cache@.scores(pc).len() && kept(i) ==> {
                let was = old(env).cache@.scores(pc)[i];
                let is = final(env).cache@.scores(pc)[rank(kept, i) as int];
                &&& is.hit_cnt == was.hit_cnt
                &&& is.miss_cnt == if misses@.contains(i as usize) && was.miss_cnt < u32::MAX {
                    was.miss_cnt + 1
                } else {
                    was.miss_cnt as int
                }
            },
        forall|q: usize|
            q != pc ==> #[trigger] final(env).cache@.bucket(q) == old(env).cache@.bucket(q)
                && final(env).cache@.scores(q) == old(env).cache@.scores(q),
        forall|id: u32|
            #[trigger] final(env).cache@.resolve(id) == old(env).cache@.resolve(id),
        final(env).cache@.next_id == old(env).cache@.next_id,
{
    let c = (*env).cache@;
    let force = (*env).spec_force_checkpoint(pc);
    let states = c.bucket(pc);
    let scores = c.scores(pc);
    let gone = evicted_places(c, pc, force, misses@);
    lemma_filter_contains(misses@, |i: usize| evicts(c, pc, force, i));
    if c.explored@.contains_key(pc) {
        assert(c.explored@[pc].len() <= usize::MAX);
    }
    assert forall|i: int| 0 <= i < states.len() implies #[trigger] kept(i) == !gone.contains(
        i as usize,
    ) by {
        assert(gone.contains(i as usize) == (misses@.contains(i as usize) && evicts(
            c,
            pc,
            force,
            i as usize,
        )));
    }
    let counted = scores_after(scores, misses@);
    lemma_keeps(states, gone, kept);
    lemma_keeps(counted, gone, kept);
    assert forall|i: int|
        #![trigger scores[i]]
        0 <= i < scores.len() && kept(i) implies {
        let is = final(env).cache@.scores(pc)[rank(kept, i) as int];
        &&& is.hit_cnt == scores[i].hit_cnt
        &&& is.miss_cnt == if misses@.contains(i as usize) && scores[i].miss_cnt < u32::MAX {
            scores[i].miss_cnt + 1
        } else {
            scores[i].miss_cnt as int
        }
    } by {
        assert(counted[i] == final(env).cache@.scores(pc)[rank(kept, i) as int]);
    }
}

/// A hit counts for the state that was hit: its score grows by one hit, and no other
/// score and no state changes.
pub proof fn law_hits_count_once(env: &mut VerifierEnv, pc: usize, idx: usize)
    requires
        call_ensures(record_pruning_hit, (env, pc, idx), ()),
    ensures
        forall|q: usize| #[trigger]
            final(env).cache@.bucket(q) == old(env).cache@.bucket(q) && final(env).cache@.scores(
                q,
            ).len() == old(env).cache@.scores(q).len(),
        forall|q: usize, i: int|
            #![trigger final(env).cache@.scores(q)[i]]
            0 <= i < old(env).cache@.scores(q).len() ==> {
                let was = old(env).cache@.scores(q)[i];
                let is = final(env).cache@.scores(q)[i];
                &&& is.miss_cnt == was.miss_cnt
                &&& is.hit_cnt == if q == pc && i == idx && was.hit_cnt < u32::MAX {
                    was.hit_cnt + 1
                } else {
                    was.hit_cnt as int
                }
            },
        *final(env) == (VerifierEnv { cache: final(env).cache, ..*old(env) }),
{
}

/// When an arrival becomes a checkpoint: always where the instruction asks for it or the
/// path has taken over forty branches, else once two jumps and eight instructions were
/// processed since the last one. An unfinished candidate keeps it from becoming one as
/// long as there were fewer than twenty jumps and a hundred instructions.
pub proof fn law_checkpoints_are_spaced(
    env: VerifierEnv,
    state: State,
    pc: usize,
    adds: bool,
    suppressed: bool,
)
    requires
        call_ensures(would_add_new_state_base, (&env, &state, pc), adds),
        call_ensures(dampener_would_suppress, (&env, &state, pc), suppressed),
    ensures
        ({
            let forced = pc < env.insn_aux@.len() && env.insn_aux@[pc as int].force_checkpoint
                || state.jmp_history_cnt > 40;
            let c = env.counters;
            &&& adds <==> forced || (c.jmps_processed >= c.prev_jmps_processed + 2
                && c.insn_processed >= c.prev_insn_processed + 8)
            &&& suppressed <==> !forced && c.jmps_processed < c.prev_jmps_processed + 20
                && c.insn_processed < c.prev_insn_processed + 100
        }),
{
}

// ---------------------------------------------------------------------------
// Explored arrivals
// ---------------------------------------------------------------------------

/// What is explored was not covered: where an arrival at no loop head is not given up
/// although not every visit is to be explored, the engine said of every candidate that
/// may stand for it that it does not hold every behaviour of the arrival.
pub proof fn law_explored_arrivals_were_compared<E: Engine>(
    engine: &mut E,
    env: &mut VerifierEnv,
    state: State,
    prog: Program,
    i: int,
)
    requires
        call_ensures(decide_by_candidates::<E>, (engine, env, &state, &prog), false),
        !env.ctx.test_state_freq,
        forall|facts: LoopFacts| #[trigger]
            call_ensures(E::loop_facts, (&*engine, &*env, &state, &prog), facts)
                ==> may_be_compared(*env, state, facts),
        0 <= i < env.cache@.bucket(state.pc).len(),
        may_stand_for(env.cache@.bucket(state.pc)[i], state),
    ensures
        exists|q: SubsumptionQuery| #[trigger]
            masks_fit(old(env).insn_aux@, state, q) && call_ensures(
                E::subsumed,
                (&*old(engine), &state, &old(env).cache@.bucket(state.pc)[i], &q),
                false,
            ),
{
    let states = (*env).cache@.bucket(state.pc);
    let facts = choose|facts: LoopFacts|
        #![trigger prune_decided(*engine, *env, *final(env), state, prog, facts, false)]
        call_ensures(E::loop_facts, (&*engine, &*env, &state, &prog), facts) && prune_decided(
            *engine,
            *env,
            *final(env),
            state,
            prog,
            facts,
            false,
        );
    let exact = if facts.at_loop_point {
        false
    } else {
        (*env).iter_pcs@.contains(state.pc)
    };
    let (subsumes, out) = choose|subsumes: Seq<bool>, out: ScanOutcome| #[trigger]
        arrival_decided(*engine, *env, *final(env), state, exact, false, subsumes, out);
    lemma_same_calls(states[i], state);
    assert(eligible(states, state, i));
    assert forall|j: int| 0 <= j < states.len() implies !#[trigger] subsumes[j] by {
        assert(!covers(states, state, subsumes, j));
    }
    let (marks, q) = choose|marks: bool, q: SubsumptionQuery|
        #![trigger
            call_ensures(E::incomplete_read_marks, (&*engine, &*env, &states[i]), marks),
            masks_of(*env, state, state.pc, q.live_regs, q.frame_live_regs@)]
        {
            &&& call_ensures(E::incomplete_read_marks, (&*engine, &*env, &states[i]), marks)
            &&& q.force_exact == (exact || marks)
            &&& masks_of(*env, state, state.pc, q.live_regs, q.frame_live_regs@)
            &&& call_ensures(E::subsumed, (&*engine, &state, &states[i], &q), false)
        };
    lemma_masks(*env, state, q);
}

// ---------------------------------------------------------------------------
// Endless loops
// ---------------------------------------------------------------------------

/// Whether a row of numbers leads from a first checkpoint up to another one, each the
/// parent of the one before it.
pub open spec fn leads_up(cache: CacheData, first: Option<u32>, row: Seq<u32>, last: u32) -> bool {
    &&& row.len() > 0 && first == Some(row[0]) && row.last() == last
    &&& forall|k: int|
        0 <= k < row.len() - 1 ==> (cache.resolve(#[trigger] row[k]) matches Some(e)
            && e.1.parent_cache_id == Some(row[k + 1]))
}

proof fn lemma_leads_up(cache: CacheData, first: Option<u32>, k: nat, last: u32)
    requires
        nth_ancestor(cache, first, k) == Some(last),
    ensures
        exists|row: Seq<u32>| #[trigger]
            leads_up(cache, first, row, last) && row.len() == k + 1,
    decreases k,
{
    if k == 0 {
        let row = seq![last];
        assert(leads_up(cache, first, row, last));
    } else {
        let before = nth_ancestor(cache, first, (k - 1) as nat)->0;
        lemma_leads_up(cache, first, (k - 1) as nat, before);
        let row = choose|row: Seq<u32>| #[trigger]
            leads_up(cache, first, row, before) && row.len() == k;
        let more = row.push(last);
        assert forall|j: int| 0 <= j < more.len() - 1 implies (cache.resolve(
            #[trigger] more[j],
        ) matches Some(e) && e.1.parent_cache_id == Some(more[j + 1])) by {
            if j < row.len() - 1 {
                assert(more[j] == row[j]);
            }
        }
        assert(leads_up(cache, first, more, last));
    }
}

proof fn lemma_row_found(cache: CacheData, first: Option<u32>, row: Seq<u32>, k: int)
    requires
        leads_up(cache, first, row, row.last()),
        0 <= k < row.len(),
    ensures
        nth_ancestor(cache, first, k as nat) == Some(row[k]),
    decreases k,
{
    if k > 0 {
        lemma_row_found(cache, first, row, k - 1);
        assert(cache.resolve(row[k - 1]) is Some);
    }
}

/// Whether an arrival stands again where it stood: a state that is cached where it
/// stands is unfinished, is one of its ancestors, was reached by as many bounded jumps,
/// and the engine says that they hold the same values with no iterator moved on.
pub open spec fn stands_again<E: Engine>(
    engine: E,
    cache: CacheData,
    state: State,
    cached: State,
    row: Seq<u32>,
) -> bool {
    &&& cache.bucket(state.pc).contains(cached)
    &&& cached.dfs_paths > 0
    &&& cached.cache_id matches Some(id) && leads_up(cache, state.parent_cache_id, row, id)
    &&& row.len() <= 4098
    &&& cached.may_goto_depth == state.may_goto_depth
    &&& call_ensures(E::iter_depths_differ, (&engine, &cached, &state), false)
    &&& call_ensures(E::exact_equal, (&engine, &cached, &state), true)
}

/// An arrival counts as an endless loop only where it is one: it is at the head of a
/// loop, holds no iterator under way and is no call, and it stands again where it stood.
pub proof fn law_endless_loops_stand_again<E: Engine>(
    engine: E,
    env: VerifierEnv,
    state: State,
    prog: Program,
    facts: LoopFacts,
    live_regs: [bool; 11],
    frame_masks: Vec<Option<[bool; 11]>>,
)
    requires
        call_ensures(
            decide_early::<E>,
            (&engine, &env, &state, &prog, facts, live_regs, &frame_masks),
            Early::EndlessLoop,
        ),
    ensures
        facts.at_loop_point,
        state.pc < prog.instrs@.len() && !(prog.instrs@[state.pc as int] is Call),
        forall|i: int|
            0 <= i < state.frames@.len() ==> !(#[trigger] state.frames@[i]).active_iterators,
        exists|cached: State, row: Seq<u32>| #[trigger]
            stands_again(engine, env.cache@, state, cached, row),
{
    let states = env.cache@.bucket(state.pc);
    let i = choose|i: int|
        0 <= i < states.len() && may_be_own_past(env.cache@, state, #[trigger] states[i])
            && may_repeat(engine, state, states[i]);
    let id = states[i].cache_id->0;
    let k = choose|k: nat| k <= 4097 && #[trigger] nth_ancestor(
        env.cache@,
        state.parent_cache_id,
        k,
    ) == Some(id);
    lemma_leads_up(env.cache@, state.parent_cache_id, k, id);
    let row = choose|row: Seq<u32>| #[trigger]
        leads_up(env.cache@, state.parent_cache_id, row, id) && row.len() == k + 1;
    assert(states.contains(states[i]));
    assert(stands_again(engine, env.cache@, state, states[i], row));
}

/// An endless loop is found: where an arrival at the head of a loop holds no iterator
/// under way and is no call, and some unfinished ancestor that was reached by as many
/// bounded jumps is cached where it stands, then the engine has said that the values or
/// an iterator have moved on, or the arrival counts as an endless loop.
pub proof fn law_endless_loops_are_found<E: Engine>(
    engine: E,
    env: VerifierEnv,
    state: State,
    prog: Program,
    facts: LoopFacts,
    live_regs: [bool; 11],
    frame_masks: Vec<Option<[bool; 11]>>,
    early: Early,
    cached: State,
    row: Seq<u32>,
)
    requires
        call_ensures(
            decide_early::<E>,
            (&engine, &env, &state, &prog, facts, live_regs, &frame_masks),
            early,
        ),
        facts.at_loop_point,
        state.pc < prog.instrs@.len() && !(prog.instrs@[state.pc as int] is Call),
        forall|i: int|
            0 <= i < state.frames@.len() ==> !(#[trigger] state.frames@[i]).active_iterators,
        env.cache@.bucket(state.pc).contains(cached),
        cached.dfs_paths > 0,
        cached.may_goto_depth == state.may_goto_depth,
        cached.cache_id is Some,
        leads_up(env.cache@, state.parent_cache_id, row, cached.cache_id->0),
        row.len() <= 4098,
    ensures
        early == Early::EndlessLoop || call_ensures(
            E::iter_depths_differ,
            (&engine, &cached, &state),
            true,
        ) || call_ensures(E::exact_equal, (&engine, &cached, &state), false),
{
    let states = env.cache@.bucket(state.pc);
    let i = choose|i: int| 0 <= i < states.len() && states[i] == cached;
    lemma_row_found(env.cache@, state.parent_cache_id, row, row.len() - 1);
    assert(in_lineage(env.cache@, state.parent_cache_id, cached.cache_id->0));
    assert(may_be_own_past(env.cache@, state, states[i]));
}

/// Before the candidates are scanned an arrival that is no endless loop is explored
/// where every visit is, and else given up only at a bounded jump.
pub proof fn law_early_decisions<E: Engine>(
    engine: E,
    env: VerifierEnv,
    state: State,
    prog: Program,
    facts: LoopFacts,
    live_regs: [bool; 11],
    frame_masks: Vec<Option<[bool; 11]>>,
    early: Early,
)
    requires
        call_ensures(
            decide_early::<E>,
            (&engine, &env, &state, &prog, facts, live_regs, &frame_masks),
            early,
        ),
        early != Early::EndlessLoop,
    ensures
        early == Early::Explore <==> env.ctx.test_state_freq,
        early == Early::Covered ==> state.pc < prog.instrs@.len()
            && prog.instrs@[state.pc as int] is MayGoto,
{
}

// ---------------------------------------------------------------------------
// Late cleaning
// ---------------------------------------------------------------------------

/// What is cleaned is finished: a state is to be cleaned only where every path from it
/// was explored, it was not cleaned before, and the engine says that its read marks are
/// complete; and each of these is, unless it bears no number.
pub proof fn law_finished_states_are_cleaned<E: Engine>(
    engine: E,
    env: VerifierEnv,
    pc: usize,
    r: Vec<u32>,
)
    requires
        call_ensures(states_to_clean::<E>, (&engine, &env, pc), r),
    ensures
        forall|id: u32| #[trigger]
            r@.contains(id) ==> exists|i: int|
                #![trigger env.cache@.bucket(pc)[i]]
                0 <= i < env.cache@.bucket(pc).len() && {
                    let c = env.cache@.bucket(pc)[i];
                    &&& c.cache_id == Some(id) && c.branches == 0 && !c.cleaned
                    &&& call_ensures(E::incomplete_read_marks, (&engine, &env, &c), false)
                },
        forall|i: int|
            #![trigger env.cache@.bucket(pc)[i]]
            0 <= i < env.cache@.bucket(pc).len() && {
                let c = env.cache@.bucket(pc)[i];
                c.cache_id is Some && c.branches == 0 && !c.cleaned
            } ==> r@.contains(env.cache@.bucket(pc)[i].cache_id->0) || call_ensures(
                E::incomplete_read_marks,
                (&engine, &env, &env.cache@.bucket(pc)[i]),
                true,
            ),
{
    let states = env.cache@.bucket(pc);
    let incomplete = choose|incomplete: Seq<bool>| #[trigger]
        cleanable(states, incomplete) == r@ && incomplete.len() == states.len() && forall|i: int|
            0 <= i < incomplete.len() && uncleaned(states[i]) ==> call_ensures(
                E::incomplete_read_marks,
                (&engine, &env, &states[i]),
                #[trigger] incomplete[i],
            );
    lemma_cleanable(states, incomplete);
    assert forall|id: u32| #[trigger] r@.contains(id) implies exists|i: int|
        #![trigger states[i]]
        0 <= i < states.len() && {
            let c = states[i];
            &&& c.cache_id == Some(id) && c.branches == 0 && !c.cleaned
            &&& call_ensures(E::incomplete_read_marks, (&engine, &env, &c), false)
        } by {
        let i = choose|i: int|
            0 <= i < states.len() && states[i].cache_id == Some(id) && states[i].branches == 0
                && !states[i].cleaned && !#[trigger] incomplete[i];
        assert(call_ensures(E::incomplete_read_marks, (&engine, &env, &states[i]), incomplete[i]));
    }
    assert forall|i: int|
        #![trigger states[i]]
        0 <= i < states.len() && {
            let c = states[i];
            c.cache_id is Some && c.branches == 0 && !c.cleaned
        } implies r@.contains(states[i].cache_id->0) || call_ensures(
        E::incomplete_read_marks,
        (&engine, &env, &states[i]),
        true,
    ) by {
        assert(call_ensures(E::incomplete_read_marks, (&engine, &env, &states[i]), incomplete[i]));
    }
}

proof fn lemma_cleanable(states: Seq<State>, incomplete: Seq<bool>)
    requires
        states.len() == incomplete.len(),
    ensures
        forall|id: u32| #[trigger]
            cleanable(states, incomplete).contains(id) ==> exists|i: int|
                0 <= i < states.len() && states[i].cache_id == Some(id) && states[i].branches == 0
                    && !states[i].cleaned && !#[trigger] incomplete[i],
        forall|i: int|
            0 <= i < states.len() && states[i].cache_id is Some && states[i].branches == 0
                && !states[i].cleaned && !#[trigger] incomplete[i] ==> cleanable(
                states,
                incomplete,
            ).contains(states[i].cache_id->0),
    decreases states.len(),
{
    if states.len() > 0 {
        let a = states.drop_last();
        let b = incomplete.drop_last();
        lemma_cleanable(a, b);
        let n = states.len() - 1;
        let rest = cleanable(a, b);
        let all = cleanable(states, incomplete);
        assert forall|id: u32| #[trigger] all.contains(id) implies exists|i: int|
            0 <= i < states.len() && states[i].cache_id == Some(id) && states[i].branches == 0
                && !states[i].cleaned && !#[trigger] incomplete[i] by {
            if rest.contains(id) {
                let i = choose|i: int|
                    0 <= i < a.len() && a[i].cache_id == Some(id) && a[i].branches == 0
                        && !a[i].cleaned && !#[trigger] b[i];
                assert(!incomplete[i]);
            } else {
                let k = choose|k: int| 0 <= k < all.len() && all[k] == id;
                if k < rest.len() {
                    assert(rest[k] == id);
                }
                assert(!incomplete[n]);
            }
        }
        assert forall|i: int|
            0 <= i < states.len() && states[i].cache_id is Some && states[i].branches == 0
                && !states[i].cleaned && !#[trigger] incomplete[i] implies all.contains(
            states[i].cache_id->0,
        ) by {
            if i < n {
                assert(!b[i]);
                assert(rest.contains(a[i].cache_id->0));
                let k = choose|k: int| 0 <= k < rest.len() && rest[k] == a[i].cache_id->0;
                assert(all[k] == rest[k]);
            } else {
                assert(all.last() == states[i].cache_id->0);
            }
        }
    }
}

}
