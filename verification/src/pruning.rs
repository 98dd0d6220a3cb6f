//! Pruning: whether an arriving state is covered by one that was explored
//! before, and what the arrival does to the scores of the cached states.

use vstd::prelude::*;

use crate::ast::{Instr, Program};
use crate::cache::{
    descending, lemma_without_any_order, sorted_down, without, CacheData, StateCache, StateMetrics,
};
use crate::engine::{Engine, LoopFacts, SubsumptionQuery};
use crate::env::{Counters, VerifierEnv};
use crate::machine::{
    frame_views, Frame, FrameView, RegInfo, StackSlot, State, StateView, VerificationError,
};
use crate::vectors::copy_vec;

verus! {

/// Where the frames of a state return to.
pub open spec fn callsites(s: State) -> Seq<usize> {
    Seq::new(s.frames@.len(), |i: int| s.frames@[i].return_pc)
}

/// Whether two states were reached through the same calls. A state that was
/// reached through others is no candidate for an arrival.
pub fn same_callsites(a: &State, b: &State) -> (r: bool)
    ensures
        r == (callsites(*a) == callsites(*b)),
{
    if a.frames.len() != b.frames.len() {
        assert(callsites(*a).len() != callsites(*b).len());
        return false;
    }
    let mut i: usize = 0;
    while i < a.frames.len()
        invariant
            i <= a.frames@.len(),
            a.frames@.len() == b.frames@.len(),
            forall|j: int| 0 <= j < i ==> callsites(*a)[j] == callsites(*b)[j],
        decreases a.frames@.len() - i,
    {
        if a.frames[i].return_pc != b.frames[i].return_pc {
            assert(callsites(*a)[i as int] != callsites(*b)[i as int]);
            return false;
        }
        i += 1;
    }
    assert(callsites(*a) =~= callsites(*b));
    true
}

/// Whether an exact recurrence at `pc` is no sign of an endless loop: calls
/// drive loops of their own.
pub fn is_inf_loop_skip_pc(prog: &Program, pc: usize) -> (r: bool)
    ensures
        r == (prog.spec_fetch(pc) matches Some(i) && i is Call),
{
    match prog.fetch(pc) {
        Some(Instr::Call { .. }) => true,
        _ => false,
    }
}

// ---------------------------------------------------------------------------
// When an arrival becomes a checkpoint
// ---------------------------------------------------------------------------

/// The difference of two counts, not below zero.
pub open spec fn since(now: usize, then: usize) -> int {
    if now >= then {
        now - then
    } else {
        0
    }
}

impl Counters {
    /// Jumps since the last checkpoint.
    pub open spec fn jmps(self) -> int {
        since(self.jmps_processed, self.prev_jmps_processed)
    }

    /// Instructions since the last checkpoint.
    pub open spec fn insns(self) -> int {
        since(self.insn_processed, self.prev_insn_processed)
    }

    /// Whether enough was done since the last checkpoint for a new one.
    pub open spec fn worth_a_checkpoint(self) -> bool {
        self.jmps() >= 2 && self.insns() >= 8
    }

    /// Whether too little was done since the last checkpoint for a new one
    /// inside a loop.
    pub open spec fn too_early_in_loop(self) -> bool {
        self.jmps() < 20 && self.insns() < 100
    }
}

/// Whether an arrival becomes a checkpoint whatever was done before: the
/// instruction asks for it, or the path has taken many branches.
pub open spec fn forces_checkpoint(env: VerifierEnv, state: State, pc: usize) -> bool {
    env.spec_force_checkpoint(pc) || state.jmp_history_cnt > 40
}

/// Whether an arrival is meant to become a checkpoint, before any candidate was
/// looked at.
pub open spec fn adds_checkpoint(env: VerifierEnv, state: State, pc: usize) -> bool {
    forces_checkpoint(env, state, pc) || env.counters.worth_a_checkpoint()
}

/// Whether an unfinished candidate keeps an arrival from becoming a checkpoint.
pub open spec fn suppressed_in_loop(env: VerifierEnv, state: State, pc: usize) -> bool {
    !forces_checkpoint(env, state, pc) && env.counters.too_early_in_loop()
}

/// Whether an arrival is meant to become a checkpoint.
pub fn would_add_new_state_base(env: &VerifierEnv, state: &State, pc: usize) -> (r: bool)
    ensures
        r == adds_checkpoint(*env, *state, pc),
{
    let force_new_state = env.force_checkpoint(pc) || state.jmp_history_cnt > 40;
    let dj: usize = env.counters.jmps_processed.saturating_sub(env.counters.prev_jmps_processed);
    let di: usize = env.counters.insn_processed.saturating_sub(env.counters.prev_insn_processed);
    force_new_state || (dj >= 2 && di >= 8)
}

/// Whether an unfinished candidate keeps an arrival from becoming a checkpoint.
pub fn dampener_would_suppress(env: &VerifierEnv, state: &State, pc: usize) -> (r: bool)
    ensures
        r == suppressed_in_loop(*env, *state, pc),
{
    let force_new_state = env.force_checkpoint(pc) || state.jmp_history_cnt > 40;
    let dj: usize = env.counters.jmps_processed.saturating_sub(env.counters.prev_jmps_processed);
    let di: usize = env.counters.insn_processed.saturating_sub(env.counters.prev_insn_processed);
    !force_new_state && dj < 20 && di < 100
}

// ---------------------------------------------------------------------------
// The scan over the candidates
// ---------------------------------------------------------------------------

/// Whether a candidate was reached through the same calls as the arrival.
pub open spec fn visible(states: Seq<State>, state: State, i: int) -> bool {
    0 <= i < states.len() && callsites(states[i]) == callsites(state)
}

/// Whether a visible candidate is unfinished.
pub open spec fn active(states: Seq<State>, state: State, i: int) -> bool {
    visible(states, state, i) && !states[i].children_unsafe && states[i].branches > 0
}

/// Whether a candidate may cover the arrival: it is finished, and not marked as
/// one that must not.
pub open spec fn eligible(states: Seq<State>, state: State, i: int) -> bool {
    visible(states, state, i) && !states[i].children_unsafe && states[i].branches == 0
}

/// Whether a candidate covers the arrival.
pub open spec fn covers(states: Seq<State>, state: State, subsumes: Seq<bool>, i: int) -> bool {
    eligible(states, state, i) && i < subsumes.len() && subsumes[i]
}

/// Whether a candidate counts as missed: the scan went past it while the arrival
/// was still meant to become a checkpoint. The scan runs from the newest
/// candidate to the oldest, and stops at the one that covers the arrival.
pub open spec fn counted_miss(
    states: Seq<State>,
    state: State,
    add: bool,
    suppress: bool,
    hit: Option<usize>,
    i: int,
) -> bool {
    &&& add
    &&& visible(states, state, i)
    &&& hit matches Some(h) ==> h < i
    &&& !(suppress && exists|j: int| i <= j && #[trigger] active(states, state, j))
}

/// What a scan found.
pub struct ScanOutcome {
    /// The candidate that covers the arrival.
    pub hit: Option<usize>,
    /// The candidates that count as missed, from the last to the first.
    pub misses: Vec<usize>,
    /// Whether the scan met an unfinished candidate.
    pub saw_active: bool,
}

/// What a scan has to find.
pub open spec fn scan_found(
    states: Seq<State>,
    state: State,
    add: bool,
    suppress: bool,
    subsumes: Seq<bool>,
    out: ScanOutcome,
) -> bool {
    &&& match out.hit {
        Some(h) => covers(states, state, subsumes, h as int) && forall|i: int|
            h < i ==> !#[trigger] covers(states, state, subsumes, i),
        None => forall|i: int| !#[trigger] covers(states, state, subsumes, i),
    }
    &&& descending(out.misses@)
    &&& forall|i: usize|
        #[trigger] out.misses@.contains(i) <==> counted_miss(
            states,
            state,
            add,
            suppress,
            out.hit,
            i as int,
        )
    &&& out.saw_active <==> exists|j: int|
        #[trigger] active(states, state, j) && (out.hit matches Some(h) ==> h < j)
}

/// Scans the candidates from the newest to the oldest. `add` says whether the
/// arrival is meant to become a checkpoint, `suppress` whether an unfinished
/// candidate ends that, and `subsumes` which candidates hold every behaviour of
/// the arrival.
pub fn scan_candidates(
    states: &Vec<State>,
    state: &State,
    add: bool,
    suppress: bool,
    subsumes: &Vec<bool>,
) -> (out: ScanOutcome)
    ensures
        scan_found(states@, *state, add, suppress, subsumes@, out),
{
    let ghost s = states@;
    let mut misses: Vec<usize> = Vec::new();
    let mut saw_active = false;
    let mut add_now = add;
    let mut i: usize = states.len();
    while i > 0
        invariant
            i <= states@.len(),
            s == states@,
            forall|k: int| i <= k ==> !#[trigger] covers(s, *state, subsumes@, k),
            descending(misses@),
            forall|k: int| 0 <= k < misses@.len() ==> #[trigger] misses@[k] >= i,
            saw_active <==> exists|j: int| i <= j && #[trigger] active(s, *state, j),
            add_now <==> add && !(suppress && saw_active),
            forall|k: usize| #[trigger]
                misses@.contains(k) <==> i <= k && counted_miss(
                    s,
                    *state,
                    add,
                    suppress,
                    None,
                    k as int,
                ),
        decreases i,
    {
        i -= 1;
        let ghost before = misses@;
        let prev = &states[i];
        let ghost seen_before = saw_active;
        if same_callsites(prev, state) {
            let unsafe_children = prev.children_unsafe;
            let is_active = !unsafe_children && prev.branches > 0;
            assert(is_active == active(s, *state, i as int));
            if is_active {
                saw_active = true;
                if suppress {
                    add_now = false;
                }
            }
            if !unsafe_children && !is_active && i < subsumes.len() && subsumes[i] {
                proof {
                    assert(covers(s, *state, subsumes@, i as int));
                    assert forall|k: usize| #[trigger]
                        misses@.contains(k) <==> counted_miss(
                            s,
                            *state,
                            add,
                            suppress,
                            Some(i),
                            k as int,
                        ) by {
                        assert(misses@.contains(k) <==> i < k && counted_miss(
                            s,
                            *state,
                            add,
                            suppress,
                            None,
                            k as int,
                        ));
                    }
                }
                return ScanOutcome { hit: Some(i), misses, saw_active };
            }
            if add_now {
                misses.push(i);
            }
        }
        proof {
            assert(!covers(s, *state, subsumes@, i as int));
            if active(s, *state, i as int) {
                assert(saw_active);
            }
            assert forall|k: usize| #[trigger]
                misses@.contains(k) <==> i <= k && counted_miss(
                    s,
                    *state,
                    add,
                    suppress,
                    None,
                    k as int,
                ) by {
                if k == i {
                    if misses@.contains(k) {
                        let m = choose|m: int| 0 <= m < misses@.len() && misses@[m] == k;
                        if m < before.len() {
                            assert(before[m] == k);
                            assert(before.contains(k));
                        }
                    }
                    if before.len() < misses@.len() {
                        assert(misses@[before.len() as int] == i);
                    }
                } else {
                    assert(before.contains(k) == misses@.contains(k)) by {
                        if before.contains(k) {
                            let m = choose|m: int| 0 <= m < before.len() && before[m] == k;
                            assert(misses@[m] == k);
                        }
                        if misses@.contains(k) {
                            let m = choose|m: int| 0 <= m < misses@.len() && misses@[m] == k;
                            assert(before[m] == k);
                        }
                    }
                }
            }
        }
    }
    ScanOutcome { hit: None, misses, saw_active }
}

// ---------------------------------------------------------------------------
// Scores
// ---------------------------------------------------------------------------

/// A score with one more miss.
pub open spec fn missed_once(m: StateMetrics) -> StateMetrics {
    StateMetrics { miss_cnt: sat32(m.miss_cnt + 1), ..m }
}

/// A score with one more hit.
pub open spec fn hit_once(m: StateMetrics) -> StateMetrics {
    StateMetrics { hit_cnt: sat32(m.hit_cnt + 1), ..m }
}

/// A count that stays at the largest number there is.
pub open spec fn sat32(n: int) -> u32 {
    if n > u32::MAX {
        u32::MAX
    } else {
        n as u32
    }
}

/// How many misses a hit makes up for: many for an unfinished state at a forced
/// checkpoint, else few.
pub open spec fn patience(force: bool, branches: u32) -> int {
    if force && branches > 0 {
        64
    } else {
        3
    }
}

/// Whether a state was missed too often for its hits.
pub open spec fn overdue(m: StateMetrics, n: int) -> bool {
    m.miss_cnt > m.hit_cnt * n + n
}

/// The scores after the given misses.
pub open spec fn scores_after(scores: Seq<StateMetrics>, misses: Seq<usize>) -> Seq<StateMetrics> {
    Seq::new(
        scores.len(),
        |i: int|
            if misses.contains(i as usize) {
                missed_once(scores[i])
            } else {
                scores[i]
            },
    )
}

/// Which of the given misses is one too many.
pub open spec fn evicts(cache: CacheData, pc: usize, force: bool, i: usize) -> bool {
    i < cache.bucket(pc).len() && i < cache.scores(pc).len() && overdue(
        missed_once(cache.scores(pc)[i as int]),
        patience(force, cache.bucket(pc)[i as int].branches),
    )
}

/// Those of the given misses that are one too many.
pub open spec fn evicted_places(
    cache: CacheData,
    pc: usize,
    force: bool,
    misses: Seq<usize>,
) -> Seq<usize> {
    misses.filter(|i: usize| evicts(cache, pc, force, i))
}

/// What misses do to a cache: the missed states' scores grow, the states that
/// were missed too often leave their bucket, and every state is still found by
/// its number.
pub open spec fn after_misses(
    before: CacheData,
    after: CacheData,
    pc: usize,
    force: bool,
    misses: Seq<usize>,
) -> bool {
    let gone = evicted_places(before, pc, force, misses);
    &&& after.bucket(pc) == without(before.bucket(pc), gone)
    &&& after.scores(pc) == without(scores_after(before.scores(pc), misses), gone)
    &&& forall|q: usize| q != pc ==> #[trigger] after.bucket(q) == before.bucket(q)
    &&& forall|q: usize| q != pc ==> #[trigger] after.scores(q) == before.scores(q)
    &&& forall|id: u32| #[trigger] after.resolve(id) == before.resolve(id)
    &&& after.next_id == before.next_id
    &&& after.evictions == before.evictions
}

/// Whether two runs differ in their caches alone.
pub open spec fn differ_in_cache(a: VerifierEnv, b: VerifierEnv) -> bool {
    b == (VerifierEnv { cache: b.cache, ..a })
}

proof fn lemma_filter_distinct(s: Seq<usize>, p: spec_fn(usize) -> bool)
    requires
        s.no_duplicates(),
    ensures
        s.filter(p).no_duplicates(),
        forall|k: int| 0 <= k < s.filter(p).len() ==> s.contains(#[trigger] s.filter(p)[k]) && p(
            s.filter(p)[k],
        ),
    decreases s.len(),
{
    reveal(Seq::filter);
    if s.len() > 0 {
        let rest = s.drop_last();
        lemma_filter_distinct(rest, p);
        let f = rest.filter(p);
        assert forall|k: int| 0 <= k < s.filter(p).len() implies s.contains(
            #[trigger] s.filter(p)[k],
        ) && p(s.filter(p)[k]) by {
            if k < f.len() {
                assert(rest.contains(f[k]));
                let m = choose|m: int| 0 <= m < rest.len() && rest[m] == f[k];
                assert(s[m] == f[k]);
            } else {
                assert(s[s.len() - 1] == s.filter(p)[k]);
            }
        }
        assert forall|a: int, b: int| 0 <= a < b < s.filter(p).len() implies s.filter(p)[a]
            != s.filter(p)[b] by {
            assert(rest.contains(f[a]));
            let m = choose|m: int| 0 <= m < rest.len() && rest[m] == f[a];
            assert(s[m] == f[a]);
        }
    }
}

/// Counts a miss for each of the given candidates, and evicts those that were
/// missed too often for their hits. The candidates may be given in any order.
pub fn record_pruning_misses(env: &mut VerifierEnv, pc: usize, misses: &Vec<usize>)
    requires
        misses@.no_duplicates(),
    ensures
        differ_in_cache(*old(env), *final(env)),
        final(env).cache@.wf(),
        after_misses(
            old(env).cache@,
            final(env).cache@,
            pc,
            old(env).spec_force_checkpoint(pc),
            misses@,
        ),
{
    let force = env.force_checkpoint(pc);
    let ghost c0 = env.cache@;
    let ghost env0 = *env;
    let mut gone: Vec<usize> = Vec::new();
    let ghost keep = |i: usize| evicts(c0, pc, force, i);
    let mut k: usize = 0;
    // The tables of a cache agree.
    let _ = env.cache.data();
    proof {
        assert(misses@.take(0) =~= Seq::<usize>::empty());
        reveal(Seq::filter);
        assert(scores_after(c0.scores(pc), misses@.take(0)) =~= c0.scores(pc));
    }
    while k < misses.len()
        invariant
            k <= misses@.len(),
            misses@.no_duplicates(),
            c0.wf(),
            keep == (|i: usize| evicts(c0, pc, force, i)),
            differ_in_cache(env0, *env),
            env.cache@.wf(),
            env.cache@.explored == c0.explored,
            env.cache@.loc_by_id == c0.loc_by_id,
            env.cache@.retired == c0.retired,
            env.cache@.next_id == c0.next_id,
            env.cache@.evictions == c0.evictions,
            env.cache@.scores(pc) == scores_after(c0.scores(pc), misses@.take(k as int)),
            forall|q: usize| q != pc ==> #[trigger] env.cache@.scores(q) == c0.scores(q),
            gone@ == misses@.take(k as int).filter(keep),
        decreases misses@.len() - k,
    {
        let i: usize = misses[k];
        let ghost taken = misses@.take(k as int);
        let ghost more = misses@.take(k + 1);
        let data = env.cache.data();
        assert(data.bucket(pc) == c0.bucket(pc));
        assert(data.bucket(pc).len() == data.scores(pc).len());
        let found: Option<(StateMetrics, u32)> = match data.metrics.get(&pc) {
            Some(ms) => {
                if i < ms.len() {
                    match data.explored.get(&pc) {
                        Some(states) => Some((ms[i], states[i].branches)),
                        None => None,
                    }
                } else {
                    None
                }
            },
            None => None,
        };
        assert(found is Some <==> i < c0.scores(pc).len());
        proof {
            assert(more.drop_last() =~= taken);
            assert(more.last() == i);
            reveal(Seq::filter);
            assert(more.filter(keep) == (if keep(i) {
                taken.filter(keep).push(i)
            } else {
                taken.filter(keep)
            }));
            assert(!taken.contains(i)) by {
                if taken.contains(i) {
                    let m = choose|m: int| 0 <= m < taken.len() && taken[m] == i;
                    assert(misses@[m] == i);
                }
            }
            assert forall|x: usize| more.contains(x) == (taken.contains(x) || x == i) by {
                if more.contains(x) {
                    let m = choose|m: int| 0 <= m < more.len() && more[m] == x;
                    if m < k {
                        assert(taken[m] == x);
                    }
                }
                if taken.contains(x) {
                    let m = choose|m: int| 0 <= m < taken.len() && taken[m] == x;
                    assert(more[m] == x);
                }
                assert(more[k as int] == i);
            }
        }
        match found {
            Some((m, branches)) => {
                assert(m == c0.scores(pc)[i as int]);
                let bumped = StateMetrics {
                    hit_cnt: m.hit_cnt,
                    miss_cnt: m.miss_cnt.saturating_add(1),
                };
                let n: u64 = if force && branches > 0 {
                    64
                } else {
                    3
                };
                env.cache.set_score(pc, i, bumped);
                assert(m.hit_cnt * n <= u32::MAX * 64) by (nonlinear_arith)
                    requires
                        m.hit_cnt <= u32::MAX,
                        n <= 64,
                ;
                let limit: u64 = m.hit_cnt as u64 * n + n;
                if bumped.miss_cnt as u64 > limit {
                    gone.push(i);
                }
                proof {
                    assert(bumped == missed_once(m));
                    assert(env.cache@.scores(pc) =~= scores_after(c0.scores(pc), more));
                }
            },
            None => {
                proof {
                    assert(env.cache@.scores(pc) =~= scores_after(c0.scores(pc), more));
                }
            },
        }
        k += 1;
    }
    proof {
        assert(misses@.take(k as int) =~= misses@);
        lemma_filter_distinct(misses@, keep);
        assert(c0.bucket(pc).len() == c0.scores(pc).len());
    }
    let ghost c1 = env.cache@;
    assert(c1.bucket(pc) == c0.bucket(pc));
    proof {
        assert forall|id: u32| #[trigger] c1.resolve(id) == c0.resolve(id) by {
            if c0.loc_by_id@.contains_key(id) {
                let (q, i) = c0.loc_by_id@[id];
                assert(c1.bucket(q) == c0.bucket(q));
            }
        }
        assert forall|q: usize| #[trigger] c1.bucket(q) == c0.bucket(q) by {}
    }
    let sorted = sorted_down(&gone);
    proof {
        assert forall|j: int| 0 <= j < sorted@.len() implies (#[trigger] sorted@[j])
            < c1.bucket(pc).len() by {
            assert(sorted@.contains(sorted@[j]));
            let m = choose|m: int| 0 <= m < gone@.len() && gone@[m] == sorted@[j];
            assert(keep(gone@[m]));
        }
        lemma_without_any_order(c1.bucket(pc), sorted@, gone@);
        lemma_without_any_order(c1.scores(pc), sorted@, gone@);
    }
    env.cache.evict_all(pc, &sorted);
    assert(gone@ == evicted_places(c0, pc, force, misses@));
}

/// What a hit does to a run: the score of one candidate grows.
pub open spec fn hit_counted(
    before: VerifierEnv,
    after: VerifierEnv,
    pc: usize,
    idx: usize,
) -> bool {
    &&& differ_in_cache(before, after)
    &&& after.cache@.wf()
    &&& after.cache@.explored == before.cache@.explored
    &&& after.cache@.loc_by_id == before.cache@.loc_by_id
    &&& after.cache@.retired == before.cache@.retired
    &&& after.cache@.next_id == before.cache@.next_id
    &&& after.cache@.evictions == before.cache@.evictions
    &&& forall|q: usize|
        q != pc ==> #[trigger] after.cache@.scores(q) == before.cache@.scores(q)
    &&& after.cache@.scores(pc) == (if idx < before.cache@.scores(pc).len() {
        before.cache@.scores(pc).update(idx as int, hit_once(before.cache@.scores(pc)[idx as int]))
    } else {
        before.cache@.scores(pc)
    })
}

/// Counts a hit for a candidate.
pub fn record_pruning_hit(env: &mut VerifierEnv, pc: usize, idx: usize)
    ensures
        hit_counted(*old(env), *final(env), pc, idx),
{
    let data = env.cache.data();
    let found: Option<StateMetrics> = match data.metrics.get(&pc) {
        Some(ms) => {
            if idx < ms.len() {
                Some(ms[idx])
            } else {
                None
            }
        },
        None => None,
    };
    match found {
        Some(m) => {
            let bumped = StateMetrics {
                hit_cnt: m.hit_cnt.saturating_add(1),
                miss_cnt: m.miss_cnt,
            };
            assert(bumped == hit_once(m));
            env.cache.set_score(pc, idx, bumped);
        },
        None => {},
    }
}

// ---------------------------------------------------------------------------
// Asking the engine
// ---------------------------------------------------------------------------

/// The register masks of a comparison: of the innermost frame at `pc`, and of
/// each frame at its call site. The main frame has none.
pub open spec fn masks_of(
    env: VerifierEnv,
    state: State,
    pc: usize,
    live: [bool; 11],
    frames: Seq<Option<[bool; 11]>>,
) -> bool {
    &&& pc < env.insn_aux@.len()
    &&& live == env.insn_aux@[pc as int].live_regs
    &&& frames.len() == state.frames@.len()
    &&& forall|i: int|
        0 <= i < frames.len() ==> #[trigger] frames[i] == frame_mask(
            env,
            state.frames@[i].return_pc,
        )
}

/// The live registers of a frame at its call site.
pub open spec fn frame_mask(env: VerifierEnv, return_pc: usize) -> Option<[bool; 11]> {
    if return_pc == 0 || return_pc - 1 >= env.insn_aux@.len() {
        None
    } else {
        Some(env.insn_aux@[return_pc - 1].live_regs)
    }
}

/// The live registers of each frame at its call site.
pub fn frame_live_regs(env: &VerifierEnv, state: &State) -> (r: Vec<Option<[bool; 11]>>)
    ensures
        r@.len() == state.frames@.len(),
        forall|i: int|
            0 <= i < r@.len() ==> #[trigger] r@[i] == frame_mask(*env, state.frames@[i].return_pc),
{
    let mut out: Vec<Option<[bool; 11]>> = Vec::new();
    let mut i: usize = 0;
    while i < state.frames.len()
        invariant
            i <= state.frames@.len(),
            out@.len() == i,
            forall|j: int|
                0 <= j < i ==> #[trigger] out@[j] == frame_mask(*env, state.frames@[j].return_pc),
        decreases state.frames@.len() - i,
    {
        let ret: usize = state.frames[i].return_pc;
        if ret == 0 || ret - 1 >= env.insn_aux.len() {
            out.push(None);
        } else {
            out.push(Some(env.insn_aux[ret - 1].live_regs));
        }
        i += 1;
    }
    out
}

/// Whether the engine, asked about a candidate with the arrival's masks, may
/// have answered `reply`. The comparison is exact where `exact` says so and
/// where the candidate's read marks are incomplete.
pub open spec fn may_reply<E: Engine>(
    engine: E,
    env: VerifierEnv,
    state: State,
    cached: State,
    exact: bool,
    reply: bool,
) -> bool {
    exists|marks: bool, q: SubsumptionQuery|
        #![trigger call_ensures(E::incomplete_read_marks, (&engine, &env, &cached), marks), call_ensures(E::subsumed, (&engine, &state, &cached, &q), reply)]
        {
            &&& call_ensures(E::incomplete_read_marks, (&engine, &env, &cached), marks)
            &&& q.force_exact == (exact || marks)
            &&& masks_of(env, state, state.pc, q.live_regs, q.frame_live_regs@)
            &&& call_ensures(E::subsumed, (&engine, &state, &cached, &q), reply)
        }
}

/// Whether the answers are those of the engine: every candidate that may cover
/// the arrival was asked about, from the newest on, up to the first that does.
pub open spec fn answers<E: Engine>(
    engine: E,
    env: VerifierEnv,
    state: State,
    exact: bool,
    subsumes: Seq<bool>,
) -> bool {
    let states = env.cache@.bucket(state.pc);
    &&& subsumes.len() == states.len()
    &&& forall|i: int|
        0 <= i < states.len() && #[trigger] subsumes[i] ==> eligible(states, state, i) && may_reply(
            engine,
            env,
            state,
            states[i],
            exact,
            true,
        )
    &&& forall|i: int|
        #![trigger eligible(states, state, i)]
        eligible(states, state, i) && !subsumes[i] && (forall|j: int|
            i < j < states.len() ==> !#[trigger] subsumes[j]) ==> may_reply(
            engine,
            env,
            state,
            states[i],
            exact,
            false,
        )
}

/// Asks the engine which candidates cover the arrival, from the newest on, up to
/// the first that does.
pub fn ask_subsumption<E: Engine>(
    engine: &E,
    env: &VerifierEnv,
    state: &State,
    live_regs: [bool; 11],
    frame_masks: &Vec<Option<[bool; 11]>>,
    exact: bool,
) -> (r: Vec<bool>)
    requires
        masks_of(*env, *state, state.pc, live_regs, frame_masks@),
    ensures
        answers(*engine, *env, *state, exact, r@),
{
    let data = env.cache.data();
    let ghost s = data.bucket(state.pc);
    let mut out: Vec<bool> = Vec::new();
    match data.explored.get(&state.pc) {
        Some(states) => {
            let n: usize = states.len();
            let mut k: usize = 0;
            while k < n
                invariant
                    k <= n,
                    out@.len() == k,
                    forall|j: int| 0 <= j < k ==> !out@[j],
                decreases n - k,
            {
                out.push(false);
                k += 1;
            }
            let mut query = SubsumptionQuery {
                live_regs,
                frame_live_regs: copy_vec(frame_masks),
                force_exact: exact,
            };
            let mut i: usize = n;
            while i > 0
                invariant
                    i <= n,
                    n == s.len(),
                    s == states@,
                    s == env.cache@.bucket(state.pc),
                    out@.len() == n,
                    forall|j: int| 0 <= j < n ==> !out@[j],
                    query.live_regs == live_regs,
                    query.frame_live_regs@ == frame_masks@,
                    masks_of(*env, *state, state.pc, live_regs, frame_masks@),
                    forall|j: int|
                        #![trigger eligible(s, *state, j)]
                        i <= j && eligible(s, *state, j) ==> may_reply(
                            *engine,
                            *env,
                            *state,
                            s[j],
                            exact,
                            false,
                        ),
                decreases i,
            {
                i -= 1;
                let prev = &states[i];
                if same_callsites(prev, state) && !prev.children_unsafe && prev.branches == 0 {
                    let marks = engine.incomplete_read_marks(env, prev);
                    query.force_exact = exact || marks;
                    let reply = engine.subsumed(state, prev, &query);
                    assert(may_reply(*engine, *env, *state, s[i as int], exact, reply));
                    if reply {
                        out.set(i, true);
                        proof {
                            assert(eligible(s, *state, i as int));
                            assert(out@[i as int]);
                            assert forall|j: int|
                                #![trigger eligible(s, *state, j)]
                                eligible(s, *state, j) && !out@[j] && (forall|m: int|
                                    j < m < s.len() ==> !#[trigger] out@[m]) implies may_reply(
                                *engine,
                                *env,
                                *state,
                                s[j],
                                exact,
                                false,
                            ) by {
                                if j < i {
                                    assert(!out@[i as int]);
                                }
                            }
                        }
                        return out;
                    }
                }
            }
        },
        None => {},
    }
    out
}

// ---------------------------------------------------------------------------
// Handling an arrival
// ---------------------------------------------------------------------------

/// What handling an arrival does: the scan decides by the engine's answers; a
/// miss changes the scores and evicts, and nothing else. After a hit the engine
/// has changed cached states too.
pub open spec fn arrival_handled<E: Engine>(
    engine: E,
    before: VerifierEnv,
    after: VerifierEnv,
    state: State,
    exact: bool,
    pruned: bool,
) -> bool {
    &&& after == (VerifierEnv {
        cache: after.cache,
        saw_active_state_at_check: after.saw_active_state_at_check,
        ..before
    })
    &&& exists|subsumes: Seq<bool>, out: ScanOutcome| #[trigger]
        arrival_decided(engine, before, after, state, exact, pruned, subsumes, out)
}

/// How a scan decides about an arrival.
pub open spec fn arrival_decided<E: Engine>(
    engine: E,
    before: VerifierEnv,
    after: VerifierEnv,
    state: State,
    exact: bool,
    pruned: bool,
    subsumes: Seq<bool>,
    out: ScanOutcome,
) -> bool {
    let pc = state.pc;
    &&& answers(engine, before, state, exact, subsumes)
    &&& scan_found(
        before.cache@.bucket(pc),
        state,
        adds_checkpoint(before, state, pc),
        suppressed_in_loop(before, state, pc),
        subsumes,
        out,
    )
    &&& pruned == (out.hit is Some)
    &&& after.saw_active_state_at_check == (before.saw_active_state_at_check || out.saw_active)
    &&& !pruned ==> after_misses(
        before.cache@,
        after.cache@,
        pc,
        before.spec_force_checkpoint(pc),
        out.misses@,
    )
}

/// Scans the candidates of an arrival by the engine's answers.
fn scan_bucket(env: &VerifierEnv, state: &State, subsumes: &Vec<bool>) -> (out: ScanOutcome)
    ensures
        scan_found(
            env.cache@.bucket(state.pc),
            *state,
            adds_checkpoint(*env, *state, state.pc),
            suppressed_in_loop(*env, *state, state.pc),
            subsumes@,
            out,
        ),
{
    let add = would_add_new_state_base(env, state, state.pc);
    let suppress = dampener_would_suppress(env, state, state.pc);
    match env.cache.data().explored.get(&state.pc) {
        Some(states) => scan_candidates(states, state, add, suppress, subsumes),
        None => {
            let none: Vec<State> = Vec::new();
            assert(none@ =~= env.cache@.bucket(state.pc));
            scan_candidates(&none, state, add, suppress, subsumes)
        },
    }
}

/// Has the engine close a loop through a candidate that covers the arrival, where
/// that candidate's read marks are still open.
pub fn close_loop<E: Engine>(
    engine: &mut E,
    env: &mut VerifierEnv,
    state: &State,
    cached: &State,
)
    ensures
        differ_in_cache(*old(env), *final(env)),
        exists|open: bool|
            {
                &&& #[trigger] call_ensures(
                    E::incomplete_read_marks,
                    (&*old(engine), &*old(env), cached),
                    open,
                )
                &&& if open && cached.cache_id is Some {
                    exists|e: &mut E, c: &mut StateCache|
                        {
                            &&& #[trigger] call_ensures(
                                E::add_backedge,
                                (e, c, state, cached.cache_id->0, state.pc),
                                (),
                            )
                            &&& *e == *old(engine)
                            &&& *c == old(env).cache
                            &&& *final(engine) == *final(e)
                            &&& final(env).cache == *final(c)
                        }
                } else {
                    *final(engine) == *old(engine) && *final(env) == *old(env)
                }
            },
{
    if engine.incomplete_read_marks(&*env, cached) {
        match cached.cache_id {
            Some(id) => {
                engine.add_backedge(&mut env.cache, state, id, state.pc);
            },
            None => {},
        }
    }
}

/// Follows up a hit: the candidate's score grows, the precision that it needs is
/// passed on to the arrival's ancestors, and inside a loop the loop is closed.
pub fn follow_hit<E: Engine>(
    engine: &mut E,
    env: &mut VerifierEnv,
    state: &State,
    idx: usize,
    closes_loops: bool,
)
    requires
        idx < old(env).cache@.bucket(state.pc).len(),
    ensures
        differ_in_cache(*old(env), *final(env)),
        exists|scored: VerifierEnv, cached: State, e1: &mut E, c1: &mut StateCache|
            {
                &&& #[trigger] hit_counted(*old(env), scored, state.pc, idx)
                &&& cached@ == old(env).cache@.bucket(state.pc)[idx as int]@
                &&& #[trigger] call_ensures(
                    E::propagate_precision,
                    (e1, c1, &old(env).history, state, &cached),
                    (),
                )
                &&& *e1 == *old(engine)
                &&& *c1 == scored.cache
                &&& if closes_loops {
                    exists|e2: &mut E, v2: &mut VerifierEnv|
                        {
                            &&& #[trigger] call_ensures(
                                close_loop::<E>,
                                (e2, v2, state, &cached),
                                (),
                            )
                            &&& *e2 == *final(e1)
                            &&& *v2 == (VerifierEnv { cache: *final(c1), ..scored })
                            &&& *final(engine) == *final(e2)
                            &&& *final(env) == *final(v2)
                        }
                } else {
                    &&& *final(engine) == *final(e1)
                    &&& *final(env) == (VerifierEnv { cache: *final(c1), ..scored })
                }
            },
{
    let pc: usize = state.pc;
    record_pruning_hit(env, pc, idx);
    let ghost scored = *env;
    assert(hit_counted(*old(env), scored, pc, idx));
    let cached = match env.cache.data().explored.get(&pc) {
        Some(states) => states[idx].duplicate(),
        None => {
            return;
        },
    };
    engine.propagate_precision(&mut env.cache, &env.history, state, &cached);
    if closes_loops {
        close_loop(engine, env, state, &cached);
    }
}

/// Scans the candidates of an arrival and settles the scores. Where one of them
/// covers the arrival, that hit is followed up before the misses are counted.
pub fn settle_arrival<E: Engine>(
    engine: &mut E,
    env: &mut VerifierEnv,
    state: &State,
    live_regs: [bool; 11],
    frame_masks: &Vec<Option<[bool; 11]>>,
    exact: bool,
    closes_loops: bool,
) -> (pruned: bool)
    requires
        masks_of(*old(env), *state, state.pc, live_regs, frame_masks@),
    ensures
        arrival_handled(*old(engine), *old(env), *final(env), *state, exact, pruned),
        exists|subsumes: Seq<bool>, out: ScanOutcome|
            {
                &&& #[trigger] arrival_decided(
                    *old(engine),
                    *old(env),
                    *final(env),
                    *state,
                    exact,
                    pruned,
                    subsumes,
                    out,
                )
                &&& match out.hit {
                    None => *final(engine) == *old(engine),
                    Some(idx) => exists|e: &mut E, v: &mut VerifierEnv|
                        {
                            &&& #[trigger] call_ensures(
                                follow_hit::<E>,
                                (e, v, state, idx, closes_loops),
                                (),
                            )
                            &&& *e == *old(engine)
                            &&& *v == (VerifierEnv {
                                saw_active_state_at_check: final(env).saw_active_state_at_check,
                                ..*old(env)
                            })
                            &&& *final(engine) == *final(e)
                            &&& after_misses(
                                final(v).cache@,
                                final(env).cache@,
                                state.pc,
                                old(env).spec_force_checkpoint(state.pc),
                                out.misses@,
                            )
                        },
                }
            },
{
    let ghost env0 = *env;
    let ghost engine0 = *engine;
    let subsumes = ask_subsumption(&*engine, &*env, state, live_regs, frame_masks, exact);
    let out = scan_bucket(&*env, state, &subsumes);
    env.saw_active_state_at_check = env.saw_active_state_at_check || out.saw_active;
    let pruned = match out.hit {
        Some(idx) => {
            follow_hit(engine, env, state, idx, closes_loops);
            true
        },
        None => false,
    };
    record_pruning_misses(env, state.pc, &out.misses);
    assert(arrival_decided(engine0, env0, *env, *state, exact, pruned, subsumes@, out));
    pruned
}

/// Handles an arrival outside loops. Where iterators advance, the comparison is
/// exact.
pub fn handle_standard_pruning<E: Engine>(
    engine: &mut E,
    env: &mut VerifierEnv,
    state: &State,
    live_regs: [bool; 11],
    frame_masks: &Vec<Option<[bool; 11]>>,
) -> (pruned: bool)
    requires
        masks_of(*old(env), *state, state.pc, live_regs, frame_masks@),
    ensures
        arrival_handled(
            *old(engine),
            *old(env),
            *final(env),
            *state,
            old(env).iter_pcs@.contains(state.pc),
            pruned,
        ),
        exists|e: &mut E, v: &mut VerifierEnv, exact: bool|
            {
                &&& #[trigger] call_ensures(
                    settle_arrival::<E>,
                    (e, v, state, live_regs, frame_masks, exact, false),
                    pruned,
                )
                &&& exact == old(env).iter_pcs@.contains(state.pc)
                &&& *e == *old(engine)
                &&& *v == *old(env)
                &&& *final(engine) == *final(e)
                &&& *final(env) == *final(v)
            },
{
    let exact = env.is_iter_pc(state.pc);
    settle_arrival(engine, env, state, live_regs, frame_masks, exact, false)
}

/// Whether an arrival at the head of a loop is to be explored without a look at
/// the candidates: the loop has no way out, or its iterator still has to be
/// widened at a checkpoint of the body.
pub open spec fn deferred_in_loop(env: VerifierEnv, facts: LoopFacts, pc: usize) -> bool {
    ||| !facts.conditional_exit
    ||| !env.spec_force_checkpoint(pc) && facts.arrived_via_back_edge
        && facts.body_has_force_checkpoint && facts.iter_pre_widening
}

/// Handles an arrival at the head of a loop.
pub fn handle_loop_pruning<E: Engine>(
    engine: &mut E,
    env: &mut VerifierEnv,
    state: &State,
    facts: LoopFacts,
    live_regs: [bool; 11],
    frame_masks: &Vec<Option<[bool; 11]>>,
) -> (pruned: bool)
    requires
        masks_of(*old(env), *state, state.pc, live_regs, frame_masks@),
    ensures
        deferred_in_loop(*old(env), facts, state.pc) ==> {
            &&& !pruned
            &&& *final(engine) == *old(engine)
            &&& *final(env) == *old(env)
        },
        !deferred_in_loop(*old(env), facts, state.pc) ==> arrival_handled(
            *old(engine),
            *old(env),
            *final(env),
            *state,
            false,
            pruned,
        ),
        !deferred_in_loop(*old(env), facts, state.pc) ==> exists|e: &mut E, v: &mut VerifierEnv|
            {
                &&& #[trigger] call_ensures(
                    settle_arrival::<E>,
                    (e, v, state, live_regs, frame_masks, false, true),
                    pruned,
                )
                &&& *e == *old(engine)
                &&& *v == *old(env)
                &&& *final(engine) == *final(e)
                &&& *final(env) == *final(v)
            },
{
    if !facts.conditional_exit {
        return false;
    }
    if !env.force_checkpoint(state.pc) && facts.arrived_via_back_edge
        && facts.body_has_force_checkpoint && facts.iter_pre_widening {
        return false;
    }
    settle_arrival(engine, env, state, live_regs, frame_masks, false, true)
}

// ---------------------------------------------------------------------------
// The endless-loop trap
// ---------------------------------------------------------------------------

/// The checkpoint that stands `k` steps above a first one.
pub open spec fn nth_ancestor(cache: CacheData, first: Option<u32>, k: nat) -> Option<u32>
    decreases k,
{
    if k == 0 {
        first
    } else {
        match nth_ancestor(cache, first, (k - 1) as nat) {
            Some(id) => cache.parent_of(id),
            None => None,
        }
    }
}

/// How many steps above the first one a lineage is followed.
pub const LINEAGE_STEPS: usize = 4097;

/// Whether a checkpoint is among the ancestors, as far as they are followed.
pub open spec fn in_lineage(cache: CacheData, first: Option<u32>, target: u32) -> bool {
    exists|k: nat| k <= LINEAGE_STEPS && #[trigger] nth_ancestor(cache, first, k) == Some(target)
}

proof fn lemma_lineage_ends(cache: CacheData, first: Option<u32>, k: nat, m: nat)
    requires
        nth_ancestor(cache, first, k) is None,
        k <= m,
    ensures
        nth_ancestor(cache, first, m) is None,
    decreases m,
{
    if k < m {
        lemma_lineage_ends(cache, first, k, (m - 1) as nat);
    }
}

/// Whether a checkpoint is among the ancestors, as far as they are followed.
pub fn is_in_lineage(cache: &StateCache, first: Option<u32>, target: u32) -> (r: bool)
    ensures
        r == in_lineage(cache@, first, target),
{
    let mut cur: Option<u32> = first;
    let mut steps: usize = 0;
    while steps <= LINEAGE_STEPS
        invariant
            steps <= LINEAGE_STEPS + 1,
            cur == nth_ancestor(cache@, first, steps as nat),
            forall|k: nat|
                k < steps ==> #[trigger] nth_ancestor(cache@, first, k) != Some(target),
        decreases LINEAGE_STEPS + 1 - steps,
    {
        match cur {
            Some(id) => {
                if id == target {
                    return true;
                }
                cur = cache.parent(id);
            },
            None => {
                proof {
                    assert forall|k: nat| k <= LINEAGE_STEPS implies #[trigger] nth_ancestor(
                        cache@,
                        first,
                        k,
                    ) != Some(target) by {
                        if k >= steps {
                            lemma_lineage_ends(cache@, first, steps as nat, k);
                        }
                    }
                }
                return false;
            },
        }
        steps += 1;
    }
    false
}

/// Whether a candidate may be the arrival's own past: it is unfinished, stands
/// above the arrival and was reached by as many bounded jumps.
pub open spec fn may_be_own_past(cache: CacheData, state: State, cached: State) -> bool {
    &&& cached.dfs_paths != 0
    &&& cached.cache_id matches Some(id) && in_lineage(cache, state.parent_cache_id, id)
    &&& cached.may_goto_depth == state.may_goto_depth
}

/// Whether a candidate may be the arrival's own past.
pub fn is_maybe_own_past(cache: &StateCache, state: &State, cached: &State) -> (r: bool)
    ensures
        r == may_be_own_past(cache@, *state, *cached),
{
    if cached.dfs_paths == 0 {
        return false;
    }
    match cached.cache_id {
        Some(id) => is_in_lineage(cache, state.parent_cache_id, id) && cached.may_goto_depth
            == state.may_goto_depth,
        None => false,
    }
}

/// Whether the engine may have said that an arrival repeats its own past at a
/// candidate.
pub open spec fn may_repeat<E: Engine>(engine: E, state: State, cached: State) -> bool {
    call_ensures(E::iter_depths_differ, (&engine, &cached, &state), false) && call_ensures(
        E::exact_equal,
        (&engine, &cached, &state),
        true,
    )
}

/// Whether the engine may have said that it does not.
pub open spec fn may_progress<E: Engine>(engine: E, state: State, cached: State) -> bool {
    call_ensures(E::iter_depths_differ, (&engine, &cached, &state), true) || call_ensures(
        E::exact_equal,
        (&engine, &cached, &state),
        false,
    )
}

/// Whether the engine may have answered `r` when asked whether an arrival repeats
/// its own past.
pub open spec fn repeat_reply<E: Engine>(
    engine: E,
    env: VerifierEnv,
    state: State,
    r: bool,
) -> bool {
    let states = env.cache@.bucket(state.pc);
    if r {
        exists|i: int|
            0 <= i < states.len() && may_be_own_past(env.cache@, state, #[trigger] states[i])
                && may_repeat(engine, state, states[i])
    } else {
        forall|i: int|
            0 <= i < states.len() && may_be_own_past(env.cache@, state, #[trigger] states[i])
                ==> may_progress(engine, state, states[i])
    }
}

/// Whether an arrival repeats its own past without progress.
pub fn repeats_own_past<E: Engine>(engine: &E, env: &VerifierEnv, state: &State) -> (r: bool)
    ensures
        repeat_reply(*engine, *env, *state, r),
{
    match env.cache.data().explored.get(&state.pc) {
        Some(states) => {
            let mut i: usize = 0;
            while i < states.len()
                invariant
                    i <= states@.len(),
                    states@ == env.cache@.bucket(state.pc),
                    forall|j: int|
                        0 <= j < i && may_be_own_past(env.cache@, *state, #[trigger] states@[j])
                            ==> may_progress(*engine, *state, states@[j]),
                decreases states@.len() - i,
            {
                let prev = &states[i];
                if is_maybe_own_past(&env.cache, state, prev) {
                    if !engine.iter_depths_differ(prev, state) && engine.exact_equal(prev, state) {
                        assert(may_repeat(*engine, *state, states@[i as int]));
                        return true;
                    }
                }
                i += 1;
            }
            false
        },
        None => false,
    }
}

// ---------------------------------------------------------------------------
// Bounded jumps
// ---------------------------------------------------------------------------

/// A slot that is not marked as precise.
pub open spec fn imprecise_slot(s: StackSlot) -> StackSlot {
    StackSlot { precise: false, ..s }
}

/// A frame without precise slots.
pub open spec fn imprecise_frame(f: FrameView) -> FrameView {
    FrameView { slots: f.slots.map_values(|s: StackSlot| imprecise_slot(s)), ..f }
}

/// A register that is not marked as precise.
pub open spec fn imprecise_reg(r: RegInfo) -> RegInfo {
    RegInfo { precise: false, ..r }
}

/// A state without any precision marks.
pub open spec fn imprecise(s: StateView) -> StateView {
    StateView {
        regs: s.regs.map_values(|r: RegInfo| imprecise_reg(r)),
        frames: s.frames.map_values(|f: FrameView| imprecise_frame(f)),
        ..s
    }
}

/// A copy of a state without any precision marks.
pub fn strip_precision(state: &State) -> (r: State)
    ensures
        r@ == imprecise(state@),
{
    let mut out = state.duplicate();
    let ghost v0 = out@;
    let mut i: usize = 0;
    while i < 11
        invariant
            i <= 11,
            out@ == (StateView { regs: out@.regs, ..v0 }),
            out@.regs.len() == 11,
            v0.regs.len() == 11,
            forall|j: int| 0 <= j < i ==> #[trigger] out@.regs[j] == imprecise_reg(v0.regs[j]),
            forall|j: int| i <= j < 11 ==> #[trigger] out@.regs[j] == v0.regs[j],
        decreases 11 - i,
    {
        let mut info = out.regs[i];
        info.precise = false;
        out.regs[i] = info;
        i += 1;
    }
    assert(out@.regs =~= imprecise(v0).regs);
    let mut frames: Vec<Frame> = Vec::new();
    let mut k: usize = 0;
    while k < out.frames.len()
        invariant
            k <= out.frames@.len(),
            frames@.len() == k,
            forall|j: int|
                0 <= j < k ==> #[trigger] frames@[j]@ == imprecise_frame(out.frames@[j]@),
        decreases out.frames@.len() - k,
    {
        let f = &out.frames[k];
        let mut slots: Vec<StackSlot> = Vec::new();
        let mut m: usize = 0;
        while m < f.slots.len()
            invariant
                m <= f.slots@.len(),
                slots@.len() == m,
                forall|j: int| 0 <= j < m ==> #[trigger] slots@[j] == imprecise_slot(f.slots@[j]),
            decreases f.slots@.len() - m,
        {
            let mut slot = f.slots[m];
            slot.precise = false;
            slots.push(slot);
            m += 1;
        }
        let g = Frame { return_pc: f.return_pc, active_iterators: f.active_iterators, slots };
        assert(g@.slots =~= imprecise_frame(f@).slots);
        frames.push(g);
        k += 1;
    }
    assert(frame_views(frames@) =~= imprecise(v0).frames);
    out.frames = frames;
    out
}

/// Whether an arrival at a bounded jump is covered: by a candidate that was
/// reached by another number of bounded jumps and that holds every behaviour of
/// the arrival when precision marks do not count.
pub fn may_goto_range_within_prune<E: Engine>(
    engine: &E,
    env: &VerifierEnv,
    state: &State,
    live_regs: [bool; 11],
    frame_masks: &Vec<Option<[bool; 11]>>,
) -> (r: bool)
    requires
        masks_of(*env, *state, state.pc, live_regs, frame_masks@),
    ensures
        relaxed_reply(*engine, *env, *state, r),
{
    let relaxed = strip_precision(state);
    let query = SubsumptionQuery {
        live_regs,
        frame_live_regs: copy_vec(frame_masks),
        force_exact: false,
    };
    assert(relaxed_query(*env, *state, relaxed, query));
    match env.cache.data().explored.get(&state.pc) {
        Some(states) => {
            let mut i: usize = 0;
            while i < states.len()
                invariant
                    i <= states@.len(),
                    states@ == env.cache@.bucket(state.pc),
                    relaxed_query(*env, *state, relaxed, query),
                    forall|j: int|
                        0 <= j < i && (#[trigger] states@[j]).may_goto_depth
                            != state.may_goto_depth ==> call_ensures(
                            E::subsumed,
                            (engine, &relaxed, &states@[j], &query),
                            false,
                        ),
                decreases states@.len() - i,
            {
                let prev = &states[i];
                if prev.may_goto_depth != state.may_goto_depth {
                    if engine.subsumed(&relaxed, prev, &query) {
                        assert(states@[i as int].may_goto_depth != state.may_goto_depth);
                        return true;
                    }
                }
                i += 1;
            }
            false
        },
        None => false,
    }
}

/// The question that an arrival at a bounded jump raises.
pub open spec fn relaxed_query(
    env: VerifierEnv,
    state: State,
    relaxed: State,
    q: SubsumptionQuery,
) -> bool {
    &&& relaxed@ == imprecise(state@)
    &&& masks_of(env, state, state.pc, q.live_regs, q.frame_live_regs@)
    &&& !q.force_exact
}

/// Whether the engine may have answered `r` when asked whether an arrival at a
/// bounded jump is covered.
pub open spec fn relaxed_reply<E: Engine>(
    engine: E,
    env: VerifierEnv,
    state: State,
    r: bool,
) -> bool {
    let states = env.cache@.bucket(state.pc);
    exists|relaxed: State, q: SubsumptionQuery| #[trigger]
        relaxed_query(env, state, relaxed, q) && if r {
            exists|i: int|
                0 <= i < states.len() && (#[trigger] states[i]).may_goto_depth
                    != state.may_goto_depth && call_ensures(
                    E::subsumed,
                    (&engine, &relaxed, &states[i], &q),
                    true,
                )
        } else {
            forall|i: int|
                0 <= i < states.len() && (#[trigger] states[i]).may_goto_depth
                    != state.may_goto_depth ==> call_ensures(
                    E::subsumed,
                    (&engine, &relaxed, &states[i], &q),
                    false,
                )
        }
}

// ---------------------------------------------------------------------------
// Late cleaning
// ---------------------------------------------------------------------------

/// Whether a cached state is finished but not cleaned yet.
pub open spec fn uncleaned(s: State) -> bool {
    !s.cleaned && s.branches == 0
}

/// The numbers of the finished states whose read marks are complete, in order.
pub open spec fn cleanable(states: Seq<State>, incomplete: Seq<bool>) -> Seq<u32>
    recommends
        states.len() == incomplete.len(),
    decreases states.len(),
{
    if states.len() == 0 {
        Seq::empty()
    } else {
        let rest = cleanable(states.drop_last(), incomplete.drop_last());
        let s = states.last();
        if uncleaned(s) && !incomplete.last() && s.cache_id is Some {
            rest.push(s.cache_id->0)
        } else {
            rest
        }
    }
}

/// The cached states at `pc` that are to be cleaned.
pub fn states_to_clean<E: Engine>(engine: &E, env: &VerifierEnv, pc: usize) -> (r: Vec<u32>)
    ensures
        exists|incomplete: Seq<bool>| #[trigger]
            cleanable(env.cache@.bucket(pc), incomplete) == r@ && incomplete.len()
                == env.cache@.bucket(pc).len() && forall|i: int|
                0 <= i < incomplete.len() && uncleaned(env.cache@.bucket(pc)[i]) ==> call_ensures(
                    E::incomplete_read_marks,
                    (engine, env, &env.cache@.bucket(pc)[i]),
                    #[trigger] incomplete[i],
                ),
{
    let mut out: Vec<u32> = Vec::new();
    let ghost mut incomplete: Seq<bool> = Seq::empty();
    let ghost s = env.cache@.bucket(pc);
    assert(s.take(0) =~= Seq::<State>::empty());
    match env.cache.data().explored.get(&pc) {
        Some(states) => {
            let mut i: usize = 0;
            while i < states.len()
                invariant
                    i <= states@.len(),
                    states@ == s,
                    s == env.cache@.bucket(pc),
                    incomplete.len() == i,
                    out@ == cleanable(s.take(i as int), incomplete),
                    forall|j: int|
                        0 <= j < i && uncleaned(s[j]) ==> call_ensures(
                            E::incomplete_read_marks,
                            (engine, env, &s[j]),
                            #[trigger] incomplete[j],
                        ),
                decreases states@.len() - i,
            {
                let c = &states[i];
                let mut open = false;
                if !c.cleaned && c.branches == 0 {
                    open = engine.incomplete_read_marks(env, c);
                    if !open {
                        match c.cache_id {
                            Some(id) => {
                                out.push(id);
                            },
                            None => {},
                        }
                    }
                }
                proof {
                    let before = incomplete;
                    incomplete = incomplete.push(open);
                    assert(incomplete.drop_last() =~= before);
                    assert(s.take(i + 1).drop_last() =~= s.take(i as int));
                }
                i += 1;
            }
            assert(s.take(i as int) =~= s);
        },
        None => {
            assert(s.take(0) =~= s);
        },
    }
    assert(cleanable(s, incomplete) == out@);
    out
}

/// A call that cleans a cached state.
pub struct Cleaning<'a, E> {
    pub engine: &'a mut E,
    pub cache: &'a mut StateCache,
}

/// Whether the engine was asked to clean the given states one after the other,
/// each time as the engine and the cache were then.
pub open spec fn cleanings_made<E: Engine>(
    ids: Seq<u32>,
    engines: Seq<E>,
    caches: Seq<StateCache>,
    calls: Seq<Cleaning<E>>,
) -> bool {
    &&& calls.len() == ids.len()
    &&& engines.len() == ids.len() + 1
    &&& caches.len() == ids.len() + 1
    &&& forall|i: int|
        0 <= i < ids.len() ==> cleaning_made(
            ids[i],
            engines[i],
            caches[i],
            #[trigger] calls[i],
        )
}

/// Whether the engine was asked to clean a state.
pub open spec fn cleaning_made<E: Engine>(
    id: u32,
    engine: E,
    cache: StateCache,
    call: Cleaning<E>,
) -> bool {
    &&& *call.engine == engine
    &&& *call.cache == cache
    &&& call_ensures(E::clean, (call.engine, call.cache, id), ())
}

/// Has the engine clean the candidates at `pc` that are to be cleaned, in order.
pub fn clean_candidates<E: Engine>(engine: &mut E, env: &mut VerifierEnv, pc: usize)
    ensures
        differ_in_cache(*old(env), *final(env)),
        exists|
            ids: Vec<u32>,
            engines: Seq<E>,
            caches: Seq<StateCache>,
            calls: Seq<Cleaning<E>>,
        |
            {
                &&& #[trigger] call_ensures(
                    states_to_clean::<E>,
                    (&*old(engine), &*old(env), pc),
                    ids,
                )
                &&& #[trigger] cleanings_made(ids@, engines, caches, calls)
                &&& forall|i: int|
                    0 <= i < calls.len() ==> *final((#[trigger] calls[i]).engine) == engines[i + 1]
                        && *final(calls[i].cache) == caches[i + 1]
                &&& engines[0] == *old(engine)
                &&& caches[0] == old(env).cache
                &&& engines.last() == *final(engine)
                &&& caches.last() == final(env).cache
            },
{
    let ghost env0 = *env;
    let ghost engine0 = *engine;
    let ids = states_to_clean(&*engine, &*env, pc);
    let mut k: usize = 0;
    proof {
        let none = Seq::<Cleaning<E>>::empty();
        assert(ids@.take(0) =~= Seq::<u32>::empty());
        assert(cleanings_made(ids@.take(0), seq![engine0], seq![env0.cache], none));
    }
    while k < ids.len()
        invariant
            k <= ids@.len(),
            differ_in_cache(env0, *env),
            exists|engines: Seq<E>, caches: Seq<StateCache>, calls: Seq<Cleaning<E>>|
                {
                    &&& #[trigger] cleanings_made(ids@.take(k as int), engines, caches, calls)
                    &&& forall|i: int|
                        0 <= i < calls.len() ==> *final((#[trigger] calls[i]).engine) == engines[i
                            + 1] && *final(calls[i].cache) == caches[i + 1]
                    &&& engines[0] == engine0
                    &&& caches[0] == env0.cache
                    &&& engines.last() == *engine
                    &&& caches.last() == env.cache
                },
        decreases ids@.len() - k,
    {
        let ghost e0 = *engine;
        let ghost c0 = env.cache;
        engine.clean(&mut env.cache, ids[k]);
        proof {
            let (engines, caches, calls) = choose|
                engines: Seq<E>,
                caches: Seq<StateCache>,
                calls: Seq<Cleaning<E>>,
            |
                {
                    &&& #[trigger] cleanings_made(ids@.take(k as int), engines, caches, calls)
                    &&& forall|i: int|
                        0 <= i < calls.len() ==> *final((#[trigger] calls[i]).engine) == engines[i
                            + 1] && *final(calls[i].cache) == caches[i + 1]
                    &&& engines[0] == engine0
                    &&& caches[0] == env0.cache
                    &&& engines.last() == e0
                    &&& caches.last() == c0
                };
            let (e, c) = choose|e: &mut E, c: &mut StateCache|
                {
                    &&& #[trigger] call_ensures(E::clean, (e, c, ids@[k as int]), ())
                    &&& *e == e0
                    &&& *c == c0
                    &&& *final(e) == *engine
                    &&& *final(c) == env.cache
                };
            let call = Cleaning { engine: e, cache: c };
            let calls1 = calls.push(call);
            let engines1 = engines.push(*engine);
            let caches1 = caches.push(env.cache);
            let ids1 = ids@.take(k + 1);
            assert(cleaning_made(ids@[k as int], e0, c0, call));
            assert forall|i: int| 0 <= i < ids1.len() implies cleaning_made(
                ids1[i],
                engines1[i],
                caches1[i],
                #[trigger] calls1[i],
            ) by {
                if i < calls.len() {
                    assert(calls1[i] == calls[i]);
                    assert(ids@.take(k as int)[i] == ids1[i]);
                }
            }
            assert(cleanings_made(ids1, engines1, caches1, calls1));
        }
        k += 1;
    }
    assert(ids@.take(k as int) =~= ids@);
}

// ---------------------------------------------------------------------------
// The decision
// ---------------------------------------------------------------------------

/// Whether some frame of a state holds an iterator that is under way.
pub open spec fn iterates(s: State) -> bool {
    exists|i: int| 0 <= i < s.frames@.len() && (#[trigger] s.frames@[i]).active_iterators
}

/// Whether some frame of a state holds an iterator that is under way.
pub fn has_active_iterators(s: &State) -> (r: bool)
    ensures
        r == iterates(*s),
{
    let mut i: usize = 0;
    while i < s.frames.len()
        invariant
            i <= s.frames@.len(),
            forall|j: int| 0 <= j < i ==> !(#[trigger] s.frames@[j]).active_iterators,
        decreases s.frames@.len() - i,
    {
        if s.frames[i].active_iterators {
            assert(s.frames@[i as int].active_iterators);
            return true;
        }
        i += 1;
    }
    false
}

/// Whether an exact recurrence counts as an endless loop: at the head of a loop
/// that neither an iterator nor a call drives.
pub open spec fn trap_set(state: State, prog: Program, facts: LoopFacts) -> bool {
    facts.at_loop_point && !iterates(state) && state.pc < prog.instrs@.len() && !(
    prog.instrs@[state.pc as int] is Call)
}

/// Whether the instruction is a bounded jump.
pub open spec fn at_may_goto(prog: Program, pc: usize) -> bool {
    prog.spec_fetch(pc) matches Some(i) && i is MayGoto
}

/// How an arrival at a prune point is decided, once its candidates are cleaned.
/// A repetition of the arrival's own past ends the run. Where every visit is to
/// be explored, nothing is pruned. A bounded jump may be covered by a candidate
/// reached by another number of them; else the scan decides.
pub open spec fn prune_decided<E: Engine>(
    engine: E,
    before: VerifierEnv,
    after: VerifierEnv,
    state: State,
    prog: Program,
    facts: LoopFacts,
    pruned: bool,
) -> bool {
    ||| {
        &&& trap_set(state, prog, facts)
        &&& repeat_reply(engine, before, state, true)
        &&& pruned
        &&& after == (VerifierEnv {
            error: Some(VerificationError::InfiniteLoopDetected { pc: state.pc }),
            ..before
        })
    }
    ||| {
        &&& trap_set(state, prog, facts) ==> repeat_reply(engine, before, state, false)
        &&& if before.ctx.test_state_freq {
            !pruned && after == before
        } else {
            ||| {
                &&& at_may_goto(prog, state.pc)
                &&& relaxed_reply(engine, before, state, true)
                &&& pruned
                &&& after == before
            }
            ||| {
                &&& at_may_goto(prog, state.pc) ==> relaxed_reply(engine, before, state, false)
                &&& if facts.at_loop_point {
                    if deferred_in_loop(before, facts, state.pc) {
                        !pruned && after == before
                    } else {
                        arrival_handled(engine, before, after, state, false, pruned)
                    }
                } else {
                    arrival_handled(
                        engine,
                        before,
                        after,
                        state,
                        before.iter_pcs@.contains(state.pc),
                        pruned,
                    )
                }
            }
        }
    }
}

/// What is decided about an arrival before its candidates are scanned.
#[derive(Clone, Copy, Debug, PartialEq, Eq, Structural)]
pub enum Early {
    /// It repeats its own past: the run fails.
    EndlessLoop,
    /// It is explored, since every visit is.
    Explore,
    /// A candidate that was reached by another number of bounded jumps covers it.
    Covered,
    /// Nothing yet.
    Undecided,
}

/// Whether this is what the engine's answers decide about an arrival before its
/// candidates are scanned.
pub open spec fn decided_early<E: Engine>(
    engine: E,
    env: VerifierEnv,
    state: State,
    prog: Program,
    facts: LoopFacts,
    early: Early,
) -> bool {
    ||| {
        &&& early == Early::EndlessLoop
        &&& trap_set(state, prog, facts)
        &&& repeat_reply(engine, env, state, true)
    }
    ||| {
        &&& trap_set(state, prog, facts) ==> repeat_reply(engine, env, state, false)
        &&& match early {
            Early::EndlessLoop => false,
            Early::Explore => env.ctx.test_state_freq,
            Early::Covered => {
                &&& !env.ctx.test_state_freq
                &&& at_may_goto(prog, state.pc)
                &&& relaxed_reply(engine, env, state, true)
            },
            Early::Undecided => {
                &&& !env.ctx.test_state_freq
                &&& at_may_goto(prog, state.pc) ==> relaxed_reply(engine, env, state, false)
            },
        }
    }
}

/// Decides what can be decided about an arrival before its candidates are scanned.
pub fn decide_early<E: Engine>(
    engine: &E,
    env: &VerifierEnv,
    state: &State,
    prog: &Program,
    facts: LoopFacts,
    live_regs: [bool; 11],
    frame_masks: &Vec<Option<[bool; 11]>>,
) -> (early: Early)
    requires
        masks_of(*env, *state, state.pc, live_regs, frame_masks@),
    ensures
        decided_early(*engine, *env, *state, *prog, facts, early),
{
    let pc: usize = state.pc;
    if facts.at_loop_point && !has_active_iterators(state) && pc < prog.instrs.len()
        && !is_inf_loop_skip_pc(prog, pc) && repeats_own_past(engine, env, state) {
        return Early::EndlessLoop;
    }
    if env.ctx.test_state_freq {
        return Early::Explore;
    }
    let is_may_goto = match prog.fetch(pc) {
        Some(Instr::MayGoto { .. }) => true,
        _ => false,
    };
    if is_may_goto && may_goto_range_within_prune(engine, env, state, live_regs, frame_masks) {
        return Early::Covered;
    }
    Early::Undecided
}

/// Decides about an arrival at a prune point, once its candidates are cleaned.
/// Where nothing is decided early, the candidates are scanned.
pub fn decide_by_candidates<E: Engine>(
    engine: &mut E,
    env: &mut VerifierEnv,
    state: &State,
    prog: &Program,
) -> (pruned: bool)
    requires
        state.pc < old(env).insn_aux@.len(),
    ensures
        exists|facts: LoopFacts, early: Early|
            {
                &&& #[trigger] call_ensures(
                    E::loop_facts,
                    (&*old(engine), &*old(env), state, prog),
                    facts,
                )
                &&& #[trigger] decided_early(
                    *old(engine),
                    *old(env),
                    *state,
                    *prog,
                    facts,
                    early,
                )
                &&& prune_decided(
                    *old(engine),
                    *old(env),
                    *final(env),
                    *state,
                    *prog,
                    facts,
                    pruned,
                )
                &&& match early {
                    Early::EndlessLoop => {
                        &&& pruned
                        &&& *final(engine) == *old(engine)
                        &&& *final(env) == (VerifierEnv {
                            error: Some(VerificationError::InfiniteLoopDetected { pc: state.pc }),
                            ..*old(env)
                        })
                    },
                    Early::Explore => {
                        !pruned && *final(engine) == *old(engine) && *final(env) == *old(env)
                    },
                    Early::Covered => {
                        pruned && *final(engine) == *old(engine) && *final(env) == *old(env)
                    },
                    Early::Undecided => exists|
                        e: &mut E,
                        v: &mut VerifierEnv,
                        live_regs: [bool; 11],
                        masks: Vec<Option<[bool; 11]>>,
                    |
                        {
                            &&& #[trigger] masks_of(*old(env), *state, state.pc, live_regs, masks@)
                            &&& #[trigger] call_ensures(
                                scan_by_place::<E>,
                                (e, v, state, facts, live_regs, &masks),
                                pruned,
                            )
                            &&& *e == *old(engine)
                            &&& *v == *old(env)
                            &&& *final(engine) == *final(e)
                            &&& *final(env) == *final(v)
                        },
                }
            },
        *final(env) == (VerifierEnv {
            cache: final(env).cache,
            saw_active_state_at_check: final(env).saw_active_state_at_check,
            error: final(env).error,
            ..*old(env)
        }),
        final(env).error == old(env).error || (pruned && final(env).error == Some(
            VerificationError::InfiniteLoopDetected { pc: state.pc },
        )),
{
    let pc: usize = state.pc;
    let facts = engine.loop_facts(&*env, state, prog);
    let live_regs = env.insn_aux[pc].live_regs;
    let frame_masks = frame_live_regs(&*env, state);
    let early = decide_early(&*engine, &*env, state, prog, facts, live_regs, &frame_masks);
    match early {
        Early::EndlessLoop => {
            env.error = Some(VerificationError::InfiniteLoopDetected { pc });
            true
        },
        Early::Explore => false,
        Early::Covered => true,
        Early::Undecided => {
            assert(masks_of(*env, *state, state.pc, live_regs, frame_masks@));
            scan_by_place(engine, env, state, facts, live_regs, &frame_masks)
        },
    }
}

/// Scans the candidates of an arrival, as its place in or outside loops demands.
pub fn scan_by_place<E: Engine>(
    engine: &mut E,
    env: &mut VerifierEnv,
    state: &State,
    facts: LoopFacts,
    live_regs: [bool; 11],
    frame_masks: &Vec<Option<[bool; 11]>>,
) -> (pruned: bool)
    requires
        masks_of(*old(env), *state, state.pc, live_regs, frame_masks@),
    ensures
        if facts.at_loop_point {
            if deferred_in_loop(*old(env), facts, state.pc) {
                !pruned && *final(env) == *old(env)
            } else {
                arrival_handled(*old(engine), *old(env), *final(env), *state, false, pruned)
            }
        } else {
            arrival_handled(
                *old(engine),
                *old(env),
                *final(env),
                *state,
                old(env).iter_pcs@.contains(state.pc),
                pruned,
            )
        },
        facts.at_loop_point ==> exists|e: &mut E, v: &mut VerifierEnv|
            {
                &&& #[trigger] call_ensures(
                    handle_loop_pruning::<E>,
                    (e, v, state, facts, live_regs, frame_masks),
                    pruned,
                )
                &&& *e == *old(engine)
                &&& *v == *old(env)
                &&& *final(engine) == *final(e)
                &&& *final(env) == *final(v)
            },
        !facts.at_loop_point ==> exists|e: &mut E, v: &mut VerifierEnv|
            {
                &&& #[trigger] call_ensures(
                    handle_standard_pruning::<E>,
                    (e, v, state, live_regs, frame_masks),
                    pruned,
                )
                &&& *e == *old(engine)
                &&& *v == *old(env)
                &&& *final(engine) == *final(e)
                &&& *final(env) == *final(v)
            },
{
    if facts.at_loop_point {
        handle_loop_pruning(engine, env, state, facts, live_regs, frame_masks)
    } else {
        handle_standard_pruning(engine, env, state, live_regs, frame_masks)
    }
}

/// Decides whether an arriving state is covered by what was explored before. Only
/// at prune points anything is decided; there the candidates are cleaned first.
/// Finds endless loops on the way, and then the run has failed.
pub fn should_prune<E: Engine>(
    engine: &mut E,
    env: &mut VerifierEnv,
    state: &State,
    prog: &Program,
) -> (pruned: bool)
    ensures
        state.pc >= old(env).insn_aux@.len() ==> {
            &&& !pruned
            &&& *final(engine) == *old(engine)
            &&& *final(env) == (VerifierEnv { saw_active_state_at_check: false, ..*old(env) })
        },
        state.pc < old(env).insn_aux@.len() ==> exists|fresh: VerifierEnv, at_prune_point: bool|
            {
                &&& #[trigger] call_ensures(
                    E::is_prune_point,
                    (&*old(engine), &fresh, state.pc),
                    at_prune_point,
                )
                &&& fresh == (VerifierEnv { saw_active_state_at_check: false, ..*old(env) })
                &&& if !at_prune_point {
                    !pruned && *final(engine) == *old(engine) && *final(env) == fresh
                } else {
                    exists|e1: &mut E, v1: &mut VerifierEnv, e2: &mut E, v2: &mut VerifierEnv|
                        {
                            &&& #[trigger] call_ensures(
                                clean_candidates::<E>,
                                (e1, v1, state.pc),
                                (),
                            )
                            &&& *e1 == *old(engine)
                            &&& *v1 == fresh
                            &&& #[trigger] call_ensures(
                                decide_by_candidates::<E>,
                                (e2, v2, state, prog),
                                pruned,
                            )
                            &&& *e2 == *final(e1)
                            &&& *v2 == *final(v1)
                            &&& *final(engine) == *final(e2)
                            &&& *final(env) == *final(v2)
                        }
                }
            },
        *final(env) == (VerifierEnv {
            cache: final(env).cache,
            saw_active_state_at_check: final(env).saw_active_state_at_check,
            error: final(env).error,
            ..*old(env)
        }),
        final(env).error == old(env).error || (pruned && final(env).error == Some(
            VerificationError::InfiniteLoopDetected { pc: state.pc },
        )),
{
    let pc: usize = state.pc;
    env.saw_active_state_at_check = false;
    if pc >= env.insn_aux.len() {
        return false;
    }
    if !engine.is_prune_point(&*env, pc) {
        return false;
    }
    clean_candidates(engine, env, pc);
    decide_by_candidates(engine, env, state, prog)
}

// ---------------------------------------------------------------------------
// Laws
// ---------------------------------------------------------------------------

/// What covers an arrival is finished, is not marked as one that must not, and was
/// reached through the same calls; it does not count as missed.
pub proof fn law_hits_are_finished(
    states: Seq<State>,
    state: State,
    add: bool,
    suppress: bool,
    subsumes: Seq<bool>,
    out: ScanOutcome,
)
    requires
        scan_found(states, state, add, suppress, subsumes, out),
        out.hit is Some,
    ensures
        out.hit->0 < states.len(),
        states[out.hit->0 as int].branches == 0,
        !states[out.hit->0 as int].children_unsafe,
        callsites(states[out.hit->0 as int]) == callsites(state),
        !out.misses@.contains(out.hit->0),
{
}

/// A candidate that was reached through other calls has no part in a scan: it
/// neither covers the arrival nor counts as missed or as unfinished.
pub proof fn law_other_callsites_are_invisible(
    states: Seq<State>,
    state: State,
    add: bool,
    suppress: bool,
    subsumes: Seq<bool>,
    out: ScanOutcome,
    i: usize,
)
    requires
        scan_found(states, state, add, suppress, subsumes, out),
        i < states.len(),
        callsites(states[i as int]) != callsites(state),
    ensures
        out.hit != Some(i),
        !out.misses@.contains(i),
        !active(states, state, i as int),
{
}

/// Once a scan has met an unfinished candidate that ends the arrival's hope to
/// become a checkpoint, neither that one nor any older one counts as missed.
pub proof fn law_suppressed_scan_counts_no_more(
    states: Seq<State>,
    state: State,
    add: bool,
    subsumes: Seq<bool>,
    out: ScanOutcome,
    i: usize,
    j: int,
)
    requires
        scan_found(states, state, add, true, subsumes, out),
        active(states, state, j),
        i <= j,
    ensures
        !out.misses@.contains(i),
{
}

/// An arrival that does not want to become a checkpoint misses nothing.
pub proof fn law_no_checkpoint_no_misses(
    states: Seq<State>,
    state: State,
    suppress: bool,
    subsumes: Seq<bool>,
    out: ScanOutcome,
)
    requires
        scan_found(states, state, false, suppress, subsumes, out),
    ensures
        out.misses@.len() == 0,
{
    if out.misses@.len() > 0 {
        assert(out.misses@.contains(out.misses@[0]));
    }
}

/// A forced checkpoint is never given up because of an unfinished candidate, and
/// is always wanted.
pub proof fn law_forced_checkpoints_stand(env: VerifierEnv, state: State, pc: usize)
    requires
        forces_checkpoint(env, state, pc),
    ensures
        adds_checkpoint(env, state, pc),
        !suppressed_in_loop(env, state, pc),
{
}

/// A state leaves its bucket only when it was missed more often than its hits make
/// up for; without a hit that takes four misses, and for an unfinished state at a
/// forced checkpoint sixty-five.
pub proof fn law_patience(m: StateMetrics, force: bool, branches: u32)
    requires
        m.hit_cnt == 0,
    ensures
        overdue(m, patience(force, branches)) <==> m.miss_cnt >= (if force && branches > 0 {
            65int
        } else {
            4
        }),
{
}

/// Misses take nothing out of reach: every checkpoint is still found by its
/// number, and every lineage is what it was.
pub proof fn law_misses_keep_lineages(
    before: CacheData,
    after: CacheData,
    pc: usize,
    force: bool,
    misses: Seq<usize>,
    first: Option<u32>,
    k: nat,
)
    requires
        after_misses(before, after, pc, force, misses),
    ensures
        nth_ancestor(after, first, k) == nth_ancestor(before, first, k),
    decreases k,
{
    if k > 0 {
        law_misses_keep_lineages(before, after, pc, force, misses, first, (k - 1) as nat);
        match nth_ancestor(before, first, (k - 1) as nat) {
            Some(id) => {
                assert(after.resolve(id) == before.resolve(id));
            },
            None => {},
        }
    }
}

/// Misses may come in any order: the same candidates do the same to a cache.
pub proof fn law_misses_come_in_any_order(
    before: CacheData,
    after: CacheData,
    pc: usize,
    force: bool,
    a: Seq<usize>,
    b: Seq<usize>,
)
    requires
        a.no_duplicates(),
        b.no_duplicates(),
        forall|i: usize| #[trigger] a.contains(i) == b.contains(i),
    ensures
        after_misses(before, after, pc, force, a) == after_misses(before, after, pc, force, b),
{
    let p = |i: usize| evicts(before, pc, force, i);
    lemma_filter_contains(a, p);
    lemma_filter_contains(b, p);
    let gone_a = evicted_places(before, pc, force, a);
    let gone_b = evicted_places(before, pc, force, b);
    assert forall|i: usize| #[trigger] gone_a.contains(i) == gone_b.contains(i) by {
        assert(a.contains(i) == b.contains(i));
    }
    let scores = before.scores(pc);
    assert(scores_after(scores, a) =~= scores_after(scores, b)) by {
        assert forall|i: int| 0 <= i < scores.len() implies scores_after(scores, a)[i]
            == scores_after(scores, b)[i] by {
            assert(a.contains(i as usize) == b.contains(i as usize));
        }
    }
    lemma_without_any_order(before.bucket(pc), gone_a, gone_b);
    lemma_without_any_order(scores_after(scores, a), gone_a, gone_b);
}

pub proof fn lemma_filter_contains(s: Seq<usize>, p: spec_fn(usize) -> bool)
    ensures
        forall|x: usize| #[trigger] s.filter(p).contains(x) == (s.contains(x) && p(x)),
    decreases s.len(),
{
    reveal(Seq::filter);
    if s.len() > 0 {
        let rest = s.drop_last();
        lemma_filter_contains(rest, p);
        let f = rest.filter(p);
        assert forall|x: usize| #[trigger] s.filter(p).contains(x) == (s.contains(x) && p(x)) by {
            assert(f.contains(x) == (rest.contains(x) && p(x)));
            if s.filter(p).contains(x) {
                let k = choose|k: int| 0 <= k < s.filter(p).len() && s.filter(p)[k] == x;
                if k < f.len() {
                    assert(f[k] == x);
                    let m = choose|m: int| 0 <= m < rest.len() && rest[m] == x;
                    assert(s[m] == x);
                } else {
                    assert(s[s.len() - 1] == x);
                }
            }
            if s.contains(x) && p(x) {
                let m = choose|m: int| 0 <= m < s.len() && s[m] == x;
                if m < rest.len() {
                    assert(rest[m] == x);
                    let k = choose|k: int| 0 <= k < f.len() && f[k] == x;
                    assert(s.filter(p)[k] == x);
                } else {
                    assert(s.filter(p)[f.len() as int] == x);
                }
            }
        }
    }
}

/// At a bounded jump the precision marks of the arrival do not count: two
/// arrivals that differ in these alone get the same answers.
pub proof fn law_precision_does_not_count_at_bounded_jumps<E: Engine>(
    engine: E,
    env: VerifierEnv,
    a: State,
    b: State,
    r: bool,
)
    requires
        imprecise(a@) == imprecise(b@),
    ensures
        relaxed_reply(engine, env, a, r) == relaxed_reply(engine, env, b, r),
{
    lemma_same_relaxed_query(env, a, b);
    lemma_same_relaxed_query(env, b, a);
    if relaxed_reply(engine, env, a, r) {
        lemma_same_relaxed_reply(engine, env, a, b, r);
    }
    if relaxed_reply(engine, env, b, r) {
        lemma_same_relaxed_reply(engine, env, b, a, r);
    }
}

/// An arrival at a bounded jump and the same one without its precision marks get
/// the same answers.
pub proof fn law_stripped_arrivals_at_bounded_jumps<E: Engine>(
    engine: E,
    env: VerifierEnv,
    state: State,
    stripped: State,
    r: bool,
)
    requires
        stripped@ == imprecise(state@),
    ensures
        relaxed_reply(engine, env, state, r) == relaxed_reply(engine, env, stripped, r),
{
    let v = state@;
    assert forall|i: int| 0 <= i < v.frames.len() implies imprecise_frame(
        #[trigger] imprecise(v).frames[i],
    ) == imprecise(v).frames[i] by {
        assert(imprecise_frame(imprecise(v).frames[i]).slots =~= imprecise(v).frames[i].slots);
    }
    assert(imprecise(imprecise(v)).regs =~= imprecise(v).regs);
    assert(imprecise(imprecise(v)).frames =~= imprecise(v).frames);
    law_precision_does_not_count_at_bounded_jumps(engine, env, state, stripped, r);
}

/// At a bounded jump nothing but a candidate that was reached by another number of
/// them covers the arrival; where there is none, it is not covered.
pub proof fn law_bounded_jumps_are_covered_by_other_depths<E: Engine>(
    engine: E,
    env: VerifierEnv,
    state: State,
)
    requires
        forall|i: int|
            0 <= i < env.cache@.bucket(state.pc).len() ==> (#[trigger] env.cache@.bucket(
                state.pc,
            )[i]).may_goto_depth == state.may_goto_depth,
    ensures
        !relaxed_reply(engine, env, state, true),
{
}

proof fn lemma_same_relaxed_query(env: VerifierEnv, a: State, b: State)
    requires
        imprecise(a@) == imprecise(b@),
    ensures
        a.pc == b.pc,
        a.may_goto_depth == b.may_goto_depth,
        forall|relaxed: State, q: SubsumptionQuery| #[trigger]
            relaxed_query(env, a, relaxed, q) ==> relaxed_query(env, b, relaxed, q),
{
    assert(imprecise(a@).pc == imprecise(b@).pc);
    assert(imprecise(a@).may_goto_depth == imprecise(b@).may_goto_depth);
    assert(imprecise(a@).frames.len() == imprecise(b@).frames.len());
    assert(imprecise(a@).frames.len() == a.frames@.len());
    assert(imprecise(b@).frames.len() == b.frames@.len());
    assert forall|i: int| 0 <= i < a.frames@.len() implies (#[trigger] a.frames@[i]).return_pc
        == b.frames@[i].return_pc by {
        assert(imprecise(a@).frames[i] == imprecise(b@).frames[i]);
        assert(imprecise(a@).frames[i].return_pc == a.frames@[i].return_pc);
        assert(imprecise(b@).frames[i].return_pc == b.frames@[i].return_pc);
    }
    assert forall|relaxed: State, q: SubsumptionQuery| #[trigger]
        relaxed_query(env, a, relaxed, q) implies relaxed_query(env, b, relaxed, q) by {
        let frames = q.frame_live_regs@;
        assert forall|i: int| 0 <= i < frames.len() implies #[trigger] frames[i] == frame_mask(
            env,
            b.frames@[i].return_pc,
        ) by {
            assert(a.frames@[i].return_pc == b.frames@[i].return_pc);
        }
    }
}

proof fn lemma_same_relaxed_reply<E: Engine>(
    engine: E,
    env: VerifierEnv,
    a: State,
    b: State,
    r: bool,
)
    requires
        imprecise(a@) == imprecise(b@),
        relaxed_reply(engine, env, a, r),
    ensures
        relaxed_reply(engine, env, b, r),
{
    lemma_same_relaxed_query(env, a, b);
    let states = env.cache@.bucket(a.pc);
    let (relaxed, q) = choose|relaxed: State, q: SubsumptionQuery| #[trigger]
        relaxed_query(env, a, relaxed, q) && if r {
            exists|i: int|
                0 <= i < states.len() && (#[trigger] states[i]).may_goto_depth != a.may_goto_depth
                    && call_ensures(E::subsumed, (&engine, &relaxed, &states[i], &q), true)
        } else {
            forall|i: int|
                0 <= i < states.len() && (#[trigger] states[i]).may_goto_depth != a.may_goto_depth
                    ==> call_ensures(E::subsumed, (&engine, &relaxed, &states[i], &q), false)
        };
    assert(relaxed_query(env, b, relaxed, q));
}

/// Where every visit is to be explored, an arrival at a prune point is given up
/// only for an endless loop, and then the run has failed.
pub proof fn law_every_visit_is_explored<E: Engine>(
    engine: E,
    before: VerifierEnv,
    after: VerifierEnv,
    state: State,
    prog: Program,
    facts: LoopFacts,
    pruned: bool,
)
    requires
        prune_decided(engine, before, after, state, prog, facts, pruned),
        before.ctx.test_state_freq,
        pruned,
    ensures
        after.error == Some(VerificationError::InfiniteLoopDetected { pc: state.pc }),
{
}

/// A loop without a way out is never pruned; only an endless repetition ends it.
pub proof fn law_loops_without_exit_are_not_pruned<E: Engine>(
    engine: E,
    before: VerifierEnv,
    after: VerifierEnv,
    state: State,
    prog: Program,
    facts: LoopFacts,
    pruned: bool,
)
    requires
        prune_decided(engine, before, after, state, prog, facts, pruned),
        facts.at_loop_point,
        !facts.conditional_exit,
        !at_may_goto(prog, state.pc),
        pruned,
    ensures
        after.error == Some(VerificationError::InfiniteLoopDetected { pc: state.pc }),
{
}

}
