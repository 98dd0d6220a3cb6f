//! What runs, caches and results hold, apart from how it is stored.
//!
//! Two values with the same contents cannot be told apart by reading them.

use vstd::prelude::*;

use std::collections::HashMap;

use crate::ast::{Instr, ProgramKind, Reg};
use crate::cache::{CacheData, StateCache, StateMetrics};
use crate::engine::SubsumptionQuery;
use crate::env::{
    Annotation, Breadcrumb, BundleKind, Certificate, Counters, ExecContext, InsnAux, RefineEntry,
    VerifierEnv,
};
use crate::machine::{frame_views, State, StateView, VerificationError};
use crate::pruning::{callsites, nth_ancestor};
use crate::symbolic::BcfTerm;

verus! {

// ---------------------------------------------------------------------------
// Contents
// ---------------------------------------------------------------------------

/// What states hold.
pub open spec fn state_views(states: Seq<State>) -> Seq<StateView> {
    states.map_values(|s: State| s@)
}

/// What a cache holds: the states and scores at each place, and the state that each
/// number leads to.
#[verifier::ext_equal]
pub struct CacheContent {
    pub states: Map<usize, Seq<StateView>>,
    pub scores: Map<usize, Seq<StateMetrics>>,
    pub by_id: Map<u32, Option<(usize, StateView)>>,
    pub next_id: u32,
    pub evictions: usize,
}

/// What a number leads to.
pub open spec fn entry_view_of(entry: Option<(usize, State)>) -> Option<(usize, StateView)> {
    match entry {
        Some(e) => Some((e.0, e.1@)),
        None => None,
    }
}

/// What a cache holds.
#[verifier::opaque]
pub open spec fn cache_content(c: CacheData) -> CacheContent {
    CacheContent {
        states: Map::new(|q: usize| true, |q: usize| state_views(c.bucket(q))),
        scores: Map::new(|q: usize| true, |q: usize| c.scores(q)),
        by_id: Map::new(|id: u32| true, |id: u32| entry_view_of(c.resolve(id))),
        next_id: c.next_id,
        evictions: c.evictions,
    }
}

/// What an error says.
#[verifier::ext_equal]
pub enum ErrorContent {
    InfiniteLoopDetected { pc: usize },
    InvalidBPFLoadImmInsn { pc: usize },
    ComplexityLimitExceeded { limit: usize },
    SubprogError { e: Seq<char> },
    CfgError { e: Seq<char> },
    MapProgIncompat { map_name: Seq<char>, field: &'static str, kind: ProgramKind },
    Instruction { pc: usize, code: u32 },
}

/// What an error says.
pub open spec fn error_content(e: VerificationError) -> ErrorContent {
    match e {
        VerificationError::InfiniteLoopDetected { pc } => ErrorContent::InfiniteLoopDetected { pc },
        VerificationError::InvalidBPFLoadImmInsn { pc } => ErrorContent::InvalidBPFLoadImmInsn {
            pc,
        },
        VerificationError::ComplexityLimitExceeded { limit } =>
            ErrorContent::ComplexityLimitExceeded { limit },
        VerificationError::SubprogError { e } => ErrorContent::SubprogError { e: e@ },
        VerificationError::CfgError(e) => ErrorContent::CfgError { e: e@ },
        VerificationError::MapProgIncompat { map_name, field, kind } =>
            ErrorContent::MapProgIncompat { map_name: map_name@, field, kind },
        VerificationError::Instruction { pc, code } => ErrorContent::Instruction { pc, code },
    }
}

/// What an optional error says.
#[verifier::opaque]
pub open spec fn failure_content(e: Option<VerificationError>) -> Option<ErrorContent> {
    match e {
        Some(e) => Some(error_content(e)),
        None => None,
    }
}

/// What a step of the exploration holds.
#[verifier::ext_equal]
pub struct CrumbContent {
    pub pc: usize,
    pub instr: Instr,
    pub parent_idx: Option<usize>,
    pub num_frames: usize,
    pub linked: Seq<Reg>,
}

/// What a step of the exploration holds.
pub open spec fn crumb_content(b: Breadcrumb) -> CrumbContent {
    CrumbContent {
        pc: b.pc,
        instr: b.instr,
        parent_idx: b.parent_idx,
        num_frames: b.num_frames,
        linked: b.linked@,
    }
}

/// What a history holds.
#[verifier::opaque]
pub open spec fn history_content(h: Seq<Breadcrumb>) -> Seq<CrumbContent> {
    h.map_values(|b: Breadcrumb| crumb_content(b))
}

/// What an entry of a bundle holds.
#[verifier::ext_equal]
pub struct EntryContent {
    pub kind: BundleKind,
    pub cond_hash: u64,
    pub goal_root: usize,
    pub exprs: Seq<BcfTerm>,
    pub proof_bytes: Seq<u8>,
}

/// What an entry of a bundle holds.
pub open spec fn entry_content(e: RefineEntry) -> EntryContent {
    EntryContent {
        kind: e.kind,
        cond_hash: e.goal.cond_hash,
        goal_root: e.goal.goal_root,
        exprs: e.goal.exprs@,
        proof_bytes: e.goal.proof_bytes@,
    }
}

/// What a bundle holds.
#[verifier::opaque]
pub open spec fn bundle_content(b: Seq<RefineEntry>) -> Seq<EntryContent> {
    b.map_values(|e: RefineEntry| entry_content(e))
}

/// What annotations hold.
pub open spec fn annotations_content(a: Seq<Annotation>) -> Seq<(usize, Seq<u32>)> {
    a.map_values(|a: Annotation| (a.pc, a.entries@))
}

/// What a certificate holds.
#[verifier::opaque]
pub open spec fn certificate_content(c: Option<Certificate>) -> Option<
    (Seq<char>, Seq<(usize, Seq<u32>)>),
> {
    match c {
        Some(c) => Some((c.program_hash@, annotations_content(c.annotations@))),
        None => None,
    }
}

/// What a run holds.
#[verifier::ext_equal]
pub struct EnvContent {
    pub ctx: ExecContext,
    pub cache: CacheContent,
    pub insn_aux: Seq<InsnAux>,
    pub counters: Counters,
    pub saw_active_state_at_check: bool,
    pub error: Option<ErrorContent>,
    pub replay_mode: bool,
    pub bcf_enabled: bool,
    pub kernel_faithful_alu: bool,
    pub analyzing_exception_cb: bool,
    pub bcf_path_unreachable: bool,
    pub bcf_proofs: Seq<EntryContent>,
    pub bcf_size_reg: Option<Reg>,
    pub current_step_idx: Option<usize>,
    pub history: Seq<CrumbContent>,
    pub iter_pcs: Seq<usize>,
    pub certificate: Option<(Seq<char>, Seq<(usize, Seq<u32>)>)>,
}

/// What a run holds.
#[verifier::opaque]
pub open spec fn env_content(env: VerifierEnv) -> EnvContent {
    EnvContent {
        ctx: *env.ctx,
        cache: cache_content(env.cache@),
        insn_aux: env.insn_aux@,
        counters: env.counters,
        saw_active_state_at_check: env.saw_active_state_at_check,
        error: failure_content(env.error),
        replay_mode: env.replay_mode,
        bcf_enabled: env.bcf_enabled,
        kernel_faithful_alu: env.kernel_faithful_alu,
        analyzing_exception_cb: env.analyzing_exception_cb,
        bcf_path_unreachable: env.bcf_path_unreachable,
        bcf_proofs: bundle_content(env.bcf_proofs@),
        bcf_size_reg: env.bcf_size_reg,
        current_step_idx: env.current_step_idx,
        history: history_content(env.history@),
        iter_pcs: env.iter_pcs@,
        certificate: certificate_content(env.certificate),
    }
}

/// What a question about two states holds.
#[verifier::ext_equal]
pub struct QueryContent {
    pub live_regs: [bool; 11],
    pub frame_live_regs: Seq<Option<[bool; 11]>>,
    pub force_exact: bool,
}

/// What a question about two states holds.
pub open spec fn query_content(q: SubsumptionQuery) -> QueryContent {
    QueryContent {
        live_regs: q.live_regs,
        frame_live_regs: q.frame_live_regs@,
        force_exact: q.force_exact,
    }
}

/// What a check has found.
pub open spec fn check_content(r: Result<(), String>) -> Result<(), Seq<char>> {
    match r {
        Ok(unit) => Ok(()),
        Err(e) => Err(e@),
    }
}

/// What the states at each place of a result hold.
pub open spec fn explored_content(explored: HashMap<usize, Vec<State>>) -> Map<
    usize,
    Seq<StateView>,
> {
    Map::new(
        |q: usize| true,
        |q: usize|
            if explored@.contains_key(q) {
                state_views(explored@[q]@)
            } else {
                Seq::empty()
            },
    )
}

// ---------------------------------------------------------------------------
// Reading contents
// ---------------------------------------------------------------------------

/// Caches that agree everywhere have the same contents.
pub proof fn lemma_same_cache(a: CacheData, b: CacheData)
    requires
        forall|q: usize| #[trigger] state_views(a.bucket(q)) == state_views(b.bucket(q)),
        forall|q: usize| #[trigger] a.scores(q) == b.scores(q),
        forall|id: u32| #[trigger] entry_view_of(a.resolve(id)) == entry_view_of(b.resolve(id)),
        a.next_id == b.next_id,
        a.evictions == b.evictions,
    ensures
        cache_content(a) == cache_content(b),
{
    reveal(cache_content);
    assert(cache_content(a).states =~= cache_content(b).states);
    assert(cache_content(a).scores =~= cache_content(b).scores);
    assert(cache_content(a).by_id =~= cache_content(b).by_id);
}

/// Caches with the same contents agree everywhere.
pub proof fn lemma_cache_read(a: CacheData, b: CacheData)
    requires
        cache_content(a) == cache_content(b),
    ensures
        forall|q: usize| #[trigger] state_views(a.bucket(q)) == state_views(b.bucket(q)),
        forall|q: usize| #![trigger a.bucket(q)] a.bucket(q).len() == b.bucket(q).len(),
        forall|q: usize, i: int|
            #![trigger a.bucket(q)[i]]
            0 <= i < a.bucket(q).len() ==> a.bucket(q)[i]@ == b.bucket(q)[i]@,
        forall|q: usize| #[trigger] a.scores(q) == b.scores(q),
        forall|id: u32| #[trigger] entry_view_of(a.resolve(id)) == entry_view_of(b.resolve(id)),
        a.next_id == b.next_id,
        a.evictions == b.evictions,
{
    reveal(cache_content);
    assert forall|q: usize| #[trigger] state_views(a.bucket(q)) == state_views(b.bucket(q)) by {
        assert(cache_content(a).states[q] == cache_content(b).states[q]);
    }
    assert forall|q: usize| #![trigger a.bucket(q)] a.bucket(q).len() == b.bucket(q).len() by {
        assert(state_views(a.bucket(q)).len() == state_views(b.bucket(q)).len());
    }
    assert forall|q: usize, i: int|
        #![trigger a.bucket(q)[i]]
        0 <= i < a.bucket(q).len() implies a.bucket(q)[i]@ == b.bucket(q)[i]@ by {
        assert(state_views(a.bucket(q))[i] == a.bucket(q)[i]@);
        assert(state_views(b.bucket(q))[i] == b.bucket(q)[i]@);
    }
    assert forall|q: usize| #[trigger] a.scores(q) == b.scores(q) by {
        assert(cache_content(a).scores[q] == cache_content(b).scores[q]);
    }
    assert forall|id: u32| #[trigger] entry_view_of(a.resolve(id)) == entry_view_of(
        b.resolve(id),
    ) by {
        assert(cache_content(a).by_id[id] == cache_content(b).by_id[id]);
    }
}

/// Runs that agree in all they hold have the same contents.
pub proof fn lemma_same_env(a: VerifierEnv, b: VerifierEnv)
    requires
        *a.ctx == *b.ctx,
        cache_content(a.cache@) == cache_content(b.cache@),
        a.insn_aux@ == b.insn_aux@,
        a.counters == b.counters,
        a.saw_active_state_at_check == b.saw_active_state_at_check,
        failure_content(a.error) == failure_content(b.error),
        a.replay_mode == b.replay_mode,
        a.bcf_enabled == b.bcf_enabled,
        a.kernel_faithful_alu == b.kernel_faithful_alu,
        a.analyzing_exception_cb == b.analyzing_exception_cb,
        a.bcf_path_unreachable == b.bcf_path_unreachable,
        bundle_content(a.bcf_proofs@) == bundle_content(b.bcf_proofs@),
        a.bcf_size_reg == b.bcf_size_reg,
        a.current_step_idx == b.current_step_idx,
        history_content(a.history@) == history_content(b.history@),
        a.iter_pcs@ == b.iter_pcs@,
        certificate_content(a.certificate) == certificate_content(b.certificate),
    ensures
        env_content(a) == env_content(b),
{
    reveal(env_content);
}

/// Runs with the same contents agree in all they hold.
pub proof fn lemma_env_read(a: VerifierEnv, b: VerifierEnv)
    requires
        env_content(a) == env_content(b),
    ensures
        *a.ctx == *b.ctx,
        cache_content(a.cache@) == cache_content(b.cache@),
        a.insn_aux@ == b.insn_aux@,
        a.counters == b.counters,
        a.saw_active_state_at_check == b.saw_active_state_at_check,
        failure_content(a.error) == failure_content(b.error),
        a.replay_mode == b.replay_mode,
        a.bcf_enabled == b.bcf_enabled,
        a.kernel_faithful_alu == b.kernel_faithful_alu,
        a.analyzing_exception_cb == b.analyzing_exception_cb,
        a.bcf_path_unreachable == b.bcf_path_unreachable,
        bundle_content(a.bcf_proofs@) == bundle_content(b.bcf_proofs@),
        a.bcf_size_reg == b.bcf_size_reg,
        a.current_step_idx == b.current_step_idx,
        history_content(a.history@) == history_content(b.history@),
        a.iter_pcs@ == b.iter_pcs@,
        certificate_content(a.certificate) == certificate_content(b.certificate),
        a.error is Some == b.error is Some,
{
    reveal(env_content);
    reveal(failure_content);
    assert(env_content(a).cache == env_content(b).cache);
}

/// Runs with the same contents still have them after the same failure.
pub proof fn lemma_same_failure(a: VerifierEnv, b: VerifierEnv, error: Option<VerificationError>)
    requires
        env_content(a) == env_content(b),
    ensures
        env_content(VerifierEnv { error, ..a }) == env_content(VerifierEnv { error, ..b }),
{
    lemma_env_read(a, b);
    lemma_same_env(VerifierEnv { error, ..a }, VerifierEnv { error, ..b });
}

/// Runs with the same contents still have them with caches of the same contents.
pub proof fn lemma_same_with_cache(a: VerifierEnv, b: VerifierEnv, c: StateCache, d: StateCache)
    requires
        env_content(a) == env_content(b),
        cache_content(c@) == cache_content(d@),
    ensures
        env_content(VerifierEnv { cache: c, ..a }) == env_content(VerifierEnv { cache: d, ..b }),
{
    lemma_env_read(a, b);
    lemma_same_env(VerifierEnv { cache: c, ..a }, VerifierEnv { cache: d, ..b });
}

/// States with the same contents, one by one.
pub proof fn lemma_views_read(a: Seq<State>, b: Seq<State>)
    requires
        state_views(a) == state_views(b),
    ensures
        a.len() == b.len(),
        forall|i: int| #![trigger a[i]] #![trigger b[i]] 0 <= i < a.len() ==> a[i]@ == b[i]@,
{
    assert(state_views(a).len() == a.len());
    assert(state_views(b).len() == b.len());
    assert forall|i: int|
        #![trigger a[i]]
        #![trigger b[i]]
        0 <= i < a.len() implies a[i]@ == b[i]@ by {
        assert(state_views(a)[i] == a[i]@);
        assert(state_views(b)[i] == b[i]@);
    }
}

/// States that have the same contents one by one.
pub proof fn lemma_same_views(a: Seq<State>, b: Seq<State>)
    requires
        a.len() == b.len(),
        forall|i: int| 0 <= i < a.len() ==> (#[trigger] a[i])@ == b[i]@,
    ensures
        state_views(a) == state_views(b),
{
    assert forall|i: int| 0 <= i < a.len() implies #[trigger] state_views(a)[i] == state_views(
        b,
    )[i] by {
        assert(a[i]@ == b[i]@);
    }
    assert(state_views(a) =~= state_views(b));
}

/// States with the same contents were reached through the same calls.
pub proof fn lemma_same_callsites(a: State, b: State)
    requires
        a@ == b@,
    ensures
        callsites(a) == callsites(b),
        a.frames@.len() == b.frames@.len(),
        forall|i: int|
            #![trigger a.frames@[i]]
            0 <= i < a.frames@.len() ==> a.frames@[i]@ == b.frames@[i]@ && a.frames@[i].return_pc
                == b.frames@[i].return_pc && a.frames@[i].active_iterators
                == b.frames@[i].active_iterators,
{
    assert(frame_views(a.frames@) == frame_views(b.frames@));
    assert(frame_views(a.frames@).len() == frame_views(b.frames@).len());
    assert forall|i: int| #![trigger a.frames@[i]] 0 <= i < a.frames@.len() implies a.frames@[i]@
        == b.frames@[i]@ && a.frames@[i].return_pc == b.frames@[i].return_pc
        && a.frames@[i].active_iterators == b.frames@[i].active_iterators by {
        assert(frame_views(a.frames@)[i] == frame_views(b.frames@)[i]);
    }
    assert(callsites(a) =~= callsites(b));
}

/// Lineages are read off contents.
pub proof fn lemma_same_ancestor(a: CacheData, b: CacheData, first: Option<u32>, k: nat)
    requires
        cache_content(a) == cache_content(b),
    ensures
        nth_ancestor(a, first, k) == nth_ancestor(b, first, k),
    decreases k,
{
    if k > 0 {
        lemma_same_ancestor(a, b, first, (k - 1) as nat);
        lemma_cache_read(a, b);
        match nth_ancestor(a, first, (k - 1) as nat) {
            Some(id) => {
                assert(entry_view_of(a.resolve(id)) == entry_view_of(b.resolve(id)));
            },
            None => {},
        }
    }
}

}
