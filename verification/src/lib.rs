use vstd::prelude::*;

pub mod analysis;
pub mod analysis_laws;
pub mod ast;
pub mod symbolic;
pub mod trace;
pub mod trace_laws;
pub mod unreachable;
pub mod branch;
pub mod branch_laws;
pub mod cache;
pub mod arith;
pub mod attach_laws;
pub mod attach_rules;
pub mod contents;
pub mod ctx_laws;
pub mod ctx_model;
pub mod emit;
pub mod emit_laws;
pub mod engine;
pub mod env;
pub mod proof_laws;
pub mod prune_laws;
pub mod pruning;
pub mod record;
pub mod refine_map;
pub mod replay;
pub mod replay_meaning;
pub mod behaviour;
pub mod same_scans;
pub mod same_arrivals;
pub mod same_steps;
pub mod same_runs;
pub mod same_results;
pub mod ladder_laws;
pub mod machine;
pub mod meaning;
pub mod text;
pub mod vectors;
pub mod whole_runs;
pub mod worklist;
pub mod worklist_laws;

verus! {

}
