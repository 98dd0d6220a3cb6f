//! Whole-program analysis: the checks before the exploration, the state it starts
//! in, and what comes out of it.

use vstd::prelude::*;

use std::collections::HashMap;

use crate::ast::{Program, ProgramKind, Reg};
use crate::engine::Engine;
use crate::env::{
    starts_blank, Certificate, DomainMode, ExecContext, InsnAux, RefineEntry, Reloc, RelocKind,
    SpecialFieldKind, VerifierConfig, VerifierEnv,
};
use crate::machine::{
    Dbm, EntryArg, NumericDomain, PtrFlags, RegType, State, StateView, VerificationError,
};
use crate::symbolic::{SymbolicState, SymbolicView};
use crate::text::{as_slice, opt_is, str_eq, text_of};
use crate::worklist::run_worklist;

verus! {

// ---------------------------------------------------------------------------
// Certificates
// ---------------------------------------------------------------------------

/// The certificate that a run uses: the given one, if it names this program by
/// its hash and fits it.
pub open spec fn accepted(
    cert: Option<Certificate>,
    hash: Seq<char>,
    fits: bool,
) -> Option<Certificate> {
    match cert {
        Some(c) => if c.program_hash@ == hash && fits {
            Some(c)
        } else {
            None
        },
        None => None,
    }
}

/// The certificate that a run uses.
pub fn accept_certificate(cert: Option<Certificate>, hash: &str, fits: bool) -> (r: Option<
    Certificate,
>)
    ensures
        r == accepted(cert, hash@, fits),
{
    match cert {
        Some(c) => {
            if fits && str_eq(c.program_hash.as_str(), hash) {
                Some(c)
            } else {
                None
            }
        },
        None => None,
    }
}

/// Asks the engine which certificate a run uses.
pub fn choose_certificate<E: Engine>(
    engine: &E,
    prog: &Program,
    certificate: Option<Certificate>,
) -> (r: Option<Certificate>)
    ensures
        match certificate {
            Some(c) => exists|hash: String, fits: bool|
                {
                    &&& #[trigger] call_ensures(E::program_hash, (engine, prog), hash)
                    &&& #[trigger] call_ensures(E::validate_certificate, (engine, &c, prog), fits)
                    &&& r == accepted(certificate, hash@, fits)
                },
            None => r is None,
        },
{
    match certificate {
        Some(c) => {
            let hash = engine.program_hash(prog);
            let fits = engine.validate_certificate(&c, prog);
            accept_certificate(Some(c), hash.as_str(), fits)
        },
        None => None,
    }
}

/// A certificate that is made for another program, or that does not fit, has no
/// part in a run.
pub proof fn law_certificates_fail_closed(cert: Option<Certificate>, hash: Seq<char>, fits: bool)
    requires
        !fits || (cert matches Some(c) && c.program_hash@ != hash),
    ensures
        accepted(cert, hash, fits) is None,
{
}

// ---------------------------------------------------------------------------
// Maps and program kinds
// ---------------------------------------------------------------------------

/// Whether programs of a kind trace the kernel.
pub open spec fn tracing_kind(kind: ProgramKind) -> bool {
    kind == ProgramKind::Kprobe || kind == ProgramKind::Tracepoint || kind
        == ProgramKind::RawTracepoint || kind == ProgramKind::RawTracepointWritable || kind
        == ProgramKind::PerfEvent
}

/// Whether programs of a kind trace the kernel.
pub fn is_tracing_kind(kind: ProgramKind) -> (r: bool)
    ensures
        r == tracing_kind(kind),
{
    matches!(
        kind,
        ProgramKind::Kprobe | ProgramKind::Tracepoint | ProgramKind::RawTracepoint
            | ProgramKind::RawTracepointWritable | ProgramKind::PerfEvent
    )
}

/// Whether an attach flavor is one of a tracing program.
pub open spec fn tracing_flavor(flavor: Option<Seq<char>>) -> bool {
    flavor matches Some(f) && (f == "kprobe"@ || f == "kretprobe"@ || f == "tracepoint"@ || f
        == "tp"@ || f == "raw_tracepoint"@ || f == "raw_tp"@ || f == "raw_tp.w"@ || f
        == "perf_event"@)
}

/// Whether a program traces the kernel, by its kind or by its attach flavor.
pub open spec fn traces(ctx: ExecContext) -> bool {
    tracing_kind(ctx.prog_kind) || tracing_flavor(text_of(ctx.attach_flavor))
}

/// Whether a program filters a socket.
pub open spec fn filters_socket(ctx: ExecContext) -> bool {
    ctx.prog_kind == ProgramKind::SocketFilter || text_of(ctx.attach_flavor) == Some("socket"@)
}

/// The name under which a managed field is refused: locks to tracing programs and
/// socket filters, the others to tracing programs only.
pub open spec fn refused_field(kind: SpecialFieldKind, tracing: bool, socket: bool) -> Option<
    &'static str,
> {
    match kind {
        SpecialFieldKind::SpinLock => if tracing || socket {
            Some("bpf_spin_lock")
        } else {
            None
        },
        SpecialFieldKind::ResSpinLock => if tracing || socket {
            Some("bpf_res_spin_lock")
        } else {
            None
        },
        SpecialFieldKind::Timer => if tracing {
            Some("bpf_timer")
        } else {
            None
        },
        SpecialFieldKind::ListHead => if tracing {
            Some("bpf_list_head")
        } else {
            None
        },
        SpecialFieldKind::RbRoot => if tracing {
            Some("bpf_rb_root")
        } else {
            None
        },
        SpecialFieldKind::Other => None,
    }
}

fn refused_field_name(kind: SpecialFieldKind, tracing: bool, socket: bool) -> (r: Option<
    &'static str,
>)
    ensures
        r == refused_field(kind, tracing, socket),
{
    match kind {
        SpecialFieldKind::SpinLock => if tracing || socket {
            Some("bpf_spin_lock")
        } else {
            None
        },
        SpecialFieldKind::ResSpinLock => if tracing || socket {
            Some("bpf_res_spin_lock")
        } else {
            None
        },
        SpecialFieldKind::Timer => if tracing {
            Some("bpf_timer")
        } else {
            None
        },
        SpecialFieldKind::ListHead => if tracing {
            Some("bpf_list_head")
        } else {
            None
        },
        SpecialFieldKind::RbRoot => if tracing {
            Some("bpf_rb_root")
        } else {
            None
        },
        SpecialFieldKind::Other => None,
    }
}

/// The first refused field of a map's value.
pub open spec fn first_refused(
    fields: Seq<SpecialFieldKind>,
    tracing: bool,
    socket: bool,
) -> Option<&'static str>
    decreases fields.len(),
{
    if fields.len() == 0 {
        None
    } else {
        match refused_field(fields[0], tracing, socket) {
            Some(name) => Some(name),
            None => first_refused(fields.skip(1), tracing, socket),
        }
    }
}

fn find_refused(fields: &Vec<SpecialFieldKind>, tracing: bool, socket: bool) -> (r: Option<
    &'static str,
>)
    ensures
        r == first_refused(fields@, tracing, socket),
{
    let mut i: usize = 0;
    assert(fields@.skip(0) =~= fields@);
    while i < fields.len()
        invariant
            i <= fields@.len(),
            first_refused(fields@.skip(i as int), tracing, socket) == first_refused(
                fields@,
                tracing,
                socket,
            ),
        decreases fields@.len() - i,
    {
        assert(fields@.skip(i as int)[0] == fields@[i as int]);
        assert(fields@.skip(i as int).skip(1) =~= fields@.skip(i + 1));
        match refused_field_name(fields[i], tracing, socket) {
            Some(name) => {
                return Some(name);
            },
            None => {},
        }
        i += 1;
    }
    None
}

/// What a program is refused for in the map that a relocation refers to.
pub open spec fn refused_by(ctx: ExecContext, reloc: Reloc) -> Option<&'static str> {
    if (reloc.kind == RelocKind::MapPtr || reloc.kind == RelocKind::MapValue) && reloc.map_idx
        < ctx.map_defs@.len() {
        match ctx.map_defs@[reloc.map_idx as int].special_fields {
            Some(fields) => first_refused(fields@, traces(ctx), filters_socket(ctx)),
            None => None,
        }
    } else {
        None
    }
}

/// Whether an error names a map that a program uses and a field of its value that
/// the program is refused for.
pub open spec fn names_refused(ctx: ExecContext, err: VerificationError, reloc: Reloc) -> bool {
    err matches VerificationError::MapProgIncompat { map_name, field, kind } && refused_by(
        ctx,
        reloc,
    ) == Some(field) && map_name@ == ctx.map_defs@[reloc.map_idx as int].name@ && kind
        == ctx.prog_kind
}

/// Checks that a program may use the maps it refers to. There is an error exactly
/// where some map is refused, and it names one of these.
pub fn check_map_prog_compatibility(ctx: &ExecContext) -> (r: Option<VerificationError>)
    ensures
        match r {
            Some(err) => exists|i: int|
                0 <= i < ctx.relocs@.len() && names_refused(*ctx, err, #[trigger] ctx.relocs@[i]),
            None => forall|i: int|
                0 <= i < ctx.relocs@.len() ==> refused_by(*ctx, #[trigger] ctx.relocs@[i]) is None,
        },
{
    let flavor = as_slice(&ctx.attach_flavor);
    let tracing = is_tracing_kind(ctx.prog_kind) || opt_is(flavor, "kprobe") || opt_is(
        flavor,
        "kretprobe",
    ) || opt_is(flavor, "tracepoint") || opt_is(flavor, "tp") || opt_is(flavor, "raw_tracepoint")
        || opt_is(flavor, "raw_tp") || opt_is(flavor, "raw_tp.w") || opt_is(flavor, "perf_event");
    let socket = ctx.prog_kind == ProgramKind::SocketFilter || opt_is(flavor, "socket");
    assert(tracing == traces(*ctx));
    assert(socket == filters_socket(*ctx));
    let mut i: usize = 0;
    while i < ctx.relocs.len()
        invariant
            i <= ctx.relocs@.len(),
            tracing == traces(*ctx),
            socket == filters_socket(*ctx),
            forall|j: int|
                0 <= j < i ==> refused_by(*ctx, #[trigger] ctx.relocs@[j]) is None,
        decreases ctx.relocs@.len() - i,
    {
        let reloc = ctx.relocs[i];
        if (reloc.kind == RelocKind::MapPtr || reloc.kind == RelocKind::MapValue)
            && reloc.map_idx < ctx.map_defs.len() {
            let def = &ctx.map_defs[reloc.map_idx];
            match &def.special_fields {
                Some(fields) => match find_refused(fields, tracing, socket) {
                    Some(field) => {
                        let err = VerificationError::MapProgIncompat {
                            map_name: def.name.clone(),
                            field,
                            kind: ctx.prog_kind,
                        };
                        assert(names_refused(*ctx, err, ctx.relocs@[i as int]));
                        return Some(err);
                    },
                    None => {},
                },
                None => {},
            }
        }
        i += 1;
    }
    None
}

/// Whether a program runs on a private stack: members of `struct_ops` types only
/// where they ask for it.
pub open spec fn private_stack(ctx: ExecContext, config: VerifierConfig) -> bool {
    config.enable_private_stack && (ctx.prog_kind != ProgramKind::StructOps
        || ctx.priv_stack_requested)
}

/// Whether a program runs on a private stack.
pub fn uses_private_stack(ctx: &ExecContext, config: &VerifierConfig) -> (r: bool)
    ensures
        r == private_stack(*ctx, *config),
{
    config.enable_private_stack && match ctx.prog_kind {
        ProgramKind::StructOps => ctx.priv_stack_requested,
        _ => true,
    }
}

// ---------------------------------------------------------------------------
// The entry state
// ---------------------------------------------------------------------------

/// The numeric abstraction that an analysis starts with. Zones keep track of
/// where their constraints come from where proofs are read or written.
pub open spec fn initial_domain(mode: DomainMode, dbm: Dbm, with_proofs: bool) -> NumericDomain {
    match mode {
        DomainMode::Zone => NumericDomain::Zone(
            Dbm { provenance: dbm.provenance || with_proofs, ..dbm },
        ),
        DomainMode::Interval => NumericDomain::Interval(0),
    }
}

/// The numeric abstraction that an analysis starts with.
pub fn make_initial_domain(mode: DomainMode, dbm: Dbm, with_proofs: bool) -> (r: NumericDomain)
    ensures
        r == initial_domain(mode, dbm, with_proofs),
{
    match mode {
        DomainMode::Zone => {
            let mut d = dbm;
            if with_proofs {
                d.provenance = true;
            }
            NumericDomain::Zone(d)
        },
        DomainMode::Interval => NumericDomain::Interval(0),
    }
}

/// The structure that a program of a kind receives as its context.
pub open spec fn ctx_struct(kind: ProgramKind) -> Option<&'static str> {
    match kind {
        ProgramKind::SchedCls
        | ProgramKind::SchedAct
        | ProgramKind::SocketFilter
        | ProgramKind::SkSkb
        | ProgramKind::CgroupSkb
        | ProgramKind::FlowDissector => Some("__sk_buff"),
        ProgramKind::Xdp => Some("xdp_md"),
        ProgramKind::SockOps => Some("bpf_sock_ops"),
        ProgramKind::CgroupSockAddr => Some("bpf_sock_addr"),
        ProgramKind::CgroupSockopt => Some("bpf_sockopt"),
        ProgramKind::CgroupSock => Some("bpf_sock"),
        ProgramKind::SkMsg => Some("sk_msg_md"),
        ProgramKind::SkLookup => Some("bpf_sk_lookup"),
        ProgramKind::SkReuseport => Some("sk_reuseport_md"),
        _ => None,
    }
}

fn ctx_struct_for_kind(kind: ProgramKind) -> (r: Option<&'static str>)
    ensures
        r == ctx_struct(kind),
{
    match kind {
        ProgramKind::SchedCls
        | ProgramKind::SchedAct
        | ProgramKind::SocketFilter
        | ProgramKind::SkSkb
        | ProgramKind::CgroupSkb
        | ProgramKind::FlowDissector => Some("__sk_buff"),
        ProgramKind::Xdp => Some("xdp_md"),
        ProgramKind::SockOps => Some("bpf_sock_ops"),
        ProgramKind::CgroupSockAddr => Some("bpf_sock_addr"),
        ProgramKind::CgroupSockopt => Some("bpf_sockopt"),
        ProgramKind::CgroupSock => Some("bpf_sock"),
        ProgramKind::SkMsg => Some("sk_msg_md"),
        ProgramKind::SkLookup => Some("bpf_sk_lookup"),
        ProgramKind::SkReuseport => Some("sk_reuseport_md"),
        _ => None,
    }
}

/// What a register holds for a declared argument. A pointer to the kind's context
/// structure is the context.
pub open spec fn arg_type(kind: ProgramKind, arg: EntryArg) -> RegType {
    match arg {
        EntryArg::Scalar => RegType::ScalarValue,
        EntryArg::BoundedScalar { lo, hi } => RegType::ScalarValue,
        EntryArg::TrustedRefcountedTask { ref_id } => RegType::PtrToTask { ref_id: Some(ref_id) },
        EntryArg::TrustedPtrBtfId { struct_name, nullable } => if ctx_struct(
            kind,
        ) matches Some(own) && own@ == struct_name@ {
            RegType::PtrToCtx
        } else {
            RegType::PtrToBtfId {
                struct_name,
                flags: PtrFlags { trusted: true, user: false, percpu: false },
                ref_id: None,
            }
        },
    }
}

/// What a register holds for a declared argument.
pub fn entry_arg_type(kind: ProgramKind, arg: &EntryArg) -> (r: RegType)
    ensures
        r == arg_type(kind, *arg),
{
    match *arg {
        EntryArg::Scalar => RegType::ScalarValue,
        EntryArg::BoundedScalar { .. } => RegType::ScalarValue,
        EntryArg::TrustedRefcountedTask { ref_id } => RegType::PtrToTask { ref_id: Some(ref_id) },
        EntryArg::TrustedPtrBtfId { struct_name, .. } => {
            let is_ctx = match ctx_struct_for_kind(kind) {
                Some(own) => str_eq(own, struct_name),
                None => false,
            };
            if is_ctx {
                RegType::PtrToCtx
            } else {
                RegType::PtrToBtfId {
                    struct_name,
                    flags: PtrFlags { trusted: true, user: false, percpu: false },
                    ref_id: None,
                }
            }
        },
    }
}

/// The register of an argument.
pub open spec fn arg_reg(i: int) -> Reg {
    if i == 0 {
        Reg::R1
    } else if i == 1 {
        Reg::R2
    } else if i == 2 {
        Reg::R3
    } else if i == 3 {
        Reg::R4
    } else {
        Reg::R5
    }
}

/// A state whose argument registers hold the first `n` declared arguments.
pub open spec fn with_args(v: StateView, kind: ProgramKind, args: Seq<EntryArg>, n: nat) -> StateView
    decreases n,
{
    if n == 0 {
        v
    } else {
        with_args(v, kind, args, (n - 1) as nat).with_type(
            arg_reg(n - 1),
            arg_type(kind, args[n - 1]),
        )
    }
}

/// How many arguments are passed in registers.
pub open spec fn passed_args(args: Seq<EntryArg>) -> nat {
    if args.len() < 5 {
        args.len()
    } else {
        5
    }
}

/// The references that are held on entry, each once.
pub open spec fn held_refs(args: Seq<EntryArg>) -> Seq<u32>
    decreases args.len(),
{
    if args.len() == 0 {
        Seq::empty()
    } else {
        let rest = held_refs(args.drop_last());
        match args.last() {
            EntryArg::TrustedRefcountedTask { ref_id } => if rest.contains(ref_id) {
                rest
            } else {
                rest.push(ref_id)
            },
            _ => rest,
        }
    }
}

/// The state before any declaration counts: the context in the first register,
/// the stack in the last.
pub open spec fn plain_entry(domain: NumericDomain, pc: usize, first: RegType) -> StateView {
    StateView::initial(domain, pc).with_type(Reg::R1, first).with_type(
        Reg::R10,
        RegType::PtrToStack { frame_level: 0 },
    )
}

/// The state in which a program starts. A program that takes the place of a
/// function gets that function's arguments instead of the context. Tracing
/// programs start inside a read-side critical section. References among the
/// arguments are held.
pub open spec fn entry_view(ctx: ExecContext, bcf_enabled: bool, domain: NumericDomain) -> StateView {
    let v0 = StateView {
        bcf: if bcf_enabled {
            Some(SymbolicView::fresh(false))
        } else {
            None
        },
        ..plain_entry(domain, 0, RegType::PtrToCtx)
    };
    let v1 = match ctx.freplace_arg_types {
        Some(args) => with_args(
            v0.with_type(Reg::R1, RegType::NotInit),
            ctx.prog_kind,
            args@,
            passed_args(args@),
        ),
        None => v0,
    };
    let v2 = if tracing_kind(ctx.prog_kind) {
        StateView { rcu_depth: 1, implicit_rcu_at_entry: true, ..v1 }
    } else {
        v1
    };
    match ctx.entry_args {
        Some(args) => StateView { active_refs: held_refs(args@), ..v2 },
        None => v2,
    }
}

fn collect_held_refs(args: &Vec<EntryArg>) -> (r: Vec<u32>)
    ensures
        r@ == held_refs(args@),
{
    let mut out: Vec<u32> = Vec::new();
    let mut i: usize = 0;
    assert(args@.take(0) =~= Seq::<EntryArg>::empty());
    while i < args.len()
        invariant
            i <= args@.len(),
            out@ == held_refs(args@.take(i as int)),
        decreases args@.len() - i,
    {
        proof {
            assert(args@.take(i + 1).drop_last() =~= args@.take(i as int));
        }
        match args[i] {
            EntryArg::TrustedRefcountedTask { ref_id } => {
                let mut held = false;
                let mut k: usize = 0;
                while k < out.len()
                    invariant
                        k <= out@.len(),
                        held == exists|j: int| 0 <= j < k && out@[j] == ref_id,
                    decreases out@.len() - k,
                {
                    if out[k] == ref_id {
                        held = true;
                    }
                    k += 1;
                }
                assert(held == out@.contains(ref_id));
                if !held {
                    out.push(ref_id);
                }
            },
            _ => {},
        }
        i += 1;
    }
    assert(args@.take(i as int) =~= args@);
    out
}

/// The state in which a program starts.
pub fn entry_state(ctx: &ExecContext, bcf_enabled: bool, domain: NumericDomain) -> (r: State)
    ensures
        r@ == entry_view(*ctx, bcf_enabled, domain),
{
    let mut state = State::new(domain, 0);
    state.set_type(Reg::R1, RegType::PtrToCtx);
    state.set_type(Reg::R10, RegType::PtrToStack { frame_level: 0 });
    if bcf_enabled {
        state.bcf = Some(SymbolicState::new(false));
    }
    match &ctx.freplace_arg_types {
        Some(args) => {
            state.set_type(Reg::R1, RegType::NotInit);
            let ghost v = state@;
            let regs: [Reg; 5] = [Reg::R1, Reg::R2, Reg::R3, Reg::R4, Reg::R5];
            let n: usize = if args.len() < 5 {
                args.len()
            } else {
                5
            };
            let mut i: usize = 0;
            while i < n
                invariant
                    i <= n,
                    n <= 5,
                    n <= args@.len(),
                    regs@ == seq![Reg::R1, Reg::R2, Reg::R3, Reg::R4, Reg::R5],
                    state@ == with_args(v, ctx.prog_kind, args@, i as nat),
                decreases n - i,
            {
                let ty = entry_arg_type(ctx.prog_kind, &args[i]);
                state.set_type(regs[i], ty);
                assert(regs@[i as int] == arg_reg(i as int));
                i += 1;
            }
        },
        None => {},
    }
    if is_tracing_kind(ctx.prog_kind) {
        state.rcu_depth = 1;
        state.implicit_rcu_at_entry = true;
    }
    match &ctx.entry_args {
        Some(args) => {
            state.active_refs = collect_held_refs(args);
        },
        None => {},
    }
    state
}

/// The state in which an exception callback starts: any number as its argument.
pub fn exception_entry_state(domain: NumericDomain, pc: usize) -> (r: State)
    ensures
        r@ == plain_entry(domain, pc, RegType::ScalarValue),
{
    let mut state = State::new(domain, pc);
    state.set_type(Reg::R1, RegType::ScalarValue);
    state.set_type(Reg::R10, RegType::PtrToStack { frame_level: 0 });
    state
}

// ---------------------------------------------------------------------------
// The analysis
// ---------------------------------------------------------------------------

/// What an analysis gives: for each instruction the matrix of the oldest state
/// cached there, all cached states, and the error that ended it, if any.
pub struct AnalysisResult {
    pub dbms: Vec<Dbm>,
    pub explored_states: HashMap<usize, Vec<State>>,
    pub error: Option<VerificationError>,
    /// The proofs that were collected, also where the analysis failed: each
    /// stands for itself.
    pub bundle: Vec<RefineEntry>,
    pub stats: RunStats,
}

/// What a run has done.
#[derive(Clone, Copy, Debug, PartialEq, Eq, Structural)]
pub struct RunStats {
    pub insn_processed: usize,
    pub pruned: usize,
    /// States that left a full bucket.
    pub evictions: usize,
}

/// The matrix of the oldest state cached at `pc`; the one without constraints
/// where there is none.
pub open spec fn dbm_at(explored: Map<usize, Vec<State>>, pc: usize) -> Dbm {
    if explored.contains_key(pc) && explored[pc]@.len() > 0 {
        match explored[pc]@[0].domain {
            NumericDomain::Zone(dbm) => dbm,
            NumericDomain::Interval(k) => Dbm::spec_new(),
        }
    } else {
        Dbm::spec_new()
    }
}

/// The matrices of the oldest cached states, one for each instruction.
pub fn collect_dbms(explored: &HashMap<usize, Vec<State>>, n: usize) -> (r: Vec<Dbm>)
    ensures
        r@.len() == n,
        forall|i: int| 0 <= i < n ==> #[trigger] r@[i] == dbm_at(explored@, i as usize),
{
    let mut out: Vec<Dbm> = Vec::new();
    let mut i: usize = 0;
    while i < n
        invariant
            i <= n,
            out@.len() == i,
            forall|j: int| 0 <= j < i ==> #[trigger] out@[j] == dbm_at(explored@, j as usize),
        decreases n - i,
    {
        let dbm = match explored.get(&i) {
            Some(states) => {
                if states.len() > 0 {
                    match states[0].domain {
                        NumericDomain::Zone(d) => d,
                        NumericDomain::Interval(_) => Dbm::new(),
                    }
                } else {
                    Dbm::new()
                }
            },
            None => Dbm::new(),
        };
        out.push(dbm);
        i += 1;
    }
    out
}

/// Whether the engine may have refused the division of a program into functions,
/// or its need of stack, with `err`; or neither.
pub open spec fn may_refuse<E: Engine>(
    engine: E,
    ctx: ExecContext,
    prog: Program,
    config: VerifierConfig,
    err: Option<VerificationError>,
) -> bool {
    let stack = private_stack(ctx, config);
    match err {
        Some(VerificationError::SubprogError { e }) => call_ensures(
            E::check_subprogs,
            (&engine, &prog),
            Err::<(), String>(e),
        ) || (call_ensures(E::check_subprogs, (&engine, &prog), Ok::<(), String>(()))
            && call_ensures(
            E::check_stack_overflow,
            (&engine, &prog, ctx.prog_kind, stack),
            Err::<(), String>(e),
        )),
        Some(_) => false,
        None => call_ensures(E::check_subprogs, (&engine, &prog), Ok::<(), String>(()))
            && call_ensures(
            E::check_stack_overflow,
            (&engine, &prog, ctx.prog_kind, stack),
            Ok::<(), String>(()),
        ),
    }
}

/// Has the engine check the division of a program into functions and its need of
/// stack.
pub fn check_structure<E: Engine>(
    engine: &E,
    ctx: &ExecContext,
    prog: &Program,
    config: &VerifierConfig,
) -> (r: Option<VerificationError>)
    ensures
        may_refuse(*engine, *ctx, *prog, *config, r),
{
    match engine.check_subprogs(prog) {
        Err(e) => {
            return Some(VerificationError::SubprogError { e });
        },
        Ok(unit) => {
            assert(unit == ());
        },
    }
    let stack = uses_private_stack(ctx, config);
    match engine.check_stack_overflow(prog, ctx.prog_kind, stack) {
        Err(e) => Some(VerificationError::SubprogError { e }),
        Ok(unit) => {
            assert(unit == ());
            None
        },
    }
}

/// A result without any state.
pub open spec fn nothing_explored(r: AnalysisResult) -> bool {
    r.dbms@.len() == 0 && r.explored_states@ == Map::<usize, Vec<State>>::empty()
        && r.bundle@.len() == 0 && r.stats == (RunStats {
        insn_processed: 0,
        pruned: 0,
        evictions: 0,
    })
}

fn refused(err: VerificationError) -> (r: AnalysisResult)
    ensures
        nothing_explored(r),
        r.error == Some(err),
{
    AnalysisResult {
        dbms: Vec::new(),
        explored_states: HashMap::new(),
        error: Some(err),
        bundle: Vec::new(),
        stats: RunStats { insn_processed: 0, pruned: 0, evictions: 0 },
    }
}

/// Whether a program is refused for a map that it uses.
pub open spec fn map_refused(ctx: ExecContext) -> bool {
    exists|i: int| 0 <= i < ctx.relocs@.len() && refused_by(ctx, #[trigger] ctx.relocs@[i]) is Some
}

/// Runs the passes over a program whose findings an exploration needs: control
/// flow, liveness and, where they are wanted, loops. Returns why the control flow
/// is refused, if it is; then no other pass is run.
pub fn run_passes<E: Engine>(
    engine: &mut E,
    env: &mut VerifierEnv,
    prog: &Program,
    with_loops: bool,
) -> (failure: Option<String>)
    ensures
        *final(env) == (VerifierEnv { insn_aux: final(env).insn_aux, ..*old(env) }),
        exists|e1: &mut E, a1: &mut Vec<InsnAux>, reply: Result<(), String>|
            {
                &&& #[trigger] call_ensures(E::check_cfg, (e1, a1, prog), reply)
                &&& *e1 == *old(engine)
                &&& *a1 == old(env).insn_aux
                &&& match reply {
                    Err(text) => {
                        &&& failure == Some(text)
                        &&& *final(engine) == *final(e1)
                        &&& final(env).insn_aux == *final(a1)
                    },
                    Ok(unit) => {
                        &&& failure is None
                        &&& exists|e2: &mut E, a2: &mut Vec<InsnAux>|
                            {
                                &&& #[trigger] call_ensures(
                                    E::compute_liveness,
                                    (e2, a2, prog),
                                    (),
                                )
                                &&& *e2 == *final(e1)
                                &&& *a2 == *final(a1)
                                &&& final(env).insn_aux == *final(a2)
                                &&& if with_loops {
                                    exists|e3: &mut E|
                                        {
                                            &&& #[trigger] call_ensures(
                                                E::compute_scc,
                                                (e3, prog),
                                                (),
                                            )
                                            &&& *e3 == *final(e2)
                                            &&& *final(engine) == *final(e3)
                                        }
                                } else {
                                    *final(engine) == *final(e2)
                                }
                            }
                    },
                }
            },
{
    match engine.check_cfg(&mut env.insn_aux, prog) {
        Err(e) => {
            return Some(e);
        },
        Ok(_) => {},
    }
    engine.compute_liveness(&mut env.insn_aux, prog);
    if with_loops {
        engine.compute_scc(prog);
    }
    None
}

/// Whether a result is what a run has left behind.
pub open spec fn result_of(r: AnalysisResult, env: VerifierEnv, pruned: usize, n: nat) -> bool {
    &&& r.error == env.error
    &&& r.bundle == env.bcf_proofs
    &&& r.explored_states == env.cache@.explored
    &&& r.stats == (RunStats {
        insn_processed: env.counters.insn_processed,
        pruned,
        evictions: env.cache@.evictions,
    })
    &&& r.dbms@.len() == n
    &&& forall|i: int|
        0 <= i < n ==> #[trigger] r.dbms@[i] == dbm_at(r.explored_states@, i as usize)
}

/// Whether arithmetic is as precise as the kernel's own: with intervals only.
pub open spec fn is_kernel_faithful(config: VerifierConfig) -> bool {
    config.domain_mode == DomainMode::Interval
}

/// Whether an analysis reads or writes proofs.
pub open spec fn with_proofs(config: VerifierConfig, certificate: Option<Certificate>) -> bool {
    config.certificate_output is Some || config.certificate_input is Some || certificate is Some
}

/// Makes the domain of an entry state and explores every path from it.
pub fn explore_program<E: Engine>(
    engine: &mut E,
    env: VerifierEnv,
    prog: &Program,
    domain: NumericDomain,
    config: &VerifierConfig,
) -> (r: AnalysisResult)
    ensures
        exists|
            e1: &mut E,
            anchored: NumericDomain,
            e2: &mut E,
            v2: &mut VerifierEnv,
            initial: State,
            pruned: usize,
        |
            {
                &&& #[trigger] call_ensures(E::init_packet_anchors, (e1, domain), anchored)
                &&& *e1 == *old(engine)
                &&& #[trigger] call_ensures(
                    run_worklist::<E>,
                    (e2, v2, prog, config, initial),
                    pruned,
                )
                &&& *e2 == *final(e1)
                &&& *v2 == env
                &&& initial@ == entry_view(*env.ctx, config.bcf_enabled, anchored)
                &&& *final(engine) == *final(e2)
                &&& result_of(r, *final(v2), pruned, prog.instrs@.len())
            },
        env.counters.insn_processed == 0 ==> r.stats.pruned <= r.stats.insn_processed,
{
    let mut env = env;
    let anchored = engine.init_packet_anchors(domain);
    let initial = entry_state(env.ctx, config.bcf_enabled, anchored);
    let pruned: usize = run_worklist(engine, &mut env, prog, config, initial);
    let data = env.cache.into_data();
    let dbms = collect_dbms(&data.explored, prog.instrs.len());
    AnalysisResult {
        dbms,
        explored_states: data.explored,
        error: env.error,
        bundle: env.bcf_proofs,
        stats: RunStats {
            insn_processed: env.counters.insn_processed,
            pruned,
            evictions: data.evictions,
        },
    }
}

/// Analyzes a program with a numeric abstraction to start with and a certificate
/// that was accepted, if there is one. Where the program's structure is refused, or
/// the maps it uses, or its control flow, nothing is explored. Else every path from
/// its entry is explored, and what the run has left behind is given even where the
/// analysis fails.
pub fn analyze_from<E: Engine>(
    engine: &mut E,
    ctx: &ExecContext,
    prog: &Program,
    domain: NumericDomain,
    config: &VerifierConfig,
    certificate: Option<Certificate>,
) -> (r: AnalysisResult)
    ensures
        exists|refusal: Option<VerificationError>|
            {
                &&& #[trigger] may_refuse(*old(engine), *ctx, *prog, *config, refusal)
                &&& if refusal is Some {
                    &&& nothing_explored(r)
                    &&& r.error == refusal
                    &&& *final(engine) == *old(engine)
                } else if map_refused(*ctx) {
                    &&& nothing_explored(r)
                    &&& r.error is Some
                    &&& exists|i: int|
                        0 <= i < ctx.relocs@.len() && names_refused(
                            *ctx,
                            r.error->0,
                            #[trigger] ctx.relocs@[i],
                        )
                    &&& *final(engine) == *old(engine)
                } else {
                    exists|e1: &mut E, v1: &mut VerifierEnv, failure: Option<String>|
                        {
                            &&& starts_blank(
                                *v1,
                                *ctx,
                                *prog,
                                certificate,
                                is_kernel_faithful(*config),
                                config.bcf_enabled,
                            )
                            &&& #[trigger] call_ensures(
                                run_passes::<E>,
                                (e1, v1, prog, true),
                                failure,
                            )
                            &&& *e1 == *old(engine)
                            &&& match failure {
                                Some(text) => {
                                    &&& nothing_explored(r)
                                    &&& r.error == Some(VerificationError::CfgError(text))
                                    &&& *final(engine) == *final(e1)
                                },
                                None => exists|e2: &mut E, explored: VerifierEnv|
                                    {
                                        &&& #[trigger] call_ensures(
                                            explore_program::<E>,
                                            (e2, explored, prog, domain, config),
                                            r,
                                        )
                                        &&& *e2 == *final(e1)
                                        &&& explored == *final(v1)
                                        &&& *final(engine) == *final(e2)
                                    },
                            }
                        }
                }
            },
        nothing_explored(r) && r.error is Some || dbms_of(r, prog.instrs@.len()),
        map_refused(*ctx) ==> r.error is Some,
{
    let kernel_faithful = config.domain_mode == DomainMode::Interval;
    let mut env = VerifierEnv::new(ctx, prog, certificate, kernel_faithful, config.bcf_enabled);
    let refusal = check_structure(&*engine, ctx, prog, config);
    match refusal {
        Some(err) => {
            let ghost shown = Some(err);
            assert(may_refuse(*engine, *ctx, *prog, *config, shown));
            return refused(err);
        },
        None => {},
    }
    assert(may_refuse(*engine, *ctx, *prog, *config, None));
    match check_map_prog_compatibility(ctx) {
        Some(err) => {
            proof {
                let i = choose|i: int|
                    0 <= i < ctx.relocs@.len() && names_refused(*ctx, err, #[trigger] ctx.relocs@[i]);
                assert(refused_by(*ctx, ctx.relocs@[i]) is Some);
            }
            return refused(err);
        },
        None => {},
    }
    assert(!map_refused(*ctx));
    match run_passes(engine, &mut env, prog, true) {
        Some(text) => {
            return refused(VerificationError::CfgError(text));
        },
        None => {},
    }
    explore_program(engine, env, prog, domain, config)
}

/// Analyzes a program. The engine says whether the given certificate is used; the
/// numeric abstraction to start with is made from the entry matrix.
pub fn analyze_program_full<E: Engine>(
    engine: &mut E,
    ctx: &ExecContext,
    prog: &Program,
    entry_dbm: Dbm,
    config: &VerifierConfig,
    certificate: Option<Certificate>,
) -> (r: AnalysisResult)
    ensures
        exists|cert: Option<Certificate>, e: &mut E, domain: NumericDomain|
            {
                &&& #[trigger] call_ensures(
                    choose_certificate::<E>,
                    (&*old(engine), prog, certificate),
                    cert,
                )
                &&& #[trigger] call_ensures(
                    analyze_from::<E>,
                    (e, ctx, prog, domain, config, cert),
                    r,
                )
                &&& *e == *old(engine)
                &&& domain == initial_domain(
                    config.domain_mode,
                    entry_dbm,
                    with_proofs(*config, certificate),
                )
                &&& *final(engine) == *final(e)
            },
        nothing_explored(r) && r.error is Some || dbms_of(r, prog.instrs@.len()),
        map_refused(*ctx) ==> r.error is Some,
{
    let proofs = config.certificate_output.is_some() || config.certificate_input.is_some()
        || certificate.is_some();
    let cert = choose_certificate(&*engine, prog, certificate);
    let domain = make_initial_domain(config.domain_mode, entry_dbm, proofs);
    analyze_from(engine, ctx, prog, domain, config, cert)
}

/// Whether a result holds the matrices of its oldest cached states, one for each
/// of `n` instructions.
pub open spec fn dbms_of(r: AnalysisResult, n: nat) -> bool {
    &&& r.dbms@.len() == n
    &&& r.stats.pruned <= r.stats.insn_processed
    &&& forall|i: int|
        0 <= i < n ==> #[trigger] r.dbms@[i] == dbm_at(r.explored_states@, i as usize)
}

/// The matrices of a result, or its error.
pub open spec fn verdict(r: AnalysisResult) -> Result<Vec<Dbm>, VerificationError> {
    match r.error {
        Some(e) => Err(e),
        None => Ok(r.dbms),
    }
}

/// The matrices of a result, or its error.
pub fn into_verdict(r: AnalysisResult) -> (v: Result<Vec<Dbm>, VerificationError>)
    ensures
        v == verdict(r),
{
    match r.error {
        Some(e) => Err(e),
        None => Ok(r.dbms),
    }
}

/// Analyzes a program, and gives the matrices of its oldest cached states, one for
/// each instruction, or the error that ended the analysis.
pub fn analyze_program<E: Engine>(
    engine: &mut E,
    ctx: &ExecContext,
    prog: &Program,
    entry_dbm: Dbm,
    config: &VerifierConfig,
    certificate: Option<Certificate>,
) -> (v: Result<Vec<Dbm>, VerificationError>)
    ensures
        exists|e: &mut E, full: AnalysisResult|
            {
                &&& #[trigger] call_ensures(
                    analyze_program_full::<E>,
                    (e, ctx, prog, entry_dbm, config, certificate),
                    full,
                )
                &&& *e == *old(engine)
                &&& *final(engine) == *final(e)
                &&& v == verdict(full)
            },
        v matches Ok(dbms) ==> dbms@.len() == prog.instrs@.len(),
        map_refused(*ctx) ==> v is Err,
{
    into_verdict(analyze_program_full(engine, ctx, prog, entry_dbm, config, certificate))
}

/// Analyzes the body of an exception callback, which nothing calls, with a numeric
/// abstraction to start with. Gives the error that ended the analysis, if any. The
/// maps that the program uses are not looked at again, nor are its loops.
pub fn analyze_callback_from<E: Engine>(
    engine: &mut E,
    ctx: &ExecContext,
    prog: &Program,
    domain: NumericDomain,
    config: &VerifierConfig,
    cb_entry_pc: usize,
) -> (r: Option<VerificationError>)
    ensures
        exists|refusal: Option<VerificationError>|
            {
                &&& #[trigger] may_refuse(*old(engine), *ctx, *prog, *config, refusal)
                &&& if refusal is Some {
                    r == refusal && *final(engine) == *old(engine)
                } else {
                    exists|
                        blank: VerifierEnv,
                        e1: &mut E,
                        v1: &mut VerifierEnv,
                        failure: Option<String>,
                    |
                        {
                            &&& #[trigger] starts_blank(
                                blank,
                                *ctx,
                                *prog,
                                None,
                                is_kernel_faithful(*config),
                                config.bcf_enabled,
                            )
                            &&& #[trigger] call_ensures(
                                run_passes::<E>,
                                (e1, v1, prog, false),
                                failure,
                            )
                            &&& *e1 == *old(engine)
                            &&& *v1 == (VerifierEnv { analyzing_exception_cb: true, ..blank })
                            &&& match failure {
                                Some(text) => {
                                    &&& r == Some(VerificationError::CfgError(text))
                                    &&& *final(engine) == *final(e1)
                                },
                                None => exists|
                                    e2: &mut E,
                                    anchored: NumericDomain,
                                    e3: &mut E,
                                    v3: &mut VerifierEnv,
                                    initial: State,
                                    pruned: usize,
                                |
                                    {
                                        &&& #[trigger] call_ensures(
                                            E::init_packet_anchors,
                                            (e2, domain),
                                            anchored,
                                        )
                                        &&& *e2 == *final(e1)
                                        &&& #[trigger] call_ensures(
                                            run_worklist::<E>,
                                            (e3, v3, prog, config, initial),
                                            pruned,
                                        )
                                        &&& *e3 == *final(e2)
                                        &&& *v3 == *final(v1)
                                        &&& initial@ == plain_entry(
                                            anchored,
                                            cb_entry_pc,
                                            RegType::ScalarValue,
                                        )
                                        &&& *final(engine) == *final(e3)
                                        &&& r == final(v3).error
                                    },
                            }
                        }
                }
            },
        prog.invalid_pcs@.contains(cb_entry_pc) ==> r is Some,
{
    let kernel_faithful = config.domain_mode == DomainMode::Interval;
    let mut env = VerifierEnv::new(ctx, prog, None, kernel_faithful, config.bcf_enabled);
    let ghost blank = env;
    env.analyzing_exception_cb = true;
    let refusal = check_structure(&*engine, ctx, prog, config);
    match refusal {
        Some(err) => {
            let ghost shown = Some(err);
            assert(may_refuse(*engine, *ctx, *prog, *config, shown));
            return Some(err);
        },
        None => {},
    }
    assert(may_refuse(*engine, *ctx, *prog, *config, None));
    assert(starts_blank(blank, *ctx, *prog, None, is_kernel_faithful(*config), config.bcf_enabled));
    match run_passes(engine, &mut env, prog, false) {
        Some(text) => {
            return Some(VerificationError::CfgError(text));
        },
        None => {},
    }
    let anchored = engine.init_packet_anchors(domain);
    let initial = exception_entry_state(anchored, cb_entry_pc);
    let _ = run_worklist(engine, &mut env, prog, config, initial);
    env.error
}

/// Analyzes the body of an exception callback. Gives the error that ended the
/// analysis, if any. No certificate has a part in it.
pub fn analyze_exception_cb<E: Engine>(
    engine: &mut E,
    ctx: &ExecContext,
    prog: &Program,
    entry_dbm: Dbm,
    config: &VerifierConfig,
    cb_entry_pc: usize,
) -> (r: Option<VerificationError>)
    ensures
        exists|e: &mut E, domain: NumericDomain|
            {
                &&& #[trigger] call_ensures(
                    analyze_callback_from::<E>,
                    (e, ctx, prog, domain, config, cb_entry_pc),
                    r,
                )
                &&& *e == *old(engine)
                &&& domain == initial_domain(config.domain_mode, entry_dbm, false)
                &&& *final(engine) == *final(e)
            },
        prog.invalid_pcs@.contains(cb_entry_pc) ==> r is Some,
{
    let domain = make_initial_domain(config.domain_mode, entry_dbm, false);
    analyze_callback_from(engine, ctx, prog, domain, config, cb_entry_pc)
}

// ---------------------------------------------------------------------------
// Laws
// ---------------------------------------------------------------------------

/// A program starts with one frame, the stack pointer in its last register and no
/// checkpoint above it; one that takes no function's place finds its context in
/// the first register.
pub proof fn law_entry_state(ctx: ExecContext, bcf_enabled: bool, domain: NumericDomain)
    ensures
        ({
            let v = entry_view(ctx, bcf_enabled, domain);
            &&& v.pc == 0
            &&& v.frames.len() == 1
            &&& v.parent_cache_id is None
            &&& v.regs.len() == 11
            &&& v.regs[10].ty == (RegType::PtrToStack { frame_level: 0 })
            &&& v.bcf is Some <==> bcf_enabled
            &&& ctx.freplace_arg_types is None ==> v.regs[1].ty == RegType::PtrToCtx
            &&& v.implicit_rcu_at_entry == tracing_kind(ctx.prog_kind)
        }),
{
    match ctx.freplace_arg_types {
        Some(args) => {
            let v0 = StateView {
                bcf: if bcf_enabled {
                    Some(SymbolicView::fresh(false))
                } else {
                    None
                },
                ..plain_entry(domain, 0, RegType::PtrToCtx)
            };
            lemma_args_keep(
                v0.with_type(Reg::R1, RegType::NotInit),
                ctx.prog_kind,
                args@,
                passed_args(args@),
            );
        },
        None => {},
    }
}

proof fn lemma_args_keep(v: StateView, kind: ProgramKind, args: Seq<EntryArg>, n: nat)
    requires
        v.regs.len() == 11,
    ensures
        with_args(v, kind, args, n).regs.len() == 11,
        with_args(v, kind, args, n).regs[10] == v.regs[10],
        with_args(v, kind, args, n) == (StateView { regs: with_args(v, kind, args, n).regs, ..v }),
    decreases n,
{
    if n > 0 {
        lemma_args_keep(v, kind, args, (n - 1) as nat);
    }
}

/// On entry exactly the references of the declared arguments are held, each once.
pub proof fn law_held_references(args: Seq<EntryArg>, id: u32)
    ensures
        held_refs(args).contains(id) <==> exists|i: int|
            0 <= i < args.len() && #[trigger] args[i] == (EntryArg::TrustedRefcountedTask {
                ref_id: id,
            }),
        held_refs(args).no_duplicates(),
    decreases args.len(),
{
    if args.len() > 0 {
        let front = args.drop_last();
        law_held_references(front, id);
        let rest = held_refs(front);
        let all = held_refs(args);
        if exists|i: int|
            0 <= i < args.len() && #[trigger] args[i] == (EntryArg::TrustedRefcountedTask {
                ref_id: id,
            }) {
            let i = choose|i: int|
                0 <= i < args.len() && #[trigger] args[i] == (EntryArg::TrustedRefcountedTask {
                    ref_id: id,
                });
            if i < front.len() {
                assert(front[i] == args[i]);
                let k = choose|k: int| 0 <= k < rest.len() && rest[k] == id;
                assert(all[k] == id);
            } else if !rest.contains(id) {
                assert(all[rest.len() as int] == id);
            }
        }
        if all.contains(id) {
            let k = choose|k: int| 0 <= k < all.len() && all[k] == id;
            if k < rest.len() {
                assert(rest[k] == id);
                let i = choose|i: int|
                    0 <= i < front.len() && #[trigger] front[i] == (
                    EntryArg::TrustedRefcountedTask { ref_id: id });
                assert(args[i] == front[i]);
            } else {
                assert(args[args.len() - 1] == (EntryArg::TrustedRefcountedTask { ref_id: id }));
            }
        }
    }
}

/// With intervals a run starts in the same way whatever the entry matrix is and
/// whether proofs are read or written.
pub proof fn law_intervals_start_alike(a: Dbm, b: Dbm, proofs_a: bool, proofs_b: bool)
    ensures
        initial_domain(DomainMode::Interval, a, proofs_a) == initial_domain(
            DomainMode::Interval,
            b,
            proofs_b,
        ),
{
}

/// Whether the engine refuses a certificate for a program, whatever it answers: the
/// certificate names another program, or it does not fit.
pub open spec fn refuses_certificate<E: Engine>(
    engine: E,
    prog: Program,
    cert: Certificate,
) -> bool {
    forall|hash: String, fits: bool| #[trigger]
        call_ensures(E::program_hash, (&engine, &prog), hash) && #[trigger] call_ensures(
            E::validate_certificate,
            (&engine, &cert, &prog),
            fits,
        ) ==> cert.program_hash@ != hash@ || !fits
}

/// With intervals a run with a certificate that is refused is a run without one:
/// both are the same analysis, from the same abstraction, of the same program. A
/// certificate that is refused is no error.
pub proof fn law_refused_certificates_have_no_part<E: Engine>(
    engine: &mut E,
    ctx: ExecContext,
    prog: Program,
    entry_dbm: Dbm,
    config: VerifierConfig,
    certificate: Option<Certificate>,
    r: AnalysisResult,
)
    requires
        config.domain_mode == DomainMode::Interval,
        certificate matches Some(cert) ==> refuses_certificate(*engine, prog, cert),
        call_ensures(
            analyze_program_full::<E>,
            (engine, &ctx, &prog, entry_dbm, &config, certificate),
            r,
        ),
    ensures
        exists|e: &mut E|
            {
                &&& #[trigger] call_ensures(
                    analyze_from::<E>,
                    (e, &ctx, &prog, NumericDomain::Interval(0), &config, None::<Certificate>),
                    r,
                )
                &&& *e == *old(engine)
                &&& *final(e) == *final(engine)
            },
{
    let (cert, e, domain) = choose|cert: Option<Certificate>, e: &mut E, domain: NumericDomain|
        {
            &&& #[trigger] call_ensures(
                choose_certificate::<E>,
                (&*engine, &prog, certificate),
                cert,
            )
            &&& #[trigger] call_ensures(
                analyze_from::<E>,
                (e, &ctx, &prog, domain, &config, cert),
                r,
            )
            &&& *e == *engine
            &&& domain == initial_domain(
                config.domain_mode,
                entry_dbm,
                with_proofs(config, certificate),
            )
            &&& *final(engine) == *final(e)
        };
    assert(cert is None);
}

/// With intervals an exception callback is analyzed in the same way whatever the
/// entry matrix is.
pub proof fn law_callbacks_ignore_the_matrix<E: Engine>(
    engine: &mut E,
    ctx: ExecContext,
    prog: Program,
    entry_dbm: Dbm,
    config: VerifierConfig,
    cb_entry_pc: usize,
    r: Option<VerificationError>,
)
    requires
        config.domain_mode == DomainMode::Interval,
        call_ensures(
            analyze_exception_cb::<E>,
            (engine, &ctx, &prog, entry_dbm, &config, cb_entry_pc),
            r,
        ),
    ensures
        exists|e: &mut E|
            {
                &&& #[trigger] call_ensures(
                    analyze_callback_from::<E>,
                    (e, &ctx, &prog, NumericDomain::Interval(0), &config, cb_entry_pc),
                    r,
                )
                &&& *e == *old(engine)
                &&& *final(e) == *final(engine)
            },
{
    let (e, domain) = choose|e: &mut E, domain: NumericDomain|
        {
            &&& #[trigger] call_ensures(
                analyze_callback_from::<E>,
                (e, &ctx, &prog, domain, &config, cb_entry_pc),
                r,
            )
            &&& *e == *engine
            &&& domain == initial_domain(config.domain_mode, entry_dbm, false)
            &&& *final(engine) == *final(e)
        };
}

/// An analysis succeeds exactly where it has no error.
pub proof fn law_success_means_no_error(r: AnalysisResult)
    ensures
        verdict(r) is Ok <==> r.error is None,
        r.error matches Some(e) ==> verdict(r) == Err::<Vec<Dbm>, VerificationError>(e),
{
}

}
