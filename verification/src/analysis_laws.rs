//! What holds of whole analyses: which programs are refused before they are explored,
//! and how an exploration starts and ends.

use vstd::prelude::*;

use crate::analysis::{
    analyze_program, analyze_program_full, arg_reg, check_map_prog_compatibility,
    choose_certificate, entry_state, exception_entry_state, first_refused, law_held_references,
    make_initial_domain, map_refused, names_refused, passed_args, plain_entry, refused_by,
    refused_field, with_args, AnalysisResult,
};
use crate::ast::{Program, ProgramKind, Reg};
use crate::engine::Engine;
use crate::env::{
    Certificate, DomainMode, ExecContext, RelocKind, SpecialFieldKind, VerifierConfig,
};
use crate::machine::{Dbm, EntryArg, NumericDomain, RegType, State, StateView, VerificationError};
use crate::meaning::blank_table;
use crate::symbolic::SymbolicView;
use crate::text::text_of;

verus! {

// ---------------------------------------------------------------------------
// Maps
// ---------------------------------------------------------------------------

/// Whether a program runs in the middle of the kernel, by its kind or by the name of
/// its attach point.
pub open spec fn traces_kernel(ctx: ExecContext) -> bool {
    let kind = ctx.prog_kind;
    let at = text_of(ctx.attach_flavor);
    ||| kind == ProgramKind::Kprobe
    ||| kind == ProgramKind::Tracepoint
    ||| kind == ProgramKind::RawTracepoint
    ||| kind == ProgramKind::RawTracepointWritable
    ||| kind == ProgramKind::PerfEvent
    ||| at == Some("kprobe"@)
    ||| at == Some("kretprobe"@)
    ||| at == Some("tracepoint"@)
    ||| at == Some("tp"@)
    ||| at == Some("raw_tracepoint"@)
    ||| at == Some("raw_tp"@)
    ||| at == Some("raw_tp.w"@)
    ||| at == Some("perf_event"@)
}

/// Whether a program is a socket filter.
pub open spec fn socket_filter(ctx: ExecContext) -> bool {
    ctx.prog_kind == ProgramKind::SocketFilter || text_of(ctx.attach_flavor) == Some("socket"@)
}

/// Whether a field of a map's value is a lock.
pub open spec fn is_lock(field: SpecialFieldKind) -> bool {
    field == SpecialFieldKind::SpinLock || field == SpecialFieldKind::ResSpinLock
}

/// Whether a program must not use a map whose value holds a field: a tracing program
/// none that the kernel manages, a socket filter none with a lock.
pub open spec fn forbidden(ctx: ExecContext, field: SpecialFieldKind) -> bool {
    ||| traces_kernel(ctx) && (is_lock(field) || field == SpecialFieldKind::Timer || field
        == SpecialFieldKind::ListHead || field == SpecialFieldKind::RbRoot)
    ||| socket_filter(ctx) && is_lock(field)
}

/// The name of a managed field.
pub open spec fn field_name(field: SpecialFieldKind) -> Seq<char> {
    match field {
        SpecialFieldKind::SpinLock => "bpf_spin_lock"@,
        SpecialFieldKind::ResSpinLock => "bpf_res_spin_lock"@,
        SpecialFieldKind::Timer => "bpf_timer"@,
        SpecialFieldKind::ListHead => "bpf_list_head"@,
        SpecialFieldKind::RbRoot => "bpf_rb_root"@,
        SpecialFieldKind::Other => Seq::empty(),
    }
}

/// Whether a program uses a map, through its address or through its value.
pub open spec fn uses_map(ctx: ExecContext, map: int) -> bool {
    0 <= map < ctx.map_defs@.len() && exists|i: int|
        0 <= i < ctx.relocs@.len() && (#[trigger] ctx.relocs@[i]).map_idx == map && (
        ctx.relocs@[i].kind == RelocKind::MapPtr || ctx.relocs@[i].kind == RelocKind::MapValue)
}

/// Whether the value of a map holds a field that the program must not meet.
pub open spec fn holds_forbidden(ctx: ExecContext, map: int, k: int) -> bool {
    &&& ctx.map_defs@[map].special_fields matches Some(fields)
    &&& 0 <= k < fields@.len()
    &&& forbidden(ctx, fields@[k])
}

proof fn lemma_first_refused(fields: Seq<SpecialFieldKind>, tracing: bool, socket: bool)
    ensures
        first_refused(fields, tracing, socket) matches Some(name) ==> exists|k: int|
            0 <= k < fields.len() && refused_field(#[trigger] fields[k], tracing, socket) == Some(
                name,
            ),
        first_refused(fields, tracing, socket) is None ==> forall|k: int|
            0 <= k < fields.len() ==> refused_field(#[trigger] fields[k], tracing, socket) is None,
    decreases fields.len(),
{
    if fields.len() > 0 {
        let rest = fields.skip(1);
        lemma_first_refused(rest, tracing, socket);
        if refused_field(fields[0], tracing, socket) is None {
            match first_refused(rest, tracing, socket) {
                Some(name) => {
                    let k = choose|k: int|
                        0 <= k < rest.len() && refused_field(#[trigger] rest[k], tracing, socket)
                            == Some(name);
                    assert(fields[k + 1] == rest[k]);
                },
                None => {
                    assert forall|k: int| 0 <= k < fields.len() implies refused_field(
                        #[trigger] fields[k],
                        tracing,
                        socket,
                    ) is None by {
                        if k > 0 {
                            assert(rest[k - 1] == fields[k]);
                        }
                    }
                },
            }
        } else {
            assert(refused_field(fields[0], tracing, socket) is Some);
        }
    }
}

/// A program is refused for its maps exactly where it uses one whose value holds a
/// field that it must not meet: of the managed fields a tracing program must meet none,
/// and a socket filter no lock; other programs may meet all. The error names such a map
/// by its name and such a field by its own, and the kind of program.
pub proof fn law_forbidden_maps_are_refused(ctx: ExecContext, r: Option<VerificationError>)
    requires
        call_ensures(check_map_prog_compatibility, (&ctx,), r),
    ensures
        r is Some <==> exists|map: int, k: int|
            #[trigger] uses_map(ctx, map) && #[trigger] holds_forbidden(ctx, map, k),
        r matches Some(err) ==> exists|map: int, k: int|
            {
                &&& #[trigger] uses_map(ctx, map)
                &&& #[trigger] holds_forbidden(ctx, map, k)
                &&& err matches VerificationError::MapProgIncompat { map_name, field, kind }
                &&& map_name@ == ctx.map_defs@[map].name@
                &&& field@ == field_name(ctx.map_defs@[map].special_fields->0@[k])
                &&& kind == ctx.prog_kind
            },
{
    match r {
        Some(err) => {
            let i = choose|i: int|
                0 <= i < ctx.relocs@.len() && names_refused(ctx, err, #[trigger] ctx.relocs@[i]);
            let map = ctx.relocs@[i].map_idx as int;
            let fields = ctx.map_defs@[map].special_fields->0@;
            lemma_first_refused(fields, traces_kernel(ctx), socket_filter(ctx));
            let name = refused_by(ctx, ctx.relocs@[i])->0;
            let k = choose|k: int|
                0 <= k < fields.len() && refused_field(
                    #[trigger] fields[k],
                    traces_kernel(ctx),
                    socket_filter(ctx),
                ) == Some(name);
            assert(uses_map(ctx, map));
            assert(holds_forbidden(ctx, map, k));
        },
        None => {
            assert forall|map: int, k: int| #[trigger] uses_map(ctx, map) implies !(
            #[trigger] holds_forbidden(ctx, map, k)) by {
                lemma_forbidden_map(ctx, map, k);
            }
        },
    }
}

proof fn lemma_forbidden_map(ctx: ExecContext, map: int, k: int)
    requires
        uses_map(ctx, map),
    ensures
        holds_forbidden(ctx, map, k) ==> map_refused(ctx),
{
    let i = choose|i: int|
        0 <= i < ctx.relocs@.len() && (#[trigger] ctx.relocs@[i]).map_idx == map && (
        ctx.relocs@[i].kind == RelocKind::MapPtr || ctx.relocs@[i].kind == RelocKind::MapValue);
    if holds_forbidden(ctx, map, k) {
        let fields = ctx.map_defs@[map].special_fields->0@;
        lemma_first_refused(fields, traces_kernel(ctx), socket_filter(ctx));
        assert(refused_field(fields[k], traces_kernel(ctx), socket_filter(ctx)) is Some);
        assert(refused_by(ctx, ctx.relocs@[i]) is Some);
    }
}

/// A program that uses a map with a field that it must not meet is never accepted.
pub proof fn law_forbidden_maps_end_an_analysis<E: Engine>(
    engine: &mut E,
    ctx: ExecContext,
    prog: Program,
    entry_dbm: Dbm,
    config: VerifierConfig,
    certificate: Option<Certificate>,
    map: int,
    k: int,
    r: Result<Vec<Dbm>, VerificationError>,
)
    requires
        call_ensures(
            analyze_program::<E>,
            (engine, &ctx, &prog, entry_dbm, &config, certificate),
            r,
        ),
        uses_map(ctx, map),
        holds_forbidden(ctx, map, k),
    ensures
        r is Err,
{
    lemma_forbidden_map(ctx, map, k);
}

// ---------------------------------------------------------------------------
// Refusals by the engine
// ---------------------------------------------------------------------------

/// Whether a result holds no state, no matrix and no proof.
pub open spec fn empty_result(r: AnalysisResult) -> bool {
    r.dbms@.len() == 0 && r.bundle@.len() == 0 && r.stats.insn_processed == 0 && r.stats.pruned == 0
        && forall|pc: usize| !#[trigger] r.explored_states@.contains_key(pc)
}

/// Where the engine refuses a program's division into functions, or its need of stack,
/// nothing is explored, and the error says what the engine said. The stack is a private
/// one where private stacks are switched on, and for a `struct_ops` member only where
/// it asks for one.
pub proof fn law_refused_structures_are_not_explored<E: Engine>(
    engine: &mut E,
    ctx: ExecContext,
    prog: Program,
    entry_dbm: Dbm,
    config: VerifierConfig,
    certificate: Option<Certificate>,
    stack: bool,
    r: AnalysisResult,
)
    requires
        stack == (config.enable_private_stack && (ctx.prog_kind == ProgramKind::StructOps
            ==> ctx.priv_stack_requested)),
        call_ensures(
            analyze_program_full::<E>,
            (engine, &ctx, &prog, entry_dbm, &config, certificate),
            r,
        ),
        (forall|reply: Result<(), String>| #[trigger]
            call_ensures(E::check_subprogs, (&*engine, &prog), reply) ==> reply is Err) || (
        forall|reply: Result<(), String>| #[trigger]
            call_ensures(
                E::check_stack_overflow,
                (&*engine, &prog, ctx.prog_kind, stack),
                reply,
            ) ==> reply is Err),
    ensures
        empty_result(r),
        *final(engine) == *old(engine),
        r.error matches Some(VerificationError::SubprogError { e }) && (call_ensures(
            E::check_subprogs,
            (&*old(engine), &prog),
            Err::<(), String>(e),
        ) || call_ensures(
            E::check_stack_overflow,
            (&*old(engine), &prog, ctx.prog_kind, stack),
            Err::<(), String>(e),
        )),
{
}

/// A certificate is used exactly as it was given, and only where the engine computes the
/// hash that it names and finds that it fits; where the engine does both it is used.
pub proof fn law_certificates_are_used_as_given<E: Engine>(
    engine: E,
    prog: Program,
    given: Certificate,
    r: Option<Certificate>,
)
    requires
        call_ensures(choose_certificate::<E>, (&engine, &prog, Some(given)), r),
    ensures
        r is Some ==> r == Some(given) && (exists|hash: String| #[trigger]
            call_ensures(E::program_hash, (&engine, &prog), hash) && hash@ == given.program_hash@)
            && call_ensures(E::validate_certificate, (&engine, &given, &prog), true),
        (forall|hash: String| #[trigger]
            call_ensures(E::program_hash, (&engine, &prog), hash) ==> hash@ == given.program_hash@)
            && (forall|fits: bool| #[trigger]
            call_ensures(E::validate_certificate, (&engine, &given, &prog), fits) ==> fits)
            ==> r == Some(given),
{
}

// ---------------------------------------------------------------------------
// Beginnings and ends
// ---------------------------------------------------------------------------

/// The name of the structure that programs of a kind receive as their context.
pub open spec fn own_struct(kind: ProgramKind, name: Seq<char>) -> bool {
    let buffer = kind == ProgramKind::SchedCls || kind == ProgramKind::SchedAct || kind
        == ProgramKind::SocketFilter || kind == ProgramKind::SkSkb || kind == ProgramKind::CgroupSkb
        || kind == ProgramKind::FlowDissector;
    ||| buffer && name == "__sk_buff"@
    ||| kind == ProgramKind::Xdp && name == "xdp_md"@
    ||| kind == ProgramKind::SockOps && name == "bpf_sock_ops"@
    ||| kind == ProgramKind::CgroupSockAddr && name == "bpf_sock_addr"@
    ||| kind == ProgramKind::CgroupSockopt && name == "bpf_sockopt"@
    ||| kind == ProgramKind::CgroupSock && name == "bpf_sock"@
    ||| kind == ProgramKind::SkMsg && name == "sk_msg_md"@
    ||| kind == ProgramKind::SkLookup && name == "bpf_sk_lookup"@
    ||| kind == ProgramKind::SkReuseport && name == "sk_reuseport_md"@
}

/// Whether a register holds a declared argument of a function.
pub open spec fn holds_argument(ty: RegType, kind: ProgramKind, arg: EntryArg) -> bool {
    match arg {
        EntryArg::Scalar => ty == RegType::ScalarValue,
        EntryArg::BoundedScalar { lo, hi } => ty == RegType::ScalarValue,
        EntryArg::TrustedRefcountedTask { ref_id } => ty == (RegType::PtrToTask {
            ref_id: Some(ref_id),
        }),
        EntryArg::TrustedPtrBtfId { struct_name, nullable } => if own_struct(kind, struct_name@) {
            ty == RegType::PtrToCtx
        } else {
            ty matches RegType::PtrToBtfId { struct_name: s, flags, ref_id } && s == struct_name
                && flags.trusted && !flags.user && !flags.percpu && ref_id is None
        },
    }
}

proof fn lemma_with_args(v: StateView, kind: ProgramKind, args: Seq<EntryArg>, n: nat)
    requires
        v.regs.len() == 11,
        n <= 5,
        n <= args.len(),
    ensures
        ({
            let w = with_args(v, kind, args, n);
            &&& w == (StateView { regs: w.regs, ..v })
            &&& w.regs.len() == 11
            &&& w.regs[0] == v.regs[0]
            &&& forall|i: int| n < i < 11 ==> #[trigger] w.regs[i] == v.regs[i]
            &&& forall|i: int|
                0 < i <= n ==> holds_argument((#[trigger] w.regs[i]).ty, kind, args[i - 1])
        }),
    decreases n,
{
    if n > 0 {
        lemma_with_args(v, kind, args, (n - 1) as nat);
        let w = with_args(v, kind, args, n);
        assert(arg_reg(n - 1).spec_index() == n);
        assert(holds_argument(w.regs[n as int].ty, kind, args[n - 1]));
    }
}

/// A program starts at its first instruction, in one frame, with the stack pointer in
/// its last register and with nothing else known but this: its first register holds the
/// context, or, where the program takes a function's place, the first five hold the
/// function's arguments, as far as it has them. Programs of a tracing kind start inside
/// a read-side critical section, and the references among the declared arguments are
/// held, each once. There is a symbolic table, an empty one, where proofs are wanted.
pub proof fn law_programs_start_with_their_arguments(
    ctx: ExecContext,
    bcf_enabled: bool,
    domain: NumericDomain,
    r: State,
)
    requires
        call_ensures(entry_state, (&ctx, bcf_enabled, domain), r),
    ensures
        ({
            let v = r@;
            let kind = ctx.prog_kind;
            let tracing = kind == ProgramKind::Kprobe || kind == ProgramKind::Tracepoint || kind
                == ProgramKind::RawTracepoint || kind == ProgramKind::RawTracepointWritable || kind
                == ProgramKind::PerfEvent;
            &&& v.pc == 0
            &&& v.domain == domain
            &&& v.frames.len() == 1
            &&& v.frames[0].slots.len() == 0
            &&& v.parent_cache_id is None && v.history_idx is None && v.cache_id is None
            &&& v.regs[10].ty == (RegType::PtrToStack { frame_level: 0 })
            &&& v.regs[0].ty == RegType::NotInit
            &&& forall|i: int| 6 <= i < 10 ==> (#[trigger] v.regs[i]).ty == RegType::NotInit
            &&& match ctx.freplace_arg_types {
                None => v.regs[1].ty == RegType::PtrToCtx && forall|i: int|
                    2 <= i < 6 ==> (#[trigger] v.regs[i]).ty == RegType::NotInit,
                Some(args) => forall|i: int|
                    1 <= i < 6 ==> if i <= args@.len() {
                        holds_argument((#[trigger] v.regs[i]).ty, kind, args@[i - 1])
                    } else {
                        v.regs[i].ty == RegType::NotInit
                    },
            }
            &&& v.implicit_rcu_at_entry == tracing
            &&& v.rcu_depth == if tracing {
                1u32
            } else {
                0
            }
            &&& bcf_enabled ==> blank_table(v) && !v.bcf->0.share_slot_vars
            &&& !bcf_enabled ==> v.bcf is None
            &&& v.active_refs.no_duplicates()
            &&& forall|id: u32| #[trigger]
                v.active_refs.contains(id) <==> (ctx.entry_args matches Some(args) && args@.contains(
                    EntryArg::TrustedRefcountedTask { ref_id: id },
                ))
        }),
{
    let v0 = StateView {
        bcf: if bcf_enabled {
            Some(SymbolicView::fresh(false))
        } else {
            None
        },
        ..plain_entry(domain, 0, RegType::PtrToCtx)
    };
    match ctx.freplace_arg_types {
        Some(args) => {
            lemma_with_args(
                v0.with_type(Reg::R1, RegType::NotInit),
                ctx.prog_kind,
                args@,
                passed_args(args@),
            );
        },
        None => {},
    }
    match ctx.entry_args {
        Some(args) => {
            assert forall|id: u32| #[trigger]
                r@.active_refs.contains(id) <==> args@.contains(
                    EntryArg::TrustedRefcountedTask { ref_id: id },
                ) by {
                law_held_references(args@, id);
                if args@.contains(EntryArg::TrustedRefcountedTask { ref_id: id }) {
                    let i = choose|i: int|
                        0 <= i < args@.len() && args@[i] == (EntryArg::TrustedRefcountedTask {
                            ref_id: id,
                        });
                    assert(args@[i] == (EntryArg::TrustedRefcountedTask { ref_id: id }));
                }
            }
            law_held_references(args@, 0);
        },
        None => {},
    }
}

/// An exception callback starts where it is told to, with a number in its first register
/// and the stack pointer in its last; the others hold nothing.
pub proof fn law_callbacks_start_with_a_number(domain: NumericDomain, pc: usize, r: State)
    requires
        call_ensures(exception_entry_state, (domain, pc), r),
    ensures
        r@.pc == pc,
        r@.domain == domain,
        r@.frames.len() == 1,
        r@.regs[1].ty == RegType::ScalarValue,
        r@.regs[10].ty == (RegType::PtrToStack { frame_level: 0 }),
        forall|i: int|
            0 <= i < 10 && i != 1 ==> (#[trigger] r@.regs[i]).ty == RegType::NotInit,
        r@.bcf is None,
{
}

/// Zones start from the given matrix, and keep track of where constraints come from
/// where they did already or where proofs are read or written; intervals start from
/// nothing.
pub proof fn law_zones_start_from_the_matrix(
    mode: DomainMode,
    dbm: Dbm,
    with_proofs: bool,
    r: NumericDomain,
)
    requires
        call_ensures(make_initial_domain, (mode, dbm, with_proofs), r),
    ensures
        mode == DomainMode::Zone ==> (r matches NumericDomain::Zone(d) && d.matrix == dbm.matrix && (
        d.provenance <==> dbm.provenance || with_proofs)),
        mode == DomainMode::Interval ==> r is Interval,
{
}

/// A program that is accepted gets one matrix for each instruction: that of the oldest
/// state in the result there, and where there is none, or none with a matrix, the one
/// without constraints.
pub proof fn law_matrices_are_those_of_the_oldest_states<E: Engine>(
    engine: &mut E,
    ctx: ExecContext,
    prog: Program,
    entry_dbm: Dbm,
    config: VerifierConfig,
    certificate: Option<Certificate>,
    r: AnalysisResult,
    i: int,
)
    requires
        call_ensures(
            analyze_program_full::<E>,
            (engine, &ctx, &prog, entry_dbm, &config, certificate),
            r,
        ),
        r.error is None,
        0 <= i < prog.instrs@.len(),
    ensures
        r.dbms@.len() == prog.instrs@.len(),
        ({
            let there = r.explored_states@;
            let pc = i as usize;
            let oldest = there.contains_key(pc) && there[pc]@.len() > 0;
            if oldest && there[pc]@[0].domain is Zone {
                there[pc]@[0].domain == NumericDomain::Zone(r.dbms@[i])
            } else {
                r.dbms@[i].matrix == 0 && !r.dbms@[i].provenance
            }
        }),
{
}

}
