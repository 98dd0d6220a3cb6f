//! What holds of accesses to the context, whatever the tables hold.

use vstd::prelude::*;

use crate::ast::{ContextKind, MemSize, ProgramKind};
use crate::attach_rules::{tracing_attach_arg_kind, tracing_attach_arg_tag_flags, TracingArgKind};
use crate::ctx_model::{
    direct_struct, first_field, first_region, is_valid_ctx_read, is_valid_ctx_write, layout_access,
    regions_of, spec_lookup_field, validate_ctx_access, CtxAccessInfo, CtxField, CtxFieldKind,
};
use crate::env::{ExecContext, VerifierEnv};
use crate::machine::{EntryArg, PtrFlags};
use crate::text::text_of;

verus! {

// ---------------------------------------------------------------------------
// Fields
// ---------------------------------------------------------------------------

/// How many bytes a field has.
pub open spec fn field_bytes(f: CtxField) -> int {
    match f.size {
        MemSize::U8 => 1,
        MemSize::U16 => 2,
        MemSize::U32 => 4,
        MemSize::U64 => 8,
    }
}

/// Whether an access is one of a word, and aligned.
pub open spec fn aligned_word(off: i16, size: i64) -> bool {
    (size == 1 || size == 2 || size == 4 || size == 8) && off as int % size as int == 0
}

/// Whether the bytes of an access are bytes of a field, and all of them where no
/// part of it may be accessed.
pub open spec fn accesses(f: CtxField, off: i16, size: i64) -> bool {
    &&& f.offset <= off
    &&& off + size <= f.offset + field_bytes(f)
    &&& !f.narrow_access ==> off == f.offset && size == field_bytes(f)
}

/// Whether a field is the first of a table that an access falls on.
pub open spec fn first_accessed(fields: Seq<CtxField>, i: int, off: i16, size: i64) -> bool {
    0 <= i < fields.len() && accesses(fields[i], off, size) && forall|j: int|
        0 <= j < i ==> !accesses(#[trigger] fields[j], off, size)
}

/// Whether an access falls on no field of a table.
pub open spec fn misses_all(fields: Seq<CtxField>, off: i16, size: i64) -> bool {
    forall|j: int| 0 <= j < fields.len() ==> !accesses(#[trigger] fields[j], off, size)
}

/// Whether an access finds the first field of a table that it falls on, with the
/// field's rights, and nothing where it falls on none.
pub open spec fn finds_in(
    fields: Seq<CtxField>,
    off: i16,
    size: i64,
    r: Option<CtxAccessInfo>,
) -> bool {
    &&& forall|i: int| #[trigger]
        first_accessed(fields, i, off, size) ==> r == Some(
            CtxAccessInfo {
                kind: fields[i].kind,
                readable: fields[i].readable,
                writable: fields[i].writable,
            },
        )
    &&& misses_all(fields, off, size) ==> r is None
}

/// Whether an access finds what one of two tables holds, the first one first.
pub open spec fn finds_in_either(
    base: Seq<CtxField>,
    more: Seq<CtxField>,
    off: i16,
    size: i64,
    r: Option<CtxAccessInfo>,
) -> bool {
    if misses_all(base, off, size) {
        finds_in(more, off, size, r)
    } else {
        finds_in(base, off, size, r)
    }
}

proof fn lemma_lookup(fields: Seq<CtxField>, off: i16, size: i64)
    requires
        aligned_word(off, size),
    ensures
        finds_in(fields, off, size, spec_lookup_field(fields, off, size)),
        spec_lookup_field(fields, off, size) is None <==> misses_all(fields, off, size),
{
    lemma_first(fields, off, size);
    assert(size as i16 == size);
    assert(off as int % (size as i16) as int == 0);
}

proof fn lemma_first(fields: Seq<CtxField>, off: i16, size: i64)
    requires
        aligned_word(off, size),
    ensures
        first_field(fields, off, size) is None <==> misses_all(fields, off, size),
        forall|i: int| #[trigger]
            first_accessed(fields, i, off, size) ==> first_field(fields, off, size) == Some(
                fields[i],
            ),
    decreases fields.len(),
{
    if fields.len() > 0 {
        let rest = fields.skip(1);
        lemma_first(rest, off, size);
        assert forall|j: int| 0 <= j < rest.len() implies #[trigger] rest[j] == fields[j + 1] by {}
        if accesses(fields[0], off, size) {
            assert(!misses_all(fields, off, size));
        } else {
            assert(misses_all(fields, off, size) <==> misses_all(rest, off, size)) by {
                if misses_all(fields, off, size) {
                    assert forall|j: int| 0 <= j < rest.len() implies !accesses(
                        #[trigger] rest[j],
                        off,
                        size,
                    ) by {
                        assert(!accesses(fields[j + 1], off, size));
                    }
                }
                if misses_all(rest, off, size) {
                    assert forall|j: int| 0 <= j < fields.len() implies !accesses(
                        #[trigger] fields[j],
                        off,
                        size,
                    ) by {
                        if j > 0 {
                            assert(!accesses(rest[j - 1], off, size));
                        }
                    }
                }
            }
            assert forall|i: int| #[trigger] first_accessed(fields, i, off, size) implies
                first_field(fields, off, size) == Some(fields[i]) by {
                assert(i > 0);
                assert(first_accessed(rest, i - 1, off, size)) by {
                    assert forall|j: int| 0 <= j < i - 1 implies !accesses(
                        #[trigger] rest[j],
                        off,
                        size,
                    ) by {
                        assert(!accesses(fields[j + 1], off, size));
                    }
                }
            }
        }
    }
}

// ---------------------------------------------------------------------------
// Laid-out contexts
// ---------------------------------------------------------------------------

/// Whether a program's context is laid out by a table and nothing else: it is none of
/// the programs that see an argument array, plain memory or two fixed words, nor one
/// that its attach point may keep away from fields.
pub open spec fn laid_out(kind: ProgramKind) -> bool {
    &&& kind != ProgramKind::Syscall
    &&& kind != ProgramKind::Netfilter
    &&& kind != ProgramKind::CgroupSock
    &&& kind != ProgramKind::StructOps
    &&& kind != ProgramKind::Lsm
    &&& kind != ProgramKind::Tracing
    &&& kind != ProgramKind::Tracepoint
    &&& kind != ProgramKind::RawTracepoint
    &&& kind != ProgramKind::RawTracepointWritable
}

/// Each laid-out context is looked up in its own table, whatever the others hold: an
/// aligned access finds the kind and the rights of the first field of that table that
/// it falls on, and is refused where it falls on none. The extension of a device map's
/// packets comes after the fields that all packets have.
pub proof fn law_each_layout_has_its_table(
    env: VerifierEnv,
    off: i16,
    size: i64,
    r: Option<CtxAccessInfo>,
)
    requires
        call_ensures(validate_ctx_access, (&env, off, size), r),
        laid_out(env.ctx.prog_kind),
        aligned_word(off, size),
    ensures
        ({
            let t = env.ctx.tables;
            let kind = env.ctx.context_kind;
            &&& kind == ContextKind::BpfSockopt ==> finds_in(t.sockopt@, off, size, r)
            &&& kind == ContextKind::SkLookup ==> finds_in(t.sk_lookup@, off, size, r)
            &&& kind == ContextKind::SkReuseport ==> finds_in(t.sk_reuseport@, off, size, r)
            &&& kind == ContextKind::SockOps ==> finds_in(t.sock_ops@, off, size, r)
            &&& kind == ContextKind::BpfSock ==> finds_in(t.sock@, off, size, r)
            &&& kind == ContextKind::SkMsgMd ==> finds_in(t.sk_msg_md@, off, size, r)
            &&& kind == ContextKind::PtRegs ==> finds_in(t.pt_regs@, off, size, r)
            &&& kind == ContextKind::IterTask ==> finds_in(t.trace_iter_task@, off, size, r)
            &&& kind == ContextKind::XdpMd ==> if text_of(env.ctx.attach_subtype) == Some(
                "devmap"@,
            ) {
                finds_in_either(t.xdp_md@, t.xdp_md_devmap@, off, size, r)
            } else {
                finds_in(t.xdp_md@, off, size, r)
            }
            &&& kind == ContextKind::Unmodeled ==> r is None
        }),
{
    let ctx = *env.ctx;
    let t = ctx.tables;
    assert(direct_struct(ctx) is None);
    assert(r == layout_access(ctx, off, size));
    lemma_lookup(t.sockopt@, off, size);
    lemma_lookup(t.sk_lookup@, off, size);
    lemma_lookup(t.sk_reuseport@, off, size);
    lemma_lookup(t.sock_ops@, off, size);
    lemma_lookup(t.sock@, off, size);
    lemma_lookup(t.sk_msg_md@, off, size);
    lemma_lookup(t.pt_regs@, off, size);
    lemma_lookup(t.trace_iter_task@, off, size);
    lemma_lookup(t.xdp_md@, off, size);
    lemma_lookup(t.xdp_md_devmap@, off, size);
    lemma_lookup(Seq::empty(), off, size);
    assert(regions_of(t, ContextKind::SockOps) =~= Seq::empty());
}

/// Whether an access lies between two offsets.
pub open spec fn lies_in(area: (i16, i16), off: i16, size: i64) -> bool {
    area.0 <= off && off + size <= area.1
}

/// In the address areas of a socket address every aligned access of a word is allowed,
/// to numbers that may be read and written; elsewhere its own table counts.
pub proof fn law_socket_addresses_have_open_areas(
    env: VerifierEnv,
    off: i16,
    size: i64,
    r: Option<CtxAccessInfo>,
)
    requires
        call_ensures(validate_ctx_access, (&env, off, size), r),
        laid_out(env.ctx.prog_kind),
        aligned_word(off, size),
        env.ctx.context_kind == ContextKind::BpfSockAddr,
    ensures
        ({
            let t = env.ctx.tables;
            let open = lies_in(t.sock_addr_user_ip6, off, size) || lies_in(
                t.sock_addr_msg_src_ip6,
                off,
                size,
            );
            &&& open ==> r == Some(
                CtxAccessInfo { kind: CtxFieldKind::Scalar, readable: true, writable: true },
            )
            &&& !open ==> finds_in(t.sock_addr@, off, size, r)
        }),
{
    let ctx = *env.ctx;
    let t = ctx.tables;
    let regions = regions_of(t, ctx.context_kind);
    assert(direct_struct(ctx) is None);
    assert(r == layout_access(ctx, off, size));
    assert(size as i16 == size);
    lemma_lookup(t.sock_addr@, off, size);
    lemma_lookup(Seq::empty(), off, size);
    reveal_with_fuel(first_region, 3);
    assert(regions.skip(1)[0] == regions[1]);
    assert(regions.skip(1).skip(1).len() == 0);
}

/// Whether programs of a kind may read packets through their context.
pub open spec fn packet_reader(kind: ProgramKind) -> bool {
    kind == ProgramKind::SchedCls || kind == ProgramKind::SchedAct || kind == ProgramKind::SkSkb
        || kind == ProgramKind::LwtIn || kind == ProgramKind::LwtOut || kind == ProgramKind::LwtXmit
        || kind == ProgramKind::CgroupSkb || kind == ProgramKind::FlowDissector
}

/// Whether a program classifies traffic.
pub open spec fn classifier(kind: ProgramKind) -> bool {
    kind == ProgramKind::SchedCls || kind == ProgramKind::SchedAct
}

/// The rights that a program of a kind has on a field of a packet buffer that by
/// itself has the rights `readable` and `writable`.
pub open spec fn packet_rights(
    kind: ProgramKind,
    off: i16,
    readable: bool,
    writable: bool,
    r: CtxAccessInfo,
) -> bool {
    let cgroup = kind == ProgramKind::CgroupSkb;
    let mark = off == 8;
    let stamped = off == 32 || off == 152;
    let class = off == 72;
    let packet = 76 <= off && off <= 80;
    let address = off == 88 || off == 92 || off == 96 || (100 <= off && off <= 128) || off == 132
        || off == 136;
    let meta = off == 140;
    &&& r.readable <==> if mark {
        kind != ProgramKind::SkSkb
    } else {
        &&& readable
        &&& !class
        &&& packet ==> packet_reader(kind)
        &&& address ==> cgroup || kind == ProgramKind::SockOps || kind == ProgramKind::SkSkb
        &&& meta ==> !cgroup && kind != ProgramKind::SockOps
    }
    &&& r.writable <==> if mark {
        kind != ProgramKind::SkSkb
    } else if stamped {
        writable || cgroup || classifier(kind)
    } else {
        writable && (class ==> classifier(kind))
    }
}

/// The fields of a packet buffer that programs of a kind see besides the common ones.
pub open spec fn more_packet_fields(ctx: ExecContext) -> Seq<CtxField> {
    let kind = ctx.prog_kind;
    if kind == ProgramKind::FlowDissector {
        ctx.tables.flow_dissector_extended@
    } else if kind == ProgramKind::CgroupSkb || classifier(kind) {
        ctx.tables.sk_buff_extended@
    } else {
        Seq::empty()
    }
}

/// In a packet buffer the scratch area comes first, then the common fields, then those
/// that programs of the kind see besides; an aligned access finds the first field that
/// it falls on, with the rights that the kind of program leaves it, and is refused
/// where it falls on none.
pub proof fn law_packet_buffers_by_kind(
    env: VerifierEnv,
    off: i16,
    size: i64,
    r: Option<CtxAccessInfo>,
)
    requires
        call_ensures(validate_ctx_access, (&env, off, size), r),
        laid_out(env.ctx.prog_kind),
        aligned_word(off, size),
        env.ctx.context_kind == ContextKind::SkBuff,
    ensures
        ({
            let ctx = *env.ctx;
            let kind = ctx.prog_kind;
            let base = ctx.tables.sk_buff@;
            let more = more_packet_fields(ctx);
            let scratch = lies_in(ctx.tables.sk_buff_cb, off, size);
            &&& scratch ==> (r matches Some(info) && info.kind == CtxFieldKind::Scalar
                && packet_rights(kind, off, true, true, info))
            &&& !scratch ==> forall|i: int| #[trigger]
                first_accessed(base, i, off, size) ==> (r matches Some(info) && info.kind
                    == base[i].kind && packet_rights(
                    kind,
                    off,
                    base[i].readable,
                    base[i].writable,
                    info,
                ))
            &&& !scratch && misses_all(base, off, size) ==> forall|i: int| #[trigger]
                first_accessed(more, i, off, size) ==> (r matches Some(info) && info.kind
                    == more[i].kind && packet_rights(
                    kind,
                    off,
                    more[i].readable,
                    more[i].writable,
                    info,
                ))
            &&& !scratch && misses_all(base, off, size) && misses_all(more, off, size) ==> r is None
        }),
{
    let ctx = *env.ctx;
    let regions = regions_of(ctx.tables, ctx.context_kind);
    assert(direct_struct(ctx) is None);
    assert(r == layout_access(ctx, off, size));
    assert(size as i16 == size);
    lemma_lookup(ctx.tables.sk_buff@, off, size);
    lemma_lookup(more_packet_fields(ctx), off, size);
    reveal_with_fuel(first_region, 2);
    assert(regions.skip(1).len() == 0);
}

/// In a laid-out context nothing but an aligned access is allowed.
pub proof fn law_layouts_want_alignment(
    env: VerifierEnv,
    off: i16,
    size: i64,
    r: Option<CtxAccessInfo>,
)
    requires
        call_ensures(validate_ctx_access, (&env, off, size), r),
        laid_out(env.ctx.prog_kind),
        size == 1 || size == 2 || size == 4 || size == 8,
        off as int % size as int != 0,
    ensures
        r is None,
{
    assert(direct_struct(*env.ctx) is None);
    assert(size as i16 == size);
    assert(off as int % (size as i16) as int != 0);
}

/// A socket program sees the fields of its own table but for those that its attach
/// point keeps from it: the source address and port while the socket is made or
/// released, the mark and the other family's address once it is bound.
pub proof fn law_sockets_by_attach_point(
    env: VerifierEnv,
    off: i16,
    size: i64,
    r: Option<CtxAccessInfo>,
)
    requires
        call_ensures(validate_ctx_access, (&env, off, size), r),
        env.ctx.prog_kind == ProgramKind::CgroupSock,
        env.ctx.context_kind == ContextKind::BpfSock,
        aligned_word(off, size),
    ensures
        ({
            let at = text_of(env.ctx.attach_subtype);
            let made = at == Some("sock_create"@) || at == Some("sock_release"@);
            let bind4 = at == Some("post_bind4"@);
            let bind6 = at == Some("post_bind6"@);
            let kept = if made {
                24 <= off && off < 48
            } else if bind4 {
                off == 16 || (28 <= off && off < 44)
            } else {
                bind6 && (off == 16 || off == 24)
            };
            &&& kept ==> r is None
            &&& !kept ==> finds_in(env.ctx.tables.sock@, off, size, r)
        }),
{
    assert(direct_struct(*env.ctx) is None);
    lemma_lookup(env.ctx.tables.sock@, off, size);
    lemma_lookup(Seq::empty(), off, size);
    assert(regions_of(env.ctx.tables, env.ctx.context_kind) =~= Seq::empty());
}

// ---------------------------------------------------------------------------
// Other contexts
// ---------------------------------------------------------------------------

/// A system call program may read and write its first page as it likes, word by word.
pub proof fn law_system_calls_have_a_page(
    env: VerifierEnv,
    off: i16,
    size: i64,
    r: Option<CtxAccessInfo>,
)
    requires
        call_ensures(validate_ctx_access, (&env, off, size), r),
        env.ctx.prog_kind == ProgramKind::Syscall,
        env.ctx.context_kind == ContextKind::Unmodeled,
        aligned_word(off, size),
    ensures
        0 <= off && off + size <= 0x1000 ==> r == Some(
            CtxAccessInfo { kind: CtxFieldKind::Scalar, readable: true, writable: true },
        ),
        off < 0 || off + size > 0x1000 ==> r is None,
{
    assert(direct_struct(*env.ctx) is None);
    assert(regions_of(env.ctx.tables, env.ctx.context_kind) =~= Seq::empty());
}

/// A raw tracepoint's first twelve words are numbers that can only be read.
pub proof fn law_raw_tracepoint_words(
    env: VerifierEnv,
    off: i16,
    size: i64,
    r: Option<CtxAccessInfo>,
)
    requires
        call_ensures(validate_ctx_access, (&env, off, size), r),
        env.ctx.prog_kind == ProgramKind::RawTracepoint,
        aligned_word(off, size),
        0 <= off,
        off + size <= 12 * 8,
    ensures
        r == Some(
            CtxAccessInfo { kind: CtxFieldKind::Scalar, readable: true, writable: false },
        ),
{
}

/// A netfilter program reads two pointers that are never null: the hook's state at the
/// start, the packet behind it.
pub proof fn law_netfilter_pointers(
    env: VerifierEnv,
    off: i16,
    size: i64,
    r: Option<CtxAccessInfo>,
)
    requires
        call_ensures(validate_ctx_access, (&env, off, size), r),
        env.ctx.prog_kind == ProgramKind::Netfilter,
    ensures
        r is Some <==> size == 8 && (off == 0 || off == 8),
        r matches Some(info) ==> info.readable && !info.writable && (
        info.kind matches CtxFieldKind::TrustedPtr { struct_name, nullable, trusted, tag_flags }
            && !nullable && trusted && !tag_flags.trusted && !tag_flags.user && !tag_flags.percpu
            && struct_name@ == if off == 0 {
            "nf_hook_state"@
        } else {
            "sk_buff"@
        }),
{
}

/// Whether a program's context is an array of the arguments of what it is attached to,
/// with no structure of the kernel's own in its place.
pub open spec fn plain_arguments(ctx: ExecContext) -> bool {
    let kind = ctx.prog_kind;
    ||| kind == ProgramKind::StructOps
    ||| kind == ProgramKind::Lsm
    ||| kind == ProgramKind::Tracepoint
    ||| kind == ProgramKind::Tracing && text_of(ctx.attach_flavor) != Some("iter"@)
}

/// Whether pointers among the arguments are trusted.
pub open spec fn trusts_arguments(ctx: ExecContext) -> bool {
    let at = text_of(ctx.attach_flavor);
    ctx.prog_kind == ProgramKind::Tracing ==> at == Some("tp_btf"@) || at == Some("raw_tp"@) || at
        == Some("raw_tp.w"@) || at == Some("iter"@) || at == Some("iter.s"@)
}

/// Whether a table of the kernel says of an argument of the program's tracepoint that
/// it may be null.
pub open spec fn listed_as_nullable(ctx: ExecContext, arg: int) -> bool {
    let at = text_of(ctx.attach_flavor);
    &&& at == Some("tp_btf"@) || at == Some("raw_tp"@) || at == Some("raw_tp.w"@)
    &&& exists|i: int|
        0 <= i < ctx.maybe_null_args@.len() && text_of(ctx.attach_subtype) == Some(
            (#[trigger] ctx.maybe_null_args@[i]).0@,
        ) && ctx.maybe_null_args@[i].1 == arg
}

/// The declared arguments are read in order, one in every eight bytes and only as whole
/// words: numbers as numbers, with their range where one is declared; a held task with
/// its reference; and a pointer with its structure, which may be null where it is
/// declared so or listed so, and is trusted where pointers among the arguments are.
pub proof fn law_declared_arguments_are_found(
    env: VerifierEnv,
    arg: int,
    size: i64,
    r: Option<CtxAccessInfo>,
    off: i16,
)
    requires
        call_ensures(validate_ctx_access, (&env, off, size), r),
        plain_arguments(*env.ctx),
        env.ctx.entry_args is Some,
        0 <= arg < env.ctx.entry_args->0@.len(),
        arg < 256,
        off == 8 * arg,
        size == 8,
    ensures
        ({
            let ctx = *env.ctx;
            &&& r matches Some(info)
            &&& info.readable && !info.writable
            &&& match ctx.entry_args->0@[arg] {
                EntryArg::Scalar => info.kind == CtxFieldKind::Scalar,
                EntryArg::BoundedScalar { lo, hi } => info.kind == (CtxFieldKind::BoundedScalar {
                    lo,
                    hi,
                }),
                EntryArg::TrustedRefcountedTask { ref_id } => info.kind == (
                CtxFieldKind::RefcountedTask { ref_id }),
                EntryArg::TrustedPtrBtfId { struct_name, nullable } => info.kind == (
                CtxFieldKind::TrustedPtr {
                    struct_name,
                    nullable: nullable || listed_as_nullable(ctx, arg),
                    trusted: trusts_arguments(ctx),
                    tag_flags: PtrFlags { trusted: false, user: false, percpu: false },
                }),
            }
        }),
{
    let ctx = *env.ctx;
    assert(direct_struct(ctx) is None);
    assert(off as u16 == off);
    assert((off as u16) / 8 == arg);
    assert(arg as u16 as u8 == arg);
}

/// Behind the declared arguments a `struct_ops` member finds nothing. Any other program
/// finds a number where the attach target is known to have one, and else a pointer to
/// something unknown, with the tags that the target is known to have there.
pub proof fn law_undeclared_arguments(
    env: VerifierEnv,
    arg: int,
    r: Option<CtxAccessInfo>,
    off: i16,
    target: Option<&str>,
    number: Option<TracingArgKind>,
    tags: PtrFlags,
)
    requires
        call_ensures(validate_ctx_access, (&env, off, 8), r),
        call_ensures(tracing_attach_arg_kind, (target, arg as u8), number),
        call_ensures(tracing_attach_arg_tag_flags, (target, arg as u8), tags),
        match target {
            Some(t) => text_of(env.ctx.attach_subtype) == Some(t@),
            None => text_of(env.ctx.attach_subtype) is None,
        },
        plain_arguments(*env.ctx),
        env.ctx.entry_args matches Some(args) ==> arg >= args@.len(),
        0 <= arg < 256,
        off == 8 * arg,
    ensures
        ({
            let ctx = *env.ctx;
            &&& ctx.prog_kind == ProgramKind::StructOps ==> r is None
            &&& ctx.prog_kind != ProgramKind::StructOps ==> (r matches Some(info) && info.readable
                && !info.writable && if number is Some {
                info.kind == CtxFieldKind::Scalar
            } else {
                info.kind matches CtxFieldKind::TrustedPtr {
                    struct_name,
                    nullable,
                    trusted,
                    tag_flags,
                } && struct_name@ == "unknown"@ && nullable == listed_as_nullable(ctx, arg)
                    && trusted == trusts_arguments(ctx) && tag_flags == tags
            })
        }),
{
    let ctx = *env.ctx;
    assert(direct_struct(ctx) is None);
    assert(off as u16 == off);
    assert((off as u16) / 8 == arg);
    assert(arg as u16 as u8 == arg);
}

/// No argument is read in part, across two of them, or before the first.
pub proof fn law_arguments_are_not_split(
    env: VerifierEnv,
    off: i16,
    size: i64,
    r: Option<CtxAccessInfo>,
)
    requires
        call_ensures(validate_ctx_access, (&env, off, size), r),
        plain_arguments(*env.ctx),
        size != 8 || off < 0 || off as int % 8 != 0,
    ensures
        r is None,
{
    assert(direct_struct(*env.ctx) is None);
}

/// Reading is allowed exactly where an access is found that may be read, writing exactly
/// where one is found that may be written.
pub proof fn law_reads_and_writes_go_by_rights(
    env: VerifierEnv,
    off: i16,
    size: i64,
    found: Option<CtxAccessInfo>,
    read: bool,
    write: bool,
)
    requires
        call_ensures(validate_ctx_access, (&env, off, size), found),
        call_ensures(is_valid_ctx_read, (&env, off, size), read),
        call_ensures(is_valid_ctx_write, (&env, off, size), write),
    ensures
        read <==> (found matches Some(info) && info.readable),
        write <==> (found matches Some(info) && info.writable),
{
}

}
