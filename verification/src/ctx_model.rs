//! Context structures: which accesses a program may make to its context, and
//! what it finds there.

use vstd::prelude::*;

use crate::arith::{is_multiple, is_word_size, multiple, word_size};
use crate::ast::{ContextKind, MemSize, ProgramKind};
use crate::attach_rules::{
    spec_tracing_attach_arg_kind, spec_tracing_attach_arg_tag_flags, tracing_attach_arg_kind,
    tracing_attach_arg_tag_flags,
};
use crate::env::{BtfField, BtfFieldKind, ExecContext, VerifierEnv};
use crate::machine::{EntryArg, PtrFlags};
use crate::text::{as_slice, opt_is, slice_text_of, str_eq, text_of};

verus! {

/// What a ctx field holds, for the type of a register that is loaded from it.
#[derive(Clone, Copy, Debug, PartialEq, Eq)]
pub enum CtxFieldKind {
    Scalar,
    SockCommon,
    /// A socket that is never null.
    Socket,
    SocketOrNull,
    PacketStart,
    PacketEnd,
    PacketMeta,
    /// A buffer of a known size.
    AllocMem { mem_size: u64 },
    /// A pointer to a kernel structure.
    TrustedPtr {
        struct_name: &'static str,
        nullable: bool,
        /// Whether helpers that demand a trusted pointer accept it.
        trusted: bool,
        tag_flags: PtrFlags,
    },
    /// A number within a range.
    BoundedScalar { lo: i64, hi: i64 },
    /// A task whose reference is held on entry.
    RefcountedTask { ref_id: u32 },
}

/// A field of a context structure.
#[derive(Clone, Copy, Debug)]
pub struct CtxField {
    pub offset: i16,
    pub size: MemSize,
    pub kind: CtxFieldKind,
    pub writable: bool,
    pub readable: bool,
    /// Whether a part of the field may be accessed.
    pub narrow_access: bool,
}

/// A part of a context structure in which every aligned access is allowed.
#[derive(Clone, Copy, Debug, PartialEq, Eq, Structural)]
pub struct CtxRegion {
    pub start: i16,
    pub end: i16,
    pub readable: bool,
    pub writable: bool,
}

/// The layouts of the context structures.
pub struct CtxTables {
    pub sk_buff: Vec<CtxField>,
    pub sk_buff_extended: Vec<CtxField>,
    pub flow_dissector_extended: Vec<CtxField>,
    pub xdp_md: Vec<CtxField>,
    pub xdp_md_devmap: Vec<CtxField>,
    pub sock_addr: Vec<CtxField>,
    pub sockopt: Vec<CtxField>,
    pub sk_lookup: Vec<CtxField>,
    pub sk_reuseport: Vec<CtxField>,
    pub sock_ops: Vec<CtxField>,
    pub sock: Vec<CtxField>,
    pub sk_msg_md: Vec<CtxField>,
    pub pt_regs: Vec<CtxField>,
    pub trace_iter_task: Vec<CtxField>,
    /// The scratch area of a packet buffer, from its start up to its end.
    pub sk_buff_cb: (i16, i16),
    pub sock_addr_user_ip6: (i16, i16),
    pub sock_addr_msg_src_ip6: (i16, i16),
}

/// What an allowed access finds.
#[derive(Clone, Copy, Debug)]
pub struct CtxAccessInfo {
    pub kind: CtxFieldKind,
    pub writable: bool,
    pub readable: bool,
}

// ---------------------------------------------------------------------------
// Fields and regions
// ---------------------------------------------------------------------------

/// Whether an access falls on a field: inside it where parts may be accessed,
/// else exactly on it.
pub open spec fn falls_on(f: CtxField, off: i16, size: i64) -> bool {
    if f.narrow_access {
        off >= f.offset && off + (size as i16) <= f.offset + f.size.spec_bytes()
    } else {
        f.offset == off && f.size.spec_bytes() == size as usize
    }
}

/// The first field that an access falls on.
pub open spec fn first_field(fields: Seq<CtxField>, off: i16, size: i64) -> Option<CtxField>
    decreases fields.len(),
{
    if fields.len() == 0 {
        None
    } else if falls_on(fields[0], off, size) {
        Some(fields[0])
    } else {
        first_field(fields.skip(1), off, size)
    }
}

/// What an aligned access to a table of fields finds.
pub open spec fn spec_lookup_field(fields: Seq<CtxField>, off: i16, size: i64) -> Option<
    CtxAccessInfo,
> {
    if !multiple(off as int, (size as i16) as int) {
        None
    } else {
        match first_field(fields, off, size) {
            Some(f) => Some(
                CtxAccessInfo { kind: f.kind, readable: f.readable, writable: f.writable },
            ),
            None => None,
        }
    }
}

/// What an aligned access to a table of fields finds.
pub fn lookup_field(fields: &Vec<CtxField>, off: i16, size: i64) -> (r: Option<CtxAccessInfo>)
    requires
        size as i16 != 0,
        i16::MIN <= off + (size as i16) <= i16::MAX,
    ensures
        r == spec_lookup_field(fields@, off, size),
{
    let step: i16 = #[verifier::truncate]
    (size as i16);
    let access_end: i16 = off + step;
    if !is_multiple(off, step) {
        return None;
    }
    let mut i: usize = 0;
    assert(fields@.skip(0) =~= fields@);
    while i < fields.len()
        invariant
            i <= fields@.len(),
            step == size as i16,
            access_end == off + step,
            multiple(off as int, step as int),
            first_field(fields@.skip(i as int), off, size) == first_field(fields@, off, size),
        decreases fields@.len() - i,
    {
        let f = fields[i];
        assert(fields@.skip(i as int)[0] == f);
        assert(fields@.skip(i as int).skip(1) =~= fields@.skip(i + 1));
        let hit = if f.narrow_access {
            let field_end: i32 = f.offset as i32 + f.size.bytes() as i32;
            off >= f.offset && access_end as i32 <= field_end
        } else {
            f.offset == off && f.size.bytes() == #[verifier::truncate]
            (size as usize)
        };
        if hit {
            return Some(
                CtxAccessInfo { kind: f.kind, readable: f.readable, writable: f.writable },
            );
        }
        i += 1;
    }
    None
}

/// The first region that an access lies in.
pub open spec fn first_region(regions: Seq<CtxRegion>, off: i16, size: i64) -> Option<CtxRegion>
    decreases regions.len(),
{
    if regions.len() == 0 {
        None
    } else if off >= regions[0].start && off + (size as i16) <= regions[0].end {
        Some(regions[0])
    } else {
        first_region(regions.skip(1), off, size)
    }
}

/// The scratch regions of a context structure.
pub open spec fn regions_of(tables: CtxTables, ctx_kind: ContextKind) -> Seq<CtxRegion> {
    match ctx_kind {
        ContextKind::SkBuff => seq![spec_scratch(tables.sk_buff_cb)],
        ContextKind::BpfSockAddr => seq![
            spec_scratch(tables.sock_addr_user_ip6),
            spec_scratch(tables.sock_addr_msg_src_ip6),
        ],
        _ => Seq::empty(),
    }
}

/// A region that may be read and written.
pub open spec fn spec_scratch(bounds: (i16, i16)) -> CtxRegion {
    CtxRegion { start: bounds.0, end: bounds.1, readable: true, writable: true }
}

fn scratch(bounds: (i16, i16)) -> (r: CtxRegion)
    ensures
        r == spec_scratch(bounds),
{
    CtxRegion { start: bounds.0, end: bounds.1, readable: true, writable: true }
}

/// The scratch regions of a context structure.
pub fn get_regions(tables: &CtxTables, ctx_kind: ContextKind) -> (r: Vec<CtxRegion>)
    ensures
        r@ == regions_of(*tables, ctx_kind),
{
    let mut out: Vec<CtxRegion> = Vec::new();
    match ctx_kind {
        ContextKind::SkBuff => {
            out.push(scratch(tables.sk_buff_cb));
        },
        ContextKind::BpfSockAddr => {
            out.push(scratch(tables.sock_addr_user_ip6));
            out.push(scratch(tables.sock_addr_msg_src_ip6));
        },
        _ => {},
    }
    assert(out@ =~= regions_of(*tables, ctx_kind));
    out
}

/// What an aligned access of a word finds in a scratch region.
pub open spec fn spec_lookup_region(
    tables: CtxTables,
    ctx_kind: ContextKind,
    off: i16,
    size: i64,
) -> Option<CtxAccessInfo> {
    if !word_size(size) || !multiple(off as int, size as int) {
        None
    } else {
        match first_region(regions_of(tables, ctx_kind), off, size) {
            Some(g) => Some(
                CtxAccessInfo {
                    kind: CtxFieldKind::Scalar,
                    readable: g.readable,
                    writable: g.writable,
                },
            ),
            None => None,
        }
    }
}

/// What an aligned access of a word finds in a scratch region.
pub fn lookup_region(tables: &CtxTables, ctx_kind: ContextKind, off: i16, size: i64) -> (r: Option<
    CtxAccessInfo,
>)
    requires
        i16::MIN <= off + (size as i16) <= i16::MAX,
    ensures
        r == spec_lookup_region(*tables, ctx_kind, off, size),
{
    let step: i16 = #[verifier::truncate]
    (size as i16);
    let access_end: i16 = off + step;
    if !is_word_size(size) {
        return None;
    }
    if !is_multiple(off, step) {
        return None;
    }
    let regions = get_regions(tables, ctx_kind);
    let mut i: usize = 0;
    assert(regions@.skip(0) =~= regions@);
    while i < regions.len()
        invariant
            i <= regions@.len(),
            word_size(size),
            multiple(off as int, size as int),
            access_end == off + (size as i16),
            regions@ == regions_of(*tables, ctx_kind),
            first_region(regions@.skip(i as int), off, size) == first_region(regions@, off, size),
        decreases regions@.len() - i,
    {
        let g = regions[i];
        assert(regions@.skip(i as int)[0] == g);
        assert(regions@.skip(i as int).skip(1) =~= regions@.skip(i + 1));
        if off >= g.start && access_end <= g.end {
            return Some(
                CtxAccessInfo {
                    kind: CtxFieldKind::Scalar,
                    readable: g.readable,
                    writable: g.writable,
                },
            );
        }
        i += 1;
    }
    None
}

/// The fields of a context structure: those that every program sees, then those
/// that this one sees besides. `None` for a structure without a table.
pub open spec fn field_tables(
    tables: CtxTables,
    ctx_kind: ContextKind,
    prog_kind: ProgramKind,
    attach_subtype: Option<Seq<char>>,
) -> Option<(Seq<CtxField>, Seq<CtxField>)> {
    match ctx_kind {
        ContextKind::SkBuff => Some(
            (
                tables.sk_buff@,
                match prog_kind {
                    ProgramKind::CgroupSkb
                    | ProgramKind::SchedCls
                    | ProgramKind::SchedAct => tables.sk_buff_extended@,
                    ProgramKind::FlowDissector => tables.flow_dissector_extended@,
                    _ => Seq::empty(),
                },
            ),
        ),
        ContextKind::XdpMd => Some(
            (
                tables.xdp_md@,
                if attach_subtype == Some("devmap"@) {
                    tables.xdp_md_devmap@
                } else {
                    Seq::empty()
                },
            ),
        ),
        ContextKind::BpfSockAddr => Some((tables.sock_addr@, Seq::empty())),
        ContextKind::BpfSockopt => Some((tables.sockopt@, Seq::empty())),
        ContextKind::SkLookup => Some((tables.sk_lookup@, Seq::empty())),
        ContextKind::SkReuseport => Some((tables.sk_reuseport@, Seq::empty())),
        ContextKind::SockOps => Some((tables.sock_ops@, Seq::empty())),
        ContextKind::BpfSock => Some((tables.sock@, Seq::empty())),
        ContextKind::SkMsgMd => Some((tables.sk_msg_md@, Seq::empty())),
        ContextKind::PtRegs => Some((tables.pt_regs@, Seq::empty())),
        ContextKind::IterTask => Some((tables.trace_iter_task@, Seq::empty())),
        ContextKind::Unmodeled => None,
    }
}

/// The fields of a table that may be missing.
pub open spec fn fields_of(t: Option<&Vec<CtxField>>) -> Seq<CtxField> {
    match t {
        Some(v) => v@,
        None => Seq::empty(),
    }
}

/// The fields of a context structure.
pub fn get_field_tables<'a>(
    tables: &'a CtxTables,
    ctx_kind: ContextKind,
    prog_kind: ProgramKind,
    attach_subtype: Option<&str>,
) -> (r: Option<(&'a Vec<CtxField>, Option<&'a Vec<CtxField>>)>)
    ensures
        match r {
            Some(t) => field_tables(*tables, ctx_kind, prog_kind, slice_text_of(attach_subtype))
                == Some((t.0@, fields_of(t.1))),
            None => field_tables(*tables, ctx_kind, prog_kind, slice_text_of(attach_subtype))
                is None,
        },
{
    match ctx_kind {
        ContextKind::SkBuff => {
            let extended = match prog_kind {
                ProgramKind::CgroupSkb | ProgramKind::SchedCls | ProgramKind::SchedAct => Some(
                    &tables.sk_buff_extended,
                ),
                ProgramKind::FlowDissector => Some(&tables.flow_dissector_extended),
                _ => None,
            };
            Some((&tables.sk_buff, extended))
        },
        ContextKind::XdpMd => {
            let extended = if opt_is(attach_subtype, "devmap") {
                Some(&tables.xdp_md_devmap)
            } else {
                None
            };
            Some((&tables.xdp_md, extended))
        },
        ContextKind::BpfSockAddr => Some((&tables.sock_addr, None)),
        ContextKind::BpfSockopt => Some((&tables.sockopt, None)),
        ContextKind::SkLookup => Some((&tables.sk_lookup, None)),
        ContextKind::SkReuseport => Some((&tables.sk_reuseport, None)),
        ContextKind::SockOps => Some((&tables.sock_ops, None)),
        ContextKind::BpfSock => Some((&tables.sock, None)),
        ContextKind::SkMsgMd => Some((&tables.sk_msg_md, None)),
        ContextKind::PtRegs => Some((&tables.pt_regs, None)),
        ContextKind::IterTask => Some((&tables.trace_iter_task, None)),
        ContextKind::Unmodeled => None,
    }
}

// ---------------------------------------------------------------------------
// What the kind of program changes
// ---------------------------------------------------------------------------

/// Whether a program may read the packet through its context.
pub open spec fn reads_packet(prog_kind: ProgramKind) -> bool {
    prog_kind == ProgramKind::SchedCls || prog_kind == ProgramKind::SchedAct || prog_kind
        == ProgramKind::SkSkb || prog_kind == ProgramKind::LwtIn || prog_kind == ProgramKind::LwtOut
        || prog_kind == ProgramKind::LwtXmit || prog_kind == ProgramKind::CgroupSkb || prog_kind
        == ProgramKind::FlowDissector
}

/// Whether a program belongs to a control group or to traffic control.
pub open spec fn cgroup_or_tc(prog_kind: ProgramKind) -> bool {
    prog_kind == ProgramKind::CgroupSkb || prog_kind == ProgramKind::SchedCls || prog_kind
        == ProgramKind::SchedAct
}

/// An access to a packet buffer as the kind of program allows it; other
/// structures are the same for every kind.
pub open spec fn overridden(
    ctx_kind: ContextKind,
    prog_kind: ProgramKind,
    off: i16,
    info: CtxAccessInfo,
) -> CtxAccessInfo {
    if ctx_kind != ContextKind::SkBuff {
        info
    } else if off == 8 {
        // mark
        CtxAccessInfo {
            readable: prog_kind != ProgramKind::SkSkb,
            writable: prog_kind != ProgramKind::SkSkb,
            ..info
        }
    } else if off == 32 || off == 152 {
        // priority, tstamp
        CtxAccessInfo { writable: info.writable || cgroup_or_tc(prog_kind), ..info }
    } else if off == 72 {
        // tc_classid
        CtxAccessInfo {
            readable: false,
            writable: info.writable && (prog_kind == ProgramKind::SchedCls || prog_kind
                == ProgramKind::SchedAct),
            ..info
        }
    } else if 76 <= off <= 80 {
        // data, data_end
        CtxAccessInfo { readable: info.readable && reads_packet(prog_kind), ..info }
    } else if off == 88 || off == 92 || off == 96 || 100 <= off <= 128 || off == 132 || off
        == 136 {
        // family, addresses and ports
        CtxAccessInfo {
            readable: info.readable && (prog_kind == ProgramKind::CgroupSkb || prog_kind
                == ProgramKind::SockOps || prog_kind == ProgramKind::SkSkb),
            ..info
        }
    } else if off == 140 {
        // data_meta
        CtxAccessInfo {
            readable: info.readable && prog_kind != ProgramKind::CgroupSkb && prog_kind
                != ProgramKind::SockOps,
            ..info
        }
    } else {
        info
    }
}

/// Adjusts an access to what the kind of program allows.
pub fn apply_prog_type_overrides(
    ctx_kind: ContextKind,
    prog_kind: ProgramKind,
    off: i16,
    info: &mut CtxAccessInfo,
)
    ensures
        *final(info) == overridden(ctx_kind, prog_kind, off, *old(info)),
{
    if ctx_kind == ContextKind::SkBuff {
        if off == 8 {
            match prog_kind {
                ProgramKind::SkSkb => {
                    info.readable = false;
                    info.writable = false;
                },
                _ => {
                    info.readable = true;
                    info.writable = true;
                },
            }
        } else if off == 32 || off == 152 {
            match prog_kind {
                ProgramKind::CgroupSkb | ProgramKind::SchedCls | ProgramKind::SchedAct => {
                    info.writable = true;
                },
                _ => {},
            }
        } else if off == 72 {
            match prog_kind {
                ProgramKind::SchedCls | ProgramKind::SchedAct => {
                    info.readable = false;
                },
                _ => {
                    info.readable = false;
                    info.writable = false;
                },
            }
        } else if 76 <= off && off <= 80 {
            match prog_kind {
                ProgramKind::SchedCls
                | ProgramKind::SchedAct
                | ProgramKind::SkSkb
                | ProgramKind::LwtIn
                | ProgramKind::LwtOut
                | ProgramKind::LwtXmit
                | ProgramKind::CgroupSkb
                | ProgramKind::FlowDissector => {},
                _ => {
                    info.readable = false;
                },
            }
        } else if off == 88 || off == 92 || off == 96 || (100 <= off && off <= 128) || off == 132
            || off == 136 {
            match prog_kind {
                ProgramKind::CgroupSkb | ProgramKind::SockOps | ProgramKind::SkSkb => {},
                _ => {
                    info.readable = false;
                },
            }
        } else if off == 140 {
            match prog_kind {
                ProgramKind::CgroupSkb | ProgramKind::SockOps => {
                    info.readable = false;
                },
                _ => {},
            }
        }
    }
}

/// Whether pointers among a program's arguments are trusted. Of the tracing
/// programs only those on tracepoints and iterators get trusted ones.
pub open spec fn args_trusted(prog_kind: ProgramKind, attach_flavor: Option<Seq<char>>) -> bool {
    prog_kind != ProgramKind::Tracing || (attach_flavor matches Some(f) && (f == "tp_btf"@ || f
        == "raw_tp"@ || f == "raw_tp.w"@ || f == "iter"@ || f == "iter.s"@))
}

/// Whether pointers among a program's arguments are trusted.
pub fn entry_arg_trusted_for_attach(prog_kind: ProgramKind, attach_flavor: Option<&str>) -> (r:
    bool)
    ensures
        r == args_trusted(prog_kind, slice_text_of(attach_flavor)),
{
    match prog_kind {
        ProgramKind::Tracing => opt_is(attach_flavor, "tp_btf") || opt_is(attach_flavor, "raw_tp")
            || opt_is(attach_flavor, "raw_tp.w") || opt_is(attach_flavor, "iter") || opt_is(
            attach_flavor,
            "iter.s",
        ),
        _ => true,
    }
}

// ---------------------------------------------------------------------------
// Contexts that are not laid out by a table
// ---------------------------------------------------------------------------

/// A plain number that cannot be written.
pub open spec fn spec_read_only_scalar() -> CtxAccessInfo {
    CtxAccessInfo { kind: CtxFieldKind::Scalar, readable: true, writable: false }
}

fn read_only_scalar() -> (r: CtxAccessInfo)
    ensures
        r == spec_read_only_scalar(),
{
    CtxAccessInfo { kind: CtxFieldKind::Scalar, readable: true, writable: false }
}

/// A pointer that cannot be written.
pub open spec fn spec_read_only_ptr(
    struct_name: &'static str,
    nullable: bool,
    trusted: bool,
    tag_flags: PtrFlags,
) -> CtxAccessInfo {
    CtxAccessInfo {
        kind: CtxFieldKind::TrustedPtr { struct_name, nullable, trusted, tag_flags },
        readable: true,
        writable: false,
    }
}

fn read_only_ptr(
    struct_name: &'static str,
    nullable: bool,
    trusted: bool,
    tag_flags: PtrFlags,
) -> (r: CtxAccessInfo)
    ensures
        r == spec_read_only_ptr(struct_name, nullable, trusted, tag_flags),
{
    CtxAccessInfo {
        kind: CtxFieldKind::TrustedPtr { struct_name, nullable, trusted, tag_flags },
        readable: true,
        writable: false,
    }
}

/// Whether an access is an aligned one of a word that does not start before the
/// context.
pub open spec fn plain_access(off: i16, size: i64) -> bool {
    off >= 0 && word_size(size) && multiple(off as int, size as int)
}

fn is_plain_access(off: i16, size: i64) -> (r: bool)
    ensures
        r == plain_access(off, size),
{
    off >= 0 && is_word_size(size) && is_multiple(off, size as i16)
}

/// Whether a program's context is an array of its arguments.
pub open spec fn arg_array_kind(prog_kind: ProgramKind) -> bool {
    prog_kind == ProgramKind::StructOps || prog_kind == ProgramKind::Lsm || prog_kind
        == ProgramKind::Tracing || prog_kind == ProgramKind::Tracepoint || prog_kind
        == ProgramKind::RawTracepoint || prog_kind == ProgramKind::RawTracepointWritable
}

fn is_arg_array_kind(prog_kind: ProgramKind) -> (r: bool)
    ensures
        r == arg_array_kind(prog_kind),
{
    matches!(
        prog_kind,
        ProgramKind::StructOps | ProgramKind::Lsm | ProgramKind::Tracing | ProgramKind::Tracepoint
            | ProgramKind::RawTracepoint | ProgramKind::RawTracepointWritable
    )
}

/// The structure that a program's context pointer points to, for the programs
/// whose context is a structure of the kernel's own.
pub open spec fn direct_struct(ctx: ExecContext) -> Option<&'static str> {
    if !((ctx.prog_kind == ProgramKind::Tracing && text_of(ctx.attach_flavor) == Some("iter"@))
        || ctx.prog_kind == ProgramKind::RawTracepoint || ctx.prog_kind
        == ProgramKind::RawTracepointWritable) {
        None
    } else {
        match ctx.entry_args {
            Some(args) => if args@.len() > 0 {
                match args@[0] {
                    EntryArg::TrustedPtrBtfId { struct_name, nullable } => Some(struct_name),
                    _ => None,
                }
            } else {
                None
            },
            None => None,
        }
    }
}

fn direct_struct_of(ctx: &ExecContext) -> (r: Option<&'static str>)
    ensures
        r == direct_struct(*ctx),
{
    let typed = match ctx.prog_kind {
        ProgramKind::Tracing => opt_is(as_slice(&ctx.attach_flavor), "iter"),
        ProgramKind::RawTracepoint | ProgramKind::RawTracepointWritable => true,
        _ => false,
    };
    if !typed {
        return None;
    }
    match &ctx.entry_args {
        Some(args) => {
            if args.len() > 0 {
                match args[0] {
                    EntryArg::TrustedPtrBtfId { struct_name, .. } => Some(struct_name),
                    _ => None,
                }
            } else {
                None
            }
        },
        None => None,
    }
}

/// The first field of a structure that the type information has at an offset.
pub open spec fn btf_field_at(fields: Seq<BtfField>, name: Seq<char>, off: int) -> Option<BtfField>
    decreases fields.len(),
{
    if fields.len() == 0 {
        None
    } else if fields[0].struct_name@ == name && fields[0].offset == off {
        Some(fields[0])
    } else {
        btf_field_at(fields.skip(1), name, off)
    }
}

fn find_btf_field(fields: &Vec<BtfField>, name: &str, off: u32) -> (r: Option<BtfField>)
    ensures
        r == btf_field_at(fields@, name@, off as int),
{
    let mut i: usize = 0;
    assert(fields@.skip(0) =~= fields@);
    while i < fields.len()
        invariant
            i <= fields@.len(),
            btf_field_at(fields@.skip(i as int), name@, off as int) == btf_field_at(
                fields@,
                name@,
                off as int,
            ),
        decreases fields@.len() - i,
    {
        let f = fields[i];
        assert(fields@.skip(i as int)[0] == f);
        assert(fields@.skip(i as int).skip(1) =~= fields@.skip(i + 1));
        if f.offset == off && str_eq(f.struct_name, name) {
            return Some(f);
        }
        i += 1;
    }
    None
}

/// Whether an iterator hands out its elements one by one at offset 8, with a
/// null one at the end.
pub open spec fn single_cursor(name: Seq<char>) -> bool {
    ||| name == "bpf_iter__task"@
    ||| name == "bpf_iter__cgroup"@
    ||| name == "bpf_iter__tcp"@
    ||| name == "bpf_iter__udp"@
    ||| name == "bpf_iter__unix"@
    ||| name == "bpf_iter__netlink"@
    ||| name == "bpf_iter__bpf_link"@
    ||| name == "bpf_iter__bpf_prog"@
    ||| name == "bpf_iter__bpf_map"@
}

fn is_single_cursor(name: &str) -> (r: bool)
    ensures
        r == single_cursor(name@),
{
    str_eq(name, "bpf_iter__task")
        || str_eq(name, "bpf_iter__cgroup")
        || str_eq(name, "bpf_iter__tcp")
        || str_eq(name, "bpf_iter__udp")
        || str_eq(name, "bpf_iter__unix")
        || str_eq(name, "bpf_iter__netlink")
        || str_eq(name, "bpf_iter__bpf_link")
        || str_eq(name, "bpf_iter__bpf_prog")
        || str_eq(name, "bpf_iter__bpf_map")
}

/// Whether an iterator walks the files or mappings of tasks.
pub open spec fn task_walk(name: Seq<char>) -> bool {
    name == "bpf_iter__task_file"@ || name == "bpf_iter__task_vma"@
}

/// Whether an iterator walks the elements of a map.
pub open spec fn map_walk(name: Seq<char>) -> bool {
    name == "bpf_iter__bpf_map_elem"@ || name == "bpf_iter__bpf_sk_storage_map"@
}

/// Whether a typed field of an iterator's context may be null: the current
/// element, which is missing on the last call.
pub open spec fn payload_nullable(name: Seq<char>, off: i16) -> bool {
    if single_cursor(name) {
        off == 8
    } else if task_walk(name) {
        off == 16
    } else {
        map_walk(name) && (off == 16 || off == 24)
    }
}

/// Whether a field of a context without type information may be null.
pub open spec fn untyped_nullable(name: Seq<char>, off: i16) -> bool {
    if single_cursor(name) {
        off != 0
    } else if task_walk(name) || map_walk(name) {
        off != 0 && off != 8
    } else {
        off != 0 && off != 8 && off != 16 && off != 24
    }
}

fn nullable_payload(name: &str, off: i16) -> (r: bool)
    ensures
        r == payload_nullable(name@, off),
{
    if is_single_cursor(name) {
        off == 8
    } else if str_eq(name, "bpf_iter__task_file") || str_eq(name, "bpf_iter__task_vma") {
        off == 16
    } else {
        (str_eq(name, "bpf_iter__bpf_map_elem") || str_eq(name, "bpf_iter__bpf_sk_storage_map"))
            && (off == 16 || off == 24)
    }
}

fn nullable_untyped(name: &str, off: i16) -> (r: bool)
    ensures
        r == untyped_nullable(name@, off),
{
    if is_single_cursor(name) {
        off != 0
    } else if str_eq(name, "bpf_iter__task_file") || str_eq(name, "bpf_iter__task_vma") || str_eq(
        name,
        "bpf_iter__bpf_map_elem",
    ) || str_eq(name, "bpf_iter__bpf_sk_storage_map") {
        off != 0 && off != 8
    } else {
        off != 0 && off != 8 && off != 16 && off != 24
    }
}

/// What an iterator's element pointer points to.
pub open spec fn element_struct(name: Seq<char>) -> &'static str {
    if name == "bpf_iter__cgroup"@ {
        "cgroup"
    } else if name == "bpf_iter__task"@ {
        "task_struct"
    } else if name == "bpf_iter__task_file"@ {
        "task_struct"
    } else if name == "bpf_iter__task_vma"@ {
        "task_struct"
    } else if name == "bpf_iter__bpf_map"@ {
        "bpf_map"
    } else if name == "bpf_iter__bpf_link"@ {
        "bpf_link"
    } else if name == "bpf_iter__bpf_prog"@ {
        "bpf_prog"
    } else if name == "bpf_iter__tcp"@ {
        "sock_common"
    } else if name == "bpf_iter__udp"@ {
        "udp_sock"
    } else if name == "bpf_iter__unix"@ {
        "unix_sock"
    } else if name == "bpf_iter__netlink"@ {
        "netlink_sock"
    } else if name == "bpf_iter__sockmap"@ {
        "bpf_map"
    } else if name == "bpf_iter__ksym"@ {
        "kallsym_iter"
    } else if name == "bpf_iter__bpf_sk_storage_map"@ {
        "bpf_map"
    } else {
        "unknown"
    }
}

fn element_struct_of(name: &str) -> (r: &'static str)
    ensures
        r == element_struct(name@),
{
    if str_eq(name, "bpf_iter__cgroup") {
        "cgroup"
    } else if str_eq(name, "bpf_iter__task") {
        "task_struct"
    } else if str_eq(name, "bpf_iter__task_file") {
        "task_struct"
    } else if str_eq(name, "bpf_iter__task_vma") {
        "task_struct"
    } else if str_eq(name, "bpf_iter__bpf_map") {
        "bpf_map"
    } else if str_eq(name, "bpf_iter__bpf_link") {
        "bpf_link"
    } else if str_eq(name, "bpf_iter__bpf_prog") {
        "bpf_prog"
    } else if str_eq(name, "bpf_iter__tcp") {
        "sock_common"
    } else if str_eq(name, "bpf_iter__udp") {
        "udp_sock"
    } else if str_eq(name, "bpf_iter__unix") {
        "unix_sock"
    } else if str_eq(name, "bpf_iter__netlink") {
        "netlink_sock"
    } else if str_eq(name, "bpf_iter__sockmap") {
        "bpf_map"
    } else if str_eq(name, "bpf_iter__ksym") {
        "kallsym_iter"
    } else if str_eq(name, "bpf_iter__bpf_sk_storage_map") {
        "bpf_map"
    } else {
        "unknown"
    }
}

/// What a pointer field of a context without type information points to: the
/// iterator's own data come first, the element second.
pub open spec fn untyped_pointee(name: Seq<char>, off: i16) -> &'static str {
    if off == 0 {
        "bpf_iter_meta"
    } else if off == 8 {
        element_struct(name)
    } else {
        "unknown"
    }
}

/// What the type information says of a word in a structure of the kernel's own;
/// `None` where it says nothing that can be used.
pub open spec fn typed_word(fields: Seq<BtfField>, name: Seq<char>, off: i16) -> Option<
    CtxAccessInfo,
> {
    match btf_field_at(fields, name, off as int) {
        Some(f) => match f.kind {
            BtfFieldKind::Pointer { pointee } => if f.trusted_load {
                match pointee {
                    Some(p) => Some(
                        spec_read_only_ptr(
                            p,
                            payload_nullable(name, off),
                            true,
                            PtrFlags::spec_empty(),
                        ),
                    ),
                    None => Some(
                        CtxAccessInfo {
                            kind: CtxFieldKind::AllocMem { mem_size: 4096 },
                            readable: true,
                            writable: false,
                        },
                    ),
                }
            } else {
                None
            },
            BtfFieldKind::Scalar => Some(spec_read_only_scalar()),
            BtfFieldKind::Other => None,
        },
        None => None,
    }
}

/// What an aligned access to a structure of the kernel's own finds: what the
/// type information says, else a pointer for a word and a number for less.
pub open spec fn direct_access(
    fields: Seq<BtfField>,
    name: Seq<char>,
    off: i16,
    size: i64,
) -> CtxAccessInfo {
    if size == 8 {
        match typed_word(fields, name, off) {
            Some(info) => info,
            None => spec_read_only_ptr(
                untyped_pointee(name, off),
                untyped_nullable(name, off),
                true,
                PtrFlags::spec_empty(),
            ),
        }
    } else {
        spec_read_only_scalar()
    }
}

fn find_direct_access(fields: &Vec<BtfField>, name: &str, off: i16, size: i64) -> (r: CtxAccessInfo)
    requires
        off >= 0,
    ensures
        r == direct_access(fields@, name@, off, size),
{
    if size != 8 {
        return read_only_scalar();
    }
    match find_btf_field(fields, name, off as u32) {
        Some(f) => {
            match f.kind {
                BtfFieldKind::Pointer { pointee } => {
                    if f.trusted_load {
                        match pointee {
                            Some(p) => {
                                return read_only_ptr(
                                    p,
                                    nullable_payload(name, off),
                                    true,
                                    PtrFlags::empty(),
                                );
                            },
                            None => {
                                return CtxAccessInfo {
                                    kind: CtxFieldKind::AllocMem { mem_size: 4096 },
                                    readable: true,
                                    writable: false,
                                };
                            },
                        }
                    }
                },
                BtfFieldKind::Scalar => {
                    return read_only_scalar();
                },
                BtfFieldKind::Other => {},
            }
        },
        None => {},
    }
    let pointee = if off == 0 {
        "bpf_iter_meta"
    } else if off == 8 {
        element_struct_of(name)
    } else {
        "unknown"
    };
    read_only_ptr(pointee, nullable_untyped(name, off), true, PtrFlags::empty())
}

/// Whether a tracepoint argument may be null.
pub open spec fn tracepoint_arg_nullable(ctx: ExecContext, arg_idx: u8) -> bool {
    (text_of(ctx.attach_flavor) == Some("tp_btf"@) || text_of(ctx.attach_flavor) == Some("raw_tp"@)
        || text_of(ctx.attach_flavor) == Some("raw_tp.w"@)) && (text_of(
        ctx.attach_subtype,
    ) matches Some(tp) && exists|i: int|
        0 <= i < ctx.maybe_null_args@.len() && (#[trigger] ctx.maybe_null_args@[i]).0@ == tp
            && ctx.maybe_null_args@[i].1 == arg_idx)
}

fn is_tracepoint_arg_nullable(ctx: &ExecContext, arg_idx: u8) -> (r: bool)
    ensures
        r == tracepoint_arg_nullable(*ctx, arg_idx),
{
    let flavor = as_slice(&ctx.attach_flavor);
    if !(opt_is(flavor, "tp_btf") || opt_is(flavor, "raw_tp") || opt_is(flavor, "raw_tp.w")) {
        return false;
    }
    match &ctx.attach_subtype {
        Some(tp) => {
            let mut i: usize = 0;
            while i < ctx.maybe_null_args.len()
                invariant
                    i <= ctx.maybe_null_args@.len(),
                    text_of(ctx.attach_subtype) == Some(tp@),
                    text_of(ctx.attach_flavor) == Some("tp_btf"@) || text_of(ctx.attach_flavor)
                        == Some("raw_tp"@) || text_of(ctx.attach_flavor) == Some("raw_tp.w"@),
                    forall|j: int|
                        0 <= j < i ==> !((#[trigger] ctx.maybe_null_args@[j]).0@ == tp@
                            && ctx.maybe_null_args@[j].1 == arg_idx),
                decreases ctx.maybe_null_args@.len() - i,
            {
                let row = ctx.maybe_null_args[i];
                if row.1 == arg_idx && str_eq(row.0, tp.as_str()) {
                    assert(ctx.maybe_null_args@[i as int].0@ == tp@);
                    return true;
                }
                i += 1;
            }
            false
        },
        None => false,
    }
}

/// What the declared argument at a place of the argument array holds.
pub open spec fn declared_arg(ctx: ExecContext, arg: EntryArg, arg_idx: u8) -> CtxAccessInfo {
    CtxAccessInfo {
        kind: match arg {
            EntryArg::Scalar => CtxFieldKind::Scalar,
            EntryArg::TrustedPtrBtfId { struct_name, nullable } => CtxFieldKind::TrustedPtr {
                struct_name,
                nullable: nullable || tracepoint_arg_nullable(ctx, arg_idx),
                trusted: args_trusted(ctx.prog_kind, text_of(ctx.attach_flavor)),
                tag_flags: PtrFlags::spec_empty(),
            },
            EntryArg::BoundedScalar { lo, hi } => CtxFieldKind::BoundedScalar { lo, hi },
            EntryArg::TrustedRefcountedTask { ref_id } => CtxFieldKind::RefcountedTask { ref_id },
        },
        readable: true,
        writable: false,
    }
}

/// What a place of the argument array holds that no declaration covers: a number
/// where the attach target is known to have one there, else a pointer to an
/// unknown structure. A `struct_ops` member has declared arguments only.
pub open spec fn undeclared_arg(ctx: ExecContext, arg_idx: u8) -> Option<CtxAccessInfo> {
    if ctx.prog_kind == ProgramKind::StructOps {
        None
    } else if spec_tracing_attach_arg_kind(text_of(ctx.attach_subtype), arg_idx) is Some {
        Some(spec_read_only_scalar())
    } else {
        Some(
            spec_read_only_ptr(
                "unknown",
                tracepoint_arg_nullable(ctx, arg_idx),
                args_trusted(ctx.prog_kind, text_of(ctx.attach_flavor)),
                spec_tracing_attach_arg_tag_flags(text_of(ctx.attach_subtype), arg_idx),
            ),
        )
    }
}

/// What a place of the argument array holds.
pub open spec fn arg_slot(ctx: ExecContext, slot: u16) -> Option<CtxAccessInfo> {
    match ctx.entry_args {
        Some(args) => if slot < args@.len() {
            Some(declared_arg(ctx, args@[slot as int], slot as u8))
        } else {
            undeclared_arg(ctx, slot as u8)
        },
        None => undeclared_arg(ctx, slot as u8),
    }
}

fn find_arg_slot(ctx: &ExecContext, slot: u16) -> (r: Option<CtxAccessInfo>)
    ensures
        r == arg_slot(*ctx, slot),
{
    let arg_idx: u8 = #[verifier::truncate]
    (slot as u8);
    let nullable = is_tracepoint_arg_nullable(ctx, arg_idx);
    let trusted = entry_arg_trusted_for_attach(ctx.prog_kind, as_slice(&ctx.attach_flavor));
    match &ctx.entry_args {
        Some(args) => {
            if (slot as usize) < args.len() {
                let kind = match args[slot as usize] {
                    EntryArg::Scalar => CtxFieldKind::Scalar,
                    EntryArg::TrustedPtrBtfId { struct_name, nullable: declared } => {
                        CtxFieldKind::TrustedPtr {
                            struct_name,
                            nullable: declared || nullable,
                            trusted,
                            tag_flags: PtrFlags::empty(),
                        }
                    },
                    EntryArg::BoundedScalar { lo, hi } => CtxFieldKind::BoundedScalar { lo, hi },
                    EntryArg::TrustedRefcountedTask { ref_id } => CtxFieldKind::RefcountedTask {
                        ref_id,
                    },
                };
                return Some(CtxAccessInfo { kind, readable: true, writable: false });
            }
        },
        None => {},
    }
    if ctx.prog_kind == ProgramKind::StructOps {
        return None;
    }
    let target = as_slice(&ctx.attach_subtype);
    match tracing_attach_arg_kind(target, arg_idx) {
        Some(_) => Some(read_only_scalar()),
        None => {
            let tag_flags = tracing_attach_arg_tag_flags(target, arg_idx);
            Some(read_only_ptr("unknown", nullable, trusted, tag_flags))
        },
    }
}

/// The place of the argument array that an offset belongs to.
pub open spec fn slot_of(off: i16) -> u16 {
    (off as u16) / 8
}

/// What an access to a netfilter context finds: the hook state, then the packet.
pub open spec fn netfilter_access(off: i16, size: i64) -> Option<CtxAccessInfo> {
    if size == 8 && off == 0 {
        Some(spec_read_only_ptr("nf_hook_state", false, true, PtrFlags::spec_empty()))
    } else if size == 8 && off == 8 {
        Some(spec_read_only_ptr("sk_buff", false, true, PtrFlags::spec_empty()))
    } else {
        None
    }
}

/// Whether the attach point keeps a socket program away from a field.
pub open spec fn sock_field_denied(subtype: Option<Seq<char>>, off: i16) -> bool {
    match subtype {
        Some(s) => if s == "sock_create"@ || s == "sock_release"@ {
            24 <= off < 48
        } else if s == "post_bind4"@ {
            off == 16 || 28 <= off < 44
        } else if s == "post_bind6"@ {
            off == 16 || off == 24
        } else {
            false
        },
        None => false,
    }
}

fn is_sock_field_denied(subtype: Option<&str>, off: i16) -> (r: bool)
    ensures
        r == sock_field_denied(slice_text_of(subtype), off),
{
    match subtype {
        Some(s) => {
            if str_eq(s, "sock_create") || str_eq(s, "sock_release") {
                24 <= off && off < 48
            } else if str_eq(s, "post_bind4") {
                off == 16 || (28 <= off && off < 44)
            } else if str_eq(s, "post_bind6") {
                off == 16 || off == 24
            } else {
                false
            }
        },
        None => false,
    }
}

// ---------------------------------------------------------------------------
// The access check
// ---------------------------------------------------------------------------

/// What an access to a laid-out structure finds: a scratch region, else a field,
/// as the kind of program allows it. In a structure without a table nothing else
/// is found.
pub open spec fn layout_access(ctx: ExecContext, off: i16, size: i64) -> Option<CtxAccessInfo> {
    let found = match spec_lookup_region(ctx.tables, ctx.context_kind, off, size) {
        Some(info) => Some(info),
        None => match field_tables(
            ctx.tables,
            ctx.context_kind,
            ctx.prog_kind,
            text_of(ctx.attach_subtype),
        ) {
            Some((base, extended)) => match spec_lookup_field(base, off, size) {
                Some(info) => Some(info),
                None => spec_lookup_field(extended, off, size),
            },
            None => None,
        },
    };
    match found {
        Some(info) => Some(overridden(ctx.context_kind, ctx.prog_kind, off, info)),
        None => None,
    }
}

/// What an access to the context finds; `None` where it is not allowed.
pub open spec fn ctx_access(ctx: ExecContext, off: i16, size: i64) -> Option<CtxAccessInfo> {
    if ctx.prog_kind == ProgramKind::Syscall && plain_access(off, size) && off + size <= 4096 {
        Some(CtxAccessInfo { kind: CtxFieldKind::Scalar, readable: true, writable: true })
    } else if ctx.prog_kind == ProgramKind::RawTracepoint && plain_access(off, size) && off + size
        <= 96 {
        Some(spec_read_only_scalar())
    } else if plain_access(off, size) && direct_struct(ctx) is Some {
        Some(direct_access(ctx.btf_fields@, direct_struct(ctx)->0@, off, size))
    } else if arg_array_kind(ctx.prog_kind) {
        if size == 8 && off >= 0 && off as int % 8 == 0 {
            arg_slot(ctx, slot_of(off))
        } else {
            None
        }
    } else if ctx.prog_kind == ProgramKind::Netfilter {
        netfilter_access(off, size)
    } else if ctx.prog_kind == ProgramKind::CgroupSock && sock_field_denied(
        text_of(ctx.attach_subtype),
        off,
    ) {
        None
    } else {
        layout_access(ctx, off, size)
    }
}

/// Whether the outcome of an access rests on the layout tables.
pub open spec fn reaches_layout(ctx: ExecContext, off: i16, size: i64) -> bool {
    &&& !(ctx.prog_kind == ProgramKind::Syscall && plain_access(off, size) && off + size <= 4096)
    &&& !arg_array_kind(ctx.prog_kind)
    &&& ctx.prog_kind != ProgramKind::Netfilter
    &&& !(ctx.prog_kind == ProgramKind::CgroupSock && sock_field_denied(
        text_of(ctx.attach_subtype),
        off,
    ))
}

/// Whether the end of an access can be computed: it fits the offset's width, and
/// an access to a table has a width.
pub open spec fn access_computable(ctx: ExecContext, off: i16, size: i64) -> bool {
    reaches_layout(ctx, off, size) ==> {
        &&& i16::MIN <= off + (size as i16) <= i16::MAX
        &&& field_tables(
            ctx.tables,
            ctx.context_kind,
            ctx.prog_kind,
            text_of(ctx.attach_subtype),
        ) is Some ==> size as i16 != 0
    }
}

/// Checks an access to the context and says what it finds; `None` where it is
/// not allowed.
pub fn validate_ctx_access(env: &VerifierEnv, off: i16, size: i64) -> (r: Option<CtxAccessInfo>)
    requires
        access_computable(*env.ctx, off, size),
    ensures
        r == ctx_access(*env.ctx, off, size),
{
    let ctx = env.ctx;
    let prog_kind = ctx.prog_kind;
    let plain = is_plain_access(off, size);
    if prog_kind == ProgramKind::Syscall && plain && off as i64 + size <= 4096 {
        return Some(CtxAccessInfo { kind: CtxFieldKind::Scalar, readable: true, writable: true });
    }
    if prog_kind == ProgramKind::RawTracepoint && plain && off as i64 + size <= 96 {
        return Some(read_only_scalar());
    }
    if plain {
        match direct_struct_of(ctx) {
            Some(name) => {
                return Some(find_direct_access(&ctx.btf_fields, name, off, size));
            },
            None => {},
        }
    }
    if is_arg_array_kind(prog_kind) {
        if size == 8 && off >= 0 && (off as u16) % 8 == 0 {
            return find_arg_slot(ctx, (off as u16) / 8);
        }
        return None;
    }
    if prog_kind == ProgramKind::Netfilter {
        if size == 8 && off == 0 {
            return Some(read_only_ptr("nf_hook_state", false, true, PtrFlags::empty()));
        }
        if size == 8 && off == 8 {
            return Some(read_only_ptr("sk_buff", false, true, PtrFlags::empty()));
        }
        return None;
    }
    if prog_kind == ProgramKind::CgroupSock && is_sock_field_denied(
        as_slice(&ctx.attach_subtype),
        off,
    ) {
        return None;
    }
    let ctx_kind = ctx.context_kind;
    match lookup_region(&ctx.tables, ctx_kind, off, size) {
        Some(found) => {
            let mut info = found;
            apply_prog_type_overrides(ctx_kind, prog_kind, off, &mut info);
            return Some(info);
        },
        None => {},
    }
    match get_field_tables(&ctx.tables, ctx_kind, prog_kind, as_slice(&ctx.attach_subtype)) {
        Some((base, extended)) => {
            let found = match lookup_field(base, off, size) {
                Some(info) => Some(info),
                None => match extended {
                    Some(more) => lookup_field(more, off, size),
                    None => None,
                },
            };
            match found {
                Some(f) => {
                    let mut info = f;
                    apply_prog_type_overrides(ctx_kind, prog_kind, off, &mut info);
                    Some(info)
                },
                None => None,
            }
        },
        None => None,
    }
}

/// Whether the context may be read at an offset.
pub fn is_valid_ctx_read(env: &VerifierEnv, off: i16, size: i64) -> (r: bool)
    requires
        access_computable(*env.ctx, off, size),
    ensures
        r == (ctx_access(*env.ctx, off, size) matches Some(info) && info.readable),
{
    match validate_ctx_access(env, off, size) {
        Some(info) => info.readable,
        None => false,
    }
}

/// Whether the context may be written at an offset.
pub fn is_valid_ctx_write(env: &VerifierEnv, off: i16, size: i64) -> (r: bool)
    requires
        access_computable(*env.ctx, off, size),
    ensures
        r == (ctx_access(*env.ctx, off, size) matches Some(info) && info.writable),
{
    match validate_ctx_access(env, off, size) {
        Some(info) => info.writable,
        None => false,
    }
}

// ---------------------------------------------------------------------------
// Laws
// ---------------------------------------------------------------------------

/// A context that is an array of arguments can only be read, and not before its
/// start.
pub proof fn law_arguments_are_read_only(ctx: ExecContext, off: i16, size: i64)
    requires
        arg_array_kind(ctx.prog_kind),
    ensures
        ctx_access(ctx, off, size) matches Some(info) ==> info.readable && !info.writable && off >= 0,
{
}

/// Arguments are read as whole words, one at a time, unless the context is a
/// structure of the kernel's own or holds plain numbers.
pub proof fn law_arguments_are_whole_words(ctx: ExecContext, off: i16, size: i64)
    requires
        arg_array_kind(ctx.prog_kind),
        direct_struct(ctx) is None,
        ctx.prog_kind != ProgramKind::RawTracepoint,
        ctx_access(ctx, off, size) is Some,
    ensures
        size == 8,
        off as int % 8 == 0,
{
}

/// A raw tracepoint's arguments are numbers, whatever the program declares them to
/// be.
pub proof fn law_raw_tracepoints_hold_numbers(ctx: ExecContext, off: i16, size: i64)
    requires
        ctx.prog_kind == ProgramKind::RawTracepoint,
        plain_access(off, size),
        off + size <= 96,
    ensures
        ctx_access(ctx, off, size) == Some(spec_read_only_scalar()),
{
}

/// A `struct_ops` member has no arguments beyond the declared ones.
pub proof fn law_members_have_declared_arguments_only(ctx: ExecContext, off: i16, size: i64)
    requires
        ctx.prog_kind == ProgramKind::StructOps,
        ctx_access(ctx, off, size) is Some,
    ensures
        ctx.entry_args matches Some(args) && slot_of(off) < args@.len(),
{
}

/// Of a netfilter context exactly two words can be read, and none can be written.
pub proof fn law_netfilter_words(ctx: ExecContext, off: i16, size: i64)
    requires
        ctx.prog_kind == ProgramKind::Netfilter,
    ensures
        ctx_access(ctx, off, size) is Some <==> size == 8 && (off == 0 || off == 8),
        ctx_access(ctx, off, size) matches Some(info) ==> !info.writable,
{
}

/// While a socket is made or released, its source address and port are out of
/// reach.
pub proof fn law_new_sockets_have_no_source(ctx: ExecContext, off: i16, size: i64)
    requires
        ctx.prog_kind == ProgramKind::CgroupSock,
        text_of(ctx.attach_subtype) == Some("sock_create"@) || text_of(ctx.attach_subtype) == Some(
            "sock_release"@,
        ),
        24 <= off < 48,
    ensures
        ctx_access(ctx, off, size) is None,
{
}

/// In a context of which no layout is known nothing can be accessed.
pub proof fn law_unknown_contexts_are_refused(ctx: ExecContext, off: i16, size: i64)
    requires
        reaches_layout(ctx, off, size),
        field_tables(
            ctx.tables,
            ctx.context_kind,
            ctx.prog_kind,
            text_of(ctx.attach_subtype),
        ) is None,
    ensures
        ctx_access(ctx, off, size) is None,
{
}

/// A program that may not read packets cannot read the packet pointers of its
/// context.
pub proof fn law_packet_pointers_are_guarded(ctx: ExecContext, off: i16, size: i64)
    requires
        ctx.context_kind == ContextKind::SkBuff,
        reaches_layout(ctx, off, size),
        !reads_packet(ctx.prog_kind),
        76 <= off <= 80,
    ensures
        ctx_access(ctx, off, size) matches Some(info) ==> !info.readable,
{
}

}
