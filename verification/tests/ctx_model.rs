use alivio::ast::{ContextKind, MemSize, Program, ProgramKind};
use alivio::ctx_model::{
    is_valid_ctx_read, is_valid_ctx_write, validate_ctx_access, CtxAccessInfo, CtxField,
    CtxFieldKind, CtxTables,
};
use alivio::env::{BtfField, BtfFieldKind, ExecContext, VerifierEnv};
use alivio::machine::{EntryArg, PtrFlags};

fn field(offset: i16, size: MemSize, kind: CtxFieldKind, readable: bool, writable: bool, narrow: bool) -> CtxField {
    CtxField { offset, size, kind, writable, readable, narrow_access: narrow }
}

fn scalar_u32(offset: i16) -> CtxField {
    field(offset, MemSize::U32, CtxFieldKind::Scalar, true, false, true)
}

fn tables() -> CtxTables {
    CtxTables {
        sk_buff: vec![
            scalar_u32(0),
            scalar_u32(8),
            scalar_u32(32),
            field(72, MemSize::U32, CtxFieldKind::Scalar, true, true, true),
            field(76, MemSize::U32, CtxFieldKind::PacketStart, true, false, false),
            field(80, MemSize::U32, CtxFieldKind::PacketEnd, true, false, false),
            scalar_u32(88),
            field(140, MemSize::U32, CtxFieldKind::PacketMeta, true, false, false),
        ],
        sk_buff_extended: vec![field(152, MemSize::U64, CtxFieldKind::Scalar, true, false, false)],
        flow_dissector_extended: vec![field(144, MemSize::U64, CtxFieldKind::Scalar, true, false, false)],
        xdp_md: vec![field(0, MemSize::U32, CtxFieldKind::PacketStart, true, false, false)],
        xdp_md_devmap: vec![scalar_u32(20)],
        sock_addr: vec![scalar_u32(0)],
        sockopt: vec![field(0, MemSize::U64, CtxFieldKind::Socket, true, false, false)],
        sk_lookup: vec![field(0, MemSize::U64, CtxFieldKind::SocketOrNull, true, false, false)],
        sk_reuseport: vec![scalar_u32(0)],
        sock_ops: vec![scalar_u32(0)],
        sock: vec![scalar_u32(0), scalar_u32(16), scalar_u32(24), scalar_u32(44)],
        sk_msg_md: vec![scalar_u32(0)],
        pt_regs: vec![field(0, MemSize::U64, CtxFieldKind::Scalar, true, false, false)],
        trace_iter_task: vec![scalar_u32(0)],
        sk_buff_cb: (48, 68),
        sock_addr_user_ip6: (8, 24),
        sock_addr_msg_src_ip6: (44, 60),
    }
}

fn context(prog_kind: ProgramKind, context_kind: ContextKind) -> ExecContext {
    ExecContext {
        prog_kind,
        context_kind,
        attach_flavor: None,
        attach_subtype: None,
        entry_args: None,
        freplace_arg_types: None,
        btf_fields: Vec::new(),
        maybe_null_args: Vec::new(),
        tables: tables(),
        map_defs: Vec::new(),
        relocs: Vec::new(),
        priv_stack_requested: false,
        test_state_freq: false,
    }
}

fn access(ctx: &ExecContext, off: i16, size: i64) -> Option<CtxAccessInfo> {
    let prog = Program { instrs: Vec::new(), invalid_pcs: Vec::new() };
    let env = VerifierEnv::new(ctx, &prog, None, false, false);
    let info = validate_ctx_access(&env, off, size);
    assert_eq!(is_valid_ctx_read(&env, off, size), info.map(|i| i.readable).unwrap_or(false));
    assert_eq!(is_valid_ctx_write(&env, off, size), info.map(|i| i.writable).unwrap_or(false));
    info
}

fn rw(info: Option<CtxAccessInfo>) -> Option<(bool, bool)> {
    info.map(|i| (i.readable, i.writable))
}

fn ptr(name: &'static str, nullable: bool, trusted: bool) -> CtxFieldKind {
    CtxFieldKind::TrustedPtr { struct_name: name, nullable, trusted, tag_flags: PtrFlags::empty() }
}

#[test]
fn syscall_contexts_are_numbers() {
    let ctx = context(ProgramKind::Syscall, ContextKind::Unmodeled);
    assert_eq!(rw(access(&ctx, 0, 8)), Some((true, true)));
    assert_eq!(rw(access(&ctx, 4088, 8)), Some((true, true)));
    // Beyond the bound, and for an access that is not aligned, nothing is known.
    assert!(access(&ctx, 4096, 8).is_none());
    assert!(access(&ctx, 3, 2).is_none());
}

#[test]
fn raw_tracepoints_are_numbers() {
    let mut ctx = context(ProgramKind::RawTracepoint, ContextKind::Unmodeled);
    ctx.entry_args = Some(vec![EntryArg::TrustedPtrBtfId { struct_name: "pt_regs", nullable: false }]);
    for off in [0i16, 8, 88] {
        let info = access(&ctx, off, 8).unwrap();
        assert_eq!(info.kind, CtxFieldKind::Scalar);
        assert!(info.readable && !info.writable);
    }
    assert_eq!(access(&ctx, 92, 4).unwrap().kind, CtxFieldKind::Scalar);
    assert!(access(&ctx, -8, 8).is_none());
    assert!(access(&ctx, 4, 8).is_none());
}

#[test]
fn iterators_are_typed() {
    let mut ctx = context(ProgramKind::Tracing, ContextKind::Unmodeled);
    ctx.attach_flavor = Some("iter".to_string());
    ctx.entry_args = Some(vec![EntryArg::TrustedPtrBtfId { struct_name: "bpf_iter__task", nullable: false }]);
    ctx.btf_fields = vec![
        BtfField { struct_name: "bpf_iter__task", offset: 16, kind: BtfFieldKind::Scalar, trusted_load: false },
        BtfField {
            struct_name: "bpf_iter__task",
            offset: 24,
            kind: BtfFieldKind::Pointer { pointee: None },
            trusted_load: true,
        },
        BtfField {
            struct_name: "bpf_iter__task",
            offset: 32,
            kind: BtfFieldKind::Pointer { pointee: Some("file") },
            trusted_load: true,
        },
        BtfField {
            struct_name: "bpf_iter__task",
            offset: 40,
            kind: BtfFieldKind::Pointer { pointee: Some("file") },
            trusted_load: false,
        },
    ];
    assert_eq!(access(&ctx, 0, 8).unwrap().kind, ptr("bpf_iter_meta", false, true));
    assert_eq!(access(&ctx, 8, 8).unwrap().kind, ptr("task_struct", true, true));
    assert_eq!(access(&ctx, 16, 8).unwrap().kind, CtxFieldKind::Scalar);
    assert_eq!(access(&ctx, 24, 8).unwrap().kind, CtxFieldKind::AllocMem { mem_size: 4096 });
    assert_eq!(access(&ctx, 32, 8).unwrap().kind, ptr("file", false, true));
    assert_eq!(access(&ctx, 40, 8).unwrap().kind, ptr("unknown", true, true));
    assert_eq!(access(&ctx, 8, 4).unwrap().kind, CtxFieldKind::Scalar);
    assert!(access(&ctx, 4, 8).is_none());
}

#[test]
fn iterator_payloads() {
    let rows: [(&'static str, &'static str, bool, bool); 6] = [
        ("bpf_iter__cgroup", "cgroup", true, true),
        ("bpf_iter__task_file", "task_struct", false, true),
        ("bpf_iter__bpf_map_elem", "unknown", false, true),
        ("bpf_iter__bpf_sk_storage_map", "bpf_map", false, true),
        ("bpf_iter__sockmap", "bpf_map", false, false),
        ("bpf_iter__ksym", "kallsym_iter", false, false),
    ];
    for (name, pointee, null_at_8, null_at_16) in rows {
        let mut ctx = context(ProgramKind::Tracing, ContextKind::Unmodeled);
        ctx.attach_flavor = Some("iter".to_string());
        ctx.entry_args = Some(vec![EntryArg::TrustedPtrBtfId { struct_name: name, nullable: false }]);
        assert_eq!(access(&ctx, 8, 8).unwrap().kind, ptr(pointee, null_at_8, true));
        assert_eq!(access(&ctx, 16, 8).unwrap().kind, ptr("unknown", null_at_16, true));
        assert_eq!(access(&ctx, 0, 8).unwrap().kind, ptr("bpf_iter_meta", false, true));
    }
}

#[test]
fn declared_arguments() {
    let mut ctx = context(ProgramKind::Tracing, ContextKind::Unmodeled);
    ctx.attach_flavor = Some("tp_btf".to_string());
    ctx.attach_subtype = Some("sched_pi_setprio".to_string());
    ctx.maybe_null_args = vec![("sched_pi_setprio", 1)];
    ctx.entry_args = Some(vec![
        EntryArg::Scalar,
        EntryArg::TrustedPtrBtfId { struct_name: "task_struct", nullable: false },
        EntryArg::BoundedScalar { lo: -4095, hi: 0 },
        EntryArg::TrustedRefcountedTask { ref_id: 7 },
    ]);
    assert_eq!(access(&ctx, 0, 8).unwrap().kind, CtxFieldKind::Scalar);
    assert_eq!(access(&ctx, 8, 8).unwrap().kind, ptr("task_struct", true, true));
    assert_eq!(access(&ctx, 16, 8).unwrap().kind, CtxFieldKind::BoundedScalar { lo: -4095, hi: 0 });
    assert_eq!(access(&ctx, 24, 8).unwrap().kind, CtxFieldKind::RefcountedTask { ref_id: 7 });
    assert_eq!(access(&ctx, 32, 8).unwrap().kind, ptr("unknown", false, true));
    assert!(access(&ctx, 8, 4).is_none());
    assert!(access(&ctx, 12, 8).is_none());
    ctx.attach_flavor = Some("fentry".to_string());
    assert_eq!(access(&ctx, 8, 8).unwrap().kind, ptr("task_struct", false, false));
}

#[test]
fn undeclared_arguments() {
    let mut ctx = context(ProgramKind::Tracing, ContextKind::Unmodeled);
    ctx.attach_flavor = Some("fentry".to_string());
    ctx.attach_subtype = Some("bpf_fentry_test4".to_string());
    assert_eq!(access(&ctx, 0, 8).unwrap().kind, ptr("unknown", false, false));
    assert_eq!(access(&ctx, 8, 8).unwrap().kind, CtxFieldKind::Scalar);
    ctx.attach_subtype = Some("__sys_getsockname".to_string());
    assert_eq!(
        access(&ctx, 8, 8).unwrap().kind,
        CtxFieldKind::TrustedPtr {
            struct_name: "unknown",
            nullable: false,
            trusted: false,
            tag_flags: PtrFlags { trusted: false, user: true, percpu: false },
        }
    );
    let mut ops = context(ProgramKind::StructOps, ContextKind::Unmodeled);
    assert!(access(&ops, 0, 8).is_none());
    ops.entry_args = Some(vec![EntryArg::Scalar]);
    assert_eq!(access(&ops, 0, 8).unwrap().kind, CtxFieldKind::Scalar);
    assert!(access(&ops, 8, 8).is_none());
}

#[test]
fn netfilter_contexts() {
    let ctx = context(ProgramKind::Netfilter, ContextKind::Unmodeled);
    assert_eq!(access(&ctx, 0, 8).unwrap().kind, ptr("nf_hook_state", false, true));
    assert_eq!(access(&ctx, 8, 8).unwrap().kind, ptr("sk_buff", false, true));
    assert!(access(&ctx, 0, 4).is_none());
    assert!(access(&ctx, 16, 8).is_none());
}

#[test]
fn socket_fields_by_attach_point() {
    let mut ctx = context(ProgramKind::CgroupSock, ContextKind::BpfSock);
    assert!(access(&ctx, 44, 2).is_some());
    ctx.attach_subtype = Some("sock_create".to_string());
    assert!(access(&ctx, 44, 2).is_none());
    assert!(access(&ctx, 24, 4).is_none());
    assert!(access(&ctx, 16, 4).is_some());
    ctx.attach_subtype = Some("post_bind4".to_string());
    assert!(access(&ctx, 16, 4).is_none());
    assert!(access(&ctx, 24, 4).is_some());
    assert!(access(&ctx, 44, 4).is_some());
    ctx.attach_subtype = Some("post_bind6".to_string());
    assert!(access(&ctx, 24, 4).is_none());
    assert!(access(&ctx, 16, 4).is_none());
}

#[test]
fn packet_buffers_by_kind() {
    let tc = context(ProgramKind::SchedCls, ContextKind::SkBuff);
    let filter = context(ProgramKind::SocketFilter, ContextKind::SkBuff);
    let parser = context(ProgramKind::SkSkb, ContextKind::SkBuff);
    let cgroup = context(ProgramKind::CgroupSkb, ContextKind::SkBuff);
    // mark
    assert_eq!(rw(access(&tc, 8, 4)), Some((true, true)));
    assert_eq!(rw(access(&parser, 8, 4)), Some((false, false)));
    // priority
    assert_eq!(rw(access(&tc, 32, 4)), Some((true, true)));
    assert_eq!(rw(access(&filter, 32, 4)), Some((true, false)));
    // tc_classid
    assert_eq!(rw(access(&tc, 72, 4)), Some((false, true)));
    assert_eq!(rw(access(&filter, 72, 4)), Some((false, false)));
    // data
    assert_eq!(rw(access(&tc, 76, 4)), Some((true, false)));
    assert_eq!(rw(access(&filter, 76, 4)), Some((false, false)));
    // family
    assert_eq!(rw(access(&cgroup, 88, 4)), Some((true, false)));
    assert_eq!(rw(access(&tc, 88, 4)), Some((false, false)));
    // data_meta
    assert_eq!(rw(access(&tc, 140, 4)), Some((true, false)));
    assert_eq!(rw(access(&cgroup, 140, 4)), Some((false, false)));
    // tstamp
    assert_eq!(rw(access(&tc, 152, 8)), Some((true, true)));
    assert_eq!(rw(access(&filter, 152, 8)), None);
    let fd = context(ProgramKind::FlowDissector, ContextKind::SkBuff);
    assert_eq!(rw(access(&fd, 144, 8)), Some((true, false)));
}

#[test]
fn regions_and_narrow_accesses() {
    let tc = context(ProgramKind::SchedCls, ContextKind::SkBuff);
    assert_eq!(rw(access(&tc, 48, 8)), Some((true, true)));
    assert_eq!(rw(access(&tc, 64, 4)), Some((true, true)));
    assert_eq!(rw(access(&tc, 64, 8)), None);
    assert_eq!(rw(access(&tc, 50, 4)), None);
    // A part of a field that allows it, and of one that does not.
    assert_eq!(rw(access(&tc, 34, 2)), Some((true, false)));
    assert_eq!(rw(access(&tc, 76, 2)), None);
    assert_eq!(rw(access(&tc, 30, 4)), None);
    let addr = context(ProgramKind::CgroupSockAddr, ContextKind::BpfSockAddr);
    assert_eq!(rw(access(&addr, 16, 8)), Some((true, true)));
    assert_eq!(rw(access(&addr, 48, 8)), Some((true, true)));
    assert_eq!(rw(access(&addr, 24, 8)), None);
}

#[test]
fn xdp_and_unmodeled_contexts() {
    let mut xdp = context(ProgramKind::Xdp, ContextKind::XdpMd);
    assert_eq!(access(&xdp, 0, 4).unwrap().kind, CtxFieldKind::PacketStart);
    assert!(access(&xdp, 20, 4).is_none());
    xdp.attach_subtype = Some("devmap".to_string());
    assert_eq!(rw(access(&xdp, 20, 4)), Some((true, false)));
    let other = context(ProgramKind::Unknown, ContextKind::Unmodeled);
    for off in [0i16, 4, 120, 123] {
        for size in [1i64, 2, 4, 8] {
            assert!(access(&other, off, size).is_none());
        }
    }
    let lookup = context(ProgramKind::SkLookup, ContextKind::SkLookup);
    assert_eq!(access(&lookup, 0, 8).unwrap().kind, CtxFieldKind::SocketOrNull);
}
