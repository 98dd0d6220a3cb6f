use alivio::ast::ProgramKind;
use alivio::attach_rules::{
    is_noreturn_kernel_fn, is_sleepable_allowed_struct_ops_member, is_struct_ops_arg_maybe_null,
    is_struct_ops_arg_refcounted, is_struct_ops_sleepable_sec, is_tracing_attach_denied,
    is_unsupported_struct_ops_member, license_is_gpl_compatible, lsm_hook_is_disabled,
    lsm_int_hook_pointer_prefix, lsm_int_hook_trailing_args, struct_ops_member_priv_stack_requested,
    struct_ops_refcounted_arg_count, tracing_attach_arg_kind, tracing_attach_arg_tag_flags,
    StructOpsBinding, TracingArgKind, GPL_ONLY_STRUCT_OPS, MAX_ERRNO,
};
use alivio::machine::{EntryArg, PtrFlags};

fn binding(subprog: &str, ops: &str, member: &str) -> StructOpsBinding {
    StructOpsBinding {
        subprog: subprog.to_string(),
        ops_struct: ops.to_string(),
        member: member.to_string(),
    }
}

#[test]
fn maybe_null_arguments() {
    assert!(is_struct_ops_arg_maybe_null("sched_ext_ops", "dispatch", 1));
    assert!(is_struct_ops_arg_maybe_null("sched_ext_ops", "yield", 1));
    assert!(is_struct_ops_arg_maybe_null("bpf_testmod_ops", "test_maybe_null", 1));
    assert!(!is_struct_ops_arg_maybe_null("sched_ext_ops", "dispatch", 0));
    assert!(!is_struct_ops_arg_maybe_null("sched_ext_ops", "enqueue", 1));
}

#[test]
fn member_tables() {
    assert!(struct_ops_member_priv_stack_requested("bpf_testmod_ops3", "test_1"));
    assert!(!struct_ops_member_priv_stack_requested("bpf_testmod_ops3", "test_2"));
    assert!(is_struct_ops_arg_refcounted("bpf_testmod_ops", "test_refcounted", 1));
    assert!(!is_struct_ops_arg_refcounted("bpf_testmod_ops", "test_refcounted", 0));
    assert!(is_unsupported_struct_ops_member("tcp_congestion_ops", "get_info"));
    assert!(is_unsupported_struct_ops_member("bpf_testmod_ops", "unsupported_ops"));
    assert!(!is_unsupported_struct_ops_member("tcp_congestion_ops", "init"));
    assert!(is_sleepable_allowed_struct_ops_member("bpf_dummy_ops", "test_sleepable"));
    assert!(!is_sleepable_allowed_struct_ops_member("bpf_dummy_ops", "test_2"));
    assert_eq!(GPL_ONLY_STRUCT_OPS[0], "tcp_congestion_ops");
}

#[test]
fn sleepable_sections() {
    assert!(is_struct_ops_sleepable_sec("struct_ops.s/test_1"));
    assert!(is_struct_ops_sleepable_sec("?struct_ops.s/test_1"));
    assert!(!is_struct_ops_sleepable_sec("??struct_ops.s/test_1"));
    assert!(!is_struct_ops_sleepable_sec("struct_ops/test_1"));
    assert!(!is_struct_ops_sleepable_sec("struct_ops.s"));
    assert!(!is_struct_ops_sleepable_sec(""));
    assert!(!is_struct_ops_sleepable_sec("?"));
}

#[test]
fn refcounted_counts() {
    let bindings = vec![
        binding("a", "bpf_testmod_ops", "test_refcounted"),
        binding("b", "bpf_testmod_ops", "test_1"),
        binding("a", "bpf_testmod_ops", "test_1"),
        binding("c", "bpf_testmod_ops", "test_return_ref_kptr"),
    ];
    assert_eq!(struct_ops_refcounted_arg_count(&bindings, "a"), 1);
    assert_eq!(struct_ops_refcounted_arg_count(&bindings, "b"), 0);
    assert_eq!(struct_ops_refcounted_arg_count(&bindings, "c"), 1);
    assert_eq!(struct_ops_refcounted_arg_count(&bindings, "d"), 0);
}

#[test]
fn tag_flags() {
    let user = PtrFlags { trusted: false, user: true, percpu: false };
    let percpu = PtrFlags { trusted: false, user: false, percpu: true };
    let none = PtrFlags { trusted: false, user: false, percpu: false };
    assert_eq!(tracing_attach_arg_tag_flags(Some("__sys_getsockname"), 1), user);
    assert_eq!(tracing_attach_arg_tag_flags(Some("__sys_getsockname"), 2), user);
    assert_eq!(tracing_attach_arg_tag_flags(Some("__sys_getsockname"), 0), none);
    assert_eq!(
        tracing_attach_arg_tag_flags(Some("bpf_testmod_test_btf_type_tag_user_2"), 0),
        user
    );
    assert_eq!(
        tracing_attach_arg_tag_flags(Some("bpf_testmod_test_btf_type_tag_percpu_1"), 0),
        percpu
    );
    assert_eq!(tracing_attach_arg_tag_flags(None, 0), none);
}

#[test]
fn scalar_slots() {
    let rows: [(&str, &[u8]); 13] = [
        ("bpf_fentry_test1", &[0, 1]),
        ("bpf_fentry_test2", &[0, 1, 2]),
        ("bpf_fentry_test3", &[0, 1, 2, 3]),
        ("bpf_fentry_test4", &[1, 2, 3, 4]),
        ("bpf_fentry_test5", &[0, 2, 3, 4, 5]),
        ("bpf_fentry_test6", &[0, 2, 3, 5, 6]),
        ("bpf_testmod_fentry_test7", &[0, 2, 3, 5, 6, 7]),
        ("bpf_testmod_fentry_test11", &[0, 2, 3, 5, 6, 7, 8, 9, 11]),
        ("update_socket_protocol", &[0, 1, 2]),
        ("socket_post_create", &[1, 2, 3, 4]),
        ("socket_bind", &[2]),
        ("sk_alloc_security", &[1, 2]),
        ("file_mprotect", &[1, 2, 3]),
    ];
    for (target, slots) in rows.iter() {
        for i in 0..14u8 {
            let expected = if slots.contains(&i) { Some(TracingArgKind::Scalar) } else { None };
            assert_eq!(tracing_attach_arg_kind(Some(*target), i), expected);
        }
    }
    assert_eq!(tracing_attach_arg_kind(Some("inet_csk_clone"), 0), None);
    assert_eq!(tracing_attach_arg_kind(None, 0), None);
}

#[test]
fn lsm_trailing_arguments() {
    let args = lsm_int_hook_trailing_args(ProgramKind::Lsm, "file_mprotect");
    assert_eq!(
        args,
        vec![
            EntryArg::Scalar,
            EntryArg::Scalar,
            EntryArg::BoundedScalar { lo: -4095, hi: 0 }
        ]
    );
    assert_eq!(MAX_ERRNO, 4095);
    assert!(lsm_int_hook_trailing_args(ProgramKind::Lsm, "socket_bind").is_empty());
    assert!(lsm_int_hook_trailing_args(ProgramKind::Tracing, "file_mprotect").is_empty());
    assert_eq!(lsm_int_hook_pointer_prefix("file_mprotect"), 1);
    assert_eq!(lsm_int_hook_pointer_prefix("socket_bind"), 0);
    for k in 0..args.len() {
        let slot = (lsm_int_hook_pointer_prefix("file_mprotect") + k) as u8;
        assert!(tracing_attach_arg_kind(Some("file_mprotect"), slot).is_some());
    }
}

#[test]
fn attach_denials() {
    assert!(lsm_hook_is_disabled("vm_enough_memory"));
    assert!(lsm_hook_is_disabled("module_request"));
    assert!(!lsm_hook_is_disabled("file_mprotect"));
    assert!(is_tracing_attach_denied("bpf_spin_lock"));
    assert!(is_tracing_attach_denied("bpf_spin_unlock"));
    assert!(is_tracing_attach_denied("bpf_sk_storage_free"));
    assert!(!is_tracing_attach_denied("bpf_sk_storage_get"));
    assert!(is_noreturn_kernel_fn("do_exit"));
    assert!(is_noreturn_kernel_fn("rewind_stack_and_make_dead"));
    assert!(!is_noreturn_kernel_fn("do_fork"));
}

#[test]
fn licenses() {
    for s in ["GPL", "GPL v2", "GPL and additional rights", "Dual BSD/GPL", "Dual MIT/GPL", "Dual MPL/GPL"] {
        assert!(license_is_gpl_compatible(s));
    }
    assert!(!license_is_gpl_compatible("gpl"));
    assert!(!license_is_gpl_compatible("MIT"));
    assert!(!license_is_gpl_compatible(""));
}
