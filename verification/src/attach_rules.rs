//! Attach-target rules: which members, hooks and functions a program may attach
//! to, and what their arguments hold.

use vstd::prelude::*;

use crate::ast::ProgramKind;
use crate::machine::{EntryArg, PtrFlags};
use crate::text::{chars_of, slice_text_of, str_eq};

verus! {

/// The largest error number that a kernel function returns.
pub const MAX_ERRNO: i64 = 4095;

/// The `struct_ops` types that only a GPL-compatible program may implement.
pub const GPL_ONLY_STRUCT_OPS: [&'static str; 1] = ["tcp_congestion_ops"];

/// A subprogram that implements a member of a `struct_ops` type.
pub struct StructOpsBinding {
    pub subprog: String,
    pub ops_struct: String,
    pub member: String,
}

/// Whether a name pair is the given one.
pub open spec fn pair_is(s: Seq<char>, m: Seq<char>, s0: Seq<char>, m0: Seq<char>) -> bool {
    s == s0 && m == m0
}

/// Whether a name pair is the given one.
fn is_pair(s: &str, m: &str, s0: &str, m0: &str) -> (r: bool)
    ensures
        r == pair_is(s@, m@, s0@, m0@),
{
    str_eq(s, s0) && str_eq(m, m0)
}

/// Whether an argument of a member may be null.
pub open spec fn spec_is_struct_ops_arg_maybe_null(ops_struct: Seq<char>, member: Seq<char>, arg_idx: u8) -> bool {
    ||| pair_is(ops_struct, member, "sched_ext_ops"@, "dispatch"@) && arg_idx == 1
    ||| pair_is(ops_struct, member, "sched_ext_ops"@, "yield"@) && arg_idx == 1
    ||| pair_is(ops_struct, member, "bpf_testmod_ops"@, "test_maybe_null"@) && arg_idx == 1
}

/// Whether an argument of a member may be null.
pub fn is_struct_ops_arg_maybe_null(ops_struct: &str, member: &str, arg_idx: u8) -> (r: bool)
    ensures
        r == spec_is_struct_ops_arg_maybe_null(ops_struct@, member@, arg_idx),
{
    (is_pair(ops_struct, member, "sched_ext_ops", "dispatch") && arg_idx == 1)
        || (is_pair(ops_struct, member, "sched_ext_ops", "yield") && arg_idx == 1)
        || (is_pair(ops_struct, member, "bpf_testmod_ops", "test_maybe_null") && arg_idx == 1)
}

/// Whether a member asks for a private stack.
pub open spec fn spec_struct_ops_member_priv_stack_requested(ops_struct: Seq<char>, member: Seq<char>) -> bool {
    ||| pair_is(ops_struct, member, "bpf_testmod_ops3"@, "test_1"@)
}

/// Whether a member asks for a private stack.
pub fn struct_ops_member_priv_stack_requested(ops_struct: &str, member: &str) -> (r: bool)
    ensures
        r == spec_struct_ops_member_priv_stack_requested(ops_struct@, member@),
{
    is_pair(ops_struct, member, "bpf_testmod_ops3", "test_1")
}

/// Whether an argument of a member holds a reference that the member must release.
pub open spec fn spec_is_struct_ops_arg_refcounted(ops_struct: Seq<char>, member: Seq<char>, arg_idx: u8) -> bool {
    ||| pair_is(ops_struct, member, "bpf_testmod_ops"@, "test_refcounted"@) && arg_idx == 1
    ||| pair_is(ops_struct, member, "bpf_testmod_ops"@, "test_return_ref_kptr"@) && arg_idx == 1
}

/// Whether an argument of a member holds a reference that the member must release.
pub fn is_struct_ops_arg_refcounted(ops_struct: &str, member: &str, arg_idx: u8) -> (r: bool)
    ensures
        r == spec_is_struct_ops_arg_refcounted(ops_struct@, member@, arg_idx),
{
    (is_pair(ops_struct, member, "bpf_testmod_ops", "test_refcounted") && arg_idx == 1)
        || (is_pair(ops_struct, member, "bpf_testmod_ops", "test_return_ref_kptr") && arg_idx == 1)
}

/// Whether a member cannot be attached to.
pub open spec fn spec_is_unsupported_struct_ops_member(ops_struct: Seq<char>, member: Seq<char>) -> bool {
    ||| pair_is(ops_struct, member, "bpf_testmod_ops"@, "unsupported_ops"@)
    ||| pair_is(ops_struct, member, "tcp_congestion_ops"@, "get_info"@)
}

/// Whether a member cannot be attached to.
pub fn is_unsupported_struct_ops_member(ops_struct: &str, member: &str) -> (r: bool)
    ensures
        r == spec_is_unsupported_struct_ops_member(ops_struct@, member@),
{
    (is_pair(ops_struct, member, "bpf_testmod_ops", "unsupported_ops"))
        || (is_pair(ops_struct, member, "tcp_congestion_ops", "get_info"))
}

/// Whether a member may be attached to by a sleepable program.
pub open spec fn spec_is_sleepable_allowed_struct_ops_member(ops_struct: Seq<char>, member: Seq<char>) -> bool {
    ||| pair_is(ops_struct, member, "bpf_dummy_ops"@, "test_sleepable"@)
}

/// Whether a member may be attached to by a sleepable program.
pub fn is_sleepable_allowed_struct_ops_member(ops_struct: &str, member: &str) -> (r: bool)
    ensures
        r == spec_is_sleepable_allowed_struct_ops_member(ops_struct@, member@),
{
    is_pair(ops_struct, member, "bpf_dummy_ops", "test_sleepable")
}

/// Whether a section name asks for the sleepable form of `struct_ops`; a leading
/// question mark, which makes the section optional, does not count.
pub open spec fn spec_is_struct_ops_sleepable_sec(section: Seq<char>) -> bool {
    let s = if section.len() > 0 && section[0] == '?' {
        section.skip(1)
    } else {
        section
    };
    "struct_ops.s/"@.is_prefix_of(s)
}

/// Whether a section name asks for the sleepable form of `struct_ops`.
pub fn is_struct_ops_sleepable_sec(section: &str) -> (r: bool)
    ensures
        r == spec_is_struct_ops_sleepable_sec(section@),
{
    let s = chars_of(section);
    let p = chars_of("struct_ops.s/");
    let from: usize = if s.len() > 0 && s[0] == '?' {
        1
    } else {
        0
    };
    let ghost rest = section@.skip(from as int);
    assert(section@.skip(0) =~= section@);
    let n: usize = s.len();
    if n - from < p.len() {
        return false;
    }
    let mut i: usize = 0;
    while i < p.len()
        invariant
            i <= p@.len(),
            from <= s@.len(),
            s@ == section@,
            n == s@.len(),
            rest == section@.skip(from as int),
            spec_is_struct_ops_sleepable_sec(section@) == p@.is_prefix_of(rest),
            p@ == "struct_ops.s/"@,
            p@.len() <= s@.len() - from,
            forall|j: int| 0 <= j < i ==> p@[j] == rest[j],
        decreases p@.len() - i,
    {
        if p[i] != s[from + i] {
            assert(rest[i as int] == s@[from + i]);
            return false;
        }
        i += 1;
    }
    assert(p@ =~= rest.subrange(0, p@.len() as int));
    true
}

/// The first binding of a subprogram.
pub open spec fn binding_of(bindings: Seq<StructOpsBinding>, func: Seq<char>) -> Option<
    StructOpsBinding,
>
    decreases bindings.len(),
{
    if bindings.len() == 0 {
        None
    } else if bindings[0].subprog@ == func {
        Some(bindings[0])
    } else {
        binding_of(bindings.skip(1), func)
    }
}

/// How many arguments of a member hold a reference on entry.
pub open spec fn refcounted_args(ops_struct: Seq<char>, member: Seq<char>) -> nat {
    if pair_is(ops_struct, member, "bpf_testmod_ops"@, "test_refcounted"@) || pair_is(
        ops_struct,
        member,
        "bpf_testmod_ops"@,
        "test_return_ref_kptr"@,
    ) {
        1
    } else {
        0
    }
}

/// How many arguments of a subprogram hold a reference on entry; none where it
/// implements no member.
pub fn struct_ops_refcounted_arg_count(
    bindings: &Vec<StructOpsBinding>,
    func_name: &str,
) -> (r: usize)
    ensures
        r == (match binding_of(bindings@, func_name@) {
            Some(b) => refcounted_args(b.ops_struct@, b.member@),
            None => 0,
        }),
{
    let mut i: usize = 0;
    assert(bindings@.skip(0) =~= bindings@);
    while i < bindings.len()
        invariant
            i <= bindings@.len(),
            binding_of(bindings@.skip(i as int), func_name@) == binding_of(
                bindings@,
                func_name@,
            ),
        decreases bindings@.len() - i,
    {
        assert(bindings@.skip(i as int)[0] == bindings@[i as int]);
        assert(bindings@.skip(i as int).skip(1) =~= bindings@.skip(i + 1));
        let b = &bindings[i];
        if str_eq(b.subprog.as_str(), func_name) {
            let s = b.ops_struct.as_str();
            let m = b.member.as_str();
            let n: usize = if is_pair(s, m, "bpf_testmod_ops", "test_refcounted") || is_pair(
                s,
                m,
                "bpf_testmod_ops",
                "test_return_ref_kptr",
            ) {
                1
            } else {
                0
            };
            return n;
        }
        i += 1;
    }
    0
}

/// Whether a security hook cannot be attached to.
pub open spec fn spec_lsm_hook_is_disabled(hook: Seq<char>) -> bool {
    ||| hook == "vm_enough_memory"@
    ||| hook == "inode_need_killpriv"@
    ||| hook == "inode_getsecurity"@
    ||| hook == "inode_setsecurity"@
    ||| hook == "inode_listsecurity"@
    ||| hook == "inode_copy_up_xattr"@
    ||| hook == "getselfattr"@
    ||| hook == "getprocattr"@
    ||| hook == "setprocattr"@
    ||| hook == "ismaclabel"@
    ||| hook == "secid_to_secctx"@
    ||| hook == "secctx_to_secid"@
    ||| hook == "release_secctx"@
    ||| hook == "d_instantiate"@
    ||| hook == "ipc_getsecid"@
    ||| hook == "key_getsecurity"@
    ||| hook == "audit_rule_match"@
    ||| hook == "audit_rule_init"@
    ||| hook == "audit_rule_free"@
    ||| hook == "module_request"@
}

/// Whether a security hook cannot be attached to.
pub fn lsm_hook_is_disabled(hook: &str) -> (r: bool)
    ensures
        r == spec_lsm_hook_is_disabled(hook@),
{
    str_eq(hook, "vm_enough_memory")
        || str_eq(hook, "inode_need_killpriv")
        || str_eq(hook, "inode_getsecurity")
        || str_eq(hook, "inode_setsecurity")
        || str_eq(hook, "inode_listsecurity")
        || str_eq(hook, "inode_copy_up_xattr")
        || str_eq(hook, "getselfattr")
        || str_eq(hook, "getprocattr")
        || str_eq(hook, "setprocattr")
        || str_eq(hook, "ismaclabel")
        || str_eq(hook, "secid_to_secctx")
        || str_eq(hook, "secctx_to_secid")
        || str_eq(hook, "release_secctx")
        || str_eq(hook, "d_instantiate")
        || str_eq(hook, "ipc_getsecid")
        || str_eq(hook, "key_getsecurity")
        || str_eq(hook, "audit_rule_match")
        || str_eq(hook, "audit_rule_init")
        || str_eq(hook, "audit_rule_free")
        || str_eq(hook, "module_request")
}

/// The type tags of an argument of an attach target.
pub open spec fn arg_tags(target: Seq<char>, arg_idx: u8) -> PtrFlags {
    PtrFlags {
        trusted: false,
        user: {
            ||| arg_idx == 0 && (target == "bpf_testmod_test_btf_type_tag_user_1"@ || target
                == "bpf_testmod_test_btf_type_tag_user_2"@)
            ||| (arg_idx == 1 || arg_idx == 2) && target == "__sys_getsockname"@
        },
        percpu: arg_idx == 0 && (target == "bpf_testmod_test_btf_type_tag_percpu_1"@ || target
            == "bpf_testmod_test_btf_type_tag_percpu_2"@),
    }
}

/// The type tags of an argument; none where the target is not known.
pub open spec fn spec_tracing_attach_arg_tag_flags(
    target: Option<Seq<char>>,
    arg_idx: u8,
) -> PtrFlags {
    match target {
        Some(t) => arg_tags(t, arg_idx),
        None => PtrFlags::spec_empty(),
    }
}

/// The type tags of an argument of an attach target.
pub fn tracing_attach_arg_tag_flags(target: Option<&str>, arg_idx: u8) -> (r: PtrFlags)
    ensures
        r == spec_tracing_attach_arg_tag_flags(slice_text_of(target), arg_idx),
{
    match target {
        Some(t) => {
            let user = (arg_idx == 0 && (str_eq(t, "bpf_testmod_test_btf_type_tag_user_1")
                || str_eq(t, "bpf_testmod_test_btf_type_tag_user_2"))) || ((arg_idx == 1 || arg_idx
                == 2) && str_eq(t, "__sys_getsockname"));
            let percpu = arg_idx == 0 && (str_eq(t, "bpf_testmod_test_btf_type_tag_percpu_1")
                || str_eq(t, "bpf_testmod_test_btf_type_tag_percpu_2"));
            PtrFlags { trusted: false, user, percpu }
        },
        None => PtrFlags::empty(),
    }
}

/// What is known of an argument of an attach target.
#[derive(Clone, Copy, Debug, PartialEq, Eq, Structural)]
pub enum TracingArgKind {
    Scalar,
}

/// Whether an argument of an attach target, or what a function returns, is a
/// plain number. What a function returns stands behind its arguments.
pub open spec fn scalar_slot(target: Seq<char>, arg_idx: u8) -> bool {
    ||| target == "bpf_fentry_test1"@ && arg_idx <= 1
    ||| target == "bpf_fentry_test2"@ && arg_idx <= 2
    ||| target == "bpf_fentry_test3"@ && arg_idx <= 3
    ||| target == "bpf_fentry_test4"@ && 1 <= arg_idx <= 4
    ||| target == "bpf_fentry_test5"@ && (arg_idx == 0 || 2 <= arg_idx <= 5)
    ||| target == "bpf_fentry_test6"@ && (arg_idx == 0 || 2 <= arg_idx <= 3 || 5 <= arg_idx <= 6)
    ||| target == "bpf_testmod_fentry_test7"@ && (arg_idx == 0 || 2 <= arg_idx <= 3 || 5 <= arg_idx <= 7)
    ||| target == "bpf_testmod_fentry_test11"@ && (arg_idx == 0 || 2 <= arg_idx <= 3 || 5 <= arg_idx <= 9 || arg_idx == 11)
    ||| target == "update_socket_protocol"@ && arg_idx <= 2
    ||| target == "socket_post_create"@ && 1 <= arg_idx <= 4
    ||| target == "socket_bind"@ && arg_idx == 2
    ||| target == "sk_alloc_security"@ && 1 <= arg_idx <= 2
    ||| target == "file_mprotect"@ && 1 <= arg_idx <= 3
}

/// What is known of an argument; nothing where it is not listed.
pub open spec fn spec_tracing_attach_arg_kind(
    target: Option<Seq<char>>,
    arg_idx: u8,
) -> Option<TracingArgKind> {
    match target {
        Some(t) => if scalar_slot(t, arg_idx) {
            Some(TracingArgKind::Scalar)
        } else {
            None
        },
        None => None,
    }
}

/// What is known of an argument of an attach target.
pub fn tracing_attach_arg_kind(target: Option<&str>, arg_idx: u8) -> (r: Option<TracingArgKind>)
    ensures
        r == spec_tracing_attach_arg_kind(slice_text_of(target), arg_idx),
{
    match target {
        Some(t) => {
            let scalar = (str_eq(t, "bpf_fentry_test1") && arg_idx <= 1)
                || (str_eq(t, "bpf_fentry_test2") && arg_idx <= 2)
                || (str_eq(t, "bpf_fentry_test3") && arg_idx <= 3)
                || (str_eq(t, "bpf_fentry_test4") && (1 <= arg_idx && arg_idx <= 4))
                || (str_eq(t, "bpf_fentry_test5") && (arg_idx == 0 || (2 <= arg_idx && arg_idx <= 5)))
                || (str_eq(t, "bpf_fentry_test6") && (arg_idx == 0 || (2 <= arg_idx && arg_idx <= 3) || (5 <= arg_idx && arg_idx <= 6)))
                || (str_eq(t, "bpf_testmod_fentry_test7") && (arg_idx == 0 || (2 <= arg_idx && arg_idx <= 3) || (5 <= arg_idx && arg_idx <= 7)))
                || (str_eq(t, "bpf_testmod_fentry_test11") && (arg_idx == 0 || (2 <= arg_idx && arg_idx <= 3) || (5 <= arg_idx && arg_idx <= 9) || arg_idx == 11))
                || (str_eq(t, "update_socket_protocol") && arg_idx <= 2)
                || (str_eq(t, "socket_post_create") && (1 <= arg_idx && arg_idx <= 4))
                || (str_eq(t, "socket_bind") && arg_idx == 2)
                || (str_eq(t, "sk_alloc_security") && (1 <= arg_idx && arg_idx <= 2))
                || (str_eq(t, "file_mprotect") && (1 <= arg_idx && arg_idx <= 3));
            if scalar {
                Some(TracingArgKind::Scalar)
            } else {
                None
            }
        },
        None => None,
    }
}

/// The arguments behind the pointers of a security hook that returns a number:
/// plain numbers, and last the value that the hook has so far.
pub open spec fn trailing_args(prog_kind: ProgramKind, target: Seq<char>) -> Seq<EntryArg> {
    if prog_kind == ProgramKind::Lsm && target == "file_mprotect"@ {
        seq![
            EntryArg::Scalar,
            EntryArg::Scalar,
            EntryArg::BoundedScalar { lo: (-MAX_ERRNO) as i64, hi: 0 },
        ]
    } else {
        Seq::empty()
    }
}

/// The arguments behind the pointers of a security hook that returns a number.
pub fn lsm_int_hook_trailing_args(prog_kind: ProgramKind, target: &str) -> (r: Vec<EntryArg>)
    ensures
        r@ == trailing_args(prog_kind, target@),
{
    let mut out: Vec<EntryArg> = Vec::new();
    if prog_kind == ProgramKind::Lsm && str_eq(target, "file_mprotect") {
        out.push(EntryArg::Scalar);
        out.push(EntryArg::Scalar);
        out.push(EntryArg::BoundedScalar { lo: -MAX_ERRNO, hi: 0 });
    }
    assert(out@ =~= trailing_args(prog_kind, target@));
    out
}

/// How many pointers stand at the head of such a hook's arguments.
pub open spec fn pointer_prefix(target: Seq<char>) -> nat {
    if target == "file_mprotect"@ {
        1
    } else {
        0
    }
}

/// How many pointers stand at the head of such a hook's arguments.
pub fn lsm_int_hook_pointer_prefix(target: &str) -> (r: usize)
    ensures
        r == pointer_prefix(target@),
{
    if str_eq(target, "file_mprotect") {
        1
    } else {
        0
    }
}

/// Whether no tracing program may attach to a function.
pub open spec fn spec_is_tracing_attach_denied(target: Seq<char>) -> bool {
    ||| target == "bpf_spin_lock"@
    ||| target == "bpf_spin_unlock"@
    ||| target == "bpf_sk_storage_free"@
}

/// Whether no tracing program may attach to a function.
pub fn is_tracing_attach_denied(target: &str) -> (r: bool)
    ensures
        r == spec_is_tracing_attach_denied(target@),
{
    str_eq(target, "bpf_spin_lock")
        || str_eq(target, "bpf_spin_unlock")
        || str_eq(target, "bpf_sk_storage_free")
}

/// Whether a function never returns, so that nothing can run behind it.
pub open spec fn spec_is_noreturn_kernel_fn(name: Seq<char>) -> bool {
    ||| name == "__module_put_and_kthread_exit"@
    ||| name == "__kthread_exit"@
    ||| name == "__x64_sys_exit"@
    ||| name == "__x64_sys_exit_group"@
    ||| name == "__ia32_sys_exit"@
    ||| name == "__ia32_sys_exit_group"@
    ||| name == "do_exit"@
    ||| name == "do_group_exit"@
    ||| name == "do_task_dead"@
    ||| name == "kthread_complete_and_exit"@
    ||| name == "kthread_exit"@
    ||| name == "make_task_dead"@
    ||| name == "rewind_stack_and_make_dead"@
}

/// Whether a function never returns, so that nothing can run behind it.
pub fn is_noreturn_kernel_fn(name: &str) -> (r: bool)
    ensures
        r == spec_is_noreturn_kernel_fn(name@),
{
    str_eq(name, "__module_put_and_kthread_exit")
        || str_eq(name, "__kthread_exit")
        || str_eq(name, "__x64_sys_exit")
        || str_eq(name, "__x64_sys_exit_group")
        || str_eq(name, "__ia32_sys_exit")
        || str_eq(name, "__ia32_sys_exit_group")
        || str_eq(name, "do_exit")
        || str_eq(name, "do_group_exit")
        || str_eq(name, "do_task_dead")
        || str_eq(name, "kthread_complete_and_exit")
        || str_eq(name, "kthread_exit")
        || str_eq(name, "make_task_dead")
        || str_eq(name, "rewind_stack_and_make_dead")
}

/// Whether a license string counts as GPL-compatible.
pub open spec fn spec_license_is_gpl_compatible(s: Seq<char>) -> bool {
    ||| s == "GPL"@
    ||| s == "GPL v2"@
    ||| s == "GPL and additional rights"@
    ||| s == "Dual BSD/GPL"@
    ||| s == "Dual MIT/GPL"@
    ||| s == "Dual MPL/GPL"@
}

/// Whether a license string counts as GPL-compatible.
pub fn license_is_gpl_compatible(s: &str) -> (r: bool)
    ensures
        r == spec_license_is_gpl_compatible(s@),
{
    str_eq(s, "GPL")
        || str_eq(s, "GPL v2")
        || str_eq(s, "GPL and additional rights")
        || str_eq(s, "Dual BSD/GPL")
        || str_eq(s, "Dual MIT/GPL")
        || str_eq(s, "Dual MPL/GPL")
}

/// The arguments that a security hook gets behind its pointers are plain numbers
/// by the table of argument kinds too.
pub proof fn law_trailing_args_are_scalar_slots(target: Seq<char>, k: int)
    requires
        0 <= k < trailing_args(ProgramKind::Lsm, target).len(),
    ensures
        pointer_prefix(target) + k <= u8::MAX,
        scalar_slot(target, (pointer_prefix(target) + k) as u8),
{
}

/// The count of a member's references is the number of its argument places that
/// hold one.
pub proof fn law_refcounted_count(ops_struct: Seq<char>, member: Seq<char>)
    ensures
        Set::new(
            |i: u8| spec_is_struct_ops_arg_refcounted(ops_struct, member, i),
        ).len() == refcounted_args(ops_struct, member),
        Set::new(|i: u8| spec_is_struct_ops_arg_refcounted(ops_struct, member, i)).finite(),
{
    let s = Set::new(|i: u8| spec_is_struct_ops_arg_refcounted(ops_struct, member, i));
    if refcounted_args(ops_struct, member) == 1 {
        assert(s =~= Set::empty().insert(1u8));
    } else {
        assert(s =~= Set::empty());
    }
}

/// No argument holds both tags, and the table of tags trusts none.
pub proof fn law_tags_are_exclusive(target: Seq<char>, arg_idx: u8)
    ensures
        !(arg_tags(target, arg_idx).user && arg_tags(target, arg_idx).percpu),
        !arg_tags(target, arg_idx).trusted,
{
    reveal_strlit("bpf_testmod_test_btf_type_tag_user_1");
    reveal_strlit("bpf_testmod_test_btf_type_tag_user_2");
    reveal_strlit("bpf_testmod_test_btf_type_tag_percpu_1");
    reveal_strlit("bpf_testmod_test_btf_type_tag_percpu_2");
    assert("bpf_testmod_test_btf_type_tag_user_1"@.len() == 36);
    assert("bpf_testmod_test_btf_type_tag_user_2"@.len() == 36);
    assert("bpf_testmod_test_btf_type_tag_percpu_1"@.len() == 38);
    assert("bpf_testmod_test_btf_type_tag_percpu_2"@.len() == 38);
}

}
