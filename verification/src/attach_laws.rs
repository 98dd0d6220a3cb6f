//! What holds of the rules by which programs attach.

use vstd::prelude::*;

use crate::ast::ProgramKind;
use crate::attach_rules::{
    binding_of, is_struct_ops_arg_maybe_null, is_struct_ops_arg_refcounted,
    is_struct_ops_sleepable_sec, lsm_int_hook_pointer_prefix, lsm_int_hook_trailing_args,
    struct_ops_refcounted_arg_count, tracing_attach_arg_kind, tracing_attach_arg_tag_flags,
    StructOpsBinding, TracingArgKind,
};
use crate::machine::{EntryArg, PtrFlags};

verus! {

proof fn lemma_first_binding(bindings: Seq<StructOpsBinding>, func: Seq<char>, i: int)
    requires
        0 <= i < bindings.len(),
        bindings[i].subprog@ == func,
        forall|j: int| 0 <= j < i ==> (#[trigger] bindings[j]).subprog@ != func,
    ensures
        binding_of(bindings, func) == Some(bindings[i]),
    decreases i,
{
    if i > 0 {
        assert(bindings[0].subprog@ != func);
        let rest = bindings.skip(1);
        assert forall|j: int| 0 <= j < i - 1 implies (#[trigger] rest[j]).subprog@ != func by {
            assert(bindings[j + 1].subprog@ != func);
        }
        lemma_first_binding(rest, func, i - 1);
    }
}

proof fn lemma_no_binding(bindings: Seq<StructOpsBinding>, func: Seq<char>)
    requires
        forall|j: int| 0 <= j < bindings.len() ==> (#[trigger] bindings[j]).subprog@ != func,
    ensures
        binding_of(bindings, func) is None,
    decreases bindings.len(),
{
    if bindings.len() > 0 {
        assert(bindings[0].subprog@ != func);
        let rest = bindings.skip(1);
        assert forall|j: int| 0 <= j < rest.len() implies (#[trigger] rest[j]).subprog@ != func by {
            assert(bindings[j + 1].subprog@ != func);
        }
        lemma_no_binding(rest, func);
    }
}

/// A subprogram holds as many references on entry as its member's arguments say: by the
/// first binding under its name, one where an argument holds a reference and none where
/// no argument does. At most one argument of a member does, and it is never null.
pub proof fn law_references_are_those_of_the_member(
    bindings: Vec<StructOpsBinding>,
    func_name: &str,
    count: usize,
    i: int,
    ops_struct: &str,
    member: &str,
    arg: u8,
    other: u8,
    held: bool,
    other_held: bool,
    maybe_null: bool,
)
    requires
        call_ensures(struct_ops_refcounted_arg_count, (&bindings, func_name), count),
        0 <= i < bindings@.len(),
        bindings@[i].subprog@ == func_name@,
        forall|j: int| 0 <= j < i ==> (#[trigger] bindings@[j]).subprog@ != func_name@,
        bindings@[i].ops_struct@ == ops_struct@,
        bindings@[i].member@ == member@,
        call_ensures(is_struct_ops_arg_refcounted, (ops_struct, member, arg), held),
        call_ensures(is_struct_ops_arg_refcounted, (ops_struct, member, other), other_held),
        call_ensures(is_struct_ops_arg_maybe_null, (ops_struct, member, arg), maybe_null),
    ensures
        held ==> count == 1,
        held && other_held ==> arg == other,
        count <= 1,
        arg == 1 ==> count == if held {
            1int
        } else {
            0
        },
        held ==> !maybe_null,
{
    lemma_first_binding(bindings@, func_name@, i);
    reveal_strlit("test_maybe_null");
    reveal_strlit("test_refcounted");
    reveal_strlit("test_return_ref_kptr");
    reveal_strlit("bpf_testmod_ops");
    reveal_strlit("sched_ext_ops");
    assert("test_maybe_null"@[5] != "test_refcounted"@[5]);
    assert("test_maybe_null"@[5] != "test_return_ref_kptr"@[5]);
    assert("bpf_testmod_ops"@[0] != "sched_ext_ops"@[0]);
}

/// A subprogram that no binding names holds no reference on entry.
pub proof fn law_unbound_subprograms_hold_nothing(
    bindings: Vec<StructOpsBinding>,
    func_name: &str,
    count: usize,
)
    requires
        call_ensures(struct_ops_refcounted_arg_count, (&bindings, func_name), count),
        forall|j: int|
            0 <= j < bindings@.len() ==> (#[trigger] bindings@[j]).subprog@ != func_name@,
    ensures
        count == 0,
{
    lemma_no_binding(bindings@, func_name@);
}

/// A question mark before a section makes no difference: the section asks for the
/// sleepable form exactly where it does without it.
pub proof fn law_optional_sections_ask_the_same(
    section: &str,
    optional: &str,
    r: bool,
    also: bool,
)
    requires
        call_ensures(is_struct_ops_sleepable_sec, (section,), r),
        call_ensures(is_struct_ops_sleepable_sec, (optional,), also),
        optional@ == seq!['?'] + section@,
        section@.len() == 0 || section@[0] != '?',
    ensures
        r == also,
{
    assert(optional@.skip(1) =~= section@);
}

/// A section asks for the sleepable form whatever it names: where two sections begin with
/// the same thirteen characters and the first asks for it, so does the second.
pub proof fn law_sleepable_sections_go_by_their_head(a: &str, b: &str, ra: bool, rb: bool)
    requires
        call_ensures(is_struct_ops_sleepable_sec, (a,), ra),
        call_ensures(is_struct_ops_sleepable_sec, (b,), rb),
        a@.len() >= 13 && b@.len() >= 13,
        a@.take(13) == b@.take(13),
        a@[0] != '?',
    ensures
        ra == rb,
        ra ==> a@[0] == 's' && a@[10] == '.' && a@[11] == 's' && a@[12] == '/',
{
    reveal_strlit("struct_ops.s/");
    let p = "struct_ops.s/"@;
    assert forall|i: int| 0 <= i < 13 implies #[trigger] a@[i] == b@[i] by {
        let x = a@.take(13);
        let y = b@.take(13);
        assert(x[i] == a@[i]);
        assert(y[i] == b@[i]);
        assert(x == y);
    }
    assert(p.len() == 13);
    assert(p.is_prefix_of(a@) <==> p =~= a@.take(13));
    assert(p.is_prefix_of(b@) <==> p =~= b@.take(13));
    if ra {
        assert(a@.take(13)[0] == p[0] && a@.take(13)[10] == p[10]);
        assert(a@.take(13)[11] == p[11] && a@.take(13)[12] == p[12]);
    }
}

/// The arguments of a security hook add up: behind its pointers stand its plain numbers,
/// each of which is known as one, and last what it has so far, a negative error or zero.
/// Programs of other kinds get none.
pub proof fn law_hook_arguments_add_up(
    kind: ProgramKind,
    target: &str,
    pointers: usize,
    trailing: Vec<EntryArg>,
    k: int,
    idx: u8,
    known: Option<TracingArgKind>,
)
    requires
        call_ensures(lsm_int_hook_pointer_prefix, (target,), pointers),
        call_ensures(lsm_int_hook_trailing_args, (kind, target), trailing),
        call_ensures(tracing_attach_arg_kind, (Some(target), idx), known),
        0 <= k < trailing@.len(),
        idx == pointers + k,
    ensures
        kind is Lsm,
        pointers == 1,
        known is Some,
        k < trailing@.len() - 1 <==> trailing@[k] is Scalar,
        k == trailing@.len() - 1 ==> (trailing@[k] matches EntryArg::BoundedScalar { lo, hi } && lo
            == -4095 && hi == 0),
{
}

/// Tags are known only of known targets, and no argument is both a user pointer and
/// per processor, nor trusted for its tags.
pub proof fn law_tags_of_arguments(target: Option<&str>, idx: u8, r: PtrFlags)
    requires
        call_ensures(tracing_attach_arg_tag_flags, (target, idx), r),
    ensures
        target is None ==> !r.user && !r.percpu,
        !r.trusted,
        r.percpu ==> idx == 0 && !r.user,
        r.user ==> idx <= 2,
{
    reveal_strlit("bpf_testmod_test_btf_type_tag_user_1");
    reveal_strlit("bpf_testmod_test_btf_type_tag_user_2");
    reveal_strlit("bpf_testmod_test_btf_type_tag_percpu_1");
    reveal_strlit("bpf_testmod_test_btf_type_tag_percpu_2");
    assert("bpf_testmod_test_btf_type_tag_user_1"@[30] == 'u');
    assert("bpf_testmod_test_btf_type_tag_user_2"@[30] == 'u');
    assert("bpf_testmod_test_btf_type_tag_percpu_1"@[30] == 'p');
    assert("bpf_testmod_test_btf_type_tag_percpu_2"@[30] == 'p');
}

}
