//! What holds of every evaluation, proved from the semantics.

use crate::expr::ExpressionView;
use crate::semantics::{
    allocate, apply, atom_value, call, eval, first_match, is_first_match, Env, Memory, Step,
    Toplevel,
};
use crate::value::{expect_num, expect_ptr, Closure, Ptr, Value};
use vstd::prelude::*;

verus! {

/// An allocation yields the index just past the arena as it was, and leaves
/// the records that were there as they were.
pub proof fn lemma_allocate_is_fresh(mem: Memory, record: Closure)
    requires
        mem.wf(),
    ensures
        allocate(mem, record) matches Ok((value, heap)) ==> {
            &&& value == Value::Ptr(mem.heap.len() as Ptr)
            &&& mem.heap.len() as Ptr == mem.heap.len()
            &&& heap.len() == mem.heap.len() + 1
            &&& mem.heap.is_prefix_of(heap)
            &&& heap[mem.heap.len() as int] == record
        },
{
}

/// The arena only grows under evaluation: the records that were there before
/// are there afterwards, at their indices.
pub proof fn lemma_eval_extends_arena(top: Toplevel, expr: ExpressionView, frame: Env, mem: Memory)
    ensures
        eval(top, expr, frame, mem) matches Ok((_, _, heap)) ==> mem.heap.is_prefix_of(heap),
    decreases 2 * mem.frames_left + 1, 0int, 0int, expr,
{
    match expr {
        ExpressionView::Unit(_) => {},
        ExpressionView::Let(x, bound, body) => {
            lemma_eval_extends_arena(top, *bound, frame, mem);
            if let Ok((value, frame1, heap1)) = eval(top, *bound, frame, mem) {
                lemma_eval_extends_arena(top, *body, frame1.insert(x, value), mem.with_heap(heap1));
            }
        },
        ExpressionView::Call(f, atoms) => {
            if let Ok(args) = crate::semantics::atoms_values(atoms, frame) {
                lemma_call_extends_arena(top, f, args, mem);
            }
        },
        ExpressionView::Apply(f, atoms) => {
            if let Ok(closure) = crate::semantics::lookup(frame, f) {
                if let Ok(ptr) = expect_ptr(closure) {
                    if let Ok(args) = crate::semantics::atoms_values(atoms, frame) {
                        lemma_apply_extends_arena(top, ptr, args, mem);
                    }
                }
            }
        },
        ExpressionView::Papp(_, _) => {},
        ExpressionView::Match(atom, cases, default) => {
            if let Ok(value) = atom_value(atom, frame) {
                if let Ok(x) = expect_num(value) {
                    let i = first_match(cases, x);
                    if 0 <= i < cases.len() {
                        lemma_eval_extends_arena(top, cases[i].1, frame, mem);
                    } else if let Some(branch) = default {
                        lemma_eval_extends_arena(top, *branch, frame, mem);
                    }
                }
            }
        },
        ExpressionView::Operate(_, _, _) => {},
    }
}

/// The arena only grows under a call.
pub proof fn lemma_call_extends_arena(top: Toplevel, name: Seq<char>, args: Seq<Value>, mem: Memory)
    ensures
        call(top, name, args, mem) matches Ok((_, heap)) ==> mem.heap.is_prefix_of(heap),
    decreases 2 * mem.frames_left, 0int, 0int,
{
    if top.contains_key(name) && top[name].params.len() == args.len() && mem.frames_left > 0 {
        lemma_eval_extends_arena(
            top,
            top[name].body,
            crate::semantics::bind(top[name].params, args),
            mem.entered(),
        );
    }
}

/// The arena only grows under an application.
pub proof fn lemma_apply_extends_arena(top: Toplevel, ptr: Ptr, more: Seq<Value>, mem: Memory)
    ensures
        apply(top, ptr, more, mem) matches Ok((_, heap)) ==> mem.heap.is_prefix_of(heap),
    decreases 2 * mem.frames_left, 1int, more.len(),
{
    if ptr < mem.heap.len() {
        let record = mem.heap[ptr as int];
        let all = record.args + more;
        if top.contains_key(record.name) {
            let arity = top[record.name].params.len();
            if record.args.len() >= arity {
            } else if all.len() < arity {
            } else if all.len() == arity {
                lemma_call_extends_arena(top, record.name, all, mem);
            } else {
                lemma_call_extends_arena(top, record.name, all.take(arity as int), mem);
                if let Ok((value, heap)) = call(top, record.name, all.take(arity as int), mem) {
                    if let Ok(next) = expect_ptr(value) {
                        lemma_apply_extends_arena(
                            top,
                            next,
                            all.skip(arity as int),
                            mem.with_heap(heap),
                        );
                    }
                }
            }
        }
    }
}

/// No arena index is used twice in a run: of two partial applications, the
/// second evaluated at any later point of the run, where the arena holds what
/// the first left and possibly more, the pointers differ.
pub proof fn lemma_papp_pointers_differ(
    top: Toplevel,
    first: ExpressionView,
    first_frame: Env,
    first_mem: Memory,
    second: ExpressionView,
    second_frame: Env,
    second_mem: Memory,
)
    requires
        first is Papp,
        second is Papp,
        first_mem.wf(),
        second_mem.wf(),
        eval(top, first, first_frame, first_mem) is Ok,
        eval(top, second, second_frame, second_mem) is Ok,
        eval(top, first, first_frame, first_mem)->Ok_0.2.is_prefix_of(second_mem.heap),
    ensures
        eval(top, first, first_frame, first_mem)->Ok_0.0 is Ptr,
        eval(top, second, second_frame, second_mem)->Ok_0.0 is Ptr,
        eval(top, first, first_frame, first_mem)->Ok_0.0 != eval(
            top,
            second,
            second_frame,
            second_mem,
        )->Ok_0.0,
{
}

/// Saturation: applying a closure on `f` to the arguments that it still
/// lacks, no fewer and no more, is calling `f` on the arguments that the
/// closure holds followed by those.
pub proof fn lemma_saturated_apply_is_call(
    top: Toplevel,
    ptr: Ptr,
    more: Seq<Value>,
    mem: Memory,
)
    requires
        ptr < mem.heap.len(),
        top.contains_key(mem.heap[ptr as int].name),
        mem.heap[ptr as int].args.len() < top[mem.heap[ptr as int].name].params.len(),
        mem.heap[ptr as int].args.len() + more.len() == top[mem.heap[ptr as int].name].params.len(),
    ensures
        apply(top, ptr, more, mem) == call(
            top,
            mem.heap[ptr as int].name,
            mem.heap[ptr as int].args + more,
            mem,
        ),
{
}

/// Saturation, from the partial application on: where `papp(f, held)` has
/// yielded a pointer, applying it to the `more` arguments that `f` still lacks
/// is calling `f` on `held` followed by `more`.
pub proof fn lemma_apply_of_papp_is_call(
    top: Toplevel,
    f: Seq<char>,
    held: Seq<Value>,
    more: Seq<Value>,
    mem: Memory,
)
    requires
        mem.wf(),
        top.contains_key(f),
        held.len() < top[f].params.len(),
        held.len() + more.len() == top[f].params.len(),
        allocate(mem, Closure { name: f, args: held }) is Ok,
    ensures
        ({
            let (closure, heap) = allocate(mem, Closure { name: f, args: held })->Ok_0;
            &&& closure is Ptr
            &&& apply(top, closure->Ptr_0, more, mem.with_heap(heap)) == call(
                top,
                f,
                held + more,
                mem.with_heap(heap),
            )
        }),
{
    lemma_allocate_is_fresh(mem, Closure { name: f, args: held });
}

/// Applying `first` to the closure at `ptr`, and then `second` to the closure
/// that this has yielded.
pub open spec fn apply_in_stages(
    top: Toplevel,
    ptr: Ptr,
    first: Seq<Value>,
    second: Seq<Value>,
    mem: Memory,
) -> Step {
    match apply(top, ptr, first, mem) {
        Err(fault) => Err(fault),
        Ok((value, heap)) => match expect_ptr(value) {
            Err(fault) => Err(fault),
            Ok(next) => apply(top, next, second, mem.with_heap(heap)),
        },
    }
}

/// Whether applying `args` to the closure at `ptr` ends short of a call, in
/// the allocation of a longer closure.
pub open spec fn stops_short(top: Toplevel, ptr: Ptr, args: Seq<Value>, mem: Memory) -> bool
    decreases args.len(),
{
    if ptr >= mem.heap.len() {
        false
    } else {
        let record = mem.heap[ptr as int];
        let all = record.args + args;
        if !top.contains_key(record.name) {
            false
        } else {
            let arity = top[record.name].params.len();
            if record.args.len() >= arity {
                false
            } else if all.len() < arity {
                true
            } else if all.len() == arity {
                false
            } else {
                match call(top, record.name, all.take(arity as int), mem) {
                    Err(_) => false,
                    Ok((value, heap)) => match expect_ptr(value) {
                        Err(_) => false,
                        Ok(next) => stops_short(
                            top,
                            next,
                            all.skip(arity as int),
                            mem.with_heap(heap),
                        ),
                    },
                }
            }
        }
    }
}

/// Currying, at the arity: where the closure at `ptr` lacks exactly the
/// arguments `first`, applying `first` followed by `second` at once is
/// applying `first`, which is the call, and then `second` to the closure that
/// the call has returned.
pub proof fn lemma_apply_splits_at_arity(
    top: Toplevel,
    ptr: Ptr,
    first: Seq<Value>,
    second: Seq<Value>,
    mem: Memory,
)
    requires
        ptr < mem.heap.len(),
        top.contains_key(mem.heap[ptr as int].name),
        mem.heap[ptr as int].args.len() < top[mem.heap[ptr as int].name].params.len(),
        mem.heap[ptr as int].args.len() + first.len() == top[mem.heap[ptr as int].name].params.len(),
        second.len() > 0,
    ensures
        apply(top, ptr, first + second, mem) == apply_in_stages(top, ptr, first, second, mem),
{
    let record = mem.heap[ptr as int];
    let arity = top[record.name].params.len() as int;
    let all = record.args + (first + second);
    assert(all.take(arity) == record.args + first);
    assert(all.skip(arity) == second);
}

/// Currying, in any grouping: applying `first` followed by `second` at once
/// is applying `first` and then `second` to the closure that this has
/// yielded, unless the application of `first` stops short of a call.
pub proof fn lemma_apply_in_stages(
    top: Toplevel,
    ptr: Ptr,
    first: Seq<Value>,
    second: Seq<Value>,
    mem: Memory,
)
    requires
        !stops_short(top, ptr, first, mem),
        second.len() > 0,
    ensures
        apply(top, ptr, first + second, mem) == apply_in_stages(top, ptr, first, second, mem),
    decreases first.len(),
{
    if ptr < mem.heap.len() {
        let record = mem.heap[ptr as int];
        if top.contains_key(record.name) {
            let arity = top[record.name].params.len() as int;
            let all = record.args + first;
            let whole = record.args + (first + second);
            if record.args.len() >= arity {
            } else if all.len() == arity {
                lemma_apply_splits_at_arity(top, ptr, first, second, mem);
            } else {
                assert(all.len() > arity);
                assert(whole.take(arity) == all.take(arity));
                assert(whole.skip(arity) == all.skip(arity) + second);
                if let Ok((value, heap)) = call(top, record.name, all.take(arity), mem) {
                    if let Ok(next) = expect_ptr(value) {
                        lemma_apply_in_stages(
                            top,
                            next,
                            all.skip(arity),
                            second,
                            mem.with_heap(heap),
                        );
                    }
                }
            }
        }
    }
}

/// Whether no two cases have the same literal.
pub open spec fn distinct_literals(cases: Seq<(usize, ExpressionView)>) -> bool {
    forall|i: int, j: int|
        0 <= i < cases.len() && 0 <= j < cases.len() && i != j ==> (#[trigger] cases[i]).0 != (
        #[trigger] cases[j]).0
}

/// The branch of the first case whose literal is `x`, if there is one.
pub open spec fn matched_branch(cases: Seq<(usize, ExpressionView)>, x: usize) -> Option<
    ExpressionView,
> {
    let i = first_match(cases, x);
    if 0 <= i < cases.len() {
        Some(cases[i].1)
    } else {
        None
    }
}

/// The first match is a match, and where any case matches there is a first.
pub proof fn lemma_first_match(cases: Seq<(usize, ExpressionView)>, x: usize)
    ensures
        0 <= first_match(cases, x) <= cases.len(),
        first_match(cases, x) < cases.len() ==> is_first_match(cases, x, first_match(cases, x)),
        first_match(cases, x) == cases.len() ==> forall|i: int|
            0 <= i < cases.len() ==> (#[trigger] cases[i]).0 != x,
{
    if first_match(cases, x) == cases.len() && !exists|i: int| is_first_match(cases, x, i) {
        assert forall|i: int| 0 <= i < cases.len() implies (#[trigger] cases[i]).0 != x by {
            lemma_no_match_before(cases, x, i + 1);
        }
    }
}

/// Where no case is the first match, none of the first `n` cases matches.
proof fn lemma_no_match_before(cases: Seq<(usize, ExpressionView)>, x: usize, n: int)
    requires
        0 <= n <= cases.len(),
        !exists|i: int| is_first_match(cases, x, i),
    ensures
        forall|j: int| 0 <= j < n ==> (#[trigger] cases[j]).0 != x,
    decreases n,
{
    if n > 0 {
        lemma_no_match_before(cases, x, n - 1);
        if cases[n - 1].0 == x {
            assert(is_first_match(cases, x, n - 1));
        }
    }
}

/// Match dispatch does not depend on the order of the cases: where the
/// literals are distinct, any permutation of the cases selects the same
/// branch for every number.
pub proof fn lemma_match_order_independent(
    cases: Seq<(usize, ExpressionView)>,
    permuted: Seq<(usize, ExpressionView)>,
    x: usize,
)
    requires
        distinct_literals(cases),
        cases.to_multiset() == permuted.to_multiset(),
    ensures
        matched_branch(cases, x) == matched_branch(permuted, x),
{
    lemma_first_match(cases, x);
    lemma_first_match(permuted, x);
    cases.to_multiset_ensures();
    permuted.to_multiset_ensures();
    let i = first_match(cases, x);
    let j = first_match(permuted, x);
    if i < cases.len() {
        assert(cases.contains(cases[i]));
        assert(permuted.to_multiset().count(cases[i]) > 0);
        assert(permuted.contains(cases[i]));
        let k = choose|k: int| 0 <= k < permuted.len() && permuted[k] == cases[i];
        assert(permuted[k].0 == x);
        assert(j < permuted.len());
        assert(permuted.contains(permuted[j]));
        assert(cases.to_multiset().count(permuted[j]) > 0);
        assert(cases.contains(permuted[j]));
        let l = choose|l: int| 0 <= l < cases.len() && cases[l] == permuted[j];
        assert(cases[l].0 == x);
        assert(l == i);
    } else if j < permuted.len() {
        assert(permuted.contains(permuted[j]));
        assert(cases.to_multiset().count(permuted[j]) > 0);
        assert(cases.contains(permuted[j]));
        let l = choose|l: int| 0 <= l < cases.len() && cases[l] == permuted[j];
        assert(cases[l].0 == x);
    }
}

/// A match evaluates alike under any permutation of its cases, where their
/// literals are distinct.
pub proof fn lemma_match_eval_order_independent(
    top: Toplevel,
    atom: crate::expr::AtomView,
    cases: Seq<(usize, ExpressionView)>,
    permuted: Seq<(usize, ExpressionView)>,
    default: Option<Box<ExpressionView>>,
    frame: Env,
    mem: Memory,
)
    requires
        distinct_literals(cases),
        cases.to_multiset() == permuted.to_multiset(),
    ensures
        eval(top, ExpressionView::Match(atom, cases, default), frame, mem) == eval(
            top,
            ExpressionView::Match(atom, permuted, default),
            frame,
            mem,
        ),
{
    if let Ok(value) = atom_value(atom, frame) {
        if let Ok(x) = expect_num(value) {
            lemma_match_order_independent(cases, permuted, x);
            lemma_first_match(cases, x);
            lemma_first_match(permuted, x);
        }
    }
}

} // verus!
