//! A program that has passed the check does not go wrong on names, arities
//! or pointers: its faults are the exhaustion of a resource, a value of the
//! wrong kind, a match without a matching case, and division by zero. And it
//! binds no variable of a frame twice.

use crate::expr::{AtomView, ExpressionView};
use crate::semantics::{
    allocate, apply, atom_value, atoms_values, bind, call, eval, first_match, Env, Memory,
    Toplevel,
};
use crate::validity::{
    atom_bound, atoms_bound, check_cases, check_def, check_expr, declare_params, insert_unique,
    valid, Names,
};
use crate::value::{expect_num, expect_ptr, Closure, FaultView, Ptr, Value};
use vstd::prelude::*;

verus! {

/// Whether a fault tells of a defect of the program and not of its input: a
/// variable that nothing binds, a function that does not exist or is given
/// the wrong number of arguments, a pointer to no record.
pub open spec fn is_defect(fault: FaultView) -> bool {
    fault is UnboundVariable || fault is UnknownFunction || fault is ArityMismatch
        || fault is InvalidPointer
}

/// Whether a value, if it is a pointer, addresses one of the first `live`
/// records of the arena.
pub open spec fn value_ok(value: Value, live: nat) -> bool {
    value matches Value::Ptr(ptr) ==> ptr < live
}

/// Whether each of the values is sound.
pub open spec fn values_ok(values: Seq<Value>, live: nat) -> bool {
    forall|i: int| 0 <= i < values.len() ==> value_ok(#[trigger] values[i], live)
}

/// Whether every record of the arena names a function that the program has,
/// holds fewer arguments than that function has parameters, and holds sound
/// values.
pub open spec fn closures_ok(top: Toplevel, heap: Seq<Closure>) -> bool {
    forall|i: int|
        0 <= i < heap.len() ==> {
            &&& top.contains_key((#[trigger] heap[i]).name)
            &&& heap[i].args.len() < top[heap[i].name].params.len()
            &&& values_ok(heap[i].args, heap.len())
        }
}

/// Whether a frame binds every variable in scope, and binds sound values.
pub open spec fn frame_ok(frame: Env, scope: Set<Seq<char>>, live: nat) -> bool {
    &&& forall|x: Seq<char>| scope.contains(x) ==> #[trigger] frame.contains_key(x)
    &&& forall|x: Seq<char>| #[trigger] frame.contains_key(x) ==> value_ok(frame[x], live)
}

/// Whether the arena of a memory is sound for a program.
pub open spec fn memory_ok(top: Toplevel, mem: Memory) -> bool {
    mem.wf() && closures_ok(top, mem.heap)
}

/// Sound values stay sound when the arena grows.
proof fn lemma_values_ok_grow(values: Seq<Value>, live: nat, later: nat)
    requires
        values_ok(values, live),
        live <= later,
    ensures
        values_ok(values, later),
{
    assert forall|i: int| 0 <= i < values.len() implies value_ok(#[trigger] values[i], later) by {
        assert(value_ok(values[i], live));
    }
}

/// A sound frame stays sound when the arena grows.
proof fn lemma_frame_ok_grow(frame: Env, scope: Set<Seq<char>>, live: nat, later: nat)
    requires
        frame_ok(frame, scope, live),
        live <= later,
    ensures
        frame_ok(frame, scope, later),
{
    assert forall|x: Seq<char>| #[trigger] frame.contains_key(x) implies value_ok(
        frame[x],
        later,
    ) by {
        assert(value_ok(frame[x], live));
    }
}

/// A sound arena with a sound record appended is sound.
proof fn lemma_allocate_ok(top: Toplevel, mem: Memory, record: Closure)
    requires
        memory_ok(top, mem),
        top.contains_key(record.name),
        record.args.len() < top[record.name].params.len(),
        values_ok(record.args, mem.heap.len()),
    ensures
        match allocate(mem, record) {
            Ok((value, heap)) => {
                &&& closures_ok(top, heap)
                &&& value_ok(value, heap.len())
                &&& mem.heap.len() <= heap.len() <= mem.heap_capacity
            },
            Err(fault) => !is_defect(fault),
        },
{
    if let Ok((value, heap)) = allocate(mem, record) {
        assert forall|i: int| 0 <= i < heap.len() implies {
            &&& top.contains_key((#[trigger] heap[i]).name)
            &&& heap[i].args.len() < top[heap[i].name].params.len()
            &&& values_ok(heap[i].args, heap.len())
        } by {
            if i < mem.heap.len() {
                assert(heap[i] == mem.heap[i]);
                lemma_values_ok_grow(mem.heap[i].args, mem.heap.len(), heap.len());
            } else {
                lemma_values_ok_grow(record.args, mem.heap.len(), heap.len());
            }
        }
    }
}

/// An atom that has passed the check has a sound value in a sound frame.
proof fn lemma_atom_ok(atom: AtomView, scope: Set<Seq<char>>, frame: Env, live: nat)
    requires
        atom_bound(atom, scope) is Ok,
        frame_ok(frame, scope, live),
    ensures
        atom_value(atom, frame) is Ok,
        value_ok(atom_value(atom, frame)->Ok_0, live),
{
}

/// Atoms that have passed the check have sound values in a sound frame, as
/// many as there are atoms.
proof fn lemma_atoms_ok(atoms: Seq<AtomView>, scope: Set<Seq<char>>, frame: Env, live: nat)
    requires
        atoms_bound(atoms, scope) is Ok,
        frame_ok(frame, scope, live),
    ensures
        atoms_values(atoms, frame) is Ok,
        atoms_values(atoms, frame)->Ok_0.len() == atoms.len(),
        values_ok(atoms_values(atoms, frame)->Ok_0, live),
    decreases atoms.len(),
{
    if atoms.len() > 0 {
        lemma_atoms_ok(atoms.drop_last(), scope, frame, live);
        lemma_atom_ok(atoms.last(), scope, frame, live);
    }
}

/// The frame of a fresh activation binds the parameters of the function to
/// the arguments, and so is sound where the arguments are.
proof fn lemma_bind_ok(params: Seq<Seq<char>>, args: Seq<Value>, live: nat)
    requires
        declare_params(params) is Ok,
        params.len() == args.len(),
        values_ok(args, live),
    ensures
        frame_ok(bind(params, args), declare_params(params)->Ok_0.scope, live),
    decreases params.len(),
{
    if params.len() > 0 {
        assert(values_ok(args.drop_last(), live)) by {
            assert forall|i: int| 0 <= i < args.drop_last().len() implies value_ok(
                #[trigger] args.drop_last()[i],
                live,
            ) by {
                assert(value_ok(args[i], live));
            }
        }
        lemma_bind_ok(params.drop_last(), args.drop_last(), live);
        assert(value_ok(args[args.len() - 1], live));
    }
}

/// Where the check of the first `n` cases passes, the check of each passes,
/// in the scope of the match.
proof fn lemma_check_cases_each(
    cases: Seq<(usize, ExpressionView)>,
    n: int,
    names: Names,
    top: Toplevel,
    i: int,
)
    requires
        0 <= i < n <= cases.len(),
        check_cases(cases, n, names, top) is Ok,
    ensures
        check_cases(cases, i, names, top) is Ok,
        check_expr(
            cases[i].1,
            Names { scope: names.scope, defined: check_cases(cases, i, names, top)->Ok_0 },
            top,
        ) is Ok,
    decreases n,
{
    if i < n - 1 {
        lemma_check_cases_each(cases, n - 1, names, top, i);
    }
}

/// The evaluation of a checked expression in a sound frame and memory yields
/// a sound value, frame and arena, or a fault that is no defect.
pub proof fn lemma_eval_is_safe(
    top: Toplevel,
    expr: ExpressionView,
    names: Names,
    frame: Env,
    mem: Memory,
)
    requires
        valid(top),
        memory_ok(top, mem),
        check_expr(expr, names, top) is Ok,
        frame_ok(frame, names.scope, mem.heap.len()),
    ensures
        match eval(top, expr, frame, mem) {
            Ok((value, after, heap)) => {
                &&& closures_ok(top, heap)
                &&& mem.heap.len() <= heap.len() <= mem.heap_capacity
                &&& value_ok(value, heap.len())
                &&& frame_ok(after, check_expr(expr, names, top)->Ok_0.scope, heap.len())
            },
            Err(fault) => !is_defect(fault),
        },
    decreases 2 * mem.frames_left + 1, 0int, 0int, expr,
{
    let live = mem.heap.len();
    match expr {
        ExpressionView::Unit(atom) => {
            lemma_atom_ok(atom, names.scope, frame, live);
        },
        ExpressionView::Let(x, bound, body) => {
            lemma_eval_is_safe(top, *bound, names, frame, mem);
            if let Ok((value, frame1, heap1)) = eval(top, *bound, frame, mem) {
                let names1 = check_expr(*bound, names, top)->Ok_0;
                let names2 = insert_unique(x, names1)->Ok_0;
                lemma_eval_is_safe(
                    top,
                    *body,
                    names2,
                    frame1.insert(x, value),
                    mem.with_heap(heap1),
                );
            }
        },
        ExpressionView::Call(f, atoms) => {
            lemma_atoms_ok(atoms, names.scope, frame, live);
            let args = atoms_values(atoms, frame)->Ok_0;
            lemma_call_is_safe(top, f, args, mem);
            if let Ok((value, heap)) = call(top, f, args, mem) {
                lemma_frame_ok_grow(frame, names.scope, live, heap.len());
            }
        },
        ExpressionView::Apply(f, atoms) => {
            assert(frame.contains_key(f));
            assert(value_ok(frame[f], live));
            if let Ok(ptr) = expect_ptr(frame[f]) {
                lemma_atoms_ok(atoms, names.scope, frame, live);
                let args = atoms_values(atoms, frame)->Ok_0;
                lemma_apply_is_safe(top, ptr, args, mem);
                if let Ok((value, heap)) = apply(top, ptr, args, mem) {
                    lemma_frame_ok_grow(frame, names.scope, live, heap.len());
                }
            }
        },
        ExpressionView::Papp(f, atoms) => {
            lemma_atoms_ok(atoms, names.scope, frame, live);
            let args = atoms_values(atoms, frame)->Ok_0;
            lemma_allocate_ok(top, mem, Closure { name: f, args });
            if let Ok((value, heap)) = allocate(mem, Closure { name: f, args }) {
                lemma_frame_ok_grow(frame, names.scope, live, heap.len());
            }
        },
        ExpressionView::Match(atom, cases, default) => {
            lemma_atom_ok(atom, names.scope, frame, live);
            let value = atom_value(atom, frame)->Ok_0;
            if let Ok(x) = expect_num(value) {
                let i = first_match(cases, x);
                let defined = check_cases(cases, cases.len() as int, names, top)->Ok_0;
                if 0 <= i < cases.len() {
                    lemma_check_cases_each(cases, cases.len() as int, names, top, i);
                    let before = Names {
                        scope: names.scope,
                        defined: check_cases(cases, i, names, top)->Ok_0,
                    };
                    lemma_eval_is_safe(top, cases[i].1, before, frame, mem);
                    if let Ok((_, after, heap)) = eval(top, cases[i].1, frame, mem) {
                        lemma_scope_grows(cases[i].1, before, top);
                    }
                } else if let Some(branch) = default {
                    let before = Names { scope: names.scope, defined };
                    lemma_eval_is_safe(top, *branch, before, frame, mem);
                    if let Ok((_, after, heap)) = eval(top, *branch, frame, mem) {
                        lemma_scope_grows(*branch, before, top);
                    }
                }
            }
        },
        ExpressionView::Operate(op, x, y) => {
            lemma_atom_ok(x, names.scope, frame, live);
            lemma_atom_ok(y, names.scope, frame, live);
        },
    }
}

/// The check of an expression leaves in scope what was in scope before it.
pub proof fn lemma_scope_grows(expr: ExpressionView, names: Names, top: Toplevel)
    requires
        check_expr(expr, names, top) is Ok,
    ensures
        names.scope.subset_of(check_expr(expr, names, top)->Ok_0.scope),
    decreases expr,
{
    match expr {
        ExpressionView::Let(x, bound, body) => {
            lemma_scope_grows(*bound, names, top);
            let names1 = check_expr(*bound, names, top)->Ok_0;
            let names2 = insert_unique(x, names1)->Ok_0;
            lemma_scope_grows(*body, names2, top);
        },
        _ => {},
    }
}

/// The call of a function of a checked program, on as many sound arguments
/// as it has parameters, yields a sound value and arena, or a fault that is
/// no defect.
pub proof fn lemma_call_is_safe(top: Toplevel, name: Seq<char>, args: Seq<Value>, mem: Memory)
    requires
        valid(top),
        memory_ok(top, mem),
        top.contains_key(name),
        top[name].params.len() == args.len(),
        values_ok(args, mem.heap.len()),
    ensures
        match call(top, name, args, mem) {
            Ok((value, heap)) => {
                &&& closures_ok(top, heap)
                &&& mem.heap.len() <= heap.len() <= mem.heap_capacity
                &&& value_ok(value, heap.len())
            },
            Err(fault) => !is_defect(fault),
        },
    decreases 2 * mem.frames_left, 0int, 0int,
{
    if mem.frames_left > 0 {
        let def = top[name];
        assert(check_def(def, top) is Ok);
        let names = declare_params(def.params)->Ok_0;
        lemma_bind_ok(def.params, args, mem.heap.len());
        lemma_eval_is_safe(top, def.body, names, bind(def.params, args), mem.entered());
    }
}

/// The application of a closure of a sound arena to sound arguments, in a
/// checked program, yields a sound value and arena, or a fault that is no
/// defect.
pub proof fn lemma_apply_is_safe(top: Toplevel, ptr: Ptr, more: Seq<Value>, mem: Memory)
    requires
        valid(top),
        memory_ok(top, mem),
        ptr < mem.heap.len(),
        values_ok(more, mem.heap.len()),
    ensures
        match apply(top, ptr, more, mem) {
            Ok((value, heap)) => {
                &&& closures_ok(top, heap)
                &&& mem.heap.len() <= heap.len() <= mem.heap_capacity
                &&& value_ok(value, heap.len())
            },
            Err(fault) => !is_defect(fault),
        },
    decreases 2 * mem.frames_left, 1int, more.len(),
{
    let live = mem.heap.len();
    let record = mem.heap[ptr as int];
    let all = record.args + more;
    let arity = top[record.name].params.len();
    assert(values_ok(all, live)) by {
        assert forall|i: int| 0 <= i < all.len() implies value_ok(#[trigger] all[i], live) by {
            if i < record.args.len() {
                assert(value_ok(record.args[i], live));
            } else {
                assert(value_ok(more[i - record.args.len()], live));
            }
        }
    }
    if all.len() < arity {
        lemma_allocate_ok(top, mem, Closure { name: record.name, args: all });
    } else if all.len() == arity {
        lemma_call_is_safe(top, record.name, all, mem);
    } else {
        let first = all.take(arity as int);
        let rest = all.skip(arity as int);
        assert(values_ok(first, live)) by {
            assert forall|i: int| 0 <= i < first.len() implies value_ok(
                #[trigger] first[i],
                live,
            ) by {
                assert(value_ok(all[i], live));
            }
        }
        lemma_call_is_safe(top, record.name, first, mem);
        if let Ok((value, heap)) = call(top, record.name, first, mem) {
            if let Ok(next) = expect_ptr(value) {
                assert(values_ok(rest, heap.len())) by {
                    assert forall|i: int| 0 <= i < rest.len() implies value_ok(
                        #[trigger] rest[i],
                        heap.len(),
                    ) by {
                        assert(value_ok(all[i + arity], live));
                    }
                }
                lemma_apply_is_safe(top, next, rest, mem.with_heap(heap));
            }
        }
    }
}

/// A run of a checked program yields a sound value, or a fault that is no
/// defect, unless the program has no function `main` without parameters.
pub proof fn lemma_run_is_safe(top: Toplevel, heap_capacity: nat, stack_capacity: nat)
    requires
        valid(top),
        heap_capacity <= u32::MAX as nat + 1,
        top.contains_key("main"@),
        top["main"@].params.len() == 0,
    ensures
        match crate::semantics::run(top, heap_capacity, stack_capacity) {
            Ok((value, heap)) => closures_ok(top, heap) && value_ok(value, heap.len()),
            Err(fault) => !is_defect(fault),
        },
{
    lemma_call_is_safe(
        top,
        "main"@,
        Seq::empty(),
        Memory { heap: Seq::empty(), heap_capacity, frames_left: stack_capacity },
    );
}

/// Whether a frame binds only variables that the function has defined.
pub open spec fn frame_within(frame: Env, defined: Set<Seq<char>>) -> bool {
    forall|x: Seq<char>| #[trigger] frame.contains_key(x) ==> defined.contains(x)
}

/// The check of an expression leaves defined what was defined before it.
pub proof fn lemma_defined_grows(expr: ExpressionView, names: Names, top: Toplevel)
    requires
        check_expr(expr, names, top) is Ok,
    ensures
        names.defined.subset_of(check_expr(expr, names, top)->Ok_0.defined),
    decreases expr, 0int,
{
    match expr {
        ExpressionView::Let(x, bound, body) => {
            lemma_defined_grows(*bound, names, top);
            let names1 = check_expr(*bound, names, top)->Ok_0;
            let names2 = insert_unique(x, names1)->Ok_0;
            lemma_defined_grows(*body, names2, top);
        },
        ExpressionView::Match(_, cases, default) => {
            lemma_cases_defined_grows(cases, 0, cases.len() as int, names, top);
            let defined = check_cases(cases, cases.len() as int, names, top)->Ok_0;
            if let Some(branch) = default {
                lemma_defined_grows(*branch, Names { scope: names.scope, defined }, top);
            }
        },
        _ => {},
    }
}

/// The check of the cases of a match leaves defined, after the first `n`
/// cases, what was defined after the first `m` of them, for `m` up to `n`.
pub proof fn lemma_cases_defined_grows(
    cases: Seq<(usize, ExpressionView)>,
    m: int,
    n: int,
    names: Names,
    top: Toplevel,
)
    requires
        0 <= m <= n <= cases.len(),
        check_cases(cases, n, names, top) is Ok,
    ensures
        check_cases(cases, m, names, top) is Ok,
        check_cases(cases, m, names, top)->Ok_0.subset_of(
            check_cases(cases, n, names, top)->Ok_0,
        ),
    decreases cases, n,
{
    if m < n {
        lemma_cases_defined_grows(cases, m, n - 1, names, top);
        let defined = check_cases(cases, n - 1, names, top)->Ok_0;
        lemma_defined_grows(cases[n - 1].1, Names { scope: names.scope, defined }, top);
    }
}

/// The frame of a fresh activation binds the parameters and nothing else.
pub proof fn lemma_bind_within(params: Seq<Seq<char>>, args: Seq<Value>)
    requires
        declare_params(params) is Ok,
    ensures
        frame_within(bind(params, args), declare_params(params)->Ok_0.defined),
    decreases params.len(),
{
    if params.len() > 0 && args.len() > 0 {
        lemma_bind_within(params.drop_last(), args.drop_last());
    }
}

/// Evaluation binds only variables that the check has seen defined: a frame
/// that holds none but defined variables is such a frame afterwards.
pub proof fn lemma_eval_stays_within(
    top: Toplevel,
    expr: ExpressionView,
    names: Names,
    frame: Env,
    mem: Memory,
)
    requires
        check_expr(expr, names, top) is Ok,
        frame_within(frame, names.defined),
    ensures
        eval(top, expr, frame, mem) matches Ok((_, after, _)) ==> frame_within(
            after,
            check_expr(expr, names, top)->Ok_0.defined,
        ),
    decreases expr,
{
    match expr {
        ExpressionView::Let(x, bound, body) => {
            lemma_eval_stays_within(top, *bound, names, frame, mem);
            if let Ok((value, frame1, heap1)) = eval(top, *bound, frame, mem) {
                let names1 = check_expr(*bound, names, top)->Ok_0;
                let names2 = insert_unique(x, names1)->Ok_0;
                lemma_eval_stays_within(
                    top,
                    *body,
                    names2,
                    frame1.insert(x, value),
                    mem.with_heap(heap1),
                );
            }
        },
        ExpressionView::Match(atom, cases, default) => {
            if let Ok(value) = atom_value(atom, frame) {
                if let Ok(x) = expect_num(value) {
                    let i = first_match(cases, x);
                    let n = cases.len() as int;
                    let defined = check_cases(cases, n, names, top)->Ok_0;
                    lemma_cases_defined_grows(cases, 0, n, names, top);
                    if 0 <= i < cases.len() {
                        lemma_check_cases_each(cases, n, names, top, i);
                        lemma_cases_defined_grows(cases, 0, i, names, top);
                        lemma_cases_defined_grows(cases, i + 1, n, names, top);
                        let before = Names {
                            scope: names.scope,
                            defined: check_cases(cases, i, names, top)->Ok_0,
                        };
                        lemma_eval_stays_within(top, cases[i].1, before, frame, mem);
                        if let Some(branch) = default {
                            lemma_defined_grows(
                                *branch,
                                Names { scope: names.scope, defined },
                                top,
                            );
                        }
                    } else if let Some(branch) = default {
                        lemma_eval_stays_within(
                            top,
                            *branch,
                            Names { scope: names.scope, defined },
                            frame,
                            mem,
                        );
                    }
                }
            }
        },
        _ => {},
    }
}

/// Single assignment at run time: where a checked `let` comes to bind its
/// variable, the frame does not bind it yet.
pub proof fn lemma_let_binds_a_fresh_name(
    top: Toplevel,
    x: Seq<char>,
    bound: ExpressionView,
    body: ExpressionView,
    names: Names,
    frame: Env,
    mem: Memory,
)
    requires
        check_expr(ExpressionView::Let(x, Box::new(bound), Box::new(body)), names, top) is Ok,
        frame_within(frame, names.defined),
        eval(top, bound, frame, mem) is Ok,
    ensures
        !eval(top, bound, frame, mem)->Ok_0.1.contains_key(x),
{
    lemma_eval_stays_within(top, bound, names, frame, mem);
}

} // verus!
