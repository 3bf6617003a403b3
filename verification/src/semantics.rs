//! What evaluation means: a big-step semantics over the views of programs and
//! of the machine, as total functions. A run is bounded by the frames that the
//! call stack has left, so every evaluation ends in a value or in a fault.

use crate::expr::{AtomView, DefinitionView, ExpressionView};
use crate::value::{expect_num, expect_ptr, operate, Closure, FaultView, Ptr, Value};
use vstd::prelude::*;

verus! {

/// The bindings of one activation: variable name to value.
pub type Env = Map<Seq<char>, Value>;

/// The top-level functions of a program, by name.
pub type Toplevel = Map<Seq<char>, DefinitionView>;

/// What a callee can change or run out of: the arena with its capacity, and
/// the number of frames that the call stack can still take.
pub struct Memory {
    pub heap: Seq<Closure>,
    pub heap_capacity: nat,
    pub frames_left: nat,
}

impl Memory {
    /// The arena is within its capacity, and every index into it fits a
    /// pointer.
    pub open spec fn wf(self) -> bool {
        self.heap.len() <= self.heap_capacity <= u32::MAX as nat + 1
    }

    /// The same limits around another arena.
    pub open spec fn with_heap(self, heap: Seq<Closure>) -> Memory {
        Memory { heap, ..self }
    }

    /// The memory as a callee sees it, one frame further down.
    pub open spec fn entered(self) -> Memory {
        Memory { frames_left: (self.frames_left - 1) as nat, ..self }
    }
}

/// A value with the arena after the step that produced it, or a fault.
pub type Step = Result<(Value, Seq<Closure>), FaultView>;

/// Appends a record to the arena and yields its index; a full arena is a fault.
pub open spec fn allocate(mem: Memory, record: Closure) -> Step {
    if mem.heap.len() >= mem.heap_capacity {
        Err(FaultView::OutOfMemory)
    } else {
        Ok((Value::Ptr(mem.heap.len() as Ptr), mem.heap.push(record)))
    }
}

/// The value that a frame binds to a name.
pub open spec fn lookup(frame: Env, name: Seq<char>) -> Result<Value, FaultView> {
    if frame.contains_key(name) {
        Ok(frame[name])
    } else {
        Err(FaultView::UnboundVariable(name))
    }
}

/// The value of an atom in a frame.
pub open spec fn atom_value(atom: AtomView, frame: Env) -> Result<Value, FaultView> {
    match atom {
        AtomView::Var(x) => lookup(frame, x),
        AtomView::Lit(n) => Ok(Value::Num(n)),
    }
}

/// The values of a list of atoms, taken from left to right; the first fault
/// met is the result.
pub open spec fn atoms_values(atoms: Seq<AtomView>, frame: Env) -> Result<Seq<Value>, FaultView>
    decreases atoms.len(),
{
    if atoms.len() == 0 {
        Ok(Seq::empty())
    } else {
        match atoms_values(atoms.drop_last(), frame) {
            Err(fault) => Err(fault),
            Ok(values) => match atom_value(atoms.last(), frame) {
                Err(fault) => Err(fault),
                Ok(value) => Ok(values.push(value)),
            },
        }
    }
}

/// The frame of a fresh activation: each parameter bound to the argument at
/// its position.
pub open spec fn bind(params: Seq<Seq<char>>, args: Seq<Value>) -> Env
    decreases params.len(),
{
    if params.len() == 0 || args.len() == 0 {
        Map::empty()
    } else {
        bind(params.drop_last(), args.drop_last()).insert(params.last(), args.last())
    }
}

/// Whether `i` is the first case whose literal is `x`.
pub open spec fn is_first_match(cases: Seq<(usize, ExpressionView)>, x: usize, i: int) -> bool {
    &&& 0 <= i < cases.len()
    &&& cases[i].0 == x
    &&& forall|j: int| 0 <= j < i ==> (#[trigger] cases[j]).0 != x
}

/// The index of the first case whose literal is `x`, or the number of cases
/// where there is none.
pub open spec fn first_match(cases: Seq<(usize, ExpressionView)>, x: usize) -> int {
    if exists|i: int| is_first_match(cases, x, i) {
        choose|i: int| is_first_match(cases, x, i)
    } else {
        cases.len() as int
    }
}

/// The value of an expression in a frame, with the frame and the arena as the
/// evaluation leaves them.
pub open spec fn eval(top: Toplevel, expr: ExpressionView, frame: Env, mem: Memory) -> Result<
    (Value, Env, Seq<Closure>),
    FaultView,
>
    decreases 2 * mem.frames_left + 1, 0int, 0int, expr,
{
    match expr {
        ExpressionView::Unit(atom) => match atom_value(atom, frame) {
            Err(fault) => Err(fault),
            Ok(value) => Ok((value, frame, mem.heap)),
        },
        ExpressionView::Let(x, bound, body) => match eval(top, *bound, frame, mem) {
            Err(fault) => Err(fault),
            Ok((value, frame, heap)) => eval(
                top,
                *body,
                frame.insert(x, value),
                mem.with_heap(heap),
            ),
        },
        ExpressionView::Call(f, atoms) => match atoms_values(atoms, frame) {
            Err(fault) => Err(fault),
            Ok(args) => match call(top, f, args, mem) {
                Err(fault) => Err(fault),
                Ok((value, heap)) => Ok((value, frame, heap)),
            },
        },
        ExpressionView::Apply(f, atoms) => match lookup(frame, f) {
            Err(fault) => Err(fault),
            Ok(closure) => match expect_ptr(closure) {
                Err(fault) => Err(fault),
                Ok(ptr) => match atoms_values(atoms, frame) {
                    Err(fault) => Err(fault),
                    Ok(args) => match apply(top, ptr, args, mem) {
                        Err(fault) => Err(fault),
                        Ok((value, heap)) => Ok((value, frame, heap)),
                    },
                },
            },
        },
        ExpressionView::Papp(f, atoms) => match atoms_values(atoms, frame) {
            Err(fault) => Err(fault),
            Ok(args) => match allocate(mem, Closure { name: f, args }) {
                Err(fault) => Err(fault),
                Ok((value, heap)) => Ok((value, frame, heap)),
            },
        },
        ExpressionView::Match(atom, cases, default) => match atom_value(atom, frame) {
            Err(fault) => Err(fault),
            Ok(value) => match expect_num(value) {
                Err(fault) => Err(fault),
                Ok(x) => {
                    let i = first_match(cases, x);
                    if 0 <= i < cases.len() {
                        eval(top, cases[i].1, frame, mem)
                    } else {
                        match default {
                            Some(branch) => eval(top, *branch, frame, mem),
                            None => Err(FaultView::MatchFailed(x)),
                        }
                    }
                },
            },
        },
        ExpressionView::Operate(op, x, y) => match atom_value(x, frame) {
            Err(fault) => Err(fault),
            Ok(x) => match expect_num(x) {
                Err(fault) => Err(fault),
                Ok(x) => match atom_value(y, frame) {
                    Err(fault) => Err(fault),
                    Ok(y) => match expect_num(y) {
                        Err(fault) => Err(fault),
                        Ok(y) => match operate(op, x, y) {
                            Err(fault) => Err(fault),
                            Ok(z) => Ok((Value::Num(z), frame, mem.heap)),
                        },
                    },
                },
            },
        },
    }
}

/// The value of a call of the top-level function `name` on exactly its arity
/// of arguments, with the arena as the call leaves it.
pub open spec fn call(top: Toplevel, name: Seq<char>, args: Seq<Value>, mem: Memory) -> Step
    decreases 2 * mem.frames_left, 0int, 0int,
{
    if !top.contains_key(name) {
        Err(FaultView::UnknownFunction(name))
    } else if top[name].params.len() != args.len() {
        Err(FaultView::ArityMismatch(name))
    } else if mem.frames_left == 0 {
        Err(FaultView::StackOverflow)
    } else {
        match eval(top, top[name].body, bind(top[name].params, args), mem.entered()) {
            Err(fault) => Err(fault),
            Ok((value, _, heap)) => Ok((value, heap)),
        }
    }
}

/// The value of applying the closure at `ptr` to more arguments. Short of the
/// function's arity the result is a new, longer closure; at the arity it is
/// the call; beyond it the call must yield a closure, to which the arguments
/// left over are applied in turn.
pub open spec fn apply(top: Toplevel, ptr: Ptr, more: Seq<Value>, mem: Memory) -> Step
    decreases 2 * mem.frames_left, 1int, more.len(),
{
    if ptr >= mem.heap.len() {
        Err(FaultView::InvalidPointer(ptr))
    } else {
        let record = mem.heap[ptr as int];
        let all = record.args + more;
        if !top.contains_key(record.name) {
            Err(FaultView::UnknownFunction(record.name))
        } else {
            let arity = top[record.name].params.len();
            if record.args.len() >= arity {
                Err(FaultView::ArityMismatch(record.name))
            } else if all.len() < arity {
                allocate(mem, Closure { name: record.name, args: all })
            } else if all.len() == arity {
                call(top, record.name, all, mem)
            } else {
                match call(top, record.name, all.take(arity as int), mem) {
                    Err(fault) => Err(fault),
                    Ok((value, heap)) => match expect_ptr(value) {
                        Err(fault) => Err(fault),
                        Ok(next) => apply(top, next, all.skip(arity as int), mem.with_heap(heap)),
                    },
                }
            }
        }
    }
}

/// The value of a program: the call of `main` on no arguments, from an empty
/// arena and an empty call stack.
pub open spec fn run(top: Toplevel, heap_capacity: nat, stack_capacity: nat) -> Step {
    call(
        top,
        "main"@,
        Seq::empty(),
        Memory { heap: Seq::empty(), heap_capacity, frames_left: stack_capacity },
    )
}

} // verus!
