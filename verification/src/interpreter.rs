//! The evaluator: a bounded call stack, a bounded append-only closure arena,
//! and the resolution of calls, applications and partial applications.

use crate::expr::{atoms_view, Atom, Expression};
use crate::module::Module;
use crate::safety::{is_defect, lemma_run_is_safe, value_ok};
use crate::semantics;
use crate::semantics::{Env, Memory};
use crate::theorems::{
    lemma_apply_extends_arena, lemma_call_extends_arena, lemma_eval_extends_arena,
};
use crate::value::{outcome, Closure, Fault, HeapCell, Ptr, Value};
use vstd::hash_map::StringHashMap;
use vstd::prelude::*;
use vstd::slice::slice_subrange;

verus! {

/// The bindings of one activation.
pub struct Frame(StringHashMap<Value>);

impl View for Frame {
    type V = Env;

    closed spec fn view(&self) -> Env {
        self.0@
    }
}

impl Frame {
    /// A frame that binds nothing.
    pub fn new() -> (frame: Frame)
        ensures
            frame@ == Map::<Seq<char>, Value>::empty(),
    {
        Frame(StringHashMap::new())
    }

    /// Binds `reg` to `val`.
    pub fn insert(&mut self, reg: String, val: Value)
        ensures
            final(self)@ == old(self)@.insert(reg@, val),
    {
        self.0.insert(reg, val);
    }

    /// The value bound to `reg`; an unbound name is a fault.
    pub fn get(&self, reg: &str) -> (res: Result<Value, Fault>)
        ensures
            outcome(res) == semantics::lookup(self@, reg@),
    {
        match self.0.get(reg) {
            Some(val) => Ok(*val),
            None => Err(Fault::UnboundVariable(reg.to_owned())),
        }
    }
}

/// The number of closure records that the arena of [`State::new`] can hold.
pub const INIT_HEAP_SIZE: usize = 0x100_0000;

/// The number of frames that the call stack of [`State::new`] can hold.
pub const INIT_STACK_SIZE: usize = 0x4_0000;

/// An empty arena, with room reserved for `capacity` records or for
/// [`INIT_HEAP_SIZE`] of them, whichever is less.
pub fn alloc_heap(capacity: usize) -> (heap: Vec<HeapCell>)
    ensures
        heap@.len() == 0,
{
    Vec::with_capacity(if capacity < INIT_HEAP_SIZE { capacity } else { INIT_HEAP_SIZE })
}

/// An empty call stack, with room reserved for `capacity` frames or for
/// [`INIT_STACK_SIZE`] of them, whichever is less.
pub fn alloc_stack(capacity: usize) -> (stack: Vec<Frame>)
    ensures
        stack@.len() == 0,
{
    Vec::with_capacity(if capacity < INIT_STACK_SIZE { capacity } else { INIT_STACK_SIZE })
}

/// Appends `val` to `mem` unless `mem` already holds `capacity` items or
/// more, in which case `mem` stays as it is and `fault` comes back.
pub fn push_within_capacity<T>(mem: &mut Vec<T>, val: T, capacity: usize, fault: Fault) -> (res:
    Result<(), Fault>)
    ensures
        old(mem)@.len() < capacity ==> res is Ok && final(mem)@ == old(mem)@.push(val),
        old(mem)@.len() >= capacity ==> res == Err::<(), Fault>(fault) && final(mem)@ == old(mem)@,
{
    if mem.len() >= capacity {
        return Err(fault);
    }
    mem.push(val);
    Ok(())
}

/// The state of one run: the closure arena, the call stack of suspended
/// frames, and the frame of the innermost active call.
pub struct State {
    heap: Vec<HeapCell>,
    stack: Vec<Frame>,
    frame: Frame,
    heap_capacity: usize,
    stack_capacity: usize,
}

/// The values of `a` followed by those of `b`.
fn concat(a: &Vec<Value>, b: &[Value]) -> (all: Vec<Value>)
    ensures
        all@ == a@ + b@,
{
    let mut all: Vec<Value> = Vec::with_capacity(a.len());
    let mut i: usize = 0;
    while i < a.len()
        invariant
            i <= a.len(),
            all@ == a@.take(i as int),
        decreases a.len() - i,
    {
        all.push(a[i]);
        i += 1;
    }
    let mut j: usize = 0;
    while j < b.len()
        invariant
            j <= b.len(),
            all@ == a@ + b@.take(j as int),
        decreases b.len() - j,
    {
        all.push(b[j]);
        j += 1;
    }
    all
}

impl State {
    /// The closure arena, record by record.
    pub closed spec fn arena(&self) -> Seq<Closure> {
        self.heap@.map_values(|cell: HeapCell| cell@)
    }

    /// The suspended frames, the outermost caller first.
    pub closed spec fn frames(&self) -> Seq<Env> {
        self.stack@.map_values(|frame: Frame| frame@)
    }

    /// The frame of the innermost active call.
    pub closed spec fn current(&self) -> Env {
        self.frame@
    }

    /// The number of records that the arena can hold.
    pub closed spec fn heap_capacity(&self) -> nat {
        self.heap_capacity as nat
    }

    /// The number of frames that the call stack can hold.
    pub closed spec fn stack_capacity(&self) -> nat {
        self.stack_capacity as nat
    }

    /// Neither store holds more than its capacity, and every index into the
    /// arena fits a pointer.
    pub open spec fn wf(&self) -> bool {
        &&& self.arena().len() <= self.heap_capacity() <= u32::MAX as nat + 1
        &&& self.frames().len() <= self.stack_capacity()
    }

    /// The arena and the room that is left, as the semantics sees them.
    pub open spec fn memory(&self) -> Memory {
        Memory {
            heap: self.arena(),
            heap_capacity: self.heap_capacity(),
            frames_left: (self.stack_capacity() - self.frames().len()) as nat,
        }
    }

    /// Whether `other` has the capacities of `self`.
    pub open spec fn same_limits(&self, other: &State) -> bool {
        &&& self.heap_capacity() == other.heap_capacity()
        &&& self.stack_capacity() == other.stack_capacity()
    }

    /// A state with an empty arena for [`INIT_HEAP_SIZE`] records, an empty
    /// call stack for [`INIT_STACK_SIZE`] frames and an empty frame.
    pub fn new() -> (state: State)
        ensures
            state.wf(),
            state.arena().len() == 0,
            state.frames().len() == 0,
            state.current() == Map::<Seq<char>, Value>::empty(),
            state.heap_capacity() == INIT_HEAP_SIZE,
            state.stack_capacity() == INIT_STACK_SIZE,
    {
        State::with_capacity(INIT_HEAP_SIZE as u32, INIT_STACK_SIZE)
    }

    /// A state with an empty arena for `heap_capacity` records, an empty call
    /// stack for `stack_capacity` frames and an empty frame.
    pub fn with_capacity(heap_capacity: u32, stack_capacity: usize) -> (state: State)
        ensures
            state.wf(),
            state.arena().len() == 0,
            state.frames().len() == 0,
            state.current() == Map::<Seq<char>, Value>::empty(),
            state.heap_capacity() == heap_capacity,
            state.stack_capacity() == stack_capacity,
    {
        State {
            heap: alloc_heap(heap_capacity as usize),
            stack: alloc_stack(stack_capacity),
            frame: Frame::new(),
            heap_capacity: heap_capacity as usize,
            stack_capacity,
        }
    }

    /// Suspends the frame `reg` on the call stack; a full stack is a fault.
    pub fn alloc_on_stack(&mut self, reg: Frame) -> (res: Result<(), Fault>)
        requires
            old(self).wf(),
        ensures
            final(self).wf(),
            final(self).same_limits(old(self)),
            final(self).arena() == old(self).arena(),
            final(self).current() == old(self).current(),
            old(self).memory().frames_left > 0 ==> res is Ok && final(self).frames() == old(
                self,
            ).frames().push(reg@),
            old(self).memory().frames_left == 0 ==> res == Err::<(), Fault>(Fault::StackOverflow)
                && final(self).frames() == old(self).frames(),
    {
        let res = push_within_capacity(
            &mut self.stack,
            reg,
            self.stack_capacity,
            Fault::StackOverflow,
        );
        proof {
            if res is Ok {
                assert(self.frames() == old(self).frames().push(reg@));
            }
        }
        res
    }

    /// Appends the record `obj` to the arena and returns its index, which no
    /// earlier record has; a full arena is a fault.
    pub fn alloc_on_heap(&mut self, obj: HeapCell) -> (res: Result<Ptr, Fault>)
        requires
            old(self).wf(),
        ensures
            final(self).wf(),
            final(self).same_limits(old(self)),
            final(self).frames() == old(self).frames(),
            final(self).current() == old(self).current(),
            match semantics::allocate(old(self).memory(), obj@) {
                Ok((value, heap)) => res is Ok && value == Value::Ptr(res->Ok_0)
                    && final(self).arena() == heap,
                Err(fault) => res is Err && res->Err_0@ == fault && final(self).arena() == old(
                    self,
                ).arena(),
            },
    {
        let ptr = self.heap.len();
        match push_within_capacity(&mut self.heap, obj, self.heap_capacity, Fault::OutOfMemory) {
            Err(fault) => Err(fault),
            Ok(()) => {
                proof {
                    assert(self.arena() == old(self).arena().push(obj@));
                }
                Ok(ptr as Ptr)
            },
        }
    }

    /// The record at `ptr`; a pointer beyond the arena is a fault.
    pub fn retrieve_ptr(&self, ptr: Ptr) -> (res: Result<&HeapCell, Fault>)
        ensures
            ptr < self.arena().len() ==> res is Ok && res->Ok_0@ == self.arena()[ptr as int],
            ptr >= self.arena().len() ==> res == Err::<&HeapCell, Fault>(
                Fault::InvalidPointer(ptr),
            ),
    {
        if (ptr as usize) < self.heap.len() {
            Ok(&self.heap[ptr as usize])
        } else {
            Err(Fault::InvalidPointer(ptr))
        }
    }

    /// The value of an atom in the current frame.
    pub fn retrieve_atom(&self, atom: &Atom) -> (res: Result<Value, Fault>)
        ensures
            outcome(res) == semantics::atom_value(atom@, self.current()),
    {
        match atom {
            Atom::Var(x) => self.frame.get(x.as_str()),
            Atom::Lit(x) => Ok(Value::Num(*x)),
        }
    }

    /// The values of the atoms in the current frame, from left to right.
    pub fn retrieve_atoms(&self, atoms: &Vec<Atom>) -> (res: Result<Vec<Value>, Fault>)
        ensures
            match semantics::atoms_values(atoms_view(atoms@), self.current()) {
                Ok(values) => res is Ok && res->Ok_0@ == values,
                Err(fault) => res is Err && res->Err_0@ == fault,
            },
    {
        let mut values: Vec<Value> = Vec::with_capacity(atoms.len());
        let mut i: usize = 0;
        while i < atoms.len()
            invariant
                i <= atoms.len(),
                semantics::atoms_values(atoms_view(atoms@).take(i as int), self.current()) == Ok::<
                    Seq<Value>,
                    crate::value::FaultView,
                >(values@),
            decreases atoms.len() - i,
        {
            proof {
                let next = atoms_view(atoms@).take(i + 1);
                assert(next.drop_last() == atoms_view(atoms@).take(i as int));
                assert(next.last() == atoms[i as int]@);
            }
            match self.retrieve_atom(&atoms[i]) {
                Err(fault) => {
                    proof {
                        lemma_atoms_values_fault(
                            atoms_view(atoms@),
                            self.current(),
                            i as int + 1,
                        );
                    }
                    return Err(fault);
                },
                Ok(value) => {
                    values.push(value);
                },
            }
            i += 1;
        }
        proof {
            assert(atoms_view(atoms@).take(i as int) == atoms_view(atoms@));
        }
        Ok(values)
    }

    /// Calls the top-level function `func` on `args`, which must be as many as
    /// its parameters: suspends the current frame, evaluates the body in a
    /// fresh frame that binds each parameter to its argument, and restores the
    /// suspended frame.
    pub fn call(&mut self, func: &str, args: &[Value], module: &Module) -> (res: Result<
        Value,
        Fault,
    >)
        requires
            old(self).wf(),
        ensures
            final(self).wf(),
            final(self).same_limits(old(self)),
            match semantics::call(module@, func@, args@, old(self).memory()) {
                Ok((value, heap)) => {
                    &&& res == Ok::<Value, Fault>(value)
                    &&& final(self).arena() == heap
                    &&& final(self).current() == old(self).current()
                    &&& final(self).frames() == old(self).frames()
                    &&& old(self).arena().is_prefix_of(heap)
                },
                Err(fault) => res is Err && res->Err_0@ == fault,
            },
        decreases 2 * old(self).memory().frames_left, 0int, 0int,
    {
        proof {
            lemma_call_extends_arena(module@, func@, args@, self.memory());
        }
        let def = match module.get(func) {
            Some(def) => def,
            None => {
                return Err(Fault::UnknownFunction(func.to_owned()));
            },
        };
        if def.params.len() != args.len() {
            return Err(Fault::ArityMismatch(func.to_owned()));
        }
        let mut frame = Frame::new();
        let mut i: usize = 0;
        while i < args.len()
            invariant
                i <= args.len(),
                def.params.len() == args.len(),
                frame@ == semantics::bind(
                    def@.params.take(i as int),
                    args@.take(i as int),
                ),
            decreases args.len() - i,
        {
            proof {
                assert(def@.params.take(i + 1).drop_last() == def@.params.take(i as int));
                assert(args@.take(i + 1).drop_last() == args@.take(i as int));
            }
            frame.insert(def.params[i].clone(), args[i]);
            i += 1;
        }
        proof {
            assert(def@.params.take(i as int) == def@.params);
            assert(args@.take(i as int) == args@);
        }
        std::mem::swap(&mut frame, &mut self.frame);
        match self.alloc_on_stack(frame) {
            Err(fault) => {
                return Err(fault);
            },
            Ok(()) => {},
        }
        let val = self.eval(&def.body, module);
        let ghost suspended = self.frames();
        match self.stack.pop() {
            Some(frame) => {
                self.frame = frame;
                proof {
                    assert(self.frames() == suspended.drop_last());
                    assert(suspended.len() > 0 ==> self.current() == suspended.last());
                    if val is Ok {
                        assert(self.frames() == old(self).frames());
                    }
                }
            },
            None => {},
        }
        val
    }

    /// Applies the closure at `ptr` to `more_args`. With fewer arguments in
    /// all than the function's arity the result is a new closure that holds
    /// them; with exactly the arity it is the call; with more, the call on the
    /// first of them must yield a closure, to which the rest is applied.
    pub fn apply(&mut self, ptr: Ptr, more_args: &[Value], module: &Module) -> (res: Result<
        Value,
        Fault,
    >)
        requires
            old(self).wf(),
        ensures
            final(self).wf(),
            final(self).same_limits(old(self)),
            match semantics::apply(module@, ptr, more_args@, old(self).memory()) {
                Ok((value, heap)) => {
                    &&& res == Ok::<Value, Fault>(value)
                    &&& final(self).arena() == heap
                    &&& final(self).current() == old(self).current()
                    &&& final(self).frames() == old(self).frames()
                    &&& old(self).arena().is_prefix_of(heap)
                },
                Err(fault) => res is Err && res->Err_0@ == fault,
            },
        decreases 2 * old(self).memory().frames_left, 1int, more_args@.len(),
    {
        proof {
            lemma_apply_extends_arena(module@, ptr, more_args@, self.memory());
        }
        let (func, args, held) = match self.retrieve_ptr(ptr) {
            Err(fault) => {
                return Err(fault);
            },
            Ok(HeapCell::Papp(func, init_args)) => (
                func.clone(),
                concat(init_args, more_args),
                init_args.len(),
            ),
        };
        let def = match module.get(func.as_str()) {
            Some(def) => def,
            None => {
                return Err(Fault::UnknownFunction(func));
            },
        };
        let arity = def.params.len();
        if held >= arity {
            Err(Fault::ArityMismatch(func))
        } else if args.len() < arity {
            match self.alloc_on_heap(HeapCell::Papp(func, args)) {
                Err(fault) => Err(fault),
                Ok(ptr) => Ok(Value::Ptr(ptr)),
            }
        } else if args.len() == arity {
            self.call(func.as_str(), args.as_slice(), module)
        } else {
            let call_args = slice_subrange(args.as_slice(), 0, arity);
            proof {
                assert(call_args@ == args@.take(arity as int));
            }
            let val = match self.call(func.as_str(), call_args, module) {
                Err(fault) => {
                    return Err(fault);
                },
                Ok(val) => val,
            };
            let ptr = match val.expect_ptr() {
                Err(fault) => {
                    return Err(fault);
                },
                Ok(ptr) => ptr,
            };
            let rest = slice_subrange(args.as_slice(), arity, args.len());
            proof {
                assert(rest@ == args@.skip(arity as int));
            }
            self.apply(ptr, rest, module)
        }
    }

    /// Evaluates `expr` in the current frame, which takes the bindings of the
    /// `let`s that the evaluation passes.
    pub fn eval(&mut self, expr: &Expression, module: &Module) -> (res: Result<Value, Fault>)
        requires
            old(self).wf(),
        ensures
            final(self).wf(),
            final(self).same_limits(old(self)),
            match semantics::eval(module@, expr@, old(self).current(), old(self).memory()) {
                Ok((value, frame, heap)) => {
                    &&& res == Ok::<Value, Fault>(value)
                    &&& final(self).arena() == heap
                    &&& final(self).current() == frame
                    &&& final(self).frames() == old(self).frames()
                    &&& old(self).arena().is_prefix_of(heap)
                },
                Err(fault) => res is Err && res->Err_0@ == fault,
            },
        decreases 2 * old(self).memory().frames_left + 1, 0int, 0int, expr,
    {
        proof {
            lemma_eval_extends_arena(module@, expr@, self.current(), self.memory());
        }
        match expr {
            Expression::Unit(atom) => self.retrieve_atom(atom),
            Expression::Let(x, v, b) => {
                let v_val = match self.eval(v, module) {
                    Err(fault) => {
                        return Err(fault);
                    },
                    Ok(v_val) => v_val,
                };
                self.frame.insert(x.clone(), v_val);
                self.eval(b, module)
            },
            Expression::Call(f, args) => {
                let args = match self.retrieve_atoms(args) {
                    Err(fault) => {
                        return Err(fault);
                    },
                    Ok(args) => args,
                };
                self.call(f.as_str(), args.as_slice(), module)
            },
            Expression::Apply(f, args) => {
                let closure = match self.frame.get(f.as_str()) {
                    Err(fault) => {
                        return Err(fault);
                    },
                    Ok(closure) => closure,
                };
                let ptr = match closure.expect_ptr() {
                    Err(fault) => {
                        return Err(fault);
                    },
                    Ok(ptr) => ptr,
                };
                let args = match self.retrieve_atoms(args) {
                    Err(fault) => {
                        return Err(fault);
                    },
                    Ok(args) => args,
                };
                self.apply(ptr, args.as_slice(), module)
            },
            Expression::Papp(f, args) => {
                let args = match self.retrieve_atoms(args) {
                    Err(fault) => {
                        return Err(fault);
                    },
                    Ok(args) => args,
                };
                match self.alloc_on_heap(HeapCell::Papp(f.clone(), args)) {
                    Err(fault) => Err(fault),
                    Ok(ptr) => Ok(Value::Ptr(ptr)),
                }
            },
            Expression::Match(atom, cases, def) => {
                let val = match self.retrieve_atom(atom) {
                    Err(fault) => {
                        return Err(fault);
                    },
                    Ok(val) => val,
                };
                let x = match val.expect_num() {
                    Err(fault) => {
                        return Err(fault);
                    },
                    Ok(x) => x,
                };
                let ghost branches = expr@->Match_1;
                let mut i: usize = 0;
                while i < cases.len() && cases[i].0 != x
                    invariant
                        i <= cases.len(),
                        branches.len() == cases.len(),
                        forall|j: int| 0 <= j < cases.len() ==> (#[trigger] branches[j]).0 == cases[j].0,
                        forall|j: int| 0 <= j < i ==> (#[trigger] branches[j]).0 != x,
                    decreases cases.len() - i,
                {
                    i += 1;
                }
                if i < cases.len() {
                    proof {
                        assert(semantics::is_first_match(branches, x, i as int));
                        assert(branches[i as int].1 == cases[i as int].1@);
                    }
                    self.eval(&cases[i].1, module)
                } else {
                    proof {
                        assert(forall|k: int| !semantics::is_first_match(branches, x, k));
                    }
                    match def {
                        Some(branch) => self.eval(branch, module),
                        None => Err(Fault::MatchFailed(x)),
                    }
                }
            },
            Expression::Operate(op, x, y) => {
                let x_val = match self.retrieve_atom(x) {
                    Err(fault) => {
                        return Err(fault);
                    },
                    Ok(val) => val,
                };
                let x_num = match x_val.expect_num() {
                    Err(fault) => {
                        return Err(fault);
                    },
                    Ok(num) => num,
                };
                let y_val = match self.retrieve_atom(y) {
                    Err(fault) => {
                        return Err(fault);
                    },
                    Ok(val) => val,
                };
                let y_num = match y_val.expect_num() {
                    Err(fault) => {
                        return Err(fault);
                    },
                    Ok(num) => num,
                };
                match op.run(x_num, y_num) {
                    Err(fault) => Err(fault),
                    Ok(num) => Ok(Value::Num(num)),
                }
            },
        }
    }

    /// Runs a program: empties the arena, the call stack and the frame, and
    /// calls the function `main` on no arguments. Where the program has such
    /// a function, the run ends in a value or in a fault that is no defect of
    /// the program, since a module has passed the check.
    pub fn run(&mut self, module: &Module) -> (res: Result<Value, Fault>)
        requires
            old(self).wf(),
        ensures
            final(self).wf(),
            final(self).same_limits(old(self)),
            match semantics::run(module@, old(self).heap_capacity(), old(self).stack_capacity()) {
                Ok((value, heap)) => {
                    &&& res == Ok::<Value, Fault>(value)
                    &&& final(self).arena() == heap
                    &&& final(self).current() == Map::<Seq<char>, Value>::empty()
                    &&& final(self).frames().len() == 0
                    &&& value_ok(value, heap.len())
                },
                Err(fault) => res is Err && res->Err_0@ == fault,
            },
            res is Err && is_defect(res->Err_0@) ==> !module@.contains_key("main"@)
                || module@["main"@].params.len() != 0,
    {
        self.heap.clear();
        self.stack.clear();
        self.frame = Frame::new();
        let args: Vec<Value> = Vec::new();
        proof {
            assert(self.arena() == Seq::<Closure>::empty());
            assert(self.frames() == Seq::<Env>::empty());
            use_type_invariant(module);
            module.lemma_checked_is_valid();
            if module@.contains_key("main"@) && module@["main"@].params.len() == 0 {
                lemma_run_is_safe(module@, self.heap_capacity(), self.stack_capacity());
            }
        }
        self.call("main", args.as_slice(), module)
    }
}

/// A fault among the first `n` atoms is the fault of the whole list.
proof fn lemma_atoms_values_fault(atoms: Seq<crate::expr::AtomView>, frame: Env, n: int)
    requires
        0 <= n <= atoms.len(),
        semantics::atoms_values(atoms.take(n), frame) is Err,
    ensures
        semantics::atoms_values(atoms, frame) == semantics::atoms_values(atoms.take(n), frame),
    decreases atoms.len() - n,
{
    if n < atoms.len() {
        assert(atoms.take(n + 1).drop_last() == atoms.take(n));
        lemma_atoms_values_fault(atoms, frame, n + 1);
    } else {
        assert(atoms.take(n) == atoms);
    }
}

} // verus!
