//! Run-time values, closure records and the closed set of faults.

use crate::expr::Operation;
use vstd::prelude::*;

verus! {

/// The index of a closure record in the arena.
pub type Ptr = u32;

/// A run-time value: a machine word, or the arena index of a closure record.
#[derive(Clone, Copy, Debug, PartialEq, Eq, Structural)]
pub enum Value {
    Num(usize),
    Ptr(Ptr),
}

/// Why a run ended without a value. The first two are resource exhaustion;
/// the others are semantic faults, which a checked program meets only in
/// arithmetic and in a match without a default.
#[derive(Debug, PartialEq, Eq)]
pub enum Fault {
    /// The call stack is at its capacity and another frame was needed.
    StackOverflow,
    /// The closure arena is at its capacity and another record was needed.
    OutOfMemory,
    /// A variable was read that the current frame does not bind.
    UnboundVariable(String),
    /// A number was needed and this value is none.
    ExpectedNumber(Value),
    /// A closure was needed and this value is none.
    ExpectedClosure(Value),
    /// A pointer that addresses no record of the arena.
    InvalidPointer(Ptr),
    /// No case equals this number and the match has no default.
    MatchFailed(usize),
    /// Division or remainder by zero.
    DivisionByZero,
    /// No top-level function has this name.
    UnknownFunction(String),
    /// This function was given a number of arguments that is not its arity,
    /// or a closure record on it already holds that many or more.
    ArityMismatch(String),
}

/// What a [`Fault`] denotes, with names as sequences of characters.
pub enum FaultView {
    StackOverflow,
    OutOfMemory,
    UnboundVariable(Seq<char>),
    ExpectedNumber(Value),
    ExpectedClosure(Value),
    InvalidPointer(Ptr),
    MatchFailed(usize),
    DivisionByZero,
    UnknownFunction(Seq<char>),
    ArityMismatch(Seq<char>),
}

impl View for Fault {
    type V = FaultView;

    open spec fn view(&self) -> FaultView {
        match self {
            Fault::StackOverflow => FaultView::StackOverflow,
            Fault::OutOfMemory => FaultView::OutOfMemory,
            Fault::UnboundVariable(x) => FaultView::UnboundVariable(x@),
            Fault::ExpectedNumber(v) => FaultView::ExpectedNumber(*v),
            Fault::ExpectedClosure(v) => FaultView::ExpectedClosure(*v),
            Fault::InvalidPointer(p) => FaultView::InvalidPointer(*p),
            Fault::MatchFailed(n) => FaultView::MatchFailed(*n),
            Fault::DivisionByZero => FaultView::DivisionByZero,
            Fault::UnknownFunction(f) => FaultView::UnknownFunction(f@),
            Fault::ArityMismatch(f) => FaultView::ArityMismatch(f@),
        }
    }
}

impl Fault {
    /// Whether the fault is the exhaustion of a resource and not a semantic fault.
    pub fn is_resource_exhaustion(&self) -> (b: bool)
        ensures
            b == (self@ is StackOverflow || self@ is OutOfMemory),
    {
        match self {
            Fault::StackOverflow => true,
            Fault::OutOfMemory => true,
            _ => false,
        }
    }
}

impl Value {
    /// The number that this value is; a closure pointer is a fault.
    pub fn expect_num(self) -> (res: Result<usize, Fault>)
        ensures
            outcome(res) == expect_num(self),
    {
        match self {
            Value::Num(x) => Ok(x),
            _ => Err(Fault::ExpectedNumber(self)),
        }
    }

    /// The arena index that this value is; a number is a fault.
    pub fn expect_ptr(self) -> (res: Result<Ptr, Fault>)
        ensures
            outcome(res) == expect_ptr(self),
    {
        match self {
            Value::Ptr(x) => Ok(x),
            _ => Err(Fault::ExpectedClosure(self)),
        }
    }
}

/// A result with its fault, if it is one, taken by its view.
pub open spec fn outcome<T>(res: Result<T, Fault>) -> Result<T, FaultView> {
    match res {
        Ok(t) => Ok(t),
        Err(e) => Err(e@),
    }
}

/// The number that a value is, or the fault of a wrong tag.
pub open spec fn expect_num(v: Value) -> Result<usize, FaultView> {
    match v {
        Value::Num(x) => Ok(x),
        Value::Ptr(_) => Err(FaultView::ExpectedNumber(v)),
    }
}

/// The arena index that a value is, or the fault of a wrong tag.
pub open spec fn expect_ptr(v: Value) -> Result<Ptr, FaultView> {
    match v {
        Value::Ptr(x) => Ok(x),
        Value::Num(_) => Err(FaultView::ExpectedClosure(v)),
    }
}

/// A record of the closure arena.
#[derive(Debug, PartialEq, Eq)]
pub enum HeapCell {
    /// A function's name with the arguments supplied so far, in order.
    Papp(String, Vec<Value>),
}

/// What a closure record denotes.
pub struct Closure {
    pub name: Seq<char>,
    pub args: Seq<Value>,
}

impl View for HeapCell {
    type V = Closure;

    open spec fn view(&self) -> Closure {
        match self {
            HeapCell::Papp(name, args) => Closure { name: name@, args: args@ },
        }
    }
}

/// Two to the power of the word size.
pub open spec fn word_modulus() -> int {
    usize::MAX as int + 1
}

/// The word width as a word.
pub open spec fn word_bits() -> usize {
    usize::BITS as usize
}

/// What a primitive operation yields on two words; division and remainder
/// by zero are a fault. Addition, subtraction and multiplication wrap around at
/// the word size: the result is the true one modulo [`word_modulus`]. A shift
/// amount is taken modulo the word width. A comparison yields one where it
/// holds and zero where it does not.
pub open spec fn operate(op: Operation, x: usize, y: usize) -> Result<usize, FaultView> {
    match op {
        Operation::Add => Ok(
            if x + y > usize::MAX {
                (x + y - word_modulus()) as usize
            } else {
                (x + y) as usize
            },
        ),
        Operation::Sub => Ok(
            if x < y {
                (x - y + word_modulus()) as usize
            } else {
                (x - y) as usize
            },
        ),
        Operation::Mul => Ok(
            if x * y > usize::MAX {
                ((x * y) % word_modulus()) as usize
            } else {
                (x * y) as usize
            },
        ),
        Operation::Div => if y == 0 {
            Err(FaultView::DivisionByZero)
        } else {
            Ok(x / y)
        },
        Operation::Mod => if y == 0 {
            Err(FaultView::DivisionByZero)
        } else {
            Ok(x % y)
        },
        Operation::Eq => Ok(if x == y { 1usize } else { 0usize }),
        Operation::Lt => Ok(if x < y { 1usize } else { 0usize }),
        Operation::Le => Ok(if x <= y { 1usize } else { 0usize }),
        Operation::Gt => Ok(if x > y { 1usize } else { 0usize }),
        Operation::Ge => Ok(if x >= y { 1usize } else { 0usize }),
        Operation::And => Ok(x & y),
        Operation::Or => Ok(x | y),
        Operation::Xor => Ok(x ^ y),
        Operation::Sr => Ok(x >> (y % word_bits())),
        Operation::Sl => Ok(x << (y % word_bits())),
    }
}

/// Within one modulus of the range, the remainder is one addition or
/// subtraction away.
proof fn lemma_wrap_once(v: int, m: int)
    requires
        0 < m,
        -m <= v < 2 * m,
    ensures
        v % m == if v < 0 {
            v + m
        } else if v < m {
            v
        } else {
            v - m
        },
{
    if v < 0 {
        vstd::arithmetic::div_mod::lemma_mod_add_multiples_vanish(v, m);
        vstd::arithmetic::div_mod::lemma_small_mod((v + m) as nat, m as nat);
    } else if v < m {
        vstd::arithmetic::div_mod::lemma_small_mod(v as nat, m as nat);
    } else {
        vstd::arithmetic::div_mod::lemma_mod_sub_multiples_vanish(v, m);
        vstd::arithmetic::div_mod::lemma_small_mod((v - m) as nat, m as nat);
    }
}

/// Addition, subtraction and multiplication yield the true result modulo
/// two to the power of the word size.
pub proof fn lemma_arithmetic_is_modular(x: usize, y: usize)
    ensures
        operate(Operation::Add, x, y) == Ok::<usize, FaultView>(
            ((x + y) % word_modulus()) as usize,
        ),
        operate(Operation::Sub, x, y) == Ok::<usize, FaultView>(
            ((x - y) % word_modulus()) as usize,
        ),
        operate(Operation::Mul, x, y) == Ok::<usize, FaultView>(
            ((x * y) % word_modulus()) as usize,
        ),
{
    lemma_wrap_once(x + y, word_modulus());
    lemma_wrap_once(x - y, word_modulus());
    assert(0 <= x * y) by (nonlinear_arith);
    if x * y <= usize::MAX {
        vstd::arithmetic::div_mod::lemma_small_mod((x * y) as nat, word_modulus() as nat);
    }
}

impl Operation {
    /// Applies the operation to two words.
    pub fn run(&self, x: usize, y: usize) -> (res: Result<usize, Fault>)
        ensures
            outcome(res) == operate(*self, x, y),
    {
        match self {
            Operation::Add => Ok(x.wrapping_add(y)),
            Operation::Sub => Ok(x.wrapping_sub(y)),
            Operation::Mul => {
                proof {
                    assert(x as nat * y as nat == x * y) by (nonlinear_arith);
                    assert(0 <= x * y) by (nonlinear_arith);
                    if x * y <= usize::MAX {
                        vstd::arithmetic::div_mod::lemma_small_mod(
                            (x * y) as nat,
                            word_modulus() as nat,
                        );
                    }
                }
                Ok(x.wrapping_mul(y))
            },
            Operation::Div => if y == 0 {
                Err(Fault::DivisionByZero)
            } else {
                Ok(x / y)
            },
            Operation::Mod => if y == 0 {
                Err(Fault::DivisionByZero)
            } else {
                Ok(x % y)
            },
            Operation::Eq => Ok(if x == y { 1 } else { 0 }),
            Operation::Lt => Ok(if x < y { 1 } else { 0 }),
            Operation::Le => Ok(if x <= y { 1 } else { 0 }),
            Operation::Gt => Ok(if x > y { 1 } else { 0 }),
            Operation::Ge => Ok(if x >= y { 1 } else { 0 }),
            Operation::And => Ok(x & y),
            Operation::Or => Ok(x | y),
            Operation::Xor => Ok(x ^ y),
            Operation::Sr => {
                let s: usize = y % (usize::BITS as usize);
                Ok(x >> s)
            },
            Operation::Sl => {
                let s: usize = y % (usize::BITS as usize);
                Ok(x << s)
            },
        }
    }
}

} // verus!
