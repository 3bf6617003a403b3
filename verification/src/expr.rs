//! The abstract syntax tree, and its mathematical view.

use vstd::prelude::*;

verus! {

/// The primitive binary operators of the language.
#[derive(Clone, Copy, Debug, PartialEq, Eq, Structural)]
pub enum Operation {
    // Arithmetic
    Add,
    Sub,
    Mul,
    Div,
    Mod,
    // Comparison
    Eq,
    Lt,
    Le,
    Gt,
    Ge,
    // Bitwise
    And,
    Or,
    Xor,
    Sr,
    Sl,
}

/// An operand that needs no evaluation: a variable or a literal.
#[derive(Clone, Debug, PartialEq, Eq)]
pub enum Atom {
    Var(String),
    Lit(usize),
}

/// What an [`Atom`] denotes, with the variable's name as a sequence of characters.
pub enum AtomView {
    Var(Seq<char>),
    Lit(usize),
}

impl View for Atom {
    type V = AtomView;

    open spec fn view(&self) -> AtomView {
        match self {
            Atom::Var(x) => AtomView::Var(x@),
            Atom::Lit(n) => AtomView::Lit(*n),
        }
    }
}

/// An expression of the language.
#[derive(Debug, PartialEq, Eq)]
pub enum Expression {
    Unit(Atom),
    Let(String, Box<Expression>, Box<Expression>),
    /// Application of a closure held in a variable.
    Apply(String, Vec<Atom>),
    /// Call of a top-level function with all of its arguments.
    Call(String, Vec<Atom>),
    /// Partial application of a top-level function: builds a closure.
    Papp(String, Vec<Atom>),
    /// Dispatch on a number, by literal equality, with an optional default.
    Match(Atom, Vec<(usize, Expression)>, Option<Box<Expression>>),
    /// A primitive operation on two numbers.
    Operate(Operation, Atom, Atom),
}

/// What an [`Expression`] denotes: the same tree over sequences.
pub enum ExpressionView {
    Unit(AtomView),
    Let(Seq<char>, Box<ExpressionView>, Box<ExpressionView>),
    Apply(Seq<char>, Seq<AtomView>),
    Call(Seq<char>, Seq<AtomView>),
    Papp(Seq<char>, Seq<AtomView>),
    Match(AtomView, Seq<(usize, ExpressionView)>, Option<Box<ExpressionView>>),
    Operate(Operation, AtomView, AtomView),
}

/// The views of a vector of atoms, in order.
pub open spec fn atoms_view(atoms: Seq<Atom>) -> Seq<AtomView> {
    atoms.map_values(|a: Atom| a@)
}

impl Expression {
    /// The tree that this expression denotes.
    pub open spec fn tree(self) -> ExpressionView
        decreases self,
    {
        match self {
            Expression::Unit(a) => ExpressionView::Unit(a@),
            Expression::Let(x, v, b) => ExpressionView::Let(
                x@,
                Box::new((*v).tree()),
                Box::new((*b).tree()),
            ),
            Expression::Apply(f, args) => ExpressionView::Apply(f@, atoms_view(args@)),
            Expression::Call(f, args) => ExpressionView::Call(f@, atoms_view(args@)),
            Expression::Papp(f, args) => ExpressionView::Papp(f@, atoms_view(args@)),
            Expression::Match(a, cases, default) => ExpressionView::Match(
                a@,
                Seq::new(
                    cases.len() as nat,
                    |i: int|
                        if 0 <= i < cases.len() {
                            (cases[i].0, cases[i].1.tree())
                        } else {
                            arbitrary()
                        },
                ),
                match default {
                    Some(e) => Some(Box::new((*e).tree())),
                    None => None,
                },
            ),
            Expression::Operate(op, x, y) => ExpressionView::Operate(op, x@, y@),
        }
    }
}

impl View for Expression {
    type V = ExpressionView;

    open spec fn view(&self) -> ExpressionView {
        self.tree()
    }
}

/// A top-level function: its name, its parameters and its body.
#[derive(Debug, PartialEq, Eq)]
pub struct Definition {
    pub name: String,
    pub params: Vec<String>,
    pub body: Expression,
}

/// What a [`Definition`] denotes.
pub struct DefinitionView {
    pub name: Seq<char>,
    pub params: Seq<Seq<char>>,
    pub body: ExpressionView,
}

/// The views of a vector of names, in order.
pub open spec fn names_view(names: Seq<String>) -> Seq<Seq<char>> {
    names.map_values(|s: String| s@)
}

impl View for Definition {
    type V = DefinitionView;

    open spec fn view(&self) -> DefinitionView {
        DefinitionView { name: self.name@, params: names_view(self.params@), body: self.body@ }
    }
}

} // verus!
