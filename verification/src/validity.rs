//! What it means for a program to be well formed: every function has at most
//! [`ARGS_MAX_SIZE`] parameters, every application at most that many operands,
//! every variable is bound where it is used and defined once in its function,
//! every call names a function and respects its arity, and the literals of a
//! match are distinct.

use crate::expr::{AtomView, DefinitionView, ExpressionView};
use crate::semantics::Toplevel;
use vstd::prelude::*;

verus! {

/// The most parameters that a function may have, and the most operands of an
/// application, the applied closure counted among them.
pub const ARGS_MAX_SIZE: usize = 8;

/// Why a program is not well formed.
#[derive(Debug, PartialEq, Eq)]
pub enum ModuleError {
    /// This function has more than [`ARGS_MAX_SIZE`] parameters.
    TooManyParameters(String),
    /// An application has more than [`ARGS_MAX_SIZE`] operands.
    TooManyArguments,
    /// This variable is defined a second time in its function.
    Redefined(String),
    /// This variable is used where nothing binds it.
    UnboundVariable(String),
    /// No top-level function has this name.
    UnboundFunction(String),
    /// A call of this function has not as many arguments as it has parameters.
    WrongArgumentCount(String),
    /// A partial application of this function has as many arguments as it has
    /// parameters, or more.
    ExceedsArity(String),
    /// A match has this literal twice.
    RepeatedPattern(usize),
}

/// What a [`ModuleError`] denotes, with names as sequences of characters.
pub enum ModuleErrorView {
    TooManyParameters(Seq<char>),
    TooManyArguments,
    Redefined(Seq<char>),
    UnboundVariable(Seq<char>),
    UnboundFunction(Seq<char>),
    WrongArgumentCount(Seq<char>),
    ExceedsArity(Seq<char>),
    RepeatedPattern(usize),
}

impl View for ModuleError {
    type V = ModuleErrorView;

    open spec fn view(&self) -> ModuleErrorView {
        match self {
            ModuleError::TooManyParameters(f) => ModuleErrorView::TooManyParameters(f@),
            ModuleError::TooManyArguments => ModuleErrorView::TooManyArguments,
            ModuleError::Redefined(x) => ModuleErrorView::Redefined(x@),
            ModuleError::UnboundVariable(x) => ModuleErrorView::UnboundVariable(x@),
            ModuleError::UnboundFunction(f) => ModuleErrorView::UnboundFunction(f@),
            ModuleError::WrongArgumentCount(f) => ModuleErrorView::WrongArgumentCount(f@),
            ModuleError::ExceedsArity(f) => ModuleErrorView::ExceedsArity(f@),
            ModuleError::RepeatedPattern(n) => ModuleErrorView::RepeatedPattern(*n),
        }
    }
}

/// The names that matter at a point of a function's body.
pub struct Names {
    /// The variables that are bound at this point.
    pub scope: Set<Seq<char>>,
    /// The variables that the function has defined up to this point, in scope
    /// here or not.
    pub defined: Set<Seq<char>>,
}

/// The outcome of a check that defines no name.
pub type Checked = Result<(), ModuleErrorView>;

/// A use of the variable `x`.
pub open spec fn is_bound(x: Seq<char>, scope: Set<Seq<char>>) -> Checked {
    if scope.contains(x) {
        Ok(())
    } else {
        Err(ModuleErrorView::UnboundVariable(x))
    }
}

/// A use of an atom.
pub open spec fn atom_bound(atom: AtomView, scope: Set<Seq<char>>) -> Checked {
    match atom {
        AtomView::Var(x) => is_bound(x, scope),
        AtomView::Lit(_) => Ok(()),
    }
}

/// The uses of a list of atoms, from left to right.
pub open spec fn atoms_bound(atoms: Seq<AtomView>, scope: Set<Seq<char>>) -> Checked
    decreases atoms.len(),
{
    if atoms.len() == 0 {
        Ok(())
    } else {
        match atoms_bound(atoms.drop_last(), scope) {
            Err(error) => Err(error),
            Ok(()) => atom_bound(atoms.last(), scope),
        }
    }
}

/// The definition of the variable `x`, which must be new to the function.
pub open spec fn insert_unique(x: Seq<char>, names: Names) -> Result<Names, ModuleErrorView> {
    if names.defined.contains(x) {
        Err(ModuleErrorView::Redefined(x))
    } else {
        Ok(Names { scope: names.scope.insert(x), defined: names.defined.insert(x) })
    }
}

/// The definitions of a function's parameters, from left to right.
pub open spec fn declare_params(params: Seq<Seq<char>>) -> Result<Names, ModuleErrorView>
    decreases params.len(),
{
    if params.len() == 0 {
        Ok(Names { scope: Set::empty(), defined: Set::empty() })
    } else {
        match declare_params(params.drop_last()) {
            Err(error) => Err(error),
            Ok(names) => insert_unique(params.last(), names),
        }
    }
}

/// Whether one of the first `n` cases has the literal `literal`.
pub open spec fn seen_before(cases: Seq<(usize, ExpressionView)>, n: int, literal: usize) -> bool {
    exists|j: int| 0 <= j < n && j < cases.len() && (#[trigger] cases[j]).0 == literal
}

/// The check of an expression. A variable that a `let` defines is in scope
/// from the body of that `let` on, to the end of the branch that holds the
/// `let`, or of the function. The result holds the names as they stand after
/// the expression.
pub open spec fn check_expr(expr: ExpressionView, names: Names, top: Toplevel) -> Result<
    Names,
    ModuleErrorView,
>
    decreases expr, 0int,
{
    match expr {
        ExpressionView::Unit(atom) => match atom_bound(atom, names.scope) {
            Err(error) => Err(error),
            Ok(()) => Ok(names),
        },
        ExpressionView::Let(x, bound, body) => match check_expr(*bound, names, top) {
            Err(error) => Err(error),
            Ok(names) => match insert_unique(x, names) {
                Err(error) => Err(error),
                Ok(names) => check_expr(*body, names, top),
            },
        },
        ExpressionView::Apply(closure, args) => if args.len() >= ARGS_MAX_SIZE {
            Err(ModuleErrorView::TooManyArguments)
        } else {
            match is_bound(closure, names.scope) {
                Err(error) => Err(error),
                Ok(()) => match atoms_bound(args, names.scope) {
                    Err(error) => Err(error),
                    Ok(()) => Ok(names),
                },
            }
        },
        ExpressionView::Call(func, args) => if args.len() > ARGS_MAX_SIZE {
            Err(ModuleErrorView::TooManyArguments)
        } else if !top.contains_key(func) {
            Err(ModuleErrorView::UnboundFunction(func))
        } else if top[func].params.len() != args.len() {
            Err(ModuleErrorView::WrongArgumentCount(func))
        } else {
            match atoms_bound(args, names.scope) {
                Err(error) => Err(error),
                Ok(()) => Ok(names),
            }
        },
        ExpressionView::Papp(func, args) => if args.len() >= ARGS_MAX_SIZE {
            Err(ModuleErrorView::TooManyArguments)
        } else if !top.contains_key(func) {
            Err(ModuleErrorView::UnboundFunction(func))
        } else if top[func].params.len() <= args.len() {
            Err(ModuleErrorView::ExceedsArity(func))
        } else {
            match atoms_bound(args, names.scope) {
                Err(error) => Err(error),
                Ok(()) => Ok(names),
            }
        },
        ExpressionView::Match(atom, cases, default) => match atom_bound(atom, names.scope) {
            Err(error) => Err(error),
            Ok(()) => match check_cases(cases, cases.len() as int, names, top) {
                Err(error) => Err(error),
                Ok(defined) => match default {
                    None => Ok(Names { scope: names.scope, defined }),
                    Some(branch) => match check_expr(
                        *branch,
                        Names { scope: names.scope, defined },
                        top,
                    ) {
                        Err(error) => Err(error),
                        Ok(after) => Ok(Names { scope: names.scope, defined: after.defined }),
                    },
                },
            },
        },
        ExpressionView::Operate(_, x, y) => match atom_bound(x, names.scope) {
            Err(error) => Err(error),
            Ok(()) => match atom_bound(y, names.scope) {
                Err(error) => Err(error),
                Ok(()) => Ok(names),
            },
        },
    }
}

/// The check of the first `n` cases of a match, in order: each literal must
/// differ from those before it, and each branch is checked in the scope of the
/// match, with the variables that the branches before it have defined. The
/// result is the set of the variables defined after these cases.
pub open spec fn check_cases(
    cases: Seq<(usize, ExpressionView)>,
    n: int,
    names: Names,
    top: Toplevel,
) -> Result<Set<Seq<char>>, ModuleErrorView>
    decreases cases, n,
{
    if n <= 0 || n > cases.len() {
        Ok(names.defined)
    } else {
        match check_cases(cases, n - 1, names, top) {
            Err(error) => Err(error),
            Ok(defined) => if seen_before(cases, n - 1, cases[n - 1].0) {
                Err(ModuleErrorView::RepeatedPattern(cases[n - 1].0))
            } else {
                match check_expr(cases[n - 1].1, Names { scope: names.scope, defined }, top) {
                    Err(error) => Err(error),
                    Ok(after) => Ok(after.defined),
                }
            },
        }
    }
}

/// The check of a function: its parameters are few enough and distinct, and
/// its body is well formed in their scope.
pub open spec fn check_def(def: DefinitionView, top: Toplevel) -> Checked {
    if def.params.len() > ARGS_MAX_SIZE {
        Err(ModuleErrorView::TooManyParameters(def.name))
    } else {
        match declare_params(def.params) {
            Err(error) => Err(error),
            Ok(names) => match check_expr(def.body, names, top) {
                Err(error) => Err(error),
                Ok(_) => Ok(()),
            },
        }
    }
}

/// The check of the functions of these names, in order; the first error met
/// is the result.
pub open spec fn check(names: Seq<Seq<char>>, top: Toplevel) -> Checked
    decreases names.len(),
{
    if names.len() == 0 {
        Ok(())
    } else {
        match check(names.drop_last(), top) {
            Err(error) => Err(error),
            Ok(()) => if top.contains_key(names.last()) {
                check_def(top[names.last()], top)
            } else {
                Ok(())
            },
        }
    }
}

/// The functions of a list of definitions by name; of two with one name the
/// later stands.
pub open spec fn collect(defs: Seq<DefinitionView>) -> Toplevel
    decreases defs.len(),
{
    if defs.len() == 0 {
        Map::empty()
    } else {
        collect(defs.drop_last()).insert(defs.last().name, defs.last())
    }
}

/// The names of a list of definitions, in order.
pub open spec fn names_of(defs: Seq<DefinitionView>) -> Seq<Seq<char>> {
    defs.map_values(|def: DefinitionView| def.name)
}

/// The names of a list of definitions, each once, in the order in which
/// they first occur.
pub open spec fn distinct_names(defs: Seq<DefinitionView>) -> Seq<Seq<char>>
    decreases defs.len(),
{
    if defs.len() == 0 {
        Seq::empty()
    } else {
        let before = distinct_names(defs.drop_last());
        if before.contains(defs.last().name) {
            before
        } else {
            before.push(defs.last().name)
        }
    }
}

/// The program that a list of definitions makes, if it is well formed: its
/// functions are checked in the order in which their names first occur.
pub open spec fn check_module(defs: Seq<DefinitionView>) -> Result<Toplevel, ModuleErrorView> {
    match check(distinct_names(defs), collect(defs)) {
        Err(error) => Err(error),
        Ok(()) => Ok(collect(defs)),
    }
}

/// Whether every function of a program stands under its own name and is well
/// formed.
pub open spec fn valid(top: Toplevel) -> bool {
    forall|name: Seq<char>| #[trigger]
        top.contains_key(name) ==> top[name].name == name && check_def(top[name], top) is Ok
}

/// The functions of a list of definitions are those whose names occur in the
/// list, each under its own name.
pub proof fn lemma_collect_keys(defs: Seq<DefinitionView>)
    ensures
        forall|name: Seq<char>| #[trigger]
            collect(defs).contains_key(name) <==> names_of(defs).contains(name),
        forall|name: Seq<char>| #[trigger]
            collect(defs).contains_key(name) ==> collect(defs)[name].name == name,
    decreases defs.len(),
{
    if defs.len() > 0 {
        lemma_collect_keys(defs.drop_last());
        let last = defs.last();
        assert forall|name: Seq<char>| #[trigger]
            collect(defs).contains_key(name) <==> names_of(defs).contains(name) by {
            if names_of(defs).contains(name) {
                let i = choose|i: int| 0 <= i < defs.len() && names_of(defs)[i] == name;
                if i < defs.len() - 1 {
                    assert(names_of(defs.drop_last())[i] == name);
                }
            }
            if names_of(defs.drop_last()).contains(name) {
                let i = choose|i: int|
                    0 <= i < defs.len() - 1 && names_of(defs.drop_last())[i] == name;
                assert(names_of(defs)[i] == name);
            }
            if name == last.name {
                assert(names_of(defs)[defs.len() - 1] == name);
            }
        }
    }
}

/// Where the check of a list of names passes, each of the functions that
/// stand under them is well formed.
pub proof fn lemma_check_each(names: Seq<Seq<char>>, top: Toplevel, i: int)
    requires
        check(names, top) is Ok,
        0 <= i < names.len(),
        top.contains_key(names[i]),
    ensures
        check_def(top[names[i]], top) is Ok,
    decreases names.len(),
{
    if i < names.len() - 1 {
        lemma_check_each(names.drop_last(), top, i);
    }
}

/// The distinct names of a list of definitions are the names that occur in
/// it, and none of them twice.
pub proof fn lemma_distinct_names(defs: Seq<DefinitionView>)
    ensures
        distinct_names(defs).no_duplicates(),
        forall|name: Seq<char>| #[trigger]
            distinct_names(defs).contains(name) <==> names_of(defs).contains(name),
    decreases defs.len(),
{
    if defs.len() > 0 {
        let before = distinct_names(defs.drop_last());
        let last = defs.last().name;
        lemma_distinct_names(defs.drop_last());
        assert forall|name: Seq<char>| #[trigger]
            distinct_names(defs).contains(name) <==> names_of(defs).contains(name) by {
            if names_of(defs).contains(name) {
                let i = choose|i: int| 0 <= i < defs.len() && names_of(defs)[i] == name;
                if i < defs.len() - 1 {
                    assert(names_of(defs.drop_last())[i] == name);
                }
            }
            if names_of(defs.drop_last()).contains(name) {
                let i = choose|i: int|
                    0 <= i < defs.len() - 1 && names_of(defs.drop_last())[i] == name;
                assert(names_of(defs)[i] == name);
            }
            if name == last {
                assert(names_of(defs)[defs.len() - 1] == name);
            }
            if before.contains(name) {
                let i = choose|i: int| 0 <= i < before.len() && before[i] == name;
                if !before.contains(last) {
                    assert(before.push(last)[i] == name);
                }
            }
            if !before.contains(last) {
                assert(before.push(last)[before.len() as int] == last);
                if before.push(last).contains(name) {
                    let i = choose|i: int|
                        0 <= i < before.push(last).len() && before.push(last)[i] == name;
                    if i < before.len() {
                        assert(before[i] == name);
                    }
                }
            }
        }
        if !before.contains(last) {
            assert forall|i: int, j: int|
                0 <= i < before.push(last).len() && 0 <= j < before.push(last).len() && i
                    != j implies before.push(last)[i] != before.push(last)[j] by {
                if i < before.len() && j < before.len() {
                } else if i < before.len() {
                    assert(before[i] != last);
                } else {
                    assert(before[j] != last);
                }
            }
        }
    }
}

/// A program that passes the check is valid.
pub proof fn lemma_checked_module_is_valid(defs: Seq<DefinitionView>)
    ensures
        check_module(defs) matches Ok(top) ==> valid(top),
{
    if let Ok(top) = check_module(defs) {
        lemma_collect_keys(defs);
        lemma_distinct_names(defs);
        assert forall|name: Seq<char>| #[trigger] top.contains_key(name) implies top[name].name
            == name && check_def(top[name], top) is Ok by {
            assert(distinct_names(defs).contains(name));
            let i = choose|i: int|
                0 <= i < distinct_names(defs).len() && distinct_names(defs)[i] == name;
            lemma_check_each(distinct_names(defs), top, i);
        }
    }
}

} // verus!
