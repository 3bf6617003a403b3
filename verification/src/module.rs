//! A program: its top-level functions by name, checked to be well formed when
//! the module is made.

use crate::expr::{atoms_view, names_view, Atom, Definition, Expression};
use crate::semantics::Toplevel;
use crate::validity;
use crate::validity::{ModuleError, ModuleErrorView, Names, ARGS_MAX_SIZE};
use std::collections::HashSet;
use vstd::hash_map::StringHashMap;
use vstd::hash_set::StringHashSet;
use vstd::prelude::*;

verus! {

/// The functions of a table of definitions, each by its view.
pub open spec fn toplevel_view(top: Map<Seq<char>, Definition>) -> Toplevel {
    top.map_values(|def: Definition| def@)
}

/// Whether every definition of a table stands under its own name.
pub open spec fn keyed_by_name(top: Map<Seq<char>, Definition>) -> bool {
    forall|name: Seq<char>| #[trigger] top.contains_key(name) ==> top[name].name@ == name
}

/// The variables of the function that is being checked: those in scope, the
/// innermost last, and all that it has defined so far.
pub struct Vars {
    scope: Vec<String>,
    defined: StringHashSet,
}

impl Vars {
    /// The variables in scope, the innermost last.
    pub closed spec fn stack(&self) -> Seq<Seq<char>> {
        names_view(self.scope@)
    }

    /// The variables that the function has defined so far.
    pub closed spec fn defined(&self) -> Set<Seq<char>> {
        self.defined@
    }

    /// No variables.
    pub fn new() -> (vars: Vars)
        ensures
            vars.stack() == Seq::<Seq<char>>::empty(),
            vars.defined() == Set::<Seq<char>>::empty(),
    {
        Vars { scope: Vec::new(), defined: StringHashSet::new() }
    }

    /// The number of variables in scope.
    pub fn depth(&self) -> (depth: usize)
        ensures
            depth == self.stack().len(),
    {
        self.scope.len()
    }

    /// Takes out of scope all variables but the outermost `depth`.
    pub fn leave(&mut self, depth: usize)
        requires
            depth <= old(self).stack().len(),
        ensures
            final(self).stack() == old(self).stack().take(depth as int),
            final(self).defined() == old(self).defined(),
    {
        self.scope.truncate(depth);
        proof {
            assert(self.stack() == old(self).stack().take(depth as int));
        }
    }
}

impl View for Vars {
    type V = Names;

    open spec fn view(&self) -> Names {
        Names { scope: self.stack().to_set(), defined: self.defined() }
    }
}

/// A use of the variable `x`: it must be in scope.
pub fn is_bound(x: &String, vars: &Vars) -> (res: Result<(), ModuleError>)
    ensures
        verdict(res) == validity::is_bound(x@, vars@.scope),
{
    let mut i: usize = 0;
    while i < vars.scope.len()
        invariant
            i <= vars.scope.len(),
            forall|j: int| 0 <= j < i ==> vars.stack()[j] != x@,
        decreases vars.scope.len() - i,
    {
        if vars.scope[i] == *x {
            proof {
                assert(vars.stack()[i as int] == x@);
            }
            return Ok(());
        }
        i += 1;
    }
    Err(ModuleError::UnboundVariable(x.clone()))
}

/// A result with its error, if it is one, taken by its view.
pub open spec fn verdict<T>(res: Result<T, ModuleError>) -> Result<T, ModuleErrorView> {
    match res {
        Ok(t) => Ok(t),
        Err(e) => Err(e@),
    }
}

/// The definition of the variable `x`, which comes into scope: the function
/// must not have defined it before.
pub fn insert_unique(x: &String, vars: &mut Vars) -> (res: Result<(), ModuleError>)
    ensures
        match validity::insert_unique(x@, old(vars)@) {
            Ok(names) => res is Ok && final(vars)@ == names && final(vars).stack() == old(
                vars,
            ).stack().push(x@),
            Err(error) => res is Err && res->Err_0@ == error,
        },
{
    if vars.defined.insert(x.clone()) {
        vars.scope.push(x.clone());
        proof {
            assert(vars.stack() == old(vars).stack().push(x@));
            lemma_push_to_set(old(vars).stack(), x@);
        }
        Ok(())
    } else {
        Err(ModuleError::Redefined(x.clone()))
    }
}

/// The elements of a sequence with one more pushed are its elements and that one.
proof fn lemma_push_to_set(s: Seq<Seq<char>>, x: Seq<char>)
    ensures
        s.push(x).to_set() == s.to_set().insert(x),
{
    assert forall|a: Seq<char>| s.push(x).to_set().contains(a) <==> s.to_set().insert(
        x,
    ).contains(a) by {
        if s.push(x).contains(a) {
            let i = choose|i: int| 0 <= i < s.push(x).len() && s.push(x)[i] == a;
            if i < s.len() {
                assert(s[i] == a);
            }
        }
        if s.contains(a) {
            let i = choose|i: int| 0 <= i < s.len() && s[i] == a;
            assert(s.push(x)[i] == a);
        }
        if a == x {
            assert(s.push(x)[s.len() as int] == a);
        }
    }
    assert(s.push(x).to_set() =~= s.to_set().insert(x));
}

/// The uses of the atoms, from left to right.
fn atoms_bound(atoms: &Vec<Atom>, vars: &Vars) -> (res: Result<(), ModuleError>)
    ensures
        verdict(res) == validity::atoms_bound(atoms_view(atoms@), vars@.scope),
{
    let mut i: usize = 0;
    while i < atoms.len()
        invariant
            i <= atoms.len(),
            validity::atoms_bound(atoms_view(atoms@).take(i as int), vars@.scope) == Ok::<
                (),
                ModuleErrorView,
            >(()),
        decreases atoms.len() - i,
    {
        proof {
            let next = atoms_view(atoms@).take(i + 1);
            assert(next.drop_last() == atoms_view(atoms@).take(i as int));
            assert(next.last() == atoms[i as int]@);
        }
        if let Atom::Var(var) = &atoms[i] {
            match is_bound(var, vars) {
                Err(error) => {
                    proof {
                        lemma_atoms_bound_error(atoms_view(atoms@), vars@.scope, i as int + 1);
                    }
                    return Err(error);
                },
                Ok(()) => {},
            }
        }
        i += 1;
    }
    proof {
        assert(atoms_view(atoms@).take(i as int) == atoms_view(atoms@));
    }
    Ok(())
}

/// An error among the first `n` atoms is the error of the whole list.
proof fn lemma_atoms_bound_error(atoms: Seq<crate::expr::AtomView>, scope: Set<Seq<char>>, n: int)
    requires
        0 <= n <= atoms.len(),
        validity::atoms_bound(atoms.take(n), scope) is Err,
    ensures
        validity::atoms_bound(atoms, scope) == validity::atoms_bound(atoms.take(n), scope),
    decreases atoms.len() - n,
{
    if n < atoms.len() {
        assert(atoms.take(n + 1).drop_last() == atoms.take(n));
        lemma_atoms_bound_error(atoms, scope, n + 1);
    } else {
        assert(atoms.take(n) == atoms);
    }
}

/// A use of an atom.
fn atom_bound(atom: &Atom, vars: &Vars) -> (res: Result<(), ModuleError>)
    ensures
        verdict(res) == validity::atom_bound(atom@, vars@.scope),
{
    match atom {
        Atom::Var(var) => is_bound(var, vars),
        Atom::Lit(_) => Ok(()),
    }
}

/// An error among the first `n` cases is the error of the first `m`, for any
/// `m` from `n` on.
proof fn lemma_check_cases_error(
    cases: Seq<(usize, crate::expr::ExpressionView)>,
    n: int,
    m: int,
    names: Names,
    top: Toplevel,
)
    requires
        0 <= n <= m <= cases.len(),
        validity::check_cases(cases, n, names, top) is Err,
    ensures
        validity::check_cases(cases, m, names, top) == validity::check_cases(cases, n, names, top),
    decreases m - n,
{
    if n < m {
        lemma_check_cases_error(cases, n, m - 1, names, top);
    }
}

/// Checks an expression against the variables `vars` and the functions `top`,
/// and brings into scope, and among the defined, the variables that the
/// expression defines for what follows it.
#[verifier::loop_isolation(false)]
pub fn check_expr(expr: &Expression, vars: &mut Vars, top: &StringHashMap<Definition>) -> (res:
    Result<(), ModuleError>)
    ensures
        match validity::check_expr(expr@, old(vars)@, toplevel_view(top@)) {
            Ok(names) => {
                &&& res is Ok
                &&& final(vars)@ == names
                &&& old(vars).stack().is_prefix_of(final(vars).stack())
            },
            Err(error) => res is Err && res->Err_0@ == error,
        },
    decreases expr,
{
    match expr {
        Expression::Unit(atom) => atom_bound(atom, vars),
        Expression::Let(name, val, body) => {
            match check_expr(val, vars, top) {
                Err(error) => {
                    return Err(error);
                },
                Ok(()) => {},
            }
            match insert_unique(name, vars) {
                Err(error) => {
                    return Err(error);
                },
                Ok(()) => {},
            }
            check_expr(body, vars, top)
        },
        Expression::Apply(closure, args) => {
            if args.len() >= ARGS_MAX_SIZE {
                return Err(ModuleError::TooManyArguments);
            }
            match is_bound(closure, vars) {
                Err(error) => {
                    return Err(error);
                },
                Ok(()) => {},
            }
            atoms_bound(args, vars)
        },
        Expression::Call(func, args) => {
            if args.len() > ARGS_MAX_SIZE {
                return Err(ModuleError::TooManyArguments);
            }
            let def = match top.get(func.as_str()) {
                None => {
                    return Err(ModuleError::UnboundFunction(func.clone()));
                },
                Some(def) => def,
            };
            if def.params.len() != args.len() {
                return Err(ModuleError::WrongArgumentCount(func.clone()));
            }
            atoms_bound(args, vars)
        },
        Expression::Papp(func, args) => {
            if args.len() >= ARGS_MAX_SIZE {
                return Err(ModuleError::TooManyArguments);
            }
            let def = match top.get(func.as_str()) {
                None => {
                    return Err(ModuleError::UnboundFunction(func.clone()));
                },
                Some(def) => def,
            };
            if def.params.len() <= args.len() {
                return Err(ModuleError::ExceedsArity(func.clone()));
            }
            atoms_bound(args, vars)
        },
        Expression::Match(atom, matches, default) => {
            match atom_bound(atom, vars) {
                Err(error) => {
                    return Err(error);
                },
                Ok(()) => {},
            }
            let ghost cases = expr@->Match_1;
            let ghost entry = vars@;
            let ghost entry_stack = vars.stack();
            let depth = vars.depth();
            let mut unique_pat: HashSet<usize> = HashSet::new();
            let mut i: usize = 0;
            while i < matches.len()
                invariant
                    i <= matches.len(),
                    cases.len() == matches.len(),
                    forall|j: int|
                        0 <= j < matches.len() ==> (#[trigger] cases[j]).0 == matches[j].0
                            && cases[j].1 == matches[j].1@,
                    vars.stack() == entry_stack,
                    depth == entry_stack.len(),
                    entry.scope == entry_stack.to_set(),
                    validity::check_cases(cases, i as int, entry, toplevel_view(top@)) == Ok::<
                        Set<Seq<char>>,
                        ModuleErrorView,
                    >(vars.defined()),
                    forall|p: usize| unique_pat@.contains(p) <==> validity::seen_before(cases, i as int, p),
                decreases matches.len() - i,
            {
                let pat = matches[i].0;
                if !unique_pat.insert(pat) {
                    proof {
                        assert(validity::check_cases(cases, i + 1, entry, toplevel_view(top@))
                            is Err);
                        lemma_check_cases_error(
                            cases,
                            i + 1,
                            cases.len() as int,
                            entry,
                            toplevel_view(top@),
                        );
                    }
                    return Err(ModuleError::RepeatedPattern(pat));
                }
                match check_expr(&matches[i].1, vars, top) {
                    Err(error) => {
                        proof {
                            assert(validity::check_cases(cases, i + 1, entry, toplevel_view(top@))
                                is Err);
                            lemma_check_cases_error(
                                cases,
                                i + 1,
                                cases.len() as int,
                                entry,
                                toplevel_view(top@),
                            );
                        }
                        return Err(error);
                    },
                    Ok(()) => {},
                }
                vars.leave(depth);
                proof {
                    assert(vars.stack() == entry_stack);
                    assert forall|p: usize| unique_pat@.contains(p) <==> validity::seen_before(
                        cases,
                        i as int + 1,
                        p,
                    ) by {
                        if validity::seen_before(cases, i as int + 1, p) {
                            let j = choose|j: int|
                                0 <= j < i + 1 && j < cases.len() && (#[trigger] cases[j]).0 == p;
                            if j < i {
                                assert(validity::seen_before(cases, i as int, p));
                            }
                        }
                        if validity::seen_before(cases, i as int, p) {
                            let j = choose|j: int|
                                0 <= j < i && j < cases.len() && (#[trigger] cases[j]).0 == p;
                            assert(cases[j].0 == p);
                        }
                        if p == pat {
                            assert(cases[i as int].0 == p);
                        }
                    }
                }
                i += 1;
            }
            match default {
                None => Ok(()),
                Some(exp) => {
                    match check_expr(exp, vars, top) {
                        Err(error) => {
                            return Err(error);
                        },
                        Ok(()) => {},
                    }
                    vars.leave(depth);
                    proof {
                        assert(vars.stack() == entry_stack);
                    }
                    Ok(())
                },
            }
        },
        Expression::Operate(_, x, y) => {
            match atom_bound(x, vars) {
                Err(error) => {
                    return Err(error);
                },
                Ok(()) => {},
            }
            atom_bound(y, vars)
        },
    }
}

/// Checks the function `def`, which stands under `name`, against the
/// functions `top`.
pub fn check_def(name: &str, def: &Definition, top: &StringHashMap<Definition>) -> (res: Result<
    (),
    ModuleError,
>)
    requires
        name@ == def.name@,
    ensures
        verdict(res) == validity::check_def(def@, toplevel_view(top@)),
{
    if def.params.len() > ARGS_MAX_SIZE {
        return Err(ModuleError::TooManyParameters(name.to_owned()));
    }
    let mut vars = Vars::new();
    let mut i: usize = 0;
    proof {
        assert(vars@.scope =~= Set::<Seq<char>>::empty());
    }
    while i < def.params.len()
        invariant
            i <= def.params.len() <= ARGS_MAX_SIZE,
            validity::declare_params(def@.params.take(i as int)) == Ok::<Names, ModuleErrorView>(
                vars@,
            ),
        decreases def.params.len() - i,
    {
        proof {
            let next = def@.params.take(i + 1);
            assert(next.drop_last() == def@.params.take(i as int));
            assert(next.last() == def.params[i as int]@);
        }
        match insert_unique(&def.params[i], &mut vars) {
            Err(error) => {
                proof {
                    assert(validity::declare_params(def@.params.take(i + 1)) is Err);
                    lemma_declare_params_error(def@.params, i as int + 1);
                }
                return Err(error);
            },
            Ok(()) => {},
        }
        i += 1;
    }
    proof {
        assert(def@.params.take(i as int) == def@.params);
    }
    check_expr(&def.body, &mut vars, top)
}

/// An error among the first `n` parameters is the error of the whole list.
proof fn lemma_declare_params_error(params: Seq<Seq<char>>, n: int)
    requires
        0 <= n <= params.len(),
        validity::declare_params(params.take(n)) is Err,
    ensures
        validity::declare_params(params) == validity::declare_params(params.take(n)),
    decreases params.len() - n,
{
    if n < params.len() {
        assert(params.take(n + 1).drop_last() == params.take(n));
        lemma_declare_params_error(params, n + 1);
    } else {
        assert(params.take(n) == params);
    }
}

/// Checks the functions of the table `top` that stand under `names`, in the
/// order of `names`.
pub fn check(names: &Vec<String>, top: &StringHashMap<Definition>) -> (res: Result<(), ModuleError>)
    requires
        keyed_by_name(top@),
    ensures
        verdict(res) == validity::check(names_view(names@), toplevel_view(top@)),
{
    let mut i: usize = 0;
    while i < names.len()
        invariant
            i <= names.len(),
            keyed_by_name(top@),
            validity::check(names_view(names@).take(i as int), toplevel_view(top@)) == Ok::<
                (),
                ModuleErrorView,
            >(()),
        decreases names.len() - i,
    {
        proof {
            let next = names_view(names@).take(i + 1);
            assert(next.drop_last() == names_view(names@).take(i as int));
            assert(next.last() == names[i as int]@);
        }
        match top.get(names[i].as_str()) {
            None => {},
            Some(def) => match check_def(names[i].as_str(), def, top) {
                Err(error) => {
                    proof {
                        lemma_check_error(names_view(names@), toplevel_view(top@), i as int + 1);
                    }
                    return Err(error);
                },
                Ok(()) => {},
            },
        }
        i += 1;
    }
    proof {
        assert(names_view(names@).take(i as int) == names_view(names@));
    }
    Ok(())
}

/// An error among the first `n` names is the error of the whole list.
proof fn lemma_check_error(names: Seq<Seq<char>>, top: Toplevel, n: int)
    requires
        0 <= n <= names.len(),
        validity::check(names.take(n), top) is Err,
    ensures
        validity::check(names, top) == validity::check(names.take(n), top),
    decreases names.len() - n,
{
    if n < names.len() {
        assert(names.take(n + 1).drop_last() == names.take(n));
        lemma_check_error(names, top, n + 1);
    } else {
        assert(names.take(n) == names);
    }
}

/// The top-level functions of a program, by name. A module is made by
/// [`Module::new`] alone, so every module is a valid program.
pub struct Module {
    toplevel: StringHashMap<Definition>,
    names: Vec<String>,
}

impl View for Module {
    type V = Toplevel;

    closed spec fn view(&self) -> Toplevel {
        toplevel_view(self.toplevel@)
    }
}

/// The views of a list of definitions, in order.
pub open spec fn defs_view(defs: Seq<Definition>) -> Seq<crate::expr::DefinitionView> {
    defs.map_values(|def: Definition| def@)
}

impl Module {
    /// The names of the functions, in the order in which the definitions
    /// first had them.
    pub closed spec fn listed(&self) -> Seq<Seq<char>> {
        names_view(self.names@)
    }

    /// What holds of every module: it has passed the check, and lists the
    /// names of its functions, each once.
    #[verifier::type_invariant]
    pub closed spec fn checked(&self) -> bool {
        &&& validity::valid(toplevel_view(self.toplevel@))
        &&& names_view(self.names@).no_duplicates()
        &&& forall|name: Seq<char>| #[trigger]
            names_view(self.names@).contains(name) <==> self.toplevel@.contains_key(name)
    }

    /// A module that has passed the check is a valid program, and lists the
    /// names of its functions, each once.
    pub proof fn lemma_checked_is_valid(&self)
        requires
            self.checked(),
        ensures
            validity::valid(self@),
            self.listed().no_duplicates(),
            forall|name: Seq<char>| #[trigger]
                self.listed().contains(name) <==> self@.contains_key(name),
    {
    }

    /// Makes the module of these definitions; of two with one name the later
    /// stands. The functions that stand are then checked, in the order in
    /// which their names first occur in `defs`, and the first error met is
    /// returned.
    pub fn new(defs: Vec<Definition>) -> (res: Result<Module, ModuleError>)
        ensures
            match validity::check_module(defs_view(defs@)) {
                Ok(top) => res is Ok && res->Ok_0@ == top && res->Ok_0.listed()
                    == validity::distinct_names(defs_view(defs@)),
                Err(error) => res is Err && res->Err_0@ == error,
            },
            res is Ok ==> validity::valid(res->Ok_0@),
    {
        let mut names: Vec<String> = Vec::new();
        let mut toplevel: StringHashMap<Definition> = StringHashMap::new();
        let ghost all = defs_view(defs@);
        for def in it: defs
            invariant
                all == defs_view(it.seq()),
                names_view(names@) == validity::distinct_names(all.take(it.index())),
                toplevel_view(toplevel@) == validity::collect(all.take(it.index())),
                keyed_by_name(toplevel@),
        {
            proof {
                let next = all.take(it.index() + 1);
                assert(next.drop_last() == all.take(it.index()));
                assert(next.last() == def@);
                validity::lemma_collect_keys(all.take(it.index()));
                validity::lemma_distinct_names(all.take(it.index()));
                assert(toplevel@.contains_key(def.name@) <==> toplevel_view(
                    toplevel@,
                ).contains_key(def.name@));
            }
            let ghost before = toplevel@;
            let ghost names_before = names@;
            if !toplevel.contains_key(def.name.as_str()) {
                names.push(def.name.clone());
                proof {
                    assert(names_view(names@) == names_view(names_before).push(def.name@));
                }
            }
            toplevel.insert(def.name.clone(), def);
            proof {
                assert(toplevel_view(toplevel@) == toplevel_view(before).insert(def.name@, def@));
            }
        }
        proof {
            assert(all.take(all.len() as int) == all);
            validity::lemma_checked_module_is_valid(all);
            validity::lemma_collect_keys(all);
            validity::lemma_distinct_names(all);
        }
        match check(&names, &toplevel) {
            Err(error) => Err(error),
            Ok(()) => {
                proof {
                    assert forall|name: Seq<char>| #[trigger]
                        names_view(names@).contains(name) <==> toplevel@.contains_key(name) by {
                        assert(toplevel@.contains_key(name) <==> toplevel_view(
                            toplevel@,
                        ).contains_key(name));
                    }
                }
                Ok(Module { toplevel, names })
            },
        }
    }

    /// The names of the functions, each once, in the order in which the
    /// definitions first had them.
    pub fn names(&self) -> (names: &Vec<String>)
        ensures
            names_view(names@) == self.listed(),
            self.listed().no_duplicates(),
            forall|name: Seq<char>| #[trigger]
                self.listed().contains(name) <==> self@.contains_key(name),
    {
        proof {
            use_type_invariant(self);
        }
        &self.names
    }

    /// The definitions, by name.
    pub fn toplevel(&self) -> (top: &StringHashMap<Definition>)
        ensures
            toplevel_view(top@) == self@,
            validity::valid(self@),
    {
        proof {
            use_type_invariant(self);
        }
        &self.toplevel
    }

    /// The definition of the function `name`, if the module has one.
    pub fn get(&self, name: &str) -> (res: Option<&Definition>)
        ensures
            match res {
                Some(def) => self@.contains_key(name@) && def@ == self@[name@],
                None => !self@.contains_key(name@),
            },
            validity::valid(self@),
    {
        proof {
            use_type_invariant(self);
        }
        self.toplevel.get(name)
    }
}

} // verus!
