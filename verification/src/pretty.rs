//! The written form of expressions, definitions, operations and tokens.

use crate::expr::{atoms_view, names_view, Atom, AtomView, Definition, DefinitionView, Expression,
    ExpressionView, Operation};
use crate::grammar::{keyword_text, token_text};
use crate::lexer::{Keyword, Token};
use crate::text::{decimal_digits, push_char, push_decimal};
use vstd::prelude::*;
use vstd::string::StringExecFns;

verus! {

/// A value to be written out: [`Pretty::text`] gives its written form.
pub struct Pretty<T> {
    inner: T,
}

impl<T> Pretty<T> {
    /// The value that is to be written.
    pub closed spec fn subject(self) -> T {
        self.inner
    }
}

impl Expression {
    /// The expression, to be written out.
    pub fn pretty(&self) -> (pretty: Pretty<&Self>)
        ensures
            pretty.subject() == self,
    {
        Pretty { inner: self }
    }
}

impl Definition {
    /// The definition, to be written out.
    pub fn pretty(&self) -> (pretty: Pretty<&Self>)
        ensures
            pretty.subject() == self,
    {
        Pretty { inner: self }
    }
}

impl Operation {
    /// The operation, to be written out.
    pub fn pretty(&self) -> (pretty: Pretty<&Self>)
        ensures
            pretty.subject() == self,
    {
        Pretty { inner: self }
    }
}

impl Token {
    /// The token, to be written out.
    pub fn pretty(&self) -> (pretty: Pretty<&Self>)
        ensures
            pretty.subject() == self,
    {
        Pretty { inner: self }
    }
}

/// One level of indentation more, as far as a machine word counts.
pub open spec fn deeper(ident: usize) -> usize {
    if ident < usize::MAX {
        (ident + 1) as usize
    } else {
        ident
    }
}

/// One level of indentation more, as far as a machine word counts.
fn indent_more(ident: usize) -> (res: usize)
    ensures
        res == deeper(ident),
{
    if ident < usize::MAX {
        ident + 1
    } else {
        ident
    }
}

/// Two spaces for each of `n` levels.
pub open spec fn indentation(n: nat) -> Seq<char>
    decreases n,
{
    if n == 0 {
        Seq::empty()
    } else {
        indentation((n - 1) as nat) + "  "@
    }
}

/// A line break and the indentation of the line that it begins.
pub open spec fn newline_ident(ident: usize) -> Seq<char> {
    "\n"@ + indentation(ident as nat)
}

/// Begins a line at the indentation `ident`.
pub fn fmt_newline_ident(f: &mut String, ident: usize)
    ensures
        final(f)@ == old(f)@ + newline_ident(ident),
{
    f.append("\n");
    let mut i: usize = 0;
    while i < ident
        invariant
            i <= ident,
            f@ == old(f)@ + ("\n"@ + indentation(i as nat)),
        decreases ident - i,
    {
        f.append("  ");
        i += 1;
        proof {
            assert(f@ =~= old(f)@ + ("\n"@ + indentation(i as nat)));
        }
    }
}

/// An operation as it is written.
pub open spec fn op_text(op: Operation) -> Seq<char> {
    match op {
        Operation::Add => "+"@,
        Operation::Sub => "-"@,
        Operation::Mul => "*"@,
        Operation::Div => "/"@,
        Operation::Mod => "%"@,
        Operation::Eq => "=="@,
        Operation::Lt => "<"@,
        Operation::Le => "<="@,
        Operation::Gt => ">"@,
        Operation::Ge => ">="@,
        Operation::And => "&&"@,
        Operation::Or => "||"@,
        Operation::Xor => "^"@,
        Operation::Sr => ">>"@,
        Operation::Sl => "<<"@,
    }
}

/// The written form of an operation.
pub fn op_to_str(x: &Operation) -> (s: String)
    ensures
        s@ == op_text(*x),
{
    match x {
        Operation::Add => "+".to_owned(),
        Operation::Sub => "-".to_owned(),
        Operation::Mul => "*".to_owned(),
        Operation::Div => "/".to_owned(),
        Operation::Mod => "%".to_owned(),
        Operation::Eq => "==".to_owned(),
        Operation::Lt => "<".to_owned(),
        Operation::Le => "<=".to_owned(),
        Operation::Gt => ">".to_owned(),
        Operation::Ge => ">=".to_owned(),
        Operation::And => "&&".to_owned(),
        Operation::Or => "||".to_owned(),
        Operation::Xor => "^".to_owned(),
        Operation::Sr => ">>".to_owned(),
        Operation::Sl => "<<".to_owned(),
    }
}

/// An atom as it is written: a variable by its name, a literal in decimal.
pub open spec fn atom_text(atom: AtomView) -> Seq<char> {
    match atom {
        AtomView::Var(x) => x,
        AtomView::Lit(n) => decimal_digits(n as nat),
    }
}

/// The written form of an atom.
pub fn atom_to_str(x: &Atom) -> (s: String)
    ensures
        s@ == atom_text(x@),
{
    match x {
        Atom::Var(x) => x.clone(),
        Atom::Lit(x) => {
            let mut s = String::new();
            push_decimal(&mut s, *x);
            s
        },
    }
}

/// The written forms of a list of atoms.
pub open spec fn atoms_text(atoms: Seq<AtomView>) -> Seq<Seq<char>> {
    atoms.map_values(|atom: AtomView| atom_text(atom))
}

/// The first `n` of the operands, each after a space.
pub open spec fn operands_text(args: Seq<Seq<char>>, n: int) -> Seq<char>
    decreases n,
{
    if n <= 0 || n > args.len() {
        Seq::empty()
    } else {
        operands_text(args, n - 1) + " "@ + args[n - 1]
    }
}

/// An application as it is written: in brackets, the head and the operands,
/// a space before each operand.
pub open spec fn app_text(head: Seq<char>, args: Seq<Seq<char>>) -> Seq<char> {
    "("@ + head + operands_text(args, args.len() as int) + ")"@
}

/// Writes an application.
pub fn fmt_app(f: &mut String, head: &str, args: &Vec<String>)
    ensures
        final(f)@ == old(f)@ + app_text(head@, names_view(args@)),
{
    f.append("(");
    f.append(head);
    let mut i: usize = 0;
    while i < args.len()
        invariant
            i <= args.len(),
            f@ == old(f)@ + ("("@ + head@ + operands_text(names_view(args@), i as int)),
        decreases args.len() - i,
    {
        f.append(" ");
        f.append(args[i].as_str());
        i += 1;
        proof {
            assert(f@ =~= old(f)@ + ("("@ + head@ + operands_text(names_view(args@), i as int)));
        }
    }
    f.append(")");
    proof {
        assert(f@ =~= old(f)@ + app_text(head@, names_view(args@)));
    }
}

/// The written forms of the atoms.
fn atoms_to_strs(atoms: &Vec<Atom>, first: Option<&String>) -> (strs: Vec<String>)
    ensures
        names_view(strs@) == match first {
            Some(head) => seq![head@] + atoms_text(atoms_view(atoms@)),
            None => atoms_text(atoms_view(atoms@)),
        },
{
    let mut strs: Vec<String> = Vec::new();
    if let Some(head) = first {
        strs.push(head.clone());
    }
    let ghost begin = names_view(strs@);
    proof {
        assert(begin =~= match first {
            Some(head) => seq![head@],
            None => Seq::<Seq<char>>::empty(),
        });
    }
    let mut i: usize = 0;
    while i < atoms.len()
        invariant
            i <= atoms.len(),
            names_view(strs@) == begin + atoms_text(atoms_view(atoms@)).take(i as int),
        decreases atoms.len() - i,
    {
        let ghost before = strs@;
        let written = atom_to_str(&atoms[i]);
        strs.push(written);
        i += 1;
        proof {
            let texts = atoms_text(atoms_view(atoms@));
            assert(names_view(strs@) =~= names_view(before).push(written@));
            assert(texts.take(i as int) =~= texts.take(i as int - 1).push(written@));
            assert(names_view(strs@) =~= begin + texts.take(i as int));
        }
    }
    proof {
        assert(atoms_text(atoms_view(atoms@)).take(i as int) == atoms_text(atoms_view(atoms@)));
        assert(Seq::<Seq<char>>::empty() + atoms_text(atoms_view(atoms@)) =~= atoms_text(
            atoms_view(atoms@),
        ));
    }
    strs
}

/// A branch of a match as it is written, after its pattern: an arrow and, in
/// braces on lines of their own, the expression.
pub open spec fn branch_text(pattern: Seq<char>, branch: Seq<char>, ident: usize) -> Seq<char> {
    newline_ident(deeper(ident)) + pattern + " => {"@ + branch + newline_ident(deeper(ident))
        + "}"@
}

/// The default branch of a match as it is written, if there is one.
pub open spec fn default_text(default: Option<Box<ExpressionView>>, ident: usize) -> Seq<char>
    decreases default, 1int,
{
    match default {
        Some(branch) => branch_text("_"@, expr_text(*branch, deeper(deeper(ident)), true), ident),
        None => Seq::empty(),
    }
}

/// The line break before an expression, if it stands on a line of its own.
pub open spec fn lead_text(ident: usize, newline: bool) -> Seq<char> {
    if newline {
        newline_ident(ident)
    } else {
        Seq::empty()
    }
}

/// An expression as it is written at the indentation `ident`, on a line of
/// its own if `newline` says so.
pub open spec fn expr_text(expr: ExpressionView, ident: usize, newline: bool) -> Seq<char>
    decreases expr, 0int,
{
    match expr {
        ExpressionView::Unit(x) => lead_text(ident, newline) + atom_text(x),
        ExpressionView::Let(x, val, body) => lead_text(ident, newline) + "let "@ + x + " = "@
            + expr_text(*val, deeper(ident), false) + ";"@ + expr_text(*body, ident, true),
        ExpressionView::Apply(func, xs) => lead_text(ident, newline) + app_text(
            "apply"@,
            seq![func] + atoms_text(xs),
        ),
        ExpressionView::Call(func, xs) => lead_text(ident, newline) + app_text(
            func,
            atoms_text(xs),
        ),
        ExpressionView::Papp(func, xs) => lead_text(ident, newline) + app_text(
            "papp"@,
            seq![func] + atoms_text(xs),
        ),
        ExpressionView::Match(x, cases, default) => lead_text(ident, newline) + "match "@
            + atom_text(x) + " {"@ + cases_text(cases, cases.len() as int, ident) + default_text(
            default,
            ident,
        ) + newline_ident(ident) + "}"@,
        ExpressionView::Operate(op, x, y) => lead_text(ident, newline) + "("@ + op_text(op) + " "@
            + atom_text(x) + " "@ + atom_text(y) + ")"@,
    }
}

/// The first `n` cases of a match as they are written.
pub open spec fn cases_text(cases: Seq<(usize, ExpressionView)>, n: int, ident: usize) -> Seq<char>
    decreases cases, n,
{
    if n <= 0 || n > cases.len() {
        Seq::empty()
    } else {
        cases_text(cases, n - 1, ident) + branch_text(
            decimal_digits(cases[n - 1].0 as nat),
            expr_text(cases[n - 1].1, deeper(deeper(ident)), true),
            ident,
        )
    }
}

/// Concatenation is associative.
proof fn lemma_concat_assoc(a: Seq<char>, b: Seq<char>, c: Seq<char>)
    ensures
        (a + b) + c == a + (b + c),
{
    assert((a + b) + c =~= a + (b + c));
}

/// Appends `piece` to `f`, which holds `written` after `base`.
fn put(f: &mut String, piece: &str, base: Ghost<Seq<char>>, written: &mut Ghost<Seq<char>>)
    requires
        old(f)@ == base@ + old(written)@,
    ensures
        final(f)@ == base@ + final(written)@,
        final(written)@ == old(written)@ + piece@,
{
    f.append(piece);
    proof {
        lemma_concat_assoc(base@, written@, piece@);
        written@ = written@ + piece@;
    }
}

/// Writes a branch of a match after the pattern `pattern`.
fn fmt_branch(f: &mut String, pattern: &str, branch: &Expression, ident: usize)
    ensures
        final(f)@ == old(f)@ + branch_text(
            pattern@,
            expr_text(branch@, deeper(deeper(ident)), true),
            ident,
        ),
    decreases branch, 2int,
{
    let ghost base = f@;
    fmt_newline_ident(f, indent_more(ident));
    let mut written: Ghost<Seq<char>> = Ghost(newline_ident(deeper(ident)));
    put(f, pattern, Ghost(base), &mut written);
    put(f, " => {", Ghost(base), &mut written);
    fmt_expr(f, branch, indent_more(indent_more(ident)), true);
    proof {
        let piece = expr_text(branch@, deeper(deeper(ident)), true);
        lemma_concat_assoc(base, written@, piece);
        written@ = written@ + piece;
    }
    fmt_newline_ident(f, indent_more(ident));
    proof {
        lemma_concat_assoc(base, written@, newline_ident(deeper(ident)));
        written@ = written@ + newline_ident(deeper(ident));
    }
    put(f, "}", Ghost(base), &mut written);
}

/// Writes the cases of a match and its default branch.
#[verifier::loop_isolation(false)]
fn fmt_branches(f: &mut String, expr: &Expression, ident: usize)
    requires
        expr is Match,
    ensures
        final(f)@ == old(f)@ + (cases_text(expr@->Match_1, expr@->Match_1.len() as int, ident)
            + default_text(expr@->Match_2, ident)),
    decreases expr, 0int,
{
    if let Expression::Match(_, matches, default) = expr {
        let ghost base = f@;
        let ghost cases = expr@->Match_1;
        let mut i: usize = 0;
        proof {
            assert(f@ =~= base + cases_text(cases, 0, ident));
        }
        while i < matches.len()
            invariant
                i <= matches.len(),
                f@ == base + cases_text(cases, i as int, ident),
            decreases matches.len() - i,
        {
            let mut pattern = String::new();
            push_decimal(&mut pattern, matches[i].0);
            fmt_branch(f, pattern.as_str(), &matches[i].1, ident);
            proof {
                assert(cases[i as int].1 == matches[i as int].1@);
                assert(pattern@ =~= decimal_digits(matches[i as int].0 as nat));
                lemma_concat_assoc(
                    base,
                    cases_text(cases, i as int, ident),
                    branch_text(
                        pattern@,
                        expr_text(matches[i as int].1@, deeper(deeper(ident)), true),
                        ident,
                    ),
                );
            }
            i += 1;
        }
        let ghost written = cases_text(cases, cases.len() as int, ident);
        match default {
            Some(branch) => {
                fmt_branch(f, "_", branch, ident);
                proof {
                    lemma_concat_assoc(base, written, default_text(expr@->Match_2, ident));
                }
            },
            None => {
                proof {
                    assert(written + default_text(expr@->Match_2, ident) =~= written);
                }
            },
        }
    }
}

/// Writes an expression at the indentation `ident`, on a line of its own if
/// `newline` says so.
pub fn fmt_expr(f: &mut String, expr: &Expression, ident: usize, newline: bool)
    ensures
        final(f)@ == old(f)@ + expr_text(expr@, ident, newline),
    decreases expr, 1int,
{
    let ghost base = f@;
    if newline {
        fmt_newline_ident(f, ident);
    }
    let mut written: Ghost<Seq<char>> = Ghost(lead_text(ident, newline));
    proof {
        assert(f@ =~= base + written@);
    }
    match expr {
        Expression::Unit(x) => {
            put(f, atom_to_str(x).as_str(), Ghost(base), &mut written);
        },
        Expression::Let(x, val, body) => {
            put(f, "let ", Ghost(base), &mut written);
            put(f, x.as_str(), Ghost(base), &mut written);
            put(f, " = ", Ghost(base), &mut written);
            fmt_expr(f, val, indent_more(ident), false);
            proof {
                let piece = expr_text(val@, deeper(ident), false);
                lemma_concat_assoc(base, written@, piece);
                written@ = written@ + piece;
            }
            put(f, ";", Ghost(base), &mut written);
            fmt_expr(f, body, ident, true);
            proof {
                lemma_concat_assoc(base, written@, expr_text(body@, ident, true));
            }
        },
        Expression::Apply(func, xs) => {
            let args = atoms_to_strs(xs, Some(func));
            fmt_app(f, "apply", &args);
            proof {
                lemma_concat_assoc(base, written@, app_text("apply"@, names_view(args@)));
            }
        },
        Expression::Call(func, xs) => {
            let args = atoms_to_strs(xs, None);
            fmt_app(f, func.as_str(), &args);
            proof {
                lemma_concat_assoc(base, written@, app_text(func@, names_view(args@)));
            }
        },
        Expression::Papp(func, xs) => {
            let args = atoms_to_strs(xs, Some(func));
            fmt_app(f, "papp", &args);
            proof {
                lemma_concat_assoc(base, written@, app_text("papp"@, names_view(args@)));
            }
        },
        Expression::Match(x, _, _) => {
            put(f, "match ", Ghost(base), &mut written);
            put(f, atom_to_str(x).as_str(), Ghost(base), &mut written);
            put(f, " {", Ghost(base), &mut written);
            fmt_branches(f, expr, ident);
            proof {
                let cases = cases_text(expr@->Match_1, expr@->Match_1.len() as int, ident);
                let default = default_text(expr@->Match_2, ident);
                lemma_concat_assoc(base, written@, cases + default);
                lemma_concat_assoc(written@, cases, default);
                written@ = written@ + cases + default;
            }
            fmt_newline_ident(f, ident);
            proof {
                lemma_concat_assoc(base, written@, newline_ident(ident));
                written@ = written@ + newline_ident(ident);
            }
            put(f, "}", Ghost(base), &mut written);
        },
        Expression::Operate(op, x, y) => {
            put(f, "(", Ghost(base), &mut written);
            put(f, op_to_str(op).as_str(), Ghost(base), &mut written);
            put(f, " ", Ghost(base), &mut written);
            put(f, atom_to_str(x).as_str(), Ghost(base), &mut written);
            put(f, " ", Ghost(base), &mut written);
            put(f, atom_to_str(y).as_str(), Ghost(base), &mut written);
            put(f, ")", Ghost(base), &mut written);
        },
    }
}

/// A definition as it is written.
pub open spec fn def_text(def: DefinitionView) -> Seq<char> {
    "fn "@ + app_text(def.name, def.params) + " {"@ + expr_text(def.body, 1, true) + "\n}"@
}

/// Writes a definition.
pub fn fmt_def(f: &mut String, def: &Definition)
    ensures
        final(f)@ == old(f)@ + def_text(def@),
{
    let ghost base = f@;
    f.append("fn ");
    let mut written: Ghost<Seq<char>> = Ghost("fn "@);
    fmt_app(f, def.name.as_str(), &def.params);
    proof {
        let piece = app_text(def@.name, def@.params);
        lemma_concat_assoc(base, written@, piece);
        written@ = written@ + piece;
    }
    put(f, " {", Ghost(base), &mut written);
    fmt_expr(f, &def.body, 1, true);
    proof {
        let piece = expr_text(def@.body, 1, true);
        lemma_concat_assoc(base, written@, piece);
        written@ = written@ + piece;
    }
    put(f, "\n}", Ghost(base), &mut written);
}

/// The word of a keyword.
fn keyword_str(keyword: Keyword) -> (s: &'static str)
    ensures
        s@ == keyword_text(keyword),
{
    match keyword {
        Keyword::Fn => "fn",
        Keyword::Let => "let",
        Keyword::Match => "match",
        Keyword::Apply => "apply",
        Keyword::Papp => "papp",
    }
}

impl<'a> Pretty<&'a Expression> {
    /// The expression as it is written.
    pub fn text(&self) -> (s: String)
        ensures
            s@ == expr_text(self.subject()@, 0, false),
    {
        let mut s = String::new();
        fmt_expr(&mut s, self.inner, 0, false);
        proof {
            assert(Seq::<char>::empty() + expr_text(self.subject()@, 0, false) =~= expr_text(
                self.subject()@,
                0,
                false,
            ));
        }
        s
    }
}

impl<'a> Pretty<&'a Definition> {
    /// The definition as it is written.
    pub fn text(&self) -> (s: String)
        ensures
            s@ == def_text(self.subject()@),
    {
        let mut s = String::new();
        fmt_def(&mut s, self.inner);
        proof {
            assert(Seq::<char>::empty() + def_text(self.subject()@) =~= def_text(
                self.subject()@,
            ));
        }
        s
    }
}

impl<'a> Pretty<&'a Operation> {
    /// The operation as it is written.
    pub fn text(&self) -> (s: String)
        ensures
            s@ == op_text(*self.subject()),
    {
        op_to_str(self.inner)
    }
}

impl<'a> Pretty<&'a Token> {
    /// The token as it is written.
    pub fn text(&self) -> (s: String)
        ensures
            s@ == token_text(self.subject()@),
    {
        let mut s = String::new();
        match self.inner {
            Token::Keyword(keyword) => {
                s.append(keyword_str(*keyword));
            },
            Token::Identifier(name) => {
                s.append(name.as_str());
            },
            Token::Symbol(c) => {
                push_char(&mut s, c.to_char());
            },
            Token::Number(num) => {
                push_decimal(&mut s, *num);
            },
            Token::Paren(c) => {
                push_char(&mut s, c.to_char());
            },
        }
        proof {
            assert(s@ =~= token_text(self.subject()@));
        }
        s
    }
}

} // verus!
