use crate::values::{Lattice, Value};
use std::rc::Rc;
use vstd::prelude::*;

verus! {

/// A shared sub-term: candidates are re-assembled from pieces many times
/// during the search, and sharing keeps that cheap.
pub type Term<T, U> = Rc<Expr<T, U>>;

/// Relies on Rc::clone, which returns another handle to the same allocation,
/// so the result denotes the very value the argument does.
#[verifier::external_body]
pub fn rc_dup<T>(v: &Rc<T>) -> (res: Rc<T>)
    ensures
        res == *v,
{
    v.clone()
}

/// Relies on Rc::as_ref, which borrows the pointed-to value.
#[verifier::external_body]
pub fn rc_get<T>(v: &Rc<T>) -> (res: &T)
    ensures
        *res == **v,
{
    v.as_ref()
}

/// A call of one of the fixed language functions.
pub enum Func<T: Value, U: Lattice> {
    Append(Term<T, U>, Term<T, U>),
    Replace(Term<T, U>, Term<T, U>, Term<T, U>),
    Substr(Term<T, U>, Term<T, U>, Term<T, U>),
    Add(Term<T, U>, Term<T, U>),
    Sub(Term<T, U>, Term<T, U>),
    Len(Term<T, U>),
    At(Term<T, U>, Term<T, U>),
    ToStr(Term<T, U>),
    ToInt(Term<T, U>),
    IndexOf(Term<T, U>, Term<T, U>, Term<T, U>),
    PrefixOf(Term<T, U>, Term<T, U>),
    SuffixOf(Term<T, U>, Term<T, U>),
    Contains(Term<T, U>, Term<T, U>),
}

/// An expression of the language: a constant, a variable, a call, a
/// conditional, or one of the three hole forms a partial program carries.
pub enum Expr<T: Value, U: Lattice> {
    /// A literal value.
    Const(T),
    /// A variable looked up in the environment.
    Var(String),
    /// A function call.
    Call(Func<T, U>),
    /// A conditional.
    If(Term<T, U>, Term<T, U>, Term<T, U>),
    /// An open position that must come to denote a value below the target
    /// lattice element; the optional call is the shape the hole has committed
    /// to, with argument positions still unresolved.
    Hole(U, Option<Func<T, U>>),
    /// A fully concrete sub-expression of exactly the given size, not yet
    /// chosen.
    ConcHole(u32),
    /// A placeholder whose target depends on a sibling argument.
    DepHole,
}

/// The size of an expression: each call counts one per argument position,
/// leaves count nothing, and an unresolved `ConcHole(n)` counts the size `n`
/// of the sub-expression it stands for.
pub open spec fn spec_expr_size<T: Value, U: Lattice>(e: Expr<T, U>) -> nat
    decreases e,
{
    match e {
        Expr::Const(_) => 0,
        Expr::Var(_) => 0,
        Expr::Call(f) => spec_func_size(f),
        Expr::If(c, t, o) => spec_expr_size(*c) + spec_expr_size(*t) + spec_expr_size(*o),
        Expr::Hole(_, pending) => match pending {
            Some(f) => spec_func_size(f),
            None => 0,
        },
        Expr::ConcHole(n) => n as nat,
        Expr::DepHole => 0,
    }
}

pub open spec fn spec_func_size<T: Value, U: Lattice>(f: Func<T, U>) -> nat
    decreases f,
{
    match f {
        Func::Append(a, b) => spec_expr_size(*a) + spec_expr_size(*b) + 2,
        Func::Replace(a, b, c) => spec_expr_size(*a) + spec_expr_size(*b) + spec_expr_size(*c)
            + 3,
        Func::Substr(a, b, c) => spec_expr_size(*a) + spec_expr_size(*b) + spec_expr_size(*c) + 3,
        Func::Add(a, b) => spec_expr_size(*a) + spec_expr_size(*b) + 2,
        Func::Sub(a, b) => spec_expr_size(*a) + spec_expr_size(*b) + 2,
        Func::Len(a) => spec_expr_size(*a) + 1,
        Func::At(a, b) => spec_expr_size(*a) + spec_expr_size(*b) + 2,
        Func::ToStr(a) => spec_expr_size(*a) + 1,
        Func::ToInt(a) => spec_expr_size(*a) + 1,
        Func::IndexOf(a, b, c) => spec_expr_size(*a) + spec_expr_size(*b) + spec_expr_size(*c)
            + 3,
        Func::PrefixOf(a, b) => spec_expr_size(*a) + spec_expr_size(*b) + 2,
        Func::SuffixOf(a, b) => spec_expr_size(*a) + spec_expr_size(*b) + 2,
        Func::Contains(a, b) => spec_expr_size(*a) + spec_expr_size(*b) + 2,
    }
}

/// Whether any hole form remains anywhere in the expression.
pub open spec fn spec_expr_has_hole<T: Value, U: Lattice>(e: Expr<T, U>) -> bool
    decreases e,
{
    match e {
        Expr::Const(_) => false,
        Expr::Var(_) => false,
        Expr::Call(f) => spec_func_has_hole(f),
        Expr::If(c, t, o) => spec_expr_has_hole(*c) || spec_expr_has_hole(*t)
            || spec_expr_has_hole(*o),
        Expr::Hole(_, _) => true,
        Expr::ConcHole(_) => true,
        Expr::DepHole => true,
    }
}

pub open spec fn spec_func_has_hole<T: Value, U: Lattice>(f: Func<T, U>) -> bool
    decreases f,
{
    match f {
        Func::Append(a, b) => spec_expr_has_hole(*a) || spec_expr_has_hole(*b),
        Func::Replace(a, b, c) => spec_expr_has_hole(*a) || spec_expr_has_hole(*b)
            || spec_expr_has_hole(*c),
        Func::Substr(a, b, c) => spec_expr_has_hole(*a) || spec_expr_has_hole(*b)
            || spec_expr_has_hole(*c),
        Func::Add(a, b) => spec_expr_has_hole(*a) || spec_expr_has_hole(*b),
        Func::Sub(a, b) => spec_expr_has_hole(*a) || spec_expr_has_hole(*b),
        Func::Len(a) => spec_expr_has_hole(*a),
        Func::At(a, b) => spec_expr_has_hole(*a) || spec_expr_has_hole(*b),
        Func::ToStr(a) => spec_expr_has_hole(*a),
        Func::ToInt(a) => spec_expr_has_hole(*a),
        Func::IndexOf(a, b, c) => spec_expr_has_hole(*a) || spec_expr_has_hole(*b)
            || spec_expr_has_hole(*c),
        Func::PrefixOf(a, b) => spec_expr_has_hole(*a) || spec_expr_has_hole(*b),
        Func::SuffixOf(a, b) => spec_expr_has_hole(*a) || spec_expr_has_hole(*b),
        Func::Contains(a, b) => spec_expr_has_hole(*a) || spec_expr_has_hole(*b),
    }
}

/// `x` capped at the largest machine size value.
pub open spec fn sat32(x: nat) -> nat {
    if x > u32::MAX {
        u32::MAX as nat
    } else {
        x
    }
}

/// Addition capped at the largest machine size value.
fn sat_add(a: u32, b: u32) -> (r: u32)
    ensures
        r as nat == sat32((a + b) as nat),
{
    if a > u32::MAX - b {
        u32::MAX
    } else {
        a + b
    }
}

impl<T: Value, U: Lattice> Expr<T, U> {
    /// Whether any hole form remains in the expression.
    pub fn has_hole(&self) -> (r: bool)
        ensures
            r == spec_expr_has_hole(*self),
        decreases *self,
    {
        match self {
            Expr::Const(_) => false,
            Expr::Var(_) => false,
            Expr::Call(f) => f.has_hole(),
            Expr::If(c, t, o) => rc_get(c).has_hole() || rc_get(t).has_hole() || rc_get(
                o,
            ).has_hole(),
            Expr::Hole(_, _) => true,
            Expr::ConcHole(_) => true,
            Expr::DepHole => true,
        }
    }

    /// The size of the expression, capped at the largest machine size value.
    pub fn size(&self) -> (r: u32)
        ensures
            r as nat == sat32(spec_expr_size(*self)),
        decreases *self,
    {
        match self {
            Expr::Const(_) => 0,
            Expr::Var(_) => 0,
            Expr::Call(f) => f.size(),
            Expr::If(c, t, o) => sat_add(
                sat_add(rc_get(c).size(), rc_get(t).size()),
                rc_get(o).size(),
            ),
            Expr::Hole(_, pending) => match pending {
                Some(f) => f.size(),
                None => 0,
            },
            Expr::ConcHole(n) => *n,
            Expr::DepHole => 0,
        }
    }
}

impl<T: Value, U: Lattice> Func<T, U> {
    fn has_hole(&self) -> (r: bool)
        ensures
            r == spec_func_has_hole(*self),
        decreases *self,
    {
        match self {
            Func::Append(a, b) => rc_get(a).has_hole() || rc_get(b).has_hole(),
            Func::Replace(a, b, c) => rc_get(a).has_hole() || rc_get(b).has_hole() || rc_get(
                c,
            ).has_hole(),
            Func::Substr(a, b, c) => rc_get(a).has_hole() || rc_get(b).has_hole() || rc_get(
                c,
            ).has_hole(),
            Func::Add(a, b) => rc_get(a).has_hole() || rc_get(b).has_hole(),
            Func::Sub(a, b) => rc_get(a).has_hole() || rc_get(b).has_hole(),
            Func::Len(a) => rc_get(a).has_hole(),
            Func::At(a, b) => rc_get(a).has_hole() || rc_get(b).has_hole(),
            Func::ToStr(a) => rc_get(a).has_hole(),
            Func::ToInt(a) => rc_get(a).has_hole(),
            Func::IndexOf(a, b, c) => rc_get(a).has_hole() || rc_get(b).has_hole() || rc_get(
                c,
            ).has_hole(),
            Func::PrefixOf(a, b) => rc_get(a).has_hole() || rc_get(b).has_hole(),
            Func::SuffixOf(a, b) => rc_get(a).has_hole() || rc_get(b).has_hole(),
            Func::Contains(a, b) => rc_get(a).has_hole() || rc_get(b).has_hole(),
        }
    }

    fn size(&self) -> (r: u32)
        ensures
            r as nat == sat32(spec_func_size(*self)),
        decreases *self,
    {
        match self {
            Func::Append(a, b) => sat_add(sat_add(rc_get(a).size(), rc_get(b).size()), 2),
            Func::Replace(a, b, c) => sat_add(
                sat_add(sat_add(rc_get(a).size(), rc_get(b).size()), rc_get(c).size()),
                3,
            ),
            Func::Substr(a, b, c) => sat_add(
                sat_add(sat_add(rc_get(a).size(), rc_get(b).size()), rc_get(c).size()),
                3,
            ),
            Func::Add(a, b) => sat_add(sat_add(rc_get(a).size(), rc_get(b).size()), 2),
            Func::Sub(a, b) => sat_add(sat_add(rc_get(a).size(), rc_get(b).size()), 2),
            Func::Len(a) => sat_add(rc_get(a).size(), 1),
            Func::At(a, b) => sat_add(sat_add(rc_get(a).size(), rc_get(b).size()), 2),
            Func::ToStr(a) => sat_add(rc_get(a).size(), 1),
            Func::ToInt(a) => sat_add(rc_get(a).size(), 1),
            Func::IndexOf(a, b, c) => sat_add(
                sat_add(sat_add(rc_get(a).size(), rc_get(b).size()), rc_get(c).size()),
                3,
            ),
            Func::PrefixOf(a, b) => sat_add(sat_add(rc_get(a).size(), rc_get(b).size()), 2),
            Func::SuffixOf(a, b) => sat_add(sat_add(rc_get(a).size(), rc_get(b).size()), 2),
            Func::Contains(a, b) => sat_add(sat_add(rc_get(a).size(), rc_get(b).size()), 2),
        }
    }
}

} // verus!
