use crate::concrete::PyVal;
use crate::syguslang::{rc_get, sat32};
use crate::values::{Lattice, Value};
use std::rc::Rc;
use vstd::prelude::*;
use vstd::string::*;

verus! {

broadcast use vstd::std_specs::vec::group_vec_axioms;

/// A shared sub-term of the table-indexing language.
pub type Term<T, U> = Rc<Expr<T, U>>;

/// The one method call the table-indexing language knows.
pub enum Func {
    Loc,
}

/// An expression of the table-indexing language: a constant, a variable, an
/// indexing of one expression by another, a list of expressions, a method
/// call on an optional receiver, or an open hole.
pub enum Expr<T: Value, U: Lattice> {
    Const(T),
    Var(String),
    GetItem(Term<T, U>, Term<T, U>),
    List(Vec<Term<T, U>>),
    Call(Option<Term<T, U>>, Func),
    Hole(U, Option<Func>),
}

pub open spec fn spec_func_has_hole(f: Func) -> bool {
    match f {
        Func::Loc => false,
    }
}

pub open spec fn spec_func_size(f: Func) -> nat {
    match f {
        Func::Loc => 1,
    }
}

/// Whether any hole remains anywhere in the expression.
pub open spec fn spec_expr_has_hole<T: Value, U: Lattice>(e: Expr<T, U>) -> bool
    decreases e,
{
    match e {
        Expr::Const(_) => false,
        Expr::Var(_) => false,
        Expr::GetItem(a, b) => spec_expr_has_hole(*a) || spec_expr_has_hole(*b),
        Expr::List(items) => exists|i: int|
            0 <= i < items@.len() && spec_expr_has_hole(*#[trigger] items@[i]),
        Expr::Call(recv, f) => match recv {
            Some(r) => spec_expr_has_hole(*r) || spec_func_has_hole(f),
            None => spec_func_has_hole(f),
        },
        Expr::Hole(_, _) => true,
    }
}

/// The size of the expression: each method call counts one, everything else
/// sums its parts.
pub open spec fn spec_expr_size<T: Value, U: Lattice>(e: Expr<T, U>) -> nat
    decreases e,
{
    match e {
        Expr::Const(_) => 0,
        Expr::Var(_) => 0,
        Expr::GetItem(a, b) => spec_expr_size(*a) + spec_expr_size(*b),
        Expr::List(items) => spec_list_size(items@, 0),
        Expr::Call(recv, f) => match recv {
            Some(r) => spec_expr_size(*r) + spec_func_size(f),
            None => spec_func_size(f),
        },
        Expr::Hole(_, pending) => match pending {
            Some(f) => spec_func_size(f),
            None => 0,
        },
    }
}

pub open spec fn spec_list_size<T: Value, U: Lattice>(items: Seq<Term<T, U>>, i: int) -> nat
    decreases items, items.len() - i,
{
    if i < 0 || i >= items.len() {
        0
    } else {
        spec_expr_size(*items[i]) + spec_list_size(items, i + 1)
    }
}

impl<T: Value, U: Lattice> Expr<T, U> {
    /// Whether any hole remains in the expression.
    #[verifier::loop_isolation(false)]
    pub fn has_hole(&self) -> (r: bool)
        ensures
            r == spec_expr_has_hole(*self),
        decreases *self,
    {
        match self {
            Expr::Const(_) => false,
            Expr::Var(_) => false,
            Expr::GetItem(a, b) => rc_get(a).has_hole() || rc_get(b).has_hole(),
            Expr::List(items) => {
                let n = items.len();
                let mut i: usize = 0;
                while i < n
                    invariant
                        n == items@.len(),
                        0 <= i <= n,
                        forall|k: int|
                            0 <= k < i ==> !spec_expr_has_hole(*#[trigger] items@[k]),
                    decreases n - i,
                {
                    proof {
                        assert(decreases_to!(*self => *items));
                        assert(decreases_to!(*items => items@[i as int]));
                    }
                    if rc_get(&items[i]).has_hole() {
                        proof {
                            assert(spec_expr_has_hole(*items@[i as int]));
                        }
                        return true;
                    }
                    i += 1;
                }
                false
            },
            Expr::Call(recv, f) => {
                let fh = match f {
                    Func::Loc => false,
                };
                match recv {
                    Some(r) => rc_get(r).has_hole() || fh,
                    None => fh,
                }
            },
            Expr::Hole(_, _) => true,
        }
    }

    /// The size of the expression, capped at the largest machine size value.
    #[verifier::loop_isolation(false)]
    pub fn size(&self) -> (r: u32)
        ensures
            r as nat == sat32(spec_expr_size(*self)),
        decreases *self,
    {
        match self {
            Expr::Const(_) => 0,
            Expr::Var(_) => 0,
            Expr::GetItem(a, b) => py_sat_add(rc_get(a).size(), rc_get(b).size()),
            Expr::List(items) => {
                let n = items.len();
                let mut total: u32 = 0;
                let mut i: usize = n;
                while i > 0
                    invariant
                        n == items@.len(),
                        0 <= i <= n,
                        total as nat == sat32(spec_list_size(items@, i as int)),
                    decreases i,
                {
                    i -= 1;
                    proof {
                        assert(decreases_to!(*self => *items));
                        assert(decreases_to!(*items => items@[i as int]));
                    }
                    total = py_sat_add(rc_get(&items[i]).size(), total);
                }
                total
            },
            Expr::Call(recv, f) => {
                let fs: u32 = match f {
                    Func::Loc => 1,
                };
                match recv {
                    Some(r) => py_sat_add(rc_get(r).size(), fs),
                    None => fs,
                }
            },
            Expr::Hole(_, pending) => match pending {
                Some(f) => match f {
                    Func::Loc => 1,
                },
                None => 0,
            },
        }
    }
}

fn py_sat_add(a: u32, b: u32) -> (r: u32)
    ensures
        r as nat == sat32((a + b) as nat),
{
    if a > u32::MAX - b {
        u32::MAX
    } else {
        a + b
    }
}

// ---------------------------------------------------------------------------
// Rendering
// ---------------------------------------------------------------------------

/// The rendered form of a table-indexing expression, as source text of the
/// host scripting language.
pub open spec fn render_py(e: Expr<PyVal, crate::types::TypeLattice>) -> Seq<char>
    decreases e,
{
    match e {
        Expr::Const(v) => render_pyval(v),
        Expr::Var(x) => x@,
        Expr::GetItem(a, b) => render_py(*a) + ("[")@ + render_py(*b) + ("]")@,
        Expr::List(items) => ("[")@ + render_py_list(items@, items@.len() as int) + ("]")@,
        Expr::Call(recv, f) => match recv {
            Some(r) => render_py(*r) + (".")@ + render_py_func(f),
            None => render_py_func(f),
        },
        Expr::Hole(_, _) => ("?")@,
    }
}

/// The rendering of the first `i` list items, joined by commas.
pub open spec fn render_py_list(
    items: Seq<Term<PyVal, crate::types::TypeLattice>>,
    i: int,
) -> Seq<char>
    decreases items, i,
{
    if i <= 0 || i > items.len() {
        Seq::empty()
    } else if i == 1 {
        render_py(*items[0])
    } else {
        render_py_list(items, i - 1) + (", ")@ + render_py(*items[i - 1])
    }
}

pub open spec fn render_py_func(f: Func) -> Seq<char> {
    match f {
        Func::Loc => ("loc()")@,
    }
}

pub open spec fn render_pyval(v: PyVal) -> Seq<char> {
    match v {
        PyVal::Int(l) => l.render_spec(),
    }
}

impl Expr<PyVal, crate::types::TypeLattice> {
    /// Renders the expression as source text of the host scripting language.
    #[verifier::loop_isolation(false)]
    pub fn to_text(&self) -> (r: String)
        ensures
            r@ == render_py(*self),
        decreases *self,
    {
        match self {
            Expr::Const(v) => match v {
                PyVal::Int(l) => l.render(),
            },
            Expr::Var(x) => x.clone(),
            Expr::GetItem(a, b) => {
                let mut s = rc_get(a).to_text();
                s.append("[");
                s.append(rc_get(b).to_text().as_str());
                s.append("]");
                s
            },
            Expr::List(items) => {
                let n = items.len();
                let mut s = "[".to_owned();
                let mut i: usize = 0;
                while i < n
                    invariant
                        n == items@.len(),
                        0 <= i <= n,
                        s@ == ("[")@ + render_py_list(items@, i as int),
                    decreases n - i,
                {
                    proof {
                        assert(decreases_to!(*self => *items));
                        assert(decreases_to!(*items => items@[i as int]));
                    }
                    if i > 0 {
                        s.append(", ");
                    }
                    s.append(rc_get(&items[i]).to_text().as_str());
                    i += 1;
                }
                s.append("]");
                s
            },
            Expr::Call(recv, f) => {
                let ft: String = match f {
                    Func::Loc => "loc()".to_owned(),
                };
                match recv {
                    Some(r) => {
                        let mut s = rc_get(r).to_text();
                        s.append(".");
                        s.append(ft.as_str());
                        s
                    },
                    None => ft,
                }
            },
            Expr::Hole(_, _) => "?".to_owned(),
        }
    }
}

} // verus!
