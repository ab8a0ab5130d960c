use crate::abstraction::StrValAbs;
use crate::concrete::{dec_nat, StrVal};
use crate::strlenlat::StrLenLat;
use crate::syguslang::{rc_get, Expr, Func};
use crate::values::MixedValue;
use vstd::prelude::*;
use vstd::string::*;

verus! {

// ---------------------------------------------------------------------------
// The rendered form of values and programs: fully parenthesised
// S-expressions, string constants quoted.
// ---------------------------------------------------------------------------

pub open spec fn render_sval(v: StrVal) -> Seq<char> {
    match v {
        StrVal::Str(s) => ("\"")@ + s@ + ("\"")@,
        StrVal::Int(l) => l.render_spec(),
        StrVal::Bool(b) => if b {
            ("true")@
        } else {
            ("false")@
        },
        StrVal::Error => ("error")@,
    }
}

pub open spec fn render_lat(l: StrLenLat) -> Seq<char> {
    match l {
        StrLenLat::Top => ("top")@,
        StrLenLat::Len(x) => x.render_spec(),
        StrLenLat::Bot => ("bot")@,
    }
}

pub open spec fn render_mixed(v: StrValAbs) -> Seq<char> {
    match v {
        MixedValue::Conc(c) => render_sval(c),
        MixedValue::Abs(l) => render_lat(l),
    }
}

pub open spec fn render_expr(e: Expr<StrValAbs, StrLenLat>) -> Seq<char>
    decreases e,
{
    match e {
        Expr::Const(v) => render_mixed(v),
        Expr::Var(x) => x@,
        Expr::Call(f) => render_func(f),
        Expr::If(c, t, o) => ("(if ")@ + render_expr(*c) + (" ")@ + render_expr(*t) + (" ")@
            + render_expr(*o) + (")")@,
        Expr::Hole(l, _) => ("(? ")@ + render_lat(l) + (")")@,
        Expr::ConcHole(n) => ("(?")@ + dec_nat(n as nat) + (")")@,
        Expr::DepHole => ("?")@,
    }
}

pub open spec fn render_func(f: Func<StrValAbs, StrLenLat>) -> Seq<char>
    decreases f,
{
    match f {
        Func::Append(a, b) => ("(append ")@ + render_expr(*a) + (" ")@ + render_expr(*b) + (")")@,
        Func::Replace(a, b, c) => ("(replace ")@ + render_expr(*a) + (" ")@ + render_expr(*b) + (
        " ")@ + render_expr(*c) + (")")@,
        Func::Substr(a, b, c) => ("(substr ")@ + render_expr(*a) + (" ")@ + render_expr(*b) + (
        " ")@ + render_expr(*c) + (")")@,
        Func::Add(a, b) => ("(+ ")@ + render_expr(*a) + (" ")@ + render_expr(*b) + (")")@,
        Func::Sub(a, b) => ("(- ")@ + render_expr(*a) + (" ")@ + render_expr(*b) + (")")@,
        Func::Len(a) => ("(len ")@ + render_expr(*a) + (")")@,
        Func::At(a, b) => ("(at ")@ + render_expr(*a) + (" ")@ + render_expr(*b) + (")")@,
        Func::ToStr(a) => ("(to-str ")@ + render_expr(*a) + (")")@,
        Func::ToInt(a) => ("(to-int ")@ + render_expr(*a) + (")")@,
        Func::IndexOf(a, b, c) => ("(indexof ")@ + render_expr(*a) + (" ")@ + render_expr(*b) + (
        " ")@ + render_expr(*c) + (")")@,
        Func::PrefixOf(a, b) => ("(prefixof ")@ + render_expr(*a) + (" ")@ + render_expr(*b) + (
        ")")@,
        Func::SuffixOf(a, b) => ("(suffixof ")@ + render_expr(*a) + (" ")@ + render_expr(*b) + (
        ")")@,
        Func::Contains(a, b) => ("(contains ")@ + render_expr(*a) + (" ")@ + render_expr(*b) + (
        ")")@,
    }
}

impl Expr<StrValAbs, StrLenLat> {
    /// Renders the program as a fully parenthesised S-expression.
    pub fn to_text(&self) -> (r: String)
        ensures
            r@ == render_expr(*self),
        decreases *self, 1int,
    {
        match self {
            Expr::Const(v) => render_mixed_exec(v),
            Expr::Var(x) => x.clone(),
            Expr::Call(f) => f.to_text(),
            Expr::If(c, t, o) => {
                let mut s = "(if ".to_owned();
                s.append(rc_get(c).to_text().as_str());
                s.append(" ");
                s.append(rc_get(t).to_text().as_str());
                s.append(" ");
                s.append(rc_get(o).to_text().as_str());
                s.append(")");
                s
            },
            Expr::Hole(l, _) => {
                let mut s = "(? ".to_owned();
                s.append(render_lat_exec(l).as_str());
                s.append(")");
                s
            },
            Expr::ConcHole(n) => {
                let mut s = "(?".to_owned();
                s.append(crate::concrete::nat_to_string(*n as u64).as_str());
                s.append(")");
                s
            },
            Expr::DepHole => "?".to_owned(),
        }
    }
}

impl Func<StrValAbs, StrLenLat> {
    /// Renders the call as a fully parenthesised S-expression.
    pub fn to_text(&self) -> (r: String)
        ensures
            r@ == render_func(*self),
        decreases *self, 0int,
    {
        match self {
            Func::Append(a, b) => {
                let mut s = "(append ".to_owned();
                s.append(rc_get(a).to_text().as_str());
                s.append(" ");
                s.append(rc_get(b).to_text().as_str());
                s.append(")");
                s
            },
            Func::Replace(a, b, c) => {
                let mut s = "(replace ".to_owned();
                s.append(rc_get(a).to_text().as_str());
                s.append(" ");
                s.append(rc_get(b).to_text().as_str());
                s.append(" ");
                s.append(rc_get(c).to_text().as_str());
                s.append(")");
                s
            },
            Func::Substr(a, b, c) => {
                let mut s = "(substr ".to_owned();
                s.append(rc_get(a).to_text().as_str());
                s.append(" ");
                s.append(rc_get(b).to_text().as_str());
                s.append(" ");
                s.append(rc_get(c).to_text().as_str());
                s.append(")");
                s
            },
            Func::Add(a, b) => {
                let mut s = "(+ ".to_owned();
                s.append(rc_get(a).to_text().as_str());
                s.append(" ");
                s.append(rc_get(b).to_text().as_str());
                s.append(")");
                s
            },
            Func::Sub(a, b) => {
                let mut s = "(- ".to_owned();
                s.append(rc_get(a).to_text().as_str());
                s.append(" ");
                s.append(rc_get(b).to_text().as_str());
                s.append(")");
                s
            },
            Func::Len(a) => {
                let mut s = "(len ".to_owned();
                s.append(rc_get(a).to_text().as_str());
                s.append(")");
                s
            },
            Func::At(a, b) => {
                let mut s = "(at ".to_owned();
                s.append(rc_get(a).to_text().as_str());
                s.append(" ");
                s.append(rc_get(b).to_text().as_str());
                s.append(")");
                s
            },
            Func::ToStr(a) => {
                let mut s = "(to-str ".to_owned();
                s.append(rc_get(a).to_text().as_str());
                s.append(")");
                s
            },
            Func::ToInt(a) => {
                let mut s = "(to-int ".to_owned();
                s.append(rc_get(a).to_text().as_str());
                s.append(")");
                s
            },
            Func::IndexOf(a, b, c) => {
                let mut s = "(indexof ".to_owned();
                s.append(rc_get(a).to_text().as_str());
                s.append(" ");
                s.append(rc_get(b).to_text().as_str());
                s.append(" ");
                s.append(rc_get(c).to_text().as_str());
                s.append(")");
                s
            },
            Func::PrefixOf(a, b) => {
                let mut s = "(prefixof ".to_owned();
                s.append(rc_get(a).to_text().as_str());
                s.append(" ");
                s.append(rc_get(b).to_text().as_str());
                s.append(")");
                s
            },
            Func::SuffixOf(a, b) => {
                let mut s = "(suffixof ".to_owned();
                s.append(rc_get(a).to_text().as_str());
                s.append(" ");
                s.append(rc_get(b).to_text().as_str());
                s.append(")");
                s
            },
            Func::Contains(a, b) => {
                let mut s = "(contains ".to_owned();
                s.append(rc_get(a).to_text().as_str());
                s.append(" ");
                s.append(rc_get(b).to_text().as_str());
                s.append(")");
                s
            },
        }
    }
}

/// Renders a concrete value.
pub fn render_sval_exec(v: &StrVal) -> (r: String)
    ensures
        r@ == render_sval(*v),
{
    match v {
        StrVal::Str(s) => {
            let mut out = "\"".to_owned();
            out.append(s.as_str());
            out.append("\"");
            out
        },
        StrVal::Int(l) => l.render(),
        StrVal::Bool(b) => if *b {
            "true".to_owned()
        } else {
            "false".to_owned()
        },
        StrVal::Error => "error".to_owned(),
    }
}

/// Renders a lattice element.
pub fn render_lat_exec(l: &StrLenLat) -> (r: String)
    ensures
        r@ == render_lat(*l),
{
    match l {
        StrLenLat::Top => "top".to_owned(),
        StrLenLat::Len(x) => x.render(),
        StrLenLat::Bot => "bot".to_owned(),
    }
}

/// Renders a search value.
pub fn render_mixed_exec(v: &StrValAbs) -> (r: String)
    ensures
        r@ == render_mixed(*v),
{
    match v {
        MixedValue::Conc(c) => render_sval_exec(c),
        MixedValue::Abs(l) => render_lat_exec(l),
    }
}

} // verus!
