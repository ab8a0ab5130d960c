use crate::concrete::{
    res_view, spec_contains, spec_index_of, spec_num_add, spec_num_sub, spec_prefix_of,
    spec_str_append, spec_str_at, spec_str_len, spec_str_replace, spec_str_substr, spec_suffix_of,
    spec_to_int, spec_to_str, str_append, str_at, str_contains, str_index_of, str_len,
    str_prefix_of, str_replace, str_substr, str_suffix_of, to_int, to_str, num_add, num_sub,
    EvalError, StrVal, ValV,
};
use crate::environment::{env_lookup, Environment};
use crate::strlenlat::StrLenLat;
use crate::syguslang::{rc_get, Expr, Func};
use vstd::prelude::*;

verus! {

/// The outcome of running a candidate on an environment.
pub type EvalResult<T> = Result<T, EvalError>;

/// The meaning of a concrete program: constants denote themselves, variables
/// what the environment binds, a call the operation applied to its evaluated
/// arguments, a conditional its chosen branch, and any remaining hole a
/// failed run.  Argument errors surface left to right.
pub open spec fn spec_eval(e: Expr<StrVal, StrLenLat>, env: Seq<(String, StrVal)>) -> Result<
    ValV,
    EvalError,
>
    decreases e,
{
    match e {
        Expr::Const(v) => Ok(v@),
        Expr::Var(x) => match env_lookup(env, x@) {
            Some(v) => Ok(v@),
            None => Err(EvalError::UnboundVariable),
        },
        Expr::Call(f) => spec_eval_func(f, env),
        Expr::If(c, t, o) => match spec_eval(*c, env) {
            Ok(ValV::Bool(b)) => if b {
                spec_eval(*t, env)
            } else {
                spec_eval(*o, env)
            },
            Ok(_) => Err(EvalError::TypeMismatch),
            Err(k) => Err(k),
        },
        Expr::Hole(_, _) => Err(EvalError::UnresolvedHole),
        Expr::ConcHole(_) => Err(EvalError::UnresolvedHole),
        Expr::DepHole => Err(EvalError::UnresolvedHole),
    }
}

pub open spec fn spec_eval_func(f: Func<StrVal, StrLenLat>, env: Seq<(String, StrVal)>) -> Result<
    ValV,
    EvalError,
>
    decreases f,
{
    match f {
        Func::Append(a, b) => match (spec_eval(*a, env), spec_eval(*b, env)) {
            (Err(k), _) => Err(k),
            (Ok(_), Err(k)) => Err(k),
            (Ok(v1), Ok(v2)) => spec_str_append(v1, v2),
        },
        Func::Replace(a, b, c) => match (spec_eval(*a, env), spec_eval(*b, env), spec_eval(*c, env)) {
            (Err(k), _, _) => Err(k),
            (Ok(_), Err(k), _) => Err(k),
            (Ok(_), Ok(_), Err(k)) => Err(k),
            (Ok(v1), Ok(v2), Ok(v3)) => spec_str_replace(v1, v2, v3),
        },
        Func::Substr(a, b, c) => match (spec_eval(*a, env), spec_eval(*b, env), spec_eval(*c, env)) {
            (Err(k), _, _) => Err(k),
            (Ok(_), Err(k), _) => Err(k),
            (Ok(_), Ok(_), Err(k)) => Err(k),
            (Ok(v1), Ok(v2), Ok(v3)) => spec_str_substr(v1, v2, v3),
        },
        Func::Add(a, b) => match (spec_eval(*a, env), spec_eval(*b, env)) {
            (Err(k), _) => Err(k),
            (Ok(_), Err(k)) => Err(k),
            (Ok(v1), Ok(v2)) => spec_num_add(v1, v2),
        },
        Func::Sub(a, b) => match (spec_eval(*a, env), spec_eval(*b, env)) {
            (Err(k), _) => Err(k),
            (Ok(_), Err(k)) => Err(k),
            (Ok(v1), Ok(v2)) => spec_num_sub(v1, v2),
        },
        Func::Len(a) => match spec_eval(*a, env) {
            Err(k) => Err(k),
            Ok(v1) => spec_str_len(v1),
        },
        Func::At(a, b) => match (spec_eval(*a, env), spec_eval(*b, env)) {
            (Err(k), _) => Err(k),
            (Ok(_), Err(k)) => Err(k),
            (Ok(v1), Ok(v2)) => spec_str_at(v1, v2),
        },
        Func::ToStr(a) => match spec_eval(*a, env) {
            Err(k) => Err(k),
            Ok(v1) => spec_to_str(v1),
        },
        Func::ToInt(a) => match spec_eval(*a, env) {
            Err(k) => Err(k),
            Ok(v1) => spec_to_int(v1),
        },
        Func::IndexOf(a, b, c) => match (spec_eval(*a, env), spec_eval(*b, env), spec_eval(*c, env)) {
            (Err(k), _, _) => Err(k),
            (Ok(_), Err(k), _) => Err(k),
            (Ok(_), Ok(_), Err(k)) => Err(k),
            (Ok(v1), Ok(v2), Ok(v3)) => spec_index_of(v1, v2, v3),
        },
        Func::PrefixOf(a, b) => match (spec_eval(*a, env), spec_eval(*b, env)) {
            (Err(k), _) => Err(k),
            (Ok(_), Err(k)) => Err(k),
            (Ok(v1), Ok(v2)) => spec_prefix_of(v1, v2),
        },
        Func::SuffixOf(a, b) => match (spec_eval(*a, env), spec_eval(*b, env)) {
            (Err(k), _) => Err(k),
            (Ok(_), Err(k)) => Err(k),
            (Ok(v1), Ok(v2)) => spec_suffix_of(v1, v2),
        },
        Func::Contains(a, b) => match (spec_eval(*a, env), spec_eval(*b, env)) {
            (Err(k), _) => Err(k),
            (Ok(_), Err(k)) => Err(k),
            (Ok(v1), Ok(v2)) => spec_contains(v1, v2),
        },
    }
}

/// Runs a concrete program on an environment.
pub fn interp(e: &Expr<StrVal, StrLenLat>, env: &Environment<StrVal>) -> (r: EvalResult<StrVal>)
    ensures
        res_view(r) == spec_eval(*e, env@),
    decreases *e, 0int,
{
    match e {
        Expr::Const(v) => Ok(v.clone()),
        Expr::Var(x) => match env.get(x.clone()) {
            Some(v) => Ok(v.clone()),
            None => Err(EvalError::UnboundVariable),
        },
        Expr::Call(f) => interp_func(f, env),
        Expr::If(c, t, o) => match interp(rc_get(c), env) {
            Ok(StrVal::Bool(b)) => if b {
                interp(rc_get(t), env)
            } else {
                interp(rc_get(o), env)
            },
            Ok(_) => Err(EvalError::TypeMismatch),
            Err(k) => Err(k),
        },
        Expr::Hole(_, _) => Err(EvalError::UnresolvedHole),
        Expr::ConcHole(_) => Err(EvalError::UnresolvedHole),
        Expr::DepHole => Err(EvalError::UnresolvedHole),
    }
}

fn interp_func(f: &Func<StrVal, StrLenLat>, env: &Environment<StrVal>) -> (r: EvalResult<StrVal>)
    ensures
        res_view(r) == spec_eval_func(*f, env@),
    decreases *f, 2int,
{
    match f {
        Func::Append(_, _) => interp_func_core(f, env),
        Func::Replace(_, _, _) => interp_func_core(f, env),
        Func::Substr(_, _, _) => interp_func_core(f, env),
        Func::Add(_, _) => interp_func_core(f, env),
        Func::Sub(_, _) => interp_func_core(f, env),
        Func::Len(_) => interp_func_unary(f, env),
        Func::At(_, _) => interp_func_unary(f, env),
        Func::ToStr(_) => interp_func_unary(f, env),
        Func::ToInt(_) => interp_func_unary(f, env),
        Func::IndexOf(_, _, _) => interp_func_text(f, env),
        Func::PrefixOf(_, _) => interp_func_text(f, env),
        Func::SuffixOf(_, _) => interp_func_text(f, env),
        Func::Contains(_, _) => interp_func_text(f, env),
    }
}

fn interp_func_core(f: &Func<StrVal, StrLenLat>, env: &Environment<StrVal>) -> (r: EvalResult<
    StrVal,
>)
    requires
        f matches Func::Append(..) || f matches Func::Replace(..) || f matches Func::Substr(..)
            || f matches Func::Add(..) || f matches Func::Sub(..),
    ensures
        res_view(r) == spec_eval_func(*f, env@),
    decreases *f, 1int,
{
    match f {
        Func::Append(a, b) => {
            let v1 = match interp(rc_get(a), env) {
                Ok(v) => v,
                Err(k) => {
                    return Err(k);
                },
            };
            let v2 = match interp(rc_get(b), env) {
                Ok(v) => v,
                Err(k) => {
                    return Err(k);
                },
            };
            str_append(v1, v2)
        },
        Func::Replace(a, b, c) => {
            let v1 = match interp(rc_get(a), env) {
                Ok(v) => v,
                Err(k) => {
                    return Err(k);
                },
            };
            let v2 = match interp(rc_get(b), env) {
                Ok(v) => v,
                Err(k) => {
                    return Err(k);
                },
            };
            let v3 = match interp(rc_get(c), env) {
                Ok(v) => v,
                Err(k) => {
                    return Err(k);
                },
            };
            str_replace(v1, v2, v3)
        },
        Func::Substr(a, b, c) => {
            let v1 = match interp(rc_get(a), env) {
                Ok(v) => v,
                Err(k) => {
                    return Err(k);
                },
            };
            let v2 = match interp(rc_get(b), env) {
                Ok(v) => v,
                Err(k) => {
                    return Err(k);
                },
            };
            let v3 = match interp(rc_get(c), env) {
                Ok(v) => v,
                Err(k) => {
                    return Err(k);
                },
            };
            str_substr(v1, v2, v3)
        },
        Func::Add(a, b) => {
            let v1 = match interp(rc_get(a), env) {
                Ok(v) => v,
                Err(k) => {
                    return Err(k);
                },
            };
            let v2 = match interp(rc_get(b), env) {
                Ok(v) => v,
                Err(k) => {
                    return Err(k);
                },
            };
            num_add(v1, v2)
        },
        Func::Sub(a, b) => {
            let v1 = match interp(rc_get(a), env) {
                Ok(v) => v,
                Err(k) => {
                    return Err(k);
                },
            };
            let v2 = match interp(rc_get(b), env) {
                Ok(v) => v,
                Err(k) => {
                    return Err(k);
                },
            };
            num_sub(v1, v2)
        },
        _ => {
            proof {
                assert(false);
            }
            Err(EvalError::TypeMismatch)
        },
    }
}

fn interp_func_unary(f: &Func<StrVal, StrLenLat>, env: &Environment<StrVal>) -> (r: EvalResult<
    StrVal,
>)
    requires
        f matches Func::Len(..) || f matches Func::At(..) || f matches Func::ToStr(..)
            || f matches Func::ToInt(..),
    ensures
        res_view(r) == spec_eval_func(*f, env@),
    decreases *f, 1int,
{
    match f {
        Func::Len(a) => {
            let v1 = match interp(rc_get(a), env) {
                Ok(v) => v,
                Err(k) => {
                    return Err(k);
                },
            };
            str_len(v1)
        },
        Func::At(a, b) => {
            let v1 = match interp(rc_get(a), env) {
                Ok(v) => v,
                Err(k) => {
                    return Err(k);
                },
            };
            let v2 = match interp(rc_get(b), env) {
                Ok(v) => v,
                Err(k) => {
                    return Err(k);
                },
            };
            str_at(v1, v2)
        },
        Func::ToStr(a) => {
            let v1 = match interp(rc_get(a), env) {
                Ok(v) => v,
                Err(k) => {
                    return Err(k);
                },
            };
            to_str(v1)
        },
        Func::ToInt(a) => {
            let v1 = match interp(rc_get(a), env) {
                Ok(v) => v,
                Err(k) => {
                    return Err(k);
                },
            };
            to_int(v1)
        },
        _ => {
            proof {
                assert(false);
            }
            Err(EvalError::TypeMismatch)
        },
    }
}

fn interp_func_text(f: &Func<StrVal, StrLenLat>, env: &Environment<StrVal>) -> (r: EvalResult<
    StrVal,
>)
    requires
        f matches Func::IndexOf(..) || f matches Func::PrefixOf(..) || f matches Func::SuffixOf(
            ..,
        ) || f matches Func::Contains(..),
    ensures
        res_view(r) == spec_eval_func(*f, env@),
    decreases *f, 1int,
{
    match f {
        Func::IndexOf(a, b, c) => {
            let v1 = match interp(rc_get(a), env) {
                Ok(v) => v,
                Err(k) => {
                    return Err(k);
                },
            };
            let v2 = match interp(rc_get(b), env) {
                Ok(v) => v,
                Err(k) => {
                    return Err(k);
                },
            };
            let v3 = match interp(rc_get(c), env) {
                Ok(v) => v,
                Err(k) => {
                    return Err(k);
                },
            };
            str_index_of(v1, v2, v3)
        },
        Func::PrefixOf(a, b) => {
            let v1 = match interp(rc_get(a), env) {
                Ok(v) => v,
                Err(k) => {
                    return Err(k);
                },
            };
            let v2 = match interp(rc_get(b), env) {
                Ok(v) => v,
                Err(k) => {
                    return Err(k);
                },
            };
            str_prefix_of(v1, v2)
        },
        Func::SuffixOf(a, b) => {
            let v1 = match interp(rc_get(a), env) {
                Ok(v) => v,
                Err(k) => {
                    return Err(k);
                },
            };
            let v2 = match interp(rc_get(b), env) {
                Ok(v) => v,
                Err(k) => {
                    return Err(k);
                },
            };
            str_suffix_of(v1, v2)
        },
        Func::Contains(a, b) => {
            let v1 = match interp(rc_get(a), env) {
                Ok(v) => v,
                Err(k) => {
                    return Err(k);
                },
            };
            let v2 = match interp(rc_get(b), env) {
                Ok(v) => v,
                Err(k) => {
                    return Err(k);
                },
            };
            str_contains(v1, v2)
        },
        _ => {
            proof {
                assert(false);
            }
            Err(EvalError::TypeMismatch)
        },
    }
}

} // verus!
