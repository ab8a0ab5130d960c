use crate::concrete::{
    spec_num_add, spec_num_sub, spec_str_append, spec_str_at, spec_str_len, spec_str_replace,
    spec_str_substr, spec_to_int, spec_to_str, spec_contains, spec_index_of, spec_prefix_of,
    spec_suffix_of, EvalError, StrVal, ValV,
};
use crate::environment::{env_lookup, Environment};
use crate::interpreter::{spec_eval, spec_eval_func, EvalResult};
use crate::linear::{lin_v_const, lin_v_fits, lin_v_is_const, lin_v_sub, LinearExpr};
use crate::strlenlat::{lat_v_add, lat_v_cmp, lat_v_le, lat_v_sub, lemma_strlen_cmp_le, LatV, StrLenLat};
use crate::syguslang::{rc_get, Expr, Func, Term};
use crate::values::MixedValue;
use core::cmp::Ordering;
use vstd::prelude::*;

verus! {

/// A search value: either a concrete value or a length-lattice element.
pub type StrValAbs = MixedValue<StrVal, StrLenLat>;

/// Ghost form of a search value.
#[verifier::ext_equal]
pub ghost enum MixV {
    Conc(ValV),
    Abs(LatV),
}

impl View for MixedValue<StrVal, StrLenLat> {
    type V = MixV;

    open spec fn view(&self) -> MixV {
        match self {
            MixedValue::Conc(v) => MixV::Conc(v@),
            MixedValue::Abs(l) => MixV::Abs(l@),
        }
    }
}

impl Clone for MixedValue<StrVal, StrLenLat> {
    /// Cloning keeps the value: the copy has the same ghost form.
    fn clone(&self) -> (r: Self)
        ensures
            r@ == self@,
    {
        match self {
            MixedValue::Conc(v) => MixedValue::Conc(v.clone()),
            MixedValue::Abs(l) => MixedValue::Abs(l.clone()),
        }
    }
}

/// The ghost form of an abstract evaluation outcome.
pub open spec fn mix_res_view(r: EvalResult<StrValAbs>) -> Result<MixV, EvalError> {
    match r {
        Ok(v) => Ok(v@),
        Err(e) => Err(e),
    }
}

pub open spec fn conc_res(r: Result<ValV, EvalError>) -> Result<MixV, EvalError> {
    match r {
        Ok(v) => Ok(MixV::Conc(v)),
        Err(e) => Err(e),
    }
}

// ---------------------------------------------------------------------------
// Abstraction
// ---------------------------------------------------------------------------

/// The abstraction of a string under the length lattice: its exact length,
/// widened to `Top` for a length beyond the machine range.
pub open spec fn alpha_str(s: Seq<char>) -> LatV {
    if s.len() <= i32::MAX {
        LatV::Len(lin_v_const(s.len() as int))
    } else {
        LatV::Top
    }
}

/// The abstraction a value admits under the length lattice, when it admits
/// one: only strings have a length.
pub open spec fn try_alpha_v(v: ValV) -> Option<LatV> {
    match v {
        ValV::Str(s) => Some(alpha_str(s)),
        _ => None,
    }
}

/// The total abstraction: a value with no length maps to `Bot`.
pub open spec fn alpha_v(v: ValV) -> LatV {
    match v {
        ValV::Str(s) => alpha_str(s),
        _ => LatV::Bot,
    }
}

/// The lattice element a search value stands for: an abstract value is its
/// own element, a concrete string its abstraction, anything else nothing.
pub open spec fn lift_v(m: MixV) -> Option<LatV> {
    match m {
        MixV::Abs(l) => Some(l),
        MixV::Conc(v) => try_alpha_v(v),
    }
}

/// The abstraction a concrete value admits, when it admits one.
pub fn try_abstract(v: &StrVal) -> (r: Option<StrLenLat>)
    ensures
        match r {
            Some(l) => try_alpha_v(v@) == Some(l@),
            None => try_alpha_v(v@) is None,
        },
{
    match v {
        StrVal::Str(s) => {
            let n = s.as_str().unicode_len();
            if n <= 2147483647 {
                Some(StrLenLat::Len(LinearExpr::from_const(n as i32)))
            } else {
                Some(StrLenLat::Top)
            }
        },
        _ => None,
    }
}

/// The total abstraction of a concrete value.
pub fn abstraction(v: &StrVal) -> (r: StrLenLat)
    ensures
        r@ == alpha_v(v@),
{
    match try_abstract(v) {
        Some(l) => l,
        None => StrLenLat::Bot,
    }
}

fn lift(m: StrValAbs) -> (r: Option<StrLenLat>)
    ensures
        match r {
            Some(l) => lift_v(m@) == Some(l@),
            None => lift_v(m@) is None,
        },
{
    match m {
        MixedValue::Abs(l) => Some(l),
        MixedValue::Conc(v) => try_abstract(&v),
    }
}

// ---------------------------------------------------------------------------
// Mixed ordering
// ---------------------------------------------------------------------------

/// The order on search values: two concrete values are incomparable, a
/// concrete value compares with a lattice element through its abstraction
/// when it has one, and lattice elements compare in the lattice.
pub open spec fn mix_cmp_v(a: MixV, b: MixV) -> Option<Ordering> {
    match (a, b) {
        (MixV::Conc(_), MixV::Conc(_)) => None,
        (MixV::Conc(x), MixV::Abs(l)) => match try_alpha_v(x) {
            Some(lx) => lat_v_cmp(lx, l),
            None => None,
        },
        (MixV::Abs(l), MixV::Conc(x)) => match try_alpha_v(x) {
            Some(lx) => lat_v_cmp(l, lx),
            None => None,
        },
        (MixV::Abs(l1), MixV::Abs(l2)) => lat_v_cmp(l1, l2),
    }
}

/// Whether `a` is below `b` in the mixed order.
pub open spec fn mix_le_v(a: MixV, b: MixV) -> bool {
    mix_cmp_v(a, b) == Some(Ordering::Less) || mix_cmp_v(a, b) == Some(Ordering::Equal)
}

/// The order on search values, executable form.
pub fn mixed_partial_cmp(a: &StrValAbs, b: &StrValAbs) -> (r: Option<Ordering>)
    ensures
        r == mix_cmp_v(a@, b@),
{
    match (a, b) {
        (MixedValue::Conc(_), MixedValue::Conc(_)) => None,
        (MixedValue::Conc(x), MixedValue::Abs(l)) => match try_abstract(x) {
            Some(lx) => lx.partial_cmp(l),
            None => None,
        },
        (MixedValue::Abs(l), MixedValue::Conc(x)) => match try_abstract(x) {
            Some(lx) => l.partial_cmp(&lx),
            None => None,
        },
        (MixedValue::Abs(l1), MixedValue::Abs(l2)) => l1.partial_cmp(l2),
    }
}

/// Whether `a` is below `b` in the mixed order, executable form.
pub fn mixed_le(a: &StrValAbs, b: &StrValAbs) -> (r: bool)
    ensures
        r == mix_le_v(a@, b@),
{
    match mixed_partial_cmp(a, b) {
        Some(Ordering::Less) => true,
        Some(Ordering::Equal) => true,
        _ => false,
    }
}

// ---------------------------------------------------------------------------
// Abstract operation semantics
// ---------------------------------------------------------------------------

/// Abstract append: concrete on concrete operands, and the lattice sum of
/// the operands' abstractions otherwise.
pub open spec fn spec_abs_append(a: MixV, b: MixV) -> Result<MixV, EvalError> {
    match (a, b) {
        (MixV::Conc(x), MixV::Conc(y)) => conc_res(spec_str_append(x, y)),
        _ => match (lift_v(a), lift_v(b)) {
            (Some(l1), Some(l2)) => Ok(MixV::Abs(lat_v_add(l1, l2))),
            _ => Err(EvalError::TypeMismatch),
        },
    }
}

/// Abstract replace: concrete on concrete operands; otherwise nothing is
/// known of the result length, deliberately the least precise operation.
pub open spec fn spec_abs_replace(a: MixV, b: MixV, c: MixV) -> Result<MixV, EvalError> {
    match (a, b, c) {
        (MixV::Conc(x), MixV::Conc(y), MixV::Conc(z)) => conc_res(spec_str_replace(x, y, z)),
        _ => match (lift_v(a), lift_v(b), lift_v(c)) {
            (Some(_), Some(_), Some(_)) => Ok(MixV::Abs(LatV::Top)),
            _ => Err(EvalError::TypeMismatch),
        },
    }
}

/// Abstract substring: concrete on concrete operands.  On an abstract
/// receiver with integer bounds the result length is `end - start`; bounds
/// are checked only as far as they and the receiver length are plain
/// constants, the rest is taken on the caller's word.
pub open spec fn spec_abs_substr(a: MixV, b: MixV, c: MixV) -> Result<MixV, EvalError> {
    match (a, b, c) {
        (MixV::Conc(x), MixV::Conc(y), MixV::Conc(z)) => conc_res(spec_str_substr(x, y, z)),
        _ => match (b, c) {
            (MixV::Conc(ValV::Int(i)), MixV::Conc(ValV::Int(j))) => match lift_v(a) {
                Some(LatV::Top) => Ok(MixV::Abs(LatV::Top)),
                Some(LatV::Bot) => Ok(MixV::Abs(LatV::Bot)),
                Some(LatV::Len(l)) => if lin_v_is_const(i) && i.c < 0 {
                    Err(EvalError::InvalidIndex)
                } else if lin_v_is_const(i) && lin_v_is_const(j) && j.c < i.c {
                    Err(EvalError::InvalidIndex)
                } else if lin_v_is_const(l) && lin_v_is_const(j) && j.c > l.c {
                    Err(EvalError::InvalidIndex)
                } else if lin_v_is_const(l) && lin_v_is_const(i) && i.c > l.c {
                    Err(EvalError::InvalidIndex)
                } else {
                    Ok(
                        MixV::Abs(
                            if lin_v_fits(lin_v_sub(j, i)) {
                                LatV::Len(lin_v_sub(j, i))
                            } else {
                                LatV::Top
                            },
                        ),
                    )
                },
                None => Err(EvalError::TypeMismatch),
            },
            _ => Err(EvalError::TypeMismatch),
        },
    }
}

/// Abstract addition: integers never carry a length, so only concrete
/// operands make sense.
pub open spec fn spec_abs_add(a: MixV, b: MixV) -> Result<MixV, EvalError> {
    match (a, b) {
        (MixV::Conc(x), MixV::Conc(y)) => conc_res(spec_num_add(x, y)),
        _ => Err(EvalError::TypeMismatch),
    }
}

/// Abstract subtraction, as `spec_abs_add`.
pub open spec fn spec_abs_sub(a: MixV, b: MixV) -> Result<MixV, EvalError> {
    match (a, b) {
        (MixV::Conc(x), MixV::Conc(y)) => conc_res(spec_num_sub(x, y)),
        _ => Err(EvalError::TypeMismatch),
    }
}

/// Abstract length: a known length `Len(l)` turns into the concrete integer
/// `l`, symbolic or not, which is what lets the search reason about
/// `len(arg)` before `arg` is known.  `Top` and `Bot` carry no length to
/// hand out.
pub open spec fn spec_abs_len(a: MixV) -> Result<MixV, EvalError> {
    match a {
        MixV::Conc(x) => conc_res(spec_str_len(x)),
        MixV::Abs(LatV::Len(l)) => Ok(MixV::Conc(ValV::Int(l))),
        MixV::Abs(_) => Err(EvalError::TypeMismatch),
    }
}

/// The remaining operations are not characterised in the length domain: on
/// any abstract operand they answer `Top`, which over-approximates every
/// outcome.
pub open spec fn spec_abs_at(a: MixV, b: MixV) -> Result<MixV, EvalError> {
    match (a, b) {
        (MixV::Conc(x), MixV::Conc(y)) => conc_res(spec_str_at(x, y)),
        _ => Ok(MixV::Abs(LatV::Top)),
    }
}

pub open spec fn spec_abs_to_str(a: MixV) -> Result<MixV, EvalError> {
    match a {
        MixV::Conc(x) => conc_res(spec_to_str(x)),
        _ => Ok(MixV::Abs(LatV::Top)),
    }
}

pub open spec fn spec_abs_to_int(a: MixV) -> Result<MixV, EvalError> {
    match a {
        MixV::Conc(x) => conc_res(spec_to_int(x)),
        _ => Ok(MixV::Abs(LatV::Top)),
    }
}

pub open spec fn spec_abs_index_of(a: MixV, b: MixV, c: MixV) -> Result<MixV, EvalError> {
    match (a, b, c) {
        (MixV::Conc(x), MixV::Conc(y), MixV::Conc(z)) => conc_res(spec_index_of(x, y, z)),
        _ => Ok(MixV::Abs(LatV::Top)),
    }
}

pub open spec fn spec_abs_prefix_of(a: MixV, b: MixV) -> Result<MixV, EvalError> {
    match (a, b) {
        (MixV::Conc(x), MixV::Conc(y)) => conc_res(spec_prefix_of(x, y)),
        _ => Ok(MixV::Abs(LatV::Top)),
    }
}

pub open spec fn spec_abs_suffix_of(a: MixV, b: MixV) -> Result<MixV, EvalError> {
    match (a, b) {
        (MixV::Conc(x), MixV::Conc(y)) => conc_res(spec_suffix_of(x, y)),
        _ => Ok(MixV::Abs(LatV::Top)),
    }
}

pub open spec fn spec_abs_contains(a: MixV, b: MixV) -> Result<MixV, EvalError> {
    match (a, b) {
        (MixV::Conc(x), MixV::Conc(y)) => conc_res(spec_contains(x, y)),
        _ => Ok(MixV::Abs(LatV::Top)),
    }
}

// ---------------------------------------------------------------------------
// Abstract evaluation
// ---------------------------------------------------------------------------

/// The abstract meaning of a partial program: as the concrete meaning, but
/// over search values; an open hole denotes its own target element, and a
/// conditional on an abstract condition denotes `Top`.
pub open spec fn spec_abs_eval(
    e: Expr<StrValAbs, StrLenLat>,
    env: Seq<(String, StrValAbs)>,
) -> Result<MixV, EvalError>
    decreases e,
{
    match e {
        Expr::Const(v) => Ok(v@),
        Expr::Var(x) => match env_lookup(env, x@) {
            Some(v) => Ok(v@),
            None => Err(EvalError::UnboundVariable),
        },
        Expr::Call(f) => spec_abs_eval_func(f, env),
        Expr::If(c, t, o) => match spec_abs_eval(*c, env) {
            Ok(MixV::Conc(ValV::Bool(b))) => if b {
                spec_abs_eval(*t, env)
            } else {
                spec_abs_eval(*o, env)
            },
            Ok(MixV::Conc(_)) => Err(EvalError::TypeMismatch),
            Ok(MixV::Abs(_)) => Ok(MixV::Abs(LatV::Top)),
            Err(k) => Err(k),
        },
        Expr::Hole(l, _) => Ok(MixV::Abs(l@)),
        Expr::ConcHole(_) => Err(EvalError::UnresolvedHole),
        Expr::DepHole => Err(EvalError::UnresolvedHole),
    }
}

pub open spec fn spec_abs_eval_func(
    f: Func<StrValAbs, StrLenLat>,
    env: Seq<(String, StrValAbs)>,
) -> Result<MixV, EvalError>
    decreases f,
{
    match f {
        Func::Append(a, b) => match (spec_abs_eval(*a, env), spec_abs_eval(*b, env)) {
            (Err(k), _) => Err(k),
            (Ok(_), Err(k)) => Err(k),
            (Ok(v1), Ok(v2)) => spec_abs_append(v1, v2),
        },
        Func::Replace(a, b, c) => match (
            spec_abs_eval(*a, env),
            spec_abs_eval(*b, env),
            spec_abs_eval(*c, env),
        ) {
            (Err(k), _, _) => Err(k),
            (Ok(_), Err(k), _) => Err(k),
            (Ok(_), Ok(_), Err(k)) => Err(k),
            (Ok(v1), Ok(v2), Ok(v3)) => spec_abs_replace(v1, v2, v3),
        },
        Func::Substr(a, b, c) => match (
            spec_abs_eval(*a, env),
            spec_abs_eval(*b, env),
            spec_abs_eval(*c, env),
        ) {
            (Err(k), _, _) => Err(k),
            (Ok(_), Err(k), _) => Err(k),
            (Ok(_), Ok(_), Err(k)) => Err(k),
            (Ok(v1), Ok(v2), Ok(v3)) => spec_abs_substr(v1, v2, v3),
        },
        Func::Add(a, b) => match (spec_abs_eval(*a, env), spec_abs_eval(*b, env)) {
            (Err(k), _) => Err(k),
            (Ok(_), Err(k)) => Err(k),
            (Ok(v1), Ok(v2)) => spec_abs_add(v1, v2),
        },
        Func::Sub(a, b) => match (spec_abs_eval(*a, env), spec_abs_eval(*b, env)) {
            (Err(k), _) => Err(k),
            (Ok(_), Err(k)) => Err(k),
            (Ok(v1), Ok(v2)) => spec_abs_sub(v1, v2),
        },
        Func::Len(a) => match spec_abs_eval(*a, env) {
            Err(k) => Err(k),
            Ok(v1) => spec_abs_len(v1),
        },
        Func::At(a, b) => match (spec_abs_eval(*a, env), spec_abs_eval(*b, env)) {
            (Err(k), _) => Err(k),
            (Ok(_), Err(k)) => Err(k),
            (Ok(v1), Ok(v2)) => spec_abs_at(v1, v2),
        },
        Func::ToStr(a) => match spec_abs_eval(*a, env) {
            Err(k) => Err(k),
            Ok(v1) => spec_abs_to_str(v1),
        },
        Func::ToInt(a) => match spec_abs_eval(*a, env) {
            Err(k) => Err(k),
            Ok(v1) => spec_abs_to_int(v1),
        },
        Func::IndexOf(a, b, c) => match (
            spec_abs_eval(*a, env),
            spec_abs_eval(*b, env),
            spec_abs_eval(*c, env),
        ) {
            (Err(k), _, _) => Err(k),
            (Ok(_), Err(k), _) => Err(k),
            (Ok(_), Ok(_), Err(k)) => Err(k),
            (Ok(v1), Ok(v2), Ok(v3)) => spec_abs_index_of(v1, v2, v3),
        },
        Func::PrefixOf(a, b) => match (spec_abs_eval(*a, env), spec_abs_eval(*b, env)) {
            (Err(k), _) => Err(k),
            (Ok(_), Err(k)) => Err(k),
            (Ok(v1), Ok(v2)) => spec_abs_prefix_of(v1, v2),
        },
        Func::SuffixOf(a, b) => match (spec_abs_eval(*a, env), spec_abs_eval(*b, env)) {
            (Err(k), _) => Err(k),
            (Ok(_), Err(k)) => Err(k),
            (Ok(v1), Ok(v2)) => spec_abs_suffix_of(v1, v2),
        },
        Func::Contains(a, b) => match (spec_abs_eval(*a, env), spec_abs_eval(*b, env)) {
            (Err(k), _) => Err(k),
            (Ok(_), Err(k)) => Err(k),
            (Ok(v1), Ok(v2)) => spec_abs_contains(v1, v2),
        },
    }
}

// ---------------------------------------------------------------------------
// Executable abstract operations
// ---------------------------------------------------------------------------

/// Abstract append.
pub fn str_append(v1: StrValAbs, v2: StrValAbs) -> (r: EvalResult<StrValAbs>)
    ensures
        mix_res_view(r) == spec_abs_append(v1@, v2@),
{
    match (v1, v2) {
        (MixedValue::Conc(x), MixedValue::Conc(y)) => match crate::concrete::str_append(x, y) {
            Ok(v) => Ok(MixedValue::Conc(v)),
            Err(k) => Err(k),
        },
        (a, b) => match (lift(a), lift(b)) {
            (Some(l1), Some(l2)) => Ok(MixedValue::Abs(l1.add(&l2))),
            _ => Err(EvalError::TypeMismatch),
        },
    }
}

/// Abstract replace.
pub fn str_replace(v1: StrValAbs, v2: StrValAbs, v3: StrValAbs) -> (r: EvalResult<StrValAbs>)
    ensures
        mix_res_view(r) == spec_abs_replace(v1@, v2@, v3@),
{
    match (v1, v2, v3) {
        (MixedValue::Conc(x), MixedValue::Conc(y), MixedValue::Conc(z)) => match crate::concrete::str_replace(
            x,
            y,
            z,
        ) {
            Ok(v) => Ok(MixedValue::Conc(v)),
            Err(k) => Err(k),
        },
        (a, b, c) => match (lift(a), lift(b), lift(c)) {
            (Some(_), Some(_), Some(_)) => Ok(MixedValue::Abs(StrLenLat::Top)),
            _ => Err(EvalError::TypeMismatch),
        },
    }
}

/// Abstract substring.
pub fn str_substr(v1: StrValAbs, v2: StrValAbs, v3: StrValAbs) -> (r: EvalResult<StrValAbs>)
    ensures
        mix_res_view(r) == spec_abs_substr(v1@, v2@, v3@),
{
    match (v1, v2, v3) {
        (MixedValue::Conc(x), MixedValue::Conc(y), MixedValue::Conc(z)) => match crate::concrete::str_substr(
            x,
            y,
            z,
        ) {
            Ok(v) => Ok(MixedValue::Conc(v)),
            Err(k) => Err(k),
        },
        (a, MixedValue::Conc(StrVal::Int(i)), MixedValue::Conc(StrVal::Int(j))) => match lift(a) {
            Some(StrLenLat::Top) => Ok(MixedValue::Abs(StrLenLat::Top)),
            Some(StrLenLat::Bot) => Ok(MixedValue::Abs(StrLenLat::Bot)),
            Some(StrLenLat::Len(l)) => {
                let ic = i.as_const();
                let jc = j.as_const();
                let lc = l.as_const();
                if matches!(ic, Some(v) if v < 0) {
                    Err(EvalError::InvalidIndex)
                } else if matches!((ic, jc), (Some(iv), Some(jv)) if jv < iv) {
                    Err(EvalError::InvalidIndex)
                } else if matches!((lc, jc), (Some(lv), Some(jv)) if jv > lv) {
                    Err(EvalError::InvalidIndex)
                } else if matches!((lc, ic), (Some(lv), Some(iv)) if iv > lv) {
                    Err(EvalError::InvalidIndex)
                } else {
                    match j.try_sub(&i) {
                        Some(d) => Ok(MixedValue::Abs(StrLenLat::Len(d))),
                        None => Ok(MixedValue::Abs(StrLenLat::Top)),
                    }
                }
            },
            None => Err(EvalError::TypeMismatch),
        },
        _ => Err(EvalError::TypeMismatch),
    }
}

/// Abstract addition.
pub fn num_add(v1: StrValAbs, v2: StrValAbs) -> (r: EvalResult<StrValAbs>)
    ensures
        mix_res_view(r) == spec_abs_add(v1@, v2@),
{
    match (v1, v2) {
        (MixedValue::Conc(x), MixedValue::Conc(y)) => match crate::concrete::num_add(x, y) {
            Ok(v) => Ok(MixedValue::Conc(v)),
            Err(k) => Err(k),
        },
        _ => Err(EvalError::TypeMismatch),
    }
}

/// Abstract subtraction.
pub fn num_sub(v1: StrValAbs, v2: StrValAbs) -> (r: EvalResult<StrValAbs>)
    ensures
        mix_res_view(r) == spec_abs_sub(v1@, v2@),
{
    match (v1, v2) {
        (MixedValue::Conc(x), MixedValue::Conc(y)) => match crate::concrete::num_sub(x, y) {
            Ok(v) => Ok(MixedValue::Conc(v)),
            Err(k) => Err(k),
        },
        _ => Err(EvalError::TypeMismatch),
    }
}

/// Abstract length.
pub fn str_len(v: StrValAbs) -> (r: EvalResult<StrValAbs>)
    ensures
        mix_res_view(r) == spec_abs_len(v@),
{
    match v {
        MixedValue::Conc(x) => match crate::concrete::str_len(x) {
            Ok(v2) => Ok(MixedValue::Conc(v2)),
            Err(k) => Err(k),
        },
        MixedValue::Abs(StrLenLat::Len(l)) => Ok(MixedValue::Conc(StrVal::Int(l))),
        MixedValue::Abs(_) => Err(EvalError::TypeMismatch),
    }
}

/// Abstract character access.
pub fn str_at(v1: StrValAbs, v2: StrValAbs) -> (r: EvalResult<StrValAbs>)
    ensures
        mix_res_view(r) == spec_abs_at(v1@, v2@),
{
    match (v1, v2) {
        (MixedValue::Conc(x), MixedValue::Conc(y)) => match crate::concrete::str_at(x, y) {
            Ok(v) => Ok(MixedValue::Conc(v)),
            Err(k) => Err(k),
        },
        _ => Ok(MixedValue::Abs(StrLenLat::Top)),
    }
}

/// Abstract integer-to-string conversion.
pub fn to_str(v: StrValAbs) -> (r: EvalResult<StrValAbs>)
    ensures
        mix_res_view(r) == spec_abs_to_str(v@),
{
    match v {
        MixedValue::Conc(x) => match crate::concrete::to_str(x) {
            Ok(v2) => Ok(MixedValue::Conc(v2)),
            Err(k) => Err(k),
        },
        _ => Ok(MixedValue::Abs(StrLenLat::Top)),
    }
}

/// Abstract string-to-integer conversion.
pub fn to_int(v: StrValAbs) -> (r: EvalResult<StrValAbs>)
    ensures
        mix_res_view(r) == spec_abs_to_int(v@),
{
    match v {
        MixedValue::Conc(x) => match crate::concrete::to_int(x) {
            Ok(v2) => Ok(MixedValue::Conc(v2)),
            Err(k) => Err(k),
        },
        _ => Ok(MixedValue::Abs(StrLenLat::Top)),
    }
}

/// Abstract index-of.
pub fn str_index_of(v1: StrValAbs, v2: StrValAbs, v3: StrValAbs) -> (r: EvalResult<StrValAbs>)
    ensures
        mix_res_view(r) == spec_abs_index_of(v1@, v2@, v3@),
{
    match (v1, v2, v3) {
        (MixedValue::Conc(x), MixedValue::Conc(y), MixedValue::Conc(z)) => match crate::concrete::str_index_of(
            x,
            y,
            z,
        ) {
            Ok(v) => Ok(MixedValue::Conc(v)),
            Err(k) => Err(k),
        },
        _ => Ok(MixedValue::Abs(StrLenLat::Top)),
    }
}

/// Abstract prefix test.
pub fn str_prefix_of(v1: StrValAbs, v2: StrValAbs) -> (r: EvalResult<StrValAbs>)
    ensures
        mix_res_view(r) == spec_abs_prefix_of(v1@, v2@),
{
    match (v1, v2) {
        (MixedValue::Conc(x), MixedValue::Conc(y)) => match crate::concrete::str_prefix_of(x, y) {
            Ok(v) => Ok(MixedValue::Conc(v)),
            Err(k) => Err(k),
        },
        _ => Ok(MixedValue::Abs(StrLenLat::Top)),
    }
}

/// Abstract suffix test.
pub fn str_suffix_of(v1: StrValAbs, v2: StrValAbs) -> (r: EvalResult<StrValAbs>)
    ensures
        mix_res_view(r) == spec_abs_suffix_of(v1@, v2@),
{
    match (v1, v2) {
        (MixedValue::Conc(x), MixedValue::Conc(y)) => match crate::concrete::str_suffix_of(x, y) {
            Ok(v) => Ok(MixedValue::Conc(v)),
            Err(k) => Err(k),
        },
        _ => Ok(MixedValue::Abs(StrLenLat::Top)),
    }
}

/// Abstract containment test.
pub fn str_contains(v1: StrValAbs, v2: StrValAbs) -> (r: EvalResult<StrValAbs>)
    ensures
        mix_res_view(r) == spec_abs_contains(v1@, v2@),
{
    match (v1, v2) {
        (MixedValue::Conc(x), MixedValue::Conc(y)) => match crate::concrete::str_contains(x, y) {
            Ok(v) => Ok(MixedValue::Conc(v)),
            Err(k) => Err(k),
        },
        _ => Ok(MixedValue::Abs(StrLenLat::Top)),
    }
}

/// Runs the abstract evaluator on a partial program.
pub fn abs_interp(e: &Expr<StrValAbs, StrLenLat>, env: &Environment<StrValAbs>) -> (r: EvalResult<
    StrValAbs,
>)
    ensures
        mix_res_view(r) == spec_abs_eval(*e, env@),
    decreases *e, 0int,
{
    match e {
        Expr::Const(v) => Ok(v.clone()),
        Expr::Var(x) => match env.get(x.clone()) {
            Some(v) => Ok(v.clone()),
            None => Err(EvalError::UnboundVariable),
        },
        Expr::Call(f) => abs_interp_func(f, env),
        Expr::If(c, t, o) => match abs_interp(rc_get(c), env) {
            Ok(MixedValue::Conc(StrVal::Bool(b))) => if b {
                abs_interp(rc_get(t), env)
            } else {
                abs_interp(rc_get(o), env)
            },
            Ok(MixedValue::Conc(_)) => Err(EvalError::TypeMismatch),
            Ok(MixedValue::Abs(_)) => Ok(MixedValue::Abs(StrLenLat::Top)),
            Err(k) => Err(k),
        },
        Expr::Hole(l, _) => Ok(MixedValue::Abs(l.clone())),
        Expr::ConcHole(_) => Err(EvalError::UnresolvedHole),
        Expr::DepHole => Err(EvalError::UnresolvedHole),
    }
}

fn abs_interp_func(f: &Func<StrValAbs, StrLenLat>, env: &Environment<StrValAbs>) -> (r: EvalResult<
    StrValAbs,
>)
    ensures
        mix_res_view(r) == spec_abs_eval_func(*f, env@),
    decreases *f, 2int,
{
    match f {
        Func::Append(_, _) => abs_interp_func_core(f, env),
        Func::Replace(_, _, _) => abs_interp_func_core(f, env),
        Func::Substr(_, _, _) => abs_interp_func_core(f, env),
        Func::Add(_, _) => abs_interp_func_core(f, env),
        Func::Sub(_, _) => abs_interp_func_core(f, env),
        Func::Len(_) => abs_interp_func_unary(f, env),
        Func::At(_, _) => abs_interp_func_unary(f, env),
        Func::ToStr(_) => abs_interp_func_unary(f, env),
        Func::ToInt(_) => abs_interp_func_unary(f, env),
        Func::IndexOf(_, _, _) => abs_interp_func_text(f, env),
        Func::PrefixOf(_, _) => abs_interp_func_text(f, env),
        Func::SuffixOf(_, _) => abs_interp_func_text(f, env),
        Func::Contains(_, _) => abs_interp_func_text(f, env),
    }
}

fn abs_interp_func_core(
    f: &Func<StrValAbs, StrLenLat>,
    env: &Environment<StrValAbs>,
) -> (r: EvalResult<StrValAbs>)
    requires
        f matches Func::Append(..) || f matches Func::Replace(..) || f matches Func::Substr(..)
            || f matches Func::Add(..) || f matches Func::Sub(..),
    ensures
        mix_res_view(r) == spec_abs_eval_func(*f, env@),
    decreases *f, 1int,
{
    match f {
        Func::Append(a, b) => {
            let v1 = match abs_interp(rc_get(a), env) {
                Ok(v) => v,
                Err(k) => {
                    return Err(k);
                },
            };
            let v2 = match abs_interp(rc_get(b), env) {
                Ok(v) => v,
                Err(k) => {
                    return Err(k);
                },
            };
            str_append(v1, v2)
        },
        Func::Replace(a, b, c) => {
            let v1 = match abs_interp(rc_get(a), env) {
                Ok(v) => v,
                Err(k) => {
                    return Err(k);
                },
            };
            let v2 = match abs_interp(rc_get(b), env) {
                Ok(v) => v,
                Err(k) => {
                    return Err(k);
                },
            };
            let v3 = match abs_interp(rc_get(c), env) {
                Ok(v) => v,
                Err(k) => {
                    return Err(k);
                },
            };
            str_replace(v1, v2, v3)
        },
        Func::Substr(a, b, c) => {
            let v1 = match abs_interp(rc_get(a), env) {
                Ok(v) => v,
                Err(k) => {
                    return Err(k);
                },
            };
            let v2 = match abs_interp(rc_get(b), env) {
                Ok(v) => v,
                Err(k) => {
                    return Err(k);
                },
            };
            let v3 = match abs_interp(rc_get(c), env) {
                Ok(v) => v,
                Err(k) => {
                    return Err(k);
                },
            };
            str_substr(v1, v2, v3)
        },
        Func::Add(a, b) => {
            let v1 = match abs_interp(rc_get(a), env) {
                Ok(v) => v,
                Err(k) => {
                    return Err(k);
                },
            };
            let v2 = match abs_interp(rc_get(b), env) {
                Ok(v) => v,
                Err(k) => {
                    return Err(k);
                },
            };
            num_add(v1, v2)
        },
        Func::Sub(a, b) => {
            let v1 = match abs_interp(rc_get(a), env) {
                Ok(v) => v,
                Err(k) => {
                    return Err(k);
                },
            };
            let v2 = match abs_interp(rc_get(b), env) {
                Ok(v) => v,
                Err(k) => {
                    return Err(k);
                },
            };
            num_sub(v1, v2)
        },
        _ => {
            proof {
                assert(false);
            }
            Err(EvalError::TypeMismatch)
        },
    }
}

fn abs_interp_func_unary(
    f: &Func<StrValAbs, StrLenLat>,
    env: &Environment<StrValAbs>,
) -> (r: EvalResult<StrValAbs>)
    requires
        f matches Func::Len(..) || f matches Func::At(..) || f matches Func::ToStr(..)
            || f matches Func::ToInt(..),
    ensures
        mix_res_view(r) == spec_abs_eval_func(*f, env@),
    decreases *f, 1int,
{
    match f {
        Func::Len(a) => {
            let v1 = match abs_interp(rc_get(a), env) {
                Ok(v) => v,
                Err(k) => {
                    return Err(k);
                },
            };
            str_len(v1)
        },
        Func::At(a, b) => {
            let v1 = match abs_interp(rc_get(a), env) {
                Ok(v) => v,
                Err(k) => {
                    return Err(k);
                },
            };
            let v2 = match abs_interp(rc_get(b), env) {
                Ok(v) => v,
                Err(k) => {
                    return Err(k);
                },
            };
            str_at(v1, v2)
        },
        Func::ToStr(a) => {
            let v1 = match abs_interp(rc_get(a), env) {
                Ok(v) => v,
                Err(k) => {
                    return Err(k);
                },
            };
            to_str(v1)
        },
        Func::ToInt(a) => {
            let v1 = match abs_interp(rc_get(a), env) {
                Ok(v) => v,
                Err(k) => {
                    return Err(k);
                },
            };
            to_int(v1)
        },
        _ => {
            proof {
                assert(false);
            }
            Err(EvalError::TypeMismatch)
        },
    }
}

fn abs_interp_func_text(
    f: &Func<StrValAbs, StrLenLat>,
    env: &Environment<StrValAbs>,
) -> (r: EvalResult<StrValAbs>)
    requires
        f matches Func::IndexOf(..) || f matches Func::PrefixOf(..) || f matches Func::SuffixOf(
            ..,
        ) || f matches Func::Contains(..),
    ensures
        mix_res_view(r) == spec_abs_eval_func(*f, env@),
    decreases *f, 1int,
{
    match f {
        Func::IndexOf(a, b, c) => {
            let v1 = match abs_interp(rc_get(a), env) {
                Ok(v) => v,
                Err(k) => {
                    return Err(k);
                },
            };
            let v2 = match abs_interp(rc_get(b), env) {
                Ok(v) => v,
                Err(k) => {
                    return Err(k);
                },
            };
            let v3 = match abs_interp(rc_get(c), env) {
                Ok(v) => v,
                Err(k) => {
                    return Err(k);
                },
            };
            str_index_of(v1, v2, v3)
        },
        Func::PrefixOf(a, b) => {
            let v1 = match abs_interp(rc_get(a), env) {
                Ok(v) => v,
                Err(k) => {
                    return Err(k);
                },
            };
            let v2 = match abs_interp(rc_get(b), env) {
                Ok(v) => v,
                Err(k) => {
                    return Err(k);
                },
            };
            str_prefix_of(v1, v2)
        },
        Func::SuffixOf(a, b) => {
            let v1 = match abs_interp(rc_get(a), env) {
                Ok(v) => v,
                Err(k) => {
                    return Err(k);
                },
            };
            let v2 = match abs_interp(rc_get(b), env) {
                Ok(v) => v,
                Err(k) => {
                    return Err(k);
                },
            };
            str_suffix_of(v1, v2)
        },
        Func::Contains(a, b) => {
            let v1 = match abs_interp(rc_get(a), env) {
                Ok(v) => v,
                Err(k) => {
                    return Err(k);
                },
            };
            let v2 = match abs_interp(rc_get(b), env) {
                Ok(v) => v,
                Err(k) => {
                    return Err(k);
                },
            };
            str_contains(v1, v2)
        },
        _ => {
            proof {
                assert(false);
            }
            Err(EvalError::TypeMismatch)
        },
    }
}

// ---------------------------------------------------------------------------
// Abstraction soundness
// ---------------------------------------------------------------------------

/// Among search values that stand for a lattice element at all, `Abs(Top)`
/// is the greatest and `Abs(Bot)` the least.
pub proof fn lemma_mixed_top_bot(v: MixV)
    requires
        lift_v(v) is Some,
    ensures
        mix_le_v(v, MixV::Abs(LatV::Top)),
        mix_le_v(MixV::Abs(LatV::Bot), v),
{
}

// ---------------------------------------------------------------------------
// Evaluator-level abstraction soundness
// ---------------------------------------------------------------------------

/// A search value covers a concrete outcome: it is that very value, sits
/// above it in the mixed order, or is the universal approximation, which
/// carries no information at all.
pub open spec fn covers(w: MixV, v: ValV) -> bool {
    ||| w == MixV::Conc(v)
    ||| mix_le_v(MixV::Conc(v), w)
    ||| w == MixV::Abs(LatV::Top)
}

/// A concrete search value covers exactly itself: two concrete values are
/// incomparable in the mixed order.
pub proof fn lemma_covers_conc(x: ValV, v: ValV)
    requires
        covers(MixV::Conc(x), v),
    ensures
        x == v,
{
}

/// A lattice element covering a string is the string's abstraction or `Top`.
pub proof fn lemma_covers_str(l: LatV, s: Seq<char>)
    requires
        covers(MixV::Abs(l), ValV::Str(s)),
    ensures
        l == alpha_str(s) || l == LatV::Top,
{
    lemma_strlen_cmp_le(alpha_str(s), l);
}

/// Structural correspondence between a concrete program and a search
/// program: the same hole-free tree, with each constant wrapped as a
/// concrete search value.
pub open spec fn corresponds(ec: Expr<StrVal, StrLenLat>, ea: Expr<StrValAbs, StrLenLat>) -> bool
    decreases ec,
{
    match (ec, ea) {
        (Expr::Const(v), Expr::Const(w)) => w@ == MixV::Conc(v@),
        (Expr::Var(x), Expr::Var(y)) => x@ == y@,
        (Expr::Call(f), Expr::Call(g)) => corresponds_func(f, g),
        (Expr::If(c1, t1, o1), Expr::If(c2, t2, o2)) => corresponds(*c1, *c2) && corresponds(
            *t1,
            *t2,
        ) && corresponds(*o1, *o2),
        _ => false,
    }
}

pub open spec fn corresponds_func(f: Func<StrVal, StrLenLat>, g: Func<StrValAbs, StrLenLat>) -> bool
    decreases f,
{
    match (f, g) {
        (Func::Append(a1, b1), Func::Append(a2, b2)) => corresponds(*a1, *a2) && corresponds(
            *b1,
            *b2,
        ),
        (Func::Replace(a1, b1, c1), Func::Replace(a2, b2, c2)) => corresponds(*a1, *a2)
            && corresponds(*b1, *b2) && corresponds(*c1, *c2),
        (Func::Substr(a1, b1, c1), Func::Substr(a2, b2, c2)) => corresponds(*a1, *a2)
            && corresponds(*b1, *b2) && corresponds(*c1, *c2),
        (Func::Add(a1, b1), Func::Add(a2, b2)) => corresponds(*a1, *a2) && corresponds(*b1, *b2),
        (Func::Sub(a1, b1), Func::Sub(a2, b2)) => corresponds(*a1, *a2) && corresponds(*b1, *b2),
        (Func::Len(a1), Func::Len(a2)) => corresponds(*a1, *a2),
        (Func::At(a1, b1), Func::At(a2, b2)) => corresponds(*a1, *a2) && corresponds(*b1, *b2),
        (Func::ToStr(a1), Func::ToStr(a2)) => corresponds(*a1, *a2),
        (Func::ToInt(a1), Func::ToInt(a2)) => corresponds(*a1, *a2),
        (Func::IndexOf(a1, b1, c1), Func::IndexOf(a2, b2, c2)) => corresponds(*a1, *a2)
            && corresponds(*b1, *b2) && corresponds(*c1, *c2),
        (Func::PrefixOf(a1, b1), Func::PrefixOf(a2, b2)) => corresponds(*a1, *a2) && corresponds(
            *b1,
            *b2,
        ),
        (Func::SuffixOf(a1, b1), Func::SuffixOf(a2, b2)) => corresponds(*a1, *a2) && corresponds(
            *b1,
            *b2,
        ),
        (Func::Contains(a1, b1), Func::Contains(a2, b2)) => corresponds(*a1, *a2) && corresponds(
            *b1,
            *b2,
        ),
        _ => false,
    }
}

/// One environment abstracts another pointwise: the same names are bound,
/// and each binding covers its concrete counterpart.
pub open spec fn env_abstracts(
    rho: Seq<(String, StrVal)>,
    rho2: Seq<(String, StrValAbs)>,
) -> bool {
    forall|name: Seq<char>|
        match (#[trigger] env_lookup(rho, name), env_lookup(rho2, name)) {
            (Some(v), Some(w)) => covers(w@, v@),
            (None, None) => true,
            _ => false,
        }
}

/// Nothing sits below the empty approximation but itself
/// Nothing sits below the empty approximation but itself: a search whose
/// target is `Bot` accepts no constant and no variable at the leaf step.
pub proof fn lemma_bot_admits_nothing(v: MixV)
    ensures
        mix_le_v(v, MixV::Abs(LatV::Bot)) <==> v == MixV::Abs(LatV::Bot),
{
}

/// Every value's abstraction is below `Top`: the operations that answer
/// `Top` abstractly never under-approximate a concrete result.
pub proof fn lemma_abs_top_sound(r: ValV)
    ensures
        lat_v_le(alpha_v(r), LatV::Top),
{
}

/// Abstract append never under-approximates: when concrete append yields
/// `r`, the abstraction of `r` is below the abstract sum of the operands'
/// abstractions.
pub proof fn lemma_abs_append_sound(x: ValV, y: ValV, r: ValV)
    requires
        spec_str_append(x, y) == Ok::<ValV, EvalError>(r),
    ensures
        spec_abs_append(MixV::Abs(alpha_v(x)), MixV::Abs(alpha_v(y))) == Ok::<MixV, EvalError>(
            MixV::Abs(lat_v_add(alpha_v(x), alpha_v(y))),
        ),
        lat_v_le(alpha_v(r), lat_v_add(alpha_v(x), alpha_v(y))),
{
    let s1 = x->Str_0;
    let s2 = y->Str_0;
    assert(r == ValV::Str(s1 + s2));
    assert((s1 + s2).len() == s1.len() + s2.len());
    if s1.len() <= i32::MAX && s2.len() <= i32::MAX && s1.len() + s2.len() <= i32::MAX {
        let la = lin_v_const(s1.len() as int);
        let lb = lin_v_const(s2.len() as int);
        assert(lin_v_fits(crate::linear::lin_v_add(la, lb)));
        assert(crate::linear::lin_v_add(la, lb) =~= lin_v_const(s1.len() + s2.len() as int));
    }
}

/// Abstract substring never under-approximates: on the receiver's exact
/// abstraction and the same constant bounds, it yields exactly the
/// abstraction of the concrete result, or reports the bounds as invalid.
pub proof fn lemma_abs_substr_sound(x: ValV, y: ValV, z: ValV, r: ValV)
    requires
        spec_str_substr(x, y, z) == Ok::<ValV, EvalError>(r),
    ensures
        (spec_abs_substr(MixV::Abs(alpha_v(x)), MixV::Conc(y), MixV::Conc(z)) matches Ok(
            MixV::Abs(l),
        ) ==> lat_v_le(alpha_v(r), l)),
{
    let s = x->Str_0;
    let i = y->Int_0;
    let j = z->Int_0;
    let res = spec_abs_substr(MixV::Abs(alpha_v(x)), MixV::Conc(y), MixV::Conc(z));
    if s.len() <= i32::MAX {
        let l = lin_v_const(s.len() as int);
        assert(lin_v_is_const(l) && l.c == s.len());
        if res matches Ok(MixV::Abs(lv)) {
            assert(!(lin_v_is_const(i) && i.c < 0));
            assert(!(j.c < i.c));
            assert(!(j.c > l.c));
            assert(!(i.c > l.c));
            assert(0 <= i.c <= j.c <= s.len());
            assert(r == ValV::Str(crate::concrete::substr_view(s, i.c, j.c)));
            assert(crate::concrete::substr_view(s, i.c, j.c).len() == j.c - i.c);
            assert(lin_v_fits(lin_v_sub(j, i)));
            assert(lin_v_sub(j, i) =~= lin_v_const(j.c - i.c));
            assert(alpha_v(r) == LatV::Len(lin_v_const(j.c - i.c)));
        }
    }
}

/// Abstract length is exact: on the exact abstraction of a string it yields
/// the very integer concrete length yields.
pub proof fn lemma_abs_len_sound(x: ValV, r: ValV)
    requires
        spec_str_len(x) == Ok::<ValV, EvalError>(r),
    ensures
        spec_abs_len(MixV::Abs(alpha_v(x))) == Ok::<MixV, EvalError>(MixV::Conc(r)),
{
}

/// Per-operation evaluator soundness: when both the concrete and the
/// abstract operation succeed on covering operands, the abstract result
/// covers the concrete one.
proof fn lemma_sound_append(v1: ValV, v2: ValV, w1: MixV, w2: MixV)
    requires
        covers(w1, v1),
        covers(w2, v2),
    ensures
        spec_str_append(v1, v2) is Ok && spec_abs_append(w1, w2) is Ok ==> covers(
            spec_abs_append(w1, w2)->Ok_0,
            spec_str_append(v1, v2)->Ok_0,
        ),
{
    if (spec_str_append(v1, v2) matches Ok(v)) && (spec_abs_append(w1, w2) matches Ok(w)) {
        let s1 = v1->Str_0;
        let s2 = v2->Str_0;
        let v = spec_str_append(v1, v2)->Ok_0;
        let w = spec_abs_append(w1, w2)->Ok_0;
        if w1 matches MixV::Conc(x1) && w2 matches MixV::Conc(x2) {
            lemma_covers_conc(w1->Conc_0, v1);
            lemma_covers_conc(w2->Conc_0, v2);
            assert(covers(w, v));
        } else {
            let l1 = lift_v(w1)->Some_0;
            let l2 = lift_v(w2)->Some_0;
            assert(l1 == alpha_str(s1) || l1 == LatV::Top) by {
                match w1 {
                    MixV::Conc(x1) => {
                        lemma_covers_conc(x1, v1);
                    },
                    MixV::Abs(l) => {
                        lemma_covers_str(l, s1);
                    },
                }
            }
            assert(l2 == alpha_str(s2) || l2 == LatV::Top) by {
                match w2 {
                    MixV::Conc(x2) => {
                        lemma_covers_conc(x2, v2);
                    },
                    MixV::Abs(l) => {
                        lemma_covers_str(l, s2);
                    },
                }
            }
            if l1 == LatV::Top || l2 == LatV::Top {
                assert(w == MixV::Abs(LatV::Top));
            } else {
                lemma_abs_append_sound(v1, v2, v);
                assert(w == MixV::Abs(lat_v_add(alpha_str(s1), alpha_str(s2))));
                lemma_strlen_cmp_le(alpha_v(v), lat_v_add(alpha_str(s1), alpha_str(s2)));
                assert(mix_le_v(MixV::Conc(v), w));
            }
        }
    }
}

proof fn lemma_sound_substr(v1: ValV, v2: ValV, v3: ValV, w1: MixV, w2: MixV, w3: MixV)
    requires
        covers(w1, v1),
        covers(w2, v2),
        covers(w3, v3),
    ensures
        spec_str_substr(v1, v2, v3) is Ok && spec_abs_substr(w1, w2, w3) is Ok ==> covers(
            spec_abs_substr(w1, w2, w3)->Ok_0,
            spec_str_substr(v1, v2, v3)->Ok_0,
        ),
{
    if (spec_str_substr(v1, v2, v3) matches Ok(v)) && (spec_abs_substr(w1, w2, w3) matches Ok(
        w,
    )) {
        let s = v1->Str_0;
        let v = spec_str_substr(v1, v2, v3)->Ok_0;
        let w = spec_abs_substr(w1, w2, w3)->Ok_0;
        if w2 matches MixV::Abs(_) || w3 matches MixV::Abs(_) {
            assert(false);
        }
        lemma_covers_conc(w2->Conc_0, v2);
        lemma_covers_conc(w3->Conc_0, v3);
        match w1 {
            MixV::Conc(x1) => {
                lemma_covers_conc(x1, v1);
                assert(covers(w, v));
            },
            MixV::Abs(l) => {
                lemma_covers_str(l, s);
                if l == LatV::Top {
                    assert(w == MixV::Abs(LatV::Top));
                } else {
                    assert(l == alpha_str(s));
                    if alpha_str(s) == LatV::Top {
                        assert(w == MixV::Abs(LatV::Top));
                    } else {
                        lemma_abs_substr_sound(v1, v2, v3, v);
                        let l2 = w->Abs_0;
                        assert(lat_v_le(alpha_v(v), l2));
                        lemma_strlen_cmp_le(alpha_v(v), l2);
                        assert(mix_le_v(MixV::Conc(v), w));
                    }
                }
            },
        }
    }
}

proof fn lemma_sound_replace(v1: ValV, v2: ValV, v3: ValV, w1: MixV, w2: MixV, w3: MixV)
    requires
        covers(w1, v1),
        covers(w2, v2),
        covers(w3, v3),
    ensures
        spec_str_replace(v1, v2, v3) is Ok && spec_abs_replace(w1, w2, w3) is Ok ==> covers(
            spec_abs_replace(w1, w2, w3)->Ok_0,
            spec_str_replace(v1, v2, v3)->Ok_0,
        ),
{
    if (spec_str_replace(v1, v2, v3) matches Ok(v)) && (spec_abs_replace(w1, w2, w3) matches Ok(
        w,
    )) {
        let v = spec_str_replace(v1, v2, v3)->Ok_0;
        let w = spec_abs_replace(w1, w2, w3)->Ok_0;
        if w1 matches MixV::Conc(x1) && w2 matches MixV::Conc(x2) && w3 matches MixV::Conc(x3) {
            lemma_covers_conc(w1->Conc_0, v1);
            lemma_covers_conc(w2->Conc_0, v2);
            lemma_covers_conc(w3->Conc_0, v3);
            assert(covers(w, v));
        } else {
            assert(w == MixV::Abs(LatV::Top));
        }
    }
}

proof fn lemma_sound_len(v1: ValV, w1: MixV)
    requires
        covers(w1, v1),
    ensures
        spec_str_len(v1) is Ok && spec_abs_len(w1) is Ok ==> covers(
            spec_abs_len(w1)->Ok_0,
            spec_str_len(v1)->Ok_0,
        ),
{
    if (spec_str_len(v1) matches Ok(v)) && (spec_abs_len(w1) matches Ok(w)) {
        let s = v1->Str_0;
        let v = spec_str_len(v1)->Ok_0;
        let w = spec_abs_len(w1)->Ok_0;
        match w1 {
            MixV::Conc(x1) => {
                lemma_covers_conc(x1, v1);
                assert(covers(w, v));
            },
            MixV::Abs(l) => {
                lemma_covers_str(l, s);
                assert(l == alpha_str(s));
                assert(covers(w, v));
            },
        }
    }
}

proof fn lemma_sound_add(v1: ValV, v2: ValV, w1: MixV, w2: MixV)
    requires
        covers(w1, v1),
        covers(w2, v2),
    ensures
        spec_num_add(v1, v2) is Ok && spec_abs_add(w1, w2) is Ok ==> covers(
            spec_abs_add(w1, w2)->Ok_0,
            spec_num_add(v1, v2)->Ok_0,
        ),
{
    if (spec_num_add(v1, v2) matches Ok(v)) && (spec_abs_add(w1, w2) matches Ok(w)) {
        lemma_covers_conc(w1->Conc_0, v1);
        lemma_covers_conc(w2->Conc_0, v2);
    }
}

proof fn lemma_sound_sub(v1: ValV, v2: ValV, w1: MixV, w2: MixV)
    requires
        covers(w1, v1),
        covers(w2, v2),
    ensures
        spec_num_sub(v1, v2) is Ok && spec_abs_sub(w1, w2) is Ok ==> covers(
            spec_abs_sub(w1, w2)->Ok_0,
            spec_num_sub(v1, v2)->Ok_0,
        ),
{
    if (spec_num_sub(v1, v2) matches Ok(v)) && (spec_abs_sub(w1, w2) matches Ok(w)) {
        lemma_covers_conc(w1->Conc_0, v1);
        lemma_covers_conc(w2->Conc_0, v2);
    }
}

proof fn lemma_sound_at(v1: ValV, v2: ValV, w1: MixV, w2: MixV)
    requires
        covers(w1, v1),
        covers(w2, v2),
    ensures
        spec_str_at(v1, v2) is Ok && spec_abs_at(w1, w2) is Ok ==> covers(
            spec_abs_at(w1, w2)->Ok_0,
            spec_str_at(v1, v2)->Ok_0,
        ),
{
    if (spec_str_at(v1, v2) matches Ok(v)) && (spec_abs_at(w1, w2) matches Ok(w)) {
        if w1 matches MixV::Conc(x1) && w2 matches MixV::Conc(x2) {
            lemma_covers_conc(w1->Conc_0, v1);
            lemma_covers_conc(w2->Conc_0, v2);
        } else {
            assert(spec_abs_at(w1, w2)->Ok_0 == MixV::Abs(LatV::Top));
        }
    }
}

proof fn lemma_sound_prefix_of(v1: ValV, v2: ValV, w1: MixV, w2: MixV)
    requires
        covers(w1, v1),
        covers(w2, v2),
    ensures
        spec_prefix_of(v1, v2) is Ok && spec_abs_prefix_of(w1, w2) is Ok ==> covers(
            spec_abs_prefix_of(w1, w2)->Ok_0,
            spec_prefix_of(v1, v2)->Ok_0,
        ),
{
    if (spec_prefix_of(v1, v2) matches Ok(v)) && (spec_abs_prefix_of(w1, w2) matches Ok(w)) {
        if w1 matches MixV::Conc(x1) && w2 matches MixV::Conc(x2) {
            lemma_covers_conc(w1->Conc_0, v1);
            lemma_covers_conc(w2->Conc_0, v2);
        } else {
            assert(spec_abs_prefix_of(w1, w2)->Ok_0 == MixV::Abs(LatV::Top));
        }
    }
}

proof fn lemma_sound_suffix_of(v1: ValV, v2: ValV, w1: MixV, w2: MixV)
    requires
        covers(w1, v1),
        covers(w2, v2),
    ensures
        spec_suffix_of(v1, v2) is Ok && spec_abs_suffix_of(w1, w2) is Ok ==> covers(
            spec_abs_suffix_of(w1, w2)->Ok_0,
            spec_suffix_of(v1, v2)->Ok_0,
        ),
{
    if (spec_suffix_of(v1, v2) matches Ok(v)) && (spec_abs_suffix_of(w1, w2) matches Ok(w)) {
        if w1 matches MixV::Conc(x1) && w2 matches MixV::Conc(x2) {
            lemma_covers_conc(w1->Conc_0, v1);
            lemma_covers_conc(w2->Conc_0, v2);
        } else {
            assert(spec_abs_suffix_of(w1, w2)->Ok_0 == MixV::Abs(LatV::Top));
        }
    }
}

proof fn lemma_sound_contains(v1: ValV, v2: ValV, w1: MixV, w2: MixV)
    requires
        covers(w1, v1),
        covers(w2, v2),
    ensures
        spec_contains(v1, v2) is Ok && spec_abs_contains(w1, w2) is Ok ==> covers(
            spec_abs_contains(w1, w2)->Ok_0,
            spec_contains(v1, v2)->Ok_0,
        ),
{
    if (spec_contains(v1, v2) matches Ok(v)) && (spec_abs_contains(w1, w2) matches Ok(w)) {
        if w1 matches MixV::Conc(x1) && w2 matches MixV::Conc(x2) {
            lemma_covers_conc(w1->Conc_0, v1);
            lemma_covers_conc(w2->Conc_0, v2);
        } else {
            assert(spec_abs_contains(w1, w2)->Ok_0 == MixV::Abs(LatV::Top));
        }
    }
}

proof fn lemma_sound_to_str(v1: ValV, w1: MixV)
    requires
        covers(w1, v1),
    ensures
        spec_to_str(v1) is Ok && spec_abs_to_str(w1) is Ok ==> covers(
            spec_abs_to_str(w1)->Ok_0,
            spec_to_str(v1)->Ok_0,
        ),
{
    if (spec_to_str(v1) matches Ok(v)) && (spec_abs_to_str(w1) matches Ok(w)) {
        if w1 matches MixV::Conc(x1) {
            lemma_covers_conc(w1->Conc_0, v1);
        } else {
            assert(spec_abs_to_str(w1)->Ok_0 == MixV::Abs(LatV::Top));
        }
    }
}

proof fn lemma_sound_to_int(v1: ValV, w1: MixV)
    requires
        covers(w1, v1),
    ensures
        spec_to_int(v1) is Ok && spec_abs_to_int(w1) is Ok ==> covers(
            spec_abs_to_int(w1)->Ok_0,
            spec_to_int(v1)->Ok_0,
        ),
{
    if (spec_to_int(v1) matches Ok(v)) && (spec_abs_to_int(w1) matches Ok(w)) {
        if w1 matches MixV::Conc(x1) {
            lemma_covers_conc(w1->Conc_0, v1);
        } else {
            assert(spec_abs_to_int(w1)->Ok_0 == MixV::Abs(LatV::Top));
        }
    }
}

proof fn lemma_sound_index_of(v1: ValV, v2: ValV, v3: ValV, w1: MixV, w2: MixV, w3: MixV)
    requires
        covers(w1, v1),
        covers(w2, v2),
        covers(w3, v3),
    ensures
        spec_index_of(v1, v2, v3) is Ok && spec_abs_index_of(w1, w2, w3) is Ok ==> covers(
            spec_abs_index_of(w1, w2, w3)->Ok_0,
            spec_index_of(v1, v2, v3)->Ok_0,
        ),
{
    if (spec_index_of(v1, v2, v3) matches Ok(v)) && (spec_abs_index_of(w1, w2, w3) matches Ok(
        w,
    )) {
        if w1 matches MixV::Conc(x1) && w2 matches MixV::Conc(x2) && w3 matches MixV::Conc(x3) {
            lemma_covers_conc(w1->Conc_0, v1);
            lemma_covers_conc(w2->Conc_0, v2);
            lemma_covers_conc(w3->Conc_0, v3);
        } else {
            assert(spec_abs_index_of(w1, w2, w3)->Ok_0 == MixV::Abs(LatV::Top));
        }
    }
}

pub open spec fn eval_at(t: &Term<StrVal, StrLenLat>, rho: Seq<(String, StrVal)>) -> Result<
    ValV,
    EvalError,
> {
    spec_eval(**t, rho)
}

pub open spec fn abs_eval_at(
    t: &Term<StrValAbs, StrLenLat>,
    rho2: Seq<(String, StrValAbs)>,
) -> Result<MixV, EvalError> {
    spec_abs_eval(**t, rho2)
}

pub open spec fn eval_func_at(f: &Func<StrVal, StrLenLat>, rho: Seq<(String, StrVal)>) -> Result<
    ValV,
    EvalError,
> {
    spec_eval_func(*f, rho)
}

pub open spec fn abs_eval_func_at(
    g: &Func<StrValAbs, StrLenLat>,
    rho2: Seq<(String, StrValAbs)>,
) -> Result<MixV, EvalError> {
    spec_abs_eval_func(*g, rho2)
}

/// Evaluator-level abstraction soundness: on corresponding programs and a
/// pointwise-covering environment, whenever both evaluators succeed the
/// abstract result covers the concrete one — the abstract evaluator never
/// under-approximates a concrete run.
pub proof fn lemma_abs_eval_sound(
    tc: &Term<StrVal, StrLenLat>,
    ta: &Term<StrValAbs, StrLenLat>,
    rho: Seq<(String, StrVal)>,
    rho2: Seq<(String, StrValAbs)>,
)
    requires
        corresponds(**tc, **ta),
        env_abstracts(rho, rho2),
    ensures
        spec_eval(**tc, rho) is Ok && spec_abs_eval(**ta, rho2) is Ok ==> covers(
            spec_abs_eval(**ta, rho2)->Ok_0,
            spec_eval(**tc, rho)->Ok_0,
        ),
    decreases **tc, 0int,
{
    match (&**tc, &**ta) {
        (Expr::Const(_), Expr::Const(_)) => {},
        (Expr::Var(x), Expr::Var(y)) => {
            let ghost lc = env_lookup(rho, x@);
            let ghost la = env_lookup(rho2, y@);
            assert(x@ == y@);
        },
        (Expr::Call(f), Expr::Call(g)) => {
            lemma_abs_eval_func_sound(f, g, rho, rho2);
        },
        (Expr::If(c1, t1, o1), Expr::If(c2, t2, o2)) => {
            lemma_abs_eval_sound(c1, c2, rho, rho2);
            lemma_abs_eval_sound(t1, t2, rho, rho2);
            lemma_abs_eval_sound(o1, o2, rho, rho2);
            let ghost rc_all = eval_at(tc, rho);
            let ghost ra_all = abs_eval_at(ta, rho2);
            if rc_all is Ok && ra_all is Ok {
                let ghost cc = eval_at(c1, rho);
                let ghost ca = abs_eval_at(c2, rho2);
                assert(cc is Ok);
                assert(ca is Ok);
                assert(cc->Ok_0 is Bool);
                assert(covers(ca->Ok_0, cc->Ok_0));
            }
        },
        _ => {
            assert(false);
        },
    }
}

proof fn lemma_abs_eval_func_sound(
    fr: &Func<StrVal, StrLenLat>,
    gr: &Func<StrValAbs, StrLenLat>,
    rho: Seq<(String, StrVal)>,
    rho2: Seq<(String, StrValAbs)>,
)
    requires
        corresponds_func(*fr, *gr),
        env_abstracts(rho, rho2),
    ensures
        spec_eval_func(*fr, rho) is Ok && spec_abs_eval_func(*gr, rho2) is Ok ==> covers(
            spec_abs_eval_func(*gr, rho2)->Ok_0,
            spec_eval_func(*fr, rho)->Ok_0,
        ),
    decreases *fr, 1int,
{
    match (fr, gr) {
        (Func::Append(a1, b1), Func::Append(a2, b2)) => {
            lemma_abs_eval_sound(a1, a2, rho, rho2);
            lemma_abs_eval_sound(b1, b2, rho, rho2);
            let ghost rcf = spec_eval_func(*fr, rho);
            let ghost raf = spec_abs_eval_func(*gr, rho2);
            if rcf is Ok && raf is Ok {
                let ghost cv1 = eval_at(a1, rho);
                let ghost cv2 = eval_at(b1, rho);
                let ghost av1 = abs_eval_at(a2, rho2);
                let ghost av2 = abs_eval_at(b2, rho2);
                assert(cv1 is Ok && cv2 is Ok);
                assert(av1 is Ok && av2 is Ok);
                lemma_sound_append(cv1->Ok_0, cv2->Ok_0, av1->Ok_0, av2->Ok_0);
            }
        },
        (Func::Add(a1, b1), Func::Add(a2, b2)) => {
            lemma_abs_eval_sound(a1, a2, rho, rho2);
            lemma_abs_eval_sound(b1, b2, rho, rho2);
            let ghost rcf = spec_eval_func(*fr, rho);
            let ghost raf = spec_abs_eval_func(*gr, rho2);
            if rcf is Ok && raf is Ok {
                let ghost cv1 = eval_at(a1, rho);
                let ghost cv2 = eval_at(b1, rho);
                let ghost av1 = abs_eval_at(a2, rho2);
                let ghost av2 = abs_eval_at(b2, rho2);
                assert(cv1 is Ok && cv2 is Ok);
                assert(av1 is Ok && av2 is Ok);
                lemma_sound_add(cv1->Ok_0, cv2->Ok_0, av1->Ok_0, av2->Ok_0);
            }
        },
        (Func::Sub(a1, b1), Func::Sub(a2, b2)) => {
            lemma_abs_eval_sound(a1, a2, rho, rho2);
            lemma_abs_eval_sound(b1, b2, rho, rho2);
            let ghost rcf = spec_eval_func(*fr, rho);
            let ghost raf = spec_abs_eval_func(*gr, rho2);
            if rcf is Ok && raf is Ok {
                let ghost cv1 = eval_at(a1, rho);
                let ghost cv2 = eval_at(b1, rho);
                let ghost av1 = abs_eval_at(a2, rho2);
                let ghost av2 = abs_eval_at(b2, rho2);
                assert(cv1 is Ok && cv2 is Ok);
                assert(av1 is Ok && av2 is Ok);
                lemma_sound_sub(cv1->Ok_0, cv2->Ok_0, av1->Ok_0, av2->Ok_0);
            }
        },
        (Func::At(a1, b1), Func::At(a2, b2)) => {
            lemma_abs_eval_sound(a1, a2, rho, rho2);
            lemma_abs_eval_sound(b1, b2, rho, rho2);
            let ghost rcf = spec_eval_func(*fr, rho);
            let ghost raf = spec_abs_eval_func(*gr, rho2);
            if rcf is Ok && raf is Ok {
                let ghost cv1 = eval_at(a1, rho);
                let ghost cv2 = eval_at(b1, rho);
                let ghost av1 = abs_eval_at(a2, rho2);
                let ghost av2 = abs_eval_at(b2, rho2);
                assert(cv1 is Ok && cv2 is Ok);
                assert(av1 is Ok && av2 is Ok);
                lemma_sound_at(cv1->Ok_0, cv2->Ok_0, av1->Ok_0, av2->Ok_0);
            }
        },
        (Func::PrefixOf(a1, b1), Func::PrefixOf(a2, b2)) => {
            lemma_abs_eval_sound(a1, a2, rho, rho2);
            lemma_abs_eval_sound(b1, b2, rho, rho2);
            let ghost rcf = spec_eval_func(*fr, rho);
            let ghost raf = spec_abs_eval_func(*gr, rho2);
            if rcf is Ok && raf is Ok {
                let ghost cv1 = eval_at(a1, rho);
                let ghost cv2 = eval_at(b1, rho);
                let ghost av1 = abs_eval_at(a2, rho2);
                let ghost av2 = abs_eval_at(b2, rho2);
                assert(cv1 is Ok && cv2 is Ok);
                assert(av1 is Ok && av2 is Ok);
                lemma_sound_prefix_of(cv1->Ok_0, cv2->Ok_0, av1->Ok_0, av2->Ok_0);
            }
        },
        (Func::SuffixOf(a1, b1), Func::SuffixOf(a2, b2)) => {
            lemma_abs_eval_sound(a1, a2, rho, rho2);
            lemma_abs_eval_sound(b1, b2, rho, rho2);
            let ghost rcf = spec_eval_func(*fr, rho);
            let ghost raf = spec_abs_eval_func(*gr, rho2);
            if rcf is Ok && raf is Ok {
                let ghost cv1 = eval_at(a1, rho);
                let ghost cv2 = eval_at(b1, rho);
                let ghost av1 = abs_eval_at(a2, rho2);
                let ghost av2 = abs_eval_at(b2, rho2);
                assert(cv1 is Ok && cv2 is Ok);
                assert(av1 is Ok && av2 is Ok);
                lemma_sound_suffix_of(cv1->Ok_0, cv2->Ok_0, av1->Ok_0, av2->Ok_0);
            }
        },
        (Func::Contains(a1, b1), Func::Contains(a2, b2)) => {
            lemma_abs_eval_sound(a1, a2, rho, rho2);
            lemma_abs_eval_sound(b1, b2, rho, rho2);
            let ghost rcf = spec_eval_func(*fr, rho);
            let ghost raf = spec_abs_eval_func(*gr, rho2);
            if rcf is Ok && raf is Ok {
                let ghost cv1 = eval_at(a1, rho);
                let ghost cv2 = eval_at(b1, rho);
                let ghost av1 = abs_eval_at(a2, rho2);
                let ghost av2 = abs_eval_at(b2, rho2);
                assert(cv1 is Ok && cv2 is Ok);
                assert(av1 is Ok && av2 is Ok);
                lemma_sound_contains(cv1->Ok_0, cv2->Ok_0, av1->Ok_0, av2->Ok_0);
            }
        },
        (Func::Replace(a1, b1, c1), Func::Replace(a2, b2, c2)) => {
            lemma_abs_eval_sound(a1, a2, rho, rho2);
            lemma_abs_eval_sound(b1, b2, rho, rho2);
            lemma_abs_eval_sound(c1, c2, rho, rho2);
            let ghost rcf = spec_eval_func(*fr, rho);
            let ghost raf = spec_abs_eval_func(*gr, rho2);
            if rcf is Ok && raf is Ok {
                let ghost cv1 = eval_at(a1, rho);
                let ghost cv2 = eval_at(b1, rho);
                let ghost cv3 = eval_at(c1, rho);
                let ghost av1 = abs_eval_at(a2, rho2);
                let ghost av2 = abs_eval_at(b2, rho2);
                let ghost av3 = abs_eval_at(c2, rho2);
                assert(cv1 is Ok && cv2 is Ok && cv3 is Ok);
                assert(av1 is Ok && av2 is Ok && av3 is Ok);
                lemma_sound_replace(cv1->Ok_0, cv2->Ok_0, cv3->Ok_0, av1->Ok_0, av2->Ok_0, av3->Ok_0);
            }
        },
        (Func::Substr(a1, b1, c1), Func::Substr(a2, b2, c2)) => {
            lemma_abs_eval_sound(a1, a2, rho, rho2);
            lemma_abs_eval_sound(b1, b2, rho, rho2);
            lemma_abs_eval_sound(c1, c2, rho, rho2);
            let ghost rcf = spec_eval_func(*fr, rho);
            let ghost raf = spec_abs_eval_func(*gr, rho2);
            if rcf is Ok && raf is Ok {
                let ghost cv1 = eval_at(a1, rho);
                let ghost cv2 = eval_at(b1, rho);
                let ghost cv3 = eval_at(c1, rho);
                let ghost av1 = abs_eval_at(a2, rho2);
                let ghost av2 = abs_eval_at(b2, rho2);
                let ghost av3 = abs_eval_at(c2, rho2);
                assert(cv1 is Ok && cv2 is Ok && cv3 is Ok);
                assert(av1 is Ok && av2 is Ok && av3 is Ok);
                lemma_sound_substr(cv1->Ok_0, cv2->Ok_0, cv3->Ok_0, av1->Ok_0, av2->Ok_0, av3->Ok_0);
            }
        },
        (Func::IndexOf(a1, b1, c1), Func::IndexOf(a2, b2, c2)) => {
            lemma_abs_eval_sound(a1, a2, rho, rho2);
            lemma_abs_eval_sound(b1, b2, rho, rho2);
            lemma_abs_eval_sound(c1, c2, rho, rho2);
            let ghost rcf = spec_eval_func(*fr, rho);
            let ghost raf = spec_abs_eval_func(*gr, rho2);
            if rcf is Ok && raf is Ok {
                let ghost cv1 = eval_at(a1, rho);
                let ghost cv2 = eval_at(b1, rho);
                let ghost cv3 = eval_at(c1, rho);
                let ghost av1 = abs_eval_at(a2, rho2);
                let ghost av2 = abs_eval_at(b2, rho2);
                let ghost av3 = abs_eval_at(c2, rho2);
                assert(cv1 is Ok && cv2 is Ok && cv3 is Ok);
                assert(av1 is Ok && av2 is Ok && av3 is Ok);
                lemma_sound_index_of(cv1->Ok_0, cv2->Ok_0, cv3->Ok_0, av1->Ok_0, av2->Ok_0, av3->Ok_0);
            }
        },
        (Func::Len(a1), Func::Len(a2)) => {
            lemma_abs_eval_sound(a1, a2, rho, rho2);
            let ghost rcf = spec_eval_func(*fr, rho);
            let ghost raf = spec_abs_eval_func(*gr, rho2);
            if rcf is Ok && raf is Ok {
                let ghost cv1 = eval_at(a1, rho);
                let ghost av1 = abs_eval_at(a2, rho2);
                assert(cv1 is Ok);
                assert(av1 is Ok);
                lemma_sound_len(cv1->Ok_0, av1->Ok_0);
            }
        },
        (Func::ToStr(a1), Func::ToStr(a2)) => {
            lemma_abs_eval_sound(a1, a2, rho, rho2);
            let ghost rcf = spec_eval_func(*fr, rho);
            let ghost raf = spec_abs_eval_func(*gr, rho2);
            if rcf is Ok && raf is Ok {
                let ghost cv1 = eval_at(a1, rho);
                let ghost av1 = abs_eval_at(a2, rho2);
                assert(cv1 is Ok);
                assert(av1 is Ok);
                lemma_sound_to_str(cv1->Ok_0, av1->Ok_0);
            }
        },
        (Func::ToInt(a1), Func::ToInt(a2)) => {
            lemma_abs_eval_sound(a1, a2, rho, rho2);
            let ghost rcf = spec_eval_func(*fr, rho);
            let ghost raf = spec_abs_eval_func(*gr, rho2);
            if rcf is Ok && raf is Ok {
                let ghost cv1 = eval_at(a1, rho);
                let ghost av1 = abs_eval_at(a2, rho2);
                assert(cv1 is Ok);
                assert(av1 is Ok);
                lemma_sound_to_int(cv1->Ok_0, av1->Ok_0);
            }
        },
        _ => {
            assert(false);
        },
    }
}

} // verus!
