use absynthe::abstraction::{abs_interp, StrValAbs};
use absynthe::concrete::{EvalError, StrVal};
use absynthe::environment::Environment;
use absynthe::interpreter::interp;
use absynthe::linear::LinearExpr;
use absynthe::strlenlat::StrLenLat;
use absynthe::syguslang::{Expr, Func};
use absynthe::values::MixedValue;
use std::rc::Rc;

fn cs(s: &str) -> Rc<Expr<StrVal, StrLenLat>> {
    Rc::new(Expr::Const(StrVal::Str(s.to_string())))
}

fn ci(i: i32) -> Rc<Expr<StrVal, StrLenLat>> {
    Rc::new(Expr::Const(StrVal::from(i)))
}

fn acs(s: &str) -> Rc<Expr<StrValAbs, StrLenLat>> {
    Rc::new(Expr::Const(MixedValue::Conc(StrVal::Str(s.to_string()))))
}

fn aci(i: i32) -> Rc<Expr<StrValAbs, StrLenLat>> {
    Rc::new(Expr::Const(MixedValue::Conc(StrVal::from(i))))
}

#[test]
fn interp_int() {
    let env: Environment<StrVal> = Environment::new();
    let prog = Expr::Const(StrVal::from(5));
    assert!(interp(&prog, &env) == Ok(StrVal::from(5)));
}

#[test]
fn interp_env() {
    let mut env: Environment<StrVal> = Environment::new();
    env.put("x".to_string(), StrVal::Str("foo".to_string()));
    let prog = Expr::Var("x".to_string());
    assert!(interp(&prog, &env) == Ok(StrVal::Str("foo".to_string())));
}

#[test]
fn interp_append() {
    let env: Environment<StrVal> = Environment::new();
    let prog = Expr::Call(Func::Append(cs("hello "), cs("world")));
    assert!(interp(&prog, &env) == Ok(StrVal::Str("hello world".to_string())));
}

#[test]
fn abs_interp_append_conc() {
    let env: Environment<StrValAbs> = Environment::new();
    let prog = Expr::Call(Func::Append(acs("hello "), acs("world")));
    assert!(abs_interp(&prog, &env) == Ok(MixedValue::Conc(StrVal::Str("hello world".to_string()))));
}

#[test]
fn abs_interp_append_abs() {
    let env: Environment<StrValAbs> = Environment::new();
    let prog = Expr::Call(
        Func::Append(acs("hello "), Rc::new(Expr::Const(MixedValue::Abs(StrLenLat::from(5))))),
    );
    assert!(abs_interp(&prog, &env) == Ok(MixedValue::Abs(StrLenLat::from(11))));
}

#[test]
fn abs_interp_append_err() {
    let env: Environment<StrValAbs> = Environment::new();
    let prog = Expr::Call(
        Func::Append(aci(6), Rc::new(Expr::Const(MixedValue::Abs(StrLenLat::from(5))))),
    );
    assert!(abs_interp(&prog, &env) == Err(EvalError::TypeMismatch));
}

fn bike_prog() -> Expr<StrVal, StrLenLat> {
    Expr::Call(
        Func::Substr(
            Rc::new(Expr::Var("arg0".to_string())),
            ci(0),
            Rc::new(
                Expr::Call(
                    Func::Sub(
                        Rc::new(Expr::Call(Func::Len(Rc::new(Expr::Var("arg0".to_string()))))),
                        ci(3),
                    ),
                ),
            ),
        ),
    )
}

#[test]
fn sygus_bikes() {
    let prog = bike_prog();
    let cases = [
        ("Ducati100", "Ducati"),
        ("Honda125", "Honda"),
        ("Ducati250", "Ducati"),
        ("Honda250", "Honda"),
        ("Honda550", "Honda"),
        ("Ducati125", "Ducati"),
    ];
    for (input, expected) in cases.iter() {
        let mut env: Environment<StrVal> = Environment::new();
        env.put("arg0".to_string(), StrVal::Str(input.to_string()));
        assert!(interp(&prog, &env) == Ok(StrVal::Str(expected.to_string())));
    }
}

#[test]
fn abs_sygus_bikes() {
    let prog = Expr::Call(
        Func::Substr(
            Rc::new(Expr::Var("arg0".to_string())),
            aci(0),
            Rc::new(
                Expr::Call(
                    Func::Sub(
                        Rc::new(Expr::Call(Func::Len(Rc::new(Expr::Var("arg0".to_string()))))),
                        aci(3),
                    ),
                ),
            ),
        ),
    );
    for (n, expected) in [(9, 6), (8, 5), (9, 6), (8, 5), (8, 5), (9, 6)].iter() {
        let mut env: Environment<StrValAbs> = Environment::new();
        env.put("arg0".to_string(), MixedValue::Abs(StrLenLat::from(*n)));
        assert!(abs_interp(&prog, &env) == Ok(MixedValue::Abs(StrLenLat::from(*expected))));
    }
}

#[test]
fn concrete_evaluator_scenarios() {
    let env: Environment<StrVal> = Environment::new();
    let len_prog = Expr::Call(Func::Len(cs("foo bar")));
    assert!(interp(&len_prog, &env) == Ok(StrVal::from(7)));
    let substr_prog = Expr::Call(Func::Substr(cs("Balloon"), ci(1), ci(4)));
    assert!(interp(&substr_prog, &env) == Ok(StrVal::Str("all".to_string())));
    let replace_prog = Expr::Call(Func::Replace(cs("boop"), cs("b"), cs("p")));
    assert!(interp(&replace_prog, &env) == Ok(StrVal::Str("poop".to_string())));
    let bad_append = Expr::Call(Func::Append(cs("hello "), ci(6)));
    assert!(interp(&bad_append, &env) == Err(EvalError::TypeMismatch));
}

#[test]
fn boundary_scenarios() {
    let env: Environment<StrVal> = Environment::new();
    let empty_sub = Expr::Call(Func::Substr(cs("Balloon"), ci(2), ci(2)));
    assert!(interp(&empty_sub, &env) == Ok(StrVal::Str("".to_string())));
    let no_match = Expr::Call(Func::IndexOf(cs("Balloon"), cs("zzz"), ci(0)));
    assert!(interp(&no_match, &env) == Ok(StrVal::from(-1)));
    let found = Expr::Call(Func::IndexOf(cs("Nancy FreeHafer"), cs(" "), ci(0)));
    assert!(interp(&found, &env) == Ok(StrVal::from(5)));
}

#[test]
fn extended_operations() {
    let env: Environment<StrVal> = Environment::new();
    let at = Expr::Call(Func::At(cs("Balloon"), ci(1)));
    assert!(interp(&at, &env) == Ok(StrVal::Str("a".to_string())));
    let to_str = Expr::Call(Func::ToStr(ci(-42)));
    assert!(interp(&to_str, &env) == Ok(StrVal::Str("-42".to_string())));
    let to_int = Expr::Call(Func::ToInt(cs("-42")));
    assert!(interp(&to_int, &env) == Ok(StrVal::from(-42)));
    let prefix = Expr::Call(Func::PrefixOf(cs("Bal"), cs("Balloon")));
    assert!(interp(&prefix, &env) == Ok(StrVal::Bool(true)));
    let suffix = Expr::Call(Func::SuffixOf(cs("xyz"), cs("Balloon")));
    assert!(interp(&suffix, &env) == Ok(StrVal::Bool(false)));
    let contains = Expr::Call(Func::Contains(cs("Balloon"), cs("loo")));
    assert!(interp(&contains, &env) == Ok(StrVal::Bool(true)));
    let add = Expr::Call(Func::Add(ci(40), ci(2)));
    assert!(interp(&add, &env) == Ok(StrVal::from(42)));
}

#[test]
fn error_variants() {
    let env: Environment<StrVal> = Environment::new();
    let unbound: Expr<StrVal, StrLenLat> = Expr::Var("nope".to_string());
    assert!(interp(&unbound, &env) == Err(EvalError::UnboundVariable));
    let hole: Expr<StrVal, StrLenLat> = Expr::Hole(StrLenLat::Top, None);
    assert!(interp(&hole, &env) == Err(EvalError::UnresolvedHole));
    let symbolic = Rc::new(Expr::Const(StrVal::Int(LinearExpr::from("x".to_string()))));
    let non_const = Expr::Call(Func::Substr(cs("Balloon"), symbolic, ci(2)));
    assert!(interp(&non_const, &env) == Err(EvalError::NonConstantIndex));
    let out_of_range = Expr::Call(Func::At(cs("Balloon"), ci(99)));
    assert!(interp(&out_of_range, &env) == Err(EvalError::InvalidIndex));
    let not_a_number = Expr::Call(Func::ToInt(cs("abc")));
    assert!(interp(&not_a_number, &env) == Err(EvalError::NotANumber));
    let overflow = Expr::Call(Func::Add(ci(i32::MAX), ci(1)));
    assert!(interp(&overflow, &env) == Err(EvalError::Overflow));
    let parse_overflow = Expr::Call(Func::ToInt(cs("2147483648")));
    assert!(interp(&parse_overflow, &env) == Err(EvalError::Overflow));
}
