use absynthe::concrete::{EvalError, StrVal};
use absynthe::environment::Environment;
use absynthe::interpreter::interp;
use absynthe::linear::LinearExpr;
use absynthe::strlenlat::StrLenLat;
use absynthe::syguslang::{Expr, Func};
use absynthe::types::TypeLattice;
use std::rc::Rc;

fn len5() -> StrLenLat {
    StrLenLat::Len(LinearExpr::from(5))
}

#[test]
fn lattice_eq() {
    assert_eq!(StrLenLat::Top == StrLenLat::Top, true);
    assert_eq!(StrLenLat::Bot == StrLenLat::Bot, true);
    assert_eq!(len5() == len5(), true);
    assert_eq!(StrLenLat::Top == StrLenLat::Bot, false);
    assert_eq!(StrLenLat::Top == len5(), false);
    assert_eq!(StrLenLat::Bot == len5(), false);
}

#[test]
fn lattice_order() {
    assert!(StrLenLat::Bot <= StrLenLat::Top);
    assert!(StrLenLat::Bot <= len5());
    assert!(len5() <= StrLenLat::Top);
    // two different known lengths are incomparable
    assert!(!(StrLenLat::Len(LinearExpr::from(2)) <= len5()));
    assert!(len5() <= len5());
}

#[test]
fn type_lattice_order() {
    assert!(TypeLattice::Bot.le(&TypeLattice::Top));
    assert!(TypeLattice::Bot.le(&TypeLattice::String));
    assert!(TypeLattice::Integer.le(&TypeLattice::Top));
    assert!(TypeLattice::Bool.le(&TypeLattice::Bool));
    assert!(!TypeLattice::String.le(&TypeLattice::Integer));
    assert!(!TypeLattice::Top.le(&TypeLattice::Bool));
}

#[test]
fn lattice_add_sub_inverse() {
    let l1 = StrLenLat::Len(LinearExpr::from("x".to_string()));
    let l2 = StrLenLat::Len(LinearExpr::from(3));
    let back = l1.add(&l2).sub(&l1);
    assert!(back == l2);
    assert!(StrLenLat::Top.add(&l2) == StrLenLat::Top);
    assert!(l1.add(&StrLenLat::Bot) == StrLenLat::Bot);
}

fn hello() -> Rc<Expr<StrVal, StrLenLat>> {
    Rc::new(Expr::Call(Func::Len(Rc::new(Expr::Const(StrVal::Str("hello world".to_string()))))))
}

#[test]
fn interp_fail() {
    let prog = Expr::Call(Func::Substr(hello(), hello(), hello()));
    let env: Environment<StrVal> = Environment::new();
    assert!(interp(&prog, &env) == Err(EvalError::TypeMismatch));
}

#[test]
fn interp_pass() {
    let prog = Expr::Call(Func::Len(Rc::new(Expr::Const(StrVal::Str("hello world".to_string())))));
    let env: Environment<StrVal> = Environment::new();
    assert!(interp(&prog, &env) == Ok(StrVal::from(11)));
}

#[test]
fn lattice_join() {
    let l5 = len5();
    let l2 = StrLenLat::Len(LinearExpr::from(2));
    assert!(StrLenLat::Bot.join(&l5) == l5);
    assert!(l5.join(&StrLenLat::Bot) == l5);
    assert!(StrLenLat::Top.join(&l5) == StrLenLat::Top);
    assert!(l5.join(&l5) == l5);
    assert!(l5.join(&l2) == StrLenLat::Top);
}

#[test]
fn type_of_values() {
    assert_eq!(TypeLattice::of_value(&StrVal::Str("a".to_string())), TypeLattice::String);
    assert_eq!(TypeLattice::of_value(&StrVal::from(1)), TypeLattice::Integer);
    assert_eq!(TypeLattice::of_value(&StrVal::Bool(true)), TypeLattice::Bool);
    assert_eq!(TypeLattice::of_value(&StrVal::Error), TypeLattice::Bot);
}
