use absynthe::abstraction::{mixed_le, StrValAbs};
use absynthe::concrete::StrVal;
use absynthe::environment::Environment;
use absynthe::strlenlat::StrLenLat;
use absynthe::syguslang::{Expr, Term};
use absynthe::synthesizer::{concretize, gen_call, str_append_inv, visit_hole, Synthesizer, TermA};
use absynthe::values::MixedValue;
use std::collections::HashMap;
use std::rc::Rc;

fn seeded() -> (Environment<StrValAbs>, HashMap<u32, Vec<TermA>>) {
    let mut env: Environment<StrValAbs> = Environment::new();
    env.put("arg0".to_string(), MixedValue::Abs(StrLenLat::from("x".to_string())));
    let leaves: Vec<TermA> = vec![
        Rc::new(Expr::Const(MixedValue::Conc(StrVal::from(0)))),
        Rc::new(Expr::Const(MixedValue::Conc(StrVal::from(3)))),
        Rc::new(Expr::Const(MixedValue::Conc(StrVal::Str(" ".to_string())))),
        Rc::new(Expr::Var("arg0".to_string())),
    ];
    let mut cache: HashMap<u32, Vec<TermA>> = HashMap::new();
    cache.insert(0, leaves);
    (env, cache)
}

fn texts(v: &Vec<TermA>) -> Vec<String> {
    v.iter().map(|t| t.to_text()).collect()
}

/// Asking for the same size twice gives identical results from the cache,
/// without re-enumerating.
#[test]
fn concretize_idempotent() {
    let (env, mut cache) = seeded();
    let first = concretize(&env, 1, &mut cache);
    let second = concretize(&env, 1, &mut cache);
    assert_eq!(texts(&first), texts(&second));
    let third = concretize(&env, 3, &mut cache);
    let fourth = concretize(&env, 3, &mut cache);
    assert_eq!(texts(&third), texts(&fourth));
}

/// Size-one enumeration holds exactly the length expressions over the
/// leaves that evaluate abstractly: lengths of strings, not of integers.
#[test]
fn concretize_lengths() {
    let (env, mut cache) = seeded();
    let v = concretize(&env, 1, &mut cache);
    let t = texts(&v);
    assert!(t.contains(&"(len \" \")".to_string()));
    assert!(t.contains(&"(len arg0)".to_string()));
    assert!(!t.contains(&"(len 0)".to_string()));
}

/// Size-two enumeration pairs every leaf with every leaf, so both argument
/// orders of a sum appear.
#[test]
fn concretize_pairs() {
    let (env, mut cache) = seeded();
    let v = concretize(&env, 2, &mut cache);
    let t = texts(&v);
    assert!(t.contains(&"(+ 0 3)".to_string()));
    assert!(t.contains(&"(+ 3 0)".to_string()));
    assert!(t.contains(&"(append \" \" \" \")".to_string()));
    assert!(!t.contains(&"(+ 0 \" \")".to_string()));
}

/// With a `Bot` target no constant and no variable passes the leaf filter:
/// every expansion of a fresh hole still carries a hole.
#[test]
fn bot_target_keeps_no_leaves() {
    let (env, mut cache) = seeded();
    let expansions = visit_hole(&StrLenLat::Bot, &None, &env, &mut cache);
    assert!(expansions.len() > 0);
    for e in expansions.iter() {
        assert!(e.has_hole());
    }
}

/// With a `Top` target every leaf with a length passes the filter; an
/// integer has no abstraction and stays incomparable even with `Top`.
#[test]
fn top_target_keeps_leaves() {
    let (env, mut cache) = seeded();
    let expansions = visit_hole(&StrLenLat::Top, &None, &env, &mut cache);
    let t = texts(&expansions);
    assert!(t.contains(&"arg0".to_string()));
    assert!(t.contains(&"\" \"".to_string()));
    assert!(!t.contains(&"0".to_string()));
}

/// The mixed order: concrete values compare with lattice elements through
/// their abstraction, and nothing but `Bot` sits below `Bot`.
#[test]
fn mixed_order_bot() {
    let s: StrValAbs = MixedValue::Conc(StrVal::Str("ab".to_string()));
    let i: StrValAbs = MixedValue::Conc(StrVal::from(7));
    let bot: StrValAbs = MixedValue::Abs(StrLenLat::Bot);
    let top: StrValAbs = MixedValue::Abs(StrLenLat::Top);
    let len2: StrValAbs = MixedValue::Abs(StrLenLat::from(2));
    assert!(!mixed_le(&s, &bot));
    assert!(!mixed_le(&i, &bot));
    assert!(mixed_le(&bot, &bot));
    assert!(mixed_le(&s, &top));
    assert!(mixed_le(&s, &len2));
    assert!(!mixed_le(&i, &top));
}

/// A term is shared, not copied: expansion results render the same whether
/// reached through the cache or through the returned list.
#[test]
fn terms_are_shared() {
    let leaf: Term<StrValAbs, StrLenLat> =
        Rc::new(Expr::Const(MixedValue::Conc(StrVal::from(3))));
    let again = leaf.clone();
    assert_eq!(leaf.to_text(), again.to_text());
    assert!(Rc::ptr_eq(&leaf, &again));
}

/// A fresh hole commits to exactly two call shapes: an `append` with an
/// enumerated left argument, and a `substr` with enumerated bounds.
#[test]
fn gen_call_shapes() {
    let calls = gen_call();
    assert_eq!(calls.len(), 2);
}

/// The inverse of `append` subtracts the fixed argument's abstraction from
/// the target, and yields nothing for an argument with no length.
#[test]
fn append_inverse() {
    let env_pair = seeded();
    let env = env_pair.0;
    let target = StrLenLat::from(7);
    let blank: Expr<StrValAbs, StrLenLat> =
        Expr::Const(MixedValue::Conc(StrVal::Str("ab".to_string())));
    let inv = str_append_inv(&target, &blank, &env).unwrap();
    assert!(inv == StrLenLat::from(5));
    let int_arg: Expr<StrValAbs, StrLenLat> = Expr::Const(MixedValue::Conc(StrVal::from(3)));
    assert!(str_append_inv(&target, &int_arg, &env).is_none());
}

/// Binding positional arguments and evaluating computes concretely on a
/// concrete program.
#[test]
fn wrap_func_runs() {
    let prog: Expr<StrValAbs, StrLenLat> = Expr::Var("arg0".to_string());
    let args = vec![MixedValue::Conc(StrVal::Str("hi".to_string()))];
    let r = Synthesizer::wrap_func(&prog, &args);
    assert!(r == Ok(MixedValue::Conc(StrVal::Str("hi".to_string()))));
    let unbound: Expr<StrValAbs, StrLenLat> = Expr::Var("arg1".to_string());
    assert!(Synthesizer::wrap_func(&unbound, &args).is_err());
}
