use absynthe::concrete::StrVal;
use absynthe::environment::Environment;
use absynthe::interpreter::interp;
use absynthe::strlenlat::StrLenLat;
use absynthe::syguslang::{Expr, Func};
use std::rc::Rc;

fn cs(s: &str) -> Rc<Expr<StrVal, StrLenLat>> {
    Rc::new(Expr::Const(StrVal::Str(s.to_string())))
}

fn ci(i: i32) -> Rc<Expr<StrVal, StrLenLat>> {
    Rc::new(Expr::Const(StrVal::from(i)))
}

/// The title-prefixing program: `(append "Dr." (append " " (substr arg0 0
/// (indexof arg0 " " 0))))`, checked against all four examples.
#[test]
fn dr_name() {
    let arg0 = || Rc::new(Expr::Var("arg0".to_string()));
    let prog = Expr::Call(
        Func::Append(
            cs("Dr."),
            Rc::new(
                Expr::Call(
                    Func::Append(
                        cs(" "),
                        Rc::new(
                            Expr::Call(
                                Func::Substr(
                                    arg0(),
                                    ci(0),
                                    Rc::new(
                                        Expr::Call(Func::IndexOf(arg0(), cs(" "), ci(0))),
                                    ),
                                ),
                            ),
                        ),
                    ),
                ),
            ),
        ),
    );
    let cases = [
        ("Nancy FreeHafer", "Dr. Nancy"),
        ("Andrew Cencici", "Dr. Andrew"),
        ("Jan Kotas", "Dr. Jan"),
        ("Mariya Sergienko", "Dr. Mariya"),
    ];
    for (input, expected) in cases.iter() {
        let mut env: Environment<StrVal> = Environment::new();
        env.put("arg0".to_string(), StrVal::Str(input.to_string()));
        assert!(interp(&prog, &env) == Ok(StrVal::Str(expected.to_string())));
    }
}

use absynthe::abstraction::StrValAbs;
use absynthe::linear::LinearExpr;
use absynthe::synthesizer::{Context, Synthesizer};
use absynthe::values::MixedValue;

fn conc(s: &str) -> StrValAbs {
    MixedValue::Conc(StrVal::Str(s.to_string()))
}

/// The search itself builds the title-prefixing `append` shape: with first
/// names as inputs the expected program is `(append "Dr. " arg0)`.  The full
/// scenario, truncating at the first space, needs a program one node beyond
/// what the size-ten search reaches in practical time, so it is checked by
/// evaluation in `dr_name` above.
#[test]
fn dr_name_prefix_synthesis() {
    let consts = vec![StrVal::from("Dr. ".to_string())];
    let mut env: Environment<StrValAbs> = Environment::new();
    env.put("arg0".to_string(), MixedValue::Abs(StrLenLat::from("x".to_string())));
    let target = LinearExpr::from("x".to_string()).try_add(&LinearExpr::from(4)).unwrap();
    let mut ctx = Context::new(&consts, &env);
    let test = |prog: &Expr<StrValAbs, StrLenLat>| -> bool {
        Synthesizer::wrap_func(prog, &vec![conc("Nancy")]) == Ok(conc("Dr. Nancy"))
            && Synthesizer::wrap_func(prog, &vec![conc("Andrew")]) == Ok(conc("Dr. Andrew"))
            && Synthesizer::wrap_func(prog, &vec![conc("Jan")]) == Ok(conc("Dr. Jan"))
            && Synthesizer::wrap_func(prog, &vec![conc("Mariya")]) == Ok(conc("Dr. Mariya"))
    };
    let progs = Synthesizer::synthesize(&mut ctx, StrLenLat::from(target), &env, test).unwrap();
    assert_eq!("(append \"Dr. \" arg0)", progs[0].to_text());
}
