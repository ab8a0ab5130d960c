use absynthe::abstraction::StrValAbs;
use absynthe::concrete::StrVal;
use absynthe::environment::Environment;
use absynthe::linear::LinearExpr;
use absynthe::strlenlat::StrLenLat;
use absynthe::syguslang::Expr;
use absynthe::synthesizer::{Context, Synthesizer};
use absynthe::values::MixedValue;

fn conc(s: &str) -> StrValAbs {
    MixedValue::Conc(StrVal::Str(s.to_string()))
}

#[test]
fn bikes() {
    let consts = vec![
        StrVal::from(0),
        StrVal::from(1),
        StrVal::from(2),
        StrVal::from(3),
        StrVal::from(4),
        StrVal::from(5),
        StrVal::from(" ".to_string()),
    ];

    let mut env: Environment<StrValAbs> = Environment::new();
    env.put("arg0".to_string(), MixedValue::Abs(StrLenLat::from("x".to_string())));

    let target = LinearExpr::from("x".to_string()).try_sub(&LinearExpr::from(3)).unwrap();

    let mut ctx = Context::new(&consts, &env);

    let test = |prog: &Expr<StrValAbs, StrLenLat>| -> bool {
        Synthesizer::wrap_func(prog, &vec![conc("Ducati100")]) == Ok(conc("Ducati"))
            && Synthesizer::wrap_func(prog, &vec![conc("Honda125")]) == Ok(conc("Honda"))
            && Synthesizer::wrap_func(prog, &vec![conc("Ducati250")]) == Ok(conc("Ducati"))
            && Synthesizer::wrap_func(prog, &vec![conc("Honda250")]) == Ok(conc("Honda"))
            && Synthesizer::wrap_func(prog, &vec![conc("Honda550")]) == Ok(conc("Honda"))
            && Synthesizer::wrap_func(prog, &vec![conc("Ducati125")]) == Ok(conc("Ducati"))
    };

    let progs = Synthesizer::synthesize(&mut ctx, StrLenLat::from(target), &env, test).unwrap();

    assert_eq!("(substr arg0 0 (- (len arg0) 3))", progs[0].to_text());
}
