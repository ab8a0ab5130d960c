use absynthe::concrete::PyVal;
use absynthe::linear::LinearExpr;
use absynthe::pythonlang::{Expr, Func};
use absynthe::types::TypeLattice;
use std::rc::Rc;

#[test]
fn converts_to_python_src() {
    let ast: Expr<PyVal, TypeLattice> = Expr::GetItem(
        Rc::new(Expr::Call(Some(Rc::new(Expr::Var("df".to_string()))), Func::Loc)),
        Rc::new(Expr::List(vec![
            Rc::new(Expr::Const(PyVal::Int(LinearExpr::from(0)))),
            Rc::new(Expr::Const(PyVal::Int(LinearExpr::from(2)))),
            Rc::new(Expr::Const(PyVal::Int(LinearExpr::from(4)))),
        ])),
    );
    assert_eq!("df.loc()[[0, 2, 4]]", ast.to_text());
}

#[test]
fn python_ast_shape() {
    let hole: Expr<PyVal, TypeLattice> = Expr::Hole(TypeLattice::String, None);
    assert!(hole.has_hole());
    let leaf: Expr<PyVal, TypeLattice> = Expr::Const(PyVal::from(3));
    assert!(!leaf.has_hole());
    assert_eq!(leaf.size(), 0);
    let call: Expr<PyVal, TypeLattice> =
        Expr::Call(Some(Rc::new(Expr::Var("df".to_string()))), Func::Loc);
    assert_eq!(call.size(), 1);
    let list: Expr<PyVal, TypeLattice> = Expr::List(vec![
        Rc::new(call),
        Rc::new(Expr::Hole(TypeLattice::Integer, None)),
    ]);
    assert!(list.has_hole());
    assert_eq!(list.size(), 1);
}
