use absynthe::linear::LinearExpr;

#[test]
fn test_const() {
    let x = LinearExpr::from(2);
    assert_eq!(x.constant(), 2);
}

#[test]
fn test_op() {
    let x = LinearExpr::from("x".to_string());
    let c = LinearExpr::from(2);
    let sum = x.try_add(&c).unwrap();
    let res = LinearExpr::from(2).try_mul(&sum).unwrap().try_sub(&LinearExpr::from(1)).unwrap();
    assert_eq!(res.constant(), 3);
    assert_eq!(res.coeff(&"x".to_string()), 2);
}

#[test]
fn add_sub_round_trip() {
    let l1 = LinearExpr::from("x".to_string()).try_add(&LinearExpr::from(2)).unwrap();
    let l2 = LinearExpr::from(3);
    let sum = l1.try_add(&l2).unwrap();
    let back = sum.try_sub(&l1).unwrap();
    assert!(back == l2);
}

#[test]
fn add_overflow_reported() {
    let big = LinearExpr::from(i32::MAX);
    let one = LinearExpr::from(1);
    assert!(big.try_add(&one).is_none());
    assert!(big.try_add(&LinearExpr::from(0)).is_some());
}

#[test]
fn mul_symbolic_refused() {
    let x = LinearExpr::from("x".to_string());
    let y = LinearExpr::from("y".to_string());
    assert!(x.try_mul(&y).is_none());
    let two_x = x.try_mul(&LinearExpr::from(2)).unwrap();
    assert_eq!(two_x.coeff(&"x".to_string()), 2);
    assert_eq!(two_x.constant(), 0);
}

#[test]
fn const_queries() {
    let x = LinearExpr::from("x".to_string());
    assert!(!x.is_const());
    assert!(x.as_const().is_none());
    let c = LinearExpr::from(7);
    assert!(c.is_const());
    assert_eq!(c.as_const(), Some(7));
}
