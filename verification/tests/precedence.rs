use nakala::precedence::{BinaryOp, UnaryOp};

#[test]
fn terms_and_factors_have_their_powers() {
    assert_eq!(BinaryOp::Add.binding_power(), (1, 2));
    assert_eq!(BinaryOp::Sub.binding_power(), (1, 2));
    assert_eq!(BinaryOp::Mul.binding_power(), (3, 4));
    assert_eq!(BinaryOp::Div.binding_power(), (3, 4));
}

#[test]
fn negation_binds_tightest() {
    let ((), right) = UnaryOp::Neg.binding_power();
    assert_eq!(right, 5);
    for op in [BinaryOp::Add, BinaryOp::Sub, BinaryOp::Mul, BinaryOp::Div] {
        let (left, r) = op.binding_power();
        assert!(left < r);
        assert!(r < right);
    }
    assert!(BinaryOp::Add.binding_power().1 < BinaryOp::Mul.binding_power().0);
}
