use nakala::value::{compare_values, order_texts, values_equal, Order, ValKey};

fn s(text: &str) -> ValKey {
    ValKey::String(text.to_string())
}

#[test]
fn values_of_one_kind_compare_by_content() {
    assert_eq!(compare_values(&ValKey::Bool(false), &ValKey::Bool(true)), Order::Less);
    assert_eq!(compare_values(&ValKey::Bool(true), &ValKey::Bool(true)), Order::Equal);
    assert_eq!(compare_values(&ValKey::Int(5), &ValKey::Int(0)), Order::Greater);
    assert_eq!(compare_values(&ValKey::Int(-3), &ValKey::Int(2)), Order::Less);
    assert_eq!(compare_values(&s("abc"), &s("abd")), Order::Less);
    assert_eq!(compare_values(&s("b"), &s("abc")), Order::Greater);
    assert_eq!(compare_values(&s("ab"), &s("abc")), Order::Less);
    assert_eq!(compare_values(&s(""), &s("")), Order::Equal);
    assert_eq!(compare_values(&ValKey::Instance(3), &ValKey::Instance(1)), Order::Greater);
    assert_eq!(compare_values(&ValKey::Null, &ValKey::Null), Order::Equal);
}

#[test]
fn values_of_different_kinds_compare_by_kind() {
    assert_eq!(compare_values(&ValKey::Bool(true), &ValKey::Int(0)), Order::Less);
    assert_eq!(compare_values(&ValKey::Bool(true), &ValKey::Null), Order::Less);
    assert_eq!(compare_values(&ValKey::Int(7), &ValKey::Bool(false)), Order::Greater);
    assert_eq!(compare_values(&ValKey::Int(7), &ValKey::Float), Order::Less);
    assert_eq!(compare_values(&ValKey::Int(7), &s("x")), Order::Less);
    assert_eq!(compare_values(&s("x"), &ValKey::Float), Order::Greater);
    assert_eq!(compare_values(&s("x"), &ValKey::List), Order::Less);
    assert_eq!(compare_values(&ValKey::Instance(0), &ValKey::Class), Order::Greater);
    assert_eq!(compare_values(&ValKey::Instance(0), &ValKey::Builtin), Order::Less);
    assert_eq!(compare_values(&ValKey::Instance(0), &ValKey::Null), Order::Less);
    assert_eq!(compare_values(&ValKey::Null, &ValKey::Instance(0)), Order::Greater);
    assert_eq!(compare_values(&ValKey::Null, &ValKey::Builtin), Order::Less);
    assert_eq!(compare_values(&ValKey::Null, &ValKey::Function), Order::Greater);
}

#[test]
fn swapping_values_swaps_the_order() {
    let vals = vec![
        ValKey::Bool(false),
        ValKey::Bool(true),
        ValKey::Int(-1),
        ValKey::Int(4),
        s("a"),
        s("ab"),
        s("é"),
        ValKey::Instance(2),
        ValKey::Null,
    ];
    for a in &vals {
        assert_eq!(compare_values(a, a), Order::Equal);
        assert!(values_equal(a, a));
        for b in &vals {
            let ab = compare_values(a, b);
            let ba = compare_values(b, a);
            assert_eq!(ab == Order::Less, ba == Order::Greater);
            assert_eq!(ab == Order::Equal, ba == Order::Equal);
        }
    }
}

#[test]
fn texts_compare_by_code_point() {
    assert_eq!(order_texts(&"z".to_string(), &"é".to_string()), Order::Less);
    assert_eq!(order_texts(&"Z".to_string(), &"a".to_string()), Order::Less);
    assert!(!values_equal(&s("a"), &s("A")));
}
