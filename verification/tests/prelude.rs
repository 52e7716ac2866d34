use nakala::compiler::{add_prelude, PRELUDE};

#[test]
fn prelude_is_appended() {
    let mut out = String::from("// generated\n");
    add_prelude(&mut out);
    assert_eq!(out, format!("// generated\n{}", PRELUDE));
    assert!(PRELUDE.contains("#include<iostream>"));
    assert!(PRELUDE.contains("class Value {"));
}
