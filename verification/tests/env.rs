use nakala::env::Environment;

fn s(t: &str) -> String {
    t.to_string()
}

#[test]
fn a_defined_name_is_found_in_its_scope_and_inner_ones() {
    let mut env: Environment<i64> = Environment::new();
    env.define(0, s("x"), 1);
    let inner = env.begin_scope(0);
    assert_eq!(inner, 1);
    assert_eq!(env.get(0, &s("x")), Some(&1));
    assert_eq!(env.get(inner, &s("x")), Some(&1));
    assert_eq!(env.get(inner, &s("y")), None);
}

#[test]
fn an_inner_definition_shadows_and_leaves_the_outer_one() {
    let mut env: Environment<i64> = Environment::new();
    env.define(0, s("x"), 1);
    let inner = env.begin_scope(0);
    env.define(inner, s("x"), 2);
    assert_eq!(env.get(inner, &s("x")), Some(&2));
    assert_eq!(env.get(0, &s("x")), Some(&1));
    let sibling = env.begin_scope(0);
    assert_eq!(env.get(sibling, &s("x")), Some(&1));
}

#[test]
fn assignment_changes_the_binding_that_is_seen() {
    let mut env: Environment<i64> = Environment::new();
    env.define(0, s("x"), 1);
    let inner = env.begin_scope(0);
    assert!(env.assign(inner, &s("x"), 5));
    assert_eq!(env.get(0, &s("x")), Some(&5));
    assert_eq!(env.get(inner, &s("x")), Some(&5));
    assert!(!env.assign(inner, &s("nope"), 7));
    assert_eq!(env.get(inner, &s("nope")), None);
}

#[test]
fn nested_scopes_see_through_every_enclosing_one() {
    let mut env: Environment<&str> = Environment::new();
    env.define(0, s("a"), "global");
    let f = env.begin_scope(0);
    env.define(f, s("b"), "function");
    let block = env.begin_scope(f);
    env.define(block, s("c"), "block");
    assert_eq!(env.get(block, &s("a")), Some(&"global"));
    assert_eq!(env.get(block, &s("b")), Some(&"function"));
    assert_eq!(env.get(block, &s("c")), Some(&"block"));
    assert_eq!(env.get(f, &s("c")), None);
    assert_eq!(env.get(0, &s("b")), None);
}
