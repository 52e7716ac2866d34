use nakala::lexer::TokenKind;
use nakala::source::Source;
use nakala::span::{Span, Spanned};
use nakala::symtab::{Sym, Symbol, SymbolMap, SymbolTable};
use nakala::types::{type_compatible, Type, TypeExpression};

fn var(name: &str, ty: Type) -> Symbol {
    Symbol { name: Spanned { item: name.to_string(), span: Span::garbage() }, sym: Sym::Variable, ty }
}

#[test]
fn span_constructors() {
    assert_eq!(Span::new(1, 2, 3), Span { source_id: 1, start: 2, end: 3 });
    assert_eq!(Span::garbage(), Span { source_id: 0, start: 0, end: 0 });
}

#[test]
fn span_combine() {
    let a = Span::new(4, 1, 3);
    let b = Span::new(5, 7, 9);
    assert_eq!(Span::combine(&[]), Span::garbage());
    assert_eq!(Span::combine(&[a]), a);
    assert_eq!(Span::combine(&[a, b]), Span::new(4, 1, 9));
    assert_eq!(Span::combine(&[a, Span::new(0, 0, 0), b]), Span::new(4, 1, 9));
}

#[test]
fn span_offset_contains_past() {
    let s = Span::new(0, 5, 8);
    assert_eq!(s.offset(5), Span::new(0, 0, 3));
    assert!(s.contains(5));
    assert!(s.contains(7));
    assert!(!s.contains(8));
    assert!(!s.contains(4));
    assert_eq!(s.past(), Span::new(0, 8, 8));
}

#[test]
fn any_type_expression() {
    assert_eq!(TypeExpression::any(), TypeExpression { ty: Type::Any, span: Span::garbage() });
}

#[test]
fn type_compatibility() {
    let list = |t: Type| Type::List(Box::new(TypeExpression { ty: t, span: Span::garbage() }));
    assert!(type_compatible(&Type::Int, &Type::Float));
    assert!(type_compatible(&Type::Float, &Type::Int));
    assert!(type_compatible(&Type::Null, &Type::Bool));
    assert!(!type_compatible(&Type::Bool, &Type::Null));
    assert!(type_compatible(&Type::Any, &Type::String));
    assert!(type_compatible(&Type::String, &Type::Any));
    assert!(!type_compatible(&Type::String, &Type::Int));
    assert!(type_compatible(&list(Type::Int), &list(Type::Float)));
    assert!(!type_compatible(&list(Type::Int), &list(Type::Bool)));
    assert!(type_compatible(&Type::Class("A".to_string()), &Type::Class("A".to_string())));
    assert!(!type_compatible(&Type::Instance("A".to_string()), &Type::Instance("B".to_string())));
    let f = |ps: Vec<Type>, r: Type| Type::Function {
        params: ps.into_iter().map(|t| TypeExpression { ty: t, span: Span::garbage() }).collect(),
        ret_ty: Box::new(TypeExpression { ty: r, span: Span::garbage() }),
    };
    assert!(type_compatible(&f(vec![Type::Int], Type::Int), &f(vec![Type::Float], Type::Any)));
    assert!(!type_compatible(&f(vec![Type::Int], Type::Int), &f(vec![], Type::Int)));
    assert!(!type_compatible(&f(vec![Type::Int], Type::Int), &f(vec![Type::Bool], Type::Int)));
}

#[test]
fn every_type_is_compatible_with_itself() {
    let list = Type::List(Box::new(TypeExpression { ty: Type::Instance("P".to_string()), span: Span::garbage() }));
    for t in [Type::Int, Type::Float, Type::Bool, Type::String, Type::Null, Type::Any, list] {
        assert!(type_compatible(&t, &t));
    }
}

#[test]
fn symbol_table_starts_with_the_builtins() {
    let t = SymbolTable::new(vec![var("a", Type::Int), var("b", Type::Bool), var("a", Type::String)]);
    assert!(t.at_global_scope());
    assert_eq!(t.lookup("a").unwrap().ty, Type::String);
    assert_eq!(t.lookup("b").unwrap().ty, Type::Bool);
    assert!(t.lookup("c").is_none());
}

#[test]
fn inner_scopes_shadow_and_leaving_restores() {
    let mut t = SymbolTable::new(vec![var("x", Type::Int)]);
    t.level_up();
    assert!(!t.at_global_scope());
    assert_eq!(t.lookup("x").unwrap().ty, Type::Int);
    t.insert(var("x", Type::Bool));
    t.insert(var("y", Type::Null));
    assert_eq!(t.lookup("x").unwrap().ty, Type::Bool);
    t.level_down();
    assert!(t.at_global_scope());
    assert_eq!(t.lookup("x").unwrap().ty, Type::Int);
    assert!(t.lookup("y").is_none());
}

#[test]
fn lookup_mut_changes_the_innermost_declaration() {
    let mut t = SymbolTable::new(vec![var("x", Type::Int)]);
    t.level_up();
    t.lookup_mut("x").unwrap().ty = Type::Float;
    t.level_down();
    assert_eq!(t.lookup("x").unwrap().ty, Type::Float);
    assert!(t.lookup_mut("nope").is_none());
}

#[test]
fn merge_prefers_the_other_table() {
    let mut a = SymbolTable::new(vec![var("x", Type::Int), var("y", Type::Int)]);
    let b = SymbolTable::new(vec![var("y", Type::Bool), var("z", Type::Null)]);
    a.merge_with(b);
    assert_eq!(a.lookup("x").unwrap().ty, Type::Int);
    assert_eq!(a.lookup("y").unwrap().ty, Type::Bool);
    assert_eq!(a.lookup("z").unwrap().ty, Type::Null);
}

#[test]
fn symbol_map_keeps_the_last_insert() {
    let mut m = SymbolMap::new();
    m.insert("k".to_string(), var("k", Type::Int));
    m.insert("k".to_string(), var("k", Type::Bool));
    assert_eq!(m.get(&"k".to_string()).unwrap().ty, Type::Bool);
    assert!(m.get(&"j".to_string()).is_none());
}

#[test]
fn source_skips_whitespace() {
    let mut s = Source::new(7, "  a  1".to_string(), "file.nak".to_string());
    assert_eq!(s.id(), 7);
    assert_eq!(s.raw(), "  a  1");
    assert_eq!(s.name(), "file.nak");
    assert_eq!(s.peek_kind(), Some(TokenKind::Ident));
    assert_eq!(s.next_token().unwrap().text, "a");
    assert!(!s.at_end());
    assert_eq!(s.next_token().unwrap().kind, TokenKind::Number);
    assert!(s.at_end());
    assert_eq!(s.next_token(), None);
    assert_eq!(s.peek_kind(), None);
    assert_eq!(s.eof(), Span::new(7, 5, 5));
}

#[test]
fn trailing_whitespace_keeps_the_source_from_its_end() {
    let mut s = Source::new(0, "a ".to_string(), String::new());
    assert_eq!(s.next_token().unwrap().text, "a");
    assert!(!s.at_end());
    assert_eq!(s.peek_kind(), None);
    assert!(s.at_end());
}

#[test]
fn types_as_messages_write_them() {
    let te = |t: Type| TypeExpression { ty: t, span: Span::garbage() };
    assert_eq!(Type::Int.to_text(), "int");
    assert_eq!(Type::Float.to_text(), "float");
    assert_eq!(Type::Bool.to_text(), "bool");
    assert_eq!(Type::String.to_text(), "string");
    assert_eq!(Type::Null.to_text(), "null");
    assert_eq!(Type::Any.to_text(), "any");
    assert_eq!(Type::Class("Point".to_string()).to_text(), "Point");
    assert_eq!(Type::Instance("Point".to_string()).to_text(), "instanceof Point");
    assert_eq!(Type::List(Box::new(te(Type::List(Box::new(te(Type::Int)))))).to_text(), "[[int]]");
    let f = Type::Function { params: vec![te(Type::Int), te(Type::Bool)], ret_ty: Box::new(te(Type::Any)) };
    assert_eq!(f.to_text(), "(int, bool) -> any");
    let g = Type::Function { params: vec![], ret_ty: Box::new(te(Type::Null)) };
    assert_eq!(g.to_text(), "() -> null");
}

#[test]
fn same_type_compares_spans_too() {
    let at = |t: Type, s: usize| TypeExpression { ty: t, span: Span::new(0, s, s) };
    assert!(nakala::types::same_type(&Type::Int, &Type::Int));
    assert!(!nakala::types::same_type(&Type::Int, &Type::Float));
    let l1 = Type::List(Box::new(at(Type::Int, 1)));
    let l2 = Type::List(Box::new(at(Type::Int, 2)));
    assert!(nakala::types::same_type(&l1, &l1));
    assert!(!nakala::types::same_type(&l1, &l2));
}

#[test]
fn coarse_type_rules() {
    assert!(nakala::type_check::type_compatible(&Type::Int, &Type::Float));
    assert!(nakala::type_check::type_compatible(&Type::Null, &Type::String));
    assert!(nakala::type_check::type_compatible(&Type::Bool, &Type::Any));
    assert!(nakala::type_check::type_compatible(&Type::Bool, &Type::Bool));
    assert!(!nakala::type_check::type_compatible(&Type::Bool, &Type::Int));
    let at = |t: Type, s: usize| TypeExpression { ty: t, span: Span::new(0, s, s) };
    let l1 = Type::List(Box::new(at(Type::Int, 1)));
    let l2 = Type::List(Box::new(at(Type::Float, 1)));
    assert!(!nakala::type_check::type_compatible(&l1, &l2));
    assert!(nakala::type_check::type_compatible(&l1, &l1));
}

#[test]
fn global_scope_after_as_many_levels_left_as_entered() {
    let mut t = SymbolTable::new(vec![]);
    t.level_up();
    t.level_up();
    t.insert(var("q", Type::Int));
    t.level_down();
    assert!(!t.at_global_scope());
    t.level_up();
    t.level_down();
    t.level_down();
    assert!(t.at_global_scope());
}

#[test]
fn leaving_a_scope_forgets_what_it_declared() {
    let mut t = SymbolTable::new(vec![var("x", Type::Int)]);
    let same = SymbolTable::new(vec![var("x", Type::Int)]);
    t.level_up();
    t.insert(var("x", Type::Bool));
    t.insert(var("y", Type::Null));
    t.insert(var("z", Type::Any));
    t.level_down();
    assert_eq!(t, same);
    assert_eq!(t.lookup("x").unwrap().ty, Type::Int);
}

#[test]
fn source_holds_the_lexer_tokens() {
    let text = " let x  = 1 ;";
    let mut s = Source::new(0, text.to_string(), String::new());
    let expected: Vec<_> = nakala::lexer::tokenize(0, text).into_iter().filter(|t| !t.kind.is_trivia()).collect();
    let mut got = vec![];
    while let Some(t) = s.next_token() {
        got.push(t.clone());
    }
    assert_eq!(got, expected);
    assert!(Source::new(0, String::new(), String::new()).at_end());
}
