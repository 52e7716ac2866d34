use nakala::lexer::{tokenize, Lexer, Token, TokenKind};
use nakala::span::Span;

fn kinds(input: &str) -> Vec<TokenKind> {
    tokenize(0, input).into_iter().map(|t| t.kind).collect()
}

#[test]
fn tokens_spell_the_input() {
    let input = "let x = [1.5, \"a b\"] -> y;\n  @ é";
    let tokens = tokenize(3, input);
    let text: String = tokens.iter().map(|t| t.text.as_str()).collect();
    assert_eq!(text, input);
    assert_eq!(tokens[0].span.start, 0);
    assert_eq!(tokens.last().unwrap().span.end, input.len());
    for pair in tokens.windows(2) {
        assert_eq!(pair[0].span.end, pair[1].span.start);
    }
    for t in &tokens {
        assert!(!t.text.is_empty());
        assert_eq!(t.span.source_id, 3);
        assert_eq!(&input[t.span.start..t.span.end], t.text);
    }
}

#[test]
fn lexer_ends_after_the_last_token() {
    let mut lexer = Lexer::new(0, "a b");
    assert_eq!(lexer.next().unwrap().text, "a");
    assert_eq!(lexer.next().unwrap().kind, TokenKind::Whitespace);
    assert_eq!(lexer.next().unwrap().text, "b");
    assert_eq!(lexer.next(), None);
    assert_eq!(lexer.next(), None);
}

#[test]
fn empty_input_has_no_tokens() {
    assert!(tokenize(0, "").is_empty());
    let mut lexer = Lexer::new(0, "");
    assert_eq!(lexer.next(), None);
}

#[test]
fn keywords_need_the_whole_word() {
    assert_eq!(kinds("andy"), vec![TokenKind::Ident]);
    assert_eq!(kinds("classes"), vec![TokenKind::Ident]);
    assert_eq!(kinds("if"), vec![TokenKind::If]);
    assert_eq!(kinds("if1"), vec![TokenKind::Ident]);
}

#[test]
fn longest_operator_wins() {
    assert_eq!(kinds("==="), vec![TokenKind::EqualEqual, TokenKind::Equal]);
    assert_eq!(kinds("->"), vec![TokenKind::Arrow]);
    assert_eq!(kinds("- >"), vec![TokenKind::Minus, TokenKind::Whitespace, TokenKind::Greater]);
    assert_eq!(kinds("<=>"), vec![TokenKind::LessEqual, TokenKind::Greater]);
}

#[test]
fn numbers_take_at_most_one_dot() {
    assert_eq!(kinds("1."), vec![TokenKind::Number, TokenKind::Dot]);
    assert_eq!(kinds("1.2.3"), vec![TokenKind::Number, TokenKind::Dot, TokenKind::Number]);
    assert_eq!(kinds(".5"), vec![TokenKind::Dot, TokenKind::Number]);
    let t = tokenize(0, "12.5x");
    assert_eq!(t[0].text, "12.5");
    assert_eq!(t[1].kind, TokenKind::Ident);
}

#[test]
fn unterminated_string_is_an_error_then_more_tokens() {
    let t = tokenize(0, "\"ab");
    assert_eq!(t[0].kind, TokenKind::Error);
    assert_eq!(t[0].text, "\"");
    assert_eq!(t[1].kind, TokenKind::Ident);
    assert_eq!(t[1].text, "ab");
}

#[test]
fn unknown_characters_are_one_character_errors() {
    let t = tokenize(0, "@é");
    assert_eq!(t.len(), 2);
    assert_eq!(t[0], Token { kind: TokenKind::Error, text: "@".to_string(), span: Span::new(0, 0, 1) });
    assert_eq!(t[1], Token { kind: TokenKind::Error, text: "é".to_string(), span: Span::new(0, 1, 3) });
}

#[test]
fn type_and_declaration_keywords() {
    assert_eq!(
        kinds("enum static int float bool string any"),
        vec![
            TokenKind::Enum,
            TokenKind::Whitespace,
            TokenKind::Static,
            TokenKind::Whitespace,
            TokenKind::TypeInt,
            TokenKind::Whitespace,
            TokenKind::TypeFloat,
            TokenKind::Whitespace,
            TokenKind::TypeBool,
            TokenKind::Whitespace,
            TokenKind::TypeString,
            TokenKind::Whitespace,
            TokenKind::TypeAny,
        ]
    );
    assert_eq!(kinds("[:]"), vec![TokenKind::LeftBracket, TokenKind::Colon, TokenKind::RightBracket]);
}

#[test]
fn whitespace_runs_are_one_token() {
    let t = tokenize(0, " \t\n\r x");
    assert_eq!(t.len(), 2);
    assert_eq!(t[0].kind, TokenKind::Whitespace);
    assert_eq!(t[0].span, Span::new(0, 0, 5));
    assert!(t[0].kind.is_trivia());
    assert!(!t[1].kind.is_trivia());
}

#[test]
fn token_text_at_its_place() {
    let t = tokenize(4, "  abc");
    let s = t[1].spanned();
    assert_eq!(s.item, "abc");
    assert_eq!(s.span, Span::new(4, 2, 5));
}
