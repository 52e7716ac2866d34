//! The lexer: splits a source text into tokens by longest match.
use crate::span::{SourceId, Span, Spanned};
use vstd::prelude::*;
use vstd::utf8::*;

verus! {

broadcast use vstd::seq::group_seq_axioms;

/// The kinds of tokens of the language.
///
/// The lexeme of each fixed token is given by `fixed_kind`; the others are
/// `Whitespace`, `Ident`, `String`, `Number` (see `lexeme_kind`) and `Error`,
/// which stands for one character at which no token starts.
#[derive(Debug, Copy, Clone, PartialEq, Eq, Structural)]
pub enum TokenKind {
    Whitespace,
    // Single-character tokens
    LeftParen,
    RightParen,
    LeftBrace,
    RightBrace,
    LeftBracket,
    RightBracket,
    Comma,
    Dot,
    Minus,
    Plus,
    Semicolon,
    Colon,
    Slash,
    Star,
    // One or more character tokens
    Bang,
    BangEqual,
    Equal,
    EqualEqual,
    Greater,
    GreaterEqual,
    Less,
    LessEqual,
    Arrow,
    // Literals
    Ident,
    String,
    Number,
    // Keywords
    And,
    Class,
    Else,
    False,
    Func,
    If,
    Null,
    Or,
    Print,
    Ret,
    Super,
    This,
    True,
    Let,
    Until,
    Enum,
    Static,
    TypeInt,
    TypeFloat,
    TypeBool,
    TypeString,
    TypeAny,
    Error,
}

impl TokenKind {
    /// Trivia tokens carry no meaning for the parser and are skipped by it.
    pub open spec fn spec_is_trivia(self) -> bool {
        self == TokenKind::Whitespace
    }

    pub fn is_trivia(&self) -> (b: bool)
        ensures
            b == self.spec_is_trivia(),
    {
        *self == TokenKind::Whitespace
    }
}

/// A token: its kind, the text it was read from, and where that text lies.
#[derive(Debug, PartialEq, Clone)]
pub struct Token {
    pub kind: TokenKind,
    pub text: String,
    pub span: Span,
}

/// What a token holds, with its text as a character sequence.
pub struct TokenModel {
    pub kind: TokenKind,
    pub text: Seq<char>,
    pub span: Span,
}

impl Token {
    /// The token's text at its place.
    pub fn spanned(&self) -> (s: Spanned<String>)
        ensures
            s@ == (Spanned { item: self.text@, span: self.span }),
    {
        Spanned { item: self.text.clone(), span: self.span }
    }
}

impl View for Token {
    type V = TokenModel;

    open spec fn view(&self) -> TokenModel {
        TokenModel { kind: self.kind, text: self.text@, span: self.span }
    }
}

// ---------------------------------------------------------------------------
// Character classes
/// Unicode `White_Space` characters (the class `\s`).
pub open spec fn is_ws_char(c: char) -> bool {
    let u = c as u32;
    ||| 0x09 <= u <= 0x0D
    ||| u == 0x20
    ||| u == 0x85
    ||| u == 0xA0
    ||| u == 0x1680
    ||| 0x2000 <= u <= 0x200A
    ||| u == 0x2028
    ||| u == 0x2029
    ||| u == 0x202F
    ||| u == 0x205F
    ||| u == 0x3000
}

pub open spec fn is_alpha_char(c: char) -> bool {
    let u = c as u32;
    (0x41 <= u <= 0x5A) || (0x61 <= u <= 0x7A)
}

pub open spec fn is_digit_char(c: char) -> bool {
    let u = c as u32;
    0x30 <= u <= 0x39
}

pub open spec fn is_ident_start_char(c: char) -> bool {
    is_alpha_char(c) || c == '_'
}

pub open spec fn is_ident_char(c: char) -> bool {
    is_ident_start_char(c) || is_digit_char(c)
}

// ---------------------------------------------------------------------------
// Lexemes
/// Kinds of the one-character tokens.
pub open spec fn single_kind(c: char) -> Option<TokenKind> {
    if c == ')' {
        Some(TokenKind::LeftParen)
    } else if c == '(' {
        Some(TokenKind::RightParen)
    } else if c == '}' {
        Some(TokenKind::LeftBrace)
    } else if c == '{' {
        Some(TokenKind::RightBrace)
    } else if c == '[' {
        Some(TokenKind::LeftBracket)
    } else if c == ']' {
        Some(TokenKind::RightBracket)
    } else if c == ',' {
        Some(TokenKind::Comma)
    } else if c == '.' {
        Some(TokenKind::Dot)
    } else if c == '-' {
        Some(TokenKind::Minus)
    } else if c == '+' {
        Some(TokenKind::Plus)
    } else if c == ';' {
        Some(TokenKind::Semicolon)
    } else if c == ':' {
        Some(TokenKind::Colon)
    } else if c == '/' {
        Some(TokenKind::Slash)
    } else if c == '*' {
        Some(TokenKind::Star)
    } else if c == '!' {
        Some(TokenKind::Bang)
    } else if c == '=' {
        Some(TokenKind::Equal)
    } else if c == '>' {
        Some(TokenKind::Greater)
    } else if c == '<' {
        Some(TokenKind::Less)
    } else {
        None
    }
}

/// Kinds of the two-character operator tokens.
pub open spec fn pair_kind(a: char, b: char) -> Option<TokenKind> {
    if a == '!' && b == '=' {
        Some(TokenKind::BangEqual)
    } else if a == '=' && b == '=' {
        Some(TokenKind::EqualEqual)
    } else if a == '>' && b == '=' {
        Some(TokenKind::GreaterEqual)
    } else if a == '<' && b == '=' {
        Some(TokenKind::LessEqual)
    } else if a == '-' && b == '>' {
        Some(TokenKind::Arrow)
    } else {
        None
    }
}

/// Kinds of the keywords.
#[verifier::opaque]
pub open spec fn keyword_kind(s: Seq<char>) -> Option<TokenKind> {
    if s == seq!['a', 'n', 'd'] {
        Some(TokenKind::And)
    } else if s == seq!['c', 'l', 'a', 's', 's'] {
        Some(TokenKind::Class)
    } else if s == seq!['e', 'l', 's', 'e'] {
        Some(TokenKind::Else)
    } else if s == seq!['f', 'a', 'l', 's', 'e'] {
        Some(TokenKind::False)
    } else if s == seq!['f', 'u', 'n', 'c'] {
        Some(TokenKind::Func)
    } else if s == seq!['i', 'f'] {
        Some(TokenKind::If)
    } else if s == seq!['n', 'u', 'l', 'l'] {
        Some(TokenKind::Null)
    } else if s == seq!['o', 'r'] {
        Some(TokenKind::Or)
    } else if s == seq!['p', 'r', 'i', 'n', 't'] {
        Some(TokenKind::Print)
    } else if s == seq!['r', 'e', 't'] {
        Some(TokenKind::Ret)
    } else if s == seq!['s', 'u', 'p', 'e', 'r'] {
        Some(TokenKind::Super)
    } else if s == seq!['t', 'h', 'i', 's'] {
        Some(TokenKind::This)
    } else if s == seq!['t', 'r', 'u', 'e'] {
        Some(TokenKind::True)
    } else if s == seq!['l', 'e', 't'] {
        Some(TokenKind::Let)
    } else if s == seq!['u', 'n', 't', 'i', 'l'] {
        Some(TokenKind::Until)
    } else if s == seq!['e', 'n', 'u', 'm'] {
        Some(TokenKind::Enum)
    } else if s == seq!['s', 't', 'a', 't', 'i', 'c'] {
        Some(TokenKind::Static)
    } else if s == seq!['i', 'n', 't'] {
        Some(TokenKind::TypeInt)
    } else if s == seq!['f', 'l', 'o', 'a', 't'] {
        Some(TokenKind::TypeFloat)
    } else if s == seq!['b', 'o', 'o', 'l'] {
        Some(TokenKind::TypeBool)
    } else if s == seq!['s', 't', 'r', 'i', 'n', 'g'] {
        Some(TokenKind::TypeString)
    } else if s == seq!['a', 'n', 'y'] {
        Some(TokenKind::TypeAny)
    } else {
        None
    }
}

/// Kinds of the tokens with a fixed lexeme.
pub open spec fn fixed_kind(s: Seq<char>) -> Option<TokenKind> {
    if s.len() == 1 {
        single_kind(s[0])
    } else if s.len() == 2 && pair_kind(s[0], s[1]) is Some {
        pair_kind(s[0], s[1])
    } else {
        keyword_kind(s)
    }
}

/// `[\s]+`
pub open spec fn is_whitespace_lexeme(s: Seq<char>) -> bool {
    s.len() >= 1 && forall|i: int| 0 <= i < s.len() ==> is_ws_char(#[trigger] s[i])
}

/// `[A-Za-z_][A-Za-z0-9_]*`
pub open spec fn is_ident_lexeme(s: Seq<char>) -> bool {
    &&& s.len() >= 1
    &&& is_ident_start_char(s[0])
    &&& forall|i: int| 0 <= i < s.len() ==> is_ident_char(#[trigger] s[i])
}

/// `([0-9]+\.)?[0-9]+`: digits with at most one dot, which is neither first nor last.
pub open spec fn is_number_lexeme(s: Seq<char>) -> bool {
    &&& s.len() >= 1
    &&& is_digit_char(s[0])
    &&& is_digit_char(s[s.len() - 1])
    &&& forall|i: int| 0 <= i < s.len() ==> is_digit_char(#[trigger] s[i]) || s[i] == '.'
    &&& forall|i: int, j: int|
        0 <= i < j < s.len() ==> !(#[trigger] s[i] == '.' && #[trigger] s[j] == '.')
}

/// `"[^"]*"`
pub open spec fn is_string_lexeme(s: Seq<char>) -> bool {
    &&& s.len() >= 2
    &&& s[0] == '"'
    &&& s[s.len() - 1] == '"'
    &&& forall|i: int| 0 < i < s.len() - 1 ==> #[trigger] s[i] != '"'
}

/// The kind of token that the whole of `s` forms, if any. Fixed lexemes (operators
/// and keywords) take precedence over identifiers.
pub open spec fn lexeme_kind(s: Seq<char>) -> Option<TokenKind> {
    if fixed_kind(s) is Some {
        fixed_kind(s)
    } else if is_whitespace_lexeme(s) {
        Some(TokenKind::Whitespace)
    } else if is_ident_lexeme(s) {
        Some(TokenKind::Ident)
    } else if is_number_lexeme(s) {
        Some(TokenKind::Number)
    } else if is_string_lexeme(s) {
        Some(TokenKind::String)
    } else {
        None
    }
}

/// The `n` characters at `pos` form a token, and no longer text at `pos` does.
pub open spec fn longest_match(input: Seq<char>, pos: int, n: int) -> bool {
    &&& 1 <= n
    &&& pos + n <= input.len()
    &&& lexeme_kind(input.subrange(pos, pos + n)) is Some
    &&& forall|m: int|
        n < m <= input.len() - pos ==> #[trigger] lexeme_kind(input.subrange(pos, pos + m))
            is None
}

/// No text at `pos` forms a token.
pub open spec fn no_match(input: Seq<char>, pos: int) -> bool {
    forall|m: int|
        1 <= m <= input.len() - pos ==> #[trigger] lexeme_kind(input.subrange(pos, pos + m))
            is None
}

/// The token that starts at `pos` has kind `kind` and is `n` characters long:
/// the longest match, or else an `Error` token of one character.
pub open spec fn next_lexeme(input: Seq<char>, pos: int, kind: TokenKind, n: int) -> bool {
    ||| longest_match(input, pos, n) && kind == lexeme_kind(input.subrange(pos, pos + n))->0
    ||| no_match(input, pos) && n == 1 && kind == TokenKind::Error
}

/// The length of the token that starts at `pos`.
pub open spec fn next_len(input: Seq<char>, pos: int) -> int {
    if exists|n: int| longest_match(input, pos, n) {
        choose|n: int| longest_match(input, pos, n)
    } else {
        1
    }
}

/// The kind of the token that starts at `pos`.
pub open spec fn next_kind(input: Seq<char>, pos: int) -> TokenKind {
    if exists|n: int| longest_match(input, pos, n) {
        lexeme_kind(input.subrange(pos, pos + next_len(input, pos)))->0
    } else {
        TokenKind::Error
    }
}

/// Number of bytes of the UTF-8 encoding of `s`.
pub open spec fn utf8_len(s: Seq<char>) -> nat {
    encode_utf8(s).len()
}

/// The token read from `input[start..start + n]`, its span in bytes.
pub open spec fn token_model(
    source_id: SourceId,
    input: Seq<char>,
    start: int,
    n: int,
    kind: TokenKind,
) -> TokenModel {
    TokenModel {
        kind,
        text: input.subrange(start, start + n),
        span: Span {
            source_id,
            start: utf8_len(input.take(start)) as usize,
            end: utf8_len(input.take(start + n)) as usize,
        },
    }
}

/// The tokens of `input` from `pos` on: the longest match at each position.
pub open spec fn lex_from(source_id: SourceId, input: Seq<char>, pos: int) -> Seq<TokenModel>
    decreases input.len() - pos,
{
    if pos < 0 || pos >= input.len() {
        seq![]
    } else {
        let n = next_len(input, pos);
        if n < 1 {
            seq![]
        } else {
            seq![token_model(source_id, input, pos, n, next_kind(input, pos))] + lex_from(
                source_id,
                input,
                pos + n,
            )
        }
    }
}

/// The tokens of the whole of `input`.
pub open spec fn lex_spec(source_id: SourceId, input: Seq<char>) -> Seq<TokenModel> {
    lex_from(source_id, input, 0)
}

// ---------------------------------------------------------------------------
// Facts about lexemes
proof fn lemma_keyword_alpha(s: Seq<char>)
    requires
        keyword_kind(s) is Some,
    ensures
        s.len() >= 2,
        forall|i: int| 0 <= i < s.len() ==> is_alpha_char(#[trigger] s[i]),
{
    reveal(keyword_kind);
}

/// A text of three or more characters with a non-letter in it is no fixed lexeme.
proof fn lemma_fixed_needs_alpha(s: Seq<char>, k: int)
    requires
        s.len() >= 3,
        0 <= k < s.len(),
        !is_alpha_char(s[k]),
    ensures
        fixed_kind(s) is None,
{
    if keyword_kind(s) is Some {
        lemma_keyword_alpha(s);
    }
}

/// A two-character text that starts with a character that begins no operator pair
/// and is not a letter is no fixed lexeme.
proof fn lemma_fixed_two(s: Seq<char>)
    requires
        s.len() == 2,
        pair_kind(s[0], s[1]) is None,
        !is_alpha_char(s[0]) || !is_alpha_char(s[1]),
    ensures
        fixed_kind(s) is None,
{
    if keyword_kind(s) is Some {
        lemma_keyword_alpha(s);
    }
}

proof fn lemma_longest_unique(input: Seq<char>, pos: int, n1: int, n2: int)
    requires
        longest_match(input, pos, n1),
        longest_match(input, pos, n2),
    ensures
        n1 == n2,
{
    if n1 < n2 {
        assert(lexeme_kind(input.subrange(pos, pos + n2)) is None);
    } else if n2 < n1 {
        assert(lexeme_kind(input.subrange(pos, pos + n1)) is None);
    }
}

proof fn lemma_next_lexeme_determined(input: Seq<char>, pos: int, kind: TokenKind, n: int)
    requires
        0 <= pos < input.len(),
        next_lexeme(input, pos, kind, n),
    ensures
        n == next_len(input, pos),
        kind == next_kind(input, pos),
{
    if longest_match(input, pos, n) {
        let c = choose|n: int| longest_match(input, pos, n);
        lemma_longest_unique(input, pos, n, c);
    } else {
        if exists|n2: int| longest_match(input, pos, n2) {
            let n2 = choose|n2: int| longest_match(input, pos, n2);
            assert(lexeme_kind(input.subrange(pos, pos + n2)) is None);
        }
    }
}

proof fn lemma_encode_utf8_concat(a: Seq<char>, b: Seq<char>)
    ensures
        encode_utf8(a + b) == encode_utf8(a) + encode_utf8(b),
    decreases a.len(),
{
    if a.len() == 0 {
        assert(a + b =~= b);
        assert(encode_utf8(a) =~= Seq::<u8>::empty());
        assert(encode_utf8(a) + encode_utf8(b) =~= encode_utf8(b));
    } else {
        lemma_encode_utf8_concat(a.drop_first(), b);
        assert((a + b).drop_first() =~= a.drop_first() + b);
        assert((a + b)[0] == a[0]);
        assert(encode_utf8(a + b) =~= encode_scalar(a[0] as u32) + encode_utf8(a.drop_first() + b));
        assert(encode_utf8(a) =~= encode_scalar(a[0] as u32) + encode_utf8(a.drop_first()));
    }
}

/// The UTF-8 width of one character.
pub open spec fn char_width(c: char) -> nat {
    encode_scalar(c as u32).len()
}

proof fn lemma_utf8_len_take_step(s: Seq<char>, i: int)
    requires
        0 <= i < s.len(),
    ensures
        utf8_len(s.take(i + 1)) == utf8_len(s.take(i)) + char_width(s[i]),
{
    lemma_encode_utf8_concat(s.take(i), seq![s[i]]);
    assert(s.take(i + 1) =~= s.take(i) + seq![s[i]]);
    assert(seq![s[i]].drop_first() =~= Seq::<char>::empty());
    assert(encode_utf8(Seq::<char>::empty()) =~= Seq::<u8>::empty());
    assert(encode_utf8(seq![s[i]]) =~= encode_scalar(s[i] as u32));
}

proof fn lemma_utf8_len_take_le(s: Seq<char>, i: int)
    requires
        0 <= i <= s.len(),
    ensures
        utf8_len(s.take(i)) <= utf8_len(s),
{
    lemma_encode_utf8_concat(s.take(i), s.skip(i));
    assert(s.take(i) + s.skip(i) =~= s);
}

pub proof fn lemma_utf8_len_positive(s: Seq<char>)
    requires
        s.len() > 0,
    ensures
        utf8_len(s) >= 1,
{
    assert(encode_utf8(s) == encode_scalar(s[0] as u32) + encode_utf8(s.drop_first()));
}

fn char_width_exec(c: char) -> (w: usize)
    ensures
        w == char_width(c),
        1 <= w <= 4,
{
    let u = c as u32;
    proof {
        vstd::utf8::char_is_scalar(c);
    }
    if u < 0x80 {
        1
    } else if u < 0x800 {
        2
    } else if u < 0x10000 {
        3
    } else {
        4
    }
}

// ---------------------------------------------------------------------------
// Executable character classes
fn is_ws_exec(c: char) -> (b: bool)
    ensures
        b == is_ws_char(c),
{
    let u = c as u32;
    (0x09 <= u && u <= 0x0D) || u == 0x20 || u == 0x85 || u == 0xA0 || u == 0x1680 || (0x2000
        <= u && u <= 0x200A) || u == 0x2028 || u == 0x2029 || u == 0x202F || u == 0x205F || u
        == 0x3000
}

fn is_alpha_exec(c: char) -> (b: bool)
    ensures
        b == is_alpha_char(c),
{
    let u = c as u32;
    (0x41 <= u && u <= 0x5A) || (0x61 <= u && u <= 0x7A)
}

fn is_digit_exec(c: char) -> (b: bool)
    ensures
        b == is_digit_char(c),
{
    let u = c as u32;
    0x30 <= u && u <= 0x39
}

fn is_ident_char_exec(c: char) -> (b: bool)
    ensures
        b == is_ident_char(c),
{
    is_alpha_exec(c) || c == '_' || is_digit_exec(c)
}

fn single_kind_exec(c: char) -> (r: Option<TokenKind>)
    ensures
        r == single_kind(c),
{
    if c == ')' {
        Some(TokenKind::LeftParen)
    } else if c == '(' {
        Some(TokenKind::RightParen)
    } else if c == '}' {
        Some(TokenKind::LeftBrace)
    } else if c == '{' {
        Some(TokenKind::RightBrace)
    } else if c == '[' {
        Some(TokenKind::LeftBracket)
    } else if c == ']' {
        Some(TokenKind::RightBracket)
    } else if c == ',' {
        Some(TokenKind::Comma)
    } else if c == '.' {
        Some(TokenKind::Dot)
    } else if c == '-' {
        Some(TokenKind::Minus)
    } else if c == '+' {
        Some(TokenKind::Plus)
    } else if c == ';' {
        Some(TokenKind::Semicolon)
    } else if c == ':' {
        Some(TokenKind::Colon)
    } else if c == '/' {
        Some(TokenKind::Slash)
    } else if c == '*' {
        Some(TokenKind::Star)
    } else if c == '!' {
        Some(TokenKind::Bang)
    } else if c == '=' {
        Some(TokenKind::Equal)
    } else if c == '>' {
        Some(TokenKind::Greater)
    } else if c == '<' {
        Some(TokenKind::Less)
    } else {
        None
    }
}

fn pair_kind_exec(a: char, b: char) -> (r: Option<TokenKind>)
    ensures
        r == pair_kind(a, b),
{
    if a == '!' && b == '=' {
        Some(TokenKind::BangEqual)
    } else if a == '=' && b == '=' {
        Some(TokenKind::EqualEqual)
    } else if a == '>' && b == '=' {
        Some(TokenKind::GreaterEqual)
    } else if a == '<' && b == '=' {
        Some(TokenKind::LessEqual)
    } else if a == '-' && b == '>' {
        Some(TokenKind::Arrow)
    } else {
        None
    }
}

fn sub_eq(w: &Vec<char>, start: usize, n: usize, lit: &[char]) -> (b: bool)
    requires
        start + n <= w.len(),
    ensures
        b == (w@.subrange(start as int, start + n) == lit@),
{
    if n != lit.len() {
        return false;
    }
    let mut i: usize = 0;
    while i < n
        invariant
            i <= n,
            start + n <= w.len(),
            n == lit.len(),
            forall|j: int| 0 <= j < i ==> w@[start + j] == lit@[j],
        decreases n - i,
    {
        if w[start + i] != lit[i] {
            assert(w@.subrange(start as int, start + n)[i as int] != lit@[i as int]);
            return false;
        }
        i += 1;
    }
    assert(w@.subrange(start as int, start + n) =~= lit@);
    true
}

fn keyword_kind_exec(w: &Vec<char>, start: usize, n: usize) -> (r: Option<TokenKind>)
    requires
        start + n <= w.len(),
    ensures
        r == keyword_kind(w@.subrange(start as int, start + n)),
{
    reveal(keyword_kind);
    if sub_eq(w, start, n, &['a', 'n', 'd']) {
        Some(TokenKind::And)
    } else if sub_eq(w, start, n, &['c', 'l', 'a', 's', 's']) {
        Some(TokenKind::Class)
    } else if sub_eq(w, start, n, &['e', 'l', 's', 'e']) {
        Some(TokenKind::Else)
    } else if sub_eq(w, start, n, &['f', 'a', 'l', 's', 'e']) {
        Some(TokenKind::False)
    } else if sub_eq(w, start, n, &['f', 'u', 'n', 'c']) {
        Some(TokenKind::Func)
    } else if sub_eq(w, start, n, &['i', 'f']) {
        Some(TokenKind::If)
    } else if sub_eq(w, start, n, &['n', 'u', 'l', 'l']) {
        Some(TokenKind::Null)
    } else if sub_eq(w, start, n, &['o', 'r']) {
        Some(TokenKind::Or)
    } else if sub_eq(w, start, n, &['p', 'r', 'i', 'n', 't']) {
        Some(TokenKind::Print)
    } else if sub_eq(w, start, n, &['r', 'e', 't']) {
        Some(TokenKind::Ret)
    } else if sub_eq(w, start, n, &['s', 'u', 'p', 'e', 'r']) {
        Some(TokenKind::Super)
    } else if sub_eq(w, start, n, &['t', 'h', 'i', 's']) {
        Some(TokenKind::This)
    } else if sub_eq(w, start, n, &['t', 'r', 'u', 'e']) {
        Some(TokenKind::True)
    } else if sub_eq(w, start, n, &['l', 'e', 't']) {
        Some(TokenKind::Let)
    } else if sub_eq(w, start, n, &['u', 'n', 't', 'i', 'l']) {
        Some(TokenKind::Until)
    } else if sub_eq(w, start, n, &['e', 'n', 'u', 'm']) {
        Some(TokenKind::Enum)
    } else if sub_eq(w, start, n, &['s', 't', 'a', 't', 'i', 'c']) {
        Some(TokenKind::Static)
    } else if sub_eq(w, start, n, &['i', 'n', 't']) {
        Some(TokenKind::TypeInt)
    } else if sub_eq(w, start, n, &['f', 'l', 'o', 'a', 't']) {
        Some(TokenKind::TypeFloat)
    } else if sub_eq(w, start, n, &['b', 'o', 'o', 'l']) {
        Some(TokenKind::TypeBool)
    } else if sub_eq(w, start, n, &['s', 't', 'r', 'i', 'n', 'g']) {
        Some(TokenKind::TypeString)
    } else if sub_eq(w, start, n, &['a', 'n', 'y']) {
        Some(TokenKind::TypeAny)
    } else {
        None
    }
}


// ---------------------------------------------------------------------------
// The scanner
/// A text whose first character is no letter and starts no one-character token
/// is no fixed lexeme.
proof fn lemma_fixed_none_first(q: Seq<char>)
    requires
        q.len() >= 1,
        !is_alpha_char(q[0]),
        single_kind(q[0]) is None,
    ensures
        fixed_kind(q) is None,
{
    if q.len() == 2 {
        lemma_fixed_two(q);
    } else if q.len() >= 3 {
        lemma_fixed_needs_alpha(q, 0);
    }
}

proof fn lemma_ws_case(input: Seq<char>, pos: int, n: int)
    requires
        0 <= pos,
        1 <= n,
        pos + n <= input.len(),
        forall|i: int| pos <= i < pos + n ==> is_ws_char(#[trigger] input[i]),
        pos + n == input.len() || !is_ws_char(input[pos + n]),
    ensures
        longest_match(input, pos, n),
        lexeme_kind(input.subrange(pos, pos + n)) == Some(TokenKind::Whitespace),
{
    let p = input.subrange(pos, pos + n);
    assert(is_ws_char(input[pos]));
    assert(p[0] == input[pos]);
    lemma_fixed_none_first(p);
    assert forall|i: int| 0 <= i < p.len() implies is_ws_char(#[trigger] p[i]) by {
        assert(p[i] == input[pos + i]);
    }
    assert forall|m: int| n < m <= input.len() - pos implies #[trigger] lexeme_kind(
        input.subrange(pos, pos + m),
    ) is None by {
        let q = input.subrange(pos, pos + m);
        assert(q[0] == input[pos]);
        assert(q[n] == input[pos + n]);
        lemma_fixed_none_first(q);
    }
}

proof fn lemma_ident_case(input: Seq<char>, pos: int, n: int)
    requires
        0 <= pos,
        1 <= n,
        pos + n <= input.len(),
        is_ident_start_char(input[pos]),
        forall|i: int| pos <= i < pos + n ==> is_ident_char(#[trigger] input[i]),
        pos + n == input.len() || !is_ident_char(input[pos + n]),
    ensures
        longest_match(input, pos, n),
        lexeme_kind(input.subrange(pos, pos + n)) == Some(
            if keyword_kind(input.subrange(pos, pos + n)) is Some {
                keyword_kind(input.subrange(pos, pos + n))->0
            } else {
                TokenKind::Ident
            },
        ),
{
    let p = input.subrange(pos, pos + n);
    assert(p[0] == input[pos]);
    assert forall|i: int| 0 <= i < p.len() implies is_ident_char(#[trigger] p[i]) by {
        assert(p[i] == input[pos + i]);
    }
    if n == 1 {
        if keyword_kind(p) is Some {
            lemma_keyword_alpha(p);
        }
    }
    assert forall|m: int| n < m <= input.len() - pos implies #[trigger] lexeme_kind(
        input.subrange(pos, pos + m),
    ) is None by {
        let q = input.subrange(pos, pos + m);
        assert(q[0] == input[pos]);
        assert(q[n] == input[pos + n]);
        if m >= 3 {
            lemma_fixed_needs_alpha(q, n);
        } else {
            lemma_fixed_two(q);
        }
    }
}

proof fn lemma_number_shape(q: Seq<char>)
    requires
        q.len() >= 1,
        is_digit_char(q[0]),
    ensures
        fixed_kind(q) is None,
        !is_whitespace_lexeme(q),
        !is_ident_lexeme(q),
        !is_string_lexeme(q),
{
    lemma_fixed_none_first(q);
}

proof fn lemma_number_case(input: Seq<char>, pos: int, d: int, n: int)
    requires
        0 <= pos,
        1 <= d <= n,
        pos + n <= input.len(),
        forall|i: int| pos <= i < pos + d ==> is_digit_char(#[trigger] input[i]),
        n == d ==> {
            ||| pos + d == input.len()
            ||| (!is_digit_char(input[pos + d]) && input[pos + d] != '.')
            ||| (input[pos + d] == '.' && (pos + d + 1 == input.len() || !is_digit_char(
                input[pos + d + 1],
            )))
        },
        n > d ==> {
            &&& n >= d + 2
            &&& input[pos + d] == '.'
            &&& forall|i: int| pos + d < i < pos + n ==> is_digit_char(#[trigger] input[i])
            &&& (pos + n == input.len() || !is_digit_char(input[pos + n]))
        },
    ensures
        longest_match(input, pos, n),
        lexeme_kind(input.subrange(pos, pos + n)) == Some(TokenKind::Number),
{
    let p = input.subrange(pos, pos + n);
    assert(p[0] == input[pos]);
    lemma_number_shape(p);
    assert(p[n - 1] == input[pos + n - 1]);
    assert forall|i: int| 0 <= i < p.len() implies is_digit_char(#[trigger] p[i]) || p[i]
        == '.' by {
        assert(p[i] == input[pos + i]);
    }
    assert forall|i: int, j: int| 0 <= i < j < p.len() implies !(#[trigger] p[i] == '.'
        && #[trigger] p[j] == '.') by {
        assert(p[i] == input[pos + i]);
        assert(p[j] == input[pos + j]);
    }
    assert(is_number_lexeme(p));
    assert forall|m: int| n < m <= input.len() - pos implies #[trigger] lexeme_kind(
        input.subrange(pos, pos + m),
    ) is None by {
        let q = input.subrange(pos, pos + m);
        assert(q[0] == input[pos]);
        lemma_number_shape(q);
        assert(q[n] == input[pos + n]);
        assert(q[m - 1] == input[pos + m - 1]);
        if n == d {
            if input[pos + d] == '.' {
                if m > d + 1 {
                    assert(q[d + 1] == input[pos + d + 1]);
                    if q[d + 1] == '.' && is_number_lexeme(q) {
                        assert(!(q[d] == '.' && q[d + 1] == '.'));
                    }
                }
            }
        } else {
            assert(q[d] == input[pos + d]);
            if q[n] == '.' && is_number_lexeme(q) {
                assert(!(q[d] == '.' && q[n] == '.'));
            }
        }
    }
}

proof fn lemma_string_case(input: Seq<char>, pos: int, n: int)
    requires
        0 <= pos,
        2 <= n,
        pos + n <= input.len(),
        input[pos] == '"',
        input[pos + n - 1] == '"',
        forall|i: int| pos < i < pos + n - 1 ==> #[trigger] input[i] != '"',
    ensures
        longest_match(input, pos, n),
        lexeme_kind(input.subrange(pos, pos + n)) == Some(TokenKind::String),
{
    let p = input.subrange(pos, pos + n);
    assert(p[0] == input[pos]);
    assert(p[n - 1] == input[pos + n - 1]);
    lemma_fixed_none_first(p);
    assert forall|i: int| 0 < i < p.len() - 1 implies #[trigger] p[i] != '"' by {
        assert(p[i] == input[pos + i]);
    }
    assert forall|m: int| n < m <= input.len() - pos implies #[trigger] lexeme_kind(
        input.subrange(pos, pos + m),
    ) is None by {
        let q = input.subrange(pos, pos + m);
        assert(q[0] == input[pos]);
        assert(q[n - 1] == input[pos + n - 1]);
        lemma_fixed_none_first(q);
    }
}

proof fn lemma_unterminated_string(input: Seq<char>, pos: int)
    requires
        0 <= pos < input.len(),
        input[pos] == '"',
        forall|i: int| pos < i < input.len() ==> #[trigger] input[i] != '"',
    ensures
        no_match(input, pos),
{
    assert forall|m: int| 1 <= m <= input.len() - pos implies #[trigger] lexeme_kind(
        input.subrange(pos, pos + m),
    ) is None by {
        let q = input.subrange(pos, pos + m);
        assert(q[0] == input[pos]);
        assert(q[m - 1] == input[pos + m - 1]);
        lemma_fixed_none_first(q);
    }
}

proof fn lemma_punct_case(input: Seq<char>, pos: int, n: int, kind: TokenKind)
    requires
        0 <= pos,
        pos + n <= input.len(),
        single_kind(input[pos]) is Some,
        n == 1 ==> kind == single_kind(input[pos])->0 && (pos + 1 == input.len() || pair_kind(
            input[pos],
            input[pos + 1],
        ) is None),
        n == 2 ==> pair_kind(input[pos], input[pos + 1]) == Some(kind),
        n == 1 || n == 2,
    ensures
        longest_match(input, pos, n),
        lexeme_kind(input.subrange(pos, pos + n)) == Some(kind),
{
    let p = input.subrange(pos, pos + n);
    assert(p[0] == input[pos]);
    if n == 2 {
        assert(p[1] == input[pos + 1]);
    }
    assert forall|m: int| n < m <= input.len() - pos implies #[trigger] lexeme_kind(
        input.subrange(pos, pos + m),
    ) is None by {
        let q = input.subrange(pos, pos + m);
        assert(q[0] == input[pos]);
        if m >= 3 {
            lemma_fixed_needs_alpha(q, 0);
        } else {
            assert(q[1] == input[pos + 1]);
            lemma_fixed_two(q);
        }
    }
}

proof fn lemma_error_case(input: Seq<char>, pos: int)
    requires
        0 <= pos < input.len(),
        single_kind(input[pos]) is None,
        !is_ws_char(input[pos]),
        !is_ident_start_char(input[pos]),
        !is_digit_char(input[pos]),
        input[pos] != '"',
    ensures
        no_match(input, pos),
{
    assert forall|m: int| 1 <= m <= input.len() - pos implies #[trigger] lexeme_kind(
        input.subrange(pos, pos + m),
    ) is None by {
        let q = input.subrange(pos, pos + m);
        assert(q[0] == input[pos]);
        lemma_fixed_none_first(q);
    }
}

/// Scans the token that starts at `pos`: its kind and its length in characters.
fn scan(input: &Vec<char>, pos: usize) -> (r: (TokenKind, usize))
    requires
        pos < input.len(),
    ensures
        next_lexeme(input@, pos as int, r.0, r.1 as int),
        1 <= r.1,
        pos + r.1 <= input.len(),
{
    let len = input.len();
    let c = input[pos];
    if is_ws_exec(c) {
        let mut end = pos + 1;
        while end < len && is_ws_exec(input[end])
            invariant
                pos < end <= len,
                len == input.len(),
                forall|i: int| pos <= i < end ==> is_ws_char(#[trigger] input@[i]),
            decreases len - end,
        {
            end += 1;
        }
        proof {
            lemma_ws_case(input@, pos as int, (end - pos) as int);
        }
        (TokenKind::Whitespace, end - pos)
    } else if is_alpha_exec(c) || c == '_' {
        let mut end = pos + 1;
        while end < len && is_ident_char_exec(input[end])
            invariant
                pos < end <= len,
                len == input.len(),
                is_ident_start_char(input@[pos as int]),
                forall|i: int| pos <= i < end ==> is_ident_char(#[trigger] input@[i]),
            decreases len - end,
        {
            end += 1;
        }
        let n = end - pos;
        proof {
            lemma_ident_case(input@, pos as int, n as int);
        }
        match keyword_kind_exec(input, pos, n) {
            Some(k) => (k, n),
            None => (TokenKind::Ident, n),
        }
    } else if is_digit_exec(c) {
        let mut end = pos + 1;
        while end < len && is_digit_exec(input[end])
            invariant
                pos < end <= len,
                len == input.len(),
                forall|i: int| pos <= i < end ==> is_digit_char(#[trigger] input@[i]),
            decreases len - end,
        {
            end += 1;
        }
        let d = end - pos;
        if len - end > 1 && input[end] == '.' && is_digit_exec(input[end + 1]) {
            let mut e = end + 2;
            while e < len && is_digit_exec(input[e])
                invariant
                    end + 2 <= e <= len,
                    len == input.len(),
                    forall|i: int| end < i < e ==> is_digit_char(#[trigger] input@[i]),
                decreases len - e,
            {
                e += 1;
            }
            proof {
                lemma_number_case(input@, pos as int, d as int, (e - pos) as int);
            }
            (TokenKind::Number, e - pos)
        } else {
            proof {
                lemma_number_case(input@, pos as int, d as int, d as int);
            }
            (TokenKind::Number, d)
        }
    } else if c == '"' {
        let mut end = pos + 1;
        while end < len && input[end] != '"'
            invariant
                pos < end <= len,
                len == input.len(),
                forall|i: int| pos < i < end ==> #[trigger] input@[i] != '"',
            decreases len - end,
        {
            end += 1;
        }
        if end < len {
            proof {
                lemma_string_case(input@, pos as int, (end + 1 - pos) as int);
            }
            (TokenKind::String, end + 1 - pos)
        } else {
            proof {
                lemma_unterminated_string(input@, pos as int);
            }
            (TokenKind::Error, 1)
        }
    } else {
        match single_kind_exec(c) {
            Some(k) => {
                if pos + 1 < len {
                    match pair_kind_exec(c, input[pos + 1]) {
                        Some(k2) => {
                            proof {
                                lemma_punct_case(input@, pos as int, 2, k2);
                            }
                            return (k2, 2);
                        },
                        None => {},
                    }
                }
                proof {
                    lemma_punct_case(input@, pos as int, 1, k);
                }
                (k, 1)
            },
            None => {
                proof {
                    lemma_error_case(input@, pos as int);
                }
                (TokenKind::Error, 1)
            },
        }
    }
}


/// Every token that the lexer gives is an `Error` token or a lexeme of its kind.
pub proof fn lemma_lex_from_lexemes(source_id: SourceId, input: Seq<char>, pos: int)
    ensures
        forall|i: int|
            0 <= i < lex_from(source_id, input, pos).len() ==> {
                let t = #[trigger] lex_from(source_id, input, pos)[i];
                t.kind == TokenKind::Error || lexeme_kind(t.text) == Some(t.kind)
            },
    decreases input.len() - pos,
{
    if 0 <= pos < input.len() {
        let n = next_len(input, pos);
        if n >= 1 {
            lemma_lex_from_lexemes(source_id, input, pos + n);
            let rest = lex_from(source_id, input, pos + n);
            let t = token_model(source_id, input, pos, n, next_kind(input, pos));
            assert(lex_from(source_id, input, pos) == seq![t] + rest);
            if exists|m: int| longest_match(input, pos, m) {
                let m = choose|m: int| longest_match(input, pos, m);
                assert(longest_match(input, pos, m));
            }
            assert forall|i: int| 0 <= i < lex_from(source_id, input, pos).len() implies {
                let u = #[trigger] lex_from(source_id, input, pos)[i];
                u.kind == TokenKind::Error || lexeme_kind(u.text) == Some(u.kind)
            } by {
                if i > 0 {
                    assert(lex_from(source_id, input, pos)[i] == rest[i - 1]);
                }
            }
        }
    }
}

/// The texts of tokens, one after the other.
pub open spec fn concat_texts(toks: Seq<TokenModel>) -> Seq<char>
    decreases toks.len(),
{
    if toks.len() == 0 {
        seq![]
    } else {
        toks[0].text + concat_texts(toks.drop_first())
    }
}

/// The token at `pos` is at least one character long and ends within the input.
proof fn lemma_next_len_bounds(input: Seq<char>, pos: int)
    requires
        0 <= pos < input.len(),
    ensures
        1 <= next_len(input, pos),
        pos + next_len(input, pos) <= input.len(),
{
    if exists|m: int| longest_match(input, pos, m) {
        let m = choose|m: int| longest_match(input, pos, m);
        assert(longest_match(input, pos, m));
    }
}

proof fn lemma_lex_from_tiles(source_id: SourceId, input: Seq<char>, pos: int)
    requires
        0 <= pos <= input.len(),
    ensures
        ({
            let toks = lex_from(source_id, input, pos);
            &&& concat_texts(toks) == input.subrange(pos, input.len() as int)
            &&& toks.len() > 0 ==> toks[0].span.start == utf8_len(input.take(pos)) as usize
            &&& toks.len() > 0 ==> toks.last().span.end == utf8_len(input.take(input.len() as int)) as usize
            &&& forall|i: int| 0 <= i < toks.len() - 1 ==> #[trigger] toks[i].span.end == toks[i + 1].span.start
            &&& forall|i: int| 0 <= i < toks.len() ==> (#[trigger] toks[i]).text.len() >= 1
        }),
    decreases input.len() - pos,
{
    let toks = lex_from(source_id, input, pos);
    if pos < input.len() {
        lemma_next_len_bounds(input, pos);
        let n = next_len(input, pos);
        lemma_lex_from_tiles(source_id, input, pos + n);
        let rest = lex_from(source_id, input, pos + n);
        let t = token_model(source_id, input, pos, n, next_kind(input, pos));
        assert(toks == seq![t] + rest);
        assert(toks.drop_first() =~= rest);
        assert(input.subrange(pos, input.len() as int) =~= input.subrange(pos, pos + n) + input.subrange(
            pos + n,
            input.len() as int,
        ));
        if rest.len() == 0 {
            assert(concat_texts(rest) == Seq::<char>::empty());
            assert(input.subrange(pos + n, input.len() as int).len() == 0);
        }
        assert forall|i: int| 0 <= i < toks.len() - 1 implies #[trigger] toks[i].span.end == toks[i + 1].span.start by {
            if i > 0 {
                assert(toks[i] == rest[i - 1]);
                assert(toks[i + 1] == rest[i]);
            }
        }
        assert forall|i: int| 0 <= i < toks.len() implies (#[trigger] toks[i]).text.len() >= 1 by {
            if i > 0 {
                assert(toks[i] == rest[i - 1]);
            }
        }
    } else {
        assert(input.subrange(pos, input.len() as int) =~= Seq::<char>::empty());
    }
}

/// Lexing loses and adds no text: the tokens, each at least one character long,
/// spell the input in order, and their byte spans tile it from 0 to its length.
pub proof fn lemma_tokens_tile_input(source_id: SourceId, input: Seq<char>)
    ensures
        ({
            let toks = lex_spec(source_id, input);
            &&& concat_texts(toks) == input
            &&& toks.len() > 0 ==> toks[0].span.start == 0
            &&& toks.len() > 0 ==> toks.last().span.end == utf8_len(input) as usize
            &&& forall|i: int| 0 <= i < toks.len() - 1 ==> #[trigger] toks[i].span.end == toks[i + 1].span.start
            &&& forall|i: int| 0 <= i < toks.len() ==> (#[trigger] toks[i]).text.len() >= 1
        }),
{
    lemma_lex_from_tiles(source_id, input, 0);
    assert(input.subrange(0, input.len() as int) =~= input);
    assert(input.take(input.len() as int) =~= input);
    assert(input.take(0) =~= Seq::<char>::empty());
    assert(encode_utf8(Seq::<char>::empty()) =~= Seq::<u8>::empty());
}

/// The bytes of the text `input[pos..pos + n]` are the bytes of `input` from the
/// byte length of `input[..pos]` to that of `input[..pos + n]`.
proof fn lemma_token_bytes(input: Seq<char>, pos: int, n: int)
    requires
        0 <= pos,
        0 <= n,
        pos + n <= input.len(),
    ensures
        encode_utf8(input).subrange(utf8_len(input.take(pos)) as int, utf8_len(input.take(pos + n)) as int)
            == encode_utf8(input.subrange(pos, pos + n)),
{
    let a = input.take(pos);
    let b = input.subrange(pos, pos + n);
    let c = input.skip(pos + n);
    lemma_encode_utf8_concat(a, b);
    assert(input.take(pos + n) =~= a + b);
    lemma_encode_utf8_concat(a + b, c);
    assert(input =~= (a + b) + c);
    let ea = encode_utf8(a);
    let eb = encode_utf8(b);
    let ec = encode_utf8(c);
    assert(((ea + eb) + ec).subrange(ea.len() as int, (ea.len() + eb.len()) as int) =~= eb);
}

proof fn lemma_lex_from_bytes(source_id: SourceId, input: Seq<char>, pos: int)
    requires
        0 <= pos <= input.len(),
        utf8_len(input) <= usize::MAX,
    ensures
        forall|i: int|
            0 <= i < lex_from(source_id, input, pos).len() ==> {
                let t = #[trigger] lex_from(source_id, input, pos)[i];
                &&& t.span.source_id == source_id
                &&& t.span.start <= t.span.end <= utf8_len(input)
                &&& encode_utf8(input).subrange(t.span.start as int, t.span.end as int) == encode_utf8(t.text)
            },
    decreases input.len() - pos,
{
    if pos < input.len() {
        lemma_next_len_bounds(input, pos);
        let n = next_len(input, pos);
        lemma_lex_from_bytes(source_id, input, pos + n);
        let rest = lex_from(source_id, input, pos + n);
        let t = token_model(source_id, input, pos, n, next_kind(input, pos));
        assert(lex_from(source_id, input, pos) == seq![t] + rest);
        lemma_utf8_len_take_le(input, pos);
        lemma_utf8_len_take_le(input, pos + n);
        lemma_encode_utf8_concat(input.take(pos), input.subrange(pos, pos + n));
        assert(input.take(pos + n) =~= input.take(pos) + input.subrange(pos, pos + n));
        lemma_token_bytes(input, pos, n);
        assert forall|i: int| 0 <= i < lex_from(source_id, input, pos).len() implies {
            let u = #[trigger] lex_from(source_id, input, pos)[i];
            &&& u.span.source_id == source_id
            &&& u.span.start <= u.span.end <= utf8_len(input)
            &&& encode_utf8(input).subrange(u.span.start as int, u.span.end as int) == encode_utf8(u.text)
        } by {
            if i > 0 {
                assert(lex_from(source_id, input, pos)[i] == rest[i - 1]);
            }
        }
    }
}

/// Each token of a text names its source, and its span is the byte range of
/// the text that the token's own text encodes to.
pub proof fn lemma_token_spans_are_their_bytes(source_id: SourceId, input: Seq<char>)
    requires
        utf8_len(input) <= usize::MAX,
    ensures
        forall|i: int|
            0 <= i < lex_spec(source_id, input).len() ==> {
                let t = #[trigger] lex_spec(source_id, input)[i];
                &&& t.span.source_id == source_id
                &&& t.span.start <= t.span.end <= utf8_len(input)
                &&& encode_utf8(input).subrange(t.span.start as int, t.span.end as int) == encode_utf8(t.text)
            },
{
    lemma_lex_from_bytes(source_id, input, 0);
}

/// String tokens are quoted texts and number tokens are digits with at most one dot.
pub proof fn lemma_token_shapes(t: TokenModel)
    requires
        t.kind == TokenKind::Error || lexeme_kind(t.text) == Some(t.kind),
    ensures
        t.kind == TokenKind::String ==> is_string_lexeme(t.text),
        t.kind == TokenKind::Number ==> is_number_lexeme(t.text),
{
    reveal(keyword_kind);
}

// ---------------------------------------------------------------------------
// The lexer
/// Calls `String::push` of std: the text gains `c` at its end.
#[verifier::external_body]
pub(crate) fn push_char(s: &mut String, c: char)
    ensures
        final(s)@ == old(s)@.push(c),
{
    s.push(c);
}

pub(crate) fn chars_of(s: &str) -> (v: Vec<char>)
    ensures
        v@ == s@,
{
    broadcast use vstd::string::axiom_spec_iter;

    let mut v: Vec<char> = Vec::new();
    for c in it: s.chars()
        invariant
            v@ == it.seq().take(it.index() as int),
            it.seq() == s@,
    {
        v.push(c);
    }
    v
}

/// Reads the tokens of one source text, one after the other.
pub struct Lexer {
    source_id: SourceId,
    chars: Vec<char>,
    pos: usize,
    byte_pos: usize,
}

impl Lexer {
    /// The characters of the text being read.
    pub closed spec fn input(&self) -> Seq<char> {
        self.chars@
    }

    /// How many characters have been read.
    pub closed spec fn position(&self) -> int {
        self.pos as int
    }

    pub closed spec fn source_id(&self) -> SourceId {
        self.source_id
    }

    pub closed spec fn wf(&self) -> bool {
        &&& self.pos <= self.chars.len()
        &&& self.byte_pos == utf8_len(self.chars@.take(self.pos as int))
        &&& utf8_len(self.chars@) <= usize::MAX
    }

    pub fn new(source_id: SourceId, input: &str) -> (l: Self)
        requires
            utf8_len(input@) <= usize::MAX,
        ensures
            l.wf(),
            l.input() == input@,
            l.position() == 0,
            l.source_id() == source_id,
    {
        let chars = chars_of(input);
        assert(chars@.take(0) =~= Seq::<char>::empty());
        assert(encode_utf8(Seq::<char>::empty()) =~= Seq::<u8>::empty());
        Lexer { source_id, chars, pos: 0, byte_pos: 0 }
    }

    /// The next token, or `None` once the whole text has been read.
    pub fn next(&mut self) -> (r: Option<Token>)
        requires
            old(self).wf(),
        ensures
            final(self).wf(),
            final(self).input() == old(self).input(),
            final(self).source_id() == old(self).source_id(),
            old(self).position() >= old(self).input().len() ==> r is None
                && final(self).position() == old(self).position(),
            old(self).position() < old(self).input().len() ==> {
                let input = old(self).input();
                let pos = old(self).position();
                let n = next_len(input, pos);
                &&& r is Some
                &&& 1 <= n
                &&& final(self).position() == pos + n
                &&& r->0@ == token_model(
                    old(self).source_id(),
                    input,
                    pos,
                    n,
                    next_kind(input, pos),
                )
            },
    {
        if self.pos >= self.chars.len() {
            return None;
        }
        let start = self.pos;
        let (kind, n) = scan(&self.chars, start);
        proof {
            lemma_next_lexeme_determined(self.chars@, start as int, kind, n as int);
        }
        let end = start + n;
        let mut text = String::new();
        let mut i = start;
        let mut b = self.byte_pos;
        while i < end
            invariant
                start <= i <= end,
                end <= self.chars.len(),
                text@ == self.chars@.subrange(start as int, i as int),
                b == utf8_len(self.chars@.take(i as int)),
                utf8_len(self.chars@) <= usize::MAX,
            decreases end - i,
        {
            let c = self.chars[i];
            push_char(&mut text, c);
            let w = char_width_exec(c);
            proof {
                lemma_utf8_len_take_step(self.chars@, i as int);
                lemma_utf8_len_take_le(self.chars@, i + 1);
            }
            b = b + w;
            i = i + 1;
            assert(text@ =~= self.chars@.subrange(start as int, i as int));
        }
        let span = Span { source_id: self.source_id, start: self.byte_pos, end: b };
        self.pos = end;
        self.byte_pos = b;
        Some(Token { kind, text, span })
    }
}

/// All tokens of `input`, in order.
pub fn tokenize(source_id: SourceId, input: &str) -> (v: Vec<Token>)
    requires
        utf8_len(input@) <= usize::MAX,
    ensures
        v@.map_values(|t: Token| t@) == lex_spec(source_id, input@),
{
    let mut lexer = Lexer::new(source_id, input);
    let mut v: Vec<Token> = Vec::new();
    assert(v@.map_values(|t: Token| t@) =~= Seq::<TokenModel>::empty());
    loop
        invariant
            lexer.wf(),
            lexer.input() == input@,
            lexer.source_id() == source_id,
            0 <= lexer.position() <= input@.len(),
            lex_spec(source_id, input@) == v@.map_values(|t: Token| t@) + lex_from(
                source_id,
                input@,
                lexer.position(),
            ),
        decreases input@.len() - lexer.position(),
    {
        let ghost pos = lexer.position();
        match lexer.next() {
            Some(t) => {
                let ghost old_v = v@;
                v.push(t);
                proof {
                    let n = next_len(input@, pos);
                    assert(lex_from(source_id, input@, pos) == seq![
                        token_model(source_id, input@, pos, n, next_kind(input@, pos)),
                    ] + lex_from(source_id, input@, pos + n));
                    assert(v@.map_values(|t: Token| t@) =~= old_v.map_values(|t: Token| t@).push(
                        t@,
                    ));
                    assert(v@.map_values(|t: Token| t@) + lex_from(source_id, input@, pos + n)
                        =~= old_v.map_values(|t: Token| t@) + lex_from(source_id, input@, pos));
                }
            },
            None => {
                assert(lex_from(source_id, input@, lexer.position()) =~= Seq::<TokenModel>::empty());
                assert(v@.map_values(|t: Token| t@) + Seq::<TokenModel>::empty() =~= v@.map_values(
                    |t: Token| t@,
                ));
                return v;
            },
        }
    }
}

} // verus!
