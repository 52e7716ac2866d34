//! A source text, its tokens, and a cursor over them.
use crate::lexer::{lemma_lex_from_lexemes, lex_spec, lexeme_kind, tokenize, utf8_len, Token, TokenKind, TokenModel};
use crate::span::{SourceId, Span};
use vstd::prelude::*;

verus! {

pub open spec fn view_tokens(s: Seq<Token>) -> Seq<TokenModel> {
    s.map_values(|t: Token| t@)
}

/// The first position at or after `c` that does not hold a trivia token.
pub open spec fn skip_trivia(toks: Seq<TokenModel>, c: int) -> int
    decreases toks.len() - c,
{
    if 0 <= c < toks.len() && toks[c].kind.spec_is_trivia() {
        skip_trivia(toks, c + 1)
    } else {
        c
    }
}

pub proof fn lemma_skip_trivia(toks: Seq<TokenModel>, c: int)
    requires
        0 <= c,
    ensures
        c <= skip_trivia(toks, c),
        c <= toks.len() ==> skip_trivia(toks, c) <= toks.len(),
        skip_trivia(toks, c) < toks.len() ==> !toks[skip_trivia(toks, c)].kind.spec_is_trivia(),
        skip_trivia(toks, skip_trivia(toks, c)) == skip_trivia(toks, c),
    decreases toks.len() - c,
{
    if 0 <= c < toks.len() && toks[c].kind.spec_is_trivia() {
        lemma_skip_trivia(toks, c + 1);
    }
}

/// Skipping trivia moves forward and stays within the tokens.
pub broadcast proof fn lemma_skip_trivia_bounds(toks: Seq<TokenModel>, c: int)
    requires
        0 <= c <= toks.len(),
    ensures
        c <= #[trigger] skip_trivia(toks, c) <= toks.len(),
{
    lemma_skip_trivia(toks, c);
}

/// A named source text with its tokens and a cursor into them.
#[derive(Debug, Clone)]
pub struct Source {
    id: SourceId,
    raw: String,
    name: String,
    tokens: Vec<Token>,
    cursor: usize,
}

impl Source {
    pub closed spec fn spec_id(&self) -> SourceId {
        self.id
    }

    pub closed spec fn text(&self) -> Seq<char> {
        self.raw@
    }

    pub closed spec fn spec_name(&self) -> Seq<char> {
        self.name@
    }

    /// The tokens of the text.
    pub closed spec fn toks(&self) -> Seq<TokenModel> {
        view_tokens(self.tokens@)
    }

    /// How many tokens have been consumed.
    pub closed spec fn cursor(&self) -> int {
        self.cursor as int
    }

    pub closed spec fn wf(&self) -> bool {
        &&& self.toks() == lex_spec(self.id, self.raw@)
        &&& utf8_len(self.raw@) <= usize::MAX
        &&& self.cursor <= self.tokens.len()
    }

    /// The cursor lies within the tokens, a text with tokens is not empty, and
    /// each token is an `Error` token or a lexeme of its kind.
    pub proof fn lemma_wf(&self)
        requires
            self.wf(),
        ensures
            0 <= self.cursor() <= self.toks().len(),
            self.toks().len() > 0 ==> self.text().len() > 0,
            forall|i: int|
                0 <= i < self.toks().len() ==> {
                    let t = #[trigger] self.toks()[i];
                    t.kind == TokenKind::Error || lexeme_kind(t.text) == Some(t.kind)
                },
    {
        lemma_lex_from_lexemes(self.id, self.raw@, 0);
    }

    /// The tokens of a well-formed source are the lexer's tokens of its text.
    pub proof fn lemma_tokens(&self)
        requires
            self.wf(),
        ensures
            self.toks() == lex_spec(self.spec_id(), self.text()),
    {
    }

    pub fn new(id: SourceId, raw: String, name: String) -> (s: Self)
        requires
            utf8_len(raw@) <= usize::MAX,
        ensures
            s.wf(),
            s.toks() == lex_spec(id, raw@),
            s.spec_id() == id,
            s.text() == raw@,
            s.spec_name() == name@,
            s.cursor() == 0,
    {
        let tokens = tokenize(id, raw.as_str());
        Self { id, raw, name, tokens, cursor: 0 }
    }

    pub fn id(&self) -> (id: SourceId)
        ensures
            id == self.spec_id(),
    {
        self.id
    }

    pub fn raw(&self) -> (r: &String)
        ensures
            r@ == self.text(),
    {
        &self.raw
    }

    pub fn name(&self) -> (r: &String)
        ensures
            r@ == self.spec_name(),
    {
        &self.name
    }

    /// Skips trivia, then consumes and returns the token under the cursor, if any.
    pub fn next_token(&mut self) -> (r: Option<&Token>)
        requires
            old(self).wf(),
        ensures
            final(self).wf(),
            final(self).spec_id() == old(self).spec_id(),
            final(self).text() == old(self).text(),
            final(self).spec_name() == old(self).spec_name(),
            final(self).toks() == old(self).toks(),
            ({
                let c = skip_trivia(old(self).toks(), old(self).cursor());
                if c < old(self).toks().len() {
                    &&& r matches Some(t) && t@ == old(self).toks()[c]
                    &&& final(self).cursor() == c + 1
                } else {
                    &&& r is None
                    &&& final(self).cursor() == c
                }
            }),
    {
        self.eat_trivia();
        if self.cursor < self.tokens.len() {
            let c = self.cursor;
            self.cursor = c + 1;
            Some(&self.tokens[c])
        } else {
            None
        }
    }

    /// Skips trivia, then gives the kind of the token under the cursor, if any.
    pub fn peek_kind(&mut self) -> (r: Option<TokenKind>)
        requires
            old(self).wf(),
        ensures
            final(self).wf(),
            final(self).spec_id() == old(self).spec_id(),
            final(self).text() == old(self).text(),
            final(self).spec_name() == old(self).spec_name(),
            final(self).toks() == old(self).toks(),
            final(self).cursor() == skip_trivia(old(self).toks(), old(self).cursor()),
            r == (if final(self).cursor() < old(self).toks().len() {
                Some(old(self).toks()[final(self).cursor()].kind)
            } else {
                None
            }),
    {
        self.eat_trivia();
        self.peek_kind_raw()
    }

    /// The empty span at the last byte of the text.
    pub fn eof(&self) -> (s: Span)
        requires
            self.wf(),
            self.text().len() > 0,
        ensures
            s == (Span {
                source_id: self.spec_id(),
                start: (utf8_len(self.text()) - 1) as usize,
                end: (utf8_len(self.text()) - 1) as usize,
            }),
    {
        proof {
            crate::lexer::lemma_utf8_len_positive(self.raw@);
        }
        let len = self.raw.as_str().len();
        Span { source_id: self.id, start: len - 1, end: len - 1 }
    }

    /// Whether the cursor is past the last token (trivia included).
    pub fn at_end(&self) -> (b: bool)
        requires
            self.wf(),
        ensures
            b == (self.cursor() >= self.toks().len()),
    {
        self.peek_token_raw().is_none()
    }

    fn eat_trivia(&mut self)
        requires
            old(self).wf(),
        ensures
            final(self).wf(),
            final(self).spec_id() == old(self).spec_id(),
            final(self).text() == old(self).text(),
            final(self).spec_name() == old(self).spec_name(),
            final(self).toks() == old(self).toks(),
            final(self).cursor() == skip_trivia(old(self).toks(), old(self).cursor()),
    {
        while self.at_trivia()
            invariant
                self.wf(),
                self.id == old(self).id,
                self.raw@ == old(self).raw@,
                self.name@ == old(self).name@,
                self.tokens@ == old(self).tokens@,
                skip_trivia(self.toks(), self.cursor()) == skip_trivia(
                    old(self).toks(),
                    old(self).cursor(),
                ),
            decreases self.tokens.len() - self.cursor,
        {
            self.cursor += 1;
        }
    }

    fn at_trivia(&self) -> (b: bool)
        requires
            self.wf(),
        ensures
            b == (self.cursor() < self.toks().len() && self.toks()[self.cursor()].kind.spec_is_trivia()),
    {
        match self.peek_kind_raw() {
            Some(k) => k.is_trivia(),
            None => false,
        }
    }

    fn peek_kind_raw(&self) -> (r: Option<TokenKind>)
        requires
            self.wf(),
        ensures
            r == (if self.cursor() < self.toks().len() {
                Some(self.toks()[self.cursor()].kind)
            } else {
                None
            }),
    {
        match self.peek_token_raw() {
            Some(t) => Some(t.kind),
            None => None,
        }
    }

    fn peek_token_raw(&self) -> (r: Option<&Token>)
        requires
            self.wf(),
        ensures
            match r {
                Some(t) => self.cursor() < self.toks().len() && t@ == self.toks()[self.cursor()],
                None => self.cursor() >= self.toks().len(),
            },
    {
        if self.cursor < self.tokens.len() {
            Some(&self.tokens[self.cursor])
        } else {
            None
        }
    }
}

} // verus!
