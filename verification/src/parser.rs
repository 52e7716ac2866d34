//! The parser: reads the tokens of a source, builds the syntax tree and checks
//! the types of what it reads against the symbol table.
use crate::ast::{
    binding_type_expr, op_of_kind, lemma_view_expressions, lemma_view_expressions_push,
    lemma_view_statements, lemma_view_statements_push, result_type, view_bindings,
    view_expressions, view_opt_expression, view_statements, Binding, Class, Expr, Expression,
    Function, Op, Operator, SBinding, SStmt, SExpression, SStatement, Statement, Stmt, well_typed, stmt_well_typed, returns_fit,
};
use crate::error::{ParseError, SParseError};
use crate::grammar::{
    ctor_check, digits_value, empty_class_acc, has_dot, insert_params, level_node, level_ops,
    list_type_check, p_args, p_assign_target, p_assignment, p_at, p_at_set, p_binary,
    p_binary_rest, p_binding, p_block, p_block_items, p_bump, p_call, p_call_rest, p_call_type,
    p_check_return, p_class_body, p_class_decl, p_decl, p_enum_decl, p_enum_items, p_expect,
    p_expr, p_expr_stmt, p_finish_call, p_func_decl, p_if_stmt, p_index, p_init, p_is_callable,
    p_list, p_list_items, p_operand, p_params, p_primary, p_program, p_result_type,
    p_ret_annotation, p_ret_stmt, p_static_item, p_stmt, p_ty, p_ty_params, p_unary,
    p_until_stmt, p_var_decl, pop_scope, lemma_insert_params_len, lemma_insert_params_grows,
    scopes_grow, scopes_keep, names_kept, lemma_keep_through_scope, lemma_update_keeps, lemma_insert_params_keeps, p_func_tail, declared_name, lemma_grow_through_scope, lemma_insert_grows, lemma_update_grows, progress, span2, variable_symbol, weakly, ClassAcc, Ctx,
    Outcome, PState,
};
use crate::lexer::{
    chars_of, is_digit_char, lemma_token_shapes, lexeme_kind, push_char, utf8_len, Token,
    TokenKind,
};
use crate::source::{lemma_skip_trivia, skip_trivia, Source};
use crate::span::{SourceId, Span, Spanned};
use crate::symtab::{lookup_scopes, SSym, Sym, Symbol, SymbolMap, SymbolTable};
use crate::types::{
    lemma_view_type_exprs, lemma_view_type_exprs_push, lemma_view_type_variant, type_compatible,
    view_type_exprs, STypeExpr, Type, TypeExpression,
};
use vstd::prelude::*;

verus! {

/// The empty span at the last byte of a text: where an unexpected end is reported.
pub open spec fn eof_span(id: SourceId, text: Seq<char>) -> Span {
    Span {
        source_id: id,
        start: (utf8_len(text) - 1) as usize,
        end: (utf8_len(text) - 1) as usize,
    }
}

/// A result with its value and its error taken by their views.
pub open spec fn res_view<T: View>(r: Result<T, ParseError>) -> Result<T::V, SParseError> {
    match r {
        Ok(x) => Ok(x@),
        Err(e) => Err(e@),
    }
}

/// Whether a result, with the state after it and whether the parser has halted,
/// is what the outcome `o` says: a halt is an error with the parser halted.
pub open spec fn ends_as<A>(r: Result<A, SParseError>, o: Outcome<A>, fin: PState, halted: bool) -> bool {
    match o {
        Outcome::Done(v, s) => r == Ok::<A, SParseError>(v) && fin == s && !halted,
        Outcome::Fail(e) => r == Err::<A, SParseError>(e) && !halted,
        Outcome::Halt => r is Err && halted,
    }
}

/// A sequence result with its values and its error taken by their views.
pub open spec fn res_exprs(r: Result<Vec<Expression>, ParseError>) -> Result<Seq<SExpression>, SParseError> {
    match r {
        Ok(v) => Ok(view_expressions(v@)),
        Err(e) => Err(e@),
    }
}

/// The items of a list literal, or the shorthand that it turned out to be.
pub open spec fn res_items(r: Result<(Vec<Expression>, Option<Expression>), ParseError>) -> Result<
    (Seq<SExpression>, Option<SExpression>),
    SParseError,
> {
    match r {
        Ok((v, Some(e))) => Ok((view_expressions(v@), Some(e@))),
        Ok((v, None)) => Ok((view_expressions(v@), None)),
        Err(e) => Err(e@),
    }
}

/// A result of types with its values and its error taken by their views.
pub open spec fn res_type_exprs(r: Result<Vec<TypeExpression>, ParseError>) -> Result<Seq<STypeExpr>, SParseError> {
    match r {
        Ok(v) => Ok(view_type_exprs(v@)),
        Err(e) => Err(e@),
    }
}

pub open spec fn res_bindings(r: Result<Vec<Binding>, ParseError>) -> Result<Seq<SBinding>, SParseError> {
    match r {
        Ok(v) => Ok(view_bindings(v@)),
        Err(e) => Err(e@),
    }
}

pub open spec fn res_stmts(r: Result<Vec<Statement>, ParseError>) -> Result<Seq<SStatement>, SParseError> {
    match r {
        Ok(v) => Ok(view_statements(v@)),
        Err(e) => Err(e@),
    }
}

/// The declared type and the value of a declaration.
pub open spec fn res_init(r: Result<(Type, Option<Expression>), ParseError>) -> Result<
    (crate::types::SType, Option<SExpression>),
    SParseError,
> {
    match r {
        Ok((t, o)) => Ok((t@, view_opt_expression(o))),
        Err(e) => Err(e@),
    }
}

pub open spec fn res_unit(r: Result<(), ParseError>) -> Result<(), SParseError> {
    match r {
        Ok(_) => Ok(()),
        Err(e) => Err(e@),
    }
}

/// The outcome `o` of parsing the rest of a list, with `acc` parsed before it.
pub open spec fn prepend<A>(acc: Seq<A>, o: Outcome<Seq<A>>) -> Outcome<Seq<A>> {
    match o {
        Outcome::Done(rest, s) => Outcome::Done(acc + rest, s),
        Outcome::Fail(e) => Outcome::Fail(e),
        Outcome::Halt => Outcome::Halt,
    }
}

/// `prepend` for the items of a list literal, which a shorthand replaces.
pub open spec fn prepend_items(
    acc: Seq<SExpression>,
    o: Outcome<(Seq<SExpression>, Option<SExpression>)>,
) -> Outcome<(Seq<SExpression>, Option<SExpression>)> {
    match o {
        Outcome::Done((rest, None), s) => Outcome::Done((acc + rest, None), s),
        other => other,
    }
}

proof fn lemma_prepend_twice<A>(a: Seq<A>, b: Seq<A>, o: Outcome<Seq<A>>)
    ensures
        prepend(a, prepend(b, o)) == prepend(a + b, o),
{
    if let Outcome::Done(rest, s) = o {
        assert(a + (b + rest) =~= (a + b) + rest);
    }
}

/// The span from the start of `a` to the end of `b`.
fn span_from_to(a: Span, b: Span) -> (s: Span)
    ensures
        s == span2(a, b),
{
    let spans = [a, b];
    assert(spans@ =~= seq![a, b]);
    Span::combine(&spans)
}

/// The operator kinds of a binary level.
fn level_ops_exec(level: usize) -> (v: Vec<TokenKind>)
    ensures
        v@ == level_ops(level as int),
{
    let v = if level == 0 {
        vec![TokenKind::Or]
    } else if level == 1 {
        vec![TokenKind::And]
    } else if level == 2 {
        vec![TokenKind::BangEqual, TokenKind::EqualEqual]
    } else if level == 3 {
        vec![TokenKind::Greater, TokenKind::GreaterEqual, TokenKind::Less, TokenKind::LessEqual]
    } else if level == 4 {
        vec![TokenKind::Minus, TokenKind::Plus]
    } else {
        vec![TokenKind::Slash, TokenKind::Star]
    };
    assert(v@ =~= level_ops(level as int));
    v
}

/// The expression that an operator of a binary level builds.
fn make_level_node(level: usize, lhs: Expression, op: Operator, rhs: Expression, ty: Type) -> (e: Expression)
    ensures
        e@ == level_node(level as int, lhs@, op, rhs@, ty@),
{
    let span = if level < 4 {
        span_from_to(op.span, rhs.span)
    } else {
        span_from_to(lhs.span, rhs.span)
    };
    let expr = if level < 2 {
        Expr::Logical { lhs: Box::new(lhs), op, rhs: Box::new(rhs) }
    } else {
        Expr::Binary { lhs: Box::new(lhs), op, rhs: Box::new(rhs) }
    };
    Expression { span, ty, expr }
}

/// Whether a character sequence holds a dot.
fn has_dot_exec(chars: &Vec<char>) -> (b: bool)
    ensures
        b == has_dot(chars@),
{
    let mut i: usize = 0;
    while i < chars.len()
        invariant
            i <= chars.len(),
            forall|j: int| 0 <= j < i ==> chars@[j] != '.',
        decreases chars.len() - i,
    {
        if chars[i] == '.' {
            assert(chars@[i as int] == '.');
            return true;
        }
        i += 1;
    }
    assert(!chars@.contains('.'));
    false
}

proof fn lemma_digits_prefix(s: Seq<char>, i: int)
    requires
        0 <= i <= s.len(),
        forall|j: int| 0 <= j < s.len() ==> is_digit_char(#[trigger] s[j]),
    ensures
        digits_value(s.take(i)) <= digits_value(s),
    decreases s.len() - i,
{
    if i < s.len() {
        lemma_digits_prefix(s, i + 1);
        assert(s.take(i + 1).drop_last() =~= s.take(i));
        assert(is_digit_char(s[i]));
    } else {
        assert(s.take(i) =~= s);
    }
}

/// Whether a token kind is that of an operator.
fn has_operator(kind: TokenKind) -> (b: bool)
    ensures
        b == (op_of_kind(kind) is Some),
{
    match kind {
        TokenKind::Bang | TokenKind::EqualEqual | TokenKind::BangEqual | TokenKind::Less
        | TokenKind::LessEqual | TokenKind::Greater | TokenKind::GreaterEqual | TokenKind::Plus
        | TokenKind::Minus | TokenKind::Star | TokenKind::Slash | TokenKind::And
        | TokenKind::Or => true,
        _ => false,
    }
}

/// `b` declares what `a` declares in every scope, each as the same kind of symbol.
#[verifier::opaque]
pub open spec fn kept_all(a: crate::symtab::Scopes, b: crate::symtab::Scopes) -> bool {
    names_kept(a, b, a.len() as int)
}

/// Whether looking `name` up in `scopes` finds a function of `arity` parameters.
#[verifier::opaque]
pub open spec fn function_declared(scopes: crate::symtab::Scopes, name: Seq<char>, arity: nat) -> bool {
    lookup_scopes(scopes, name) matches Some(e) && e.sym == (SSym::Function { arity })
}

/// A function declared in the innermost scope, whose body was parsed in a scope
/// of its own and whose return was then checked, is still found as a function.
proof fn lemma_declared_survives(
    declared: crate::symtab::Scopes,
    opened: crate::symtab::Scopes,
    inner: crate::symtab::Scopes,
    fin: crate::symtab::Scopes,
    n: Seq<char>,
    arity: nat,
)
    requires
        declared.len() > 0,
        declared.last().contains_key(n),
        declared.last()[n].sym == (SSym::Function { arity }),
        scopes_keep(declared.push(Map::empty()), opened),
        scopes_keep(opened, inner),
        kept_all(inner.drop_last(), fin),
    ensures
        function_declared(fin, n, arity),
{
    reveal(kept_all);
    reveal(function_declared);
    assert(scopes_keep(declared.push(Map::empty()), inner));
    lemma_keep_through_scope(declared, inner);
    let closed = inner.drop_last();
    let k = declared.len() - 1;
    assert(declared[k].contains_key(n));
    assert(closed[k].contains_key(n));
    assert(fin[k].contains_key(n));
    assert(fin.last() == fin[k]);
}

/// The value of a string of decimal digits, where it fits in an `i64`.
fn digits_to_i64(chars: &Vec<char>) -> (v: Option<i64>)
    requires
        forall|j: int| 0 <= j < chars.len() ==> is_digit_char(#[trigger] chars@[j]),
    ensures
        match v {
            Some(x) => x == digits_value(chars@),
            None => digits_value(chars@) > i64::MAX,
        },
{
    let mut v: i64 = 0;
    let mut i: usize = 0;
    assert(chars@.take(0) =~= Seq::<char>::empty());
    while i < chars.len()
        invariant
            i <= chars.len(),
            forall|j: int| 0 <= j < chars.len() ==> is_digit_char(#[trigger] chars@[j]),
            v == digits_value(chars@.take(i as int)),
        decreases chars.len() - i,
    {
        proof {
            lemma_digits_prefix(chars@, i + 1);
            assert(chars@.take(i + 1).drop_last() =~= chars@.take(i as int));
            assert(is_digit_char(chars@[i as int]));
        }
        let d = ((chars[i] as u32) - 48) as i64;
        match v.checked_mul(10) {
            Some(m) => match m.checked_add(d) {
                Some(n) => {
                    v = n;
                },
                None => {
                    return None;
                },
            },
            None => {
                return None;
            },
        }
        i += 1;
    }
    assert(chars@.take(i as int) =~= chars@);
    Some(v)
}

/// The text between the first and the last character.
fn strip_quotes(text: &String) -> (r: String)
    requires
        text@.len() >= 2,
    ensures
        r@ == text@.subrange(1, text@.len() - 1),
{
    let chars = chars_of(text.as_str());
    let mut r = String::new();
    let mut i: usize = 1;
    assert(r@ =~= chars@.subrange(1, 1));
    while i + 1 < chars.len()
        invariant
            1 <= i <= chars.len() - 1,
            chars@ == text@,
            r@ == chars@.subrange(1, i as int),
        decreases chars.len() - i,
    {
        push_char(&mut r, chars[i]);
        i += 1;
        assert(r@ =~= chars@.subrange(1, i as int));
    }
    r
}

/// Checks the arguments of a call against the constructor's parameters, pairwise.
fn ctor_check_exec(callee_span: Span, params: &Vec<TypeExpression>, args: &Vec<Expression>) -> (r: Option<ParseError>)
    ensures
        match r {
            Some(e) => ctor_check(callee_span, view_type_exprs(params@), view_expressions(args@), 0)
                == Some(e@),
            None => ctor_check(callee_span, view_type_exprs(params@), view_expressions(args@), 0) is None,
        },
{
    proof {
        lemma_view_type_exprs(params@);
        lemma_view_expressions(args@);
    }
    let ghost ps = view_type_exprs(params@);
    let ghost xs = view_expressions(args@);
    let mut i: usize = 0;
    while i < params.len() && i < args.len()
        invariant
            i <= params.len(),
            ps == view_type_exprs(params@),
            xs == view_expressions(args@),
            ps.len() == params.len(),
            xs.len() == args.len(),
            forall|j: int| 0 <= j < params.len() ==> #[trigger] ps[j] == params@[j]@,
            forall|j: int| 0 <= j < args.len() ==> #[trigger] xs[j] == args@[j]@,
            ctor_check(callee_span, ps, xs, 0) == ctor_check(callee_span, ps, xs, i as int),
        decreases params.len() - i,
    {
        let param = &params[i];
        let arg = &args[i];
        assert(ps[i as int] == param@);
        assert(xs[i as int] == arg@);
        if !type_compatible(&param.ty, &arg.ty) {
            return Some(
                ParseError::IncompatibleTypes(
                    callee_span.source_id,
                    param.span,
                    param.ty.clone(),
                    arg.span,
                    arg.ty.clone(),
                ),
            );
        }
        i += 1;
    }
    None
}

/// The type expressions that parameter bindings stand for.
fn param_types(params: &Vec<Binding>) -> (v: Vec<TypeExpression>)
    ensures
        view_type_exprs(v@) == view_bindings(params@).map_values(|b: SBinding| binding_type_expr(b)),
{
    let mut v: Vec<TypeExpression> = Vec::new();
    let mut i: usize = 0;
    while i < params.len()
        invariant
            i <= params.len(),
            v.len() == i,
            forall|j: int| 0 <= j < i ==> #[trigger] v@[j]@ == binding_type_expr(params@[j]@),
        decreases params.len() - i,
    {
        v.push(params[i].to_type_expr());
        i += 1;
    }
    proof {
        lemma_view_type_exprs(v@);
        let target = view_bindings(params@).map_values(|b: SBinding| binding_type_expr(b));
        assert forall|j: int| 0 <= j < v.len() implies #[trigger] view_type_exprs(v@)[j] == target[j] by {
            assert(view_bindings(params@)[j] == params@[j]@);
            assert(v@[j]@ == binding_type_expr(params@[j]@));
            assert(target[j] == binding_type_expr(view_bindings(params@)[j]));
        }
        assert(view_type_exprs(v@) =~= target);
    }
    v
}

fn copy_name(n: &Spanned<String>) -> (r: Spanned<String>)
    ensures
        r@ == n@,
{
    Spanned { item: n.item.clone(), span: n.span }
}

/// Whether `k` is one of `set`.
fn kind_in(set: &[TokenKind], k: TokenKind) -> (b: bool)
    ensures
        b == set@.contains(k),
{
    let mut i: usize = 0;
    while i < set.len()
        invariant
            i <= set.len(),
            forall|j: int| 0 <= j < i ==> set@[j] != k,
        decreases set.len() - i,
    {
        if set[i] == k {
            return true;
        }
        i += 1;
    }
    false
}

/// What the body of a class declares: its methods and static fields, with their symbols.
struct ClassParts {
    methods: Vec<Statement>,
    method_symbols: SymbolMap,
    statics: Vec<Statement>,
    static_symbols: SymbolMap,
}

impl ClassParts {
    spec fn model(&self) -> ClassAcc {
        ClassAcc {
            methods: view_statements(self.methods@),
            msyms: self.method_symbols@,
            statics: view_statements(self.statics@),
            ssyms: self.static_symbols@,
        }
    }
}

spec fn res_parts(r: Result<ClassParts, ParseError>) -> Result<ClassAcc, SParseError> {
    match r {
        Ok(p) => Ok(p.model()),
        Err(e) => Err(e@),
    }
}

spec fn res_enum(r: Result<(Vec<Statement>, SymbolMap), ParseError>) -> Result<
    (Seq<SStatement>, Map<Seq<char>, crate::symtab::SSymbol>),
    SParseError,
> {
    match r {
        Ok((v, m)) => Ok((view_statements(v@), m@)),
        Err(e) => Err(e@),
    }
}

/// The tokens, the source and its end, as the parser of `source` sees them.
pub open spec fn source_ctx(source: Source) -> Ctx {
    Ctx {
        toks: source.toks(),
        id: source.spec_id(),
        eof: eof_span(source.spec_id(), source.text()),
    }
}

/// Where the statement `d` declares a name, the innermost of `scopes` declares it.
pub open spec fn holds_declaration(scopes: crate::symtab::Scopes, d: SStatement) -> bool {
    declared_name(d) matches Some(n) ==> (scopes.len() > 0 ==> scopes.last().contains_key(n))
}

/// Whether the result of a whole parse is what `p_program` gives.
pub open spec fn parse_result(r: Result<Parse, ParseError>, o: Outcome<Seq<SStatement>>) -> bool {
    match o {
        Outcome::Done(stmts, s) => r matches Ok(p) && view_statements(p.stmts@) == stmts
            && p.symtab@ == s.scopes && p.symtab.wf(),
        Outcome::Fail(e) => r matches Err(x) && x@ == e,
        Outcome::Halt => false,
    }
}

/// What parsing a source gives: its statements, and the symbol table with what
/// they declare.
#[derive(Debug, PartialEq)]
pub struct Parse {
    pub stmts: Vec<Statement>,
    pub symtab: SymbolTable,
}

/// Parses the tokens of one source against a symbol table.
pub struct Parser {
    source: Source,
    symtab: SymbolTable,
    halted: bool,
}

impl Parser {
    /// The tokens, the source and where it ends.
    pub closed spec fn ctx(&self) -> Ctx {
        source_ctx(self.source)
    }

    /// The position in the tokens and the scopes of the symbol table.
    pub closed spec fn state(&self) -> PState {
        PState { cursor: self.source.cursor(), scopes: self.symtab@ }
    }

    pub closed spec fn wf(&self) -> bool {
        &&& self.source.wf()
        &&& self.symtab.wf()
    }

    proof fn lemma_wf(&self)
        requires
            self.wf(),
        ensures
            0 <= self.state().cursor <= self.ctx().toks.len(),
            forall|i: int|
                0 <= i < self.ctx().toks.len() ==> {
                    let t = #[trigger] self.ctx().toks[i];
                    t.kind == TokenKind::Error || lexeme_kind(t.text) == Some(t.kind)
                },
    {
        self.source.lemma_wf();
    }

    /// Skips trivia and consumes the next token.
    fn bump(&mut self) -> (r: Result<Token, ParseError>)
        requires
            old(self).wf(),
            old(self).ctx().toks.len() > 0,
            !old(self).halted,
        ensures
            final(self).wf(),
            final(self).ctx() == old(self).ctx(),
            ends_as(res_view(r), p_bump(old(self).ctx(), old(self).state()), final(self).state(), final(self).halted),
            r is Ok ==> scopes_grow(old(self).state().scopes, final(self).state().scopes),
            r is Ok ==> scopes_keep(old(self).state().scopes, final(self).state().scopes),
            r is Ok ==> progress(old(self).ctx(), old(self).state(), final(self).state()),
    {
        proof {
            self.source.lemma_wf();
            lemma_skip_trivia(self.source.toks(), self.source.cursor());
        }
        let eof = self.source.eof();
        let id = self.source.id();
        match self.source.next_token() {
            Some(t) => Ok(Token { kind: t.kind, text: t.text.clone(), span: t.span }),
            None => Err(ParseError::UnexpectedEof(id, eof)),
        }
    }

    /// Skips trivia; whether the next token has kind `kind`.
    fn at(&mut self, kind: TokenKind) -> (b: bool)
        requires
            old(self).wf(),
        ensures
            final(self).wf(),
            final(self).ctx() == old(self).ctx(),
            (b, final(self).state()) == p_at(old(self).ctx(), old(self).state(), kind),
            final(self).halted == old(self).halted,
            final(self).state().scopes == old(self).state().scopes,
            weakly(old(self).ctx(), old(self).state(), final(self).state()),
    {
        proof {
            self.source.lemma_wf();
            lemma_skip_trivia(self.source.toks(), self.source.cursor());
        }
        match self.source.peek_kind() {
            Some(k) => k == kind,
            None => false,
        }
    }

    /// Skips trivia; whether the next token has one of the kinds `set`.
    fn at_set(&mut self, set: &[TokenKind]) -> (b: bool)
        requires
            old(self).wf(),
        ensures
            final(self).wf(),
            final(self).ctx() == old(self).ctx(),
            (b, final(self).state()) == p_at_set(old(self).ctx(), old(self).state(), set@),
            final(self).halted == old(self).halted,
            final(self).state().scopes == old(self).state().scopes,
            weakly(old(self).ctx(), old(self).state(), final(self).state()),
    {
        proof {
            self.source.lemma_wf();
            lemma_skip_trivia(self.source.toks(), self.source.cursor());
        }
        match self.source.peek_kind() {
            Some(k) => kind_in(set, k),
            None => false,
        }
    }

    /// Stops parsing at an inconsistency that the parser cannot go on from.
    fn halt<T>(&mut self, span: Span) -> (r: Result<T, ParseError>)
        requires
            old(self).wf(),
        ensures
            final(self).wf(),
            final(self).ctx() == old(self).ctx(),
            final(self).state() == old(self).state(),
            final(self).halted,
            r is Err,
    {
        self.halted = true;
        Err(ParseError::ExpectedExpression(self.source.id(), span))
    }

    /// Consumes the next token, which must have kind `kind`.
    fn expect(&mut self, kind: TokenKind) -> (r: Result<Token, ParseError>)
        requires
            old(self).wf(),
            old(self).ctx().toks.len() > 0,
            !old(self).halted,
        ensures
            final(self).wf(),
            final(self).ctx() == old(self).ctx(),
            ends_as(res_view(r), p_expect(old(self).ctx(), old(self).state(), kind), final(self).state(), final(self).halted),
            r is Ok ==> scopes_grow(old(self).state().scopes, final(self).state().scopes),
            r is Ok ==> scopes_keep(old(self).state().scopes, final(self).state().scopes),
            r is Ok ==> progress(old(self).ctx(), old(self).state(), final(self).state()),
    {
        let id = self.source.id();
        match self.bump() {
            Ok(t) => if t.kind == kind {
                Ok(t)
            } else {
                Err(ParseError::ExpectedToken(id, t.text, kind, t.span))
            },
            Err(e) => Err(e),
        }
    }
}


impl Parser {
    /// The type of `lhs op rhs`, or the error that the operator does not apply.
    fn result_type(&self, lhs: &Expression, op: &Operator, rhs: &Expression) -> (r: Result<Type, ParseError>)
        ensures
            res_view(r) == p_result_type(self.ctx(), lhs@, *op, rhs@),
    {
        match result_type(lhs, op, rhs) {
            Some(ty) => Ok(ty),
            None => Err(
                ParseError::UnsupportedOperation(
                    self.source.id(),
                    op.span,
                    lhs.span,
                    lhs.ty.clone(),
                    rhs.span,
                    rhs.ty.clone(),
                ),
            ),
        }
    }

    /// Whether `callee` can be called.
    fn is_callable(&self, callee: &Expression) -> (r: Result<(), ParseError>)
        requires
            self.wf(),
        ensures
            match r {
                Ok(_) => p_is_callable(self.ctx(), self.state(), callee@) is None,
                Err(e) => p_is_callable(self.ctx(), self.state(), callee@) == Some(e@),
            },
    {
        let id = self.source.id();
        match &callee.expr {
            Expr::Variable(name) => {
                match self.symtab.lookup(name.as_str()) {
                    Some(entry) => {
                        proof {
                            lemma_view_type_variant(entry.ty);
                        }
                        if matches!(entry.ty, Type::Any | Type::Function { .. } | Type::Class(..)) {
                            return Ok(());
                        }
                    },
                    None => {},
                }
                Err(ParseError::UncallableExpression(id, callee.span, callee.ty.clone()))
            },
            Expr::Get { .. } => Ok(()),
            _ => Err(ParseError::UncallableExpression(id, callee.span, callee.ty.clone())),
        }
    }

    /// The type of a call of `callee` with `args`.
    fn call_type(&mut self, callee: &Expression, args: &Vec<Expression>) -> (r: Result<Type, ParseError>)
        requires
            old(self).wf(),
            !old(self).halted,
        ensures
            final(self).wf(),
            final(self).ctx() == old(self).ctx(),
            final(self).state() == old(self).state(),
            ends_as(
                res_view(r),
                p_call_type(old(self).ctx(), old(self).state(), callee@, view_expressions(args@)),
                final(self).state(),
                final(self).halted,
            ),
    {
        proof {
            lemma_view_type_variant(callee.ty);
        }
        match &callee.ty {
            Type::Class(class_name) => {
                match self.symtab.lookup(class_name.as_str()) {
                    None => self.halt(callee.span),
                    Some(entry) => match &entry.sym {
                        Sym::Class { methods, .. } => {
                            let key = "constructor".to_owned();
                            proof {
                                reveal_strlit("constructor");
                                assert(key@ =~= seq!['c', 'o', 'n', 's', 't', 'r', 'u', 'c', 't', 'o', 'r']);
                            }
                            match methods.get(&key) {
                                Some(constructor) => {
                                    proof {
                                        lemma_view_type_variant(constructor.ty);
                                    }
                                    match &constructor.ty {
                                        Type::Function { params, .. } => {
                                            match ctor_check_exec(callee.span, params, args) {
                                                Some(e) => {
                                                    return Err(e);
                                                },
                                                None => {},
                                            }
                                        },
                                        _ => {},
                                    }
                                },
                                None => {},
                            }
                            Ok(Type::Instance(class_name.clone()))
                        },
                        _ => self.halt(callee.span),
                    },
                }
            },
            Type::Function { ret_ty, .. } => Ok(ret_ty.ty.clone()),
            _ => Ok(callee.ty.clone()),
        }
    }

    /// The type of a list literal: each item must be compatible with the one before.
    fn list_type(&self, exprs: &Vec<Expression>, list_span: Span) -> (r: Result<Type, ParseError>)
        ensures
            res_view(r) == list_type_check(self.ctx(), view_expressions(exprs@), list_span, crate::types::SType::Any, 0),
    {
        proof {
            lemma_view_expressions(exprs@);
        }
        let ghost ctx = self.ctx();
        let ghost items = view_expressions(exprs@);
        let mut ty = Type::Any;
        let mut i: usize = 0;
        while i < exprs.len()
            invariant
                i <= exprs.len(),
                ctx == self.ctx(),
                items == view_expressions(exprs@),
                items.len() == exprs.len(),
                forall|j: int| 0 <= j < exprs.len() ==> #[trigger] items[j] == exprs@[j]@,
                list_type_check(ctx, items, list_span, crate::types::SType::Any, 0)
                    == list_type_check(ctx, items, list_span, ty@, i as int),
            decreases exprs.len() - i,
        {
            let expr = &exprs[i];
            assert(items[i as int] == expr@);
            if !type_compatible(&ty, &expr.ty) {
                return Err(
                    ParseError::IncompatibleTypes(
                        expr.span.source_id,
                        list_span,
                        ty,
                        expr.span,
                        expr.ty.clone(),
                    ),
                );
            }
            ty = expr.ty.clone();
            i += 1;
        }
        Ok(ty)
    }

    /// The assignment of `rhs` to the target `expr`.
    fn assign_target(&mut self, expr: Expression, eq_span: Span, rhs: Expression) -> (r: Result<Expression, ParseError>)
        requires
            old(self).wf(),
            !old(self).halted,
            well_typed(expr@),
            well_typed(rhs@),
        ensures
            final(self).wf(),
            final(self).ctx() == old(self).ctx(),
            ends_as(
                res_view(r),
                p_assign_target(old(self).ctx(), old(self).state(), expr@, eq_span, rhs@),
                final(self).state(),
                final(self).halted,
            ),
            r is Ok ==> scopes_grow(old(self).state().scopes, final(self).state().scopes),
            r is Ok ==> scopes_keep(old(self).state().scopes, final(self).state().scopes),
            r matches Ok(e) ==> well_typed(e@),
    {
        let id = self.source.id();
        let span = expr.span;
        match expr.expr {
            Expr::Variable(name) => {
                proof {
                    crate::symtab::lemma_scope_of(self.symtab@, name@);
                }
                match self.symtab.lookup_mut(name.as_str()) {
                    Some(entry) => {
                        if type_compatible(&entry.ty, &rhs.ty) {
                            entry.ty = rhs.ty.clone();
                            Ok(
                                Expression {
                                    ty: rhs.ty.clone(),
                                    expr: Expr::Assign {
                                        name: Spanned { item: name, span },
                                        rhs: Box::new(rhs),
                                    },
                                    span,
                                },
                            )
                        } else {
                            Err(ParseError::IncompatibleTypes(id, span, entry.ty.clone(), rhs.span, rhs.ty))
                        }
                    },
                    None => Err(ParseError::UndeclaredVariable(id, span, name)),
                }
            },
            Expr::Get { object, name } => Ok(
                Expression {
                    span: span_from_to(span, rhs.span),
                    expr: Expr::SetProperty { object, name, rhs: Box::new(rhs) },
                    ty: Type::Null,
                },
            ),
            Expr::IndexGet { lhs, index } => Ok(
                Expression {
                    span: span_from_to(span, rhs.span),
                    expr: Expr::IndexSet { lhs, index, rhs: Box::new(rhs) },
                    ty: Type::Null,
                },
            ),
            _ => Err(ParseError::InvalidAssignmentTarget(id, eq_span)),
        }
    }
}


impl Parser {
    fn expr(&mut self) -> (r: Result<Expression, ParseError>)
        requires
            old(self).wf(),
            old(self).ctx().toks.len() > 0,
            !old(self).halted,
        ensures
            final(self).wf(),
            final(self).ctx() == old(self).ctx(),
            ends_as(res_view(r), p_expr(old(self).ctx(), old(self).state()), final(self).state(), final(self).halted),
            r is Ok ==> progress(old(self).ctx(), old(self).state(), final(self).state()),
            r is Ok ==> scopes_grow(old(self).state().scopes, final(self).state().scopes),
            r is Ok ==> scopes_keep(old(self).state().scopes, final(self).state().scopes),
            r matches Ok(e) ==> well_typed(e@),
        decreases old(self).ctx().toks.len() - old(self).state().cursor, 70int,
    {
        proof {
            self.lemma_wf();
            crate::reads::lemma_expr_reads(self.ctx(), self.state());
        }
        proof {
            self.lemma_wf();
        }
        self.assignment()
    }

    fn assignment(&mut self) -> (r: Result<Expression, ParseError>)
        requires
            old(self).wf(),
            old(self).ctx().toks.len() > 0,
            !old(self).halted,
        ensures
            final(self).wf(),
            final(self).ctx() == old(self).ctx(),
            ends_as(res_view(r), p_assignment(old(self).ctx(), old(self).state()), final(self).state(), final(self).halted),
            r is Ok ==> progress(old(self).ctx(), old(self).state(), final(self).state()),
            r is Ok ==> scopes_grow(old(self).state().scopes, final(self).state().scopes),
            r is Ok ==> scopes_keep(old(self).state().scopes, final(self).state().scopes),
            r matches Ok(e) ==> well_typed(e@),
        decreases old(self).ctx().toks.len() - old(self).state().cursor, 69int,
    {
        proof {
            self.lemma_wf();
            crate::reads::lemma_assignment_reads(self.ctx(), self.state());
        }
        proof {
            self.lemma_wf();
        }
        let expr = match self.binary(0) {
            Ok(e) => e,
            Err(e) => return Err(e),
        };
        if self.at(TokenKind::Equal) {
            let eq_span = match self.bump() {
                Ok(t) => t.span,
                Err(e) => return Err(e),
            };
            proof {
                self.lemma_wf();
            }
            let rhs = match self.assignment() {
                Ok(e) => e,
                Err(e) => return Err(e),
            };
            return self.assign_target(expr, eq_span, rhs);
        }
        Ok(expr)
    }

    /// An operand of `level`, then any number of operators of that level with
    /// their right operands, left associative.
    fn binary(&mut self, level: usize) -> (r: Result<Expression, ParseError>)
        requires
            old(self).wf(),
            old(self).ctx().toks.len() > 0,
            level <= 5,
            !old(self).halted,
        ensures
            final(self).wf(),
            final(self).ctx() == old(self).ctx(),
            ends_as(res_view(r), p_binary(old(self).ctx(), old(self).state(), level as int), final(self).state(), final(self).halted),
            r is Ok ==> progress(old(self).ctx(), old(self).state(), final(self).state()),
            r is Ok ==> scopes_grow(old(self).state().scopes, final(self).state().scopes),
            r is Ok ==> scopes_keep(old(self).state().scopes, final(self).state().scopes),
            r matches Ok(e) ==> well_typed(e@),
        decreases old(self).ctx().toks.len() - old(self).state().cursor, 68 - 2 * level,
    {
        proof {
            self.lemma_wf();
            crate::reads::lemma_binary_reads(self.ctx(), self.state(), level as int);
        }
        proof {
            self.lemma_wf();
        }
        let ghost ctx = self.ctx();
        let ghost st = self.state();
        let mut expr = match self.operand(level) {
            Ok(e) => e,
            Err(e) => return Err(e),
        };
        let ops = level_ops_exec(level);
        proof {
            self.lemma_wf();
        }
        loop
            invariant
                self.wf(),
                self.ctx() == ctx,
                ctx == old(self).ctx(),
                st == old(self).state(),
                scopes_grow(st.scopes, self.state().scopes),
                scopes_keep(st.scopes, self.state().scopes),
                ctx.toks.len() > 0,
                level <= 5,
                ops@ == level_ops(level as int),
                st.cursor < self.state().cursor <= ctx.toks.len(),
                p_binary(ctx, st, level as int) == p_binary_rest(ctx, self.state(), level as int, expr@),
                well_typed(expr@),
                !self.halted,
            decreases ctx.toks.len() - self.state().cursor,
        {
            if !self.at_set(ops.as_slice()) {
                return Ok(expr);
            }
            let op_tok = match self.bump() {
                Ok(t) => t,
                Err(e) => return Err(e),
            };
            proof {
                self.lemma_wf();
            }
            let rhs = match self.operand(level) {
                Ok(e) => e,
                Err(e) => return Err(e),
            };
            if !has_operator(op_tok.kind) {
                return self.halt(op_tok.span);
            }
            let op = Operator::from_token(&op_tok);
            let ty = match self.result_type(&expr, &op, &rhs) {
                Ok(t) => t,
                Err(e) => return Err(e),
            };
            expr = make_level_node(level, expr, op, rhs, ty);
            proof {
                self.lemma_wf();
            }
        }
    }

    /// The operand of a level: the next level, or a unary expression below factors.
    fn operand(&mut self, level: usize) -> (r: Result<Expression, ParseError>)
        requires
            old(self).wf(),
            old(self).ctx().toks.len() > 0,
            level <= 5,
            !old(self).halted,
        ensures
            final(self).wf(),
            final(self).ctx() == old(self).ctx(),
            ends_as(res_view(r), p_operand(old(self).ctx(), old(self).state(), level as int), final(self).state(), final(self).halted),
            r is Ok ==> progress(old(self).ctx(), old(self).state(), final(self).state()),
            r is Ok ==> scopes_grow(old(self).state().scopes, final(self).state().scopes),
            r is Ok ==> scopes_keep(old(self).state().scopes, final(self).state().scopes),
            r matches Ok(e) ==> well_typed(e@),
        decreases old(self).ctx().toks.len() - old(self).state().cursor, 67 - 2 * level,
    {
        proof {
            self.lemma_wf();
            crate::reads::lemma_operand_reads(self.ctx(), self.state(), level as int);
        }
        proof {
            self.lemma_wf();
        }
        if level == 5 {
            self.unary()
        } else {
            self.binary(level + 1)
        }
    }

    fn unary(&mut self) -> (r: Result<Expression, ParseError>)
        requires
            old(self).wf(),
            old(self).ctx().toks.len() > 0,
            !old(self).halted,
        ensures
            final(self).wf(),
            final(self).ctx() == old(self).ctx(),
            ends_as(res_view(r), p_unary(old(self).ctx(), old(self).state()), final(self).state(), final(self).halted),
            r is Ok ==> progress(old(self).ctx(), old(self).state(), final(self).state()),
            r is Ok ==> scopes_grow(old(self).state().scopes, final(self).state().scopes),
            r is Ok ==> scopes_keep(old(self).state().scopes, final(self).state().scopes),
            r matches Ok(e) ==> well_typed(e@),
        decreases old(self).ctx().toks.len() - old(self).state().cursor, 50int,
    {
        proof {
            self.lemma_wf();
            crate::reads::lemma_unary_reads(self.ctx(), self.state());
        }
        proof {
            self.lemma_wf();
        }
        let ops = vec![TokenKind::Bang, TokenKind::Minus];
        assert(ops@ =~= seq![TokenKind::Bang, TokenKind::Minus]);
        if self.at_set(ops.as_slice()) {
            let op_tok = match self.bump() {
                Ok(t) => t,
                Err(e) => return Err(e),
            };
            proof {
                self.lemma_wf();
            }
            let rhs = match self.unary() {
                Ok(e) => e,
                Err(e) => return Err(e),
            };
            if !has_operator(op_tok.kind) {
                return self.halt(op_tok.span);
            }
            let op = Operator::from_token(&op_tok);
            let id = self.source.id();
            proof {
                lemma_view_type_variant(rhs.ty);
            }
            if op.op == Op::Not && !matches!(rhs.ty, Type::Bool) {
                return Err(ParseError::UnsupportedUnaryOperation(id, op.span, rhs.span, rhs.ty));
            }
            if op.op == Op::Sub && !matches!(rhs.ty, Type::Float) && !matches!(rhs.ty, Type::Int) {
                return Err(ParseError::UnsupportedUnaryOperation(id, op.span, rhs.span, rhs.ty));
            }
            Ok(
                Expression {
                    span: span_from_to(op.span, rhs.span),
                    ty: rhs.ty.clone(),
                    expr: Expr::Unary { op, rhs: Box::new(rhs) },
                },
            )
        } else {
            self.index()
        }
    }

    fn index(&mut self) -> (r: Result<Expression, ParseError>)
        requires
            old(self).wf(),
            old(self).ctx().toks.len() > 0,
            !old(self).halted,
        ensures
            final(self).wf(),
            final(self).ctx() == old(self).ctx(),
            ends_as(res_view(r), p_index(old(self).ctx(), old(self).state()), final(self).state(), final(self).halted),
            r is Ok ==> progress(old(self).ctx(), old(self).state(), final(self).state()),
            r is Ok ==> scopes_grow(old(self).state().scopes, final(self).state().scopes),
            r is Ok ==> scopes_keep(old(self).state().scopes, final(self).state().scopes),
            r matches Ok(e) ==> well_typed(e@),
        decreases old(self).ctx().toks.len() - old(self).state().cursor, 49int,
    {
        proof {
            self.lemma_wf();
            crate::reads::lemma_index_reads(self.ctx(), self.state());
        }
        proof {
            self.lemma_wf();
        }
        let expr = match self.call() {
            Ok(e) => e,
            Err(e) => return Err(e),
        };
        if self.at(TokenKind::LeftBracket) {
            match self.bump() {
                Ok(_) => {},
                Err(e) => return Err(e),
            }
            proof {
                self.lemma_wf();
            }
            let index_expr = match self.expr() {
                Ok(e) => e,
                Err(e) => return Err(e),
            };
            let end_span = match self.expect(TokenKind::RightBracket) {
                Ok(t) => t.span,
                Err(e) => return Err(e),
            };
            return Ok(
                Expression {
                    span: span_from_to(expr.span, end_span),
                    ty: Type::Any,
                    expr: Expr::IndexGet { lhs: Box::new(expr), index: Box::new(index_expr) },
                },
            );
        }
        Ok(expr)
    }

    /// A primary expression followed by any number of calls and property accesses.
    fn call(&mut self) -> (r: Result<Expression, ParseError>)
        requires
            old(self).wf(),
            old(self).ctx().toks.len() > 0,
            !old(self).halted,
        ensures
            final(self).wf(),
            final(self).ctx() == old(self).ctx(),
            ends_as(res_view(r), p_call(old(self).ctx(), old(self).state()), final(self).state(), final(self).halted),
            r is Ok ==> progress(old(self).ctx(), old(self).state(), final(self).state()),
            r is Ok ==> scopes_grow(old(self).state().scopes, final(self).state().scopes),
            r is Ok ==> scopes_keep(old(self).state().scopes, final(self).state().scopes),
            r matches Ok(e) ==> well_typed(e@),
        decreases old(self).ctx().toks.len() - old(self).state().cursor, 48int,
    {
        proof {
            self.lemma_wf();
            crate::reads::lemma_call_reads(self.ctx(), self.state());
        }
        proof {
            self.lemma_wf();
        }
        let ghost ctx = self.ctx();
        let ghost st = self.state();
        let mut expr = match self.primary() {
            Ok(e) => e,
            Err(e) => return Err(e),
        };
        proof {
            self.lemma_wf();
        }
        loop
            invariant
                self.wf(),
                self.ctx() == ctx,
                ctx == old(self).ctx(),
                st == old(self).state(),
                scopes_grow(st.scopes, self.state().scopes),
                scopes_keep(st.scopes, self.state().scopes),
                ctx.toks.len() > 0,
                st.cursor < self.state().cursor <= ctx.toks.len(),
                p_call(ctx, st) == p_call_rest(ctx, self.state(), expr@),
                well_typed(expr@),
                !self.halted,
            decreases ctx.toks.len() - self.state().cursor,
        {
            if self.at(TokenKind::RightParen) {
                match self.bump() {
                    Ok(_) => {},
                    Err(e) => return Err(e),
                }
                proof {
                    self.lemma_wf();
                }
                expr = match self.finish_call(expr) {
                    Ok(e) => e,
                    Err(e) => return Err(e),
                };
            } else if self.at(TokenKind::Dot) {
                match self.bump() {
                    Ok(_) => {},
                    Err(e) => return Err(e),
                }
                let name = match self.expect(TokenKind::Ident) {
                    Ok(t) => t,
                    Err(e) => return Err(e),
                };
                proof {
                    lemma_view_type_variant(expr.ty);
                }
                if !matches!(expr.ty, Type::Any | Type::Instance(..) | Type::Class(..)) {
                    return Err(
                        ParseError::OnlyInstancesAndClassesHaveProperties(
                            self.source.id(),
                            expr.span,
                            expr.ty,
                        ),
                    );
                }
                let span = span_from_to(expr.span, name.span);
                expr = Expression {
                    span,
                    ty: Type::Any,
                    expr: Expr::Get {
                        name: Spanned { item: name.text, span: name.span },
                        object: Box::new(expr),
                    },
                };
            } else {
                return Ok(expr);
            }
            proof {
                self.lemma_wf();
            }
        }
    }

    /// The arguments and closing parenthesis of a call, and the type of the call.
    fn finish_call(&mut self, callee: Expression) -> (r: Result<Expression, ParseError>)
        requires
            old(self).wf(),
            old(self).ctx().toks.len() > 0,
            !old(self).halted,
            well_typed(callee@),
        ensures
            final(self).wf(),
            final(self).ctx() == old(self).ctx(),
            ends_as(res_view(r), p_finish_call(old(self).ctx(), old(self).state(), callee@), final(self).state(), final(self).halted),
            r is Ok ==> progress(old(self).ctx(), old(self).state(), final(self).state()),
            r is Ok ==> scopes_grow(old(self).state().scopes, final(self).state().scopes),
            r is Ok ==> scopes_keep(old(self).state().scopes, final(self).state().scopes),
            r matches Ok(e) ==> well_typed(e@),
        decreases old(self).ctx().toks.len() - old(self).state().cursor, 73int,
    {
        proof {
            self.lemma_wf();
            crate::reads::lemma_finish_call_reads(self.ctx(), self.state(), callee@);
        }
        proof {
            self.lemma_wf();
        }
        let mut args: Vec<Expression> = Vec::new();
        if !self.at(TokenKind::LeftParen) {
            args = match self.args() {
                Ok(a) => a,
                Err(e) => return Err(e),
            };
        }
        let paren = match self.expect(TokenKind::LeftParen) {
            Ok(t) => t.span,
            Err(e) => return Err(e),
        };
        match self.is_callable(&callee) {
            Ok(_) => {},
            Err(e) => return Err(e),
        }
        let ty = match self.call_type(&callee, &args) {
            Ok(t) => t,
            Err(e) => return Err(e),
        };
        proof {
            lemma_view_expressions(args@);
            assert forall|i: int| 0 <= i < view_expressions(args@).len() implies well_typed(
                #[trigger] view_expressions(args@)[i],
            ) by {
                assert(well_typed(args@[i]@));
            }
        }
        let call = Expression {
            span: span_from_to(callee.span, paren),
            ty,
            expr: Expr::Call { callee: Box::new(callee), paren, args },
        };
        assert(well_typed(call@));
        Ok(call)
    }

    /// A comma separated list of expressions.
    fn args(&mut self) -> (r: Result<Vec<Expression>, ParseError>)
        requires
            old(self).wf(),
            old(self).ctx().toks.len() > 0,
            !old(self).halted,
        ensures
            final(self).wf(),
            final(self).ctx() == old(self).ctx(),
            ends_as(res_exprs(r), p_args(old(self).ctx(), old(self).state()), final(self).state(), final(self).halted),
            r is Ok ==> progress(old(self).ctx(), old(self).state(), final(self).state()),
            r is Ok ==> scopes_grow(old(self).state().scopes, final(self).state().scopes),
            r is Ok ==> scopes_keep(old(self).state().scopes, final(self).state().scopes),
            r matches Ok(v) ==> forall|i: int| 0 <= i < v.len() ==> well_typed(#[trigger] v@[i]@),
        decreases old(self).ctx().toks.len() - old(self).state().cursor, 72int,
    {
        proof {
            self.lemma_wf();
            crate::reads::lemma_args_reads(self.ctx(), self.state());
        }
        proof {
            self.lemma_wf();
        }
        let ghost ctx = self.ctx();
        let ghost st = self.state();
        let mut args: Vec<Expression> = Vec::new();
        assert(prepend(view_expressions(args@), p_args(ctx, st)) == p_args(ctx, st)) by {
            if let Outcome::Done(rest, s) = p_args(ctx, st) {
                assert(Seq::<SExpression>::empty() + rest =~= rest);
            }
        }
        loop
            invariant
                self.wf(),
                self.ctx() == ctx,
                ctx == old(self).ctx(),
                st == old(self).state(),
                scopes_grow(st.scopes, self.state().scopes),
                scopes_keep(st.scopes, self.state().scopes),
                ctx.toks.len() > 0,
                st.cursor <= self.state().cursor <= ctx.toks.len(),
                p_args(ctx, st) == prepend(view_expressions(args@), p_args(ctx, self.state())),
                forall|i: int| 0 <= i < args.len() ==> well_typed(#[trigger] args@[i]@),
                !self.halted,
            decreases ctx.toks.len() - self.state().cursor,
        {
            let ghost acc = view_expressions(args@);
            let ghost s0 = self.state();
            let e = match self.expr() {
                Ok(e) => e,
                Err(err) => return Err(err),
            };
            proof {
                lemma_view_expressions_push(args@, e);
            }
            args.push(e);
            if self.at(TokenKind::Comma) {
                match self.bump() {
                    Ok(_) => {},
                    Err(err) => return Err(err),
                }
                proof {
                    self.lemma_wf();
                    lemma_prepend_twice(acc, seq![e@], p_args(ctx, self.state()));
                    assert(acc + seq![e@] =~= acc.push(e@));
                }
            } else {
                assert(acc + seq![e@] =~= acc.push(e@));
                return Ok(args);
            }
        }
    }

    /// A literal, a variable, a parenthesized expression or a list.
    fn primary(&mut self) -> (r: Result<Expression, ParseError>)
        requires
            old(self).wf(),
            old(self).ctx().toks.len() > 0,
            !old(self).halted,
        ensures
            final(self).wf(),
            final(self).ctx() == old(self).ctx(),
            ends_as(res_view(r), p_primary(old(self).ctx(), old(self).state()), final(self).state(), final(self).halted),
            r is Ok ==> progress(old(self).ctx(), old(self).state(), final(self).state()),
            r is Ok ==> scopes_grow(old(self).state().scopes, final(self).state().scopes),
            r is Ok ==> scopes_keep(old(self).state().scopes, final(self).state().scopes),
            r matches Ok(e) ==> well_typed(e@),
        decreases old(self).ctx().toks.len() - old(self).state().cursor, 40int,
    {
        proof {
            self.lemma_wf();
            crate::reads::lemma_primary_reads(self.ctx(), self.state());
        }
        proof {
            self.lemma_wf();
        }
        let ghost ctx = self.ctx();
        let ghost st = self.state();
        let id = self.source.id();
        let token = match self.bump() {
            Ok(t) => t,
            Err(e) => return Err(e),
        };
        proof {
            self.lemma_wf();
            lemma_skip_trivia(ctx.toks, st.cursor);
            let c = skip_trivia(ctx.toks, st.cursor);
            assert(token@ == ctx.toks[c]);
            lemma_token_shapes(ctx.toks[c]);
        }
        let span = token.span;
        match token.kind {
            TokenKind::False => Ok(Expression { expr: Expr::Bool(false), span, ty: Type::Bool }),
            TokenKind::True => Ok(Expression { expr: Expr::Bool(true), span, ty: Type::Bool }),
            TokenKind::Null => Ok(Expression { expr: Expr::Null, span, ty: Type::Null }),
            TokenKind::This => Ok(Expression { expr: Expr::This, span, ty: Type::Any }),
            TokenKind::RightParen => {
                let expr = match self.expr() {
                    Ok(e) => e,
                    Err(e) => return Err(e),
                };
                let right_paren = match self.expect(TokenKind::LeftParen) {
                    Ok(t) => t,
                    Err(e) => return Err(e),
                };
                Ok(
                    Expression {
                        ty: expr.ty.clone(),
                        expr: Expr::Grouping(Box::new(expr)),
                        span: span_from_to(span, right_paren.span),
                    },
                )
            },
            TokenKind::Ident => {
                match self.symtab.lookup(token.text.as_str()) {
                    Some(symbol) => Ok(
                        Expression { expr: Expr::Variable(token.text), span, ty: symbol.ty.clone() },
                    ),
                    None => Err(ParseError::UndeclaredVariable(id, span, token.text)),
                }
            },
            TokenKind::Number => {
                let chars = chars_of(token.text.as_str());
                if has_dot_exec(&chars) {
                    Ok(Expression { expr: Expr::Float(token.text), span, ty: Type::Float })
                } else {
                    match digits_to_i64(&chars) {
                        Some(val) => Ok(Expression { expr: Expr::Int(val), span, ty: Type::Int }),
                        None => self.halt(span),
                    }
                }
            },
            TokenKind::String => {
                let text = strip_quotes(&token.text);
                Ok(Expression { expr: Expr::String(text), span, ty: Type::String })
            },
            TokenKind::LeftBracket => self.list(span),
            _ => Err(ParseError::ExpectedExpression(id, span)),
        }
    }

    /// The rest of a list literal after `[`.
    fn list(&mut self, start: Span) -> (r: Result<Expression, ParseError>)
        requires
            old(self).wf(),
            old(self).ctx().toks.len() > 0,
            !old(self).halted,
        ensures
            final(self).wf(),
            final(self).ctx() == old(self).ctx(),
            ends_as(res_view(r), p_list(old(self).ctx(), old(self).state(), start), final(self).state(), final(self).halted),
            r is Ok ==> progress(old(self).ctx(), old(self).state(), final(self).state()),
            r is Ok ==> scopes_grow(old(self).state().scopes, final(self).state().scopes),
            r is Ok ==> scopes_keep(old(self).state().scopes, final(self).state().scopes),
            r matches Ok(e) ==> well_typed(e@),
        decreases old(self).ctx().toks.len() - old(self).state().cursor, 75int,
    {
        proof {
            self.lemma_wf();
            crate::reads::lemma_list_reads(self.ctx(), self.state(), start);
        }
        proof {
            self.lemma_wf();
        }
        let mut exprs: Vec<Expression> = Vec::new();
        if !self.at(TokenKind::RightBracket) {
            match self.list_items(start) {
                Ok((items, None)) => {
                    exprs = items;
                },
                Ok((_, Some(shorthand))) => return Ok(shorthand),
                Err(e) => return Err(e),
            }
        }
        let end_span = match self.expect(TokenKind::RightBracket) {
            Ok(t) => t.span,
            Err(e) => return Err(e),
        };
        let list_span = span_from_to(start, end_span);
        let ty = match self.list_type(&exprs, list_span) {
            Ok(t) => t,
            Err(e) => return Err(e),
        };
        proof {
            lemma_view_expressions(exprs@);
            assert forall|i: int| 0 <= i < view_expressions(exprs@).len() implies well_typed(
                #[trigger] view_expressions(exprs@)[i],
            ) by {
                assert(well_typed(exprs@[i]@));
            }
        }
        let list = Expression {
            expr: Expr::List(exprs),
            span: list_span,
            ty: Type::List(Box::new(TypeExpression { ty, span: list_span })),
        };
        assert(well_typed(list@));
        Ok(list)
    }

    /// Items of a list literal; a `;` after an item makes the literal a shorthand.
    fn list_items(&mut self, start: Span) -> (r: Result<(Vec<Expression>, Option<Expression>), ParseError>)
        requires
            old(self).wf(),
            old(self).ctx().toks.len() > 0,
            !old(self).halted,
        ensures
            final(self).wf(),
            final(self).ctx() == old(self).ctx(),
            ends_as(res_items(r), p_list_items(old(self).ctx(), old(self).state(), start), final(self).state(), final(self).halted),
            r is Ok ==> progress(old(self).ctx(), old(self).state(), final(self).state()),
            r is Ok ==> scopes_grow(old(self).state().scopes, final(self).state().scopes),
            r is Ok ==> scopes_keep(old(self).state().scopes, final(self).state().scopes),
            r matches Ok((v, o)) ==> (forall|i: int| 0 <= i < v.len() ==> well_typed(#[trigger] v@[i]@)) && (o matches Some(x) ==> well_typed(x@)),
        decreases old(self).ctx().toks.len() - old(self).state().cursor, 74int,
    {
        proof {
            self.lemma_wf();
            crate::reads::lemma_list_items_reads(self.ctx(), self.state(), start);
        }
        proof {
            self.lemma_wf();
        }
        let ghost ctx = self.ctx();
        let ghost st = self.state();
        let mut exprs: Vec<Expression> = Vec::new();
        assert(prepend_items(view_expressions(exprs@), p_list_items(ctx, st, start)) == p_list_items(ctx, st, start)) by {
            if let Outcome::Done((rest, None), s) = p_list_items(ctx, st, start) {
                assert(Seq::<SExpression>::empty() + rest =~= rest);
            }
        }
        loop
            invariant
                self.wf(),
                self.ctx() == ctx,
                ctx == old(self).ctx(),
                st == old(self).state(),
                scopes_grow(st.scopes, self.state().scopes),
                scopes_keep(st.scopes, self.state().scopes),
                ctx.toks.len() > 0,
                st.cursor <= self.state().cursor <= ctx.toks.len(),
                p_list_items(ctx, st, start) == prepend_items(
                    view_expressions(exprs@),
                    p_list_items(ctx, self.state(), start),
                ),
                forall|i: int| 0 <= i < exprs.len() ==> well_typed(#[trigger] exprs@[i]@),
                !self.halted,
            decreases ctx.toks.len() - self.state().cursor,
        {
            let ghost acc = view_expressions(exprs@);
            let e = match self.expr() {
                Ok(e) => e,
                Err(err) => return Err(err),
            };
            if self.at(TokenKind::Semicolon) {
                match self.bump() {
                    Ok(_) => {},
                    Err(err) => return Err(err),
                }
                proof {
                    self.lemma_wf();
                }
                let count = match self.expr() {
                    Ok(c) => c,
                    Err(err) => return Err(err),
                };
                if !type_compatible(&count.ty, &Type::Int) {
                    return Err(ParseError::ListShorthandCountMustBeInt(count.span.source_id, count.span));
                }
                let end_span = match self.expect(TokenKind::RightBracket) {
                    Ok(t) => t.span,
                    Err(err) => return Err(err),
                };
                let value_ty = TypeExpression { ty: e.ty.clone(), span: e.span };
                let shorthand = Expression {
                    ty: Type::List(Box::new(value_ty)),
                    expr: Expr::ListShorthand { value: Box::new(e), count: Box::new(count) },
                    span: span_from_to(start, end_span),
                };
                let none: Vec<Expression> = Vec::new();
                assert(view_expressions(none@) =~= Seq::<SExpression>::empty());
                return Ok((none, Some(shorthand)));
            }
            proof {
                lemma_view_expressions_push(exprs@, e);
            }
            exprs.push(e);
            if self.at(TokenKind::Comma) {
                match self.bump() {
                    Ok(_) => {},
                    Err(err) => return Err(err),
                }
                proof {
                    self.lemma_wf();
                    assert(acc + seq![e@] =~= acc.push(e@));
                    if let Outcome::Done((rest, None), s) = p_list_items(ctx, self.state(), start) {
                        assert(acc + (seq![e@] + rest) =~= acc.push(e@) + rest);
                    }
                }
            } else {
                assert(acc + seq![e@] =~= acc.push(e@));
                return Ok((exprs, None));
            }
        }
    }
}


impl Parser {
    /// A type annotation.
    fn ty(&mut self) -> (r: Result<TypeExpression, ParseError>)
        requires
            old(self).wf(),
            old(self).ctx().toks.len() > 0,
            !old(self).halted,
        ensures
            final(self).wf(),
            final(self).ctx() == old(self).ctx(),
            ends_as(res_view(r), p_ty(old(self).ctx(), old(self).state()), final(self).state(), final(self).halted),
            r is Ok ==> progress(old(self).ctx(), old(self).state(), final(self).state()),
            r is Ok ==> scopes_grow(old(self).state().scopes, final(self).state().scopes),
            r is Ok ==> scopes_keep(old(self).state().scopes, final(self).state().scopes),
        decreases old(self).ctx().toks.len() - old(self).state().cursor, 50int,
    {
        proof {
            self.lemma_wf();
            crate::reads::lemma_ty_reads(self.ctx(), self.state());
        }
        proof {
            self.lemma_wf();
        }
        let id = self.source.id();
        let token = match self.bump() {
            Ok(t) => t,
            Err(e) => return Err(e),
        };
        proof {
            self.lemma_wf();
        }
        let span = token.span;
        let ty = match token.kind {
            TokenKind::TypeInt => Type::Int,
            TokenKind::TypeFloat => Type::Float,
            TokenKind::TypeBool => Type::Bool,
            TokenKind::TypeString => Type::String,
            TokenKind::Null => Type::Null,
            TokenKind::TypeAny => Type::Any,
            TokenKind::Ident => Type::Instance(token.text),
            TokenKind::LeftBracket => {
                let list_ty = match self.ty() {
                    Ok(t) => t,
                    Err(e) => return Err(e),
                };
                let end_span = match self.expect(TokenKind::RightBracket) {
                    Ok(t) => t.span,
                    Err(e) => return Err(e),
                };
                return Ok(
                    TypeExpression {
                        ty: Type::List(Box::new(list_ty)),
                        span: span_from_to(span, end_span),
                    },
                );
            },
            TokenKind::RightParen => {
                let mut params: Vec<TypeExpression> = Vec::new();
                assert(view_type_exprs(params@) =~= Seq::<STypeExpr>::empty());
                if !self.at(TokenKind::LeftParen) {
                    proof {
                        self.lemma_wf();
                    }
                    params = match self.ty_params() {
                        Ok(p) => p,
                        Err(e) => return Err(e),
                    };
                }
                match self.expect(TokenKind::LeftParen) {
                    Ok(_) => {},
                    Err(e) => return Err(e),
                }
                match self.expect(TokenKind::Arrow) {
                    Ok(_) => {},
                    Err(e) => return Err(e),
                }
                proof {
                    self.lemma_wf();
                }
                let ret = match self.ty() {
                    Ok(t) => t,
                    Err(e) => return Err(e),
                };
                return Ok(
                    TypeExpression {
                        span: span_from_to(span, ret.span),
                        ty: Type::Function { params, ret_ty: Box::new(ret) },
                    },
                );
            },
            _ => return Err(ParseError::UnknownType(id, span)),
        };
        Ok(TypeExpression { ty, span })
    }

    /// A comma separated list of types.
    fn ty_params(&mut self) -> (r: Result<Vec<TypeExpression>, ParseError>)
        requires
            old(self).wf(),
            old(self).ctx().toks.len() > 0,
            !old(self).halted,
        ensures
            final(self).wf(),
            final(self).ctx() == old(self).ctx(),
            ends_as(res_type_exprs(r), p_ty_params(old(self).ctx(), old(self).state()), final(self).state(), final(self).halted),
            r is Ok ==> progress(old(self).ctx(), old(self).state(), final(self).state()),
            r is Ok ==> scopes_grow(old(self).state().scopes, final(self).state().scopes),
            r is Ok ==> scopes_keep(old(self).state().scopes, final(self).state().scopes),
        decreases old(self).ctx().toks.len() - old(self).state().cursor, 51int,
    {
        proof {
            self.lemma_wf();
            crate::reads::lemma_ty_params_reads(self.ctx(), self.state());
        }
        proof {
            self.lemma_wf();
        }
        let ghost ctx = self.ctx();
        let ghost st = self.state();
        let mut params: Vec<TypeExpression> = Vec::new();
        assert(prepend(view_type_exprs(params@), p_ty_params(ctx, st)) == p_ty_params(ctx, st)) by {
            if let Outcome::Done(rest, s) = p_ty_params(ctx, st) {
                assert(Seq::<STypeExpr>::empty() + rest =~= rest);
            }
        }
        loop
            invariant
                self.wf(),
                self.ctx() == ctx,
                ctx == old(self).ctx(),
                st == old(self).state(),
                scopes_grow(st.scopes, self.state().scopes),
                scopes_keep(st.scopes, self.state().scopes),
                ctx.toks.len() > 0,
                st.cursor <= self.state().cursor <= ctx.toks.len(),
                p_ty_params(ctx, st) == prepend(view_type_exprs(params@), p_ty_params(ctx, self.state())),
                !self.halted,
            decreases ctx.toks.len() - self.state().cursor,
        {
            let ghost acc = view_type_exprs(params@);
            let t = match self.ty() {
                Ok(t) => t,
                Err(e) => return Err(e),
            };
            proof {
                lemma_view_type_exprs_push(params@, t);
            }
            params.push(t);
            if self.at(TokenKind::Comma) {
                match self.bump() {
                    Ok(_) => {},
                    Err(e) => return Err(e),
                }
                proof {
                    self.lemma_wf();
                    lemma_prepend_twice(acc, seq![t@], p_ty_params(ctx, self.state()));
                    assert(acc + seq![t@] =~= acc.push(t@));
                }
            } else {
                assert(acc + seq![t@] =~= acc.push(t@));
                return Ok(params);
            }
        }
    }

    /// A name to declare, with an optional `: type`; the name must not be visible.
    fn binding(&mut self) -> (r: Result<Binding, ParseError>)
        requires
            old(self).wf(),
            old(self).ctx().toks.len() > 0,
            !old(self).halted,
        ensures
            final(self).wf(),
            final(self).ctx() == old(self).ctx(),
            ends_as(res_view(r), p_binding(old(self).ctx(), old(self).state()), final(self).state(), final(self).halted),
            r is Ok ==> progress(old(self).ctx(), old(self).state(), final(self).state()),
            r is Ok ==> scopes_grow(old(self).state().scopes, final(self).state().scopes),
            r is Ok ==> scopes_keep(old(self).state().scopes, final(self).state().scopes),
    {
        proof {
            self.lemma_wf();
            crate::reads::lemma_binding_reads(self.ctx(), self.state());
        }
        let id = self.source.id();
        let ident = match self.expect(TokenKind::Ident) {
            Ok(t) => t,
            Err(e) => return Err(e),
        };
        match self.symtab.lookup(ident.text.as_str()) {
            Some(sym) => {
                return Err(
                    ParseError::CannotRedeclareSymbol(
                        id,
                        sym.name.item.clone(),
                        ident.span,
                        sym.name.span,
                    ),
                );
            },
            None => {},
        }
        let mut ty = Type::Any;
        if self.at(TokenKind::Colon) {
            match self.bump() {
                Ok(_) => {},
                Err(e) => return Err(e),
            }
            proof {
                self.lemma_wf();
            }
            ty = match self.ty() {
                Ok(t) => t.ty,
                Err(e) => return Err(e),
            };
        }
        Ok(Binding { name: Spanned { item: ident.text, span: ident.span }, ty })
    }

    /// A comma separated list of bindings.
    fn params(&mut self) -> (r: Result<Vec<Binding>, ParseError>)
        requires
            old(self).wf(),
            old(self).ctx().toks.len() > 0,
            !old(self).halted,
        ensures
            final(self).wf(),
            final(self).ctx() == old(self).ctx(),
            ends_as(res_bindings(r), p_params(old(self).ctx(), old(self).state()), final(self).state(), final(self).halted),
            r is Ok ==> progress(old(self).ctx(), old(self).state(), final(self).state()),
            r is Ok ==> scopes_grow(old(self).state().scopes, final(self).state().scopes),
            r is Ok ==> scopes_keep(old(self).state().scopes, final(self).state().scopes),
    {
        proof {
            self.lemma_wf();
            crate::reads::lemma_params_reads(self.ctx(), self.state());
        }
        proof {
            self.lemma_wf();
        }
        let ghost ctx = self.ctx();
        let ghost st = self.state();
        let mut params: Vec<Binding> = Vec::new();
        assert(prepend(view_bindings(params@), p_params(ctx, st)) == p_params(ctx, st)) by {
            assert(view_bindings(params@) =~= Seq::<SBinding>::empty());
            if let Outcome::Done(rest, s) = p_params(ctx, st) {
                assert(Seq::<SBinding>::empty() + rest =~= rest);
            }
        }
        loop
            invariant
                self.wf(),
                self.ctx() == ctx,
                ctx == old(self).ctx(),
                st == old(self).state(),
                scopes_grow(st.scopes, self.state().scopes),
                scopes_keep(st.scopes, self.state().scopes),
                ctx.toks.len() > 0,
                st.cursor <= self.state().cursor <= ctx.toks.len(),
                p_params(ctx, st) == prepend(view_bindings(params@), p_params(ctx, self.state())),
                !self.halted,
            decreases ctx.toks.len() - self.state().cursor,
        {
            let ghost acc = view_bindings(params@);
            let b = match self.binding() {
                Ok(b) => b,
                Err(e) => return Err(e),
            };
            let ghost bv = b@;
            params.push(b);
            assert(view_bindings(params@) =~= acc.push(bv));
            if self.at(TokenKind::Comma) {
                match self.bump() {
                    Ok(_) => {},
                    Err(e) => return Err(e),
                }
                proof {
                    self.lemma_wf();
                    lemma_prepend_twice(acc, seq![bv], p_params(ctx, self.state()));
                    assert(acc + seq![bv] =~= acc.push(bv));
                }
            } else {
                assert(acc + seq![bv] =~= acc.push(bv));
                return Ok(params);
            }
        }
    }

    /// The optional `= value` of a declaration of `b`: the declared type and value.
    fn init(&mut self, b: &Binding) -> (r: Result<(Type, Option<Expression>), ParseError>)
        requires
            old(self).wf(),
            old(self).ctx().toks.len() > 0,
            !old(self).halted,
        ensures
            final(self).wf(),
            final(self).ctx() == old(self).ctx(),
            ends_as(res_init(r), p_init(old(self).ctx(), old(self).state(), b@), final(self).state(), final(self).halted),
            r is Ok ==> weakly(old(self).ctx(), old(self).state(), final(self).state()),
            r is Ok ==> scopes_grow(old(self).state().scopes, final(self).state().scopes),
            r is Ok ==> scopes_keep(old(self).state().scopes, final(self).state().scopes),
            r matches Ok((_, o)) ==> (o matches Some(v) ==> well_typed(v@) && crate::types::compatible(b@.ty, v@.ty)),
    {
        proof {
            self.lemma_wf();
            crate::reads::lemma_init_keeps(self.ctx(), self.state(), b@);
        }
        let id = self.source.id();
        if self.at(TokenKind::Equal) {
            match self.bump() {
                Ok(_) => {},
                Err(e) => return Err(e),
            }
            proof {
                self.lemma_wf();
            }
            let val = match self.expr() {
                Ok(v) => v,
                Err(e) => return Err(e),
            };
            if !type_compatible(&b.ty, &val.ty) {
                return Err(ParseError::IncompatibleTypes(id, b.name.span, b.ty.clone(), val.span, val.ty));
            }
            return Ok((val.ty.clone(), Some(val)));
        }
        Ok((b.ty.clone(), None))
    }

    /// `let binding (= value)? ;`
    fn var_decl(&mut self) -> (r: Result<Statement, ParseError>)
        requires
            old(self).wf(),
            old(self).ctx().toks.len() > 0,
            !old(self).halted,
        ensures
            final(self).wf(),
            final(self).ctx() == old(self).ctx(),
            ends_as(res_view(r), p_var_decl(old(self).ctx(), old(self).state()), final(self).state(), final(self).halted),
            r is Ok ==> progress(old(self).ctx(), old(self).state(), final(self).state()),
            r is Ok ==> scopes_grow(old(self).state().scopes, final(self).state().scopes),
            r is Ok ==> scopes_keep(old(self).state().scopes, final(self).state().scopes),
            r matches Ok(d) ==> holds_declaration(final(self).state().scopes, d@),
            r matches Ok(d) ==> stmt_well_typed(d@),
    {
        proof {
            self.lemma_wf();
            crate::reads::lemma_var_decl_reads(self.ctx(), self.state());
        }
        let let_span = match self.bump() {
            Ok(t) => t.span,
            Err(e) => return Err(e),
        };
        let binding = match self.binding() {
            Ok(b) => b,
            Err(e) => return Err(e),
        };
        let (ty, expr) = match self.init(&binding) {
            Ok(x) => x,
            Err(e) => return Err(e),
        };
        self.symtab.insert(Symbol { sym: Sym::Variable, name: copy_name(&binding.name), ty });
        let semi = match self.expect(TokenKind::Semicolon) {
            Ok(t) => t,
            Err(e) => return Err(e),
        };
        Ok(
            Statement {
                span: span_from_to(let_span, semi.span),
                stmt: Stmt::Variable { name: binding, expr },
            },
        )
    }
}


impl Parser {
    /// A parser at the cursor of `source`, with the scopes of `symtab`.
    pub fn new(source: Source, symtab: SymbolTable) -> (p: Self)
        requires
            source.wf(),
            symtab.wf(),
        ensures
            p.wf(),
            p.ctx() == source_ctx(source),
            p.state() == (PState { cursor: source.cursor(), scopes: symtab@ }),
            !p.halted(),
    {
        Self { source, symtab, halted: false }
    }

    /// Whether the parser has stopped at an inconsistency it cannot go on from.
    pub closed spec fn halted(&self) -> bool {
        self.halted
    }

    /// Parses the whole source: its statements and the symbol table after them.
    pub fn parse(self) -> (r: Result<Parse, ParseError>)
        requires
            self.wf(),
            !self.halted(),
            !(p_program(self.ctx(), self.state()) is Halt),
        ensures
            parse_result(r, p_program(self.ctx(), self.state())),
            r matches Ok(p) ==> p.symtab@.len() == self.state().scopes.len(),
            r matches Ok(p) ==> scopes_grow(self.state().scopes, p.symtab@),
            r matches Ok(p) ==> forall|j: int|
                0 <= j < p.stmts.len() ==> holds_declaration(p.symtab@, #[trigger] p.stmts@[j]@),
            r matches Ok(p) ==> forall|j: int| 0 <= j < p.stmts.len() ==> stmt_well_typed(#[trigger] p.stmts@[j]@),
    {
        match self.parse_checked() {
            Some(r) => r,
            None => vstd::pervasive::unreached(),
        }
    }

    /// Parses the whole source, or gives `None` where the parser stops at an
    /// inconsistency: an integer literal that does not fit in 64 bits, or a
    /// symbol that its own declarations should have left in the table.
    pub fn parse_checked(self) -> (r: Option<Result<Parse, ParseError>>)
        requires
            self.wf(),
            !self.halted(),
        ensures
            r is None <==> p_program(self.ctx(), self.state()) is Halt,
            r matches Some(x) ==> parse_result(x, p_program(self.ctx(), self.state())),
            r matches Some(Ok(p)) ==> p.symtab@.len() == self.state().scopes.len(),
            r matches Some(Ok(p)) ==> scopes_grow(self.state().scopes, p.symtab@),
            r matches Some(Ok(p)) ==> forall|j: int|
                0 <= j < p.stmts.len() ==> holds_declaration(p.symtab@, #[trigger] p.stmts@[j]@),
            r matches Some(Ok(p)) ==> forall|j: int| 0 <= j < p.stmts.len() ==> stmt_well_typed(#[trigger] p.stmts@[j]@),
    {
        let mut this = self;
        match this.program() {
            Ok(stmts) => Some(Ok(Parse { stmts, symtab: this.symtab })),
            Err(e) => if this.halted {
                None
            } else {
                Some(Err(e))
            },
        }
    }

    /// Declarations up to the end of the tokens.
    fn program(&mut self) -> (r: Result<Vec<Statement>, ParseError>)
        requires
            old(self).wf(),
            !old(self).halted,
        ensures
            final(self).wf(),
            final(self).ctx() == old(self).ctx(),
            ends_as(res_stmts(r), p_program(old(self).ctx(), old(self).state()), final(self).state(), final(self).halted),
            r is Ok ==> scopes_grow(old(self).state().scopes, final(self).state().scopes),
            r is Ok ==> scopes_keep(old(self).state().scopes, final(self).state().scopes),
            r matches Ok(v) ==> forall|j: int| 0 <= j < v.len() ==> holds_declaration(final(self).state().scopes, #[trigger] v@[j]@),
            r matches Ok(v) ==> forall|i: int| 0 <= i < v.len() ==> stmt_well_typed(#[trigger] v@[i]@),
    {
        proof {
            self.lemma_wf();
        }
        let ghost ctx = self.ctx();
        let ghost st = self.state();
        let mut stmts: Vec<Statement> = Vec::new();
        assert(prepend(view_statements(stmts@), p_program(ctx, st)) == p_program(ctx, st)) by {
            if let Outcome::Done(rest, s) = p_program(ctx, st) {
                assert(Seq::<SStatement>::empty() + rest =~= rest);
            }
        }
        loop
            invariant
                self.wf(),
                self.ctx() == ctx,
                ctx == old(self).ctx(),
                st == old(self).state(),
                scopes_grow(st.scopes, self.state().scopes),
                scopes_keep(st.scopes, self.state().scopes),
                st.cursor <= self.state().cursor <= ctx.toks.len(),
                p_program(ctx, st) == prepend(view_statements(stmts@), p_program(ctx, self.state())),
                forall|i: int| 0 <= i < stmts.len() ==> stmt_well_typed(#[trigger] stmts@[i]@),
                forall|j: int|
                    0 <= j < stmts.len() ==> holds_declaration(self.state().scopes, #[trigger] stmts@[j]@),
                !self.halted,
            decreases ctx.toks.len() - self.state().cursor,
        {
            let ghost acc = view_statements(stmts@);
            if self.source.at_end() {
                assert(acc + Seq::<SStatement>::empty() =~= acc);
                return Ok(stmts);
            }
            proof {
                self.lemma_wf();
            }
            let ghost before = self.state().scopes;
            let d = match self.decl() {
                Ok(d) => d,
                Err(e) => return Err(e),
            };
            proof {
                self.lemma_wf();
                lemma_view_statements_push(stmts@, d);
                lemma_prepend_twice(acc, seq![d@], p_program(ctx, self.state()));
                assert(acc + seq![d@] =~= acc.push(d@));
                assert forall|j: int| 0 <= j < stmts.len() implies holds_declaration(self.state().scopes, #[trigger] stmts@[j]@) by {
                    if let Some(n) = declared_name(stmts@[j]@) {
                        if before.len() > 0 {
                            assert(before[before.len() - 1].contains_key(n));
                        }
                    }
                }
            }
            stmts.push(d);
        }
    }

    /// A declaration: class, function, variable or enum, or else a statement.
    fn decl(&mut self) -> (r: Result<Statement, ParseError>)
        requires
            old(self).wf(),
            old(self).ctx().toks.len() > 0,
            !old(self).halted,
        ensures
            final(self).wf(),
            final(self).ctx() == old(self).ctx(),
            ends_as(res_view(r), p_decl(old(self).ctx(), old(self).state()), final(self).state(), final(self).halted),
            r is Ok ==> progress(old(self).ctx(), old(self).state(), final(self).state()),
            r is Ok ==> scopes_grow(old(self).state().scopes, final(self).state().scopes),
            r is Ok ==> scopes_keep(old(self).state().scopes, final(self).state().scopes),
            r matches Ok(d) ==> holds_declaration(final(self).state().scopes, d@),
            r matches Ok(d) ==> stmt_well_typed(d@),
        decreases old(self).ctx().toks.len() - old(self).state().cursor, 90int,
    {
        proof {
            self.lemma_wf();
            crate::reads::lemma_decl_reads(self.ctx(), self.state());
        }
        proof {
            self.lemma_wf();
        }
        if self.at(TokenKind::Class) {
            self.class_decl()
        } else if self.at(TokenKind::Func) {
            self.func_decl(false)
        } else if self.at(TokenKind::Let) {
            self.var_decl()
        } else if self.at(TokenKind::Enum) {
            self.enum_decl()
        } else {
            self.stmt()
        }
    }

    /// `enum Name { A, B, ... }`: a class whose statics are the members.
    fn enum_decl(&mut self) -> (r: Result<Statement, ParseError>)
        requires
            old(self).wf(),
            old(self).ctx().toks.len() > 0,
            !old(self).halted,
        ensures
            final(self).wf(),
            final(self).ctx() == old(self).ctx(),
            ends_as(res_view(r), p_enum_decl(old(self).ctx(), old(self).state()), final(self).state(), final(self).halted),
            r is Ok ==> progress(old(self).ctx(), old(self).state(), final(self).state()),
            r is Ok ==> scopes_grow(old(self).state().scopes, final(self).state().scopes),
            r is Ok ==> scopes_keep(old(self).state().scopes, final(self).state().scopes),
            r matches Ok(d) ==> holds_declaration(final(self).state().scopes, d@),
            r matches Ok(d) ==> stmt_well_typed(d@),
    {
        proof {
            self.lemma_wf();
            crate::reads::lemma_enum_decl_reads(self.ctx(), self.state());
        }
        let enum_span = match self.expect(TokenKind::Enum) {
            Ok(t) => t.span,
            Err(e) => return Err(e),
        };
        let name_tok = match self.expect(TokenKind::Ident) {
            Ok(t) => t,
            Err(e) => return Err(e),
        };
        match self.expect(TokenKind::RightBrace) {
            Ok(_) => {},
            Err(e) => return Err(e),
        }
        let mut statics: Vec<Statement> = Vec::new();
        let mut static_symbols = SymbolMap::new();
        assert(view_statements(statics@) =~= Seq::<SStatement>::empty());
        if !self.at(TokenKind::LeftBrace) {
            match self.enum_items() {
                Ok((s, m)) => {
                    statics = s;
                    static_symbols = m;
                },
                Err(e) => return Err(e),
            }
        }
        let name = name_tok.spanned();
        self.symtab.insert(
            Symbol {
                name,
                ty: Type::Class(name_tok.text.clone()),
                sym: Sym::Class { methods: SymbolMap::new(), statics: static_symbols },
            },
        );
        let right_brace = match self.expect(TokenKind::LeftBrace) {
            Ok(t) => t,
            Err(e) => return Err(e),
        };
        let no_methods: Vec<Statement> = Vec::new();
        assert(view_statements(no_methods@) =~= Seq::<SStatement>::empty());
        proof {
            lemma_view_statements(statics@);
            assert forall|i: int| 0 <= i < view_statements(statics@).len() implies stmt_well_typed(
                #[trigger] view_statements(statics@)[i],
            ) by {
                assert(stmt_well_typed(statics@[i]@));
            }
        }
        let class = Statement {
            span: span_from_to(enum_span, right_brace.span),
            stmt: Stmt::Class(
                Class {
                    name: Spanned { item: name_tok.text, span: name_tok.span },
                    methods: no_methods,
                    statics,
                },
            ),
        };
        assert(stmt_well_typed(class@));
        Ok(class)
    }

    /// The members of an enum, numbered from 0 in order.
    fn enum_items(&mut self) -> (r: Result<(Vec<Statement>, SymbolMap), ParseError>)
        requires
            old(self).wf(),
            old(self).ctx().toks.len() > 0,
            !old(self).halted,
        ensures
            final(self).wf(),
            final(self).ctx() == old(self).ctx(),
            ends_as(
                res_enum(r),
                p_enum_items(old(self).ctx(), old(self).state(), seq![], Map::empty()),
                final(self).state(),
                final(self).halted,
            ),
            r is Ok ==> progress(old(self).ctx(), old(self).state(), final(self).state()),
            r is Ok ==> scopes_grow(old(self).state().scopes, final(self).state().scopes),
            r is Ok ==> scopes_keep(old(self).state().scopes, final(self).state().scopes),
            r matches Ok((_, m)) ==> m.wf(),
            r matches Ok((v, _)) ==> forall|i: int| 0 <= i < v.len() ==> stmt_well_typed(#[trigger] v@[i]@),
    {
        proof {
            self.lemma_wf();
            crate::reads::lemma_enum_items_reads(self.ctx(), self.state(), seq![], Map::empty());
        }
        let ghost ctx = self.ctx();
        let ghost st = self.state();
        let mut statics: Vec<Statement> = Vec::new();
        let mut static_symbols = SymbolMap::new();
        assert(view_statements(statics@) =~= Seq::<SStatement>::empty());
        loop
            invariant
                self.wf(),
                self.ctx() == ctx,
                ctx == old(self).ctx(),
                st == old(self).state(),
                scopes_grow(st.scopes, self.state().scopes),
                scopes_keep(st.scopes, self.state().scopes),
                ctx.toks.len() > 0,
                st.cursor <= self.state().cursor <= ctx.toks.len(),
                static_symbols.wf(),
                p_enum_items(ctx, st, seq![], Map::empty()) == p_enum_items(
                    ctx,
                    self.state(),
                    view_statements(statics@),
                    static_symbols@,
                ),
                !self.halted,
                forall|i: int| 0 <= i < statics.len() ==> stmt_well_typed(#[trigger] statics@[i]@),
            decreases ctx.toks.len() - self.state().cursor,
        {
            let kind_tok = match self.expect(TokenKind::Ident) {
                Ok(t) => t,
                Err(e) => return Err(e),
            };
            proof {
                lemma_view_statements(statics@);
            }
            let value = Expression {
                expr: Expr::Int(statics.len() as i64),
                span: Span::garbage(),
                ty: Type::Int,
            };
            let stmt = Statement {
                stmt: Stmt::Variable {
                    name: Binding {
                        name: kind_tok.spanned(),
                        ty: Type::Int,
                    },
                    expr: Some(value),
                },
                span: kind_tok.span,
            };
            static_symbols.insert(
                kind_tok.text.clone(),
                Symbol {
                    sym: Sym::Variable,
                    name: kind_tok.spanned(),
                    ty: Type::Int,
                },
            );
            proof {
                lemma_view_statements_push(statics@, stmt);
            }
            statics.push(stmt);
            if self.at(TokenKind::Comma) {
                match self.bump() {
                    Ok(_) => {},
                    Err(e) => return Err(e),
                }
                proof {
                    self.lemma_wf();
                }
            } else {
                return Ok((statics, static_symbols));
            }
        }
    }

    /// `class Name { items }`
    #[verifier::rlimit(80)]
    fn class_decl(&mut self) -> (r: Result<Statement, ParseError>)
        requires
            old(self).wf(),
            old(self).ctx().toks.len() > 0,
            !old(self).halted,
        ensures
            final(self).wf(),
            final(self).ctx() == old(self).ctx(),
            ends_as(res_view(r), p_class_decl(old(self).ctx(), old(self).state()), final(self).state(), final(self).halted),
            r is Ok ==> progress(old(self).ctx(), old(self).state(), final(self).state()),
            r is Ok ==> scopes_grow(old(self).state().scopes, final(self).state().scopes),
            r is Ok ==> scopes_keep(old(self).state().scopes, final(self).state().scopes),
            r matches Ok(d) ==> holds_declaration(final(self).state().scopes, d@),
            r matches Ok(d) ==> stmt_well_typed(d@),
        decreases old(self).ctx().toks.len() - old(self).state().cursor, 89int,
    {
        proof {
            self.lemma_wf();
            crate::reads::lemma_class_decl_reads(self.ctx(), self.state());
        }
        proof {
            self.lemma_wf();
        }
        let class_span = match self.expect(TokenKind::Class) {
            Ok(t) => t.span,
            Err(e) => return Err(e),
        };
        let name_tok = match self.expect(TokenKind::Ident) {
            Ok(t) => t,
            Err(e) => return Err(e),
        };
        match self.expect(TokenKind::RightBrace) {
            Ok(_) => {},
            Err(e) => return Err(e),
        }
        proof {
            self.lemma_wf();
        }
        let parts = match self.class_body() {
            Ok(p) => p,
            Err(e) => return Err(e),
        };
        let ClassParts { methods, method_symbols, statics, static_symbols } = parts;
        self.symtab.insert(
            Symbol {
                name: name_tok.spanned(),
                ty: Type::Class(name_tok.text.clone()),
                sym: Sym::Class { methods: method_symbols, statics: static_symbols },
            },
        );
        let right_brace = match self.expect(TokenKind::LeftBrace) {
            Ok(t) => t,
            Err(e) => return Err(e),
        };
        proof {
            lemma_view_statements(methods@);
            lemma_view_statements(statics@);
            assert forall|i: int| 0 <= i < view_statements(methods@).len() implies stmt_well_typed(
                #[trigger] view_statements(methods@)[i],
            ) by {
                assert(stmt_well_typed(methods@[i]@));
            }
            assert forall|i: int| 0 <= i < view_statements(statics@).len() implies stmt_well_typed(
                #[trigger] view_statements(statics@)[i],
            ) by {
                assert(stmt_well_typed(statics@[i]@));
            }
        }
        let class = Statement {
            span: span_from_to(class_span, right_brace.span),
            stmt: Stmt::Class(
                Class {
                    name: Spanned { item: name_tok.text, span: name_tok.span },
                    methods,
                    statics,
                },
            ),
        };
        assert(stmt_well_typed(class@));
        Ok(class)
    }

    /// The items of a class body up to `}` or the end of the text.
    #[verifier::rlimit(40)]
    fn class_body(&mut self) -> (r: Result<ClassParts, ParseError>)
        requires
            old(self).wf(),
            old(self).ctx().toks.len() > 0,
            !old(self).halted,
        ensures
            final(self).wf(),
            final(self).ctx() == old(self).ctx(),
            ends_as(
                res_parts(r),
                p_class_body(old(self).ctx(), old(self).state(), empty_class_acc()),
                final(self).state(),
                final(self).halted,
            ),
            r is Ok ==> weakly(old(self).ctx(), old(self).state(), final(self).state()),
            r is Ok ==> scopes_grow(old(self).state().scopes, final(self).state().scopes),
            r is Ok ==> scopes_keep(old(self).state().scopes, final(self).state().scopes),
            r matches Ok(p) ==> (forall|i: int| 0 <= i < p.methods.len() ==> stmt_well_typed(#[trigger] p.methods@[i]@)) && (forall|i: int| 0 <= i < p.statics.len() ==> stmt_well_typed(#[trigger] p.statics@[i]@)),
        decreases old(self).ctx().toks.len() - old(self).state().cursor, 95int,
    {
        proof {
            self.lemma_wf();
            crate::reads::lemma_class_body_keeps(self.ctx(), self.state(), empty_class_acc());
        }
        let ghost ctx = self.ctx();
        let ghost st = self.state();
        let mut parts = ClassParts {
            methods: Vec::new(),
            method_symbols: SymbolMap::new(),
            statics: Vec::new(),
            static_symbols: SymbolMap::new(),
        };
        assert(parts.model() == empty_class_acc()) by {
            assert(view_statements(parts.methods@) =~= Seq::<SStatement>::empty());
            assert(view_statements(parts.statics@) =~= Seq::<SStatement>::empty());
        }
        loop
            invariant
                self.wf(),
                self.ctx() == ctx,
                ctx == old(self).ctx(),
                st == old(self).state(),
                scopes_grow(st.scopes, self.state().scopes),
                scopes_keep(st.scopes, self.state().scopes),
                ctx.toks.len() > 0,
                st.cursor <= self.state().cursor <= ctx.toks.len(),
                parts.method_symbols.wf(),
                parts.static_symbols.wf(),
                p_class_body(ctx, st, empty_class_acc()) == p_class_body(ctx, self.state(), parts.model()),
                forall|i: int| 0 <= i < parts.methods.len() ==> stmt_well_typed(#[trigger] parts.methods@[i]@),
                forall|i: int| 0 <= i < parts.statics.len() ==> stmt_well_typed(#[trigger] parts.statics@[i]@),
                !self.halted,
            decreases ctx.toks.len() - self.state().cursor,
        {
            if self.source.at_end() {
                return Ok(parts);
            }
            if self.at(TokenKind::LeftBrace) {
                return Ok(parts);
            }
            if self.at(TokenKind::Static) {
                let static_span = match self.bump() {
                    Ok(t) => t.span,
                    Err(e) => return Err(e),
                };
                let binding = match self.binding() {
                    Ok(b) => b,
                    Err(e) => return Err(e),
                };
                let (ty, expr) = match self.init(&binding) {
                    Ok(x) => x,
                    Err(e) => return Err(e),
                };
                let semi = match self.expect(TokenKind::Semicolon) {
                    Ok(t) => t,
                    Err(e) => return Err(e),
                };
                parts.static_symbols.insert(
                    binding.name.item.clone(),
                    Symbol { sym: Sym::Variable, name: copy_name(&binding.name), ty },
                );
                let stmt = Statement {
                    span: span_from_to(static_span, semi.span),
                    stmt: Stmt::Variable { name: binding, expr },
                };
                proof {
                    lemma_view_statements_push(parts.statics@, stmt);
                }
                parts.statics.push(stmt);
            } else {
                let stmt = match self.func_decl(true) {
                    Ok(s) => s,
                    Err(e) => return Err(e),
                };
                match &stmt.stmt {
                    Stmt::Function(func) => {
                        parts.method_symbols.insert(
                            func.name.item.clone(),
                            Symbol {
                                name: copy_name(&func.name),
                                sym: Sym::Function { arity: func.params.len() },
                                ty: func.ty.ty.clone(),
                            },
                        );
                    },
                    _ => {
                        return self.halt(stmt.span);
                    },
                }
                proof {
                    lemma_view_statements_push(parts.methods@, stmt);
                }
                parts.methods.push(stmt);
            }
            proof {
                self.lemma_wf();
            }
        }
    }

    /// The optional `-> type` after a parameter list (`any` when absent).
    fn ret_annotation(&mut self) -> (r: Result<TypeExpression, ParseError>)
        requires
            old(self).wf(),
            old(self).ctx().toks.len() > 0,
            !old(self).halted,
        ensures
            final(self).wf(),
            final(self).ctx() == old(self).ctx(),
            ends_as(res_view(r), p_ret_annotation(old(self).ctx(), old(self).state()), final(self).state(), final(self).halted),
            r is Ok ==> weakly(old(self).ctx(), old(self).state(), final(self).state()),
            r is Ok ==> scopes_grow(old(self).state().scopes, final(self).state().scopes),
            r is Ok ==> scopes_keep(old(self).state().scopes, final(self).state().scopes),
    {
        proof {
            self.lemma_wf();
            crate::reads::lemma_ret_annotation_keeps(self.ctx(), self.state());
        }
        if self.at(TokenKind::Arrow) {
            match self.bump() {
                Ok(_) => {},
                Err(e) => return Err(e),
            }
            proof {
                self.lemma_wf();
            }
            return self.ty();
        }
        Ok(TypeExpression::any())
    }

    /// Declares each parameter in the innermost scope, in order.
    fn declare_params(&mut self, params: &Vec<Binding>)
        requires
            old(self).wf(),
        ensures
            final(self).wf(),
            final(self).ctx() == old(self).ctx(),
            final(self).state() == (PState {
                cursor: old(self).state().cursor,
                scopes: insert_params(old(self).state().scopes, view_bindings(params@)),
            }),
            scopes_grow(old(self).state().scopes, final(self).state().scopes),
            scopes_keep(old(self).state().scopes, final(self).state().scopes),
            final(self).halted == old(self).halted,
    {
        proof {
            lemma_insert_params_len(self.symtab@, view_bindings(params@));
            lemma_insert_params_grows(self.symtab@, view_bindings(params@));
            lemma_insert_params_keeps(self.symtab@, view_bindings(params@));
        }
        let ghost base = self.symtab@;
        let ghost ps = view_bindings(params@);
        let mut i: usize = 0;
        assert(ps.take(0) =~= Seq::<SBinding>::empty());
        while i < params.len()
            invariant
                self.wf(),
                self.ctx() == old(self).ctx(),
                self.state().cursor == old(self).state().cursor,
                base == old(self).state().scopes,
                ps == view_bindings(params@),
                i <= params.len(),
                self.symtab@ == insert_params(base, ps.take(i as int)),
                self.halted == old(self).halted,
            decreases params.len() - i,
        {
            let param = &params[i];
            self.symtab.insert(
                Symbol { name: copy_name(&param.name), sym: Sym::Variable, ty: param.ty.clone() },
            );
            proof {
                assert(ps.take(i + 1).drop_last() =~= ps.take(i as int));
                assert(ps.take(i + 1).last() == param@);
            }
            i += 1;
        }
        assert(ps.take(i as int) =~= ps);
    }

    /// `func name(params) (-> type)? block`, or without `func` as a method of a class.
    #[verifier::rlimit(100)]
    fn func_decl(&mut self, from_class: bool) -> (r: Result<Statement, ParseError>)
        requires
            old(self).wf(),
            old(self).ctx().toks.len() > 0,
            !old(self).halted,
        ensures
            final(self).wf(),
            final(self).ctx() == old(self).ctx(),
            ends_as(res_view(r), p_func_decl(old(self).ctx(), old(self).state(), from_class), final(self).state(), final(self).halted),
            r is Ok ==> progress(old(self).ctx(), old(self).state(), final(self).state()),
            r is Ok ==> scopes_grow(old(self).state().scopes, final(self).state().scopes),
            r is Ok ==> scopes_keep(old(self).state().scopes, final(self).state().scopes),
            !from_class ==> (r matches Ok(d) ==> holds_declaration(final(self).state().scopes, d@)),
            !from_class && old(self).state().scopes.len() > 0 ==> (r matches Ok(d) ==> d@.stmt matches SStmt::Function(f) && function_declared(
                final(self).state().scopes,
                f.name.item,
                f.params.len(),
            )),
            r matches Ok(d) ==> stmt_well_typed(d@),
        decreases old(self).ctx().toks.len() - old(self).state().cursor, 85int,
    {
        proof {
            self.lemma_wf();
            crate::reads::lemma_func_decl_reads(self.ctx(), self.state(), from_class);
        }
        let ghost st = self.state();
        let mut start_span = Span::garbage();
        if !from_class {
            start_span = match self.expect(TokenKind::Func) {
                Ok(t) => t.span,
                Err(e) => return Err(e),
            };
        }
        let name_tok = match self.expect(TokenKind::Ident) {
            Ok(t) => t,
            Err(e) => return Err(e),
        };
        if from_class {
            start_span = name_tok.span;
        }
        match self.expect(TokenKind::RightParen) {
            Ok(_) => {},
            Err(e) => return Err(e),
        }
        let mut params: Vec<Binding> = Vec::new();
        assert(view_bindings(params@) =~= Seq::<SBinding>::empty());
        if !self.at(TokenKind::LeftParen) {
            params = match self.params() {
                Ok(p) => p,
                Err(e) => return Err(e),
            };
        }
        let right_paren_span = match self.expect(TokenKind::LeftParen) {
            Ok(t) => t.span,
            Err(e) => return Err(e),
        };
        let return_ty = match self.ret_annotation() {
            Ok(t) => t,
            Err(e) => return Err(e),
        };
        let span = span_from_to(start_span, right_paren_span);
        let name = Spanned { item: name_tok.text, span: name_tok.span };
        self.func_tail(Ghost(st), from_class, name, params, return_ty, span)
    }

    /// The rest of a function declaration once its signature is read: the
    /// function's symbol (for a free function), a scope with the parameters, the
    /// body, and the check of the body against the declared return type.
    #[verifier::rlimit(100)]
    fn func_tail(
        &mut self,
        Ghost(st): Ghost<PState>,
        from_class: bool,
        name: Spanned<String>,
        params: Vec<Binding>,
        return_ty: TypeExpression,
        span: Span,
    ) -> (r: Result<Statement, ParseError>)
        requires
            old(self).wf(),
            old(self).ctx().toks.len() > 0,
            !old(self).halted,
            st.cursor < old(self).state().cursor,
        ensures
            final(self).wf(),
            final(self).ctx() == old(self).ctx(),
            ends_as(
                res_view(r),
                p_func_tail(
                    old(self).ctx(),
                    st,
                    old(self).state(),
                    from_class,
                    name@,
                    view_bindings(params@),
                    return_ty@,
                    span,
                ),
                final(self).state(),
                final(self).halted,
            ),
            r is Ok ==> scopes_grow(old(self).state().scopes, final(self).state().scopes),
            r is Ok ==> scopes_keep(old(self).state().scopes, final(self).state().scopes),
            !from_class ==> (r matches Ok(d) ==> holds_declaration(final(self).state().scopes, d@)),
            !from_class && old(self).state().scopes.len() > 0 ==> (r matches Ok(d) ==> function_declared(
                final(self).state().scopes,
                name@.item,
                params@.len(),
            )),
            r matches Ok(d) ==> stmt_well_typed(d@),
        decreases old(self).ctx().toks.len() - st.cursor, 84int,
    {
        proof {
            self.lemma_wf();
        }
        let func_type = Type::Function {
            params: param_types(&params),
            ret_ty: Box::new(return_ty.clone()),
        };
        if !from_class {
            let sym = Symbol {
                name: copy_name(&name),
                sym: Sym::Function { arity: params.len() },
                ty: func_type.clone(),
            };
            proof {
                lemma_insert_grows(self.symtab@, sym.name.item@, sym@);
            }
            self.symtab.insert(sym);
        }
        let ghost declared = self.state().scopes;
        self.symtab.level_up();
        self.declare_params(&params);
        proof {
            self.lemma_wf();
        }
        let ghost opened = self.state().scopes;
        let body = match self.block(true) {
            Ok(b) => b,
            Err(e) => return Err(e),
        };
        let ghost inner = self.state().scopes;
        self.symtab.level_down();
        proof {
            lemma_grow_through_scope(declared, inner);
        }
        match self.check_return(&body, &return_ty, from_class, &name.item) {
            Ok(_) => {},
            Err(e) => return Err(e),
        }
        proof {
            if !from_class && declared.len() > 0 {
                assert(declared[declared.len() - 1].contains_key(name.item@));
                lemma_declared_survives(
                    declared,
                    opened,
                    inner,
                    self.state().scopes,
                    name.item@,
                    params@.len(),
                );
            }
        }
        Ok(
            Statement {
                stmt: Stmt::Function(
                    Function { ty: TypeExpression { ty: func_type, span: name.span }, name, params, body: Box::new(body) },
                ),
                span,
            },
        )
    }

    /// Checks a function body against its declared return type.
    fn check_return(&mut self, body: &Statement, ret: &TypeExpression, from_class: bool, name: &String) -> (r: Result<(), ParseError>)
        requires
            old(self).wf(),
            !old(self).halted,
        ensures
            final(self).wf(),
            final(self).ctx() == old(self).ctx(),
            ends_as(
                res_unit(r),
                p_check_return(old(self).ctx(), old(self).state(), body@, ret@, from_class, name@),
                final(self).state(),
                final(self).halted,
            ),
            r is Ok ==> scopes_grow(old(self).state().scopes, final(self).state().scopes),
            r is Ok ==> scopes_keep(old(self).state().scopes, final(self).state().scopes),
            r is Ok ==> returns_fit(body@, ret@.ty),
            r is Ok ==> kept_all(old(self).state().scopes, final(self).state().scopes),
    {
        proof {
            reveal(kept_all);
        }
        let id = self.source.id();
        match &body.stmt {
            Stmt::Block(stmts) => {
                proof {
                    lemma_view_statements(stmts@);
                }
                let n = stmts.len();
                if n > 0 && matches!(stmts[n - 1].stmt, Stmt::Return(..)) {
                    assert(view_statements(stmts@).last() == stmts@[n - 1]@);
                    match &stmts[n - 1].stmt {
                        Stmt::Return(Some(ret_expr)) => {
                            if !type_compatible(&ret_expr.ty, &ret.ty) {
                                return Err(
                                    ParseError::IncompatibleTypes(
                                        id,
                                        ret.span,
                                        ret.ty.clone(),
                                        ret_expr.span,
                                        ret_expr.ty.clone(),
                                    ),
                                );
                            }
                            if !from_class {
                                match self.symtab.lookup(name.as_str()) {
                                    Some(sym) => {
                                        proof {
                                            lemma_view_type_variant(sym.ty);
                                        }
                                        if !matches!(sym.ty, Type::Function { .. }) {
                                            return self.halt(ret.span);
                                        }
                                    },
                                    None => {
                                        return self.halt(ret.span);
                                    },
                                }
                                proof {
                                    crate::symtab::lemma_scope_of(self.symtab@, name@);
                                }
                                let ghost before = self.symtab@;
                                match self.symtab.lookup_mut(name.as_str()) {
                                    Some(sym) => {
                                        proof {
                                            lemma_view_type_variant(sym.ty);
                                        }
                                        let current = sym.ty.clone();
                                        match current {
                                            Type::Function { params, ret_ty } => {
                                                sym.ty = Type::Function {
                                                    params,
                                                    ret_ty: Box::new(
                                                        TypeExpression { span: ret_ty.span, ty: ret_expr.ty.clone() },
                                                    ),
                                                };
                                            },
                                            _ => vstd::pervasive::unreached(),
                                        }
                                    },
                                    None => vstd::pervasive::unreached(),
                                }
                                proof {
                                    let k = crate::symtab::scope_of(before, name@);
                                    lemma_update_keeps(before, name@, self.symtab@[k][name@]);
                                }
                            }
                            Ok(())
                        },
                        _ => Ok(()),
                    }
                } else if !matches!(ret.ty, Type::Any | Type::Null) {
                    proof {
                        lemma_view_type_variant(ret.ty);
                    }
                    Err(
                        ParseError::FunctionHasIncompatibleReturnType(
                            id,
                            ret.span,
                            ret.ty.clone(),
                            body.span.past(),
                            Type::Null,
                        ),
                    )
                } else {
                    proof {
                        lemma_view_type_variant(ret.ty);
                    }
                    Ok(())
                }
            },
            _ => Ok(()),
        }
    }

    /// A block, `if`, `until`, `ret` or an expression statement.
    fn stmt(&mut self) -> (r: Result<Statement, ParseError>)
        requires
            old(self).wf(),
            old(self).ctx().toks.len() > 0,
            !old(self).halted,
        ensures
            final(self).wf(),
            final(self).ctx() == old(self).ctx(),
            ends_as(res_view(r), p_stmt(old(self).ctx(), old(self).state()), final(self).state(), final(self).halted),
            r is Ok ==> progress(old(self).ctx(), old(self).state(), final(self).state()),
            r is Ok ==> scopes_grow(old(self).state().scopes, final(self).state().scopes),
            r is Ok ==> scopes_keep(old(self).state().scopes, final(self).state().scopes),
            r matches Ok(d) ==> declared_name(d@) is None,
            r matches Ok(d) ==> stmt_well_typed(d@),
        decreases old(self).ctx().toks.len() - old(self).state().cursor, 80int,
    {
        proof {
            self.lemma_wf();
            crate::reads::lemma_stmt_reads(self.ctx(), self.state());
        }
        proof {
            self.lemma_wf();
        }
        if self.at(TokenKind::RightBrace) {
            self.block(false)
        } else if self.at(TokenKind::If) {
            self.if_stmt()
        } else if self.at(TokenKind::Until) {
            self.until_stmt()
        } else if self.at(TokenKind::Ret) {
            self.ret_stmt()
        } else {
            self.expr_stmt()
        }
    }

    /// `ret value? ;` inside a function.
    fn ret_stmt(&mut self) -> (r: Result<Statement, ParseError>)
        requires
            old(self).wf(),
            old(self).ctx().toks.len() > 0,
            !old(self).halted,
        ensures
            final(self).wf(),
            final(self).ctx() == old(self).ctx(),
            ends_as(res_view(r), p_ret_stmt(old(self).ctx(), old(self).state()), final(self).state(), final(self).halted),
            r is Ok ==> progress(old(self).ctx(), old(self).state(), final(self).state()),
            r is Ok ==> scopes_grow(old(self).state().scopes, final(self).state().scopes),
            r is Ok ==> scopes_keep(old(self).state().scopes, final(self).state().scopes),
            r matches Ok(d) ==> declared_name(d@) is None,
            r matches Ok(d) ==> stmt_well_typed(d@),
    {
        proof {
            self.lemma_wf();
            crate::reads::lemma_ret_stmt_reads(self.ctx(), self.state());
        }
        let id = self.source.id();
        let ret_span = match self.expect(TokenKind::Ret) {
            Ok(t) => t.span,
            Err(e) => return Err(e),
        };
        if self.symtab.at_global_scope() {
            return Err(ParseError::CantReturnFromGlobalScope(id, ret_span));
        }
        let mut expr: Option<Expression> = None;
        if !self.at(TokenKind::Semicolon) {
            proof {
                self.lemma_wf();
            }
            expr = match self.expr() {
                Ok(e) => Some(e),
                Err(e) => return Err(e),
            };
        }
        let end_span = match self.bump() {
            Ok(t) => t.span,
            Err(e) => return Err(e),
        };
        Ok(Statement { stmt: Stmt::Return(expr), span: span_from_to(ret_span, end_span) })
    }

    /// `until condition statement`
    fn until_stmt(&mut self) -> (r: Result<Statement, ParseError>)
        requires
            old(self).wf(),
            old(self).ctx().toks.len() > 0,
            !old(self).halted,
        ensures
            final(self).wf(),
            final(self).ctx() == old(self).ctx(),
            ends_as(res_view(r), p_until_stmt(old(self).ctx(), old(self).state()), final(self).state(), final(self).halted),
            r is Ok ==> progress(old(self).ctx(), old(self).state(), final(self).state()),
            r is Ok ==> scopes_grow(old(self).state().scopes, final(self).state().scopes),
            r is Ok ==> scopes_keep(old(self).state().scopes, final(self).state().scopes),
            r matches Ok(d) ==> declared_name(d@) is None,
            r matches Ok(d) ==> stmt_well_typed(d@),
        decreases old(self).ctx().toks.len() - old(self).state().cursor, 79int,
    {
        proof {
            self.lemma_wf();
            crate::reads::lemma_until_stmt_reads(self.ctx(), self.state());
        }
        proof {
            self.lemma_wf();
        }
        let until_span = match self.expect(TokenKind::Until) {
            Ok(t) => t.span,
            Err(e) => return Err(e),
        };
        let cond = match self.expr() {
            Ok(e) => e,
            Err(e) => return Err(e),
        };
        proof {
            self.lemma_wf();
        }
        let body = match self.stmt() {
            Ok(b) => b,
            Err(e) => return Err(e),
        };
        Ok(
            Statement {
                span: span_from_to(until_span, body.span),
                stmt: Stmt::Until { cond, body: Box::new(body) },
            },
        )
    }

    /// `if condition statement (else statement)?`
    fn if_stmt(&mut self) -> (r: Result<Statement, ParseError>)
        requires
            old(self).wf(),
            old(self).ctx().toks.len() > 0,
            !old(self).halted,
        ensures
            final(self).wf(),
            final(self).ctx() == old(self).ctx(),
            ends_as(res_view(r), p_if_stmt(old(self).ctx(), old(self).state()), final(self).state(), final(self).halted),
            r is Ok ==> progress(old(self).ctx(), old(self).state(), final(self).state()),
            r is Ok ==> scopes_grow(old(self).state().scopes, final(self).state().scopes),
            r is Ok ==> scopes_keep(old(self).state().scopes, final(self).state().scopes),
            r matches Ok(d) ==> declared_name(d@) is None,
            r matches Ok(d) ==> stmt_well_typed(d@),
        decreases old(self).ctx().toks.len() - old(self).state().cursor, 79int,
    {
        proof {
            self.lemma_wf();
            crate::reads::lemma_if_stmt_reads(self.ctx(), self.state());
        }
        proof {
            self.lemma_wf();
        }
        let if_span = match self.expect(TokenKind::If) {
            Ok(t) => t.span,
            Err(e) => return Err(e),
        };
        let cond = match self.expr() {
            Ok(e) => e,
            Err(e) => return Err(e),
        };
        proof {
            self.lemma_wf();
        }
        let body = match self.stmt() {
            Ok(b) => b,
            Err(e) => return Err(e),
        };
        let mut else_branch: Option<Box<Statement>> = None;
        if self.at(TokenKind::Else) {
            match self.bump() {
                Ok(_) => {},
                Err(e) => return Err(e),
            }
            proof {
                self.lemma_wf();
            }
            else_branch = match self.stmt() {
                Ok(s) => Some(Box::new(s)),
                Err(e) => return Err(e),
            };
        }
        Ok(
            Statement {
                span: span_from_to(if_span, body.span),
                stmt: Stmt::If { cond, body: Box::new(body), else_branch },
            },
        )
    }

    /// `{ declarations }`; a new scope unless it is a function body.
    fn block(&mut self, from_func: bool) -> (r: Result<Statement, ParseError>)
        requires
            old(self).wf(),
            old(self).ctx().toks.len() > 0,
            !old(self).halted,
        ensures
            final(self).wf(),
            final(self).ctx() == old(self).ctx(),
            ends_as(res_view(r), p_block(old(self).ctx(), old(self).state(), from_func), final(self).state(), final(self).halted),
            r is Ok ==> progress(old(self).ctx(), old(self).state(), final(self).state()),
            r is Ok ==> scopes_grow(old(self).state().scopes, final(self).state().scopes),
            r is Ok ==> scopes_keep(old(self).state().scopes, final(self).state().scopes),
            r matches Ok(d) ==> declared_name(d@) is None,
            r matches Ok(d) ==> stmt_well_typed(d@),
        decreases old(self).ctx().toks.len() - old(self).state().cursor, 79int,
    {
        proof {
            self.lemma_wf();
            crate::reads::lemma_block_reads(self.ctx(), self.state(), from_func);
        }
        proof {
            self.lemma_wf();
        }
        let left_brace_span = match self.expect(TokenKind::RightBrace) {
            Ok(t) => t.span,
            Err(e) => return Err(e),
        };
        let ghost opened = self.state().scopes;
        if !from_func {
            self.symtab.level_up();
        }
        proof {
            self.lemma_wf();
        }
        let stmts = match self.block_items() {
            Ok(s) => s,
            Err(e) => return Err(e),
        };
        let right_brace_span = match self.expect(TokenKind::LeftBrace) {
            Ok(t) => t.span,
            Err(e) => return Err(e),
        };
        if !from_func {
            let ghost inner = self.state().scopes;
            self.symtab.level_down();
            proof {
                lemma_grow_through_scope(opened, inner);
            }
        }
        proof {
            lemma_view_statements(stmts@);
            assert forall|i: int| 0 <= i < view_statements(stmts@).len() implies stmt_well_typed(
                #[trigger] view_statements(stmts@)[i],
            ) by {
                assert(stmt_well_typed(stmts@[i]@));
            }
        }
        let block = Statement { stmt: Stmt::Block(stmts), span: span_from_to(left_brace_span, right_brace_span) };
        assert(stmt_well_typed(block@));
        Ok(block)
    }

    /// Declarations up to `}` or the end of the text.
    fn block_items(&mut self) -> (r: Result<Vec<Statement>, ParseError>)
        requires
            old(self).wf(),
            old(self).ctx().toks.len() > 0,
            !old(self).halted,
        ensures
            final(self).wf(),
            final(self).ctx() == old(self).ctx(),
            ends_as(res_stmts(r), p_block_items(old(self).ctx(), old(self).state()), final(self).state(), final(self).halted),
            r is Ok ==> weakly(old(self).ctx(), old(self).state(), final(self).state()),
            r is Ok ==> scopes_grow(old(self).state().scopes, final(self).state().scopes),
            r is Ok ==> scopes_keep(old(self).state().scopes, final(self).state().scopes),
            r matches Ok(v) ==> forall|i: int| 0 <= i < v.len() ==> stmt_well_typed(#[trigger] v@[i]@),
        decreases old(self).ctx().toks.len() - old(self).state().cursor, 95int,
    {
        proof {
            self.lemma_wf();
            crate::reads::lemma_block_items_keeps(self.ctx(), self.state());
        }
        proof {
            self.lemma_wf();
        }
        let ghost ctx = self.ctx();
        let ghost st = self.state();
        let mut stmts: Vec<Statement> = Vec::new();
        assert(prepend(view_statements(stmts@), p_block_items(ctx, st)) == p_block_items(ctx, st)) by {
            if let Outcome::Done(rest, s) = p_block_items(ctx, st) {
                assert(Seq::<SStatement>::empty() + rest =~= rest);
            }
        }
        loop
            invariant
                self.wf(),
                self.ctx() == ctx,
                ctx == old(self).ctx(),
                st == old(self).state(),
                scopes_grow(st.scopes, self.state().scopes),
                scopes_keep(st.scopes, self.state().scopes),
                ctx.toks.len() > 0,
                st.cursor <= self.state().cursor <= ctx.toks.len(),
                p_block_items(ctx, st) == prepend(view_statements(stmts@), p_block_items(ctx, self.state())),
                forall|i: int| 0 <= i < stmts.len() ==> stmt_well_typed(#[trigger] stmts@[i]@),
                !self.halted,
            decreases ctx.toks.len() - self.state().cursor,
        {
            let ghost acc = view_statements(stmts@);
            if self.source.at_end() {
                assert(acc + Seq::<SStatement>::empty() =~= acc);
                return Ok(stmts);
            }
            if self.at(TokenKind::LeftBrace) {
                assert(acc + Seq::<SStatement>::empty() =~= acc);
                return Ok(stmts);
            }
            let d = match self.decl() {
                Ok(d) => d,
                Err(e) => return Err(e),
            };
            proof {
                self.lemma_wf();
                lemma_view_statements_push(stmts@, d);
                lemma_prepend_twice(acc, seq![d@], p_block_items(ctx, self.state()));
                assert(acc + seq![d@] =~= acc.push(d@));
            }
            stmts.push(d);
        }
    }

    /// `expression ;`
    fn expr_stmt(&mut self) -> (r: Result<Statement, ParseError>)
        requires
            old(self).wf(),
            old(self).ctx().toks.len() > 0,
            !old(self).halted,
        ensures
            final(self).wf(),
            final(self).ctx() == old(self).ctx(),
            ends_as(res_view(r), p_expr_stmt(old(self).ctx(), old(self).state()), final(self).state(), final(self).halted),
            r is Ok ==> progress(old(self).ctx(), old(self).state(), final(self).state()),
            r is Ok ==> scopes_grow(old(self).state().scopes, final(self).state().scopes),
            r is Ok ==> scopes_keep(old(self).state().scopes, final(self).state().scopes),
            r matches Ok(d) ==> declared_name(d@) is None,
            r matches Ok(d) ==> stmt_well_typed(d@),
    {
        proof {
            self.lemma_wf();
            crate::reads::lemma_expr_stmt_reads(self.ctx(), self.state());
        }
        let expr = match self.expr() {
            Ok(e) => e,
            Err(e) => return Err(e),
        };
        let semi = match self.expect(TokenKind::Semicolon) {
            Ok(t) => t,
            Err(e) => return Err(e),
        };
        Ok(Statement { span: span_from_to(expr.span, semi.span), stmt: Stmt::Expr(expr) })
    }
}

/// Parses a source against a symbol table: the statements, and the table with
/// what they declare.
pub fn parse(source: Source, symtab: SymbolTable) -> (r: Result<Parse, ParseError>)
    requires
        source.wf(),
        symtab.wf(),
        !(p_program(source_ctx(source), PState { cursor: source.cursor(), scopes: symtab@ }) is Halt),
    ensures
        parse_result(r, p_program(source_ctx(source), PState { cursor: source.cursor(), scopes: symtab@ })),
        r matches Ok(p) ==> p.symtab@.len() == symtab@.len(),
        r matches Ok(p) ==> scopes_grow(symtab@, p.symtab@),
        r matches Ok(p) ==> forall|j: int|
            0 <= j < p.stmts.len() ==> holds_declaration(p.symtab@, #[trigger] p.stmts@[j]@),
        r matches Ok(p) ==> forall|j: int| 0 <= j < p.stmts.len() ==> stmt_well_typed(#[trigger] p.stmts@[j]@),
{
    Parser::new(source, symtab).parse()
}

/// Parses a source against a symbol table as `parse` does, or gives `None` where
/// the parser stops at an inconsistency (where `p_program` halts).
pub fn parse_checked(source: Source, symtab: SymbolTable) -> (r: Option<Result<Parse, ParseError>>)
    requires
        source.wf(),
        symtab.wf(),
    ensures
        r is None <==> p_program(source_ctx(source), PState { cursor: source.cursor(), scopes: symtab@ }) is Halt,
        r matches Some(x) ==> parse_result(x, p_program(source_ctx(source), PState { cursor: source.cursor(), scopes: symtab@ })),
        r matches Some(Ok(p)) ==> p.symtab@.len() == symtab@.len(),
        r matches Some(Ok(p)) ==> scopes_grow(symtab@, p.symtab@),
        r matches Some(Ok(p)) ==> forall|j: int|
            0 <= j < p.stmts.len() ==> holds_declaration(p.symtab@, #[trigger] p.stmts@[j]@),
        r matches Some(Ok(p)) ==> forall|j: int| 0 <= j < p.stmts.len() ==> stmt_well_typed(#[trigger] p.stmts@[j]@),
{
    Parser::new(source, symtab).parse_checked()
}

} // verus!
