//! The static types of the language and the rules that relate them.
use crate::span::{garbage_span, Span};
use vstd::prelude::*;

verus! {

/// A static type.
#[derive(Debug, PartialEq, Eq)]
pub enum Type {
    Int,
    Float,
    Bool,
    String,
    List(Box<TypeExpression>),
    Class(String),
    Instance(String),
    Function { params: Vec<TypeExpression>, ret_ty: Box<TypeExpression> },
    Null,
    Any,
}

/// A type together with the place in the source that denotes it.
#[derive(Debug, PartialEq, Eq)]
pub struct TypeExpression {
    pub ty: Type,
    pub span: Span,
}

/// The mathematical value of a `Type`: names as character sequences, lists as sequences.
pub enum SType {
    Int,
    Float,
    Bool,
    Str,
    List(Box<STypeExpr>),
    Class(Seq<char>),
    Instance(Seq<char>),
    Function { params: Seq<STypeExpr>, ret_ty: Box<STypeExpr> },
    Null,
    Any,
}

/// The mathematical value of a `TypeExpression`.
pub struct STypeExpr {
    pub ty: SType,
    pub span: Span,
}

pub open spec fn view_type(t: Type) -> SType
    decreases t,
{
    match t {
        Type::Int => SType::Int,
        Type::Float => SType::Float,
        Type::Bool => SType::Bool,
        Type::String => SType::Str,
        Type::List(te) => SType::List(Box::new(view_type_expr(*te))),
        Type::Class(n) => SType::Class(n@),
        Type::Instance(n) => SType::Instance(n@),
        Type::Function { params, ret_ty } => SType::Function {
            params: view_type_exprs(params@),
            ret_ty: Box::new(view_type_expr(*ret_ty)),
        },
        Type::Null => SType::Null,
        Type::Any => SType::Any,
    }
}

pub open spec fn view_type_expr(te: TypeExpression) -> STypeExpr
    decreases te,
{
    STypeExpr { ty: view_type(te.ty), span: te.span }
}

pub open spec fn view_type_exprs(s: Seq<TypeExpression>) -> Seq<STypeExpr>
    decreases s,
{
    if s.len() == 0 {
        seq![]
    } else {
        view_type_exprs(s.drop_last()).push(view_type_expr(s.last()))
    }
}

impl View for Type {
    type V = SType;

    open spec fn view(&self) -> SType {
        view_type(*self)
    }
}

impl View for TypeExpression {
    type V = STypeExpr;

    open spec fn view(&self) -> STypeExpr {
        view_type_expr(*self)
    }
}

impl TypeExpression {
    pub fn any() -> (te: Self)
        ensures
            te@ == (STypeExpr { ty: SType::Any, span: garbage_span() }),
    {
        Self { ty: Type::Any, span: Span::garbage() }
    }
}


pub proof fn lemma_view_type_exprs(s: Seq<TypeExpression>)
    ensures
        view_type_exprs(s).len() == s.len(),
        forall|i: int| 0 <= i < s.len() ==> #[trigger] view_type_exprs(s)[i] == view_type_expr(s[i]),
    decreases s.len(),
{
    if s.len() > 0 {
        lemma_view_type_exprs(s.drop_last());
        assert forall|i: int| 0 <= i < s.len() implies #[trigger] view_type_exprs(s)[i]
            == view_type_expr(s[i]) by {
            if i < s.len() - 1 {
                assert(s.drop_last()[i] == s[i]);
            }
        }
    }
}

pub proof fn lemma_view_type_exprs_push(s: Seq<TypeExpression>, t: TypeExpression)
    ensures
        view_type_exprs(s.push(t)) == view_type_exprs(s).push(view_type_expr(t)),
{
    assert(s.push(t).drop_last() =~= s);
}

fn clone_type(t: &Type) -> (r: Type)
    ensures
        r@ == t@,
    decreases t,
{
    match t {
        Type::Int => Type::Int,
        Type::Float => Type::Float,
        Type::Bool => Type::Bool,
        Type::String => Type::String,
        Type::List(te) => Type::List(Box::new(clone_type_expr(te))),
        Type::Class(n) => Type::Class(n.clone()),
        Type::Instance(n) => Type::Instance(n.clone()),
        Type::Function { params, ret_ty } => {
            let ps = clone_type_exprs(params);
            Type::Function { params: ps, ret_ty: Box::new(clone_type_expr(ret_ty)) }
        },
        Type::Null => Type::Null,
        Type::Any => Type::Any,
    }
}

fn clone_type_expr(te: &TypeExpression) -> (r: TypeExpression)
    ensures
        r@ == te@,
    decreases te,
{
    TypeExpression { ty: clone_type(&te.ty), span: te.span }
}

fn clone_type_exprs(v: &Vec<TypeExpression>) -> (r: Vec<TypeExpression>)
    ensures
        view_type_exprs(r@) == view_type_exprs(v@),
    decreases v,
{
    let mut r: Vec<TypeExpression> = Vec::new();
    let mut i: usize = 0;
    while i < v.len()
        invariant
            i <= v.len(),
            view_type_exprs(r@) == view_type_exprs(v@.take(i as int)),
        decreases v.len() - i,
    {
        assert(decreases_to!(v => v@[i as int]));
        let c = clone_type_expr(&v[i]);
        proof {
            lemma_view_type_exprs_push(r@, c);
            assert(v@.take(i + 1) =~= v@.take(i as int).push(v@[i as int]));
            lemma_view_type_exprs_push(v@.take(i as int), v@[i as int]);
        }
        r.push(c);
        i += 1;
    }
    assert(v@.take(i as int) =~= v@);
    r
}

impl Clone for Type {
    fn clone(&self) -> (r: Self)
        ensures
            r@ == self@,
    {
        clone_type(self)
    }
}

impl Clone for TypeExpression {
    fn clone(&self) -> (r: Self)
        ensures
            r@ == self@,
    {
        clone_type_expr(self)
    }
}


/// When a value of type `rhs` may stand where `lhs` is expected (and the other
/// way round for the numeric types): ints and floats mix, `null` fits any slot,
/// `any` mixes with everything, lists and functions are compared part by part
/// (parameter counts must agree), and every other pair must be the same type.
pub open spec fn compatible(lhs: SType, rhs: SType) -> bool
    decreases lhs,
{
    match (lhs, rhs) {
        (SType::Int, SType::Float) => true,
        (SType::Float, SType::Int) => true,
        (SType::Null, _) => true,
        (SType::List(l), SType::List(r)) => compatible(l.ty, r.ty),
        (
            SType::Function { params: lp, ret_ty: lr },
            SType::Function { params: rp, ret_ty: rr },
        ) => {
            &&& lp.len() == rp.len()
            &&& forall|i: int| 0 <= i < lp.len() ==> compatible(#[trigger] lp[i].ty, rp[i].ty)
            &&& compatible(lr.ty, rr.ty)
        },
        (SType::Any, _) => true,
        (_, SType::Any) => true,
        (l, r) => l == r,
    }
}

/// Every type is compatible with itself.
pub proof fn lemma_compatible_reflexive(t: SType)
    ensures
        compatible(t, t),
    decreases t,
{
    match t {
        SType::List(l) => {
            lemma_compatible_reflexive(l.ty);
        },
        SType::Function { params, ret_ty } => {
            assert forall|i: int| 0 <= i < params.len() implies compatible(#[trigger] params[i].ty, params[i].ty) by {
                assert(decreases_to!(params => params[i]));
                lemma_compatible_reflexive(params[i].ty);
            }
            lemma_compatible_reflexive(ret_ty.ty);
        },
        _ => {},
    }
}

/// `any` is compatible with every type, both ways.
pub proof fn lemma_any_compatible(t: SType)
    ensures
        compatible(SType::Any, t),
        compatible(t, SType::Any),
{
}

/// The view keeps the variant of a type.
pub proof fn lemma_view_type_variant(t: Type)
    ensures
        (t is Int) == (t@ is Int),
        (t is Float) == (t@ is Float),
        (t is Bool) == (t@ is Bool),
        (t is String) == (t@ is Str),
        (t is List) == (t@ is List),
        (t is Class) == (t@ is Class),
        (t is Instance) == (t@ is Instance),
        (t is Function) == (t@ is Function),
        (t is Null) == (t@ is Null),
        (t is Any) == (t@ is Any),
{
}

pub fn type_compatible(lhs: &Type, rhs: &Type) -> (b: bool)
    ensures
        b == compatible(lhs@, rhs@),
    decreases lhs,
{
    proof {
        lemma_view_type_variant(*lhs);
        lemma_view_type_variant(*rhs);
    }
    match (lhs, rhs) {
        (Type::Int, Type::Float) => true,
        (Type::Float, Type::Int) => true,
        (Type::Null, _) => true,
        (Type::List(l), Type::List(r)) => type_compatible(&l.ty, &r.ty),
        (
            Type::Function { params: lhs_params, ret_ty: lhs_ret },
            Type::Function { params: rhs_params, ret_ty: rhs_ret },
        ) => {
            proof {
                lemma_view_type_exprs(lhs_params@);
                lemma_view_type_exprs(rhs_params@);
            }
            assert(lhs@ == SType::Function {
                params: view_type_exprs(lhs_params@),
                ret_ty: Box::new(view_type_expr(**lhs_ret)),
            });
            assert(rhs@ == SType::Function {
                params: view_type_exprs(rhs_params@),
                ret_ty: Box::new(view_type_expr(**rhs_ret)),
            });
            if lhs_params.len() != rhs_params.len() {
                return false;
            }
            let mut i: usize = 0;
            while i < lhs_params.len()
                invariant
                    i <= lhs_params.len(),
                    lhs_params.len() == rhs_params.len(),
                    view_type_exprs(lhs_params@).len() == lhs_params@.len(),
                    view_type_exprs(rhs_params@).len() == rhs_params@.len(),
                    *lhs == (Type::Function { params: *lhs_params, ret_ty: *lhs_ret }),
                    *rhs == (Type::Function { params: *rhs_params, ret_ty: *rhs_ret }),
                    forall|j: int|
                        0 <= j < lhs_params@.len() ==> #[trigger] view_type_exprs(lhs_params@)[j]
                            == view_type_expr(lhs_params@[j]),
                    forall|j: int|
                        0 <= j < rhs_params@.len() ==> #[trigger] view_type_exprs(rhs_params@)[j]
                            == view_type_expr(rhs_params@[j]),
                    forall|j: int|
                        0 <= j < i ==> compatible(
                            #[trigger] view_type_exprs(lhs_params@)[j].ty,
                            view_type_exprs(rhs_params@)[j].ty,
                        ),
                decreases lhs_params.len() - i,
            {
                proof {
                    assert(decreases_to!(*lhs => lhs->params));
                    assert(lhs->params == *lhs_params);
                    assert(decreases_to!(*lhs_params => lhs_params@));
                    assert(decreases_to!(lhs_params@ => lhs_params@[i as int]));
                    assert(decreases_to!(lhs_params@[i as int] => lhs_params@[i as int].ty));
                }
                if !type_compatible(&lhs_params[i].ty, &rhs_params[i].ty) {
                    assert(!compatible(
                        view_type_exprs(lhs_params@)[i as int].ty,
                        view_type_exprs(rhs_params@)[i as int].ty,
                    ));
                    return false;
                }
                i += 1;
            }
            let r = type_compatible(&lhs_ret.ty, &rhs_ret.ty);
            assert(forall|j: int|
                0 <= j < lhs_params@.len() ==> compatible(
                    #[trigger] view_type_exprs(lhs_params@)[j].ty,
                    view_type_exprs(rhs_params@)[j].ty,
                ));
            assert(r == compatible(lhs@, rhs@));
            r
        },
        (Type::Any, _) => true,
        (_, Type::Any) => true,
        (Type::Int, Type::Int) => true,
        (Type::Float, Type::Float) => true,
        (Type::Bool, Type::Bool) => true,
        (Type::String, Type::String) => true,
        (Type::Class(a), Type::Class(b)) => {
            let r = *a == *b;
            assert(r == (a@ == b@));
            r
        },
        (Type::Instance(a), Type::Instance(b)) => {
            let r = *a == *b;
            assert(r == (a@ == b@));
            r
        },
        _ => false,
    }
}


/// How a type is written in messages: `int`, `[int]`, `instanceof Name`,
/// `(int, bool) -> any`; a class by its name.
pub open spec fn type_text(t: SType) -> Seq<char>
    decreases t, 0int,
{
    match t {
        SType::Int => seq!['i', 'n', 't'],
        SType::Float => seq!['f', 'l', 'o', 'a', 't'],
        SType::Bool => seq!['b', 'o', 'o', 'l'],
        SType::Str => seq!['s', 't', 'r', 'i', 'n', 'g'],
        SType::List(te) => seq!['['] + type_text(te.ty) + seq![']'],
        SType::Class(name) => name,
        SType::Instance(name) => seq!['i', 'n', 's', 't', 'a', 'n', 'c', 'e', 'o', 'f', ' '] + name,
        SType::Function { params, ret_ty } => seq!['('] + params_text(params, 0) + seq![
            ')',
            ' ',
            '-',
            '>',
            ' ',
        ] + type_text(ret_ty.ty),
        SType::Null => seq!['n', 'u', 'l', 'l'],
        SType::Any => seq!['a', 'n', 'y'],
    }
}

/// The texts of `params[i..]`, separated by `, `.
pub open spec fn params_text(params: Seq<STypeExpr>, i: int) -> Seq<char>
    decreases params, params.len() - i,
{
    if i < 0 || i >= params.len() {
        seq![]
    } else {
        proof {
            assert(decreases_to!(params => params[i]));
        }
        (if i > 0 {
            seq![',', ' ']
        } else {
            seq![]
        }) + type_text(params[i].ty) + params_text(params, i + 1)
    }
}

/// Appends the characters of `t` to `s`.
pub(crate) fn append(s: &mut String, t: &str)
    ensures
        final(s)@ == old(s)@ + t@,
{
    let chars = crate::lexer::chars_of(t);
    let mut i: usize = 0;
    while i < chars.len()
        invariant
            i <= chars.len(),
            chars@ == t@,
            s@ == old(s)@ + chars@.take(i as int),
        decreases chars.len() - i,
    {
        crate::lexer::push_char(s, chars[i]);
        i += 1;
        assert(s@ =~= old(s)@ + chars@.take(i as int));
    }
    assert(chars@.take(i as int) =~= chars@);
}

impl Type {
    /// The type as messages write it (see `type_text`).
    pub fn to_text(&self) -> (r: String)
        ensures
            r@ == type_text(self@),
        decreases self, 0int,
    {
        let mut out = String::new();
        proof {
            lemma_view_type_variant(*self);
        }
        match self {
            Type::Int => {
                append(&mut out, "int");
                proof {
                    reveal_strlit("int");
                }
            },
            Type::Float => {
                append(&mut out, "float");
                proof {
                    reveal_strlit("float");
                }
            },
            Type::Bool => {
                append(&mut out, "bool");
                proof {
                    reveal_strlit("bool");
                }
            },
            Type::String => {
                append(&mut out, "string");
                proof {
                    reveal_strlit("string");
                }
            },
            Type::List(te) => {
                append(&mut out, "[");
                let inner = te.ty.to_text();
                append(&mut out, inner.as_str());
                append(&mut out, "]");
                proof {
                    reveal_strlit("[");
                    reveal_strlit("]");
                }
            },
            Type::Class(name) => {
                append(&mut out, name.as_str());
            },
            Type::Instance(name) => {
                append(&mut out, "instanceof ");
                append(&mut out, name.as_str());
                proof {
                    reveal_strlit("instanceof ");
                }
            },
            Type::Function { params, ret_ty } => {
                append(&mut out, "(");
                let ps = params_to_text(params, 0);
                append(&mut out, ps.as_str());
                append(&mut out, ") -> ");
                let r = ret_ty.ty.to_text();
                append(&mut out, r.as_str());
                proof {
                    reveal_strlit("(");
                    reveal_strlit(") -> ");
                    lemma_view_type_exprs(params@);
                }
            },
            Type::Null => {
                append(&mut out, "null");
                proof {
                    reveal_strlit("null");
                }
            },
            Type::Any => {
                append(&mut out, "any");
                proof {
                    reveal_strlit("any");
                }
            },
        }
        out
    }
}

/// The texts of `params[i..]`, separated by `, `.
fn params_to_text(params: &Vec<TypeExpression>, i: usize) -> (r: String)
    requires
        i <= params.len(),
    ensures
        r@ == params_text(view_type_exprs(params@), i as int),
    decreases params@, params.len() - i,
{
    proof {
        lemma_view_type_exprs(params@);
    }
    if i >= params.len() {
        return String::new();
    }
    let mut out = String::new();
    if i > 0 {
        append(&mut out, ", ");
        proof {
            reveal_strlit(", ");
        }
    }
    proof {
        assert(decreases_to!(params@ => params@[i as int]));
        assert(decreases_to!(params@[i as int] => params@[i as int].ty));
    }
    let first = params[i].ty.to_text();
    append(&mut out, first.as_str());
    let rest = params_to_text(params, i + 1);
    append(&mut out, rest.as_str());
    out
}


/// Whether two types are the same, spans of their parts included.
pub fn same_type(a: &Type, b: &Type) -> (r: bool)
    ensures
        r == (a@ == b@),
    decreases a,
{
    proof {
        lemma_view_type_variant(*a);
        lemma_view_type_variant(*b);
    }
    match (a, b) {
        (Type::Int, Type::Int) => true,
        (Type::Float, Type::Float) => true,
        (Type::Bool, Type::Bool) => true,
        (Type::String, Type::String) => true,
        (Type::Null, Type::Null) => true,
        (Type::Any, Type::Any) => true,
        (Type::Class(x), Type::Class(y)) => *x == *y,
        (Type::Instance(x), Type::Instance(y)) => *x == *y,
        (Type::List(x), Type::List(y)) => x.span == y.span && same_type(&x.ty, &y.ty),
        (Type::Function { params: xp, ret_ty: xr }, Type::Function { params: yp, ret_ty: yr }) => {
            proof {
                lemma_view_type_exprs(xp@);
                lemma_view_type_exprs(yp@);
            }
            if xp.len() != yp.len() {
                assert(view_type_exprs(xp@).len() != view_type_exprs(yp@).len());
                return false;
            }
            let mut i: usize = 0;
            while i < xp.len()
                invariant
                    i <= xp.len(),
                    xp.len() == yp.len(),
                    *a == (Type::Function { params: *xp, ret_ty: *xr }),
                    *b == (Type::Function { params: *yp, ret_ty: *yr }),
                    view_type_exprs(xp@).len() == xp.len(),
                    view_type_exprs(yp@).len() == yp.len(),
                    forall|j: int| 0 <= j < xp.len() ==> #[trigger] view_type_exprs(xp@)[j] == xp@[j]@,
                    forall|j: int| 0 <= j < yp.len() ==> #[trigger] view_type_exprs(yp@)[j] == yp@[j]@,
                    forall|j: int| 0 <= j < i ==> #[trigger] view_type_exprs(xp@)[j] == view_type_exprs(yp@)[j],
                decreases xp.len() - i,
            {
                proof {
                    assert(decreases_to!(*a => a->params));
                    assert(decreases_to!(*xp => xp@));
                    assert(decreases_to!(xp@ => xp@[i as int]));
                    assert(decreases_to!(xp@[i as int] => xp@[i as int].ty));
                }
                if xp[i].span != yp[i].span || !same_type(&xp[i].ty, &yp[i].ty) {
                    assert(view_type_exprs(xp@)[i as int] != view_type_exprs(yp@)[i as int]);
                    return false;
                }
                i += 1;
            }
            assert(view_type_exprs(xp@) =~= view_type_exprs(yp@));
            xr.span == yr.span && same_type(&xr.ty, &yr.ty)
        },
        _ => false,
    }
}


/// Two function types are compatible exactly when they take as many
/// parameters, each parameter type is compatible with the other's in the same
/// place, and the return types are compatible: `(int) -> int` does not fit
/// `(int) -> bool`, nor `(int) -> int` fit `(int, int) -> int`.
pub proof fn lemma_function_compatibility(lp: Seq<STypeExpr>, lr: STypeExpr, rp: Seq<STypeExpr>, rr: STypeExpr)
    ensures
        compatible(SType::Function { params: lp, ret_ty: Box::new(lr) }, SType::Function { params: rp, ret_ty: Box::new(rr) })
            ==> compatible(lr.ty, rr.ty),
        compatible(SType::Function { params: lp, ret_ty: Box::new(lr) }, SType::Function { params: rp, ret_ty: Box::new(rr) })
            ==> lp.len() == rp.len(),
        compatible(SType::Function { params: lp, ret_ty: Box::new(lr) }, SType::Function { params: rp, ret_ty: Box::new(rr) })
            ==> forall|i: int| 0 <= i < lp.len() ==> compatible(#[trigger] lp[i].ty, rp[i].ty),
        lp.len() == rp.len() && (forall|i: int| 0 <= i < lp.len() ==> compatible(#[trigger] lp[i].ty, rp[i].ty))
            && compatible(lr.ty, rr.ty) ==> compatible(
            SType::Function { params: lp, ret_ty: Box::new(lr) },
            SType::Function { params: rp, ret_ty: Box::new(rr) },
        ),
{
}

/// Two list types are compatible exactly when their item types are.
pub proof fn lemma_list_compatibility(l: STypeExpr, r: STypeExpr)
    ensures
        compatible(SType::List(Box::new(l)), SType::List(Box::new(r))) == compatible(l.ty, r.ty),
{
}

/// `null` fits any type, any type fits `any` and `any` fits any type, and an int
/// and a float fit each other both ways.
pub proof fn lemma_compatible_basics(t: SType)
    ensures
        compatible(SType::Null, t),
        compatible(SType::Any, t),
        !(t is Null) ==> compatible(t, SType::Any),
        compatible(SType::Int, SType::Float),
        compatible(SType::Float, SType::Int),
{
}

/// Distinct plain types do not fit each other: a bool is not an int, a string
/// is not a number, and a number is not a bool or a string.
pub proof fn lemma_plain_types_differ(a: SType, b: SType)
    requires
        a is Int || a is Float || a is Bool || a is Str,
        b is Int || b is Float || b is Bool || b is Str,
        !((a is Int || a is Float) && (b is Int || b is Float)),
        a != b,
    ensures
        !compatible(a, b),
{
}

} // verus!
