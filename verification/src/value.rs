//! How the interpreter orders its values: by kind first, then by what they hold.
use crate::lexer::chars_of;
use vstd::prelude::*;

verus! {

/// A value of the interpreter with what its order reads of it: the truth of a
/// boolean, an integer, the text of a string and the id of an instance. A float,
/// a list, a function, a builtin and a class are known by their kind alone.
#[derive(Debug)]
pub enum ValKey {
    Bool(bool),
    Int(i64),
    Float,
    String(String),
    List,
    Function,
    Builtin,
    Class,
    Instance(usize),
    Null,
}

/// The outcome of comparing two values.
#[derive(Debug, Clone, Copy, PartialEq, Eq, Structural)]
pub enum Order {
    Less,
    Equal,
    Greater,
}

/// Where the kind of a value stands among the kinds: values of different kinds
/// are ordered by it.
pub open spec fn kind_rank(v: ValKey) -> int {
    match v {
        ValKey::Bool(_) => 0,
        ValKey::Int(_) => 1,
        ValKey::Float => 2,
        ValKey::String(_) => 3,
        ValKey::List => 4,
        ValKey::Function => 5,
        ValKey::Class => 6,
        ValKey::Instance(_) => 7,
        ValKey::Null => 8,
        ValKey::Builtin => 9,
    }
}

/// The order of two integers.
pub open spec fn int_order(a: int, b: int) -> Order {
    if a < b {
        Order::Less
    } else if a == b {
        Order::Equal
    } else {
        Order::Greater
    }
}

/// Texts in dictionary order of the code points of their characters; a text
/// comes before the longer texts that it starts.
pub open spec fn text_order(x: Seq<char>, y: Seq<char>) -> Order
    decreases x.len(),
{
    if x.len() == 0 {
        if y.len() == 0 {
            Order::Equal
        } else {
            Order::Less
        }
    } else if y.len() == 0 {
        Order::Greater
    } else if x[0] != y[0] {
        int_order(x[0] as int, y[0] as int)
    } else {
        text_order(x.drop_first(), y.drop_first())
    }
}

/// Whether the interpreter orders `a` against other values: a boolean, an
/// integer, a string, an instance or null.
pub open spec fn orderable(a: ValKey) -> bool {
    a is Bool || a is Int || a is String || a is Instance || a is Null
}

/// The order of two values: by kind, then `false` before `true`, integers and
/// instance ids by value, strings by `text_order`; `null` equals `null`.
pub open spec fn value_order(a: ValKey, b: ValKey) -> Order {
    if kind_rank(a) != kind_rank(b) {
        int_order(kind_rank(a), kind_rank(b))
    } else {
        match (a, b) {
            (ValKey::Bool(x), ValKey::Bool(y)) => int_order(
                if x {
                    1
                } else {
                    0
                },
                if y {
                    1
                } else {
                    0
                },
            ),
            (ValKey::Int(x), ValKey::Int(y)) => int_order(x as int, y as int),
            (ValKey::String(x), ValKey::String(y)) => text_order(x@, y@),
            (ValKey::Instance(x), ValKey::Instance(y)) => int_order(x as int, y as int),
            _ => Order::Equal,
        }
    }
}

fn kind_rank_of(v: &ValKey) -> (r: u8)
    ensures
        r as int == kind_rank(*v),
{
    match v {
        ValKey::Bool(_) => 0,
        ValKey::Int(_) => 1,
        ValKey::Float => 2,
        ValKey::String(_) => 3,
        ValKey::List => 4,
        ValKey::Function => 5,
        ValKey::Class => 6,
        ValKey::Instance(_) => 7,
        ValKey::Null => 8,
        ValKey::Builtin => 9,
    }
}

fn order_u64(a: u64, b: u64) -> (r: Order)
    ensures
        r == int_order(a as int, b as int),
{
    if a < b {
        Order::Less
    } else if a == b {
        Order::Equal
    } else {
        Order::Greater
    }
}

fn order_i64(a: i64, b: i64) -> (r: Order)
    ensures
        r == int_order(a as int, b as int),
{
    if a < b {
        Order::Less
    } else if a == b {
        Order::Equal
    } else {
        Order::Greater
    }
}

/// The order of two texts.
pub fn order_texts(x: &String, y: &String) -> (r: Order)
    ensures
        r == text_order(x@, y@),
{
    let xs = chars_of(x.as_str());
    let ys = chars_of(y.as_str());
    let mut i: usize = 0;
    assert(xs@.skip(0) =~= xs@);
    assert(ys@.skip(0) =~= ys@);
    while i < xs.len() && i < ys.len()
        invariant
            i <= xs.len(),
            i <= ys.len(),
            xs@ == x@,
            ys@ == y@,
            text_order(x@, y@) == text_order(xs@.skip(i as int), ys@.skip(i as int)),
        decreases xs.len() - i,
    {
        let c = xs[i];
        let d = ys[i];
        assert(xs@.skip(i as int)[0] == c);
        assert(ys@.skip(i as int)[0] == d);
        if c != d {
            if c < d {
                return Order::Less;
            } else {
                return Order::Greater;
            }
        }
        assert(xs@.skip(i as int).drop_first() =~= xs@.skip(i + 1));
        assert(ys@.skip(i as int).drop_first() =~= ys@.skip(i + 1));
        i += 1;
    }
    if xs.len() == ys.len() {
        assert(xs@.skip(i as int).len() == 0);
        Order::Equal
    } else if i == xs.len() {
        assert(xs@.skip(i as int).len() == 0);
        Order::Less
    } else {
        assert(ys@.skip(i as int).len() == 0);
        Order::Greater
    }
}

/// Compares two values as the interpreter does, where it orders the first one.
pub fn compare_values(a: &ValKey, b: &ValKey) -> (r: Order)
    requires
        orderable(*a),
    ensures
        r == value_order(*a, *b),
{
    let ra = kind_rank_of(a);
    let rb = kind_rank_of(b);
    if ra != rb {
        return order_u64(ra as u64, rb as u64);
    }
    match (a, b) {
        (ValKey::Bool(x), ValKey::Bool(y)) => {
            let xi: u64 = if *x {
                1
            } else {
                0
            };
            let yi: u64 = if *y {
                1
            } else {
                0
            };
            order_u64(xi, yi)
        },
        (ValKey::Int(x), ValKey::Int(y)) => order_i64(*x, *y),
        (ValKey::String(x), ValKey::String(y)) => order_texts(x, y),
        (ValKey::Instance(x), ValKey::Instance(y)) => order_u64(*x as u64, *y as u64),
        _ => Order::Equal,
    }
}

/// Whether two values are equal in the interpreter's order.
pub fn values_equal(a: &ValKey, b: &ValKey) -> (r: bool)
    requires
        orderable(*a),
    ensures
        r == (value_order(*a, *b) == Order::Equal),
{
    compare_values(a, b) == Order::Equal
}

/// A text is equal to itself.
pub proof fn lemma_text_order_reflexive(x: Seq<char>)
    ensures
        text_order(x, x) == Order::Equal,
    decreases x.len(),
{
    if x.len() > 0 {
        lemma_text_order_reflexive(x.drop_first());
    }
}

/// Swapping two texts swaps `Less` and `Greater`.
pub proof fn lemma_text_order_reverses(x: Seq<char>, y: Seq<char>)
    ensures
        (text_order(x, y) == Order::Less) == (text_order(y, x) == Order::Greater),
        (text_order(x, y) == Order::Equal) == (text_order(y, x) == Order::Equal),
    decreases x.len(),
{
    if x.len() > 0 && y.len() > 0 && x[0] == y[0] {
        lemma_text_order_reverses(x.drop_first(), y.drop_first());
    }
}

/// Every value that the interpreter orders is equal to itself.
pub proof fn lemma_value_order_reflexive(a: ValKey)
    ensures
        value_order(a, a) == Order::Equal,
{
    if let ValKey::String(x) = a {
        lemma_text_order_reflexive(x@);
    }
}

/// Comparing two values the other way round swaps `Less` and `Greater` and
/// keeps `Equal`.
pub proof fn lemma_value_order_reverses(a: ValKey, b: ValKey)
    ensures
        (value_order(a, b) == Order::Less) == (value_order(b, a) == Order::Greater),
        (value_order(a, b) == Order::Equal) == (value_order(b, a) == Order::Equal),
{
    if let (ValKey::String(x), ValKey::String(y)) = (a, b) {
        lemma_text_order_reverses(x@, y@);
    }
}


/// Two integers compare by their numeric order, negative ones included.
pub proof fn lemma_int_values_order(x: i64, y: i64)
    ensures
        (value_order(ValKey::Int(x), ValKey::Int(y)) == Order::Less) == (x < y),
        (value_order(ValKey::Int(x), ValKey::Int(y)) == Order::Equal) == (x == y),
        (value_order(ValKey::Int(x), ValKey::Int(y)) == Order::Greater) == (x > y),
{
}

/// Two instances compare by their ids, `false` comes before `true`, and `null`
/// equals `null`.
pub proof fn lemma_other_values_order(x: usize, y: usize, a: bool, b: bool)
    ensures
        (value_order(ValKey::Instance(x), ValKey::Instance(y)) == Order::Less) == (x < y),
        (value_order(ValKey::Instance(x), ValKey::Instance(y)) == Order::Equal) == (x == y),
        (value_order(ValKey::Instance(x), ValKey::Instance(y)) == Order::Greater) == (x > y),
        (value_order(ValKey::Bool(a), ValKey::Bool(b)) == Order::Less) == (!a && b),
        (value_order(ValKey::Bool(a), ValKey::Bool(b)) == Order::Equal) == (a == b),
        value_order(ValKey::Null, ValKey::Null) == Order::Equal,
{
}

/// Values of different kinds are never equal; a boolean comes before every
/// other kind, an integer after booleans and before everything else, and `null`
/// after every kind but builtins.
pub proof fn lemma_kinds_order(a: ValKey, b: ValKey)
    ensures
        kind_rank(a) != kind_rank(b) ==> value_order(a, b) != Order::Equal,
        a is Bool && !(b is Bool) ==> value_order(a, b) == Order::Less,
        a is Int && b is Bool ==> value_order(a, b) == Order::Greater,
        a is Int && !(b is Bool) && !(b is Int) ==> value_order(a, b) == Order::Less,
        a is Null && !(b is Null) && !(b is Builtin) ==> value_order(a, b) == Order::Greater,
        a is Null && b is Builtin ==> value_order(a, b) == Order::Less,
{
}

/// A text comes before every longer text that it starts.
pub proof fn lemma_text_prefix_first(x: Seq<char>, y: Seq<char>)
    requires
        y.len() > 0,
    ensures
        text_order(x, x + y) == Order::Less,
    decreases x.len(),
{
    if x.len() > 0 {
        assert((x + y).drop_first() =~= x.drop_first() + y);
        assert((x + y)[0] == x[0]);
        lemma_text_prefix_first(x.drop_first(), y);
    } else {
        assert(x + y =~= y);
    }
}

/// After a common start, the first differing character decides: the text with
/// the smaller code point there comes first.
pub proof fn lemma_text_first_difference(p: Seq<char>, c: char, d: char, x: Seq<char>, y: Seq<char>)
    requires
        (c as int) < (d as int),
    ensures
        text_order(p + seq![c] + x, p + seq![d] + y) == Order::Less,
    decreases p.len(),
{
    if p.len() > 0 {
        assert((p + seq![c] + x).drop_first() =~= p.drop_first() + seq![c] + x);
        assert((p + seq![d] + y).drop_first() =~= p.drop_first() + seq![d] + y);
        assert((p + seq![c] + x)[0] == p[0]);
        assert((p + seq![d] + y)[0] == p[0]);
        lemma_text_first_difference(p.drop_first(), c, d, x, y);
    } else {
        assert(p + seq![c] + x =~= seq![c] + x);
        assert(p + seq![d] + y =~= seq![d] + y);
        assert((seq![c] + x)[0] == c);
        assert((seq![d] + y)[0] == d);
    }
}

} // verus!
