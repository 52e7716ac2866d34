//! The symbol table: the names in scope, innermost scope last.
use crate::span::Spanned;
use crate::types::{SType, Type};
use vstd::prelude::*;

verus! {

/// A declared name: what it is and its type.
#[derive(Debug, PartialEq)]
pub struct Symbol {
    pub name: Spanned<String>,
    pub sym: Sym,
    pub ty: Type,
}

/// What kind of thing a symbol names.
#[derive(Debug, PartialEq)]
pub enum Sym {
    Variable,
    Function { arity: usize },
    Class { methods: SymbolMap, statics: SymbolMap },
}

/// A map from names to symbols; inserting a name that is present replaces its symbol.
#[derive(Debug, PartialEq)]
pub struct SymbolMap {
    pub keys: Vec<String>,
    pub values: Vec<Symbol>,
}

pub struct SSymbol {
    pub name: Spanned<Seq<char>>,
    pub sym: SSym,
    pub ty: SType,
}

pub enum SSym {
    Variable,
    Function { arity: nat },
    Class { methods: Map<Seq<char>, SSymbol>, statics: Map<Seq<char>, SSymbol> },
}

pub open spec fn view_symbol(s: Symbol) -> SSymbol
    decreases s,
{
    SSymbol { name: s.name@, sym: view_sym(s.sym), ty: s.ty@ }
}

pub open spec fn view_sym(s: Sym) -> SSym
    decreases s,
{
    match s {
        Sym::Variable => SSym::Variable,
        Sym::Function { arity } => SSym::Function { arity: arity as nat },
        Sym::Class { methods, statics } => SSym::Class {
            methods: view_entries(methods.keys@, methods.values@),
            statics: view_entries(statics.keys@, statics.values@),
        },
    }
}

/// The map that inserting the pairs `keys[i] -> values[i]` in order gives.
pub open spec fn view_entries(keys: Seq<String>, values: Seq<Symbol>) -> Map<Seq<char>, SSymbol>
    decreases values,
{
    if values.len() == 0 || keys.len() != values.len() {
        Map::empty()
    } else {
        view_entries(keys.drop_last(), values.drop_last()).insert(
            keys.last()@,
            view_symbol(values.last()),
        )
    }
}

impl View for Symbol {
    type V = SSymbol;

    open spec fn view(&self) -> SSymbol {
        view_symbol(*self)
    }
}

impl View for SymbolMap {
    type V = Map<Seq<char>, SSymbol>;

    open spec fn view(&self) -> Map<Seq<char>, SSymbol> {
        view_entries(self.keys@, self.values@)
    }
}

/// The index of the last entry with key `name` among the first `n`.
spec fn last_index(keys: Seq<String>, name: Seq<char>, n: int) -> int
    decreases n,
{
    if n <= 0 {
        -1
    } else if keys[n - 1]@ == name {
        n - 1
    } else {
        last_index(keys, name, n - 1)
    }
}

proof fn lemma_last_index(keys: Seq<String>, values: Seq<Symbol>, name: Seq<char>, n: int)
    requires
        keys.len() == values.len(),
        0 <= n <= keys.len(),
    ensures
        -1 <= last_index(keys, name, n) < n,
        last_index(keys, name, n) >= 0 ==> keys[last_index(keys, name, n)]@ == name,
        view_entries(keys.take(n), values.take(n)).contains_key(name) == (last_index(
            keys,
            name,
            n,
        ) >= 0),
        last_index(keys, name, n) >= 0 ==> view_entries(keys.take(n), values.take(n))[name]
            == view_symbol(values[last_index(keys, name, n)]),
    decreases n,
{
    if n > 0 {
        lemma_last_index(keys, values, name, n - 1);
        assert(keys.take(n).drop_last() =~= keys.take(n - 1));
        assert(values.take(n).drop_last() =~= values.take(n - 1));
    }
}

proof fn lemma_view_entries_push(keys: Seq<String>, values: Seq<Symbol>, k: String, v: Symbol)
    requires
        keys.len() == values.len(),
    ensures
        view_entries(keys.push(k), values.push(v)) == view_entries(keys, values).insert(
            k@,
            view_symbol(v),
        ),
{
    assert(keys.push(k).drop_last() =~= keys);
    assert(values.push(v).drop_last() =~= values);
}

/// Replacing the symbol of the last entry of `name` updates the map at `name`.
proof fn lemma_view_entries_update(
    keys: Seq<String>,
    values: Seq<Symbol>,
    name: Seq<char>,
    j: int,
    v: Symbol,
    n: int,
)
    requires
        keys.len() == values.len(),
        0 <= j < n <= keys.len(),
        keys[j]@ == name,
        forall|i: int| j < i < n ==> keys[i]@ != name,
    ensures
        view_entries(keys.take(n), values.update(j, v).take(n)) == view_entries(
            keys.take(n),
            values.take(n),
        ).insert(name, view_symbol(v)),
    decreases n,
{
    let vs = values.update(j, v);
    assert(keys.take(n).drop_last() =~= keys.take(n - 1));
    assert(vs.take(n).drop_last() =~= vs.take(n - 1));
    assert(values.take(n).drop_last() =~= values.take(n - 1));
    if n - 1 == j {
        assert(vs.take(n - 1) =~= values.take(n - 1));
        assert(view_entries(keys.take(n), vs.take(n)) =~= view_entries(
            keys.take(n),
            values.take(n),
        ).insert(name, view_symbol(v)));
    } else {
        lemma_view_entries_update(keys, values, name, j, v, n - 1);
        assert(view_entries(keys.take(n), vs.take(n)) =~= view_entries(
            keys.take(n),
            values.take(n),
        ).insert(name, view_symbol(v)));
    }
}

impl SymbolMap {
    pub open spec fn wf(&self) -> bool {
        self.keys.len() == self.values.len()
    }

    pub fn new() -> (m: SymbolMap)
        ensures
            m.wf(),
            m@ == Map::<Seq<char>, SSymbol>::empty(),
    {
        SymbolMap { keys: Vec::new(), values: Vec::new() }
    }

    pub fn insert(&mut self, key: String, value: Symbol)
        requires
            old(self).wf(),
        ensures
            final(self).wf(),
            final(self)@ == old(self)@.insert(key@, value@),
    {
        proof {
            lemma_view_entries_push(self.keys@, self.values@, key, value);
        }
        self.keys.push(key);
        self.values.push(value);
    }

    fn find(&self, name: &String) -> (r: Option<usize>)
        requires
            self.wf(),
        ensures
            match r {
                Some(j) => j < self.values.len() && self.keys@[j as int]@ == name@ && j as int
                    == last_index(self.keys@, name@, self.keys.len() as int),
                None => last_index(self.keys@, name@, self.keys.len() as int) == -1,
            },
    {
        let mut n = self.keys.len();
        while n > 0
            invariant
                n <= self.keys.len(),
                self.wf(),
                last_index(self.keys@, name@, self.keys.len() as int) == last_index(
                    self.keys@,
                    name@,
                    n as int,
                ),
            decreases n,
        {
            if self.keys[n - 1] == *name {
                return Some(n - 1);
            }
            n -= 1;
        }
        None
    }

    pub fn get(&self, name: &String) -> (r: Option<&Symbol>)
        ensures
            match r {
                Some(s) => self@.contains_key(name@) && self@[name@] == s@,
                None => !self@.contains_key(name@),
            },
    {
        if self.keys.len() != self.values.len() {
            return None;
        }
        proof {
            lemma_last_index(self.keys@, self.values@, name@, self.keys.len() as int);
            assert(self.keys@.take(self.keys.len() as int) =~= self.keys@);
            assert(self.values@.take(self.values.len() as int) =~= self.values@);
        }
        match self.find(name) {
            Some(j) => Some(&self.values[j]),
            None => None,
        }
    }

    pub fn extend(&mut self, other: SymbolMap)
        requires
            old(self).wf(),
            other.wf(),
        ensures
            final(self).wf(),
            final(self)@ == old(self)@.union_prefer_right(other@),
    {
        let SymbolMap { keys, values } = other;
        let ghost ok = keys@;
        let ghost ov = values@;
        let ghost start = self@;
        let mut keys = keys;
        let mut values = values;
        let mut i: usize = 0;
        let n = keys.len();
        assert(ok.skip(0) =~= ok);
        assert(ov.skip(0) =~= ov);
        assert(ok.take(0) =~= Seq::<String>::empty());
        assert(ov.take(0) =~= Seq::<Symbol>::empty());
        assert(start.union_prefer_right(Map::<Seq<char>, SSymbol>::empty()) =~= start);
        while i < n
            invariant
                self.wf(),
                n == ok.len(),
                ok.len() == ov.len(),
                i <= n,
                keys@ == ok.skip(i as int),
                values@ == ov.skip(i as int),
                self@ == start.union_prefer_right(view_entries(ok.take(i as int), ov.take(i as int))),
            decreases n - i,
        {
            let k = keys.remove(0);
            let v = values.remove(0);
            proof {
                assert(k == ok[i as int]);
                assert(v == ov[i as int]);
                assert(keys@ =~= ok.skip(i + 1));
                assert(values@ =~= ov.skip(i + 1));
                lemma_view_entries_push(ok.take(i as int), ov.take(i as int), k, v);
                assert(ok.take(i + 1) =~= ok.take(i as int).push(k));
                assert(ov.take(i + 1) =~= ov.take(i as int).push(v));
                assert(start.union_prefer_right(view_entries(ok.take(i as int), ov.take(i as int))).insert(k@, view_symbol(v))
                    =~= start.union_prefer_right(view_entries(ok.take(i as int), ov.take(i as int)).insert(k@, view_symbol(v))));
            }
            self.insert(k, v);
            i += 1;
        }
        proof {
            assert(ok.take(n as int) =~= ok);
            assert(ov.take(n as int) =~= ov);
        }
    }
}


impl SymbolMap {
    pub fn get_mut(&mut self, name: &String) -> (r: Option<&mut Symbol>)
        requires
            old(self).wf(),
        ensures
            final(self).wf(),
            old(self)@.contains_key(name@) ==> (r matches Some(e) && e@ == old(self)@[name@]
                && final(self)@ == old(self)@.insert(name@, final(e)@)),
            !old(self)@.contains_key(name@) ==> r is None && final(self)@ == old(self)@,
    {
        proof {
            lemma_last_index(self.keys@, self.values@, name@, self.keys.len() as int);
            assert(self.keys@.take(self.keys.len() as int) =~= self.keys@);
            assert(self.values@.take(self.values.len() as int) =~= self.values@);
        }
        match self.find(name) {
            Some(j) => {
                let ghost keys = self.keys@;
                let ghost values = self.values@;
                proof {
                    assert forall|v: Symbol| #[trigger] view_entries(keys, values.update(j as int, v))
                        == view_entries(keys, values).insert(name@, view_symbol(v)) by {
                        lemma_last_index_after(keys, name@, j as int, keys.len() as int);
                        lemma_view_entries_update(keys, values, name@, j as int, v, keys.len() as int);
                        assert(keys.take(keys.len() as int) =~= keys);
                        assert(values.update(j as int, v).take(keys.len() as int) =~= values.update(j as int, v));
                        assert(values.take(keys.len() as int) =~= values);
                    }
                }
                Some(&mut self.values[j])
            },
            None => None,
        }
    }
}

/// After the last index of `name`, no key is `name`.
proof fn lemma_last_index_after(keys: Seq<String>, name: Seq<char>, j: int, n: int)
    requires
        0 <= n <= keys.len(),
        j == last_index(keys, name, n),
        j >= 0,
    ensures
        forall|i: int| j < i < n ==> keys[i]@ != name,
    decreases n,
{
    if n > 0 && keys[n - 1]@ != name {
        lemma_last_index_after(keys, name, j, n - 1);
    }
}

pub open spec fn view_symbols(s: Seq<Symbol>) -> Seq<SSymbol> {
    s.map_values(|x: Symbol| x@)
}

/// The scopes of a symbol table, outermost first.
pub type Scopes = Seq<Map<Seq<char>, SSymbol>>;

/// The symbol that `name` denotes: the one in the innermost scope that declares it.
pub open spec fn lookup_scopes(scopes: Scopes, name: Seq<char>) -> Option<SSymbol>
    decreases scopes.len(),
{
    if scopes.len() == 0 {
        None
    } else if scopes.last().contains_key(name) {
        Some(scopes.last()[name])
    } else {
        lookup_scopes(scopes.drop_last(), name)
    }
}

/// The index of the innermost scope that declares `name`, or -1.
pub open spec fn scope_of(scopes: Scopes, name: Seq<char>) -> int
    decreases scopes.len(),
{
    if scopes.len() == 0 {
        -1
    } else if scopes.last().contains_key(name) {
        scopes.len() - 1
    } else {
        scope_of(scopes.drop_last(), name)
    }
}

/// `scopes` with the symbol of `name` in its innermost declaring scope replaced.
pub open spec fn update_scopes(scopes: Scopes, name: Seq<char>, sym: SSymbol) -> Scopes {
    let k = scope_of(scopes, name);
    scopes.update(k, scopes[k].insert(name, sym))
}

/// `scopes` with `sym` declared under `name` in the innermost scope (none if there is no scope).
pub open spec fn insert_scopes(scopes: Scopes, name: Seq<char>, sym: SSymbol) -> Scopes {
    if scopes.len() == 0 {
        scopes
    } else {
        scopes.update(scopes.len() - 1, scopes.last().insert(name, sym))
    }
}

/// The map that declaring `syms` in order gives, starting from `m`.
pub open spec fn insert_all(m: Map<Seq<char>, SSymbol>, syms: Seq<SSymbol>) -> Map<Seq<char>, SSymbol>
    decreases syms.len(),
{
    if syms.len() == 0 {
        m
    } else {
        insert_all(m, syms.drop_last()).insert(syms.last().name.item, syms.last())
    }
}

pub proof fn lemma_scope_of(scopes: Scopes, name: Seq<char>)
    ensures
        -1 <= scope_of(scopes, name) < scopes.len(),
        (scope_of(scopes, name) >= 0) == (lookup_scopes(scopes, name) is Some),
        scope_of(scopes, name) >= 0 ==> scopes[scope_of(scopes, name)].contains_key(name)
            && lookup_scopes(scopes, name)->0 == scopes[scope_of(scopes, name)][name],
    decreases scopes.len(),
{
    if scopes.len() > 0 && !scopes.last().contains_key(name) {
        lemma_scope_of(scopes.drop_last(), name);
    }
}


/// A name declared in the innermost scope denotes the symbol it was declared with.
pub proof fn lemma_lookup_after_insert(scopes: Scopes, name: Seq<char>, sym: SSymbol)
    requires
        scopes.len() > 0,
    ensures
        lookup_scopes(insert_scopes(scopes, name, sym), name) == Some(sym),
{
}

/// Declaring a name changes what no other name denotes.
pub proof fn lemma_insert_keeps_others(scopes: Scopes, name: Seq<char>, sym: SSymbol, other: Seq<char>)
    requires
        other != name,
    ensures
        lookup_scopes(insert_scopes(scopes, name, sym), other) == lookup_scopes(scopes, other),
{
    if scopes.len() > 0 {
        let s2 = insert_scopes(scopes, name, sym);
        assert(s2.drop_last() =~= scopes.drop_last());
        assert(s2.last().contains_key(other) == scopes.last().contains_key(other));
    }
}

/// Entering a scope changes what no name denotes, and leaving it again gives
/// back the scopes from before.
pub proof fn lemma_enter_leave_scope(scopes: Scopes, name: Seq<char>)
    ensures
        lookup_scopes(scopes.push(Map::empty()), name) == lookup_scopes(scopes, name),
        scopes.push(Map::empty()).drop_last() == scopes,
{
    assert(scopes.push(Map::<Seq<char>, SSymbol>::empty()).drop_last() =~= scopes);
}

/// A declaration in a new inner scope hides outer ones, and leaving that scope
/// gives back the scopes from before it was entered.
pub proof fn lemma_shadowing(scopes: Scopes, name: Seq<char>, sym: SSymbol)
    ensures
        lookup_scopes(insert_scopes(scopes.push(Map::empty()), name, sym), name) == Some(sym),
        insert_scopes(scopes.push(Map::empty()), name, sym).drop_last() == scopes,
{
    assert(insert_scopes(scopes.push(Map::empty()), name, sym).drop_last() =~= scopes);
}

/// Replacing the symbol of a declared name: the name denotes the new symbol, no
/// other name changes, and the number of scopes stays.
pub proof fn lemma_lookup_after_update(scopes: Scopes, name: Seq<char>, sym: SSymbol, other: Seq<char>)
    requires
        lookup_scopes(scopes, name) is Some,
    ensures
        lookup_scopes(update_scopes(scopes, name, sym), name) == Some(sym),
        other != name ==> lookup_scopes(update_scopes(scopes, name, sym), other) == lookup_scopes(
            scopes,
            other,
        ),
        update_scopes(scopes, name, sym).len() == scopes.len(),
    decreases scopes.len(),
{
    lemma_scope_of(scopes, name);
    let k = scope_of(scopes, name);
    let s2 = update_scopes(scopes, name, sym);
    if k == scopes.len() - 1 {
        assert(s2.drop_last() =~= scopes.drop_last());
    } else {
        assert(!scopes.last().contains_key(name));
        assert(s2.last() == scopes.last());
        assert(s2.drop_last() =~= update_scopes(scopes.drop_last(), name, sym));
        lemma_lookup_after_update(scopes.drop_last(), name, sym, other);
    }
}

/// Merging two one-scope tables: each name denotes its symbol in the other table
/// where that declares it, and its symbol in the first table otherwise.
pub proof fn lemma_merge_lookup(a: Map<Seq<char>, SSymbol>, b: Map<Seq<char>, SSymbol>, name: Seq<char>)
    ensures
        lookup_scopes(seq![a].update(0, a.union_prefer_right(b)), name) == if b.contains_key(name) {
            Some(b[name])
        } else {
            lookup_scopes(seq![a], name)
        },
{
    let m = seq![a].update(0, a.union_prefer_right(b));
    assert(m =~= seq![a.union_prefer_right(b)]);
    assert(m.drop_last() =~= Seq::<Map<Seq<char>, SSymbol>>::empty());
    assert(seq![a].drop_last() =~= Seq::<Map<Seq<char>, SSymbol>>::empty());
}


/// One call on a symbol table: `level_up`, `level_down`, or `insert` of a symbol.
pub enum TableStep {
    Up,
    Down,
    Declare(SSymbol),
}

/// The scopes after the calls `steps`, in order, starting from `scopes`: what
/// `level_up`, `level_down` and `insert` each give.
pub open spec fn run_steps(scopes: Scopes, steps: Seq<TableStep>) -> Scopes
    decreases steps.len(),
{
    if steps.len() == 0 {
        scopes
    } else {
        let s = run_steps(scopes, steps.drop_last());
        match steps.last() {
            TableStep::Up => s.push(Map::empty()),
            TableStep::Down => if s.len() > 0 {
                s.drop_last()
            } else {
                s
            },
            TableStep::Declare(sym) => insert_scopes(s, sym.name.item, sym),
        }
    }
}

/// The number of `Up` steps minus the number of `Down` steps.
pub open spec fn net_levels(steps: Seq<TableStep>) -> int
    decreases steps.len(),
{
    if steps.len() == 0 {
        0
    } else {
        net_levels(steps.drop_last()) + match steps.last() {
            TableStep::Up => 1int,
            TableStep::Down => -1int,
            TableStep::Declare(_) => 0int,
        }
    }
}

/// The number of scopes after any sequence of calls in which no prefix leaves a
/// table of `depth` scopes with fewer than one: `depth` plus the net number of
/// levels entered. From a new table (one scope) the table is at the global scope
/// again exactly when as many levels were left as entered.
pub proof fn lemma_steps_depth(scopes: Scopes, steps: Seq<TableStep>)
    requires
        scopes.len() >= 1,
        forall|k: int| 0 <= k <= steps.len() ==> scopes.len() + #[trigger] net_levels(steps.take(k)) >= 1,
    ensures
        run_steps(scopes, steps).len() == scopes.len() + net_levels(steps),
    decreases steps.len(),
{
    if steps.len() > 0 {
        let init = steps.drop_last();
        assert forall|k: int| 0 <= k <= init.len() implies scopes.len() + #[trigger] net_levels(init.take(k)) >= 1 by {
            assert(init.take(k) =~= steps.take(k));
        }
        lemma_steps_depth(scopes, init);
        assert(steps.take(steps.len() as int) =~= steps);
        assert(steps.take(init.len() as int) =~= init);
    }
}

/// The scopes after declaring `syms`, in order, in the innermost scope.
pub open spec fn declare_all(scopes: Scopes, syms: Seq<SSymbol>) -> Scopes
    decreases syms.len(),
{
    if syms.len() == 0 {
        scopes
    } else {
        let s = declare_all(scopes, syms.drop_last());
        insert_scopes(s, syms.last().name.item, syms.last())
    }
}

proof fn lemma_declare_all_inner(scopes: Scopes, syms: Seq<SSymbol>)
    ensures
        declare_all(scopes.push(Map::empty()), syms).len() == scopes.len() + 1,
        declare_all(scopes.push(Map::empty()), syms).drop_last() == scopes,
    decreases syms.len(),
{
    if syms.len() == 0 {
        assert(scopes.push(Map::<Seq<char>, SSymbol>::empty()).drop_last() =~= scopes);
    } else {
        lemma_declare_all_inner(scopes, syms.drop_last());
        let s = declare_all(scopes.push(Map::empty()), syms.drop_last());
        assert(insert_scopes(s, syms.last().name.item, syms.last()).drop_last() =~= s.drop_last());
    }
}

/// Entering a scope, declaring any number of symbols and leaving the scope gives
/// back the scopes from before: the symbols are gone and every name denotes again
/// what it denoted before.
pub proof fn lemma_leave_forgets_declarations(scopes: Scopes, syms: Seq<SSymbol>, name: Seq<char>)
    ensures
        declare_all(scopes.push(Map::empty()), syms).drop_last() == scopes,
        lookup_scopes(declare_all(scopes.push(Map::empty()), syms).drop_last(), name) == lookup_scopes(
            scopes,
            name,
        ),
{
    lemma_declare_all_inner(scopes, syms);
}

/// The names in scope, innermost scope last.
#[derive(Debug, PartialEq)]
pub struct SymbolTable {
    inner: Vec<SymbolMap>,
}

impl View for SymbolTable {
    type V = Scopes;

    closed spec fn view(&self) -> Scopes {
        self.inner@.map_values(|m: SymbolMap| m@)
    }
}

impl SymbolTable {
    pub closed spec fn wf(&self) -> bool {
        forall|i: int| 0 <= i < self.inner.len() ==> #[trigger] self.inner@[i].wf()
    }

    proof fn lemma_view(&self)
        ensures
            self@.len() == self.inner.len(),
            forall|i: int| 0 <= i < self.inner.len() ==> #[trigger] self@[i] == self.inner@[i]@,
    {
    }

    /// A table of one scope that holds the given symbols.
    pub fn new(builtins: Vec<Symbol>) -> (t: Self)
        ensures
            t.wf(),
            t@ == seq![insert_all(Map::empty(), view_symbols(builtins@))],
    {
        let mut symtab = SymbolTable { inner: vec![SymbolMap::new()] };
        assert(symtab@ =~= seq![Map::<Seq<char>, SSymbol>::empty()]);
        symtab.define_builtins(builtins);
        symtab
    }

    fn define_builtins(&mut self, builtins: Vec<Symbol>)
        requires
            old(self).wf(),
            old(self)@.len() == 1,
        ensures
            final(self).wf(),
            final(self)@ == seq![insert_all(old(self)@[0], view_symbols(builtins@))],
    {
        let ghost b = view_symbols(builtins@);
        let ghost m0 = self@[0];
        let mut builtins = builtins;
        let n = builtins.len();
        let mut i: usize = 0;
        assert(b.take(0) =~= Seq::<SSymbol>::empty());
        assert(view_symbols(builtins@) =~= b.skip(0));
        while i < n
            invariant
                self.wf(),
                i <= n,
                n == b.len(),
                builtins.len() == n - i,
                view_symbols(builtins@) == b.skip(i as int),
                self@ == seq![insert_all(m0, b.take(i as int))],
            decreases n - i,
        {
            let ghost before = builtins@;
            let builtin = builtins.remove(0);
            proof {
                assert(view_symbols(before)[0] == b[i as int]);
                assert(builtin@ == b[i as int]);
                assert forall|k: int| 0 <= k < builtins.len() implies #[trigger] view_symbols(builtins@)[k] == b.skip(i + 1)[k] by {
                    assert(builtins@[k] == before[k + 1]);
                    assert(view_symbols(before)[k + 1] == b.skip(i as int)[k + 1]);
                }
                assert(view_symbols(builtins@) =~= b.skip(i + 1));
                assert(b.take(i + 1).drop_last() =~= b.take(i as int));
            }
            self.insert(builtin);
            proof {
                assert(self@ =~= seq![insert_all(m0, b.take(i + 1))]);
            }
            i += 1;
        }
        assert(b.take(n as int) =~= b);
    }

    pub fn merge_with(&mut self, other: SymbolTable)
        requires
            old(self).wf(),
            other.wf(),
            old(self)@.len() >= 1,
            other@.len() >= 1,
        ensures
            final(self).wf(),
            final(self)@ == old(self)@.update(0, old(self)@[0].union_prefer_right(other@[0])),
    {
        proof {
            self.lemma_view();
            other.lemma_view();
        }
        let ghost other0 = other@;
        let mut other = other;
        let first = other.inner.remove(0);
        assert(first@ == other0[0]);
        assert(first.wf());
        let ghost old_inner = self.inner@;
        self.inner[0].extend(first);
        proof {
            self.lemma_view();
            assert(self@ =~= old(self)@.update(0, old(self)@[0].union_prefer_right(other0[0])));
        }
    }

    pub fn at_global_scope(&self) -> (b: bool)
        ensures
            b == (self@.len() == 1),
    {
        proof {
            self.lemma_view();
        }
        self.inner.len() == 1
    }

    pub fn level_up(&mut self)
        requires
            old(self).wf(),
        ensures
            final(self).wf(),
            final(self)@ == old(self)@.push(Map::empty()),
    {
        self.inner.push(SymbolMap::new());
        proof {
            assert(self@ =~= old(self)@.push(Map::empty()));
        }
    }

    pub fn level_down(&mut self)
        requires
            old(self).wf(),
        ensures
            final(self).wf(),
            final(self)@ == if old(self)@.len() > 0 {
                old(self)@.drop_last()
            } else {
                old(self)@
            },
    {
        self.inner.pop();
        proof {
            assert(self@ =~= (if old(self)@.len() > 0 {
                old(self)@.drop_last()
            } else {
                old(self)@
            }));
        }
    }

    pub fn insert(&mut self, sym: Symbol)
        requires
            old(self).wf(),
        ensures
            final(self).wf(),
            final(self)@ == insert_scopes(old(self)@, sym.name.item@, sym@),
    {
        proof {
            self.lemma_view();
        }
        let n = self.inner.len();
        if n > 0 {
            let key = sym.name.item.clone();
            self.inner[n - 1].insert(key, sym);
            proof {
                self.lemma_view();
                assert(self@ =~= insert_scopes(old(self)@, sym.name.item@, sym@));
            }
        }
    }

    pub fn lookup(&self, name: &str) -> (r: Option<&Symbol>)
        requires
            self.wf(),
        ensures
            match r {
                Some(s) => lookup_scopes(self@, name@) == Some(s@),
                None => lookup_scopes(self@, name@) is None,
            },
    {
        proof {
            self.lemma_view();
        }
        let key = name.to_owned();
        let mut n = self.inner.len();
        assert(self@.take(n as int) =~= self@);
        while n > 0
            invariant
                n <= self.inner.len(),
                self.wf(),
                key@ == name@,
                self@.len() == self.inner.len(),
                forall|i: int| 0 <= i < self.inner.len() ==> #[trigger] self@[i] == self.inner@[i]@,
                lookup_scopes(self@, name@) == lookup_scopes(self@.take(n as int), name@),
            decreases n,
        {
            assert(self@.take(n as int).drop_last() =~= self@.take(n - 1));
            assert(self@.take(n as int).last() == self.inner@[n - 1]@);
            match self.inner[n - 1].get(&key) {
                Some(s) => {
                    return Some(s);
                },
                None => {},
            }
            n -= 1;
        }
        assert(self@.take(0) =~= Seq::<Map<Seq<char>, SSymbol>>::empty());
        None
    }
}


impl SymbolTable {
    fn find_scope(&self, key: &String) -> (r: Option<usize>)
        requires
            self.wf(),
        ensures
            match r {
                Some(k) => k as int == scope_of(self@, key@) && k < self.inner.len(),
                None => scope_of(self@, key@) == -1,
            },
    {
        proof {
            self.lemma_view();
        }
        let mut n = self.inner.len();
        assert(self@.take(n as int) =~= self@);
        while n > 0
            invariant
                n <= self.inner.len(),
                self.wf(),
                self@.len() == self.inner.len(),
                forall|i: int| 0 <= i < self.inner.len() ==> #[trigger] self@[i] == self.inner@[i]@,
                scope_of(self@, key@) == scope_of(self@.take(n as int), key@),
            decreases n,
        {
            assert(self@.take(n as int).drop_last() =~= self@.take(n - 1));
            assert(self@.take(n as int).last() == self.inner@[n - 1]@);
            match self.inner[n - 1].get(key) {
                Some(_) => {
                    return Some(n - 1);
                },
                None => {},
            }
            n -= 1;
        }
        None
    }

    pub fn lookup_mut(&mut self, name: &str) -> (r: Option<&mut Symbol>)
        requires
            old(self).wf(),
        ensures
            final(self).wf(),
            lookup_scopes(old(self)@, name@) is Some ==> (r matches Some(e) && e@ == lookup_scopes(
                old(self)@,
                name@,
            )->0 && final(self)@ == update_scopes(old(self)@, name@, final(e)@)),
            lookup_scopes(old(self)@, name@) is None ==> r is None && final(self)@ == old(self)@,
    {
        proof {
            self.lemma_view();
            lemma_scope_of(self@, name@);
        }
        let key = name.to_owned();
        match self.find_scope(&key) {
            Some(k) => {
                self.inner[k].get_mut(&key)
            },
            None => None,
        }
    }
}

} // verus!
