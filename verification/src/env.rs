//! The interpreter's environment: scopes that each may enclose in an older one,
//! and the values bound to names in them. A name is looked up in a scope and
//! then in the scopes that enclose it.
use vstd::prelude::*;

verus! {

/// The id of a scope: its place in the order in which scopes were begun.
pub type ScopeId = usize;

/// Scopes and the bindings made in them, each binding with the scope it is in.
pub struct Environment<V> {
    enclosing: Vec<Option<ScopeId>>,
    owners: Vec<ScopeId>,
    names: Vec<String>,
    values: Vec<V>,
}

/// The last binding before `k` of `name` in scope `s`, or -1.
pub open spec fn slot(owners: Seq<ScopeId>, names: Seq<String>, s: int, name: Seq<char>, k: int) -> int
    decreases k,
{
    if k <= 0 {
        -1
    } else if owners[k - 1] == s && names[k - 1]@ == name {
        k - 1
    } else {
        slot(owners, names, s, name, k - 1)
    }
}

/// The binding that `name` denotes in scope `s`: the last binding of it in `s`,
/// else the one it denotes in the scope that `s` encloses in; -1 for none.
pub open spec fn resolve(
    enclosing: Seq<Option<ScopeId>>,
    owners: Seq<ScopeId>,
    names: Seq<String>,
    s: int,
    name: Seq<char>,
) -> int
    decreases s,
{
    if !(0 <= s < enclosing.len()) {
        -1
    } else if slot(owners, names, s, name, names.len() as int) >= 0 {
        slot(owners, names, s, name, names.len() as int)
    } else {
        match enclosing[s] {
            Some(e) => if e < s {
                resolve(enclosing, owners, names, e as int, name)
            } else {
                -1
            },
            None => -1,
        }
    }
}

impl<V> Environment<V> {
    /// Each scope encloses in an older one, and every binding is in a scope.
    pub closed spec fn wf(&self) -> bool {
        &&& self.enclosing.len() > 0
        &&& self.owners.len() == self.names.len()
        &&& self.names.len() == self.values.len()
        &&& forall|i: int| 0 <= i < self.enclosing.len() ==> (#[trigger] self.enclosing@[i] matches Some(e) ==> e < i)
        &&& forall|k: int| 0 <= k < self.owners.len() ==> #[trigger] self.owners@[k] < self.enclosing.len()
    }

    /// The number of scopes begun.
    pub closed spec fn scope_count(&self) -> nat {
        self.enclosing@.len()
    }

    /// The scope that scope `s` encloses in, if any.
    pub closed spec fn enclosing_of(&self, s: int) -> Option<ScopeId> {
        self.enclosing@[s]
    }

    /// Whether scope `s` itself binds `name`.
    pub closed spec fn binds(&self, s: int, name: Seq<char>) -> bool {
        slot(self.owners@, self.names@, s, name, self.names.len() as int) >= 0
    }

    /// What `name` denotes in scope `s`: its binding there, else in the scope
    /// that `s` encloses in, and so on.
    pub closed spec fn lookup(&self, s: int, name: Seq<char>) -> Option<V> {
        let k = resolve(self.enclosing@, self.owners@, self.names@, s, name);
        if 0 <= k < self.values.len() {
            Some(self.values@[k])
        } else {
            None
        }
    }

    /// An environment with one scope, the global one (id 0), and no binding.
    pub fn new() -> (env: Self)
        ensures
            env.wf(),
            env.scope_count() == 1,
            env.enclosing_of(0) is None,
            forall|s: int, n: Seq<char>| #[trigger] env.lookup(s, n) is None,
    {
        Environment { enclosing: vec![None], owners: Vec::new(), names: Vec::new(), values: Vec::new() }
    }

    /// Begins a scope that encloses in `enclosing`, and gives its id.
    pub fn begin_scope(&mut self, enclosing: ScopeId) -> (id: ScopeId)
        requires
            old(self).wf(),
            enclosing < old(self).scope_count(),
        ensures
            final(self).wf(),
            id == old(self).scope_count(),
            final(self).scope_count() == old(self).scope_count() + 1,
            final(self).enclosing_of(id as int) == Some(enclosing),
            forall|s: int, n: Seq<char>| 0 <= s < id ==> #[trigger] final(self).lookup(s, n) == old(self).lookup(s, n),
            forall|n: Seq<char>| #[trigger] final(self).lookup(id as int, n) == old(self).lookup(enclosing as int, n),
    {
        let id = self.enclosing.len();
        self.enclosing.push(Some(enclosing));
        proof {
            assert forall|s: int, n: Seq<char>| 0 <= s < id implies #[trigger] self.lookup(s, n) == old(self).lookup(s, n) by {
                lemma_resolve_older(old(self).enclosing@, self.enclosing@, self.owners@, self.names@, s, n);
            }
            assert forall|n: Seq<char>| #[trigger] self.lookup(id as int, n) == old(self).lookup(enclosing as int, n) by {
                lemma_slot_none(self.owners@, self.names@, id as int, n, self.names.len() as int);
                lemma_resolve_older(old(self).enclosing@, self.enclosing@, self.owners@, self.names@, enclosing as int, n);
            }
        }
        id
    }

    /// The value bound to `name` as seen from scope `s`, if any.
    pub fn get(&self, s: ScopeId, name: &String) -> (r: Option<&V>)
        requires
            self.wf(),
            s < self.scope_count(),
        ensures
            match self.lookup(s as int, name@) {
                Some(v) => r == Some(&v),
                None => r is None,
            },
    {
        match self.resolve_exec(s, name) {
            Some(k) => Some(&self.values[k]),
            None => None,
        }
    }

    /// Binds `name` to `value` in scope `s`, where `s` does not bind it yet.
    pub fn define(&mut self, s: ScopeId, name: String, value: V)
        requires
            old(self).wf(),
            s < old(self).scope_count(),
            !old(self).binds(s as int, name@),
        ensures
            final(self).wf(),
            final(self).scope_count() == old(self).scope_count(),
            forall|t: int| #[trigger] final(self).enclosing_of(t) == old(self).enclosing_of(t),
            final(self).binds(s as int, name@),
            final(self).lookup(s as int, name@) == Some(value),
            forall|t: int, n: Seq<char>| 0 <= t < s ==> #[trigger] final(self).lookup(t, n) == old(self).lookup(t, n),
            forall|t: int, n: Seq<char>| n != name@ ==> #[trigger] final(self).lookup(t, n) == old(self).lookup(t, n),
    {
        let ghost o0 = self.owners@;
        let ghost n0 = self.names@;
        let ghost key = name@;
        self.owners.push(s);
        self.names.push(name);
        self.values.push(value);
        proof {
            let len = n0.len() as int;
            assert(slot(self.owners@, self.names@, s as int, key, len + 1) == len);
            assert forall|t: int, n: Seq<char>| 0 <= t < s || n != key implies #[trigger] resolve(
                self.enclosing@,
                self.owners@,
                self.names@,
                t,
                n,
            ) == resolve(self.enclosing@, o0, n0, t, n) by {
                lemma_resolve_define(self.enclosing@, o0, n0, self.owners@, self.names@, s, key, t, n);
            }
            assert forall|t: int, n: Seq<char>| 0 <= t < s || n != key implies #[trigger] self.lookup(t, n) == old(self).lookup(t, n) by {
                lemma_resolve_bounds(self.enclosing@, o0, n0, t, n);
                let k = resolve(self.enclosing@, o0, n0, t, n);
                if 0 <= k < len {
                    assert(self.values@[k] == old(self).values@[k]);
                }
            }
        }
    }

    /// Rebinds `name` to `value` where scope `s` sees a binding of it, and says
    /// whether it did; where `s` sees none, nothing changes.
    pub fn assign(&mut self, s: ScopeId, name: &String, value: V) -> (r: bool)
        requires
            old(self).wf(),
            s < old(self).scope_count(),
        ensures
            final(self).wf(),
            final(self).scope_count() == old(self).scope_count(),
            forall|t: int| #[trigger] final(self).enclosing_of(t) == old(self).enclosing_of(t),
            r == (old(self).lookup(s as int, name@) is Some),
            r ==> final(self).lookup(s as int, name@) == Some(value),
            forall|t: int, n: Seq<char>| n != name@ ==> #[trigger] final(self).lookup(t, n) == old(self).lookup(t, n),
            forall|t: int, n: Seq<char>| !r ==> #[trigger] final(self).lookup(t, n) == old(self).lookup(t, n),
    {
        match self.resolve_exec(s, name) {
            Some(k) => {
                self.values.set(k, value);
                proof {
                    assert forall|t: int, n: Seq<char>| n != name@ implies #[trigger] self.lookup(t, n) == old(self).lookup(t, n) by {
                        lemma_resolve_bounds(self.enclosing@, self.owners@, self.names@, t, n);
                        lemma_resolve_names(self.enclosing@, self.owners@, self.names@, t, n);
                        lemma_resolve_names(self.enclosing@, self.owners@, self.names@, s as int, name@);
                    }
                }
                true
            },
            None => false,
        }
    }

    /// The binding that `name` denotes in scope `s`, found as `resolve` says.
    fn resolve_exec(&self, s: ScopeId, name: &String) -> (r: Option<usize>)
        requires
            self.wf(),
            s < self.scope_count(),
        ensures
            match r {
                Some(k) => k < self.values.len() && k as int == resolve(self.enclosing@, self.owners@, self.names@, s as int, name@),
                None => resolve(self.enclosing@, self.owners@, self.names@, s as int, name@) == -1,
            },
    {
        let mut cur = s;
        loop
            invariant
                self.wf(),
                cur < self.enclosing.len(),
                resolve(self.enclosing@, self.owners@, self.names@, s as int, name@) == resolve(
                    self.enclosing@,
                    self.owners@,
                    self.names@,
                    cur as int,
                    name@,
                ),
            decreases cur,
        {
            match self.find(cur, name) {
                Some(k) => {
                    return Some(k);
                },
                None => {},
            }
            assert(self.enclosing@[cur as int] matches Some(e) ==> e < cur);
            match self.enclosing[cur] {
                Some(e) => {
                    cur = e;
                },
                None => {
                    return None;
                },
            }
        }
    }

    /// The last binding of `name` in scope `s` itself.
    fn find(&self, s: ScopeId, name: &String) -> (r: Option<usize>)
        requires
            self.wf(),
        ensures
            match r {
                Some(k) => k < self.values.len() && k as int == slot(
                    self.owners@,
                    self.names@,
                    s as int,
                    name@,
                    self.names.len() as int,
                ),
                None => slot(self.owners@, self.names@, s as int, name@, self.names.len() as int) == -1,
            },
    {
        let mut k = self.names.len();
        while k > 0
            invariant
                self.wf(),
                k <= self.names.len(),
                slot(self.owners@, self.names@, s as int, name@, self.names.len() as int) == slot(
                    self.owners@,
                    self.names@,
                    s as int,
                    name@,
                    k as int,
                ),
            decreases k,
        {
            if self.owners[k - 1] == s && self.names[k - 1] == *name {
                return Some(k - 1);
            }
            k -= 1;
        }
        None
    }
}

proof fn lemma_slot_none(owners: Seq<ScopeId>, names: Seq<String>, s: int, n: Seq<char>, k: int)
    requires
        forall|j: int| 0 <= j < k ==> owners[j] != s,
    ensures
        slot(owners, names, s, n, k) == -1,
    decreases k,
{
    if k > 0 {
        lemma_slot_none(owners, names, s, n, k - 1);
    }
}

proof fn lemma_slot_bounds(owners: Seq<ScopeId>, names: Seq<String>, s: int, n: Seq<char>, k: int)
    requires
        0 <= k <= owners.len(),
        k <= names.len(),
    ensures
        -1 <= slot(owners, names, s, n, k) < k,
        slot(owners, names, s, n, k) >= 0 ==> names[slot(owners, names, s, n, k)]@ == n,
    decreases k,
{
    if k > 0 {
        lemma_slot_bounds(owners, names, s, n, k - 1);
    }
}

/// A binding is of the name it is found for, and lies within the bindings.
proof fn lemma_resolve_bounds(enc: Seq<Option<ScopeId>>, owners: Seq<ScopeId>, names: Seq<String>, s: int, n: Seq<char>)
    requires
        owners.len() == names.len(),
    ensures
        -1 <= resolve(enc, owners, names, s, n) < names.len(),
    decreases s,
{
    lemma_slot_bounds(owners, names, s, n, names.len() as int);
    if 0 <= s < enc.len() {
        if let Some(e) = enc[s] {
            if e < s {
                lemma_resolve_bounds(enc, owners, names, e as int, n);
            }
        }
    }
}

proof fn lemma_resolve_names(enc: Seq<Option<ScopeId>>, owners: Seq<ScopeId>, names: Seq<String>, s: int, n: Seq<char>)
    requires
        owners.len() == names.len(),
    ensures
        resolve(enc, owners, names, s, n) >= 0 ==> names[resolve(enc, owners, names, s, n)]@ == n,
    decreases s,
{
    lemma_slot_bounds(owners, names, s, n, names.len() as int);
    if 0 <= s < enc.len() {
        if let Some(e) = enc[s] {
            if e < s {
                lemma_resolve_names(enc, owners, names, e as int, n);
            }
        }
    }
}

/// Bindings that agree on their first `k` entries find the same binding among them.
proof fn lemma_slot_agree(
    o1: Seq<ScopeId>,
    n1: Seq<String>,
    o2: Seq<ScopeId>,
    n2: Seq<String>,
    s: int,
    n: Seq<char>,
    k: int,
)
    requires
        0 <= k <= o1.len(),
        k <= o2.len(),
        k <= n1.len(),
        k <= n2.len(),
        forall|j: int| 0 <= j < k ==> o1[j] == o2[j] && n1[j]@ == n2[j]@,
    ensures
        slot(o1, n1, s, n, k) == slot(o2, n2, s, n, k),
    decreases k,
{
    if k > 0 {
        lemma_slot_agree(o1, n1, o2, n2, s, n, k - 1);
    }
}

/// Adding a scope keeps what every older scope denotes.
proof fn lemma_resolve_older(
    enc: Seq<Option<ScopeId>>,
    enc2: Seq<Option<ScopeId>>,
    owners: Seq<ScopeId>,
    names: Seq<String>,
    s: int,
    n: Seq<char>,
)
    requires
        enc2.len() == enc.len() + 1,
        forall|i: int| 0 <= i < enc.len() ==> enc2[i] == enc[i],
        0 <= s < enc.len(),
    ensures
        resolve(enc2, owners, names, s, n) == resolve(enc, owners, names, s, n),
    decreases s,
{
    if let Some(e) = enc[s] {
        if e < s {
            lemma_resolve_older(enc, enc2, owners, names, e as int, n);
        }
    }
}

/// A binding added last, of `key` in scope `d`, changes what `n` denotes in `t`
/// only where `t` is `d` or newer and `n` is `key`.
proof fn lemma_resolve_define(
    enc: Seq<Option<ScopeId>>,
    o1: Seq<ScopeId>,
    n1: Seq<String>,
    o2: Seq<ScopeId>,
    n2: Seq<String>,
    d: ScopeId,
    key: Seq<char>,
    t: int,
    n: Seq<char>,
)
    requires
        o1.len() == n1.len(),
        o2 == o1.push(d),
        n2.len() == n1.len() + 1,
        forall|j: int| 0 <= j < n1.len() ==> n1[j]@ == n2[j]@,
        n2.last()@ == key,
        forall|i: int| 0 <= i < enc.len() ==> (#[trigger] enc[i] matches Some(e) ==> e < i),
        t < d || n != key,
    ensures
        resolve(enc, o2, n2, t, n) == resolve(enc, o1, n1, t, n),
    decreases t,
{
    let len = n1.len() as int;
    lemma_slot_agree(o1, n1, o2, n2, t, n, len);
    assert(slot(o2, n2, t, n, len + 1) == slot(o2, n2, t, n, len));
    if 0 <= t < enc.len() {
        if let Some(e) = enc[t] {
            if e < t {
                lemma_resolve_define(enc, o1, n1, o2, n2, d, key, e as int, n);
            }
        }
    }
}

} // verus!
