//! Scopes: bindings from names to values, each scope linked to the one it was opened in.
//! Scopes live in one arena and refer to their enclosing scope by index, so a closure
//! keeps its defining scope reachable after the block that opened it has finished. Scopes
//! are never removed: the arena grows with every block and call evaluated.
use vstd::prelude::*;
use crate::object::{EvalError, Object, Value};
use crate::text::same_text;

verus! {

/// One scope: its own bindings (names unique) and the scope it was opened in.
#[derive(Debug)]
pub struct Scope {
    pub store: Vec<(String, Object)>,
    pub outer: Option<usize>,
}

/// All scopes made so far; scope 0 is the outermost one.
#[derive(Debug)]
pub struct Environment {
    pub scopes: Vec<Scope>,
}

/// The value bound to `name` among `store`'s own bindings.
pub open spec fn binding_in(store: Seq<(String, Object)>, name: Seq<char>) -> Option<Value>
    decreases store.len(),
{
    if store.len() == 0 {
        None
    } else if store[0].0@ == name {
        Some(store[0].1.model())
    } else {
        binding_in(store.drop_first(), name)
    }
}

/// The value that `name` has in scope `s`: its own binding, else the one its enclosing
/// scope gives.
pub open spec fn lookup(scopes: Seq<Scope>, s: int, name: Seq<char>) -> Option<Value>
    decreases s,
{
    if 0 <= s < scopes.len() {
        match binding_in(scopes[s].store@, name) {
            Some(v) => Some(v),
            None => match scopes[s].outer {
                Some(o) => if 0 <= o < s {
                    lookup(scopes, o as int, name)
                } else {
                    None
                },
                None => None,
            },
        }
    } else {
        None
    }
}

/// What a scope means to evaluation: its bindings as a map, and its enclosing scope.
pub struct ScopeView {
    pub bindings: Map<Seq<char>, Value>,
    pub outer: Option<usize>,
}

/// The bindings of a store as a map from names to values.
pub open spec fn bindings_map(store: Seq<(String, Object)>) -> Map<Seq<char>, Value> {
    Map::new(|n: Seq<char>| binding_in(store, n) is Some, |n: Seq<char>| binding_in(store, n)->0)
}

pub open spec fn scope_view(s: Scope) -> ScopeView {
    ScopeView { bindings: bindings_map(s.store@), outer: s.outer }
}

pub open spec fn scopes_view(scopes: Seq<Scope>) -> Seq<ScopeView> {
    scopes.map_values(|s: Scope| scope_view(s))
}

/// The value that `name` has in scope `s` of the viewed scopes.
pub open spec fn lookup_view(vs: Seq<ScopeView>, s: int, name: Seq<char>) -> Option<Value>
    decreases s,
{
    if 0 <= s < vs.len() {
        if vs[s].bindings.contains_key(name) {
            Some(vs[s].bindings[name])
        } else {
            match vs[s].outer {
                Some(o) => if 0 <= o < s {
                    lookup_view(vs, o as int, name)
                } else {
                    None
                },
                None => None,
            }
        }
    } else {
        None
    }
}

/// The viewed scopes with `name` bound to `v` in scope `scope`.
pub open spec fn rebind_view(vs: Seq<ScopeView>, scope: int, name: Seq<char>, v: Value) -> Seq<
    ScopeView,
> {
    vs.update(scope, ScopeView { bindings: vs[scope].bindings.insert(name, v), outer: vs[scope].outer })
}

/// Looking a name up in scopes and in their view agree.
pub proof fn lemma_lookup_view(scopes: Seq<Scope>, s: int, name: Seq<char>)
    ensures
        lookup(scopes, s, name) == lookup_view(scopes_view(scopes), s, name),
    decreases s,
{
    if 0 <= s < scopes.len() {
        match scopes[s].outer {
            Some(o) => if 0 <= o < s {
                lemma_lookup_view(scopes, o as int, name);
            },
            None => {},
        }
    }
}

proof fn lemma_rebinds_view(before: Seq<Scope>, after: Seq<Scope>, scope: int, name: Seq<char>, v: Value)
    requires
        rebinds(before, after, scope, name, v),
    ensures
        scopes_view(after) == rebind_view(scopes_view(before), scope, name, v),
{
    let b = bindings_map(after[scope].store@);
    assert(b =~= scopes_view(before)[scope].bindings.insert(name, v));
    assert(scopes_view(after) =~= rebind_view(scopes_view(before), scope, name, v));
}

/// Every scope encloses only scopes made before it.
pub open spec fn scopes_wf(scopes: Seq<Scope>) -> bool {
    forall|i: int|
        0 <= i < scopes.len() ==> match (#[trigger] scopes[i]).outer {
            Some(o) => o < i,
            None => true,
        }
}

proof fn lemma_binding_push(s: Seq<(String, Object)>, p: (String, Object), n: Seq<char>)
    ensures
        binding_in(s.push(p), n) == match binding_in(s, n) {
            Some(v) => Some(v),
            None => if p.0@ == n {
                Some(p.1.model())
            } else {
                None
            },
        },
    decreases s.len(),
{
    let t = s.push(p);
    if s.len() > 0 {
        assert(t[0] == s[0]);
        assert(t.drop_first() =~= s.drop_first().push(p));
        lemma_binding_push(s.drop_first(), p, n);
        if s[0].0@ == n {
            assert(binding_in(t, n) == Some(s[0].1.model()));
        } else {
            assert(binding_in(t, n) == binding_in(t.drop_first(), n));
        }
    } else {
        assert(t[0] == p);
        assert(t.drop_first() =~= Seq::<(String, Object)>::empty());
        assert(binding_in(t.drop_first(), n) is None);
        assert(binding_in(s, n) is None);
    }
}

proof fn lemma_binding_update(s: Seq<(String, Object)>, k: int, p: (String, Object), n: Seq<char>)
    requires
        0 <= k < s.len(),
        s[k].0@ == p.0@,
        forall|j: int| 0 <= j < k ==> (#[trigger] s[j]).0@ != p.0@,
    ensures
        binding_in(s.update(k, p), n) == if n == p.0@ {
            Some(p.1.model())
        } else {
            binding_in(s, n)
        },
    decreases s.len(),
{
    if k == 0 {
        assert(s.update(k, p).drop_first() =~= s.drop_first());
    } else {
        assert(s.update(k, p).drop_first() =~= s.drop_first().update(k - 1, p));
        assert(s[0].0@ != p.0@);
        lemma_binding_update(s.drop_first(), k - 1, p, n);
    }
}

impl Scope {
    /// Binds `name` to `value` here, replacing a binding of the same name.
    pub fn bind(&mut self, name: String, value: Object)
        ensures
            final(self).outer == old(self).outer,
            binding_in(final(self).store@, name@) == Some(value.model()),
            forall|n: Seq<char>|
                n != name@ ==> binding_in(final(self).store@, n) == binding_in(
                    old(self).store@,
                    n,
                ),
    {
        let mut k: usize = 0;
        while k < self.store.len()
            invariant
                k <= self.store@.len(),
                forall|j: int| 0 <= j < k ==> (#[trigger] self.store@[j]).0@ != name@,
            ensures
                k <= self.store@.len(),
                forall|j: int| 0 <= j < k ==> (#[trigger] self.store@[j]).0@ != name@,
                k < self.store@.len() ==> self.store@[k as int].0@ == name@,
            decreases self.store@.len() - k,
        {
            if self.store[k].0 == name {
                break;
            }
            k += 1;
        }
        let ghost before = self.store@;
        let ghost entry = (name, value);
        if k < self.store.len() {
            self.store.set(k, (name, value));
            proof {
                assert forall|n: Seq<char>| #[trigger] binding_in(self.store@, n) == (if n == name@ {
                    Some(value.model())
                } else {
                    binding_in(before, n)
                }) by {
                    lemma_binding_update(before, k as int, entry, n);
                }
            }
        } else {
            self.store.push((name, value));
            proof {
                assert forall|n: Seq<char>| #[trigger] binding_in(self.store@, n) == (if n == name@ {
                    Some(value.model())
                } else {
                    binding_in(before, n)
                }) by {
                    lemma_binding_push(before, entry, n);
                    lemma_binding_absent(before, name@);
                }
            }
        }
    }
}

proof fn lemma_binding_absent(s: Seq<(String, Object)>, n: Seq<char>)
    requires
        forall|j: int| 0 <= j < s.len() ==> (#[trigger] s[j]).0@ != n,
    ensures
        binding_in(s, n) is None,
    decreases s.len(),
{
    if s.len() > 0 {
        lemma_binding_absent(s.drop_first(), n);
    }
}

/// `after` is `before` with `name` bound to `v` in scope `scope` itself: the other
/// names of that scope, its link outward and every other scope are as they were.
pub open spec fn rebinds(
    before: Seq<Scope>,
    after: Seq<Scope>,
    scope: int,
    name: Seq<char>,
    v: Value,
) -> bool {
    &&& 0 <= scope < before.len()
    &&& after.len() == before.len()
    &&& after[scope].outer == before[scope].outer
    &&& binding_in(after[scope].store@, name) == Some(v)
    &&& forall|n: Seq<char>|
        n != name ==> binding_in(after[scope].store@, n) == binding_in(before[scope].store@, n)
    &&& forall|i: int| 0 <= i < after.len() && i != scope ==> after[i] == before[i]
}

/// A scope sees only itself and scopes made before it.
proof fn lemma_lookup_below(before: Seq<Scope>, after: Seq<Scope>, s: int, changed: int, name: Seq<char>)
    requires
        scopes_wf(before),
        after.len() == before.len(),
        0 <= s < changed,
        forall|i: int| 0 <= i < after.len() && i != changed ==> after[i] == before[i],
    ensures
        lookup(after, s, name) == lookup(before, s, name),
    decreases s,
{
    if s < before.len() {
        assert(after[s] == before[s]);
        match before[s].outer {
            Some(o) => {
                if 0 <= o < s {
                    lemma_lookup_below(before, after, o as int, changed, name);
                }
            },
            None => {},
        }
    }
}

/// Shadowing: binding a name in a scope makes the scope see the new value, and every
/// scope made before it, the enclosing ones among them, still sees what it saw.
pub proof fn law_binding_shadows(
    before: Seq<Scope>,
    after: Seq<Scope>,
    scope: int,
    name: Seq<char>,
    v: Value,
)
    requires
        scopes_wf(before),
        rebinds(before, after, scope, name, v),
    ensures
        lookup(after, scope, name) == Some(v),
        forall|s: int, n: Seq<char>|
            0 <= s < scope ==> #[trigger] lookup(after, s, n) == lookup(before, s, n),
{
    assert forall|s: int, n: Seq<char>| 0 <= s < scope implies #[trigger] lookup(after, s, n)
        == lookup(before, s, n) by {
        lemma_lookup_below(before, after, s, scope, n);
    }
}

impl Environment {
    pub open spec fn wf(&self) -> bool {
        &&& self.scopes@.len() > 0
        &&& scopes_wf(self.scopes@)
    }

    /// The value that `name` has in scope `s`.
    pub open spec fn value_of(&self, s: int, name: Seq<char>) -> Option<Value> {
        lookup(self.scopes@, s, name)
    }

    /// An environment holding one empty outermost scope.
    pub fn new() -> (r: Environment)
        ensures
            r.wf(),
            r.scopes@.len() == 1,
            r.scopes@[0].outer is None,
            r.scopes@[0].store@.len() == 0,
    {
        let mut scopes: Vec<Scope> = Vec::new();
        scopes.push(Scope { store: Vec::new(), outer: None });
        Environment { scopes }
    }

    /// Looks `name` up in scope `scope`, then in the scopes enclosing it.
    pub fn get(&self, scope: usize, name: &str) -> (r: Result<Object, EvalError>)
        requires
            self.wf(),
        ensures
            match self.value_of(scope as int, name@) {
                Some(v) => r matches Ok(o) && o.model() == v,
                None => r matches Err(EvalError::IdentifierNotFound(n)) && n@ == name@,
            },
    {
        let mut s = scope;
        loop
            invariant
                self.wf(),
                self.value_of(s as int, name@) == self.value_of(scope as int, name@),
            decreases s,
        {
            if s >= self.scopes.len() {
                return Err(EvalError::IdentifierNotFound(String::from_str(name)));
            }
            let store = &self.scopes[s].store;
            let mut i: usize = 0;
            assert(store@.subrange(0, store@.len() as int) =~= store@);
            while i < store.len()
                invariant
                    self.wf(),
                    s < self.scopes@.len(),
                    *store == self.scopes@[s as int].store,
                    self.value_of(s as int, name@) == self.value_of(scope as int, name@),
                    i <= store@.len(),
                    binding_in(store@, name@) == binding_in(store@.subrange(i as int, store@.len() as int), name@),
                decreases store@.len() - i,
            {
                if same_text(store[i].0.as_str(), name) {
                    assert(store@.subrange(i as int, store@.len() as int)[0] == store@[i as int]);
                    return Ok(store[i].1.duplicate());
                }
                assert(store@.subrange(i as int, store@.len() as int).drop_first() =~= store@.subrange(i + 1, store@.len() as int));
                i += 1;
            }
            assert(store@.subrange(i as int, store@.len() as int) =~= Seq::<(String, Object)>::empty());
            match self.scopes[s].outer {
                Some(o) => {
                    assert(o < s);
                    s = o;
                },
                None => {
                    return Err(EvalError::IdentifierNotFound(String::from_str(name)));
                },
            }
        }
    }

    /// Binds `name` to `value` in scope `scope` itself, replacing a binding of the same
    /// name there; enclosing scopes are never changed.
    pub fn set(&mut self, scope: usize, name: String, value: Object)
        requires
            old(self).wf(),
            scope < old(self).scopes@.len(),
        ensures
            final(self).wf(),
            rebinds(old(self).scopes@, final(self).scopes@, scope as int, name@, value.model()),
            scopes_view(final(self).scopes@) == rebind_view(
                scopes_view(old(self).scopes@),
                scope as int,
                name@,
                value.model(),
            ),
    {
        let ghost nm = name@;
        let ghost v = value.model();
        self.scopes[scope].bind(name, value);
        assert(scopes_wf(self.scopes@));
        proof {
            lemma_rebinds_view(old(self).scopes@, self.scopes@, scope as int, nm, v);
        }
    }

    /// Opens a new, empty scope inside scope `outer` and gives its index.
    pub fn enclose(&mut self, outer: usize) -> (r: usize)
        requires
            old(self).wf(),
            outer < old(self).scopes@.len(),
        ensures
            final(self).wf(),
            r == old(self).scopes@.len(),
            final(self).scopes@ == old(self).scopes@.push(final(self).scopes@[r as int]),
            final(self).scopes@[r as int].outer == Some(outer),
            final(self).scopes@[r as int].store@.len() == 0,
            scopes_view(final(self).scopes@) == scopes_view(old(self).scopes@).push(
                ScopeView { bindings: Map::empty(), outer: Some(outer) },
            ),
    {
        let r = self.scopes.len();
        self.scopes.push(Scope { store: Vec::new(), outer: Some(outer) });
        proof {
            let last = self.scopes@[r as int];
            assert(bindings_map(last.store@) =~= Map::<Seq<char>, Value>::empty());
            assert(scopes_view(self.scopes@) =~= scopes_view(old(self).scopes@).push(
                ScopeView { bindings: Map::empty(), outer: Some(outer) },
            ));
        }
        r
    }
}

} // verus!
