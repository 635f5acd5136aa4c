use vstd::prelude::*;
use crate::token::Token;

verus! {

/// The value bound to `name` in one scope's entries, whose names are distinct.
pub open spec fn entry_value(e: Seq<(String, String)>, name: Seq<char>) -> Option<Seq<char>>
    decreases e.len(),
{
    if e.len() == 0 {
        None
    } else if e.last().0@ == name {
        Some(e.last().1@)
    } else {
        entry_value(e.drop_last(), name)
    }
}

/// The value of `name` in a chain of scopes (innermost last): the innermost binding wins.
pub open spec fn chain_value(s: Seq<Seq<(String, String)>>, name: Seq<char>) -> Option<Seq<char>>
    decreases s.len(),
{
    if s.len() == 0 {
        None
    } else {
        match entry_value(s.last(), name) {
            Some(v) => Some(v),
            None => chain_value(s.drop_last(), name),
        }
    }
}

/// One scope's entries as a map from names to values.
pub open spec fn scope_map(e: Seq<(String, String)>) -> Map<Seq<char>, Seq<char>> {
    Map::new(|k: Seq<char>| entry_value(e, k) is Some, |k: Seq<char>| entry_value(e, k).unwrap())
}

pub open spec fn models_of(c: Seq<Seq<(String, String)>>) -> Seq<Map<Seq<char>, Seq<char>>> {
    Seq::new(c.len(), |i: int| scope_map(c[i]))
}

/// The value of `name` in a chain of scope maps (innermost last).
pub open spec fn model_value(m: Seq<Map<Seq<char>, Seq<char>>>, name: Seq<char>) -> Option<Seq<char>>
    decreases m.len(),
{
    if m.len() == 0 {
        None
    } else if m.last().contains_key(name) {
        Some(m.last()[name])
    } else {
        model_value(m.drop_last(), name)
    }
}

/// Binding `name` to `v` in the innermost scope.
pub open spec fn model_define(m: Seq<Map<Seq<char>, Seq<char>>>, name: Seq<char>, v: Seq<char>) -> Seq<Map<Seq<char>, Seq<char>>> {
    m.update(m.len() - 1, m.last().insert(name, v))
}

/// Rebinding `name` to `v` in the innermost scope that binds it; `None` when none does.
pub open spec fn model_assign(m: Seq<Map<Seq<char>, Seq<char>>>, name: Seq<char>, v: Seq<char>) -> Option<Seq<Map<Seq<char>, Seq<char>>>>
    decreases m.len(),
{
    if m.len() == 0 {
        None
    } else if m.last().contains_key(name) {
        Some(m.update(m.len() - 1, m.last().insert(name, v)))
    } else {
        match model_assign(m.drop_last(), name, v) {
            Some(m2) => Some(m2.push(m.last())),
            None => None,
        }
    }
}

proof fn lemma_model_value(c: Seq<Seq<(String, String)>>, n: Seq<char>)
    ensures
        chain_value(c, n) == model_value(models_of(c), n),
    decreases c.len(),
{
    if c.len() > 0 {
        assert(models_of(c).drop_last() =~= models_of(c.drop_last()));
        lemma_model_value(c.drop_last(), n);
    }
}

proof fn lemma_model_assign(m: Seq<Map<Seq<char>, Seq<char>>>, k: int, n: Seq<char>, v: Seq<char>)
    requires
        0 <= k < m.len(),
        m[k].contains_key(n),
        forall|j: int| k < j < m.len() ==> !m[j].contains_key(n),
    ensures
        model_assign(m, n, v) == Some(m.update(k, m[k].insert(n, v))),
    decreases m.len(),
{
    if k < m.len() - 1 {
        lemma_model_assign(m.drop_last(), k, n, v);
        assert(m.drop_last().update(k, m[k].insert(n, v)).push(m.last()) =~= m.update(k, m[k].insert(n, v)));
    }
}

proof fn lemma_model_assign_none(m: Seq<Map<Seq<char>, Seq<char>>>, n: Seq<char>, v: Seq<char>)
    requires
        forall|j: int| 0 <= j < m.len() ==> !m[j].contains_key(n),
    ensures
        model_assign(m, n, v) is None,
    decreases m.len(),
{
    if m.len() > 0 {
        lemma_model_assign_none(m.drop_last(), n, v);
    }
}

/// No two entries of a scope have the same name.
pub open spec fn distinct_names(e: Seq<(String, String)>) -> bool {
    forall|a: int, b: int| 0 <= a < b < e.len() ==> #[trigger] e[a].0@ != #[trigger] e[b].0@
}

/// Scopes from the global one (first) to the innermost (last); each maps names to
/// values, and a binding in an inner scope hides one of the same name further out.
pub struct Environment {
    scopes: Vec<Vec<(String, String)>>,
}

impl Environment {
    pub closed spec fn chain(&self) -> Seq<Seq<(String, String)>> {
        Seq::new(self.scopes@.len(), |i: int| self.scopes@[i]@)
    }

    /// The scopes as maps, the global one first.
    pub open spec fn model(&self) -> Seq<Map<Seq<char>, Seq<char>>> {
        models_of(self.chain())
    }

    /// What `name` is bound to, looking from the innermost scope outward.
    pub open spec fn value_of(&self, name: Seq<char>) -> Option<Seq<char>> {
        chain_value(self.chain(), name)
    }

    /// What `name` is bound to in the innermost scope alone.
    pub open spec fn local_value_of(&self, name: Seq<char>) -> Option<Seq<char>> {
        entry_value(self.chain().last(), name)
    }

    /// The number of nested scopes, the global one included.
    pub open spec fn depth(&self) -> nat {
        self.chain().len()
    }

    /// The chain without its innermost scope.
    pub open spec fn outer(&self) -> Seq<Seq<(String, String)>> {
        self.chain().drop_last()
    }

    pub open spec fn wf(&self) -> bool {
        &&& self.depth() >= 1
        &&& forall|i: int| 0 <= i < self.chain().len() ==> #[trigger] distinct_names(self.chain()[i])
    }

    /// A global scope with no bindings.
    pub fn new() -> (r: Environment)
        ensures
            r.wf(),
            r.depth() == 1,
            forall|n: Seq<char>| r.value_of(n) is None,
            r.model() == seq![Map::<Seq<char>, Seq<char>>::empty()],
    {
        let mut scopes: Vec<Vec<(String, String)>> = Vec::new();
        scopes.push(Vec::new());
        let r = Environment { scopes };
        assert(r.chain().last().len() == 0);
        assert forall|n: Seq<char>| r.value_of(n) is None by {
            assert(r.chain().drop_last().len() == 0);
            assert(entry_value(r.chain().last(), n) is None);
            reveal_with_fuel(chain_value, 2);
        }
        assert(scope_map(r.chain()[0]) =~= Map::<Seq<char>, Seq<char>>::empty());
        assert(r.model() =~= seq![Map::<Seq<char>, Seq<char>>::empty()]);
        r
    }

    /// A new empty scope inside `enclosing`.
    pub fn with_enclosing(enclosing: Environment) -> (r: Environment)
        requires
            enclosing.wf(),
        ensures
            r.depth() == enclosing.depth() + 1,
            r.outer() == enclosing.chain(),
            r.wf(),
            forall|n: Seq<char>| r.local_value_of(n) is None,
            forall|n: Seq<char>| r.value_of(n) == enclosing.value_of(n),
            r.model() == enclosing.model().push(Map::empty()),
    {
        let mut scopes = enclosing.scopes;
        scopes.push(Vec::new());
        let r = Environment { scopes };
        assert(r.chain().drop_last() =~= enclosing.chain());
        assert(scope_map(r.chain().last()) =~= Map::<Seq<char>, Seq<char>>::empty());
        assert(r.model() =~= enclosing.model().push(Map::empty()));
        assert forall|i: int| 0 <= i < r.chain().len() implies #[trigger] distinct_names(r.chain()[i]) by {
            if i < r.chain().len() - 1 {
                assert(r.chain()[i] == enclosing.chain()[i]);
            }
        }
        r
    }

    /// Leaves the innermost scope: its bindings are dropped.
    pub fn exit_scope(&mut self)
        requires
            old(self).wf(),
            old(self).depth() >= 2,
        ensures
            final(self).chain() == old(self).outer(),
            final(self).model() == old(self).model().drop_last(),
            final(self).wf(),
    {
        self.scopes.pop();
        assert(self.chain() =~= old(self).outer());
        assert(self.model() =~= old(self).model().drop_last());
    }

    /// Binds `name` to `value` in the innermost scope, replacing a binding of the same
    /// name there.
    pub fn define(&mut self, name: String, value: String)
        requires
            old(self).wf(),
        ensures
            final(self).wf(),
            final(self).depth() == old(self).depth(),
            final(self).outer() == old(self).outer(),
            final(self).value_of(name@) == Some(value@),
            final(self).local_value_of(name@) == Some(value@),
            forall|n: Seq<char>| n != name@ ==> final(self).value_of(n) == old(self).value_of(n),
            forall|n: Seq<char>| n != name@ ==> final(self).local_value_of(n) == old(self).local_value_of(n),
            final(self).model() == model_define(old(self).model(), name@, value@),
    {
        let last = self.scopes.len() - 1;
        let mut scope = Vec::new();
        core::mem::swap(&mut scope, &mut self.scopes[last]);
        let ghost before = scope@;
        let ghost key = name@;
        let ghost val = value@;
        match find_entry(&scope, &name) {
            Some(j) => {
                let ghost pair = (name, value);
                proof {
                    lemma_entry_update(before, j as int, key, pair);
                }
                scope.set(j, (name, value));
            },
            None => {
                scope.push((name, value));
                assert(scope@.drop_last() == before);
            },
        }
        assert(distinct_names(old(self).chain()[last as int]));
        assert(distinct_names(scope@));
        assert(entry_value(scope@, key) == Some(val));
        assert(forall|n: Seq<char>| n != key ==> entry_value(scope@, n) == entry_value(before, n));
        self.scopes.set(last, scope);
        assert(self.chain().drop_last() =~= old(self).chain().drop_last());
        assert(self.chain().last() == scope@);
        assert(scope_map(scope@) =~= scope_map(before).insert(key, val));
        assert(self.model() =~= model_define(old(self).model(), key, val));
        assert forall|i: int| 0 <= i < self.chain().len() implies #[trigger] distinct_names(self.chain()[i]) by {
            if i < last {
                assert(self.chain()[i] == old(self).chain()[i]);
            }
        }
    }

    /// The value of `name`, looking outward from the innermost scope; `None` when no
    /// scope binds it.
    pub fn get(&self, name: Token) -> (r: Option<String>)
        requires
            self.wf(),
        ensures
            match r {
                Some(v) => self.value_of(name.lexeme@) == Some(v@),
                None => self.value_of(name.lexeme@) is None,
            },
            match r {
                Some(v) => model_value(self.model(), name.lexeme@) == Some(v@),
                None => model_value(self.model(), name.lexeme@) is None,
            },
    {
        let mut i = self.scopes.len();
        assert(self.chain().subrange(0, i as int) =~= self.chain());
        while i > 0
            invariant
                i <= self.scopes@.len(),
                self.wf(),
                chain_value(self.chain(), name.lexeme@) == chain_value(self.chain().subrange(0, i as int), name.lexeme@),
            decreases i,
        {
            let ghost sub = self.chain().subrange(0, i as int);
            assert(sub.drop_last() =~= self.chain().subrange(0, i - 1));
            let found = lookup_entries(&self.scopes[i - 1], &name.lexeme);
            match found {
                Some(v) => {
                    proof {
                        lemma_model_value(self.chain(), name.lexeme@);
                    }
                    return Some(v);
                },
                None => {},
            }
            i = i - 1;
        }
        proof {
            lemma_model_value(self.chain(), name.lexeme@);
        }
        None
    }

    /// Replaces the value of `name` in the innermost scope that binds it; `None`, with
    /// nothing changed, when no scope binds it.
    pub fn assign(&mut self, name: Token, value: String) -> (r: Option<()>)
        requires
            old(self).wf(),
        ensures
            final(self).wf(),
            final(self).depth() == old(self).depth(),
            r is None <==> old(self).value_of(name.lexeme@) is None,
            r is None ==> final(self).chain() == old(self).chain(),
            r is Some ==> final(self).value_of(name.lexeme@) == Some(value@),
            forall|n: Seq<char>| n != name.lexeme@ ==> final(self).value_of(n) == old(self).value_of(n),
            match model_assign(old(self).model(), name.lexeme@, value@) {
                Some(m) => r is Some && final(self).model() == m,
                None => r is None && final(self).model() == old(self).model(),
            },
    {
        proof {
            lemma_model_value(self.chain(), name.lexeme@);
        }
        let mut i = self.scopes.len();
        assert(self.chain().subrange(0, i as int) =~= self.chain());
        while i > 0
            invariant
                i <= self.scopes@.len(),
                self.wf(),
                *self == *old(self),
                chain_value(self.chain(), name.lexeme@) == chain_value(self.chain().subrange(0, i as int), name.lexeme@),
                forall|j: int| i <= j < self.chain().len() ==> entry_value(self.chain()[j], name.lexeme@) is None,
            decreases i,
        {
            let ghost sub = self.chain().subrange(0, i as int);
            assert(sub.drop_last() =~= self.chain().subrange(0, i - 1));
            let found = find_entry(&self.scopes[i - 1], &name.lexeme);
            if let Some(j) = found {
                let k = i - 1;
                let mut scope = Vec::new();
                core::mem::swap(&mut scope, &mut self.scopes[k]);
                let ghost before = scope@;
                let ghost key = name.lexeme@;
                let ghost pair = (name.lexeme, value);
                proof {
                    lemma_entry_update(before, j as int, key, pair);
                }
                scope.set(j, (name.lexeme, value));
                assert(distinct_names(old(self).chain()[k as int]));
                assert forall|x: int| 0 <= x < scope@.len() implies #[trigger] scope@[x].0@ == before[x].0@ by {}
                assert(distinct_names(scope@));
                self.scopes.set(k, scope);
                assert forall|ii: int| 0 <= ii < self.chain().len() implies #[trigger] distinct_names(self.chain()[ii]) by {
                    if ii != k {
                        assert(self.chain()[ii] == old(self).chain()[ii]);
                    }
                }
                proof {
                    assert(self.chain() =~= old(self).chain().update(k as int, scope@));
                    lemma_chain_set(old(self).chain(), k as int, scope@, name.lexeme@);
                    assert(old(self).chain()[k as int] == before);
                    let m = old(self).model();
                    assert forall|jj: int| k < jj < m.len() implies !m[jj].contains_key(key) by {}
                    assert(m[k as int].contains_key(key));
                    lemma_model_assign(m, k as int, key, pair.1@);
                    assert(scope_map(scope@) =~= m[k as int].insert(key, pair.1@));
                    assert(self.model() =~= m.update(k as int, m[k as int].insert(key, pair.1@)));
                }
                return Some(());
            }
            i = i - 1;
        }
        assert(self.chain().subrange(0, 0) =~= seq![]);
        proof {
            let m = old(self).model();
            assert forall|jj: int| 0 <= jj < m.len() implies !m[jj].contains_key(name.lexeme@) by {}
            lemma_model_assign_none(m, name.lexeme@, value@);
        }
        None
    }
}

/// Leaving a block restores the bindings that held when it was entered: `inside` is the
/// environment within the block (its outer scopes are those of `before`, as
/// `with_enclosing` gives and `define` keeps), and `after` is what `exit_scope` leaves.
/// Whatever the block defined is then gone, and every name reads as it did before.
pub proof fn lemma_block_bindings_discarded(before: Environment, inside: Environment, after: Environment)
    requires
        inside.depth() >= 2,
        inside.outer() == before.chain(),
        after.chain() == inside.outer(),
    ensures
        forall|n: Seq<char>| #[trigger] after.value_of(n) == before.value_of(n),
{
}

/// Changing one scope `k`, which is the innermost to bind `name` before and after,
/// changes the chain's value of `name` to that scope's, and no other name but those
/// that scope's change touches.
proof fn lemma_chain_set(s: Seq<Seq<(String, String)>>, k: int, e: Seq<(String, String)>, name: Seq<char>)
    requires
        0 <= k < s.len(),
        entry_value(e, name) is Some,
        forall|j: int| k < j < s.len() ==> entry_value(s[j], name) is None,
    ensures
        chain_value(s.update(k, e), name) == entry_value(e, name),
        forall|n: Seq<char>| entry_value(e, n) == entry_value(s[k], n) ==> chain_value(s.update(k, e), n) == chain_value(s, n),
    decreases s.len(),
{
    if k == s.len() - 1 {
        assert(s.update(k, e).drop_last() =~= s.drop_last());
    } else {
        assert(s.update(k, e).drop_last() =~= s.drop_last().update(k, e));
        lemma_chain_set(s.drop_last(), k, e, name);
    }
}

/// Replacing the last entry for `k` changes what `k` reads and nothing else.
proof fn lemma_entry_update(e: Seq<(String, String)>, j: int, k: Seq<char>, pair: (String, String))
    requires
        0 <= j < e.len(),
        e[j].0@ == k,
        pair.0@ == k,
        forall|i: int| j < i < e.len() ==> e[i].0@ != k,
    ensures
        entry_value(e.update(j, pair), k) == Some(pair.1@),
        forall|n: Seq<char>| n != k ==> entry_value(e.update(j, pair), n) == entry_value(e, n),
    decreases e.len(),
{
    assert(e.update(j, pair).last() == e.update(j, pair)[e.len() - 1]);
    if j == e.len() - 1 {
        assert(e.update(j, pair).drop_last() =~= e.drop_last());
        assert(e.update(j, pair).last() == pair);
        assert(e.last() == e[j]);
        assert forall|n: Seq<char>| n != k implies entry_value(e.update(j, pair), n) == entry_value(e, n) by {
            assert(entry_value(e.update(j, pair), n) == entry_value(e.update(j, pair).drop_last(), n));
            assert(entry_value(e, n) == entry_value(e.drop_last(), n));
        }
    } else {
        assert(e.update(j, pair).drop_last() =~= e.drop_last().update(j, pair));
        assert(e.update(j, pair).last() == e.last());
        lemma_entry_update(e.drop_last(), j, k, pair);
        assert forall|n: Seq<char>| n != k implies entry_value(e.update(j, pair), n) == entry_value(e, n) by {
            if e.last().0@ != n {
                assert(entry_value(e.update(j, pair), n) == entry_value(e.update(j, pair).drop_last(), n));
                assert(entry_value(e, n) == entry_value(e.drop_last(), n));
            }
        }
    }
}

/// The position of the last entry for `name` in one scope.
fn find_entry(e: &Vec<(String, String)>, name: &String) -> (r: Option<usize>)
    ensures
        match r {
            Some(j) => j < e@.len() && e@[j as int].0@ == name@
                && entry_value(e@, name@) is Some
                && forall|i: int| j < i < e@.len() ==> e@[i].0@ != name@,
            None => entry_value(e@, name@) is None && forall|i: int| 0 <= i < e@.len() ==> e@[i].0@ != name@,
        },
{
    let mut i = e.len();
    assert(e@.subrange(0, i as int) =~= e@);
    while i > 0
        invariant
            i <= e@.len(),
            entry_value(e@, name@) == entry_value(e@.subrange(0, i as int), name@),
            forall|m: int| i <= m < e@.len() ==> e@[m].0@ != name@,
        decreases i,
    {
        let ghost sub = e@.subrange(0, i as int);
        assert(sub.drop_last() =~= e@.subrange(0, i - 1));
        if e[i - 1].0 == *name {
            return Some(i - 1);
        }
        i = i - 1;
    }
    None
}

/// The value bound to `name` in one scope.
fn lookup_entries(e: &Vec<(String, String)>, name: &String) -> (r: Option<String>)
    ensures
        match r {
            Some(v) => entry_value(e@, name@) == Some(v@),
            None => entry_value(e@, name@) is None,
        },
{
    let mut i = e.len();
    assert(e@.subrange(0, i as int) =~= e@);
    while i > 0
        invariant
            i <= e@.len(),
            entry_value(e@, name@) == entry_value(e@.subrange(0, i as int), name@),
        decreases i,
    {
        let ghost sub = e@.subrange(0, i as int);
        assert(sub.drop_last() =~= e@.subrange(0, i - 1));
        if e[i - 1].0 == *name {
            return Some(e[i - 1].1.clone());
        }
        i = i - 1;
    }
    None
}

} // verus!
