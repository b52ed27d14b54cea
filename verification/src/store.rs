//! A name-keyed lookup store with optional fallback chaining: a miss in this
//! store defers to its parent store before failing. Writes to a name that
//! the parent already holds at its own level are forwarded to the parent.

use vstd::prelude::*;
use vstd::string::StringExecFns;
use crate::types::Type;

verus! {

/// First binding for `key` in an association list, scanning from the front.
pub open spec fn assoc<C>(entries: Seq<(String, C)>, key: Seq<char>) -> Option<C>
    decreases entries.len(),
{
    if entries.len() == 0 {
        None
    } else if entries[0].0@ == key {
        Some(entries[0].1)
    } else {
        assoc(entries.drop_first(), key)
    }
}

/// The bindings of one association list as a map.
pub open spec fn assoc_map<C>(entries: Seq<(String, C)>) -> Map<Seq<char>, C> {
    Map::new(|k: Seq<char>| assoc(entries, k) is Some, |k: Seq<char>| assoc(entries, k)->0)
}

/// A keyed store of `Content`, with an optional parent store consulted on a
/// lookup miss.
pub struct Store<Content> {
    entries: Vec<(String, Content)>,
    fallback: Option<Box<Store<Content>>>,
}

/// Lookup across a chain of per-level binding maps: the first level that
/// holds the key answers.
pub open spec fn chain_lookup<C>(levels: Seq<Map<Seq<char>, C>>, key: Seq<char>) -> Option<C>
    decreases levels.len(),
{
    if levels.len() == 0 {
        None
    } else if levels[0].dom().contains(key) {
        Some(levels[0][key])
    } else {
        chain_lookup(levels.drop_first(), key)
    }
}

/// The level a write of `key` lands in: the store itself, unless the parent
/// one step down already holds the key at its own level.
pub open spec fn write_level<C>(levels: Seq<Map<Seq<char>, C>>, key: Seq<char>) -> int
    decreases levels.len(),
{
    if levels.len() <= 1 || !levels[1].dom().contains(key) {
        0
    } else {
        1 + write_level(levels.drop_first(), key)
    }
}

/// The own-level bindings after a list of pairs is inserted in order.
pub open spec fn insert_all<C>(m: Map<Seq<char>, C>, kvs: Seq<(String, C)>) -> Map<Seq<char>, C>
    decreases kvs.len(),
{
    if kvs.len() == 0 {
        m
    } else {
        insert_all(m.insert(kvs[0].0@, kvs[0].1), kvs.drop_first())
    }
}

/// A store's level chain is never empty: its own level is always there.
pub proof fn lemma_levels_nonempty<C>(s: Store<C>)
    ensures
        s.levels().len() >= 1,
    decreases s,
{
}

/// A write always lands inside the chain.
pub proof fn lemma_write_level_bounds<C>(levels: Seq<Map<Seq<char>, C>>, key: Seq<char>)
    requires
        levels.len() >= 1,
    ensures
        0 <= write_level(levels, key) < levels.len(),
    decreases levels.len(),
{
    if !(levels.len() <= 1 || !levels[1].dom().contains(key)) {
        lemma_write_level_bounds(levels.drop_first(), key);
    }
}

proof fn lemma_assoc_found<C>(e: Seq<(String, C)>, key: Seq<char>, i: int)
    requires
        0 <= i < e.len(),
        e[i].0@ == key,
        forall|j: int| 0 <= j < i ==> e[j].0@ != key,
    ensures
        assoc(e, key) == Some(e[i].1),
    decreases i,
{
    if i > 0 {
        let u = e.drop_first();
        assert forall|j: int| 0 <= j < i - 1 implies u[j].0@ != key by {
            assert(u[j] == e[j + 1]);
        }
        assert(u[i - 1] == e[i]);
        lemma_assoc_found(u, key, i - 1);
    }
}

proof fn lemma_assoc_missing<C>(e: Seq<(String, C)>, key: Seq<char>)
    requires
        forall|j: int| 0 <= j < e.len() ==> e[j].0@ != key,
    ensures
        assoc(e, key) is None,
    decreases e.len(),
{
    if e.len() > 0 {
        let u = e.drop_first();
        assert forall|j: int| 0 <= j < u.len() implies u[j].0@ != key by {
            assert(u[j] == e[j + 1]);
        }
        lemma_assoc_missing(u, key);
    }
}

proof fn lemma_assoc_update<C>(e: Seq<(String, C)>, i: int, p: (String, C), k2: Seq<char>)
    requires
        0 <= i < e.len(),
        e[i].0@ == p.0@,
        forall|j: int| 0 <= j < i ==> e[j].0@ != p.0@,
    ensures
        assoc(e.update(i, p), k2) == (if k2 == p.0@ {
            Some(p.1)
        } else {
            assoc(e, k2)
        }),
    decreases i,
{
    let ne = e.update(i, p);
    if i == 0 {
        assert(ne[0] == p);
        assert(ne.drop_first() =~= e.drop_first());
        if k2 != p.0@ {
            assert(e[0].0@ == p.0@);
        }
    } else {
        let u = e.drop_first();
        assert(ne.drop_first() =~= u.update(i - 1, p));
        assert(ne[0] == e[0]);
        assert forall|j: int| 0 <= j < i - 1 implies u[j].0@ != p.0@ by {
            assert(u[j] == e[j + 1]);
        }
        assert(u[i - 1] == e[i]);
        lemma_assoc_update(u, i - 1, p, k2);
        assert(e[0].0@ != p.0@);
    }
}

proof fn lemma_assoc_push<C>(e: Seq<(String, C)>, p: (String, C), k2: Seq<char>)
    ensures
        assoc(e.push(p), k2) == (if assoc(e, k2) is Some {
            assoc(e, k2)
        } else if k2 == p.0@ {
            Some(p.1)
        } else {
            None::<C>
        }),
    decreases e.len(),
{
    let ne = e.push(p);
    if e.len() == 0 {
        assert(ne[0] == p);
        assert(ne.drop_first() =~= Seq::<(String, C)>::empty());
    } else {
        assert(ne[0] == e[0]);
        assert(ne.drop_first() =~= e.drop_first().push(p));
        lemma_assoc_push(e.drop_first(), p, k2);
    }
}

impl<Content> Store<Content> {
    /// The chain of binding maps, this store's own bindings first.
    pub closed spec fn levels(self) -> Seq<Map<Seq<char>, Content>>
        decreases self,
    {
        match self.fallback {
            None => seq![assoc_map(self.entries@)],
            Some(f) => seq![assoc_map(self.entries@)] + f.levels(),
        }
    }

    /// The binding that a lookup of `key` returns.
    pub open spec fn lookup(self, key: Seq<char>) -> Option<Content> {
        chain_lookup(self.levels(), key)
    }

    /// An empty store with no fallback.
    pub fn new() -> (s: Self)
        ensures
            s.levels() == seq![Map::<Seq<char>, Content>::empty()],
    {
        let s = Store { entries: Vec::new(), fallback: None };
        proof {
            assert forall|k: Seq<char>| !(assoc(s.entries@, k) is Some) by {}
            assert(assoc_map(s.entries@) =~= Map::<Seq<char>, Content>::empty());
            assert(s.levels() =~= seq![Map::<Seq<char>, Content>::empty()]);
        }
        s
    }

    /// An empty store that defers lookup misses to `parent`.
    pub fn with_fallback(parent: Self) -> (s: Self)
        ensures
            s.levels() == seq![Map::<Seq<char>, Content>::empty()] + parent.levels(),
    {
        let s = Store { entries: Vec::new(), fallback: Some(Box::new(parent)) };
        proof {
            assert(assoc_map(s.entries@) =~= Map::<Seq<char>, Content>::empty());
            assert(s.levels() =~= seq![Map::<Seq<char>, Content>::empty()] + s.fallback->0.levels());
        }
        s
    }

    /// Whether this store's own level holds a binding for `reference`; the
    /// fallback chain is not consulted.
    #[verifier::loop_isolation(false)]
    pub fn contains(&self, reference: &str) -> (r: bool)
        ensures
            r == self.levels()[0].dom().contains(reference@),
    {
        let key = reference.to_owned();
        let mut i: usize = 0;
        while i < self.entries.len()
            invariant
                i <= self.entries@.len(),
                forall|j: int| 0 <= j < i ==> self.entries@[j].0@ != reference@,
            decreases self.entries@.len() - i,
        {
            if self.entries[i].0 == key {
                proof {
                    lemma_assoc_found(self.entries@, reference@, i as int);
                }
                return true;
            }
            i = i + 1;
        }
        proof {
            lemma_assoc_missing(self.entries@, reference@);
        }
        false
    }

    /// The binding for `reference`: this store's own level first, then the
    /// fallback chain.
    #[verifier::loop_isolation(false)]
    pub fn get(&self, reference: &str) -> (r: Option<&Content>)
        ensures
            match r {
                Some(c) => self.lookup(reference@) == Some(*c),
                None => self.lookup(reference@) is None,
            },
        decreases *self,
    {
        let key = reference.to_owned();
        let mut i: usize = 0;
        while i < self.entries.len()
            invariant
                i <= self.entries@.len(),
                forall|j: int| 0 <= j < i ==> self.entries@[j].0@ != reference@,
            decreases self.entries@.len() - i,
        {
            if self.entries[i].0 == key {
                proof {
                    lemma_assoc_found(self.entries@, reference@, i as int);
                }
                return Some(&self.entries[i].1);
            }
            i = i + 1;
        }
        proof {
            lemma_assoc_missing(self.entries@, reference@);
        }
        match &self.fallback {
            Some(f) => {
                let r = f.get(reference);
                proof {
                    assert(self.levels().drop_first() =~= f.levels());
                    assert(self.levels()[0] == assoc_map(self.entries@));
                    assert(!self.levels()[0].dom().contains(reference@));
                    assert(self.lookup(reference@) == f.lookup(reference@));
                }
                return r;
            },
            None => {
                proof {
                    assert(self.levels() =~= seq![assoc_map(self.entries@)]);
                    assert(self.levels().drop_first() =~= Seq::<Map<Seq<char>, Content>>::empty());
                    assert(!self.levels()[0].dom().contains(reference@));
                    assert(chain_lookup(Seq::<Map<Seq<char>, Content>>::empty(), reference@)
                        is None);
                }
                return None;
            },
        }
    }

    /// Replaces or adds the binding for `key` at this store's own level,
    /// leaving the fallback chain untouched.
    #[verifier::loop_isolation(false)]
    fn put_own(&mut self, key: String, content: Content)
        ensures
            final(self).levels() == old(self).levels().update(
                0,
                old(self).levels()[0].insert(key@, content),
            ),
    {
        let ghost oe = self.entries@;
        let ghost olv = self.levels();
        let mut i: usize = 0;
        let mut found: Option<usize> = None;
        while i < self.entries.len()
            invariant
                i <= self.entries@.len(),
                found is None ==> forall|j: int| 0 <= j < i ==> self.entries@[j].0@ != key@,
                found matches Some(fi) ==> 0 <= fi < i <= self.entries@.len()
                    && self.entries@[fi as int].0@ == key@ && (forall|j: int|
                    0 <= j < fi ==> self.entries@[j].0@ != key@),
            decreases self.entries@.len() - i,
        {
            if found.is_none() && self.entries[i].0 == key {
                found = Some(i);
            }
            i = i + 1;
        }
        let pair = (key, content);
        match found {
            Some(fi) => {
                self.entries.remove(fi);
                self.entries.insert(fi, pair);
                proof {
                    assert(self.entries@ =~= oe.update(fi as int, pair));
                    assert forall|k2: Seq<char>|
                        assoc(self.entries@, k2) == (if k2 == pair.0@ {
                            Some(pair.1)
                        } else {
                            assoc(oe, k2)
                        }) by {
                        lemma_assoc_update(oe, fi as int, pair, k2);
                    }
                }
            },
            None => {
                self.entries.push(pair);
                proof {
                    lemma_assoc_missing(oe, pair.0@);
                    assert forall|k2: Seq<char>|
                        assoc(self.entries@, k2) == (if k2 == pair.0@ {
                            Some(pair.1)
                        } else {
                            assoc(oe, k2)
                        }) by {
                        lemma_assoc_push(oe, pair, k2);
                    }
                }
            },
        }
        proof {
            assert(assoc_map(self.entries@) =~= assoc_map(oe).insert(pair.0@, pair.1));
            assert(self.levels() =~= olv.update(0, olv[0].insert(pair.0@, pair.1)));
        }
    }

    /// Binds `reference` to `content`. When the parent one step down already
    /// holds the name at its own level, the write is forwarded down the
    /// chain; otherwise it lands at this store's own level.
    pub fn set(&mut self, reference: &str, content: Content)
        ensures
            final(self).levels() == old(self).levels().update(
                write_level(old(self).levels(), reference@),
                old(self).levels()[write_level(old(self).levels(), reference@)].insert(
                    reference@,
                    content,
                ),
            ),
        decreases *old(self),
    {
        let ghost olv = self.levels();
        let descend = match &self.fallback {
            Some(f) => {
                proof {
                    assert(olv.drop_first() =~= f.levels());
                    assert(olv[1] == f.levels()[0]);
                }
                f.contains(reference)
            },
            None => false,
        };
        if descend {
            match &mut self.fallback {
                Some(f) => {
                    let ghost flv = f.levels();
                    f.set(reference, content);
                    proof {
                        let wl = write_level(flv, reference@);
                        lemma_levels_nonempty(**f);
                        lemma_write_level_bounds(flv, reference@);
                        assert(olv.drop_first() =~= flv);
                        assert(write_level(olv, reference@) == 1 + wl);
                        assert(self.levels() =~= olv.update(1 + wl, flv[wl].insert(
                            reference@,
                            content,
                        )));
                        assert(olv[1 + wl] == flv[wl]);
                    }
                },
                None => {
                    proof {
                        assert(false);
                    }
                },
            }
        } else {
            let key = reference.to_owned();
            self.put_own(key, content);
        }
    }

    /// Binds every pair at this store's own level, in order.
    #[verifier::loop_isolation(false)]
    pub fn insert(&mut self, key_values: Vec<(String, Content)>)
        ensures
            final(self).levels() == old(self).levels().update(
                0,
                insert_all(old(self).levels()[0], key_values@),
            ),
    {
        let mut kvs = key_values;
        let ghost okvs = kvs@;
        let ghost olv = self.levels();
        proof {
            assert(olv.update(0, olv[0]) =~= olv);
        }
        while kvs.len() > 0
            invariant
                insert_all(olv[0], okvs) == insert_all(self.levels()[0], kvs@),
                self.levels() == olv.update(0, self.levels()[0]),
            decreases kvs@.len(),
        {
            let ghost pre = kvs@;
            let ghost lv = self.levels();
            let (key, content) = kvs.remove(0);
            proof {
                assert(kvs@ =~= pre.drop_first());
            }
            self.put_own(key, content);
            proof {
                assert(self.levels() =~= olv.update(0, self.levels()[0]));
            }
        }
        proof {
            assert(self.levels() =~= olv.update(0, self.levels()[0]));
        }
    }
}

/// The standard type registry: the four primitive types bound under their
/// uppercase names.
pub fn builtin_types() -> (s: Store<Type>)
    ensures
        s.lookup("INTEGER"@) == Some(Type::Integer),
        s.lookup("CHAR"@) == Some(Type::Char),
        s.lookup("REAL"@) == Some(Type::Real),
        s.lookup("BOOLEAN"@) == Some(Type::Boolean),
{
    let mut s: Store<Type> = Store::new();
    s.set("INTEGER", Type::Integer);
    s.set("CHAR", Type::Char);
    s.set("REAL", Type::Real);
    s.set("BOOLEAN", Type::Boolean);
    proof {
        reveal_strlit("INTEGER");
        reveal_strlit("CHAR");
        reveal_strlit("REAL");
        reveal_strlit("BOOLEAN");
        assert("INTEGER"@.len() == 7);
        assert("CHAR"@.len() == 4);
        assert("REAL"@.len() == 4);
        assert("BOOLEAN"@.len() == 7);
        assert("CHAR"@[0] == 'C' && "REAL"@[0] == 'R');
        assert("INTEGER"@[0] == 'I' && "BOOLEAN"@[0] == 'B');
    }
    s
}

/// A named variable together with its declared type.
pub struct Variable {
    pub name: String,
    pub ty: Type,
}

impl Variable {
    pub fn new(name: String, ty: Type) -> (v: Variable)
        ensures
            v.name == name,
            v.ty == ty,
    {
        Variable { name, ty }
    }
}

} // verus!
