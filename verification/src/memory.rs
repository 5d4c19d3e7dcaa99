use vstd::prelude::*;
use vstd::hash_map::StringHashMap;

verus! {

/// A stack of scopes, innermost last, as the model of a memory.
pub type Scopes<T> = Seq<Map<Seq<char>, T>>;

/// Index of the innermost scope that binds `id`, or `-1` when no scope binds it.
pub open spec fn innermost<T>(scopes: Scopes<T>, id: Seq<char>) -> int
    decreases scopes.len(),
{
    if scopes.len() == 0 {
        -1
    } else if scopes.last().contains_key(id) {
        scopes.len() - 1
    } else {
        innermost(scopes.drop_last(), id)
    }
}

/// Dynamic scoping: the value bound to `id` by the innermost scope that binds it.
pub open spec fn lookup<T>(scopes: Scopes<T>, id: Seq<char>) -> Option<T> {
    let i = innermost(scopes, id);
    if i >= 0 {
        Some(scopes[i][id])
    } else {
        None
    }
}

/// The scopes after binding `id` to `val` in the innermost (last) scope;
/// with no scope there is nowhere to bind it.
pub open spec fn declare<T>(scopes: Scopes<T>, id: Seq<char>, val: T) -> Scopes<T> {
    if scopes.len() > 0 {
        scopes.update(scopes.len() - 1, scopes.last().insert(id, val))
    } else {
        scopes
    }
}

/// The scopes after overwriting the binding of `id` where `lookup` finds it;
/// unchanged when no scope binds `id`.
pub open spec fn assign<T>(scopes: Scopes<T>, id: Seq<char>, val: T) -> Scopes<T> {
    let i = innermost(scopes, id);
    if i >= 0 {
        scopes.update(i, scopes[i].insert(id, val))
    } else {
        scopes
    }
}

/// `innermost` names a scope that binds `id`, and no scope after it binds `id`.
pub proof fn lemma_innermost<T>(scopes: Scopes<T>, id: Seq<char>)
    ensures
        -1 <= innermost(scopes, id) < scopes.len(),
        innermost(scopes, id) >= 0 ==> scopes[innermost(scopes, id)].contains_key(id),
        forall|j: int|
            innermost(scopes, id) < j < scopes.len() ==> !(#[trigger] scopes[j]).contains_key(id),
    decreases scopes.len(),
{
    if scopes.len() > 0 && !scopes.last().contains_key(id) {
        lemma_innermost(scopes.drop_last(), id);
        assert forall|j: int| innermost(scopes, id) < j < scopes.len() implies !(
        #[trigger] scopes[j]).contains_key(id) by {
            if j < scopes.len() - 1 {
                assert(scopes.drop_last()[j] == scopes[j]);
            }
        }
    }
}

/// `innermost` is characterised by the two facts of `lemma_innermost`.
pub proof fn lemma_innermost_unique<T>(scopes: Scopes<T>, id: Seq<char>, i: int)
    requires
        -1 <= i < scopes.len(),
        i >= 0 ==> scopes[i].contains_key(id),
        forall|j: int| i < j < scopes.len() ==> !(#[trigger] scopes[j]).contains_key(id),
    ensures
        innermost(scopes, id) == i,
    decreases scopes.len(),
{
    if scopes.len() > 0 && i < scopes.len() - 1 {
        assert(!scopes[scopes.len() - 1].contains_key(id));
        assert forall|j: int| i < j < scopes.drop_last().len() implies !(
        #[trigger] scopes.drop_last()[j]).contains_key(id) by {
            assert(scopes.drop_last()[j] == scopes[j]);
        }
        lemma_innermost_unique(scopes.drop_last(), id, i);
    }
}

/// Read after write: once `id` is declared with `val` in a non-empty memory,
/// looking `id` up gives `val`, and every other name keeps its value.
pub proof fn law_declare_then_lookup<T>(scopes: Scopes<T>, id: Seq<char>, val: T, other: Seq<char>)
    requires
        scopes.len() > 0,
    ensures
        lookup(declare(scopes, id, val), id) == Some(val),
        other != id ==> lookup(declare(scopes, id, val), other) == lookup(scopes, other),
{
    let after = declare(scopes, id, val);
    lemma_innermost_unique(after, id, scopes.len() - 1);
    if other != id {
        lemma_innermost(scopes, other);
        let i = innermost(scopes, other);
        assert forall|j: int| i < j < after.len() implies !(#[trigger] after[j]).contains_key(
            other,
        ) by {
            assert(!scopes[j].contains_key(other));
        }
        lemma_innermost_unique(after, other, i);
    }
}

/// Dynamic scoping: opening a scope hides no binding, and a declaration in the
/// new scope shadows an outer binding of the same name.
pub proof fn law_push_scope_keeps_bindings<T>(scopes: Scopes<T>, id: Seq<char>, val: T)
    ensures
        lookup(scopes.push(Map::empty()), id) == lookup(scopes, id),
        lookup(declare(scopes.push(Map::empty()), id, val), id) == Some(val),
{
    let pushed = scopes.push(Map::empty());
    assert(pushed.drop_last() =~= scopes);
    assert(!pushed.last().contains_key(id));
    assert(innermost(pushed, id) == innermost(scopes, id));
    lemma_innermost(scopes, id);
    if innermost(scopes, id) >= 0 {
        assert(pushed[innermost(scopes, id)] == scopes[innermost(scopes, id)]);
    }
    law_declare_then_lookup(pushed, id, val, id);
}

/// Closing a scope undoes opening it.
pub proof fn law_pop_undoes_push<T>(scopes: Scopes<T>)
    ensures
        scopes.push(Map::empty()).drop_last() == scopes,
{
    assert(scopes.push(Map::empty()).drop_last() =~= scopes);
}

/// Closing the scope that declared a name brings back the outer binding.
pub proof fn law_pop_restores_outer<T>(scopes: Scopes<T>, id: Seq<char>, val: T)
    ensures
        lookup(declare(scopes.push(Map::empty()), id, val).drop_last(), id) == lookup(scopes, id),
{
    let d = declare(scopes.push(Map::empty()), id, val);
    assert(d.drop_last() =~= scopes);
}

/// The scopes after declaring each name of `decls` in turn.
pub open spec fn declare_all<T>(scopes: Scopes<T>, decls: Seq<(Seq<char>, T)>) -> Scopes<T>
    decreases decls.len(),
{
    if decls.len() == 0 {
        scopes
    } else {
        declare(declare_all(scopes, decls.drop_last()), decls.last().0, decls.last().1)
    }
}

/// Declarations change only the innermost scope of a non-empty memory.
proof fn lemma_declare_all_innermost<T>(scopes: Scopes<T>, decls: Seq<(Seq<char>, T)>)
    requires
        scopes.len() > 0,
    ensures
        declare_all(scopes, decls).len() == scopes.len(),
        declare_all(scopes, decls).drop_last() == scopes.drop_last(),
    decreases decls.len(),
{
    if decls.len() > 0 {
        lemma_declare_all_innermost(scopes, decls.drop_last());
        let before = declare_all(scopes, decls.drop_last());
        assert(declare(before, decls.last().0, decls.last().1).drop_last() =~= before.drop_last());
    }
}

/// Opening a scope, declaring any number of names in it and closing it again
/// gives back the scopes as they were: the inner declarations vanish and the
/// bindings they shadowed are seen again.
pub proof fn law_scope_round_trip<T>(scopes: Scopes<T>, decls: Seq<(Seq<char>, T)>, id: Seq<char>)
    ensures
        declare_all(scopes.push(Map::empty()), decls).drop_last() == scopes,
        lookup(declare_all(scopes.push(Map::empty()), decls).drop_last(), id) == lookup(scopes, id),
{
    lemma_declare_all_innermost(scopes.push(Map::empty()), decls);
    assert(scopes.push(Map::empty()).drop_last() =~= scopes);
}

/// An update is seen by the next lookup of the same name, and only there; an
/// update of an unbound name changes nothing.
pub proof fn law_assign_then_lookup<T>(scopes: Scopes<T>, id: Seq<char>, val: T, other: Seq<char>)
    ensures
        lookup(scopes, id) is Some ==> lookup(assign(scopes, id, val), id) == Some(val),
        lookup(scopes, id) is None ==> assign(scopes, id, val) == scopes,
        other != id ==> lookup(assign(scopes, id, val), other) == lookup(scopes, other),
{
    lemma_innermost(scopes, id);
    let i = innermost(scopes, id);
    let after = assign(scopes, id, val);
    if i >= 0 {
        assert forall|j: int| i < j < after.len() implies !(#[trigger] after[j]).contains_key(
            id,
        ) by {
            assert(after[j] == scopes[j]);
        }
        lemma_innermost_unique(after, id, i);
        if other != id {
            lemma_innermost(scopes, other);
            let k = innermost(scopes, other);
            assert forall|j: int| k < j < after.len() implies !(#[trigger] after[j]).contains_key(
                other,
            ) by {
                assert(!scopes[j].contains_key(other));
            }
            if k >= 0 {
                assert(after[k].contains_key(other));
            }
            lemma_innermost_unique(after, other, k);
        }
    }
}

/// The scopes with `f` applied to every bound value.
pub open spec fn map_scopes<T, U>(scopes: Scopes<T>, f: spec_fn(T) -> U) -> Scopes<U> {
    scopes.map_values(|m: Map<Seq<char>, T>| m.map_values(f))
}

proof fn lemma_map_scopes_innermost<T, U>(scopes: Scopes<T>, f: spec_fn(T) -> U, id: Seq<char>)
    ensures
        innermost(map_scopes(scopes, f), id) == innermost(scopes, id),
    decreases scopes.len(),
{
    if scopes.len() > 0 {
        assert(map_scopes(scopes, f).drop_last() =~= map_scopes(scopes.drop_last(), f));
        assert(map_scopes(scopes, f).last().dom() =~= scopes.last().dom());
        lemma_map_scopes_innermost(scopes.drop_last(), f, id);
    }
}

/// Applying `f` to the bound values commutes with looking up, declaring and assigning.
pub proof fn lemma_map_scopes<T, U>(scopes: Scopes<T>, f: spec_fn(T) -> U, id: Seq<char>, v: T)
    ensures
        map_scopes(scopes, f).len() == scopes.len(),
        lookup(map_scopes(scopes, f), id) == match lookup(scopes, id) {
            Some(x) => Some(f(x)),
            None => None::<U>,
        },
        scopes.len() > 0 ==> map_scopes(declare(scopes, id, v), f) == declare(
            map_scopes(scopes, f),
            id,
            f(v),
        ),
        map_scopes(assign(scopes, id, v), f) == assign(map_scopes(scopes, f), id, f(v)),
{
    lemma_map_scopes_innermost(scopes, f, id);
    lemma_innermost(scopes, id);
    let ms = map_scopes(scopes, f);
    if scopes.len() > 0 {
        let d = declare(scopes, id, v);
        assert forall|i: int| 0 <= i < scopes.len() implies #[trigger] map_scopes(d, f)[i]
            =~= declare(ms, id, f(v))[i] by {}
        assert(map_scopes(d, f) =~= declare(ms, id, f(v)));
    }
    let a = assign(scopes, id, v);
    assert forall|i: int| 0 <= i < scopes.len() implies #[trigger] map_scopes(a, f)[i]
        =~= assign(ms, id, f(v))[i] by {}
    assert(map_scopes(a, f) =~= assign(ms, id, f(v)));
}

/// A memory of named values organised in nested scopes.
pub trait Memory<T: Clone>: View<V = Scopes<T>> + Sized {
    /// Binds `id` to `val` in the innermost scope, replacing a binding of `id` there.
    fn add(&mut self, id: String, val: T)
        requires
            old(self)@.len() > 0,
        ensures
            final(self)@ == declare(old(self)@, id@, val),
    ;

    /// The value of `id` in the innermost scope that binds it.
    fn get(&self, id: &str) -> (r: Option<&T>)
        ensures
            match r {
                Some(v) => lookup(self@, id@) == Some(*v),
                None => lookup(self@, id@) is None,
            },
    ;

    /// Overwrites the binding of `id` that `get` would find and returns a clone of
    /// the value it held; `None`, and nothing changed, when `id` is unbound.
    fn update(&mut self, id: String, val: T) -> (r: Option<T>)
        ensures
            final(self)@ == assign(old(self)@, id@, val),
            r is Some <==> lookup(old(self)@, id@) is Some,
            r matches Some(saved) ==> cloned(lookup(old(self)@, id@)->0, saved),
    ;

    /// Opens a new, empty innermost scope.
    fn push_scope(&mut self)
        ensures
            final(self)@ == old(self)@.push(Map::empty()),
    ;

    /// Closes the innermost scope, if there is one.
    fn pop_scope(&mut self)
        ensures
            final(self)@ == if old(self)@.len() > 0 {
                old(self)@.drop_last()
            } else {
                old(self)@
            },
    ;
}

/// A memory whose scopes are hash maps from names to values.
#[verifier::reject_recursive_types(T)]
pub struct HashMemory<T> {
    scopes: Vec<StringHashMap<T>>,
}

impl<T> View for HashMemory<T> {
    type V = Scopes<T>;

    closed spec fn view(&self) -> Scopes<T> {
        self.scopes@.map_values(|m: StringHashMap<T>| m@)
    }
}

impl<T> HashMemory<T> {
    /// A memory holding one empty scope, the global one.
    pub fn new() -> (r: Self)
        ensures
            r@ == seq![Map::<Seq<char>, T>::empty()],
    {
        let mut scopes = Vec::new();
        scopes.push(StringHashMap::new());
        let r = HashMemory { scopes };
        assert(r@ =~= seq![Map::<Seq<char>, T>::empty()]);
        r
    }

    /// The number of scopes, the global one included.
    pub fn depth(&self) -> (r: usize)
        ensures
            r == self@.len(),
    {
        self.scopes.len()
    }

    /// The bindings of the scope at `index`, counted from the global scope, by
    /// whether `id` is bound there and to what.
    pub fn get_in_scope(&self, index: usize, id: &str) -> (r: Option<&T>)
        requires
            index < self@.len(),
        ensures
            match r {
                Some(v) => self@[index as int].contains_key(id@) && *v == self@[index as int][id@],
                None => !self@[index as int].contains_key(id@),
            },
    {
        self.scopes[index].get(id)
    }

    /// The number of names bound in the scope at `index`.
    pub fn scope_len(&self, index: usize) -> (r: usize)
        requires
            index < self@.len(),
        ensures
            r == self@[index as int].len(),
    {
        self.scopes[index].len()
    }

    /// Index of the innermost scope that binds `id`.
    fn find_scope(&self, id: &str) -> (r: Option<usize>)
        ensures
            match r {
                Some(i) => innermost(self@, id@) == i as int,
                None => innermost(self@, id@) == -1,
            },
    {
        let mut i = self.scopes.len();
        while i > 0
            invariant
                i <= self.scopes@.len(),
                forall|j: int| i <= j < self@.len() ==> !(#[trigger] self@[j]).contains_key(id@),
            decreases i,
        {
            i = i - 1;
            if self.scopes[i].contains_key(id) {
                proof {
                    lemma_innermost_unique(self@, id@, i as int);
                }
                return Some(i);
            }
        }
        proof {
            lemma_innermost_unique(self@, id@, -1);
        }
        None
    }
}

impl<T> Default for HashMemory<T> {
    /// Creates a global scope by default.
    fn default() -> (r: Self)
        ensures
            r@ == seq![Map::<Seq<char>, T>::empty()],
    {
        HashMemory::new()
    }
}

impl<T: Clone> Memory<T> for HashMemory<T> {
    fn add(&mut self, id: String, val: T) {
        let last = self.scopes.len() - 1;
        self.scopes[last].insert(id, val);
        assert(self@ =~= declare(old(self)@, id@, val));
    }

    /// Resolves variables using dynamic scoping.
    fn get(&self, id: &str) -> (r: Option<&T>) {
        proof {
            lemma_innermost(self@, id@);
        }
        match self.find_scope(id) {
            Some(i) => self.scopes[i].get(id),
            None => None,
        }
    }

    fn update(&mut self, id: String, val: T) -> (r: Option<T>) {
        proof {
            lemma_innermost(self@, id@);
        }
        match self.find_scope(id.as_str()) {
            Some(i) => {
                let saved = self.scopes[i].get(id.as_str()).unwrap().clone();
                self.scopes[i].insert(id, val);
                assert(self@ =~= assign(old(self)@, id@, val));
                Some(saved)
            },
            None => None,
        }
    }

    fn push_scope(&mut self) {
        self.scopes.push(StringHashMap::new());
        assert(self@ =~= old(self)@.push(Map::empty()));
    }

    fn pop_scope(&mut self) {
        self.scopes.pop();
        assert(self@ =~= if old(self)@.len() > 0 {
            old(self)@.drop_last()
        } else {
            old(self)@
        });
    }
}

} // verus!
