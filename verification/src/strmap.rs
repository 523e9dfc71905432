//! A map from names to values that remembers insertion order, with a
//! mathematical view as `Map<Seq<char>, _>` over the values' models.
use vstd::prelude::*;

verus! {

/// Values with a mathematical model and an exact copy operation.
pub trait Modeled: Sized {
    type M;

    spec fn model(&self) -> Self::M;

    fn dup(&self) -> (r: Self)
        ensures
            r.model() == self.model(),
    ;
}

impl Modeled for i64 {
    type M = i64;

    open spec fn model(&self) -> i64 {
        *self
    }

    fn dup(&self) -> (r: i64) {
        *self
    }
}

impl Modeled for usize {
    type M = usize;

    open spec fn model(&self) -> usize {
        *self
    }

    fn dup(&self) -> (r: usize) {
        *self
    }
}

/// Name-keyed map; keys are distinct and kept in insertion order.
pub struct StrMap<V: Modeled> {
    keys: Vec<String>,
    vals: Vec<V>,
}

pub open spec fn map_of<M>(ks: Seq<Seq<char>>, vs: Seq<M>) -> Map<Seq<char>, M>
    decreases ks.len(),
{
    if ks.len() == 0 || vs.len() == 0 {
        Map::empty()
    } else {
        map_of(ks.drop_last(), vs.drop_last()).insert(ks.last(), vs.last())
    }
}

pub open spec fn distinct(ks: Seq<Seq<char>>) -> bool {
    forall|i: int, j: int| 0 <= i < ks.len() && 0 <= j < ks.len() && i != j ==> ks[i] != ks[j]
}

/// In a map built from distinct keys, each key maps to its own value.
pub proof fn lemma_map_of<M>(ks: Seq<Seq<char>>, vs: Seq<M>)
    requires
        ks.len() == vs.len(),
        distinct(ks),
    ensures
        forall|i: int|
            0 <= i < ks.len() ==> #[trigger] map_of(ks, vs).contains_key(ks[i]) && map_of(ks, vs)[ks[i]]
                == vs[i],
        forall|k: Seq<char>|
            #[trigger] map_of(ks, vs).contains_key(k) ==> exists|i: int| 0 <= i < ks.len() && ks[i]
                == k,
        map_of(ks, vs).dom().finite(),
        map_of(ks, vs).dom().len() == ks.len(),
    decreases ks.len(),
{
    if ks.len() > 0 {
        let ks2 = ks.drop_last();
        let vs2 = vs.drop_last();
        assert(distinct(ks2)) by {
            assert forall|i: int, j: int|
                0 <= i < ks2.len() && 0 <= j < ks2.len() && i != j implies ks2[i] != ks2[j] by {
                assert(ks2[i] == ks[i] && ks2[j] == ks[j]);
            }
        }
        lemma_map_of(ks2, vs2);
        let m2 = map_of(ks2, vs2);
        assert(!m2.contains_key(ks.last())) by {
            if m2.contains_key(ks.last()) {
                let i = choose|i: int| 0 <= i < ks2.len() && ks2[i] == ks.last();
                assert(ks[i] == ks[ks.len() - 1]);
            }
        }
        assert forall|i: int| 0 <= i < ks.len() implies #[trigger] map_of(ks, vs).contains_key(ks[i])
            && map_of(ks, vs)[ks[i]] == vs[i] by {
            if i < ks.len() - 1 {
                assert(ks2[i] == ks[i]);
                assert(vs2[i] == vs[i]);
                assert(ks[i] != ks[ks.len() - 1]);
            }
        }
        assert forall|k: Seq<char>| #[trigger] map_of(ks, vs).contains_key(k) implies exists|i: int|
            0 <= i < ks.len() && ks[i] == k by {
            if k != ks.last() {
                assert(m2.contains_key(k));
                let i = choose|i: int| 0 <= i < ks2.len() && ks2[i] == k;
                assert(ks[i] == k);
            } else {
                assert(ks[ks.len() - 1] == k);
            }
        }
    }
}

/// Replacing the value at a key's position is an insertion in the map.
pub proof fn lemma_map_of_update<M>(ks: Seq<Seq<char>>, vs: Seq<M>, i: int, v: M)
    requires
        ks.len() == vs.len(),
        distinct(ks),
        0 <= i < ks.len(),
    ensures
        map_of(ks, vs.update(i, v)) == map_of(ks, vs).insert(ks[i], v),
{
    let vs2 = vs.update(i, v);
    lemma_map_of(ks, vs);
    lemma_map_of(ks, vs2);
    let a = map_of(ks, vs2);
    let b = map_of(ks, vs).insert(ks[i], v);
    assert forall|k: Seq<char>| a.contains_key(k) <==> b.contains_key(k) by {
        if a.contains_key(k) {
            let j = choose|j: int| 0 <= j < ks.len() && ks[j] == k;
            assert(map_of(ks, vs).contains_key(ks[j]));
        }
        if b.contains_key(k) && k != ks[i] {
            let j = choose|j: int| 0 <= j < ks.len() && ks[j] == k;
            assert(a.contains_key(ks[j]));
        }
        if k == ks[i] {
            assert(a.contains_key(ks[i]));
        }
    }
    assert forall|k: Seq<char>| a.contains_key(k) implies a[k] == b[k] by {
        let j = choose|j: int| 0 <= j < ks.len() && ks[j] == k;
        assert(a[ks[j]] == vs2[j]);
        if j != i {
            assert(ks[j] != ks[i]);
            assert(map_of(ks, vs)[ks[j]] == vs[j]);
        }
    }
    assert(a =~= b);
}

impl<V: Modeled> StrMap<V> {
    #[verifier::type_invariant]
    closed spec fn inv(&self) -> bool {
        &&& self.keys.len() == self.vals.len()
        &&& distinct(self.key_seq())
    }

    /// The keys in insertion order.
    pub closed spec fn key_seq(&self) -> Seq<Seq<char>> {
        self.keys@.map_values(|s: String| s@)
    }

    /// The models of the values, in the order of `key_seq`.
    pub closed spec fn val_seq(&self) -> Seq<V::M> {
        self.vals@.map_values(|v: V| v.model())
    }

    pub closed spec fn view(&self) -> Map<Seq<char>, V::M> {
        map_of(self.key_seq(), self.val_seq())
    }

    /// How the view, the keys and the values relate.
    pub fn facts(&self)
        ensures
            self.key_seq().len() == self.val_seq().len(),
            distinct(self.key_seq()),
            forall|i: int|
                0 <= i < self.key_seq().len() ==> #[trigger] self@.contains_key(self.key_seq()[i])
                    && self@[self.key_seq()[i]] == self.val_seq()[i],
            forall|k: Seq<char>|
                #[trigger] self@.contains_key(k) ==> exists|i: int|
                    0 <= i < self.key_seq().len() && self.key_seq()[i] == k,
            self@.dom().finite(),
            self@.dom().len() == self.key_seq().len(),
    {
        proof {
            use_type_invariant(self);
            lemma_map_of(self.key_seq(), self.val_seq());
        }
    }

    pub fn new() -> (r: Self)
        ensures
            r@ == Map::<Seq<char>, V::M>::empty(),
            r.key_seq() == Seq::<Seq<char>>::empty(),
    {
        let r = StrMap { keys: Vec::new(), vals: Vec::new() };
        assert(r.key_seq() =~= Seq::<Seq<char>>::empty());
        r
    }

    pub fn len(&self) -> (r: usize)
        ensures
            r == self.key_seq().len(),
    {
        proof {
            use_type_invariant(self);
        }
        self.keys.len()
    }

    /// The `i`-th key in insertion order.
    pub fn key_at(&self, i: usize) -> (r: &String)
        requires
            i < self.key_seq().len(),
        ensures
            r@ == self.key_seq()[i as int],
    {
        proof {
            use_type_invariant(self);
        }
        &self.keys[i]
    }

    /// The value of the `i`-th key in insertion order.
    pub fn val_at(&self, i: usize) -> (r: &V)
        requires
            i < self.key_seq().len(),
        ensures
            r.model() == self.val_seq()[i as int],
            r.model() == self@[self.key_seq()[i as int]],
    {
        proof {
            use_type_invariant(self);
            lemma_map_of(self.key_seq(), self.val_seq());
            assert(self@.contains_key(self.key_seq()[i as int]));
            assert(self.val_seq()[i as int] == self.vals@[i as int].model());
        }
        &self.vals[i]
    }

    /// Position of `key` in insertion order.
    pub fn index_of(&self, key: &str) -> (r: Option<usize>)
        ensures
            r matches Some(i) ==> i < self.key_seq().len() && self.key_seq()[i as int] == key@,
            r is None ==> !self@.contains_key(key@),
            r is Some <==> self@.contains_key(key@),
    {
        proof {
            use_type_invariant(self);
            lemma_map_of(self.key_seq(), self.val_seq());
        }
        let owned = String::from_str(key);
        let mut i: usize = 0;
        while i < self.keys.len()
            invariant
                i <= self.keys.len(),
                owned@ == key@,
                self.keys.len() == self.vals.len(),
                forall|j: int| 0 <= j < i ==> self.key_seq()[j] != key@,
            decreases self.keys.len() - i,
        {
            if self.keys[i].eq(&owned) {
                proof {
                    use_type_invariant(self);
                    lemma_map_of(self.key_seq(), self.val_seq());
                    assert(self.key_seq()[i as int] == self.keys@[i as int]@);
                    assert(self@.contains_key(self.key_seq()[i as int]));
                }
                return Some(i);
            }
            assert(self.key_seq()[i as int] == self.keys@[i as int]@);
            i = i + 1;
        }
        proof {
            if self@.contains_key(key@) {
                let j = choose|j: int| 0 <= j < self.key_seq().len() && self.key_seq()[j] == key@;
            }
        }
        None
    }

    pub fn contains_key(&self, key: &str) -> (r: bool)
        ensures
            r == self@.contains_key(key@),
    {
        self.index_of(key).is_some()
    }

    pub fn get(&self, key: &str) -> (r: Option<&V>)
        ensures
            r matches Some(v) ==> self@.contains_key(key@) && v.model() == self@[key@],
            r is None ==> !self@.contains_key(key@),
    {
        match self.index_of(key) {
            Some(i) => Some(self.val_at(i)),
            None => None,
        }
    }

    /// Inserts or overwrites; a new key goes last in insertion order.
    pub fn insert(&mut self, key: String, v: V)
        ensures
            final(self)@ == old(self)@.insert(key@, v.model()),
            old(self)@.contains_key(key@) ==> final(self).key_seq() == old(self).key_seq(),
            !old(self)@.contains_key(key@) ==> final(self).key_seq() == old(self).key_seq().push(
                key@,
            ),
    {
        proof {
            use_type_invariant(&*self);
            lemma_map_of(self.key_seq(), self.val_seq());
        }
        let idx = self.index_of(key.as_str());
        let ghost ks = self.key_seq();
        let ghost vs = self.val_seq();
        let ghost km = key@;
        let ghost vm = v.model();
        let mut tmp = StrMap { keys: Vec::new(), vals: Vec::new() };
        proof {
            assert(tmp.key_seq() =~= Seq::<Seq<char>>::empty());
        }
        std::mem::swap(self, &mut tmp);
        let StrMap { keys: mut keys, vals: mut vals } = tmp;
        assert(keys@.map_values(|s: String| s@) == ks);
        assert(vals@.map_values(|v: V| v.model()) == vs);
        match idx {
            Some(i) => {
                vals.set(i, v);
                let ghost nvs = vals@.map_values(|v: V| v.model());
                proof {
                    assert(nvs =~= vs.update(i as int, vm));
                    lemma_map_of_update(ks, vs, i as int, vm);
                }
                *self = StrMap { keys, vals };
                proof {
                    assert(self.key_seq() =~= ks);
                    assert(self.val_seq() =~= nvs);
                }
            },
            None => {
                keys.push(key);
                vals.push(v);
                let ghost nks = keys@.map_values(|s: String| s@);
                let ghost nvs = vals@.map_values(|v: V| v.model());
                proof {
                    assert(nks =~= ks.push(km));
                    assert(nvs =~= vs.push(vm));
                    assert(nks.drop_last() =~= ks);
                    assert(nvs.drop_last() =~= vs);
                    assert forall|a: int, b: int|
                        0 <= a < nks.len() && 0 <= b < nks.len() && a != b implies nks[a]
                        != nks[b] by {
                        if a == ks.len() as int && b < ks.len() {
                            assert(map_of(ks, vs).contains_key(ks[b]));
                        }
                        if b == ks.len() as int && a < ks.len() {
                            assert(map_of(ks, vs).contains_key(ks[a]));
                        }
                        if a < ks.len() && b < ks.len() {
                            assert(nks[a] == ks[a] && nks[b] == ks[b]);
                        }
                    }
                }
                *self = StrMap { keys, vals };
                proof {
                    assert(self.key_seq() =~= nks);
                    assert(self.val_seq() =~= nvs);
                }
            },
        }
    }

    /// Puts `v` in place of the `i`-th value and hands back the old one.
    pub fn replace_at(&mut self, i: usize, v: V) -> (r: V)
        requires
            i < old(self).key_seq().len(),
        ensures
            final(self)@ == old(self)@.insert(old(self).key_seq()[i as int], v.model()),
            final(self).key_seq() == old(self).key_seq(),
            r.model() == old(self)@[old(self).key_seq()[i as int]],
    {
        proof {
            use_type_invariant(&*self);
            lemma_map_of(self.key_seq(), self.val_seq());
        }
        let ghost ks = self.key_seq();
        let ghost vs = self.val_seq();
        let ghost vm = v.model();
        assert(map_of(ks, vs).contains_key(ks[i as int]));
        assert(self@[ks[i as int]] == vs[i as int]);
        let mut tmp = StrMap { keys: Vec::new(), vals: Vec::new() };
        proof {
            assert(tmp.key_seq() =~= Seq::<Seq<char>>::empty());
        }
        std::mem::swap(self, &mut tmp);
        let StrMap { keys, vals: mut vals } = tmp;
        assert(keys@.map_values(|s: String| s@) == ks);
        assert(vals@.map_values(|v: V| v.model()) == vs);
        let old_v = vals.remove(i);
        vals.insert(i, v);
        let ghost nvs = vals@.map_values(|v: V| v.model());
        proof {
            assert(nvs =~= vs.update(i as int, vm));
            assert(old_v.model() == vs[i as int]);
            lemma_map_of_update(ks, vs, i as int, vm);
        }
        *self = StrMap { keys, vals };
        proof {
            assert(self.key_seq() =~= ks);
            assert(self.val_seq() =~= nvs);
        }
        old_v
    }

    /// An exact copy.
    pub fn dup_map(&self) -> (r: Self)
        ensures
            r@ == self@,
            r.key_seq() == self.key_seq(),
            r.val_seq() == self.val_seq(),
    {
        proof {
            use_type_invariant(self);
        }
        let mut keys: Vec<String> = Vec::new();
        let mut vals: Vec<V> = Vec::new();
        let mut i: usize = 0;
        while i < self.keys.len()
            invariant
                i <= self.keys.len(),
                self.keys.len() == self.vals.len(),
                keys.len() == i,
                vals.len() == i,
                keys@.map_values(|s: String| s@) == self.key_seq().take(i as int),
                vals@.map_values(|v: V| v.model()) == self.val_seq().take(i as int),
            decreases self.keys.len() - i,
        {
            keys.push(self.keys[i].clone());
            vals.push(self.vals[i].dup());
            i = i + 1;
            assert(keys@.map_values(|s: String| s@) =~= self.key_seq().take(i as int));
            assert(vals@.map_values(|v: V| v.model()) =~= self.val_seq().take(i as int));
        }
        assert(self.key_seq().take(i as int) =~= self.key_seq());
        assert(self.val_seq().take(i as int) =~= self.val_seq());
        StrMap { keys, vals }
    }
}

} // verus!
