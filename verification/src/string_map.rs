//! A map keyed by strings that keeps its keys in the order in which they
//! arrived.

use vstd::prelude::*;

use crate::string_set::views_of;

verus! {

broadcast use vstd::seq_lib::group_seq_properties;

/// A map from strings to values, held as a list of keys without repetitions
/// and a list of values of the same length.
#[verifier::reject_recursive_types(V)]
pub struct StrMap<V: DeepView> {
    keys: Vec<String>,
    vals: Vec<V>,
}

impl<V: DeepView> View for StrMap<V> {
    type V = Map<Seq<char>, V::V>;

    open spec fn view(&self) -> Map<Seq<char>, V::V> {
        self.as_map()
    }
}

impl<V: DeepView> DeepView for StrMap<V> {
    type V = Map<Seq<char>, V::V>;

    open spec fn deep_view(&self) -> Map<Seq<char>, V::V> {
        self.as_map()
    }
}

impl<V: DeepView> StrMap<V> {
    /// The keys, in the order in which they were first inserted.
    pub closed spec fn key_seq(&self) -> Seq<Seq<char>> {
        views_of(self.keys@)
    }

    /// The values, in the order of their keys.
    pub closed spec fn val_seq(&self) -> Seq<V::V> {
        self.vals@.map_values(|v: V| v.deep_view())
    }

    /// The map that the two lists stand for.
    pub closed spec fn as_map(&self) -> Map<Seq<char>, V::V> {
        Map::new(
            |k: Seq<char>| self.key_seq().contains(k),
            |k: Seq<char>| self.val_seq()[self.key_seq().index_of(k)],
        )
    }

    /// The lists have the same length and no key occurs twice.
    #[verifier::type_invariant]
    pub closed spec fn wf(&self) -> bool {
        &&& self.keys@.len() == self.vals@.len()
        &&& self.key_seq().no_duplicates()
    }

    /// The map holds exactly the listed keys, each with the value listed at
    /// its position.
    pub proof fn lemma_view(&self)
        requires
            self.wf(),
        ensures
            self@.dom() == self.key_seq().to_set(),
            self.key_seq().len() == self.val_seq().len(),
            forall|i: int|
                0 <= i < self.key_seq().len() ==> #[trigger] self@[self.key_seq()[i]]
                    == self.val_seq()[i],
    {
        assert(self@.dom() =~= self.key_seq().to_set());
        assert forall|i: int| 0 <= i < self.key_seq().len() implies #[trigger] self@[self.key_seq()[i]]
            == self.val_seq()[i] by {
            let k = self.key_seq()[i];
            assert(self.key_seq().contains(k));
            let j = self.key_seq().index_of(k);
            assert(0 <= j < self.key_seq().len() && self.key_seq()[j] == k);
        }
    }

    /// The empty map.
    pub fn new() -> (r: Self)
        ensures
            r@ == Map::<Seq<char>, V::V>::empty(),
            r.key_seq() == Seq::<Seq<char>>::empty(),
    {
        let r = StrMap { keys: Vec::new(), vals: Vec::new() };
        assert(r.key_seq() =~= Seq::<Seq<char>>::empty());
        assert(r@ =~= Map::<Seq<char>, V::V>::empty());
        r
    }

    /// The number of keys.
    pub fn len(&self) -> (r: usize)
        ensures
            r == self.key_seq().len(),
            r == self@.len(),
    {
        proof {
            use_type_invariant(self);
            self.lemma_view();
            self.key_seq().unique_seq_to_set();
        }
        self.keys.len()
    }

    /// The keys, in the order in which they were first inserted.
    pub fn keys(&self) -> (r: &Vec<String>)
        ensures
            views_of(r@) == self.key_seq(),
            self.key_seq().no_duplicates(),
    {
        proof {
            use_type_invariant(self);
        }
        &self.keys
    }

    /// The position of `key` in the list of keys.
    pub fn find(&self, key: &str) -> (r: Option<usize>)
        ensures
            match r {
                Some(i) => i < self.key_seq().len() && self.key_seq()[i as int] == key@,
                None => !self@.contains_key(key@),
            },
    {
        proof {
            use_type_invariant(self);
        }
        let k = key.to_owned();
        let mut i: usize = 0;
        while i < self.keys.len()
            invariant
                i <= self.keys@.len(),
                k@ == key@,
                forall|j: int| 0 <= j < i ==> self.keys@[j]@ != k@,
            decreases self.keys@.len() - i,
        {
            if self.keys[i] == k {
                return Some(i);
            }
            i = i + 1;
        }
        proof {
            if self.key_seq().contains(key@) {
                let j = choose|j: int| 0 <= j < self.key_seq().len() && self.key_seq()[j] == key@;
                assert(self.keys@[j]@ == key@);
            }
        }
        None
    }

    /// The value stored under `key`, if any.
    pub fn get(&self, key: &str) -> (r: Option<&V>)
        ensures
            r is Some <==> self@.contains_key(key@),
            r matches Some(v) ==> v.deep_view() == self@[key@],
    {
        proof {
            use_type_invariant(self);
            self.lemma_view();
        }
        match self.find(key) {
            Some(i) => {
                assert(self.val_seq()[i as int] == self.vals@[i as int].deep_view());
                Some(&self.vals[i])
            },
            None => None,
        }
    }

    /// Stores `value` under `key`, replacing what was there.
    pub fn insert(&mut self, key: String, value: V)
        ensures
            final(self)@ == old(self)@.insert(key@, value.deep_view()),
            final(self).key_seq() == if old(self)@.contains_key(key@) {
                old(self).key_seq()
            } else {
                old(self).key_seq().push(key@)
            },
    {
        proof {
            use_type_invariant(&*self);
            self.lemma_view();
        }
        let ghost old_map = self@;
        let ghost vv = value.deep_view();
        let ghost kv = key@;
        match self.find(key.as_str()) {
            Some(i) => {
                let mut whole = StrMap::new();
                std::mem::swap(self, &mut whole);
                let StrMap { keys, mut vals } = whole;
                vals.set(i, value);
                assert(views_of(keys@) == old(self).key_seq());
                *self = StrMap { keys, vals };
                assert(self.key_seq() == old(self).key_seq());
                assert(self.val_seq() =~= old(self).val_seq().update(i as int, vv));
                proof {
                    self.lemma_view();
                    assert forall|k: Seq<char>| #[trigger] self@.contains_key(k) implies self@[k]
                        == old_map.insert(kv, vv)[k] by {
                        let j = self.key_seq().index_of(k);
                        assert(self@[self.key_seq()[j]] == self.val_seq()[j]);
                        assert(old_map[old(self).key_seq()[j]] == old(self).val_seq()[j]);
                    }
                    assert(self@ =~= old_map.insert(kv, vv));
                }
            },
            None => {
                let mut whole = StrMap::new();
                std::mem::swap(self, &mut whole);
                let StrMap { mut keys, mut vals } = whole;
                keys.push(key);
                vals.push(value);
                assert(views_of(keys@) =~= old(self).key_seq().push(kv));
                proof {
                    if !views_of(keys@).no_duplicates() {
                        let (a, b) = choose|a: int, b: int|
                            0 <= a < keys@.len() && 0 <= b < keys@.len() && a != b
                                && views_of(keys@)[a] == views_of(keys@)[b];
                        if a < old(self).key_seq().len() && b < old(self).key_seq().len() {
                        } else if a < old(self).key_seq().len() {
                            assert(old(self).key_seq().contains(kv));
                        } else {
                            assert(old(self).key_seq().contains(kv));
                        }
                    }
                }
                *self = StrMap { keys, vals };
                assert(self.key_seq() =~= old(self).key_seq().push(kv));
                assert(self.val_seq() =~= old(self).val_seq().push(vv));
                proof {
                    self.lemma_view();
                    old(self).key_seq().lemma_push_to_set_commute(kv);
                    assert forall|k: Seq<char>| #[trigger] self@.contains_key(k) implies self@[k]
                        == old_map.insert(kv, vv)[k] by {
                        let j = self.key_seq().index_of(k);
                        assert(self@[self.key_seq()[j]] == self.val_seq()[j]);
                        if j < old(self).key_seq().len() {
                            assert(old_map[old(self).key_seq()[j]] == old(self).val_seq()[j]);
                        }
                    }
                    assert(self@ =~= old_map.insert(kv, vv));
                }
            },
        }
    }
}

impl StrMap<Vec<String>> {
    /// Appends `item` to the list stored under `key`, starting a new list
    /// when there is none.
    pub fn push_item(&mut self, key: String, item: String)
        ensures
            final(self)@ == old(self)@.insert(
                key@,
                if old(self)@.contains_key(key@) {
                    old(self)@[key@].push(item@)
                } else {
                    seq![item@]
                },
            ),
            final(self).key_seq() == if old(self)@.contains_key(key@) {
                old(self).key_seq()
            } else {
                old(self).key_seq().push(key@)
            },
    {
        proof {
            use_type_invariant(&*self);
            self.lemma_view();
        }
        match self.find(key.as_str()) {
            Some(i) => {
                let ghost old_map = self@;
                let ghost kv = key@;
                let mut whole = StrMap::new();
                std::mem::swap(self, &mut whole);
                let StrMap { keys, mut vals } = whole;
                let mut list = vals.remove(i);
                let ghost old_list = list.deep_view();
                assert(old_list == old(self).val_seq()[i as int]);
                assert(old_map[kv] == old_list);
                list.push(item);
                let ghost new_list = list.deep_view();
                assert(new_list =~= old_list.push(item@));
                vals.insert(i, list);
                assert(views_of(keys@) == old(self).key_seq());
                *self = StrMap { keys, vals };
                assert(self.key_seq() == old(self).key_seq());
                assert(self.val_seq() =~= old(self).val_seq().update(i as int, new_list));
                proof {
                    self.lemma_view();
                    assert forall|k: Seq<char>| #[trigger] self@.contains_key(k) implies self@[k]
                        == old_map.insert(kv, new_list)[k] by {
                        let j = self.key_seq().index_of(k);
                        assert(self@[self.key_seq()[j]] == self.val_seq()[j]);
                        assert(old_map[old(self).key_seq()[j]] == old(self).val_seq()[j]);
                    }
                    assert(self@ =~= old_map.insert(kv, new_list));
                }
            },
            None => {
                let mut list: Vec<String> = Vec::new();
                let ghost iv = item@;
                list.push(item);
                assert(list.deep_view() =~= seq![iv]);
                self.insert(key, list);
            },
        }
    }
}

} // verus!
