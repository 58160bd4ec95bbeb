//! A set of strings that keeps the order in which its members arrived.

use vstd::prelude::*;

verus! {

broadcast use vstd::seq_lib::group_seq_properties, vstd::seq_lib::group_filter_ensures;

/// The character sequences of a list of strings.
pub open spec fn views_of(v: Seq<String>) -> Seq<Seq<char>> {
    v.map_values(|s: String| s@)
}

/// A set of strings, held as a list without repetitions.
pub struct StrSet {
    items: Vec<String>,
}

impl View for StrSet {
    type V = Set<Seq<char>>;

    open spec fn view(&self) -> Set<Seq<char>> {
        self.seq_view().to_set()
    }
}

impl StrSet {
    /// The members, in the order in which they were inserted.
    pub closed spec fn seq_view(&self) -> Seq<Seq<char>> {
        views_of(self.items@)
    }

    #[verifier::type_invariant]
    closed spec fn inv(&self) -> bool {
        self.seq_view().no_duplicates()
    }

    /// The empty set.
    pub fn new() -> (r: Self)
        ensures
            r.seq_view() == Seq::<Seq<char>>::empty(),
            r@ == Set::<Seq<char>>::empty(),
    {
        let r = StrSet { items: Vec::new() };
        assert(r.seq_view() =~= Seq::<Seq<char>>::empty());
        r
    }

    /// The number of members.
    pub fn len(&self) -> (r: usize)
        ensures
            r == self.seq_view().len(),
            r == self@.len(),
    {
        proof {
            use_type_invariant(self);
            self.seq_view().unique_seq_to_set();
        }
        self.items.len()
    }

    /// The members, in insertion order.
    pub fn items(&self) -> (r: &Vec<String>)
        ensures
            views_of(r@) == self.seq_view(),
            self.seq_view().no_duplicates(),
    {
        proof {
            use_type_invariant(self);
        }
        &self.items
    }

    /// Whether `s` is a member.
    pub fn contains(&self, s: &str) -> (r: bool)
        ensures
            r == self@.contains(s@),
    {
        let k = s.to_owned();
        let mut i: usize = 0;
        while i < self.items.len()
            invariant
                i <= self.items@.len(),
                k@ == s@,
                forall|j: int| 0 <= j < i ==> self.items@[j]@ != k@,
            decreases self.items@.len() - i,
        {
            if self.items[i] == k {
                assert(self.seq_view()[i as int] == s@);
                return true;
            }
            i = i + 1;
        }
        proof {
            if self.seq_view().contains(s@) {
                let j = choose|j: int| 0 <= j < self.seq_view().len() && self.seq_view()[j] == s@;
                assert(self.items@[j]@ == s@);
            }
        }
        false
    }

    /// Adds `s` at the end, unless it is already a member; returns whether it
    /// was added.
    pub fn insert(&mut self, s: String) -> (r: bool)
        ensures
            r == !old(self)@.contains(s@),
            final(self)@ == old(self)@.insert(s@),
            final(self).seq_view() == if r {
                old(self).seq_view().push(s@)
            } else {
                old(self).seq_view()
            },
    {
        proof {
            use_type_invariant(&*self);
        }
        if self.contains(s.as_str()) {
            assert(self@.insert(s@) =~= self@);
            return false;
        }
        let ghost old_seq = self.seq_view();
        let mut items: Vec<String> = Vec::new();
        std::mem::swap(&mut items, &mut self.items);
        let ghost sv = s@;
        items.push(s);
        assert(views_of(items@) =~= old_seq.push(sv));
        self.items = items;
        proof {
            old_seq.lemma_push_to_set_commute(sv);
        }
        true
    }

    /// Removes `s`; returns whether it was a member.
    pub fn remove(&mut self, s: &str) -> (r: bool)
        ensures
            r == old(self)@.contains(s@),
            final(self)@ == old(self)@.remove(s@),
            final(self).seq_view() == old(self).seq_view().filter(|x: Seq<char>| x != s@),
    {
        proof {
            use_type_invariant(&*self);
        }
        let k = s.to_owned();
        let ghost old_seq = self.seq_view();
        let ghost pred = |x: Seq<char>| x != s@;
        let mut items: Vec<String> = Vec::new();
        std::mem::swap(&mut items, &mut self.items);
        let mut kept: Vec<String> = Vec::new();
        let mut found = false;
        let mut i: usize = 0;
        while i < items.len()
            invariant
                i <= items@.len(),
                k@ == s@,
                views_of(items@) == old_seq,
                old_seq.no_duplicates(),
                pred == (|x: Seq<char>| x != s@),
                views_of(kept@) == old_seq.take(i as int).filter(pred),
                found == old_seq.take(i as int).contains(s@),
            decreases items@.len() - i,
        {
            assert(old_seq.take(i + 1).drop_last() =~= old_seq.take(i as int));
            reveal_with_fuel(Seq::filter, 1);
            assert(old_seq.take(i + 1).filter(pred) == if pred(old_seq[i as int]) {
                old_seq.take(i as int).filter(pred).push(old_seq[i as int])
            } else {
                old_seq.take(i as int).filter(pred)
            });
            assert(old_seq[i as int] == items@[i as int]@);
            assert(old_seq.take(i + 1).last() == old_seq[i as int]);
            if items[i] == k {
                found = true;
                assert(!pred(old_seq[i as int]));
            } else {
                kept.push(items[i].clone());
                assert(views_of(kept@) =~= old_seq.take(i as int).filter(pred).push(old_seq[i as int]));
            }
            assert(old_seq.take(i + 1) =~= old_seq.take(i as int).push(old_seq[i as int]));
            i = i + 1;
        }
        assert(old_seq.take(i as int) =~= old_seq);
        proof {
            lemma_filter_no_duplicates(old_seq, pred);
        }
        self.items = kept;
        proof {
            assert forall|x: Seq<char>|
                #![trigger old_seq.filter(pred).contains(x)]
                old_seq.filter(pred).contains(x) <==> (old_seq.contains(x) && x != s@) by {
                if old_seq.contains(x) && x != s@ {
                    let j = choose|j: int| 0 <= j < old_seq.len() && old_seq[j] == x;
                    assert(old_seq.filter(pred).contains(old_seq[j]));
                }
                if old_seq.filter(pred).contains(x) {
                    old_seq.lemma_filter_contains_rev(pred, x);
                    let j = choose|j: int| 0 <= j < old_seq.filter(pred).len() && old_seq.filter(pred)[j] == x;
                    assert(pred(old_seq.filter(pred)[j]));
                }
            }
            assert(self.seq_view().to_set() =~= old_seq.to_set().remove(s@));
        }
        found
    }
}

/// Filtering keeps a list free of repetitions.
pub proof fn lemma_filter_no_duplicates(s: Seq<Seq<char>>, pred: spec_fn(Seq<char>) -> bool)
    requires
        s.no_duplicates(),
    ensures
        s.filter(pred).no_duplicates(),
    decreases s.len(),
{
    reveal_with_fuel(Seq::filter, 1);
    if s.len() > 0 {
        let init = s.drop_last();
        assert(init.no_duplicates());
        lemma_filter_no_duplicates(init, pred);
        if pred(s.last()) {
            assert(!init.contains(s.last()));
            if init.filter(pred).contains(s.last()) {
                init.lemma_filter_contains_rev(pred, s.last());
            }
            assert(s.filter(pred) == init.filter(pred).push(s.last()));
        } else {
            assert(s.filter(pred) == init.filter(pred));
        }
    }
}

impl StrSet {
    /// Adds the members of `other` that are not members yet.
    pub fn extend(&mut self, other: &StrSet)
        ensures
            final(self)@ == old(self)@.union(other@),
    {
        let items = other.items();
        let ghost oseq = views_of(items@);
        let mut i: usize = 0;
        while i < items.len()
            invariant
                i <= items@.len(),
                oseq == views_of(items@),
                oseq.to_set() == other@,
                self@ == old(self)@.union(oseq.take(i as int).to_set()),
            decreases items@.len() - i,
        {
            self.insert(items[i].clone());
            proof {
                assert(oseq.take(i + 1) =~= oseq.take(i as int).push(oseq[i as int]));
                oseq.take(i as int).lemma_push_to_set_commute(oseq[i as int]);
                assert(self@ =~= old(self)@.union(oseq.take(i + 1).to_set()));
            }
            i = i + 1;
        }
        assert(oseq.take(i as int) =~= oseq);
    }
}

impl StrSet {
    /// The members, in insertion order.
    pub fn into_items(self) -> (r: Vec<String>)
        ensures
            views_of(r@) == self.seq_view(),
            self.seq_view().no_duplicates(),
    {
        proof {
            use_type_invariant(&self);
        }
        self.items
    }
}

} // verus!
