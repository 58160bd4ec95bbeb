//! The pad maker: the list of charts (piece and part) that make up a
//! musician's pad, and what is exported of it.

use vstd::prelude::*;

use itertools::Itertools;

use crate::chart_manager::{default_parts, ChartManager, PartListNotLoaded};
use crate::string_set::{views_of, StrSet};
use crate::text::{
    decimal, decimal_chars, digits_value, is_digit_char, lemma_decimal_reads_back,
    lemma_digits_value_leading_zero, push_all,
};
use crate::unicode::{chars_of, string_from_chars};

verus! {

/// One chart in a pad: a piece and the part of it to print.
pub struct Entry {
    /// An identifier that no other entry of the pad has.
    pub id: u64,
    /// The piece.
    pub piece: String,
    /// The part.
    pub part: String,
}

/// Every entry's id is below `counter`, and no two entries share an id.
pub open spec fn ids_fresh_and_unique(entries: Seq<Entry>, counter: u64) -> bool {
    &&& forall|i: int| 0 <= i < entries.len() ==> #[trigger] entries[i].id < counter
    &&& forall|i: int, j: int|
        0 <= i < entries.len() && 0 <= j < entries.len() && i != j ==> #[trigger] entries[i].id
            != #[trigger] entries[j].id
}

/// The parts of a list of entries.
pub open spec fn parts_of(entries: Seq<Entry>) -> Seq<Seq<char>> {
    entries.map_values(|e: Entry| e.part@)
}

/// Calls `Itertools::counts` on `parts` and lists what it counted: each
/// part that occurs, once, with the number of its occurrences.
#[verifier::external_body]
fn part_counts(parts: &Vec<String>) -> (r: Vec<(String, usize)>)
    ensures
        forall|i: int|
            0 <= i < r@.len() ==> #[trigger] views_of(parts@).to_multiset().count(r@[i].0@)
                == r@[i].1 as nat && r@[i].1 > 0,
        forall|i: int, j: int|
            0 <= i < r@.len() && 0 <= j < r@.len() && i != j ==> #[trigger] r@[i].0@ != #[trigger] r@[j].0@,
        forall|x: Seq<char>|
            #[trigger] views_of(parts@).to_multiset().count(x) > 0 ==> exists|i: int|
                0 <= i < r@.len() && #[trigger] r@[i].0@ == x,
{
    parts.iter().counts().into_iter().map(|(p, c)| (p.clone(), c)).collect()
}

/// The list of charts that make up a musician's pad.
pub struct PadMaker {
    entries: Vec<Entry>,
    set_all_part_dropdown_value: String,
    id_counter: u64,
}

impl PadMaker {
    /// The entries, in order.
    pub closed spec fn entries(&self) -> Seq<Entry> {
        self.entries@
    }

    /// The part chosen for "set all parts".
    pub closed spec fn set_all_part(&self) -> Seq<char> {
        self.set_all_part_dropdown_value@
    }

    /// The id that the next new entry gets.
    pub closed spec fn id_counter(&self) -> u64 {
        self.id_counter
    }

    /// Ids are below the counter and unique.
    pub open spec fn wf(&self) -> bool {
        ids_fresh_and_unique(self.entries(), self.id_counter())
    }

    /// A pad with the given entries, "set all parts" choice and counter.
    pub fn from_parts(entries: Vec<Entry>, set_all_part_dropdown_value: String, id_counter: u64) -> (r:
        Self)
        ensures
            r.entries() == entries@,
            r.set_all_part() == set_all_part_dropdown_value@,
            r.id_counter() == id_counter,
    {
        PadMaker { entries, set_all_part_dropdown_value, id_counter }
    }

    /// The entries, in order.
    pub fn get_entries(&self) -> (r: &Vec<Entry>)
        ensures
            r@ == self.entries(),
    {
        &self.entries
    }

    /// The part chosen for "set all parts".
    pub fn get_set_all_part(&self) -> (r: &str)
        ensures
            r@ == self.set_all_part(),
    {
        self.set_all_part_dropdown_value.as_str()
    }

    /// The id that the next new entry gets.
    pub fn get_id_counter(&self) -> (r: u64)
        ensures
            r == self.id_counter(),
    {
        self.id_counter
    }

    /// Replaces the entries (as reordered or edited by the user).
    pub fn set_entries(&mut self, entries: Vec<Entry>)
        ensures
            final(self).entries() == entries@,
            final(self).set_all_part() == old(self).set_all_part(),
            final(self).id_counter() == old(self).id_counter(),
    {
        self.entries = entries;
    }

    /// Chooses the part for "set all parts".
    pub fn set_set_all_part(&mut self, part: String)
        ensures
            final(self).entries() == old(self).entries(),
            final(self).set_all_part() == part@,
            final(self).id_counter() == old(self).id_counter(),
    {
        self.set_all_part_dropdown_value = part;
    }

    /// A new entry for `part` of `piece`, with the next id.
    pub fn new_entry(&mut self, piece: String, part: String) -> (e: Entry)
        requires
            old(self).id_counter() < u64::MAX,
        ensures
            e.id == old(self).id_counter(),
            e.piece == piece,
            e.part == part,
            final(self).id_counter() == old(self).id_counter() + 1,
            final(self).entries() == old(self).entries(),
            final(self).set_all_part() == old(self).set_all_part(),
    {
        let id = self.id_counter;
        self.id_counter = self.id_counter + 1;
        Entry { id, piece, part }
    }

    /// Makes the pad the given setlist, every piece with `part`; the entries
    /// get the next ids, in order.
    pub fn set_setlist(&mut self, pieces: &[String], part: &str)
        requires
            old(self).id_counter() + pieces@.len() <= u64::MAX,
        ensures
            final(self).entries().len() == pieces@.len(),
            forall|i: int|
                0 <= i < pieces@.len() ==> {
                    &&& #[trigger] final(self).entries()[i].id == old(self).id_counter() + i
                    &&& final(self).entries()[i].piece@ == pieces@[i]@
                    &&& final(self).entries()[i].part@ == part@
                },
            final(self).id_counter() == old(self).id_counter() + pieces@.len(),
            final(self).set_all_part() == old(self).set_all_part(),
            final(self).wf(),
    {
        self.entries.clear();
        let mut i: usize = 0;
        while i < pieces.len()
            invariant
                i <= pieces@.len(),
                self.id_counter() == old(self).id_counter() + i,
                old(self).id_counter() + pieces@.len() <= u64::MAX,
                self.set_all_part() == old(self).set_all_part(),
                self.entries().len() == i,
                forall|k: int|
                    0 <= k < i ==> {
                        &&& #[trigger] self.entries()[k].id == old(self).id_counter() + k
                        &&& self.entries()[k].piece@ == pieces@[k]@
                        &&& self.entries()[k].part@ == part@
                    },
            decreases pieces@.len() - i,
        {
            let entry = self.new_entry(pieces[i].clone(), part.to_owned());
            self.entries.push(entry);
            i = i + 1;
        }
    }

    /// The part that most entries have ("Trombone 1" for an empty pad); of
    /// parts that are equally common, any may be chosen.
    pub fn get_most_common_part(&self) -> (r: String)
        ensures
            self.entries().len() == 0 ==> r@ == "Trombone 1"@,
            self.entries().len() > 0 ==> parts_of(self.entries()).to_multiset().count(r@) > 0,
            forall|x: Seq<char>|
                #[trigger] parts_of(self.entries()).to_multiset().count(x) <= parts_of(
                    self.entries(),
                ).to_multiset().count(r@),
    {
        let mut parts: Vec<String> = Vec::new();
        let mut i: usize = 0;
        while i < self.entries.len()
            invariant
                i <= self.entries@.len(),
                views_of(parts@) == parts_of(self.entries@.take(i as int)),
            decreases self.entries@.len() - i,
        {
            parts.push(self.entries[i].part.clone());
            assert(parts_of(self.entries@.take(i + 1)) =~= parts_of(self.entries@.take(i as int)).push(
                self.entries@[i as int].part@));
            assert(views_of(parts@) =~= parts_of(self.entries@.take(i as int)).push(
                self.entries@[i as int].part@));
            i = i + 1;
        }
        assert(self.entries@.take(i as int) =~= self.entries@);
        let ghost ms = parts_of(self.entries()).to_multiset();
        let counts = part_counts(&parts);
        if counts.len() == 0 {
            proof {
                if self.entries().len() > 0 {
                    broadcast use vstd::seq_lib::group_to_multiset_ensures;
                    assert(parts_of(self.entries()).to_multiset().count(parts_of(self.entries())[0]) > 0);
                }
                assert forall|x: Seq<char>| #[trigger] ms.count(x) <= ms.count("Trombone 1"@) by {
                    if ms.count(x) > 0 {
                        let j = choose|j: int| 0 <= j < counts@.len() && #[trigger] counts@[j].0@ == x;
                    }
                }
            }
            return "Trombone 1".to_owned();
        }
        let mut best: usize = 0;
        let mut k: usize = 1;
        while k < counts.len()
            invariant
                0 <= best < k <= counts@.len(),
                forall|j: int| 0 <= j < k ==> #[trigger] counts@[j].1 <= counts@[best as int].1,
            decreases counts@.len() - k,
        {
            if counts[k].1 >= counts[best].1 {
                best = k;
            }
            k = k + 1;
        }
        let r = counts[best].0.clone();
        proof {
            assert(ms.count(counts@[best as int].0@) == counts@[best as int].1);
            assert forall|x: Seq<char>| #[trigger] ms.count(x) <= ms.count(r@) by {
                if ms.count(x) > 0 {
                    let j = choose|j: int| 0 <= j < counts@.len() && #[trigger] counts@[j].0@ == x;
                    assert(ms.count(counts@[j].0@) == counts@[j].1);
                }
            }
            if self.entries().len() == 0 {
                broadcast use vstd::seq_lib::group_to_multiset_ensures;
                assert(parts_of(self.entries()) =~= Seq::<Seq<char>>::empty());
                assert(ms.count(counts@[0].0@) == 0);
            }
        }
        r
    }
}

/// Whether entry `i` is duplicated: marked to be cloned and not to be
/// deleted.
pub open spec fn is_duplicated(i: int, to_clone: Seq<usize>, to_delete: Seq<usize>) -> bool {
    !to_delete.contains(i as usize) && to_clone.contains(i as usize)
}

/// How many of the first `k` entries are duplicated.
pub open spec fn duplicated_count(k: int, to_clone: Seq<usize>, to_delete: Seq<usize>) -> nat
    decreases k,
{
    if k <= 0 {
        0
    } else {
        duplicated_count(k - 1, to_clone, to_delete) + if is_duplicated(k - 1, to_clone, to_delete) {
            1nat
        } else {
            0nat
        }
    }
}

/// The entries after deleting those marked to be deleted and duplicating
/// those marked to be cloned: a duplicate comes right before its original,
/// and the duplicates get ids from `counter` on, in order.
pub open spec fn rebuilt_entries(
    entries: Seq<Entry>,
    to_clone: Seq<usize>,
    to_delete: Seq<usize>,
    counter: int,
) -> Seq<Entry>
    decreases entries.len(),
{
    if entries.len() == 0 {
        Seq::empty()
    } else {
        let k = entries.len() - 1;
        let prev = rebuilt_entries(entries.drop_last(), to_clone, to_delete, counter);
        let e = entries.last();
        if to_delete.contains(k as usize) {
            prev
        } else if to_clone.contains(k as usize) {
            prev.push(
                Entry {
                    id: (counter + duplicated_count(k, to_clone, to_delete)) as u64,
                    piece: e.piece,
                    part: e.part,
                },
            ).push(e)
        } else {
            prev.push(e)
        }
    }
}

impl PadMaker {
    /// Adds an empty entry for the most common part.
    pub fn add_entry(&mut self)
        requires
            old(self).id_counter() < u64::MAX,
        ensures
            final(self).entries().len() == old(self).entries().len() + 1,
            final(self).entries().drop_last() == old(self).entries(),
            final(self).entries().last().id == old(self).id_counter(),
            final(self).entries().last().piece@ == Seq::<char>::empty(),
            forall|x: Seq<char>|
                #[trigger] parts_of(old(self).entries()).to_multiset().count(x) <= parts_of(
                    old(self).entries(),
                ).to_multiset().count(final(self).entries().last().part@),
            old(self).entries().len() == 0 ==> final(self).entries().last().part@ == "Trombone 1"@,
            final(self).id_counter() == old(self).id_counter() + 1,
            final(self).set_all_part() == old(self).set_all_part(),
            old(self).wf() ==> final(self).wf(),
    {
        let part = self.get_most_common_part();
        let entry = self.new_entry("".to_owned(), part);
        proof {
            reveal_strlit("");
        }
        self.entries.push(entry);
        assert(self.entries@.drop_last() =~= old(self).entries@);
    }

    /// Sets every entry's part to the part chosen for "set all parts".
    pub fn set_all_parts(&mut self)
        ensures
            final(self).entries().len() == old(self).entries().len(),
            forall|i: int|
                0 <= i < old(self).entries().len() ==> {
                    &&& #[trigger] final(self).entries()[i].id == old(self).entries()[i].id
                    &&& final(self).entries()[i].piece == old(self).entries()[i].piece
                    &&& final(self).entries()[i].part@ == old(self).set_all_part()
                },
            final(self).id_counter() == old(self).id_counter(),
            final(self).set_all_part() == old(self).set_all_part(),
            old(self).wf() ==> final(self).wf(),
    {
        let mut entries: Vec<Entry> = Vec::new();
        std::mem::swap(&mut entries, &mut self.entries);
        let mut out: Vec<Entry> = Vec::new();
        let mut i: usize = 0;
        while i < entries.len()
            invariant
                i <= entries@.len(),
                entries@ == old(self).entries(),
                self.set_all_part() == old(self).set_all_part(),
                out@.len() == i,
                forall|k: int|
                    0 <= k < i ==> {
                        &&& #[trigger] out@[k].id == entries@[k].id
                        &&& out@[k].piece == entries@[k].piece
                        &&& out@[k].part@ == old(self).set_all_part()
                    },
            decreases entries@.len() - i,
        {
            let e = &entries[i];
            out.push(
                Entry {
                    id: e.id,
                    piece: e.piece.clone(),
                    part: self.set_all_part_dropdown_value.clone(),
                },
            );
            i = i + 1;
        }
        self.entries = out;
    }

    /// Deletes the entries at the positions in `to_delete` and duplicates
    /// those at the positions in `to_clone` (a position in both is deleted);
    /// a duplicate gets the next id and comes right before its original.
    pub fn apply_clone_and_delete(&mut self, to_clone: &Vec<usize>, to_delete: &Vec<usize>)
        requires
            old(self).id_counter() + duplicated_count(
                old(self).entries().len() as int,
                to_clone@,
                to_delete@,
            ) <= u64::MAX,
        ensures
            final(self).entries() == rebuilt_entries(
                old(self).entries(),
                to_clone@,
                to_delete@,
                old(self).id_counter() as int,
            ),
            final(self).id_counter() == old(self).id_counter() + duplicated_count(
                old(self).entries().len() as int,
                to_clone@,
                to_delete@,
            ),
            final(self).set_all_part() == old(self).set_all_part(),
            old(self).wf() ==> final(self).wf(),
    {
        let ghost old_entries = old(self).entries();
        let ghost counter = old(self).id_counter() as int;
        let mut entries: Vec<Entry> = Vec::new();
        std::mem::swap(&mut entries, &mut self.entries);
        let mut i: usize = 0;
        assert(old_entries.take(0) =~= Seq::<Entry>::empty());
        while i < entries.len()
            invariant
                i <= entries@.len(),
                entries@ == old_entries,
                counter == old(self).id_counter(),
                counter + duplicated_count(old_entries.len() as int, to_clone@, to_delete@) <= u64::MAX,
                self.id_counter() == counter + duplicated_count(i as int, to_clone@, to_delete@),
                self.set_all_part() == old(self).set_all_part(),
                self.entries() == rebuilt_entries(old_entries.take(i as int), to_clone@, to_delete@, counter),
                ids_fresh_and_unique(old_entries, counter as u64) ==> {
                    &&& forall|a: int, b: int|
                        0 <= a < self.entries().len() && 0 <= b < self.entries().len() && a != b
                            ==> #[trigger] self.entries()[a].id != #[trigger] self.entries()[b].id
                    &&& forall|a: int|
                        0 <= a < self.entries().len() ==> {
                            ||| counter <= #[trigger] self.entries()[a].id < self.id_counter()
                            ||| exists|j: int|
                                0 <= j < i && old_entries[j].id == self.entries()[a].id
                        }
                },
            decreases entries@.len() - i,
        {
            proof {
                lemma_duplicated_count_monotone(i + 1, old_entries.len() as int, to_clone@, to_delete@);
                assert(old_entries.take(i + 1).drop_last() =~= old_entries.take(i as int));
            }
            let e = &entries[i];
            if !contains_index(to_delete, i) {
                if contains_index(to_clone, i) {
                    let duplicate = self.new_entry(e.piece.clone(), e.part.clone());
                    self.entries.push(duplicate);
                }
                self.entries.push(Entry { id: e.id, piece: e.piece.clone(), part: e.part.clone() });
            }
            i = i + 1;
        }
        assert(old_entries.take(i as int) =~= old_entries);
    }
}

/// Whether `i` is among `v`.
fn contains_index(v: &Vec<usize>, i: usize) -> (r: bool)
    ensures
        r == v@.contains(i),
{
    let mut k: usize = 0;
    while k < v.len()
        invariant
            k <= v@.len(),
            forall|j: int| 0 <= j < k ==> v@[j] != i,
        decreases v@.len() - k,
    {
        if v[k] == i {
            return true;
        }
        k = k + 1;
    }
    false
}

/// Counting the duplicated entries among more entries gives no fewer.
proof fn lemma_duplicated_count_monotone(a: int, b: int, to_clone: Seq<usize>, to_delete: Seq<usize>)
    requires
        a <= b,
    ensures
        duplicated_count(a, to_clone, to_delete) <= duplicated_count(b, to_clone, to_delete),
    decreases b - a,
{
    if a < b {
        lemma_duplicated_count_monotone(a, b - 1, to_clone, to_delete);
    }
}

/// The parts of `piece` are known, or it is not a piece at all.
pub open spec fn parts_resolved(cm: ChartManager, piece: Seq<char>) -> bool {
    !cm.pieces().contains(piece) || cm.loaded_parts().contains_key(piece)
}

/// The part names offered for `piece`: its own parts when they are known,
/// the default parts otherwise.
pub open spec fn part_names_for(cm: ChartManager, piece: Seq<char>) -> Set<Seq<char>> {
    if cm.loaded_parts().contains_key(piece) {
        cm.loaded_parts()[piece].dom()
    } else {
        default_parts()
    }
}

/// The position of the first entry whose piece's parts are not known yet.
pub open spec fn first_unresolved(cm: ChartManager, entries: Seq<Entry>) -> Option<int>
    decreases entries.len(),
{
    if entries.len() == 0 {
        None
    } else {
        match first_unresolved(cm, entries.drop_last()) {
            Some(i) => Some(i),
            None => if parts_resolved(cm, entries.last().piece@) {
                None
            } else {
                Some(entries.len() - 1)
            },
        }
    }
}

/// The default parts together with the parts offered for every entry's
/// piece.
pub open spec fn parts_used(cm: ChartManager, entries: Seq<Entry>) -> Set<Seq<char>>
    decreases entries.len(),
{
    if entries.len() == 0 {
        default_parts()
    } else {
        parts_used(cm, entries.drop_last()).union(part_names_for(cm, entries.last().piece@))
    }
}

/// The path of an entry's PDF, when its piece has that part.
pub open spec fn entry_path(cm: ChartManager, e: Entry) -> Option<Seq<char>> {
    if cm.loaded_parts().contains_key(e.piece@) && cm.loaded_parts()[e.piece@].contains_key(e.part@) {
        Some(cm.loaded_parts()[e.piece@][e.part@])
    } else {
        None
    }
}

/// The paths of the PDFs of the entries that have one, in order.
pub open spec fn pdf_paths_of(cm: ChartManager, entries: Seq<Entry>) -> Seq<Seq<char>>
    decreases entries.len(),
{
    if entries.len() == 0 {
        Seq::empty()
    } else {
        let prev = pdf_paths_of(cm, entries.drop_last());
        match entry_path(cm, entries.last()) {
            Some(p) => prev.push(p),
            None => prev,
        }
    }
}

/// The file name under which entry `idx` of a pad is exported: its number
/// with at least two digits, the piece and the part.
pub open spec fn export_file_name_of(idx: nat, piece: Seq<char>, part: Seq<char>) -> Seq<char> {
    let digits = decimal(idx);
    let number = if digits.len() < 2 {
        seq!['0'] + digits
    } else {
        digits
    };
    number + " "@ + piece + " - "@ + part + ".pdf"@
}

/// For every entry that has a PDF, the path of the PDF and the name under
/// which it is exported, in order.
pub open spec fn exports_of(cm: ChartManager, entries: Seq<Entry>) -> Seq<(Seq<char>, Seq<char>)>
    decreases entries.len(),
{
    if entries.len() == 0 {
        Seq::empty()
    } else {
        let prev = exports_of(cm, entries.drop_last());
        let e = entries.last();
        match entry_path(cm, e) {
            Some(p) => prev.push((p, export_file_name_of((entries.len() - 1) as nat, e.piece@, e.part@))),
            None => prev,
        }
    }
}

/// The name under which entry `idx` of a pad is exported, such as
/// "03 Moanin' - Trumpet 2.pdf".
pub fn export_file_name(idx: usize, piece: &str, part: &str) -> (r: String)
    ensures
        r@ == export_file_name_of(idx as nat, piece@, part@),
{
    let digits = decimal_chars(idx);
    let mut cs: Vec<char> = Vec::new();
    if digits.len() < 2 {
        cs.push('0');
    }
    push_all(&mut cs, digits.as_slice());
    let space = chars_of(" ");
    push_all(&mut cs, space.as_slice());
    let p = chars_of(piece);
    push_all(&mut cs, p.as_slice());
    let sep = chars_of(" - ");
    push_all(&mut cs, sep.as_slice());
    let q = chars_of(part);
    push_all(&mut cs, q.as_slice());
    let ext = chars_of(".pdf");
    push_all(&mut cs, ext.as_slice());
    let ghost digits_v = decimal(idx as nat);
    let ghost number = if digits_v.len() < 2 {
        seq!['0'] + digits_v
    } else {
        digits_v
    };
    assert(cs@ =~= number + " "@ + piece@ + " - "@ + part@ + ".pdf"@);
    string_from_chars(cs.as_slice())
}

/// The name under which entry `idx` is exported starts with `idx` in
/// decimal digits, at least two of them, followed by a space; so the files
/// of a pad sort in the pad's order.
pub proof fn lemma_export_file_name_number(idx: nat, piece: Seq<char>, part: Seq<char>)
    ensures
        ({
            let name = export_file_name_of(idx, piece, part);
            let w = if decimal(idx).len() < 2 {
                2int
            } else {
                decimal(idx).len() as int
            };
            &&& w < name.len()
            &&& forall|i: int| 0 <= i < w ==> is_digit_char(#[trigger] name[i])
            &&& digits_value(name.take(w)) == idx
            &&& name[w] == ' '
        }),
{
    reveal_strlit(" ");
    lemma_decimal_reads_back(idx);
    let digits = decimal(idx);
    let number = if digits.len() < 2 {
        seq!['0'] + digits
    } else {
        digits
    };
    let name = export_file_name_of(idx, piece, part);
    let w = number.len() as int;
    assert(name.take(w) =~= number);
    assert(name[w] == ' ');
    if digits.len() < 2 {
        lemma_digits_value_leading_zero(digits);
        assert forall|i: int| 0 <= i < w implies is_digit_char(#[trigger] name[i]) by {
            if i > 0 {
                assert(name[i] == digits[i - 1]);
            } else {
                assert(name[0] == '0');
            }
        }
    } else {
        assert forall|i: int| 0 <= i < w implies is_digit_char(#[trigger] name[i]) by {
            assert(name[i] == digits[i]);
        }
    }
}

impl PadMaker {
    /// The default parts and the parts of every entry's piece; an error
    /// names the first entry's piece whose parts are not known yet.
    pub fn get_parts_used_in_any_piece(&self, chart_manager: &ChartManager) -> (r: Result<
        StrSet,
        PartListNotLoaded,
    >)
        requires
            chart_manager.wf(),
        ensures
            first_unresolved(*chart_manager, self.entries()) is None <==> r is Ok,
            r matches Ok(s) ==> s@ == parts_used(*chart_manager, self.entries()),
            r matches Err(e) ==> e.piece@ == self.entries()[first_unresolved(
                *chart_manager,
                self.entries(),
            )->0].piece@,
    {
        let mut part_list = ChartManager::default_part_list();
        let mut i: usize = 0;
        while i < self.entries.len()
            invariant
                i <= self.entries@.len(),
                chart_manager.wf(),
                first_unresolved(*chart_manager, self.entries@.take(i as int)) is None,
                part_list@ == parts_used(*chart_manager, self.entries@.take(i as int)),
            decreases self.entries@.len() - i,
        {
            assert(self.entries@.take(i + 1).drop_last() =~= self.entries@.take(i as int));
            match chart_manager.get_part_list_or_default(self.entries[i].piece.as_str()) {
                Ok(parts) => {
                    part_list.extend(&parts);
                },
                Err(e) => {
                    proof {
                        lemma_first_unresolved_prefix(*chart_manager, self.entries@, i + 1);
                    }
                    return Err(e);
                },
            }
            i = i + 1;
        }
        assert(self.entries@.take(i as int) =~= self.entries@);
        Ok(part_list)
    }

    /// The paths of the PDFs of the entries that have one, in order; an
    /// error names the first entry's piece whose parts are not known yet.
    pub fn pdf_paths(&self, chart_manager: &ChartManager) -> (r: Result<Vec<String>, PartListNotLoaded>)
        requires
            chart_manager.wf(),
        ensures
            first_unresolved(*chart_manager, self.entries()) is None <==> r is Ok,
            r matches Ok(v) ==> views_of(v@) == pdf_paths_of(*chart_manager, self.entries()),
            r matches Err(e) ==> e.piece@ == self.entries()[first_unresolved(
                *chart_manager,
                self.entries(),
            )->0].piece@,
    {
        let mut paths: Vec<String> = Vec::new();
        let mut i: usize = 0;
        while i < self.entries.len()
            invariant
                i <= self.entries@.len(),
                chart_manager.wf(),
                first_unresolved(*chart_manager, self.entries@.take(i as int)) is None,
                views_of(paths@) == pdf_paths_of(*chart_manager, self.entries@.take(i as int)),
            decreases self.entries@.len() - i,
        {
            assert(self.entries@.take(i + 1).drop_last() =~= self.entries@.take(i as int));
            let entry = &self.entries[i];
            match chart_manager.get_path_of_part(entry.piece.as_str(), entry.part.as_str()) {
                Ok(Some(path)) => {
                    paths.push(path);
                    assert(views_of(paths@) =~= pdf_paths_of(*chart_manager, self.entries@.take(i + 1)));
                },
                Ok(None) => {},
                Err(e) => {
                    proof {
                        lemma_first_unresolved_prefix(*chart_manager, self.entries@, i + 1);
                    }
                    return Err(e);
                },
            }
            i = i + 1;
        }
        assert(self.entries@.take(i as int) =~= self.entries@);
        Ok(paths)
    }

    /// For every entry that has a PDF, the path of the PDF and the name under
    /// which it is exported, in order; an error names the first entry's piece
    /// whose parts are not known yet.
    pub fn export_list(&self, chart_manager: &ChartManager) -> (r: Result<
        Vec<(String, String)>,
        PartListNotLoaded,
    >)
        requires
            chart_manager.wf(),
        ensures
            first_unresolved(*chart_manager, self.entries()) is None <==> r is Ok,
            r matches Ok(v) ==> v@.len() == exports_of(*chart_manager, self.entries()).len() && forall|
                k: int,
            |
                0 <= k < v@.len() ==> (#[trigger] v@[k]).0@ == exports_of(
                    *chart_manager,
                    self.entries(),
                )[k].0 && v@[k].1@ == exports_of(*chart_manager, self.entries())[k].1,
            r matches Err(e) ==> e.piece@ == self.entries()[first_unresolved(
                *chart_manager,
                self.entries(),
            )->0].piece@,
    {
        let mut out: Vec<(String, String)> = Vec::new();
        let mut i: usize = 0;
        while i < self.entries.len()
            invariant
                i <= self.entries@.len(),
                chart_manager.wf(),
                first_unresolved(*chart_manager, self.entries@.take(i as int)) is None,
                out@.len() == exports_of(*chart_manager, self.entries@.take(i as int)).len(),
                forall|k: int|
                    0 <= k < out@.len() ==> (#[trigger] out@[k]).0@ == exports_of(
                        *chart_manager,
                        self.entries@.take(i as int),
                    )[k].0 && out@[k].1@ == exports_of(*chart_manager, self.entries@.take(i as int))[k].1,
            decreases self.entries@.len() - i,
        {
            assert(self.entries@.take(i + 1).drop_last() =~= self.entries@.take(i as int));
            assert(self.entries@.take(i + 1).last() == self.entries@[i as int]);
            let entry = &self.entries[i];
            match chart_manager.get_path_of_part(entry.piece.as_str(), entry.part.as_str()) {
                Ok(Some(path)) => {
                    let name = export_file_name(i, entry.piece.as_str(), entry.part.as_str());
                    out.push((path, name));
                },
                Ok(None) => {},
                Err(e) => {
                    proof {
                        lemma_first_unresolved_prefix(*chart_manager, self.entries@, i + 1);
                    }
                    return Err(e);
                },
            }
            i = i + 1;
        }
        assert(self.entries@.take(i as int) =~= self.entries@);
        Ok(out)
    }
}

/// The first unresolved entry of a prefix is the first unresolved entry of
/// the whole list.
proof fn lemma_first_unresolved_prefix(cm: ChartManager, entries: Seq<Entry>, k: int)
    requires
        0 <= k <= entries.len(),
        first_unresolved(cm, entries.take(k)) is Some,
    ensures
        first_unresolved(cm, entries) == first_unresolved(cm, entries.take(k)),
    decreases entries.len() - k,
{
    if k < entries.len() {
        assert(entries.take(k + 1).drop_last() =~= entries.take(k));
        lemma_first_unresolved_prefix(cm, entries, k + 1);
    } else {
        assert(entries.take(k) =~= entries);
    }
}

impl Default for PadMaker {
    /// A pad with two charts for "Trombone 4".
    fn default() -> (r: Self)
        ensures
            r.entries().len() == 2,
            r.entries()[0].id == 0,
            r.entries()[0].piece@ == "The Jazz Police"@,
            r.entries()[0].part@ == "Trombone 4"@,
            r.entries()[1].id == 1,
            r.entries()[1].piece@ == "A Few Good Men"@,
            r.entries()[1].part@ == "Trombone 4"@,
            r.set_all_part() == "Trombone 4"@,
            r.id_counter() == 2,
            r.wf(),
    {
        let mut entries: Vec<Entry> = Vec::new();
        entries.push(
            Entry { id: 0, piece: "The Jazz Police".to_owned(), part: "Trombone 4".to_owned() },
        );
        entries.push(
            Entry { id: 1, piece: "A Few Good Men".to_owned(), part: "Trombone 4".to_owned() },
        );
        PadMaker {
            entries,
            set_all_part_dropdown_value: "Trombone 4".to_owned(),
            id_counter: 2,
        }
    }
}

/// The parts offered for "set all parts" always include the default parts,
/// and the parts of every entry's piece.
pub proof fn lemma_parts_used_cover(cm: ChartManager, entries: Seq<Entry>)
    ensures
        default_parts().subset_of(parts_used(cm, entries)),
        forall|i: int|
            0 <= i < entries.len() ==> part_names_for(cm, #[trigger] entries[i].piece@).subset_of(
                parts_used(cm, entries),
            ),
    decreases entries.len(),
{
    if entries.len() > 0 {
        lemma_parts_used_cover(cm, entries.drop_last());
        assert forall|i: int| 0 <= i < entries.len() implies part_names_for(
            cm,
            #[trigger] entries[i].piece@,
        ).subset_of(parts_used(cm, entries)) by {
            if i < entries.len() - 1 {
                assert(entries.drop_last()[i] == entries[i]);
            }
        }
    }
}

} // verus!
