//! How the part dropdown groups a set of parts under headings: the known
//! sections first, each with the parts of it that are present, in the
//! section's order, then every other part, sorted, under "Other".

use vstd::prelude::*;

use itertools::Itertools;

use crate::string_set::{views_of, StrSet};

verus! {

broadcast use vstd::seq_lib::group_seq_properties;

/// `a` comes no later than `b` in the order of `String`: lexicographic by
/// code point.
pub open spec fn char_seq_le(a: Seq<char>, b: Seq<char>) -> bool
    decreases a.len(),
{
    if a.len() == 0 {
        true
    } else if b.len() == 0 {
        false
    } else if a[0] != b[0] {
        (a[0] as u32) < (b[0] as u32)
    } else {
        char_seq_le(a.drop_first(), b.drop_first())
    }
}

/// Calls `Itertools::sorted` on `v`: the same strings, in ascending order.
#[verifier::external_body]
fn sorted_strings(v: Vec<String>) -> (r: Vec<String>)
    ensures
        views_of(r@).to_multiset() == views_of(v@).to_multiset(),
        forall|i: int, j: int|
            0 <= i < j < r@.len() ==> char_seq_le(#[trigger] r@[i]@, #[trigger] r@[j]@),
{
    v.into_iter().sorted().collect()
}

/// The known sections: each heading with its parts, in order.
pub open spec fn known_sections() -> Seq<(Seq<char>, Seq<Seq<char>>)> {
    seq![
        ("Saxes"@, seq!["Alto Sax 1"@, "Alto Sax 2"@, "Tenor Sax 1"@, "Tenor Sax 2"@, "Baritone Sax"@]),
        ("Trumpets"@, seq!["Trumpet 1"@, "Trumpet 2"@, "Trumpet 3"@, "Trumpet 4"@, "Trumpet 5"@]),
        ("Trombones"@, seq!["Trombone 1"@, "Trombone 2"@, "Trombone 3"@, "Trombone 4"@, "Trombone 5"@]),
        ("Rhythm"@, seq!["Guitar"@, "Piano"@, "Bass"@, "Drums"@]),
    ]
}

/// Going through `names` in order, the names still in `remaining` (each
/// taken out as it is listed), and what remains afterwards.
pub open spec fn take_present(names: Seq<Seq<char>>, remaining: Set<Seq<char>>) -> (
    Seq<Seq<char>>,
    Set<Seq<char>>,
)
    decreases names.len(),
{
    if names.len() == 0 {
        (Seq::empty(), remaining)
    } else {
        let (listed, rest) = take_present(names.drop_last(), remaining);
        if rest.contains(names.last()) {
            (listed.push(names.last()), rest.remove(names.last()))
        } else {
            (listed, rest)
        }
    }
}

/// Going through `sections` in order, the non-empty sections made of the
/// parts taken from `remaining`, and what remains afterwards.
pub open spec fn group_parts(
    sections: Seq<(Seq<char>, Seq<Seq<char>>)>,
    remaining: Set<Seq<char>>,
) -> (Seq<(Seq<char>, Seq<Seq<char>>)>, Set<Seq<char>>)
    decreases sections.len(),
{
    if sections.len() == 0 {
        (Seq::empty(), remaining)
    } else {
        let (groups, rest) = group_parts(sections.drop_last(), remaining);
        let (listed, rest2) = take_present(sections.last().1, rest);
        (
            if listed.len() > 0 {
                groups.push((sections.last().0, listed))
            } else {
                groups
            },
            rest2,
        )
    }
}

/// A heading of the part dropdown with the parts listed under it.
pub struct PartSection {
    /// The heading.
    pub heading: String,
    /// The parts, in the order in which they are listed.
    pub parts: Vec<String>,
}

/// The heading and the parts of a section.
pub open spec fn section_view(s: PartSection) -> (Seq<char>, Seq<Seq<char>>) {
    (s.heading@, views_of(s.parts@))
}

/// The known sections, as strings.
fn known_sections_exec() -> (r: Vec<(String, Vec<String>)>)
    ensures
        r@.len() == known_sections().len(),
        forall|i: int|
            0 <= i < r@.len() ==> (#[trigger] r@[i]).0@ == known_sections()[i].0 && views_of(r@[i].1@)
                == known_sections()[i].1,
{
    let mut saxes: Vec<String> = Vec::new();
    saxes.push("Alto Sax 1".to_owned());
    saxes.push("Alto Sax 2".to_owned());
    saxes.push("Tenor Sax 1".to_owned());
    saxes.push("Tenor Sax 2".to_owned());
    saxes.push("Baritone Sax".to_owned());
    let mut trumpets: Vec<String> = Vec::new();
    trumpets.push("Trumpet 1".to_owned());
    trumpets.push("Trumpet 2".to_owned());
    trumpets.push("Trumpet 3".to_owned());
    trumpets.push("Trumpet 4".to_owned());
    trumpets.push("Trumpet 5".to_owned());
    let mut trombones: Vec<String> = Vec::new();
    trombones.push("Trombone 1".to_owned());
    trombones.push("Trombone 2".to_owned());
    trombones.push("Trombone 3".to_owned());
    trombones.push("Trombone 4".to_owned());
    trombones.push("Trombone 5".to_owned());
    let mut rhythm: Vec<String> = Vec::new();
    rhythm.push("Guitar".to_owned());
    rhythm.push("Piano".to_owned());
    rhythm.push("Bass".to_owned());
    rhythm.push("Drums".to_owned());
    assert(views_of(saxes@) =~= known_sections()[0].1);
    assert(views_of(trumpets@) =~= known_sections()[1].1);
    assert(views_of(trombones@) =~= known_sections()[2].1);
    assert(views_of(rhythm@) =~= known_sections()[3].1);
    let mut r: Vec<(String, Vec<String>)> = Vec::new();
    r.push(("Saxes".to_owned(), saxes));
    r.push(("Trumpets".to_owned(), trumpets));
    r.push(("Trombones".to_owned(), trombones));
    r.push(("Rhythm".to_owned(), rhythm));
    r
}

/// The sections of the part dropdown for `parts`: the known sections that
/// have parts present, each with those parts in the section's order, then,
/// if any parts are left, "Other" with those parts sorted.
pub fn part_dropdown_sections(parts: StrSet) -> (r: Vec<PartSection>)
    ensures
        ({
            let (groups, rest) = group_parts(known_sections(), parts@);
            &&& r@.len() == groups.len() + if rest.len() > 0 {
                1int
            } else {
                0int
            }
            &&& forall|i: int| 0 <= i < groups.len() ==> section_view(#[trigger] r@[i]) == groups[i]
            &&& rest.len() > 0 ==> {
                let other = r@[groups.len() as int];
                &&& other.heading@ == "Other"@
                &&& views_of(other.parts@).no_duplicates()
                &&& views_of(other.parts@).to_set() == rest
                &&& forall|i: int, j: int|
                    0 <= i < j < other.parts@.len() ==> char_seq_le(
                        #[trigger] other.parts@[i]@,
                        #[trigger] other.parts@[j]@,
                    )
            }
        }),
{
    let mut remaining = parts;
    let sections = known_sections_exec();
    let mut out: Vec<PartSection> = Vec::new();
    let mut s: usize = 0;
    assert(known_sections().take(0) =~= Seq::<(Seq<char>, Seq<Seq<char>>)>::empty());
    while s < sections.len()
        invariant
            s <= sections@.len(),
            sections@.len() == known_sections().len(),
            forall|i: int|
                0 <= i < sections@.len() ==> (#[trigger] sections@[i]).0@ == known_sections()[i].0
                    && views_of(sections@[i].1@) == known_sections()[i].1,
            group_parts(known_sections().take(s as int), parts@).1 == remaining@,
            out@.len() == group_parts(known_sections().take(s as int), parts@).0.len(),
            forall|i: int|
                0 <= i < out@.len() ==> section_view(#[trigger] out@[i]) == group_parts(
                    known_sections().take(s as int),
                    parts@,
                ).0[i],
        decreases sections@.len() - s,
    {
        let ghost before = remaining@;
        let names = &sections[s].1;
        let ghost nseq = views_of(names@);
        let mut listed: Vec<String> = Vec::new();
        let mut k: usize = 0;
        assert(nseq.take(0) =~= Seq::<Seq<char>>::empty());
        while k < names.len()
            invariant
                k <= names@.len(),
                nseq == views_of(names@),
                take_present(nseq.take(k as int), before) == (views_of(listed@), remaining@),
            decreases names@.len() - k,
        {
            assert(nseq.take(k + 1).drop_last() =~= nseq.take(k as int));
            assert(nseq.take(k + 1).last() == nseq[k as int]);
            if remaining.remove(names[k].as_str()) {
                listed.push(names[k].clone());
                assert(views_of(listed@) =~= take_present(nseq.take(k as int), before).0.push(nseq[k as int]));
            }
            k = k + 1;
        }
        assert(nseq.take(k as int) =~= nseq);
        proof {
            assert(known_sections().take(s + 1).drop_last() =~= known_sections().take(s as int));
            assert(known_sections().take(s + 1).last() == known_sections()[s as int]);
        }
        if listed.len() > 0 {
            let heading = sections[s].0.clone();
            out.push(PartSection { heading, parts: listed });
        }
        s = s + 1;
    }
    assert(known_sections().take(s as int) =~= known_sections());
    if remaining.len() > 0 {
        let rest = remaining.into_items();
        let ghost rest_seq = views_of(rest@);
        let sorted = sorted_strings(rest);
        proof {
            let sv = views_of(sorted@);
            rest_seq.lemma_multiset_has_no_duplicates();
            assert forall|x: Seq<char>| sv.to_multiset().contains(x) implies sv.to_multiset().count(x)
                == 1 by {}
            sv.lemma_multiset_has_no_duplicates_conv();
            assert forall|x: Seq<char>| sv.contains(x) <==> rest_seq.contains(x) by {
                vstd::seq_lib::to_multiset_contains(sv, x);
                vstd::seq_lib::to_multiset_contains(rest_seq, x);
            }
            assert(sv.to_set() =~= rest_seq.to_set());
        }
        out.push(PartSection { heading: "Other".to_owned(), parts: sorted });
    }
    out
}

/// The parts listed under a list of sections, in order.
pub open spec fn listed_parts(groups: Seq<(Seq<char>, Seq<Seq<char>>)>) -> Seq<Seq<char>>
    decreases groups.len(),
{
    if groups.len() == 0 {
        Seq::empty()
    } else {
        listed_parts(groups.drop_last()) + groups.last().1
    }
}

/// Taking the present names out of a set lists each of them once and leaves
/// the rest: the listed names and what remains make up the set, without
/// overlap.
proof fn lemma_take_present(names: Seq<Seq<char>>, remaining: Set<Seq<char>>)
    ensures
        ({
            let (listed, rest) = take_present(names, remaining);
            &&& listed.no_duplicates()
            &&& listed.to_set().union(rest) == remaining
            &&& listed.to_set().disjoint(rest)
        }),
    decreases names.len(),
{
    if names.len() == 0 {
        assert(Seq::<Seq<char>>::empty().to_set() =~= Set::<Seq<char>>::empty());
        assert(Set::<Seq<char>>::empty().union(remaining) =~= remaining);
    } else {
        lemma_take_present(names.drop_last(), remaining);
        let (l0, r0) = take_present(names.drop_last(), remaining);
        let x = names.last();
        if r0.contains(x) {
            l0.lemma_push_to_set_commute(x);
            assert(!l0.to_set().contains(x));
            assert(!l0.contains(x));
            assert(l0.push(x).to_set().union(r0.remove(x)) =~= remaining);
            assert(l0.push(x).to_set().disjoint(r0.remove(x)));
        }
    }
}

/// Grouping parts under sections lists each part once and leaves the rest:
/// the listed parts and what remains make up the set, without overlap.
proof fn lemma_group_parts(
    sections: Seq<(Seq<char>, Seq<Seq<char>>)>,
    remaining: Set<Seq<char>>,
)
    ensures
        ({
            let (groups, rest) = group_parts(sections, remaining);
            &&& listed_parts(groups).no_duplicates()
            &&& listed_parts(groups).to_set().union(rest) == remaining
            &&& listed_parts(groups).to_set().disjoint(rest)
        }),
    decreases sections.len(),
{
    if sections.len() == 0 {
        assert(Seq::<Seq<char>>::empty().to_set() =~= Set::<Seq<char>>::empty());
        assert(Set::<Seq<char>>::empty().union(remaining) =~= remaining);
    } else {
        lemma_group_parts(sections.drop_last(), remaining);
        let (g0, r0) = group_parts(sections.drop_last(), remaining);
        let (l, r1) = take_present(sections.last().1, r0);
        lemma_take_present(sections.last().1, r0);
        let f0 = listed_parts(g0);
        if l.len() > 0 {
            let g = g0.push((sections.last().0, l));
            assert(g.drop_last() =~= g0);
            assert(listed_parts(g) == f0 + l);
            assert forall|i: int, j: int| 0 <= i < f0.len() && 0 <= j < l.len() implies f0[i]
                != l[j] by {
                assert(f0.to_set().contains(f0[i]));
                assert(l.to_set().contains(l[j]));
            }
            vstd::seq_lib::lemma_no_dup_in_concat(f0, l);
            assert((f0 + l).to_set() =~= f0.to_set().union(l.to_set()));
            assert((f0 + l).to_set().union(r1) =~= remaining);
            assert((f0 + l).to_set().disjoint(r1));
        } else {
            assert(l.to_set() =~= Set::<Seq<char>>::empty());
            assert(f0.to_set().union(r1) =~= remaining);
        }
    }
}

/// Taking the present names out of a set lists exactly the names that are
/// both present and among `names`, and leaves the others.
proof fn lemma_take_present_sets(names: Seq<Seq<char>>, remaining: Set<Seq<char>>)
    ensures
        take_present(names, remaining).1 == remaining.difference(names.to_set()),
        take_present(names, remaining).0.to_set() == remaining.intersect(names.to_set()),
    decreases names.len(),
{
    if names.len() == 0 {
        assert(names.to_set() =~= Set::<Seq<char>>::empty());
        assert(remaining.difference(names.to_set()) =~= remaining);
        assert(Seq::<Seq<char>>::empty().to_set() =~= Set::<Seq<char>>::empty());
        assert(remaining.intersect(names.to_set()) =~= Set::<Seq<char>>::empty());
    } else {
        let init = names.drop_last();
        let x = names.last();
        lemma_take_present_sets(init, remaining);
        assert(init.push(x) =~= names);
        init.lemma_push_to_set_commute(x);
        let (l0, r0) = take_present(init, remaining);
        if r0.contains(x) {
            l0.lemma_push_to_set_commute(x);
            assert(r0.remove(x) =~= remaining.difference(names.to_set()));
            assert(l0.push(x).to_set() =~= remaining.intersect(names.to_set()));
        } else {
            assert(r0 =~= remaining.difference(names.to_set()));
            assert(l0.to_set() =~= remaining.intersect(names.to_set()));
        }
    }
}

/// The names listed in a list of sections.
pub open spec fn section_names(sections: Seq<(Seq<char>, Seq<Seq<char>>)>) -> Set<Seq<char>>
    decreases sections.len(),
{
    if sections.len() == 0 {
        Set::empty()
    } else {
        section_names(sections.drop_last()).union(sections.last().1.to_set())
    }
}

/// A name is among the sections' names exactly when some section lists it.
proof fn lemma_section_names(sections: Seq<(Seq<char>, Seq<Seq<char>>)>, x: Seq<char>)
    ensures
        section_names(sections).contains(x) <==> exists|i: int|
            0 <= i < sections.len() && (#[trigger] sections[i]).1.contains(x),
    decreases sections.len(),
{
    if sections.len() > 0 {
        let init = sections.drop_last();
        lemma_section_names(init, x);
        if exists|i: int| 0 <= i < sections.len() && (#[trigger] sections[i]).1.contains(x) {
            let i = choose|i: int| 0 <= i < sections.len() && (#[trigger] sections[i]).1.contains(x);
            if i < init.len() {
                assert(init[i] == sections[i]);
            }
        }
        if section_names(init).contains(x) {
            let i = choose|i: int| 0 <= i < init.len() && (#[trigger] init[i]).1.contains(x);
            assert(sections[i] == init[i]);
        }
    }
}

/// Grouping leaves exactly the parts that no section lists.
proof fn lemma_group_parts_rest(sections: Seq<(Seq<char>, Seq<Seq<char>>)>, remaining: Set<Seq<char>>)
    ensures
        group_parts(sections, remaining).1 == remaining.difference(section_names(sections)),
    decreases sections.len(),
{
    if sections.len() == 0 {
        assert(remaining.difference(Set::<Seq<char>>::empty()) =~= remaining);
    } else {
        let init = sections.drop_last();
        lemma_group_parts_rest(init, remaining);
        let r0 = group_parts(init, remaining).1;
        lemma_take_present_sets(sections.last().1, r0);
        assert(r0.difference(sections.last().1.to_set()) =~= remaining.difference(
            section_names(sections),
        ));
    }
}

/// A present part is listed under the heading of the first section that
/// lists it.
proof fn lemma_group_parts_heading(
    sections: Seq<(Seq<char>, Seq<Seq<char>>)>,
    remaining: Set<Seq<char>>,
    j: int,
    x: Seq<char>,
)
    requires
        0 <= j < sections.len(),
        remaining.contains(x),
        sections[j].1.contains(x),
        forall|i: int| 0 <= i < j ==> !(#[trigger] sections[i]).1.contains(x),
    ensures
        exists|g: int|
            0 <= g < group_parts(sections, remaining).0.len() && (#[trigger] group_parts(
                sections,
                remaining,
            ).0[g]).0 == sections[j].0 && group_parts(sections, remaining).0[g].1.contains(x),
    decreases sections.len(),
{
    let n = sections.len() - 1;
    let init = sections.drop_last();
    let (g0, r0) = group_parts(init, remaining);
    let (listed, r1) = take_present(sections.last().1, r0);
    let groups = group_parts(sections, remaining).0;
    if j == n {
        lemma_section_names(init, x);
        if section_names(init).contains(x) {
            let i = choose|i: int| 0 <= i < init.len() && (#[trigger] init[i]).1.contains(x);
            assert(sections[i] == init[i]);
        }
        lemma_group_parts_rest(init, remaining);
        assert(r0.contains(x));
        lemma_take_present_sets(sections.last().1, r0);
        assert(sections.last().1.to_set().contains(x));
        assert(listed.to_set().contains(x));
        assert(listed.contains(x));
        assert(listed.len() > 0);
        assert(groups == g0.push((sections.last().0, listed)));
        assert(groups[g0.len() as int].1.contains(x));
    } else {
        assert forall|i: int| 0 <= i < j implies !(#[trigger] init[i]).1.contains(x) by {
            assert(init[i] == sections[i]);
        }
        assert(init[j] == sections[j]);
        lemma_group_parts_heading(init, remaining, j, x);
        let g = choose|g: int|
            0 <= g < g0.len() && (#[trigger] g0[g]).0 == init[j].0 && g0[g].1.contains(x);
        if listed.len() > 0 {
            assert(groups[g] == g0[g]);
        }
    }
}

/// The part dropdown's known sections are, in this order, Saxes (Alto Sax 1
/// and 2, Tenor Sax 1 and 2, Baritone Sax), Trumpets (Trumpet 1 to 5),
/// Trombones (Trombone 1 to 5) and Rhythm (Guitar, Piano, Bass, Drums): a
/// present part of a section is listed under that section's heading, and
/// what is left for "Other" is exactly the parts that are none of these.
pub proof fn lemma_known_sections_grouping(parts: Set<Seq<char>>, x: Seq<char>)
    ensures
        group_parts(known_sections(), parts).1 == parts.difference(
            set![
                "Alto Sax 1"@, "Alto Sax 2"@, "Tenor Sax 1"@, "Tenor Sax 2"@, "Baritone Sax"@,
                "Trumpet 1"@, "Trumpet 2"@, "Trumpet 3"@, "Trumpet 4"@, "Trumpet 5"@,
                "Trombone 1"@, "Trombone 2"@, "Trombone 3"@, "Trombone 4"@, "Trombone 5"@,
                "Guitar"@, "Piano"@, "Bass"@, "Drums"@
            ],
        ),
        parts.contains(x) && set!["Alto Sax 1"@, "Alto Sax 2"@, "Tenor Sax 1"@, "Tenor Sax 2"@, "Baritone Sax"@].contains(x) ==> exists|g: int|
            0 <= g < group_parts(known_sections(), parts).0.len() && (#[trigger] group_parts(
                known_sections(),
                parts,
            ).0[g]).0 == "Saxes"@ && group_parts(known_sections(), parts).0[g].1.contains(x),
        parts.contains(x) && set!["Trumpet 1"@, "Trumpet 2"@, "Trumpet 3"@, "Trumpet 4"@, "Trumpet 5"@].contains(x) ==> exists|g: int|
            0 <= g < group_parts(known_sections(), parts).0.len() && (#[trigger] group_parts(
                known_sections(),
                parts,
            ).0[g]).0 == "Trumpets"@ && group_parts(known_sections(), parts).0[g].1.contains(x),
        parts.contains(x) && set!["Trombone 1"@, "Trombone 2"@, "Trombone 3"@, "Trombone 4"@, "Trombone 5"@].contains(x) ==> exists|g: int|
            0 <= g < group_parts(known_sections(), parts).0.len() && (#[trigger] group_parts(
                known_sections(),
                parts,
            ).0[g]).0 == "Trombones"@ && group_parts(known_sections(), parts).0[g].1.contains(x),
        parts.contains(x) && set!["Guitar"@, "Piano"@, "Bass"@, "Drums"@].contains(x) ==> exists|g: int|
            0 <= g < group_parts(known_sections(), parts).0.len() && (#[trigger] group_parts(
                known_sections(),
                parts,
            ).0[g]).0 == "Rhythm"@ && group_parts(known_sections(), parts).0[g].1.contains(x),
{
    let ks = known_sections();
    reveal_with_fuel(section_names, 5);
    assert(ks.drop_last().drop_last().drop_last().drop_last() =~= Seq::<(Seq<char>, Seq<Seq<char>>)>::empty());
    assert(section_names(ks) =~= set![
        "Alto Sax 1"@, "Alto Sax 2"@, "Tenor Sax 1"@, "Tenor Sax 2"@, "Baritone Sax"@,
        "Trumpet 1"@, "Trumpet 2"@, "Trumpet 3"@, "Trumpet 4"@, "Trumpet 5"@,
        "Trombone 1"@, "Trombone 2"@, "Trombone 3"@, "Trombone 4"@, "Trombone 5"@,
        "Guitar"@, "Piano"@, "Bass"@, "Drums"@
    ]);
    lemma_group_parts_rest(ks, parts);
    reveal_strlit("Alto Sax 1");
    reveal_strlit("Alto Sax 2");
    reveal_strlit("Tenor Sax 1");
    reveal_strlit("Tenor Sax 2");
    reveal_strlit("Baritone Sax");
    reveal_strlit("Trumpet 1");
    reveal_strlit("Trumpet 2");
    reveal_strlit("Trumpet 3");
    reveal_strlit("Trumpet 4");
    reveal_strlit("Trumpet 5");
    reveal_strlit("Trombone 1");
    reveal_strlit("Trombone 2");
    reveal_strlit("Trombone 3");
    reveal_strlit("Trombone 4");
    reveal_strlit("Trombone 5");
    reveal_strlit("Guitar");
    reveal_strlit("Piano");
    reveal_strlit("Bass");
    reveal_strlit("Drums");
    if parts.contains(x) && set!["Alto Sax 1"@, "Alto Sax 2"@, "Tenor Sax 1"@, "Tenor Sax 2"@, "Baritone Sax"@].contains(x) {
        lemma_group_parts_heading(ks, parts, 0, x);
    }
    if parts.contains(x) && set!["Trumpet 1"@, "Trumpet 2"@, "Trumpet 3"@, "Trumpet 4"@, "Trumpet 5"@].contains(x) {
        assert(x.len() == 9);
        assert forall|i: int| 0 <= i < ks[0].1.len() implies (#[trigger] ks[0].1[i]).len() != 9 by {}
        lemma_group_parts_heading(ks, parts, 1, x);
    }
    if parts.contains(x) && set!["Trombone 1"@, "Trombone 2"@, "Trombone 3"@, "Trombone 4"@, "Trombone 5"@].contains(x) {
        assert(x.len() == 10 && x[0] == 'T');
        assert forall|i: int| 0 <= i < ks[0].1.len() implies !((#[trigger] ks[0].1[i]).len() == 10
            && ks[0].1[i][0] == 'T') by {}
        assert forall|i: int| 0 <= i < ks[1].1.len() implies (#[trigger] ks[1].1[i]).len() != 10 by {}
        lemma_group_parts_heading(ks, parts, 2, x);
    }
    if parts.contains(x) && set!["Guitar"@, "Piano"@, "Bass"@, "Drums"@].contains(x) {
        assert(!ks[0].1.contains(x));
        assert(!ks[1].1.contains(x));
        assert(!ks[2].1.contains(x));
        lemma_group_parts_heading(ks, parts, 3, x);
    }
}

/// The part dropdown lists every part exactly once: the parts under the
/// known sections are all different, and together with the parts left for
/// "Other" they are exactly the parts given, with no part in both.
pub proof fn lemma_sections_partition(parts: Set<Seq<char>>)
    ensures
        ({
            let (groups, rest) = group_parts(known_sections(), parts);
            &&& listed_parts(groups).no_duplicates()
            &&& listed_parts(groups).to_set().union(rest) == parts
            &&& listed_parts(groups).to_set().disjoint(rest)
        }),
{
    lemma_group_parts(known_sections(), parts);
}

} // verus!
