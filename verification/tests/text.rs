use chart_o_matic::part_sections::part_dropdown_sections;
use chart_o_matic::string_map::StrMap;
use chart_o_matic::string_set::StrSet;
use chart_o_matic::text::{decimal_chars, find_first, replace, trim_bounds};
use chart_o_matic::unicode::is_whitespace;

fn chars(s: &str) -> Vec<char> {
    s.chars().collect()
}

#[test]
fn find_first_finds_first_occurrence() {
    assert_eq!(find_first(&chars("abcabc"), &chars("bc")), Some(1));
    assert_eq!(find_first(&chars("abc"), &chars("x")), None);
    assert_eq!(find_first(&chars("ab"), &chars("abc")), None);
    assert_eq!(find_first(&chars("abc"), &chars("")), Some(0));
}

#[test]
fn replace_replaces_left_to_right_without_overlap() {
    let r: String = replace(&chars("aaa"), &chars("aa"), &chars("b")).into_iter().collect();
    assert_eq!(r, "ba");
    let r: String = replace(&chars("opus 1 opus 1"), &chars("opus 1"), &chars("opus one")).into_iter().collect();
    assert_eq!(r, "opus one opus one");
}

#[test]
fn trim_bounds_drop_outer_whitespace() {
    let s = chars("  a b \t\n");
    assert_eq!(trim_bounds(&s), (2, 5));
    assert_eq!(trim_bounds(&chars("   ")), (3, 3));
    assert_eq!(trim_bounds(&chars("")), (0, 0));
}

#[test]
fn string_set_insert_and_remove() {
    let mut s = StrSet::new();
    assert!(s.insert("a".to_string()));
    assert!(s.insert("b".to_string()));
    assert!(!s.insert("a".to_string()));
    assert_eq!(s.items(), &vec!["a".to_string(), "b".to_string()]);
    assert!(s.remove("a"));
    assert!(!s.remove("a"));
    assert_eq!(s.items(), &vec!["b".to_string()]);
    let mut t = StrSet::new();
    t.insert("c".to_string());
    t.insert("b".to_string());
    s.extend(&t);
    assert_eq!(s.items(), &vec!["b".to_string(), "c".to_string()]);
}

#[test]
fn string_map_insert_replaces_and_keeps_order() {
    let mut m: StrMap<String> = StrMap::new();
    m.insert("x".to_string(), "1".to_string());
    m.insert("y".to_string(), "2".to_string());
    m.insert("x".to_string(), "3".to_string());
    assert_eq!(m.len(), 2);
    assert_eq!(m.keys(), &vec!["x".to_string(), "y".to_string()]);
    assert_eq!(m.get("x"), Some(&"3".to_string()));
    assert_eq!(m.find("y"), Some(1));
    assert_eq!(m.get("z"), None);
    let mut l: StrMap<Vec<String>> = StrMap::new();
    l.push_item("k".to_string(), "a".to_string());
    l.push_item("k".to_string(), "b".to_string());
    assert_eq!(l.get("k"), Some(&vec!["a".to_string(), "b".to_string()]));
}

fn set(v: &[&str]) -> StrSet {
    let mut s = StrSet::new();
    for x in v {
        s.insert(x.to_string());
    }
    s
}

#[test]
fn sections_group_known_parts_and_sort_others() {
    let sections = part_dropdown_sections(set(&["Drums", "Vocal", "Alto Sax 2", "Trombone 5", "Alto Sax 1", "Banjo"]));
    let view: Vec<(String, Vec<String>)> = sections.into_iter().map(|s| (s.heading, s.parts)).collect();
    let s = |v: &[&str]| v.iter().map(|x| x.to_string()).collect::<Vec<_>>();
    assert_eq!(
        view,
        vec![
            ("Saxes".to_string(), s(&["Alto Sax 1", "Alto Sax 2"])),
            ("Trombones".to_string(), s(&["Trombone 5"])),
            ("Rhythm".to_string(), s(&["Drums"])),
            ("Other".to_string(), s(&["Banjo", "Vocal"])),
        ]
    );
}

#[test]
fn sections_without_others_have_no_other_heading() {
    let sections = part_dropdown_sections(set(&["Piano", "Trumpet 2"]));
    let headings: Vec<String> = sections.iter().map(|s| s.heading.clone()).collect();
    assert_eq!(headings, vec!["Trumpets".to_string(), "Rhythm".to_string()]);
    assert!(part_dropdown_sections(StrSet::new()).is_empty());
}

#[test]
fn decimal_chars_writes_digits_without_leading_zeros() {
    assert_eq!(decimal_chars(0), chars("0"));
    assert_eq!(decimal_chars(7), chars("7"));
    assert_eq!(decimal_chars(907), chars("907"));
    assert_eq!(decimal_chars(1000), chars("1000"));
}

#[test]
fn white_space_list_matches_char_is_whitespace() {
    for n in 0u32..0x110000 {
        if let Some(c) = char::from_u32(n) {
            assert_eq!(is_whitespace(c), c.is_whitespace(), "U+{:04X}", n);
        }
    }
}

#[test]
fn ascii_case_facts_can_be_checked() {
    chart_o_matic::unicode::check_ascii_case_facts();
    for c in ['A', 'z', '0', ' ', '&'] {
        assert_eq!(c.is_alphanumeric(), c.is_ascii_alphanumeric());
        assert_eq!(c.to_lowercase().collect::<String>(), c.to_ascii_lowercase().to_string());
    }
}
