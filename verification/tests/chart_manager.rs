use chart_o_matic::chart_manager::{remove_arranger, Cache, ChartManager, DirEntryInfo};

fn listing(names: &[&str]) -> Vec<(bool, String)> {
    names.iter().map(|n| (true, n.to_string())).collect()
}

fn files(paths: &[&str]) -> Vec<DirEntryInfo> {
    paths.iter().map(|p| DirEntryInfo::new(true, p.to_string())).collect()
}

fn names(v: &[&str]) -> Vec<String> {
    v.iter().map(|s| s.to_string()).collect()
}

fn sorted(v: &Vec<String>) -> Vec<String> {
    let mut v = v.clone();
    v.sort();
    v
}

fn library() -> ChartManager {
    ChartManager::new(
        "/charts".to_string(),
        names(&[
            "In the Mood (arr Glenn Miller)",
            "In the Mood (arr Jerry Gray)",
            "Chattanooga Choo Choo",
            "Rock & Roll",
            "Opus 1",
            "Moanin'",
        ]),
    )
}

#[test]
fn tag_lowercases_and_drops_punctuation() {
    assert_eq!(Cache::piece_name_to_tag("Moanin'"), "moanin");
    assert_eq!(Cache::piece_name_to_tag("In The Mood!"), "in the mood");
}

#[test]
fn tag_spells_out_ampersand_and_normalises_whitespace() {
    assert_eq!(Cache::piece_name_to_tag("Rock & Roll"), "rock and roll");
    assert_eq!(Cache::piece_name_to_tag("A\tB"), "a b");
}

#[test]
fn tag_ignores_arranger() {
    assert_eq!(Cache::piece_name_to_tag("In the Mood (arr Glenn Miller)"), "in the mood");
    assert_eq!(
        Cache::piece_name_to_tag("In the Mood (arr Glenn Miller)"),
        Cache::piece_name_to_tag(&remove_arranger("In the Mood (arr Glenn Miller)"))
    );
}

#[test]
fn tag_normalises_known_spellings() {
    assert_eq!(Cache::piece_name_to_tag("Opus 1"), "opus one");
    assert_eq!(Cache::piece_name_to_tag("Chattanooga Choo-Choo"), "chatanooga choochoo");
}

#[test]
fn name_without_arranger_cuts_at_first_marker() {
    assert_eq!(remove_arranger("Tuxedo Junction (arr Basie)"), "Tuxedo Junction");
    assert_eq!(remove_arranger("Tuxedo Junction"), "Tuxedo Junction");
    assert_eq!(remove_arranger("A (arr B) (arr C)"), "A");
}

#[test]
fn nearest_name_corrects_to_known_piece() {
    let cm = library();
    assert_eq!(cm.get_nearest_piece_name("in the mood"), "In the Mood");
    assert_eq!(cm.get_nearest_piece_name("ROCK AND ROLL"), "Rock & Roll");
    assert_eq!(cm.get_nearest_piece_name("Opus One"), "Opus 1");
    assert_eq!(cm.get_nearest_piece_name("chatanooga choo choo"), "Chattanooga Choo Choo");
}

#[test]
fn nearest_name_keeps_unknown_name() {
    let cm = library();
    assert_eq!(cm.get_nearest_piece_name("Sing Sing Sing"), "Sing Sing Sing");
}

#[test]
fn arrangements_are_counted_per_name_without_arranger() {
    let cm = library();
    assert!(cm.does_piece_have_arrangements("In the Mood"));
    assert!(!cm.does_piece_have_arrangements("Moanin'"));
    assert!(!cm.does_piece_have_arrangements("In the Mood (arr Jerry Gray)"));
    assert!(!cm.does_piece_have_arrangements("Unknown"));
}

#[test]
fn piece_list_holds_each_piece_once() {
    let cm = ChartManager::new("/c".to_string(), names(&["A", "B", "A"]));
    assert_eq!(sorted(cm.get_piece_list().items()), names(&["A", "B"]));
    assert!(cm.has_piece("A"));
    assert!(!cm.has_piece("C"));
}

#[test]
fn update_path_same_path_changes_nothing() {
    let mut cm = library();
    assert!(!cm.update_path("/charts".to_string()));
    assert_eq!(cm.get_path(), "/charts");
    assert!(cm.has_piece("Opus 1"));
}

#[test]
fn update_path_new_path_drops_cache() {
    let mut cm = library();
    assert!(cm.update_path("/other".to_string()));
    assert_eq!(cm.get_path(), "/other");
    assert!(!cm.has_piece("Opus 1"));
    cm.refresh_cache(names(&["X (arr Y)"]));
    assert!(cm.has_piece("X (arr Y)"));
    assert_eq!(cm.get_nearest_piece_name("x"), "X");
}

#[test]
fn part_list_must_be_loaded_before_lookup() {
    let mut cm = library();
    match cm.get_path_of_part("Moanin'", "Piano") {
        Err(e) => assert_eq!(e.piece, "Moanin'"),
        Ok(_) => panic!("parts of an unread directory"),
    }
    assert!(matches!(cm.get_path_of_part("Nope", "Piano"), Ok(None)));
    let mut entries = listing(&["Moanin' - Piano.pdf", "cover.jpg"]);
    entries.push((false, "Moanin' - Drums.pdf".to_string()));
    assert!(cm.store_part_list("Moanin'", &entries));
    match cm.get_path_of_part("Moanin'", "Piano") {
        Ok(Some(p)) => assert_eq!(p, "/charts/Moanin'/Moanin' - Piano.pdf"),
        _ => panic!("stored part not found"),
    }
    assert!(matches!(cm.get_path_of_part("Moanin'", "Drums"), Ok(None)));
    assert!(matches!(cm.has_part("Moanin'", "Piano"), Ok(true)));
    assert!(matches!(cm.has_part("Moanin'", "Bass"), Ok(false)));
}

#[test]
fn stored_part_list_is_not_replaced() {
    let mut cm = library();
    assert!(cm.store_part_list("Moanin'", &listing(&["Moanin' - Piano.pdf"])));
    assert!(!cm.store_part_list("Moanin'", &listing(&["Piano - Moanin'.pdf"])));
    assert!(!cm.store_part_list("Unknown piece", &Vec::new()));
    match cm.get_path_of_part("Moanin'", "Piano") {
        Ok(Some(p)) => assert_eq!(p, "/charts/Moanin'/Moanin' - Piano.pdf"),
        _ => panic!(),
    }
}

#[test]
fn part_list_or_default() {
    let mut cm = library();
    let default = cm.get_part_list_or_default("Not a piece").ok().unwrap();
    assert_eq!(default.len(), 19);
    assert!(default.contains("Conductor"));
    assert!(cm.get_part_list_or_default("Opus 1").is_err());
    cm.store_part_list("Opus 1", &listing(&["Opus 1 - Bass.pdf", "Drums - Opus 1.pdf"]));
    let got = cm.get_part_list_or_default("Opus 1").ok().unwrap();
    assert_eq!(sorted(got.items()), names(&["Bass", "Drums"]));
}

#[test]
fn default_part_list_has_nineteen_parts() {
    let parts = ChartManager::default_part_list();
    assert_eq!(parts.len(), 19);
    for p in ["Alto Sax 1", "Baritone Sax", "Trumpet 4", "Trombone 4", "Drums", "Vocal", "Conductor"] {
        assert!(parts.contains(p));
    }
    assert!(!parts.contains("Trumpet 5"));
}

#[test]
fn piece_dir_joins_with_slash() {
    assert_eq!(Cache::piece_dir("/charts", "Opus 1"), "/charts/Opus 1");
}

#[test]
fn extract_part_reads_file_names() {
    let e = |path: &str, is_file: bool| DirEntryInfo::new(is_file, path.to_string());
    assert_eq!(
        Cache::extract_part_from_dir_entry("Opus 1", &e("/c/Opus 1/Opus 1 - Piano.pdf", true)),
        Some(("Piano".to_string(), "/c/Opus 1/Opus 1 - Piano.pdf".to_string()))
    );
    assert_eq!(
        Cache::extract_part_from_dir_entry("Opus 1", &e("/c/Opus 1/Bass - Opus 1.pdf", true)),
        Some(("Bass".to_string(), "/c/Opus 1/Bass - Opus 1.pdf".to_string()))
    );
    assert_eq!(Cache::extract_part_from_dir_entry("Opus 1", &e("/c/Opus 1/Opus 1 - Piano.pdf", false)), None);
    assert_eq!(Cache::extract_part_from_dir_entry("Opus 1", &e("/c/Opus 1/Opus 1 - Piano.txt", true)), None);
    assert_eq!(Cache::extract_part_from_dir_entry("Opus 1", &e("/c/Opus 1/Opus 1 Piano.pdf", true)), None);
    assert_eq!(Cache::extract_part_from_dir_entry("Opus 1", &e("/c/Opus 1/Other - Piano.pdf", true)), None);
}

#[test]
fn read_part_list_keeps_later_duplicate() {
    let entries = vec![
        DirEntryInfo::new(true, "/c/P/P - Bass.pdf".to_string()),
        DirEntryInfo::new(true, "/c/P/Bass - P.pdf".to_string()),
        DirEntryInfo::new(true, "/c/P/P - Piano.pdf".to_string()),
        DirEntryInfo::new(false, "/c/P/P - Drums.pdf".to_string()),
    ];
    let parts = Cache::read_part_list("P", &entries);
    assert_eq!(parts.len(), 2);
    assert_eq!(parts.get("Bass"), Some(&"/c/P/Bass - P.pdf".to_string()));
    assert_eq!(parts.get("Piano"), Some(&"/c/P/P - Piano.pdf".to_string()));
    assert_eq!(parts.get("Drums"), None);
}

#[test]
fn cache_get_part_list_states() {
    let mut cache = Cache::new(names(&["P"]));
    assert!(matches!(cache.get_part_list("Q"), Ok(None)));
    assert!(cache.get_part_list("P").is_err());
    assert!(cache.store_part_list("P", &files(&["/c/P/P - Bass.pdf"])));
    match cache.get_part_list("P") {
        Ok(Some(pl)) => assert_eq!(pl.get("Bass"), Some(&"/c/P/P - Bass.pdf".to_string())),
        _ => panic!(),
    }
}

#[test]
fn dir_entry_info_splits_file_name() {
    let e = DirEntryInfo::new(true, "/c/Opus 1/Opus 1 - Piano.pdf".to_string());
    assert_eq!(e.get_extension(), Some("pdf"));
    assert_eq!(e.get_file_stem(), Some("Opus 1 - Piano"));
    let e = DirEntryInfo::new(false, "/c/Opus 1/notes".to_string());
    assert_eq!(e.get_extension(), None);
    assert_eq!(e.get_file_stem(), Some("notes"));
    let e = DirEntryInfo::new(true, "/c/a.b/x.tar.gz".to_string());
    assert_eq!(e.get_extension(), Some("gz"));
    assert_eq!(e.get_file_stem(), Some("x.tar"));
}

#[test]
fn part_file_names_split_at_first_separator() {
    let e = DirEntryInfo::new(true, "/x/Drums - Moanin' - extra.pdf".to_string());
    assert_eq!(
        Cache::extract_part_from_dir_entry("Moanin' - extra", &e),
        Some(("Drums".to_string(), "/x/Drums - Moanin' - extra.pdf".to_string()))
    );
    let upper = DirEntryInfo::new(true, "/x/Drums - Moanin' - extra.PDF".to_string());
    assert_eq!(Cache::extract_part_from_dir_entry("Moanin' - extra", &upper), None);
}

#[test]
fn corrected_name_stays_corrected() {
    let cm = library();
    for name in ["in the mood", "ROCK AND ROLL", "Opus One", "Sing Sing Sing", "moanin"] {
        let once = cm.get_nearest_piece_name(name).to_string();
        assert_eq!(cm.get_nearest_piece_name(&once), once);
    }
}

#[test]
fn tag_ignores_appended_arranger() {
    for a in ["Moanin'", "Opus 1", "Rock & Roll (live)", ""] {
        let with = format!("{} (arr {}", a, "Someone Else)");
        assert_eq!(Cache::piece_name_to_tag(&with), Cache::piece_name_to_tag(a));
    }
    // A name that ends with " (arr" lets the marker start inside it.
    assert_ne!(Cache::piece_name_to_tag("X (arr (arr Y)"), Cache::piece_name_to_tag("X (arr"));
}

#[test]
fn tag_of_a_tag_is_the_tag_for_ascii_names() {
    for name in [
        "Opus 1 (arr Oliver)",
        "CHATTANOOGA Choo-Choo",
        "Rock & Roll",
        "Opus 1 Opus 1",
        "Chattattanooga & chattanooga!",
        "",
    ] {
        let tag = Cache::piece_name_to_tag(name);
        assert_eq!(Cache::piece_name_to_tag(&tag), tag);
    }
}

#[test]
fn stored_parts_lie_in_the_piece_directory() {
    let mut cm = library();
    assert!(cm.store_part_list("Opus 1", &listing(&["Opus 1 - Bass.pdf", "Piano - Opus 1.pdf", "notes.txt"])));
    match cm.get_part_list("Opus 1") {
        Ok(Some(parts)) => {
            assert_eq!(parts.len(), 2);
            assert_eq!(parts.get("Bass"), Some(&"/charts/Opus 1/Opus 1 - Bass.pdf".to_string()));
            assert_eq!(parts.get("Piano"), Some(&"/charts/Opus 1/Piano - Opus 1.pdf".to_string()));
        }
        _ => panic!("parts not stored"),
    }
}
