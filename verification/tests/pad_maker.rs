use chart_o_matic::chart_manager::ChartManager;
use chart_o_matic::pad_maker::{export_file_name, Entry, PadMaker};

fn entry(id: u64, piece: &str, part: &str) -> Entry {
    Entry { id, piece: piece.to_string(), part: part.to_string() }
}

fn view(pm: &PadMaker) -> Vec<(u64, String, String)> {
    pm.get_entries().iter().map(|e| (e.id, e.piece.clone(), e.part.clone())).collect()
}

fn t(id: u64, piece: &str, part: &str) -> (u64, String, String) {
    (id, piece.to_string(), part.to_string())
}

#[test]
fn default_pad_has_two_trombone_charts() {
    let pm = PadMaker::default();
    assert_eq!(view(&pm), vec![t(0, "The Jazz Police", "Trombone 4"), t(1, "A Few Good Men", "Trombone 4")]);
    assert_eq!(pm.get_set_all_part(), "Trombone 4");
    assert_eq!(pm.get_id_counter(), 2);
}

#[test]
fn set_setlist_replaces_entries_with_fresh_ids() {
    let mut pm = PadMaker::default();
    pm.set_setlist(&["Opus 1".to_string(), "Moanin'".to_string()], "Piano");
    assert_eq!(view(&pm), vec![t(2, "Opus 1", "Piano"), t(3, "Moanin'", "Piano")]);
    assert_eq!(pm.get_id_counter(), 4);
    pm.set_setlist(&[], "Piano");
    assert!(pm.get_entries().is_empty());
}

#[test]
fn new_entry_takes_next_id() {
    let mut pm = PadMaker::from_parts(vec![], "Bass".to_string(), 7);
    let e = pm.new_entry("A".to_string(), "B".to_string());
    assert_eq!((e.id, e.piece.as_str(), e.part.as_str()), (7, "A", "B"));
    assert_eq!(pm.get_id_counter(), 8);
}

#[test]
fn most_common_part_wins() {
    let pm = PadMaker::from_parts(
        vec![entry(0, "a", "Bass"), entry(1, "b", "Piano"), entry(2, "c", "Bass")],
        String::new(),
        3,
    );
    assert_eq!(pm.get_most_common_part(), "Bass");
    let empty = PadMaker::from_parts(vec![], String::new(), 0);
    assert_eq!(empty.get_most_common_part(), "Trombone 1");
}

#[test]
fn add_entry_uses_most_common_part() {
    let mut pm = PadMaker::from_parts(vec![entry(0, "a", "Drums")], String::new(), 1);
    pm.add_entry();
    assert_eq!(view(&pm), vec![t(0, "a", "Drums"), t(1, "", "Drums")]);
    let mut empty = PadMaker::from_parts(vec![], String::new(), 5);
    empty.add_entry();
    assert_eq!(view(&empty), vec![t(5, "", "Trombone 1")]);
}

#[test]
fn set_all_parts_uses_chosen_part() {
    let mut pm = PadMaker::default();
    pm.set_set_all_part("Guitar".to_string());
    pm.set_all_parts();
    assert_eq!(view(&pm), vec![t(0, "The Jazz Police", "Guitar"), t(1, "A Few Good Men", "Guitar")]);
}

#[test]
fn clone_and_delete() {
    let mut pm = PadMaker::from_parts(
        vec![entry(0, "a", "x"), entry(1, "b", "y"), entry(2, "c", "z"), entry(3, "d", "w")],
        String::new(),
        4,
    );
    pm.apply_clone_and_delete(&vec![0, 2, 3], &vec![1, 3]);
    assert_eq!(view(&pm), vec![t(4, "a", "x"), t(0, "a", "x"), t(5, "c", "z"), t(2, "c", "z")]);
    assert_eq!(pm.get_id_counter(), 6);
}

#[test]
fn clone_and_delete_with_nothing_marked_keeps_pad() {
    let mut pm = PadMaker::default();
    pm.apply_clone_and_delete(&vec![], &vec![]);
    assert_eq!(view(&pm), view(&PadMaker::default()));
    assert_eq!(pm.get_id_counter(), 2);
}

#[test]
fn export_file_names_pad_numbers() {
    assert_eq!(export_file_name(3, "Opus 1", "Piano"), "03 Opus 1 - Piano.pdf");
    assert_eq!(export_file_name(0, "A", "B"), "00 A - B.pdf");
    assert_eq!(export_file_name(12, "A", "B"), "12 A - B.pdf");
    assert_eq!(export_file_name(123, "A", "B"), "123 A - B.pdf");
}

fn manager() -> ChartManager {
    let mut cm = ChartManager::new("/c".to_string(), vec!["A".to_string(), "B".to_string()]);
    let listing = vec![(true, "A - Piano.pdf".to_string()), (true, "A - Banjo.pdf".to_string())];
    cm.store_part_list("A", &listing);
    cm
}

#[test]
fn pdf_paths_and_exports_follow_entries() {
    let cm = manager();
    let pm = PadMaker::from_parts(
        vec![entry(0, "A", "Piano"), entry(1, "A", "Drums"), entry(2, "Z", "Piano"), entry(3, "A", "Banjo")],
        String::new(),
        4,
    );
    assert_eq!(pm.pdf_paths(&cm).ok().unwrap(), vec!["/c/A/A - Piano.pdf".to_string(), "/c/A/A - Banjo.pdf".to_string()]);
    assert_eq!(
        pm.export_list(&cm).ok().unwrap(),
        vec![
            ("/c/A/A - Piano.pdf".to_string(), "00 A - Piano.pdf".to_string()),
            ("/c/A/A - Banjo.pdf".to_string(), "03 A - Banjo.pdf".to_string()),
        ]
    );
}

#[test]
fn unread_piece_is_reported() {
    let cm = manager();
    let pm = PadMaker::from_parts(vec![entry(0, "A", "Piano"), entry(1, "B", "Bass")], String::new(), 2);
    match pm.pdf_paths(&cm) {
        Err(e) => assert_eq!(e.piece, "B"),
        Ok(_) => panic!(),
    }
    assert!(pm.get_parts_used_in_any_piece(&cm).is_err());
    assert!(pm.export_list(&cm).is_err());
}

#[test]
fn parts_used_include_defaults_and_piece_parts() {
    let cm = manager();
    let pm = PadMaker::from_parts(vec![entry(0, "A", "Piano"), entry(1, "Z", "Bass")], String::new(), 2);
    let parts = pm.get_parts_used_in_any_piece(&cm).ok().unwrap();
    assert_eq!(parts.len(), 20);
    assert!(parts.contains("Banjo"));
    assert!(parts.contains("Conductor"));
}
