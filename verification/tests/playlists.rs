use chart_o_matic::chart_manager::ChartManager;
use chart_o_matic::playlist_manager::{DocTable, Playlist, PlaylistManager, RowItem, SetlistError};

fn manager() -> ChartManager {
    ChartManager::new(
        "/c".to_string(),
        vec!["In the Mood (arr Jerry Gray)".to_string(), "Moanin'".to_string()],
    )
}

#[test]
fn playlist_name_is_file_stem() {
    let p = Playlist::new("/lists/Rugby Club - 15 May.docx".to_string());
    assert_eq!(p.get_name(), Some("Rugby Club - 15 May"));
    assert_eq!(p.get_path(), "/lists/Rugby Club - 15 May.docx");
}

#[test]
fn default_playlist_folder() {
    let pm = PlaylistManager::default();
    assert_eq!(pm.get_path(), "/mnt/d/Music/Swing band/Playlists");
    assert!(pm.get_playlists().is_err());
}

#[test]
fn playlists_are_found_by_name() {
    let mut pm = PlaylistManager::new("/lists".to_string());
    assert!(pm.get_playlist_by_name("a").is_err());
    assert!(pm.store_playlists(vec!["/lists/a.docx".to_string(), "/lists/b.docx".to_string()]));
    assert!(!pm.store_playlists(vec![]));
    assert_eq!(pm.get_playlists().ok().unwrap().len(), 2);
    let found = pm.get_playlist_by_name("b").ok().unwrap().unwrap();
    assert_eq!(found.get_path(), "/lists/b.docx");
    assert!(pm.get_playlist_by_name("c").ok().unwrap().is_none());
}

#[test]
fn update_path_needs_listing_first() {
    let mut pm = PlaylistManager::new("/lists".to_string());
    assert!(pm.update_path("/other".to_string()).is_err());
    assert_eq!(pm.get_path(), "/lists");
    pm.store_playlists(vec!["/lists/a.docx".to_string()]);
    assert!(pm.update_path("/lists".to_string()).is_ok());
    assert!(pm.get_playlists().is_ok());
    assert!(pm.update_path("/other".to_string()).is_ok());
    assert_eq!(pm.get_path(), "/other");
    assert!(pm.get_playlists().is_err());
}

#[test]
fn setlist_lines() {
    let cm = manager();
    let p = Playlist::new("/lists/x.docx".to_string());
    assert_eq!(p.read_setlist_line("  in the mood  ", &cm), Some("In the Mood".to_string()));
    assert_eq!(p.read_setlist_line("Moanin' (vocal: Sue)", &cm), Some("Moanin'".to_string()));
    assert_eq!(p.read_setlist_line("Set 1:", &cm), None);
    assert_eq!(p.read_setlist_line("   ", &cm), None);
    assert_eq!(p.read_setlist_line("ENCORE - Moanin'", &cm), None);
    assert_eq!(p.read_setlist_line("Sing Sing Sing", &cm), Some("Sing Sing Sing".to_string()));
}

fn cell(lines: &[&str]) -> RowItem {
    RowItem::Cell(lines.iter().map(|s| s.to_string()).collect())
}

fn table(cols: usize, rows: Vec<Vec<RowItem>>) -> DocTable {
    DocTable { num_cols: cols, rows }
}

#[test]
fn setlist_is_read_from_the_two_by_two_table() {
    let cm = manager();
    let p = Playlist::new("/lists/x.docx".to_string());
    let tables = vec![
        table(3, vec![vec![cell(&["ignored"])]]),
        table(
            2,
            vec![
                vec![cell(&["Set 1"]), cell(&["Set 2"])],
                vec![cell(&["Set 1:", "in the mood", ""]), RowItem::Other, cell(&["Encore:", "moanin'"])],
            ],
        ),
    ];
    let setlist = p.read_setlist(&tables, &cm).ok().unwrap();
    assert_eq!(setlist, vec!["In the Mood".to_string(), "Moanin'".to_string()]);
}

#[test]
fn setlist_needs_exactly_one_table() {
    let cm = manager();
    let p = Playlist::new("/lists/x.docx".to_string());
    assert!(matches!(p.read_setlist(&vec![], &cm), Err(SetlistError::NoSetlistTable)));
    let two = vec![
        table(2, vec![vec![], vec![cell(&["a"])]]),
        table(2, vec![vec![], vec![cell(&["b"])]]),
    ];
    assert!(matches!(p.read_setlist(&two, &cm), Err(SetlistError::NoSetlistTable)));
}

fn docx_bytes(tables: Vec<docx_rust::document::Table<'static>>) -> Vec<u8> {
    let mut docx = docx_rust::Docx::default();
    docx.document.push(docx_rust::document::Paragraph::default().push_text("Gig"));
    for t in tables {
        docx.document.push(t);
    }
    docx.write(std::io::Cursor::new(Vec::new())).unwrap().into_inner()
}

fn docx_row(cells: &[&[&'static str]]) -> docx_rust::document::TableRow<'static> {
    let mut row = docx_rust::document::TableRow::default();
    for lines in cells {
        let mut cell = docx_rust::document::TableCell::default();
        for line in lines.iter() {
            cell.content.push(docx_rust::document::TableCellContent::Paragraph(
                docx_rust::document::Paragraph::default().push_text(*line),
            ));
        }
        row = row.push_cell(cell);
    }
    row
}

fn docx_table(cols: usize, rows: Vec<docx_rust::document::TableRow<'static>>) -> docx_rust::document::Table<'static> {
    let mut t = docx_rust::document::Table::default();
    t.grids = vec![1000isize; cols].into();
    for r in rows {
        t = t.push_row(r);
    }
    t
}

#[test]
fn setlist_is_read_from_document_bytes() {
    let cm = manager();
    let p = Playlist::new("/lists/x.docx".to_string());
    let bytes = docx_bytes(vec![
        docx_table(3, vec![docx_row(&[&["ignored"]])]),
        docx_table(2, vec![docx_row(&[&["Set 1"], &["Set 2"]]), docx_row(&[&["in the mood (vocal)", "Break:"], &["moanin'"]])]),
    ]);
    let setlist = p.read_setlist_from_bytes(&bytes, &cm).ok().unwrap();
    assert_eq!(setlist, vec!["In the Mood".to_string(), "Moanin'".to_string()]);
}

#[test]
fn document_without_setlist_table_is_refused() {
    let cm = manager();
    let p = Playlist::new("/lists/x.docx".to_string());
    let bytes = docx_bytes(vec![docx_table(3, vec![docx_row(&[&["a"]])])]);
    assert!(matches!(p.read_setlist_from_bytes(&bytes, &cm), Err(SetlistError::NoSetlistTable)));
}

#[test]
fn unreadable_document_is_refused() {
    let cm = manager();
    let p = Playlist::new("/lists/x.docx".to_string());
    assert!(matches!(p.read_setlist_from_bytes(b"not a document", &cm), Err(SetlistError::Unreadable)));
}

#[test]
fn playlist_name_is_stem_of_plain_path() {
    let p = Playlist::new("/lists/Summer gig.v2.docx".to_string());
    assert_eq!(p.get_name(), Some("Summer gig.v2"));
    let p = Playlist::new("/lists/notes".to_string());
    assert_eq!(p.get_name(), Some("notes"));
}

#[test]
fn encore_in_any_case_is_skipped() {
    let cm = manager();
    let p = Playlist::new("/lists/x.docx".to_string());
    assert_eq!(p.read_setlist_line("In the Mood (ENCORE)", &cm), None);
    assert_eq!(p.read_setlist_line("  Encore  ", &cm), None);
    assert_eq!(p.read_setlist_line("in the mood", &cm), Some("In the Mood".to_string()));
}
