//! Playlists: the documents in the playlists folder, each holding a setlist
//! in a two-by-two table. The folder is listed, and each document's bytes
//! read, elsewhere; this module keeps the list, parses a document's bytes
//! with docx-rust and reads the setlist out of its tables.

use vstd::prelude::*;

use docx_rust::document::{BodyContent, TableCellContent, TableRowContent};
use docx_rust::DocxFile;

use crate::chart_manager::ChartManager;
use crate::paths::{file_stem, opt_view, stem_agrees};
use crate::string_set::views_of;
use crate::text::{contains_seq, find_first, prefix_before, trim, trim_bounds};
use crate::unicode::{
    ascii_lowercase_seq, chars_of, is_ascii_seq, lowercase_str, str_lowercase, string_from_chars,
};

verus! {

broadcast use vstd::seq_lib::group_seq_properties;

/// A playlist document.
pub struct Playlist {
    path: String,
    name: Option<String>,
}

/// The playlists were asked for before the folder was listed.
pub struct PlaylistsNotLoaded;

/// The folder of playlists, and its listing once it has been read.
pub struct PlaylistManager {
    path: String,
    playlists: Option<Vec<Playlist>>,
}

impl Playlist {
    /// The path of the document.
    pub closed spec fn path(&self) -> Seq<char> {
        self.path@
    }

    /// The playlist's name: the stem of its file name.
    pub closed spec fn name(&self) -> Option<Seq<char>> {
        opt_view(self.name)
    }

    /// The playlist stored at `path`; its name is the stem of the file name
    /// as `Path::file_stem` gives it: for a path "d/s.e" or "d/s" of plain
    /// parts (see `stem_agrees`) the name is `s`.
    pub fn new(path: String) -> (r: Self)
        ensures
            r.path() == path@,
            stem_agrees(path@, r.name()),
    {
        let name = file_stem(path.as_str());
        Playlist { path, name }
    }

    /// The path of the document.
    pub fn get_path(&self) -> (r: &str)
        ensures
            r@ == self.path(),
    {
        self.path.as_str()
    }

    /// The playlist's name, if its path has a file name.
    pub fn get_name(&self) -> (r: Option<&str>)
        ensures
            match r {
                Some(n) => self.name() == Some(n@),
                None => self.name() is None,
            },
    {
        match &self.name {
            Some(n) => Some(n.as_str()),
            None => None,
        }
    }
}

impl Default for PlaylistManager {
    /// The usual playlists folder, not listed yet.
    fn default() -> (r: Self)
        ensures
            r.path() == "/mnt/d/Music/Swing band/Playlists"@,
            r.playlists() is None,
    {
        PlaylistManager { path: "/mnt/d/Music/Swing band/Playlists".to_owned(), playlists: None }
    }
}

impl PlaylistManager {
    /// The folder of playlists.
    pub closed spec fn path(&self) -> Seq<char> {
        self.path@
    }

    /// The playlists in the folder, once it has been listed.
    pub closed spec fn playlists(&self) -> Option<Seq<Playlist>> {
        match self.playlists {
            Some(v) => Some(v@),
            None => None,
        }
    }

    /// The folder `path`, not listed yet.
    pub fn new(path: String) -> (r: Self)
        ensures
            r.path() == path@,
            r.playlists() is None,
    {
        PlaylistManager { path, playlists: None }
    }

    /// The folder of playlists.
    pub fn get_path(&self) -> (r: &str)
        ensures
            r@ == self.path(),
    {
        self.path.as_str()
    }

    /// Moves to the folder `new_path`: nothing changes when it is the
    /// current one, and otherwise the listing is dropped. The current folder
    /// is to be listed first; until then nothing changes and the error says
    /// so.
    pub fn update_path(&mut self, new_path: String) -> (r: Result<(), PlaylistsNotLoaded>)
        ensures
            old(self).playlists() is None ==> r is Err && *final(self) == *old(self),
            old(self).playlists() is Some && old(self).path() == new_path@ ==> r is Ok && *final(self)
                == *old(self),
            old(self).playlists() is Some && old(self).path() != new_path@ ==> r is Ok
                && final(self).path() == new_path@ && final(self).playlists() is None,
    {
        if self.playlists.is_none() {
            return Err(PlaylistsNotLoaded);
        }
        if self.path == new_path {
            return Ok(());
        }
        self.path = new_path;
        self.playlists = None;
        Ok(())
    }

    /// The playlists in the folder; an error when it has not been listed.
    pub fn get_playlists(&self) -> (r: Result<&Vec<Playlist>, PlaylistsNotLoaded>)
        ensures
            match self.playlists() {
                Some(ps) => r matches Ok(v) && v@ == ps,
                None => r is Err,
            },
    {
        match &self.playlists {
            Some(v) => Ok(v),
            None => Err(PlaylistsNotLoaded),
        }
    }

    /// Keeps the listing of the folder (the paths of the documents in it),
    /// unless it has been listed already; returns whether it was kept.
    pub fn store_playlists(&mut self, paths: Vec<String>) -> (r: bool)
        ensures
            r == old(self).playlists() is None,
            final(self).path() == old(self).path(),
            r ==> (final(self).playlists() matches Some(ps) && ps.len() == paths@.len() && forall|i: int|
                0 <= i < ps.len() ==> #[trigger] ps[i].path() == paths@[i]@ && stem_agrees(
                    paths@[i]@,
                    ps[i].name(),
                )),
            !r ==> *final(self) == *old(self),
    {
        if self.playlists.is_some() {
            return false;
        }
        let mut playlists: Vec<Playlist> = Vec::new();
        let mut i: usize = 0;
        while i < paths.len()
            invariant
                i <= paths@.len(),
                playlists@.len() == i,
                forall|k: int|
                    0 <= k < i ==> #[trigger] playlists@[k].path() == paths@[k]@ && stem_agrees(
                        paths@[k]@,
                        playlists@[k].name(),
                    ),
            decreases paths@.len() - i,
        {
            playlists.push(Playlist::new(paths[i].clone()));
            i = i + 1;
        }
        self.playlists = Some(playlists);
        true
    }

    /// The first playlist named `name`; an error when the folder has not been
    /// listed.
    pub fn get_playlist_by_name(&self, name: &str) -> (r: Result<Option<&Playlist>, PlaylistsNotLoaded>)
        ensures
            self.playlists() is None ==> r is Err,
            self.playlists() matches Some(ps) ==> (r matches Ok(found) && match found {
                Some(p) => exists|i: int|
                    0 <= i < ps.len() && ps[i] == *p && p.name() == Some(name@) && forall|j: int|
                        0 <= j < i ==> #[trigger] ps[j].name() != Some(name@),
                None => forall|j: int| 0 <= j < ps.len() ==> #[trigger] ps[j].name() != Some(name@),
            }),
    {
        let playlists = match &self.playlists {
            Some(v) => v,
            None => {
                return Err(PlaylistsNotLoaded);
            },
        };
        let wanted = name.to_owned();
        let mut i: usize = 0;
        while i < playlists.len()
            invariant
                i <= playlists@.len(),
                wanted@ == name@,
                self.playlists() == Some(playlists@),
                forall|j: int| 0 <= j < i ==> #[trigger] playlists@[j].name() != Some(name@),
            decreases playlists@.len() - i,
        {
            let p = &playlists[i];
            match &p.name {
                Some(n) => {
                    if *n == wanted {
                        return Ok(Some(p));
                    }
                },
                None => {},
            }
            i = i + 1;
        }
        Ok(None)
    }
}

/// What a table row holds: a cell, with the text of each of its paragraphs,
/// or something else.
pub enum RowItem {
    /// A cell, with the text of each paragraph in it.
    Cell(Vec<String>),
    /// Row content that is not a cell.
    Other,
}

/// A table of a document: the number of columns of its grid, and its rows.
pub struct DocTable {
    /// The number of columns in the table's grid.
    pub num_cols: usize,
    /// The rows, each a list of what it holds.
    pub rows: Vec<Vec<RowItem>>,
}

/// Why no setlist could be read from a document.
pub enum SetlistError {
    /// The document has no table with two columns and two rows, or more
    /// than one.
    NoSetlistTable,
    /// The bytes are not a document that could be parsed.
    Unreadable,
}

/// What a row item holds: the text of each paragraph of a cell, or nothing
/// for what is not a cell.
pub open spec fn item_view(i: RowItem) -> Option<Seq<Seq<char>>> {
    match i {
        RowItem::Cell(paragraphs) => Some(views_of(paragraphs@)),
        RowItem::Other => None,
    }
}

/// What a row holds, item by item.
pub open spec fn row_view(r: Vec<RowItem>) -> Seq<Option<Seq<Seq<char>>>> {
    r@.map_values(|i: RowItem| item_view(i))
}

/// A table as plain values: the number of columns and the rows.
pub open spec fn table_view(t: DocTable) -> (nat, Seq<Seq<Option<Seq<Seq<char>>>>>) {
    (t.num_cols as nat, t.rows@.map_values(|r: Vec<RowItem>| row_view(r)))
}

/// A list of tables as plain values.
pub open spec fn tables_view(ts: Seq<DocTable>) -> Seq<(nat, Seq<Seq<Option<Seq<Seq<char>>>>>)> {
    ts.map_values(|t: DocTable| table_view(t))
}

/// The items of a document's body as plain values: each table, or nothing
/// for what is not a table.
pub open spec fn body_view(items: Seq<Option<DocTable>>) -> Seq<
    Option<(nat, Seq<Seq<Option<Seq<Seq<char>>>>>)>,
> {
    items.map_values(
        |o: Option<DocTable>|
            match o {
                Some(t) => Some(table_view(t)),
                None => None,
            },
    )
}

/// The tables among the items of a document's body, in order.
pub open spec fn tables_in(items: Seq<Option<(nat, Seq<Seq<Option<Seq<Seq<char>>>>>)>>) -> Seq<
    (nat, Seq<Seq<Option<Seq<Seq<char>>>>>),
>
    decreases items.len(),
{
    if items.len() == 0 {
        Seq::empty()
    } else {
        let prev = tables_in(items.drop_last());
        match items.last() {
            Some(t) => prev.push(t),
            None => prev,
        }
    }
}

/// What `DocxFile::from_reader` and `DocxFile::parse` of docx-rust make of
/// `bytes`: `None` when they fail, otherwise the items of the document's
/// body, each table with the number of its grid columns, and its rows with,
/// for each cell, the text of each paragraph.
pub uninterp spec fn docx_body_tables(bytes: Seq<u8>) -> Option<
    Seq<Option<(nat, Seq<Seq<Option<Seq<Seq<char>>>>>)>>,
>;

/// Calls `DocxFile::from_reader` on `bytes` and `DocxFile::parse`, and
/// converts the items of the body: a table into a `DocTable` (the length of
/// its grid's column list, and for each row its cells, a cell holding the
/// text (`Paragraph::text`) of each paragraph), anything else into `None`.
/// The result is the named `docx_body_tables` of the bytes.
#[verifier::external_body]
fn parse_docx_body(bytes: &[u8]) -> (r: Option<Vec<Option<DocTable>>>)
    ensures
        match r {
            Some(items) => docx_body_tables(bytes@) == Some(body_view(items@)),
            None => docx_body_tables(bytes@) is None,
        },
{
    let file = DocxFile::from_reader(std::io::Cursor::new(bytes)).ok()?;
    let docx = file.parse().ok()?;
    Some(docx.document.body.content.iter().map(|item| match item {
        BodyContent::Table(t) => Some(DocTable {
            num_cols: t.grids.columns.len(),
            rows: t.rows.iter().map(|row| row.cells.iter().map(|cell| match cell {
                TableRowContent::TableCell(c) => RowItem::Cell(
                    c.content.iter().map(|TableCellContent::Paragraph(p)| p.text()).collect()),
                _ => RowItem::Other,
            }).collect()).collect(),
        }),
        _ => None,
    }).collect())
}

/// The tables among the items of a document's body, in order.
pub fn tables_from_body(items: Vec<Option<DocTable>>) -> (r: Vec<DocTable>)
    ensures
        tables_view(r@) == tables_in(body_view(items@)),
{
    broadcast use vstd::std_specs::vec::axiom_spec_into_iter;
    let ghost orig = items@;
    let mut out: Vec<DocTable> = Vec::new();
    assert(body_view(orig).take(0) =~= Seq::empty());
    for item in it: items.into_iter()
        invariant
            it.seq() == orig,
            tables_view(out@) == tables_in(body_view(orig).take(it.index())),
    {
        let ghost k = it.index();
        assert(body_view(orig).take(k + 1).drop_last() =~= body_view(orig).take(k));
        assert(body_view(orig).take(k + 1).last() == body_view(orig)[k]);
        match item {
            Some(t) => {
                out.push(t);
                assert(tables_view(out@) =~= tables_in(body_view(orig).take(k)).push(
                    table_view(out@.last()),
                ));
            },
            None => {},
        }
    }
    assert(body_view(orig).take(orig.len() as int) =~= body_view(orig));
    out
}

/// A table that may hold a setlist: two columns, two rows.
pub open spec fn is_setlist_table(t: (nat, Seq<Seq<Option<Seq<Seq<char>>>>>)) -> bool {
    t.0 == 2 && t.1.len() == 2
}

/// The tables that may hold a setlist, in order.
pub open spec fn setlist_tables(tables: Seq<(nat, Seq<Seq<Option<Seq<Seq<char>>>>>)>) -> Seq<
    (nat, Seq<Seq<Option<Seq<Seq<char>>>>>),
> {
    tables.filter(|t: (nat, Seq<Seq<Option<Seq<Seq<char>>>>>)| is_setlist_table(t))
}

/// Only tables with two grid columns and exactly two rows are candidates
/// for the setlist: a table of any other shape, put anywhere among the
/// tables, changes nothing of what `read_setlist` reads (its result is
/// stated over `setlist_tables` alone), and a table of that shape is a
/// candidate at its place.
pub proof fn lemma_setlist_candidates(
    before: Seq<(nat, Seq<Seq<Option<Seq<Seq<char>>>>>)>,
    after: Seq<(nat, Seq<Seq<Option<Seq<Seq<char>>>>>)>,
    t: (nat, Seq<Seq<Option<Seq<Seq<char>>>>>),
)
    ensures
        !(t.0 == 2 && t.1.len() == 2) ==> setlist_tables(before + seq![t] + after) == setlist_tables(
            before + after,
        ),
        t.0 == 2 && t.1.len() == 2 ==> setlist_tables(before + seq![t] + after) == setlist_tables(
            before,
        ) + seq![t] + setlist_tables(after),
{
    let pred = |x: (nat, Seq<Seq<Option<Seq<Seq<char>>>>>)| is_setlist_table(x);
    Seq::filter_distributes_over_add(before + seq![t], after, pred);
    Seq::filter_distributes_over_add(before, seq![t], pred);
    Seq::filter_distributes_over_add(before, after, pred);
    reveal_with_fuel(Seq::filter, 2);
    assert(seq![t].drop_last() =~= Seq::<(nat, Seq<Seq<Option<Seq<Seq<char>>>>>)>::empty());
    if t.0 == 2 && t.1.len() == 2 {
        assert(seq![t].filter(pred) =~= seq![t]);
    } else {
        assert(seq![t].filter(pred) =~= Seq::<(nat, Seq<Seq<Option<Seq<Seq<char>>>>>)>::empty());
        assert(setlist_tables(before) + Seq::<(nat, Seq<Seq<Option<Seq<Seq<char>>>>>)>::empty() =~= setlist_tables(before));
    }
}

/// The piece that a line of a setlist names, if it names one: the trimmed
/// line, unless it is empty, ends with ':' or mentions an encore, cut at
/// " (" (where vocal markings start), trimmed again and corrected to a
/// known piece's name.
pub open spec fn setlist_line(cm: ChartManager, line: Seq<char>) -> Option<Seq<char>> {
    let l = trim(line);
    if l.len() == 0 {
        None
    } else if l.last() == ':' {
        None
    } else if contains_seq(str_lowercase(l), "encore"@) {
        None
    } else {
        Some(cm.cache().nearest_name(trim(prefix_before(l, " ("@))))
    }
}

/// The pieces named by a list of lines, in order.
pub open spec fn setlist_of_lines(cm: ChartManager, lines: Seq<Seq<char>>) -> Seq<Seq<char>>
    decreases lines.len(),
{
    if lines.len() == 0 {
        Seq::empty()
    } else {
        let prev = setlist_of_lines(cm, lines.drop_last());
        match setlist_line(cm, lines.last()) {
            Some(p) => prev.push(p),
            None => prev,
        }
    }
}

/// The pieces named by the paragraphs of the cells of a row, in order.
pub open spec fn setlist_of_row(cm: ChartManager, row: Seq<Option<Seq<Seq<char>>>>) -> Seq<Seq<char>>
    decreases row.len(),
{
    if row.len() == 0 {
        Seq::empty()
    } else {
        setlist_of_row(cm, row.drop_last()) + match row.last() {
            Some(paragraphs) => setlist_of_lines(cm, paragraphs),
            None => Seq::empty(),
        }
    }
}

impl Playlist {
    /// The piece that a line of the setlist names, if it names one (see
    /// `setlist_line`).
    pub fn read_setlist_line(&self, line: &str, chart_manager: &ChartManager) -> (r: Option<String>)
        requires
            chart_manager.wf(),
        ensures
            opt_view(r) == setlist_line(*chart_manager, line@),
            ({
                let l = trim(line@);
                l.len() > 0 && l.last() != ':' && is_ascii_seq(l) ==> ascii_lowercase_seq(
                    l,
                    str_lowercase(l),
                )
            }),
    {
        let cs = chars_of(line);
        let (a, b) = trim_bounds(cs.as_slice());
        let l = &cs.as_slice()[a..b];
        if l.len() == 0 {
            return None;
        }
        if l[l.len() - 1] == ':' {
            return None;
        }
        let trimmed = string_from_chars(l);
        let lower = lowercase_str(trimmed.as_str());
        let lower_chars = chars_of(lower.as_str());
        let encore = chars_of("encore");
        if find_first(lower_chars.as_slice(), encore.as_slice()).is_some() {
            return None;
        }
        let paren = chars_of(" (");
        let before = match find_first(l, paren.as_slice()) {
            Some(i) => &l[0..i],
            None => l,
        };
        let (c, d) = trim_bounds(before);
        let name = string_from_chars(&before[c..d]);
        let corrected = chart_manager.get_nearest_piece_name(name.as_str());
        Some(corrected.to_owned())
    }

    /// The setlist of the playlist: the pieces named in the second row of
    /// its one table with two columns and two rows.
    pub fn read_setlist(&self, tables: &Vec<DocTable>, chart_manager: &ChartManager) -> (r: Result<
        Vec<String>,
        SetlistError,
    >)
        requires
            chart_manager.wf(),
        ensures
            r is Ok <==> setlist_tables(tables_view(tables@)).len() == 1,
            r matches Err(e) ==> e is NoSetlistTable,
            r matches Ok(v) ==> views_of(v@) == setlist_of_row(
                *chart_manager,
                setlist_tables(tables_view(tables@))[0].1[1],
            ),
    {
        let ghost tv = tables_view(tables@);
        let ghost pred = |t: (nat, Seq<Seq<Option<Seq<Seq<char>>>>>)| is_setlist_table(t);
        let mut candidates: Vec<usize> = Vec::new();
        let mut i: usize = 0;
        while i < tables.len()
            invariant
                i <= tables@.len(),
                tv == tables_view(tables@),
                pred == (|t: (nat, Seq<Seq<Option<Seq<Seq<char>>>>>)| is_setlist_table(t)),
                candidates@.len() == tv.take(i as int).filter(pred).len(),
                forall|k: int|
                    0 <= k < candidates@.len() ==> #[trigger] candidates@[k] < i && tv[candidates@[k] as int]
                        == tv.take(i as int).filter(pred)[k],
            decreases tables@.len() - i,
        {
            proof {
                tv.take(i as int).lemma_filter_push(tv[i as int], pred);
                assert(tv.take(i + 1) =~= tv.take(i as int).push(tv[i as int]));
            }
            let t = &tables[i];
            assert(tv[i as int] == table_view(*t));
            if t.num_cols == 2 && t.rows.len() == 2 {
                candidates.push(i);
            }
            i = i + 1;
        }
        assert(tv.take(i as int) =~= tv);
        if candidates.len() != 1 {
            return Err(SetlistError::NoSetlistTable);
        }
        let table = &tables[candidates[0]];
        let row = &table.rows[1];
        let ghost rv = row_view(*row);
        assert(setlist_tables(tv)[0].1[1] == rv);
        let mut setlist: Vec<String> = Vec::new();
        let mut j: usize = 0;
        while j < row.len()
            invariant
                j <= row@.len(),
                rv == row_view(*row),
                chart_manager.wf(),
                views_of(setlist@) == setlist_of_row(*chart_manager, rv.take(j as int)),
            decreases row@.len() - j,
        {
            assert(rv.take(j + 1).drop_last() =~= rv.take(j as int));
            assert(rv.take(j + 1).last() == item_view(row@[j as int]));
            match &row[j] {
                RowItem::Cell(paragraphs) => {
                    let ghost before = views_of(setlist@);
                    let mut k: usize = 0;
                    assert(before + setlist_of_lines(*chart_manager, views_of(paragraphs@).take(0))
                        =~= before);
                    while k < paragraphs.len()
                        invariant
                            k <= paragraphs@.len(),
                            chart_manager.wf(),
                            views_of(setlist@) == before + setlist_of_lines(
                                *chart_manager,
                                views_of(paragraphs@).take(k as int),
                            ),
                        decreases paragraphs@.len() - k,
                    {
                        assert(views_of(paragraphs@).take(k + 1).drop_last() =~= views_of(
                            paragraphs@,
                        ).take(k as int));
                        assert(views_of(paragraphs@).take(k + 1).last() == paragraphs@[k as int]@);
                        match self.read_setlist_line(paragraphs[k].as_str(), chart_manager) {
                            Some(piece) => {
                                let ghost lines = views_of(paragraphs@).take(k + 1);
                                let ghost pv = piece@;
                                assert(setlist_line(*chart_manager, lines.last()) == Some(pv));
                                assert(setlist_of_lines(*chart_manager, lines) == setlist_of_lines(
                                    *chart_manager,
                                    lines.drop_last(),
                                ).push(pv));
                                let ghost old_view = views_of(setlist@);
                                setlist.push(piece);
                                assert(views_of(setlist@) =~= old_view.push(pv));
                                assert(views_of(setlist@) =~= before + setlist_of_lines(
                                    *chart_manager,
                                    views_of(paragraphs@).take(k + 1),
                                ));
                            },
                            None => {},
                        }
                        k = k + 1;
                    }
                    assert(views_of(paragraphs@).take(k as int) =~= views_of(paragraphs@));
                },
                RowItem::Other => {
                    assert(views_of(setlist@) =~= setlist_of_row(*chart_manager, rv.take(j + 1)));
                },
            }
            j = j + 1;
        }
        assert(rv.take(j as int) =~= rv);
        Ok(setlist)
    }

    /// The setlist of the playlist whose document holds `bytes`: an error
    /// when docx-rust cannot parse them, otherwise what `read_setlist` reads
    /// from the document's tables.
    pub fn read_setlist_from_bytes(&self, bytes: &[u8], chart_manager: &ChartManager) -> (r: Result<
        Vec<String>,
        SetlistError,
    >)
        requires
            chart_manager.wf(),
        ensures
            docx_body_tables(bytes@) is None ==> (r matches Err(e) && e is Unreadable),
            docx_body_tables(bytes@) matches Some(items) ==> {
                let ts = tables_in(items);
                &&& r is Ok <==> setlist_tables(ts).len() == 1
                &&& r matches Err(e) ==> e is NoSetlistTable
                &&& r matches Ok(v) ==> views_of(v@) == setlist_of_row(
                    *chart_manager,
                    setlist_tables(ts)[0].1[1],
                )
            },
    {
        match parse_docx_body(bytes) {
            None => Err(SetlistError::Unreadable),
            Some(items) => {
                let tables = tables_from_body(items);
                self.read_setlist(&tables, chart_manager)
            },
        }
    }
}

} // verus!
