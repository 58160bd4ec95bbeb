//! Access to a big band's parts folder: one directory per piece, holding one
//! PDF per part. What the folder holds is read elsewhere and handed in here;
//! this module keeps it, indexes it and answers questions about it.

use vstd::prelude::*;

use crate::string_map::StrMap;
use crate::string_set::{views_of, StrSet};
use crate::paths::{extension, extension_agrees, file_stem, opt_view, stem_agrees};
use crate::text::{
    compatible, find_first, first_match, lemma_find_from, lemma_first_match_at, lemma_split_once_joins,
    lemma_prefix_before_idempotent, lemma_replace_all_absent, lemma_replace_no_new_occurrence,
    matches_at, prefix_before, push_all, replace, replace_all, split_once,
};
use crate::unicode::{
    ascii_alnum, ascii_case_facts, ascii_lowercase_is, is_ascii_seq, char_is_alphanumeric, char_is_whitespace,
    char_lowercase, chars_of, is_alphanumeric, is_whitespace, lowercase_char, string_from_chars,
};

verus! {

broadcast use vstd::seq_lib::group_seq_properties;

/// A piece's name with the arranger's part (from the first " (arr " on)
/// cut off.
pub open spec fn name_without_arranger(name: Seq<char>) -> Seq<char> {
    prefix_before(name, " (arr "@)
}

/// What one character of a name contributes to its tag.
pub open spec fn char_tag(c: char) -> Seq<char> {
    if c == '&' {
        "and"@
    } else if char_is_alphanumeric(c) {
        char_lowercase(c)
    } else if char_is_whitespace(c) {
        seq![' ']
    } else {
        Seq::empty()
    }
}

/// The characters of `s`, each replaced by what it contributes to a tag.
pub open spec fn tag_chars(s: Seq<char>) -> Seq<char>
    decreases s.len(),
{
    if s.len() == 0 {
        Seq::empty()
    } else {
        tag_chars(s.drop_last()) + char_tag(s.last())
    }
}

/// The tag of a piece's name: the name without arranger, with '&' spelled
/// out, letters and digits lower-cased, whitespace made plain spaces and
/// everything else dropped, and two common spellings normalised.
pub open spec fn piece_tag(name: Seq<char>) -> Seq<char> {
    replace_all(
        replace_all(tag_chars(name_without_arranger(name)), "opus 1"@, "opus one"@),
        "chattanooga"@,
        "chatanooga"@,
    )
}

/// The part of `name` before " (arr ".
pub fn remove_arranger(name: &str) -> (r: String)
    ensures
        r@ == name_without_arranger(name@),
{
    let cs = chars_of(name);
    let marker = chars_of(" (arr ");
    match find_first(cs.as_slice(), marker.as_slice()) {
        Some(i) => string_from_chars(&cs.as_slice()[0..i]),
        None => string_from_chars(cs.as_slice()),
    }
}

/// The characters that tag building makes of `s`.
fn tag_chars_exec(s: &[char]) -> (r: Vec<char>)
    ensures
        r@ == tag_chars(s@),
{
    let and = chars_of("and");
    let mut out: Vec<char> = Vec::new();
    let mut i: usize = 0;
    assert(s@.take(0) =~= Seq::<char>::empty());
    while i < s.len()
        invariant
            i <= s@.len(),
            and@ == "and"@,
            out@ == tag_chars(s@.take(i as int)),
        decreases s@.len() - i,
    {
        let c = s[i];
        assert(s@.take(i + 1).drop_last() =~= s@.take(i as int));
        if c == '&' {
            push_all(&mut out, and.as_slice());
        } else if is_alphanumeric(c) {
            let lower = lowercase_char(c);
            push_all(&mut out, lower.as_slice());
        } else if is_whitespace(c) {
            out.push(' ');
            assert(out@ =~= tag_chars(s@.take(i as int)) + seq![' ']);
        } else {
            assert(out@ =~= tag_chars(s@.take(i as int)) + Seq::<char>::empty());
        }
        i = i + 1;
    }
    assert(s@.take(i as int) =~= s@);
    out
}

/// What a listing of a piece's directory tells of one entry, with the
/// extension and stem of its file name as the standard library picks them
/// out of its path. Built only by `DirEntryInfo::new`.
pub struct DirEntryInfo {
    is_file: bool,
    path: String,
    extension: Option<String>,
    file_stem: Option<String>,
}

/// The parts of a piece: each part's name with the path of its PDF.
pub type PartList = StrMap<String>;

/// The parts of `piece` were asked for before its directory was read.
pub struct PartListNotLoaded {
    /// The piece whose directory is to be read.
    pub piece: String,
}

/// Whether a piece's name, without arranger, is `base`.
pub open spec fn is_arrangement_of(base: Seq<char>) -> spec_fn(Seq<char>) -> bool {
    |p: Seq<char>| name_without_arranger(p) == base
}

/// `arr` maps each name-without-arranger that occurs among `pieces` to the
/// pieces that have it, in their order.
pub open spec fn arrangement_index(
    pieces: Seq<Seq<char>>,
    arr: Map<Seq<char>, Seq<Seq<char>>>,
) -> bool {
    &&& forall|b: Seq<char>|
        #[trigger] arr.contains_key(b) <==> exists|i: int|
            0 <= i < pieces.len() && name_without_arranger(#[trigger] pieces[i]) == b
    &&& forall|b: Seq<char>| #[trigger] arr.contains_key(b) ==> arr[b] == pieces.filter(is_arrangement_of(b))
}

/// `by_tag` holds the tag of every name in `bases`, each tag leading to a
/// name in `bases` that has it.
pub open spec fn tag_index(bases: Set<Seq<char>>, by_tag: Map<Seq<char>, Seq<char>>) -> bool {
    &&& forall|b: Seq<char>| #[trigger] bases.contains(b) ==> by_tag.contains_key(piece_tag(b))
    &&& forall|t: Seq<char>|
        #[trigger] by_tag.contains_key(t) ==> bases.contains(by_tag[t]) && piece_tag(by_tag[t]) == t
}

/// Indexing one more piece keeps the arrangement index right.
proof fn lemma_arrangement_push(
    ps: Seq<Seq<char>>,
    arr: Map<Seq<char>, Seq<Seq<char>>>,
    p: Seq<char>,
)
    requires
        arrangement_index(ps, arr),
    ensures
        arrangement_index(
            ps.push(p),
            arr.insert(
                name_without_arranger(p),
                if arr.contains_key(name_without_arranger(p)) {
                    arr[name_without_arranger(p)].push(p)
                } else {
                    seq![p]
                },
            ),
        ),
{
    let b = name_without_arranger(p);
    let ps2 = ps.push(p);
    let arr2 = arr.insert(
        b,
        if arr.contains_key(b) {
            arr[b].push(p)
        } else {
            seq![p]
        },
    );
    assert forall|x: Seq<char>| #[trigger] arr2.contains_key(x) <==> exists|i: int|
        0 <= i < ps2.len() && name_without_arranger(#[trigger] ps2[i]) == x by {
        if arr2.contains_key(x) {
            if x == b {
                assert(name_without_arranger(ps2[ps.len() as int]) == x);
            } else {
                let i = choose|i: int| 0 <= i < ps.len() && name_without_arranger(#[trigger] ps[i]) == x;
                assert(name_without_arranger(ps2[i]) == x);
            }
        }
        if exists|i: int| 0 <= i < ps2.len() && name_without_arranger(#[trigger] ps2[i]) == x {
            let i = choose|i: int| 0 <= i < ps2.len() && name_without_arranger(#[trigger] ps2[i]) == x;
            if i < ps.len() {
                assert(name_without_arranger(ps[i]) == x);
            }
        }
    }
    assert forall|x: Seq<char>| #[trigger] arr2.contains_key(x) implies arr2[x] == ps2.filter(
        is_arrangement_of(x),
    ) by {
        ps.lemma_filter_push(p, is_arrangement_of(x));
        if x == b && !arr.contains_key(b) {
            let f = ps.filter(is_arrangement_of(b));
            if f.len() > 0 {
                ps.lemma_filter_pred(is_arrangement_of(b), 0);
                ps.lemma_filter_contains_rev(is_arrangement_of(b), f[0]);
                let i = choose|i: int| 0 <= i < ps.len() && ps[i] == f[0];
                assert(name_without_arranger(ps[i]) == b);
            }
            assert(f =~= Seq::<Seq<char>>::empty());
            assert(f.push(p) =~= seq![p]);
        }
    }
}

/// The part that a PDF of `piece` holds, judged by the file's extension and
/// stem: a file named "<piece> - <part>.pdf" or "<part> - <piece>.pdf".
pub open spec fn part_of_file(
    piece: Seq<char>,
    extension: Option<Seq<char>>,
    stem: Option<Seq<char>>,
) -> Option<Seq<char>> {
    if extension != Some("pdf"@) {
        None
    } else {
        match stem {
            None => None,
            Some(s) => match split_once(s, " - "@) {
                None => None,
                Some((a, b)) => if a == piece {
                    Some(b)
                } else if b == piece {
                    Some(a)
                } else {
                    None
                },
            },
        }
    }
}

/// The part named by a file of `piece` with the given extension and stem.
pub fn part_from_file_name(
    piece_name: &str,
    extension: &Option<String>,
    file_stem: &Option<String>,
) -> (r: Option<String>)
    ensures
        opt_view(r) == part_of_file(piece_name@, opt_view(*extension), opt_view(*file_stem)),
{
    let pdf = "pdf".to_owned();
    match extension {
        Some(e) => {
            if *e != pdf {
                return None;
            }
        },
        None => {
            return None;
        },
    }
    let stem = match file_stem {
        Some(s) => s,
        None => {
            return None;
        },
    };
    let cs = chars_of(stem.as_str());
    let sep = chars_of(" - ");
    match find_first(cs.as_slice(), sep.as_slice()) {
        None => None,
        Some(i) => {
            assert(i + sep.len() <= cs.len());
            let a = string_from_chars(&cs.as_slice()[0..i]);
            let b = string_from_chars(&cs.as_slice()[i + sep.len()..cs.len()]);
            assert(b@ =~= cs@.skip(i + sep@.len()));
            let piece = piece_name.to_owned();
            if a == piece {
                Some(b)
            } else if b == piece {
                Some(a)
            } else {
                None
            }
        },
    }
}

/// The part that a directory entry of `piece` holds, if any.
pub open spec fn entry_part(piece: Seq<char>, e: DirEntryInfo) -> Option<Seq<char>> {
    if !e.is_file() {
        None
    } else {
        part_of_file(piece, e.extension(), e.file_stem())
    }
}

/// The parts that the entries of a directory of `piece` hold, with their
/// paths; a later entry for the same part replaces an earlier one.
pub open spec fn part_list_of(piece: Seq<char>, entries: Seq<DirEntryInfo>) -> Map<
    Seq<char>,
    Seq<char>,
>
    decreases entries.len(),
{
    if entries.len() == 0 {
        Map::empty()
    } else {
        let prev = part_list_of(piece, entries.drop_last());
        match entry_part(piece, entries.last()) {
            Some(part) => prev.insert(part, entries.last().path()),
            None => prev,
        }
    }
}

impl DirEntryInfo {
    /// Whether the entry is a regular file.
    pub closed spec fn is_file(&self) -> bool {
        self.is_file
    }

    /// The entry's path.
    pub closed spec fn path(&self) -> Seq<char> {
        self.path@
    }

    /// The extension of the file name, if it has one.
    pub closed spec fn extension(&self) -> Option<Seq<char>> {
        opt_view(self.extension)
    }

    /// The file name without its extension, if there is a file name.
    pub closed spec fn file_stem(&self) -> Option<Seq<char>> {
        opt_view(self.file_stem)
    }

    /// The extension and the stem are those of the path.
    #[verifier::type_invariant]
    closed spec fn inv(&self) -> bool {
        extension_agrees(self.path(), self.extension()) && stem_agrees(self.path(), self.file_stem())
    }

    /// The entry at `path`, with the extension and stem of its file name as
    /// `Path::extension` and `Path::file_stem` give them: for a path
    /// "d/s.e" of plain parts the stem is `s` and the extension `e`, for
    /// "d/s" with no '.' in `s` the stem is `s` and there is no extension.
    pub fn new(is_file: bool, path: String) -> (r: Self)
        ensures
            r.is_file() == is_file,
            r.path() == path@,
            extension_agrees(r.path(), r.extension()),
            stem_agrees(r.path(), r.file_stem()),
    {
        let ext = extension(path.as_str());
        let stem = file_stem(path.as_str());
        DirEntryInfo { is_file, path, extension: ext, file_stem: stem }
    }

    /// The extension of the file name, if it has one.
    pub fn get_extension(&self) -> (r: Option<&str>)
        ensures
            match r {
                Some(x) => self.extension() == Some(x@),
                None => self.extension() is None,
            },
    {
        match &self.extension {
            Some(x) => Some(x.as_str()),
            None => None,
        }
    }

    /// The file name without its extension, if there is a file name.
    pub fn get_file_stem(&self) -> (r: Option<&str>)
        ensures
            match r {
                Some(x) => self.file_stem() == Some(x@),
                None => self.file_stem() is None,
            },
    {
        match &self.file_stem {
            Some(x) => Some(x.as_str()),
            None => None,
        }
    }
}

/// `dir` and `name` joined by '/'.
fn join_path(dir: &str, name: &str) -> (r: String)
    ensures
        r@ == dir@ + "/"@ + name@,
{
    let mut cs = chars_of(dir);
    let slash = chars_of("/");
    let n = chars_of(name);
    push_all(&mut cs, slash.as_slice());
    push_all(&mut cs, n.as_slice());
    string_from_chars(cs.as_slice())
}

/// The path of the entry `name` of the directory of `piece` in
/// `charts_dir`.
pub open spec fn entry_path_in(charts_dir: Seq<char>, piece: Seq<char>, name: Seq<char>) -> Seq<char> {
    charts_dir + "/"@ + piece + "/"@ + name
}

/// `es` are the entries of the directory of `piece` in `charts_dir` that
/// `listing` tells of (whether each is a regular file, and its name), in
/// order, with the extension and stem of each path.
pub open spec fn entries_of_listing(
    charts_dir: Seq<char>,
    piece: Seq<char>,
    listing: Seq<(bool, String)>,
    es: Seq<DirEntryInfo>,
) -> bool {
    &&& es.len() == listing.len()
    &&& forall|k: int|
        0 <= k < es.len() ==> {
            &&& #[trigger] es[k].is_file() == listing[k].0
            &&& es[k].path() == entry_path_in(charts_dir, piece, listing[k].1@)
            &&& extension_agrees(es[k].path(), es[k].extension())
            &&& stem_agrees(es[k].path(), es[k].file_stem())
        }
}

/// A part stored from a listing of the directory of `piece` in `charts_dir`
/// has as its path "<charts_dir>/<piece>/<name>" for a regular file `name`
/// of the listing, whose extension is "pdf" and whose stem is
/// "<piece> - <part>" or "<part> - <piece>".
pub proof fn lemma_stored_part_in_piece_dir(
    charts_dir: Seq<char>,
    piece: Seq<char>,
    listing: Seq<(bool, String)>,
    es: Seq<DirEntryInfo>,
    part: Seq<char>,
)
    requires
        entries_of_listing(charts_dir, piece, listing, es),
        part_list_of(piece, es).contains_key(part),
    ensures
        exists|i: int|
            0 <= i < listing.len() && #[trigger] listing[i].0 && part_list_of(piece, es)[part]
                == entry_path_in(charts_dir, piece, listing[i].1@) && es[i].extension() == Some(
                "pdf"@,
            ) && (es[i].file_stem() == Some(piece + " - "@ + part) || es[i].file_stem() == Some(
                part + " - "@ + piece,
            )),
{
    lemma_part_list_of_entries(piece, es, part);
    let i = choose|i: int|
        0 <= i < es.len() && entry_part(piece, #[trigger] es[i]) == Some(part) && es[i].path()
            == part_list_of(piece, es)[part];
    assert(es[i].is_file() == listing[i].0);
    let stem = es[i].file_stem()->0;
    lemma_split_once_joins(stem, " - "@);
}

/// The names of the pieces, the pieces indexed by name without arranger and
/// by tag, and the parts of each piece whose directory has been read.
pub struct Cache {
    piece_list: StrSet,
    pieces_with_arrangements: StrMap<Vec<String>>,
    pieces_by_tag: StrMap<String>,
    parts_per_piece: StrMap<PartList>,
}

impl Cache {
    /// The pieces, in the order in which they were listed.
    pub closed spec fn piece_seq(&self) -> Seq<Seq<char>> {
        self.piece_list.seq_view()
    }

    /// The pieces.
    pub closed spec fn pieces(&self) -> Set<Seq<char>> {
        self.piece_list@
    }

    /// The names of the pieces without arranger.
    pub closed spec fn base_names(&self) -> Set<Seq<char>> {
        self.pieces_with_arrangements@.dom()
    }

    /// The pieces listed under each name without arranger.
    pub closed spec fn arrangements(&self) -> Map<Seq<char>, Seq<Seq<char>>> {
        self.pieces_with_arrangements@
    }

    /// The name that each tag leads to.
    pub closed spec fn tag_map(&self) -> Map<Seq<char>, Seq<char>> {
        self.pieces_by_tag@
    }

    /// The parts of each piece whose directory has been read.
    pub closed spec fn loaded_parts(&self) -> Map<Seq<char>, Map<Seq<char>, Seq<char>>> {
        self.parts_per_piece@
    }

    /// The indexes agree with the list of pieces.
    pub closed spec fn wf(&self) -> bool {
        &&& self.piece_seq().no_duplicates()
        &&& self.piece_seq().to_set() == self.pieces()
        &&& self.pieces_with_arrangements.wf()
        &&& self.pieces_by_tag.wf()
        &&& self.parts_per_piece.wf()
        &&& arrangement_index(self.piece_seq(), self.arrangements())
        &&& tag_index(self.base_names(), self.tag_map())
        &&& self.loaded_parts().dom().subset_of(self.pieces())
    }

    /// The name that `name` is corrected to: the name without arranger
    /// filed under its tag, or `name` itself when no name has that tag.
    pub closed spec fn nearest_name(&self, name: Seq<char>) -> Seq<char> {
        if self.tag_map().contains_key(piece_tag(name)) {
            self.tag_map()[piece_tag(name)]
        } else {
            name
        }
    }

    /// The tag of a piece's name (see `piece_tag`): a punctuation-free,
    /// lower-case form of the name without arranger, by which pieces are looked
    /// up when a name is spelled a little differently.
    pub fn piece_name_to_tag(name: &str) -> (r: String)
        ensures
            r@ == piece_tag(name@),
    {
        let base = remove_arranger(name);
        let base_chars = chars_of(base.as_str());
        let tagged = tag_chars_exec(base_chars.as_slice());
        let opus_1 = chars_of("opus 1");
        let opus_one = chars_of("opus one");
        let chattanooga = chars_of("chattanooga");
        let chatanooga = chars_of("chatanooga");
        proof {
            reveal_strlit("opus 1");
            reveal_strlit("chattanooga");
        }
        let step = replace(tagged.as_slice(), opus_1.as_slice(), opus_one.as_slice());
        let done = replace(step.as_slice(), chattanooga.as_slice(), chatanooga.as_slice());
        string_from_chars(done.as_slice())
    }

    /// Indexes the pieces whose names are given (the subdirectories of the
    /// charts directory); no parts are known yet. What the indexes hold of a
    /// well-formed cache is stated by `lemma_base_names`,
    /// `lemma_arrangements` and `lemma_tag_index`.
    pub fn new(piece_names: Vec<String>) -> (r: Self)
        ensures
            r.wf(),
            r.pieces() == views_of(piece_names@).to_set(),
            r.loaded_parts() == Map::<Seq<char>, Map<Seq<char>, Seq<char>>>::empty(),
    {
        let mut piece_list = StrSet::new();
        let mut i: usize = 0;
        while i < piece_names.len()
            invariant
                i <= piece_names@.len(),
                piece_list@ == views_of(piece_names@.take(i as int)).to_set(),
            decreases piece_names@.len() - i,
        {
            piece_list.insert(piece_names[i].clone());
            proof {
                assert(views_of(piece_names@.take(i + 1)) =~= views_of(piece_names@.take(i as int)).push(
                    piece_names@[i as int]@));
                views_of(piece_names@.take(i as int)).lemma_push_to_set_commute(piece_names@[i as int]@);
            }
            i = i + 1;
        }
        assert(piece_names@.take(i as int) =~= piece_names@);
        let items = piece_list.items();
        let ghost pseq = views_of(items@);
        let mut arr: StrMap<Vec<String>> = StrMap::new();
        let mut k: usize = 0;
        proof {
            assert forall|b: Seq<char>| #[trigger] arr@.contains_key(b) <==> exists|i: int|
                0 <= i < pseq.take(0).len() && name_without_arranger(#[trigger] pseq.take(0)[i]) == b by {}
        }
        while k < items.len()
            invariant
                k <= items@.len(),
                pseq == views_of(items@),
                arrangement_index(pseq.take(k as int), arr@),
            decreases items@.len() - k,
        {
            let piece = &items[k];
            let base = remove_arranger(piece.as_str());
            proof {
                lemma_arrangement_push(pseq.take(k as int), arr@, pseq[k as int]);
                assert(pseq.take(k + 1) =~= pseq.take(k as int).push(pseq[k as int]));
            }
            arr.push_item(base, piece.clone());
            k = k + 1;
        }
        assert(pseq.take(k as int) =~= pseq);
        proof {
            use_type_invariant(&arr);
            arr.lemma_view();
        }
        let keys = arr.keys();
        let ghost kseq = views_of(keys@);
        let mut by_tag: StrMap<String> = StrMap::new();
        let mut j: usize = 0;
        while j < keys.len()
            invariant
                j <= keys@.len(),
                kseq == views_of(keys@),
                arr@.dom() == kseq.to_set(),
                forall|jj: int| 0 <= jj < j ==> by_tag@.contains_key(piece_tag(#[trigger] kseq[jj])),
                forall|t: Seq<char>|
                    #[trigger] by_tag@.contains_key(t) ==> arr@.dom().contains(by_tag@[t])
                        && piece_tag(by_tag@[t]) == t,
            decreases keys@.len() - j,
        {
            let b = &keys[j];
            let t = Cache::piece_name_to_tag(b.as_str());
            assert(arr@.dom().contains(kseq[j as int]));
            by_tag.insert(t, b.clone());
            j = j + 1;
        }
        proof {
            assert forall|b: Seq<char>| #[trigger] arr@.dom().contains(b) implies by_tag@.contains_key(
                piece_tag(b),
            ) by {
                assert(kseq.contains(b));
                let jj = choose|jj: int| 0 <= jj < kseq.len() && kseq[jj] == b;
            }
        }
        let parts_per_piece: StrMap<PartList> = StrMap::new();
        proof {
            use_type_invariant(&by_tag);
            use_type_invariant(&parts_per_piece);
        }
        Cache {
            piece_list,
            pieces_with_arrangements: arr,
            pieces_by_tag: by_tag,
            parts_per_piece,
        }
    }
}

impl Cache {
    /// The parts of `piece`: none when it is not a piece, an error when its
    /// directory has not been read yet.
    pub fn get_part_list(&self, piece: &str) -> (r: Result<Option<&PartList>, PartListNotLoaded>)
        requires
            self.wf(),
        ensures
            !self.pieces().contains(piece@) ==> r matches Ok(None),
            self.loaded_parts().contains_key(piece@) ==> (r matches Ok(Some(pl)) && pl@
                == self.loaded_parts()[piece@]),
            self.pieces().contains(piece@) && !self.loaded_parts().contains_key(piece@) ==> (r matches Err(
                e,
            ) && e.piece@ == piece@),
    {
        if !self.piece_list.contains(piece) {
            return Ok(None);
        }
        match self.parts_per_piece.get(piece) {
            Some(pl) => Ok(Some(pl)),
            None => Err(PartListNotLoaded { piece: piece.to_owned() }),
        }
    }

    /// Keeps the parts that the entries of the directory of `piece` hold
    /// (see `read_part_list`) as its parts, unless `piece` is not a piece or
    /// its parts are known already; returns whether they were kept.
    pub fn store_part_list(&mut self, piece: &str, entries: &Vec<DirEntryInfo>) -> (r: bool)
        requires
            old(self).wf(),
        ensures
            final(self).wf(),
            r == (old(self).pieces().contains(piece@) && !old(self).loaded_parts().contains_key(piece@)),
            final(self).loaded_parts() == if r {
                old(self).loaded_parts().insert(piece@, part_list_of(piece@, entries@))
            } else {
                old(self).loaded_parts()
            },
            final(self).pieces() == old(self).pieces(),
            final(self).piece_seq() == old(self).piece_seq(),
            final(self).arrangements() == old(self).arrangements(),
            final(self).tag_map() == old(self).tag_map(),
    {
        if !self.piece_list.contains(piece) {
            return false;
        }
        proof {
            self.parts_per_piece.lemma_view();
        }
        if self.parts_per_piece.find(piece).is_some() {
            return false;
        }
        let parts = Cache::read_part_list(piece, entries);
        let ghost pv = parts@;
        assert(parts.deep_view() == pv);
        self.parts_per_piece.insert(piece.to_owned(), parts);
        proof {
            use_type_invariant(&self.parts_per_piece);
        }
        true
    }

    /// The directory of `piece` in `charts_dir`.
    pub fn piece_dir(charts_dir: &str, piece: &str) -> (r: String)
        ensures
            r@ == charts_dir@ + "/"@ + piece@,
    {
        join_path(charts_dir, piece)
    }

    /// The part, with the path of its PDF, that a directory entry of `piece`
    /// holds: only a regular file named "<piece> - <part>.pdf" or
    /// "<part> - <piece>.pdf" holds one.
    pub fn extract_part_from_dir_entry(piece_name: &str, entry: &DirEntryInfo) -> (r: Option<
        (String, String),
    >)
        ensures
            match r {
                Some((part, path)) => entry_part(piece_name@, *entry) == Some(part@) && path@
                    == entry.path(),
                None => entry_part(piece_name@, *entry) is None,
            },
    {
        if !entry.is_file {
            return None;
        }
        match part_from_file_name(piece_name, &entry.extension, &entry.file_stem) {
            Some(part) => Some((part, entry.path.clone())),
            None => None,
        }
    }

    /// The parts of `piece` that the entries of its directory hold; where two
    /// files hold the same part, the later one counts. Each entry's extension and stem are those of its path
    /// (see `extension_agrees` and `stem_agrees`).
    pub fn read_part_list(piece_name: &str, entries: &Vec<DirEntryInfo>) -> (r: PartList)
        ensures
            r@ == part_list_of(piece_name@, entries@),
            forall|i: int|
                0 <= i < entries@.len() ==> extension_agrees(
                    #[trigger] entries@[i].path(),
                    entries@[i].extension(),
                ) && stem_agrees(entries@[i].path(), entries@[i].file_stem()),
    {
        let mut parts: PartList = StrMap::new();
        let mut i: usize = 0;
        while i < entries.len()
            invariant
                i <= entries@.len(),
                parts@ == part_list_of(piece_name@, entries@.take(i as int)),
                forall|k: int|
                    0 <= k < i ==> extension_agrees(
                        #[trigger] entries@[k].path(),
                        entries@[k].extension(),
                    ) && stem_agrees(entries@[k].path(), entries@[k].file_stem()),
            decreases entries@.len() - i,
        {
            let entry = &entries[i];
            proof {
                use_type_invariant(entry);
            }
            assert(entries@.take(i + 1).drop_last() =~= entries@.take(i as int));
            assert(entries@.take(i + 1).last() == entries@[i as int]);
            match Cache::extract_part_from_dir_entry(piece_name, entry) {
                Some((part, path)) => {
                    parts.insert(part, path);
                },
                None => {},
            }
            i = i + 1;
        }
        assert(entries@.take(i as int) =~= entries@);
        parts
    }
}

/// Whether two different pieces in `pieces` have `piece` as their name
/// without arranger.
pub open spec fn has_several_arrangements(pieces: Set<Seq<char>>, piece: Seq<char>) -> bool {
    exists|p1: Seq<char>, p2: Seq<char>|
        #![trigger pieces.contains(p1), pieces.contains(p2)]
        pieces.contains(p1) && pieces.contains(p2) && p1 != p2 && name_without_arranger(p1) == piece
            && name_without_arranger(p2) == piece
}

/// The parts that are offered when a piece's own parts are not known.
pub open spec fn default_parts() -> Set<Seq<char>> {
    set![
        "Alto Sax 1"@, "Alto Sax 2"@, "Tenor Sax 1"@, "Tenor Sax 2"@, "Baritone Sax"@,
        "Trumpet 1"@, "Trumpet 2"@, "Trumpet 3"@, "Trumpet 4"@,
        "Trombone 1"@, "Trombone 2"@, "Trombone 3"@, "Trombone 4"@,
        "Guitar"@, "Piano"@, "Bass"@, "Drums"@,
        "Vocal"@, "Conductor"@
    ]
}

/// Access to a big band's parts folder: where it is, and what is known of
/// what it holds.
pub struct ChartManager {
    charts_dir: String,
    cache: Cache,
}

impl ChartManager {
    /// The directory that holds the charts.
    pub closed spec fn charts_dir(&self) -> Seq<char> {
        self.charts_dir@
    }

    /// What is known of the directory's contents.
    pub closed spec fn cache(&self) -> Cache {
        self.cache
    }

    /// The pieces in the directory.
    pub open spec fn pieces(&self) -> Set<Seq<char>> {
        self.cache().pieces()
    }

    /// The parts of each piece whose directory has been read.
    pub open spec fn loaded_parts(&self) -> Map<Seq<char>, Map<Seq<char>, Seq<char>>> {
        self.cache().loaded_parts()
    }

    /// The indexes of the cache agree with its list of pieces.
    pub open spec fn wf(&self) -> bool {
        self.cache().wf()
    }

    /// A manager of the directory `charts_dir`, which holds the pieces
    /// named.
    pub fn new(charts_dir: String, piece_names: Vec<String>) -> (r: Self)
        ensures
            r.wf(),
            r.charts_dir() == charts_dir@,
            r.pieces() == views_of(piece_names@).to_set(),
            r.loaded_parts() == Map::<Seq<char>, Map<Seq<char>, Seq<char>>>::empty(),
    {
        ChartManager { charts_dir, cache: Cache::new(piece_names) }
    }

    /// The directory that holds the charts.
    pub fn get_path(&self) -> (r: &str)
        ensures
            r@ == self.charts_dir(),
    {
        self.charts_dir.as_str()
    }

    /// Moves to the directory `new_path`. When it is the current one nothing
    /// changes; otherwise what was known is dropped, and the result says
    /// that the new directory's pieces are to be handed to `refresh_cache`.
    pub fn update_path(&mut self, new_path: String) -> (needs_refresh: bool)
        requires
            old(self).wf(),
        ensures
            final(self).wf(),
            needs_refresh == (old(self).charts_dir() != new_path@),
            !needs_refresh ==> *final(self) == *old(self),
            needs_refresh ==> final(self).charts_dir() == new_path@ && final(self).pieces()
                == Set::<Seq<char>>::empty() && final(self).loaded_parts() == Map::<
                Seq<char>,
                Map<Seq<char>, Seq<char>>,
            >::empty(),
    {
        if self.charts_dir == new_path {
            return false;
        }
        self.charts_dir = new_path;
        self.cache = Cache::new(Vec::new());
        assert(views_of(Seq::<String>::empty()).to_set() =~= Set::<Seq<char>>::empty());
        true
    }

    /// Replaces what is known of the directory by its listing: the names of
    /// the pieces in it.
    pub fn refresh_cache(&mut self, piece_names: Vec<String>)
        ensures
            final(self).wf(),
            final(self).charts_dir() == old(self).charts_dir(),
            final(self).pieces() == views_of(piece_names@).to_set(),
            final(self).loaded_parts() == Map::<Seq<char>, Map<Seq<char>, Seq<char>>>::empty(),
    {
        self.cache = Cache::new(piece_names);
    }

    /// The pieces.
    pub fn get_piece_list(&self) -> (r: &StrSet)
        ensures
            r@ == self.pieces(),
    {
        &self.cache.piece_list
    }

    /// Whether `piece` is a piece in the directory.
    pub fn has_piece(&self, piece: &str) -> (r: bool)
        ensures
            r == self.pieces().contains(piece@),
    {
        self.cache.piece_list.contains(piece)
    }

    /// The name of a piece that `uncorrected_name` stands for: the name
    /// without arranger that has the same tag, or `uncorrected_name` itself
    /// when there is none.
    pub fn get_nearest_piece_name<'s>(&'s self, uncorrected_name: &'s str) -> (r: &'s str)
        requires
            self.wf(),
        ensures
            r@ == self.cache().nearest_name(uncorrected_name@),
    {
        let tag = Cache::piece_name_to_tag(uncorrected_name);
        match self.cache.pieces_by_tag.get(tag.as_str()) {
            Some(corrected_name) => corrected_name.as_str(),
            None => uncorrected_name,
        }
    }

    /// Whether `piece`, a name without arranger, is the name of more than
    /// one piece (in different arrangements).
    pub fn does_piece_have_arrangements(&self, piece: &str) -> (r: bool)
        requires
            self.wf(),
        ensures
            r == has_several_arrangements(self.pieces(), piece@),
    {
        let ghost ps = self.cache.piece_seq();
        let ghost pred = is_arrangement_of(piece@);
        proof {
            crate::string_set::lemma_filter_no_duplicates(ps, pred);
        }
        match self.cache.pieces_with_arrangements.get(piece) {
            Some(arrs) => {
                let ghost f = ps.filter(pred);
                assert(arrs.deep_view() == f);
                assert(arrs@.len() == f.len());
                let r = arrs.len() > 1;
                proof {
                    if r {
                        ps.lemma_filter_pred(pred, 0);
                        ps.lemma_filter_pred(pred, 1);
                        ps.lemma_filter_contains_rev(pred, f[0]);
                        ps.lemma_filter_contains_rev(pred, f[1]);
                        assert(self.pieces().contains(f[0]));
                        assert(self.pieces().contains(f[1]));
                    } else if has_several_arrangements(self.pieces(), piece@) {
                        let (p1, p2) = choose|p1: Seq<char>, p2: Seq<char>|
                            #![trigger self.pieces().contains(p1), self.pieces().contains(p2)]
                            self.pieces().contains(p1) && self.pieces().contains(p2) && p1 != p2
                                && name_without_arranger(p1) == piece@ && name_without_arranger(p2)
                                == piece@;
                        assert(ps.contains(p1));
                        assert(ps.contains(p2));
                        let i1 = choose|i: int| 0 <= i < ps.len() && ps[i] == p1;
                        let i2 = choose|i: int| 0 <= i < ps.len() && ps[i] == p2;
                        ps.lemma_filter_contains(pred, i1);
                        ps.lemma_filter_contains(pred, i2);
                        let j1 = choose|j: int| 0 <= j < f.len() && f[j] == p1;
                        let j2 = choose|j: int| 0 <= j < f.len() && f[j] == p2;
                        assert(j1 != j2);
                    }
                }
                r
            },
            None => {
                proof {
                    if has_several_arrangements(self.pieces(), piece@) {
                        let (p1, p2) = choose|p1: Seq<char>, p2: Seq<char>|
                            #![trigger self.pieces().contains(p1), self.pieces().contains(p2)]
                            self.pieces().contains(p1) && self.pieces().contains(p2) && p1 != p2
                                && name_without_arranger(p1) == piece@ && name_without_arranger(p2)
                                == piece@;
                        assert(ps.contains(p1));
                        let i1 = choose|i: int| 0 <= i < ps.len() && ps[i] == p1;
                        assert(name_without_arranger(ps[i1]) == piece@);
                    }
                }
                false
            },
        }
    }
}

impl ChartManager {
    /// The parts of `piece`, as `Cache::get_part_list` gives them.
    pub fn get_part_list(&self, piece: &str) -> (r: Result<Option<&PartList>, PartListNotLoaded>)
        requires
            self.wf(),
        ensures
            !self.pieces().contains(piece@) ==> r matches Ok(None),
            self.loaded_parts().contains_key(piece@) ==> (r matches Ok(Some(pl)) && pl@
                == self.loaded_parts()[piece@]),
            self.pieces().contains(piece@) && !self.loaded_parts().contains_key(piece@) ==> (r matches Err(
                e,
            ) && e.piece@ == piece@),
    {
        self.cache.get_part_list(piece)
    }

    /// Keeps the parts that the directory of `piece` holds as its parts,
    /// unless `piece` is not a piece or its parts are known already; returns
    /// whether they were kept. `listing` tells, for each entry of the
    /// directory, whether it is a regular file and its name; the entries are
    /// taken as the paths "<charts_dir>/<piece>/<name>" (see
    /// `entries_of_listing`), and the parts are those that they hold (see
    /// `read_part_list`).
    pub fn store_part_list(&mut self, piece: &str, listing: &Vec<(bool, String)>) -> (r: bool)
        requires
            old(self).wf(),
        ensures
            final(self).wf(),
            r == (old(self).pieces().contains(piece@) && !old(self).loaded_parts().contains_key(piece@)),
            r ==> exists|es: Seq<DirEntryInfo>|
                #[trigger] entries_of_listing(old(self).charts_dir(), piece@, listing@, es)
                    && final(self).loaded_parts() == old(self).loaded_parts().insert(
                    piece@,
                    part_list_of(piece@, es),
                ),
            !r ==> final(self).loaded_parts() == old(self).loaded_parts(),
            final(self).charts_dir() == old(self).charts_dir(),
            final(self).pieces() == old(self).pieces(),
            final(self).cache().arrangements() == old(self).cache().arrangements(),
            final(self).cache().tag_map() == old(self).cache().tag_map(),
    {
        let dir = Cache::piece_dir(self.charts_dir.as_str(), piece);
        let mut entries: Vec<DirEntryInfo> = Vec::new();
        let mut i: usize = 0;
        while i < listing.len()
            invariant
                i <= listing@.len(),
                dir@ == self.charts_dir() + "/"@ + piece@,
                entries@.len() == i,
                forall|k: int|
                    0 <= k < i ==> {
                        &&& #[trigger] entries@[k].is_file() == listing@[k].0
                        &&& entries@[k].path() == entry_path_in(self.charts_dir(), piece@, listing@[k].1@)
                        &&& extension_agrees(entries@[k].path(), entries@[k].extension())
                        &&& stem_agrees(entries@[k].path(), entries@[k].file_stem())
                    },
            decreases listing@.len() - i,
        {
            let path = join_path(dir.as_str(), listing[i].1.as_str());
            let entry = DirEntryInfo::new(listing[i].0, path);
            entries.push(entry);
            i = i + 1;
        }
        assert(entries_of_listing(self.charts_dir(), piece@, listing@, entries@));
        self.cache.store_part_list(piece, &entries)
    }

    /// The path of the PDF of `part` of `piece`, if there is one.
    pub fn get_path_of_part(&self, piece: &str, part: &str) -> (r: Result<
        Option<String>,
        PartListNotLoaded,
    >)
        requires
            self.wf(),
        ensures
            !self.pieces().contains(piece@) ==> r matches Ok(None),
            self.loaded_parts().contains_key(piece@) ==> (r matches Ok(path) && opt_view(path) == (
            if self.loaded_parts()[piece@].contains_key(part@) {
                Some(self.loaded_parts()[piece@][part@])
            } else {
                None
            })),
            self.pieces().contains(piece@) && !self.loaded_parts().contains_key(piece@) ==> (r matches Err(
                e,
            ) && e.piece@ == piece@),
    {
        match self.get_part_list(piece) {
            Err(e) => Err(e),
            Ok(None) => Ok(None),
            Ok(Some(part_list)) => match part_list.get(part) {
                Some(path) => Ok(Some(path.clone())),
                None => Ok(None),
            },
        }
    }

    /// Whether `piece` has a PDF for `part`.
    pub fn has_part(&self, piece: &str, part: &str) -> (r: Result<bool, PartListNotLoaded>)
        requires
            self.wf(),
        ensures
            !self.pieces().contains(piece@) ==> r matches Ok(false),
            self.loaded_parts().contains_key(piece@) ==> (r matches Ok(b) && b
                == self.loaded_parts()[piece@].contains_key(part@)),
            self.pieces().contains(piece@) && !self.loaded_parts().contains_key(piece@) ==> (r matches Err(
                e,
            ) && e.piece@ == piece@),
    {
        match self.get_path_of_part(piece, part) {
            Err(e) => Err(e),
            Ok(path) => Ok(path.is_some()),
        }
    }

    /// The names of the parts of `piece`; the default parts when it is not a
    /// piece.
    pub fn get_part_list_or_default(&self, piece: &str) -> (r: Result<StrSet, PartListNotLoaded>)
        requires
            self.wf(),
        ensures
            !self.pieces().contains(piece@) ==> (r matches Ok(s) && s@ == default_parts()),
            self.loaded_parts().contains_key(piece@) ==> (r matches Ok(s) && s@
                == self.loaded_parts()[piece@].dom()),
            self.pieces().contains(piece@) && !self.loaded_parts().contains_key(piece@) ==> (r matches Err(
                e,
            ) && e.piece@ == piece@),
    {
        match self.get_part_list(piece) {
            Err(e) => Err(e),
            Ok(None) => Ok(Self::default_part_list()),
            Ok(Some(part_list)) => {
                proof {
                    use_type_invariant(part_list);
                    part_list.lemma_view();
                }
                let names = part_list.keys();
                let ghost kseq = views_of(names@);
                let mut set = StrSet::new();
                let mut i: usize = 0;
                while i < names.len()
                    invariant
                        i <= names@.len(),
                        kseq == views_of(names@),
                        set@ == kseq.take(i as int).to_set(),
                    decreases names@.len() - i,
                {
                    set.insert(names[i].clone());
                    proof {
                        assert(kseq.take(i + 1) =~= kseq.take(i as int).push(kseq[i as int]));
                        kseq.take(i as int).lemma_push_to_set_commute(kseq[i as int]);
                    }
                    i = i + 1;
                }
                assert(kseq.take(i as int) =~= kseq);
                Ok(set)
            },
        }
    }

    /// The parts of a big band, offered for pieces whose parts are not known.
    pub fn default_part_list() -> (r: StrSet)
        ensures
            r@ == default_parts(),
    {
        let mut parts = StrSet::new();
        // Saxes
        parts.insert("Alto Sax 1".to_owned());
        parts.insert("Alto Sax 2".to_owned());
        parts.insert("Tenor Sax 1".to_owned());
        parts.insert("Tenor Sax 2".to_owned());
        parts.insert("Baritone Sax".to_owned());
        // Trumpets
        parts.insert("Trumpet 1".to_owned());
        parts.insert("Trumpet 2".to_owned());
        parts.insert("Trumpet 3".to_owned());
        parts.insert("Trumpet 4".to_owned());
        // Trombones
        parts.insert("Trombone 1".to_owned());
        parts.insert("Trombone 2".to_owned());
        parts.insert("Trombone 3".to_owned());
        parts.insert("Trombone 4".to_owned());
        // Rhythm
        parts.insert("Guitar".to_owned());
        parts.insert("Piano".to_owned());
        parts.insert("Bass".to_owned());
        parts.insert("Drums".to_owned());
        // Other
        parts.insert("Vocal".to_owned());
        parts.insert("Conductor".to_owned());
        parts
    }
}

/// The names without arranger are exactly those of the pieces.
pub proof fn lemma_base_names(c: Cache, b: Seq<char>)
    requires
        c.wf(),
    ensures
        c.base_names().contains(b) <==> exists|p: Seq<char>|
            #[trigger] c.pieces().contains(p) && name_without_arranger(p) == b,
{
    let ps = c.piece_seq();
    if c.base_names().contains(b) {
        assert(c.arrangements().contains_key(b));
        let i = choose|i: int| 0 <= i < ps.len() && name_without_arranger(#[trigger] ps[i]) == b;
        assert(c.pieces().contains(ps[i]));
    }
    if exists|p: Seq<char>| #[trigger] c.pieces().contains(p) && name_without_arranger(p) == b {
        let p = choose|p: Seq<char>| #[trigger] c.pieces().contains(p) && name_without_arranger(p) == b;
        assert(ps.contains(p));
        let i = choose|i: int| 0 <= i < ps.len() && ps[i] == p;
        assert(name_without_arranger(ps[i]) == b);
        assert(c.arrangements().contains_key(b));
    }
}

/// The name that a name is corrected to is a piece's name without arranger
/// with the same tag, whenever such a name exists; otherwise the name is
/// kept as it is.
pub proof fn lemma_nearest_name(c: Cache, name: Seq<char>)
    requires
        c.wf(),
    ensures
        (exists|b: Seq<char>| #[trigger] c.base_names().contains(b) && piece_tag(b) == piece_tag(name))
            ==> c.base_names().contains(c.nearest_name(name)) && piece_tag(
            c.nearest_name(name),
        ) == piece_tag(name),
        !(exists|b: Seq<char>| #[trigger] c.base_names().contains(b) && piece_tag(b) == piece_tag(name))
            ==> c.nearest_name(name) == name,
{
    let t = piece_tag(name);
    if exists|b: Seq<char>| #[trigger] c.base_names().contains(b) && piece_tag(b) == t {
        let b = choose|b: Seq<char>| #[trigger] c.base_names().contains(b) && piece_tag(b) == t;
        assert(c.tag_map().contains_key(piece_tag(b)));
    } else if c.tag_map().contains_key(t) {
        assert(c.base_names().contains(c.tag_map()[t]));
    }
}

/// The parts offered by default are exactly the nineteen parts of a big
/// band: five saxes, four trumpets, four trombones, the rhythm section,
/// vocal and conductor.
pub proof fn lemma_default_parts_listed(x: Seq<char>)
    ensures
        default_parts().contains(x) <==> {
            ||| x == "Alto Sax 1"@
            ||| x == "Alto Sax 2"@
            ||| x == "Tenor Sax 1"@
            ||| x == "Tenor Sax 2"@
            ||| x == "Baritone Sax"@
            ||| x == "Trumpet 1"@
            ||| x == "Trumpet 2"@
            ||| x == "Trumpet 3"@
            ||| x == "Trumpet 4"@
            ||| x == "Trombone 1"@
            ||| x == "Trombone 2"@
            ||| x == "Trombone 3"@
            ||| x == "Trombone 4"@
            ||| x == "Guitar"@
            ||| x == "Piano"@
            ||| x == "Bass"@
            ||| x == "Drums"@
            ||| x == "Vocal"@
            ||| x == "Conductor"@
        },
{
}

/// The tag characters of a joined name are those of its parts, joined.
pub proof fn lemma_tag_chars_concat(a: Seq<char>, b: Seq<char>)
    ensures
        tag_chars(a + b) == tag_chars(a) + tag_chars(b),
    decreases b.len(),
{
    if b.len() == 0 {
        assert(a + b =~= a);
        assert(tag_chars(a) + tag_chars(b) =~= tag_chars(a));
    } else {
        lemma_tag_chars_concat(a, b.drop_last());
        assert((a + b).drop_last() =~= a + b.drop_last());
        assert((a + b).last() == b.last());
        assert(tag_chars(a) + tag_chars(b.drop_last()) + char_tag(b.last()) =~= tag_chars(a) + (
        tag_chars(b.drop_last()) + char_tag(b.last())));
    }
}

/// A name with no '(' holds no arranger marker, so nothing is cut off it.
proof fn lemma_no_paren_no_arranger(s: Seq<char>)
    requires
        !s.contains('('),
    ensures
        name_without_arranger(s) == s,
{
    reveal_strlit(" (arr ");
    let m = " (arr "@;
    lemma_find_from(s, m, 0);
    if let Some(k) = first_match(s, m) {
        assert(s.subrange(k, k + 6)[1] == m[1]);
        assert(s[k + 1] == '(');
    }
}

/// A tag keeps nothing of punctuation: a character that is neither '&',
/// alphanumeric nor white space contributes nothing, so a name and the same
/// name without that character have the same tag characters, and (where no
/// '(' is involved, so no arranger marker is made or broken) the same tag.
pub proof fn lemma_tag_drops_punctuation(a: Seq<char>, b: Seq<char>, c: char)
    requires
        c != '&',
        !char_is_alphanumeric(c),
        !char_is_whitespace(c),
    ensures
        tag_chars(a + seq![c] + b) == tag_chars(a + b),
        c != '(' && !(a + b).contains('(') ==> piece_tag(a + seq![c] + b) == piece_tag(a + b),
{
    lemma_tag_chars_concat(a + seq![c], b);
    lemma_tag_chars_concat(a, seq![c]);
    lemma_tag_chars_concat(a, b);
    assert(seq![c].drop_last() =~= Seq::<char>::empty());
    assert(tag_chars(seq![c]) == tag_chars(Seq::<char>::empty()) + char_tag(c));
    assert(tag_chars(seq![c]) =~= Seq::<char>::empty());
    assert(tag_chars(a) + Seq::<char>::empty() =~= tag_chars(a));
    if c != '(' && !(a + b).contains('(') {
        let n = a + seq![c] + b;
        assert(!n.contains('(')) by {
            if n.contains('(') {
                let i = choose|i: int| 0 <= i < n.len() && n[i] == '(';
                if i < a.len() {
                    assert((a + b)[i] == '(');
                } else if i > a.len() {
                    assert((a + b)[i - 1] == '(');
                }
            }
        }
        lemma_no_paren_no_arranger(n);
        lemma_no_paren_no_arranger(a + b);
    }
}

/// What each character contributes to a tag: '&' gives "and", a letter or
/// digit its lower-case form, white space one space, anything else nothing;
/// a name's tag characters are those of its characters, in order.
pub proof fn lemma_tag_chars_single(c: char)
    ensures
        c == '&' ==> tag_chars(seq![c]) == "and"@,
        c != '&' && char_is_alphanumeric(c) ==> tag_chars(seq![c]) == char_lowercase(c),
        c != '&' && !char_is_alphanumeric(c) && char_is_whitespace(c) ==> tag_chars(seq![c]) == seq![' '],
        c != '&' && !char_is_alphanumeric(c) && !char_is_whitespace(c) ==> tag_chars(seq![c]).len() == 0,
{
    assert(seq![c].drop_last() =~= Seq::<char>::empty());
    assert(tag_chars(seq![c]) == tag_chars(Seq::<char>::empty()) + char_tag(c));
    assert(Seq::<char>::empty() + char_tag(c) =~= char_tag(c));
}

/// A tag does not depend on the arranger: a name and the same name without
/// arranger have the same tag.
pub proof fn lemma_tag_ignores_arranger(name: Seq<char>)
    ensures
        piece_tag(name_without_arranger(name)) == piece_tag(name),
{
    reveal_strlit(" (arr ");
    lemma_prefix_before_idempotent(name, " (arr "@);
}

/// What is stored as a piece's parts is what is found afterwards: once
/// `store_part_list` has kept `parts` for `piece`, a lookup of any part of
/// `piece` gives the path that `parts` holds for it, and parts of other
/// pieces are as they were.
pub proof fn lemma_store_then_lookup(
    before: &ChartManager,
    after: &ChartManager,
    piece: Seq<char>,
    parts: Map<Seq<char>, Seq<char>>,
    part: Seq<char>,
    other: Seq<char>,
)
    requires
        after.loaded_parts() == before.loaded_parts().insert(piece, parts),
        other != piece,
    ensures
        after.loaded_parts().contains_key(piece),
        after.loaded_parts()[piece].contains_key(part) == parts.contains_key(part),
        parts.contains_key(part) ==> after.loaded_parts()[piece][part] == parts[part],
        after.loaded_parts().contains_key(other) == before.loaded_parts().contains_key(other),
        before.loaded_parts().contains_key(other) ==> after.loaded_parts()[other]
            == before.loaded_parts()[other],
{
}

/// Correcting a name that has been corrected already changes nothing.
pub proof fn lemma_nearest_name_idempotent(c: Cache, name: Seq<char>)
    requires
        c.wf(),
    ensures
        c.nearest_name(c.nearest_name(name)) == c.nearest_name(name),
{
}

/// The arrangements index: a name without arranger is listed exactly when
/// some piece has it, and then with the pieces that have it, each once and
/// at least one.
pub proof fn lemma_arrangements(c: Cache, b: Seq<char>)
    requires
        c.wf(),
    ensures
        c.arrangements().contains_key(b) <==> exists|p: Seq<char>|
            #[trigger] c.pieces().contains(p) && name_without_arranger(p) == b,
        c.arrangements().contains_key(b) ==> {
            &&& c.arrangements()[b].no_duplicates()
            &&& c.arrangements()[b].len() > 0
            &&& c.arrangements()[b].to_set() == c.pieces().filter(is_arrangement_of(b))
        },
{
    lemma_base_names(c, b);
    let ps = c.piece_seq();
    let pred = is_arrangement_of(b);
    if c.arrangements().contains_key(b) {
        let f = ps.filter(pred);
        assert(c.arrangements()[b] == f);
        crate::string_set::lemma_filter_no_duplicates(ps, pred);
        let i = choose|i: int| 0 <= i < ps.len() && name_without_arranger(#[trigger] ps[i]) == b;
        ps.lemma_filter_contains(pred, i);
        assert forall|x: Seq<char>| #[trigger] f.to_set().contains(x) <==> c.pieces().filter(
            pred,
        ).contains(x) by {
            if f.contains(x) {
                ps.lemma_filter_contains_rev(pred, x);
            }
            if c.pieces().filter(pred).contains(x) {
                assert(ps.contains(x));
                let k = choose|k: int| 0 <= k < ps.len() && ps[k] == x;
                ps.lemma_filter_contains(pred, k);
            }
        }
        assert(f.to_set() =~= c.pieces().filter(pred));
    }
}

/// The tag index: a tag is listed exactly when some name without arranger
/// has it, and it leads to such a name.
pub proof fn lemma_tag_index(c: Cache, t: Seq<char>)
    requires
        c.wf(),
    ensures
        c.tag_map().contains_key(t) <==> exists|b: Seq<char>|
            #[trigger] c.base_names().contains(b) && piece_tag(b) == t,
        c.tag_map().contains_key(t) ==> c.base_names().contains(
            c.tag_map()[t],
        ) && piece_tag(c.tag_map()[t]) == t,
{
    if c.tag_map().contains_key(t) {
        assert(c.base_names().contains(c.tag_map()[t]));
    }
}

/// A tag does not depend on an arranger appended to a name: the name `a`
/// followed by " (arr " and anything has the tag of `a`, unless `a` itself
/// ends with " (arr" (then the marker would start inside `a`).
pub proof fn lemma_tag_ignores_appended_arranger(a: Seq<char>, b: Seq<char>)
    requires
        !(a.len() >= 5 && a.subrange(a.len() - 5, a.len() as int) == " (arr"@),
    ensures
        piece_tag(a + " (arr "@ + b) == piece_tag(a),
{
    reveal_strlit(" (arr ");
    reveal_strlit(" (arr");
    let m = " (arr "@;
    let s = a + m + b;
    lemma_find_from(a, m, 0);
    match first_match(a, m) {
        Some(i) => {
            assert(s.subrange(i, i + 6) =~= a.subrange(i, i + 6));
            assert forall|j: int| 0 <= j < i implies !matches_at(s, m, j) by {
                assert(!matches_at(a, m, j));
                assert(s.subrange(j, j + 6) =~= a.subrange(j, j + 6));
            }
            lemma_first_match_at(s, m, i);
            assert(s.take(i) =~= a.take(i));
        },
        None => {
            let n = a.len() as int;
            assert(s.subrange(n, n + 6) =~= m);
            assert forall|j: int| 0 <= j < n implies !matches_at(s, m, j) by {
                if matches_at(s, m, j) {
                    if j + 6 <= n {
                        assert(!matches_at(a, m, j));
                        assert(s.subrange(j, j + 6) =~= a.subrange(j, j + 6));
                    } else if j == n - 5 {
                        assert forall|t: int| 0 <= t < 5 implies a.subrange(n - 5, n)[t] == " (arr"@[t] by {
                            assert(s.subrange(j, j + 6)[t] == m[t]);
                        }
                        assert(a.subrange(n - 5, n) =~= " (arr"@);
                    } else {
                        let k = n - j;
                        assert(s.subrange(j, j + 6)[k] == m[k]);
                        assert(s[j + k] == m[0]);
                    }
                }
            }
            lemma_first_match_at(s, m, n);
            assert(s.take(n) =~= a);
        },
    }
}

/// A character that a tag of an ASCII name holds: a lower-case ASCII
/// letter, a digit or a space.
pub open spec fn tag_char(c: char) -> bool {
    let n = c as u32;
    ||| 0x61 <= n <= 0x7a
    ||| 0x30 <= n <= 0x39
    ||| n == 0x20
}

/// Every character of `s` is a `tag_char`.
pub open spec fn all_tag_chars(s: Seq<char>) -> bool {
    forall|i: int| 0 <= i < s.len() ==> tag_char(#[trigger] s[i])
}

/// The characters that tag building makes of ASCII characters are tag
/// characters.
proof fn lemma_tag_chars_alphabet(s: Seq<char>)
    requires
        ascii_case_facts(),
        is_ascii_seq(s),
    ensures
        all_tag_chars(tag_chars(s)),
    decreases s.len(),
{
    if s.len() > 0 {
        let init = s.drop_last();
        let c = s.last();
        assert(is_ascii_seq(init));
        lemma_tag_chars_alphabet(init);
        reveal_strlit("and");
        let ct = char_tag(c);
        assert((c as u32) < 128);
        if c != '&' && char_is_alphanumeric(c) {
            assert(ascii_lowercase_is(c, char_lowercase(c)));
            assert(tag_char(ct[0]));
        }
        assert(all_tag_chars(ct));
        let t = tag_chars(s);
        assert(t == tag_chars(init) + ct);
        assert forall|i: int| 0 <= i < t.len() implies tag_char(#[trigger] t[i]) by {
            if i < tag_chars(init).len() {
                assert(t[i] == tag_chars(init)[i]);
            } else {
                assert(t[i] == ct[i - tag_chars(init).len()]);
            }
        }
    }
}

/// The character with code 0x20 is the space.
proof fn lemma_space_code(c: char)
    requires
        tag_char(c),
        !ascii_alnum(c),
    ensures
        c == ' ',
{
}

/// Tag building leaves tag characters as they are.
proof fn lemma_tag_chars_fixed(s: Seq<char>)
    requires
        ascii_case_facts(),
        all_tag_chars(s),
    ensures
        tag_chars(s) == s,
    decreases s.len(),
{
    if s.len() > 0 {
        let init = s.drop_last();
        let c = s.last();
        assert(tag_char(s[s.len() - 1]));
        assert(all_tag_chars(init));
        lemma_tag_chars_fixed(init);
        assert((c as u32) < 128);
        if ascii_alnum(c) {
            assert(char_is_alphanumeric(c));
            assert(ascii_lowercase_is(c, char_lowercase(c)));
        } else {
            assert(!char_is_alphanumeric(c));
            lemma_space_code(c);
            assert(char_is_whitespace(c));
        }
        assert(char_tag(c) == seq![c]);
        assert(init + seq![c] =~= s);
    }
}

/// Replacing within tag characters by tag characters gives tag characters.
proof fn lemma_replace_all_alphabet(s: Seq<char>, from: Seq<char>, to: Seq<char>)
    requires
        all_tag_chars(s),
        all_tag_chars(to),
    ensures
        all_tag_chars(replace_all(s, from, to)),
    decreases s.len(),
{
    let r = replace_all(s, from, to);
    if s.len() == 0 {
    } else if 0 < from.len() <= s.len() && s.take(from.len() as int) == from {
        let s2 = s.skip(from.len() as int);
        assert(all_tag_chars(s2)) by {
            assert forall|i: int| 0 <= i < s2.len() implies tag_char(#[trigger] s2[i]) by {
                assert(s2[i] == s[i + from.len()]);
            }
        }
        lemma_replace_all_alphabet(s2, from, to);
        let r2 = replace_all(s2, from, to);
        assert forall|i: int| 0 <= i < r.len() implies tag_char(#[trigger] r[i]) by {
            if i < to.len() {
                assert(r[i] == to[i]);
            } else {
                assert(r[i] == r2[i - to.len()]);
            }
        }
    } else {
        let s1 = s.drop_first();
        assert(all_tag_chars(s1)) by {
            assert forall|i: int| 0 <= i < s1.len() implies tag_char(#[trigger] s1[i]) by {
                assert(s1[i] == s[i + 1]);
            }
        }
        lemma_replace_all_alphabet(s1, from, to);
        let r1 = replace_all(s1, from, to);
        assert forall|i: int| 0 <= i < r.len() implies tag_char(#[trigger] r[i]) by {
            if i == 0 {
                assert(r[0] == s[0]);
            } else {
                assert(r[i] == r1[i - 1]);
            }
        }
    }
}

/// Tag characters hold no " (arr ", so nothing is cut off them.
proof fn lemma_tag_chars_no_arranger(s: Seq<char>)
    requires
        all_tag_chars(s),
    ensures
        name_without_arranger(s) == s,
{
    reveal_strlit(" (arr ");
    let m = " (arr "@;
    lemma_find_from(s, m, 0);
    if let Some(k) = first_match(s, m) {
        assert(s.subrange(k, k + 6)[1] == m[1]);
        assert(tag_char(s[k + 1]));
    }
}

/// Tagging the tag of an ASCII name changes nothing, given that
/// `char::is_alphanumeric` and `char::to_lowercase` behave on ASCII
/// characters as the Unicode standard has it (`ascii_case_facts`, which
/// `unicode::check_ascii_case_facts` establishes).
pub proof fn lemma_tag_idempotent_on_ascii(name: Seq<char>)
    requires
        ascii_case_facts(),
        is_ascii_seq(name),
    ensures
        piece_tag(piece_tag(name)) == piece_tag(name),
{
    reveal_strlit(" (arr ");
    reveal_strlit("opus 1");
    reveal_strlit("opus one");
    reveal_strlit("chattanooga");
    reveal_strlit("chatanooga");
    let f1 = "opus 1"@;
    let t1 = "opus one"@;
    let f2 = "chattanooga"@;
    let t2 = "chatanooga"@;
    let base = name_without_arranger(name);
    lemma_find_from(name, " (arr "@, 0);
    assert(is_ascii_seq(base)) by {
        if let Some(i) = first_match(name, " (arr "@) {
            assert forall|k: int| 0 <= k < base.len() implies (#[trigger] base[k] as u32) < 128 by {
                assert(base[k] == name[k]);
            }
        }
    }
    let y = tag_chars(base);
    lemma_tag_chars_alphabet(base);
    assert(all_tag_chars(t1));
    assert(all_tag_chars(t2));
    let w = replace_all(y, f1, t1);
    lemma_replace_all_alphabet(y, f1, t1);
    let x = replace_all(w, f2, t2);
    lemma_replace_all_alphabet(w, f2, t2);
    assert(x == piece_tag(name));
    lemma_tag_chars_no_arranger(x);
    lemma_tag_chars_fixed(x);
    assert forall|j: int| 0 <= j < t1.len() implies !compatible(#[trigger] t1.skip(j), f1) by {
        if j == 0 {
            assert(t1.skip(j)[5] != f1[5]);
        } else if j == 5 {
            assert(t1.skip(j)[1] != f1[1]);
        } else {
            assert(t1.skip(j)[0] != f1[0]);
        }
    }
    assert forall|j: int| 0 <= j < t2.len() implies !compatible(#[trigger] t2.skip(j), f2) by {
        if j == 0 {
            assert(t2.skip(j)[4] != f2[4]);
        } else {
            assert(t2.skip(j)[0] != f2[0]);
        }
    }
    assert forall|j: int| 0 <= j < t2.len() implies !compatible(#[trigger] t2.skip(j), f1) by {
        if j == 6 || j == 7 {
            assert(t2.skip(j)[1] != f1[1]);
        } else {
            assert(t2.skip(j)[0] != f1[0]);
        }
    }
    assert(!f1.drop_first().contains(t1[0]));
    assert(!f1.drop_first().contains(t2[0]));
    assert(!f2.drop_first().contains(t2[0]));
    lemma_replace_no_new_occurrence(y, f1, t1, f1);
    lemma_replace_no_new_occurrence(w, f2, t2, f1);
    lemma_replace_no_new_occurrence(w, f2, t2, f2);
    lemma_replace_all_absent(x, f1, t1);
    lemma_replace_all_absent(x, f2, t2);
}

/// The parts read from a directory are exactly the parts that its entries
/// hold (regular files named "<piece> - <part>.pdf" or
/// "<part> - <piece>.pdf"), each with the path of an entry that holds it.
pub proof fn lemma_part_list_of_entries(piece: Seq<char>, entries: Seq<DirEntryInfo>, part: Seq<char>)
    ensures
        part_list_of(piece, entries).contains_key(part) <==> exists|i: int|
            0 <= i < entries.len() && entry_part(piece, #[trigger] entries[i]) == Some(part),
        part_list_of(piece, entries).contains_key(part) ==> exists|i: int|
            0 <= i < entries.len() && entry_part(piece, #[trigger] entries[i]) == Some(part)
                && entries[i].path() == part_list_of(piece, entries)[part],
    decreases entries.len(),
{
    if entries.len() > 0 {
        let init = entries.drop_last();
        let n = entries.len() - 1;
        lemma_part_list_of_entries(piece, init, part);
        assert(entries[n] == entries.last());
        assert forall|i: int| 0 <= i < init.len() implies #[trigger] init[i] == entries[i] by {}
        if entry_part(piece, entries.last()) == Some(part) {
        } else {
            if exists|i: int| 0 <= i < entries.len() && entry_part(piece, #[trigger] entries[i]) == Some(part) {
                let i = choose|i: int|
                    0 <= i < entries.len() && entry_part(piece, #[trigger] entries[i]) == Some(part);
                assert(i < n);
                assert(entry_part(piece, init[i]) == Some(part));
            }
            if part_list_of(piece, init).contains_key(part) {
                let i = choose|i: int|
                    0 <= i < init.len() && entry_part(piece, #[trigger] init[i]) == Some(part)
                        && init[i].path() == part_list_of(piece, init)[part];
                assert(entry_part(piece, entries[i]) == Some(part));
            }
        }
    }
}

} // verus!
