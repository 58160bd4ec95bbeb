# chart_o_matic

A library, verified with Verus, for managing a big band's parts folder
(one directory per piece, one PDF per part), building musicians' pads from
setlists, and reading setlists out of playlist documents; and a desktop
program (`app/`) around it.

- `src/chart_manager.rs`: the folder's pieces, indexed by name without
  arranger and by a normalised tag; the parts of each piece once its
  directory has been read.
- `src/pad_maker.rs`: the entries of a pad, their ids, and what is exported.
- `src/playlist_manager.rs`: the playlists folder and setlist reading,
  from the bytes of a `.docx` document (parsed with docx-rust).
- `src/part_sections.rs`: how parts are grouped in the part dropdown.
- `src/text.rs`, `src/string_set.rs`, `src/string_map.rs`: text
  primitives and string collections with mathematical models.
- `src/unicode.rs`, `src/paths.rs`: Unicode white space, and calls into
  the standard library (character classes and case, path stems and
  extensions) whose results are named, or stated where every platform
  agrees on them.

The program in `app/` lists folders, reads files, draws the windows with
eframe and hands plain values to the library.
