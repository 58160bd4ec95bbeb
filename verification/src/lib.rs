//! The library behind a big band's chart manager: the pieces and parts in
//! the band's parts folder, the musicians' pads made from them, and the
//! setlists read from playlist documents.
//!
//! Listing folders, reading files, drawing the windows and writing PDFs is
//! done by the program around this library; what it reads is handed in
//! here as plain values (a document as its bytes).

pub mod chart_manager;
pub mod pad_maker;
pub mod part_sections;
pub mod paths;
pub mod playlist_manager;
pub mod string_map;
pub mod string_set;
pub mod text;
pub mod unicode;
