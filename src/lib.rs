//! Turns Markdown note files into Anki flashcard decks.
//!
//! The note scanner, the cloze numbering, the note classification, the deck
//! configuration rules and the naming of the output file are verified here;
//! the package format itself is produced by `genanki_rs`.
pub mod text;
pub mod notes;
pub mod cloze;
pub mod config;
pub mod anki;
pub mod naming;
pub mod cli;
