//! Verse lookup over a flat-text Bible corpus.
//!
//! A query names a book, a chapter and a verse. [`reference`] turns the three
//! entries into the tokens that the corpus is searched for, with [`abbrev`] for
//! the book's name; [`scan`] passes over the lines of the corpus once and tells
//! whether the verse, the chapter or the book is missing, or gives the verse out;
//! [`report`] words the outcome, with [`wrap`] for the text of a verse. [`text`]
//! and [`words`] hold the model of strings that all of them are stated over.

pub mod text;
pub mod words;
pub mod word_laws;
pub mod wrap;
pub mod wrap_laws;
pub mod abbrev;
pub mod reference;
pub mod scan;
pub mod scan_laws;
pub mod report;

pub use crate::abbrev::AbbreviationTable;
pub use crate::reference::NormalizedReference;
pub use crate::report::{report, uppercase_first, wants_another};
pub use crate::scan::{scan_line, search_bible, ScanOutcome, ScanState, Step};
pub use crate::wrap::wrap_text;
