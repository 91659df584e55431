/// The catalog of a text: its marker entries and its books.
pub mod catalog;
/// The data that the stages hand on, and what each holds.
pub mod common;
/// The fixtures, and the verdict on a catalog and its ranges.
pub mod fixture;
/// The search for a marker, and the four boundaries of a text.
pub mod marker;
/// The headings of the books in the body, and the range of each book.
pub mod ranges;
/// White space, trimming, normalizing and substrings, on characters.
pub mod text;
/// The anchors of a body and the verses between them.
pub mod verses;
