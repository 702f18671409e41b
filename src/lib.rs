//! Converts a copied university timetable into recurring-event calendar documents.
//!
//! The pasted text is split into lines ([`lines`]), its layout is detected and its
//! course blocks are read into class records ([`parser`]), subject codes are found
//! through a fixed table or the CRN index ([`subject`]), excluded dates are expanded
//! ([`date`]), and one calendar document is built per schedule type ([`calendar`]),
//! folded and given carriage-return line endings ([`fold`]).

pub mod text;
pub mod fold;
pub mod date;
pub mod pattern;
pub mod error;
pub mod subject;
pub mod lines;
pub mod parser;
pub mod calendar;

pub use calendar::{convert, CalendarDocument, Conversion};
pub use error::ParseError;
pub use parser::Parser;
