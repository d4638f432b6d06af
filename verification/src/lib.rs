//! Terminal strings: text with embedded control sequences, split into the
//! units a terminal shows and the units it only obeys, with width-aware
//! truncation and padding.

pub mod csi;
pub mod grapheme;
pub mod laws;
pub mod scan;
pub mod segment;
pub mod term_char;
pub mod term_string;
pub mod width;

pub use csi::Csi;
pub use term_char::TermChar;
pub use term_string::TermString;
