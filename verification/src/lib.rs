//! Parsing and serialization of the vCard / iCalendar content-line format:
//! nested `BEGIN:...`/`END:...` components holding `NAME;PARAM=VALUE:value`
//! property lines, with line unfolding, backslash escaping and byte-bounded
//! line folding.

pub mod chars;
pub mod component;
pub mod error;
pub mod grammar;
pub mod icalendar;
pub mod laws;
pub mod parser;
pub mod property;
pub mod strmap;
pub mod vcard;

pub use component::fold_line;
pub use component::parse_component;
pub use component::write_component;
pub use component::Component;
pub use icalendar::ICalendar;
pub use vcard::Vcard;

pub use property::escape_chars;
pub use property::unescape_chars;
pub use property::Property;

pub use error::ParseError;
pub use error::VObjectError;
