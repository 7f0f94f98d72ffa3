//! Error values surfaced by the parser and the typed wrappers.

use vstd::prelude::*;

verus! {

/// A parse failure carrying a human-readable description.
#[derive(PartialEq, Eq, Debug)]
pub struct ParseError {
    desc: String,
}

impl View for ParseError {
    type V = Seq<char>;

    /// The description of the failure, as a character sequence.
    closed spec fn view(&self) -> Seq<char> {
        self.desc@
    }
}

impl ParseError {
    /// Wraps a description into an error value.
    pub fn new(desc: String) -> (e: ParseError)
        ensures
            e@ == desc@,
    {
        ParseError { desc }
    }

    /// Hands the description back out.
    pub fn into_string(self) -> (s: String)
        ensures
            s@ == self@,
    {
        self.desc
    }

    /// The description, borrowed.
    pub fn description(&self) -> (s: &String)
        ensures
            s@ == self@,
    {
        &self.desc
    }
}

/// Everything that can go wrong while reading text into the typed wrappers.
#[derive(Debug)]
pub enum VObjectError {
    /// The content-line text could not be parsed.
    Parser(ParseError),
    /// The parsed component is not a vCard.
    NotAVCard,
    /// The parsed component is not an iCalendar; carries the offending text.
    NotAnICalendar(String),
}

} // verus!
