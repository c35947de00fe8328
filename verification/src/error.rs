//! What can go wrong while an abbreviation is read or resolved.

use vstd::prelude::*;
use vstd::string::StringExecFns;

verus! {

/// Why a request could not be served.
#[derive(Debug, PartialEq, Eq)]
pub enum Error {
    /// A directory could not be listed; the text says why.
    Io(String),
    /// The argument is not valid Unicode.
    NonUnicodeInput,
    /// No directory matches the abbreviation.
    PathNotFound,
    /// The named argument has a value that is not accepted.
    InvalidArgValue(String),
    /// A component such as `..` stands where an abbreviation was expected.
    UnexpectedAbbrComponent(String),
    /// The text is not an abbreviation.
    InvalidAbbr(String),
    /// The text is not a slice of a sequence.
    InvalidSlice(String),
    /// The argument is empty.
    EmptyAbbr,
}

/// An error as the specifications see it.
pub enum ErrorView {
    Io(Seq<char>),
    NonUnicodeInput,
    PathNotFound,
    InvalidArgValue(Seq<char>),
    UnexpectedAbbrComponent(Seq<char>),
    InvalidAbbr(Seq<char>),
    InvalidSlice(Seq<char>),
    EmptyAbbr,
}

impl View for Error {
    type V = ErrorView;

    open spec fn view(&self) -> ErrorView {
        match self {
            Error::Io(reason) => ErrorView::Io(reason@),
            Error::NonUnicodeInput => ErrorView::NonUnicodeInput,
            Error::PathNotFound => ErrorView::PathNotFound,
            Error::InvalidArgValue(name) => ErrorView::InvalidArgValue(name@),
            Error::UnexpectedAbbrComponent(component) => ErrorView::UnexpectedAbbrComponent(
                component@,
            ),
            Error::InvalidAbbr(text) => ErrorView::InvalidAbbr(text@),
            Error::InvalidSlice(text) => ErrorView::InvalidSlice(text@),
            Error::EmptyAbbr => ErrorView::EmptyAbbr,
        }
    }
}

impl Clone for Error {
    fn clone(&self) -> (r: Self)
        ensures
            r == *self,
    {
        match self {
            Error::Io(reason) => Error::Io(reason.clone()),
            Error::NonUnicodeInput => Error::NonUnicodeInput,
            Error::PathNotFound => Error::PathNotFound,
            Error::InvalidArgValue(name) => Error::InvalidArgValue(name.clone()),
            Error::UnexpectedAbbrComponent(component) => Error::UnexpectedAbbrComponent(
                component.clone(),
            ),
            Error::InvalidAbbr(text) => Error::InvalidAbbr(text.clone()),
            Error::InvalidSlice(text) => Error::InvalidSlice(text.clone()),
            Error::EmptyAbbr => Error::EmptyAbbr,
        }
    }
}

impl Error {
    /// The one-line message of the error.
    pub open spec fn message_text(self) -> Seq<char> {
        match self {
            Error::Io(reason) => "IO error `"@ + reason@ + "`."@,
            Error::NonUnicodeInput => "Non-Unicode input received."@,
            Error::PathNotFound => "Path not found."@,
            Error::InvalidArgValue(name) => "Value of arg `"@ + name@ + "` is invalid."@,
            Error::UnexpectedAbbrComponent(component) => "Unexpected abbr component `"@
                + component@ + "`."@,
            Error::InvalidAbbr(text) => "Invalid abbreviation `"@ + text@ + "`."@,
            Error::InvalidSlice(text) => "Invalid slice `"@ + text@ + "`."@,
            Error::EmptyAbbr => "Empty abbreviation."@,
        }
    }

    /// The one-line message shown to the user.
    pub fn message(&self) -> (r: String)
        ensures
            r@ == self.message_text(),
    {
        match self {
            Error::Io(reason) => quoted("IO error `", reason.as_str(), "`."),
            Error::NonUnicodeInput => String::from_str("Non-Unicode input received."),
            Error::PathNotFound => String::from_str("Path not found."),
            Error::InvalidArgValue(name) => quoted("Value of arg `", name.as_str(), "` is invalid."),
            Error::UnexpectedAbbrComponent(component) => quoted(
                "Unexpected abbr component `",
                component.as_str(),
                "`.",
            ),
            Error::InvalidAbbr(text) => quoted("Invalid abbreviation `", text.as_str(), "`."),
            Error::InvalidSlice(text) => quoted("Invalid slice `", text.as_str(), "`."),
            Error::EmptyAbbr => String::from_str("Empty abbreviation."),
        }
    }
}

/// The three pieces joined.
fn quoted(before: &str, inner: &str, after: &str) -> (r: String)
    ensures
        r@ == before@ + inner@ + after@,
{
    let mut out = String::from_str(before);
    out.append(inner);
    out.append(after);
    out
}

} // verus!
