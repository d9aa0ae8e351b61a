//! Why a fetched page could not be read.
use vstd::prelude::*;

verus! {

/// A field of the submission edit form that must be sent back unchanged.
#[derive(Debug, Clone, Copy, PartialEq, Eq, Structural)]
pub enum FormField {
    Key,
    Rating,
    Title,
    Message,
    Category,
    Kind,
    Species,
    Gender,
}

/// An expected element or value that a page lacked, or a value in a form
/// that could not be read.
#[derive(Debug, Clone, Copy, PartialEq, Eq, Structural)]
pub enum ParseError {
    MissingTitle,
    MissingPostedAt,
    MissingPostedAtValue,
    UnknownDateFormat,
    MissingForm,
    MissingField(FormField),
    BadTimestamp,
}

} // verus!
