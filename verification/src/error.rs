//! The errors of tag selection and tag rewriting.

use rust_htslib::errors::Error;
use vstd::prelude::*;
use vstd::string::StringExecFns;

verus! {

/// The step at which rewriting a tag failed.
#[derive(Debug)]
pub enum MutationFailure {
    /// The record refused to give up the old value.
    Remove(Error),
    /// The old value is gone and the record refused the new one.
    Insert(Error),
    /// The new value is longer than a record can hold; the old one is still
    /// in place.
    TooLong,
    /// The old value is gone and another field still carries the tag, so the
    /// new value was not handed to the record.
    StillPresent,
}

/// Why a run stops.
#[derive(Debug)]
pub enum TagError {
    /// A configured tag name does not take exactly two bytes; holds the
    /// offending name.
    InvalidTagName(String),
    /// The value under `tag` could not be replaced; the record is left as the
    /// failed step found it.
    TagMutationFailure { tag: [u8; 2], cause: MutationFailure },
}

/// The text that the record library prints for one of its errors.
pub uninterp spec fn error_text(error: Error) -> Seq<char>;

/// The `Display` text of a `rust_htslib` error, which depends on the error
/// alone.
#[verifier::external_body]
fn describe(error: &Error) -> (text: String)
    ensures
        text@ == error_text(*error),
{
    error.to_string()
}

impl TagError {
    /// The text shown to the user for this error.
    pub open spec fn message_spec(self) -> Seq<char> {
        match self {
            TagError::InvalidTagName(name) => "Tag name must be exactly 2 characters: "@ + name@,
            TagError::TagMutationFailure { cause: MutationFailure::Remove(e), .. } => error_text(e),
            TagError::TagMutationFailure { cause: MutationFailure::Insert(e), .. } => error_text(e),
            TagError::TagMutationFailure { cause: MutationFailure::TooLong, .. } => "tag value is too long for a record"@,
            TagError::TagMutationFailure { cause: MutationFailure::StillPresent, .. } => "failed to add aux field, tag is already present"@,
        }
    }

    /// Renders the error as the text shown to the user.
    pub fn message(&self) -> (text: String)
        ensures
            text@ == self.message_spec(),
    {
        match self {
            TagError::InvalidTagName(name) => {
                let mut text = String::from_str("Tag name must be exactly 2 characters: ");
                text.append(name.as_str());
                text
            },
            TagError::TagMutationFailure { cause: MutationFailure::Remove(e), .. } => describe(e),
            TagError::TagMutationFailure { cause: MutationFailure::Insert(e), .. } => describe(e),
            TagError::TagMutationFailure { cause: MutationFailure::TooLong, .. } => String::from_str(
                "tag value is too long for a record",
            ),
            TagError::TagMutationFailure { cause: MutationFailure::StillPresent, .. } => String::from_str(
                "failed to add aux field, tag is already present",
            ),
        }
    }
}

} // verus!
