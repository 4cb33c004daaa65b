use vstd::prelude::*;

verus! {

/// What can go wrong while decoding an image.
#[derive(Debug)]
pub enum Error {
    /// The input ended before the structure being read was complete.
    UnexpectedEof,
    /// The first header is malformed; the text names the field.
    InvalidHeader { desc: &'static str },
    /// A metadata chunk whose tag does not start with a lowercase letter.
    UnknownCriticalMetadata([u8; 4]),
    /// A metadata section marked required (its first byte is in 1..=31).
    UnknownRequiredMetadata(u8),
    /// A metadata payload that is not a valid DEFLATE stream.
    InvalidMetadata(String),
    /// A varint that does not fit the target integer.
    InvalidVarint,
    /// The stream describes something impossible (a corrupt tree, an empty range, ...).
    InvalidOperation(String),
    /// One of the configured [`crate::Limits`] was exceeded.
    LimitViolation(String),
    /// A transformation that this decoder does not implement.
    UnimplementedTransformation(String),
    /// A feature of the format that this decoder does not implement.
    Unimplemented(&'static str),
}

impl Error {
    /// A short description of the kind of error.
    pub fn description(&self) -> &'static str {
        match self {
            Error::UnexpectedEof => "the input ended too early",
            Error::InvalidHeader { desc } => desc,
            Error::UnknownCriticalMetadata(_) => "encountered an unknown critical metadata",
            Error::UnknownRequiredMetadata(_) => "encountered an unknown required metadata",
            Error::InvalidMetadata(_) => "metadata chunk was not a valid deflate stream",
            Error::InvalidVarint => "reader did not contain a varint, or varint was too large to store",
            Error::InvalidOperation(_) => "an invalid operation was hit, possibly due to a bug or a bad input file",
            Error::LimitViolation(_) => "a limit on the input was exceeded",
            Error::UnimplementedTransformation(_) => "the image uses a transformation that is not implemented",
            Error::Unimplemented(desc) => desc,
        }
    }
}

pub type Result<T> = core::result::Result<T, Error>;

} // verus!
