use vstd::prelude::*;

verus! {

/// Every way in which decoding a header can fail.
#[derive(Debug)]
pub enum ParsingError {
    /// A field is present but holds a value that the format does not allow.
    Malformed { reason: String },
    /// A magic value or signature does not match at the named header.
    InvalidMagic { header: String, offset: usize },
    /// A read needed the byte at `byte`, which lies past the end of the buffer.
    OutOfBounds { byte: usize },
}

/// What a `ParsingError` holds, with its text as characters.
pub enum ErrorView {
    Malformed { reason: Seq<char> },
    InvalidMagic { header: Seq<char>, offset: int },
    OutOfBounds { byte: int },
}

impl View for ParsingError {
    type V = ErrorView;

    open spec fn view(&self) -> ErrorView {
        match self {
            ParsingError::Malformed { reason } => ErrorView::Malformed { reason: reason@ },
            ParsingError::InvalidMagic { header, offset } => ErrorView::InvalidMagic {
                header: header@,
                offset: *offset as int,
            },
            ParsingError::OutOfBounds { byte } => ErrorView::OutOfBounds { byte: *byte as int },
        }
    }
}

/// The first byte that a read of the range starting at `start` needs and a buffer of
/// `len` bytes lacks, given that the range does not fit.
pub open spec fn missing_byte(len: int, start: int) -> int {
    if start > len {
        start
    } else {
        len
    }
}

pub(crate) fn malformed(reason: &str) -> (e: ParsingError)
    ensures
        e@ == (ErrorView::Malformed { reason: reason@ }),
{
    ParsingError::Malformed { reason: String::from_str(reason) }
}

pub(crate) fn out_of_bounds(len: usize, start: usize) -> (e: ParsingError)
    ensures
        e@ == (ErrorView::OutOfBounds { byte: missing_byte(len as int, start as int) }),
{
    let byte = if start > len {
        start
    } else {
        len
    };
    ParsingError::OutOfBounds { byte }
}

} // verus!
