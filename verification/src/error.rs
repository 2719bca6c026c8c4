use vstd::prelude::*;

verus! {

/// `std::io::Error` travels through the library unread.
#[verifier::external_type_specification]
#[verifier::external_body]
pub struct ExIoError(std::io::Error);

/// Errors raised while reading a dump.
#[derive(Debug)]
pub enum DumpError {
    Io(std::io::Error),
    InvalidMagic,
    UnexpectedEof { offset: usize },
    InvalidLength { length: u32, offset: usize },
    CharsetConversion { charset: String },
    ParseError { offset: usize, message: String },
    UnsupportedVersion { version: String },
}

/// The mathematical picture of a `DumpError`: strings become character
/// sequences, the I/O error is only known to be one.
pub enum DumpErrorView {
    Io,
    InvalidMagic,
    UnexpectedEof { offset: usize },
    InvalidLength { length: u32, offset: usize },
    CharsetConversion { charset: Seq<char> },
    ParseError { offset: usize, message: Seq<char> },
    UnsupportedVersion { version: Seq<char> },
}

impl View for DumpError {
    type V = DumpErrorView;

    open spec fn view(&self) -> DumpErrorView {
        match self {
            DumpError::Io(_) => DumpErrorView::Io,
            DumpError::InvalidMagic => DumpErrorView::InvalidMagic,
            DumpError::UnexpectedEof { offset } => DumpErrorView::UnexpectedEof { offset: *offset },
            DumpError::InvalidLength { length, offset } => DumpErrorView::InvalidLength {
                length: *length,
                offset: *offset,
            },
            DumpError::CharsetConversion { charset } => DumpErrorView::CharsetConversion {
                charset: charset@,
            },
            DumpError::ParseError { offset, message } => DumpErrorView::ParseError {
                offset: *offset,
                message: message@,
            },
            DumpError::UnsupportedVersion { version } => DumpErrorView::UnsupportedVersion {
                version: version@,
            },
        }
    }
}

} // verus!
