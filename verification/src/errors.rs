//! The errors of the library, and what the kernel is told of each.
use vstd::prelude::*;

use crate::filesystem::InodeId;

verus! {

/// The error of `roxmltree::Document::parse`, carried through unread.
#[verifier::external_type_specification]
#[verifier::external_body]
pub struct ExXmlError(roxmltree::Error);

/// The error of chrono's parsers, carried through unread.
#[verifier::external_type_specification]
#[verifier::external_body]
pub struct ExDateError(chrono::ParseError);

/// `Clone` of `roxmltree::Error`, which the derived `Clone` of [`Errors`]
/// calls. Nothing is claimed of the copy.
pub assume_specification[ <roxmltree::Error as Clone>::clone ](e: &roxmltree::Error) -> (r:
    roxmltree::Error)
;

/// `Clone` of `chrono::ParseError`, which the derived `Clone` of [`Errors`]
/// calls. Nothing is claimed of the copy.
pub assume_specification[ <chrono::ParseError as Clone>::clone ](e: &chrono::ParseError) -> (r:
    chrono::ParseError)
;

/// All that can go wrong between the server's answer and the kernel's.
#[derive(Debug, Clone)]
pub enum Errors {
    /// The request to the server failed, or the server refused it
    WebDavReqeustFailed,
    /// The size of a prop that was returned is nonsense
    PropSizeError,
    /// The xml cannot be parsed. This happens when a response is malformed
    XMLDocumentParseError(roxmltree::Error),
    /// The XML tag is missing, or holds no text when it should. Contains the tag name
    XMLTagEmptyWhenItShouldNot(String),
    /// The timestamp could not be converted to UNIX time
    DateTimeConversionError(chrono::ParseError),
    /// No node goes by this number
    InodeNotFound(InodeId),
    /// The node that should be a parent is not there
    ParentInodeNotFound(InodeId),
    /// An entry leads to this number, which has no record
    ChildInodeNotFound(InodeId),
    /// No record is kept of this number
    FileEntryMissing(InodeId),
    /// The parent has no child of this name
    FileDoesNotExist(String),
    /// A name that is not valid Unicode. Contains its bytes
    NonUnicodeInPath(Vec<u8>),
    /// Every inode number has been handed out
    InodesExhausted,
}

/// What an [`Errors`] value says, without the payloads that only the outside
/// crates can read.
pub enum ErrorKind {
    WebDavReqeustFailed,
    PropSizeError,
    XMLDocumentParseError,
    XMLTagEmptyWhenItShouldNot(Seq<char>),
    DateTimeConversionError,
    InodeNotFound(u64),
    ParentInodeNotFound(u64),
    ChildInodeNotFound(u64),
    FileEntryMissing(u64),
    FileDoesNotExist(Seq<char>),
    NonUnicodeInPath(Seq<u8>),
    InodesExhausted,
}

impl View for Errors {
    type V = ErrorKind;

    open spec fn view(&self) -> ErrorKind {
        match self {
            Errors::WebDavReqeustFailed => ErrorKind::WebDavReqeustFailed,
            Errors::PropSizeError => ErrorKind::PropSizeError,
            Errors::XMLDocumentParseError(_) => ErrorKind::XMLDocumentParseError,
            Errors::XMLTagEmptyWhenItShouldNot(tag) => ErrorKind::XMLTagEmptyWhenItShouldNot(tag@),
            Errors::DateTimeConversionError(_) => ErrorKind::DateTimeConversionError,
            Errors::InodeNotFound(id) => ErrorKind::InodeNotFound(id.0),
            Errors::ParentInodeNotFound(id) => ErrorKind::ParentInodeNotFound(id.0),
            Errors::ChildInodeNotFound(id) => ErrorKind::ChildInodeNotFound(id.0),
            Errors::FileEntryMissing(id) => ErrorKind::FileEntryMissing(id.0),
            Errors::FileDoesNotExist(name) => ErrorKind::FileDoesNotExist(name@),
            Errors::NonUnicodeInPath(bytes) => ErrorKind::NonUnicodeInPath(bytes@),
            Errors::InodesExhausted => ErrorKind::InodesExhausted,
        }
    }
}

/// What a result holds: the value's view, or the error's kind.
pub open spec fn outcome<T: View>(r: Result<T, Errors>) -> Result<T::V, ErrorKind> {
    match r {
        Ok(value) => Ok(value@),
        Err(e) => Err(e@),
    }
}

/// The two failures that the kernel interface can be told of.
#[derive(Debug, Clone, Copy, PartialEq, Eq, Structural)]
pub enum KernelError {
    NotFound,
    Io,
}

/// The failure that the kernel is told of for an error of kind `kind`: what
/// names an entry that is not there is not-found, all else is an I/O error.
pub open spec fn kernel_error_of(kind: ErrorKind) -> KernelError {
    match kind {
        ErrorKind::InodeNotFound(_)
        | ErrorKind::ParentInodeNotFound(_)
        | ErrorKind::ChildInodeNotFound(_)
        | ErrorKind::FileEntryMissing(_)
        | ErrorKind::FileDoesNotExist(_)
        | ErrorKind::NonUnicodeInPath(_) => KernelError::NotFound,
        _ => KernelError::Io,
    }
}

impl Errors {
    /// Collapses the error into what the kernel interface accepts.
    pub fn kernel_error(&self) -> (r: KernelError)
        ensures
            r == kernel_error_of(self@),
    {
        match self {
            Errors::InodeNotFound(_)
            | Errors::ParentInodeNotFound(_)
            | Errors::ChildInodeNotFound(_)
            | Errors::FileEntryMissing(_)
            | Errors::FileDoesNotExist(_)
            | Errors::NonUnicodeInPath(_) => KernelError::NotFound,
            _ => KernelError::Io,
        }
    }
}

} // verus!
