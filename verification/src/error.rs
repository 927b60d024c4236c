//! The error taxonomy of the PDF handler.

use vstd::prelude::*;

verus! {

/// A failure reported by the PDF container, with the container's own message.
#[derive(Clone, Debug, PartialEq, Eq)]
pub struct PdfError {
    pub message: String,
}

impl View for PdfError {
    type V = Seq<char>;

    open spec fn view(&self) -> Seq<char> {
        self.message@
    }
}

/// What can go wrong in a manifest operation.
#[derive(Clone, Debug, PartialEq, Eq)]
pub enum Error {
    /// The bytes are not a document of this format; carries the container's message.
    InvalidAsset(String),
    /// A manifest was expected and none was found.
    JumbfNotFound,
    /// The operation is deliberately unsupported; carries the reason.
    NotImplemented(String),
    /// The container could not list its manifests while reading one.
    PdfReadError,
    /// The bytes to replace do not occur exactly once in the buffer.
    NotFound,
}

/// The mathematical value of an [`Error`]: its kind and its message as characters.
pub enum ErrorView {
    InvalidAsset(Seq<char>),
    JumbfNotFound,
    NotImplemented(Seq<char>),
    PdfReadError,
    NotFound,
}

impl View for Error {
    type V = ErrorView;

    open spec fn view(&self) -> ErrorView {
        match self {
            Error::InvalidAsset(m) => ErrorView::InvalidAsset(m@),
            Error::JumbfNotFound => ErrorView::JumbfNotFound,
            Error::NotImplemented(m) => ErrorView::NotImplemented(m@),
            Error::PdfReadError => ErrorView::PdfReadError,
            Error::NotFound => ErrorView::NotFound,
        }
    }
}

/// The `InvalidAsset` error that carries a container failure's message unchanged.
pub fn invalid_asset(e: PdfError) -> (r: Error)
    ensures
        r@ == ErrorView::InvalidAsset(e@),
{
    Error::InvalidAsset(e.message)
}

} // verus!
