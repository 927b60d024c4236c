//! Embedding, extracting and removing a content-provenance manifest in a
//! PDF document, and reporting the byte range a hashing stage must skip.
//!
//! The handler ([`pdf_io::PdfIO`]) works on documents held in memory as
//! bytes. It reaches the PDF object model through the [`pdf::C2paPdf`]
//! interface, replaces a manifest in place with [`patch::patch_bytes`], and
//! reports where a manifest lies as [`asset_io::HashObjectPositions`].
//! [`memory_pdf::MemoryPdf`] is a small document format of its own that meets
//! the interface, for use where no PDF object model is at hand.

pub mod asset_io;
pub mod error;
pub mod memory_pdf;
pub mod patch;
pub mod pdf;
pub mod pdf_io;
