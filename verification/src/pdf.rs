//! The interface to the PDF object model.
//!
//! A container parses a byte buffer into a document, lists the manifests
//! attached to it, attaches or detaches one, and writes the document back to
//! bytes. Each operation is a function of the document's state: its outcome is
//! named by a specification function, and the laws at the end of the trait say
//! how those outcomes fit together.

use vstd::prelude::*;
use crate::error::PdfError;
use crate::patch::occurs_at;

verus! {

/// A manifest found in a document: its bytes and where they start in the
/// document's serialized form.
pub type ManifestEntry = (Vec<u8>, usize);

/// What listing a document's manifests can yield: a container failure with its
/// message, no manifest at all, or one entry per manifest found.
pub type Listing = Result<Option<Seq<(Seq<u8>, usize)>>, Seq<char>>;

/// The mathematical value of a list of manifest entries.
pub open spec fn entries_view(entries: Seq<ManifestEntry>) -> Seq<(Seq<u8>, usize)> {
    Seq::new(entries.len(), |i: int| (entries[i].0@, entries[i].1))
}

/// The mathematical value of what a container returned when asked for its manifests.
pub open spec fn listing_view(listing: Result<Option<Vec<ManifestEntry>>, PdfError>) -> Listing {
    match listing {
        Ok(Some(entries)) => Ok(Some(entries_view(entries@))),
        Ok(None) => Ok(None),
        Err(e) => Err(e@),
    }
}

/// The manifest bytes of a listing, without their offsets.
pub open spec fn payloads(entries: Seq<(Seq<u8>, usize)>) -> Seq<Seq<u8>> {
    Seq::new(entries.len(), |i: int| entries[i].0)
}

/// The manifest bytes that a document holds, in the order they are listed;
/// none where the document has no manifest.
pub open spec fn listed_payloads(listing: Option<Seq<(Seq<u8>, usize)>>) -> Seq<Seq<u8>> {
    match listing {
        Some(entries) => payloads(entries),
        None => Seq::empty(),
    }
}

/// A PDF document held in memory.
pub trait C2paPdf: View + Sized {
    /// The document that `bytes` parse to, or the parser's message.
    spec fn parse_spec(bytes: Seq<u8>) -> Result<Self::V, Seq<char>>;

    /// The manifests attached to `doc`.
    spec fn manifests_spec(doc: Self::V) -> Listing;

    /// `doc` with one more manifest attached, or the container's message.
    spec fn embed_spec(doc: Self::V, manifest: Seq<u8>) -> Result<Self::V, Seq<char>>;

    /// `doc` with its manifest detached, or the container's message.
    spec fn remove_spec(doc: Self::V) -> Result<Self::V, Seq<char>>;

    /// The serialized form of `doc`.
    spec fn save_spec(doc: Self::V) -> Seq<u8>;

    /// The XMP metadata of `doc`, if it has any.
    spec fn xmp_spec(doc: Self::V) -> Option<Seq<char>>;

    /// Parses a byte buffer into a document.
    fn from_bytes(bytes: &[u8]) -> (r: Result<Self, PdfError>)
        ensures
            match r {
                Ok(doc) => Self::parse_spec(bytes@) == Ok::<Self::V, Seq<char>>(doc@),
                Err(e) => Self::parse_spec(bytes@) == Err::<Self::V, Seq<char>>(e@),
            },
    ;

    /// Lists the manifests attached to the document, each with its offset in
    /// the serialized form; `None` when there is none.
    fn read_manifest_bytes(&self) -> (r: Result<Option<Vec<ManifestEntry>>, PdfError>)
        ensures
            listing_view(r) == Self::manifests_spec(self@),
    ;

    /// Attaches `bytes` to the document as a manifest.
    fn write_manifest_as_embedded_file(&mut self, bytes: Vec<u8>) -> (r: Result<(), PdfError>)
        ensures
            match r {
                Ok(()) => Self::embed_spec(old(self)@, bytes@) == Ok::<Self::V, Seq<char>>(
                    final(self)@,
                ),
                Err(e) => Self::embed_spec(old(self)@, bytes@) == Err::<Self::V, Seq<char>>(e@),
            },
    ;

    /// Detaches the manifest from the document.
    fn remove_manifest_bytes(&mut self) -> (r: Result<(), PdfError>)
        ensures
            match r {
                Ok(()) => Self::remove_spec(old(self)@) == Ok::<Self::V, Seq<char>>(final(self)@),
                Err(e) => Self::remove_spec(old(self)@) == Err::<Self::V, Seq<char>>(e@),
            },
    ;

    /// Serializes the document.
    fn save_to(&self) -> (out: Vec<u8>)
        ensures
            out@ == Self::save_spec(self@),
    ;

    /// The document's XMP metadata, if it has any.
    fn read_xmp(&self) -> (r: Option<String>)
        ensures
            match r {
                Some(s) => Self::xmp_spec(self@) == Some(s@),
                None => Self::xmp_spec(self@) is None,
            },
    ;

    /// Attaching a manifest adds it after the manifests that the document has
    /// and replaces none.
    proof fn law_embed_adds(doc: Self::V, manifest: Seq<u8>)
        ensures
            Self::manifests_spec(doc) matches Ok(before) ==> (Self::embed_spec(
                doc,
                manifest,
            ) matches Ok(after) ==> (Self::manifests_spec(after) matches Ok(Some(entries))
                && payloads(entries) == listed_payloads(before).push(manifest))),
    ;

    /// A document whose manifest was detached has none.
    proof fn law_remove_clears(doc: Self::V)
        ensures
            Self::remove_spec(doc) matches Ok(after) ==> Self::manifests_spec(after) == Ok::<
                Option<Seq<(Seq<u8>, usize)>>,
                Seq<char>,
            >(None),
    ;

    /// Detaching the manifest from a document that has none succeeds and leaves
    /// the document as it is.
    proof fn law_remove_without_manifest(doc: Self::V)
        requires
            Self::manifests_spec(doc) == Ok::<Option<Seq<(Seq<u8>, usize)>>, Seq<char>>(None),
        ensures
            Self::remove_spec(doc) == Ok::<Self::V, Seq<char>>(doc),
    ;

    /// Every manifest listed for a document that was read from `bytes` stands
    /// in `bytes` at its offset.
    proof fn law_listed_offsets(bytes: Seq<u8>, index: int)
        requires
            Self::parse_spec(bytes) is Ok,
            Self::manifests_spec(Self::parse_spec(bytes)->Ok_0) matches Ok(Some(entries)) && 0
                <= index < entries.len(),
        ensures
            occurs_at(
                bytes,
                Self::manifests_spec(Self::parse_spec(bytes)->Ok_0)->Ok_0->Some_0[index].0,
                Self::manifests_spec(Self::parse_spec(bytes)->Ok_0)->Ok_0->Some_0[index].1 as int,
            ),
    ;

    /// A document read back from its own serialized form carries the same
    /// manifests, in the same order.
    proof fn law_save_then_parse(doc: Self::V)
        ensures
            Self::manifests_spec(doc) matches Ok(before) ==> (Self::parse_spec(
                Self::save_spec(doc),
            ) matches Ok(reread) && (Self::manifests_spec(reread) matches Ok(after) && (before
                is Some <==> after is Some) && listed_payloads(after) == listed_payloads(before))),
    ;
}

} // verus!
