//! Reading, writing, removing and locating the manifest of a PDF.
//!
//! Every operation takes the document as bytes and gives bytes or plain
//! values back. What each returns is stated by a specification function over
//! the container's own (`read_cai_spec`, `write_cai_spec`, ...), and the laws
//! at the end of the module relate the operations to each other.

use vstd::prelude::*;
use std::path::Path;
use vstd::slice::slice_to_vec;
use crate::asset_io::{HashBlockObjectType, HashObjectPositions};
use crate::error::{invalid_asset, Error, ErrorView, PdfError};
use crate::patch::{occurs_at, occurs_only_at, patch_bytes, patch_spec};
use crate::pdf::{entries_view, listing_view, payloads, C2paPdf, Listing, ManifestEntry};

verus! {

/// The asset types this handler serves.
pub const SUPPORTED_TYPES: [&'static str; 2] = ["pdf", "application/pdf"];

/// Why the path-based write operations fail.
pub const WRITE_NOT_IMPLEMENTED: &'static str =
    "PDF write functionality will be added in a future release";

/// Why a document with several manifests is refused.
pub const ONE_MANIFEST_ONLY: &'static str = "c2pa-rs only supports reading PDFs with one manifest";

/// `std::path::Path`, which the path-based operations take and never look into.
#[verifier::external_type_specification]
#[verifier::external_body]
pub struct ExPath(Path);

/// The handler for PDF assets.
pub struct PdfIO {}

/// The mathematical value of an operation that yields bytes.
pub open spec fn bytes_result_view(r: Result<Vec<u8>, Error>) -> Result<Seq<u8>, ErrorView> {
    match r {
        Ok(bytes) => Ok(bytes@),
        Err(e) => Err(e@),
    }
}

/// The mathematical value of an operation that yields byte ranges.
pub open spec fn positions_result_view(r: Result<Vec<HashObjectPositions>, Error>) -> Result<
    Seq<HashObjectPositions>,
    ErrorView,
> {
    match r {
        Ok(positions) => Ok(positions@),
        Err(e) => Err(e@),
    }
}

/// How many manifests a listing holds; `None` where the listing failed.
pub open spec fn manifest_count(listing: Listing) -> Option<nat> {
    match listing {
        Err(_) => None,
        Ok(None) => Some(0nat),
        Ok(Some(entries)) => Some(entries.len()),
    }
}

/// A listing holds two manifests or more.
pub open spec fn several_manifests(listing: Listing) -> bool {
    manifest_count(listing) is Some && manifest_count(listing)->Some_0 >= 2
}

/// How many manifests the document in `bytes` holds; `None` where the bytes do
/// not parse or the listing fails.
pub open spec fn parsed_manifest_count<P: C2paPdf>(bytes: Seq<u8>) -> Option<nat> {
    match P::parse_spec(bytes) {
        Err(_) => None,
        Ok(doc) => manifest_count(P::manifests_spec(doc)),
    }
}

/// The bytes of the manifest at `index` of a listing.
pub open spec fn listed_manifest(listing: Listing, index: int) -> Seq<u8>
    recommends
        manifest_count(listing) matches Some(n) && 0 <= index < n,
{
    listing->Ok_0->Some_0[index].0
}

/// The only entry of a list of manifests. No entry is `JumbfNotFound`; several
/// are `NotImplemented`, since none of them is picked over the others.
pub open spec fn only_entry_spec(entries: Seq<(Seq<u8>, usize)>) -> Result<
    (Seq<u8>, usize),
    ErrorView,
> {
    if entries.len() == 0 {
        Err(ErrorView::JumbfNotFound)
    } else if entries.len() == 1 {
        Ok(entries[0])
    } else {
        Err(ErrorView::NotImplemented(ONE_MANIFEST_ONLY@))
    }
}

/// The manifest of a document, from the listing of its manifests: the bytes of
/// the only entry. No entry is `JumbfNotFound`, several are `NotImplemented`,
/// and a listing that failed is `PdfReadError`.
pub open spec fn single_manifest_spec(listing: Listing) -> Result<Seq<u8>, ErrorView> {
    match listing {
        Err(_) => Err(ErrorView::PdfReadError),
        Ok(None) => Err(ErrorView::JumbfNotFound),
        Ok(Some(entries)) => match only_entry_spec(entries) {
            Ok(entry) => Ok(entry.0),
            Err(e) => Err(e),
        },
    }
}

/// The range of the only manifest of a listing, as the only element of a
/// list; `JumbfNotFound` where the listing is empty and `NotImplemented` where
/// it holds several manifests.
pub open spec fn manifest_region_spec(entries: Seq<(Seq<u8>, usize)>) -> Result<
    Seq<HashObjectPositions>,
    ErrorView,
> {
    match only_entry_spec(entries) {
        Ok(entry) => Ok(
            seq![
                (HashObjectPositions {
                    offset: entry.1,
                    length: entry.0.len() as usize,
                    htype: HashBlockObjectType::Cai,
                }),
            ],
        ),
        Err(e) => Err(e),
    }
}

/// `positions` is one range, and it is where `manifest` stands in `document`.
pub open spec fn covers_manifest(
    positions: Seq<HashObjectPositions>,
    document: Seq<u8>,
    manifest: Seq<u8>,
) -> bool {
    &&& positions.len() == 1
    &&& positions[0].htype == HashBlockObjectType::Cai
    &&& positions[0].length == manifest.len()
    &&& occurs_at(document, manifest, positions[0].offset as int)
}

/// What reading the manifest of the document in `bytes` yields.
pub open spec fn read_cai_spec<P: C2paPdf>(bytes: Seq<u8>) -> Result<Seq<u8>, ErrorView> {
    match P::parse_spec(bytes) {
        Err(message) => Err(ErrorView::InvalidAsset(message)),
        Ok(doc) => single_manifest_spec(P::manifests_spec(doc)),
    }
}

/// What probing the document in `bytes` for XMP metadata yields.
pub open spec fn read_xmp_spec<P: C2paPdf>(bytes: Seq<u8>) -> Option<Seq<char>> {
    match P::parse_spec(bytes) {
        Err(_) => None,
        Ok(doc) => P::xmp_spec(doc),
    }
}

/// What writing the manifest `store_bytes` into the document in `input`
/// yields: where the document has one manifest, `input` with the bytes of that
/// manifest replaced in place; where it has none, the serialized form of the
/// document with `store_bytes` attached; where it has several,
/// `NotImplemented`.
pub open spec fn write_cai_spec<P: C2paPdf>(input: Seq<u8>, store_bytes: Seq<u8>) -> Result<
    Seq<u8>,
    ErrorView,
> {
    match P::parse_spec(input) {
        Err(message) => Err(ErrorView::InvalidAsset(message)),
        Ok(doc) => match P::manifests_spec(doc) {
            Err(message) => Err(ErrorView::InvalidAsset(message)),
            Ok(Some(entries)) => match only_entry_spec(entries) {
                Ok(entry) => patch_spec(input, entry.0, store_bytes),
                Err(e) => Err(e),
            },
            Ok(None) => match P::embed_spec(doc, store_bytes) {
                Err(message) => Err(ErrorView::InvalidAsset(message)),
                Ok(after) => Ok(P::save_spec(after)),
            },
        },
    }
}

/// The byte of the manifest that stands in for the real one while its place
/// in the serialized document is worked out.
pub open spec fn placeholder_manifest() -> Seq<u8> {
    seq![0u8]
}

/// What locating the manifest region of the document in `input` yields: the
/// range of its only manifest or, where it has none, the range that a
/// one-byte manifest takes in the document serialized with it and read back.
/// A document with several manifests is refused.
pub open spec fn object_locations_spec<P: C2paPdf>(input: Seq<u8>) -> Result<
    Seq<HashObjectPositions>,
    ErrorView,
> {
    match P::parse_spec(input) {
        Err(message) => Err(ErrorView::InvalidAsset(message)),
        Ok(doc) => match P::manifests_spec(doc) {
            Err(message) => Err(ErrorView::InvalidAsset(message)),
            Ok(Some(entries)) => manifest_region_spec(entries),
            Ok(None) => match P::embed_spec(doc, placeholder_manifest()) {
                Err(message) => Err(ErrorView::InvalidAsset(message)),
                Ok(after) => match P::parse_spec(P::save_spec(after)) {
                    Err(message) => Err(ErrorView::InvalidAsset(message)),
                    Ok(reread) => match P::manifests_spec(reread) {
                        Err(message) => Err(ErrorView::InvalidAsset(message)),
                        Ok(None) => Err(ErrorView::JumbfNotFound),
                        Ok(Some(entries)) => manifest_region_spec(entries),
                    },
                },
            },
        },
    }
}

/// What removing the manifest from the document in `input` yields: the
/// serialized form of the document without it or, where it has none, `input`
/// itself.
pub open spec fn remove_cai_store_spec<P: C2paPdf>(input: Seq<u8>) -> Result<Seq<u8>, ErrorView> {
    match P::parse_spec(input) {
        Err(message) => Err(ErrorView::InvalidAsset(message)),
        Ok(doc) => match P::manifests_spec(doc) {
            Err(message) => Err(ErrorView::InvalidAsset(message)),
            Ok(Some(_)) => match P::remove_spec(doc) {
                Err(message) => Err(ErrorView::InvalidAsset(message)),
                Ok(after) => Ok(P::save_spec(after)),
            },
            Ok(None) => Ok(input),
        },
    }
}

/// Picks the manifest out of what a container listed: the bytes of the only
/// entry.
pub fn single_manifest(listing: Result<Option<Vec<ManifestEntry>>, PdfError>) -> (r: Result<
    Vec<u8>,
    Error,
>)
    ensures
        bytes_result_view(r) == single_manifest_spec(listing_view(listing)),
{
    match listing {
        Err(_) => Err(Error::PdfReadError),
        Ok(None) => Err(Error::JumbfNotFound),
        Ok(Some(mut entries)) => {
            if entries.len() == 0 {
                Err(Error::JumbfNotFound)
            } else if entries.len() == 1 {
                let entry = entries.remove(0);
                Ok(entry.0)
            } else {
                Err(Error::NotImplemented(ONE_MANIFEST_ONLY.to_owned()))
            }
        },
    }
}

/// The range of the only manifest listed, as the only element of a list.
pub fn manifest_region(entries: &Vec<ManifestEntry>) -> (r: Result<Vec<HashObjectPositions>, Error>)
    ensures
        positions_result_view(r) == manifest_region_spec(entries_view(entries@)),
        r matches Ok(positions) ==> positions@.len() == 1 && positions@[0].length
            == entries@[0].0@.len(),
{
    if entries.len() == 0 {
        Err(Error::JumbfNotFound)
    } else if entries.len() > 1 {
        Err(Error::NotImplemented(ONE_MANIFEST_ONLY.to_owned()))
    } else {
        let position = HashObjectPositions {
            offset: entries[0].1,
            length: entries[0].0.len(),
            htype: HashBlockObjectType::Cai,
        };
        let positions = vec![position];
        assert(positions@ =~= seq![position]);
        Ok(positions)
    }
}

impl PdfIO {
    /// A handler for the given asset type.
    pub fn new(_asset_type: &str) -> (r: Self) {
        PdfIO {  }
    }

    /// Locates the manifest region of the document in `input`: the one range
    /// that holds the bytes of its manifest. Where the document has no
    /// manifest, a one-byte manifest is attached, the document serialized and
    /// read back, and that manifest's range reported. A document with several
    /// manifests is refused.
    pub fn get_object_locations_from_stream<P: C2paPdf>(&self, input: &[u8]) -> (r: Result<
        Vec<HashObjectPositions>,
        Error,
    >)
        ensures
            positions_result_view(r) == object_locations_spec::<P>(input@),
            parsed_manifest_count::<P>(input@) == Some(1nat) ==> positions_result_view(r) is Ok
                && covers_manifest(
                positions_result_view(r)->Ok_0,
                input@,
                listed_manifest(P::manifests_spec(P::parse_spec(input@)->Ok_0), 0),
            ),
            (P::parse_spec(input@) is Ok && several_manifests(
                P::manifests_spec(P::parse_spec(input@)->Ok_0),
            )) ==> positions_result_view(r) == Err::<Seq<HashObjectPositions>, ErrorView>(
                ErrorView::NotImplemented(ONE_MANIFEST_ONLY@),
            ),
    {
        let mut pdf = match P::from_bytes(input) {
            Ok(pdf) => pdf,
            Err(e) => {
                return Err(invalid_asset(e));
            },
        };
        match pdf.read_manifest_bytes() {
            Err(e) => Err(invalid_asset(e)),
            Ok(Some(manifests)) => {
                proof {
                    if manifests@.len() == 1 {
                        P::law_listed_offsets(input@, 0);
                    }
                }
                manifest_region(&manifests)
            },
            Ok(None) => {
                let placeholder: Vec<u8> = vec![0u8];
                assert(placeholder@ =~= placeholder_manifest());
                match pdf.write_manifest_as_embedded_file(placeholder) {
                    Err(e) => {
                        return Err(invalid_asset(e));
                    },
                    Ok(()) => {},
                }
                let out = pdf.save_to();
                let reread = match P::from_bytes(out.as_slice()) {
                    Ok(reread) => reread,
                    Err(e) => {
                        return Err(invalid_asset(e));
                    },
                };
                match reread.read_manifest_bytes() {
                    Err(e) => Err(invalid_asset(e)),
                    Ok(None) => Err(Error::JumbfNotFound),
                    Ok(Some(manifests)) => manifest_region(&manifests),
                }
            },
        }
    }

    /// Writes the manifest `store_bytes` into the document in `input` and
    /// returns the resulting document. A document that has one manifest keeps
    /// its layout: the bytes of that manifest are replaced where they stand in
    /// `input`, and the write fails with `NotFound` where they do not stand
    /// there exactly once. A document without one gets `store_bytes` attached
    /// and is serialized anew. A document with several manifests is refused.
    pub fn write_cai<P: C2paPdf>(&self, input: &[u8], store_bytes: &[u8]) -> (r: Result<
        Vec<u8>,
        Error,
    >)
        ensures
            bytes_result_view(r) == write_cai_spec::<P>(input@, store_bytes@),
            (P::parse_spec(input@) is Ok && several_manifests(
                P::manifests_spec(P::parse_spec(input@)->Ok_0),
            )) ==> bytes_result_view(r) == Err::<Seq<u8>, ErrorView>(
                ErrorView::NotImplemented(ONE_MANIFEST_ONLY@),
            ),
    {
        let mut pdf = match P::from_bytes(input) {
            Ok(pdf) => pdf,
            Err(e) => {
                return Err(invalid_asset(e));
            },
        };
        match pdf.read_manifest_bytes() {
            Err(e) => Err(invalid_asset(e)),
            Ok(Some(manifests)) => {
                if manifests.len() == 0 {
                    return Err(Error::JumbfNotFound);
                }
                if manifests.len() > 1 {
                    return Err(Error::NotImplemented(ONE_MANIFEST_ONLY.to_owned()));
                }
                let mut pdf_bytes = slice_to_vec(input);
                match patch_bytes(&mut pdf_bytes, manifests[0].0.as_slice(), store_bytes) {
                    Err(e) => Err(e),
                    Ok(()) => Ok(pdf_bytes),
                }
            },
            Ok(None) => {
                match pdf.write_manifest_as_embedded_file(slice_to_vec(store_bytes)) {
                    Err(e) => Err(invalid_asset(e)),
                    Ok(()) => Ok(pdf.save_to()),
                }
            },
        }
    }

    /// Removes the manifest from the document in `input` and returns the
    /// resulting document: serialized anew where there was a manifest, and
    /// `input` byte for byte where there was none.
    pub fn remove_cai_store_from_stream<P: C2paPdf>(&self, input: &[u8]) -> (r: Result<
        Vec<u8>,
        Error,
    >)
        ensures
            bytes_result_view(r) == remove_cai_store_spec::<P>(input@),
            without_manifest::<P>(input@) ==> bytes_result_view(r) == Ok::<Seq<u8>, ErrorView>(
                input@,
            ),
    {
        let mut pdf = match P::from_bytes(input) {
            Ok(pdf) => pdf,
            Err(e) => {
                return Err(invalid_asset(e));
            },
        };
        match pdf.read_manifest_bytes() {
            Err(e) => Err(invalid_asset(e)),
            Ok(Some(_)) => match pdf.remove_manifest_bytes() {
                Err(e) => Err(invalid_asset(e)),
                Ok(()) => Ok(pdf.save_to()),
            },
            Ok(None) => Ok(slice_to_vec(input)),
        }
    }

    /// Saving a manifest to the asset at a path is not available.
    pub fn save_cai_store(&self, _asset_path: &Path, _store_bytes: &[u8]) -> (r: Result<(), Error>)
        ensures
            r matches Err(e) && e@ == ErrorView::NotImplemented(WRITE_NOT_IMPLEMENTED@),
    {
        Err(Error::NotImplemented(WRITE_NOT_IMPLEMENTED.to_owned()))
    }

    /// Locating the manifest region of the asset at a path is not available.
    pub fn get_object_locations(&self, _asset_path: &Path) -> (r: Result<
        Vec<HashObjectPositions>,
        Error,
    >)
        ensures
            r matches Err(e) && e@ == ErrorView::NotImplemented(WRITE_NOT_IMPLEMENTED@),
    {
        Err(Error::NotImplemented(WRITE_NOT_IMPLEMENTED.to_owned()))
    }

    /// Removing the manifest from the asset at a path is not available.
    pub fn remove_cai_store(&self, _asset_path: &Path) -> (r: Result<(), Error>)
        ensures
            r matches Err(e) && e@ == ErrorView::NotImplemented(WRITE_NOT_IMPLEMENTED@),
    {
        Err(Error::NotImplemented(WRITE_NOT_IMPLEMENTED.to_owned()))
    }

    /// The asset types this handler serves: `pdf` and `application/pdf`.
    pub fn supported_types(&self) -> (r: &[&str])
        ensures
            r@.len() == 2,
            r@[0]@ == "pdf"@,
            r@[1]@ == "application/pdf"@,
    {
        &SUPPORTED_TYPES
    }

    /// The bytes to treat as the manifest block of a PDF: the manifest itself,
    /// whatever the format.
    pub fn compose_manifest(&self, manifest_data: &[u8], _format: &str) -> (r: Result<
        Vec<u8>,
        Error,
    >)
        ensures
            bytes_result_view(r) == Ok::<Seq<u8>, ErrorView>(manifest_data@),
    {
        Ok(slice_to_vec(manifest_data))
    }

    /// The manifest of a parsed document.
    pub fn read_manifest_bytes<P: C2paPdf>(&self, pdf: P) -> (r: Result<Vec<u8>, Error>)
        ensures
            bytes_result_view(r) == single_manifest_spec(P::manifests_spec(pdf@)),
            manifest_count(P::manifests_spec(pdf@)) == Some(0nat) ==> bytes_result_view(r) == Err::<
                Seq<u8>,
                ErrorView,
            >(ErrorView::JumbfNotFound),
            manifest_count(P::manifests_spec(pdf@)) == Some(1nat) ==> bytes_result_view(r) == Ok::<
                Seq<u8>,
                ErrorView,
            >(listed_manifest(P::manifests_spec(pdf@), 0)),
            several_manifests(P::manifests_spec(pdf@)) ==> bytes_result_view(r) == Err::<
                Seq<u8>,
                ErrorView,
            >(ErrorView::NotImplemented(ONE_MANIFEST_ONLY@)),
            P::manifests_spec(pdf@) is Err ==> bytes_result_view(r) == Err::<Seq<u8>, ErrorView>(
                ErrorView::PdfReadError,
            ),
    {
        single_manifest(pdf.read_manifest_bytes())
    }

    /// The XMP metadata of a parsed document.
    pub fn read_xmp_from_pdf<P: C2paPdf>(&self, pdf: P) -> (r: Option<String>)
        ensures
            match r {
                Some(xmp) => P::xmp_spec(pdf@) == Some(xmp@),
                None => P::xmp_spec(pdf@) is None,
            },
    {
        pdf.read_xmp()
    }

    /// Reads the manifest of the document in `bytes`.
    pub fn read_cai<P: C2paPdf>(&self, bytes: &[u8]) -> (r: Result<Vec<u8>, Error>)
        ensures
            bytes_result_view(r) == read_cai_spec::<P>(bytes@),
            parsed_manifest_count::<P>(bytes@) == Some(0nat) ==> bytes_result_view(r) == Err::<
                Seq<u8>,
                ErrorView,
            >(ErrorView::JumbfNotFound),
            parsed_manifest_count::<P>(bytes@) == Some(1nat) ==> bytes_result_view(r) == Ok::<
                Seq<u8>,
                ErrorView,
            >(listed_manifest(P::manifests_spec(P::parse_spec(bytes@)->Ok_0), 0)),
            (P::parse_spec(bytes@) is Ok && several_manifests(
                P::manifests_spec(P::parse_spec(bytes@)->Ok_0),
            )) ==> bytes_result_view(r) == Err::<Seq<u8>, ErrorView>(
                ErrorView::NotImplemented(ONE_MANIFEST_ONLY@),
            ),
    {
        match P::from_bytes(bytes) {
            Err(e) => Err(invalid_asset(e)),
            Ok(pdf) => self.read_manifest_bytes(pdf),
        }
    }

    /// Probes the document in `bytes` for XMP metadata. Bytes that are no
    /// document have none.
    pub fn read_xmp<P: C2paPdf>(&self, bytes: &[u8]) -> (r: Option<String>)
        ensures
            match r {
                Some(xmp) => read_xmp_spec::<P>(bytes@) == Some(xmp@),
                None => read_xmp_spec::<P>(bytes@) is None,
            },
            P::parse_spec(bytes@) is Err ==> r is None,
    {
        match P::from_bytes(bytes) {
            Err(_) => None,
            Ok(pdf) => self.read_xmp_from_pdf(pdf),
        }
    }
}

/// A document has no manifest: it parses, and its listing is empty.
pub open spec fn without_manifest<P: C2paPdf>(input: Seq<u8>) -> bool {
    P::parse_spec(input) matches Ok(doc) && P::manifests_spec(doc) == Ok::<
        Option<Seq<(Seq<u8>, usize)>>,
        Seq<char>,
    >(None)
}

/// A document holds the manifest `manifest` at `offset`, and no other.
pub open spec fn holds_manifest_at<P: C2paPdf>(
    input: Seq<u8>,
    manifest: Seq<u8>,
    offset: usize,
) -> bool {
    P::parse_spec(input) matches Ok(doc) && (P::manifests_spec(doc) matches Ok(Some(entries))
        && entries.len() == 1 && entries[0] == (manifest, offset))
}

/// Writing a manifest into a document that has none and reading the result
/// gives that manifest back. The write succeeds exactly where the container
/// takes the manifest.
pub proof fn law_write_then_read<P: C2paPdf>(input: Seq<u8>, manifest: Seq<u8>)
    requires
        without_manifest::<P>(input),
    ensures
        write_cai_spec::<P>(input, manifest) is Ok <==> P::embed_spec(
            P::parse_spec(input)->Ok_0,
            manifest,
        ) is Ok,
        write_cai_spec::<P>(input, manifest) matches Ok(output) ==> read_cai_spec::<P>(output)
            == Ok::<Seq<u8>, ErrorView>(manifest),
{
    let doc = P::parse_spec(input)->Ok_0;
    P::law_embed_adds(doc, manifest);
    if let Ok(after) = P::embed_spec(doc, manifest) {
        P::law_save_then_parse(after);
        let reread = P::parse_spec(P::save_spec(after))->Ok_0;
        let entries = P::manifests_spec(reread)->Ok_0->Some_0;
        assert(payloads(entries) == Seq::<Seq<u8>>::empty().push(manifest));
        assert(payloads(entries)[0] == manifest);
    }
}

/// Writing a manifest over one of the same length changes the document in
/// that manifest's place only: the output has the input's length, holds the new
/// manifest at the old one's offset, and every byte outside that window is
/// the input's. The write succeeds exactly where the old manifest's bytes stand
/// nowhere else in the document.
pub proof fn law_write_in_place<P: C2paPdf>(
    input: Seq<u8>,
    current: Seq<u8>,
    offset: usize,
    manifest: Seq<u8>,
)
    requires
        holds_manifest_at::<P>(input, current, offset),
        manifest.len() == current.len(),
    ensures
        occurs_at(input, current, offset as int),
        write_cai_spec::<P>(input, manifest) is Ok <==> occurs_only_at(
            input,
            current,
            offset as int,
        ),
        write_cai_spec::<P>(input, manifest) matches Ok(output) ==> {
            &&& output.len() == input.len()
            &&& output.subrange(offset as int, offset + manifest.len()) == manifest
            &&& forall|i: int|
                0 <= i < input.len() && !(offset <= i < offset + manifest.len()) ==> output[i]
                    == input[i]
        },
{
    P::law_listed_offsets(input, 0);
}

/// Locating the manifest region of a document that has none reports exactly
/// one range, the one byte of the placeholder in the document serialized with
/// it, or fails; it never fails with `JumbfNotFound`. It succeeds exactly where
/// the container takes the one-byte manifest.
pub proof fn law_locate_without_manifest<P: C2paPdf>(input: Seq<u8>)
    requires
        without_manifest::<P>(input),
    ensures
        object_locations_spec::<P>(input) is Ok <==> P::embed_spec(
            P::parse_spec(input)->Ok_0,
            placeholder_manifest(),
        ) is Ok,
        match object_locations_spec::<P>(input) {
            Ok(positions) => covers_manifest(
                positions,
                P::save_spec(
                    P::embed_spec(P::parse_spec(input)->Ok_0, placeholder_manifest())->Ok_0,
                ),
                placeholder_manifest(),
            ),
            Err(e) => e is InvalidAsset,
        },
{
    let doc = P::parse_spec(input)->Ok_0;
    P::law_embed_adds(doc, placeholder_manifest());
    if let Ok(after) = P::embed_spec(doc, placeholder_manifest()) {
        P::law_save_then_parse(after);
        let reread = P::parse_spec(P::save_spec(after))->Ok_0;
        let entries = P::manifests_spec(reread)->Ok_0->Some_0;
        assert(payloads(entries) == Seq::<Seq<u8>>::empty().push(placeholder_manifest()));
        assert(payloads(entries)[0] == placeholder_manifest());
        P::law_listed_offsets(P::save_spec(after), 0);
    }
}

/// What a removal puts out is a document without a manifest.
pub proof fn lemma_removed_has_no_manifest<P: C2paPdf>(input: Seq<u8>)
    ensures
        remove_cai_store_spec::<P>(input) matches Ok(output) ==> without_manifest::<P>(output),
{
    if let Ok(doc) = P::parse_spec(input) {
        if let Ok(Some(_)) = P::manifests_spec(doc) {
            P::law_remove_clears(doc);
            if let Ok(after) = P::remove_spec(doc) {
                P::law_save_then_parse(after);
            }
        }
    }
}

/// Removing the manifest from a document and reading the result finds none.
pub proof fn law_remove_then_read<P: C2paPdf>(input: Seq<u8>)
    ensures
        remove_cai_store_spec::<P>(input) matches Ok(output) ==> read_cai_spec::<P>(output) == Err::<
            Seq<u8>,
            ErrorView,
        >(ErrorView::JumbfNotFound),
{
    lemma_removed_has_no_manifest::<P>(input);
}

/// Removing the manifest a second time changes nothing: the output of a
/// removal is its own output.
pub proof fn law_remove_twice<P: C2paPdf>(input: Seq<u8>)
    ensures
        remove_cai_store_spec::<P>(input) matches Ok(output) ==> remove_cai_store_spec::<P>(output)
            == Ok::<Seq<u8>, ErrorView>(output),
{
    lemma_removed_has_no_manifest::<P>(input);
}

} // verus!
