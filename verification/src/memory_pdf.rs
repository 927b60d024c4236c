//! A document kept in memory, with a flat serialized form.
//!
//! It stands in for a PDF where the handler is tried out without a PDF object
//! model: it has a body, optional XMP metadata and any number of manifests,
//! and it can be marked encrypted, in which case its manifests can be neither
//! listed nor changed.
//!
//! Serialized, a document is the four bytes `MPDF`, one byte that is 1 where
//! the document is encrypted, one byte that is 1 where it has XMP metadata,
//! the body and the metadata (UTF-8) as blocks, the number of manifests, and
//! each manifest as a block. A block is a length and that many bytes; lengths
//! and the number of manifests are 64-bit little-endian integers.

use vstd::prelude::*;
use vstd::bytes::{
    lemma_auto_spec_u64_to_from_le_bytes,
    spec_u64_from_le_bytes,
    spec_u64_to_le_bytes,
    u64_from_le_bytes,
    u64_to_le_bytes,
};
use vstd::slice::{slice_subrange, slice_to_vec};
use vstd::utf8::{
    decode_utf8,
    decode_utf8_encode_utf8,
    encode_utf8,
    encode_utf8_decode_utf8,
    encode_utf8_valid_utf8,
    valid_utf8,
};
use crate::error::PdfError;
use crate::patch::occurs_at;
use crate::pdf::{entries_view, listing_view, payloads, C2paPdf, Listing, ManifestEntry};

verus! {

/// A document in memory.
#[derive(Clone, Debug, PartialEq, Eq)]
pub struct MemoryPdf {
    /// The document's body.
    pub content: Vec<u8>,
    /// The document's XMP metadata.
    pub xmp: Option<String>,
    /// The manifests attached to the document, in the order they were attached.
    pub manifests: Vec<Vec<u8>>,
    /// Whether the document is encrypted.
    pub encrypted: bool,
}

/// The mathematical value of a [`MemoryPdf`].
pub struct MemoryPdfView {
    pub content: Seq<u8>,
    pub xmp: Option<Seq<char>>,
    pub manifests: Seq<Seq<u8>>,
    pub encrypted: bool,
}

/// The mathematical value of a list of byte strings.
pub open spec fn blocks_view(blocks: Seq<Vec<u8>>) -> Seq<Seq<u8>> {
    Seq::new(blocks.len(), |i: int| blocks[i]@)
}

impl View for MemoryPdf {
    type V = MemoryPdfView;

    open spec fn view(&self) -> MemoryPdfView {
        MemoryPdfView {
            content: self.content@,
            xmp: match self.xmp {
                Some(xmp) => Some(xmp@),
                None => None,
            },
            manifests: blocks_view(self.manifests@),
            encrypted: self.encrypted,
        }
    }
}

/// The message of a failure on an encrypted document.
pub const ENCRYPTED: &'static str = "the document is encrypted";

/// The message of a failure on a document too large to serialize.
pub const TOO_LARGE: &'static str = "the document is too large";

/// The message of a failure to parse.
pub const NOT_A_DOCUMENT: &'static str = "the bytes are not a document";

/// The bytes every serialized document starts with.
pub open spec fn magic() -> Seq<u8> {
    seq![0x4du8, 0x50u8, 0x44u8, 0x46u8]
}

/// The byte that stands for a yes or a no.
pub open spec fn flag(on: bool) -> u8 {
    if on {
        1u8
    } else {
        0u8
    }
}

/// A block: the length of `bytes`, then `bytes`.
pub open spec fn block(bytes: Seq<u8>) -> Seq<u8> {
    spec_u64_to_le_bytes(bytes.len() as u64) + bytes
}

/// The blocks of `list`, one after the other.
pub open spec fn blocks(list: Seq<Seq<u8>>) -> Seq<u8>
    decreases list.len(),
{
    if list.len() == 0 {
        Seq::empty()
    } else {
        blocks(list.drop_last()) + block(list.last())
    }
}

/// The number of bytes that the blocks of `list` take.
pub open spec fn blocks_len(list: Seq<Seq<u8>>) -> nat
    decreases list.len(),
{
    if list.len() == 0 {
        0
    } else {
        blocks_len(list.drop_last()) + 8 + list.last().len()
    }
}

/// The XMP metadata of `doc` as bytes; none where it has no metadata.
pub open spec fn xmp_bytes(doc: MemoryPdfView) -> Seq<u8> {
    match doc.xmp {
        Some(xmp) => encode_utf8(xmp),
        None => Seq::empty(),
    }
}

/// The serialized form of `doc` up to its first manifest.
pub open spec fn preamble(doc: MemoryPdfView) -> Seq<u8> {
    magic() + seq![flag(doc.encrypted), flag(doc.xmp is Some)] + block(doc.content) + block(
        xmp_bytes(doc),
    ) + spec_u64_to_le_bytes(doc.manifests.len() as u64)
}

/// The number of bytes in the serialized form of `doc` up to its first manifest.
pub open spec fn preamble_len(doc: MemoryPdfView) -> nat {
    30 + doc.content.len() + xmp_bytes(doc).len()
}

/// The serialized form of `doc`.
pub open spec fn serialized(doc: MemoryPdfView) -> Seq<u8> {
    preamble(doc) + blocks(doc.manifests)
}

/// The number of bytes in the serialized form of `doc`.
pub open spec fn serialized_len(doc: MemoryPdfView) -> nat {
    preamble_len(doc) + blocks_len(doc.manifests)
}

/// `doc` is small enough for every index into its serialized form to be a `usize`.
pub open spec fn fits(doc: MemoryPdfView) -> bool {
    serialized_len(doc) <= usize::MAX
}

/// Where the bytes of the manifest at `index` start in the serialized form of `doc`.
pub open spec fn manifest_offset(doc: MemoryPdfView, index: int) -> nat {
    preamble_len(doc) + blocks_len(doc.manifests.take(index)) + 8
}

/// The manifests of `doc` with their offsets.
pub open spec fn manifest_entries(doc: MemoryPdfView) -> Seq<(Seq<u8>, usize)> {
    Seq::new(
        doc.manifests.len(),
        |i: int| (doc.manifests[i], manifest_offset(doc, i) as usize),
    )
}

/// The blocks of a list end with the block of its last element.
pub proof fn lemma_blocks_len_push(list: Seq<Seq<u8>>, last: Seq<u8>)
    ensures
        blocks_len(list.push(last)) == blocks_len(list) + 8 + last.len(),
        blocks(list.push(last)) == blocks(list) + block(last),
{
    assert(list.push(last).drop_last() =~= list);
}

/// The blocks of a list take as many bytes as `blocks_len` says, and no fewer
/// than those of any of its beginnings.
pub proof fn lemma_blocks_len(list: Seq<Seq<u8>>, upto: int)
    requires
        0 <= upto <= list.len(),
    ensures
        blocks_len(list.take(upto)) <= blocks_len(list),
        blocks(list).len() == blocks_len(list),
    decreases list.len(),
{
    lemma_auto_spec_u64_to_from_le_bytes();
    if list.len() == 0 {
        assert(list.take(upto) =~= list);
    } else if upto == list.len() {
        assert(list.take(upto) =~= list);
        lemma_blocks_len(list.drop_last(), 0);
    } else {
        assert(list.take(upto) =~= list.drop_last().take(upto));
        lemma_blocks_len(list.drop_last(), upto);
    }
}

/// One element further into a list, its blocks grow by the block of that
/// element, and stay within the blocks of the whole list.
pub proof fn lemma_blocks_step(list: Seq<Seq<u8>>, index: int)
    requires
        0 <= index < list.len(),
    ensures
        blocks_len(list.take(index + 1)) == blocks_len(list.take(index)) + 8 + list[index].len(),
        blocks_len(list.take(index + 1)) <= blocks_len(list),
        blocks(list.take(index + 1)) == blocks(list.take(index)) + block(list[index]),
{
    assert(list.take(index + 1) =~= list.take(index).push(list[index]));
    lemma_blocks_len_push(list.take(index), list[index]);
    lemma_blocks_len(list, index + 1);
}

/// What listing the manifests of `doc` yields: nothing of an encrypted
/// document or of one too large to serialize, else each manifest with the index
/// at which its bytes start in the serialized form.
pub open spec fn listing_of(doc: MemoryPdfView) -> Listing {
    if doc.encrypted {
        Err(ENCRYPTED@)
    } else if !fits(doc) {
        Err(TOO_LARGE@)
    } else if doc.manifests.len() == 0 {
        Ok(None)
    } else {
        Ok(Some(manifest_entries(doc)))
    }
}

/// Appends the block of `bytes` to `out`.
fn append_block(out: &mut Vec<u8>, bytes: &[u8])
    ensures
        final(out)@ == old(out)@ + block(bytes@),
{
    let length = u64_to_le_bytes(bytes.len() as u64);
    out.extend_from_slice(length.as_slice());
    out.extend_from_slice(bytes);
}

impl MemoryPdf {
    /// A document with the given body, no metadata and no manifest.
    pub fn new(content: Vec<u8>) -> (r: Self)
        ensures
            r@ == (MemoryPdfView {
                content: content@,
                xmp: None,
                manifests: Seq::empty(),
                encrypted: false,
            }),
    {
        let r = MemoryPdf { content, xmp: None, manifests: Vec::new(), encrypted: false };
        assert(r@.manifests =~= Seq::empty());
        r
    }

    /// The number of bytes of the document's metadata.
    fn xmp_len(&self) -> (r: usize)
        ensures
            r == xmp_bytes(self@).len(),
    {
        match &self.xmp {
            Some(xmp) => xmp.as_str().as_bytes().len(),
            None => 0,
        }
    }

    /// The number of bytes in the document's serialized form, where a `usize`
    /// can hold it.
    pub fn serialized_len(&self) -> (r: Option<usize>)
        ensures
            r == (if fits(self@) {
                Some(serialized_len(self@) as usize)
            } else {
                None::<usize>
            }),
    {
        let mut total: usize = match 30usize.checked_add(self.content.len()) {
            Some(total) => total,
            None => {
                return None;
            },
        };
        total = match total.checked_add(self.xmp_len()) {
            Some(total) => total,
            None => {
                return None;
            },
        };
        let count: usize = self.manifests.len();
        let mut i: usize = 0;
        while i < count
            invariant
                count == self.manifests@.len(),
                i <= count,
                total == preamble_len(self@) + blocks_len(self@.manifests.take(i as int)),
            decreases count - i,
        {
            proof {
                lemma_blocks_step(self@.manifests, i as int);
            }
            total = match total.checked_add(8) {
                Some(total) => total,
                None => {
                    return None;
                },
            };
            total = match total.checked_add(self.manifests[i].len()) {
                Some(total) => total,
                None => {
                    return None;
                },
            };
            i += 1;
        }
        assert(self@.manifests.take(count as int) =~= self@.manifests);
        Some(total)
    }

    /// The document's serialized form.
    pub fn serialize(&self) -> (out: Vec<u8>)
        ensures
            out@ == serialized(self@),
    {
        let mut out: Vec<u8> = Vec::new();
        out.push(0x4d);
        out.push(0x50);
        out.push(0x44);
        out.push(0x46);
        out.push(if self.encrypted { 1 } else { 0 });
        out.push(if self.xmp.is_some() { 1 } else { 0 });
        append_block(&mut out, self.content.as_slice());
        match &self.xmp {
            Some(xmp) => append_block(&mut out, xmp.as_str().as_bytes()),
            None => {
                let none: Vec<u8> = Vec::new();
                append_block(&mut out, none.as_slice());
            },
        }
        let count: usize = self.manifests.len();
        let counted = u64_to_le_bytes(count as u64);
        out.extend_from_slice(counted.as_slice());
        let mut i: usize = 0;
        while i < count
            invariant
                count == self.manifests@.len(),
                i <= count,
                out@ == preamble(self@) + blocks(self@.manifests.take(i as int)),
            decreases count - i,
        {
            proof {
                lemma_blocks_step(self@.manifests, i as int);
            }
            append_block(&mut out, self.manifests[i].as_slice());
            i += 1;
        }
        assert(self@.manifests.take(count as int) =~= self@.manifests);
        out
    }

    /// Lists the document's manifests, each with the index at which its bytes
    /// start in the serialized form.
    pub fn list_manifests(&self) -> (r: Result<Option<Vec<ManifestEntry>>, PdfError>)
        ensures
            listing_view(r) == listing_of(self@),
    {
        if self.encrypted {
            return Err(PdfError { message: ENCRYPTED.to_owned() });
        }
        if self.serialized_len().is_none() {
            return Err(PdfError { message: TOO_LARGE.to_owned() });
        }
        let count: usize = self.manifests.len();
        if count == 0 {
            return Ok(None);
        }
        let mut entries: Vec<ManifestEntry> = Vec::new();
        let mut position: usize = 30 + self.content.len() + self.xmp_len();
        let mut i: usize = 0;
        while i < count
            invariant
                count == self.manifests@.len(),
                i <= count,
                fits(self@),
                position == preamble_len(self@) + blocks_len(self@.manifests.take(i as int)),
                entries@.len() == i,
                forall|j: int|
                    0 <= j < i ==> (#[trigger] entries@[j]).0@ == self@.manifests[j] && entries@[j].1
                        == manifest_offset(self@, j),
            decreases count - i,
        {
            proof {
                lemma_blocks_step(self@.manifests, i as int);
            }
            let offset: usize = position + 8;
            entries.push((slice_to_vec(self.manifests[i].as_slice()), offset));
            position = offset + self.manifests[i].len();
            i += 1;
        }
        assert(entries_view(entries@) =~= manifest_entries(self@));
        Ok(Some(entries))
    }
}

/// The integer that stands at index `at` of `bytes`.
pub open spec fn read_u64(bytes: Seq<u8>, at: int) -> Option<u64> {
    if 0 <= at && at + 8 <= bytes.len() {
        Some(spec_u64_from_le_bytes(bytes.subrange(at, at + 8)))
    } else {
        None
    }
}

/// The bytes of the block that stands at index `at` of `bytes`.
pub open spec fn read_block(bytes: Seq<u8>, at: int) -> Option<Seq<u8>> {
    match read_u64(bytes, at) {
        Some(length) => if at + 8 + length <= bytes.len() {
            Some(bytes.subrange(at + 8, at + 8 + length))
        } else {
            None
        },
        None => None,
    }
}

/// The bytes of the `count` blocks that stand one after the other from index
/// `at` of `bytes` on.
pub open spec fn read_blocks(bytes: Seq<u8>, at: int, count: nat) -> Option<Seq<Seq<u8>>>
    decreases count,
{
    if count == 0 {
        Some(Seq::empty())
    } else {
        match read_blocks(bytes, at, (count - 1) as nat) {
            Some(list) => match read_block(bytes, at + blocks_len(list)) {
                Some(last) => Some(list.push(last)),
                None => None,
            },
            None => None,
        }
    }
}

/// The document that `bytes` are the serialized form of.
pub open spec fn read_document(bytes: Seq<u8>) -> Option<MemoryPdfView> {
    if bytes.len() >= 6 && bytes.subrange(0, 4) == magic() && bytes[4] <= 1 && bytes[5] <= 1 {
        match read_block(bytes, 6) {
            Some(content) => match read_block(bytes, (14 + content.len()) as int) {
                Some(xmp) => match read_u64(bytes, (22 + content.len() + xmp.len()) as int) {
                    Some(count) => match read_blocks(
                        bytes,
                        (30 + content.len() + xmp.len()) as int,
                        count as nat,
                    ) {
                        Some(manifests) => if valid_utf8(xmp) && (bytes[5] == 1 || xmp.len() == 0)
                            && 30 + content.len() + xmp.len() + blocks_len(manifests)
                            == bytes.len() {
                            Some(
                                MemoryPdfView {
                                    content,
                                    xmp: if bytes[5] == 1 {
                                        Some(decode_utf8(xmp))
                                    } else {
                                        None
                                    },
                                    manifests,
                                    encrypted: bytes[4] == 1,
                                },
                            )
                        } else {
                            None
                        },
                        None => None,
                    },
                    None => None,
                },
                None => None,
            },
            None => None,
        }
    } else {
        None
    }
}

/// What parsing `bytes` yields.
pub open spec fn parsed(bytes: Seq<u8>) -> Result<MemoryPdfView, Seq<char>> {
    match read_document(bytes) {
        Some(doc) => Ok(doc),
        None => Err(NOT_A_DOCUMENT@),
    }
}

/// Where fewer blocks cannot be read, more cannot either.
pub proof fn lemma_read_blocks_fails(bytes: Seq<u8>, at: int, fewer: nat, count: nat)
    requires
        fewer <= count,
        read_blocks(bytes, at, fewer) is None,
    ensures
        read_blocks(bytes, at, count) is None,
    decreases count,
{
    if fewer < count {
        lemma_read_blocks_fails(bytes, at, fewer, (count - 1) as nat);
    }
}

/// The integer that stands at index `at` of `bytes`, where eight bytes stand there.
fn take_u64(bytes: &[u8], at: usize) -> (r: Option<u64>)
    ensures
        r == read_u64(bytes@, at as int),
{
    let total: usize = bytes.len();
    if at > total || total - at < 8 {
        None
    } else {
        Some(u64_from_le_bytes(slice_subrange(bytes, at, at + 8)))
    }
}

/// The bytes of the block that stands at index `at` of `bytes`, where a whole
/// block stands there.
fn take_block(bytes: &[u8], at: usize) -> (r: Option<Vec<u8>>)
    ensures
        match r {
            Some(block) => read_block(bytes@, at as int) == Some(block@),
            None => read_block(bytes@, at as int) is None,
        },
{
    let total: usize = bytes.len();
    match take_u64(bytes, at) {
        None => None,
        Some(length) => {
            let start: usize = at + 8;
            let left: usize = total - start;
            if length > left as u64 {
                None
            } else {
                Some(slice_to_vec(slice_subrange(bytes, start, start + length as usize)))
            }
        },
    }
}

/// Turns bytes into the text they encode: `String::from_utf8` of the standard
/// library, which gives the text of bytes that are valid UTF-8 and refuses all
/// others.
#[verifier::external_body]
fn string_from_utf8(bytes: Vec<u8>) -> (r: Option<String>)
    ensures
        match r {
            Some(text) => valid_utf8(bytes@) && text@ == decode_utf8(bytes@),
            None => !valid_utf8(bytes@),
        },
{
    String::from_utf8(bytes).ok()
}

impl MemoryPdf {
    /// Parses the serialized form of a document.
    pub fn parse(bytes: &[u8]) -> (r: Result<MemoryPdf, PdfError>)
        ensures
            match r {
                Ok(doc) => parsed(bytes@) == Ok::<MemoryPdfView, Seq<char>>(doc@),
                Err(e) => parsed(bytes@) == Err::<MemoryPdfView, Seq<char>>(e@),
            },
    {
        match MemoryPdf::read(bytes) {
            Some(doc) => Ok(doc),
            None => Err(PdfError { message: NOT_A_DOCUMENT.to_owned() }),
        }
    }

    /// The document that `bytes` are the serialized form of.
    #[verifier::loop_isolation(false)]
    fn read(bytes: &[u8]) -> (r: Option<MemoryPdf>)
        ensures
            match r {
                Some(doc) => read_document(bytes@) == Some(doc@),
                None => read_document(bytes@) is None,
            },
    {
        let total: usize = bytes.len();
        if total < 6 {
            return None;
        }
        if bytes[0] != 0x4d || bytes[1] != 0x50 || bytes[2] != 0x44 || bytes[3] != 0x46 {
            return None;
        }
        assert(bytes@.subrange(0, 4) =~= magic());
        if bytes[4] > 1 || bytes[5] > 1 {
            return None;
        }
        let encrypted: bool = bytes[4] == 1;
        let has_xmp: bool = bytes[5] == 1;
        let content = match take_block(bytes, 6) {
            Some(content) => content,
            None => {
                return None;
            },
        };
        let xmp_at: usize = 14 + content.len();
        let xmp_block = match take_block(bytes, xmp_at) {
            Some(xmp_block) => xmp_block,
            None => {
                return None;
            },
        };
        let ghost xmp_read = xmp_block@;
        let xmp_len: usize = xmp_block.len();
        let count_at: usize = xmp_at + 8 + xmp_len;
        let count: u64 = match take_u64(bytes, count_at) {
            Some(count) => count,
            None => {
                return None;
            },
        };
        let start: usize = count_at + 8;
        let mut manifests: Vec<Vec<u8>> = Vec::new();
        let mut position: usize = start;
        let mut i: u64 = 0;
        while i < count
            invariant
                i <= count,
                total == bytes@.len(),
                start <= position <= total,
                position == start + blocks_len(blocks_view(manifests@)),
                read_blocks(bytes@, start as int, i as nat) == Some(blocks_view(manifests@)),
            decreases count - i,
        {
            match take_block(bytes, position) {
                None => {
                    proof {
                        lemma_read_blocks_fails(bytes@, start as int, (i + 1) as nat, count as nat);
                    }
                    return None;
                },
                Some(manifest) => {
                    proof {
                        lemma_blocks_len_push(blocks_view(manifests@), manifest@);
                        assert(blocks_view(manifests@.push(manifest)) =~= blocks_view(
                            manifests@,
                        ).push(manifest@));
                    }
                    position = position + 8 + manifest.len();
                    manifests.push(manifest);
                    i += 1;
                },
            }
        }
        if position != total {
            return None;
        }
        if !has_xmp && xmp_len != 0 {
            return None;
        }
        let xmp = match string_from_utf8(xmp_block) {
            Some(text) => if has_xmp {
                Some(text)
            } else {
                None
            },
            None => {
                return None;
            },
        };
        Some(MemoryPdf { content, xmp, manifests, encrypted })
    }
}

/// A block that stands in `bytes` is read back from there.
pub proof fn lemma_read_block_at(bytes: Seq<u8>, at: int, payload: Seq<u8>)
    requires
        0 <= at,
        at + 8 + payload.len() <= bytes.len(),
        payload.len() <= u64::MAX,
        bytes.subrange(at, at + 8 + payload.len()) == block(payload),
    ensures
        read_block(bytes, at) == Some(payload),
{
    lemma_auto_spec_u64_to_from_le_bytes();
    let length = spec_u64_to_le_bytes(payload.len() as u64);
    assert(bytes.subrange(at, at + 8) =~= block(payload).subrange(0, 8));
    assert(block(payload).subrange(0, 8) =~= length);
    assert(bytes.subrange(at + 8, at + 8 + payload.len()) =~= block(payload).subrange(
        8,
        8 + payload.len() as int,
    ));
    assert(block(payload).subrange(8, 8 + payload.len() as int) =~= payload);
}

/// Blocks that stand in `bytes` one after the other are read back from there.
pub proof fn lemma_read_blocks_at(bytes: Seq<u8>, at: int, list: Seq<Seq<u8>>)
    requires
        0 <= at,
        at + blocks_len(list) <= bytes.len(),
        blocks_len(list) <= u64::MAX,
        bytes.subrange(at, at + blocks_len(list)) == blocks(list),
    ensures
        read_blocks(bytes, at, list.len()) == Some(list),
    decreases list.len(),
{
    if list.len() > 0 {
        let before = list.drop_last();
        let last = list.last();
        lemma_blocks_len(before, 0);
        lemma_blocks_len(list, 0);
        let middle = at + blocks_len(before);
        assert(bytes.subrange(at, middle) =~= blocks(list).subrange(0, blocks_len(before) as int));
        assert(blocks(list).subrange(0, blocks_len(before) as int) =~= blocks(before));
        lemma_read_blocks_at(bytes, at, before);
        assert(bytes.subrange(middle, middle + 8 + last.len()) =~= blocks(list).subrange(
            blocks_len(before) as int,
            blocks_len(list) as int,
        ));
        assert(blocks(list).subrange(blocks_len(before) as int, blocks_len(list) as int) =~= block(
            last,
        ));
        lemma_read_block_at(bytes, middle, last);
        assert(before.push(last) =~= list);
    }
}

/// A document is read back from its serialized form.
pub proof fn lemma_parse_serialized(doc: MemoryPdfView)
    requires
        fits(doc),
    ensures
        parsed(serialized(doc)) == Ok::<MemoryPdfView, Seq<char>>(doc),
{
    lemma_auto_spec_u64_to_from_le_bytes();
    lemma_blocks_len(doc.manifests, 0);
    let bytes = serialized(doc);
    let xmp = xmp_bytes(doc);
    let flags = seq![flag(doc.encrypted), flag(doc.xmp is Some)];
    let count = spec_u64_to_le_bytes(doc.manifests.len() as u64);
    let xmp_at: int = 14 + doc.content.len() as int;
    let count_at: int = xmp_at + 8 + xmp.len();
    let start: int = count_at + 8;
    assert(bytes.len() == serialized_len(doc));
    assert(bytes.subrange(0, 4) =~= magic());
    assert(bytes[4] == flag(doc.encrypted));
    assert(bytes[5] == flag(doc.xmp is Some));
    assert(bytes.subrange(6, xmp_at) =~= block(doc.content));
    lemma_read_block_at(bytes, 6, doc.content);
    assert(bytes.subrange(xmp_at, count_at) =~= block(xmp));
    lemma_read_block_at(bytes, xmp_at, xmp);
    assert(bytes.subrange(count_at, start) =~= count);
    lemma_manifest_count(doc.manifests);
    assert(bytes.subrange(start, start + blocks_len(doc.manifests)) =~= blocks(doc.manifests));
    lemma_read_blocks_at(bytes, start, doc.manifests);
    match doc.xmp {
        Some(text) => {
            encode_utf8_valid_utf8(text);
            encode_utf8_decode_utf8(text);
        },
        None => {
            assert(valid_utf8(xmp));
        },
    }
    assert(read_document(bytes) == Some(doc));
}

/// A list has no more elements than its blocks have bytes.
pub proof fn lemma_manifest_count(list: Seq<Seq<u8>>)
    ensures
        list.len() <= blocks_len(list),
    decreases list.len(),
{
    if list.len() > 0 {
        lemma_manifest_count(list.drop_last());
    }
}

/// Among the blocks of a list, the block of the element at `index` stands
/// right after the blocks of the elements before it.
pub proof fn lemma_block_position(list: Seq<Seq<u8>>, index: int)
    requires
        0 <= index < list.len(),
    ensures
        blocks_len(list.take(index + 1)) == blocks_len(list.take(index)) + 8 + list[index].len(),
        blocks_len(list.take(index + 1)) <= blocks(list).len(),
        blocks(list).subrange(
            blocks_len(list.take(index)) as int,
            blocks_len(list.take(index + 1)) as int,
        ) == block(list[index]),
    decreases list.len(),
{
    let before = list.drop_last();
    lemma_blocks_len(list, index + 1);
    lemma_blocks_len(before, 0);
    assert(list.take(index + 1).drop_last() =~= list.take(index));
    if index == list.len() - 1 {
        assert(list.take(index) =~= before);
        assert(list.take(index + 1) =~= list);
        assert(blocks(list).subrange(blocks_len(before) as int, blocks_len(list) as int) =~= block(
            list.last(),
        ));
    } else {
        lemma_block_position(before, index);
        lemma_blocks_len(before, index + 1);
        assert(list.take(index) =~= before.take(index));
        assert(list.take(index + 1) =~= before.take(index + 1));
        assert(blocks(list).subrange(
            blocks_len(list.take(index)) as int,
            blocks_len(list.take(index + 1)) as int,
        ) =~= blocks(before).subrange(
            blocks_len(before.take(index)) as int,
            blocks_len(before.take(index + 1)) as int,
        ));
    }
}

/// The offset listed for a manifest is where its bytes stand in the
/// document's serialized form.
pub proof fn lemma_manifest_at_offset(doc: MemoryPdfView, index: int)
    requires
        fits(doc),
        0 <= index < doc.manifests.len(),
    ensures
        occurs_at(serialized(doc), doc.manifests[index], manifest_offset(doc, index) as int),
{
    lemma_auto_spec_u64_to_from_le_bytes();
    lemma_block_position(doc.manifests, index);
    let list = doc.manifests;
    let from = blocks_len(list.take(index)) as int;
    let to = blocks_len(list.take(index + 1)) as int;
    let offset = manifest_offset(doc, index) as int;
    assert(preamble(doc).len() == preamble_len(doc));
    assert(serialized(doc).subrange(offset, offset + list[index].len()) =~= blocks(list).subrange(
        from,
        to,
    ).subrange(8, 8 + list[index].len() as int));
    assert(block(list[index]).subrange(8, 8 + list[index].len() as int) =~= list[index]);
}

/// A block that was read from `bytes` stands there.
pub proof fn lemma_block_read(bytes: Seq<u8>, at: int, payload: Seq<u8>)
    requires
        read_block(bytes, at) == Some(payload),
    ensures
        0 <= at,
        at + 8 + payload.len() <= bytes.len(),
        payload.len() <= u64::MAX,
        bytes.subrange(at, at + 8 + payload.len()) == block(payload),
{
    lemma_auto_spec_u64_to_from_le_bytes();
    let length = bytes.subrange(at, at + 8);
    assert(spec_u64_to_le_bytes(spec_u64_from_le_bytes(length)) == length);
    assert(bytes.subrange(at, at + 8 + payload.len()) =~= length + payload);
}

/// Blocks that were read from `bytes` stand there one after the other.
pub proof fn lemma_blocks_read(bytes: Seq<u8>, at: int, count: nat, list: Seq<Seq<u8>>)
    requires
        0 <= at,
        read_blocks(bytes, at, count) == Some(list),
    ensures
        list.len() == count,
        at + blocks_len(list) <= bytes.len() || count == 0,
        count > 0 ==> bytes.subrange(at, at + blocks_len(list)) == blocks(list),
    decreases count,
{
    if count > 0 {
        let before = read_blocks(bytes, at, (count - 1) as nat)->Some_0;
        let last = read_block(bytes, at + blocks_len(before))->Some_0;
        lemma_blocks_read(bytes, at, (count - 1) as nat, before);
        lemma_block_read(bytes, at + blocks_len(before), last);
        lemma_blocks_len_push(before, last);
        lemma_blocks_len(before, 0);
        let middle = at + blocks_len(before);
        if count == 1 {
            assert(before =~= Seq::empty());
            assert(bytes.subrange(at, at + blocks_len(list)) =~= blocks(before) + block(last));
        } else {
            assert(bytes.subrange(at, at + blocks_len(list)) =~= bytes.subrange(at, middle)
                + bytes.subrange(middle, middle + 8 + last.len()));
        }
    }
}

/// The bytes that a document was read from are its serialized form.
pub proof fn lemma_serialized_parsed(bytes: Seq<u8>, doc: MemoryPdfView)
    requires
        parsed(bytes) == Ok::<MemoryPdfView, Seq<char>>(doc),
    ensures
        serialized(doc) == bytes,
        serialized_len(doc) == bytes.len(),
{
    lemma_auto_spec_u64_to_from_le_bytes();
    let content = read_block(bytes, 6)->Some_0;
    let xmp_at: int = 14 + content.len() as int;
    let xmp = read_block(bytes, xmp_at)->Some_0;
    let count_at: int = xmp_at + 8 + xmp.len();
    let count = read_u64(bytes, count_at)->Some_0;
    let start: int = count_at + 8;
    let manifests = read_blocks(bytes, start, count as nat)->Some_0;
    lemma_block_read(bytes, 6, content);
    lemma_block_read(bytes, xmp_at, xmp);
    lemma_blocks_read(bytes, start, count as nat, manifests);
    lemma_blocks_len(manifests, 0);
    if bytes[5] == 1 {
        decode_utf8_encode_utf8(xmp);
    } else {
        assert(xmp =~= Seq::empty());
    }
    assert(xmp_bytes(doc) == xmp);
    let length = bytes.subrange(count_at, start);
    assert(spec_u64_to_le_bytes(spec_u64_from_le_bytes(length)) == length);
    assert(bytes.subrange(0, 6) =~= magic() + seq![flag(doc.encrypted), flag(doc.xmp is Some)]) by {
        assert(bytes.subrange(0, 6) =~= bytes.subrange(0, 4) + seq![bytes[4], bytes[5]]);
    }
    if count == 0 {
        assert(manifests =~= Seq::empty());
    }
    assert(bytes.subrange(start, bytes.len() as int) == blocks(manifests));
    assert(bytes =~= bytes.subrange(0, 6) + bytes.subrange(6, xmp_at) + bytes.subrange(
        xmp_at,
        count_at,
    ) + bytes.subrange(count_at, start) + bytes.subrange(start, bytes.len() as int));
}

/// Every offset listed for a document that was read from `bytes` is where the
/// manifest stands in `bytes`.
pub proof fn lemma_listed_offsets(bytes: Seq<u8>, index: int)
    requires
        parsed(bytes) is Ok,
        listing_of(parsed(bytes)->Ok_0) matches Ok(Some(entries)) && 0 <= index < entries.len(),
    ensures
        occurs_at(
            bytes,
            listing_of(parsed(bytes)->Ok_0)->Ok_0->Some_0[index].0,
            listing_of(parsed(bytes)->Ok_0)->Ok_0->Some_0[index].1 as int,
        ),
{
    let doc = parsed(bytes)->Ok_0;
    lemma_serialized_parsed(bytes, doc);
    lemma_manifest_at_offset(doc, index);
}

/// `doc` with `manifest` attached after those it has.
pub open spec fn with_manifest(doc: MemoryPdfView, manifest: Seq<u8>) -> MemoryPdfView {
    MemoryPdfView { manifests: doc.manifests.push(manifest), ..doc }
}

/// `doc` with no manifest attached.
pub open spec fn without_manifests(doc: MemoryPdfView) -> MemoryPdfView {
    MemoryPdfView { manifests: Seq::empty(), ..doc }
}

impl C2paPdf for MemoryPdf {
    open spec fn parse_spec(bytes: Seq<u8>) -> Result<MemoryPdfView, Seq<char>> {
        parsed(bytes)
    }

    open spec fn manifests_spec(doc: MemoryPdfView) -> Listing {
        listing_of(doc)
    }

    /// An encrypted document takes no manifest, nor does one that would grow
    /// too large to serialize.
    open spec fn embed_spec(doc: MemoryPdfView, manifest: Seq<u8>) -> Result<
        MemoryPdfView,
        Seq<char>,
    > {
        if doc.encrypted {
            Err(ENCRYPTED@)
        } else if !fits(with_manifest(doc, manifest)) {
            Err(TOO_LARGE@)
        } else {
            Ok(with_manifest(doc, manifest))
        }
    }

    /// Every manifest is detached; a document that has none stays as it is.
    open spec fn remove_spec(doc: MemoryPdfView) -> Result<MemoryPdfView, Seq<char>> {
        if doc.encrypted {
            Err(ENCRYPTED@)
        } else if !fits(doc) {
            Err(TOO_LARGE@)
        } else {
            Ok(without_manifests(doc))
        }
    }

    open spec fn save_spec(doc: MemoryPdfView) -> Seq<u8> {
        serialized(doc)
    }

    open spec fn xmp_spec(doc: MemoryPdfView) -> Option<Seq<char>> {
        doc.xmp
    }

    fn from_bytes(bytes: &[u8]) -> (r: Result<Self, PdfError>) {
        MemoryPdf::parse(bytes)
    }

    fn read_manifest_bytes(&self) -> (r: Result<Option<Vec<ManifestEntry>>, PdfError>) {
        self.list_manifests()
    }

    fn write_manifest_as_embedded_file(&mut self, bytes: Vec<u8>) -> (r: Result<(), PdfError>) {
        if self.encrypted {
            return Err(PdfError { message: ENCRYPTED.to_owned() });
        }
        proof {
            lemma_blocks_len_push(self@.manifests, bytes@);
        }
        let room: bool = match self.serialized_len() {
            Some(total) => match total.checked_add(8) {
                Some(total) => total.checked_add(bytes.len()).is_some(),
                None => false,
            },
            None => false,
        };
        if !room {
            return Err(PdfError { message: TOO_LARGE.to_owned() });
        }
        assert(blocks_view(self.manifests@.push(bytes)) =~= blocks_view(self.manifests@).push(
            bytes@,
        ));
        self.manifests.push(bytes);
        Ok(())
    }

    fn remove_manifest_bytes(&mut self) -> (r: Result<(), PdfError>) {
        if self.encrypted {
            return Err(PdfError { message: ENCRYPTED.to_owned() });
        }
        if self.serialized_len().is_none() {
            return Err(PdfError { message: TOO_LARGE.to_owned() });
        }
        self.manifests.clear();
        assert(blocks_view(self.manifests@) =~= Seq::empty());
        Ok(())
    }

    fn save_to(&self) -> (out: Vec<u8>) {
        self.serialize()
    }

    fn read_xmp(&self) -> (r: Option<String>) {
        match &self.xmp {
            Some(xmp) => Some(xmp.clone()),
            None => None,
        }
    }

    proof fn law_embed_adds(doc: MemoryPdfView, manifest: Seq<u8>) {
        let after = with_manifest(doc, manifest);
        assert(payloads(manifest_entries(after)) =~= after.manifests);
        assert(payloads(manifest_entries(doc)) =~= doc.manifests);
        if doc.manifests.len() == 0 {
            assert(doc.manifests =~= Seq::empty());
        }
    }

    proof fn law_remove_clears(doc: MemoryPdfView) {
        lemma_blocks_len(doc.manifests, 0);
    }

    proof fn law_remove_without_manifest(doc: MemoryPdfView) {
        assert(without_manifests(doc).manifests =~= doc.manifests);
    }

    proof fn law_listed_offsets(bytes: Seq<u8>, index: int) {
        lemma_listed_offsets(bytes, index);
    }

    proof fn law_save_then_parse(doc: MemoryPdfView) {
        if fits(doc) {
            lemma_parse_serialized(doc);
        }
    }
}

} // verus!
