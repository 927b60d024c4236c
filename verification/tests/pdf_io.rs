use c2pa_pdf::asset_io::{HashBlockObjectType, HashObjectPositions};
use c2pa_pdf::error::{Error, PdfError};
use c2pa_pdf::memory_pdf::MemoryPdf;
use c2pa_pdf::pdf::C2paPdf;
use c2pa_pdf::pdf_io::{manifest_region, single_manifest, PdfIO};
use std::path::Path;

const MANIFEST_BYTES: [u8; 2] = [10u8, 20u8];

fn document(content: &[u8], xmp: Option<&str>, manifests: &[&[u8]], encrypted: bool) -> MemoryPdf {
    MemoryPdf {
        content: content.to_vec(),
        xmp: xmp.map(|text| text.to_string()),
        manifests: manifests.iter().map(|bytes| bytes.to_vec()).collect(),
        encrypted,
    }
}

#[test]
fn test_error_reading_manifest_fails() {
    let pdf = document(&[], None, &[&MANIFEST_BYTES], true);

    let pdf_io = PdfIO::new("pdf");
    assert!(matches!(
        pdf_io.read_manifest_bytes(pdf),
        Err(Error::PdfReadError)
    ))
}

#[test]
fn test_no_manifest_found_returns_no_jumbf_error() {
    let pdf = document(&[], None, &[], false);
    let pdf_io = PdfIO::new("pdf");

    assert!(matches!(
        pdf_io.read_manifest_bytes(pdf),
        Err(Error::JumbfNotFound)
    ));
}

#[test]
fn test_one_manifest_found_returns_bytes() {
    let pdf = document(&[], None, &[&MANIFEST_BYTES], false);

    let pdf_io = PdfIO::new("pdf");
    assert_eq!(
        pdf_io.read_manifest_bytes(pdf).unwrap(),
        MANIFEST_BYTES.to_vec()
    );
}

#[test]
fn test_multiple_manifest_fail_with_not_implemented_error() {
    let pdf = document(
        &[],
        None,
        &[&MANIFEST_BYTES, &MANIFEST_BYTES, &MANIFEST_BYTES],
        false,
    );

    let pdf_io = PdfIO::new("pdf");

    assert!(matches!(
        pdf_io.read_manifest_bytes(pdf),
        Err(Error::NotImplemented(_))
    ));
}

#[test]
fn test_returns_none_when_no_xmp() {
    let pdf = document(&[], None, &[], false);

    let pdf_io = PdfIO::new("pdf");
    assert!(pdf_io.read_xmp_from_pdf(pdf).is_none());
}

#[test]
fn test_returns_some_when_some_xmp() {
    let pdf = document(&[], Some("xmp"), &[], false);

    let pdf_io = PdfIO::new("pdf");
    assert!(pdf_io.read_xmp_from_pdf(pdf).is_some());
}

#[test]
fn test_cai_read_finds_no_manifest() {
    let source = document(b"basic", Some("<x:xmpmeta/>"), &[], false).save_to();
    let pdf_io = PdfIO::new("pdf");

    assert!(matches!(
        pdf_io.read_cai::<MemoryPdf>(&source),
        Err(Error::JumbfNotFound)
    ));
}

#[test]
fn test_cai_read_xmp_finds_xmp_data() {
    let source = document(b"basic", Some("<x:xmpmeta/>"), &[], false).save_to();

    let pdf_io = PdfIO::new("pdf");
    assert!(pdf_io.read_xmp::<MemoryPdf>(&source).is_some());
}

#[test]
fn test_read_cai_express_pdf_finds_single_manifest_store() {
    let source = document(b"express", None, &[b"manifest store"], false).save_to();
    let pdf_io = PdfIO::new("pdf");
    assert!(pdf_io.read_cai::<MemoryPdf>(&source).is_ok());
}

#[test]
fn multiple_manifests_are_refused_with_the_fixed_reason() {
    let pdf = document(&[], None, &[&[1], &[2]], false);
    assert_eq!(
        PdfIO::new("pdf").read_manifest_bytes(pdf),
        Err(Error::NotImplemented(
            "c2pa-rs only supports reading PDFs with one manifest".to_string()
        ))
    );
}

#[test]
fn single_manifest_of_each_kind_of_listing() {
    let failure = PdfError {
        message: "broken".to_string(),
    };
    assert_eq!(single_manifest(Err(failure)), Err(Error::PdfReadError));
    assert_eq!(single_manifest(Ok(None)), Err(Error::JumbfNotFound));
    assert_eq!(single_manifest(Ok(Some(vec![]))), Err(Error::JumbfNotFound));
    assert_eq!(
        single_manifest(Ok(Some(vec![(vec![10, 20], 7)]))),
        Ok(vec![10, 20])
    );
    assert!(matches!(
        single_manifest(Ok(Some(vec![(vec![1], 0), (vec![2], 9)]))),
        Err(Error::NotImplemented(_))
    ));
}

#[test]
fn manifest_region_is_the_only_entry() {
    assert_eq!(manifest_region(&vec![]), Err(Error::JumbfNotFound));
    assert_eq!(
        manifest_region(&vec![(vec![1, 2, 3], 40)]),
        Ok(vec![HashObjectPositions {
            offset: 40,
            length: 3,
            htype: HashBlockObjectType::Cai,
        }])
    );
    assert_eq!(
        manifest_region(&vec![(vec![1, 2, 3], 40), (vec![4], 99)]),
        Err(Error::NotImplemented(
            "c2pa-rs only supports reading PDFs with one manifest".to_string()
        ))
    );
}

#[test]
fn read_cai_returns_the_only_manifest() {
    let source = document(&[1, 2, 3], None, &[&MANIFEST_BYTES], false).save_to();
    assert_eq!(
        PdfIO::new("pdf").read_cai::<MemoryPdf>(&source),
        Ok(MANIFEST_BYTES.to_vec())
    );
}

#[test]
fn read_cai_refuses_several_manifests() {
    let source = document(&[], None, &[&[1], &[2], &[3]], false).save_to();
    assert!(matches!(
        PdfIO::new("pdf").read_cai::<MemoryPdf>(&source),
        Err(Error::NotImplemented(_))
    ));
}

#[test]
fn read_cai_of_an_encrypted_document_is_a_read_error() {
    let source = document(&[], None, &[&MANIFEST_BYTES], true).save_to();
    assert_eq!(
        PdfIO::new("pdf").read_cai::<MemoryPdf>(&source),
        Err(Error::PdfReadError)
    );
}

#[test]
fn read_cai_of_bytes_that_are_no_document_is_invalid_asset() {
    assert_eq!(
        PdfIO::new("pdf").read_cai::<MemoryPdf>(b"%PDF-1.7 not this format"),
        Err(Error::InvalidAsset(
            "the bytes are not a document".to_string()
        ))
    );
}

#[test]
fn read_xmp_of_bytes_that_are_no_document_is_none() {
    let pdf_io = PdfIO::new("pdf");
    assert_eq!(pdf_io.read_xmp::<MemoryPdf>(&[]), None);
    assert_eq!(pdf_io.read_xmp::<MemoryPdf>(&[0xff; 64]), None);
    let mut truncated = document(&[1], Some("xmp"), &[], false).save_to();
    truncated.pop();
    assert_eq!(pdf_io.read_xmp::<MemoryPdf>(&truncated), None);
}

#[test]
fn read_xmp_returns_the_metadata_text() {
    let source = document(&[1, 2], Some("h\u{e9}llo \u{1F600}"), &[], false).save_to();
    assert_eq!(
        PdfIO::new("pdf").read_xmp::<MemoryPdf>(&source),
        Some("h\u{e9}llo \u{1F600}".to_string())
    );
}

#[test]
fn write_then_read_returns_the_manifest() {
    let pdf_io = PdfIO::new("pdf");
    let source = document(&[1, 2, 3], Some("xmp"), &[], false).save_to();
    let manifest = vec![9u8, 8, 7, 6, 5];
    let written = pdf_io.write_cai::<MemoryPdf>(&source, &manifest).unwrap();
    assert_eq!(pdf_io.read_cai::<MemoryPdf>(&written), Ok(manifest));
    assert_eq!(
        pdf_io.read_xmp::<MemoryPdf>(&written),
        Some("xmp".to_string())
    );
}

#[test]
fn write_without_manifest_serializes_the_document_anew() {
    let source = document(&[1, 2, 3], None, &[], false).save_to();
    let expected = document(&[1, 2, 3], None, &[&[7, 7]], false).save_to();
    assert_eq!(
        PdfIO::new("pdf").write_cai::<MemoryPdf>(&source, &[7, 7]),
        Ok(expected)
    );
}

#[test]
fn write_over_a_manifest_of_the_same_length_changes_only_its_bytes() {
    let pdf_io = PdfIO::new("pdf");
    let source = document(&[1, 2, 3], None, &[&MANIFEST_BYTES], false).save_to();
    let region = pdf_io
        .get_object_locations_from_stream::<MemoryPdf>(&source)
        .unwrap();
    let offset = region[0].offset;
    assert_eq!(offset, 41);
    assert_eq!(&source[offset..offset + 2], &MANIFEST_BYTES);

    let written = pdf_io.write_cai::<MemoryPdf>(&source, &[7, 8]).unwrap();
    assert_eq!(written.len(), source.len());
    assert_eq!(&written[offset..offset + 2], &[7, 8]);
    assert_eq!(&written[..offset], &source[..offset]);
    assert_eq!(&written[offset + 2..], &source[offset + 2..]);
    assert_eq!(pdf_io.read_cai::<MemoryPdf>(&written), Ok(vec![7, 8]));
}

#[test]
fn write_over_a_manifest_of_another_length_splices_the_buffer() {
    let source = document(&[1, 2, 3], None, &[&MANIFEST_BYTES], false).save_to();
    let written = PdfIO::new("pdf")
        .write_cai::<MemoryPdf>(&source, &[7, 8, 9])
        .unwrap();
    let mut expected = source[..41].to_vec();
    expected.extend_from_slice(&[7, 8, 9]);
    assert_eq!(written, expected);
}

#[test]
fn write_fails_where_the_manifest_bytes_stand_twice_in_the_document() {
    let source = document(&MANIFEST_BYTES, None, &[&MANIFEST_BYTES], false).save_to();
    assert_eq!(
        PdfIO::new("pdf").write_cai::<MemoryPdf>(&source, &[7, 8]),
        Err(Error::NotFound)
    );
}

#[test]
fn write_with_several_manifests_is_refused() {
    let source = document(&[], None, &[&[1, 2], &[3, 4]], false).save_to();
    assert_eq!(
        PdfIO::new("pdf").write_cai::<MemoryPdf>(&source, &[5, 6]),
        Err(Error::NotImplemented(
            "c2pa-rs only supports reading PDFs with one manifest".to_string()
        ))
    );
}

#[test]
fn write_to_bytes_that_are_no_document_is_invalid_asset() {
    assert_eq!(
        PdfIO::new("pdf").write_cai::<MemoryPdf>(&[1, 2, 3], &[7]),
        Err(Error::InvalidAsset(
            "the bytes are not a document".to_string()
        ))
    );
}

#[test]
fn write_to_an_encrypted_document_is_invalid_asset() {
    let source = document(&[], None, &[], true).save_to();
    assert_eq!(
        PdfIO::new("pdf").write_cai::<MemoryPdf>(&source, &[7]),
        Err(Error::InvalidAsset("the document is encrypted".to_string()))
    );
}

#[test]
fn locate_reports_the_manifest_in_place() {
    let source = document(&[1, 2, 3], None, &[&[5, 6, 7, 8]], false).save_to();
    assert_eq!(
        PdfIO::new("pdf").get_object_locations_from_stream::<MemoryPdf>(&source),
        Ok(vec![HashObjectPositions {
            offset: 41,
            length: 4,
            htype: HashBlockObjectType::Cai,
        }])
    );
    assert_eq!(&source[41..45], &[5, 6, 7, 8]);
}

#[test]
fn locate_covers_the_bytes_that_read_returns() {
    let pdf_io = PdfIO::new("pdf");
    let source = document(b"body", Some("xmp"), &[b"manifest store"], false).save_to();
    let manifest = pdf_io.read_cai::<MemoryPdf>(&source).unwrap();
    let region = pdf_io
        .get_object_locations_from_stream::<MemoryPdf>(&source)
        .unwrap();
    assert_eq!(region.len(), 1);
    assert_eq!(region[0].length, manifest.len());
    assert_eq!(
        &source[region[0].offset..region[0].offset + region[0].length],
        &manifest[..]
    );
}

#[test]
fn locate_with_several_manifests_is_refused() {
    let source = document(&[1, 2, 3], None, &[&[5, 6, 7, 8], &[9]], false).save_to();
    assert_eq!(
        PdfIO::new("pdf").get_object_locations_from_stream::<MemoryPdf>(&source),
        Err(Error::NotImplemented(
            "c2pa-rs only supports reading PDFs with one manifest".to_string()
        ))
    );
}

#[test]
fn locate_without_manifest_reports_a_one_byte_placeholder() {
    let source = document(&[1, 2, 3], Some("ab"), &[], false).save_to();
    assert_eq!(
        PdfIO::new("pdf").get_object_locations_from_stream::<MemoryPdf>(&source),
        Ok(vec![HashObjectPositions {
            offset: 43,
            length: 1,
            htype: HashBlockObjectType::Cai,
        }])
    );
    let with_placeholder = document(&[1, 2, 3], Some("ab"), &[&[0]], false).save_to();
    assert_eq!(with_placeholder[43], 0);
    assert_eq!(with_placeholder.len(), 44);
}

#[test]
fn locate_fails_loudly_on_bad_input() {
    let pdf_io = PdfIO::new("pdf");
    assert_eq!(
        pdf_io.get_object_locations_from_stream::<MemoryPdf>(&[]),
        Err(Error::InvalidAsset(
            "the bytes are not a document".to_string()
        ))
    );
    let encrypted = document(&[], None, &[], true).save_to();
    assert_eq!(
        pdf_io.get_object_locations_from_stream::<MemoryPdf>(&encrypted),
        Err(Error::InvalidAsset("the document is encrypted".to_string()))
    );
}

#[test]
fn remove_without_manifest_returns_the_input() {
    let source = document(&[1, 2, 3], Some("xmp"), &[], false).save_to();
    assert_eq!(
        PdfIO::new("pdf").remove_cai_store_from_stream::<MemoryPdf>(&source),
        Ok(source.clone())
    );
}

#[test]
fn remove_then_read_finds_no_manifest() {
    let pdf_io = PdfIO::new("pdf");
    let source = document(&[1, 2, 3], Some("xmp"), &[&MANIFEST_BYTES], false).save_to();
    let removed = pdf_io
        .remove_cai_store_from_stream::<MemoryPdf>(&source)
        .unwrap();
    assert_eq!(
        removed,
        document(&[1, 2, 3], Some("xmp"), &[], false).save_to()
    );
    assert_eq!(
        pdf_io.read_cai::<MemoryPdf>(&removed),
        Err(Error::JumbfNotFound)
    );
    assert_eq!(
        pdf_io.remove_cai_store_from_stream::<MemoryPdf>(&removed),
        Ok(removed.clone())
    );
}

#[test]
fn remove_from_bad_input_is_invalid_asset() {
    let pdf_io = PdfIO::new("pdf");
    assert_eq!(
        pdf_io.remove_cai_store_from_stream::<MemoryPdf>(&[0x4d, 0x50]),
        Err(Error::InvalidAsset(
            "the bytes are not a document".to_string()
        ))
    );
    let encrypted = document(&[], None, &[&[1]], true).save_to();
    assert_eq!(
        pdf_io.remove_cai_store_from_stream::<MemoryPdf>(&encrypted),
        Err(Error::InvalidAsset("the document is encrypted".to_string()))
    );
}

#[test]
fn path_based_writes_are_not_implemented() {
    let pdf_io = PdfIO::new("pdf");
    let reason = "PDF write functionality will be added in a future release".to_string();
    let path = Path::new("asset.pdf");
    assert_eq!(
        pdf_io.save_cai_store(path, &[1, 2]),
        Err(Error::NotImplemented(reason.clone()))
    );
    assert_eq!(
        pdf_io.get_object_locations(path),
        Err(Error::NotImplemented(reason.clone()))
    );
    assert_eq!(
        pdf_io.remove_cai_store(path),
        Err(Error::NotImplemented(reason))
    );
}

#[test]
fn supported_types_are_pdf_and_its_mime_type() {
    assert_eq!(
        PdfIO::new("pdf").supported_types(),
        &["pdf", "application/pdf"]
    );
}

#[test]
fn compose_manifest_is_the_identity() {
    let pdf_io = PdfIO::new("application/pdf");
    assert_eq!(
        pdf_io.compose_manifest(&[1, 2, 3], "pdf"),
        Ok(vec![1, 2, 3])
    );
    assert_eq!(pdf_io.compose_manifest(&[], "anything"), Ok(vec![]));
}
