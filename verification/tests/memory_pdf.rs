use c2pa_pdf::error::PdfError;
use c2pa_pdf::memory_pdf::MemoryPdf;
use c2pa_pdf::pdf::C2paPdf;

fn sample() -> MemoryPdf {
    MemoryPdf {
        content: vec![1, 2, 3],
        xmp: None,
        manifests: vec![vec![10, 20]],
        encrypted: false,
    }
}

fn not_a_document() -> Result<MemoryPdf, PdfError> {
    Err(PdfError {
        message: "the bytes are not a document".to_string(),
    })
}

#[test]
fn new_document_is_empty() {
    assert_eq!(
        MemoryPdf::new(vec![4, 5]),
        MemoryPdf {
            content: vec![4, 5],
            xmp: None,
            manifests: vec![],
            encrypted: false,
        }
    );
}

#[test]
fn serialized_form_byte_for_byte() {
    let expected: Vec<u8> = vec![
        0x4d, 0x50, 0x44, 0x46, // magic
        0, 0, // not encrypted, no metadata
        3, 0, 0, 0, 0, 0, 0, 0, 1, 2, 3, // body
        0, 0, 0, 0, 0, 0, 0, 0, // metadata
        1, 0, 0, 0, 0, 0, 0, 0, // one manifest
        2, 0, 0, 0, 0, 0, 0, 0, 10, 20,
    ];
    assert_eq!(sample().serialize(), expected);
    assert_eq!(sample().save_to(), expected);
    assert_eq!(sample().serialized_len(), Some(43));
}

#[test]
fn serialized_form_with_metadata_and_encryption() {
    let doc = MemoryPdf {
        content: vec![],
        xmp: Some("\u{e9}".to_string()),
        manifests: vec![],
        encrypted: true,
    };
    let expected: Vec<u8> = vec![
        0x4d, 0x50, 0x44, 0x46, 1, 1, // header
        0, 0, 0, 0, 0, 0, 0, 0, // body
        2, 0, 0, 0, 0, 0, 0, 0, 0xc3, 0xa9, // metadata
        0, 0, 0, 0, 0, 0, 0, 0, // no manifest
    ];
    assert_eq!(doc.serialize(), expected);
    assert_eq!(doc.serialized_len(), Some(32));
    assert_eq!(MemoryPdf::parse(&expected), Ok(doc));
}

#[test]
fn parse_gives_the_document_back() {
    let docs = vec![
        sample(),
        MemoryPdf::new(vec![]),
        MemoryPdf {
            content: vec![0; 300],
            xmp: Some("<x:xmpmeta>\u{1F600}</x:xmpmeta>".to_string()),
            manifests: vec![vec![], vec![1], vec![2; 70000]],
            encrypted: false,
        },
        MemoryPdf {
            content: vec![9],
            xmp: Some(String::new()),
            manifests: vec![vec![5, 5]],
            encrypted: true,
        },
    ];
    for doc in docs {
        assert_eq!(MemoryPdf::from_bytes(&doc.save_to()), Ok(doc));
    }
}

#[test]
fn parse_refuses_what_is_no_document() {
    let good = sample().serialize();

    assert_eq!(MemoryPdf::parse(&[]), not_a_document());
    assert_eq!(MemoryPdf::parse(&good[..5]), not_a_document());

    let mut bad_magic = good.clone();
    bad_magic[0] = 0x25;
    assert_eq!(MemoryPdf::parse(&bad_magic), not_a_document());

    let mut bad_flag = good.clone();
    bad_flag[4] = 2;
    assert_eq!(MemoryPdf::parse(&bad_flag), not_a_document());

    let mut truncated = good.clone();
    truncated.pop();
    assert_eq!(MemoryPdf::parse(&truncated), not_a_document());

    let mut trailing = good.clone();
    trailing.push(0);
    assert_eq!(MemoryPdf::parse(&trailing), not_a_document());

    let mut too_many = good.clone();
    too_many[25] = 2;
    assert_eq!(MemoryPdf::parse(&too_many), not_a_document());

    let mut huge_length = good.clone();
    huge_length[13] = 0xff;
    assert_eq!(MemoryPdf::parse(&huge_length), not_a_document());
}

#[test]
fn parse_refuses_metadata_that_is_not_text() {
    let bytes: Vec<u8> = vec![
        0x4d, 0x50, 0x44, 0x46, 0, 1, // header
        0, 0, 0, 0, 0, 0, 0, 0, // body
        1, 0, 0, 0, 0, 0, 0, 0, 0xff, // metadata
        0, 0, 0, 0, 0, 0, 0, 0, // no manifest
    ];
    assert_eq!(MemoryPdf::parse(&bytes), not_a_document());
}

#[test]
fn parse_refuses_metadata_bytes_without_the_metadata_flag() {
    let bytes: Vec<u8> = vec![
        0x4d, 0x50, 0x44, 0x46, 0, 0, // header
        0, 0, 0, 0, 0, 0, 0, 0, // body
        1, 0, 0, 0, 0, 0, 0, 0, 0x61, // metadata
        0, 0, 0, 0, 0, 0, 0, 0, // no manifest
    ];
    assert_eq!(MemoryPdf::parse(&bytes), not_a_document());
    let mut flagged = bytes.clone();
    flagged[5] = 1;
    assert_eq!(
        MemoryPdf::parse(&flagged).unwrap().read_xmp(),
        Some("a".to_string())
    );
}

#[test]
fn manifests_are_listed_with_their_offsets() {
    let doc = MemoryPdf {
        content: vec![1, 2, 3],
        xmp: None,
        manifests: vec![vec![10, 20], vec![30]],
        encrypted: false,
    };
    assert_eq!(
        doc.read_manifest_bytes(),
        Ok(Some(vec![(vec![10, 20], 41), (vec![30], 51)]))
    );
    let bytes = doc.save_to();
    assert_eq!(&bytes[41..43], &[10, 20]);
    assert_eq!(&bytes[51..52], &[30]);
    assert_eq!(MemoryPdf::new(vec![1]).list_manifests(), Ok(None));
}

#[test]
fn an_encrypted_document_keeps_its_manifests_to_itself() {
    let mut doc = sample();
    doc.encrypted = true;
    let failure = PdfError {
        message: "the document is encrypted".to_string(),
    };
    assert_eq!(doc.read_manifest_bytes(), Err(failure.clone()));
    assert_eq!(
        doc.write_manifest_as_embedded_file(vec![1]),
        Err(failure.clone())
    );
    assert_eq!(doc.remove_manifest_bytes(), Err(failure));
    assert_eq!(doc.manifests, vec![vec![10, 20]]);
}

#[test]
fn manifests_are_attached_and_detached() {
    let mut doc = MemoryPdf::new(vec![1]);
    assert_eq!(doc.write_manifest_as_embedded_file(vec![7, 8]), Ok(()));
    assert_eq!(doc.read_manifest_bytes(), Ok(Some(vec![(vec![7, 8], 39)])));
    assert_eq!(doc.write_manifest_as_embedded_file(vec![9]), Ok(()));
    assert_eq!(doc.manifests, vec![vec![7, 8], vec![9]]);
    assert_eq!(doc.remove_manifest_bytes(), Ok(()));
    assert_eq!(doc.read_manifest_bytes(), Ok(None));
    assert_eq!(doc.remove_manifest_bytes(), Ok(()));
    assert_eq!(doc, MemoryPdf::new(vec![1]));
}

#[test]
fn metadata_is_read_as_it_was_set() {
    let mut doc = sample();
    assert_eq!(doc.read_xmp(), None);
    doc.xmp = Some("xmp".to_string());
    assert_eq!(doc.read_xmp(), Some("xmp".to_string()));
}
