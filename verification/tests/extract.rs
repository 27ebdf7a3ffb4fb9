use resumai::extract::{classify, is_accepted, media_kind, sniff_kind, ContentKind};

#[test]
fn pdf_signature_is_a_pdf() {
    assert_eq!(sniff_kind(&b"%PDF-1.5\n%\xe2\xe3\xcf\xd3\n1 0 obj".to_vec()), ContentKind::Pdf);
    assert_eq!(sniff_kind(&b"%PDF-".to_vec()), ContentKind::Pdf);
}

#[test]
fn image_signatures_are_images() {
    assert_eq!(sniff_kind(&b"\x89PNG\x0d\x0a\x1a\x0a\x00\x00\x00\x0dIHDR".to_vec()), ContentKind::Image);
    assert_eq!(sniff_kind(&b"\xff\xd8\xff\xe0\x00\x10JFIF".to_vec()), ContentKind::Image);
    assert_eq!(sniff_kind(&b"GIF89a\x01\x00\x01\x00".to_vec()), ContentKind::Image);
}

#[test]
fn other_signatures_are_other_content() {
    assert_eq!(sniff_kind(&b"PK\x03\x04\x14\x00".to_vec()), ContentKind::Other);
    assert_eq!(sniff_kind(&b"%!PS-Adobe-3.0".to_vec()), ContentKind::Other);
}

#[test]
fn content_without_a_signature_is_unknown() {
    assert_eq!(sniff_kind(&Vec::new()), ContentKind::Unknown);
    assert_eq!(sniff_kind(&b"plain words, no signature".to_vec()), ContentKind::Unknown);
    assert_eq!(sniff_kind(&b"%PDF".to_vec()), ContentKind::Unknown);
}

#[test]
fn the_declared_name_plays_no_part() {
    let named_pdf_but_png = b"\x89PNG\x0d\x0a\x1a\x0aresume.pdf".to_vec();
    assert_eq!(sniff_kind(&named_pdf_but_png), ContentKind::Image);
}

#[test]
fn essence_decides_the_kind() {
    assert_eq!(classify("application/pdf"), ContentKind::Pdf);
    assert_eq!(classify("image/png"), ContentKind::Image);
    assert_eq!(classify("image/"), ContentKind::Image);
    assert_eq!(classify("application/pdfx"), ContentKind::Other);
    assert_eq!(classify("application/pd"), ContentKind::Other);
    assert_eq!(classify("text/plain"), ContentKind::Other);
    assert_eq!(classify("image"), ContentKind::Other);
    assert_eq!(classify(""), ContentKind::Other);
}

#[test]
fn only_pdf_is_accepted() {
    assert!(is_accepted(ContentKind::Pdf));
    assert!(!is_accepted(ContentKind::Image));
    assert!(!is_accepted(ContentKind::Other));
    assert!(!is_accepted(ContentKind::Unknown));
}

#[test]
fn media_type_is_read_before_it_is_classified() {
    assert_eq!(media_kind("application/pdf"), ContentKind::Pdf);
    assert_eq!(media_kind("Application/PDF"), ContentKind::Pdf);
    assert_eq!(media_kind("application/pdf; version=1.7"), ContentKind::Pdf);
    assert_eq!(media_kind("IMAGE/PNG"), ContentKind::Image);
    assert_eq!(media_kind("image/svg+xml; charset=utf-8"), ContentKind::Image);
    assert_eq!(media_kind("text/plain; charset=utf-8"), ContentKind::Other);
}

#[test]
fn text_that_is_no_media_type_is_other_content() {
    assert_eq!(media_kind(""), ContentKind::Other);
    assert_eq!(media_kind("pdf"), ContentKind::Other);
    assert_eq!(media_kind("application pdf"), ContentKind::Other);
    assert_eq!(media_kind("/pdf"), ContentKind::Other);
}
