use nail::fixtures::{unique_pdf, valid_pdf};
use nail::pdf::{
    content_hash_rel_path, feed, sanitize_attachment_filename, valid_content_hash, PdfGuardError,
    PdfStreamGuard,
};

fn minimal_pdf() -> Vec<u8> {
    let mut bytes = Vec::new();
    bytes.extend_from_slice(b"%PDF-1.7\n");
    for _ in 0..64 {
        bytes.push(b'x');
    }
    bytes.extend_from_slice(b"\n%%EOF");
    bytes
}

fn chunks(parts: &[&[u8]]) -> Vec<Vec<u8>> {
    parts.iter().map(|p| p.to_vec()).collect()
}

#[test]
fn valid_pdf_is_accepted() {
    let pdf = minimal_pdf();
    let mut guard = PdfStreamGuard::new(1_000_000);
    assert!(feed(&mut guard, &chunks(&[&pdf])).is_ok());
}

#[test]
fn pdf_smaller_than_minimum_is_rejected() {
    let mut guard = PdfStreamGuard::new(1_000_000);
    let error = feed(&mut guard, &chunks(&[b"%PDF-1.7"])).expect_err("too small");
    assert!(matches!(error, PdfGuardError::TooSmall { .. }));
}

#[test]
fn pdf_over_the_size_limit_is_rejected() {
    let mut guard = PdfStreamGuard::new(8);
    let error = feed(&mut guard, &chunks(&[b"%PDF-1.7\n%%EOF"])).expect_err("too large");
    assert!(matches!(error, PdfGuardError::TooLarge { .. }));
}

#[test]
fn pdf_without_header_is_rejected() {
    let mut guard = PdfStreamGuard::new(1_000_000);
    let bytes = b"not a pdf at all\n%%EOF";
    let error = feed(&mut guard, &chunks(&[bytes])).expect_err("bad header");
    assert!(matches!(error, PdfGuardError::BadHeader));
}

#[test]
fn pdf_with_unsupported_version_is_rejected() {
    let mut guard = PdfStreamGuard::new(1_000_000);
    let bytes = b"%PDF-3.0\npadding\n%%EOF";
    let error = feed(&mut guard, &chunks(&[bytes])).expect_err("bad version");
    assert!(matches!(error, PdfGuardError::BadVersion));
}

#[test]
fn pdf_without_footer_is_rejected() {
    let mut guard = PdfStreamGuard::new(1_000_000);
    let bytes = b"%PDF-1.7\npadding without a closing marker";
    let error = feed(&mut guard, &chunks(&[bytes])).expect_err("bad footer");
    assert!(matches!(error, PdfGuardError::BadFooter));
}

#[test]
fn pdf_footer_within_trailing_whitespace_is_accepted() {
    let pdf = minimal_pdf();
    let mut with_whitespace = pdf.clone();
    with_whitespace.extend_from_slice(b"\n\r\n");
    let mut guard = PdfStreamGuard::new(1_000_000);
    assert!(feed(&mut guard, &chunks(&[&with_whitespace])).is_ok());
}

#[test]
fn the_verdict_does_not_depend_on_how_the_content_is_cut() {
    let pdf = minimal_pdf();
    let whole = feed(&mut PdfStreamGuard::new(1_000_000), &chunks(&[&pdf]));
    let bytewise: Vec<Vec<u8>> = pdf.iter().map(|b| vec![*b]).collect();
    assert_eq!(feed(&mut PdfStreamGuard::new(1_000_000), &bytewise), whole);
    let mut long_tail = pdf.clone();
    long_tail.extend_from_slice(&[b' '; 2000]);
    let error = feed(&mut PdfStreamGuard::new(1_000_000), &chunks(&[&long_tail[..700], &long_tail[700..]]));
    assert_eq!(error, Err(PdfGuardError::BadFooter));
    let mut guard = PdfStreamGuard::new(20);
    assert_eq!(guard.update(b"%PDF-1.4\n"), Ok(()));
    assert_eq!(guard.update(b"0123456789abc"), Err(PdfGuardError::TooLarge { max: 20 }));
    assert_eq!(guard.update(b"%%EOF"), Ok(()));
    assert_eq!(guard.finish(), Ok(()));
    assert_eq!(
        feed(&mut PdfStreamGuard::new(100), &chunks(&[&b"%PDF-2.0"[..], &b"\n\n%%EO"[..]])),
        Err(PdfGuardError::BadFooter)
    );
    assert_eq!(
        feed(&mut PdfStreamGuard::new(100), &chunks(&[&b"%PDF-1."[..], &b"4"[..], &b"%%EOF"[..]])),
        Err(PdfGuardError::TooSmall { size: 13, min: 14 })
    );
}

#[test]
fn the_seeding_fixtures_pass_the_checks() {
    assert_eq!(valid_pdf(), b"%PDF-1.4\n%%EOF\n".to_vec());
    assert_eq!(unique_pdf("seed"), b"%PDF-1.4\nseed\n%%EOF\n".to_vec());
    for pdf in [valid_pdf(), unique_pdf("a"), unique_pdf("b")] {
        assert!(feed(&mut PdfStreamGuard::new(1_000), &chunks(&[&pdf])).is_ok());
    }
    assert_ne!(nail::hash::pdf(&unique_pdf("a")), nail::hash::pdf(&unique_pdf("b")));
}

#[test]
fn content_hash_rel_path_builds_the_two_plus_two_layout() {
    let hash = "abcdef1234567890abcdef1234567890";
    assert_eq!(
        content_hash_rel_path(hash).as_deref(),
        Some("ab/cd/abcdef1234567890abcdef1234567890.pdf")
    );
}

#[test]
fn content_hash_rel_path_rejects_an_invalid_hash() {
    assert_eq!(content_hash_rel_path("short"), None);
    assert_eq!(content_hash_rel_path("ABCDEF1234567890ABCDEF1234567890"), None);
    assert_eq!(content_hash_rel_path("zzzzzzzzzzzzzzzzzzzzzzzzzzzzzzzz"), None);
    assert!(valid_content_hash("abcdef1234567890abcdef1234567890"));
    assert!(!valid_content_hash("ABCDEF1234567890abcdef1234567890"));
}

#[test]
fn sanitize_attachment_filename_keeps_hash_derived_names() {
    assert_eq!(
        sanitize_attachment_filename("abcdef1234567890abcdef1234567890.pdf"),
        "abcdef1234567890abcdef1234567890.pdf"
    );
}

#[test]
fn sanitize_attachment_filename_strips_unsafe_characters() {
    assert_eq!(
        sanitize_attachment_filename("my file (1).pdf"),
        "myfile1.pdf"
    );
    assert_eq!(
        sanitize_attachment_filename("../../etc/passwd.pdf"),
        "....etcpasswd.pdf"
    );
}

#[test]
fn sanitize_attachment_filename_falls_back_when_empty() {
    assert_eq!(sanitize_attachment_filename(""), "article.pdf");
    assert_eq!(sanitize_attachment_filename("()/\\"), "article.pdf");
}

#[test]
fn pdf_digests_have_a_storage_path() {
    let digest = nail::hash::pdf(&valid_pdf());
    let path = content_hash_rel_path(&digest).unwrap();
    assert_eq!(path, format!("{}/{}/{}.pdf", &digest[..2], &digest[2..4], digest));
}

#[test]
fn feed_keeps_the_chunks_before_the_refused_one() {
    let pdf = minimal_pdf();
    let limit = pdf.len() as u64;
    let mut guard = PdfStreamGuard::new(limit);
    let parts = chunks(&[&pdf, b"x", b""]);
    assert!(matches!(
        feed(&mut guard, &parts),
        Err(PdfGuardError::TooLarge { .. })
    ));
    assert_eq!(guard.finish(), Ok(()));
    assert!(matches!(
        guard.update(b"y"),
        Err(PdfGuardError::TooLarge { .. })
    ));
}
