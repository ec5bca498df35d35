use nail::fixtures::valid_pdf;
use nail::multipart::{article_fields, multipart_body, multipart_content_type};

fn expected(boundary: &str, fields: &[(&str, &str)], field: &str, name: &str, bytes: &[u8]) -> Vec<u8> {
    let mut body = Vec::new();
    for (n, v) in fields {
        body.extend_from_slice(
            format!("--{boundary}\r\nContent-Disposition: form-data; name=\"{n}\"\r\n\r\n{v}\r\n")
                .as_bytes(),
        );
    }
    body.extend_from_slice(
        format!(
            "--{boundary}\r\nContent-Disposition: form-data; name=\"{field}\"; filename=\"{name}\"\r\nContent-Type: application/pdf\r\n\r\n"
        )
        .as_bytes(),
    );
    body.extend_from_slice(bytes);
    body.extend_from_slice(format!("\r\n--{boundary}--\r\n").as_bytes());
    body
}

#[test]
fn multipart_body_lays_out_fields_then_the_file() {
    let fields = article_fields("Größe", "#rust#web");
    let pdf = valid_pdf();
    let body = multipart_body("nail-b", &fields, "pdf", "a.pdf", &pdf);
    assert_eq!(body, expected("nail-b", &fields, "pdf", "a.pdf", &pdf));
    let text = String::from_utf8(body).unwrap();
    assert!(text.starts_with(
        "--nail-b\r\nContent-Disposition: form-data; name=\"title\"\r\n\r\nGröße\r\n"
    ));
    assert!(text.ends_with("%%EOF\n\r\n--nail-b--\r\n"));
}

#[test]
fn multipart_body_without_fields_holds_only_the_file() {
    let body = multipart_body("b", &[], "file", "x.pdf", b"");
    assert_eq!(
        body,
        b"--b\r\nContent-Disposition: form-data; name=\"file\"; filename=\"x.pdf\"\r\nContent-Type: application/pdf\r\n\r\n\r\n--b--\r\n".to_vec()
    );
}

#[test]
fn article_fields_fix_summary_version_and_note() {
    assert_eq!(
        article_fields("T", "#a"),
        vec![
            ("title", "T"),
            ("summary", "summary"),
            ("tags", "#a"),
            ("version", "1.0.0"),
            ("note", "note"),
        ]
    );
}

#[test]
fn content_type_names_the_boundary() {
    assert_eq!(
        multipart_content_type("nail-test-boundary-1"),
        "multipart/form-data; boundary=nail-test-boundary-1"
    );
}
