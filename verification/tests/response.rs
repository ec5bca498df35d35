use nail::response::{ErrorResponse, OkResponse, PowResponse};

#[test]
fn display_shapes_are_compact() {
    assert_eq!(OkResponse::ok().render(), "{ok: true}");
    assert_eq!(
        ErrorResponse {
            ok: false,
            reason: "boom".to_string(),
        }
        .render(),
        "{ok: false, reason: boom}"
    );
    assert_eq!(
        PowResponse {
            ok: false,
            email_subject: None,
        }
        .render(),
        "{ok: false}"
    );
}

#[test]
fn rendering_keeps_subjects_and_hides_session_tokens() {
    assert_eq!(
        PowResponse { ok: true, email_subject: Some("subject-1".to_string()) }.render(),
        "{ok: true, email_subject: subject-1}"
    );
    let with_session = OkResponse {
        ok: true,
        session_token: Some("0196f71a-4c1c-7f00-8000-000000000001".to_string()),
    };
    assert_eq!(with_session.render(), "{ok: true}");
}
