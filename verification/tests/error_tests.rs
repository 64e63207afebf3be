use bookmarks::error::{
    Error, ErrorResponse, ResponseBody, AUTHENTICATE_SCHEME, BAD_REQUEST, FORBIDDEN,
    INTERNAL_SERVER_ERROR, NOT_FOUND, UNAUTHORIZED, UNPROCESSABLE_ENTITY,
};
use bookmarks::field_errors::FieldErrors;

fn pairs(items: &[(&str, &str)]) -> Vec<(String, String)> {
    items.iter().map(|(k, v)| (k.to_string(), v.to_string())).collect()
}

fn entries(items: &[(&str, &[&str])]) -> Vec<(String, Vec<String>)> {
    items
        .iter()
        .map(|(k, v)| (k.to_string(), v.iter().map(|m| m.to_string()).collect()))
        .collect()
}

fn every_error() -> Vec<Error> {
    vec![
        Error::Unauthorized,
        Error::Forbidden,
        Error::NotFound,
        Error::unprocessable_entity(pairs(&[("email", "is invalid")])),
        Error::bad_request(pairs(&[("url", "is missing")])),
        Error::DatabaseError("relation does not exist".to_string()),
        Error::DatabasePool("timed out".to_string()),
        Error::constraint_violation("bookmark_url_key", "duplicate key"),
        Error::Anyhow("boom".to_string()),
        Error::WrongCredentials,
        Error::MissingCredentials,
        Error::InvalidToken,
        Error::Jwt("bad signature".to_string()),
        Error::argon2("bad hash".to_string()),
    ]
}

#[test]
fn field_errors_group_by_field_in_order() {
    let grouped = FieldErrors::collect(pairs(&[
        ("email", "is invalid"),
        ("password", "is too short"),
        ("email", "is taken"),
        ("password", "is too short"),
    ]));
    assert_eq!(
        grouped.to_entries(),
        entries(&[
            ("email", &["is invalid", "is taken"]),
            ("password", &["is too short", "is too short"]),
        ])
    );
    assert_eq!(FieldErrors::collect(vec![]).to_entries(), vec![]);
}

#[test]
fn constructors_fill_their_variant() {
    match Error::unprocessable_entity(pairs(&[("a", "1"), ("b", "2"), ("a", "3")])) {
        Error::UnprocessableEntity { errors } => {
            assert_eq!(errors.to_entries(), entries(&[("a", &["1", "3"]), ("b", &["2"])]));
        }
        other => panic!("unexpected {other:?}"),
    }
    match Error::bad_request(pairs(&[("a", "1")])) {
        Error::BadRequest { errors } => {
            assert_eq!(errors.to_entries(), entries(&[("a", &["1"])]));
        }
        other => panic!("unexpected {other:?}"),
    }
    match Error::constraint_violation("c", "m") {
        Error::ConstraintViolation { constraint, message } => {
            assert_eq!(constraint, "c");
            assert_eq!(message, "m");
        }
        other => panic!("unexpected {other:?}"),
    }
    match Error::argon2("details".to_string()) {
        Error::Argon2 { details } => assert_eq!(details, "details"),
        other => panic!("unexpected {other:?}"),
    }
}

#[test]
fn status_codes_follow_the_taxonomy() {
    let codes: Vec<u16> = every_error().iter().map(|e| e.status_code()).collect();
    assert_eq!(codes, vec![401, 403, 404, 422, 400, 500, 500, 400, 500, 401, 401, 401, 500, 500]);
    assert_eq!(
        (UNAUTHORIZED, FORBIDDEN, NOT_FOUND, BAD_REQUEST, UNPROCESSABLE_ENTITY, INTERNAL_SERVER_ERROR),
        (401, 403, 404, 400, 422, 500)
    );
}

#[test]
fn messages_are_category_words() {
    let words: Vec<String> = every_error().iter().map(|e| e.message()).collect();
    assert_eq!(
        words,
        vec![
            "authentication_required",
            "action_not_allowed",
            "request_path_not_found",
            "invalid_payload",
            "invalid_payload",
            "database_error",
            "database_error",
            "constraint_violation",
            "internal_server_error",
            "wrong_credentials",
            "missing_credentials",
            "invalid_token",
            "internal_error",
            "internal_error",
        ]
    );
}

#[test]
fn log_lines_only_for_internal_faults() {
    let lines: Vec<Option<String>> = every_error().iter().map(|e| e.log_line()).collect();
    let some = |s: &str| Some(s.to_string());
    assert_eq!(
        lines,
        vec![
            None,
            None,
            None,
            None,
            None,
            some("Database error: relation does not exist"),
            some("Database pool error: timed out"),
            None,
            some("Generic error: boom"),
            None,
            None,
            None,
            some("Token error: bad signature"),
            some("Password hash error: bad hash"),
        ]
    );
}

fn text_of(response: &ErrorResponse) -> String {
    match &response.body {
        ResponseBody::Text(text) => text.clone(),
        ResponseBody::Errors(errors) => panic!("unexpected structured body {errors:?}"),
    }
}

fn errors_of(response: &ErrorResponse) -> Vec<(String, Vec<String>)> {
    match &response.body {
        ResponseBody::Errors(errors) => errors.to_entries(),
        ResponseBody::Text(text) => panic!("unexpected text body {text:?}"),
    }
}

#[test]
fn unauthorized_asks_for_a_token() {
    let r = Error::Unauthorized.into_response();
    assert_eq!(r.status, 401);
    assert_eq!(r.www_authenticate, Some("Token".to_string()));
    assert_eq!(AUTHENTICATE_SCHEME, "Token");
    assert_eq!(text_of(&r), "authentication_required");
    assert_eq!(r.log, None);
}

#[test]
fn payload_errors_answer_with_messages_by_field() {
    let r = Error::unprocessable_entity(pairs(&[("url", "is not a URL"), ("url", "is too long")]))
        .into_response();
    assert_eq!(r.status, 422);
    assert_eq!(r.www_authenticate, None);
    assert_eq!(errors_of(&r), entries(&[("url", &["is not a URL", "is too long"])]));
    assert_eq!(r.log, None);
    let r = Error::bad_request(pairs(&[("tags", "must be a list")])).into_response();
    assert_eq!(r.status, 400);
    assert_eq!(errors_of(&r), entries(&[("tags", &["must be a list"])]));
}

#[test]
fn constraint_violation_answers_with_constraint_and_message() {
    let r = Error::constraint_violation("bookmark_url_key", "duplicate key").into_response();
    assert_eq!(r.status, 400);
    assert_eq!(r.www_authenticate, None);
    assert_eq!(errors_of(&r), entries(&[("bookmark_url_key", &["duplicate key"])]));
    assert_eq!(r.log, None);
}

#[test]
fn internal_faults_answer_with_a_word_and_log_the_detail() {
    let r = Error::DatabaseError("password authentication failed".to_string()).into_response();
    assert_eq!(r.status, 500);
    assert_eq!(text_of(&r), "database_error");
    assert_eq!(r.log, Some("Database error: password authentication failed".to_string()));
    assert_eq!(r.www_authenticate, None);
    let r = Error::DatabasePool("closed".to_string()).into_response();
    assert_eq!((r.status, text_of(&r)), (500, "database_error".to_string()));
    assert_eq!(r.log, Some("Database pool error: closed".to_string()));
    let r = Error::Anyhow("boom".to_string()).into_response();
    assert_eq!((r.status, text_of(&r)), (500, "internal_server_error".to_string()));
    assert_eq!(r.log, Some("Generic error: boom".to_string()));
    let r = Error::Jwt("expired".to_string()).into_response();
    assert_eq!((r.status, text_of(&r)), (500, "internal_error".to_string()));
    let r = Error::argon2("salt".to_string()).into_response();
    assert_eq!((r.status, text_of(&r)), (500, "internal_error".to_string()));
}

#[test]
fn other_failures_answer_with_status_and_word() {
    let cases = [
        (Error::Forbidden, 403, "action_not_allowed"),
        (Error::NotFound, 404, "request_path_not_found"),
        (Error::WrongCredentials, 401, "wrong_credentials"),
        (Error::MissingCredentials, 401, "missing_credentials"),
        (Error::InvalidToken, 401, "invalid_token"),
    ];
    for (error, status, word) in cases {
        let r = error.into_response();
        assert_eq!(r.status, status);
        assert_eq!(text_of(&r), word);
        assert_eq!(r.www_authenticate, None);
        assert_eq!(r.log, None);
    }
}
