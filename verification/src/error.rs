//! The failures of the service and how each is reported over HTTP.

use vstd::prelude::*;
use vstd::string::StringExecFns;
use crate::field_errors::{grouped, FieldErrors};
use crate::text::Texts;

verus! {

/// Everything that can go wrong while serving a request.
///
/// Variants that stand for a fault of a collaborator (the database, its
/// connection pool, the token library, ...) carry the collaborator's own
/// description, which is logged and never sent to the caller.
#[derive(Debug, Clone, PartialEq, Eq)]
pub enum Error {
    Unauthorized,
    Forbidden,
    NotFound,
    UnprocessableEntity { errors: FieldErrors },
    BadRequest { errors: FieldErrors },
    DatabaseError(String),
    DatabasePool(String),
    ConstraintViolation { constraint: String, message: String },
    Anyhow(String),
    WrongCredentials,
    MissingCredentials,
    InvalidToken,
    Jwt(String),
    Argon2 { details: String },
}

/// Mathematical value of an [`Error`].
pub enum ErrorView {
    Unauthorized,
    Forbidden,
    NotFound,
    UnprocessableEntity { errors: Map<Seq<char>, Texts> },
    BadRequest { errors: Map<Seq<char>, Texts> },
    DatabaseError(Seq<char>),
    DatabasePool(Seq<char>),
    ConstraintViolation { constraint: Seq<char>, message: Seq<char> },
    Anyhow(Seq<char>),
    WrongCredentials,
    MissingCredentials,
    InvalidToken,
    Jwt(Seq<char>),
    Argon2 { details: Seq<char> },
}

impl View for Error {
    type V = ErrorView;

    open spec fn view(&self) -> ErrorView {
        match self {
            Error::Unauthorized => ErrorView::Unauthorized,
            Error::Forbidden => ErrorView::Forbidden,
            Error::NotFound => ErrorView::NotFound,
            Error::UnprocessableEntity { errors } => ErrorView::UnprocessableEntity {
                errors: errors@,
            },
            Error::BadRequest { errors } => ErrorView::BadRequest { errors: errors@ },
            Error::DatabaseError(detail) => ErrorView::DatabaseError(detail@),
            Error::DatabasePool(detail) => ErrorView::DatabasePool(detail@),
            Error::ConstraintViolation { constraint, message } => ErrorView::ConstraintViolation {
                constraint: constraint@,
                message: message@,
            },
            Error::Anyhow(detail) => ErrorView::Anyhow(detail@),
            Error::WrongCredentials => ErrorView::WrongCredentials,
            Error::MissingCredentials => ErrorView::MissingCredentials,
            Error::InvalidToken => ErrorView::InvalidToken,
            Error::Jwt(detail) => ErrorView::Jwt(detail@),
            Error::Argon2 { details } => ErrorView::Argon2 { details: details@ },
        }
    }
}

/// HTTP status of a request that lacks valid credentials.
pub const UNAUTHORIZED: u16 = 401;

/// HTTP status of a request for an action the caller may not take.
pub const FORBIDDEN: u16 = 403;

/// HTTP status of a lookup that found nothing.
pub const NOT_FOUND: u16 = 404;

/// HTTP status of a malformed payload or a violated constraint.
pub const BAD_REQUEST: u16 = 400;

/// HTTP status of a well-formed payload that fails validation.
pub const UNPROCESSABLE_ENTITY: u16 = 422;

/// HTTP status of every fault that is not the caller's.
pub const INTERNAL_SERVER_ERROR: u16 = 500;

/// Value of the `WWW-Authenticate` header sent with a demand to sign in.
pub const AUTHENTICATE_SCHEME: &'static str = "Token";

/// What is sent to the caller as the body of a failure.
#[derive(Debug, Clone, PartialEq, Eq)]
pub enum ResponseBody {
    /// A category word, as plain text.
    Text(String),
    /// Messages by field, sent as `{"errors": {field: [messages]}}`.
    Errors(FieldErrors),
}

/// Mathematical value of a [`ResponseBody`].
pub enum ResponseBodyView {
    Text(Seq<char>),
    Errors(Map<Seq<char>, Texts>),
}

impl View for ResponseBody {
    type V = ResponseBodyView;

    open spec fn view(&self) -> ResponseBodyView {
        match self {
            ResponseBody::Text(text) => ResponseBodyView::Text(text@),
            ResponseBody::Errors(errors) => ResponseBodyView::Errors(errors@),
        }
    }
}

/// The HTTP answer to a failed request, and what to log about it.
#[derive(Debug, Clone, PartialEq, Eq)]
pub struct ErrorResponse {
    pub status: u16,
    /// Value of the `WWW-Authenticate` header, where one is sent.
    pub www_authenticate: Option<String>,
    pub body: ResponseBody,
    /// Line for the server's log; it never reaches the caller.
    pub log: Option<String>,
}

/// Mathematical value of an [`ErrorResponse`].
pub struct ErrorResponseView {
    pub status: u16,
    pub www_authenticate: Option<Seq<char>>,
    pub body: ResponseBodyView,
    pub log: Option<Seq<char>>,
}

impl View for ErrorResponse {
    type V = ErrorResponseView;

    open spec fn view(&self) -> ErrorResponseView {
        ErrorResponseView {
            status: self.status,
            www_authenticate: match self.www_authenticate {
                Some(value) => Some(value@),
                None => None,
            },
            body: self.body@,
            log: match self.log {
                Some(line) => Some(line@),
                None => None,
            },
        }
    }
}

impl ErrorView {
    /// The HTTP status under which the failure is reported: 401 for every
    /// failure to authenticate, 403 for a forbidden action, 404 for a failed
    /// lookup, 422 and 400 for rejected payloads, 400 for a violated
    /// constraint, and 500 for every fault of a collaborator.
    pub open spec fn status(self) -> u16 {
        match self {
            ErrorView::Unauthorized => UNAUTHORIZED,
            ErrorView::WrongCredentials => UNAUTHORIZED,
            ErrorView::MissingCredentials => UNAUTHORIZED,
            ErrorView::InvalidToken => UNAUTHORIZED,
            ErrorView::Forbidden => FORBIDDEN,
            ErrorView::NotFound => NOT_FOUND,
            ErrorView::UnprocessableEntity { .. } => UNPROCESSABLE_ENTITY,
            ErrorView::BadRequest { .. } => BAD_REQUEST,
            ErrorView::ConstraintViolation { .. } => BAD_REQUEST,
            ErrorView::DatabaseError(_) => INTERNAL_SERVER_ERROR,
            ErrorView::DatabasePool(_) => INTERNAL_SERVER_ERROR,
            ErrorView::Anyhow(_) => INTERNAL_SERVER_ERROR,
            ErrorView::Jwt(_) => INTERNAL_SERVER_ERROR,
            ErrorView::Argon2 { .. } => INTERNAL_SERVER_ERROR,
        }
    }

    /// The category word of the failure. It says nothing of the internals.
    pub open spec fn message(self) -> Seq<char> {
        match self {
            ErrorView::Unauthorized => "authentication_required"@,
            ErrorView::Forbidden => "action_not_allowed"@,
            ErrorView::NotFound => "request_path_not_found"@,
            ErrorView::UnprocessableEntity { .. } => "invalid_payload"@,
            ErrorView::BadRequest { .. } => "invalid_payload"@,
            ErrorView::DatabaseError(_) => "database_error"@,
            ErrorView::DatabasePool(_) => "database_error"@,
            ErrorView::ConstraintViolation { .. } => "constraint_violation"@,
            ErrorView::Anyhow(_) => "internal_server_error"@,
            ErrorView::WrongCredentials => "wrong_credentials"@,
            ErrorView::MissingCredentials => "missing_credentials"@,
            ErrorView::InvalidToken => "invalid_token"@,
            ErrorView::Jwt(_) => "internal_error"@,
            ErrorView::Argon2 { .. } => "internal_error"@,
        }
    }

    /// The line written to the server's log: one for each fault of a
    /// collaborator, none for the others.
    pub open spec fn log_line(self) -> Option<Seq<char>> {
        match self {
            ErrorView::DatabaseError(detail) => Some("Database error: "@ + detail),
            ErrorView::DatabasePool(detail) => Some("Database pool error: "@ + detail),
            ErrorView::Anyhow(detail) => Some("Generic error: "@ + detail),
            ErrorView::Jwt(detail) => Some("Token error: "@ + detail),
            ErrorView::Argon2 { details } => Some("Password hash error: "@ + details),
            _ => None,
        }
    }

    /// The body sent to the caller: the messages by field for a rejected
    /// payload, the constraint with its message for a violated constraint,
    /// and the category word otherwise.
    pub open spec fn body(self) -> ResponseBodyView {
        match self {
            ErrorView::UnprocessableEntity { errors } => ResponseBodyView::Errors(errors),
            ErrorView::BadRequest { errors } => ResponseBodyView::Errors(errors),
            ErrorView::ConstraintViolation { constraint, message } => ResponseBodyView::Errors(
                grouped(seq![(constraint, message)]),
            ),
            _ => ResponseBodyView::Text(self.message()),
        }
    }

    /// The whole answer to the failed request.
    pub open spec fn response(self) -> ErrorResponseView {
        ErrorResponseView {
            status: self.status(),
            www_authenticate: if self is Unauthorized {
                Some(AUTHENTICATE_SCHEME@)
            } else {
                None
            },
            body: self.body(),
            log: self.log_line(),
        }
    }
}

impl Error {
    /// A payload that is well-formed but fails validation, with the
    /// messages of `errors` grouped by field.
    pub fn unprocessable_entity(errors: Vec<(String, String)>) -> (e: Error)
        ensures
            e@ == (ErrorView::UnprocessableEntity { errors: grouped(errors.deep_view()) }),
    {
        Error::UnprocessableEntity { errors: FieldErrors::collect(errors) }
    }

    /// A malformed payload, with the messages of `errors` grouped by field.
    pub fn bad_request(errors: Vec<(String, String)>) -> (e: Error)
        ensures
            e@ == (ErrorView::BadRequest { errors: grouped(errors.deep_view()) }),
    {
        Error::BadRequest { errors: FieldErrors::collect(errors) }
    }

    /// A constraint of the store that a write would have violated.
    pub fn constraint_violation(constraint: &str, message: &str) -> (e: Error)
        ensures
            e@ == (ErrorView::ConstraintViolation { constraint: constraint@, message: message@ }),
    {
        Error::ConstraintViolation {
            constraint: constraint.to_owned(),
            message: message.to_owned(),
        }
    }

    /// A fault of the password hasher.
    pub fn argon2(details: String) -> (e: Error)
        ensures
            e@ == (ErrorView::Argon2 { details: details@ }),
    {
        Error::Argon2 { details }
    }

    /// The HTTP status under which the failure is reported.
    pub fn status_code(&self) -> (r: u16)
        ensures
            r == self@.status(),
    {
        match self {
            Error::Unauthorized => UNAUTHORIZED,
            Error::WrongCredentials => UNAUTHORIZED,
            Error::MissingCredentials => UNAUTHORIZED,
            Error::InvalidToken => UNAUTHORIZED,
            Error::Forbidden => FORBIDDEN,
            Error::NotFound => NOT_FOUND,
            Error::UnprocessableEntity { .. } => UNPROCESSABLE_ENTITY,
            Error::BadRequest { .. } => BAD_REQUEST,
            Error::ConstraintViolation { .. } => BAD_REQUEST,
            Error::DatabaseError(_) => INTERNAL_SERVER_ERROR,
            Error::DatabasePool(_) => INTERNAL_SERVER_ERROR,
            Error::Anyhow(_) => INTERNAL_SERVER_ERROR,
            Error::Jwt(_) => INTERNAL_SERVER_ERROR,
            Error::Argon2 { .. } => INTERNAL_SERVER_ERROR,
        }
    }

    /// The category word of the failure.
    pub fn message(&self) -> (r: String)
        ensures
            r@ == self@.message(),
    {
        match self {
            Error::Unauthorized => "authentication_required".to_owned(),
            Error::Forbidden => "action_not_allowed".to_owned(),
            Error::NotFound => "request_path_not_found".to_owned(),
            Error::UnprocessableEntity { .. } => "invalid_payload".to_owned(),
            Error::BadRequest { .. } => "invalid_payload".to_owned(),
            Error::DatabaseError(_) => "database_error".to_owned(),
            Error::DatabasePool(_) => "database_error".to_owned(),
            Error::ConstraintViolation { .. } => "constraint_violation".to_owned(),
            Error::Anyhow(_) => "internal_server_error".to_owned(),
            Error::WrongCredentials => "wrong_credentials".to_owned(),
            Error::MissingCredentials => "missing_credentials".to_owned(),
            Error::InvalidToken => "invalid_token".to_owned(),
            Error::Jwt(_) => "internal_error".to_owned(),
            Error::Argon2 { .. } => "internal_error".to_owned(),
        }
    }

    /// The line to write to the server's log, where the failure calls for one.
    pub fn log_line(&self) -> (r: Option<String>)
        ensures
            match r {
                Some(line) => self@.log_line() == Some(line@),
                None => self@.log_line() is None,
            },
    {
        match self {
            Error::DatabaseError(detail) => Some(prefixed("Database error: ", detail)),
            Error::DatabasePool(detail) => Some(prefixed("Database pool error: ", detail)),
            Error::Anyhow(detail) => Some(prefixed("Generic error: ", detail)),
            Error::Jwt(detail) => Some(prefixed("Token error: ", detail)),
            Error::Argon2 { details } => Some(prefixed("Password hash error: ", details)),
            _ => None,
        }
    }

    /// Turns the failure into the HTTP answer for the caller.
    ///
    /// A rejected payload is answered with its messages by field, a violated
    /// constraint with the constraint's name and message, anything else with
    /// the category word. Only the demand to sign in carries the
    /// `WWW-Authenticate` header. Faults of collaborators come with a line
    /// for the log, and their details stay out of the answer.
    pub fn into_response(self) -> (r: ErrorResponse)
        ensures
            r@ == self@.response(),
    {
        let status = self.status_code();
        let log = self.log_line();
        let www_authenticate = match &self {
            Error::Unauthorized => Some(AUTHENTICATE_SCHEME.to_owned()),
            _ => None,
        };
        let text = self.message();
        let body = match self {
            Error::UnprocessableEntity { errors } => ResponseBody::Errors(errors),
            Error::BadRequest { errors } => ResponseBody::Errors(errors),
            Error::ConstraintViolation { constraint, message } => {
                let mut pairs: Vec<(String, String)> = Vec::new();
                pairs.push((constraint, message));
                assert(pairs.deep_view() =~= seq![(constraint@, message@)]);
                ResponseBody::Errors(FieldErrors::collect(pairs))
            },
            _ => ResponseBody::Text(text),
        };
        ErrorResponse { status, www_authenticate, body, log }
    }
}

/// `prefix` followed by `detail`.
fn prefixed(prefix: &str, detail: &String) -> (r: String)
    ensures
        r@ == prefix@ + detail@,
{
    let mut line = prefix.to_owned();
    line.append(detail.as_str());
    line
}

} // verus!
