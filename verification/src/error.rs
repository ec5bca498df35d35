//! The errors that the service's operations answer with, and how the
//! failures of the storage layer map onto them.

use vstd::prelude::*;
use vstd::std_specs::convert::FromSpecImpl;
use crate::chars::{chars_of, owned, string_of};
use crate::fmt::push_all;

verus! {

/// The class of a failure, which decides the HTTP status.
#[derive(Clone, Copy, Debug, PartialEq, Eq, Structural)]
pub enum ErrorKind {
    BadRequest,
    Unauthorized,
    Forbidden,
    NotFound,
    Internal,
}

/// A failed operation: its class and the reason given.
#[derive(Clone, Debug, PartialEq, Eq)]
pub enum LogicError {
    BadRequest(String),
    Unauthorized(String),
    Forbidden(String),
    NotFound(String),
    Internal(String),
}

/// The HTTP status of each class.
pub open spec fn status_of(kind: ErrorKind) -> u16 {
    match kind {
        ErrorKind::BadRequest => 400,
        ErrorKind::Unauthorized => 401,
        ErrorKind::Forbidden => 403,
        ErrorKind::NotFound => 404,
        ErrorKind::Internal => 500,
    }
}

/// What clients are told of an internal failure.
pub open spec fn masked_reason() -> Seq<char> {
    "internal server error"@
}

impl LogicError {
    /// The class of the failure.
    pub open spec fn kind(&self) -> ErrorKind {
        match self {
            LogicError::BadRequest(_) => ErrorKind::BadRequest,
            LogicError::Unauthorized(_) => ErrorKind::Unauthorized,
            LogicError::Forbidden(_) => ErrorKind::Forbidden,
            LogicError::NotFound(_) => ErrorKind::NotFound,
            LogicError::Internal(_) => ErrorKind::Internal,
        }
    }

    /// The reason given.
    pub open spec fn reason(&self) -> Seq<char> {
        match self {
            LogicError::BadRequest(m) => m@,
            LogicError::Unauthorized(m) => m@,
            LogicError::Forbidden(m) => m@,
            LogicError::NotFound(m) => m@,
            LogicError::Internal(m) => m@,
        }
    }

    /// Whether the failure has this class and reason.
    pub open spec fn is(&self, kind: ErrorKind, reason: Seq<char>) -> bool {
        self.kind() == kind && self.reason() == reason
    }

    /// A rejected request.
    pub fn bad_request(message: &str) -> (e: Self)
        ensures
            e.is(ErrorKind::BadRequest, message@),
    {
        LogicError::BadRequest(owned(message))
    }

    /// A request without a valid session.
    pub fn unauthorized(message: &str) -> (e: Self)
        ensures
            e.is(ErrorKind::Unauthorized, message@),
    {
        LogicError::Unauthorized(owned(message))
    }

    /// A request that the policy denies.
    pub fn forbidden(message: &str) -> (e: Self)
        ensures
            e.is(ErrorKind::Forbidden, message@),
    {
        LogicError::Forbidden(owned(message))
    }

    /// A request for something that does not exist.
    pub fn not_found(message: &str) -> (e: Self)
        ensures
            e.is(ErrorKind::NotFound, message@),
    {
        LogicError::NotFound(owned(message))
    }

    /// A failure of the service itself.
    pub fn internal(message: &str) -> (e: Self)
        ensures
            e.is(ErrorKind::Internal, message@),
    {
        LogicError::Internal(owned(message))
    }

    /// The class of the failure.
    pub fn error_kind(&self) -> (k: ErrorKind)
        ensures
            k == self.kind(),
    {
        match self {
            LogicError::BadRequest(_) => ErrorKind::BadRequest,
            LogicError::Unauthorized(_) => ErrorKind::Unauthorized,
            LogicError::Forbidden(_) => ErrorKind::Forbidden,
            LogicError::NotFound(_) => ErrorKind::NotFound,
            LogicError::Internal(_) => ErrorKind::Internal,
        }
    }

    /// The reason given (also what the error displays as).
    pub fn message(&self) -> (m: String)
        ensures
            m@ == self.reason(),
    {
        match self {
            LogicError::BadRequest(m) => m.clone(),
            LogicError::Unauthorized(m) => m.clone(),
            LogicError::Forbidden(m) => m.clone(),
            LogicError::NotFound(m) => m.clone(),
            LogicError::Internal(m) => m.clone(),
        }
    }

    /// The HTTP status of the failure.
    pub fn status(&self) -> (s: u16)
        ensures
            s == status_of(self.kind()),
    {
        match self {
            LogicError::BadRequest(_) => 400,
            LogicError::Unauthorized(_) => 401,
            LogicError::Forbidden(_) => 403,
            LogicError::NotFound(_) => 404,
            LogicError::Internal(_) => 500,
        }
    }

    /// The status and the message that the client sees: the reason, except
    /// that internal failures are masked.
    pub fn into_pair(self) -> (r: (u16, String))
        ensures
            r.0 == status_of(self.kind()),
            r.1@ == (if self.kind() == ErrorKind::Internal {
                masked_reason()
            } else {
                self.reason()
            }),
    {
        let status = self.status();
        match self {
            LogicError::Internal(_) => (status, owned("internal server error")),
            LogicError::BadRequest(m) => (status, m),
            LogicError::Unauthorized(m) => (status, m),
            LogicError::Forbidden(m) => (status, m),
            LogicError::NotFound(m) => (status, m),
        }
    }
}

/// An internal failure carrying `prefix` followed by `cause`.
fn internal_with_cause(prefix: &str, cause: &str) -> (e: LogicError)
    ensures
        e.is(ErrorKind::Internal, prefix@ + cause@),
{
    let mut v = chars_of(prefix);
    let c = chars_of(cause);
    push_all(&mut v, c.as_slice());
    LogicError::Internal(string_of(v.as_slice()))
}

/// A failed storage query, as an internal failure naming its cause.
pub fn database_error(cause: &str) -> (e: LogicError)
    ensures
        e.is(ErrorKind::Internal, "database query failed: "@ + cause@),
{
    internal_with_cause("database query failed: ", cause)
}

/// Failures of assembling an authorization request.
#[derive(Clone, Debug, PartialEq, Eq)]
pub enum AssemblyError {
    ResourceNotFound,
    Internal(String),
}

impl From<AssemblyError> for LogicError {
    /// A missing resource is not found; anything else is internal.
    fn from(error: AssemblyError) -> (e: Self)
        ensures
            error matches AssemblyError::ResourceNotFound ==> e.is(
                ErrorKind::NotFound,
                "resource not found"@,
            ),
            error matches AssemblyError::Internal(m) ==> e.is(ErrorKind::Internal, m@),
    {
        match error {
            AssemblyError::ResourceNotFound => LogicError::not_found("resource not found"),
            AssemblyError::Internal(m) => LogicError::Internal(m),
        }
    }
}

impl FromSpecImpl<AssemblyError> for LogicError {
    open spec fn obeys_from_spec() -> bool {
        false
    }

    open spec fn from_spec(v: AssemblyError) -> LogicError {
        vstd::pervasive::arbitrary()
    }
}

/// Failures of storing a new article. `Db` carries the storage layer's description of the cause.
#[derive(Clone, Debug, PartialEq, Eq)]
pub enum CreateArticleError {
    AuthorMissing,
    TitleTaken,
    ContentHashTaken,
    Db(String),
}

impl From<CreateArticleError> for LogicError {
    fn from(error: CreateArticleError) -> (e: Self)
        ensures
            error matches CreateArticleError::AuthorMissing ==> e.is(ErrorKind::Internal, "author not found"@),
            error matches CreateArticleError::TitleTaken ==> e.is(ErrorKind::BadRequest, "title already exists"@),
            error matches CreateArticleError::ContentHashTaken ==> e.is(ErrorKind::BadRequest, "identical PDF already exists"@),
            error matches CreateArticleError::Db(cause) ==> e.is(ErrorKind::Internal, "database query failed: "@ + cause@),
    {
        match error {
            CreateArticleError::AuthorMissing => LogicError::internal("author not found"),
            CreateArticleError::TitleTaken => LogicError::bad_request("title already exists"),
            CreateArticleError::ContentHashTaken => LogicError::bad_request("identical PDF already exists"),
            CreateArticleError::Db(cause) => internal_with_cause("database query failed: ", cause.as_str()),
        }
    }
}

impl FromSpecImpl<CreateArticleError> for LogicError {
    open spec fn obeys_from_spec() -> bool {
        false
    }

    open spec fn from_spec(v: CreateArticleError) -> LogicError {
        vstd::pervasive::arbitrary()
    }
}

/// Failures of updating an article. `Db` carries the storage layer's description of the cause.
#[derive(Clone, Debug, PartialEq, Eq)]
pub enum UpdateArticleError {
    Missing,
    TitleTaken,
    Db(String),
}

impl From<UpdateArticleError> for LogicError {
    fn from(error: UpdateArticleError) -> (e: Self)
        ensures
            error matches UpdateArticleError::Missing ==> e.is(ErrorKind::NotFound, "article not found"@),
            error matches UpdateArticleError::TitleTaken ==> e.is(ErrorKind::BadRequest, "title already exists"@),
            error matches UpdateArticleError::Db(cause) ==> e.is(ErrorKind::Internal, "database query failed: "@ + cause@),
    {
        match error {
            UpdateArticleError::Missing => LogicError::not_found("article not found"),
            UpdateArticleError::TitleTaken => LogicError::bad_request("title already exists"),
            UpdateArticleError::Db(cause) => internal_with_cause("database query failed: ", cause.as_str()),
        }
    }
}

impl FromSpecImpl<UpdateArticleError> for LogicError {
    open spec fn obeys_from_spec() -> bool {
        false
    }

    open spec fn from_spec(v: UpdateArticleError) -> LogicError {
        vstd::pervasive::arbitrary()
    }
}

/// Failures of storing a comment or reply. `Db` carries the storage layer's description of the cause.
#[derive(Clone, Debug, PartialEq, Eq)]
pub enum CreateCommentError {
    TargetNotFound,
    CommentIdExists,
    CommentTreeTooDeep,
    Db(String),
}

impl From<CreateCommentError> for LogicError {
    fn from(error: CreateCommentError) -> (e: Self)
        ensures
            error matches CreateCommentError::TargetNotFound ==> e.is(ErrorKind::NotFound, "comment target not found (the version may have been removed)"@),
            error matches CreateCommentError::CommentIdExists ==> e.is(ErrorKind::Internal, "comment id already exists"@),
            error matches CreateCommentError::CommentTreeTooDeep ==> e.is(ErrorKind::BadRequest, "comment thread too deep (max 64 reply layers)"@),
            error matches CreateCommentError::Db(cause) ==> e.is(ErrorKind::Internal, "database query failed: "@ + cause@),
    {
        match error {
            CreateCommentError::TargetNotFound => LogicError::not_found("comment target not found (the version may have been removed)"),
            CreateCommentError::CommentIdExists => LogicError::internal("comment id already exists"),
            CreateCommentError::CommentTreeTooDeep => LogicError::bad_request("comment thread too deep (max 64 reply layers)"),
            CreateCommentError::Db(cause) => internal_with_cause("database query failed: ", cause.as_str()),
        }
    }
}

impl FromSpecImpl<CreateCommentError> for LogicError {
    open spec fn obeys_from_spec() -> bool {
        false
    }

    open spec fn from_spec(v: CreateCommentError) -> LogicError {
        vstd::pervasive::arbitrary()
    }
}

/// Failures of storing a new version. `Db` carries the storage layer's description of the cause.
#[derive(Clone, Debug, PartialEq, Eq)]
pub enum CreateVersionError {
    ArticleMissing,
    NotGreater,
    InvalidNumber,
    ContentHashTaken,
    Db(String),
}

impl From<CreateVersionError> for LogicError {
    fn from(error: CreateVersionError) -> (e: Self)
        ensures
            error matches CreateVersionError::ArticleMissing ==> e.is(ErrorKind::NotFound, "article not found"@),
            error matches CreateVersionError::NotGreater ==> e.is(ErrorKind::BadRequest, "new version must be strictly greater than the latest version"@),
            error matches CreateVersionError::InvalidNumber ==> e.is(ErrorKind::BadRequest, "invalid version number"@),
            error matches CreateVersionError::ContentHashTaken ==> e.is(ErrorKind::BadRequest, "identical PDF already exists"@),
            error matches CreateVersionError::Db(cause) ==> e.is(ErrorKind::Internal, "database query failed: "@ + cause@),
    {
        match error {
            CreateVersionError::ArticleMissing => LogicError::not_found("article not found"),
            CreateVersionError::NotGreater => LogicError::bad_request("new version must be strictly greater than the latest version"),
            CreateVersionError::InvalidNumber => LogicError::bad_request("invalid version number"),
            CreateVersionError::ContentHashTaken => LogicError::bad_request("identical PDF already exists"),
            CreateVersionError::Db(cause) => internal_with_cause("database query failed: ", cause.as_str()),
        }
    }
}

impl FromSpecImpl<CreateVersionError> for LogicError {
    open spec fn obeys_from_spec() -> bool {
        false
    }

    open spec fn from_spec(v: CreateVersionError) -> LogicError {
        vstd::pervasive::arbitrary()
    }
}

/// Failures of handing a departing account's content over. `Db` carries the storage layer's description of the cause.
#[derive(Clone, Debug, PartialEq, Eq)]
pub enum TransferError {
    NoRecycler,
    Db(String),
}

impl From<TransferError> for LogicError {
    fn from(error: TransferError) -> (e: Self)
        ensures
            error matches TransferError::NoRecycler ==> e.is(ErrorKind::Internal, "no recycler available"@),
            error matches TransferError::Db(cause) ==> e.is(ErrorKind::Internal, "failed to transfer account assets: "@ + cause@),
    {
        match error {
            TransferError::NoRecycler => LogicError::internal("no recycler available"),
            TransferError::Db(cause) => internal_with_cause("failed to transfer account assets: ", cause.as_str()),
        }
    }
}

impl FromSpecImpl<TransferError> for LogicError {
    open spec fn obeys_from_spec() -> bool {
        false
    }

    open spec fn from_spec(v: TransferError) -> LogicError {
        vstd::pervasive::arbitrary()
    }
}

/// Failures of handing one article over. `Db` carries the storage layer's description of the cause.
#[derive(Clone, Debug, PartialEq, Eq)]
pub enum TransferTargetError {
    TargetMissing,
    TargetOwnerMissing,
    NoRecycler,
    Db(String),
}

impl From<TransferTargetError> for LogicError {
    fn from(error: TransferTargetError) -> (e: Self)
        ensures
            error matches TransferTargetError::TargetMissing ==> e.is(ErrorKind::NotFound, "article not found"@),
            error matches TransferTargetError::TargetOwnerMissing ==> e.is(ErrorKind::Internal, "article has no owner"@),
            error matches TransferTargetError::NoRecycler ==> e.is(ErrorKind::Internal, "no recycler available"@),
            error matches TransferTargetError::Db(cause) ==> e.is(ErrorKind::Internal, "database query failed: "@ + cause@),
    {
        match error {
            TransferTargetError::TargetMissing => LogicError::not_found("article not found"),
            TransferTargetError::TargetOwnerMissing => LogicError::internal("article has no owner"),
            TransferTargetError::NoRecycler => LogicError::internal("no recycler available"),
            TransferTargetError::Db(cause) => internal_with_cause("database query failed: ", cause.as_str()),
        }
    }
}

impl FromSpecImpl<TransferTargetError> for LogicError {
    open spec fn obeys_from_spec() -> bool {
        false
    }

    open spec fn from_spec(v: TransferTargetError) -> LogicError {
        vstd::pervasive::arbitrary()
    }
}

/// Failures of writing an account. `Db` carries the storage layer's description of the cause.
#[derive(Clone, Debug, PartialEq, Eq)]
pub enum UserWriteError {
    AlreadyTaken,
    UserMissing,
    EmailMismatch,
    Db(String),
}

impl From<UserWriteError> for LogicError {
    fn from(error: UserWriteError) -> (e: Self)
        ensures
            error matches UserWriteError::AlreadyTaken ==> e.is(ErrorKind::BadRequest, "name already taken"@),
            error matches UserWriteError::UserMissing ==> e.is(ErrorKind::Unauthorized, "user not found"@),
            error matches UserWriteError::EmailMismatch ==> e.is(ErrorKind::Internal, "unexpected email mismatch"@),
            error matches UserWriteError::Db(cause) ==> e.is(ErrorKind::Internal, "failed to update name: "@ + cause@),
    {
        match error {
            UserWriteError::AlreadyTaken => LogicError::bad_request("name already taken"),
            UserWriteError::UserMissing => LogicError::unauthorized("user not found"),
            UserWriteError::EmailMismatch => LogicError::internal("unexpected email mismatch"),
            UserWriteError::Db(cause) => internal_with_cause("failed to update name: ", cause.as_str()),
        }
    }
}

impl FromSpecImpl<UserWriteError> for LogicError {
    open spec fn obeys_from_spec() -> bool {
        false
    }

    open spec fn from_spec(v: UserWriteError) -> LogicError {
        vstd::pervasive::arbitrary()
    }
}

} // verus!
