//! The kinds of request a site understands, the statuses it reports, and the
//! shape of one site's answer.
use vstd::prelude::*;

verus! {

/// One site's answer to a task: either a payload, or an error with an
/// HTTP-like status code and a message.
pub enum OpalResponse<T> {
    Failure { status_code: i32, error_message: String },
    Success { response: T },
}

/// The operation a task asks a site to perform. `SCRIPT` asks for the table
/// names of a project (table discovery).
#[allow(clippy::upper_case_acronyms)]
#[derive(Clone, Copy, Debug, PartialEq, Eq, Structural)]
pub enum OpalRequestType {
    CREATE,
    DELETE,
    UPDATE,
    STATUS,
    SCRIPT,
}

/// Lifecycle state of a project at a site.
#[allow(clippy::upper_case_acronyms)]
#[derive(Clone, Copy, Debug, PartialEq, Eq, Structural)]
pub enum OpalProjectStatus {
    CREATED,
    WITHDATA,
    NOTFOUND,
}

/// Lifecycle state of a token at a site.
#[allow(clippy::upper_case_acronyms)]
#[derive(Clone, Copy, Debug, PartialEq, Eq, Structural)]
pub enum OpalTokenStatus {
    CREATED,
    EXPIRED,
    NOTFOUND,
}

/// The wire name of a request type.
pub open spec fn request_type_name(t: OpalRequestType) -> Seq<char> {
    match t {
        OpalRequestType::CREATE => "CREATE"@,
        OpalRequestType::DELETE => "DELETE"@,
        OpalRequestType::UPDATE => "UPDATE"@,
        OpalRequestType::STATUS => "STATUS"@,
        OpalRequestType::SCRIPT => "SCRIPT"@,
    }
}

/// The wire name of a project status.
pub open spec fn project_status_name(s: OpalProjectStatus) -> Seq<char> {
    match s {
        OpalProjectStatus::CREATED => "CREATED"@,
        OpalProjectStatus::WITHDATA => "WITH_DATA"@,
        OpalProjectStatus::NOTFOUND => "NOT_FOUND"@,
    }
}

/// The wire name of a token status.
pub open spec fn token_status_name(s: OpalTokenStatus) -> Seq<char> {
    match s {
        OpalTokenStatus::CREATED => "CREATED"@,
        OpalTokenStatus::EXPIRED => "EXPIRED"@,
        OpalTokenStatus::NOTFOUND => "NOT_FOUND"@,
    }
}

impl OpalRequestType {
    /// The name under which the request type travels to the sites.
    pub fn as_str(&self) -> (r: &'static str)
        ensures
            r@ == request_type_name(*self),
    {
        match self {
            OpalRequestType::CREATE => "CREATE",
            OpalRequestType::DELETE => "DELETE",
            OpalRequestType::UPDATE => "UPDATE",
            OpalRequestType::STATUS => "STATUS",
            OpalRequestType::SCRIPT => "SCRIPT",
        }
    }
}

impl OpalProjectStatus {
    pub fn as_str(&self) -> (r: &'static str)
        ensures
            r@ == project_status_name(*self),
    {
        match self {
            OpalProjectStatus::CREATED => "CREATED",
            OpalProjectStatus::WITHDATA => "WITH_DATA",
            OpalProjectStatus::NOTFOUND => "NOT_FOUND",
        }
    }
}

impl OpalTokenStatus {
    pub fn as_str(&self) -> (r: &'static str)
        ensures
            r@ == token_status_name(*self),
    {
        match self {
            OpalTokenStatus::CREATED => "CREATED",
            OpalTokenStatus::EXPIRED => "EXPIRED",
            OpalTokenStatus::NOTFOUND => "NOT_FOUND",
        }
    }
}

} // verus!
