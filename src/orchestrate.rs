//! What each operation decides: which task it sends, what it makes of the
//! folded replies, and what it reports. The caller performs the broker and
//! store calls these decisions name.
use vstd::prelude::*;
use crate::aggregate::{PollError, TokenBatch};
use crate::crypto::{name_gives_nonce, open_token, opened_token, token_nonce};
use crate::dispatch::{
    create_task_request, dispatch_outcome, new_token_name, DispatchError, TaskEnvelope,
};
use crate::enums::{token_status_name, OpalRequestType, OpalResponse, OpalTokenStatus};
use crate::models::{clone_texts, ProjectStatusQuery, TokenParams, TokensQueryParams};
use chrono::Local;
use vstd::utf8::is_ascii_chars;

verus! {

/// Relies on `chrono::Local::now` and `format`: the local time now, written
/// as day-month-year hours:minutes:seconds with two-digit fields and a year
/// of at least four digits, so at least 19 ASCII characters.
#[verifier::external_body]
fn now_stamp() -> (r: String)
    ensures
        is_ascii_chars(r@),
        r@.len() >= 19,
{
    Local::now().format("%d-%m-%Y %H:%M:%S").to_string()
}

/// Why an operation stopped before its task was sent.
pub enum OperationError {
    /// The request names no site.
    NoBridgehead,
    /// No token name is stored for the user's project at the site.
    TokenNameNotFound,
    /// No token value is stored for the user's project at the site.
    TokenValueNotFound,
    /// The stored token could not be decrypted with its name and the key.
    TokenUnreadable,
    /// The task could not be built.
    Dispatch(DispatchError),
}

/// What a token registration does next.
pub enum Registration {
    /// A token already exists for the user's project at one of the sites:
    /// nothing is sent.
    AlreadyAvailable,
    /// Send `task`, then store one row per site that answers, for `batch`.
    Dispatch { task: TaskEnvelope, batch: TokenBatch },
}

/// Registration with a chosen token name and time: nothing when a token is
/// already available; otherwise a CREATE task under that name for the
/// project at every requested site, with the batch its replies are stored
/// under.
pub fn plan_registration(
    token_available: bool,
    params: &TokenParams,
    from: String,
    token_name: String,
    created_at: String,
) -> (r: Result<Registration, DispatchError>)
    ensures
        token_available ==> r matches Ok(Registration::AlreadyAvailable),
        !token_available ==> match r {
            Ok(Registration::Dispatch { task, batch }) => {
                &&& dispatch_outcome(Ok(task), from, OpalRequestType::CREATE, Some(token_name),
                    Some(params.project_id), params.bridgehead_ids@, None)
                &&& batch.token_name == token_name
                &&& batch.project_id == params.project_id
                &&& batch.user_id == params.user_id
                &&& batch.created_at == created_at
            },
            Ok(Registration::AlreadyAvailable) => false,
            Err(e) => dispatch_outcome(Err(e), from, OpalRequestType::CREATE, Some(token_name),
                Some(params.project_id), params.bridgehead_ids@, None),
        },
{
    if token_available {
        return Ok(Registration::AlreadyAvailable);
    }
    let task = create_task_request(
        from,
        OpalRequestType::CREATE,
        Some(token_name.clone()),
        Some(params.project_id.clone()),
        Some(clone_texts(&params.bridgehead_ids)),
        None,
    );
    match task {
        Ok(task) => Ok(Registration::Dispatch {
            task,
            batch: TokenBatch {
                token_name,
                project_id: params.project_id.clone(),
                user_id: params.user_id.clone(),
                created_at,
            },
        }),
        Err(e) => Err(e),
    }
}

/// Registration under a fresh token name, stamped with the local time now:
/// as `plan_registration`, with a name that yields a nonce.
pub fn send_token_registration_request(
    token_available: bool,
    params: &TokenParams,
    from: String,
) -> (r: Result<Registration, DispatchError>)
    ensures
        token_available ==> r matches Ok(Registration::AlreadyAvailable),
        !token_available ==> match r {
            Ok(Registration::Dispatch { task, batch }) => {
                &&& name_gives_nonce(batch.token_name@)
                &&& dispatch_outcome(Ok(task), from, OpalRequestType::CREATE,
                    Some(batch.token_name), Some(params.project_id), params.bridgehead_ids@, None)
                &&& batch.project_id == params.project_id
                &&& batch.user_id == params.user_id
                &&& is_ascii_chars(batch.created_at@)
                &&& batch.created_at@.len() >= 19
            },
            Ok(Registration::AlreadyAvailable) => false,
            Err(e) => ids_fail(e, params.bridgehead_ids@),
        },
{
    if token_available {
        return Ok(Registration::AlreadyAvailable);
    }
    let token_name = new_token_name();
    let created_at = now_stamp();
    plan_registration(false, params, from, token_name, created_at)
}

/// A CREATE task always has its name and project here, so it can only fail
/// for want of recipients.
pub open spec fn ids_fail(e: DispatchError, ids: Seq<String>) -> bool {
    ids.len() == 0 && e == DispatchError::NoRecipients
}

/// Re-creates at the sites a token kept in the store: a CREATE task carrying
/// the token's name and secret.
pub fn send_token_from_db(
    params: &TokenParams,
    token_name: String,
    token: String,
    from: String,
) -> (r: Result<TaskEnvelope, DispatchError>)
    ensures
        dispatch_outcome(r, from, OpalRequestType::CREATE, Some(token_name), Some(params.project_id),
            params.bridgehead_ids@, Some(token)),
{
    create_task_request(
        from,
        OpalRequestType::CREATE,
        Some(token_name),
        Some(params.project_id.clone()),
        Some(clone_texts(&params.bridgehead_ids)),
        Some(token),
    )
}

/// Removes a project, with its tokens, at one site: a DELETE task for the
/// project.
pub fn remove_project_and_tokens_request(query: &ProjectStatusQuery, from: String) -> (r: Result<
    TaskEnvelope,
    DispatchError,
>)
    ensures
        dispatch_outcome(r, from, OpalRequestType::DELETE, None, Some(query.project_id),
            seq![query.bk], None),
{
    let mut to: Vec<String> = Vec::new();
    to.push(query.bk.clone());
    assert(to@ =~= seq![query.bk]);
    create_task_request(from, OpalRequestType::DELETE, None, Some(query.project_id.clone()), Some(to), None)
}

/// Removes one user's token at one site: a DELETE task for the stored token
/// name, or `TokenNameNotFound` when none is stored.
pub fn remove_tokens_request(
    query: &TokensQueryParams,
    token_name: Option<String>,
    from: String,
) -> (r: Result<TaskEnvelope, OperationError>)
    ensures
        token_name is None ==> r matches Err(OperationError::TokenNameNotFound),
        token_name matches Some(n) ==> match r {
            Ok(t) => dispatch_outcome(Ok(t), from, OpalRequestType::DELETE, Some(n), None, seq![query.bk], None),
            Err(_) => false,
        },
{
    match token_name {
        None => Err(OperationError::TokenNameNotFound),
        Some(n) => {
            let mut to: Vec<String> = Vec::new();
            to.push(query.bk.clone());
            assert(to@ =~= seq![query.bk]);
            match create_task_request(from, OpalRequestType::DELETE, Some(n), None, Some(to), None) {
                Ok(t) => Ok(t),
                Err(e) => Err(OperationError::Dispatch(e)),
            }
        },
    }
}

/// Where a refresh looks up the stored token: the user's project at the
/// first requested site. `None` when no site is requested.
pub fn refresh_lookup(params: &TokenParams) -> (r: Option<TokensQueryParams>)
    ensures
        params.bridgehead_ids@.len() == 0 <==> r is None,
        r matches Some(q) ==> {
            &&& q.user_id == params.user_id
            &&& q.bk == params.bridgehead_ids@[0]
            &&& q.project_id == params.project_id
        },
{
    if params.bridgehead_ids.len() == 0 {
        return None;
    }
    Some(TokensQueryParams {
        user_id: params.user_id.clone(),
        bk: params.bridgehead_ids[0].clone(),
        project_id: params.project_id.clone(),
    })
}

/// Refreshes a token with a chosen time: decrypts the stored secret with the
/// stored name and `key`, then sends it in an UPDATE task to every requested
/// site; the replies are stored under the returned batch.
pub fn plan_refresh(
    params: &TokenParams,
    token_name: Option<String>,
    stored_token: Option<String>,
    key: &str,
    from: String,
    created_at: String,
) -> (r: Result<(TaskEnvelope, TokenBatch), OperationError>)
    ensures
        params.bridgehead_ids@.len() == 0 ==> r matches Err(OperationError::NoBridgehead),
        params.bridgehead_ids@.len() > 0 ==> match (token_name, stored_token) {
            (None, _) => r matches Err(OperationError::TokenNameNotFound),
            (Some(_), None) => r matches Err(OperationError::TokenValueNotFound),
            (Some(n), Some(v)) => if !name_gives_nonce(n@) || opened_token(v@, token_nonce(n@), key@) is None {
                r matches Err(OperationError::TokenUnreadable)
            } else {
                r matches Ok((task, batch)) && {
                    &&& opened_token(v@, token_nonce(n@), key@) == Some(task.body.token->0@)
                    &&& task.body.token is Some
                    &&& dispatch_outcome(Ok(task), from, OpalRequestType::UPDATE, Some(n),
                        Some(params.project_id), params.bridgehead_ids@, task.body.token)
                    &&& batch.token_name == n
                    &&& batch.project_id == params.project_id
                    &&& batch.user_id == params.user_id
                    &&& batch.created_at == created_at
                }
            },
        },
{
    if params.bridgehead_ids.len() == 0 {
        return Err(OperationError::NoBridgehead);
    }
    let name = match token_name {
        None => {
            return Err(OperationError::TokenNameNotFound);
        },
        Some(n) => n,
    };
    let stored = match stored_token {
        None => {
            return Err(OperationError::TokenValueNotFound);
        },
        Some(v) => v,
    };
    if !has_nonce(&name) {
        return Err(OperationError::TokenUnreadable);
    }
    let secret = match open_token(stored.as_str(), name.as_str(), key) {
        None => {
            return Err(OperationError::TokenUnreadable);
        },
        Some(p) => p,
    };
    let task = create_task_request(
        from,
        OpalRequestType::UPDATE,
        Some(name.clone()),
        Some(params.project_id.clone()),
        Some(clone_texts(&params.bridgehead_ids)),
        Some(secret),
    );
    match task {
        Ok(t) => Ok((
            t,
            TokenBatch {
                token_name: name,
                project_id: params.project_id.clone(),
                user_id: params.user_id.clone(),
                created_at,
            },
        )),
        Err(e) => Err(OperationError::Dispatch(e)),
    }
}

/// Whether a token name is long enough to give a nonce.
pub fn has_nonce(name: &String) -> (r: bool)
    ensures
        r == name_gives_nonce(name@),
{
    let bytes = name.as_str().as_bytes();
    bytes.len() >= 16
}

/// Refreshes a token as `plan_refresh` does, stamped with the local time now.
pub fn refresh_token_request(
    params: &TokenParams,
    token_name: Option<String>,
    stored_token: Option<String>,
    key: &str,
    from: String,
) -> (r: Result<(TaskEnvelope, TokenBatch), OperationError>)
    ensures
        params.bridgehead_ids@.len() == 0 ==> r matches Err(OperationError::NoBridgehead),
        params.bridgehead_ids@.len() > 0 ==> match (token_name, stored_token) {
            (None, _) => r matches Err(OperationError::TokenNameNotFound),
            (Some(_), None) => r matches Err(OperationError::TokenValueNotFound),
            (Some(n), Some(v)) => if !name_gives_nonce(n@) || opened_token(v@, token_nonce(n@), key@) is None {
                r matches Err(OperationError::TokenUnreadable)
            } else {
                r matches Ok((task, batch)) && {
                    &&& opened_token(v@, token_nonce(n@), key@) == Some(task.body.token->0@)
                    &&& task.body.token is Some
                    &&& dispatch_outcome(Ok(task), from, OpalRequestType::UPDATE, Some(n),
                        Some(params.project_id), params.bridgehead_ids@, task.body.token)
                    &&& batch.token_name == n
                    &&& batch.project_id == params.project_id
                    &&& batch.user_id == params.user_id
                    &&& is_ascii_chars(batch.created_at@)
                    &&& batch.created_at@.len() >= 19
                }
            },
        },
{
    let created_at = now_stamp();
    plan_refresh(params, token_name, stored_token, key, from, created_at)
}

/// Asks the requested sites for the table names of a project: a SCRIPT task
/// named after the user.
pub fn fetch_project_tables_names_request(params: &TokenParams, from: String) -> (r: Result<
    TaskEnvelope,
    DispatchError,
>)
    ensures
        dispatch_outcome(r, from, OpalRequestType::SCRIPT, Some(params.user_id), Some(params.project_id),
            params.bridgehead_ids@, None),
{
    create_task_request(
        from,
        OpalRequestType::SCRIPT,
        Some(params.user_id.clone()),
        Some(params.project_id.clone()),
        Some(clone_texts(&params.bridgehead_ids)),
        None,
    )
}

/// Asks one site for the status of a project: a STATUS task for the project.
pub fn check_project_status_request(query: &ProjectStatusQuery, from: String) -> (r: Result<
    TaskEnvelope,
    DispatchError,
>)
    ensures
        dispatch_outcome(r, from, OpalRequestType::STATUS, None, Some(query.project_id),
            seq![query.bk], None),
{
    let mut to: Vec<String> = Vec::new();
    to.push(query.bk.clone());
    assert(to@ =~= seq![query.bk]);
    create_task_request(from, OpalRequestType::STATUS, None, Some(query.project_id.clone()), Some(to), None)
}

/// Asks one site for the status of a token: a STATUS task for the token name.
pub fn check_token_status_request(bk: &String, token_name: String, from: String) -> (r: Result<
    TaskEnvelope,
    DispatchError,
>)
    ensures
        dispatch_outcome(r, from, OpalRequestType::STATUS, Some(token_name), None, seq![*bk], None),
{
    let mut to: Vec<String> = Vec::new();
    to.push(bk.clone());
    assert(to@ =~= seq![*bk]);
    create_task_request(from, OpalRequestType::STATUS, Some(token_name), None, Some(to), None)
}

/// The status of a project at a site, as reported to the caller.
pub struct ProjectStatusReport {
    pub project_id: String,
    pub bk: String,
    pub project_status: String,
}

/// What a project status query reports: the status the site sent, or
/// NOT_FOUND when the site answered with a failure. When no reply came at
/// all the query fails.
pub fn project_status_report(
    query: &ProjectStatusQuery,
    poll: Result<OpalResponse<String>, PollError>,
) -> (r: Result<ProjectStatusReport, PollError>)
    ensures
        match poll {
            Ok(OpalResponse::Success { response }) => r matches Ok(rep) && rep.project_status@ == response@,
            Ok(OpalResponse::Failure { .. }) => r matches Ok(rep) && rep.project_status@ == token_status_name(
                OpalTokenStatus::NOTFOUND,
            ),
            Err(e) => r == Err::<ProjectStatusReport, PollError>(e),
        },
        r matches Ok(rep) ==> rep.project_id == query.project_id && rep.bk == query.bk,
{
    match poll {
        Ok(OpalResponse::Success { response }) => Ok(ProjectStatusReport {
            project_id: query.project_id.clone(),
            bk: query.bk.clone(),
            project_status: response,
        }),
        Ok(OpalResponse::Failure { .. }) => Ok(ProjectStatusReport {
            project_id: query.project_id.clone(),
            bk: query.bk.clone(),
            project_status: OpalTokenStatus::NOTFOUND.as_str().to_owned(),
        }),
        Err(e) => Err(e),
    }
}

/// The status of a user's token at a site, as reported to the caller.
pub struct TokenStatusReport {
    pub user_id: String,
    pub bk: String,
    pub token_status: String,
}

/// What a token status query reports, and whether the stored token must be
/// sent to the site again. A site that knows the token as CREATED is
/// reported as such; a site that answers with any other status gets the
/// stored token again, and is then reported CREATED; a failure is reported
/// as NOT_FOUND. When no reply came at all the query fails.
pub fn token_status_report(
    user_id: &String,
    bk: &String,
    poll: Result<OpalResponse<String>, PollError>,
) -> (r: Result<(TokenStatusReport, bool), PollError>)
    ensures
        match poll {
            Ok(OpalResponse::Success { response }) => r matches Ok((rep, resend)) && {
                &&& resend == (response@ != token_status_name(OpalTokenStatus::CREATED))
                &&& rep.token_status@ == token_status_name(OpalTokenStatus::CREATED)
            },
            Ok(OpalResponse::Failure { .. }) => r matches Ok((rep, resend)) && !resend
                && rep.token_status@ == token_status_name(OpalTokenStatus::NOTFOUND),
            Err(e) => r == Err::<(TokenStatusReport, bool), PollError>(e),
        },
        r matches Ok((rep, _)) ==> rep.user_id == *user_id && rep.bk == *bk,
{
    match poll {
        Ok(OpalResponse::Success { response }) => {
            let created = OpalTokenStatus::CREATED.as_str().to_owned();
            let resend = !(response == created);
            Ok((TokenStatusReport { user_id: user_id.clone(), bk: bk.clone(), token_status: created }, resend))
        },
        Ok(OpalResponse::Failure { .. }) => Ok((
            TokenStatusReport {
                user_id: user_id.clone(),
                bk: bk.clone(),
                token_status: OpalTokenStatus::NOTFOUND.as_str().to_owned(),
            },
            false,
        )),
        Err(e) => Err(e),
    }
}

/// Everything known of a user's token at a site: the project's status there,
/// when the token was stored, and the token's status there.
pub struct TokenStatusView {
    pub project_id: String,
    pub bk: String,
    pub user_id: String,
    pub token_created_at: String,
    pub project_status: String,
    pub token_status: String,
}

/// The combined token status: each part that could not be learned (`None`)
/// is reported as NOT_FOUND, or as an empty time.
pub fn token_status_view(
    params: &TokensQueryParams,
    project_status: Option<String>,
    token_created_at: Option<String>,
    token_status: Option<String>,
) -> (r: TokenStatusView)
    ensures
        r.project_id == params.project_id,
        r.bk == params.bk,
        r.user_id == params.user_id,
        r.project_status@ == match project_status {
            Some(s) => s@,
            None => token_status_name(OpalTokenStatus::NOTFOUND),
        },
        r.token_created_at@ == match token_created_at {
            Some(s) => s@,
            None => Seq::<char>::empty(),
        },
        r.token_status@ == match token_status {
            Some(s) => s@,
            None => token_status_name(OpalTokenStatus::NOTFOUND),
        },
{
    TokenStatusView {
        project_id: params.project_id.clone(),
        bk: params.bk.clone(),
        user_id: params.user_id.clone(),
        token_created_at: match token_created_at {
            Some(s) => s,
            None => String::new(),
        },
        project_status: match project_status {
            Some(s) => s,
            None => OpalTokenStatus::NOTFOUND.as_str().to_owned(),
        },
        token_status: match token_status {
            Some(s) => s,
            None => OpalTokenStatus::NOTFOUND.as_str().to_owned(),
        },
    }
}

/// The answer to "does this user have a token for the project at one of
/// these sites": the text `true` or `false`.
pub fn check_script_status(token_available: bool) -> (r: String)
    ensures
        r@ == if token_available { "true"@ } else { "false"@ },
{
    if token_available {
        String::from_str("true")
    } else {
        String::from_str("false")
    }
}

/// Whether a deletion at a site is mirrored in the store: only once the site
/// has answered with success.
pub fn deletion_confirmed(poll: &Result<OpalResponse<String>, PollError>) -> (r: bool)
    ensures
        r == (poll matches Ok(OpalResponse::Success { .. })),
{
    match poll {
        Ok(OpalResponse::Success { .. }) => true,
        _ => false,
    }
}

/// How many times a token registration is attempted at most.
pub const MAX_RETRIES: u32 = 3;

/// Milliseconds to wait before retrying after a server error.
pub const RETRY_WAIT_MS: u64 = 5000;

/// What one attempt to register a token at the analysis service came to.
pub enum AttemptOutcome {
    /// The service accepted the request.
    Accepted,
    /// The service rejected the request as faulty, with its explanation.
    ClientError { text: String },
    /// The service failed internally.
    ServerError,
    /// The service answered with some other non-success status.
    OtherStatus,
    /// The request could not be made, for the reason given.
    RequestError { text: String },
}

/// What to do after an attempt: answer the caller, or try again after a
/// pause.
pub enum RetryStep {
    Respond { status: u16, message: String },
    Retry { retries_remaining: u32, wait_ms: u64 },
}

/// The decision after an attempt, with `retries_remaining` attempts left
/// including the one just made. Acceptance answers 200; a client error 400
/// with the service's explanation; a request error 500. A server error is
/// retried after a pause, another status at once, while attempts remain;
/// after the last one the answer is 500.
pub fn register_step(retries_remaining: u32, outcome: &AttemptOutcome) -> (r: RetryStep)
    requires
        retries_remaining > 0,
    ensures
        match outcome {
            AttemptOutcome::Accepted => r matches RetryStep::Respond { status, message } && status == 200
                && message@ == Seq::<char>::empty(),
            AttemptOutcome::ClientError { text } => r matches RetryStep::Respond { status, message } && status
                == 400 && message@ == "Request failed. Error: "@ + text@,
            AttemptOutcome::RequestError { text } => r matches RetryStep::Respond { status, message } && status
                == 500 && message@ == "Request error: "@ + text@,
            AttemptOutcome::ServerError => if retries_remaining > 1 {
                r == RetryStep::Retry { retries_remaining: (retries_remaining - 1) as u32, wait_ms: RETRY_WAIT_MS }
            } else {
                r matches RetryStep::Respond { status, message } && status == 500 && message@ == "All retries failed"@
            },
            AttemptOutcome::OtherStatus => if retries_remaining > 1 {
                r == RetryStep::Retry { retries_remaining: (retries_remaining - 1) as u32, wait_ms: 0 }
            } else {
                r matches RetryStep::Respond { status, message } && status == 500 && message@ == "All retries failed"@
            },
        },
{
    match outcome {
        AttemptOutcome::Accepted => RetryStep::Respond { status: 200, message: String::new() },
        AttemptOutcome::ClientError { text } => {
            let mut m = String::from_str("Request failed. Error: ");
            m.append(text.as_str());
            RetryStep::Respond { status: 400, message: m }
        },
        AttemptOutcome::RequestError { text } => {
            let mut m = String::from_str("Request error: ");
            m.append(text.as_str());
            RetryStep::Respond { status: 500, message: m }
        },
        AttemptOutcome::ServerError => if retries_remaining > 1 {
            RetryStep::Retry { retries_remaining: retries_remaining - 1, wait_ms: RETRY_WAIT_MS }
        } else {
            RetryStep::Respond { status: 500, message: String::from_str("All retries failed") }
        },
        AttemptOutcome::OtherStatus => if retries_remaining > 1 {
            RetryStep::Retry { retries_remaining: retries_remaining - 1, wait_ms: 0 }
        } else {
            RetryStep::Respond { status: 500, message: String::from_str("All retries failed") }
        },
    }
}

/// The service's health, as reported to monitoring.
pub struct HealthReport {
    pub status_code: u16,
    pub status: String,
    pub database_connection: String,
    pub opal_health_check: String,
}

/// Healthy (200, `ok`) only when both the store and the analysis service
/// answer; otherwise 503 and `error`, naming which part is `down`.
pub fn health_report(database_ok: bool, opal_ok: bool) -> (r: HealthReport)
    ensures
        r.status_code == if database_ok && opal_ok { 200u16 } else { 503u16 },
        r.status@ == if database_ok && opal_ok { "ok"@ } else { "error"@ },
        r.database_connection@ == if database_ok { "ok"@ } else { "down"@ },
        r.opal_health_check@ == if opal_ok { "ok"@ } else { "down"@ },
{
    let healthy = database_ok && opal_ok;
    HealthReport {
        status_code: if healthy { 200 } else { 503 },
        status: if healthy { String::from_str("ok") } else { String::from_str("error") },
        database_connection: if database_ok { String::from_str("ok") } else { String::from_str("down") },
        opal_health_check: if opal_ok { String::from_str("ok") } else { String::from_str("down") },
    }
}

} // verus!
