use token_manager::aggregate::PollError;
use token_manager::crypto::seal_token;
use token_manager::enums::OpalResponse;
use token_manager::models::{ProjectStatusQuery, TokenParams, TokensQueryParams};
use token_manager::orchestrate::{
    check_project_status_request, check_script_status, deletion_confirmed, plan_refresh,
    plan_registration, project_status_report, refresh_lookup, remove_tokens_request,
    send_token_registration_request, token_status_report, token_status_view, OperationError,
    Registration,
};

fn params(sites: &[&str]) -> TokenParams {
    TokenParams {
        user_id: "alice".to_string(),
        project_id: "proj".to_string(),
        bridgehead_ids: sites.iter().map(|s| s.to_string()).collect(),
    }
}

fn ok(s: &str) -> Result<OpalResponse<String>, PollError> {
    Ok(OpalResponse::Success { response: s.to_string() })
}

fn failed() -> Result<OpalResponse<String>, PollError> {
    Ok(OpalResponse::Failure { status_code: 500, error_message: "x".to_string() })
}

fn none() -> Result<OpalResponse<String>, PollError> {
    Err(PollError::NoRepliesReceived { last_malformed: None })
}

#[test]
fn registration_skipped_when_available() {
    assert!(matches!(send_token_registration_request(true, &params(&["a"]), "me".to_string()), Ok(Registration::AlreadyAvailable)));
}

#[test]
fn registration_plans_create_task() {
    let name = "0123456789abcdef0123".to_string();
    match plan_registration(false, &params(&["a", "b"]), "me".to_string(), name.clone(), "now".to_string()) {
        Ok(Registration::Dispatch { task, batch }) => {
            assert_eq!(task.body.request_type, "CREATE");
            assert_eq!(task.body.name, Some(name.clone()));
            assert_eq!(task.body.project, Some("proj".to_string()));
            assert_eq!(task.to, vec!["a", "b"]);
            assert_eq!(batch.token_name, name);
            assert_eq!(batch.user_id, "alice");
            assert_eq!(batch.created_at, "now");
        }
        _ => panic!("expected a task"),
    }
    match send_token_registration_request(false, &params(&["a"]), "me".to_string()) {
        Ok(Registration::Dispatch { batch, .. }) => assert_eq!(batch.token_name.len(), 36),
        _ => panic!("expected a task"),
    }
}

#[test]
fn refresh_decrypts_stored_token() {
    let name = "0123456789abcdef-token".to_string();
    let stored = seal_token("plain-secret", &name, "k");
    let (task, batch) = plan_refresh(&params(&["a"]), Some(name.clone()), Some(stored), "k", "me".to_string(), "t".to_string())
        .ok()
        .expect("a task");
    assert_eq!(task.body.request_type, "UPDATE");
    assert_eq!(task.body.token, Some("plain-secret".to_string()));
    assert_eq!(batch.token_name, name);
}

#[test]
fn refresh_errors() {
    let name = Some("0123456789abcdef-token".to_string());
    assert!(matches!(plan_refresh(&params(&[]), name.clone(), Some("x".into()), "k", "me".into(), "t".into()), Err(OperationError::NoBridgehead)));
    assert!(matches!(plan_refresh(&params(&["a"]), None, Some("x".into()), "k", "me".into(), "t".into()), Err(OperationError::TokenNameNotFound)));
    assert!(matches!(plan_refresh(&params(&["a"]), name.clone(), None, "k", "me".into(), "t".into()), Err(OperationError::TokenValueNotFound)));
    assert!(matches!(plan_refresh(&params(&["a"]), Some("short".into()), Some("eA==".into()), "k", "me".into(), "t".into()), Err(OperationError::TokenUnreadable)));
    assert!(matches!(plan_refresh(&params(&["a"]), name, Some("@@@".into()), "k", "me".into(), "t".into()), Err(OperationError::TokenUnreadable)));
}

#[test]
fn refresh_lookup_uses_first_site() {
    let q = refresh_lookup(&params(&["b1", "b2"])).unwrap();
    assert_eq!(q.bk, "b1");
    assert_eq!(q.user_id, "alice");
    assert!(refresh_lookup(&params(&[])).is_none());
}

#[test]
fn remove_tokens_needs_name() {
    let q = TokensQueryParams { user_id: "u".into(), bk: "b".into(), project_id: "p".into() };
    assert!(matches!(remove_tokens_request(&q, None, "me".into()), Err(OperationError::TokenNameNotFound)));
    let t = remove_tokens_request(&q, Some("n".into()), "me".into()).ok().unwrap();
    assert_eq!(t.body.request_type, "DELETE");
    assert_eq!(t.to, vec!["b"]);
}

#[test]
fn project_status_reports() {
    let q = ProjectStatusQuery { bk: "b".into(), project_id: "p".into() };
    let t = check_project_status_request(&q, "me".into()).unwrap();
    assert_eq!(t.body.request_type, "STATUS");
    assert_eq!(project_status_report(&q, ok("WITH_DATA")).ok().unwrap().project_status, "WITH_DATA");
    assert_eq!(project_status_report(&q, failed()).ok().unwrap().project_status, "NOT_FOUND");
    assert!(project_status_report(&q, none()).is_err());
}

#[test]
fn token_status_reports() {
    let u = "u".to_string();
    let b = "b".to_string();
    let (r, resend) = token_status_report(&u, &b, ok("CREATED")).ok().unwrap();
    assert_eq!(r.token_status, "CREATED");
    assert!(!resend);
    let (r, resend) = token_status_report(&u, &b, ok("EXPIRED")).ok().unwrap();
    assert_eq!(r.token_status, "CREATED");
    assert!(resend);
    let (r, resend) = token_status_report(&u, &b, failed()).ok().unwrap();
    assert_eq!(r.token_status, "NOT_FOUND");
    assert!(!resend);
    assert!(token_status_report(&u, &b, none()).is_err());
}

#[test]
fn token_status_view_defaults() {
    let q = TokensQueryParams { user_id: "u".into(), bk: "b".into(), project_id: "p".into() };
    let v = token_status_view(&q, None, None, None);
    assert_eq!(v.project_status, "NOT_FOUND");
    assert_eq!(v.token_status, "NOT_FOUND");
    assert_eq!(v.token_created_at, "");
    let v = token_status_view(&q, Some("CREATED".into()), Some("d".into()), Some("CREATED".into()));
    assert_eq!(v.project_status, "CREATED");
    assert_eq!(v.token_created_at, "d");
}

#[test]
fn script_status_text() {
    assert_eq!(check_script_status(true), "true");
    assert_eq!(check_script_status(false), "false");
}

#[test]
fn deletion_confirmed_only_on_success() {
    assert!(deletion_confirmed(&ok("x")));
    assert!(!deletion_confirmed(&failed()));
    assert!(!deletion_confirmed(&none()));
}

use token_manager::orchestrate::{
    check_token_status_request, fetch_project_tables_names_request, health_report, register_step,
    remove_project_and_tokens_request, send_token_from_db, AttemptOutcome, RetryStep,
};

#[test]
fn task_plans_per_operation() {
    let t = fetch_project_tables_names_request(&params(&["a", "b"]), "me".into()).unwrap();
    assert_eq!(t.body.request_type, "SCRIPT");
    assert_eq!(t.body.name, Some("alice".to_string()));
    assert_eq!(t.body.project, Some("proj".to_string()));
    let t = send_token_from_db(&params(&["a"]), "n".into(), "tok".into(), "me".into()).unwrap();
    assert_eq!(t.body.request_type, "CREATE");
    assert_eq!(t.body.token, Some("tok".to_string()));
    let q = ProjectStatusQuery { bk: "b".into(), project_id: "p".into() };
    let t = remove_project_and_tokens_request(&q, "me".into()).unwrap();
    assert_eq!(t.body.request_type, "DELETE");
    assert_eq!(t.body.name, None);
    assert_eq!(t.body.project, Some("p".to_string()));
    let t = check_token_status_request(&"b".to_string(), "n".into(), "me".into()).unwrap();
    assert_eq!(t.body.request_type, "STATUS");
    assert_eq!(t.body.name, Some("n".to_string()));
    assert_eq!(t.to, vec!["b"]);
}

fn respond(step: RetryStep) -> (u16, String) {
    match step {
        RetryStep::Respond { status, message } => (status, message),
        RetryStep::Retry { .. } => panic!("expected an answer"),
    }
}

#[test]
fn registration_retries() {
    assert_eq!(respond(register_step(3, &AttemptOutcome::Accepted)), (200, String::new()));
    assert_eq!(
        respond(register_step(3, &AttemptOutcome::ClientError { text: "bad".into() })),
        (400, "Request failed. Error: bad".to_string())
    );
    assert_eq!(
        respond(register_step(2, &AttemptOutcome::RequestError { text: "io".into() })),
        (500, "Request error: io".to_string())
    );
    assert!(matches!(register_step(3, &AttemptOutcome::ServerError), RetryStep::Retry { retries_remaining: 2, wait_ms: 5000 }));
    assert!(matches!(register_step(2, &AttemptOutcome::OtherStatus), RetryStep::Retry { retries_remaining: 1, wait_ms: 0 }));
    assert_eq!(respond(register_step(1, &AttemptOutcome::ServerError)), (500, "All retries failed".to_string()));
}

#[test]
fn health_reports() {
    let h = health_report(true, true);
    assert_eq!((h.status_code, h.status.as_str()), (200, "ok"));
    let h = health_report(true, false);
    assert_eq!((h.status_code, h.status.as_str(), h.database_connection.as_str(), h.opal_health_check.as_str()), (503, "error", "ok", "down"));
    let h = health_report(false, true);
    assert_eq!(h.database_connection, "down");
}
