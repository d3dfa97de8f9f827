use token_manager::dispatch::{
    create_task_request, distinct_recipients, new_token_name, results_path, task_envelope, wait_count,
    DispatchError, FailureStrategy,
};
use token_manager::enums::{OpalProjectStatus, OpalRequestType, OpalTokenStatus};

fn strs(v: &[&str]) -> Vec<String> {
    v.iter().map(|s| s.to_string()).collect()
}

#[test]
fn envelope_fields() {
    let t = task_envelope(
        "id-1".to_string(),
        "me.broker".to_string(),
        OpalRequestType::SCRIPT,
        Some("alice".to_string()),
        Some("proj".to_string()),
        Some(strs(&["siteA", "siteB"])),
        None,
    )
    .expect("task");
    assert_eq!(t.id, "id-1");
    assert_eq!(t.from, "me.broker");
    assert_eq!(t.to, strs(&["siteA", "siteB"]));
    assert_eq!(t.body.request_type, "SCRIPT");
    assert_eq!(t.body.name, Some("alice".to_string()));
    assert_eq!(t.body.project, Some("proj".to_string()));
    assert_eq!(t.body.token, None);
    assert_eq!(t.ttl, "60s");
    assert_eq!(t.failure_strategy, FailureStrategy::Discard);
}

#[test]
fn envelope_needs_recipients() {
    let r = task_envelope("i".to_string(), "f".to_string(), OpalRequestType::STATUS, None, Some("p".to_string()), None, None);
    assert_eq!(r.err(), Some(DispatchError::NoRecipients));
    let r = task_envelope("i".to_string(), "f".to_string(), OpalRequestType::STATUS, None, Some("p".to_string()), Some(vec![]), None);
    assert_eq!(r.err(), Some(DispatchError::NoRecipients));
}

#[test]
fn envelope_field_rules() {
    let to = || Some(strs(&["s"]));
    let f = || "f".to_string();
    let p = || Some("p".to_string());
    let n = || Some("n".to_string());
    assert_eq!(task_envelope("i".into(), f(), OpalRequestType::CREATE, None, p(), to(), None).err(), Some(DispatchError::MissingName));
    assert_eq!(task_envelope("i".into(), f(), OpalRequestType::UPDATE, n(), None, to(), None).err(), Some(DispatchError::MissingProject));
    assert_eq!(task_envelope("i".into(), f(), OpalRequestType::SCRIPT, n(), None, to(), None).err(), Some(DispatchError::MissingProject));
    assert_eq!(task_envelope("i".into(), f(), OpalRequestType::DELETE, None, None, to(), None).err(), Some(DispatchError::MissingTarget));
    assert_eq!(task_envelope("i".into(), f(), OpalRequestType::STATUS, None, None, to(), None).err(), Some(DispatchError::MissingTarget));
    assert!(task_envelope("i".into(), f(), OpalRequestType::DELETE, n(), None, to(), None).is_ok());
    assert!(task_envelope("i".into(), f(), OpalRequestType::DELETE, None, p(), to(), None).is_ok());
}

#[test]
fn wait_count_is_distinct_recipient_count() {
    let t = task_envelope(
        "id".to_string(),
        "f".to_string(),
        OpalRequestType::CREATE,
        Some("n".to_string()),
        Some("p".to_string()),
        Some(strs(&["a", "b", "a", "c", "b"])),
        None,
    )
    .unwrap();
    assert_eq!(t.to, strs(&["a", "b", "c"]));
    assert_eq!(wait_count(&t), 3);
    assert_eq!(results_path(&t), "/v1/tasks/id/results?wait_count=3");
}

#[test]
fn results_path_multi_digit() {
    let ids: Vec<String> = (0..12).map(|i| format!("site{i}")).collect();
    let t = task_envelope("x".to_string(), "f".to_string(), OpalRequestType::STATUS, None, Some("p".to_string()), Some(ids), None)
        .unwrap();
    assert_eq!(results_path(&t), "/v1/tasks/x/results?wait_count=12");
}

#[test]
fn distinct_recipients_keeps_first_order() {
    assert_eq!(distinct_recipients(&strs(&["b", "a", "b"])), strs(&["b", "a"]));
}

#[test]
fn fresh_task_ids_and_names() {
    let t = create_task_request("f".to_string(), OpalRequestType::STATUS, None, Some("p".to_string()), Some(strs(&["s"])), None)
        .unwrap();
    assert_eq!(t.id.len(), 36);
    let u = create_task_request("f".to_string(), OpalRequestType::STATUS, None, Some("p".to_string()), Some(strs(&["s"])), None)
        .unwrap();
    assert_ne!(t.id, u.id);
    assert_eq!(new_token_name().len(), 36);
}

#[test]
fn status_names() {
    assert_eq!(OpalRequestType::CREATE.as_str(), "CREATE");
    assert_eq!(OpalRequestType::DELETE.as_str(), "DELETE");
    assert_eq!(OpalRequestType::UPDATE.as_str(), "UPDATE");
    assert_eq!(OpalRequestType::STATUS.as_str(), "STATUS");
    assert_eq!(OpalRequestType::SCRIPT.as_str(), "SCRIPT");
    assert_eq!(OpalProjectStatus::CREATED.as_str(), "CREATED");
    assert_eq!(OpalProjectStatus::WITHDATA.as_str(), "WITH_DATA");
    assert_eq!(OpalProjectStatus::NOTFOUND.as_str(), "NOT_FOUND");
    assert_eq!(OpalTokenStatus::CREATED.as_str(), "CREATED");
    assert_eq!(OpalTokenStatus::EXPIRED.as_str(), "EXPIRED");
    assert_eq!(OpalTokenStatus::NOTFOUND.as_str(), "NOT_FOUND");
}
