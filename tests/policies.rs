use token_manager::aggregate::{
    discovery_outcome, Discovery, collect_all, collect_tables, first_success, CollectAll, FirstSuccess, Frame, PollError, SiteReply,
    TokenBatch,
};
use token_manager::crypto::open_token;
use token_manager::enums::OpalResponse;

fn ok_text(site: &str, value: &str) -> Frame<String> {
    Frame::Reply(SiteReply {
        from: site.to_string(),
        body: OpalResponse::Success { response: value.to_string() },
    })
}

fn err_text(site: &str, code: i32, msg: &str) -> Frame<String> {
    Frame::Reply(SiteReply {
        from: site.to_string(),
        body: OpalResponse::Failure { status_code: code, error_message: msg.to_string() },
    })
}

fn ok_tables(site: &str, tables: &[&str]) -> Frame<Vec<String>> {
    Frame::Reply(SiteReply {
        from: site.to_string(),
        body: OpalResponse::Success { response: tables.iter().map(|t| t.to_string()).collect() },
    })
}

fn err_tables(site: &str) -> Frame<Vec<String>> {
    Frame::Reply(SiteReply {
        from: site.to_string(),
        body: OpalResponse::Failure { status_code: 500, error_message: "down".to_string() },
    })
}

fn sorted(v: Option<Vec<String>>) -> Option<Vec<String>> {
    v.map(|mut x| {
        x.sort();
        x
    })
}

fn strs(v: &[&str]) -> Vec<String> {
    v.iter().map(|s| s.to_string()).collect()
}

fn batch() -> TokenBatch {
    TokenBatch {
        token_name: "0123456789abcdef-name".to_string(),
        project_id: "proj".to_string(),
        user_id: "alice".to_string(),
        created_at: "01-01-2024 10:00:00".to_string(),
    }
}

fn success_text(r: &Result<OpalResponse<String>, PollError>) -> Option<String> {
    match r {
        Ok(OpalResponse::Success { response }) => Some(response.clone()),
        _ => None,
    }
}

#[test]
fn first_success_takes_first_ok_even_with_later_errors() {
    let frames = vec![err_text("a", 500, "x"), ok_text("b", "CREATED"), err_text("c", 503, "busy")];
    assert_eq!(success_text(&first_success(&frames)), Some("CREATED".to_string()));
}

#[test]
fn first_success_prefers_earliest_ok() {
    let frames = vec![ok_text("a", "one"), ok_text("b", "two")];
    assert_eq!(success_text(&first_success(&frames)), Some("one".to_string()));
}

#[test]
fn first_success_returns_last_error_without_ok() {
    let frames = vec![err_text("a", 500, "first"), err_text("b", 404, "second")];
    match first_success(&frames) {
        Ok(OpalResponse::Failure { status_code, error_message }) => {
            assert_eq!(status_code, 404);
            assert_eq!(error_message, "second");
        }
        _ => panic!("expected the last failure"),
    }
}

#[test]
fn scenario_status_error_then_close() {
    let frames = vec![err_text("siteA", 503, "busy")];
    match first_success(&frames) {
        Ok(OpalResponse::Failure { status_code, error_message }) => {
            assert_eq!(status_code, 503);
            assert_eq!(error_message, "busy");
        }
        _ => panic!("expected the site's error, not a timeout"),
    }
}

#[test]
fn first_success_no_replies() {
    let frames: Vec<Frame<String>> = vec![];
    match first_success(&frames) {
        Err(PollError::NoRepliesReceived { last_malformed }) => assert!(last_malformed.is_none()),
        _ => panic!("expected no replies"),
    }
}

#[test]
fn first_success_only_malformed_keeps_diagnostic() {
    let frames = vec![Frame::Malformed("bad one".to_string()), Frame::Malformed("bad two".to_string())];
    match first_success(&frames) {
        Err(PollError::NoRepliesReceived { last_malformed }) => {
            assert_eq!(last_malformed, Some("bad two".to_string()))
        }
        _ => panic!("expected no replies"),
    }
}

#[test]
fn first_success_skips_malformed() {
    let frames = vec![Frame::Malformed("bad".to_string()), ok_text("a", "WITH_DATA")];
    assert_eq!(success_text(&first_success(&frames)), Some("WITH_DATA".to_string()));
}

#[test]
fn first_success_step_stops_at_ok() {
    let mut st = FirstSuccess::new();
    assert!(st.step(&err_text("a", 500, "x")).is_none());
    match st.step(&ok_text("b", "CREATED")) {
        Some(OpalResponse::Success { response }) => assert_eq!(response, "CREATED"),
        _ => panic!("expected success"),
    }
}

#[test]
fn scenario_discover_tables_two_sites() {
    let frames = vec![ok_tables("siteA", &["t1", "t2"]), ok_tables("siteB", &["t2", "t3"])];
    let m = collect_tables(&frames);
    let mut sites = m.sites();
    sites.sort();
    assert_eq!(sites, strs(&["siteA", "siteB"]));
    assert_eq!(sorted(m.tables_of("siteA")), Some(strs(&["t1", "t2"])));
    assert_eq!(sorted(m.tables_of("siteB")), Some(strs(&["t2", "t3"])));
    assert_eq!(m.tables_of("siteC"), None);
}

#[test]
fn union_is_order_independent() {
    let a = vec![ok_tables("s1", &["x", "y"]), ok_tables("s2", &["z"]), ok_tables("s1", &["w"])];
    let b = vec![ok_tables("s1", &["w"]), ok_tables("s2", &["z"]), ok_tables("s1", &["x", "y"])];
    let ma = collect_tables(&a);
    let mb = collect_tables(&b);
    for s in ["s1", "s2", "s3"] {
        assert_eq!(sorted(ma.tables_of(s)), sorted(mb.tables_of(s)));
    }
    assert_eq!(sorted(ma.tables_of("s1")), Some(strs(&["w", "x", "y"])));
}

#[test]
fn union_collapses_duplicates() {
    let frames = vec![ok_tables("s1", &["x", "x"]), ok_tables("s1", &["x"])];
    let m = collect_tables(&frames);
    assert_eq!(m.tables_of("s1"), Some(strs(&["x"])));
    assert_eq!(m.sites(), strs(&["s1"]));
}

#[test]
fn union_leaves_out_failed_sites() {
    let frames = vec![err_tables("bad"), ok_tables("good", &[])];
    let m = collect_tables(&frames);
    assert_eq!(m.tables_of("bad"), None);
    assert_eq!(m.tables_of("good"), Some(vec![]));
}

#[test]
fn union_keeps_frames_around_malformed() {
    let frames = vec![
        ok_tables("s1", &["a"]),
        Frame::Malformed("garbage".to_string()),
        ok_tables("s2", &["b"]),
    ];
    let m = collect_tables(&frames);
    assert_eq!(m.tables_of("s1"), Some(strs(&["a"])));
    assert_eq!(m.tables_of("s2"), Some(strs(&["b"])));
}

#[test]
fn scenario_create_three_sites_one_silent() {
    let frames = vec![ok_text("siteA", "tokA"), ok_text("siteB", "tokB")];
    let (rows, last_error) = collect_all(&frames, batch(), "key".to_string());
    assert_eq!(rows.len(), 2);
    assert_eq!(rows[0].bk, "siteA");
    assert_eq!(rows[1].bk, "siteB");
    assert!(rows.iter().all(|r| r.bk != "siteC"));
    assert!(last_error.is_none());
    for (row, plain) in rows.iter().zip(["tokA", "tokB"]) {
        assert_eq!(row.token_name, "0123456789abcdef-name");
        assert_eq!(row.project_id, "proj");
        assert_eq!(row.user_id, "alice");
        assert_eq!(row.token_status, "CREATED");
        assert_eq!(row.project_status, "CREATED");
        assert_eq!(row.token_created_at, "01-01-2024 10:00:00");
        assert_ne!(row.token, plain);
        assert_eq!(open_token(&row.token, &row.token_name, "key"), Some(plain.to_string()));
    }
}

#[test]
fn collect_all_one_row_per_site_with_errors_between() {
    let frames = vec![
        err_text("s1", 500, "x"),
        ok_text("s1", "t1"),
        err_text("s2", 500, "y"),
        ok_text("s1", "t1-again"),
        Frame::Malformed("bad".to_string()),
        ok_text("s2", "t2"),
        err_text("s3", 503, "busy"),
    ];
    let (rows, last_error) = collect_all(&frames, batch(), "key".to_string());
    let sites: Vec<&str> = rows.iter().map(|r| r.bk.as_str()).collect();
    assert_eq!(sites, vec!["s1", "s2"]);
    assert_eq!(open_token(&rows[0].token, &rows[0].token_name, "key"), Some("t1".to_string()));
    assert_eq!(last_error, Some("Error: busy".to_string()));
}

#[test]
fn collect_all_step_by_step() {
    let mut st = CollectAll::new(batch(), "key".to_string());
    assert!(st.step(&err_text("s1", 500, "nope")).is_some() == false);
    let row = st.step(&ok_text("s1", "tok")).expect("a row");
    assert_eq!(row.bk, "s1");
    assert!(st.step(&ok_text("s1", "tok2")).is_none());
    assert_eq!(st.finish(), Some("Error: nope".to_string()));
}

#[test]
fn discovery_without_replies_fails() {
    let none: Vec<Frame<Vec<String>>> = vec![];
    match discovery_outcome(&none) {
        Err(PollError::NoRepliesReceived { last_malformed }) => assert!(last_malformed.is_none()),
        Ok(_) => panic!("expected no replies"),
    }
    let bad = vec![Frame::Malformed("x".to_string()), Frame::Malformed("y".to_string())];
    match discovery_outcome(&bad) {
        Err(PollError::NoRepliesReceived { last_malformed }) => assert_eq!(last_malformed, Some("y".to_string())),
        Ok(_) => panic!("expected no replies"),
    }
}

#[test]
fn discovery_with_replies_gives_tables() {
    let frames = vec![Frame::Malformed("x".to_string()), ok_tables("siteA", &["t1", "t2"]), err_tables("siteB")];
    let m = discovery_outcome(&frames).ok().expect("tables");
    assert_eq!(sorted(m.tables_of("siteA")), Some(strs(&["t1", "t2"])));
    assert_eq!(m.tables_of("siteB"), None);
    let only_failure = vec![err_tables("siteB")];
    let m = discovery_outcome(&only_failure).ok().expect("a reply was decoded");
    assert!(m.sites().is_empty());
}

#[test]
fn discovery_step_by_step() {
    let mut d = Discovery::new();
    d.step(&ok_tables("s", &["a"]));
    d.step(&ok_tables("s", &["a", "b"]));
    let m = d.finish().ok().expect("tables");
    assert_eq!(sorted(m.tables_of("s")), Some(strs(&["a", "b"])));
}
