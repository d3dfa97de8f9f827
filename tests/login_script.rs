use token_manager::aggregate::{collect_tables, Frame, SiteReply};
use token_manager::crypto::seal_token;
use token_manager::enums::OpalResponse;
use token_manager::models::TokenManager;
use token_manager::script::{generate_r_script, generate_user_script, quote_items, server_of};

const NAME: &str = "0123456789abcdef-some-token";

fn tables(site: &str, names: &[&str]) -> Frame<Vec<String>> {
    Frame::Reply(SiteReply {
        from: site.to_string(),
        body: OpalResponse::Success { response: names.iter().map(|t| t.to_string()).collect() },
    })
}

fn record(bk: &str, secret: &str) -> TokenManager {
    TokenManager {
        id: 1,
        token_name: NAME.to_string(),
        token: seal_token(secret, NAME, "key"),
        project_id: "proj".to_string(),
        project_status: "CREATED".to_string(),
        bk: bk.to_string(),
        token_status: "CREATED".to_string(),
        user_id: "alice".to_string(),
        token_created_at: "now".to_string(),
    }
}

fn strs(v: &[&str]) -> Vec<String> {
    v.iter().map(|s| s.to_string()).collect()
}

#[test]
fn server_name_is_second_label() {
    assert_eq!(server_of(&"app.site1.broker.de".to_string()), "site1");
    assert_eq!(server_of(&"app.site1".to_string()), "site1");
    assert_eq!(server_of(&"plain".to_string()), "plain");
}

#[test]
fn quoted_table_list() {
    assert_eq!(quote_items(&strs(&[])), "");
    assert_eq!(quote_items(&strs(&["a"])), "\"a\"");
    assert_eq!(quote_items(&strs(&["a", "b"])), "\"a\", \"b\"");
}

#[test]
fn user_script_with_missing_token() {
    let sites = strs(&["a.site1.broker", "b.site2.broker"]);
    let m = collect_tables(&vec![tables("a.site1.broker", &["t1", "t2"]), tables("b.site2.broker", &["t2"])]);
    let records = vec![Some(record("a.site1.broker", "secretA")), None];
    let script = generate_user_script(&sites, &m, &records, "key");
    let expected = generate_r_script(strs(&[
        "builder$append(server='site1', url='https://a.site1.broker/opal/', token='secretA', table='t1', driver='OpalDriver')",
        "builder$append(server='site1', url='https://a.site1.broker/opal/', token='secretA', table='t2', driver='OpalDriver')",
        "",
        "\n # Token not available for bridgehead 'b.site2.broker'",
    ]));
    assert_eq!(script, expected);
}

#[test]
fn user_script_notes_missing_tables() {
    let sites = strs(&["b.site2.broker"]);
    let m = collect_tables(&vec![tables("a.site1.broker", &["t1"]), tables("b.site2.broker", &["t2"])]);
    let records = vec![Some(record("b.site2.broker", "secretB"))];
    let script = generate_user_script(&sites, &m, &records, "key");
    let expected = generate_r_script(strs(&[
        "\n # Tables not available for bridgehead 'b.site2.broker': {\"t1\"}",
        "builder$append(server='site2', url='https://b.site2.broker/opal/', token='secretB', table='t2', driver='OpalDriver')",
        "",
    ]));
    assert_eq!(script, expected);
}

#[test]
fn user_script_without_lines() {
    let sites = strs(&["a.site1.broker"]);
    let m = collect_tables(&vec![]);
    let records = vec![Some(record("a.site1.broker", "secretA"))];
    assert_eq!(generate_user_script(&sites, &m, &records, "key"), "No records found for the given project and user.");
    assert_eq!(generate_user_script(&vec![], &m, &vec![], "key"), "No records found for the given project and user.");
}

#[test]
fn user_script_wrong_key_means_no_token() {
    let sites = strs(&["a.site1.broker"]);
    let m = collect_tables(&vec![tables("a.site1.broker", &["t1"])]);
    let mut rec = record("a.site1.broker", "secretA");
    rec.token = "%%%".to_string();
    let script = generate_user_script(&sites, &m, &vec![Some(rec)], "key");
    assert_eq!(script, generate_r_script(strs(&["\n # Token not available for bridgehead 'a.site1.broker'"])));
}
