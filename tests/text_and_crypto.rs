use token_manager::aggregate::{collect_tables, Frame, SiteReply};
use token_manager::crypto::{adjust_key, decrypt_data, encrypt_data, nonce_of, open_token, seal_token};
use token_manager::enums::OpalResponse;
use token_manager::errors::TokenManagerError;
use token_manager::script::{fetch_tables_prefix, generate_r_script, split_and_trim, split_prefix};

fn tables(site: &str, names: &[&str]) -> Frame<Vec<String>> {
    Frame::Reply(SiteReply {
        from: site.to_string(),
        body: OpalResponse::Success { response: names.iter().map(|t| t.to_string()).collect() },
    })
}

#[test]
fn key_is_cut_or_padded() {
    let k = adjust_key("abc");
    assert_eq!(&k[..3], b"abc");
    assert!(k[3..].iter().all(|b| *b == 0));
    let long = "0123456789abcdef0123456789ABCDEF-extra";
    assert_eq!(&adjust_key(long)[..], &long.as_bytes()[..32]);
}

#[test]
fn encryption_changes_and_restores() {
    let nonce = [7u8; 16];
    let data = b"hello token".to_vec();
    let enc = encrypt_data(&data, &nonce, "secret-key");
    assert_eq!(enc.len(), data.len());
    assert_ne!(enc, data);
    assert_eq!(encrypt_data(&enc, &nonce, "secret-key"), data);
}

#[test]
fn seal_and_open_round_trip() {
    let name = "f47ac10b-58cc-4372-a567-0e02b2c3d479";
    let sealed = seal_token("my-secret", name, "key");
    assert_ne!(sealed, "my-secret");
    assert_ne!(sealed, "bXktc2VjcmV0");
    assert_eq!(open_token(&sealed, name, "key"), Some("my-secret".to_string()));
    let nonce = nonce_of(name);
    assert_eq!(nonce, name.as_bytes()[..16].to_vec());
    assert_eq!(decrypt_data(&sealed, &nonce, "key"), Some("my-secret".to_string()));
}

#[test]
fn decrypt_rejects_bad_base64() {
    assert_eq!(decrypt_data("not base64!!", &[0u8; 16], "key"), None);
}

#[test]
fn prefix_shared_by_all_tables() {
    let m = collect_tables(&vec![tables("s", &["proj.a", "proj.b", "plain"])]);
    assert_eq!(fetch_tables_prefix(&m, "s", "dflt"), "proj");
}

#[test]
fn prefix_falls_back_to_default() {
    let m = collect_tables(&vec![tables("s", &["left.a", "right.b"]), tables("t", &["plain"])]);
    assert_eq!(fetch_tables_prefix(&m, "s", "dflt"), "dflt");
    assert_eq!(fetch_tables_prefix(&m, "t", "dflt"), "dflt");
    assert_eq!(fetch_tables_prefix(&m, "unknown", "dflt"), "dflt");
}

#[test]
fn split_prefix_first_dot() {
    assert_eq!(split_prefix(&"a.b.c".to_string()), Some("a".to_string()));
    assert_eq!(split_prefix(&".x".to_string()), Some("".to_string()));
    assert_eq!(split_prefix(&"none".to_string()), None);
}

#[test]
fn split_and_trim_pieces() {
    assert_eq!(split_and_trim(" a, b ,c "), vec!["a", "b", "c"]);
    assert_eq!(split_and_trim(""), vec![""]);
    assert_eq!(split_and_trim("x,,y"), vec!["x", "", "y"]);
    assert_eq!(split_and_trim("\u{3000}a\t,\u{a0}b\n"), vec!["a", "b"]);
}

#[test]
fn r_script_text() {
    let s = generate_r_script(vec!["line1".to_string(), "line2".to_string()]);
    let expected = "
        library(DSI)
        library(DSOpal)
        library(dsBaseClient)

        builder <- DSI::newDSLoginBuilder(.silent = FALSE)
        line1
line2

        logindata <- builder$build()
        connections <- DSI::datashield.login(logins = logindata, assign = TRUE, symbol = 'D')
        ";
    assert_eq!(s, expected);
}

#[test]
fn error_messages() {
    assert_eq!(TokenManagerError::DeserializationError("x".to_string()).message(), "Deserialization error: x");
    assert_eq!(TokenManagerError::SerializationError("y".to_string()).message(), "Serialization error: y");
    assert_eq!(TokenManagerError::FailedSendEmail("z".to_string()).message(), "Failed while send email confirmation: z");
}
