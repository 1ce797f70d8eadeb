use hive::dotenv::{export_lines, find_key, list_entries, remove_key, secret_listing, set_key, EnvLine, SecretLine};

#[test]
fn find_key_reads_trimmed_unquoted_value() {
    let content = "# comment\nAPP_NAME = \"My App\" \nDB='x'\n";
    assert_eq!(find_key(content, "APP_NAME"), Some("My App".to_string()));
    assert_eq!(find_key(content, "DB"), Some("x".to_string()));
    assert_eq!(find_key(content, "MISSING"), None);
}

#[test]
fn find_key_skips_comments_and_blank_lines() {
    let content = "#APP=1\n\n   \nAPP=2\n";
    assert_eq!(find_key(content, "APP"), Some("2".to_string()));
    assert_eq!(find_key(content, "#APP"), None);
}

#[test]
fn find_key_takes_first_entry() {
    let content = "K=first\nK=second\n";
    assert_eq!(find_key(content, "K"), Some("first".to_string()));
}

#[test]
fn find_key_empty_value() {
    assert_eq!(find_key("JWT_SECRET=\n", "JWT_SECRET"), Some(String::new()));
}

#[test]
fn set_key_replaces_existing_entry() {
    let content = "# top\nA=1\nB=2\n";
    assert_eq!(set_key(content, "A", "9"), "# top\nA=9\nB=2\n");
}

#[test]
fn set_key_appends_new_entry() {
    assert_eq!(set_key("A=1", "B", "2"), "A=1\nB=2\n");
    assert_eq!(set_key("", "B", "2"), "B=2\n");
}

#[test]
fn set_key_leaves_comment_with_same_key() {
    let content = "#A=1\n";
    assert_eq!(set_key(content, "A", "2"), "#A=1\nA=2\n");
}

#[test]
fn set_key_replaces_every_entry_of_key() {
    assert_eq!(set_key("K=1\nK=2\n", "K", "3"), "K=3\nK=3\n");
}

#[test]
fn set_then_find_reads_back() {
    let content = "# header\nX = old\nY=1\n";
    let updated = set_key(content, "X", "new");
    assert_eq!(find_key(&updated, "X"), Some("new".to_string()));
    assert_eq!(find_key(&updated, "Y"), Some("1".to_string()));
}

#[test]
fn set_keeps_other_keys() {
    let content = "A=1\nB=2\nC=3\n";
    let updated = set_key(content, "B", "20");
    assert_eq!(find_key(&updated, "A"), Some("1".to_string()));
    assert_eq!(find_key(&updated, "C"), Some("3".to_string()));
}

#[test]
fn remove_key_drops_entries() {
    assert_eq!(remove_key("A=1\nB=2\nA=3\n", "A"), "B=2\n");
    assert_eq!(remove_key("A=1\n", "Z"), "A=1\n");
}

#[test]
fn remove_then_find_gives_none() {
    let content = "A=1\nB=2\n";
    let updated = remove_key(content, "A");
    assert_eq!(find_key(&updated, "A"), None);
    assert_eq!(find_key(&updated, "B"), Some("2".to_string()));
}

#[test]
fn remove_key_of_empty_file() {
    assert_eq!(remove_key("", "A"), "\n");
}

#[test]
fn list_entries_classifies_lines() {
    let content = "# note\n\nKEY=value\nEMPTY=\nnoequals\n";
    let es = list_entries(content);
    assert_eq!(es.len(), 4);
    assert!(matches!(&es[0], EnvLine::Comment(c) if c == "# note"));
    assert!(matches!(&es[1], EnvLine::Blank));
    assert!(matches!(&es[2], EnvLine::Pair(k, v) if k == "KEY" && v == "value"));
    assert!(matches!(&es[3], EnvLine::Pair(k, v) if k == "EMPTY" && v.is_empty()));
}

#[test]
fn export_lines_skip_empty_values() {
    let content = "# secrets\nJWT_SECRET = abc \nAPI_KEY=\nSMTP_PORT=587\n";
    let ex = export_lines(content);
    assert_eq!(ex, vec!["export JWT_SECRET=\"abc\"".to_string(), "export SMTP_PORT=\"587\"".to_string()]);
}

#[test]
fn secret_listing_hides_values() {
    let content = "# keys\n\nJWT_SECRET = hunter2\nAPI_KEY=\nnoequals\n";
    assert_eq!(
        secret_listing(content),
        vec![
            SecretLine::Comment("# keys".to_string()),
            SecretLine::Blank,
            SecretLine::Masked("JWT_SECRET ".to_string(), true),
            SecretLine::Masked("API_KEY".to_string(), false),
        ]
    );
}

#[test]
fn remove_key_is_a_filter_and_idempotent() {
    let content = "# c\nA=1\n B = 2\nA =3\nplain\n";
    let once = remove_key(content, "A");
    assert_eq!(once, "# c\n B = 2\nplain\n");
    assert_eq!(remove_key(&once, "A"), once);
}

#[test]
fn set_key_keeps_line_positions() {
    let content = "# c\nA=1\n\nB=2";
    let r = set_key(content, "A", "9");
    assert_eq!(r.lines().count(), content.lines().count());
    assert_eq!(r, "# c\nA=9\n\nB=2\n");
    let r = set_key(content, "C", "3");
    assert_eq!(r.lines().count(), content.lines().count() + 1);
    assert_eq!(r.lines().last(), Some("C=3"));
    assert!(r.ends_with('\n'));
}

#[test]
fn secret_listing_same_for_different_values() {
    let a = "# keys\nJWT_SECRET=hunter2\nAPI_KEY=\n";
    let b = "# keys\n  JWT_SECRET=other-value  \nAPI_KEY=\n";
    assert_eq!(secret_listing(a), secret_listing(b));
}
