use httpd::mime::{MimeDb, MimeDbError};

fn mime_lines() -> Vec<String> {
    vec![
        "# This file maps media types to filename extensions.".to_string(),
        "".to_string(),
        "application/atom+xml\t\tatom".to_string(),
        "application/font-woff\t\twoff".to_string(),
        "application/java-archive\tjar war".to_string(),
    ]
}

#[test]
fn parse() {
    let db = MimeDb::new(&mime_lines()).unwrap();
    let wanted = [
        ("atom", "application/atom+xml"),
        ("woff", "application/font-woff"),
        ("jar", "application/java-archive"),
        ("war", "application/java-archive"),
    ]
    .iter()
    .map(|(a, b)| (a.to_string(), b.to_string()));
    let wanted = MimeDb(wanted.collect());
    assert_eq!(wanted, db);
}

#[test]
fn lookup_by_extension() {
    let db = MimeDb::new(&mime_lines()).unwrap();
    assert_eq!(db.get("feed.atom"), Some("application/atom+xml"));
    assert_eq!(db.get("a.b.war"), Some("application/java-archive"));
    assert_eq!(db.get("noext"), None);
    assert_eq!(db.get("strange.bin"), None);
}

#[test]
fn later_line_wins() {
    let lines = vec![
        "text/plain txt".to_string(),
        "text/special txt".to_string(),
    ];
    let db = MimeDb::new(&lines).unwrap();
    assert_eq!(db.get("a.txt"), Some("text/special"));
}

#[test]
fn blank_like_line_is_malformed() {
    let lines = vec!["   ".to_string()];
    assert_eq!(MimeDb::new(&lines), Err(MimeDbError::Malformed));
}
