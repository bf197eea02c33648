use httpd::client::{
    code_of_error, dir_listing, first_probe, keep_alive, second_probe, version_of_alpn,
    ClientConfig, HttpVersion, KEEPALIVE_SECS,
};
use httpd::fs::{FileError, FileInfo, OpenResponse};
use httpd::http::{ResponseCode, Version};
use httpd::proc::{ProcessBuilder, PARENT_FD};

#[test]
fn keep_alive_policy() {
    assert!(!keep_alive(HttpVersion::One, Version::One));
    assert!(!keep_alive(HttpVersion::One, Version::OneOne));
    assert!(keep_alive(HttpVersion::OneOne, Version::One));
    assert!(keep_alive(HttpVersion::OneOne, Version::OneOne));
    assert!(!keep_alive(HttpVersion::Unknown, Version::One));
    assert!(keep_alive(HttpVersion::Unknown, Version::OneOne));
    assert_eq!(KEEPALIVE_SECS, 60);
}

#[test]
fn version_bytes() {
    assert_eq!(HttpVersion::from_byte(0), Some(HttpVersion::One));
    assert_eq!(HttpVersion::from_byte(1), Some(HttpVersion::OneOne));
    assert_eq!(HttpVersion::from_byte(2), Some(HttpVersion::Unknown));
    assert_eq!(HttpVersion::from_byte(3), None);
    assert_eq!(HttpVersion::One.to_byte(), 0);
    assert_eq!(HttpVersion::OneOne.to_byte(), 1);
    assert_eq!(HttpVersion::Unknown.to_byte(), 2);
    assert_eq!(HttpVersion::from(Version::One), HttpVersion::One);
    assert_eq!(HttpVersion::from(Version::OneOne), HttpVersion::OneOne);
}

#[test]
fn alpn_versions() {
    assert_eq!(version_of_alpn(Some(b"http/1.0")), HttpVersion::One);
    assert_eq!(version_of_alpn(Some(b"http/1.1")), HttpVersion::OneOne);
    assert_eq!(version_of_alpn(Some(b"h2")), HttpVersion::Unknown);
    assert_eq!(version_of_alpn(None), HttpVersion::Unknown);
    assert_eq!(version_of_alpn(None).to_byte(), 2);
}

#[test]
fn error_codes() {
    assert_eq!(code_of_error(FileError::NotFound), ResponseCode::NotFound);
    assert_eq!(code_of_error(FileError::NotAllowed), ResponseCode::PermissionDenied);
    assert_eq!(code_of_error(FileError::SpecialFile), ResponseCode::InternalError);
    assert_eq!(code_of_error(FileError::Io), ResponseCode::InternalError);
}

#[test]
fn probes() {
    assert_eq!(first_probe("/sub/"), "/sub/index.html");
    assert_eq!(first_probe("/file"), "/file");
    let found = OpenResponse::File(FileInfo { name: "/sub/index.html".to_string() });
    let missing = OpenResponse::FileError(FileError::NotFound);
    assert!(second_probe("/sub/", &found).is_none());
    assert_eq!(second_probe("/sub/", &missing), Some("/sub/".to_string()));
    assert!(second_probe("/file", &missing).is_none());
}

#[test]
fn listing_text() {
    let entries = vec![
        FileInfo { name: "a.txt".to_string() },
        FileInfo { name: "b".to_string() },
    ];
    let text = dir_listing(&entries);
    assert_eq!(
        text,
        "<!DOCTYPE html>\n<html>\n<body>\n<pre>\n<a href=../>../</a>\n\
         <a href=a.txt/>a.txt</a>\n<a href=b/>b</a>\n</pre>\n</body>\n</html>\n"
    );
}

#[test]
fn builder_and_config() {
    let builder = ProcessBuilder::new("/usr/sbin/httpd", "filesystem");
    assert_eq!(builder.path, "/usr/sbin/httpd");
    assert_eq!(builder.name, "filesystem");
    assert_eq!(PARENT_FD, 3);
    let config = ClientConfig { tls: true };
    assert!(config.tls);
}
