use httpd::client::{first_probe, respond, second_probe};
use httpd::fs::{FileError, FileInfo, FileKind, IoKind, Location, OpenResponse, Server};
use httpd::http::{Method, Request};
use httpd::mime::MimeDb;

fn html_db() -> MimeDb {
    MimeDb::new(&vec!["text/html\t\t\thtml htm".to_string()]).unwrap()
}

#[test]
fn get_small_file() {
    let req = Request::read("GET /index.html HTTP/1.1", &vec![]).unwrap();
    let server = Server::new(vec![Location::new("/", false)]);
    let probe = first_probe(req.path());
    assert_eq!(probe, "/index.html");
    assert_eq!(server.allow(&probe), Ok(()));
    let reply = OpenResponse::of_open(FileKind::Regular, &probe, vec![]);
    assert!(second_probe(req.path(), &reply).is_none());
    let head = req.method() == Method::HEAD;
    let resp = respond(&reply, Some(2), req.version(), head, &html_db());
    let out = resp.write();
    assert_eq!(out, "HTTP/1.1 200 OK\r\nContent-Length: 2\r\nContent-Type: text/html\r\n\r\n");
    let full = format!("{}{}", out, "hi");
    assert_eq!(
        full,
        "HTTP/1.1 200 OK\r\nContent-Length: 2\r\nContent-Type: text/html\r\n\r\nhi"
    );
}

#[test]
fn get_missing_file() {
    let req = Request::read("GET /missing HTTP/1.0", &vec![]).unwrap();
    let server = Server::new(vec![Location::new("/", false)]);
    assert_eq!(server.allow(req.path()), Ok(()));
    let reply = OpenResponse::FileError(FileError::of_io(IoKind::NotFound));
    let resp = respond(&reply, None, req.version(), false, &html_db());
    assert_eq!(resp.write(), "HTTP/1.0 404 Not found\r\nContent-Length: 0\r\n\r\n");
}

#[test]
fn get_blocked_location() {
    let req = Request::read("GET /private/secret HTTP/1.1", &vec![]).unwrap();
    let server = Server::new(vec![
        Location::new("/", false),
        Location::new("/private/", true),
    ]);
    let verdict = server.allow(req.path());
    assert_eq!(verdict, Err(FileError::NotAllowed));
    let reply = OpenResponse::FileError(verdict.unwrap_err());
    let resp = respond(&reply, None, req.version(), false, &html_db());
    assert_eq!(resp.write(), "HTTP/1.1 403 Forbidden\r\nContent-Length: 0\r\n\r\n");
}

#[test]
fn get_directory_listing() {
    let req = Request::read("GET /sub/ HTTP/1.1", &vec![]).unwrap();
    let server = Server::new(vec![Location::new("/", false)]);
    let probe = first_probe(req.path());
    assert_eq!(probe, "/sub/index.html");
    let first = OpenResponse::FileError(FileError::of_io(IoKind::NotFound));
    let again = second_probe(req.path(), &first).unwrap();
    assert_eq!(again, "/sub/");
    assert_eq!(server.allow(&again), Ok(()));
    let entries = vec![FileInfo { name: "a.txt".to_string() }];
    let reply = OpenResponse::of_open(FileKind::Directory, &again, entries);
    let resp = respond(&reply, None, req.version(), false, &html_db());
    let out = resp.write();
    assert!(out.starts_with("HTTP/1.1 200 OK\r\n"));
    assert!(out.contains("Content-Type: text/html"));
    assert!(out.contains("<a href=a.txt/>a.txt</a>"));
}

#[test]
fn get_percent_encoded_path() {
    let req = Request::read("GET /%20space HTTP/1.1", &vec![]).unwrap();
    assert_eq!(req.path(), "/ space");
    let server = Server::new(vec![Location::new("/", false)]);
    assert_eq!(server.allow(req.path()), Ok(()));
    let reply = OpenResponse::of_open(FileKind::Regular, req.path(), vec![]);
    let resp = respond(&reply, Some(7), req.version(), false, &html_db());
    let out = resp.write();
    assert!(out.starts_with("HTTP/1.1 200 OK\r\n"));
}

#[test]
fn directory_index_served() {
    let req = Request::read("GET /sub/ HTTP/1.1", &vec![]).unwrap();
    let probe = first_probe(req.path());
    assert_eq!(probe, "/sub/index.html");
    let first = OpenResponse::of_open(FileKind::Regular, &probe, vec![]);
    assert!(second_probe(req.path(), &first).is_none());
    let resp = respond(&first, Some(2), req.version(), false, &html_db());
    let out = resp.write();
    assert_eq!(out, "HTTP/1.1 200 OK\r\nContent-Length: 2\r\nContent-Type: text/html\r\n\r\n");
}

#[test]
fn head_matches_get() {
    let get_req = Request::read("GET /index.html HTTP/1.1", &vec![]).unwrap();
    let head_req = Request::read("HEAD /index.html HTTP/1.1", &vec![]).unwrap();
    assert_eq!(head_req.method(), Method::HEAD);
    let reply = OpenResponse::of_open(FileKind::Regular, "/index.html", vec![]);
    let get_resp = respond(&reply, Some(2), get_req.version(), false, &html_db());
    let head_resp = respond(&reply, Some(2), head_req.version(), true, &html_db());
    let get_out = get_resp.write();
    let head_out = head_resp.write();
    assert_eq!(head_out, get_out);
    assert_eq!(
        head_out,
        "HTTP/1.1 200 OK\r\nContent-Length: 2\r\nContent-Type: text/html\r\n\r\n"
    );
}

#[test]
fn head_withholds_text_body() {
    let entries = vec![FileInfo { name: "a.txt".to_string() }];
    let reply = OpenResponse::of_open(FileKind::Directory, "/sub/", entries);
    let get_resp = respond(&reply, None, httpd::http::Version::OneOne, false, &html_db());
    let head_resp = respond(&reply, None, httpd::http::Version::OneOne, true, &html_db());
    let get_out = get_resp.write();
    let head_out = head_resp.write();
    assert!(head_out.ends_with("\r\n\r\n"));
    assert!(get_out.starts_with(&head_out));
    let body = &get_out[head_out.len()..];
    assert!(body.starts_with("<!DOCTYPE html>"));
    assert!(head_out.contains(&format!("Content-Length: {}", body.len())));
}
