use httpd::fs::{FileError, FileInfo, FileKind, IoKind, Location, OpenResponse, Server};

#[test]
fn matching() {
    let server = Server {
        locations: vec![
            Location { path: "/".to_string(), blocked: false },
            Location { path: "/home/".to_string(), blocked: true },
        ],
    };
    let matched = server.matching("/tmp/normalstuff").unwrap();
    assert!(!matched.blocked);
    let matched = server.matching("/home/user/secretstuff").unwrap();
    assert!(matched.blocked);
}

#[test]
fn matching_longest_prefix_wins() {
    let server = Server::new(vec![
        Location::new("/", false),
        Location::new("/private/", true),
        Location::new("/private/public/", false),
    ]);
    let matched = server.matching("/private/public/x").unwrap();
    assert!(!matched.blocked);
    assert_eq!(matched.path, "/private/public/");
    let matched = server.matching("/private/x").unwrap();
    assert!(matched.blocked);
}

#[test]
fn matching_first_of_equals_wins() {
    let server = Server::new(vec![
        Location::new("/a/", false),
        Location::new("/a/", true),
    ]);
    let matched = server.matching("/a/x").unwrap();
    assert!(!matched.blocked);
}

#[test]
fn matching_none_without_prefix() {
    let server = Server::new(vec![Location::new("/www/", false)]);
    assert!(server.matching("/etc/passwd").is_none());
}

#[test]
fn matching_ignores_empty_prefix() {
    let server = Server::new(vec![Location::new("", false)]);
    assert!(server.matching("/anything").is_none());
}

#[test]
fn allow_blocked_is_denied() {
    let server = Server::new(vec![
        Location::new("/", false),
        Location::new("/private/", true),
    ]);
    assert_eq!(server.allow("/private/secret"), Err(FileError::NotAllowed));
    assert_eq!(server.allow("/public/data"), Ok(()));
}

#[test]
fn allow_unmatched_is_denied() {
    let server = Server::new(vec![Location::new("/www/", false)]);
    assert_eq!(server.allow("/elsewhere"), Err(FileError::NotAllowed));
}

#[test]
fn io_errors_map_to_file_errors() {
    assert_eq!(FileError::of_io(IoKind::NotFound), FileError::NotFound);
    assert_eq!(FileError::of_io(IoKind::PermissionDenied), FileError::NotAllowed);
    assert_eq!(FileError::of_io(IoKind::Other), FileError::Io);
}

#[test]
fn open_reply_shapes() {
    let reply = OpenResponse::of_open(FileKind::Regular, "/index.html", vec![]);
    match reply {
        OpenResponse::File(info) => assert_eq!(info.name, "/index.html"),
        _ => panic!("expected a file reply"),
    }
    let entries = vec![FileInfo { name: "a.txt".to_string() }];
    let reply = OpenResponse::of_open(FileKind::Directory, "/sub/", entries);
    match reply {
        OpenResponse::Dir(es) => assert_eq!(es[0].name, "a.txt"),
        _ => panic!("expected a directory reply"),
    }
    let reply = OpenResponse::of_open(FileKind::Special, "/dev/null", vec![]);
    match reply {
        OpenResponse::FileError(e) => assert_eq!(e, FileError::SpecialFile),
        _ => panic!("expected an error reply"),
    }
}
