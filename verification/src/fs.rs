//! The filesystem worker's decisions: longest-prefix location routing,
//! the allow/deny verdict, and the shape of the reply to one `Open`
//! request. The OS calls around them (canonicalize, open, stat, readdir)
//! live with the caller; every decision on their outcomes is here.

use crate::text;
use vstd::prelude::*;
use vstd::seq_lib::*;

verus! {

/// One configured filesystem prefix with its allow/deny bit. Matching is
/// plain string prefix on the canonical path, so a configured path should
/// end in `/`: a bare `/var/www/htdocs` claims `/var/www/htdocsX` as well
/// as `/var/www/htdocs/a`.
#[derive(Debug, Clone)]
pub struct Location {
    pub path: String,
    pub blocked: bool,
}

impl Location {
    /// A location for `path`, denied when `blocked` is set.
    pub fn new(path: &str, blocked: bool) -> (r: Location)
        ensures
            r.path@ == path@,
            r.blocked == blocked,
    {
        Location { path: path.to_owned(), blocked }
    }
}

/// The ordered location set one filesystem worker serves.
#[derive(Debug)]
pub struct Server {
    pub locations: Vec<Location>,
}

impl Server {
    /// A server routing by `locations`, in their given order.
    pub fn new(locations: Vec<Location>) -> (r: Server)
        ensures
            r.locations == locations,
    {
        Server { locations }
    }
}

/// Whether `loc` claims `path`: its configured prefix is non-empty and
/// starts `path`.
pub open spec fn loc_matches(loc: Location, path: Seq<char>) -> bool {
    loc.path@.len() > 0 && loc.path@.is_prefix_of(path)
}

/// The index of the matched location among the first `n`: the longest
/// matching prefix wins, and among equals the first configured wins.
pub open spec fn best_match(locs: Seq<Location>, path: Seq<char>, n: int) -> Option<int>
    decreases n,
{
    if n <= 0 {
        None
    } else {
        let prev = best_match(locs, path, n - 1);
        if loc_matches(locs[n - 1], path) && (match prev {
            None => true,
            Some(j) => locs[n - 1].path@.len() > locs[j].path@.len(),
        }) {
            Some(n - 1)
        } else {
            prev
        }
    }
}

/// The index of the location that claims `path`, if any.
pub open spec fn matching_spec(locs: Seq<Location>, path: Seq<char>) -> Option<int> {
    best_match(locs, path, locs.len() as int)
}

proof fn lemma_best_match(locs: Seq<Location>, path: Seq<char>, n: int)
    requires
        0 <= n <= locs.len(),
    ensures
        best_match(locs, path, n) is None ==> forall|j: int|
            0 <= j < n ==> !loc_matches(locs[j], path),
        best_match(locs, path, n) matches Some(i) ==> {
            &&& 0 <= i < n
            &&& loc_matches(locs[i], path)
            &&& forall|j: int|
                0 <= j < n && loc_matches(locs[j], path) ==> locs[j].path@.len()
                    <= locs[i].path@.len()
            &&& forall|j: int|
                0 <= j < n && loc_matches(locs[j], path) && locs[j].path@.len()
                    == locs[i].path@.len() ==> i <= j
        },
    decreases n,
{
    if n > 0 {
        lemma_best_match(locs, path, n - 1);
    }
}

/// Longest-prefix routing: the matched location is one whose configured
/// prefix starts the path and is as long as any that does, the first
/// configured among equals; no location matches exactly when no non-empty
/// configured prefix starts the path.
pub proof fn lemma_longest_prefix(locs: Seq<Location>, path: Seq<char>)
    ensures
        matching_spec(locs, path) is None ==> forall|j: int|
            0 <= j < locs.len() ==> !loc_matches(locs[j], path),
        matching_spec(locs, path) matches Some(i) ==> {
            &&& 0 <= i < locs.len()
            &&& loc_matches(locs[i], path)
            &&& forall|j: int|
                0 <= j < locs.len() && loc_matches(locs[j], path) ==> locs[j].path@.len()
                    <= locs[i].path@.len()
            &&& forall|j: int|
                0 <= j < locs.len() && loc_matches(locs[j], path) && locs[j].path@.len()
                    == locs[i].path@.len() ==> i <= j
        },
{
    lemma_best_match(locs, path, locs.len() as int);
}

/// Longest-prefix routing as the operator reads it: when every configured
/// path is non-empty, the match is absent exactly when no configured path
/// starts the path at all (the caller then answers 403), and otherwise
/// the matched location's path is as long as any that starts it. A
/// location configured with an empty path never matches and is left out
/// of this reading.
pub proof fn lemma_no_match_means_no_prefix(locs: Seq<Location>, path: Seq<char>)
    requires
        forall|j: int| 0 <= j < locs.len() ==> locs[j].path@.len() > 0,
    ensures
        matching_spec(locs, path) is None <==> forall|j: int|
            0 <= j < locs.len() ==> !locs[j].path@.is_prefix_of(path),
        matching_spec(locs, path) matches Some(i) ==> 0 <= i < locs.len()
            && locs[i].path@.is_prefix_of(path) && forall|j: int|
            0 <= j < locs.len() && locs[j].path@.is_prefix_of(path) ==> locs[j].path@.len()
                <= locs[i].path@.len(),
{
    lemma_longest_prefix(locs, path);
    if matching_spec(locs, path) is None {
        assert forall|j: int| 0 <= j < locs.len() implies !locs[j].path@.is_prefix_of(path) by {
            assert(!loc_matches(locs[j], path));
        }
    }
}

impl Server {
    /// The location that claims `path`, if any: the longest matching
    /// prefix wins, the first configured among equals.
    pub fn matching(&self, path: &str) -> (r: Option<&Location>)
        ensures
            match matching_spec(self.locations@, path@) {
                Some(i) => r matches Some(l) && *l == self.locations@[i],
                None => r is None,
            },
    {
        let mut best: Option<usize> = None;
        let mut bestlen: usize = 0;
        let n = self.locations.len();
        let mut i: usize = 0;
        while i < n
            invariant
                i <= n == self.locations@.len(),
                match best_match(self.locations@, path@, i as int) {
                    None => best is None && bestlen == 0,
                    Some(bi) => 0 <= bi < n && best == Some(bi as usize) && bestlen
                        == self.locations@[bi].path@.len() && bestlen > 0,
                },
            decreases n - i,
        {
            let loc = &self.locations[i];
            let plen = loc.path.as_str().unicode_len();
            if text::is_prefix(loc.path.as_str(), path) && plen > bestlen {
                best = Some(i);
                bestlen = plen;
            }
            i = i + 1;
        }
        match best {
            Some(bi) => Some(&self.locations[bi]),
            None => None,
        }
    }
}

/// What can go wrong resolving a path, as reported to the client worker.
#[derive(Debug, PartialEq, Eq, Structural, Clone, Copy)]
pub enum FileError {
    NotFound,
    NotAllowed,
    SpecialFile,
    Io,
}

/// The shape of an I/O failure, as far as the verdict depends on it.
#[derive(Debug, PartialEq, Eq, Structural, Clone, Copy)]
pub enum IoKind {
    NotFound,
    PermissionDenied,
    Other,
}

impl FileError {
    /// The error reported for an OS failure of kind `k`.
    pub fn of_io(k: IoKind) -> (r: FileError)
        ensures
            k is NotFound ==> r == FileError::NotFound,
            k is PermissionDenied ==> r == FileError::NotAllowed,
            k is Other ==> r == FileError::Io,
    {
        match k {
            IoKind::NotFound => FileError::NotFound,
            IoKind::PermissionDenied => FileError::NotAllowed,
            IoKind::Other => FileError::Io,
        }
    }
}

/// The verdict on a canonical path: allowed exactly when some location
/// claims it and the winning location is not blocked.
pub open spec fn allow_spec(locs: Seq<Location>, path: Seq<char>) -> Result<(), FileError> {
    match matching_spec(locs, path) {
        None => Err(FileError::NotAllowed),
        Some(i) => if locs[i].blocked {
            Err(FileError::NotAllowed)
        } else {
            Ok(())
        },
    }
}

impl Server {
    /// The verdict on the canonical path `path`, as `allow_spec` says.
    pub fn allow(&self, path: &str) -> (r: Result<(), FileError>)
        ensures
            r == allow_spec(self.locations@, path@),
    {
        match self.matching(path) {
            None => Err(FileError::NotAllowed),
            Some(matched) => {
                if matched.blocked {
                    Err(FileError::NotAllowed)
                } else {
                    Ok(())
                }
            },
        }
    }
}

/// If the longest match is blocked the verdict is denied, whatever is on
/// disk: the verdict reads nothing but the locations and the path.
pub proof fn lemma_blocked_dominance(locs: Seq<Location>, path: Seq<char>, i: int)
    requires
        matching_spec(locs, path) == Some(i),
        0 <= i < locs.len(),
        locs[i].blocked,
    ensures
        allow_spec(locs, path) == Err::<(), FileError>(FileError::NotAllowed),
{
}

/// One directory entry or served file, named for the client.
#[derive(Debug, PartialEq, Clone)]
pub struct FileInfo {
    pub name: String,
}

/// The reply to one `Open` request. A `File` reply travels with the open
/// file descriptor; the descriptor itself stays with the I/O caller.
#[derive(Debug)]
pub enum OpenResponse {
    FileError(FileError),
    File(FileInfo),
    Dir(Vec<FileInfo>),
}

/// What a successful `stat` said the opened path is.
#[derive(Debug, PartialEq, Eq, Structural, Clone, Copy)]
pub enum FileKind {
    Regular,
    Directory,
    Special,
}

impl OpenResponse {
    /// The reply owed once the path was allowed and opened: the file named
    /// by the request path, the directory's collected entries, or a
    /// refusal of special files.
    pub fn of_open(kind: FileKind, name: &str, entries: Vec<FileInfo>) -> (r: OpenResponse)
        ensures
            kind is Regular ==> (r matches OpenResponse::File(i) && i.name@ == name@),
            kind is Directory ==> (r matches OpenResponse::Dir(es) && es == entries),
            kind is Special ==> r == OpenResponse::FileError(FileError::SpecialFile),
    {
        match kind {
            FileKind::Regular => OpenResponse::File(FileInfo { name: name.to_owned() }),
            FileKind::Directory => OpenResponse::Dir(entries),
            FileKind::Special => OpenResponse::FileError(FileError::SpecialFile),
        }
    }
}

/// One request from the client worker to the filesystem worker.
#[derive(Debug, PartialEq, Clone)]
pub enum RecvMessageClient {
    Open(String),
}

} // verus!
