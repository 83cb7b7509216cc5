use std::collections::HashMap;

use logtail::engine::{EventKind, Outcome, Record, Request, TailEngine};
use logtail::path::{matches_extension, name_for};

/// A directory held in memory: each path with the bytes its file holds.
struct Dir {
    files: HashMap<String, Vec<u8>>,
}

impl Dir {
    fn new() -> Dir {
        Dir { files: HashMap::new() }
    }

    fn append(&mut self, path: &str, bytes: &[u8]) {
        self.files.entry(path.to_string()).or_default().extend_from_slice(bytes);
    }

    fn observe(&self, path: &str, req: Request) -> Outcome {
        match (req, self.files.get(path)) {
            (Request::Nothing, _) => Outcome::Skipped,
            (_, None) => Outcome::Failed,
            (Request::OpenAtEnd, Some(b)) => Outcome::Opened(b.len() as u64),
            (Request::ReadFrom(c), Some(b)) => {
                let c = c as usize;
                Outcome::Read(if c <= b.len() { b[c..].to_vec() } else { Vec::new() })
            }
        }
    }
}

fn engine() -> TailEngine {
    TailEngine::new("log".to_string())
}

fn event(e: &mut TailEngine, dir: &Dir, kind: EventKind, path: &str) -> Option<Record> {
    let p = path.to_string();
    let req = e.request(kind, &p);
    let seen = dir.observe(path, req);
    e.handle(kind, p, seen)
}

fn seed(e: &mut TailEngine, dir: &Dir, path: &str) -> bool {
    let p = path.to_string();
    let req = e.request(EventKind::Created, &p);
    let seen = dir.observe(path, req);
    e.seed(p, seen)
}

fn content(path: &str, name: &str, bytes: &[u8]) -> Record {
    Record::Content { path: path.to_string(), name: name.to_string(), bytes: bytes.to_vec() }
}

#[test]
fn empty_file_at_startup_then_hello() {
    let mut dir = Dir::new();
    dir.append("/d/a.log", b"");
    let mut e = engine();
    assert!(seed(&mut e, &dir, "/d/a.log"));
    dir.append("/d/a.log", b"hello");
    let out = event(&mut e, &dir, EventKind::Modified, "/d/a.log");
    assert_eq!(out, Some(content("/d/a.log", "a.log", b"hello")));
    assert_eq!(event(&mut e, &dir, EventKind::Modified, "/d/a.log"), None);
}

#[test]
fn created_written_removed() {
    let mut dir = Dir::new();
    let mut e = engine();
    dir.append("/d/b.log", b"");
    let mut out = Vec::new();
    out.extend(event(&mut e, &dir, EventKind::Created, "/d/b.log"));
    dir.append("/d/b.log", b"x");
    out.extend(event(&mut e, &dir, EventKind::Modified, "/d/b.log"));
    dir.files.remove("/d/b.log");
    out.extend(event(&mut e, &dir, EventKind::Removed, "/d/b.log"));
    assert_eq!(
        out,
        vec![
            Record::Added("/d/b.log".to_string()),
            content("/d/b.log", "b.log", b"x"),
            Record::Removed("/d/b.log".to_string()),
        ]
    );
}

#[test]
fn other_extension_is_never_reported() {
    let mut dir = Dir::new();
    let mut e = engine();
    dir.append("/d/c.txt", b"");
    assert_eq!(event(&mut e, &dir, EventKind::Created, "/d/c.txt"), None);
    for _ in 0..3 {
        dir.append("/d/c.txt", b"more\n");
        assert_eq!(event(&mut e, &dir, EventKind::Modified, "/d/c.txt"), None);
    }
    assert_eq!(event(&mut e, &dir, EventKind::Removed, "/d/c.txt"), None);
    assert!(!e.is_tracked(&"/d/c.txt".to_string()));
    assert!(!seed(&mut e, &dir, "/d/c.txt"));
}

#[test]
fn history_before_startup_is_not_reported() {
    let mut dir = Dir::new();
    dir.append("/d/old.log", b"line one\nline two\n");
    let mut e = engine();
    assert!(seed(&mut e, &dir, "/d/old.log"));
    assert_eq!(e.cursor(&"/d/old.log".to_string()), Some(18));
    assert_eq!(event(&mut e, &dir, EventKind::Modified, "/d/old.log"), None);
    dir.append("/d/old.log", b"three\n");
    assert_eq!(
        event(&mut e, &dir, EventKind::Modified, "/d/old.log"),
        Some(content("/d/old.log", "old.log", b"three\n"))
    );
}

#[test]
fn appends_are_reported_once_in_order() {
    let mut dir = Dir::new();
    dir.append("/d/a.log", b"seen");
    let mut e = engine();
    assert!(seed(&mut e, &dir, "/d/a.log"));
    let mut got: Vec<u8> = Vec::new();
    let pieces: [&[u8]; 5] = [b"ab", b"", b"cde", b"partial li", b"ne\n"];
    for piece in pieces {
        dir.append("/d/a.log", piece);
        if let Some(Record::Content { bytes, .. }) = event(&mut e, &dir, EventKind::Modified, "/d/a.log") {
            got.extend_from_slice(&bytes);
        }
        // a duplicate notification reads nothing new
        assert_eq!(event(&mut e, &dir, EventKind::Modified, "/d/a.log"), None);
    }
    assert_eq!(got, b"abcdepartial line\n".to_vec());
    assert_eq!(e.cursor(&"/d/a.log".to_string()), Some(22));
}

#[test]
fn modify_of_untracked_path_is_ignored() {
    let mut dir = Dir::new();
    dir.append("/d/late.log", b"unseeded history");
    let mut e = engine();
    assert_eq!(e.request(EventKind::Modified, &"/d/late.log".to_string()), Request::Nothing);
    assert_eq!(event(&mut e, &dir, EventKind::Modified, "/d/late.log"), None);
    let forced = e.handle(EventKind::Modified, "/d/late.log".to_string(), Outcome::Read(b"x".to_vec()));
    assert_eq!(forced, None);
    assert!(!e.is_tracked(&"/d/late.log".to_string()));
}

#[test]
fn modify_after_remove_is_ignored_until_created() {
    let mut dir = Dir::new();
    dir.append("/d/r.log", b"");
    let mut e = engine();
    assert!(seed(&mut e, &dir, "/d/r.log"));
    assert_eq!(
        event(&mut e, &dir, EventKind::Removed, "/d/r.log"),
        Some(Record::Removed("/d/r.log".to_string()))
    );
    // a duplicate remove reports nothing
    assert_eq!(event(&mut e, &dir, EventKind::Removed, "/d/r.log"), None);
    dir.append("/d/r.log", b"stale");
    assert_eq!(event(&mut e, &dir, EventKind::Modified, "/d/r.log"), None);
    assert_eq!(
        event(&mut e, &dir, EventKind::Created, "/d/r.log"),
        Some(Record::Added("/d/r.log".to_string()))
    );
    dir.append("/d/r.log", b"fresh");
    assert_eq!(
        event(&mut e, &dir, EventKind::Modified, "/d/r.log"),
        Some(content("/d/r.log", "r.log", b"fresh"))
    );
}

#[test]
fn recreate_replaces_the_cursor() {
    let mut dir = Dir::new();
    dir.append("/d/x.log", b"0123456789");
    let mut e = engine();
    assert!(seed(&mut e, &dir, "/d/x.log"));
    dir.files.insert("/d/x.log".to_string(), b"ab".to_vec());
    assert_eq!(
        event(&mut e, &dir, EventKind::Created, "/d/x.log"),
        Some(Record::Added("/d/x.log".to_string()))
    );
    assert_eq!(e.cursor(&"/d/x.log".to_string()), Some(2));
}

#[test]
fn open_failure_tracks_nothing() {
    let dir = Dir::new();
    let mut e = engine();
    assert_eq!(event(&mut e, &dir, EventKind::Created, "/d/gone.log"), None);
    assert!(!e.is_tracked(&"/d/gone.log".to_string()));
    assert!(!seed(&mut e, &dir, "/d/gone.log"));
}

#[test]
fn read_failure_leaves_the_entry() {
    let mut dir = Dir::new();
    dir.append("/d/f.log", b"abc");
    let mut e = engine();
    assert!(seed(&mut e, &dir, "/d/f.log"));
    assert_eq!(e.handle(EventKind::Modified, "/d/f.log".to_string(), Outcome::Failed), None);
    assert!(e.is_tracked(&"/d/f.log".to_string()));
    assert_eq!(e.cursor(&"/d/f.log".to_string()), Some(3));
}

#[test]
fn truncated_file_reads_nothing() {
    let mut dir = Dir::new();
    dir.append("/d/t.log", b"abcdef");
    let mut e = engine();
    assert!(seed(&mut e, &dir, "/d/t.log"));
    dir.files.insert("/d/t.log".to_string(), b"xy".to_vec());
    assert_eq!(event(&mut e, &dir, EventKind::Modified, "/d/t.log"), None);
    assert_eq!(e.cursor(&"/d/t.log".to_string()), Some(6));
}

#[test]
fn cursor_never_passes_the_largest_offset() {
    let mut e = engine();
    let p = "/d/big.log".to_string();
    assert!(e.seed(p.clone(), Outcome::Opened(u64::MAX - 1)));
    assert_eq!(e.handle(EventKind::Modified, p.clone(), Outcome::Read(b"ab".to_vec())), None);
    assert_eq!(e.cursor(&p), Some(u64::MAX - 1));
    assert_eq!(
        e.handle(EventKind::Modified, p.clone(), Outcome::Read(b"a".to_vec())),
        Some(content("/d/big.log", "big.log", b"a"))
    );
    assert_eq!(e.cursor(&p), Some(u64::MAX));
}

#[test]
fn other_events_are_ignored() {
    let mut dir = Dir::new();
    dir.append("/d/o.log", b"");
    let mut e = engine();
    assert!(seed(&mut e, &dir, "/d/o.log"));
    dir.append("/d/o.log", b"zz");
    assert_eq!(e.request(EventKind::Other, &"/d/o.log".to_string()), Request::Nothing);
    assert_eq!(event(&mut e, &dir, EventKind::Other, "/d/o.log"), None);
    assert_eq!(e.cursor(&"/d/o.log".to_string()), Some(0));
}

#[test]
fn requests_follow_the_registry() {
    let mut dir = Dir::new();
    dir.append("/d/q.log", b"1234");
    let mut e = engine();
    let p = "/d/q.log".to_string();
    assert_eq!(e.request(EventKind::Created, &p), Request::OpenAtEnd);
    assert_eq!(e.request(EventKind::Removed, &p), Request::Nothing);
    assert!(seed(&mut e, &dir, "/d/q.log"));
    assert_eq!(e.request(EventKind::Modified, &p), Request::ReadFrom(4));
    assert_eq!(e.request(EventKind::Created, &"/d/q.txt".to_string()), Request::Nothing);
}

#[test]
fn extension_filter() {
    let log = "log".to_string();
    assert!(matches_extension("/var/log/app.log", &log));
    assert!(matches_extension("app.old.log", &log));
    assert!(!matches_extension("/var/log/app.txt", &log));
    assert!(!matches_extension("/var/log/app.log.1", &log));
    assert!(!matches_extension("/var/log/.log", &log));
    assert!(!matches_extension("/var/log/log", &log));
    assert!(!matches_extension("/var/log/app.LOG", &log));
    assert!(matches_extension("notes.txt", &"txt".to_string()));
    assert_eq!(engine().extension(), "log");
}

#[test]
fn display_names() {
    assert_eq!(name_for("/var/log/app.log"), "app.log");
    assert_eq!(name_for("app.log"), "app.log");
    assert_eq!(name_for("/var/log/"), "log");
    assert_eq!(name_for("/var/.."), "unknown");
    assert_eq!(name_for("/"), "unknown");
}
