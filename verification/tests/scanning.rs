//! Scans and filters, on trees that exist only here.

use std::collections::BTreeMap;

use kevat::engine::{
    bytes_still_needed, check_collisions, check_fat_size_limit, check_paths, check_windows_names,
    conflicts, file_time, has_file_time, objection, sync_destination, touched_folders, DestStat,
    Kind, PathFacts,
};
use kevat::journal::Mode;
use kevat::path::{FullPath, Os, Part, RelPath};
use kevat::prepare::{cache_files, leave_out, notes, refusal};
use kevat::scan::{scan_file, Entry, Filter, Found, Manifest, Scan, Skipped};

enum Node {
    Dir(BTreeMap<&'static str, Node>),
    File(&'static str),
    Link,
    Fifo,
    Broken,
}

fn dir(items: Vec<(&'static str, Node)>) -> Node {
    Node::Dir(items.into_iter().collect())
}

fn rel(path: &str) -> RelPath {
    let mut r = RelPath::root();
    for p in path.split('/').filter(|p| !p.is_empty()) {
        r = r.join(p.as_bytes());
    }
    r
}

fn found(n: &Node) -> Found {
    match n {
        Node::Dir(_) => Found::Dir,
        Node::File(t) => Found::File { size: t.len() as u64, mtime: 5, mtime_ns: 5_000_000_001 },
        Node::Link => Found::Symlink,
        Node::Fifo => Found::Other,
        Node::Broken => Found::Unreadable("denied".to_string()),
    }
}

fn walk(s: &mut Scan, root: &Node, f: &Filter) {
    while let Some(d) = s.next_dir() {
        let mut at = root;
        for p in &d.parts {
            let name = std::str::from_utf8(p).unwrap();
            at = match at {
                Node::Dir(m) => &m[name],
                _ => unreachable!(),
            };
        }
        match at {
            Node::Dir(m) => {
                for (name, n) in m {
                    s.visit(&d, name.as_bytes(), found(n), f);
                }
            }
            _ => unreachable!(),
        }
    }
}

fn scan(root: &Node, f: &Filter) -> Manifest {
    let mut s = Scan::tree();
    walk(&mut s, root, f);
    s.finish()
}

fn scan_selected(root: &Node, names: &[&str], f: &Filter) -> Manifest {
    let mut s = Scan::selection();
    for n in names {
        let node = match root {
            Node::Dir(m) => &m[n],
            _ => unreachable!(),
        };
        s.pick(&rel(n), found(node));
    }
    walk(&mut s, root, f);
    s.finish()
}

fn names(m: &Manifest) -> Vec<String> {
    m.files.iter().map(|e| e.rel.text(Os::Linux)).collect()
}

#[test]
fn scan_selected_takes_only_the_chosen_names() {
    let tree = dir(vec![
        ("a", dir(vec![("one.txt", Node::File("1"))])),
        ("b", dir(vec![("two.txt", Node::File("22"))])),
        ("skipme", dir(vec![("no.txt", Node::File("333"))])),
        ("top.txt", Node::File("4444")),
    ]);
    let m = scan_selected(&tree, &["a", "top.txt"], &Filter::none());
    let n = names(&m);
    assert!(n.iter().any(|x| x.ends_with("one.txt")), "chosen folder's file missing");
    assert!(n.iter().any(|x| x == "top.txt"), "chosen file missing");
    assert!(!n.iter().any(|x| x.contains("two.txt")), "unchosen sibling included");
    assert!(!n.iter().any(|x| x.contains("no.txt")), "unchosen folder included");
    assert_eq!(m.total_bytes, 5);
    assert!(n.contains(&format!("a{}one.txt", '/')));
}

#[test]
fn filter_prunes_cache_folders_but_not_chosen_roots() {
    let tree = dir(vec![
        ("docs", dir(vec![("keep.txt", Node::File("keep"))])),
        (
            "appdata",
            dir(vec![("Local", dir(vec![("deep", dir(vec![("cache.bin", Node::File("junk"))]))]))]),
        ),
        (
            "proj",
            dir(vec![
                ("node_modules", dir(vec![("pkg", dir(vec![("index.js", Node::File("junk"))]))])),
                ("main.rs", Node::File("code")),
            ]),
        ),
    ]);
    let m = scan(&tree, &Filter::caches());
    let n = names(&m);
    assert!(n.iter().any(|x| x.ends_with("keep.txt")));
    assert!(n.iter().any(|x| x.ends_with("main.rs")));
    assert!(!n.iter().any(|x| x.contains("cache.bin")), "AppData not pruned");
    assert!(!n.iter().any(|x| x.contains("index.js")), "node_modules not pruned");
    assert_eq!(m.excluded.len(), 2, "each pruned subtree recorded once");
    assert_eq!(m.total_bytes, 4 + 4);
    assert!(m.skipped.is_empty());
    let chosen = scan_selected(&tree, &["appdata"], &Filter::caches());
    assert!(
        names(&chosen).iter().any(|x| x.contains("cache.bin")),
        "explicitly chosen root was filtered away"
    );
}

#[test]
fn nothing_listed_is_dropped_in_silence() {
    let tree = dir(vec![
        ("link", Node::Link),
        ("pipe", Node::Fifo),
        ("broken", Node::Broken),
        ("ok", Node::File("x")),
        ("sub", dir(vec![("deep", dir(vec![]))])),
    ]);
    let m = scan(&tree, &Filter::none());
    assert_eq!(names(&m), ["ok"]);
    assert_eq!(m.skipped.len(), 3);
    assert_eq!(m.dirs.iter().map(|d| d.text(Os::Linux)).collect::<Vec<_>>(), ["sub", "sub/deep"]);
    assert_eq!(m.file_count(), 1);
    assert!(!m.root_is_file);
}

#[test]
fn parents_come_before_their_children() {
    let tree = dir(vec![
        ("z", dir(vec![("y", dir(vec![("x", dir(vec![]))]))])),
        ("a", dir(vec![("b", dir(vec![]))])),
    ]);
    let m = scan(&tree, &Filter::none());
    let depths: Vec<usize> = m.dirs.iter().map(|d| d.depth()).collect();
    assert!(depths.windows(2).all(|w| w[0] <= w[1]), "{depths:?}");
    assert_eq!(m.dirs.len(), 5);
}

/// How often each path stands in a manifest, and the sum of the sizes of its files.
fn counted(m: &Manifest) -> (BTreeMap<String, usize>, u64) {
    let mut times = BTreeMap::new();
    let files = m.files.iter().map(|f| &f.rel);
    for r in m.dirs.iter().chain(files).chain(m.excluded.iter()) {
        *times.entry(r.text(Os::Linux)).or_insert(0) += 1;
    }
    (times, m.files.iter().map(|f| f.size).sum())
}

#[test]
fn each_path_stands_once_and_the_sizes_add_up() {
    let tree = dir(vec![
        ("b", dir(vec![("x", Node::File("12345")), ("y", dir(vec![("x", Node::File("1"))]))])),
        ("a", dir(vec![("x", Node::File("")), ("y", Node::File("123"))])),
        ("x", Node::File("1234567")),
    ]);
    let (times, sum) = counted(&scan(&tree, &Filter::none()));
    assert_eq!(
        times.keys().collect::<Vec<_>>(),
        ["a", "a/x", "a/y", "b", "b/x", "b/y", "b/y/x", "x"]
    );
    assert!(times.values().all(|n| *n == 1));
    assert_eq!(sum, 16);
    assert_eq!(scan(&tree, &Filter::none()).total_bytes, 16);
    let m = scan_selected(&tree, &["x", "b"], &Filter::none());
    let (times, sum) = counted(&m);
    assert_eq!(times.keys().collect::<Vec<_>>(), ["b", "b/x", "b/y", "b/y/x", "x"]);
    assert!(times.values().all(|n| *n == 1));
    assert_eq!((m.total_bytes, sum), (13, 13));
}

#[test]
fn a_total_stops_at_what_64_bits_hold() {
    let mut s = Scan::selection();
    for (n, size) in [("a", u64::MAX - 1), ("b", 7)] {
        s.pick(&rel(n), Found::File { size, mtime: 0, mtime_ns: 0 });
    }
    assert_eq!(s.finish().total_bytes, u64::MAX);
}

#[test]
fn a_file_source_is_its_own_manifest() {
    let m = scan_file(Some(b"a.iso".to_vec()), 7, 1, 2).unwrap();
    assert!(m.root_is_file);
    assert_eq!((m.total_bytes, m.files.len()), (7, 1));
    let e = scan_file(None, 7, 1, 2).err().unwrap();
    assert_eq!((e.kind, e.why.as_str()), (Kind::InvalidInput, "source has no file name"));
}

#[test]
fn filters_match_names_in_any_case() {
    let mut f = Filter::none();
    assert!(f.is_empty());
    f.add("Target");
    f.add_prefix("onedrive");
    assert!(!f.is_empty());
    assert!(f.excludes(b"TARGET") && !f.excludes(b"targets"));
    assert!(f.excludes(b"OneDrive - Tenant") && !f.excludes(b"MyOneDrive"));
    assert!(f.matches_path(&rel("a/target/b")));
    assert!(!f.matches_path(&rel("a/b")));
    let mut cloud = Filter::none();
    cloud.add_cloud();
    // Prefixes do not make a filter of names.
    assert!(cloud.is_empty());
    assert!(cloud.excludes(b"Dropbox (Work)") && cloud.excludes(b"iCloudDrive"));
}

fn entry(name: &str, size: u64) -> Entry {
    Entry { rel: rel(name), size, mtime: 100, mtime_ns: 100_000_000_000 }
}

fn job(files: &[(&str, u64)]) -> Manifest {
    let mut m = Manifest::empty();
    for (n, s) in files {
        m.files.push(entry(n, *s));
        m.total_bytes += s;
    }
    m
}

#[test]
fn conflicts_are_files_that_differ() {
    let m = job(&[("same", 5), ("coarse", 5), ("size", 5), ("time", 5), ("absent", 5), ("dir", 5)]);
    let st = |is_file: bool, len: u64, mtime: i64| {
        Some(DestStat { is_file, is_dir: !is_file, len, mtime })
    };
    let stats = vec![
        st(true, 5, 100),
        st(true, 5, 102),
        st(true, 6, 100),
        st(true, 5, 103),
        None,
        st(false, 5, 100),
    ];
    let c: Vec<String> = conflicts(&m, &stats).iter().map(|r| r.text(Os::Linux)).collect();
    assert_eq!(c, ["size", "time", "dir"]);
    assert_eq!(bytes_still_needed(&m, &stats), 20);
    assert_eq!(bytes_still_needed(&m, &Vec::new()), 30);
}

#[test]
fn probe_detects_the_same_directory_through_an_alias() {
    let facts = |probed: bool, dst: &str| PathFacts {
        src_key: "/real".to_string(),
        dst_key: dst.to_string(),
        same_file: false,
        probed,
        inside: false,
    };
    // A marker that shows up at the other end means one directory under two names.
    assert!(check_paths(&facts(true, "/alias"), Mode::Move, Os::Linux).is_err(), "alias of the same directory");
    assert!(check_paths(&facts(false, "/other"), Mode::Move, Os::Linux).is_ok(), "genuinely different directories");
    assert!(check_paths(&facts(false, "/real/sub"), Mode::Copy, Os::Linux).is_err());
    assert!(check_paths(&facts(false, "/realm"), Mode::Copy, Os::Linux).is_ok());
}

#[test]
fn names_that_a_drive_cannot_hold_are_told() {
    assert!(objection("CON").is_some() && objection("com7.log").is_some());
    assert!(objection("a:b").is_some());
    assert!(objection("ends.").is_some() && objection("ends ").is_some());
    assert!(objection("plain.txt").is_none() && objection("console").is_none());
    assert!(check_windows_names(&job(&[("ok/fine", 1)])).is_ok());
    assert!(check_windows_names(&job(&[("ok/nul", 1)])).is_err());
    assert!(check_collisions(&job(&[("A", 1), ("a", 1)]), Os::Linux).is_err());
    assert!(check_collisions(&job(&[("ÄB", 1), ("äb", 1)]), Os::Linux).is_err());
    assert!(check_collisions(&job(&[("A", 1), ("b", 1)]), Os::Linux).is_ok());
    assert!(check_fat_size_limit(&job(&[("a", 4_294_967_295)]), Os::Linux).is_ok());
    let e = check_fat_size_limit(&job(&[("a", 4_294_967_296)]), Os::Linux).unwrap_err();
    assert_eq!(e.kind, Kind::InvalidInput);
    let e = e.why;
    assert!(e.contains("4.3 GB") || e.contains("4.3"), "{e}");
}

#[test]
fn every_folder_with_files_is_flushed_once() {
    let m = job(&[("top", 1), ("a/b/x", 1), ("a/b/y", 1), ("a/c", 1), ("d/e", 1)]);
    let t: Vec<String> = touched_folders(&m).iter().map(|r| r.text(Os::Linux)).collect();
    assert_eq!(t, ["a", "a/b", "d"]);
    let dst = FullPath {
        prefix: Vec::new(),
        rooted: true,
        parts: vec![Part::Name(b"usb".to_vec()), Part::Name(b"out".to_vec())],
    };
    let s: Vec<String> =
        sync_destination(&dst, true, &m).iter().map(|p| p.text(Os::Linux)).collect();
    assert_eq!(s, ["/usb/out", "/usb/out/a", "/usb/out/a/b", "/usb/out/d"]);
    // A destination that is the file itself is pinned down by the folder it lies in.
    let one = job(&[("out", 1)]);
    let s: Vec<String> =
        sync_destination(&dst, false, &one).iter().map(|p| p.text(Os::Linux)).collect();
    assert_eq!(s, ["/usb"]);
    let bare =
        FullPath { prefix: Vec::new(), rooted: false, parts: vec![Part::Name(b"x".to_vec())] };
    let s = sync_destination(&bare, false, &one);
    assert_eq!(s[0].text(Os::Linux), "x");
}

#[test]
fn file_times_count_from_1601() {
    assert!(has_file_time(0));
    let (lo, hi) = file_time(0);
    assert_eq!(lo as u64 + ((hi as u64) << 32), 116_444_736_000_000_000);
    let (lo, hi) = file_time(-11_644_473_600);
    assert_eq!((lo, hi), (0, 0));
    assert!(!has_file_time(-11_644_473_601) && !has_file_time(i64::MAX));
    assert!(has_file_time(1_700_000_000));
}

#[test]
fn files_given_up_on_leave_the_job_and_are_told() {
    let m = job(&[("a/x", 10), ("a/y", 20), ("b", 40)]);
    let (left, gone) = leave_out(m, &vec![rel("a/y"), rel("nowhere")]);
    assert_eq!(names(&left), ["a/x", "b"]);
    assert_eq!(left.total_bytes, 50);
    assert_eq!(gone.len(), 1);
    let mut left = left;
    left.excluded.push(rel("cache"));
    left.skipped.push(Skipped { rel: rel("l"), absolute: true, why: "a link".to_string() });
    let told: Vec<(String, String)> =
        notes(&left, &gone).into_iter().map(|s| (s.rel.text(Os::Linux), s.why)).collect();
    assert_eq!(
        told,
        [
            ("l".to_string(), "a link".to_string()),
            ("cache".to_string(), "left out, as asked".to_string()),
            ("a/y".to_string(), "couldn't be read last time — left out, as asked".to_string()),
        ]
    );
    let (same, none) = leave_out(job(&[("a", 1)]), &Vec::new());
    assert_eq!((same.files.len(), none.len()), (1, 0));
}

#[test]
fn names_that_read_alike_are_still_told_apart() {
    let mut m = job(&[]);
    for n in [&b"a\xff"[..], &b"a\xfe"[..]] {
        m.files.push(Entry { rel: RelPath::root().join(n), size: 1, mtime: 0, mtime_ns: 0 });
    }
    let (left, gone) = leave_out(m, &vec![RelPath::root().join(b"a\xfe")]);
    assert_eq!(left.files.len(), 1);
    assert_eq!(left.files[0].rel.parts[0], b"a\xff");
    assert_eq!(gone[0].parts[0], b"a\xfe");
}

#[test]
fn cached_files_are_counted_where_they_could_be_left_out() {
    let m = job(&[("AppData/x", 1), ("p/node_modules/y", 1), ("p/main", 1)]);
    assert_eq!(cache_files(&m, &Filter::none(), false), 2);
    // A chosen name is never left out, so it promises nothing.
    assert_eq!(cache_files(&m, &Filter::none(), true), 1);
    assert_eq!(cache_files(&m, &Filter::caches(), false), 0);
}

#[test]
fn hopeless_jobs_are_refused_before_the_first_byte() {
    let mut m = job(&[]);
    assert!(refusal(&m, 5, None).is_none());
    m.skipped.push(Skipped { rel: rel("l"), absolute: false, why: "x".to_string() });
    assert_eq!(
        refusal(&m, 0, None).unwrap(),
        "nothing was copied — every entry was skipped (symlinks or unreadable files)"
    );
    let m = job(&[("a", 2_000_000)]);
    assert_eq!(
        refusal(&m, 2_000_000, Some(1_500_000)).unwrap(),
        "2.0 MB still to copy — the destination has 1.5 MB free."
    );
    assert!(refusal(&m, 2_000_000, Some(2_000_000)).is_none());
    assert!(refusal(&m, 2_000_000, None).is_none());
}
