//! Paths: normal forms, keys that survive creation, names, and where things land.

use kevat::path::{
    below_text, config_dir, effective_dst, history_path, lexical_abs, name_of_place, part_path,
    removable_root_of, spelled_as_dir, FullPath, KeyWalk, Os, Part, RelPath,
};

fn full(text: &str) -> FullPath {
    let rooted = text.starts_with('/');
    let mut parts = Vec::new();
    for p in text.split('/').filter(|p| !p.is_empty()) {
        parts.push(match p {
            "." => Part::Here,
            ".." => Part::Up,
            n => Part::Name(n.as_bytes().to_vec()),
        });
    }
    FullPath { prefix: Vec::new(), rooted, parts }
}

fn abs(text: &str) -> String {
    lexical_abs(&full(text), &Some(full("/home/me")), Os::Linux).text(Os::Linux)
}

#[test]
fn relative_and_absolute_agree() {
    for p in ["some/where", "./a/../b"] {
        let absolute = format!("/home/me/{p}");
        assert_eq!(abs(p), abs(&absolute));
    }
    assert_eq!(abs("some/where"), "/home/me/some/where");
    assert_eq!(abs("./a/../b"), "/home/me/b");
}

#[test]
fn detours_do_not_matter() {
    assert_eq!(abs("/a/x/../b/./c"), "/a/b/c");
    assert_eq!(abs("/../.."), "/");
    assert_eq!(abs("../../../.."), "/");
    assert_eq!(abs(&abs("/a/../b")), "/b");
    assert_eq!(lexical_abs(&full("a/b"), &None, Os::Linux).text(Os::Linux), "a/b");
}

/// The key of a path, where only what is listed exists.
fn key(path: &str, exists: &[&str]) -> String {
    let mut w = KeyWalk::begin(lexical_abs(&full(path), &Some(full("/home/me")), Os::Linux));
    for _ in 0..50 {
        let at = w.probe().text(Os::Linux);
        let canon = exists.iter().find(|e| **e == at).map(|e| full(e));
        if let Some(k) = w.answer(canon, Os::Linux) {
            return k;
        }
    }
    panic!("no key");
}

#[test]
fn key_is_stable_across_creation() {
    let before = key("/media/usb/out", &["/", "/media", "/media/usb"]);
    let after = key("/media/usb/out", &["/", "/media", "/media/usb", "/media/usb/out"]);
    assert_eq!(before, after, "key changed once the destination existed");
    assert_eq!(before, "/media/usb/out");
    assert_eq!(key("/a/b/c", &["/"]), "/a/b/c");
    assert_eq!(key("a/b", &[]), "/home/me/a/b");
}

#[test]
fn a_link_on_the_way_is_resolved() {
    let mut w = KeyWalk::begin(full("/link/new/dir"));
    let mut got = None;
    while got.is_none() {
        let canon =
            if w.probe().text(Os::Linux) == "/link" { Some(full("/real/place")) } else { None };
        got = w.answer(canon, Os::Linux);
    }
    assert_eq!(got.unwrap(), "/real/place/new/dir");
}

#[test]
fn config_dir_is_always_absolute() {
    let temp = full("/tmp");
    let home = Some(full("/home/me"));
    let values = [None, Some(full("")), Some(full("relative/path")), Some(full("/set"))];
    for xdg in &values {
        for h in &values {
            for t in [full("/tmp"), full("tmp"), full("")] {
                let got = config_dir(Os::Linux, &None, xdg, h, &t);
                assert!(got.is_absolute(Os::Linux), "{}", got.text(Os::Linux));
                let got = config_dir(Os::Windows, xdg, &None, h, &t);
                assert!(got.is_absolute(Os::Windows), "{}", got.text(Os::Windows));
            }
        }
    }
    let text = |p: FullPath| p.text(Os::Linux);
    assert_eq!(text(config_dir(Os::Linux, &None, &None, &home, &temp)), "/home/me/.config/kevat");
    assert_eq!(text(config_dir(Os::Linux, &None, &Some(full("/x")), &home, &temp)), "/x/kevat");
    assert_eq!(
        text(config_dir(Os::Mac, &None, &None, &home, &temp)),
        "/home/me/Library/Application Support/kevat"
    );
    assert_eq!(text(config_dir(Os::Linux, &None, &None, &None, &full("/var/t"))), "/var/t/kevat");
    assert_eq!(text(config_dir(Os::Linux, &None, &None, &None, &full("work/t"))), "/tmp/kevat");
    assert_eq!(
        config_dir(Os::Windows, &None, &None, &None, &full("t")).text(Os::Windows),
        "C:\\Windows\\Temp\\kevat"
    );
    let mut data = full("/data");
    data.prefix = b"C:".to_vec();
    assert_eq!(
        config_dir(Os::Windows, &Some(data), &None, &home, &temp).text(Os::Windows),
        "C:\\data\\kevat"
    );
    assert_eq!(text(history_path(&full("/c"))), "/c/history.jsonl");
}

#[test]
fn messages_join_paths_as_the_system_does() {
    assert_eq!(below_text("/dst", "a/b", Os::Linux), "/dst/a/b");
    assert_eq!(below_text("/", "a", Os::Linux), "/a");
    assert_eq!(below_text("D:\\x", "a", Os::Windows), "D:\\x\\a");
    assert!(spelled_as_dir("/usb/", Os::Linux));
    assert!(!spelled_as_dir("/usb", Os::Linux));
    assert!(spelled_as_dir("D:\\x\\", Os::Windows));
    assert_eq!(part_path("/dst/a"), "/dst/a.kpart");
}

#[test]
fn relative_paths_order_by_component() {
    let rel = |t: &str| {
        let mut r = RelPath::root();
        for p in t.split('/') {
            r = r.join(p.as_bytes());
        }
        r
    };
    // Component by component, not byte by byte over the whole text.
    assert!(rel("a/b").is_before(&rel("a-b")));
    assert!(rel("a").is_before(&rel("a/b")));
    assert!(!rel("a/b").is_before(&rel("a/b")));
    assert!(rel("a/b").is_same(&rel("a/b")) && !rel("a/b").is_same(&rel("a")));
    assert_eq!(rel("a/b").text(Os::Windows), "a\\b");
    assert_eq!(rel("a/b").copy().depth(), 2);
    // Names need not be text.
    assert_eq!(RelPath::root().join(b"x\xff").text(Os::Linux), "x\u{fffd}");
}

#[test]
fn a_folder_lands_under_its_own_name() {
    let land = |s: &str, dir: bool| effective_dst(&full(s), dir, &full("/usb")).text(Os::Linux);
    assert_eq!(land("/home/Photos", true), "/usb/Photos");
    assert_eq!(land("/home/a.iso", false), "/usb");
    assert_eq!(land("/", true), "/usb");
    assert_eq!(land("/home/..", true), "/usb");
}

#[test]
fn parents_and_names_are_those_of_the_system() {
    assert_eq!(full("/a/b").parent().unwrap().text(Os::Linux), "/a");
    assert_eq!(full("/a").parent().unwrap().text(Os::Linux), "/");
    assert!(full("/").parent().is_none());
    assert_eq!(full("/a/b").file_name().unwrap(), b"b");
    assert!(full("/a/..").file_name().is_none());
    assert_eq!(name_of_place(&full("/media/me/My Passport"), Os::Linux), "My Passport");
    assert_eq!(name_of_place(&full("/"), Os::Linux), "/");
}

#[test]
fn a_path_is_found_on_its_drive() {
    let drives = vec![full("/media/a"), full("/media/b")];
    let root = |p: &str| removable_root_of(&full(p), &drives).map(|r| r.text(Os::Linux));
    assert_eq!(root("/media/b/x/y").unwrap(), "/media/b");
    assert_eq!(root("/media/a").unwrap(), "/media/a");
    // Whole components: a name that merely begins the same is elsewhere.
    assert_eq!(root("/media/abc"), None);
    assert_eq!(root("/home"), None);
    // Up from inside a drive stays inside until its root.
    let mut at = full("/media/b/x/y");
    while !at.is_same(&drives[1]) {
        at = at.parent().unwrap();
        assert!(at.is_within(&drives[1]));
    }
}
