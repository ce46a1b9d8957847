//! The journal: framing, folding, group commits, names and what is still owed.

use kevat::hash::FileHash;
use kevat::journal::{
    history_keep_from, journal_path, load, lock_name, pending, readable_lines, split_lines,
    truncate_to_last_record, Journal, Mode, Pending, Record, ResumeState, JOURNAL_VERSION,
};

fn session(src: &str, files: usize) -> Record {
    Record::Session {
        v: JOURNAL_VERSION,
        src: src.to_string(),
        dst: "/usb/x".to_string(),
        mode: Mode::Copy,
        files,
        bytes: 900,
        names: vec!["a".to_string(), "b".to_string()],
        skip_caches: true,
        skip_cloud: false,
    }
}

fn file(rel: &str, size: u64) -> Record {
    Record::FileDone { rel: rel.to_string(), size, mtime: 1, mtime_ns: 2, hash: "00".to_string() }
}

fn point(rel: &str, off: u64, span: u64) -> Record {
    Record::Checkpoint {
        rel: rel.to_string(),
        off,
        span,
        span_hash: format!("{off}"),
        src_size: 1000,
        src_mtime: 7,
    }
}

fn fold(records: Vec<Record>) -> ResumeState {
    load(records.into_iter().map(Some).collect(), false)
}

#[test]
fn only_whole_lines_are_read() {
    let (lines, torn) = split_lines(b"one\ntwo\nthr");
    assert_eq!(lines, [b"one".to_vec(), b"two".to_vec()]);
    assert!(torn);
    let (lines, torn) = split_lines(b"one\n\ntwo\n");
    assert_eq!(lines, [b"one".to_vec(), Vec::new(), b"two".to_vec()]);
    assert!(!torn);
    assert_eq!(split_lines(b""), (Vec::new(), false));
}

#[test]
fn a_torn_tail_is_cut_before_appending() {
    assert_eq!(truncate_to_last_record(b"one\ntw"), Some(4));
    assert_eq!(truncate_to_last_record(b"torn"), Some(0));
    assert_eq!(truncate_to_last_record(b"one\n"), None);
    assert_eq!(truncate_to_last_record(b""), None);
    // What is appended behind the cut reads back whole.
    let mut bytes = b"one\ntw".to_vec();
    bytes.truncate(truncate_to_last_record(&bytes).unwrap());
    bytes.extend(b"three\n");
    let (lines, torn) = split_lines(&bytes);
    assert_eq!(lines, [b"one".to_vec(), b"three".to_vec()]);
    assert!(!torn);
}

#[test]
fn a_crash_keeps_the_oldest_lines() {
    let whole = b"one\ntwo\nthree\n";
    let all = split_lines(whole).0;
    for n in 0..=whole.len() {
        let (lines, torn) = split_lines(&whole[..n]);
        assert_eq!(lines, all[..lines.len()]);
        assert_eq!(torn, n > 0 && whole[n - 1] != b'\n');
    }
}

#[test]
fn blank_lines_are_no_records() {
    let lines = vec![b"{}".to_vec(), b"  \t".to_vec(), Vec::new(), "\u{a0}\u{2003}".as_bytes().to_vec(), b"x\xff".to_vec()];
    assert_eq!(readable_lines(&lines), ["{}", "x\u{fffd}"]);
}

#[test]
fn finished_files_and_the_last_chain_survive() {
    let st = fold(vec![
        session("/src", 3),
        point("big", 64, 64),
        file("a", 10),
        point("c", 5, 5),
        point("c", 9, 4),
    ]);
    assert_eq!(st.order, ["a"]);
    assert_eq!(st.done.get("a").unwrap().size, 10);
    let p = st.partial.as_ref().unwrap();
    assert_eq!(p.rel, "c");
    assert_eq!(p.chain.iter().map(|c| (c.off, c.span)).collect::<Vec<_>>(), [(5, 5), (9, 4)]);
    assert!(!st.complete && !st.all_copied && !st.torn_tail);
}

#[test]
fn a_checkpoint_that_does_not_join_starts_a_new_chain() {
    let st = fold(vec![point("c", 5, 5), point("c", 20, 4)]);
    let p = st.partial.as_ref().unwrap();
    assert_eq!(p.chain.iter().map(|c| c.off).collect::<Vec<_>>(), [20]);
}

#[test]
fn an_unreadable_line_counts_as_torn() {
    let st = load(vec![Some(file("a", 1)), None, Some(file("b", 2))], false);
    assert!(st.torn_tail);
    let st = load(vec![Some(file("a", 1))], true);
    assert!(st.torn_tail);
    assert_eq!(st.order, ["a"]);
}

#[test]
fn records_are_grouped_into_commits() {
    let mut j = Journal::create();
    assert!(!j.should_commit(0));
    j.append(b"{}", &file("a", 10));
    assert!(!j.should_commit(499));
    assert!(j.should_commit(500));
    assert_eq!(j.commit(), b"{}\n");
    j.committed();
    assert!(j.commit().is_empty());
    for i in 0..512 {
        assert!(!j.should_commit(0), "{i}");
        j.append(b"x", &file("a", 1));
    }
    assert!(j.should_commit(0));
    j.committed();
    j.append(b"x", &file("a", 67_108_864));
    assert!(j.should_commit(0));
    assert_eq!(j.append_and_commit(b"y", &Record::Complete), b"x\ny\n");
    j.committed();
    assert!(!j.should_commit(0));
}

#[test]
fn a_commit_that_failed_is_made_up_for() {
    let mut j = Journal::create();
    j.append(b"one", &file("a", 67_108_864));
    assert_eq!(j.commit(), b"one\n");
    // Nothing confirmed it, so it is still to be written.
    assert!(j.should_commit(0));
    assert_eq!(j.append_and_commit(b"two", &Record::AllCopied), b"one\ntwo\n");
    assert_eq!(j.commit(), b"one\ntwo\n");
    j.committed();
    assert!(j.commit().is_empty() && !j.should_commit(0));
}

#[test]
fn jobs_have_names_of_their_own() {
    let a = journal_path("/a", "/b", Mode::Copy, &None);
    let digest = a.strip_suffix(".jsonl").unwrap();
    assert_eq!(digest.len(), 32);
    assert!(digest.chars().all(|c| c.is_ascii_hexdigit() && !c.is_ascii_uppercase()));
    assert_eq!(a, journal_path("/a", "/b", Mode::Copy, &None));
    assert_ne!(a, journal_path("/a", "/b", Mode::Move, &None));
    assert_ne!(a, journal_path("/a", "/c", Mode::Copy, &None));
    assert_ne!(a, journal_path("/a", "/b", Mode::Copy, &Some("t".to_string())));
    assert!(lock_name("/b").ends_with(".lock"));
    assert_eq!(
        lock_name("/b"),
        format!("{:032x}.lock", xxhash_rust::xxh3::xxh3_128(b"/b"))
    );
}

#[test]
fn a_streamed_hash_is_the_hash_of_the_whole() {
    let bytes: Vec<u8> = (0..5000u32).map(|i| (i * 7 % 251) as u8).collect();
    let mut h = FileHash::new();
    for c in bytes.chunks(777) {
        h.update(c);
    }
    assert_eq!(h.digest(), xxhash_rust::xxh3::xxh3_128(&bytes));
}

#[test]
fn an_interrupted_transfer_is_still_owed() {
    let mut records = vec![session("/src", 40)];
    for i in 0..30 {
        records.push(file(&format!("f{i:02}"), 10));
    }
    let p = Pending::of(&fold(records)).unwrap();
    assert_eq!((p.src.as_str(), p.dst.as_str()), ("/src", "/usb/x"));
    assert_eq!((p.files_done, p.files_total), (30, 40));
    assert_eq!((p.bytes_done, p.bytes_total), (300, 900));
    assert_eq!(p.sample.len(), 20);
    assert_eq!(p.names, ["a", "b"]);
    assert!(p.skip_caches && !p.skip_cloud);
    let few = Pending::of(&fold(vec![session("/src", 40), file("only", 1)])).unwrap();
    assert_eq!(few.sample, ["only"]);
}

#[test]
fn a_finished_transfer_owes_nothing() {
    assert!(Pending::of(&fold(vec![session("/src", 1), Record::Complete])).is_none());
    let late = vec![session("/src", 1), Record::Complete, file("late", 1)];
    assert!(Pending::of(&fold(late)).is_none());
    assert!(Pending::of(&fold(vec![file("a", 1)])).is_none());
}

#[test]
fn bytes_past_all_bounds_are_not_wrapped() {
    let p = Pending::of(&fold(vec![session("/s", 2), file("a", u64::MAX), file("b", 5)])).unwrap();
    assert_eq!(p.bytes_done, u64::MAX);
}

#[test]
fn the_most_recent_interruption_comes_first() {
    let of = |s: &str| Pending::of(&fold(vec![session(s, 1)])).unwrap();
    let v = pending(vec![of("old"), of("new"), of("twin"), of("mid")], &vec![1, 9, 9, 5]);
    assert_eq!(v.iter().map(|p| p.src.as_str()).collect::<Vec<_>>(), ["new", "twin", "mid", "old"]);
}

#[test]
fn the_history_stays_small() {
    assert_eq!(history_keep_from(0), None);
    assert_eq!(history_keep_from(999), None);
    assert_eq!(history_keep_from(1000), Some(501));
    assert_eq!(history_keep_from(1234), Some(735));
}

#[test]
fn the_last_record_of_a_file_counts() {
    let st = fold(vec![session("/s", 2), file("a", 1), file("b", 5), file("a", 9), point("c", 4, 4)]);
    assert_eq!(st.order, ["a", "b"]);
    assert_eq!((st.done.get("a").unwrap().size, st.done.get("b").unwrap().size), (9, 5));
}

#[test]
fn the_last_session_line_describes_the_job() {
    let p = Pending::of(&fold(vec![session("/old", 1), file("a", 1), session("/new", 7)])).unwrap();
    assert_eq!((p.src.as_str(), p.files_total, p.files_done), ("/new", 7, 1));
}

/// The lines of a file as records; `done NAME` and `at NAME OFFSET SPAN` are all there is.
fn read(bytes: &[u8]) -> ResumeState {
    let (lines, torn) = split_lines(bytes);
    let parsed = readable_lines(&lines)
        .iter()
        .map(|l| {
            let w: Vec<&str> = l.split(' ').collect();
            match w[..] {
                ["done", name] => Some(file(name, 1)),
                ["at", name, off, span] => Some(Record::Checkpoint {
                    rel: name.to_string(),
                    off: off.parse().ok()?,
                    span: span.parse().ok()?,
                    span_hash: String::new(),
                    src_size: 9,
                    src_mtime: 9,
                }),
                _ => None,
            }
        })
        .collect();
    load(parsed, torn)
}

fn flight(st: &ResumeState) -> Option<(String, Vec<u64>)> {
    st.partial.as_ref().map(|p| (p.rel.clone(), p.chain.iter().map(|c| c.off).collect()))
}

#[test]
fn a_torn_line_changes_the_flag_alone() {
    let kept = b"done a\nat b 5 5\nat b 9 4\n";
    let whole = read(kept);
    assert!(!whole.torn_tail);
    for torn in ["d", "done c", "at c 1 1", "{"] {
        let mut bytes = kept.to_vec();
        bytes.extend_from_slice(torn.as_bytes());
        let st = read(&bytes);
        assert!(st.torn_tail);
        assert_eq!(st.order, whole.order);
        assert_eq!(flight(&st), flight(&whole));
    }
}

#[test]
fn committed_records_are_read_back() {
    let mut bytes = b"done a\n".to_vec();
    let mut j = Journal::create();
    for line in ["at b 5 5", "done b", "done c"] {
        j.append(line.as_bytes(), &Record::AllCopied);
    }
    bytes.extend(j.commit());
    j.committed();
    bytes.extend(j.commit());
    let st = read(&bytes);
    assert_eq!(st.order, ["a", "b", "c"]);
    assert!(!st.torn_tail && st.partial.is_none());
}

#[test]
fn the_partial_file_is_the_last_in_flight() {
    assert_eq!(flight(&read(b"at b 5 5\nat b 9 4\n")), Some(("b".to_string(), vec![5, 9])));
    assert_eq!(flight(&read(b"at b 5 5\nat c 3 3\n")), Some(("c".to_string(), vec![3])));
    assert_eq!(flight(&read(b"at b 5 5\ndone a\n")), Some(("b".to_string(), vec![5])));
    assert_eq!(flight(&read(b"at b 5 5\ndone b\n")), None);
    // A span that does not adjoin begins a chain of its own.
    assert_eq!(flight(&read(b"at b 5 5\nat b 9 1\n")), Some(("b".to_string(), vec![9])));
}
