//! Whole transfers, run against a disk that exists only here.

use std::collections::{BTreeMap, BTreeSet};

use kevat::copy::{Copier, CopyAnswer, CopyAsk};
use kevat::engine::{conflicts, DestStat, Kind, OnExists, Options, PathFacts, Progress};
use kevat::hash::FileHash;
use kevat::journal::{load, Mode, Record};
use kevat::path::{Os, RelPath};
use kevat::run::{Answer, Ask, Job, Out, Place, Run, SourceStat};
use kevat::scan::{Entry, Manifest, Skipped};

#[derive(Clone)]
struct Src {
    bytes: Vec<u8>,
    mtime: i64,
    ns: i64,
}

#[derive(Clone)]
struct Dst {
    bytes: Vec<u8>,
    mtime: i64,
}

#[derive(Default)]
struct Disk {
    src: BTreeMap<String, Src>,
    dst: BTreeMap<String, Dst>,
    parts: BTreeMap<String, Vec<u8>>,
    dirs: BTreeSet<String>,
    journal: Vec<Record>,
    has_journal: bool,
    /// What was asked, in order.
    log: Vec<String>,
    notes: Vec<String>,
    progress: Vec<String>,
    // Faults.
    stop_at: Option<usize>,
    polls: usize,
    stop_in_copy: bool,
    sync_fails: bool,
    rename_fails: bool,
    corrupt_part: bool,
    unreadable: BTreeSet<String>,
    ignores_case: bool,
    fat: bool,
    same_place: bool,
    inside: bool,
    busy: bool,
}

fn rel(path: &str) -> RelPath {
    let mut r = RelPath::root();
    for p in path.split('/') {
        r = r.join(p.as_bytes());
    }
    r
}

fn again(r: &Record) -> Record {
    match r {
        Record::Session { v, src, dst, mode, files, bytes, names, skip_caches, skip_cloud } => {
            Record::Session {
                v: *v,
                src: src.clone(),
                dst: dst.clone(),
                mode: *mode,
                files: *files,
                bytes: *bytes,
                names: names.clone(),
                skip_caches: *skip_caches,
                skip_cloud: *skip_cloud,
            }
        }
        Record::FileDone { rel, size, mtime, mtime_ns, hash } => Record::FileDone {
            rel: rel.clone(),
            size: *size,
            mtime: *mtime,
            mtime_ns: *mtime_ns,
            hash: hash.clone(),
        },
        Record::Checkpoint { rel, off, span, span_hash, src_size, src_mtime } => {
            Record::Checkpoint {
                rel: rel.clone(),
                off: *off,
                span: *span,
                span_hash: span_hash.clone(),
                src_size: *src_size,
                src_mtime: *src_mtime,
            }
        }
        Record::AllCopied => Record::AllCopied,
        Record::SourceDeleted { rel } => Record::SourceDeleted { rel: rel.clone() },
        Record::Complete => Record::Complete,
    }
}

fn hash_of(bytes: &[u8]) -> u128 {
    let mut h = FileHash::new();
    for c in bytes.chunks(3) {
        h.update(c);
    }
    h.digest()
}

fn options(mode: Mode) -> Options {
    Options {
        mode,
        on_exists: OnExists::Replace,
        job_tag: None,
        verify: mode == Mode::Move,
        paranoid: false,
        dry_run: false,
        selection: Vec::new(),
        skip_caches: false,
        skip_cloud: false,
    }
}

impl Disk {
    fn with(files: &[(&str, &str)]) -> Disk {
        let mut d = Disk::default();
        for (name, text) in files {
            d.src.insert(
                name.to_string(),
                Src { bytes: text.as_bytes().to_vec(), mtime: 1000, ns: 1_000_000_000_500 },
            );
        }
        d
    }

    fn manifest(&self) -> Manifest {
        let mut m = Manifest::empty();
        let mut dirs = BTreeSet::new();
        for (name, f) in &self.src {
            if let Some((dir, _)) = name.rsplit_once('/') {
                dirs.insert(dir.to_string());
            }
            m.files.push(Entry {
                rel: rel(name),
                size: f.bytes.len() as u64,
                mtime: f.mtime,
                mtime_ns: f.ns,
            });
            m.total_bytes += f.bytes.len() as u64;
        }
        for d in dirs {
            m.dirs.push(rel(&d));
        }
        m
    }

    fn run(&mut self, opts: Options) -> Run {
        let m = self.manifest();
        self.run_on(opts, m, Os::Linux)
    }

    fn stat(&self, key: &str) -> Option<DestStat> {
        self.dst.get(key).map(|d| DestStat {
            is_file: true,
            is_dir: false,
            len: d.bytes.len() as u64,
            mtime: d.mtime,
        })
    }

    fn hear(&mut self, outs: Vec<Out>) {
        for o in outs {
            match o {
                Out::Note(s) => self.notes.push(s),
                Out::Tell(p) => self.progress.push(match p {
                    Progress::Start => "start".to_string(),
                    Progress::File { rel } => format!("file {rel}"),
                    Progress::Bytes(n) => format!("bytes {n}"),
                    Progress::Skipped(n) => format!("skipped {n}"),
                    Progress::FileDone => "done".to_string(),
                    Progress::FileSkipped => "file skipped".to_string(),
                    Progress::Errors { total } => format!("errors {total}"),
                    Progress::DeletePhase { total } => format!("deleting {total}"),
                    Progress::Deleted => "deleted".to_string(),
                    Progress::Checking { rel, bytes } => format!("checking {rel} {bytes}"),
                    Progress::Dirs { done, total } => format!("dirs {done}/{total}"),
                    Progress::Eta { .. } => "eta".to_string(),
                }),
                _ => {}
            }
        }
    }

    fn copy(&mut self, key: &str, e: (u64, i64), resume: u64) -> Answer {
        if self.unreadable.contains(key) {
            return Answer::Failed("permission denied".to_string());
        }
        let source = self.src[key].bytes.clone();
        let mut c = Copier::begin(key.to_string(), resume, e.0, e.1);
        let mut at = 0usize;
        let mut received = 0usize;
        self.parts.entry(key.to_string()).or_default().truncate(resume as usize);
        loop {
            let a = match c.ask() {
                CopyAsk::Receive => {
                    if self.stop_in_copy && received == 2 {
                        CopyAnswer::Cancelled
                    } else if at == source.len() {
                        CopyAnswer::End(hash_of(&source))
                    } else {
                        let to = (at + 4).min(source.len());
                        let chunk = source[at..to].to_vec();
                        at = to;
                        received += 1;
                        assert!(c.has_room(chunk.len()));
                        CopyAnswer::Chunk(chunk)
                    }
                }
                CopyAsk::Write(from) => {
                    let bytes = c.chunk()[from..].to_vec();
                    self.parts.get_mut(key).unwrap().extend(bytes);
                    CopyAnswer::Done
                }
                CopyAsk::Sync => CopyAnswer::Done,
                CopyAsk::Record(r) => {
                    self.journal.push(r);
                    CopyAnswer::Done
                }
                CopyAsk::Finished(hash, written) => {
                    if self.corrupt_part {
                        if let Some(b) = self.parts.get_mut(key).unwrap().first_mut() {
                            *b ^= 1;
                        }
                    }
                    return Answer::Copied { hash, written };
                }
                CopyAsk::Stopped(written) => return Answer::Stopped { written },
                CopyAsk::Failed(e) => return Answer::Failed(e),
            };
            let n = c.answer(a);
            if n > 0 {
                self.progress.push(format!("bytes {n}"));
            }
        }
    }

    fn run_on(&mut self, opts: Options, m: Manifest, os: Os) -> Run {
        let job = Job {
            opts,
            os,
            src: "/src".to_string(),
            dst: "/dst".to_string(),
            src_abs: "/src".to_string(),
            dst_abs: "/dst".to_string(),
            src_name: Some("src".to_string()),
            m,
        };
        let mut run = Run::begin(job);
        for _ in 0..100_000 {
            let key = |r: &Run, i: usize| r.key(i).clone();
            let answer = match run.ask() {
                Ask::DestinationIsDir => Answer::Flag(true),
                Ask::Paths { .. } => {
                    self.log.push("paths".to_string());
                    Answer::Paths(PathFacts {
                        src_key: "/src".to_string(),
                        dst_key: if self.same_place { "/src" } else { "/dst" }.to_string(),
                        same_file: false,
                        probed: false,
                        inside: self.inside,
                    })
                }
                Ask::Load(name) => {
                    assert!(name.ends_with(".jsonl"));
                    let lines = self.journal.iter().map(|r| Some(again(r))).collect();
                    Answer::Loaded(load(lines, false))
                }
                Ask::Lock(name) => {
                    assert!(name.ends_with(".lock"));
                    self.log.push("lock".to_string());
                    if self.busy {
                        Answer::Failed("another transfer is writing there".to_string())
                    } else {
                        Answer::Done
                    }
                }
                Ask::MakeRoot => {
                    self.log.push("root".to_string());
                    Answer::Done
                }
                Ask::ProbeCase => Answer::Flag(self.ignores_case),
                Ask::ProbeFat => Answer::Flag(self.fat),
                Ask::StatAll => {
                    let n = run.manifest().files.len();
                    Answer::Stats((0..n).map(|i| self.stat(&key(&run, i))).collect())
                }
                Ask::Poll => {
                    self.polls += 1;
                    Answer::Flag(self.stop_at.is_some_and(|n| self.polls > n))
                }
                Ask::MakeDir(i) => {
                    let d = run.manifest().dirs[i].text(os);
                    self.dirs.insert(d);
                    Answer::Done
                }
                Ask::OpenJournal => {
                    self.has_journal = true;
                    self.log.push("open".to_string());
                    Answer::Done
                }
                Ask::Commit(r) | Ask::Append(r) => {
                    match &r {
                        Record::AllCopied => self.log.push("all copied".to_string()),
                        Record::Complete => self.log.push("complete".to_string()),
                        Record::FileDone { rel, .. } => self.log.push(format!("record {rel}")),
                        Record::SourceDeleted { rel } => self.log.push(format!("gone {rel}")),
                        _ => {}
                    }
                    self.journal.push(r);
                    Answer::Done
                }
                Ask::Flush => Answer::Done,
                Ask::StatDest(i) => Answer::Stat(self.stat(&key(&run, i))),
                Ask::HashSource(i) => Answer::Hash(hash_of(&self.src[&key(&run, i)].bytes)),
                Ask::HashDest(i) => Answer::Hash(hash_of(&self.dst[&key(&run, i)].bytes)),
                Ask::HashSpan { file, off, span } => match self.parts.get(&key(&run, file)) {
                    Some(p) if p.len() as u64 >= off => {
                        Answer::Hash(hash_of(&p[(off - span) as usize..off as usize]))
                    }
                    _ => Answer::Failed("too short".to_string()),
                },
                Ask::RemovePart(i) => {
                    self.parts.remove(&key(&run, i));
                    self.log.push(format!("drop {}", key(&run, i)));
                    Answer::Done
                }
                Ask::MakeParent(_) => Answer::Done,
                Ask::Copy { file, resume } => {
                    let e = &run.manifest().files[file];
                    let id = (e.size, e.mtime_ns);
                    let k = key(&run, file);
                    self.log.push(format!("copy {k} from {resume}"));
                    self.copy(&k, id, resume)
                }
                Ask::PartIsEmpty(i) => {
                    Answer::Flag(self.parts.get(&key(&run, i)).is_none_or(|p| p.is_empty()))
                }
                Ask::HashPart(i) => Answer::Hash(hash_of(&self.parts[&key(&run, i)])),
                Ask::Rename(i) => {
                    if self.rename_fails {
                        Answer::Failed("busy".to_string())
                    } else {
                        let k = key(&run, i);
                        let bytes = self.parts.remove(&k).unwrap_or_default();
                        self.log.push(format!("rename {k}"));
                        self.dst.insert(k, Dst { bytes, mtime: 0 });
                        Answer::Done
                    }
                }
                Ask::DestIsDir(_) => Answer::Flag(false),
                Ask::SetMtime(i) => {
                    let mtime = run.manifest().files[i].mtime;
                    self.dst.get_mut(&key(&run, i)).unwrap().mtime = mtime;
                    Answer::Done
                }
                Ask::SyncDestination => {
                    self.log.push("barrier".to_string());
                    if self.sync_fails {
                        Answer::Failed("bridge gave up".to_string())
                    } else {
                        Answer::Done
                    }
                }
                Ask::StatSource(i) => Answer::Source(self.src.get(&key(&run, i)).map(|s| {
                    SourceStat { len: s.bytes.len() as u64, mtime_ns: s.ns }
                })),
                Ask::DeleteSource(i) => {
                    let k = key(&run, i);
                    self.log.push(format!("delete {k}"));
                    self.src.remove(&k);
                    Answer::Done
                }
                Ask::RemoveJournal => {
                    self.journal.clear();
                    self.has_journal = false;
                    self.log.push("remove journal".to_string());
                    Answer::Done
                }
                Ask::Finished { .. } | Ask::Failed { .. } => return run,
            };
            let outs = run.answer(answer);
            self.hear(outs);
        }
        panic!("it never ends");
    }

    fn at(&self, what: &str) -> usize {
        self.log.iter().position(|l| l == what).unwrap_or_else(|| panic!("no {what}: {:?}", self.log))
    }
}

fn done(r: &Run) -> bool {
    matches!(r.ask(), Ask::Finished { done: true, .. })
}

fn why(r: &Run) -> String {
    match r.ask() {
        Ask::Failed { why, .. } => why,
        _ => panic!("it did not fail"),
    }
}

fn kind(r: &Run) -> Kind {
    match r.ask() {
        Ask::Failed { kind, .. } => kind,
        _ => panic!("it did not fail"),
    }
}

#[test]
fn a_copy_puts_every_byte_across() {
    let mut d = Disk::with(&[("a/one", "first file"), ("a/two", ""), ("three", "abc")]);
    let r = d.run(options(Mode::Copy));
    assert!(done(&r));
    for (k, s) in &d.src {
        assert_eq!(d.dst[k].bytes, s.bytes, "{k}");
        assert_eq!(d.dst[k].mtime, s.mtime);
    }
    assert_eq!(d.src.len(), 3);
    assert!(d.dirs.contains("a"));
    assert!(d.parts.is_empty());
    let s = r.summary();
    assert_eq!((s.files_copied, s.files_skipped, s.bytes_written), (3, 0, 13));
    assert!(s.errors.is_empty() && !s.stopped);
    assert!(!d.has_journal && d.at("complete") < d.at("remove journal"));
    assert_eq!(d.progress.iter().filter(|p| *p == "done").count(), 3);
}

#[test]
fn a_done_job_has_an_account_of_each_file() {
    // One file is there already, one differs, one is missing.
    let mut d = Disk::with(&[("differs", "new"), ("missing", "here"), ("same", "just so")]);
    d.dst.insert("same".to_string(), Dst { bytes: b"just so".to_vec(), mtime: 1000 });
    d.dst.insert("differs".to_string(), Dst { bytes: b"older".to_vec(), mtime: 7 });
    let mut o = options(Mode::Copy);
    o.on_exists = OnExists::Keep;
    let r = d.run(o);
    assert!(done(&r));
    let s = r.summary();
    assert_eq!((s.files_copied, s.files_skipped, s.kept_existing), (1, 2, 1));
    assert_eq!(d.dst["missing"].bytes, b"here");
    assert_eq!(d.dst["same"].bytes, b"just so");
    assert_eq!(d.dst["differs"].bytes, b"older");
    assert!(d.log.contains(&"rename missing".to_string()));
    assert!(!d.log.contains(&"rename same".to_string()));
    assert!(!d.log.contains(&"rename differs".to_string()));
}

#[test]
fn a_second_copy_finds_everything_in_place() {
    let mut d = Disk::with(&[("one", "first file"), ("two", "x")]);
    d.run(options(Mode::Copy));
    d.log.clear();
    let r = d.run(options(Mode::Copy));
    assert!(done(&r));
    assert_eq!((r.summary().files_copied, r.summary().files_skipped), (0, 2));
    assert!(!d.log.iter().any(|l| l.starts_with("copy ")));
}

#[test]
fn a_move_removes_each_original_last() {
    let mut d = Disk::with(&[("one", "first file"), ("two", "second")]);
    let r = d.run(options(Mode::Move));
    assert!(done(&r));
    assert!(d.src.is_empty());
    assert_eq!(d.dst["one"].bytes, b"first file");
    assert_eq!((r.summary().sources_deleted, r.summary().files_verified), (2, 2));
    for k in ["one", "two"] {
        let delete = d.at(&format!("delete {k}"));
        assert!(d.at(&format!("rename {k}")) < d.at(&format!("record {k}")));
        assert!(d.at(&format!("record {k}")) < d.at("barrier"));
        assert!(d.at("barrier") < d.at("all copied"));
        assert!(d.at("all copied") < delete);
        assert!(delete < d.at(&format!("gone {k}")));
    }
}

#[test]
fn a_failed_barrier_keeps_every_original() {
    let mut d = Disk::with(&[("one", "first file")]);
    d.sync_fails = true;
    let r = d.run(options(Mode::Move));
    assert!(!done(&r));
    assert_eq!(d.src.len(), 1);
    let e = &r.summary().errors;
    assert_eq!(e.len(), 1);
    assert_eq!(e[0].place, Place::Here);
    assert_eq!(
        e[0].why,
        "cannot make the destination durable: bridge gave up — originals kept"
    );
    assert!(d.has_journal);
}

#[test]
fn bad_bytes_at_the_destination_are_noticed() {
    let mut d = Disk::with(&[("one", "first file")]);
    d.corrupt_part = true;
    let r = d.run(options(Mode::Move));
    assert!(!done(&r));
    assert_eq!(d.src.len(), 1);
    assert!(d.dst.is_empty() && d.parts.is_empty());
    assert!(r.summary().errors[0].why.contains("verify failed"), "{}", r.summary().errors[0].why);
}

#[test]
fn one_unreadable_file_does_not_stop_the_rest() {
    let mut d = Disk::with(&[("one", "first file"), ("three", "3"), ("two", "22")]);
    d.unreadable.insert("three".to_string());
    let r = d.run(options(Mode::Move));
    assert!(!done(&r));
    assert_eq!(d.dst.len(), 2);
    // A move that is not whole deletes nothing.
    assert_eq!(d.src.len(), 3);
    let e = &r.summary().errors;
    assert_eq!(e.len(), 1);
    assert_eq!(e[0].place, Place::File(1));
    assert_eq!(e[0].why, "cannot copy /src/three to /dst/three: permission denied");
    assert!(d.progress.contains(&"errors 1".to_string()));
    // The next run does only what is missing, and then the originals go.
    d.unreadable.clear();
    let r = d.run(options(Mode::Move));
    assert!(done(&r));
    assert_eq!((r.summary().files_copied, r.summary().files_skipped), (1, 2));
    assert!(d.src.is_empty());
}

#[test]
fn a_stop_inside_a_file_goes_on_from_there() {
    let text = "a file of some twenty-nine by";
    let mut d = Disk::with(&[("big", text)]);
    d.stop_in_copy = true;
    let r = d.run(options(Mode::Copy));
    assert!(!done(&r) && r.summary().stopped);
    assert_eq!(d.parts["big"], &text.as_bytes()[..8]);
    assert_eq!(r.summary().bytes_written, 8);
    d.stop_in_copy = false;
    let r = d.run(options(Mode::Copy));
    assert!(done(&r));
    assert_eq!(d.dst["big"].bytes, text.as_bytes());
    assert_eq!(r.summary().bytes_written, text.len() as u64 - 8);
    assert!(d.log.contains(&"copy big from 8".to_string()));
    assert!(d.notes.iter().any(|n| n.starts_with("resuming: 0 file(s) already done")));
    assert!(d.progress.contains(&"skipped 8".to_string()));
}

#[test]
fn a_checkpoint_is_never_trusted_blind() {
    let text = "a file of some twenty-nine by";
    let mut d = Disk::with(&[("big", text)]);
    d.stop_in_copy = true;
    d.run(options(Mode::Copy));
    d.stop_in_copy = false;
    // The staged bytes rotted while it was away.
    d.parts.get_mut("big").unwrap()[3] ^= 0x40;
    let r = d.run(options(Mode::Copy));
    assert!(done(&r));
    assert!(d.log.contains(&"copy big from 0".to_string()));
    assert_eq!(d.dst["big"].bytes, text.as_bytes());
}

#[test]
fn a_changed_source_starts_over() {
    let text = "a file of some twenty-nine by";
    let mut d = Disk::with(&[("big", text)]);
    d.stop_in_copy = true;
    d.run(options(Mode::Copy));
    d.stop_in_copy = false;
    d.src.get_mut("big").unwrap().ns += 1;
    let r = d.run(options(Mode::Copy));
    assert!(done(&r));
    assert!(d.log.contains(&"drop big".to_string()));
    assert!(d.log.contains(&"copy big from 0".to_string()));
}

#[test]
fn an_original_that_changed_is_kept() {
    let mut d = Disk::with(&[("one", "first file")]);
    let m = d.manifest();
    // It is rewritten between the scan and the deletion.
    d.src.get_mut("one").unwrap().ns += 7;
    let r = d.run_on(options(Mode::Move), m, Os::Linux);
    assert!(!done(&r));
    assert_eq!(d.src.len(), 1);
    assert_eq!(r.summary().errors[0].why, "changed since it was copied — original kept");
}

#[test]
fn a_stop_between_files_deletes_nothing() {
    let mut d = Disk::with(&[("one", "1"), ("two", "2"), ("zzz", "3")]);
    d.stop_at = Some(2);
    let r = d.run(options(Mode::Move));
    assert!(r.summary().stopped && !done(&r));
    assert_eq!(d.src.len(), 3);
    assert!(d.dst.len() < 3);
    assert!(d.has_journal);
}

#[test]
fn a_dry_run_touches_nothing() {
    let mut d = Disk::with(&[("one", "1234"), ("two", "2")]);
    let mut o = options(Mode::Move);
    o.dry_run = true;
    let mut m = d.manifest();
    m.skipped.push(Skipped { rel: rel("link"), absolute: false, why: "a symlink".to_string() });
    let r = d.run_on(o, m, Os::Linux);
    assert!(matches!(r.ask(), Ask::Finished { dry: true, done: false }));
    assert_eq!(d.log, ["paths"]);
    assert_eq!(d.notes, ["dry run: would move 2 file(s), 5 byte(s) → /dst", "  skip link: a symlink"]);
}

#[test]
fn a_differing_file_is_kept_when_asked() {
    let mut d = Disk::with(&[("one", "new text"), ("two", "2")]);
    d.dst.insert("one".to_string(), Dst { bytes: b"old".to_vec(), mtime: 5 });
    let mut o = options(Mode::Copy);
    o.on_exists = OnExists::Keep;
    let r = d.run(o);
    assert!(done(&r));
    assert_eq!(d.dst["one"].bytes, b"old");
    assert_eq!((r.summary().kept_existing, r.summary().files_copied), (1, 1));
}

#[test]
fn a_differing_file_refuses_the_job_when_asked() {
    let mut d = Disk::with(&[("one", "new text"), ("two", "2")]);
    d.dst.insert("one".to_string(), Dst { bytes: b"old".to_vec(), mtime: 5 });
    let mut o = options(Mode::Copy);
    o.on_exists = OnExists::Fail;
    let r = d.run(o);
    assert_eq!(
        why(&r),
        "1 file(s) already exist at the destination and differ — first: one"
    );
    assert_eq!(d.dst.len(), 1);
}

#[test]
fn a_differing_file_is_replaced_by_default() {
    let mut d = Disk::with(&[("one", "new text")]);
    d.dst.insert("one".to_string(), Dst { bytes: b"old".to_vec(), mtime: 5 });
    let r = d.run(options(Mode::Copy));
    assert!(done(&r));
    assert_eq!(d.dst["one"].bytes, b"new text");
}

#[test]
fn paranoia_reads_both_ends() {
    let mut d = Disk::with(&[("one", "same size")]);
    d.run(options(Mode::Copy));
    // Same size and time, other bytes.
    d.dst.get_mut("one").unwrap().bytes = b"SAME SIZE".to_vec();
    let r = d.run(options(Mode::Copy));
    assert_eq!((r.summary().files_copied, r.summary().files_skipped), (0, 1));
    let mut o = options(Mode::Copy);
    o.paranoid = true;
    let r = d.run(o);
    assert_eq!((r.summary().files_copied, r.summary().files_skipped), (1, 0));
    assert_eq!(d.dst["one"].bytes, b"same size");
}

#[test]
fn one_place_is_refused_for_both() {
    let mut d = Disk::with(&[("one", "1")]);
    d.same_place = true;
    let r = d.run(options(Mode::Move));
    assert_eq!(
        why(&r),
        "source and destination are the same path — a move would delete the only copy"
    );
    let r = d.run(options(Mode::Copy));
    assert_eq!(why(&r), "source and destination are the same path");
    assert_eq!(d.log, ["paths", "paths"]);
}

#[test]
fn a_destination_inside_the_source_is_refused() {
    let mut d = Disk::with(&[("one", "1")]);
    d.inside = true;
    let r = d.run(options(Mode::Copy));
    assert_eq!(why(&r), "destination is inside the source folder");
}

#[test]
fn names_that_collide_on_the_drive_are_refused() {
    let mut d = Disk::with(&[("Photo.jpg", "1"), ("photo.JPG", "2")]);
    let r = d.run(options(Mode::Copy));
    assert!(done(&r));
    let mut d = Disk::with(&[("Photo.jpg", "1"), ("photo.JPG", "2")]);
    d.ignores_case = true;
    let r = d.run(options(Mode::Copy));
    let text = why(&r);
    assert!(text.contains("Photo.jpg") && text.contains("photo.JPG"), "{text}");
    assert!(d.dst.is_empty());
}

#[test]
fn a_file_too_large_for_fat_is_refused() {
    let mut d = Disk::with(&[("one", "1")]);
    let mut m = d.manifest();
    m.files[0].size = 5_000_000_000;
    d.fat = true;
    let r = d.run_on(options(Mode::Copy), m, Os::Linux);
    assert!(why(&r).contains("one"), "{}", why(&r));
    assert!(d.dst.is_empty());
}

#[test]
fn a_name_windows_cannot_hold_is_refused_there() {
    let mut d = Disk::with(&[("aux.txt", "1")]);
    let m = d.manifest();
    let r = d.run_on(options(Mode::Copy), m, Os::Windows);
    assert!(why(&r).contains("a reserved device name"), "{}", why(&r));
    let r = d.run(options(Mode::Copy));
    assert!(done(&r));
}

#[test]
fn a_rename_that_fails_is_told_and_the_original_stays() {
    let mut d = Disk::with(&[("one", "first file")]);
    d.rename_fails = true;
    let r = d.run(options(Mode::Move));
    assert!(!done(&r));
    assert_eq!(d.src.len(), 1);
    assert!(
        r.summary().errors[0].why.starts_with("cannot move into place at /dst/one: busy"),
        "{}",
        r.summary().errors[0].why
    );
}

#[test]
fn a_file_source_goes_under_its_own_name() {
    let mut d = Disk::with(&[("solo", "only one")]);
    let mut m = d.manifest();
    m.root_is_file = true;
    let r = d.run_on(options(Mode::Copy), m, Os::Linux);
    assert!(done(&r));
    assert_eq!(d.dst["solo"].bytes, b"only one");
}

#[test]
fn an_empty_job_is_done_at_once() {
    let mut d = Disk::default();
    let r = d.run(options(Mode::Move));
    assert!(done(&r));
    assert_eq!(r.summary().files_copied, 0);
}

#[test]
fn a_busy_destination_is_left_alone() {
    let mut d = Disk::with(&[("a", "1"), ("b", "2")]);
    d.busy = true;
    let r = d.run(options(Mode::Move));
    assert_eq!(why(&r), "another transfer is writing there");
    assert_eq!(d.log, ["paths", "lock"]);
    assert!(d.dst.is_empty() && d.dirs.is_empty() && d.src.len() == 2);
}

#[test]
fn a_later_run_goes_past_what_was_recorded() {
    let mut d = Disk::with(&[("a", "first"), ("b", "second"), ("c", "third")]);
    d.stop_at = Some(2);
    let r = d.run(options(Mode::Move));
    assert!(!done(&r) && r.summary().stopped);
    let recorded = d.journal.iter().filter(|r| matches!(r, Record::FileDone { .. })).count();
    assert!(recorded > 0 && recorded < 3);
    d.stop_at = None;
    d.polls = 0;
    d.log.clear();
    let r = d.run(options(Mode::Move));
    assert!(done(&r));
    assert_eq!(r.summary().files_skipped, recorded);
    assert_eq!(r.summary().files_copied, 3 - recorded);
    assert_eq!(d.log.iter().filter(|l| l.starts_with("copy ")).count(), 3 - recorded);
    assert!(d.src.is_empty() && d.dst.len() == 3);
}

#[test]
fn a_failure_says_of_what_kind_it_is() {
    let mut d = Disk::with(&[("one", "new")]);
    d.same_place = true;
    assert_eq!(kind(&d.run(options(Mode::Copy))), Kind::InvalidInput);
    let mut d = Disk::with(&[("A", "1"), ("a", "2")]);
    d.ignores_case = true;
    assert_eq!(kind(&d.run(options(Mode::Copy))), Kind::InvalidInput);
    let mut d = Disk::with(&[("one", "new")]);
    d.dst.insert("one".to_string(), Dst { bytes: b"other".to_vec(), mtime: 5 });
    let mut o = options(Mode::Copy);
    o.on_exists = OnExists::Fail;
    assert_eq!(kind(&d.run(o)), Kind::AlreadyExists);
    let mut d = Disk::with(&[("one", "new")]);
    d.busy = true;
    let r = d.run(options(Mode::Copy));
    assert_eq!((kind(&r), why(&r).as_str()), (Kind::Passed, "another transfer is writing there"));
}

/// A move that keeps what is there, of two files whose names read the same; only the place of
/// the first is taken. What was copied, and which originals went.
fn move_two_that_read_the_same(taken: usize) -> (Vec<usize>, Vec<usize>, usize) {
    let mut m = Manifest::empty();
    for name in [b"a\xff".as_slice(), b"a\xfe".as_slice()] {
        let rel = RelPath::root().join(name);
        m.files.push(Entry { rel, size: 3, mtime: 7, mtime_ns: 7_000_000_001 });
    }
    let mut opts = options(Mode::Move);
    opts.on_exists = OnExists::Keep;
    opts.verify = false;
    let mut run = Run::begin(Job {
        opts,
        os: Os::Linux,
        src: "/src".to_string(),
        dst: "/dst".to_string(),
        src_abs: "/src".to_string(),
        dst_abs: "/dst".to_string(),
        src_name: Some("src".to_string()),
        m,
    });
    assert_eq!(run.key(0), run.key(1));
    let (mut copied, mut gone) = (Vec::new(), Vec::new());
    loop {
        let answer = match run.ask() {
            Ask::Paths { .. } => Answer::Paths(PathFacts {
                src_key: "/src".to_string(),
                dst_key: "/dst".to_string(),
                same_file: false,
                probed: false,
                inside: false,
            }),
            Ask::Load(_) => Answer::Loaded(load(Vec::new(), false)),
            Ask::ProbeCase | Ask::ProbeFat | Ask::Poll => Answer::Flag(false),
            Ask::StatDest(i) => Answer::Stat(if i == taken {
                Some(DestStat { is_file: true, is_dir: false, len: 99, mtime: 1 })
            } else {
                None
            }),
            Ask::Copy { file, .. } => {
                copied.push(file);
                Answer::Copied { hash: 5, written: 3 }
            }
            Ask::StatSource(_) => Answer::Source(Some(SourceStat { len: 3, mtime_ns: 7_000_000_001 })),
            Ask::DeleteSource(i) => {
                gone.push(i);
                Answer::Done
            }
            Ask::Finished { .. } => return (copied, gone, run.summary().kept_existing),
            Ask::Failed { why, .. } => panic!("{why}"),
            _ => Answer::Done,
        };
        run.answer(answer);
    }
}

#[test]
fn names_that_read_the_same_are_still_two_files() {
    assert_eq!(move_two_that_read_the_same(0), (vec![1], vec![1], 1));
    assert_eq!(move_two_that_read_the_same(1), (vec![0], vec![0], 1));
    assert_eq!(move_two_that_read_the_same(2), (vec![0, 1], vec![0, 1], 0));
}

fn heard(d: &Disk, what: &str) -> usize {
    d.progress.iter().filter(|p| *p == what).count()
}

fn bytes_heard(d: &Disk) -> u64 {
    d.progress.iter().filter_map(|p| p.strip_prefix("bytes ")?.parse::<u64>().ok()).sum()
}

#[test]
fn what_is_told_adds_up() {
    let files = [("a", "first file"), ("b", ""), ("c", "abc"), ("d", "kept")];
    let mut d = Disk::with(&files);
    d.dst.insert("d".to_string(), Dst { bytes: b"other".to_vec(), mtime: 5 });
    let mut o = options(Mode::Move);
    o.on_exists = OnExists::Keep;
    let m = d.manifest();
    let stats = m.files.iter().map(|e| d.stat(&e.rel.text(Os::Linux))).collect();
    let r = d.run(o);
    assert!(done(&r));
    let s = r.summary();
    assert_eq!((s.files_copied, heard(&d, "done")), (3, 3));
    assert_eq!((s.files_skipped, heard(&d, "file skipped")), (1, 1));
    assert_eq!((s.sources_deleted, heard(&d, "deleted")), (3, 3));
    assert_eq!((s.bytes_written, bytes_heard(&d)), (13, 13));
    assert_eq!((s.kept_existing, conflicts(&m, &stats).len()), (1, 1));
    assert_eq!(d.dst["d"].bytes, b"other");
    assert_eq!(d.src.keys().collect::<Vec<_>>(), ["d"]);
    assert_eq!(heard(&d, "deleting 3"), 1);
    let phase = d.progress.iter().position(|p| p == "deleting 3").unwrap();
    assert!(d.progress.iter().position(|p| p == "deleted").unwrap() > phase);
}

#[test]
fn after_a_problem_or_a_stop_no_original_goes() {
    let mut d = Disk::with(&[("a", "1"), ("b", "2")]);
    d.unreadable.insert("a".to_string());
    let r = d.run(options(Mode::Move));
    assert_eq!(heard(&d, "errors 1"), 1);
    assert_eq!((r.summary().sources_deleted, heard(&d, "deleted"), d.src.len()), (0, 0, 2));
    let mut d = Disk::with(&[("a", "1"), ("b", "2")]);
    d.stop_at = Some(2);
    let r = d.run(options(Mode::Move));
    assert!(r.summary().stopped);
    assert!(d.progress.iter().all(|p| !p.starts_with("delet")));
    assert_eq!((r.summary().sources_deleted, d.src.len()), (0, 2));
}

#[test]
fn a_paranoid_copy_reads_both_ends() {
    for (there, same) in [("same", true), ("diff", false)] {
        let mut d = Disk::with(&[("one", "same")]);
        d.dst.insert("one".to_string(), Dst { bytes: there.as_bytes().to_vec(), mtime: 1001 });
        assert_eq!(d.run(options(Mode::Copy)).summary().files_skipped, 1, "{there}");
        let mut o = options(Mode::Copy);
        o.paranoid = true;
        assert_eq!(d.run(o).summary().files_skipped == 1, same, "{there}");
    }
}
