//! A whole transfer, from the first look at the pair to the last record.
//!
//! The machine below decides everything and does nothing: it says what it needs looked up,
//! written, renamed or deleted, and is told how that went. Whoever drives it has no decision
//! left to take.

use crate::engine;
use crate::engine::{
    already_settled, check_collisions, check_fat_size_limit, check_paths, check_windows_names,
    conflicts, matches_destination, DestStat, FactsView, Kind, OnExists, Options, PathFacts, Progress,
    ProgressView,
};
use crate::journal;
use crate::journal::{
    journal_path, lock_name, CkptView, DoneView, Mode, Record, RecordView,
    ResumeState, ResumeView, JOURNAL_VERSION,
};
use crate::path;
use crate::path::{below_text, spelled_as_dir, Os};
use crate::scan;
use crate::scan::{EntryView, Manifest, ManifestView};
use crate::text;
use crate::text::{cat, decimal, hex128};
use vstd::hash_set::{HashSetWithView, StringHashSet};
use vstd::prelude::*;

verus! {

// ── the job ──────────────────────────────────────────────────────────────────
/// Everything that is fixed before a transfer starts.
pub struct Job {
    pub opts: Options,
    pub os: Os,
    /// Source and destination as they were given.
    pub src: String,
    pub dst: String,
    /// The same, made absolute.
    pub src_abs: String,
    pub dst_abs: String,
    /// The last component of the source, where it has one.
    pub src_name: Option<String>,
    pub m: Manifest,
}

pub struct JobView {
    pub mode: Mode,
    pub on_exists: OnExists,
    pub tag: Option<Seq<char>>,
    pub verify: bool,
    pub paranoid: bool,
    pub dry_run: bool,
    pub selection: Seq<Seq<char>>,
    pub skip_caches: bool,
    pub skip_cloud: bool,
    pub os: Os,
    pub src: Seq<char>,
    pub dst: Seq<char>,
    pub src_abs: Seq<char>,
    pub dst_abs: Seq<char>,
    pub src_name: Option<Seq<char>>,
    pub m: ManifestView,
}

impl View for Job {
    type V = JobView;

    open spec fn view(&self) -> JobView {
        JobView {
            mode: self.opts.mode,
            on_exists: self.opts.on_exists,
            tag: match self.opts.job_tag {
                Some(t) => Some(t@),
                None => None,
            },
            verify: self.opts.verify,
            paranoid: self.opts.paranoid,
            dry_run: self.opts.dry_run,
            selection: text::texts(self.opts.selection@),
            skip_caches: self.opts.skip_caches,
            skip_cloud: self.opts.skip_cloud,
            os: self.os,
            src: self.src@,
            dst: self.dst@,
            src_abs: self.src_abs@,
            dst_abs: self.dst_abs@,
            src_name: match self.src_name {
                Some(n) => Some(n@),
                None => None,
            },
            m: self.m@,
        }
    }
}

impl JobView {
    /// How many files there are.
    pub open spec fn n(self) -> int {
        self.m.files.len() as int
    }

    /// The name of the `i`-th file in the journal.
    pub open spec fn key(self, i: int) -> Seq<char> {
        path::rel_text(self.m.files[i].rel, self.os)
    }

    /// Where the `i`-th file comes from, for messages.
    pub open spec fn source_text(self, i: int) -> Seq<char> {
        if self.m.root_is_file {
            self.src
        } else {
            path::below(self.src, self.key(i), self.os)
        }
    }
}

// ── what it asks and what it is told ─────────────────────────────────────────
/// What a transfer needs done next.
pub enum Ask {
    /// Is the destination a directory?
    DestinationIsDir,
    /// Gather what is known of the pair. `into`: the destination is the folder that takes the
    /// source's own name. `probe`: a marker may be written into the source.
    Paths { into: bool, probe: bool },
    /// Read the journal of this name.
    Load(String),
    /// Take the lock of this name.
    Lock(String),
    MakeRoot,
    /// Does the destination ignore the case of names?
    ProbeCase,
    /// Is the destination a FAT file system?
    ProbeFat,
    /// Look at the destination of every file.
    StatAll,
    /// Has a stop been requested?
    Poll,
    MakeDir(usize),
    /// Open the journal for appending, cut back to its last complete line.
    OpenJournal,
    /// Append a record and make the journal durable.
    Commit(Record),
    /// Append a record; make the journal durable if a group commit is due.
    Append(Record),
    /// Make the journal durable.
    Flush,
    StatDest(usize),
    HashSource(usize),
    HashDest(usize),
    /// Hash `span` bytes of the staged file up to offset `off`.
    HashSpan { file: usize, off: u64, span: u64 },
    RemovePart(usize),
    MakeParent(usize),
    Copy { file: usize, resume: u64 },
    PartIsEmpty(usize),
    HashPart(usize),
    Rename(usize),
    DestIsDir(usize),
    SetMtime(usize),
    /// Flush every directory the transfer touched.
    SyncDestination,
    StatSource(usize),
    DeleteSource(usize),
    RemoveJournal,
    /// It is over. Whether it was a dry run, and whether the whole job is done.
    Finished { dry: bool, done: bool },
    Failed { kind: Kind, why: String },
}

#[verifier::ext_equal]
pub enum AskView {
    DestinationIsDir,
    Paths { into: bool, probe: bool },
    Load(Seq<char>),
    Lock(Seq<char>),
    MakeRoot,
    ProbeCase,
    ProbeFat,
    StatAll,
    Poll,
    MakeDir(int),
    OpenJournal,
    Commit(RecordView),
    Append(RecordView),
    Flush,
    StatDest(int),
    HashSource(int),
    HashDest(int),
    HashSpan { file: int, off: u64, span: u64 },
    RemovePart(int),
    MakeParent(int),
    Copy { file: int, resume: u64 },
    PartIsEmpty(int),
    HashPart(int),
    Rename(int),
    DestIsDir(int),
    SetMtime(int),
    SyncDestination,
    StatSource(int),
    DeleteSource(int),
    RemoveJournal,
    Finished { dry: bool, done: bool },
    Failed { kind: Kind, why: Seq<char> },
}

impl View for Ask {
    type V = AskView;

    open spec fn view(&self) -> AskView {
        match *self {
            Ask::DestinationIsDir => AskView::DestinationIsDir,
            Ask::Paths { into, probe } => AskView::Paths { into, probe },
            Ask::Load(n) => AskView::Load(n@),
            Ask::Lock(n) => AskView::Lock(n@),
            Ask::MakeRoot => AskView::MakeRoot,
            Ask::ProbeCase => AskView::ProbeCase,
            Ask::ProbeFat => AskView::ProbeFat,
            Ask::StatAll => AskView::StatAll,
            Ask::Poll => AskView::Poll,
            Ask::MakeDir(i) => AskView::MakeDir(i as int),
            Ask::OpenJournal => AskView::OpenJournal,
            Ask::Commit(r) => AskView::Commit(r@),
            Ask::Append(r) => AskView::Append(r@),
            Ask::Flush => AskView::Flush,
            Ask::StatDest(i) => AskView::StatDest(i as int),
            Ask::HashSource(i) => AskView::HashSource(i as int),
            Ask::HashDest(i) => AskView::HashDest(i as int),
            Ask::HashSpan { file, off, span } => AskView::HashSpan { file: file as int, off, span },
            Ask::RemovePart(i) => AskView::RemovePart(i as int),
            Ask::MakeParent(i) => AskView::MakeParent(i as int),
            Ask::Copy { file, resume } => AskView::Copy { file: file as int, resume },
            Ask::PartIsEmpty(i) => AskView::PartIsEmpty(i as int),
            Ask::HashPart(i) => AskView::HashPart(i as int),
            Ask::Rename(i) => AskView::Rename(i as int),
            Ask::DestIsDir(i) => AskView::DestIsDir(i as int),
            Ask::SetMtime(i) => AskView::SetMtime(i as int),
            Ask::SyncDestination => AskView::SyncDestination,
            Ask::StatSource(i) => AskView::StatSource(i as int),
            Ask::DeleteSource(i) => AskView::DeleteSource(i as int),
            Ask::RemoveJournal => AskView::RemoveJournal,
            Ask::Finished { dry, done } => AskView::Finished { dry, done },
            Ask::Failed { kind, why } => AskView::Failed { kind, why: why@ },
        }
    }
}

/// The identity of a source file: its size and its modification time in nanoseconds.
#[derive(Clone, Copy, PartialEq, Eq, Structural, Debug)]
pub struct SourceStat {
    pub len: u64,
    pub mtime_ns: i64,
}

/// How it went.
pub enum Answer {
    Flag(bool),
    Done,
    Failed(String),
    /// Failed at this place, for this reason.
    FailedAt(String, String),
    Paths(PathFacts),
    Loaded(ResumeState),
    Stats(Vec<Option<DestStat>>),
    Stat(Option<DestStat>),
    Hash(u128),
    /// The file is copied and flushed: hash of the source, bytes written.
    Copied { hash: u128, written: u64 },
    /// The copy stopped on request, at a recorded point.
    Stopped { written: u64 },
    Source(Option<SourceStat>),
}

#[verifier::ext_equal]
pub enum AnswerView {
    Flag(bool),
    Done,
    Failed(Seq<char>),
    FailedAt(Seq<char>, Seq<char>),
    Paths(FactsView),
    Loaded(ResumeView),
    Stats(Seq<Option<DestStat>>),
    Stat(Option<DestStat>),
    Hash(u128),
    Copied { hash: u128, written: u64 },
    Stopped { written: u64 },
    Source(Option<SourceStat>),
}

impl View for Answer {
    type V = AnswerView;

    open spec fn view(&self) -> AnswerView {
        match *self {
            Answer::Flag(b) => AnswerView::Flag(b),
            Answer::Done => AnswerView::Done,
            Answer::Failed(e) => AnswerView::Failed(e@),
            Answer::FailedAt(p, e) => AnswerView::FailedAt(p@, e@),
            Answer::Paths(f) => AnswerView::Paths(f@),
            Answer::Loaded(s) => AnswerView::Loaded(s@),
            Answer::Stats(v) => AnswerView::Stats(v@),
            Answer::Stat(s) => AnswerView::Stat(s),
            Answer::Hash(h) => AnswerView::Hash(h),
            Answer::Copied { hash, written } => AnswerView::Copied { hash, written },
            Answer::Stopped { written } => AnswerView::Stopped { written },
            Answer::Source(s) => AnswerView::Source(s),
        }
    }
}

/// What a step reports besides.
pub enum Out {
    Tell(Progress),
    /// A line for the log.
    Note(String),
    /// A file of this size is taken up.
    EtaStart(u64),
    /// This much of it need not be written.
    EtaCarried(u64),
    /// It is finished.
    EtaDone,
    /// A good moment for a new estimate.
    Tick,
}

#[verifier::ext_equal]
pub enum OutView {
    Tell(ProgressView),
    Note(Seq<char>),
    EtaStart(u64),
    EtaCarried(u64),
    EtaDone,
    Tick,
}

impl View for Out {
    type V = OutView;

    open spec fn view(&self) -> OutView {
        match *self {
            Out::Tell(p) => OutView::Tell(p@),
            Out::Note(s) => OutView::Note(s@),
            Out::EtaStart(n) => OutView::EtaStart(n),
            Out::EtaCarried(n) => OutView::EtaCarried(n),
            Out::EtaDone => OutView::EtaDone,
            Out::Tick => OutView::Tick,
        }
    }
}

pub open spec fn outs(v: Seq<Out>) -> Seq<OutView> {
    v.map_values(|o: Out| o@)
}

// ── where it stands ──────────────────────────────────────────────────────────
/// What a problem is about.
#[derive(Clone, Copy, PartialEq, Eq, Structural, Debug)]
pub enum Place {
    Dir(usize),
    File(usize),
    /// The destination as a whole.
    Here,
}

pub struct Problem {
    pub place: Place,
    pub why: String,
}

#[verifier::ext_equal]
pub struct ProblemView {
    pub place: Place,
    pub why: Seq<char>,
}

impl View for Problem {
    type V = ProblemView;

    open spec fn view(&self) -> ProblemView {
        ProblemView { place: self.place, why: self.why@ }
    }
}

pub open spec fn problems(v: Seq<Problem>) -> Seq<ProblemView> {
    v.map_values(|p: Problem| p@)
}

/// What a transfer has done.
pub struct Summary {
    /// It ended early on request.
    pub stopped: bool,
    pub files_copied: usize,
    pub files_skipped: usize,
    /// Destination files left alone because they differed.
    pub kept_existing: usize,
    pub files_verified: usize,
    pub bytes_written: u64,
    pub sources_deleted: usize,
    pub errors: Vec<Problem>,
}

pub struct SummaryView {
    pub stopped: bool,
    pub copied: int,
    pub skipped: int,
    pub kept: int,
    pub verified: int,
    pub bytes_written: u64,
    pub deleted: int,
    pub errors: Seq<ProblemView>,
}

impl View for Summary {
    type V = SummaryView;

    open spec fn view(&self) -> SummaryView {
        SummaryView {
            stopped: self.stopped,
            copied: self.files_copied as int,
            skipped: self.files_skipped as int,
            kept: self.kept_existing as int,
            verified: self.files_verified as int,
            bytes_written: self.bytes_written,
            deleted: self.sources_deleted as int,
            errors: problems(self.errors@),
        }
    }
}

/// A stage is named for what has been asked and not yet answered.
#[derive(Clone, Copy, PartialEq, Eq, Structural, Debug)]
pub enum Stage {
    LookDst,
    Paths,
    Load,
    Lock,
    Root,
    Case,
    Fat,
    Clashes,
    DirPoll(usize),
    DirMake(usize),
    Open,
    Session,
    FilePoll(usize),
    Look(usize),
    /// The journal calls it done, and the hashes of both ends are to confirm that.
    RecordedSource(usize),
    RecordedDest(usize),
    /// The destination looks the same, and the hashes of both ends are to confirm that.
    SameSource(usize),
    SameDest(usize),
    /// Checkpoint `k` of the file is to be checked against the medium.
    SpanPoll(usize, usize),
    Span(usize, usize),
    DropStale(usize),
    Gate(usize, u64),
    Parent(usize, u64),
    Copying(usize, u64),
    CopyFailed(usize),
    DropEmpty(usize),
    Verify(usize),
    DropBad(usize),
    Rename(usize),
    RenameFailed(usize),
    DropStuck(usize),
    Stamp(usize),
    Recording(usize),
    FirstFlush,
    Barrier,
    AllCopied,
    DeletePoll(usize),
    DeleteLook(usize),
    Deleting(usize),
    DeleteRecord(usize),
    SecondFlush,
    Complete,
    RemoveJournal,
    /// Over; whether the whole job is done.
    Finished(bool),
    Failed,
}

pub struct RunView {
    pub job: JobView,
    pub stage: Stage,
    pub sum: SummaryView,
    /// The destination is the folder that takes the source's own name.
    pub into: bool,
    pub facts: FactsView,
    pub prev: ResumeView,
    /// The files whose copy is proven.
    pub proven: Set<usize>,
    /// What stood at the destination of the file at hand.
    pub seen: Option<DestStat>,
    /// Bytes of its staged prefix found good.
    pub checked: u64,
    /// Hash of the source at hand; nothing where it could not be read.
    pub hash: Option<u128>,
    /// Why the copy at hand failed, or the whole transfer.
    pub why: Seq<char>,
    /// What kind of error ended the transfer.
    pub kind: Kind,
}

/// A step: where it leads, and what it reports.
pub struct Next {
    pub s: RunView,
    pub out: Seq<OutView>,
}

impl RunView {
    pub open spec fn begin(job: JobView) -> RunView {
        let s = RunView {
            job,
            stage: Stage::Paths,
            sum: SummaryView {
                stopped: false,
                copied: 0,
                skipped: 0,
                kept: 0,
                verified: 0,
                bytes_written: 0,
                deleted: 0,
                errors: Seq::empty(),
            },
            into: false,
            facts: FactsView {
                src_key: Seq::empty(),
                dst_key: Seq::empty(),
                same_file: false,
                probed: false,
                inside: false,
            },
            prev: ResumeView::empty(),
            proven: Set::empty(),
            seen: None,
            checked: 0,
            hash: None,
            why: Seq::empty(),
            kind: Kind::Passed,
        };
        if !job.m.root_is_file {
            s
        } else if path::dir_spelling(job.dst, job.os) {
            s.goes_into()
        } else {
            RunView { stage: Stage::LookDst, ..s }
        }
    }

    /// A file source goes into the folder `dst` under its own name.
    pub open spec fn goes_into(self) -> RunView {
        match self.job.src_name {
            Some(_) => RunView { into: true, stage: Stage::Paths, ..self },
            None => self.fail(Kind::InvalidInput, "source has no file name"@),
        }
    }

    pub open spec fn fail(self, kind: Kind, why: Seq<char>) -> RunView {
        RunView { stage: Stage::Failed, kind, why, ..self }
    }

    pub open spec fn at(self, stage: Stage) -> RunView {
        RunView { stage, ..self }
    }

    pub open spec fn silent(self) -> Next {
        Next { s: self, out: Seq::empty() }
    }

    // ── derived ──
    /// The previous run left something to build on.
    pub open spec fn resuming(self) -> bool {
        self.prev.done.dom().len() > 0 || self.prev.partial is Some
    }

    /// What the journal says of the `i`-th file.
    pub open spec fn record(self, i: int) -> Option<DoneView> {
        if self.prev.done.dom().contains(self.job.key(i)) {
            Some(self.prev.done[self.job.key(i)])
        } else {
            None
        }
    }

    /// The checkpoint chain of the `i`-th file, if it was in flight.
    pub open spec fn chain(self, i: int) -> Option<Seq<CkptView>> {
        match self.prev.partial {
            Some(p) => if p.rel == self.job.key(i) {
                Some(p.chain)
            } else {
                None
            },
            None => None,
        }
    }

    /// Where a file source ends up, for messages.
    pub open spec fn single_dst(self) -> Seq<char> {
        if self.into {
            path::below(self.job.dst, self.job.src_name->0, self.job.os)
        } else {
            self.job.dst
        }
    }

    /// Where the `i`-th file goes, for messages.
    pub open spec fn dest_text(self, i: int) -> Seq<char> {
        if self.job.m.root_is_file {
            self.single_dst()
        } else {
            path::below(self.job.dst, self.job.key(i), self.job.os)
        }
    }

    /// The first line of a new journal.
    pub open spec fn session(self) -> RecordView {
        RecordView::Session {
            v: JOURNAL_VERSION,
            src: self.job.src_abs,
            dst: if self.into {
                path::below(self.job.dst_abs, self.job.src_name->0, self.job.os)
            } else {
                self.job.dst_abs
            },
            mode: self.job.mode,
            files: self.job.m.files.len() as usize,
            bytes: self.job.m.total_bytes,
            names: self.job.selection,
            skip_caches: self.job.skip_caches,
            skip_cloud: self.job.skip_cloud,
        }
    }

    /// The line for a finished file.
    pub open spec fn done_record(self, i: int) -> RecordView {
        let e = self.job.m.files[i];
        RecordView::FileDone {
            rel: self.job.key(i),
            size: e.size,
            mtime: e.mtime,
            mtime_ns: e.mtime_ns,
            hash: text::hex(self.hash->0 as nat, 32),
        }
    }

    /// What has been asked.
    pub open spec fn ask(self) -> AskView {
        match self.stage {
            Stage::LookDst => AskView::DestinationIsDir,
            Stage::Paths => AskView::Paths {
                into: self.into,
                probe: self.job.mode is Move && !self.job.dry_run,
            },
            Stage::Load => AskView::Load(
                journal::hashed_name(
                    journal::job_key(
                        self.facts.src_key,
                        self.facts.dst_key,
                        self.job.mode,
                        self.job.tag,
                    ),
                    ".jsonl"@,
                ),
            ),
            Stage::Lock => AskView::Lock(journal::hashed_name(self.facts.dst_key, ".lock"@)),
            Stage::Root => AskView::MakeRoot,
            Stage::Case => AskView::ProbeCase,
            Stage::Fat => AskView::ProbeFat,
            Stage::Clashes => AskView::StatAll,
            Stage::DirPoll(_) | Stage::FilePoll(_) | Stage::SpanPoll(_, _) | Stage::Gate(_, _)
            | Stage::DeletePoll(_) => AskView::Poll,
            Stage::DirMake(i) => AskView::MakeDir(i as int),
            Stage::Open => AskView::OpenJournal,
            Stage::Session => AskView::Commit(self.session()),
            Stage::Look(i) => AskView::StatDest(i as int),
            Stage::RecordedSource(i) | Stage::SameSource(i) => AskView::HashSource(i as int),
            Stage::RecordedDest(i) | Stage::SameDest(i) => AskView::HashDest(i as int),
            Stage::Span(i, k) => AskView::HashSpan {
                file: i as int,
                off: self.prev.partial->0.chain[k as int].off,
                span: self.prev.partial->0.chain[k as int].span,
            },
            Stage::DropStale(i) | Stage::DropEmpty(i) | Stage::DropBad(i) | Stage::DropStuck(i) =>
                AskView::RemovePart(i as int),
            Stage::Parent(i, _) => AskView::MakeParent(i as int),
            Stage::Copying(i, r) => AskView::Copy { file: i as int, resume: r },
            Stage::CopyFailed(i) => AskView::PartIsEmpty(i as int),
            Stage::Verify(i) => AskView::HashPart(i as int),
            Stage::Rename(i) => AskView::Rename(i as int),
            Stage::RenameFailed(i) => AskView::DestIsDir(i as int),
            Stage::Stamp(i) => AskView::SetMtime(i as int),
            Stage::Recording(i) => AskView::Append(self.done_record(i as int)),
            Stage::FirstFlush | Stage::SecondFlush => AskView::Flush,
            Stage::Barrier => AskView::SyncDestination,
            Stage::AllCopied => AskView::Commit(RecordView::AllCopied),
            Stage::DeleteLook(i) => AskView::StatSource(i as int),
            Stage::Deleting(i) => AskView::DeleteSource(i as int),
            Stage::DeleteRecord(i) => AskView::Append(
                RecordView::SourceDeleted { rel: self.job.key(i as int) },
            ),
            Stage::Complete => AskView::Commit(RecordView::Complete),
            Stage::RemoveJournal => AskView::RemoveJournal,
            Stage::Finished(done) => AskView::Finished { dry: self.job.dry_run, done },
            Stage::Failed => AskView::Failed { kind: self.kind, why: self.why },
        }
    }

    // ── steps ──
    pub open spec fn problem(self, place: Place, why: Seq<char>) -> RunView {
        RunView {
            sum: SummaryView {
                errors: self.sum.errors.push(ProblemView { place, why }),
                ..self.sum
            },
            ..self
        }
    }

    /// Told with every problem that comes up while copying.
    pub open spec fn count(self) -> OutView {
        OutView::Tell(ProgressView::Errors { total: self.sum.errors.len() as usize })
    }

    /// To the next folder, or past them.
    pub open spec fn to_dir(self, i: int) -> RunView {
        if i < self.job.m.dirs.len() {
            self.at(Stage::DirPoll(i as usize))
        } else {
            self.at(Stage::Open)
        }
    }

    /// To the next file, or past them.
    pub open spec fn to_file(self, i: int) -> RunView {
        if i < self.job.n() {
            self.at(Stage::FilePoll(i as usize))
        } else {
            self.at(Stage::FirstFlush)
        }
    }

    /// To the next original to remove, or past them.
    pub open spec fn to_delete(self, i: int) -> RunView {
        if i < self.job.n() {
            self.at(Stage::DeletePoll(i as usize))
        } else {
            self.at(Stage::SecondFlush)
        }
    }

    pub open spec fn stop(self, stage: Stage) -> RunView {
        RunView { stage, sum: SummaryView { stopped: true, ..self.sum }, ..self }
    }

    /// The file at hand failed; the transfer goes on.
    pub open spec fn file_problem(self, i: int, why: Seq<char>) -> Next {
        let s = self.problem(Place::File(i as usize), why);
        Next { s: s.to_file(i + 1), out: seq![s.count()] }
    }

    /// Past the pair: the journal is read next.
    pub open spec fn paths_known(self, f: FactsView) -> RunView {
        let s = RunView { facts: f, ..self };
        match f.refusal(self.job.mode, self.job.os) {
            Some(why) => s.fail(Kind::InvalidInput, why),
            None => s.at(Stage::Load),
        }
    }

    pub open spec fn skip_notes(m: ManifestView, src: Seq<char>, os: Os, n: int) -> Seq<OutView>
        decreases n,
    {
        if n <= 0 {
            Seq::empty()
        } else {
            let k = m.skipped[n - 1];
            RunView::skip_notes(m, src, os, n - 1).push(
                OutView::Note(
                    "  skip "@ + skip_place(k.rel, k.absolute, src, os) + ": "@ + k.why,
                ),
            )
        }
    }

    /// The journal is known.
    pub open spec fn loaded(self, prev: ResumeView) -> Next {
        let s = RunView { prev, ..self };
        let resumed = if s.resuming() {
            seq![
                OutView::Note(
                    "resuming: "@ + text::dec(prev.done.dom().len()) + " file(s) already done"@
                        + (if prev.torn_tail {
                        ", torn journal tail discarded"@
                    } else {
                        ""@
                    }),
                ),
            ]
        } else {
            Seq::empty()
        };
        if self.job.dry_run {
            Next {
                s: s.at(Stage::Finished(false)),
                out: resumed.push(
                    OutView::Note(
                        "dry run: would "@ + (if self.job.mode is Move {
                            "move "@
                        } else {
                            "copy "@
                        }) + text::dec(self.job.m.files.len()) + " file(s), "@ + text::dec(
                            self.job.m.total_bytes as nat,
                        ) + " byte(s) → "@ + self.job.dst,
                    ),
                ) + RunView::skip_notes(
                    self.job.m,
                    self.job.src,
                    self.job.os,
                    self.job.m.skipped.len() as int,
                ),
            }
        } else {
            Next { s: s.at(Stage::Lock), out: resumed }
        }
    }

    /// The destination is there: are the names possible on it?
    pub open spec fn to_names(self) -> RunView {
        let w = if self.job.os is Windows {
            engine::windows_refusal(self.job.m.files, 0)
        } else {
            None
        };
        match w {
            Some(why) => self.fail(Kind::InvalidInput, why),
            None => if self.job.m.files.len() + self.job.m.dirs.len() < 2 {
                self.at(Stage::Fat)
            } else {
                self.at(Stage::Case)
            },
        }
    }

    /// The drive is known to hold every name and size: the folders come next, unless the
    /// transfer is to be refused over a clash.
    pub open spec fn to_clashes(self) -> RunView {
        if self.job.on_exists is Fail {
            self.at(Stage::Clashes)
        } else {
            self.to_dir(0)
        }
    }

    pub open spec fn clashes_known(self, stats: Seq<Option<DestStat>>) -> RunView {
        let c = engine::conflicts_of(self.job.m.files, stats, self.job.n());
        if c.len() > 0 {
            self.fail(
                Kind::AlreadyExists,
                text::dec(c.len()) + " file(s) already exist at the destination and differ — first: "@
                    + path::rel_text(c[0], self.job.os),
            )
        } else {
            self.to_dir(0)
        }
    }

    /// Folder `i` was tried.
    pub open spec fn dir_made(self, i: int, err: Option<Seq<char>>) -> Next {
        let (s, told) = match err {
            Some(e) => {
                let s = self.problem(Place::Dir(i as usize), "cannot create directory: "@ + e);
                (s, seq![s.count()])
            },
            None => (self, Seq::empty()),
        };
        let total = self.job.m.dirs.len();
        Next {
            s: s.to_dir(i + 1),
            out: if (i + 1) % 128 == 0 || i + 1 == total {
                told.push(
                    OutView::Tell(
                        ProgressView::Dirs { done: (i + 1) as usize, total: total as usize },
                    ),
                )
            } else {
                told
            },
        }
    }

    /// The journal is open and begun.
    pub open spec fn files_begin(self) -> Next {
        Next { s: self.to_file(0), out: seq![OutView::Tell(ProgressView::Start)] }
    }

    /// The file at hand need not be copied.
    pub open spec fn passed(self, i: int) -> RunView {
        RunView {
            sum: SummaryView { skipped: self.sum.skipped + 1, ..self.sum },
            ..self
        }.to_file(i + 1)
    }

    pub open spec fn passed_out(self, i: int) -> Seq<OutView> {
        seq![
            OutView::Tell(ProgressView::Skipped(self.job.m.files[i].size)),
            OutView::Tell(ProgressView::FileSkipped),
        ]
    }

    /// It is on the destination, as the journal says.
    pub open spec fn present(self, i: int) -> Next {
        let s = RunView {
            proven: if self.job.mode is Move {
                self.proven.insert(i as usize)
            } else {
                self.proven
            },
            ..self
        };
        Next { s: s.passed(i), out: self.passed_out(i) }
    }

    /// Something else stands there, and is to be kept.
    pub open spec fn kept(self, i: int) -> Next {
        let s = RunView {
            sum: SummaryView { kept: self.sum.kept + 1, ..self.sum },
            ..self
        };
        Next { s: s.passed(i), out: self.passed_out(i) }
    }

    /// The destination holds the same file already.
    pub open spec fn same(self, i: int) -> Next {
        Next { s: self.passed(i), out: self.passed_out(i).push(OutView::Tick) }
    }

    /// The journal's record of the file does not hold any more.
    pub open spec fn unsettled(self, i: int) -> Next {
        if self.job.on_exists is Keep && engine::clashes(self.seen, self.job.m.files[i]) {
            self.kept(i)
        } else {
            self.start(i)
        }
    }

    /// The destination of the file is known.
    pub open spec fn looked(self, i: int, st: Option<DestStat>) -> Next {
        let s = RunView { seen: st, ..self };
        let e = self.job.m.files[i];
        match s.record(i) {
            Some(rec) => if engine::settled(st, e, rec) {
                if self.job.paranoid {
                    s.at(Stage::RecordedSource(i as usize)).silent()
                } else {
                    s.present(i)
                }
            } else {
                s.unsettled(i)
            },
            None => if !(self.job.on_exists is Replace) && engine::clashes(st, e) {
                s.kept(i)
            } else if self.job.mode is Copy && engine::matches_dest(st, e) {
                if self.job.paranoid {
                    s.at(Stage::SameSource(i as usize)).silent()
                } else {
                    s.same(i)
                }
            } else {
                s.start(i)
            },
        }
    }

    /// Every checkpoint was taken of the source as it is now.
    pub open spec fn same_source(chain: Seq<CkptView>, e: EntryView) -> bool {
        forall|k: int|
            0 <= k < chain.len() ==> (#[trigger] chain[k]).src_size != 0 && chain[k].src_size
                == e.size && chain[k].src_mtime == e.mtime_ns
    }

    /// Some checkpoint does not say what its source was.
    pub open spec fn anonymous(chain: Seq<CkptView>) -> bool {
        exists|k: int| 0 <= k < chain.len() && (#[trigger] chain[k]).src_size == 0
    }

    /// The chain reaches back to the first byte.
    pub open spec fn from_zero(chain: Seq<CkptView>) -> bool {
        chain.len() > 0 && chain[0].off == chain[0].span
    }

    /// The file is to be copied, from where its checkpoints allow.
    pub open spec fn start(self, i: int) -> Next {
        let told = seq![OutView::Tell(ProgressView::File { rel: self.job.key(i) })];
        match self.chain(i) {
            None => Next { s: self.at(Stage::Gate(i as usize, 0)), out: told },
            Some(chain) => if !RunView::same_source(chain, self.job.m.files[i]) {
                Next {
                    s: self.at(Stage::DropStale(i as usize)),
                    out: told.push(
                        OutView::Note(
                            "  "@ + self.job.key(i) + (if RunView::anonymous(chain) {
                                ": earlier progress cannot be verified — copying it again"@
                            } else {
                                " changed since it was interrupted — copying it again"@
                            }),
                        ),
                    ),
                }
            } else if RunView::from_zero(chain) {
                Next {
                    s: RunView { checked: 0, ..self }.at(Stage::SpanPoll(i as usize, 0)),
                    out: told,
                }
            } else {
                Next { s: self.at(Stage::Gate(i as usize, 0)), out: told }
            },
        }
    }

    /// Checkpoint `k` may be read back.
    pub open spec fn span_begin(self, i: int, k: int) -> RunView {
        let c = self.prev.partial->0.chain[k];
        if c.span == 0 || c.off < c.span {
            self.at(Stage::Gate(i as usize, 0))
        } else {
            self.at(Stage::Span(i as usize, k as usize))
        }
    }

    /// The bytes of checkpoint `k` hash to `h`.
    pub open spec fn span_hashed(self, i: int, k: int, h: u128) -> Next {
        let chain = self.prev.partial->0.chain;
        let c = chain[k];
        if text::hex(h as nat, 32) != c.span_hash {
            self.at(Stage::Gate(i as usize, 0)).silent()
        } else {
            let s = RunView {
                checked: scan::clamp(self.checked as nat + c.span as nat),
                ..self
            };
            let told = seq![
                OutView::Tell(ProgressView::Checking { rel: self.job.key(i), bytes: s.checked }),
            ];
            if k + 1 < chain.len() {
                Next { s: s.at(Stage::SpanPoll(i as usize, (k + 1) as usize)), out: told }
            } else {
                let off = chain.last().off;
                Next {
                    s: s.at(Stage::Gate(i as usize, off)),
                    out: told + seq![
                        OutView::Tell(ProgressView::Skipped(off)),
                        OutView::EtaCarried(off),
                        OutView::Note(
                            "  resuming "@ + self.job.key(i) + " at "@ + text::dec(off as nat)
                                + " byte(s)"@,
                        ),
                    ],
                }
            }
        }
    }

    /// Bytes were written, whatever became of the file.
    pub open spec fn wrote(self, n: u64) -> RunView {
        RunView {
            sum: SummaryView {
                bytes_written: scan::clamp(self.sum.bytes_written as nat + n as nat),
                ..self.sum
            },
            ..self
        }
    }

    /// The copy is complete and flushed.
    pub open spec fn copied(self, i: int, hash: u128, written: u64) -> RunView {
        RunView { hash: Some(hash), ..self.wrote(written) }.at(
            if self.job.verify {
                Stage::Verify(i as usize)
            } else {
                Stage::Rename(i as usize)
            },
        )
    }

    /// The staged file hashes to `h`.
    pub open spec fn verified(self, i: int, h: u128) -> RunView {
        if self.hash == Some(h) {
            RunView {
                sum: SummaryView { verified: self.sum.verified + 1, ..self.sum },
                ..self
            }.at(Stage::Rename(i as usize))
        } else {
            self.at(Stage::DropBad(i as usize))
        }
    }

    /// The finished file is recorded.
    pub open spec fn recorded(self, i: int) -> Next {
        Next {
            s: RunView {
                sum: SummaryView { copied: self.sum.copied + 1, ..self.sum },
                proven: if self.job.mode is Move {
                    self.proven.insert(i as usize)
                } else {
                    self.proven
                },
                ..self
            }.to_file(i + 1),
            out: seq![OutView::Tell(ProgressView::FileDone), OutView::EtaDone, OutView::Tick],
        }
    }

    /// Originals may be removed only in a move that was not stopped and met no problem.
    pub open spec fn may_delete(self) -> bool {
        self.job.mode is Move && !self.sum.stopped && self.sum.errors.len() == 0
            && self.proven.len() > 0
    }

    /// All that is left is the end.
    pub open spec fn conclude(self) -> RunView {
        if self.sum.errors.len() == 0 && !self.sum.stopped {
            self.at(Stage::Complete)
        } else {
            self.at(Stage::Finished(false))
        }
    }

    /// The original of the `i`-th file was looked at once more.
    pub open spec fn original_seen(self, i: int, st: Option<SourceStat>) -> RunView {
        match st {
            None => self.to_delete(i + 1),
            Some(s) => if s.len != self.job.m.files[i].size || s.mtime_ns
                != self.job.m.files[i].mtime_ns {
                self.problem(
                    Place::File(i as usize),
                    "changed since it was copied — original kept"@,
                ).to_delete(i + 1)
            } else {
                self.at(Stage::Deleting(i as usize))
            },
        }
    }

    /// Whether the drive ignores case is known.
    pub open spec fn case_known(self, folds: bool) -> RunView {
        let all = engine::all_rels(self.job.m);
        if folds && !engine::distinct_upto(all, self.job.os, all.len() as int) {
            self.fail(Kind::InvalidInput, engine::collision(all, self.job.os))
        } else {
            self.at(Stage::Fat)
        }
    }

    /// Whether the drive is FAT is known.
    pub open spec fn fat_known(self, fat: bool) -> RunView {
        let refusal = if fat {
            engine::fat_refusal(self.job.m.files, 0, self.job.os)
        } else {
            None
        };
        match refusal {
            Some(why) => self.fail(Kind::InvalidInput, why),
            None => self.to_clashes(),
        }
    }

    /// The journal is open.
    pub open spec fn opened(self) -> Next {
        if self.resuming() {
            self.files_begin()
        } else {
            self.at(Stage::Session).silent()
        }
    }

    /// The staged file could not be renamed.
    pub open spec fn rename_failed(self, i: int, e: Seq<char>) -> Next {
        let s = self.problem(
            Place::File(i as usize),
            "cannot move into place at "@ + self.dest_text(i) + ": "@ + e,
        );
        Next { s: s.at(Stage::RenameFailed(i as usize)), out: seq![s.count()] }
    }

    /// Every record of the copies is durable.
    pub open spec fn flushed(self) -> RunView {
        if self.may_delete() {
            self.at(Stage::Barrier)
        } else {
            self.conclude()
        }
    }

    /// The barrier is recorded: originals may go.
    pub open spec fn all_copied(self) -> Next {
        Next {
            s: self.to_delete(0),
            out: seq![
                OutView::Tell(ProgressView::DeletePhase { total: self.proven.len() as usize }),
            ],
        }
    }

    /// The original of the `i`-th file is next, if its copy is proven and it is still there.
    pub open spec fn delete_begin(self, i: int) -> RunView {
        if self.proven.contains(i as usize) && !self.prev.deleted.contains(self.job.key(i)) {
            self.at(Stage::DeleteLook(i as usize))
        } else {
            self.to_delete(i + 1)
        }
    }

    /// The removal of an original is recorded.
    pub open spec fn deleted(self, i: int) -> Next {
        Next {
            s: RunView {
                sum: SummaryView { deleted: self.sum.deleted + 1, ..self.sum },
                ..self
            }.to_delete(i + 1),
            out: seq![OutView::Tell(ProgressView::Deleted)],
        }
    }

    /// A yes or no.
    #[verifier::opaque]
    pub open spec fn on_flag(self, b: bool) -> Next {
        if early(self.stage) {
            self.on_flag_early(b)
        } else if file_of(self.stage) is Some {
            self.on_flag_file(b)
        } else {
            self.on_flag_late(b)
        }
    }

    /// A yes or no, before the first file.
    #[verifier::opaque]
    pub open spec fn on_flag_early(self, b: bool) -> Next {
        match self.stage {
            Stage::LookDst => if b {
                self.goes_into().silent()
            } else {
                self.at(Stage::Paths).silent()
            },
            Stage::Case => self.case_known(b).silent(),
            Stage::Fat => self.fat_known(b).silent(),
            Stage::DirPoll(i) => if b {
                self.at(Stage::Open).silent()
            } else {
                self.at(Stage::DirMake(i)).silent()
            },
            _ => self.silent(),
        }
    }

    /// A yes or no, on a file.
    #[verifier::opaque]
    pub open spec fn on_flag_file(self, b: bool) -> Next {
        match self.stage {
            Stage::FilePoll(i) => if b {
                self.stop(Stage::FirstFlush).silent()
            } else {
                Next {
                    s: self.at(Stage::Look(i)),
                    out: seq![OutView::EtaStart(self.job.m.files[i as int].size)],
                }
            },
            Stage::SpanPoll(i, k) => if b {
                self.at(Stage::Gate(i, 0)).silent()
            } else {
                self.span_begin(i as int, k as int).silent()
            },
            Stage::Gate(i, r) => if b {
                self.stop(Stage::FirstFlush).silent()
            } else {
                self.at(Stage::Parent(i, r)).silent()
            },
            Stage::CopyFailed(i) => if b {
                self.at(Stage::DropEmpty(i)).silent()
            } else {
                self.copy_problem(i as int)
            },
            Stage::RenameFailed(i) => if b {
                self.at(Stage::DropStuck(i)).silent()
            } else {
                self.to_file(i + 1).silent()
            },
            _ => self.silent(),
        }
    }

    /// A yes or no, after the last file.
    #[verifier::opaque]
    pub open spec fn on_flag_late(self, b: bool) -> Next {
        match self.stage {
            Stage::DeletePoll(i) => if b {
                self.stop(Stage::SecondFlush).silent()
            } else {
                self.delete_begin(i as int).silent()
            },
            _ => self.silent(),
        }
    }

    /// It was done.
    #[verifier::opaque]
    pub open spec fn on_done(self) -> Next {
        if early(self.stage) {
            self.on_done_early()
        } else if file_of(self.stage) is Some {
            self.on_done_file()
        } else {
            self.on_done_late()
        }
    }

    /// It was done, before the first file.
    #[verifier::opaque]
    pub open spec fn on_done_early(self) -> Next {
        match self.stage {
            Stage::Lock => if self.job.m.root_is_file {
                self.to_names().silent()
            } else {
                self.at(Stage::Root).silent()
            },
            Stage::Root => self.to_names().silent(),
            Stage::DirMake(i) => self.dir_made(i as int, None),
            Stage::Open => self.opened(),
            Stage::Session => self.files_begin(),
            _ => self.silent(),
        }
    }

    /// It was done, on a file.
    #[verifier::opaque]
    pub open spec fn on_done_file(self) -> Next {
        match self.stage {
            Stage::DropStale(i) => self.at(Stage::Gate(i, 0)).silent(),
            Stage::Parent(i, r) => self.at(Stage::Copying(i, r)).silent(),
            Stage::DropEmpty(i) => self.copy_problem(i as int),
            Stage::DropBad(i) => self.bad_copy(i as int),
            Stage::Rename(i) => self.at(Stage::Stamp(i)).silent(),
            Stage::DropStuck(i) => self.to_file(i + 1).silent(),
            Stage::Stamp(i) => self.at(Stage::Recording(i)).silent(),
            Stage::Recording(i) => self.recorded(i as int),
            _ => self.silent(),
        }
    }

    /// It was done, after the last file.
    #[verifier::opaque]
    pub open spec fn on_done_late(self) -> Next {
        match self.stage {
            Stage::FirstFlush => self.flushed().silent(),
            Stage::Barrier => self.at(Stage::AllCopied).silent(),
            Stage::AllCopied => self.all_copied(),
            Stage::Deleting(i) => self.at(Stage::DeleteRecord(i)).silent(),
            Stage::DeleteRecord(i) => self.deleted(i as int),
            Stage::SecondFlush => self.conclude().silent(),
            Stage::Complete => self.at(Stage::RemoveJournal).silent(),
            Stage::RemoveJournal => self.at(Stage::Finished(true)).silent(),
            _ => self.silent(),
        }
    }

    /// It failed. Losing the journal ends the transfer; losing a file costs that file.
    #[verifier::opaque]
    pub open spec fn on_failed(self, e: Seq<char>) -> Next {
        if early(self.stage) {
            self.on_failed_early(e)
        } else if file_of(self.stage) is Some {
            self.on_failed_file(e)
        } else {
            self.on_failed_late(e)
        }
    }

    /// It failed, before the first file.
    #[verifier::opaque]
    pub open spec fn on_failed_early(self, e: Seq<char>) -> Next {
        match self.stage {
            Stage::Load | Stage::Lock | Stage::Open | Stage::Session => self.fail(Kind::Passed, e).silent(),
            Stage::Root => self.fail(
                Kind::Passed,
                "cannot create destination "@ + self.job.dst + ": "@ + e,
            ).silent(),
            Stage::DirMake(i) => self.dir_made(i as int, Some(e)),
            _ => self.silent(),
        }
    }

    /// It failed, on a file.
    #[verifier::opaque]
    pub open spec fn on_failed_file(self, e: Seq<char>) -> Next {
        match self.stage {
            Stage::Recording(_) => self.fail(Kind::Passed, e).silent(),
            Stage::RecordedSource(i) | Stage::RecordedDest(i) => self.unsettled(i as int),
            Stage::SameSource(i) => RunView { hash: None, ..self }.at(
                Stage::SameDest(i),
            ).silent(),
            Stage::SameDest(i) => self.start(i as int),
            Stage::Span(i, _) => self.at(Stage::Gate(i, 0)).silent(),
            Stage::DropStale(i) => self.at(Stage::Gate(i, 0)).silent(),
            Stage::Copying(i, _) => RunView { why: e, ..self }.at(Stage::CopyFailed(i)).silent(),
            Stage::DropEmpty(i) => self.copy_problem(i as int),
            Stage::Verify(i) => self.file_problem(i as int, "verify unreadable: "@ + e),
            Stage::DropBad(i) => self.bad_copy(i as int),
            Stage::Rename(i) => self.rename_failed(i as int, e),
            Stage::DropStuck(i) => self.to_file(i + 1).silent(),
            Stage::Stamp(i) => self.at(Stage::Recording(i)).silent(),
            _ => self.silent(),
        }
    }

    /// It failed, after the last file.
    #[verifier::opaque]
    pub open spec fn on_failed_late(self, e: Seq<char>) -> Next {
        match self.stage {
            Stage::FirstFlush | Stage::AllCopied | Stage::DeleteRecord(_) | Stage::SecondFlush | Stage::Complete | Stage::RemoveJournal => self.fail(Kind::Passed, e).silent(),
            Stage::Barrier => self.problem(
                Place::Here,
                "cannot make the destination durable: "@ + e + " — originals kept"@,
            ).conclude().silent(),
            Stage::Deleting(i) => self.problem(
                Place::File(i),
                "source not removed: "@ + e,
            ).to_delete(i + 1).silent(),
            _ => self.silent(),
        }
    }

    /// Something was hashed.
    #[verifier::opaque]
    pub open spec fn on_hash(self, h: u128) -> Next {
        match self.stage {
            Stage::RecordedSource(i) => if text::hex(h as nat, 32) == self.record(
                i as int,
            )->0.hash {
                self.at(Stage::RecordedDest(i)).silent()
            } else {
                self.unsettled(i as int)
            },
            Stage::RecordedDest(i) => if text::hex(h as nat, 32) == self.record(i as int)->0.hash {
                self.present(i as int)
            } else {
                self.unsettled(i as int)
            },
            Stage::SameSource(i) => RunView { hash: Some(h), ..self }.at(
                Stage::SameDest(i),
            ).silent(),
            Stage::SameDest(i) => if self.hash == Some(h) {
                self.same(i as int)
            } else {
                self.start(i as int)
            },
            Stage::Span(i, k) => self.span_hashed(i as int, k as int, h),
            Stage::Verify(i) => self.verified(i as int, h).silent(),
            _ => self.silent(),
        }
    }

    /// A folder above the file at hand could not be made.
    #[verifier::opaque]
    pub open spec fn on_failed_at(self, p: Seq<char>, e: Seq<char>) -> Next {
        match self.stage {
            Stage::Parent(i, _) => self.file_problem(
                i as int,
                "cannot create directory "@ + p + ": "@ + e,
            ),
            _ => self.silent(),
        }
    }

    #[verifier::opaque]
    pub open spec fn on_paths(self, f: FactsView) -> Next {
        match self.stage {
            Stage::Paths => self.paths_known(f).silent(),
            _ => self.silent(),
        }
    }

    #[verifier::opaque]
    pub open spec fn on_loaded(self, prev: ResumeView) -> Next {
        match self.stage {
            Stage::Load => self.loaded(prev),
            _ => self.silent(),
        }
    }

    #[verifier::opaque]
    pub open spec fn on_stats(self, stats: Seq<Option<DestStat>>) -> Next {
        match self.stage {
            Stage::Clashes => self.clashes_known(stats).silent(),
            _ => self.silent(),
        }
    }

    #[verifier::opaque]
    pub open spec fn on_stat(self, st: Option<DestStat>) -> Next {
        match self.stage {
            Stage::Look(i) => self.looked(i as int, st),
            _ => self.silent(),
        }
    }

    #[verifier::opaque]
    pub open spec fn on_copied(self, hash: u128, written: u64) -> Next {
        match self.stage {
            Stage::Copying(i, _) => self.copied(i as int, hash, written).silent(),
            _ => self.silent(),
        }
    }

    #[verifier::opaque]
    pub open spec fn on_stopped(self, written: u64) -> Next {
        match self.stage {
            Stage::Copying(_, _) => self.wrote(written).stop(Stage::FirstFlush).silent(),
            _ => self.silent(),
        }
    }

    #[verifier::opaque]
    pub open spec fn on_source(self, st: Option<SourceStat>) -> Next {
        match self.stage {
            Stage::DeleteLook(i) => self.original_seen(i as int, st).silent(),
            _ => self.silent(),
        }
    }

    /// What an answer leads to. One that does not answer what was asked changes nothing.
    pub open spec fn step(self, a: AnswerView) -> Next {
        match a {
            AnswerView::Flag(b) => self.on_flag(b),
            AnswerView::Done => self.on_done(),
            AnswerView::Failed(e) => self.on_failed(e),
            AnswerView::FailedAt(p, e) => self.on_failed_at(p, e),
            AnswerView::Paths(f) => self.on_paths(f),
            AnswerView::Loaded(prev) => self.on_loaded(prev),
            AnswerView::Stats(stats) => self.on_stats(stats),
            AnswerView::Stat(st) => self.on_stat(st),
            AnswerView::Hash(h) => self.on_hash(h),
            AnswerView::Copied { hash, written } => self.on_copied(hash, written),
            AnswerView::Stopped { written } => self.on_stopped(written),
            AnswerView::Source(st) => self.on_source(st),
        }
    }

    /// A source that failed: both ends are named, under their final names.
    pub open spec fn copy_problem(self, i: int) -> Next {
        self.file_problem(
            i,
            "cannot copy "@ + self.job.source_text(i) + " to "@ + self.dest_text(i) + ": "@
                + self.why,
        )
    }

    /// The copy has been proven wrong and is gone.
    pub open spec fn bad_copy(self, i: int) -> Next {
        self.file_problem(
            i,
            "verify failed: destination differs, restarting this file next run"@,
        )
    }
}

/// How a skipped entry is called in the report of a dry run.
pub open spec fn skip_place(
    rel: Seq<Seq<u8>>,
    absolute: bool,
    src: Seq<char>,
    os: Os,
) -> Seq<char> {
    if absolute && rel.len() > 0 {
        path::below(src, path::rel_text(rel, os), os)
    } else if absolute {
        src
    } else {
        path::rel_text(rel, os)
    }
}

// ── well-formedness ──────────────────────────────────────────────────────────
/// The file a stage is about.
pub open spec fn file_of(stage: Stage) -> Option<int> {
    match stage {
        Stage::FilePoll(i) | Stage::Look(i) | Stage::RecordedSource(i) | Stage::RecordedDest(i)
        | Stage::SameSource(i) | Stage::SameDest(i) | Stage::SpanPoll(i, _) | Stage::Span(i, _)
        | Stage::DropStale(i) | Stage::Gate(i, _) | Stage::Parent(i, _) | Stage::Copying(i, _)
        | Stage::CopyFailed(i) | Stage::DropEmpty(i) | Stage::Verify(i) | Stage::DropBad(i)
        | Stage::Rename(i) | Stage::RenameFailed(i) | Stage::DropStuck(i) | Stage::Stamp(i)
        | Stage::Recording(i) => Some(i as int),
        _ => None,
    }
}

/// The original a stage is about to remove.
pub open spec fn original_of(stage: Stage) -> Option<int> {
    match stage {
        Stage::DeletePoll(i) | Stage::DeleteLook(i) | Stage::Deleting(i)
        | Stage::DeleteRecord(i) => Some(i as int),
        _ => None,
    }
}

/// Before the first file is looked at.
pub open spec fn early(stage: Stage) -> bool {
    match stage {
        Stage::LookDst | Stage::Paths | Stage::Load | Stage::Lock | Stage::Root | Stage::Case
        | Stage::Fat | Stage::Clashes | Stage::DirPoll(_) | Stage::DirMake(_) | Stage::Open
        | Stage::Session => true,
        _ => false,
    }
}

/// The copy of the file at hand is complete and, where that was asked for, verified.
pub open spec fn copied_stage(stage: Stage) -> bool {
    match stage {
        Stage::Rename(_) | Stage::RenameFailed(_) | Stage::DropStuck(_) | Stage::Stamp(_)
        | Stage::Recording(_) => true,
        _ => false,
    }
}

impl RunView {
    /// How many files may have been counted as copied or skipped.
    pub open spec fn files_behind(self) -> int {
        match file_of(self.stage) {
            Some(i) => i,
            None => if early(self.stage) {
                0
            } else {
                self.job.n()
            },
        }
    }

    pub open spec fn originals_behind(self) -> int {
        match original_of(self.stage) {
            Some(i) => i,
            None => match self.stage {
                Stage::SecondFlush | Stage::Complete | Stage::RemoveJournal | Stage::Finished(_)
                | Stage::Failed => self.job.n(),
                _ => 0,
            },
        }
    }

    pub open spec fn stage_ok(self) -> bool {
        &&& file_of(self.stage) matches Some(i) ==> 0 <= i < self.job.n()
        &&& original_of(self.stage) matches Some(i) ==> 0 <= i < self.job.n()
        &&& match self.stage {
            Stage::DirPoll(i) | Stage::DirMake(i) => i < self.job.m.dirs.len(),
            Stage::SpanPoll(_, k) | Stage::Span(_, k) => self.prev.partial is Some && k
                < self.prev.partial->0.chain.len(),
            Stage::RecordedSource(i) | Stage::RecordedDest(i) => self.record(i as int) is Some,
            _ => true,
        }
        &&& self.stage is Verify || copied_stage(self.stage) ==> self.hash is Some
    }

    pub open spec fn wf(self) -> bool {
        &&& self.job.n() <= usize::MAX
        &&& self.job.m.dirs.len() <= usize::MAX
        &&& self.into ==> self.job.src_name is Some
        &&& self.stage_ok()
        &&& 0 <= self.sum.kept <= self.sum.skipped
        &&& 0 <= self.sum.copied
        &&& self.sum.copied + self.sum.skipped <= self.files_behind()
        &&& 0 <= self.sum.verified <= self.files_behind() + (if copied_stage(self.stage) {
            1int
        } else {
            0int
        })
        &&& 0 <= self.sum.deleted <= self.originals_behind()
    }
}

// ── the machine ──────────────────────────────────────────────────────────────
#[derive(Clone, Copy, PartialEq, Eq, Structural, Debug)]
enum Phase {
    Early,
    File,
    Late,
}

/// A transfer in progress.
pub struct Run {
    job: Job,
    keys: Vec<String>,
    stage: Stage,
    sum: Summary,
    into: bool,
    facts: PathFacts,
    prev: ResumeState,
    gone: StringHashSet,
    proven: HashSetWithView<usize>,
    seen: Option<DestStat>,
    checked: u64,
    hash: Option<u128>,
    why: String,
    kind: Kind,
}

impl View for Run {
    type V = RunView;

    closed spec fn view(&self) -> RunView {
        RunView {
            job: self.job@,
            stage: self.stage,
            sum: self.sum@,
            into: self.into,
            facts: self.facts@,
            prev: self.prev@,
            proven: self.proven@,
            seen: self.seen,
            checked: self.checked,
            hash: self.hash,
            why: self.why@,
            kind: self.kind,
        }
    }
}

fn clone_texts(v: &Vec<String>) -> (r: Vec<String>)
    ensures
        text::texts(r@) == text::texts(v@),
{
    let mut r: Vec<String> = Vec::new();
    let mut i: usize = 0;
    while i < v.len()
        invariant
            i <= v.len(),
            r.len() == i,
            forall|k: int| 0 <= k < i ==> #[trigger] r@[k]@ == v@[k]@,
        decreases v.len() - i,
    {
        r.push(v[i].clone());
        i += 1;
    }
    assert(text::texts(r@) =~= text::texts(v@));
    r
}

fn one(o: Out) -> (v: Vec<Out>)
    ensures
        outs(v@) == seq![o@],
{
    let mut v: Vec<Out> = Vec::new();
    let ghost ov = o@;
    v.push(o);
    assert(outs(v@) =~= seq![ov]);
    v
}

fn also(v: &mut Vec<Out>, o: Out)
    ensures
        outs(final(v)@) == outs(old(v)@).push(o@),
{
    let ghost before = outs(v@);
    let ghost ov = o@;
    v.push(o);
    assert(outs(v@) =~= before.push(ov));
}

fn none() -> (v: Vec<Out>)
    ensures
        outs(v@) == Seq::<OutView>::empty(),
{
    let v: Vec<Out> = Vec::new();
    assert(outs(v@) =~= Seq::empty());
    v
}

impl Run {
    pub closed spec fn wf(&self) -> bool {
        &&& self@.wf()
        &&& self.keys.len() == self@.job.n()
        &&& forall|i: int| 0 <= i < self.keys.len() ==> (#[trigger] self.keys@[i])@ == self@.job.key(i)
        &&& self.gone@ == self@.prev.deleted.to_set()
    }

    /// A transfer of this job, not yet begun.
    #[verifier::spinoff_prover]
    pub fn begin(job: Job) -> (r: Run)
        ensures
            r.wf(),
            r@ == RunView::begin(job@),
    {
        let mut keys: Vec<String> = Vec::new();
        let mut i: usize = 0;
        while i < job.m.files.len()
            invariant
                i <= job.m.files.len(),
                keys.len() == i,
                forall|k: int| 0 <= k < i ==> (#[trigger] keys@[k])@ == job@.key(k),
            decreases job.m.files.len() - i,
        {
            assert(job@.m.files[i as int] == job.m.files@[i as int]@);
            keys.push(job.m.files[i].rel.text(job.os));
            i += 1;
        }
        assert(job.m.dirs.len() <= usize::MAX);
        let is_file = job.m.root_is_file;
        let spelled = spelled_as_dir(job.dst.as_str(), job.os);
        let errors: Vec<Problem> = Vec::new();
        assert(problems(errors@) =~= Seq::empty());
        broadcast use vstd::std_specs::hash::group_hash_axioms;

        let mut r = Run {
            job,
            keys,
            stage: Stage::Paths,
            sum: Summary {
                stopped: false,
                files_copied: 0,
                files_skipped: 0,
                kept_existing: 0,
                files_verified: 0,
                bytes_written: 0,
                sources_deleted: 0,
                errors,
            },
            into: false,
            facts: PathFacts {
                src_key: String::new(),
                dst_key: String::new(),
                same_file: false,
                probed: false,
                inside: false,
            },
            prev: ResumeState::empty(),
            gone: StringHashSet::new(),
            proven: HashSetWithView::new(),
            seen: None,
            checked: 0,
            hash: None,
            why: String::new(),
            kind: Kind::Passed,
        };
        assert(r.gone@ =~= r@.prev.deleted.to_set());
        if is_file {
            if spelled {
                r.goes_into();
            } else {
                r.stage = Stage::LookDst;
            }
        }
        r
    }

    /// What has been done so far.
    pub fn summary(&self) -> (s: &Summary)
        ensures
            s@ == self@.sum,
    {
        &self.sum
    }

    /// The manifest of the job.
    pub fn manifest(&self) -> (m: &Manifest)
        ensures
            m@ == self@.job.m,
    {
        &self.job.m
    }

    /// The name of the `i`-th file in the journal.
    pub fn key(&self, i: usize) -> (s: &String)
        requires
            self.wf(),
            i < self@.job.n(),
        ensures
            s@ == self@.job.key(i as int),
    {
        &self.keys[i]
    }

    fn goes_into(&mut self)
        requires
            old(self).wf(),
            early(old(self)@.stage),
        ensures
            final(self).wf(),
            final(self)@ == old(self)@.goes_into(),
    {
        if self.job.src_name.is_some() {
            self.into = true;
            self.stage = Stage::Paths;
        } else {
            self.fail(Kind::InvalidInput, "source has no file name");
        }
    }

    fn fail(&mut self, kind: Kind, why: &str)
        requires
            old(self).wf(),
        ensures
            final(self).wf(),
            final(self)@ == old(self)@.fail(kind, why@),
    {
        self.why = String::from_str(why);
        self.kind = kind;
        self.stage = Stage::Failed;
    }

    fn problem(&mut self, place: Place, why: String)
        ensures
            final(self)@ == old(self)@.problem(place, why@),
            final(self)@.sum.errors.len() <= usize::MAX,
            old(self).wf() ==> final(self).wf(),
    {
        let ghost before = problems(self.sum.errors@);
        let p = Problem { place, why };
        let ghost pv = p@;
        self.sum.errors.push(p);
        assert(problems(self.sum.errors@) =~= before.push(pv));
        assert(self.sum.errors.len() <= usize::MAX);
    }

    fn count(&self) -> (o: Out)
        ensures
            o@ == self@.count(),
    {
        Out::Tell(Progress::Errors { total: self.sum.errors.len() })
    }

    fn to_dir(&mut self, i: usize)
        requires
            old(self).wf(),
            early(old(self)@.stage),
        ensures
            final(self).wf(),
            final(self)@ == old(self)@.to_dir(i as int),
    {
        if i < self.job.m.dirs.len() {
            self.stage = Stage::DirPoll(i);
        } else {
            self.stage = Stage::Open;
        }
    }

    /// Past the file `i`, which may just have been counted.
    fn to_file(&mut self, i: usize)
        requires
            old(self)@.job.n() <= usize::MAX,
            old(self)@.job.m.dirs.len() <= usize::MAX,
            old(self)@.into ==> old(self)@.job.src_name is Some,
            old(self).keys_ok(),
            i <= old(self)@.job.n(),
            0 <= old(self)@.sum.kept <= old(self)@.sum.skipped,
            0 <= old(self)@.sum.copied,
            old(self)@.sum.copied + old(self)@.sum.skipped <= i,
            0 <= old(self)@.sum.verified <= i,
            old(self)@.sum.deleted == 0,
        ensures
            final(self).wf(),
            final(self)@ == old(self)@.to_file(i as int),
    {
        if i < self.job.m.files.len() {
            self.stage = Stage::FilePoll(i);
        } else {
            self.stage = Stage::FirstFlush;
        }
    }

    spec fn keys_ok(&self) -> bool {
        &&& self.keys.len() == self@.job.n()
        &&& forall|i: int| 0 <= i < self.keys.len() ==> (#[trigger] self.keys@[i])@ == self@.job.key(i)
        &&& self.gone@ == self@.prev.deleted.to_set()
    }

    fn file_problem(&mut self, i: usize, why: String) -> (o: Vec<Out>)
        requires
            old(self).wf(),
            file_of(old(self)@.stage) == Some(i as int),
        ensures
            final(self).wf(),
            final(self)@ == old(self)@.file_problem(i as int, why@).s,
            outs(o@) == old(self)@.file_problem(i as int, why@).out,
    {
        self.problem(Place::File(i), why);
        let o = one(self.count());
        self.to_file(i + 1);
        o
    }

    fn dest_text(&self, i: usize) -> (s: String)
        requires
            self.wf(),
            i < self@.job.n(),
        ensures
            s@ == self@.dest_text(i as int),
    {
        if self.job.m.root_is_file {
            if self.into {
                match &self.job.src_name {
                    Some(n) => below_text(self.job.dst.as_str(), n.as_str(), self.job.os),
                    None => String::new(),
                }
            } else {
                self.job.dst.clone()
            }
        } else {
            below_text(self.job.dst.as_str(), self.keys[i].as_str(), self.job.os)
        }
    }

    fn source_text(&self, i: usize) -> (s: String)
        requires
            self.wf(),
            i < self@.job.n(),
        ensures
            s@ == self@.job.source_text(i as int),
    {
        if self.job.m.root_is_file {
            self.job.src.clone()
        } else {
            below_text(self.job.src.as_str(), self.keys[i].as_str(), self.job.os)
        }
    }

    /// What has to be done next.
    #[verifier::spinoff_prover]
    pub fn ask(&self) -> (q: Ask)
        requires
            self.wf(),
        ensures
            q@ == self@.ask(),
    {
        match self.stage {
            Stage::LookDst => Ask::DestinationIsDir,
            Stage::Paths => Ask::Paths {
                into: self.into,
                probe: (match self.job.opts.mode {
                    Mode::Move => true,
                    Mode::Copy => false,
                }) && !self.job.opts.dry_run,
            },
            Stage::Load => Ask::Load(
                journal_path(
                    self.facts.src_key.as_str(),
                    self.facts.dst_key.as_str(),
                    self.job.opts.mode,
                    &self.job.opts.job_tag,
                ),
            ),
            Stage::Lock => Ask::Lock(lock_name(self.facts.dst_key.as_str())),
            Stage::Root => Ask::MakeRoot,
            Stage::Case => Ask::ProbeCase,
            Stage::Fat => Ask::ProbeFat,
            Stage::Clashes => Ask::StatAll,
            Stage::DirPoll(_) | Stage::FilePoll(_) | Stage::SpanPoll(_, _) | Stage::Gate(_, _)
            | Stage::DeletePoll(_) => Ask::Poll,
            Stage::DirMake(i) => Ask::MakeDir(i),
            Stage::Open => Ask::OpenJournal,
            Stage::Session => Ask::Commit(self.session()),
            Stage::Look(i) => Ask::StatDest(i),
            Stage::RecordedSource(i) | Stage::SameSource(i) => Ask::HashSource(i),
            Stage::RecordedDest(i) | Stage::SameDest(i) => Ask::HashDest(i),
            Stage::Span(i, k) => match &self.prev.partial {
                Some(p) => {
                    assert(self@.prev.partial->0.chain[k as int] == p.chain@[k as int]@);
                    Ask::HashSpan { file: i, off: p.chain[k].off, span: p.chain[k].span }
                },
                None => Ask::Poll,
            },
            Stage::DropStale(i) | Stage::DropEmpty(i) | Stage::DropBad(i) | Stage::DropStuck(i) =>
                Ask::RemovePart(i),
            Stage::Parent(i, _) => Ask::MakeParent(i),
            Stage::Copying(i, r) => Ask::Copy { file: i, resume: r },
            Stage::CopyFailed(i) => Ask::PartIsEmpty(i),
            Stage::Verify(i) => Ask::HashPart(i),
            Stage::Rename(i) => Ask::Rename(i),
            Stage::RenameFailed(i) => Ask::DestIsDir(i),
            Stage::Stamp(i) => Ask::SetMtime(i),
            Stage::Recording(i) => Ask::Append(self.done_record(i)),
            Stage::FirstFlush | Stage::SecondFlush => Ask::Flush,
            Stage::Barrier => Ask::SyncDestination,
            Stage::AllCopied => Ask::Commit(Record::AllCopied),
            Stage::DeleteLook(i) => Ask::StatSource(i),
            Stage::Deleting(i) => Ask::DeleteSource(i),
            Stage::DeleteRecord(i) => Ask::Append(
                Record::SourceDeleted { rel: self.keys[i].clone() },
            ),
            Stage::Complete => Ask::Commit(Record::Complete),
            Stage::RemoveJournal => Ask::RemoveJournal,
            Stage::Finished(done) => Ask::Finished { dry: self.job.opts.dry_run, done },
            Stage::Failed => Ask::Failed { kind: self.kind, why: self.why.clone() },
        }
    }

    fn session(&self) -> (r: Record)
        requires
            self.wf(),
        ensures
            r@ == self@.session(),
    {
        let dst = if self.into {
            match &self.job.src_name {
                Some(n) => below_text(self.job.dst_abs.as_str(), n.as_str(), self.job.os),
                None => String::new(),
            }
        } else {
            self.job.dst_abs.clone()
        };
        Record::Session {
            v: JOURNAL_VERSION,
            src: self.job.src_abs.clone(),
            dst,
            mode: self.job.opts.mode,
            files: self.job.m.files.len(),
            bytes: self.job.m.total_bytes,
            names: clone_texts(&self.job.opts.selection),
            skip_caches: self.job.opts.skip_caches,
            skip_cloud: self.job.opts.skip_cloud,
        }
    }

    fn done_record(&self, i: usize) -> (r: Record)
        requires
            self.wf(),
            self@.stage == Stage::Recording(i),
        ensures
            r@ == self@.done_record(i as int),
    {
        assert(self@.job.m.files[i as int] == self.job.m.files@[i as int]@);
        let e = &self.job.m.files[i];
        Record::FileDone {
            rel: self.keys[i].clone(),
            size: e.size,
            mtime: e.mtime,
            mtime_ns: e.mtime_ns,
            hash: match self.hash {
                Some(h) => hex128(h),
                None => String::new(),
            },
        }
    }

    // ── steps before the first file ──
    fn paths_known(&mut self, f: PathFacts)
        requires
            old(self).wf(),
            old(self)@.stage is Paths,
        ensures
            final(self).wf(),
            final(self)@ == old(self)@.paths_known(f@),
    {
        let r = check_paths(&f, self.job.opts.mode, self.job.os);
        self.facts = f;
        match r {
            Ok(_) => {
                self.stage = Stage::Load;
            },
            Err(e) => {
                self.fail(e.kind, e.why.as_str());
            },
        }
    }

    #[verifier::spinoff_prover]
    fn skip_notes(&self, o: &mut Vec<Out>)
        ensures
            outs(final(o)@) == outs(old(o)@) + RunView::skip_notes(
                self@.job.m,
                self@.job.src,
                self@.job.os,
                self@.job.m.skipped.len() as int,
            ),
    {
        let ghost start = outs(o@);
        let mut i: usize = 0;
        let m = &self.job.m;
        assert(start + RunView::skip_notes(m@, self@.job.src, self@.job.os, 0) =~= start);
        while i < m.skipped.len()
            invariant
                i <= m.skipped.len(),
                m@ == self@.job.m,
                outs(o@) == start + RunView::skip_notes(
                    m@,
                    self@.job.src,
                    self@.job.os,
                    i as int,
                ),
            decreases m.skipped.len() - i,
        {
            let k = &m.skipped[i];
            assert(m@.skipped[i as int] == k@);
            let rel = k.rel.text(self.job.os);
            let place = if k.absolute {
                if k.rel.depth() > 0 {
                    below_text(self.job.src.as_str(), rel.as_str(), self.job.os)
                } else {
                    self.job.src.clone()
                }
            } else {
                rel
            };
            let mut s = cat("  skip ", place.as_str());
            s.append(": ");
            s.append(k.why.as_str());
            also(o, Out::Note(s));
            proof {
                let b = RunView::skip_notes(m@, self@.job.src, self@.job.os, i + 1);
                assert(outs(o@) =~= start + b);
            }
            i += 1;
        }
    }

    #[verifier::spinoff_prover]
    fn loaded(&mut self, prev: ResumeState) -> (o: Vec<Out>)
        requires
            old(self).wf(),
            old(self)@.stage is Load,
        ensures
            final(self).wf(),
            final(self)@ == old(self)@.loaded(prev@).s,
            outs(o@) == old(self)@.loaded(prev@).out,
    {
        let ghost pv = prev@;
        let mut gone = StringHashSet::new();
        let mut i: usize = 0;
        assert(gone@ =~= pv.deleted.take(0).to_set());
        while i < prev.deleted.len()
            invariant
                i <= prev.deleted.len(),
                pv == prev@,
                gone@ == pv.deleted.take(i as int).to_set(),
            decreases prev.deleted.len() - i,
        {
            gone.insert(prev.deleted[i].clone());
            proof {
                let a = pv.deleted.take(i as int);
                let b = pv.deleted.take(i + 1);
                let x = prev.deleted@[i as int]@;
                assert(pv.deleted[i as int] == x);
                assert(b =~= a.push(x));
                assert forall|k: Seq<char>| a.to_set().insert(x).contains(k) <==> #[trigger] b.to_set().contains(k) by {
                    if a.contains(k) {
                        let j = choose|j: int| 0 <= j < a.len() && a[j] == k;
                        assert(b[j] == k);
                    }
                    if k == x {
                        assert(b[i as int] == k);
                    }
                    if b.contains(k) {
                        let j = choose|j: int| 0 <= j < b.len() && b[j] == k;
                        if j < i {
                            assert(a[j] == k);
                        }
                    }
                }
                assert(gone@ =~= b.to_set());
            }
            i += 1;
        }
        assert(pv.deleted.take(i as int) =~= pv.deleted);
        let many = prev.done.len();
        assert(many == pv.done.dom().len()) by {
            assert(pv.done.dom() =~= prev.done@.dom());
        }
        let resuming = many > 0 || prev.partial.is_some();
        let torn = prev.torn_tail;
        self.prev = prev;
        self.gone = gone;
        let mut o = none();
        if resuming {
            let mut s = cat("resuming: ", decimal(many as u64).as_str());
            s.append(" file(s) already done");
            if torn {
                s.append(", torn journal tail discarded");
            } else {
                s.append("");
            }
            also(&mut o, Out::Note(s));
        }
        if self.job.opts.dry_run {
            let mut s = String::from_str("dry run: would ");
            match self.job.opts.mode {
                Mode::Move => {
                    s.append("move ");
                },
                Mode::Copy => {
                    s.append("copy ");
                },
            }
            s.append(decimal(self.job.m.files.len() as u64).as_str());
            s.append(" file(s), ");
            s.append(decimal(self.job.m.total_bytes).as_str());
            s.append(" byte(s) → ");
            s.append(self.job.dst.as_str());
            also(&mut o, Out::Note(s));
            self.skip_notes(&mut o);
            self.stage = Stage::Finished(false);
        } else {
            self.stage = Stage::Lock;
        }
        o
    }

    fn to_names(&mut self)
        requires
            old(self).wf(),
            early(old(self)@.stage),
        ensures
            final(self).wf(),
            final(self)@ == old(self)@.to_names(),
    {
        if let Os::Windows = self.job.os {
            if let Err(e) = check_windows_names(&self.job.m) {
                self.fail(e.kind, e.why.as_str());
                return;
            }
        }
        let few = self.job.m.files.len() == 0 && self.job.m.dirs.len() <= 1
            || self.job.m.files.len() == 1 && self.job.m.dirs.len() == 0;
        if few {
            self.stage = Stage::Fat;
        } else {
            self.stage = Stage::Case;
        }
    }

    fn case_known(&mut self, folds: bool)
        requires
            old(self).wf(),
            old(self)@.stage is Case,
        ensures
            final(self).wf(),
            final(self)@ == old(self)@.case_known(folds),
    {
        if folds {
            if let Err(e) = check_collisions(&self.job.m, self.job.os) {
                self.fail(e.kind, e.why.as_str());
                return;
            }
        }
        self.stage = Stage::Fat;
    }

    fn fat_known(&mut self, fat: bool)
        requires
            old(self).wf(),
            old(self)@.stage is Fat,
        ensures
            final(self).wf(),
            final(self)@ == old(self)@.fat_known(fat),
    {
        if fat {
            if let Err(e) = check_fat_size_limit(&self.job.m, self.job.os) {
                self.fail(e.kind, e.why.as_str());
                return;
            }
        }
        match self.job.opts.on_exists {
            OnExists::Fail => {
                self.stage = Stage::Clashes;
            },
            _ => {
                self.to_dir(0);
            },
        }
    }

    fn clashes_known(&mut self, stats: Vec<Option<DestStat>>)
        requires
            old(self).wf(),
            old(self)@.stage is Clashes,
        ensures
            final(self).wf(),
            final(self)@ == old(self)@.clashes_known(stats@),
    {
        let c = conflicts(&self.job.m, &stats);
        if c.len() > 0 {
            assert(scan::rels(c@)[0] == c@[0]@);
            let mut s = decimal(c.len() as u64);
            s.append(" file(s) already exist at the destination and differ — first: ");
            s.append(c[0].text(self.job.os).as_str());
            self.fail(Kind::AlreadyExists, s.as_str());
        } else {
            self.to_dir(0);
        }
    }

    fn dir_made(&mut self, i: usize, err: Option<String>) -> (o: Vec<Out>)
        requires
            old(self).wf(),
            old(self)@.stage == Stage::DirMake(i),
        ensures
            final(self).wf(),
            final(self)@ == old(self)@.dir_made(
                i as int,
                match err {
                    Some(e) => Some(e@),
                    None => None,
                },
            ).s,
            outs(o@) == old(self)@.dir_made(
                i as int,
                match err {
                    Some(e) => Some(e@),
                    None => None,
                },
            ).out,
    {
        let mut o = none();
        if let Some(e) = err {
            self.problem(Place::Dir(i), cat("cannot create directory: ", e.as_str()));
            also(&mut o, self.count());
            assert(outs(o@) =~= seq![self@.count()]);
        }
        let total = self.job.m.dirs.len();
        if (i + 1) % 128 == 0 || i + 1 == total {
            also(&mut o, Out::Tell(Progress::Dirs { done: i + 1, total }));
        }
        self.to_dir(i + 1);
        o
    }

    fn files_begin(&mut self) -> (o: Vec<Out>)
        requires
            old(self).wf(),
            early(old(self)@.stage),
        ensures
            final(self).wf(),
            final(self)@ == old(self)@.files_begin().s,
            outs(o@) == old(self)@.files_begin().out,
    {
        self.to_file(0);
        one(Out::Tell(Progress::Start))
    }

    fn opened(&mut self) -> (o: Vec<Out>)
        requires
            old(self).wf(),
            old(self)@.stage is Open,
        ensures
            final(self).wf(),
            final(self)@ == old(self)@.opened().s,
            outs(o@) == old(self)@.opened().out,
    {
        let many = self.prev.done.len();
        assert(self@.prev.done.dom() =~= self.prev.done@.dom());
        if many > 0 || self.prev.partial.is_some() {
            self.files_begin()
        } else {
            self.stage = Stage::Session;
            none()
        }
    }

    // ── steps on one file ──
    fn passed(&mut self, i: usize)
        requires
            old(self).keys_ok(),
            old(self)@.job.n() <= usize::MAX,
            old(self)@.job.m.dirs.len() <= usize::MAX,
            old(self)@.into ==> old(self)@.job.src_name is Some,
            i < old(self)@.job.n(),
            0 <= old(self)@.sum.kept <= old(self)@.sum.skipped + 1,
            0 <= old(self)@.sum.skipped,
            0 <= old(self)@.sum.copied,
            old(self)@.sum.copied + old(self)@.sum.skipped <= i,
            0 <= old(self)@.sum.verified <= i,
            old(self)@.sum.deleted == 0,
        ensures
            final(self).wf(),
            final(self)@ == old(self)@.passed(i as int),
    {
        self.sum.files_skipped = self.sum.files_skipped + 1;
        self.to_file(i + 1);
    }

    fn passed_out(&self, i: usize) -> (o: Vec<Out>)
        requires
            i < self@.job.n(),
        ensures
            outs(o@) == self@.passed_out(i as int),
    {
        assert(self@.job.m.files[i as int] == self.job.m.files@[i as int]@);
        let mut o = one(Out::Tell(Progress::Skipped(self.job.m.files[i].size)));
        also(&mut o, Out::Tell(Progress::FileSkipped));
        assert(outs(o@) =~= self@.passed_out(i as int));
        o
    }

    fn is_move(&self) -> (r: bool)
        ensures
            r == (self@.job.mode is Move),
    {
        match self.job.opts.mode {
            Mode::Move => true,
            Mode::Copy => false,
        }
    }

    fn present(&mut self, i: usize) -> (o: Vec<Out>)
        requires
            old(self).wf(),
            file_of(old(self)@.stage) == Some(i as int),
            !copied_stage(old(self)@.stage),
        ensures
            final(self).wf(),
            final(self)@ == old(self)@.present(i as int).s,
            outs(o@) == old(self)@.present(i as int).out,
    {
        let o = self.passed_out(i);
        if self.is_move() {
            self.proven.insert(i);
        }
        self.passed(i);
        o
    }

    fn kept(&mut self, i: usize) -> (o: Vec<Out>)
        requires
            old(self).wf(),
            file_of(old(self)@.stage) == Some(i as int),
            !copied_stage(old(self)@.stage),
        ensures
            final(self).wf(),
            final(self)@ == old(self)@.kept(i as int).s,
            outs(o@) == old(self)@.kept(i as int).out,
    {
        let o = self.passed_out(i);
        self.sum.kept_existing = self.sum.kept_existing + 1;
        self.passed(i);
        o
    }

    fn same(&mut self, i: usize) -> (o: Vec<Out>)
        requires
            old(self).wf(),
            file_of(old(self)@.stage) == Some(i as int),
            !copied_stage(old(self)@.stage),
        ensures
            final(self).wf(),
            final(self)@ == old(self)@.same(i as int).s,
            outs(o@) == old(self)@.same(i as int).out,
    {
        let mut o = self.passed_out(i);
        also(&mut o, Out::Tick);
        self.passed(i);
        o
    }

    fn clashes(&self, i: usize) -> (r: bool)
        requires
            i < self@.job.n(),
        ensures
            r == engine::clashes(self@.seen, self@.job.m.files[i as int]),
    {
        assert(self@.job.m.files[i as int] == self.job.m.files@[i as int]@);
        self.seen.is_some() && !matches_destination(&self.seen, &self.job.m.files[i])
    }

    fn unsettled(&mut self, i: usize) -> (o: Vec<Out>)
        requires
            old(self).wf(),
            file_of(old(self)@.stage) == Some(i as int),
            !copied_stage(old(self)@.stage),
        ensures
            final(self).wf(),
            final(self)@ == old(self)@.unsettled(i as int).s,
            outs(o@) == old(self)@.unsettled(i as int).out,
    {
        let keep = match self.job.opts.on_exists {
            OnExists::Keep => true,
            _ => false,
        };
        if keep && self.clashes(i) {
            self.kept(i)
        } else {
            self.start(i)
        }
    }

    #[verifier::spinoff_prover]
    fn looked(&mut self, i: usize, st: Option<DestStat>) -> (o: Vec<Out>)
        requires
            old(self).wf(),
            old(self)@.stage == Stage::Look(i),
        ensures
            final(self).wf(),
            final(self)@ == old(self)@.looked(i as int, st).s,
            outs(o@) == old(self)@.looked(i as int, st).out,
    {
        self.seen = st;
        assert(self@.job.m.files[i as int] == self.job.m.files@[i as int]@);
        assert(self@.prev.done.dom() =~= self.prev.done@.dom());
        let settled: Option<bool> = match self.prev.done.get(self.keys[i].as_str()) {
            Some(rec) => {
                assert(self@.record(i as int) == Some(rec@));
                Some(already_settled(&st, &self.job.m.files[i], rec))
            },
            None => None,
        };
        let paranoid = self.job.opts.paranoid;
        match settled {
            Some(true) => {
                if paranoid {
                    self.stage = Stage::RecordedSource(i);
                    none()
                } else {
                    self.present(i)
                }
            },
            Some(false) => self.unsettled(i),
            None => {
                let replace = match self.job.opts.on_exists {
                    OnExists::Replace => true,
                    _ => false,
                };
                if !replace && self.clashes(i) {
                    self.kept(i)
                } else if !self.is_move() && matches_destination(&st, &self.job.m.files[i]) {
                    if paranoid {
                        self.stage = Stage::SameSource(i);
                        none()
                    } else {
                        self.same(i)
                    }
                } else {
                    self.start(i)
                }
            },
        }
    }

    /// Whether the record of the file carries this hash.
    fn recorded_hash(&self, i: usize, h: u128) -> (r: bool)
        requires
            self.wf(),
            i < self@.job.n(),
            self@.record(i as int) is Some,
        ensures
            r == (text::hex(h as nat, 32) == self@.record(i as int)->0.hash),
    {
        assert(self@.prev.done.dom() =~= self.prev.done@.dom());
        match self.prev.done.get(self.keys[i].as_str()) {
            Some(rec) => {
                assert(self@.record(i as int) == Some(rec@));
                hex128(h) == rec.hash
            },
            None => false,
        }
    }

    /// Whether a chain belongs to the source as it is, says what its sources were, and
    /// reaches back to the first byte; nothing where the file has no chain.
    #[verifier::spinoff_prover]
    fn judge_chain(&self, i: usize) -> (r: Option<(bool, bool, bool)>)
        requires
            self.wf(),
            i < self@.job.n(),
        ensures
            r is None <==> self@.chain(i as int) is None,
            r matches Some(v) ==> {
                let c = self@.chain(i as int)->0;
                &&& v.0 == RunView::same_source(c, self@.job.m.files[i as int])
                &&& v.1 == RunView::anonymous(c)
                &&& v.2 == RunView::from_zero(c)
            },
    {
        assert(self@.job.m.files[i as int] == self.job.m.files@[i as int]@);
        let e = &self.job.m.files[i];
        match &self.prev.partial {
            None => None,
            Some(p) => {
                if p.rel != self.keys[i] {
                    return None;
                }
                let ghost c = self@.chain(i as int)->0;
                assert(c =~= p@.chain);
                let mut same = true;
                let mut anonymous = false;
                let mut k: usize = 0;
                while k < p.chain.len()
                    invariant
                        k <= p.chain.len(),
                        c == p@.chain,
                        e@ == self@.job.m.files[i as int],
                        same == (forall|j: int|
                            0 <= j < k ==> (#[trigger] c[j]).src_size != 0 && c[j].src_size
                                == e@.size && c[j].src_mtime == e@.mtime_ns),
                        anonymous == (exists|j: int|
                            0 <= j < k && (#[trigger] c[j]).src_size == 0),
                    decreases p.chain.len() - k,
                {
                    assert(c[k as int] == p.chain@[k as int]@);
                    let x = &p.chain[k];
                    same = same && x.src_size != 0 && x.src_size == e.size && x.src_mtime
                        == e.mtime_ns;
                    anonymous = anonymous || x.src_size == 0;
                    k += 1;
                }
                let zero = p.chain.len() > 0 && p.chain[0].off == p.chain[0].span;
                assert(p.chain.len() > 0 ==> c[0] == p.chain@[0]@);
                Some((same, anonymous, zero))
            },
        }
    }

    fn start(&mut self, i: usize) -> (o: Vec<Out>)
        requires
            old(self).wf(),
            file_of(old(self)@.stage) == Some(i as int),
            !copied_stage(old(self)@.stage),
        ensures
            final(self).wf(),
            final(self)@ == old(self)@.start(i as int).s,
            outs(o@) == old(self)@.start(i as int).out,
    {
        let mut o = one(Out::Tell(Progress::File { rel: self.keys[i].clone() }));
        match self.judge_chain(i) {
            None => {
                self.stage = Stage::Gate(i, 0);
            },
            Some((same, anonymous, zero)) => {
                if !same {
                    let mut s = cat("  ", self.keys[i].as_str());
                    if anonymous {
                        s.append(": earlier progress cannot be verified — copying it again");
                    } else {
                        s.append(" changed since it was interrupted — copying it again");
                    }
                    also(&mut o, Out::Note(s));
                    self.stage = Stage::DropStale(i);
                } else if zero {
                    self.checked = 0;
                    self.stage = Stage::SpanPoll(i, 0);
                } else {
                    self.stage = Stage::Gate(i, 0);
                }
            },
        }
        o
    }

    fn span_begin(&mut self, i: usize, k: usize)
        requires
            old(self).wf(),
            old(self)@.stage == Stage::SpanPoll(i, k),
        ensures
            final(self).wf(),
            final(self)@ == old(self)@.span_begin(i as int, k as int),
    {
        let hollow = match &self.prev.partial {
            Some(p) => {
                assert(self@.prev.partial->0.chain[k as int] == p.chain@[k as int]@);
                p.chain[k].span == 0 || p.chain[k].off < p.chain[k].span
            },
            None => true,
        };
        if hollow {
            self.stage = Stage::Gate(i, 0);
        } else {
            self.stage = Stage::Span(i, k);
        }
    }

    #[verifier::spinoff_prover]
    fn span_hashed(&mut self, i: usize, k: usize, h: u128) -> (o: Vec<Out>)
        requires
            old(self).wf(),
            old(self)@.stage == Stage::Span(i, k),
        ensures
            final(self).wf(),
            final(self)@ == old(self)@.span_hashed(i as int, k as int, h).s,
            outs(o@) == old(self)@.span_hashed(i as int, k as int, h).out,
    {
        let ghost before = self@;
        let (good, span, count, off): (bool, u64, usize, u64) = match &self.prev.partial {
            Some(p) => {
                let n = p.chain.len();
                assert(self@.prev.partial->0.chain[k as int] == p.chain@[k as int]@);
                assert(self@.prev.partial->0.chain[n - 1] == p.chain@[n - 1]@);
                (hex128(h) == p.chain[k].span_hash, p.chain[k].span, n, p.chain[n - 1].off)
            },
            None => (false, 0, 0, 0),
        };
        if !good {
            self.stage = Stage::Gate(i, 0);
            return none();
        }
        self.checked = self.checked.saturating_add(span);
        let mut o = one(
            Out::Tell(Progress::Checking { rel: self.keys[i].clone(), bytes: self.checked }),
        );
        if k + 1 < count {
            self.stage = Stage::SpanPoll(i, k + 1);
        } else {
            also(&mut o, Out::Tell(Progress::Skipped(off)));
            also(&mut o, Out::EtaCarried(off));
            let mut s = cat("  resuming ", self.keys[i].as_str());
            s.append(" at ");
            s.append(decimal(off).as_str());
            s.append(" byte(s)");
            also(&mut o, Out::Note(s));
            self.stage = Stage::Gate(i, off);
            assert(outs(o@) =~= before.span_hashed(i as int, k as int, h).out);
        }
        o
    }

    fn wrote(&mut self, n: u64)
        ensures
            final(self)@ == old(self)@.wrote(n),
            old(self).wf() ==> final(self).wf(),
    {
        self.sum.bytes_written = self.sum.bytes_written.saturating_add(n);
    }

    fn copied(&mut self, i: usize, hash: u128, written: u64)
        requires
            old(self).wf(),
            file_of(old(self)@.stage) == Some(i as int),
            old(self)@.stage is Copying,
        ensures
            final(self).wf(),
            final(self)@ == old(self)@.copied(i as int, hash, written),
    {
        self.wrote(written);
        self.hash = Some(hash);
        if self.job.opts.verify {
            self.stage = Stage::Verify(i);
        } else {
            self.stage = Stage::Rename(i);
        }
    }

    fn copy_problem(&mut self, i: usize) -> (o: Vec<Out>)
        requires
            old(self).wf(),
            file_of(old(self)@.stage) == Some(i as int),
            !copied_stage(old(self)@.stage),
        ensures
            final(self).wf(),
            final(self)@ == old(self)@.copy_problem(i as int).s,
            outs(o@) == old(self)@.copy_problem(i as int).out,
    {
        let mut s = cat("cannot copy ", self.source_text(i).as_str());
        s.append(" to ");
        s.append(self.dest_text(i).as_str());
        s.append(": ");
        s.append(self.why.as_str());
        self.file_problem(i, s)
    }

    fn bad_copy(&mut self, i: usize) -> (o: Vec<Out>)
        requires
            old(self).wf(),
            old(self)@.stage == Stage::DropBad(i),
        ensures
            final(self).wf(),
            final(self)@ == old(self)@.bad_copy(i as int).s,
            outs(o@) == old(self)@.bad_copy(i as int).out,
    {
        self.file_problem(
            i,
            String::from_str("verify failed: destination differs, restarting this file next run"),
        )
    }

    fn verified(&mut self, i: usize, h: u128)
        requires
            old(self).wf(),
            old(self)@.stage == Stage::Verify(i),
        ensures
            final(self).wf(),
            final(self)@ == old(self)@.verified(i as int, h),
    {
        let good = match self.hash {
            Some(x) => x == h,
            None => false,
        };
        if good {
            self.sum.files_verified = self.sum.files_verified + 1;
            self.stage = Stage::Rename(i);
        } else {
            self.stage = Stage::DropBad(i);
        }
    }

    fn rename_failed(&mut self, i: usize, e: &str) -> (o: Vec<Out>)
        requires
            old(self).wf(),
            old(self)@.stage == Stage::Rename(i),
        ensures
            final(self).wf(),
            final(self)@ == old(self)@.rename_failed(i as int, e@).s,
            outs(o@) == old(self)@.rename_failed(i as int, e@).out,
    {
        let mut s = cat("cannot move into place at ", self.dest_text(i).as_str());
        s.append(": ");
        s.append(e);
        self.problem(Place::File(i), s);
        self.stage = Stage::RenameFailed(i);
        one(self.count())
    }

    fn recorded(&mut self, i: usize) -> (o: Vec<Out>)
        requires
            old(self).wf(),
            old(self)@.stage == Stage::Recording(i),
        ensures
            final(self).wf(),
            final(self)@ == old(self)@.recorded(i as int).s,
            outs(o@) == old(self)@.recorded(i as int).out,
    {
        let ghost before = self@;
        self.sum.files_copied = self.sum.files_copied + 1;
        if self.is_move() {
            self.proven.insert(i);
        }
        self.to_file(i + 1);
        let mut o = one(Out::Tell(Progress::FileDone));
        also(&mut o, Out::EtaDone);
        also(&mut o, Out::Tick);
        assert(outs(o@) =~= before.recorded(i as int).out);
        o
    }

    // ── steps after the last file ──
    fn conclude(&mut self)
        requires
            old(self).wf(),
            old(self)@.stage is FirstFlush || old(self)@.stage is SecondFlush
                || old(self)@.stage is Barrier,
        ensures
            final(self).wf(),
            final(self)@ == old(self)@.conclude(),
    {
        if self.sum.errors.len() == 0 && !self.sum.stopped {
            self.stage = Stage::Complete;
        } else {
            self.stage = Stage::Finished(false);
        }
    }

    fn flushed(&mut self)
        requires
            old(self).wf(),
            old(self)@.stage is FirstFlush,
        ensures
            final(self).wf(),
            final(self)@ == old(self)@.flushed(),
    {
        if self.is_move() && !self.sum.stopped && self.sum.errors.len() == 0 && self.proven.len()
            > 0 {
            self.stage = Stage::Barrier;
        } else {
            self.conclude();
        }
    }

    fn to_delete(&mut self, i: usize)
        requires
            old(self).keys_ok(),
            old(self)@.job.n() <= usize::MAX,
            old(self)@.job.m.dirs.len() <= usize::MAX,
            old(self)@.into ==> old(self)@.job.src_name is Some,
            i <= old(self)@.job.n(),
            0 <= old(self)@.sum.kept <= old(self)@.sum.skipped,
            0 <= old(self)@.sum.copied,
            old(self)@.sum.copied + old(self)@.sum.skipped <= old(self)@.job.n(),
            0 <= old(self)@.sum.verified <= old(self)@.job.n(),
            0 <= old(self)@.sum.deleted <= i,
        ensures
            final(self).wf(),
            final(self)@ == old(self)@.to_delete(i as int),
    {
        if i < self.job.m.files.len() {
            self.stage = Stage::DeletePoll(i);
        } else {
            self.stage = Stage::SecondFlush;
        }
    }

    fn delete_begin(&mut self, i: usize)
        requires
            old(self).wf(),
            old(self)@.stage == Stage::DeletePoll(i),
        ensures
            final(self).wf(),
            final(self)@ == old(self)@.delete_begin(i as int),
    {
        let key = self.keys[i].as_str();
        assert(self.gone@.contains(key@) == self@.prev.deleted.contains(key@));
        if self.proven.contains(&i) && !self.gone.contains(key) {
            self.stage = Stage::DeleteLook(i);
        } else {
            self.to_delete(i + 1);
        }
    }

    fn original_seen(&mut self, i: usize, st: Option<SourceStat>)
        requires
            old(self).wf(),
            old(self)@.stage == Stage::DeleteLook(i),
        ensures
            final(self).wf(),
            final(self)@ == old(self)@.original_seen(i as int, st),
    {
        assert(self@.job.m.files[i as int] == self.job.m.files@[i as int]@);
        match st {
            None => {
                self.to_delete(i + 1);
            },
            Some(s) => {
                if s.len != self.job.m.files[i].size || s.mtime_ns
                    != self.job.m.files[i].mtime_ns {
                    self.problem(
                        Place::File(i),
                        String::from_str("changed since it was copied — original kept"),
                    );
                    self.to_delete(i + 1);
                } else {
                    self.stage = Stage::Deleting(i);
                }
            },
        }
    }

    fn all_copied(&mut self) -> (o: Vec<Out>)
        requires
            old(self).wf(),
            old(self)@.stage is AllCopied,
        ensures
            final(self).wf(),
            final(self)@ == old(self)@.all_copied().s,
            outs(o@) == old(self)@.all_copied().out,
    {
        let o = one(Out::Tell(Progress::DeletePhase { total: self.proven.len() }));
        self.to_delete(0);
        o
    }

    fn deleted(&mut self, i: usize) -> (o: Vec<Out>)
        requires
            old(self).wf(),
            old(self)@.stage == Stage::DeleteRecord(i),
        ensures
            final(self).wf(),
            final(self)@ == old(self)@.deleted(i as int).s,
            outs(o@) == old(self)@.deleted(i as int).out,
    {
        self.sum.sources_deleted = self.sum.sources_deleted + 1;
        self.to_delete(i + 1);
        one(Out::Tell(Progress::Deleted))
    }

    // ── answers ──
    fn phase(&self) -> (p: Phase)
        ensures
            p is Early <==> early(self@.stage),
            p is File <==> !early(self@.stage) && file_of(self@.stage) is Some,
    {
        match self.stage {
            Stage::LookDst | Stage::Paths | Stage::Load | Stage::Lock | Stage::Root | Stage::Case
            | Stage::Fat | Stage::Clashes | Stage::DirPoll(_) | Stage::DirMake(_) | Stage::Open
            | Stage::Session => Phase::Early,
            Stage::FilePoll(_) | Stage::Look(_) | Stage::RecordedSource(_)
            | Stage::RecordedDest(_) | Stage::SameSource(_) | Stage::SameDest(_)
            | Stage::SpanPoll(_, _) | Stage::Span(_, _) | Stage::DropStale(_)
            | Stage::Gate(_, _) | Stage::Parent(_, _) | Stage::Copying(_, _)
            | Stage::CopyFailed(_) | Stage::DropEmpty(_) | Stage::Verify(_) | Stage::DropBad(_)
            | Stage::Rename(_) | Stage::RenameFailed(_) | Stage::DropStuck(_) | Stage::Stamp(_)
            | Stage::Recording(_) => Phase::File,
            _ => Phase::Late,
        }
    }

    #[verifier::spinoff_prover]
    fn told_flag_early(&mut self, b: bool) -> (o: Vec<Out>)
        requires
            old(self).wf(),
        ensures
            final(self).wf(),
            final(self)@ == old(self)@.on_flag_early(b).s,
            outs(o@) == old(self)@.on_flag_early(b).out,
    {
        proof {
            reveal(RunView::on_flag_early);
        }
        match self.stage {
            Stage::LookDst => {
                if b {
                    self.goes_into();
                } else {
                    self.stage = Stage::Paths;
                }
            },
            Stage::Case => {
                self.case_known(b);
            },
            Stage::Fat => {
                self.fat_known(b);
            },
            Stage::DirPoll(i) => {
                if b {
                    self.stage = Stage::Open;
                } else {
                    self.stage = Stage::DirMake(i);
                }
            },
            _ => {},
        }
        none()
    }

    #[verifier::spinoff_prover]
    fn told_flag_file(&mut self, b: bool) -> (o: Vec<Out>)
        requires
            old(self).wf(),
        ensures
            final(self).wf(),
            final(self)@ == old(self)@.on_flag_file(b).s,
            outs(o@) == old(self)@.on_flag_file(b).out,
    {
        proof {
            reveal(RunView::on_flag_file);
        }
        match self.stage {
            Stage::FilePoll(i) => {
                if b {
                    self.sum.stopped = true;
                    self.stage = Stage::FirstFlush;
                } else {
                    assert(self@.job.m.files[i as int] == self.job.m.files@[i as int]@);
                    self.stage = Stage::Look(i);
                    return one(Out::EtaStart(self.job.m.files[i].size));
                }
            },
            Stage::SpanPoll(i, k) => {
                if b {
                    self.stage = Stage::Gate(i, 0);
                } else {
                    self.span_begin(i, k);
                }
            },
            Stage::Gate(i, r) => {
                if b {
                    self.sum.stopped = true;
                    self.stage = Stage::FirstFlush;
                } else {
                    self.stage = Stage::Parent(i, r);
                }
            },
            Stage::CopyFailed(i) => {
                if b {
                    self.stage = Stage::DropEmpty(i);
                } else {
                    return self.copy_problem(i);
                }
            },
            Stage::RenameFailed(i) => {
                if b {
                    self.stage = Stage::DropStuck(i);
                } else {
                    self.to_file(i + 1);
                }
            },
            _ => {},
        }
        none()
    }

    #[verifier::spinoff_prover]
    fn told_flag_late(&mut self, b: bool) -> (o: Vec<Out>)
        requires
            old(self).wf(),
        ensures
            final(self).wf(),
            final(self)@ == old(self)@.on_flag_late(b).s,
            outs(o@) == old(self)@.on_flag_late(b).out,
    {
        proof {
            reveal(RunView::on_flag_late);
        }
        match self.stage {
            Stage::DeletePoll(i) => {
                if b {
                    self.sum.stopped = true;
                    self.stage = Stage::SecondFlush;
                } else {
                    self.delete_begin(i);
                }
            },
            _ => {},
        }
        none()
    }

    #[verifier::spinoff_prover]
    fn told_flag(&mut self, b: bool) -> (o: Vec<Out>)
        requires
            old(self).wf(),
        ensures
            final(self).wf(),
            final(self)@ == old(self)@.on_flag(b).s,
            outs(o@) == old(self)@.on_flag(b).out,
    {
        proof {
            reveal(RunView::on_flag);
        }
        match self.phase() {
            Phase::Early => self.told_flag_early(b),
            Phase::File => self.told_flag_file(b),
            Phase::Late => self.told_flag_late(b),
        }
    }

    #[verifier::spinoff_prover]
    fn told_done_early(&mut self) -> (o: Vec<Out>)
        requires
            old(self).wf(),
        ensures
            final(self).wf(),
            final(self)@ == old(self)@.on_done_early().s,
            outs(o@) == old(self)@.on_done_early().out,
    {
        proof {
            reveal(RunView::on_done_early);
        }
        match self.stage {
            Stage::Lock => {
                if self.job.m.root_is_file {
                    self.to_names();
                } else {
                    self.stage = Stage::Root;
                }
            },
            Stage::Root => {
                self.to_names();
            },
            Stage::DirMake(i) => {
                return self.dir_made(i, None);
            },
            Stage::Open => {
                return self.opened();
            },
            Stage::Session => {
                return self.files_begin();
            },
            _ => {},
        }
        none()
    }

    #[verifier::rlimit(50)]
    #[verifier::spinoff_prover]
    fn told_done_file(&mut self) -> (o: Vec<Out>)
        requires
            old(self).wf(),
        ensures
            final(self).wf(),
            final(self)@ == old(self)@.on_done_file().s,
            outs(o@) == old(self)@.on_done_file().out,
    {
        proof {
            reveal(RunView::on_done_file);
        }
        match self.stage {
            Stage::DropStale(i) => {
                self.stage = Stage::Gate(i, 0);
            },
            Stage::Parent(i, r) => {
                self.stage = Stage::Copying(i, r);
            },
            Stage::DropEmpty(i) => {
                return self.copy_problem(i);
            },
            Stage::DropBad(i) => {
                return self.bad_copy(i);
            },
            Stage::Rename(i) => {
                self.stage = Stage::Stamp(i);
            },
            Stage::DropStuck(i) => {
                self.to_file(i + 1);
            },
            Stage::Stamp(i) => {
                self.stage = Stage::Recording(i);
            },
            Stage::Recording(i) => {
                return self.recorded(i);
            },
            _ => {},
        }
        none()
    }

    #[verifier::spinoff_prover]
    fn told_done_late(&mut self) -> (o: Vec<Out>)
        requires
            old(self).wf(),
        ensures
            final(self).wf(),
            final(self)@ == old(self)@.on_done_late().s,
            outs(o@) == old(self)@.on_done_late().out,
    {
        proof {
            reveal(RunView::on_done_late);
        }
        match self.stage {
            Stage::FirstFlush => {
                self.flushed();
            },
            Stage::Barrier => {
                self.stage = Stage::AllCopied;
            },
            Stage::AllCopied => {
                return self.all_copied();
            },
            Stage::Deleting(i) => {
                self.stage = Stage::DeleteRecord(i);
            },
            Stage::DeleteRecord(i) => {
                return self.deleted(i);
            },
            Stage::SecondFlush => {
                self.conclude();
            },
            Stage::Complete => {
                self.stage = Stage::RemoveJournal;
            },
            Stage::RemoveJournal => {
                self.stage = Stage::Finished(true);
            },
            _ => {},
        }
        none()
    }

    #[verifier::spinoff_prover]
    fn told_done(&mut self) -> (o: Vec<Out>)
        requires
            old(self).wf(),
        ensures
            final(self).wf(),
            final(self)@ == old(self)@.on_done().s,
            outs(o@) == old(self)@.on_done().out,
    {
        proof {
            reveal(RunView::on_done);
        }
        match self.phase() {
            Phase::Early => self.told_done_early(),
            Phase::File => self.told_done_file(),
            Phase::Late => self.told_done_late(),
        }
    }

    #[verifier::rlimit(50)]
    #[verifier::spinoff_prover]
    fn told_failed_early(&mut self, e: String) -> (o: Vec<Out>)
        requires
            old(self).wf(),
        ensures
            final(self).wf(),
            final(self)@ == old(self)@.on_failed_early(e@).s,
            outs(o@) == old(self)@.on_failed_early(e@).out,
    {
        proof {
            reveal(RunView::on_failed_early);
        }
        match self.stage {
            Stage::Load | Stage::Lock | Stage::Open | Stage::Session => {
                self.fail(Kind::Passed, e.as_str());
            },
            Stage::Root => {
                let mut s = cat("cannot create destination ", self.job.dst.as_str());
                s.append(": ");
                s.append(e.as_str());
                self.fail(Kind::Passed, s.as_str());
            },
            Stage::DirMake(i) => {
                return self.dir_made(i, Some(e));
            },
            _ => {},
        }
        none()
    }

    #[verifier::rlimit(50)]
    #[verifier::spinoff_prover]
    fn told_failed_file(&mut self, e: String) -> (o: Vec<Out>)
        requires
            old(self).wf(),
        ensures
            final(self).wf(),
            final(self)@ == old(self)@.on_failed_file(e@).s,
            outs(o@) == old(self)@.on_failed_file(e@).out,
    {
        proof {
            reveal(RunView::on_failed_file);
        }
        match self.stage {
            Stage::Recording(_) => {
                self.fail(Kind::Passed, e.as_str());
            },
            Stage::RecordedSource(i) | Stage::RecordedDest(i) => {
                return self.unsettled(i);
            },
            Stage::SameSource(i) => {
                self.hash = None;
                self.stage = Stage::SameDest(i);
            },
            Stage::SameDest(i) => {
                return self.start(i);
            },
            Stage::Span(i, _) => {
                self.stage = Stage::Gate(i, 0);
            },
            Stage::DropStale(i) => {
                self.stage = Stage::Gate(i, 0);
            },
            Stage::Copying(i, _) => {
                self.why = e;
                self.stage = Stage::CopyFailed(i);
            },
            Stage::DropEmpty(i) => {
                return self.copy_problem(i);
            },
            Stage::Verify(i) => {
                let s = cat("verify unreadable: ", e.as_str());
                return self.file_problem(i, s);
            },
            Stage::DropBad(i) => {
                return self.bad_copy(i);
            },
            Stage::Rename(i) => {
                return self.rename_failed(i, e.as_str());
            },
            Stage::DropStuck(i) => {
                self.to_file(i + 1);
            },
            Stage::Stamp(i) => {
                self.stage = Stage::Recording(i);
            },
            _ => {},
        }
        none()
    }

    #[verifier::rlimit(50)]
    #[verifier::spinoff_prover]
    fn told_failed_late(&mut self, e: String) -> (o: Vec<Out>)
        requires
            old(self).wf(),
        ensures
            final(self).wf(),
            final(self)@ == old(self)@.on_failed_late(e@).s,
            outs(o@) == old(self)@.on_failed_late(e@).out,
    {
        proof {
            reveal(RunView::on_failed_late);
        }
        match self.stage {
            Stage::FirstFlush | Stage::AllCopied | Stage::DeleteRecord(_) | Stage::SecondFlush | Stage::Complete | Stage::RemoveJournal => {
                self.fail(Kind::Passed, e.as_str());
            },
            Stage::Barrier => {
                let mut s = cat("cannot make the destination durable: ", e.as_str());
                s.append(" — originals kept");
                self.problem(Place::Here, s);
                self.conclude();
            },
            Stage::Deleting(i) => {
                self.problem(Place::File(i), cat("source not removed: ", e.as_str()));
                self.to_delete(i + 1);
            },
            _ => {},
        }
        none()
    }

    #[verifier::spinoff_prover]
    fn told_failed(&mut self, e: String) -> (o: Vec<Out>)
        requires
            old(self).wf(),
        ensures
            final(self).wf(),
            final(self)@ == old(self)@.on_failed(e@).s,
            outs(o@) == old(self)@.on_failed(e@).out,
    {
        proof {
            reveal(RunView::on_failed);
        }
        match self.phase() {
            Phase::Early => self.told_failed_early(e),
            Phase::File => self.told_failed_file(e),
            Phase::Late => self.told_failed_late(e),
        }
    }

    #[verifier::rlimit(50)]
    #[verifier::spinoff_prover]
    fn told_hash(&mut self, h: u128) -> (o: Vec<Out>)
        requires
            old(self).wf(),
        ensures
            final(self).wf(),
            final(self)@ == old(self)@.on_hash(h).s,
            outs(o@) == old(self)@.on_hash(h).out,
    {
        proof {
            reveal(RunView::on_hash);
        }
        match self.stage {
            Stage::RecordedSource(i) => {
                if self.recorded_hash(i, h) {
                    self.stage = Stage::RecordedDest(i);
                } else {
                    return self.unsettled(i);
                }
            },
            Stage::RecordedDest(i) => {
                if self.recorded_hash(i, h) {
                    return self.present(i);
                } else {
                    return self.unsettled(i);
                }
            },
            Stage::SameSource(i) => {
                self.hash = Some(h);
                self.stage = Stage::SameDest(i);
            },
            Stage::SameDest(i) => {
                let equal = match self.hash {
                    Some(x) => x == h,
                    None => false,
                };
                if equal {
                    return self.same(i);
                } else {
                    return self.start(i);
                }
            },
            Stage::Span(i, k) => {
                return self.span_hashed(i, k, h);
            },
            Stage::Verify(i) => {
                self.verified(i, h);
            },
            _ => {},
        }
        none()
    }

    #[verifier::spinoff_prover]
    fn told_failed_at(&mut self, p: String, e: String) -> (o: Vec<Out>)
        requires
            old(self).wf(),
        ensures
            final(self).wf(),
            final(self)@ == old(self)@.on_failed_at(p@, e@).s,
            outs(o@) == old(self)@.on_failed_at(p@, e@).out,
    {
        proof {
            reveal(RunView::on_failed_at);
        }
        match self.stage {
            Stage::Parent(i, _) => {
                let mut s = cat("cannot create directory ", p.as_str());
                s.append(": ");
                s.append(e.as_str());
                self.file_problem(i, s)
            },
            _ => none(),
        }
    }

    #[verifier::spinoff_prover]
    fn told_paths(&mut self, f: PathFacts) -> (o: Vec<Out>)
        requires
            old(self).wf(),
        ensures
            final(self).wf(),
            final(self)@ == old(self)@.on_paths(f@).s,
            outs(o@) == old(self)@.on_paths(f@).out,
    {
        proof {
            reveal(RunView::on_paths);
        }
        if let Stage::Paths = self.stage {
            self.paths_known(f);
        }
        none()
    }

    #[verifier::spinoff_prover]
    fn told_loaded(&mut self, prev: ResumeState) -> (o: Vec<Out>)
        requires
            old(self).wf(),
        ensures
            final(self).wf(),
            final(self)@ == old(self)@.on_loaded(prev@).s,
            outs(o@) == old(self)@.on_loaded(prev@).out,
    {
        proof {
            reveal(RunView::on_loaded);
        }
        match self.stage {
            Stage::Load => self.loaded(prev),
            _ => none(),
        }
    }

    #[verifier::spinoff_prover]
    fn told_stats(&mut self, v: Vec<Option<DestStat>>) -> (o: Vec<Out>)
        requires
            old(self).wf(),
        ensures
            final(self).wf(),
            final(self)@ == old(self)@.on_stats(v@).s,
            outs(o@) == old(self)@.on_stats(v@).out,
    {
        proof {
            reveal(RunView::on_stats);
        }
        if let Stage::Clashes = self.stage {
            self.clashes_known(v);
        }
        none()
    }

    #[verifier::spinoff_prover]
    fn told_stat(&mut self, st: Option<DestStat>) -> (o: Vec<Out>)
        requires
            old(self).wf(),
        ensures
            final(self).wf(),
            final(self)@ == old(self)@.on_stat(st).s,
            outs(o@) == old(self)@.on_stat(st).out,
    {
        proof {
            reveal(RunView::on_stat);
        }
        match self.stage {
            Stage::Look(i) => self.looked(i, st),
            _ => none(),
        }
    }

    #[verifier::spinoff_prover]
    fn told_copied(&mut self, hash: u128, written: u64) -> (o: Vec<Out>)
        requires
            old(self).wf(),
        ensures
            final(self).wf(),
            final(self)@ == old(self)@.on_copied(hash, written).s,
            outs(o@) == old(self)@.on_copied(hash, written).out,
    {
        proof {
            reveal(RunView::on_copied);
        }
        if let Stage::Copying(i, _) = self.stage {
            self.copied(i, hash, written);
        }
        none()
    }

    #[verifier::spinoff_prover]
    fn told_stopped(&mut self, written: u64) -> (o: Vec<Out>)
        requires
            old(self).wf(),
        ensures
            final(self).wf(),
            final(self)@ == old(self)@.on_stopped(written).s,
            outs(o@) == old(self)@.on_stopped(written).out,
    {
        proof {
            reveal(RunView::on_stopped);
        }
        if let Stage::Copying(_, _) = self.stage {
            self.wrote(written);
            self.sum.stopped = true;
            self.stage = Stage::FirstFlush;
        }
        none()
    }

    #[verifier::spinoff_prover]
    fn told_source(&mut self, st: Option<SourceStat>) -> (o: Vec<Out>)
        requires
            old(self).wf(),
        ensures
            final(self).wf(),
            final(self)@ == old(self)@.on_source(st).s,
            outs(o@) == old(self)@.on_source(st).out,
    {
        proof {
            reveal(RunView::on_source);
        }
        if let Stage::DeleteLook(i) = self.stage {
            self.original_seen(i, st);
        }
        none()
    }

    /// Takes an answer and goes on; reports what there is to report.
    #[verifier::rlimit(50)]
    #[verifier::spinoff_prover]
    pub fn answer(&mut self, a: Answer) -> (o: Vec<Out>)
        requires
            old(self).wf(),
        ensures
            final(self).wf(),
            final(self)@ == old(self)@.step(a@).s,
            outs(o@) == old(self)@.step(a@).out,
    {
        match a {
            Answer::Flag(b) => self.told_flag(b),
            Answer::Done => self.told_done(),
            Answer::Failed(e) => self.told_failed(e),
            Answer::FailedAt(p, e) => self.told_failed_at(p, e),
            Answer::Paths(f) => self.told_paths(f),
            Answer::Loaded(prev) => self.told_loaded(prev),
            Answer::Stats(v) => self.told_stats(v),
            Answer::Stat(st) => self.told_stat(st),
            Answer::Hash(h) => self.told_hash(h),
            Answer::Copied { hash, written } => self.told_copied(hash, written),
            Answer::Stopped { written } => self.told_stopped(written),
            Answer::Source(st) => self.told_source(st),
        }
    }
}

} // verus!
