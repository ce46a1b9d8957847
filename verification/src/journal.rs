//! The resume journal: what a run records, and what the next run makes of it.
//!
//! Two ordering rules carry everything else. A record is made durable only after the data
//! it asserts is durable. A final line without its newline was torn by a hard kill and is
//! discarded, never read.

use crate::fields;
use crate::hash;
use crate::path;
use crate::path::lossy;
use crate::scan;
use crate::sort;
use crate::sort::{reorder, sorted_positions, Ranked};
use crate::text;
use crate::text::{chars_of, hex128};
use vstd::hash_map::StringHashMap;
use vstd::prelude::*;
use vstd::utf8;
use xxhash_rust::xxh3::xxh3_128;

verus! {

/// Written into the session line, so that a later build can refuse or migrate a journal.
pub const JOURNAL_VERSION: u32 = 1;

#[derive(Clone, Copy, PartialEq, Eq, Structural, Debug)]
pub enum Mode {
    Copy,
    Move,
}

/// One line of the journal.
pub enum Record {
    /// Written once, first line.
    Session {
        v: u32,
        src: String,
        dst: String,
        mode: Mode,
        files: usize,
        bytes: u64,
        /// The chosen names under `src`, in selection order; empty for the whole folder.
        names: Vec<String>,
        skip_caches: bool,
        skip_cloud: bool,
    },
    /// One per completed file. `hash` is the digest of the source, in hexadecimal.
    FileDone { rel: String, size: u64, mtime: i64, mtime_ns: i64, hash: String },
    /// Progress inside the file in flight: the destination bytes `[off - span, off)` are
    /// durable and hash to `span_hash`. Size and nanosecond mtime are those of the source
    /// when the checkpoint was taken.
    Checkpoint {
        rel: String,
        off: u64,
        span: u64,
        span_hash: String,
        src_size: u64,
        src_mtime: i64,
    },
    /// Every file is copied, proven and durable: deleting sources is now permissible.
    AllCopied,
    SourceDeleted { rel: String },
    /// The job finished cleanly.
    Complete,
}

/// `Record` with its texts as character sequences.
#[verifier::ext_equal]
pub enum RecordView {
    Session {
        v: u32,
        src: Seq<char>,
        dst: Seq<char>,
        mode: Mode,
        files: usize,
        bytes: u64,
        names: Seq<Seq<char>>,
        skip_caches: bool,
        skip_cloud: bool,
    },
    FileDone { rel: Seq<char>, size: u64, mtime: i64, mtime_ns: i64, hash: Seq<char> },
    Checkpoint {
        rel: Seq<char>,
        off: u64,
        span: u64,
        span_hash: Seq<char>,
        src_size: u64,
        src_mtime: i64,
    },
    AllCopied,
    SourceDeleted { rel: Seq<char> },
    Complete,
}

impl View for Record {
    type V = RecordView;

    open spec fn view(&self) -> RecordView {
        match *self {
            Record::Session { v, src, dst, mode, files, bytes, names, skip_caches, skip_cloud } =>
                RecordView::Session {
                    v,
                    src: src@,
                    dst: dst@,
                    mode,
                    files,
                    bytes,
                    names: text::texts(names@),
                    skip_caches,
                    skip_cloud,
                },
            Record::FileDone { rel, size, mtime, mtime_ns, hash } =>
                RecordView::FileDone { rel: rel@, size, mtime, mtime_ns, hash: hash@ },
            Record::Checkpoint { rel, off, span, span_hash, src_size, src_mtime } =>
                RecordView::Checkpoint {
                    rel: rel@,
                    off,
                    span,
                    span_hash: span_hash@,
                    src_size,
                    src_mtime,
                },
            Record::AllCopied => RecordView::AllCopied,
            Record::SourceDeleted { rel } => RecordView::SourceDeleted { rel: rel@ },
            Record::Complete => RecordView::Complete,
        }
    }
}

/// What the journal says of a completed file.
pub struct DoneFile {
    pub size: u64,
    pub mtime: i64,
    /// Nanosecond mtime of the source; zero where an old journal did not record it.
    pub mtime_ns: i64,
    pub hash: String,
}

#[verifier::ext_equal]
pub struct DoneView {
    pub size: u64,
    pub mtime: i64,
    pub mtime_ns: i64,
    pub hash: Seq<char>,
}

impl View for DoneFile {
    type V = DoneView;

    open spec fn view(&self) -> DoneView {
        DoneView {
            size: self.size,
            mtime: self.mtime,
            mtime_ns: self.mtime_ns,
            hash: self.hash@,
        }
    }
}

/// One checkpoint of the file in flight.
pub struct Ckpt {
    pub off: u64,
    pub span: u64,
    pub span_hash: String,
    pub src_size: u64,
    pub src_mtime: i64,
}

#[verifier::ext_equal]
pub struct CkptView {
    pub off: u64,
    pub span: u64,
    pub span_hash: Seq<char>,
    pub src_size: u64,
    pub src_mtime: i64,
}

impl View for Ckpt {
    type V = CkptView;

    open spec fn view(&self) -> CkptView {
        CkptView {
            off: self.off,
            span: self.span,
            span_hash: self.span_hash@,
            src_size: self.src_size,
            src_mtime: self.src_mtime,
        }
    }
}

/// The checkpoint chain of the file in flight, oldest first: each span starts where the
/// previous one ended.
pub struct Partial {
    pub rel: String,
    pub chain: Vec<Ckpt>,
}

#[verifier::ext_equal]
pub struct PartialView {
    pub rel: Seq<char>,
    pub chain: Seq<CkptView>,
}

impl View for Partial {
    type V = PartialView;

    open spec fn view(&self) -> PartialView {
        PartialView { rel: self.rel@, chain: self.chain@.map_values(|c: Ckpt| c@) }
    }
}

/// Where the session line said the job runs.
pub struct Session {
    pub src: String,
    pub dst: String,
    pub mode: Mode,
}

#[verifier::ext_equal]
pub struct SessionView {
    pub src: Seq<char>,
    pub dst: Seq<char>,
    pub mode: Mode,
}

impl View for Session {
    type V = SessionView;

    open spec fn view(&self) -> SessionView {
        SessionView { src: self.src@, dst: self.dst@, mode: self.mode }
    }
}

/// What a previous run left behind.
pub struct ResumeState {
    /// Completed files by relative path.
    pub done: StringHashMap<DoneFile>,
    /// The keys of `done`, each once, in the order they were first recorded.
    pub order: Vec<String>,
    pub deleted: Vec<String>,
    pub partial: Option<Partial>,
    pub complete: bool,
    pub all_copied: bool,
    /// A line was torn or could not be read.
    pub torn_tail: bool,
    pub session: Option<Session>,
    pub session_files: usize,
    pub session_bytes: u64,
    pub session_names: Vec<String>,
    pub session_skip_caches: bool,
    pub session_skip_cloud: bool,
}

#[verifier::ext_equal]
pub struct ResumeView {
    pub done: Map<Seq<char>, DoneView>,
    pub order: Seq<Seq<char>>,
    pub deleted: Seq<Seq<char>>,
    pub partial: Option<PartialView>,
    pub complete: bool,
    pub all_copied: bool,
    pub torn_tail: bool,
    pub session: Option<SessionView>,
    pub session_files: usize,
    pub session_bytes: u64,
    pub session_names: Seq<Seq<char>>,
    pub session_skip_caches: bool,
    pub session_skip_cloud: bool,
}

impl View for ResumeState {
    type V = ResumeView;

    open spec fn view(&self) -> ResumeView {
        ResumeView {
            done: self.done@.map_values(|d: DoneFile| d@),
            order: text::texts(self.order@),
            deleted: text::texts(self.deleted@),
            partial: match self.partial {
                Some(p) => Some(p@),
                None => None,
            },
            complete: self.complete,
            all_copied: self.all_copied,
            torn_tail: self.torn_tail,
            session: match self.session {
                Some(s) => Some(s@),
                None => None,
            },
            session_files: self.session_files,
            session_bytes: self.session_bytes,
            session_names: text::texts(self.session_names@),
            session_skip_caches: self.session_skip_caches,
            session_skip_cloud: self.session_skip_cloud,
        }
    }
}

impl ResumeView {
    /// Nothing recorded.
    pub open spec fn empty() -> ResumeView {
        ResumeView {
            done: Map::empty(),
            order: Seq::empty(),
            deleted: Seq::empty(),
            partial: None,
            complete: false,
            all_copied: false,
            torn_tail: false,
            session: None,
            session_files: 0,
            session_bytes: 0,
            session_names: Seq::empty(),
            session_skip_caches: false,
            session_skip_cloud: false,
        }
    }

    /// The checkpoint starts where the newest recorded one of the same file ended.
    pub open spec fn continues(self, rel: Seq<char>, ck: CkptView) -> bool {
        match self.partial {
            Some(p) => p.rel == rel && p.chain.len() > 0 && ck.off >= ck.span
                && ck.off - ck.span == p.chain.last().off,
            None => false,
        }
    }

    /// What one more line adds. `None` is a line that could not be read.
    pub open spec fn absorb(self, line: Option<RecordView>) -> ResumeView {
        match line {
            None => ResumeView { torn_tail: true, ..self },
            Some(
                RecordView::Session {
                    v,
                    src,
                    dst,
                    mode,
                    files,
                    bytes,
                    names,
                    skip_caches,
                    skip_cloud,
                },
            ) => ResumeView {
                session: Some(SessionView { src, dst, mode }),
                session_files: files,
                session_bytes: bytes,
                session_names: names,
                session_skip_caches: skip_caches,
                session_skip_cloud: skip_cloud,
                ..self
            },
            Some(RecordView::FileDone { rel, size, mtime, mtime_ns, hash }) => ResumeView {
                done: self.done.insert(rel, DoneView { size, mtime, mtime_ns, hash }),
                order: if self.done.dom().contains(rel) {
                    self.order
                } else {
                    self.order.push(rel)
                },
                partial: match self.partial {
                    Some(p) => if p.rel == rel {
                        None
                    } else {
                        Some(p)
                    },
                    None => None,
                },
                ..self
            },
            Some(RecordView::Checkpoint { rel, off, span, span_hash, src_size, src_mtime }) => {
                let ck = CkptView { off, span, span_hash, src_size, src_mtime };
                ResumeView {
                    partial: if self.continues(rel, ck) {
                        Some(PartialView { rel, chain: self.partial->0.chain.push(ck) })
                    } else {
                        Some(PartialView { rel, chain: seq![ck] })
                    },
                    ..self
                }
            },
            Some(RecordView::SourceDeleted { rel }) => ResumeView {
                deleted: self.deleted.push(rel),
                ..self
            },
            Some(RecordView::AllCopied) => ResumeView { all_copied: true, ..self },
            Some(RecordView::Complete) => ResumeView { complete: true, ..self },
        }
    }

    /// What a list of lines adds up to, oldest line first.
    pub open spec fn of(lines: Seq<Option<RecordView>>) -> ResumeView
        decreases lines.len(),
    {
        if lines.len() == 0 {
            ResumeView::empty()
        } else {
            ResumeView::of(lines.drop_last()).absorb(lines.last())
        }
    }

    /// `order` lists the keys of `done`, each once; a chain is never empty and its spans
    /// adjoin.
    pub open spec fn wf(self) -> bool {
        &&& self.order.no_duplicates()
        &&& self.order.to_set() =~= self.done.dom()
        &&& self.partial matches Some(p) ==> p.wf()
    }
}

impl PartialView {
    pub open spec fn wf(self) -> bool {
        &&& self.chain.len() > 0
        &&& forall|i: int|
            #![trigger self.chain[i]]
            1 <= i < self.chain.len() ==> self.chain[i].off >= self.chain[i].span
                && self.chain[i].off - self.chain[i].span == self.chain[i - 1].off
    }
}

impl ResumeState {
    pub fn empty() -> (r: ResumeState)
        ensures
            r@ == ResumeView::empty(),
    {
        let r = ResumeState {
            done: StringHashMap::new(),
            order: Vec::new(),
            deleted: Vec::new(),
            partial: None,
            complete: false,
            all_copied: false,
            torn_tail: false,
            session: None,
            session_files: 0,
            session_bytes: 0,
            session_names: Vec::new(),
            session_skip_caches: false,
            session_skip_cloud: false,
        };
        assert(r@ =~~= ResumeView::empty());
        r
    }

    /// Takes in one more line of the journal; `None` is a line that could not be read.
    pub fn absorb(&mut self, line: Option<Record>)
        ensures
            final(self)@ == old(self)@.absorb(
                match line {
                    Some(r) => Some(r@),
                    None => None,
                },
            ),
    {
        let ghost before = self@;
        match line {
            None => {
                self.torn_tail = true;
            },
            Some(
                Record::Session { v: _, src, dst, mode, files, bytes, names, skip_caches, skip_cloud },
            ) => {
                self.session = Some(Session { src, dst, mode });
                self.session_files = files;
                self.session_bytes = bytes;
                self.session_names = names;
                self.session_skip_caches = skip_caches;
                self.session_skip_cloud = skip_cloud;
            },
            Some(Record::FileDone { rel, size, mtime, mtime_ns, hash }) => {
                let clears = match &self.partial {
                    Some(p) => p.rel == rel,
                    None => false,
                };
                if clears {
                    self.partial = None;
                }
                if !self.done.contains_key(rel.as_str()) {
                    self.order.push(rel.clone());
                }
                let ghost key = rel@;
                let d = DoneFile { size, mtime, mtime_ns, hash };
                self.done.insert(rel, d);
                assert(self@.done =~= before.done.insert(key, d@));
                assert(self@.order =~= (if before.done.dom().contains(key) {
                    before.order
                } else {
                    before.order.push(key)
                }));
            },
            Some(Record::Checkpoint { rel, off, span, span_hash, src_size, src_mtime }) => {
                let ck = Ckpt { off, span, span_hash, src_size, src_mtime };
                let joins = match &self.partial {
                    Some(p) => p.rel == rel && p.chain.len() > 0 && ck.off >= ck.span && ck.off
                        - ck.span == p.chain[p.chain.len() - 1].off,
                    None => false,
                };
                let mut chain: Vec<Ckpt> = Vec::new();
                if joins {
                    if let Some(p) = self.partial.take() {
                        chain = p.chain;
                    }
                }
                chain.push(ck);
                let p = Partial { rel, chain };
                assert(p@.chain =~= (if before.continues(p.rel@, ck@) {
                    before.partial->0.chain.push(ck@)
                } else {
                    seq![ck@]
                }));
                self.partial = Some(p);
            },
            Some(Record::SourceDeleted { rel }) => {
                let ghost key = rel@;
                self.deleted.push(rel);
                assert(self@.deleted =~= before.deleted.push(key));
            },
            Some(Record::AllCopied) => {
                self.all_copied = true;
            },
            Some(Record::Complete) => {
                self.complete = true;
            },
        }
    }
}

/// The lines of a journal as `load` takes them, and what they hold.
pub open spec fn records(lines: Seq<Option<Record>>) -> Seq<Option<RecordView>> {
    lines.map_values(
        |l: Option<Record>|
            match l {
                Some(r) => Some(r@),
                None => None,
            },
    )
}

impl ResumeView {
    /// What the complete lines say, and whether the file ended in the middle of one.
    pub open spec fn read(lines: Seq<Option<RecordView>>, torn: bool) -> ResumeView {
        ResumeView { torn_tail: torn || ResumeView::of(lines).torn_tail, ..ResumeView::of(lines) }
    }
}

/// Folds the complete lines of a journal, oldest first. `torn` tells that the file ended in
/// the middle of a line; that line is not among `lines`.
pub fn load(lines: Vec<Option<Record>>, torn: bool) -> (st: ResumeState)
    ensures
        st@ == ResumeView::read(records(lines@), torn),
        st@.wf(),
{
    let ghost all = records(lines@);
    let mut st = ResumeState::empty();
    assert(all.take(0) =~= Seq::empty());
    let mut lines = lines;
    let ghost whole = lines@;
    let mut rest: Vec<Option<Record>> = Vec::new();
    while lines.len() > 0
        invariant
            lines@ == whole.take(lines.len() as int),
            lines.len() <= whole.len(),
            rest.len() == whole.len() - lines.len(),
            forall|i: int|
                0 <= i < rest.len() ==> #[trigger] rest@[i] == whole[whole.len() - 1 - i],
        decreases lines.len(),
    {
        let l = lines.pop();
        match l {
            Some(x) => rest.push(x),
            None => {},
        }
    }
    while rest.len() > 0
        invariant
            rest.len() <= whole.len(),
            all == records(whole),
            forall|i: int|
                0 <= i < rest.len() ==> #[trigger] rest@[i] == whole[whole.len() - 1 - i],
            st@ == ResumeView::of(all.take(whole.len() - rest.len())),
        decreases rest.len(),
    {
        let ghost k: int = whole.len() - rest.len();
        let l = rest.pop();
        match l {
            Some(x) => {
                assert(all.take(k + 1).drop_last() =~= all.take(k));
                assert(all.take(k + 1).last() == all[k]);
                st.absorb(x);
            },
            None => {},
        }
    }
    assert(all.take(whole.len() as int) =~= all);
    proof {
        lemma_fold_wf(all);
    }
    if torn {
        st.torn_tail = true;
    }
    st
}

/// Folding any lines gives a state whose `order` and chain are well formed.
pub proof fn lemma_fold_wf(lines: Seq<Option<RecordView>>)
    ensures
        ResumeView::of(lines).wf(),
    decreases lines.len(),
{
    if lines.len() == 0 {
        assert(ResumeView::empty().order.to_set() =~= ResumeView::empty().done.dom());
    } else {
        lemma_fold_wf(lines.drop_last());
        lemma_absorb_wf(ResumeView::of(lines.drop_last()), lines.last());
    }
}

proof fn lemma_absorb_wf(st: ResumeView, line: Option<RecordView>)
    requires
        st.wf(),
    ensures
        st.absorb(line).wf(),
{
    let after = st.absorb(line);
    if let Some(RecordView::FileDone { rel, size, mtime, mtime_ns, hash }) = line {
        if !st.done.dom().contains(rel) {
            assert(!st.order.to_set().contains(rel));
            assert(!st.order.contains(rel));
            assert(after.order =~= st.order.push(rel));
            assert(after.order.to_set() =~= st.order.to_set().insert(rel)) by {
                assert forall|k: Seq<char>| #[trigger]
                    after.order.to_set().contains(k) <==> st.order.to_set().insert(rel).contains(
                        k,
                    ) by {
                    if after.order.contains(k) {
                        let i = choose|i: int| 0 <= i < after.order.len() && after.order[i] == k;
                        if i < st.order.len() {
                            assert(st.order[i] == k);
                        }
                    }
                    if st.order.contains(k) {
                        let i = choose|i: int| 0 <= i < st.order.len() && st.order[i] == k;
                        assert(after.order[i] == k);
                    }
                    if k == rel {
                        assert(after.order[st.order.len() as int] == k);
                    }
                }
            }
        } else {
            assert(after.done.dom() =~= st.done.dom());
        }
    }
}

// ── lines on disk ────────────────────────────────────────────────────────────
/// The byte that ends a line.
pub const NEWLINE: u8 = 10;

/// Lines as they stand in the file: each followed by a newline.
pub open spec fn framed(lines: Seq<Seq<u8>>) -> Seq<u8>
    decreases lines.len(),
{
    if lines.len() == 0 {
        Seq::empty()
    } else {
        framed(lines.drop_last()) + lines.last().push(NEWLINE)
    }
}

/// No line holds a newline of its own.
pub open spec fn plain(lines: Seq<Seq<u8>>) -> bool {
    forall|i: int| 0 <= i < lines.len() ==> !(#[trigger] lines[i]).contains(NEWLINE)
}

/// `bytes` is these complete lines and then a tail that was never ended.
pub open spec fn splits_into(bytes: Seq<u8>, lines: Seq<Seq<u8>>, tail: Seq<u8>) -> bool {
    &&& plain(lines)
    &&& !tail.contains(NEWLINE)
    &&& bytes == framed(lines) + tail
}

/// The byte strings of a list of vectors.
pub open spec fn byte_lines(v: Seq<Vec<u8>>) -> Seq<Seq<u8>> {
    v.map_values(|l: Vec<u8>| l@)
}

/// How many leading bytes of a journal file are complete lines.
pub open spec fn kept_len(bytes: Seq<u8>) -> nat
    decreases bytes.len(),
{
    if bytes.len() == 0 || bytes.last() == NEWLINE {
        bytes.len()
    } else {
        kept_len(bytes.drop_last())
    }
}

/// The complete lines of a journal file.
pub open spec fn complete_lines(bytes: Seq<u8>) -> Seq<Seq<u8>> {
    choose|lines: Seq<Seq<u8>>|
        splits_into(bytes, lines, bytes.skip(kept_len(bytes) as int))
}

/// What a journal file says, where `parse` reads the text of one line.
pub open spec fn state_of(
    bytes: Seq<u8>,
    parse: spec_fn(Seq<char>) -> Option<RecordView>,
) -> ResumeView {
    let lines = complete_lines(bytes);
    let st = ResumeView::of(written_lines(lines, lines.len() as int).map_values(parse));
    ResumeView { torn_tail: kept_len(bytes) < bytes.len() || st.torn_tail, ..st }
}

/// Cuts a journal file into its complete lines; the flag tells that something follows the
/// last newline, torn off by a hard kill.
pub fn split_lines(bytes: &[u8]) -> (r: (Vec<Vec<u8>>, bool))
    ensures
        byte_lines(r.0@) == complete_lines(bytes@),
        splits_into(bytes@, byte_lines(r.0@), bytes@.skip(kept_len(bytes@) as int)),
        r.1 == (kept_len(bytes@) < bytes@.len()),
{
    let mut lines: Vec<Vec<u8>> = Vec::new();
    let mut cur: Vec<u8> = Vec::new();
    let mut i: usize = 0;
    assert(framed(byte_lines(lines@)) + cur@ =~= bytes@.take(0));
    while i < bytes.len()
        invariant
            i <= bytes.len(),
            splits_into(bytes@.take(i as int), byte_lines(lines@), cur@),
        decreases bytes.len() - i,
    {
        let b = bytes[i];
        assert(bytes@.take(i + 1) =~= bytes@.take(i as int).push(b));
        if b == NEWLINE {
            let ghost before = byte_lines(lines@);
            let ghost line = cur@;
            let mut done: Vec<u8> = Vec::new();
            std::mem::swap(&mut done, &mut cur);
            lines.push(done);
            proof {
                assert(byte_lines(lines@) =~= before.push(line));
                assert(byte_lines(lines@).drop_last() =~= before);
                assert(framed(byte_lines(lines@)) + cur@ =~= bytes@.take(i + 1));
            }
        } else {
            let ghost line = cur@;
            cur.push(b);
            proof {
                assert(framed(byte_lines(lines@)) + cur@ =~= bytes@.take(i + 1));
                assert forall|k: int| 0 <= k < cur@.len() implies cur@[k] != NEWLINE by {
                    if k < line.len() {
                        assert(line.contains(line[k]));
                    }
                }
            }
        }
        i += 1;
    }
    assert(bytes@.take(i as int) =~= bytes@);
    proof {
        lemma_complete(bytes@, byte_lines(lines@), cur@);
    }
    (lines, cur.len() > 0)
}

/// The length to cut the file to, where it does not end with a line.
pub open spec fn cut_to(bytes: Seq<u8>) -> Option<usize> {
    if kept_len(bytes) < bytes.len() {
        Some(kept_len(bytes) as usize)
    } else {
        None
    }
}

/// The length the journal file has to be cut back to before anything is appended to it, or
/// nothing where it already ends in a complete line.
pub fn truncate_to_last_record(bytes: &[u8]) -> (r: Option<usize>)
    ensures
        r == cut_to(bytes@),
{
    let mut i: usize = bytes.len();
    assert(bytes@.take(i as int) =~= bytes@);
    proof {
        lemma_kept_len(bytes@);
    }
    while i > 0 && bytes[i - 1] != NEWLINE
        invariant
            i <= bytes.len(),
            kept_len(bytes@) == kept_len(bytes@.take(i as int)),
        decreases i,
    {
        assert(bytes@.take(i as int).drop_last() =~= bytes@.take(i - 1));
        i -= 1;
    }
    if i < bytes.len() {
        Some(i)
    } else {
        None
    }
}

proof fn lemma_kept_len(bytes: Seq<u8>)
    ensures
        kept_len(bytes) <= bytes.len(),
    decreases bytes.len(),
{
    if bytes.len() > 0 && bytes.last() != NEWLINE {
        lemma_kept_len(bytes.drop_last());
    }
}

proof fn lemma_framed_add(a: Seq<Seq<u8>>, b: Seq<Seq<u8>>)
    ensures
        framed(a + b) == framed(a) + framed(b),
    decreases b.len(),
{
    if b.len() == 0 {
        assert(a + b =~= a);
    } else {
        lemma_framed_add(a, b.drop_last());
        assert((a + b).drop_last() =~= a + b.drop_last());
        assert((a + b).last() == b.last());
        assert(framed(a + b) =~= framed(a) + framed(b));
    }
}

/// A file holds exactly one sequence of complete lines and exactly one torn tail: whoever
/// splits it finds the same.
pub proof fn law_split_is_unique(
    bytes: Seq<u8>,
    lines: Seq<Seq<u8>>,
    tail: Seq<u8>,
    lines2: Seq<Seq<u8>>,
    tail2: Seq<u8>,
)
    requires
        splits_into(bytes, lines, tail),
        splits_into(bytes, lines2, tail2),
    ensures
        lines == lines2,
        tail == tail2,
    decreases lines.len(),
{
    lemma_last_newline(bytes, lines, tail);
    lemma_last_newline(bytes, lines2, tail2);
    let n = framed(lines).len();
    assert(framed(lines).len() == framed(lines2).len());
    assert(tail =~= bytes.skip(n as int));
    assert(tail2 =~= bytes.skip(n as int));
    assert(framed(lines) =~= bytes.take(n as int));
    assert(framed(lines2) =~= bytes.take(n as int));
    if lines.len() > 0 {
        assert(lines2.len() > 0);
        let m = framed(lines).len() - 1;
        let cut = framed(lines).take(m);
        assert(cut =~= framed(lines.drop_last()) + lines.last());
        assert(cut =~= framed(lines2.drop_last()) + lines2.last());
        assert(!lines[lines.len() - 1].contains(NEWLINE));
        assert(!lines2[lines2.len() - 1].contains(NEWLINE));
        law_split_is_unique(
            cut,
            lines.drop_last(),
            lines.last(),
            lines2.drop_last(),
            lines2.last(),
        );
        assert(lines =~= lines.drop_last().push(lines.last()));
        assert(lines2 =~= lines2.drop_last().push(lines2.last()));
    } else {
        assert(framed(lines2).len() == 0);
        assert(lines2.len() == 0);
    }
}

/// The complete lines end right behind the last newline.
proof fn lemma_last_newline(bytes: Seq<u8>, lines: Seq<Seq<u8>>, tail: Seq<u8>)
    requires
        splits_into(bytes, lines, tail),
    ensures
        framed(lines).len() == kept_len(bytes),
    decreases tail.len(),
{
    if tail.len() == 0 {
        assert(bytes =~= framed(lines));
        if lines.len() > 0 {
            assert(bytes.last() == NEWLINE);
        }
    } else {
        assert(tail.contains(tail.last()));
        assert(bytes.last() == tail.last());
        assert(bytes.drop_last() =~= framed(lines) + tail.drop_last());
        assert forall|k: int| 0 <= k < tail.drop_last().len() implies tail.drop_last()[k]
            != NEWLINE by {
            assert(tail.contains(tail[k]));
        }
        lemma_last_newline(bytes.drop_last(), lines, tail.drop_last());
    }
}

/// However the file is split, the lines are its complete lines.
pub(crate) proof fn lemma_complete(bytes: Seq<u8>, lines: Seq<Seq<u8>>, tail: Seq<u8>)
    requires
        splits_into(bytes, lines, tail),
    ensures
        complete_lines(bytes) == lines,
        kept_len(bytes) == framed(lines).len(),
        tail == bytes.skip(kept_len(bytes) as int),
{
    lemma_last_newline(bytes, lines, tail);
    let rest = bytes.skip(kept_len(bytes) as int);
    assert(tail =~= rest);
    let chosen = complete_lines(bytes);
    assert(splits_into(bytes, lines, rest));
    assert(splits_into(bytes, chosen, rest));
    law_split_is_unique(bytes, lines, tail, chosen, rest);
}

/// A torn tail never costs a complete record: cutting the file back to its last complete
/// line keeps all of them and only them, and whatever is framed onto the end after that is
/// read back behind them.
pub proof fn law_append_after_truncation(
    bytes: Seq<u8>,
    lines: Seq<Seq<u8>>,
    tail: Seq<u8>,
    more: Seq<Seq<u8>>,
)
    requires
        splits_into(bytes, lines, tail),
        plain(more),
    ensures
        splits_into(
            bytes.take(kept_len(bytes) as int) + framed(more),
            lines + more,
            Seq::empty(),
        ),
{
    lemma_last_newline(bytes, lines, tail);
    lemma_framed_add(lines, more);
    assert(bytes.take(kept_len(bytes) as int) =~= framed(lines));
    assert(framed(lines) + framed(more) =~= framed(lines + more) + Seq::<u8>::empty());
    assert forall|i: int| 0 <= i < (lines + more).len() implies !(#[trigger] (lines
        + more)[i]).contains(NEWLINE) by {
        if i < lines.len() {
            assert((lines + more)[i] == lines[i]);
        } else {
            assert((lines + more)[i] == more[i - lines.len()]);
        }
    }
}

/// A hard kill in the middle of writing the journal leaves some prefix of its bytes, and
/// that prefix still holds an unbroken run of the oldest lines: only the newest are lost.
pub proof fn law_a_crash_keeps_the_oldest_lines(lines: Seq<Seq<u8>>, n: int)
    requires
        plain(lines),
        0 <= n <= framed(lines).len(),
    ensures
        exists|k: int, tail: Seq<u8>|
            0 <= k <= lines.len() && #[trigger] splits_into(
                framed(lines).take(n),
                lines.take(k),
                tail,
            ),
    decreases lines.len(),
{
    if lines.len() == 0 {
        assert(splits_into(framed(lines).take(n), lines.take(0), Seq::empty())) by {
            assert(lines.take(0) =~= Seq::empty());
            assert(framed(lines).take(n) =~= framed(lines.take(0)) + Seq::<u8>::empty());
        }
    } else if n == framed(lines).len() {
        assert(lines.take(lines.len() as int) =~= lines);
        assert(framed(lines).take(n) =~= framed(lines) + Seq::<u8>::empty());
        assert(splits_into(
            framed(lines).take(n),
            lines.take(lines.len() as int),
            Seq::empty(),
        ));
    } else {
        let init = lines.drop_last();
        let m = framed(init).len() as int;
        assert(!lines[lines.len() - 1].contains(NEWLINE));
        if n < m {
            law_a_crash_keeps_the_oldest_lines(init, n);
            let (k, tail) = choose|k: int, tail: Seq<u8>|
                0 <= k <= init.len() && #[trigger] splits_into(
                    framed(init).take(n),
                    init.take(k),
                    tail,
                );
            assert(framed(lines).take(n) =~= framed(init).take(n));
            assert(init.take(k) =~= lines.take(k));
            assert(splits_into(framed(lines).take(n), lines.take(k), tail));
        } else {
            let tail = lines.last().take(n - m);
            let k = init.len() as int;
            assert(lines.take(k) =~= init);
            assert(framed(lines).take(n) =~= framed(init) + tail);
            assert forall|i: int| 0 <= i < tail.len() implies tail[i] != NEWLINE by {
                assert(lines.last().contains(lines.last()[i]));
            }
            assert(splits_into(framed(lines).take(n), lines.take(k), tail));
        }
    }
}

// ── group commit ─────────────────────────────────────────────────────────────
/// A commit is due after this many completed files,
pub const COMMIT_FILES: usize = 512;

/// or this many of their bytes,
pub const COMMIT_BYTES: u64 = 67_108_864;

/// or this many milliseconds.
pub const COMMIT_INTERVAL_MS: u64 = 500;

/// Records accepted but not yet durable.
pub struct Journal {
    pending: Vec<u8>,
    files_since_commit: usize,
    bytes_since_commit: u64,
}

/// Sum that stays at the largest representable value once it gets there.
pub open spec fn sat_add(a: int, b: int) -> int {
    if a + b > u64::MAX {
        u64::MAX as int
    } else {
        a + b
    }
}

/// How many finished files wait, with this record among them.
pub open spec fn files_since(files: usize, rec: RecordView) -> usize {
    if rec is FileDone && files < usize::MAX {
        (files + 1) as usize
    } else {
        files
    }
}

/// How many of their bytes.
pub open spec fn bytes_since(bytes: u64, rec: RecordView) -> int {
    match rec {
        RecordView::FileDone { size, .. } => sat_add(bytes as int, size as int),
        _ => bytes as int,
    }
}

impl Journal {
    /// The bytes that the next commit has to write.
    pub closed spec fn pending(&self) -> Seq<u8> {
        self.pending@
    }

    /// Files completed since the last commit.
    pub closed spec fn files(&self) -> usize {
        self.files_since_commit
    }

    /// Their total size.
    pub closed spec fn bytes(&self) -> u64 {
        self.bytes_since_commit
    }

    /// An empty buffer over a journal file that ends in a complete line.
    pub fn create() -> (j: Journal)
        ensures
            j.pending() == Seq::<u8>::empty(),
            j.files() == 0,
            j.bytes() == 0,
    {
        Journal { pending: Vec::new(), files_since_commit: 0, bytes_since_commit: 0 }
    }

    /// Buffers one record, given its line without the newline. Not durable until committed.
    pub fn append(&mut self, line: &[u8], rec: &Record)
        ensures
            final(self).pending() == old(self).pending() + line@.push(NEWLINE),
            final(self).files() == files_since(old(self).files(), rec@),
            final(self).bytes() == bytes_since(old(self).bytes(), rec@),
    {
        let ghost before = self.pending@;
        self.pending.extend_from_slice(line);
        self.pending.push(NEWLINE);
        assert(self.pending@ =~= before + line@.push(NEWLINE));
        if let Record::FileDone { size, .. } = rec {
            self.files_since_commit = self.files_since_commit.saturating_add(1);
            self.bytes_since_commit = self.bytes_since_commit.saturating_add(*size);
        }
    }

    /// True once any threshold is reached; `elapsed_ms` is the time since the last commit.
    pub fn should_commit(&self, elapsed_ms: u64) -> (r: bool)
        ensures
            r == (self.files() >= COMMIT_FILES || self.bytes() >= COMMIT_BYTES || elapsed_ms
                >= COMMIT_INTERVAL_MS),
            r <==> self.files() >= 512 || self.bytes() >= 64 * 1024 * 1024 || elapsed_ms >= 500,
    {
        self.files_since_commit >= COMMIT_FILES || self.bytes_since_commit >= COMMIT_BYTES
            || elapsed_ms >= COMMIT_INTERVAL_MS
    }

    /// The bytes to write at the end of the journal file and to make durable. They stay
    /// pending until that is confirmed, so a commit that failed is made up for by the next.
    pub fn commit(&self) -> (out: Vec<u8>)
        ensures
            out@ == self.pending(),
    {
        path::clone_name(&self.pending)
    }

    /// Everything pending is durable.
    pub fn committed(&mut self)
        ensures
            final(self).pending() == Seq::<u8>::empty(),
            final(self).files() == 0,
            final(self).bytes() == 0,
    {
        self.pending = Vec::new();
        self.files_since_commit = 0;
        self.bytes_since_commit = 0;
        assert(self.pending@ =~= Seq::empty());
    }

    /// One record and everything buffered before it, to be written and made durable now, and
    /// confirmed like any commit.
    pub fn append_and_commit(&mut self, line: &[u8], rec: &Record) -> (out: Vec<u8>)
        ensures
            out@ == old(self).pending() + line@.push(NEWLINE),
            final(self).pending() == old(self).pending() + line@.push(NEWLINE),
            final(self).files() == files_since(old(self).files(), rec@),
            final(self).bytes() == bytes_since(old(self).bytes(), rec@),
    {
        self.append(line, rec);
        self.commit()
    }
}

// ── one journal per job, one lock per destination ────────────────────────────
/// How a mode is spelled inside a job key.
pub open spec fn mode_name(mode: Mode) -> Seq<char> {
    match mode {
        Mode::Copy => "Copy"@,
        Mode::Move => "Move"@,
    }
}

/// What tells one job from another: the two places, the mode, and what was selected.
pub open spec fn job_key(
    src: Seq<char>,
    dst: Seq<char>,
    mode: Mode,
    tag: Option<Seq<char>>,
) -> Seq<char> {
    src.push('\0') + dst.push('\0') + mode_name(mode).push('\0') + (match tag {
        Some(t) => t,
        None => Seq::empty(),
    })
}

/// A file name made of the hash of a text.
pub open spec fn hashed_name(key: Seq<char>, suffix: Seq<char>) -> Seq<char> {
    text::hex(hash::xxh3_of(utf8::encode_utf8(key)) as nat, 32) + suffix
}

fn name_from(key: &str, suffix: &str) -> (s: String)
    ensures
        s@ == hashed_name(key@, suffix@),
{
    let mut s = hex128(xxh3_128(key.as_bytes()));
    s.append(suffix);
    s
}

/// The name of a job's journal, from the keys of its source and destination.
pub fn journal_path(src_key: &str, dst_key: &str, mode: Mode, tag: &Option<String>) -> (s: String)
    ensures
        s@ == hashed_name(
            job_key(
                src_key@,
                dst_key@,
                mode,
                match tag {
                    Some(t) => Some(t@),
                    None => None,
                },
            ),
            ".jsonl"@,
        ),
{
    let mut k = String::from_str(src_key);
    k.push('\0');
    k.append(dst_key);
    k.push('\0');
    k.append(
        match mode {
            Mode::Copy => "Copy",
            Mode::Move => "Move",
        },
    );
    k.push('\0');
    if let Some(t) = tag {
        k.append(t.as_str());
    }
    assert(k@ =~= job_key(
        src_key@,
        dst_key@,
        mode,
        match tag {
            Some(t) => Some(t@),
            None => None,
        },
    ));
    name_from(k.as_str(), ".jsonl")
}

/// The name of the lock that keeps a second transfer away from a destination.
pub fn lock_name(dst_key: &str) -> (s: String)
    ensures
        s@ == hashed_name(dst_key@, ".lock"@),
{
    name_from(dst_key, ".lock")
}

proof fn lemma_cut_at_nul(a: Seq<char>, x: Seq<char>, b: Seq<char>, y: Seq<char>)
    requires
        !a.contains('\0'),
        !b.contains('\0'),
        a.push('\0') + x == b.push('\0') + y,
    ensures
        a == b,
        x == y,
{
    let l = a.push('\0') + x;
    let r = b.push('\0') + y;
    if a.len() < b.len() {
        assert(r[a.len() as int] == b[a.len() as int]);
        assert(b.contains(b[a.len() as int]));
    }
    if b.len() < a.len() {
        assert(l[b.len() as int] == a[b.len() as int]);
        assert(a.contains(a[b.len() as int]));
    }
    assert(a =~= l.take(a.len() as int));
    assert(b =~= r.take(a.len() as int));
    assert(x =~= l.skip(a.len() as int + 1));
    assert(y =~= r.skip(a.len() as int + 1));
}

/// Jobs that differ in source, destination, mode or selection never share a key, as long as
/// the places hold no NUL, which no path can.
pub proof fn law_job_keys_tell_jobs_apart(
    src: Seq<char>,
    dst: Seq<char>,
    mode: Mode,
    tag: Seq<char>,
    src2: Seq<char>,
    dst2: Seq<char>,
    mode2: Mode,
    tag2: Seq<char>,
)
    requires
        !src.contains('\0'),
        !dst.contains('\0'),
        !src2.contains('\0'),
        !dst2.contains('\0'),
        job_key(src, dst, mode, Some(tag)) == job_key(src2, dst2, mode2, Some(tag2)),
    ensures
        src == src2,
        dst == dst2,
        mode == mode2,
        tag == tag2,
{
    reveal_strlit("Copy");
    reveal_strlit("Move");
    let m = mode_name(mode);
    let m2 = mode_name(mode2);
    let rest = dst.push('\0') + (m.push('\0') + tag);
    let rest2 = dst2.push('\0') + (m2.push('\0') + tag2);
    assert(job_key(src, dst, mode, Some(tag)) =~= src.push('\0') + rest);
    assert(job_key(src2, dst2, mode2, Some(tag2)) =~= src2.push('\0') + rest2);
    lemma_cut_at_nul(src, rest, src2, rest2);
    lemma_cut_at_nul(dst, m.push('\0') + tag, dst2, m2.push('\0') + tag2);
    lemma_cut_at_nul(m, tag, m2, tag2);
    if mode != mode2 {
        assert("Copy"@[0] == 'C');
        assert("Move"@[0] == 'M');
    }
}

// ── lines worth reading ──────────────────────────────────────────────────────
/// The first `n` lines as text, without those that hold nothing but white space.
pub open spec fn written_lines(lines: Seq<Seq<u8>>, n: int) -> Seq<Seq<char>>
    decreases n,
{
    if n <= 0 {
        Seq::empty()
    } else {
        let l = path::lossy_text(lines[n - 1]);
        if fields::blank(l) {
            written_lines(lines, n - 1)
        } else {
            written_lines(lines, n - 1).push(l)
        }
    }
}

/// The lines of a journal as text, blank ones left out.
pub fn readable_lines(lines: &Vec<Vec<u8>>) -> (r: Vec<String>)
    ensures
        text::texts(r@) == written_lines(byte_lines(lines@), lines@.len() as int),
{
    let ghost all = byte_lines(lines@);
    let mut r: Vec<String> = Vec::new();
    let mut i: usize = 0;
    assert(text::texts(r@) =~= written_lines(all, 0));
    while i < lines.len()
        invariant
            i <= lines.len(),
            all == byte_lines(lines@),
            text::texts(r@) == written_lines(all, i as int),
        decreases lines.len() - i,
    {
        assert(all[i as int] == lines@[i as int]@);
        let l = lossy(lines[i].as_slice());
        let ghost before = r@;
        let ghost lv = l@;
        if !fields::is_blank(chars_of(l.as_str()).as_slice()) {
            r.push(l);
            assert(text::texts(r@) =~= text::texts(before).push(lv));
        }
        i += 1;
    }
    r
}

// ── interrupted transfers ────────────────────────────────────────────────────
/// A transfer that was interrupted: its journal is still there and names the pair.
pub struct Pending {
    pub src: String,
    /// Where the run really wrote, to be used again as it is.
    pub dst: String,
    pub mode: Mode,
    pub files_done: usize,
    pub files_total: usize,
    pub bytes_done: u64,
    pub bytes_total: u64,
    /// Some of the files that are done, to tell whether this is the same drive.
    pub sample: Vec<String>,
    pub names: Vec<String>,
    pub skip_caches: bool,
    pub skip_cloud: bool,
}

#[verifier::ext_equal]
pub struct PendingView {
    pub src: Seq<char>,
    pub dst: Seq<char>,
    pub mode: Mode,
    pub files_done: nat,
    pub files_total: usize,
    pub bytes_done: u64,
    pub bytes_total: u64,
    pub sample: Seq<Seq<char>>,
    pub names: Seq<Seq<char>>,
    pub skip_caches: bool,
    pub skip_cloud: bool,
}

impl View for Pending {
    type V = PendingView;

    open spec fn view(&self) -> PendingView {
        PendingView {
            src: self.src@,
            dst: self.dst@,
            mode: self.mode,
            files_done: self.files_done as nat,
            files_total: self.files_total,
            bytes_done: self.bytes_done,
            bytes_total: self.bytes_total,
            sample: text::texts(self.sample@),
            names: text::texts(self.names@),
            skip_caches: self.skip_caches,
            skip_cloud: self.skip_cloud,
        }
    }
}

/// How many finished files are kept as a sample.
pub const SAMPLE: usize = 20;

/// The bytes of the first `n` finished files.
pub open spec fn done_bytes(r: ResumeView, n: int) -> nat
    decreases n,
{
    if n <= 0 {
        0
    } else {
        done_bytes(r, n - 1) + r.done[r.order[n - 1]].size as nat
    }
}

/// The transfer that a journal still owes. One that is complete, or that names no pair, owes
/// none.
pub open spec fn owed(r: ResumeView) -> Option<PendingView> {
    match r.session {
        Some(s) => if r.complete {
            None
        } else {
            Some(
                PendingView {
                    src: s.src,
                    dst: s.dst,
                    mode: s.mode,
                    files_done: r.order.len(),
                    files_total: r.session_files,
                    bytes_done: scan::clamp(done_bytes(r, r.order.len() as int)),
                    bytes_total: r.session_bytes,
                    sample: if r.order.len() <= SAMPLE {
                        r.order
                    } else {
                        r.order.take(SAMPLE as int)
                    },
                    names: r.session_names,
                    skip_caches: r.session_skip_caches,
                    skip_cloud: r.session_skip_cloud,
                },
            )
        },
        None => None,
    }
}

fn copy_texts(v: &Vec<String>, n: usize) -> (r: Vec<String>)
    requires
        n <= v.len(),
    ensures
        text::texts(r@) == text::texts(v@).take(n as int),
{
    let mut r: Vec<String> = Vec::new();
    let mut i: usize = 0;
    assert(text::texts(r@) =~= text::texts(v@).take(0));
    while i < n
        invariant
            i <= n <= v.len(),
            text::texts(r@) == text::texts(v@).take(i as int),
        decreases n - i,
    {
        let ghost before = text::texts(r@);
        r.push(v[i].clone());
        assert(text::texts(r@) =~= before.push(v@[i as int]@));
        assert(text::texts(v@).take(i + 1) =~= text::texts(v@).take(i as int).push(
            v@[i as int]@,
        ));
        i += 1;
    }
    r
}

impl Pending {
    pub fn of(st: &ResumeState) -> (r: Option<Pending>)
        requires
            st@.wf(),
        ensures
            match owed(st@) {
                Some(p) => r is Some && r->0@ == p,
                None => r is None,
            },
    {
        if st.complete {
            return None;
        }
        let s = match &st.session {
            Some(s) => s,
            None => {
                return None;
            },
        };
        let mut bytes: u64 = 0;
        let mut i: usize = 0;
        while i < st.order.len()
            invariant
                i <= st.order.len(),
                st@.wf(),
                bytes == scan::clamp(done_bytes(st@, i as int)),
            decreases st.order.len() - i,
        {
            assert(st@.order[i as int] == st.order@[i as int]@);
            assert(st@.order.contains(st@.order[i as int]));
            assert(st@.done.dom().contains(st@.order[i as int]));
            if let Some(d) = st.done.get(st.order[i].as_str()) {
                assert(st@.done[st@.order[i as int]] == d@);
                bytes = if d.size > u64::MAX - bytes {
                    u64::MAX
                } else {
                    bytes + d.size
                };
            }
            i += 1;
        }
        let n = st.order.len();
        let few: usize = if n <= SAMPLE {
            n
        } else {
            SAMPLE
        };
        let sample = copy_texts(&st.order, few);
        assert(st@.order.take(st@.order.len() as int) =~= st@.order);
        let names = copy_texts(&st.session_names, st.session_names.len());
        assert(st@.session_names.take(st@.session_names.len() as int) =~= st@.session_names);
        Some(
            Pending {
                src: s.src.clone(),
                dst: s.dst.clone(),
                mode: s.mode,
                files_done: n,
                files_total: st.session_files,
                bytes_done: bytes,
                bytes_total: st.session_bytes,
                sample,
                names,
                skip_caches: st.session_skip_caches,
                skip_cloud: st.session_skip_cloud,
            },
        )
    }
}

/// A moment, the later the earlier it stands.
struct Latest {
    at: i128,
}

impl Ranked for Latest {
    closed spec fn before(&self, other: &Self) -> bool {
        self.at > other.at
    }

    proof fn law_irreflexive(x: &Self) {
    }

    proof fn law_transitive(x: &Self, y: &Self, z: &Self) {
    }

    proof fn law_ties(x: &Self, y: &Self, z: &Self) {
    }

    fn is_before(&self, other: &Self) -> (r: bool) {
        self.at > other.at
    }
}

/// These positions go through all moments, the latest first, equal ones as they came.
pub open spec fn latest_first(times: Seq<i128>, p: Seq<usize>) -> bool {
    &&& p.len() == times.len()
    &&& forall|k: int| 0 <= k < p.len() ==> (#[trigger] p[k]) < times.len()
    &&& forall|a: int, b: int|
        #![trigger p[a], p[b]]
        0 <= a < b < p.len() ==> times[p[a] as int] > times[p[b] as int] || (times[p[a] as int]
            == times[p[b] as int] && p[a] < p[b])
}

/// The interrupted transfers, the most recent first; `times` are those of their journals.
pub fn pending(found: Vec<Pending>, times: &Vec<i128>) -> (r: Vec<Pending>)
    requires
        found@.len() == times@.len(),
    ensures
        exists|p: Seq<usize>| #[trigger]
            latest_first(times@, p) && r@ == sort::picked(found@, p),
{
    let mut ranks: Vec<Latest> = Vec::new();
    let mut i: usize = 0;
    while i < times.len()
        invariant
            i <= times.len(),
            ranks@.len() == i,
            forall|k: int| 0 <= k < i ==> (#[trigger] ranks@[k]).at == times@[k],
        decreases times.len() - i,
    {
        ranks.push(Latest { at: times[i] });
        i += 1;
    }
    let p = sorted_positions(&ranks);
    proof {
        assert forall|a: int, b: int|
            #![trigger p@[a], p@[b]]
            0 <= a < b < p@.len() implies times@[p@[a] as int] > times@[p@[b] as int] || (
        times@[p@[a] as int] == times@[p@[b] as int] && p@[a] < p@[b]) by {
            assert(sort::precedes(ranks@, p@[a] as int, p@[b] as int));
            assert(ranks@[p@[a] as int].at == times@[p@[a] as int]);
            assert(ranks@[p@[b] as int].at == times@[p@[b] as int]);
        }
        assert(latest_first(times@, p@));
    }
    reorder(found, &p)
}

/// A journal that recorded its own completion is never offered again.
pub proof fn law_a_finished_transfer_owes_nothing(lines: Seq<Option<RecordView>>, t: int)
    requires
        0 <= t < lines.len(),
        lines[t] == Some(RecordView::Complete),
    ensures
        owed(ResumeView::of(lines)) is None,
{
    lemma_completion_stays(lines, t);
}

proof fn lemma_completion_stays(lines: Seq<Option<RecordView>>, t: int)
    requires
        0 <= t < lines.len(),
        lines[t] == Some(RecordView::Complete),
    ensures
        ResumeView::of(lines).complete,
    decreases lines.len(),
{
    if t < lines.len() - 1 {
        lemma_completion_stays(lines.drop_last(), t);
    }
}

/// A transfer that was begun and did not record its completion is offered again, as its last
/// session line describes it.
pub proof fn law_an_unfinished_transfer_is_owed(lines: Seq<Option<RecordView>>, t: int)
    requires
        0 <= t < lines.len(),
        lines[t] matches Some(RecordView::Session { .. }),
        forall|u: int|
            t < u < lines.len() ==> !(#[trigger] lines[u] matches Some(
                RecordView::Session { .. },
            )),
        forall|u: int|
            0 <= u < lines.len() ==> #[trigger] lines[u] != Some(RecordView::Complete),
    ensures
        owed(ResumeView::of(lines)) matches Some(p) && lines[t] == Some(
            RecordView::Session {
                v: lines[t]->0->v,
                src: p.src,
                dst: p.dst,
                mode: p.mode,
                files: p.files_total,
                bytes: p.bytes_total,
                names: p.names,
                skip_caches: p.skip_caches,
                skip_cloud: p.skip_cloud,
            },
        ),
{
    lemma_session_stays(lines, t);
}

proof fn lemma_session_stays(lines: Seq<Option<RecordView>>, t: int)
    requires
        0 <= t < lines.len(),
        lines[t] matches Some(RecordView::Session { .. }),
        forall|u: int|
            t < u < lines.len() ==> !(#[trigger] lines[u] matches Some(
                RecordView::Session { .. },
            )),
        forall|u: int|
            0 <= u < lines.len() ==> #[trigger] lines[u] != Some(RecordView::Complete),
    ensures
        ({
            let r = ResumeView::of(lines);
            &&& !r.complete
            &&& r.session is Some
            &&& lines[t] == Some(
                RecordView::Session {
                    v: lines[t]->0->v,
                    src: r.session->0.src,
                    dst: r.session->0.dst,
                    mode: r.session->0.mode,
                    files: r.session_files,
                    bytes: r.session_bytes,
                    names: r.session_names,
                    skip_caches: r.session_skip_caches,
                    skip_cloud: r.session_skip_cloud,
                },
            )
        }),
    decreases lines.len(),
{
    let before = lines.drop_last();
    assert forall|u: int| 0 <= u < before.len() implies #[trigger] before[u] != Some(
        RecordView::Complete,
    ) by {
        assert(before[u] == lines[u]);
    }
    lemma_not_complete(before);
    assert(lines[lines.len() - 1] == lines.last());
    if t < lines.len() - 1 {
        assert forall|u: int| t < u < before.len() implies !(#[trigger] before[u] matches Some(
            RecordView::Session { .. },
        )) by {
            assert(before[u] == lines[u]);
        }
        lemma_session_stays(before, t);
    }
}

proof fn lemma_not_complete(lines: Seq<Option<RecordView>>)
    requires
        forall|u: int|
            0 <= u < lines.len() ==> #[trigger] lines[u] != Some(RecordView::Complete),
    ensures
        !ResumeView::of(lines).complete,
    decreases lines.len(),
{
    if lines.len() > 0 {
        let before = lines.drop_last();
        assert forall|u: int| 0 <= u < before.len() implies #[trigger] before[u] != Some(
            RecordView::Complete,
        ) by {
            assert(before[u] == lines[u]);
        }
        lemma_not_complete(before);
        assert(lines[lines.len() - 1] == lines.last());
    }
}

/// The line records this file as done.
pub open spec fn records_done(line: Option<RecordView>, rel: Seq<char>) -> bool {
    line matches Some(RecordView::FileDone { rel: r, .. }) && r == rel
}

/// A file once recorded as done is remembered, whatever was recorded after it, and as its
/// last record says.
pub proof fn law_a_recorded_file_is_remembered(
    lines: Seq<Option<RecordView>>,
    t: int,
    rel: Seq<char>,
    done: DoneView,
)
    requires
        0 <= t < lines.len(),
        lines[t] == Some(
            RecordView::FileDone {
                rel,
                size: done.size,
                mtime: done.mtime,
                mtime_ns: done.mtime_ns,
                hash: done.hash,
            },
        ),
        forall|u: int| t < u < lines.len() ==> !records_done(#[trigger] lines[u], rel),
    ensures
        ResumeView::of(lines).done.dom().contains(rel),
        ResumeView::of(lines).done[rel] == done,
    decreases lines.len(),
{
    if t < lines.len() - 1 {
        let before = lines.drop_last();
        assert forall|u: int| t < u < before.len() implies !records_done(
            #[trigger] before[u],
            rel,
        ) by {
            assert(before[u] == lines[u]);
        }
        law_a_recorded_file_is_remembered(before, t, rel, done);
        assert(!records_done(lines[lines.len() - 1], rel));
    }
}

// ── the history ──────────────────────────────────────────────────────────────
/// From how many entries on the history is cut.
pub const HISTORY_MOST: usize = 1000;

/// How many of the old entries a cut keeps.
pub const HISTORY_KEEP: usize = 499;

/// The entry from which a history of `count` entries is kept when one more is added; nothing is
/// cut from a short one.
pub fn history_keep_from(count: usize) -> (r: Option<usize>)
    ensures
        r == (if count >= HISTORY_MOST {
            Some((count - HISTORY_KEEP) as usize)
        } else {
            None
        }),
        r is Some <==> count >= 1000,
        r matches Some(k) ==> count - k + 1 == 500,
        count - (if r is Some {
            r->0
        } else {
            0
        }) + 1 == history_len_after(count as nat),
{
    if count >= HISTORY_MOST {
        Some(count - HISTORY_KEEP)
    } else {
        None
    }
}

/// How many entries there are once one was added to `count`.
pub open spec fn history_len_after(count: nat) -> nat {
    if count >= HISTORY_MOST {
        (HISTORY_KEEP + 1) as nat
    } else {
        count + 1
    }
}

/// However many runs are recorded, the history never grows past its bound.
pub proof fn law_the_history_stays_small(count: nat)
    requires
        count <= HISTORY_MOST,
    ensures
        history_len_after(count) <= HISTORY_MOST,
{
}

} // verus!
