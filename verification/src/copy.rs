//! Copying one file: a decision procedure that says what to do next and is told how it went.
//!
//! The source is read from its first byte whatever happened before, so that its hash is a
//! true hash of the source; bytes below the resume point are read and not written again. A
//! checkpoint is recorded only behind a successful flush of everything it covers.

use crate::hash;
use crate::journal::{CkptView, PartialView, Record, RecordView, ResumeView};
use crate::text;
use crate::text::hex128;
use vstd::prelude::*;
use xxhash_rust::xxh3::Xxh3;

verus! {

/// How much is read at once.
pub const CHUNK: usize = 8_388_608;

/// How many chunks may wait between reader and writer.
pub const RING: usize = 4;

/// Distance between checkpoints of a file in flight.
pub const CHECKPOINT_EVERY: u64 = 67_108_864;

#[derive(Clone, Copy, PartialEq, Eq, Structural, Debug)]
pub enum CopyStage {
    /// Waiting for the next chunk of the source.
    Receive,
    /// The rest of the current chunk is being written.
    Write,
    /// A checkpoint is due: what was written is being flushed,
    Sync,
    /// and then recorded.
    Record,
    /// Stopped on request: what was written is being flushed,
    StopSync,
    /// and recorded if there is anything since the last checkpoint.
    StopRecord,
    /// The source is exhausted: the last bytes are being flushed.
    EndSync,
    Finished,
    Stopped,
    Failed,
}

/// What the copy needs done next.
pub enum CopyAsk {
    /// Look at the stop flag; if it is not raised, take the next chunk.
    Receive,
    /// Write the current chunk from this index on.
    Write(usize),
    /// Flush everything written so far.
    Sync,
    /// Append this record to the journal and make it durable.
    Record(Record),
    /// The whole source is on the destination. Its hash, and the bytes written.
    Finished(u128, u64),
    /// Stopped at a recorded point. The bytes written.
    Stopped(u64),
    Failed(String),
}

/// How it went.
pub enum CopyAnswer {
    /// The stop flag was raised.
    Cancelled,
    Chunk(Vec<u8>),
    /// The source is exhausted; this is the hash of all of it.
    End(u128),
    Failed(String),
    Done,
}

#[verifier::ext_equal]
pub enum CopyAskView {
    Receive,
    Write(int),
    Sync,
    Record(RecordView),
    Finished(u128, int),
    Stopped(int),
    Failed(Seq<char>),
}

#[verifier::ext_equal]
pub enum CopyAnswerView {
    Cancelled,
    Chunk(Seq<u8>),
    End(u128),
    Failed(Seq<char>),
    Done,
}

impl View for CopyAsk {
    type V = CopyAskView;

    open spec fn view(&self) -> CopyAskView {
        match *self {
            CopyAsk::Receive => CopyAskView::Receive,
            CopyAsk::Write(from) => CopyAskView::Write(from as int),
            CopyAsk::Sync => CopyAskView::Sync,
            CopyAsk::Record(r) => CopyAskView::Record(r@),
            CopyAsk::Finished(h, n) => CopyAskView::Finished(h, n as int),
            CopyAsk::Stopped(n) => CopyAskView::Stopped(n as int),
            CopyAsk::Failed(e) => CopyAskView::Failed(e@),
        }
    }
}

impl View for CopyAnswer {
    type V = CopyAnswerView;

    open spec fn view(&self) -> CopyAnswerView {
        match *self {
            CopyAnswer::Cancelled => CopyAnswerView::Cancelled,
            CopyAnswer::Chunk(c) => CopyAnswerView::Chunk(c@),
            CopyAnswer::End(h) => CopyAnswerView::End(h),
            CopyAnswer::Failed(e) => CopyAnswerView::Failed(e@),
            CopyAnswer::Done => CopyAnswerView::Done,
        }
    }
}

/// One file being copied.
pub struct Copier {
    stage: CopyStage,
    rel: String,
    src_size: u64,
    src_mtime: i64,
    resume_from: u64,
    pos: u64,
    written: u64,
    last_ckpt: u64,
    span: Xxh3,
    span_len: u64,
    chunk: Vec<u8>,
    hash: u128,
    error: String,
}

/// A copy in flight, in mathematical terms.
#[verifier::ext_equal]
pub struct CopyView {
    pub stage: CopyStage,
    /// Key of the file in the journal.
    pub rel: Seq<char>,
    /// Identity of the source when the copy began.
    pub src_size: u64,
    pub src_mtime: i64,
    /// Destination bytes below this offset were already durable.
    pub resume: int,
    /// Source bytes taken so far.
    pub pos: int,
    /// Destination bytes written so far.
    pub written: int,
    /// Offset of the newest checkpoint.
    pub last: int,
    /// What was written since the newest checkpoint.
    pub span: Seq<u8>,
    /// The chunk at hand.
    pub chunk: Seq<u8>,
    pub hash: u128,
    pub error: Seq<char>,
}

impl CopyView {
    pub open spec fn begin(
        rel: Seq<char>,
        resume: int,
        src_size: u64,
        src_mtime: i64,
    ) -> CopyView {
        CopyView {
            stage: CopyStage::Receive,
            rel,
            src_size,
            src_mtime,
            resume,
            pos: 0,
            written: 0,
            last: resume,
            span: Seq::empty(),
            chunk: Seq::empty(),
            hash: 0,
            error: Seq::empty(),
        }
    }

    /// The destination offset reached.
    pub open spec fn reach(self) -> int {
        if self.pos > self.resume {
            self.pos
        } else {
            self.resume
        }
    }

    /// Where in the current chunk the bytes not yet on the destination start.
    pub open spec fn from(self) -> int {
        if self.pos >= self.resume {
            0
        } else {
            self.resume - self.pos
        }
    }

    /// The checkpoint that covers everything written since the newest one.
    pub open spec fn checkpoint(self) -> RecordView {
        RecordView::Checkpoint {
            rel: self.rel,
            off: (self.resume + self.written) as u64,
            span: self.span.len() as u64,
            span_hash: text::hex(hash::xxh3_digest(self.span) as nat, 32),
            src_size: self.src_size,
            src_mtime: self.src_mtime,
        }
    }

    /// A chunk of this length still fits the largest offset there is.
    pub open spec fn room(self, len: int) -> bool {
        self.pos + len <= u64::MAX
    }

    pub open spec fn wf(self) -> bool {
        &&& 0 <= self.pos <= u64::MAX
        &&& 0 <= self.resume <= self.last <= u64::MAX
        &&& self.written == self.reach() - self.resume
        &&& self.last + self.span.len() == self.reach()
        &&& self.stage is Write ==> {
            &&& self.pos + self.chunk.len() <= u64::MAX
            &&& self.pos + self.chunk.len() > self.resume
            &&& self.chunk.len() <= usize::MAX
        }
    }

    /// What has to be done next.
    pub open spec fn ask(self) -> CopyAskView {
        match self.stage {
            CopyStage::Receive => CopyAskView::Receive,
            CopyStage::Write => CopyAskView::Write(self.from()),
            CopyStage::Sync | CopyStage::StopSync | CopyStage::EndSync => CopyAskView::Sync,
            CopyStage::Record | CopyStage::StopRecord => CopyAskView::Record(self.checkpoint()),
            CopyStage::Finished => CopyAskView::Finished(self.hash, self.written),
            CopyStage::Stopped => CopyAskView::Stopped(self.written),
            CopyStage::Failed => CopyAskView::Failed(self.error),
        }
    }

    /// Whether this is an answer to what was asked.
    pub open spec fn fits(self, a: CopyAnswerView) -> bool {
        match self.stage {
            CopyStage::Receive => !(a is Done),
            CopyStage::Finished | CopyStage::Stopped | CopyStage::Failed => false,
            _ => a is Done || a is Failed,
        }
    }

    /// The current chunk is on the destination.
    pub open spec fn wrote(self) -> CopyView {
        let payload = self.chunk.skip(self.from());
        let pos = self.pos + self.chunk.len();
        CopyView {
            stage: if pos - self.last >= CHECKPOINT_EVERY {
                CopyStage::Sync
            } else {
                CopyStage::Receive
            },
            pos,
            written: self.written + payload.len(),
            span: self.span + payload,
            ..self
        }
    }

    /// What an answer leads to. One that does not fit changes nothing.
    pub open spec fn step(self, a: CopyAnswerView) -> CopyView {
        if !self.fits(a) {
            self
        } else {
            match a {
                CopyAnswerView::Failed(e) => CopyView {
                    stage: CopyStage::Failed,
                    error: e,
                    ..self
                },
                CopyAnswerView::Cancelled => CopyView { stage: CopyStage::StopSync, ..self },
                CopyAnswerView::End(h) => CopyView {
                    stage: CopyStage::EndSync,
                    hash: h,
                    ..self
                },
                CopyAnswerView::Chunk(c) => if self.pos + c.len() <= self.resume {
                    CopyView { pos: self.pos + c.len(), ..self }
                } else {
                    CopyView { stage: CopyStage::Write, chunk: c, ..self }
                },
                CopyAnswerView::Done => match self.stage {
                    CopyStage::Write => self.wrote(),
                    CopyStage::Sync => CopyView { stage: CopyStage::Record, ..self },
                    CopyStage::Record => CopyView {
                        stage: CopyStage::Receive,
                        last: self.resume + self.written,
                        span: Seq::empty(),
                        ..self
                    },
                    CopyStage::StopSync => CopyView {
                        stage: if self.span.len() > 0 {
                            CopyStage::StopRecord
                        } else {
                            CopyStage::Stopped
                        },
                        ..self
                    },
                    CopyStage::StopRecord => CopyView { stage: CopyStage::Stopped, ..self },
                    CopyStage::EndSync => CopyView { stage: CopyStage::Finished, ..self },
                    _ => self,
                },
            }
        }
    }
}

impl View for Copier {
    type V = CopyView;

    closed spec fn view(&self) -> CopyView {
        CopyView {
            stage: self.stage,
            rel: self.rel@,
            src_size: self.src_size,
            src_mtime: self.src_mtime,
            resume: self.resume_from as int,
            pos: self.pos as int,
            written: self.written as int,
            last: self.last_ckpt as int,
            span: hash::fed(self.span),
            chunk: self.chunk@,
            hash: self.hash,
            error: self.error@,
        }
    }
}

impl Copier {
    pub closed spec fn wf(&self) -> bool {
        &&& self@.wf()
        &&& self.span_len == hash::fed(self.span).len()
    }

    /// A copy of the file `rel` that keeps the first `resume_from` destination bytes.
    pub fn begin(rel: String, resume_from: u64, src_size: u64, src_mtime: i64) -> (c: Copier)
        ensures
            c@ == CopyView::begin(rel@, resume_from as int, src_size, src_mtime),
            c.wf(),
    {
        Copier {
            stage: CopyStage::Receive,
            rel,
            src_size,
            src_mtime,
            resume_from,
            pos: 0,
            written: 0,
            last_ckpt: resume_from,
            span: Xxh3::new(),
            span_len: 0,
            chunk: Vec::new(),
            hash: 0,
            error: String::new(),
        }
    }

    /// The chunk at hand.
    pub fn chunk(&self) -> (c: &[u8])
        ensures
            c@ == self@.chunk,
    {
        self.chunk.as_slice()
    }

    /// Whether a chunk of this length still fits the largest offset there is.
    pub fn has_room(&self, len: usize) -> (r: bool)
        ensures
            r == self@.room(len as int),
    {
        len as u64 <= u64::MAX - self.pos
    }

    /// What has to be done next.
    pub fn ask(&self) -> (q: CopyAsk)
        requires
            self.wf(),
        ensures
            q@ == self@.ask(),
    {
        match self.stage {
            CopyStage::Receive => CopyAsk::Receive,
            CopyStage::Write => {
                let from: u64 = if self.pos >= self.resume_from {
                    0
                } else {
                    self.resume_from - self.pos
                };
                CopyAsk::Write(from as usize)
            },
            CopyStage::Sync | CopyStage::StopSync | CopyStage::EndSync => CopyAsk::Sync,
            CopyStage::Record | CopyStage::StopRecord => CopyAsk::Record(
                Record::Checkpoint {
                    rel: self.rel.clone(),
                    off: self.resume_from + self.written,
                    span: self.span_len,
                    span_hash: hex128(self.span.digest128()),
                    src_size: self.src_size,
                    src_mtime: self.src_mtime,
                },
            ),
            CopyStage::Finished => CopyAsk::Finished(self.hash, self.written),
            CopyStage::Stopped => CopyAsk::Stopped(self.written),
            CopyStage::Failed => CopyAsk::Failed(self.error.clone()),
        }
    }

    /// Takes an answer; returns how many bytes have just been written.
    #[verifier::spinoff_prover]
    pub fn answer(&mut self, a: CopyAnswer) -> (fresh: u64)
        requires
            old(self).wf(),
            a@ matches CopyAnswerView::Chunk(c) ==> old(self)@.pos + c.len() <= u64::MAX,
        ensures
            final(self).wf(),
            final(self)@ == old(self)@.step(a@),
            fresh == final(self)@.written - old(self)@.written,
    {
        match self.stage {
            CopyStage::Receive => match a {
                CopyAnswer::Cancelled => {
                    self.stage = CopyStage::StopSync;
                },
                CopyAnswer::End(h) => {
                    self.hash = h;
                    self.stage = CopyStage::EndSync;
                },
                CopyAnswer::Failed(e) => {
                    self.error = e;
                    self.stage = CopyStage::Failed;
                },
                CopyAnswer::Chunk(c) => {
                    let end = self.pos + c.len() as u64;
                    if end <= self.resume_from {
                        self.pos = end;
                    } else {
                        self.chunk = c;
                        self.stage = CopyStage::Write;
                    }
                },
                CopyAnswer::Done => {},
            },
            CopyStage::Finished | CopyStage::Stopped | CopyStage::Failed => {},
            _ => match a {
                CopyAnswer::Failed(e) => {
                    self.error = e;
                    self.stage = CopyStage::Failed;
                },
                CopyAnswer::Done => {
                    return self.done();
                },
                _ => {},
            },
        }
        0
    }

    #[verifier::spinoff_prover]
    fn done(&mut self) -> (fresh: u64)
        requires
            old(self).wf(),
            old(self)@.fits(CopyAnswerView::Done),
        ensures
            final(self).wf(),
            final(self)@ == old(self)@.step(CopyAnswerView::Done),
            fresh == final(self)@.written - old(self)@.written,
    {
        match self.stage {
            CopyStage::Write => {
                let from: u64 = if self.pos >= self.resume_from {
                    0
                } else {
                    self.resume_from - self.pos
                };
                let payload = vstd::slice::slice_subrange(
                    self.chunk.as_slice(),
                    from as usize,
                    self.chunk.len(),
                );
                assert(payload@ =~= self.chunk@.skip(from as int));
                let fresh = payload.len() as u64;
                self.span.update(payload);
                self.span_len = self.span_len + fresh;
                self.written = self.written + fresh;
                self.pos = self.pos + self.chunk.len() as u64;
                self.stage = if self.pos - self.last_ckpt >= CHECKPOINT_EVERY {
                    CopyStage::Sync
                } else {
                    CopyStage::Receive
                };
                fresh
            },
            CopyStage::Sync => {
                self.stage = CopyStage::Record;
                0
            },
            CopyStage::Record => {
                self.last_ckpt = self.resume_from + self.written;
                self.span = Xxh3::new();
                self.span_len = 0;
                self.stage = CopyStage::Receive;
                0
            },
            CopyStage::StopSync => {
                self.stage = if self.span_len > 0 {
                    CopyStage::StopRecord
                } else {
                    CopyStage::Stopped
                };
                0
            },
            CopyStage::StopRecord => {
                self.stage = CopyStage::Stopped;
                0
            },
            CopyStage::EndSync => {
                self.stage = CopyStage::Finished;
                0
            },
            _ => 0,
        }
    }
}

// ── what a copy guarantees ───────────────────────────────────────────────────
/// A copy together with its effects on the outside.
#[verifier::ext_equal]
pub struct Trail {
    pub at: CopyView,
    /// Destination bytes written, in order.
    pub out: Seq<u8>,
    /// Everything below this destination offset has been flushed.
    pub durable: int,
    /// Records appended to the journal.
    pub records: Seq<RecordView>,
}

impl Trail {
    pub open spec fn next(self, a: CopyAnswerView) -> Trail {
        let went = self.at.fits(a) && a is Done;
        Trail {
            at: self.at.step(a),
            out: if went && self.at.stage is Write {
                self.out + self.at.chunk.skip(self.at.from())
            } else {
                self.out
            },
            durable: if went && self.at.ask() is Sync {
                self.at.reach()
            } else {
                self.durable
            },
            records: if went && self.at.ask() is Record {
                self.records.push(self.at.checkpoint())
            } else {
                self.records
            },
        }
    }

    /// A copy that has been answered all of this.
    pub open spec fn after(start: CopyView, answers: Seq<CopyAnswerView>) -> Trail
        decreases answers.len(),
    {
        if answers.len() == 0 {
            Trail { at: start, out: Seq::empty(), durable: start.resume, records: Seq::empty() }
        } else {
            Trail::after(start, answers.drop_last()).next(answers.last())
        }
    }

    /// What the reader may answer here if it reads the file `source` from the front: the
    /// next chunk, or the hash of the whole once all of it has been handed over.
    pub open spec fn honest(self, source: Seq<u8>, a: CopyAnswerView) -> bool {
        self.at.stage is Receive ==> match a {
            CopyAnswerView::Chunk(c) => self.at.pos + c.len() <= source.len() && c
                == source.subrange(self.at.pos, self.at.pos + c.len()),
            CopyAnswerView::End(h) => self.at.pos == source.len() && h == hash::xxh3_digest(source),
            _ => true,
        }
    }
}

/// All answers are honest about `source`.
pub open spec fn reads(
    source: Seq<u8>,
    start: CopyView,
    answers: Seq<CopyAnswerView>,
) -> bool
    decreases answers.len(),
{
    answers.len() == 0 || (reads(source, start, answers.drop_last()) && Trail::after(
        start,
        answers.drop_last(),
    ).honest(source, answers.last()))
}

/// A checkpoint that covers the source bytes `[from, off)`.
pub open spec fn covers(
    r: RecordView,
    start: CopyView,
    source: Seq<u8>,
    from: int,
    off: int,
) -> bool {
    r == (RecordView::Checkpoint {
        rel: start.rel,
        off: off as u64,
        span: (off - from) as u64,
        span_hash: text::hex(hash::xxh3_digest(source.subrange(from, off)) as nat, 32),
        src_size: start.src_size,
        src_mtime: start.src_mtime,
    })
}

/// The offset a checkpoint vouches for.
pub open spec fn off_of(r: RecordView) -> int {
    match r {
        RecordView::Checkpoint { off, .. } => off as int,
        _ => 0,
    }
}

/// Where the span of the `i`-th checkpoint starts.
pub open spec fn span_start(start: CopyView, records: Seq<RecordView>, i: int) -> int {
    if i == 0 {
        start.resume
    } else {
        off_of(records[i - 1])
    }
}

spec fn trail_inv(t: Trail, start: CopyView, source: Seq<u8>) -> bool {
    &&& t.at.wf()
    &&& t.at.rel == start.rel
    &&& t.at.src_size == start.src_size
    &&& t.at.src_mtime == start.src_mtime
    &&& t.at.resume == start.resume
    &&& t.at.pos <= source.len()
    &&& t.at.reach() <= source.len()
    &&& source.take(t.at.resume) + t.out == source.take(t.at.reach())
    &&& t.at.span == source.subrange(t.at.last, t.at.reach())
    &&& t.at.stage is Write ==> t.at.pos + t.at.chunk.len() <= source.len() && t.at.chunk
        == source.subrange(t.at.pos, t.at.pos + t.at.chunk.len())
    &&& t.at.resume <= t.durable <= t.at.reach()
    &&& t.at.ask() is Record ==> t.durable == t.at.reach()
    &&& t.at.stage is Sync || t.at.ask() is Record ==> t.at.span.len() > 0
    &&& t.at.stage is EndSync || t.at.stage is Finished ==> t.at.pos == source.len() && t.at.hash
        == hash::xxh3_digest(source)
    &&& t.at.stage is Finished ==> t.durable == source.len()
    &&& t.at.stage is Stopped ==> t.durable == t.at.reach()
    &&& forall|i: int|
        #![trigger t.records[i]]
        0 <= i < t.records.len() ==> {
            &&& span_start(start, t.records, i) < off_of(t.records[i]) <= t.durable
            &&& covers(
                t.records[i],
                start,
                source,
                span_start(start, t.records, i),
                off_of(t.records[i]),
            )
        }
    &&& !(t.at.stage is Stopped) ==> t.at.last == span_start(
        start,
        t.records,
        t.records.len() as int,
    )
    &&& t.at.stage is Stopped ==> span_start(start, t.records, t.records.len() as int)
        == t.at.reach()
}

#[verifier::rlimit(60)]
#[verifier::spinoff_prover]
proof fn lemma_trail_step(t: Trail, start: CopyView, source: Seq<u8>, a: CopyAnswerView)
    requires
        trail_inv(t, start, source),
        source.len() <= u64::MAX,
        t.honest(source, a),
        a matches CopyAnswerView::Chunk(c) ==> c.len() <= usize::MAX,
    ensures
        trail_inv(t.next(a), start, source),
{
    let n = t.next(a);
    if !t.at.fits(a) {
        assert(n =~= t);
    } else if a is Done {
        if t.at.stage is Write {
            let payload = t.at.chunk.skip(t.at.from());
            assert(payload =~= source.subrange(t.at.reach(), n.at.reach()));
            assert(source.take(t.at.resume) + n.out =~= source.take(t.at.reach()) + payload);
            assert(source.take(t.at.reach()) + payload =~= source.take(n.at.reach()));
            assert(n.at.span =~= source.subrange(n.at.last, n.at.reach()));
        } else if t.at.ask() is Record {
            let r = t.at.checkpoint();
            let k = t.records.len() as int;
            assert(n.records =~= t.records.push(r));
            assert forall|i: int| 0 <= i < k implies span_start(start, n.records, i)
                == span_start(start, t.records, i) && n.records[i] == t.records[i] by {}
            assert(span_start(start, n.records, k) == t.at.last);
            assert(off_of(n.records[k]) == t.at.reach());
            assert(covers(n.records[k], start, source, t.at.last, t.at.reach()));
            assert forall|i: int|
                #![trigger n.records[i]]
                0 <= i < n.records.len() implies span_start(start, n.records, i) < off_of(
                n.records[i],
            ) <= n.durable && covers(
                n.records[i],
                start,
                source,
                span_start(start, n.records, i),
                off_of(n.records[i]),
            ) by {
                if i < k {
                    assert(n.records[i] == t.records[i]);
                }
            }
            if t.at.stage is Record {
                assert(n.at.span =~= source.subrange(n.at.last, n.at.reach()));
            }
        }
    }
}

proof fn lemma_trail(start: CopyView, source: Seq<u8>, answers: Seq<CopyAnswerView>)
    requires
        0 <= start.resume <= source.len() <= u64::MAX,
        start == CopyView::begin(start.rel, start.resume, start.src_size, start.src_mtime),
        reads(source, start, answers),
        forall|i: int|
            0 <= i < answers.len() ==> (#[trigger] answers[i] matches CopyAnswerView::Chunk(c)
                ==> c.len() <= usize::MAX),
    ensures
        trail_inv(Trail::after(start, answers), start, source),
    decreases answers.len(),
{
    if answers.len() == 0 {
        let t = Trail::after(start, answers);
        assert(source.take(t.at.resume) + t.out =~= source.take(t.at.reach()));
        assert(t.at.span =~= source.subrange(t.at.last, t.at.reach()));
    } else {
        let init = answers.drop_last();
        assert forall|i: int| 0 <= i < init.len() implies (#[trigger] init[i] matches
            CopyAnswerView::Chunk(c) ==> c.len() <= usize::MAX) by {
            assert(init[i] == answers[i]);
        }
        lemma_trail(start, source, init);
        assert(answers[answers.len() - 1] == answers.last());
        lemma_trail_step(Trail::after(start, init), start, source, answers.last());
    }
}

/// A start with the given resume point.
pub open spec fn fresh_start(start: CopyView, source: Seq<u8>) -> bool {
    &&& 0 <= start.resume <= source.len() <= u64::MAX
    &&& start == CopyView::begin(start.rel, start.resume, start.src_size, start.src_mtime)
}

/// Chunks are no longer than memory can hold.
pub open spec fn holdable(answers: Seq<CopyAnswerView>) -> bool {
    forall|i: int|
        0 <= i < answers.len() ==> (#[trigger] answers[i] matches CopyAnswerView::Chunk(c)
            ==> c.len() <= usize::MAX)
}

/// At every moment of a copy, the kept prefix followed by what was written is a prefix of
/// the source: nothing is skipped, repeated or reordered, wherever the copy resumed and
/// however the source was divided into chunks.
#[verifier::spinoff_prover]
pub proof fn law_destination_is_a_prefix_of_the_source(
    start: CopyView,
    source: Seq<u8>,
    answers: Seq<CopyAnswerView>,
)
    requires
        fresh_start(start, source),
        holdable(answers),
        reads(source, start, answers),
    ensures
        ({
            let t = Trail::after(start, answers);
            source.take(start.resume) + t.out == source.take(t.at.reach())
        }),
        Trail::after(start, answers).at.written == Trail::after(start, answers).out.len(),
{
    lemma_trail(start, source, answers);
    let t = Trail::after(start, answers);
    assert((source.take(start.resume) + t.out).len() == source.take(t.at.reach()).len());
}

/// A copy that reports success has put the whole source on the destination, has flushed it,
/// and reports the hash of exactly those bytes.
#[verifier::spinoff_prover]
pub proof fn law_a_finished_copy_is_the_source(
    start: CopyView,
    source: Seq<u8>,
    answers: Seq<CopyAnswerView>,
)
    requires
        fresh_start(start, source),
        holdable(answers),
        reads(source, start, answers),
        Trail::after(start, answers).at.stage is Finished,
    ensures
        source.take(start.resume) + Trail::after(start, answers).out == source,
        Trail::after(start, answers).durable == source.len(),
        Trail::after(start, answers).at.hash == hash::xxh3_digest(source),
{
    lemma_trail(start, source, answers);
    assert(source.take(source.len() as int) =~= source);
}

/// All the bytes told of while the copy was answered so, each step telling what it wrote.
pub open spec fn told(start: CopyView, answers: Seq<CopyAnswerView>) -> int
    decreases answers.len(),
{
    if answers.len() == 0 {
        0
    } else {
        told(start, answers.drop_last()) + (Trail::after(start, answers).at.written
            - Trail::after(start, answers.drop_last()).at.written)
    }
}

/// A copy says that it wrote exactly the bytes it told of, when it is finished and when it is
/// stopped.
#[verifier::spinoff_prover]
pub proof fn law_the_bytes_told_are_the_bytes_written(
    start: CopyView,
    answers: Seq<CopyAnswerView>,
)
    requires
        start.written == 0,
    ensures
        told(start, answers) == Trail::after(start, answers).at.written,
        Trail::after(start, answers).at.ask() matches CopyAskView::Finished(_, n) ==> n == told(
            start,
            answers,
        ),
        Trail::after(start, answers).at.ask() matches CopyAskView::Stopped(n) ==> n == told(
            start,
            answers,
        ),
    decreases answers.len(),
{
    if answers.len() > 0 {
        law_the_bytes_told_are_the_bytes_written(start, answers.drop_last());
    }
}

/// Every checkpoint is recorded behind the flush of the bytes it vouches for, and its hash
/// is that of exactly the destination bytes between the previous checkpoint and its own
/// offset: together the checkpoints cover everything from the resume point on, without gap
/// or overlap.
#[verifier::spinoff_prover]
pub proof fn law_checkpoints_are_behind_the_data(
    start: CopyView,
    source: Seq<u8>,
    answers: Seq<CopyAnswerView>,
    i: int,
)
    requires
        fresh_start(start, source),
        holdable(answers),
        reads(source, start, answers),
        0 <= i < Trail::after(start, answers).records.len(),
    ensures
        ({
            let t = Trail::after(start, answers);
            let from = span_start(start, t.records, i);
            let off = off_of(t.records[i]);
            &&& start.resume <= from < off <= t.durable
            &&& (source.take(start.resume) + t.out).subrange(from, off) == source.subrange(
                from,
                off,
            )
            &&& covers(t.records[i], start, source, from, off)
        }),
{
    lemma_trail(start, source, answers);
    let t = Trail::after(start, answers);
    assert(t.records[i] == t.records[i]);
    lemma_span_start(t, start, source, i);
    let from = span_start(start, t.records, i);
    let off = off_of(t.records[i]);
    assert(source.take(t.at.reach()).subrange(from, off) =~= source.subrange(from, off));
}

#[verifier::spinoff_prover]
proof fn lemma_span_start(t: Trail, start: CopyView, source: Seq<u8>, i: int)
    requires
        trail_inv(t, start, source),
        0 <= i <= t.records.len(),
    ensures
        start.resume <= span_start(start, t.records, i),
    decreases i,
{
    if i > 0 {
        lemma_span_start(t, start, source, i - 1);
        assert(t.records[i - 1] == t.records[i - 1]);
    }
}

/// A copy that was stopped on request left everything it wrote flushed, and the newest
/// checkpoint vouches for all of it.
#[verifier::spinoff_prover]
pub proof fn law_a_stopped_copy_is_recorded(
    start: CopyView,
    source: Seq<u8>,
    answers: Seq<CopyAnswerView>,
)
    requires
        fresh_start(start, source),
        holdable(answers),
        reads(source, start, answers),
        Trail::after(start, answers).at.stage is Stopped,
    ensures
        ({
            let t = Trail::after(start, answers);
            &&& t.durable == start.resume + t.out.len()
            &&& span_start(start, t.records, t.records.len() as int) == start.resume + t.out.len()
        }),
{
    lemma_trail(start, source, answers);
    let t = Trail::after(start, answers);
    assert((source.take(start.resume) + t.out).len() == source.take(t.at.reach()).len());
}

/// The checkpoint a record states.
pub open spec fn ckpt_of(r: RecordView) -> CkptView {
    match r {
        RecordView::Checkpoint { rel, off, span, span_hash, src_size, src_mtime } => CkptView {
            off,
            span,
            span_hash,
            src_size,
            src_mtime,
        },
        _ => arbitrary(),
    }
}

/// A journal state after some more records.
pub open spec fn absorb_all(st: ResumeView, rs: Seq<RecordView>) -> ResumeView
    decreases rs.len(),
{
    if rs.len() == 0 {
        st
    } else {
        absorb_all(st, rs.drop_last()).absorb(Some(rs.last()))
    }
}

/// The checkpoints that records state, in order.
pub open spec fn ckpts(rs: Seq<RecordView>) -> Seq<CkptView> {
    rs.map_values(|r: RecordView| ckpt_of(r))
}

/// The journal holds a chain of this file that ends at this offset.
pub open spec fn chain_ends_at(st: ResumeView, rel: Seq<char>, off: int) -> bool {
    st.partial matches Some(p) && p.rel == rel && p.chain.len() > 0 && p.chain.last().off == off
}

/// What a copy from scratch recorded is read back as one chain: it belongs to the file, it
/// holds every checkpoint in order, and it reaches back to byte zero. What the journal knew
/// before of this file or another makes no difference, except for a chain of the file that
/// ends at byte zero, which none does that covers anything.
#[verifier::spinoff_prover]
pub proof fn law_checkpoints_are_read_back_as_a_chain(
    start: CopyView,
    source: Seq<u8>,
    answers: Seq<CopyAnswerView>,
    before: ResumeView,
)
    requires
        fresh_start(start, source),
        holdable(answers),
        reads(source, start, answers),
        start.resume == 0,
        !chain_ends_at(before, start.rel, 0),
        Trail::after(start, answers).records.len() > 0,
    ensures
        ({
            let rs = Trail::after(start, answers).records;
            let p = absorb_all(before, rs).partial;
            &&& p == Some(PartialView { rel: start.rel, chain: ckpts(rs) })
            &&& p->0.chain[0].off == p->0.chain[0].span
        }),
{
    lemma_trail(start, source, answers);
    let t = Trail::after(start, answers);
    let n = t.records.len() as int;
    let first = t.records.take(1);
    assert(t.records[0] == t.records[0]);
    let one = ckpt_of(t.records[0]);
    assert(first.drop_last() =~= Seq::empty());
    assert(absorb_all(before, first.drop_last()) == before);
    let st = absorb_all(before, first);
    assert(st.partial == Some(PartialView { rel: start.rel, chain: seq![one] }));
    lemma_chain(t, start, source, st, seq![one], 1, n);
    assert(t.records.skip(1).take(n - 1) =~= t.records.skip(1));
    lemma_absorb_split(before, t.records, 1);
    assert(ckpts(t.records) =~= seq![one] + ckpts(t.records.skip(1)));
}

/// What a resumed copy recorded is read back behind the chain it resumed from: the chain
/// still belongs to the file, holds every earlier checkpoint and then every new one, in order.
#[verifier::spinoff_prover]
pub proof fn law_a_resumed_copy_lengthens_its_chain(
    start: CopyView,
    source: Seq<u8>,
    answers: Seq<CopyAnswerView>,
    before: ResumeView,
)
    requires
        fresh_start(start, source),
        holdable(answers),
        reads(source, start, answers),
        chain_ends_at(before, start.rel, start.resume),
    ensures
        ({
            let rs = Trail::after(start, answers).records;
            absorb_all(before, rs).partial == Some(
                PartialView { rel: start.rel, chain: before.partial->0.chain + ckpts(rs) },
            )
        }),
{
    lemma_trail(start, source, answers);
    let t = Trail::after(start, answers);
    let n = t.records.len() as int;
    let old = before.partial->0.chain;
    lemma_chain(t, start, source, before, old, 0, n);
    assert(t.records.skip(0).take(n) =~= t.records);
    assert(before.partial == Some(PartialView { rel: start.rel, chain: old }));
}

proof fn lemma_absorb_split(st: ResumeView, rs: Seq<RecordView>, k: int)
    requires
        0 <= k <= rs.len(),
    ensures
        absorb_all(st, rs) == absorb_all(absorb_all(st, rs.take(k)), rs.skip(k)),
    decreases rs.len() - k,
{
    if k == rs.len() {
        assert(rs.take(k) =~= rs);
    } else {
        let init = rs.drop_last();
        lemma_absorb_split(st, init, k);
        assert(init.take(k) =~= rs.take(k));
        assert(rs.skip(k).drop_last() =~= init.skip(k));
        assert(rs.skip(k).last() == rs.last());
    }
}

/// Where the journal holds a chain that ends where the `from`-th checkpoint begins, the
/// checkpoints from there up to the `to`-th lengthen it.
#[verifier::spinoff_prover]
proof fn lemma_chain(
    t: Trail,
    start: CopyView,
    source: Seq<u8>,
    st: ResumeView,
    chain: Seq<CkptView>,
    from: int,
    to: int,
)
    requires
        trail_inv(t, start, source),
        source.len() <= u64::MAX,
        0 <= from <= to <= t.records.len(),
        st.partial == Some(PartialView { rel: start.rel, chain }),
        chain.len() > 0,
        chain.last().off == span_start(start, t.records, from),
    ensures
        absorb_all(st, t.records.skip(from).take(to - from)).partial == Some(
            PartialView {
                rel: start.rel,
                chain: chain + ckpts(t.records.skip(from).take(to - from)),
            },
        ),
    decreases to - from,
{
    let rs = t.records.skip(from).take(to - from);
    if from == to {
        assert(chain + ckpts(rs) =~= chain);
    } else {
        let init = t.records.skip(from).take(to - 1 - from);
        lemma_chain(t, start, source, st, chain, from, to - 1);
        assert(rs.drop_last() =~= init);
        assert(rs.last() == t.records[to - 1]);
        assert(t.records[to - 1] == t.records[to - 1]);
        lemma_span_start(t, start, source, to - 1);
        let longer = chain + ckpts(init);
        if to - 1 > from {
            assert(t.records[to - 2] == t.records[to - 2]);
            assert(longer.last() == ckpt_of(t.records[to - 2]));
        } else {
            assert(longer =~= chain);
        }
        assert(longer.last().off == span_start(start, t.records, to - 1));
        assert(chain + ckpts(rs) =~= longer.push(ckpt_of(rs.last())));
    }
}

// ── any number of interruptions ──────────────────────────────────────────────
/// A chain that tells the truth about a source: it reaches back to byte zero, its spans
/// adjoin, and each hashes to what the source holds there.
pub open spec fn faithful(chain: Seq<CkptView>, id: CopyView, source: Seq<u8>) -> bool {
    &&& chain.len() > 0
    &&& chain[0].off == chain[0].span
    &&& forall|i: int| 0 <= i < chain.len() ==> true_of(#[trigger] chain[i], id, source)
    &&& forall|i: int|
        #![trigger chain[i]]
        1 <= i < chain.len() ==> chain[i].off - chain[i].span == chain[i - 1].off
}

/// The checkpoint covers bytes of the source, and hashes to them.
pub open spec fn true_of(c: CkptView, id: CopyView, source: Seq<u8>) -> bool {
    &&& 0 < c.span <= c.off <= source.len()
    &&& c.span_hash == text::hex(
        hash::xxh3_digest(source.subrange(c.off - c.span, c.off as int)) as nat,
        32,
    )
    &&& c.src_size == id.src_size
    &&& c.src_mtime == id.src_mtime
}

/// One attempt at a file: where it resumed, and how it was answered until it ended.
pub struct Attempt {
    pub resume: int,
    pub answers: Seq<CopyAnswerView>,
}

impl Attempt {
    pub open spec fn start(self, id: CopyView) -> CopyView {
        CopyView::begin(id.rel, self.resume, id.src_size, id.src_mtime)
    }

    /// It began at the first byte or behind the chain that the journal held of the file, and
    /// read the source.
    pub open spec fn fair(self, id: CopyView, source: Seq<u8>, st: ResumeView) -> bool {
        &&& self.resume == 0 || chain_ends_at(st, id.rel, self.resume)
        &&& holdable(self.answers)
        &&& reads(source, self.start(id), self.answers)
    }
}

/// The journal after a number of attempts, and whether all of them were fair.
pub open spec fn attempted(
    id: CopyView,
    source: Seq<u8>,
    before: ResumeView,
    tries: Seq<Attempt>,
) -> (ResumeView, bool)
    decreases tries.len(),
{
    if tries.len() == 0 {
        (before, true)
    } else {
        let (st, fair) = attempted(id, source, before, tries.drop_last());
        let a = tries.last();
        (
            absorb_all(st, Trail::after(a.start(id), a.answers).records),
            fair && a.fair(id, source, st),
        )
    }
}

/// What the journal knows of the file in flight, if anything, is true.
pub open spec fn truthful(st: ResumeView, id: CopyView, source: Seq<u8>) -> bool {
    st.partial matches Some(p) ==> (p.rel == id.rel ==> faithful(p.chain, id, source))
}

/// However often a file is interrupted and taken up again, the chain that the journal holds
/// of it tells the truth: it reaches back to byte zero without a gap, and every span hashes to
/// the bytes of the source. An attempt that took up the chain keeps all of it.
#[verifier::spinoff_prover]
pub proof fn law_a_chain_survives_every_interruption(
    id: CopyView,
    source: Seq<u8>,
    before: ResumeView,
    tries: Seq<Attempt>,
)
    requires
        source.len() <= u64::MAX,
        before.partial matches Some(p) ==> p.rel != id.rel,
        attempted(id, source, before, tries).1,
    ensures
        truthful(attempted(id, source, before, tries).0, id, source),
        tries.len() > 0 && tries.last().resume > 0 ==> ({
            let st = attempted(id, source, before, tries.drop_last()).0;
            let now = attempted(id, source, before, tries).0;
            now.partial is Some && st.partial->0.chain.is_prefix_of(now.partial->0.chain)
        }),
    decreases tries.len(),
{
    if tries.len() > 0 {
        let init = tries.drop_last();
        law_a_chain_survives_every_interruption(id, source, before, init);
        lemma_attempt(id, source, attempted(id, source, before, init).0, tries.last());
    }
}

#[verifier::spinoff_prover]
proof fn lemma_attempt(id: CopyView, source: Seq<u8>, st: ResumeView, a: Attempt)
    requires
        source.len() <= u64::MAX,
        truthful(st, id, source),
        a.fair(id, source, st),
    ensures
        ({
            let now = absorb_all(st, Trail::after(a.start(id), a.answers).records);
            &&& truthful(now, id, source)
            &&& a.resume > 0 ==> now.partial is Some && st.partial->0.chain.is_prefix_of(
                now.partial->0.chain,
            )
        }),
{
    let start = a.start(id);
    if chain_ends_at(st, id.rel, a.resume) {
        let c = st.partial->0.chain;
        assert(true_of(c[c.len() - 1], id, source));
    }
    assert(fresh_start(start, source));
    lemma_trail(start, source, a.answers);
    let t = Trail::after(start, a.answers);
    let rs = t.records;
    let more = ckpts(rs);
    assert forall|i: int| 0 <= i < more.len() implies true_of(#[trigger] more[i], id, source)
        && more[i].off - more[i].span == span_start(start, rs, i) by {
        assert(rs[i] == rs[i]);
        lemma_span_start(t, start, source, i);
    }
    if a.resume > 0 {
        let c = st.partial->0.chain;
        law_a_resumed_copy_lengthens_its_chain(start, source, a.answers, st);
        let all = c + more;
        assert(c.is_prefix_of(all));
        assert forall|i: int| 0 <= i < all.len() implies true_of(#[trigger] all[i], id, source) by {
            if i < c.len() {
                assert(all[i] == c[i]);
            } else {
                assert(all[i] == more[i - c.len()]);
            }
        }
        assert forall|i: int|
            #![trigger all[i]]
            1 <= i < all.len() implies all[i].off - all[i].span == all[i - 1].off by {
            if i < c.len() {
                assert(all[i] == c[i] && all[i - 1] == c[i - 1]);
            } else {
                assert(all[i] == more[i - c.len()]);
                if i > c.len() {
                    assert(all[i - 1] == more[i - 1 - c.len()]);
                }
            }
        }
        assert(all[0] == c[0]);
    } else if rs.len() > 0 {
        if chain_ends_at(st, id.rel, 0) {
            let c = st.partial->0.chain;
            assert(true_of(c[c.len() - 1], id, source));
        }
        law_checkpoints_are_read_back_as_a_chain(start, source, a.answers, st);
        assert forall|i: int|
            #![trigger more[i]]
            1 <= i < more.len() implies more[i].off - more[i].span == more[i - 1].off by {
            assert(true_of(more[i], id, source));
        }
    }
}

// ── how much a checkpoint covers ─────────────────────────────────────────────
/// The bytes a checkpoint covers.
pub open spec fn span_of(r: RecordView) -> int {
    match r {
        RecordView::Checkpoint { span, .. } => span as int,
        _ => 0,
    }
}

spec fn far_apart(t: Trail) -> bool {
    &&& t.at.stage is Sync || t.at.stage is Record ==> t.at.span.len() >= CHECKPOINT_EVERY
    &&& forall|i: int|
        0 <= i < t.records.len() ==> span_of(#[trigger] t.records[i]) >= CHECKPOINT_EVERY || (i
            == t.records.len() - 1 && t.at.stage is Stopped)
}

/// Checkpoints are far apart: each covers at least the set distance, except the last one of a
/// copy that was stopped.
#[verifier::spinoff_prover]
pub proof fn law_checkpoints_are_far_apart(
    start: CopyView,
    source: Seq<u8>,
    answers: Seq<CopyAnswerView>,
    i: int,
)
    requires
        fresh_start(start, source),
        holdable(answers),
        reads(source, start, answers),
        0 <= i < Trail::after(start, answers).records.len(),
    ensures
        ({
            let t = Trail::after(start, answers);
            span_of(t.records[i]) >= CHECKPOINT_EVERY || (i == t.records.len() - 1 && t.at.stage
                is Stopped)
        }),
{
    lemma_far_apart(start, source, answers);
}

#[verifier::spinoff_prover]
proof fn lemma_far_apart(start: CopyView, source: Seq<u8>, answers: Seq<CopyAnswerView>)
    requires
        fresh_start(start, source),
        holdable(answers),
        reads(source, start, answers),
    ensures
        far_apart(Trail::after(start, answers)),
    decreases answers.len(),
{
    if answers.len() > 0 {
        let init = answers.drop_last();
        assert forall|i: int| 0 <= i < init.len() implies (#[trigger] init[i] matches
            CopyAnswerView::Chunk(c) ==> c.len() <= usize::MAX) by {
            assert(init[i] == answers[i]);
        }
        lemma_far_apart(start, source, init);
        lemma_trail(start, source, init);
        let t = Trail::after(start, init);
        let n = Trail::after(start, answers);
        assert forall|i: int| 0 <= i < n.records.len() implies span_of(#[trigger] n.records[i])
            >= CHECKPOINT_EVERY || (i == n.records.len() - 1 && n.at.stage is Stopped) by {
            if i < t.records.len() {
                assert(n.records[i] == t.records[i]);
            }
        }
    }
}

/// A chunk that was written leads to a checkpoint exactly when 64 mebibytes or more have come
/// since the newest one; otherwise the next chunk is asked for. Either way all of the chunk that
/// was not there before counts as written.
pub proof fn law_when_a_checkpoint_is_due(c: CopyView)
    requires
        c.wf(),
        c.stage is Write,
    ensures
        ({
            let n = c.step(CopyAnswerView::Done);
            let since = c.pos + c.chunk.len() - c.last;
            &&& since >= 67_108_864 <==> n.stage is Sync
            &&& since < 67_108_864 <==> n.stage is Receive
            &&& n.pos == c.pos + c.chunk.len()
            &&& n.last == c.last
            &&& c.pos >= c.resume ==> n.written == c.written + c.chunk.len() && n.span == c.span
                + c.chunk
            &&& c.pos < c.resume ==> n.resume + n.written == n.pos
        }),
{
    if c.pos >= c.resume {
        assert(c.chunk.skip(0) =~= c.chunk);
    }
}

/// There is room for a chunk exactly as long as its last byte has an offset in 64 bits, so there
/// is always room for none, and for no more than the rest.
pub proof fn law_how_much_room_there_is(c: CopyView, len: int)
    requires
        c.wf(),
    ensures
        c.room(len) <==> len <= 0xffff_ffff_ffff_ffff - c.pos,
        c.room(0),
{
}

} // verus!
