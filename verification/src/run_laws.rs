//! What holds of every transfer, whatever it is answered.

use crate::arrival_laws;
use crate::engine;
use crate::engine::{DestStat, FactsView, Kind};
use crate::journal::{CkptView, Mode, RecordView, ResumeView};
use crate::run::{
    AnswerView, AskView, JobView, Place, RunView, SourceStat, Stage,
};
use crate::path::Os;
use crate::run;
use crate::scan::EntryView;
use crate::text;
use vstd::prelude::*;

verus! {

/// One exchange: what was asked, and the answer.
pub type Exchange = (AskView, AnswerView);

/// A transfer after a number of answers, and everything exchanged until then.
pub struct Log {
    pub at: RunView,
    pub log: Seq<Exchange>,
}

impl Log {
    pub open spec fn next(self, a: AnswerView) -> Log {
        Log { at: self.at.step(a).s, log: self.log.push((self.at.ask(), a)) }
    }

    pub open spec fn after(job: JobView, answers: Seq<AnswerView>) -> Log
        decreases answers.len(),
    {
        if answers.len() == 0 {
            Log { at: RunView::begin(job), log: Seq::empty() }
        } else {
            Log::after(job, answers.drop_last()).next(answers.last())
        }
    }
}

/// A job that fits into memory.
pub open spec fn sane(job: JobView) -> bool {
    job.n() <= usize::MAX && job.m.dirs.len() <= usize::MAX
}

// ── evidence ─────────────────────────────────────────────────────────────────
/// The file was copied to its staging name and flushed; its source hashed to `h`.
pub open spec fn was_copied(log: Seq<Exchange>, i: int, h: u128) -> bool {
    exists|t: int|
        0 <= t < log.len() && (#[trigger] log[t]).0 is Copy && log[t].0->Copy_file == i
            && log[t].1 is Copied && log[t].1->hash == h
}

/// The staged file was then read back and hashed to the same.
pub open spec fn was_verified(log: Seq<Exchange>, i: int, h: u128) -> bool {
    exists|t: int|
        0 <= t < log.len() && #[trigger] log[t] == (AskView::HashPart(i), AnswerView::Hash(h))
            && was_copied(log.take(t), i, h)
}

/// Copied and, where verification was asked for, verified.
pub open spec fn was_proven(job: JobView, log: Seq<Exchange>, i: int, h: u128) -> bool {
    if job.verify {
        was_verified(log, i, h)
    } else {
        was_copied(log, i, h)
    }
}

/// And then renamed into place.
pub open spec fn was_placed(job: JobView, log: Seq<Exchange>, i: int, h: u128) -> bool {
    exists|t: int|
        0 <= t < log.len() && #[trigger] log[t] == (AskView::Rename(i), AnswerView::Done)
            && was_proven(job, log.take(t), i, h)
}

/// The line the journal gets for the file.
pub open spec fn done_line(job: JobView, i: int, h: u128) -> RecordView {
    RecordView::FileDone {
        rel: job.key(i),
        size: job.m.files[i].size,
        mtime: job.m.files[i].mtime,
        mtime_ns: job.m.files[i].mtime_ns,
        hash: text::hex(h as nat, 32),
    }
}

/// And then recorded.
pub open spec fn was_recorded(job: JobView, log: Seq<Exchange>, i: int, h: u128) -> bool {
    exists|t: int|
        0 <= t < log.len() && #[trigger] log[t] == (
            AskView::Append(done_line(job, i, h)),
            AnswerView::Done,
        ) && was_placed(job, log.take(t), i, h)
}

/// An earlier run recorded the file, and the destination was found to hold what it wrote of
/// a source that has not changed since.
pub open spec fn was_found(s: RunView, log: Seq<Exchange>, i: int) -> bool {
    &&& s.record(i) is Some
    &&& exists|t: int|
        0 <= t < log.len() && (#[trigger] log[t]).0 == AskView::StatDest(i) && log[t].1 is Stat
            && engine::settled(log[t].1->Stat_0, s.job.m.files[i], s.record(i)->0)
    &&& s.job.paranoid ==> has_hash(log, AskView::HashSource(i), s.record(i)->0.hash) && has_hash(
        log,
        AskView::HashDest(i),
        s.record(i)->0.hash,
    )
}

/// This question was answered with a hash that reads so.
pub open spec fn has_hash(log: Seq<Exchange>, q: AskView, hex: Seq<char>) -> bool {
    exists|t: int|
        0 <= t < log.len() && (#[trigger] log[t]).0 == q && log[t].1 is Hash && text::hex(
            log[t].1->Hash_0 as nat,
            32,
        ) == hex
}

/// The copy of the file may be relied on.
pub open spec fn vouched(s: RunView, log: Seq<Exchange>, i: int) -> bool {
    was_found(s, log, i) || exists|h: u128| #[trigger] was_recorded(s.job, log, i, h)
}

/// This question was answered with this hash.
pub open spec fn was_hashed(log: Seq<Exchange>, q: AskView, h: u128) -> bool {
    exists|t: int| 0 <= t < log.len() && #[trigger] log[t] == (q, AnswerView::Hash(h))
}

/// In a copy that has no record of the file, the destination was found to hold the same file
/// already: of the same size and time and, in a paranoid run, with both ends read and of one
/// hash.
pub open spec fn was_same(s: RunView, log: Seq<Exchange>, i: int) -> bool {
    &&& s.job.mode is Copy
    &&& s.record(i) is None
    &&& exists|st: Option<DestStat>| #[trigger]
        was_seen(log, i, st) && engine::matches_dest(st, s.job.m.files[i])
    &&& s.job.paranoid ==> exists|h: u128| #[trigger]
        was_hashed(log, AskView::HashSource(i), h) && was_hashed(log, AskView::HashDest(i), h)
}

/// Something else stood in the place of the file, and was not to be replaced.
pub open spec fn was_left(s: RunView, log: Seq<Exchange>, i: int) -> bool {
    !(s.job.on_exists is Replace) && exists|st: Option<DestStat>| #[trigger]
        was_seen(log, i, st) && engine::clashes(st, s.job.m.files[i])
}

/// It is known what became of the file: its copy may be relied on, or it was there already,
/// or it was left out because its place was taken.
pub open spec fn accounted_for(s: RunView, log: Seq<Exchange>, i: int) -> bool {
    vouched(s, log, i) || was_same(s, log, i) || was_left(s, log, i)
}

/// The destination was made durable as a whole, after the copies of all these files could be
/// relied on, and that was recorded.
pub open spec fn barrier_recorded(s: RunView, log: Seq<Exchange>) -> bool {
    exists|t: int| #[trigger] barrier_at(s, log, t) && recorded_after(log, t)
}

pub open spec fn barrier_at(s: RunView, log: Seq<Exchange>, t: int) -> bool {
    &&& 0 <= t < log.len()
    &&& log[t] == (AskView::SyncDestination, AnswerView::Done)
    &&& forall|f: usize| #[trigger] s.proven.contains(f) ==> vouched(s, log.take(t), f as int)
}

pub open spec fn recorded_after(log: Seq<Exchange>, t: int) -> bool {
    exists|u: int|
        t < u < log.len() && #[trigger] log[u] == (
            AskView::Commit(RecordView::AllCopied),
            AnswerView::Done,
        )
}

proof fn lemma_copied_grows(log: Seq<Exchange>, x: Exchange, i: int, h: u128)
    requires
        was_copied(log, i, h),
    ensures
        was_copied(log.push(x), i, h),
{
    let t = choose|t: int|
        0 <= t < log.len() && (#[trigger] log[t]).0 is Copy && log[t].0->Copy_file == i
            && log[t].1 is Copied && log[t].1->hash == h;
    assert(log.push(x)[t] == log[t]);
}

proof fn lemma_proven_grows(job: JobView, log: Seq<Exchange>, x: Exchange, i: int, h: u128)
    requires
        was_proven(job, log, i, h),
    ensures
        was_proven(job, log.push(x), i, h),
{
    if job.verify {
        let t = choose|t: int|
            0 <= t < log.len() && #[trigger] log[t] == (AskView::HashPart(i), AnswerView::Hash(h))
                && was_copied(log.take(t), i, h);
        assert(log.push(x)[t] == log[t]);
        assert(log.push(x).take(t) =~= log.take(t));
    } else {
        lemma_copied_grows(log, x, i, h);
    }
}

proof fn lemma_placed_grows(job: JobView, log: Seq<Exchange>, x: Exchange, i: int, h: u128)
    requires
        was_placed(job, log, i, h),
    ensures
        was_placed(job, log.push(x), i, h),
{
    let t = choose|t: int|
        0 <= t < log.len() && #[trigger] log[t] == (AskView::Rename(i), AnswerView::Done)
            && was_proven(job, log.take(t), i, h);
    assert(log.push(x)[t] == log[t]);
    assert(log.push(x).take(t) =~= log.take(t));
}

pub(crate) proof fn lemma_hash_grows(log: Seq<Exchange>, x: Exchange, q: AskView, hex: Seq<char>)
    requires
        has_hash(log, q, hex),
    ensures
        has_hash(log.push(x), q, hex),
{
    let t = choose|t: int|
        0 <= t < log.len() && (#[trigger] log[t]).0 == q && log[t].1 is Hash && text::hex(
            log[t].1->Hash_0 as nat,
            32,
        ) == hex;
    assert(log.push(x)[t] == log[t]);
}

/// Evidence does not depend on where the transfer stands.
proof fn lemma_vouched_stays(s: RunView, s2: RunView, log: Seq<Exchange>, i: int)
    requires
        vouched(s, log, i),
        s2.job == s.job,
        s2.prev == s.prev,
    ensures
        vouched(s2, log, i),
{
    assert(s2.record(i) == s.record(i));
    assert(vouched(s2, log, i));
}

/// Whatever else happens, evidence stays evidence.
pub(crate) proof fn lemma_vouched_grows(
    s: RunView,
    s2: RunView,
    log: Seq<Exchange>,
    x: Exchange,
    i: int,
)
    requires
        vouched(s, log, i),
        s2.job == s.job,
        s2.prev == s.prev,
    ensures
        vouched(s2, log.push(x), i),
{
    if was_found(s, log, i) {
        let t = choose|t: int|
            0 <= t < log.len() && (#[trigger] log[t]).0 == AskView::StatDest(i) && log[t].1
                is Stat && engine::settled(
                log[t].1->Stat_0,
                s.job.m.files[i],
                s.record(i)->0,
            );
        assert(log.push(x)[t] == log[t]);
        if s.job.paranoid {
            lemma_hash_grows(log, x, AskView::HashSource(i), s.record(i)->0.hash);
            lemma_hash_grows(log, x, AskView::HashDest(i), s.record(i)->0.hash);
        }
        assert(s2.record(i) == s.record(i));
        assert(was_found(s2, log.push(x), i));
    } else {
        let h = choose|h: u128| #[trigger] was_recorded(s.job, log, i, h);
        let t = choose|t: int|
            0 <= t < log.len() && #[trigger] log[t] == (
                AskView::Append(done_line(s.job, i, h)),
                AnswerView::Done,
            ) && was_placed(s.job, log.take(t), i, h);
        assert(log.push(x)[t] == log[t]);
        assert(log.push(x).take(t) =~= log.take(t));
        assert(was_recorded(s2.job, log.push(x), i, h));
    }
}

// ── the invariant ────────────────────────────────────────────────────────────
/// The job goes on behind the look at the pair.
pub open spec fn past_paths(stage: Stage) -> bool {
    !(stage is LookDst || stage is Paths || stage is Failed)
}

/// Stages in which the file at hand is going to be copied, or has been.
pub open spec fn copying(stage: Stage) -> bool {
    match stage {
        Stage::SpanPoll(_, _) | Stage::Span(_, _) | Stage::DropStale(_) | Stage::Gate(_, _)
        | Stage::Parent(_, _) | Stage::Copying(_, _) | Stage::CopyFailed(_)
        | Stage::DropEmpty(_) | Stage::Verify(_) | Stage::DropBad(_) | Stage::Rename(_)
        | Stage::RenameFailed(_) | Stage::DropStuck(_) | Stage::Stamp(_)
        | Stage::Recording(_) => true,
        _ => false,
    }
}

/// The destination of the file was looked at, and this is what was there.
pub open spec fn was_seen(log: Seq<Exchange>, i: int, st: Option<DestStat>) -> bool {
    exists|t: int|
        0 <= t < log.len() && #[trigger] log[t] == (AskView::StatDest(i), AnswerView::Stat(st))
}

/// The file at hand has been looked at.
pub open spec fn looked_at(stage: Stage) -> bool {
    run::file_of(stage) is Some && !(stage is FilePoll) && !(stage is Look)
}

/// Nothing went wrong so far and nobody stopped it.
pub open spec fn clean(s: RunView) -> bool {
    s.sum.errors.len() == 0 && !s.sum.stopped
}

/// The pair is one that may be served.
#[verifier::opaque]
spec fn pair_ok(f: FactsView, mode: Mode, os: Os) -> bool {
    f.refusal(mode, os) is None
}

/// Nothing stands in the way of the file, or what stands there is the same.
#[verifier::opaque]
spec fn no_clash(st: Option<DestStat>, e: EntryView) -> bool {
    !engine::clashes(st, e)
}

/// What holds of every state by itself.
#[verifier::opaque]
spec fn basic(s: RunView) -> bool {
    &&& s.wf()
    &&& s.job.dry_run ==> (s.stage is LookDst || s.stage is Paths || s.stage is Load || s.stage
        == Stage::Finished(false) || s.stage is Failed)
    &&& past_paths(s.stage) ==> pair_ok(s.facts, s.job.mode, s.job.os)
    &&& copying(s.stage) && s.job.on_exists is Keep ==> no_clash(
        s.seen,
        s.job.m.files[run::file_of(s.stage)->0],
    )
    &&& s.stage is Complete || s.stage is RemoveJournal || s.stage == Stage::Finished(true)
        ==> clean(s)
    &&& clean(s) && !(s.stage is Failed) && !(s.stage is RenameFailed) && !(s.stage is DropStuck)
        && !(s.job.dry_run) ==> s.sum.copied + s.sum.skipped == s.files_behind()
    &&& (s.stage is RenameFailed || s.stage is DropStuck) ==> s.sum.errors.len() > 0
    &&& s.job.mode is Copy || run::early(s.stage) ==> s.proven == Set::<usize>::empty()
    &&& s.stage is Verify ==> s.job.verify
    &&& s.stage is SameSource || s.stage is SameDest ==> no_clash(
        s.seen,
        s.job.m.files[run::file_of(s.stage)->0],
    )
}

/// Evidence that a stage rests on.
#[verifier::opaque]
spec fn rests_on(s: RunView, log: Seq<Exchange>) -> bool {
    match s.stage {
        Stage::RecordedSource(i) => seen_settled(s, i as int),
        Stage::RecordedDest(i) => seen_settled(s, i as int) && has_hash(
            log,
            AskView::HashSource(i as int),
            s.record(i as int)->0.hash,
        ),
        Stage::Verify(i) => s.hash is Some && was_copied(log, i as int, s.hash->0),
        Stage::Rename(i) => s.hash is Some && was_proven(s.job, log, i as int, s.hash->0),
        Stage::Stamp(i) | Stage::Recording(i) => s.hash is Some && was_placed(
            s.job,
            log,
            i as int,
            s.hash->0,
        ),
        Stage::Barrier => s.may_delete(),
        Stage::AllCopied => s.job.mode is Move && exists|t: int| #[trigger] barrier_at(s, log, t),
        Stage::DeletePoll(_) | Stage::DeleteRecord(_) => s.job.mode is Move && barrier_recorded(
            s,
            log,
        ),
        Stage::DeleteLook(i) => s.job.mode is Move && barrier_recorded(s, log)
            && s.proven.contains(i),
        Stage::Deleting(i) => {
            &&& s.job.mode is Move
            &&& barrier_recorded(s, log)
            &&& s.proven.contains(i)
            &&& log.contains(unchanged(s.job, i as int))
        },
        _ => true,
    }
}

/// The original was looked at and is still the file that was copied.
pub open spec fn unchanged(job: JobView, i: int) -> Exchange {
    (
        AskView::StatSource(i),
        AnswerView::Source(
            Some(SourceStat { len: job.m.files[i].size, mtime_ns: job.m.files[i].mtime_ns }),
        ),
    )
}

/// The place of the file was seen to hold what the journal recorded.
pub open spec fn seen_settled(s: RunView, i: int) -> bool {
    &&& s.record(i) is Some
    &&& engine::settled(s.seen, s.job.m.files[i], s.record(i)->0)
}

#[verifier::opaque]
spec fn seen_logged(s: RunView, log: Seq<Exchange>) -> bool {
    looked_at(s.stage) ==> was_seen(log, run::file_of(s.stage)->0, s.seen)
}

#[verifier::opaque]
spec fn all_vouched(s: RunView, log: Seq<Exchange>) -> bool {
    forall|f: usize| #[trigger] s.proven.contains(f) ==> vouched(s, log, f as int)
}

/// The checkpoints of the file were taken of the source as it is, back to the first byte.
pub open spec fn chain_fits(s: RunView, i: int) -> bool {
    &&& s.chain(i) is Some
    &&& RunView::same_source(s.chain(i)->0, s.job.m.files[i])
    &&& RunView::from_zero(s.chain(i)->0)
}

/// The bytes of this checkpoint were read off the medium and still hash to what it says.
pub open spec fn span_checked(log: Seq<Exchange>, i: int, c: CkptView) -> bool {
    has_hash(log, AskView::HashSpan { file: i, off: c.off, span: c.span }, c.span_hash)
}

/// So were those of the first `k` checkpoints.
pub open spec fn spans_checked(s: RunView, log: Seq<Exchange>, i: int, k: int) -> bool {
    forall|j: int| 0 <= j < k ==> span_checked(log, i, #[trigger] s.chain(i)->0[j])
}

/// The file may be continued at offset `r`.
pub open spec fn may_resume(s: RunView, log: Seq<Exchange>, i: int, r: u64) -> bool {
    &&& chain_fits(s, i)
    &&& spans_checked(s, log, i, s.chain(i)->0.len() as int)
    &&& r == s.chain(i)->0.last().off
}

/// What the resume point at hand rests on.
#[verifier::opaque]
spec fn resume_ok(s: RunView, log: Seq<Exchange>) -> bool {
    match s.stage {
        Stage::SpanPoll(i, k) | Stage::Span(i, k) => chain_fits(s, i as int) && spans_checked(
            s,
            log,
            i as int,
            k as int,
        ),
        Stage::Gate(i, r) | Stage::Parent(i, r) | Stage::Copying(i, r) => r > 0 ==> may_resume(
            s,
            log,
            i as int,
            r,
        ),
        _ => true,
    }
}

/// A step that brings no new resume point.
spec fn resume_step(s: RunView, n: RunView) -> bool {
    match n.stage {
        Stage::SpanPoll(i, k) => n.stage == s.stage || (k == 0 && chain_fits(n, i as int)),
        Stage::Span(i, k) => n.stage == s.stage || s.stage == Stage::SpanPoll(i, k),
        Stage::Gate(i, r) => n.stage == s.stage || r == 0,
        Stage::Parent(i, r) => n.stage == s.stage || s.stage == Stage::Gate(i, r),
        Stage::Copying(i, r) => n.stage == s.stage || s.stage == Stage::Parent(i, r),
        _ => true,
    }
}

proof fn lemma_spans_grow(s: RunView, n: RunView, log: Seq<Exchange>, x: Exchange, i: int, k: int)
    requires
        spans_checked(s, log, i, k),
        n.job == s.job,
        n.prev == s.prev,
    ensures
        n.chain(i) == s.chain(i),
        spans_checked(n, log.push(x), i, k),
{
    assert forall|j: int| 0 <= j < k implies span_checked(
        log.push(x),
        i,
        #[trigger] n.chain(i)->0[j],
    ) by {
        let c = s.chain(i)->0[j];
        assert(span_checked(log, i, c));
        lemma_hash_grows(
            log,
            x,
            AskView::HashSpan { file: i, off: c.off, span: c.span },
            c.span_hash,
        );
    }
}

proof fn lemma_resume(s: RunView, n: RunView, log: Seq<Exchange>, x: Exchange)
    requires
        resume_ok(s, log),
        n.job == s.job,
        n.prev == s.prev,
        resume_step(s, n),
    ensures
        resume_ok(n, log.push(x)),
{
    reveal(resume_ok);
    match n.stage {
        Stage::SpanPoll(i, k) | Stage::Span(i, k) => {
            if k > 0 || n.stage is Span {
                lemma_spans_grow(s, n, log, x, i as int, k as int);
            }
        },
        Stage::Gate(i, r) | Stage::Parent(i, r) | Stage::Copying(i, r) => {
            if r > 0 {
                lemma_spans_grow(s, n, log, x, i as int, s.chain(i as int)->0.len() as int);
            }
        },
        _ => {},
    }
}

spec fn good(s: RunView, log: Seq<Exchange>) -> bool {
    &&& basic(s)
    &&& resume_ok(s, log)
    &&& rests_on(s, log)
    &&& seen_logged(s, log)
    &&& all_vouched(s, log)
}

/// The stage rests on no evidence of its own.
spec fn free(stage: Stage) -> bool {
    match stage {
        Stage::RecordedSource(_) | Stage::RecordedDest(_) | Stage::Verify(_) | Stage::Rename(_)
        | Stage::Stamp(_) | Stage::Recording(_) | Stage::Barrier | Stage::AllCopied
        | Stage::DeletePoll(_) | Stage::DeleteRecord(_) | Stage::DeleteLook(_)
        | Stage::Deleting(_) => false,
        _ => true,
    }
}

/// The file at hand, if it has been looked at, is the one that was.
spec fn same_look(s: RunView, n: RunView) -> bool {
    looked_at(n.stage) ==> looked_at(s.stage) && n.seen == s.seen && run::file_of(n.stage)
        == run::file_of(s.stage)
}

spec fn same_past(s: RunView, n: RunView) -> bool {
    n.job == s.job && n.prev == s.prev && n.proven == s.proven
}

proof fn lemma_carry(s: RunView, n: RunView, log: Seq<Exchange>, x: Exchange)
    requires
        seen_logged(s, log),
        all_vouched(s, log),
        resume_ok(s, log),
        same_past(s, n),
        same_look(s, n),
        resume_step(s, n),
    ensures
        seen_logged(n, log.push(x)),
        all_vouched(n, log.push(x)),
        resume_ok(n, log.push(x)),
{
    lemma_resume(s, n, log, x);
    reveal(seen_logged);
    reveal(all_vouched);
    if looked_at(n.stage) {
        let i = run::file_of(s.stage)->0;
        let t = choose|t: int|
            0 <= t < log.len() && #[trigger] log[t] == (
                AskView::StatDest(i),
                AnswerView::Stat(s.seen),
            );
        assert(log.push(x)[t] == log[t]);
    }
    assert forall|f: usize| #[trigger] n.proven.contains(f) implies vouched(
        n,
        log.push(x),
        f as int,
    ) by {
        assert(s.proven.contains(f));
        lemma_vouched_grows(s, n, log, x, f as int);
    }
}

/// A step to a stage that rests on nothing.
proof fn lemma_plain(s: RunView, n: RunView, log: Seq<Exchange>, x: Exchange)
    requires
        good(s, log),
        basic(n),
        same_past(s, n),
        same_look(s, n),
        resume_step(s, n),
        free(n.stage),
    ensures
        good(n, log.push(x)),
{
    lemma_carry(s, n, log, x);
    reveal(rests_on);
}

/// A recorded barrier stays recorded.
proof fn lemma_barrier_grows(s: RunView, n: RunView, log: Seq<Exchange>, x: Exchange)
    requires
        barrier_recorded(s, log),
        same_past(s, n),
    ensures
        barrier_recorded(n, log.push(x)),
{
    let t = choose|t: int| #[trigger] barrier_at(s, log, t) && recorded_after(log, t);
    let u = choose|u: int|
        t < u < log.len() && #[trigger] log[u] == (
            AskView::Commit(RecordView::AllCopied),
            AnswerView::Done,
        );
    assert(log.push(x)[u] == log[u]);
    lemma_barrier_at_grows(s, n, log, x, t);
    assert(recorded_after(log.push(x), t));
}

proof fn lemma_barrier_at_grows(s: RunView, n: RunView, log: Seq<Exchange>, x: Exchange, t: int)
    requires
        barrier_at(s, log, t),
        same_past(s, n),
    ensures
        barrier_at(n, log.push(x), t),
{
    assert(log.push(x)[t] == log[t]);
    assert(log.push(x).take(t) =~= log.take(t));
    assert forall|f: usize| #[trigger] n.proven.contains(f) implies vouched(
        n,
        log.push(x).take(t),
        f as int,
    ) by {
        assert(s.proven.contains(f));
        lemma_vouched_stays(s, n, log.take(t), f as int);
    }
}

proof fn lemma_contains_grows(log: Seq<Exchange>, x: Exchange, y: Exchange)
    ensures
        log.contains(y) ==> log.push(x).contains(y),
        log.push(x).contains(x),
{
    if log.contains(y) {
        let t = choose|t: int| 0 <= t < log.len() && log[t] == y;
        assert(log.push(x)[t] == y);
    }
    assert(log.push(x)[log.len() as int] == x);
}

/// What a stage rests on is not lost when the exchange goes on.
proof fn lemma_rests_grows(s: RunView, log: Seq<Exchange>, x: Exchange)
    requires
        rests_on(s, log),
    ensures
        rests_on(s, log.push(x)),
{
    reveal(rests_on);
    match s.stage {
        Stage::RecordedDest(i) => {
            lemma_hash_grows(log, x, AskView::HashSource(i as int), s.record(i as int)->0.hash);
        },
        Stage::Verify(i) => {
            lemma_copied_grows(log, x, i as int, s.hash->0);
        },
        Stage::Rename(i) => {
            lemma_proven_grows(s.job, log, x, i as int, s.hash->0);
        },
        Stage::Stamp(i) | Stage::Recording(i) => {
            lemma_placed_grows(s.job, log, x, i as int, s.hash->0);
        },
        Stage::AllCopied => {
            let t = choose|t: int| #[trigger] barrier_at(s, log, t);
            lemma_barrier_at_grows(s, s, log, x, t);
        },
        Stage::DeletePoll(_) | Stage::DeleteRecord(_) | Stage::DeleteLook(_) => {
            lemma_barrier_grows(s, s, log, x);
        },
        Stage::Deleting(i) => {
            lemma_barrier_grows(s, s, log, x);
            lemma_contains_grows(log, x, unchanged(s.job, i as int));
        },
        _ => {},
    }
}

/// An answer that did not fit changed nothing.
proof fn lemma_idle(s: RunView, log: Seq<Exchange>, x: Exchange)
    requires
        good(s, log),
    ensures
        good(s, log.push(x)),
{
    lemma_carry(s, s, log, x);
    lemma_rests_grows(s, log, x);
}

/// A step within the removal of originals, or out of it.
proof fn lemma_deleting(s: RunView, n: RunView, log: Seq<Exchange>, x: Exchange)
    requires
        good(s, log),
        basic(n),
        same_past(s, n),
        run::original_of(s.stage) is Some,
        n.stage is DeletePoll || n.stage is DeleteRecord || n.stage is SecondFlush || (
        n.stage matches Stage::DeleteLook(i) && n.proven.contains(i)) || (
        n.stage matches Stage::Deleting(i) && n.proven.contains(i) && x
            == unchanged(n.job, i as int)),
    ensures
        good(n, log.push(x)),
{
    reveal(rests_on);
    lemma_barrier_grows(s, n, log, x);
    lemma_carry(s, n, log, x);
    lemma_contains_grows(log, x, x);
}

#[verifier::spinoff_prover]
proof fn lemma_flag_case(s: RunView, log: Seq<Exchange>, b: bool)
    requires
        good(s, log),
        s.stage is Case,
    ensures
        s.on_flag_early(b).s.job == s.job,
        good(s.on_flag_early(b).s, log.push((s.ask(), AnswerView::Flag(b)))),
{
    let n = s.on_flag_early(b).s;
    let x = (s.ask(), AnswerView::Flag(b));
    let m = s.case_known(b);
    assert(n == m) by {
        reveal(RunView::on_flag_early);
    }
    assert(basic(m)) by {
        reveal(basic);
    }
    lemma_plain(s, m, log, x);
}

#[verifier::spinoff_prover]
proof fn lemma_flag_fat(s: RunView, log: Seq<Exchange>, b: bool)
    requires
        good(s, log),
        s.stage is Fat,
    ensures
        s.on_flag_early(b).s.job == s.job,
        good(s.on_flag_early(b).s, log.push((s.ask(), AnswerView::Flag(b)))),
{
    let n = s.on_flag_early(b).s;
    let x = (s.ask(), AnswerView::Flag(b));
    let m = s.fat_known(b);
    assert(n == m) by {
        reveal(RunView::on_flag_early);
    }
    assert(basic(m)) by {
        reveal(basic);
    }
    lemma_plain(s, m, log, x);
}

#[verifier::rlimit(50)]
#[verifier::spinoff_prover]
proof fn lemma_flag_early(s: RunView, log: Seq<Exchange>, b: bool)
    requires
        good(s, log),
    ensures
        s.on_flag_early(b).s.job == s.job,
        good(s.on_flag_early(b).s, log.push((s.ask(), AnswerView::Flag(b)))),
{
    let n = s.on_flag_early(b).s;
    let x = (s.ask(), AnswerView::Flag(b));
    match s.stage {
        Stage::LookDst => {
            let m = if b {
                s.goes_into()
            } else {
                s.at(Stage::Paths)
            };
            assert(n == m) by {
                reveal(RunView::on_flag_early);
            }
            assert(basic(m)) by {
                reveal(basic);
            }
            lemma_plain(s, m, log, x);
        },
        Stage::Case => {
            lemma_flag_case(s, log, b);
        },
        Stage::Fat => {
            lemma_flag_fat(s, log, b);
        },
        Stage::DirPoll(i) => {
            let m = if b {
                s.at(Stage::Open)
            } else {
                s.at(Stage::DirMake(i))
            };
            assert(n == m) by {
                reveal(RunView::on_flag_early);
            }
            assert(basic(m)) by {
                reveal(basic);
            }
            lemma_plain(s, m, log, x);
        },
        _ => {
            assert(n == s) by {
                reveal(RunView::on_flag_early);
            }
            lemma_idle(s, log, x);
        },
    }
}

#[verifier::rlimit(50)]
#[verifier::spinoff_prover]
proof fn lemma_flag_file(s: RunView, log: Seq<Exchange>, b: bool)
    requires
        good(s, log),
    ensures
        s.on_flag_file(b).s.job == s.job,
        good(s.on_flag_file(b).s, log.push((s.ask(), AnswerView::Flag(b)))),
{
    let n = s.on_flag_file(b).s;
    let x = (s.ask(), AnswerView::Flag(b));
    match s.stage {
        Stage::FilePoll(i) => {
            let m = if b {
                s.stop(Stage::FirstFlush)
            } else {
                s.at(Stage::Look(i))
            };
            assert(n == m) by {
                reveal(RunView::on_flag_file);
            }
            assert(basic(m)) by {
                reveal(basic);
            }
            lemma_plain(s, m, log, x);
        },
        Stage::SpanPoll(i, k) => {
            let m = if b {
                s.at(Stage::Gate(i, 0))
            } else {
                s.span_begin(i as int, k as int)
            };
            assert(n == m) by {
                reveal(RunView::on_flag_file);
            }
            assert(basic(m)) by {
                reveal(basic);
            }
            lemma_plain(s, m, log, x);
        },
        Stage::Gate(i, r) => {
            let m = if b {
                s.stop(Stage::FirstFlush)
            } else {
                s.at(Stage::Parent(i, r))
            };
            assert(n == m) by {
                reveal(RunView::on_flag_file);
            }
            assert(basic(m)) by {
                reveal(basic);
            }
            lemma_plain(s, m, log, x);
        },
        Stage::CopyFailed(i) => {
            let m = if b {
                s.at(Stage::DropEmpty(i))
            } else {
                s.copy_problem(i as int).s
            };
            assert(n == m) by {
                reveal(RunView::on_flag_file);
            }
            assert(basic(m)) by {
                reveal(basic);
            }
            lemma_plain(s, m, log, x);
        },
        Stage::RenameFailed(i) => {
            let m = if b {
                s.at(Stage::DropStuck(i))
            } else {
                s.to_file(i + 1)
            };
            assert(n == m) by {
                reveal(RunView::on_flag_file);
            }
            assert(basic(m)) by {
                reveal(basic);
            }
            lemma_plain(s, m, log, x);
        },
        _ => {
            assert(n == s) by {
                reveal(RunView::on_flag_file);
            }
            lemma_idle(s, log, x);
        },
    }
}

#[verifier::rlimit(30)]
proof fn lemma_flag_late(s: RunView, log: Seq<Exchange>, b: bool)
    requires
        good(s, log),
    ensures
        s.on_flag_late(b).s.job == s.job,
        good(s.on_flag_late(b).s, log.push((s.ask(), AnswerView::Flag(b)))),
{
    let n = s.on_flag_late(b).s;
    let x = (s.ask(), AnswerView::Flag(b));
    match s.stage {
        Stage::DeletePoll(i) => {
            let m = if b {
                s.stop(Stage::SecondFlush)
            } else {
                s.delete_begin(i as int)
            };
            assert(n == m) by {
                reveal(RunView::on_flag_late);
            }
            assert(basic(m)) by {
                reveal(basic);
            }
            lemma_deleting(s, m, log, x);
        },
        _ => {
            assert(n == s) by {
                reveal(RunView::on_flag_late);
            }
            lemma_idle(s, log, x);
        },
    }
}

proof fn lemma_flag(s: RunView, log: Seq<Exchange>, b: bool)
    requires
        good(s, log),
    ensures
        s.on_flag(b).s.job == s.job,
        good(s.on_flag(b).s, log.push((s.ask(), AnswerView::Flag(b)))),
{
    lemma_flag_early(s, log, b);
    lemma_flag_file(s, log, b);
    lemma_flag_late(s, log, b);
    reveal(RunView::on_flag);
}

/// The file at hand was just renamed into place.
proof fn lemma_placed_now(s: RunView, n: RunView, log: Seq<Exchange>, i: int)
    requires
        good(s, log),
        basic(n),
        s.stage == Stage::Rename(i as usize),
        0 <= i <= usize::MAX,
        n == s.at(Stage::Stamp(i as usize)),
    ensures
        good(n, log.push((s.ask(), AnswerView::Done))),
{
    let x = (s.ask(), AnswerView::Done);
    lemma_carry(s, n, log, x);
    reveal(rests_on);
    assert(log.push(x).take(log.len() as int) =~= log);
    assert(log.push(x)[log.len() as int] == (AskView::Rename(i), AnswerView::Done));
}

proof fn lemma_stamped(s: RunView, n: RunView, log: Seq<Exchange>, x: Exchange, i: int)
    requires
        good(s, log),
        basic(n),
        s.stage == Stage::Stamp(i as usize),
        n == s.at(Stage::Recording(i as usize)),
        0 <= i <= usize::MAX,
    ensures
        good(n, log.push(x)),
{
    lemma_carry(s, n, log, x);
    reveal(rests_on);
    lemma_placed_grows(s.job, log, x, i, s.hash->0);
}

/// The file at hand was just recorded: its copy may be relied on.
proof fn lemma_recorded_now(s: RunView, n: RunView, log: Seq<Exchange>, i: int)
    requires
        good(s, log),
        basic(n),
        s.stage == Stage::Recording(i as usize),
        0 <= i < s.job.n(),
        s.job.n() <= usize::MAX,
        n == s.recorded(i).s,
    ensures
        good(n, log.push((s.ask(), AnswerView::Done))),
{
    let x = (s.ask(), AnswerView::Done);
    let h = s.hash->0;
    reveal(rests_on);
    reveal(all_vouched);
    reveal(seen_logged);
    reveal(resume_ok);
    assert(log.push(x).take(log.len() as int) =~= log);
    assert(s.done_record(i) == done_line(s.job, i, h));
    assert(log.push(x)[log.len() as int] == (
        AskView::Append(done_line(s.job, i, h)),
        AnswerView::Done,
    ));
    assert(was_recorded(n.job, log.push(x), i, h));
    assert(vouched(n, log.push(x), i));
    assert forall|f: usize| #[trigger] n.proven.contains(f) implies vouched(
        n,
        log.push(x),
        f as int,
    ) by {
        if s.proven.contains(f) {
            lemma_vouched_grows(s, n, log, x, f as int);
        } else {
            assert(f == i);
        }
    }
}

/// The destination was just made durable as a whole.
proof fn lemma_barrier_now(s: RunView, n: RunView, log: Seq<Exchange>)
    requires
        good(s, log),
        basic(n),
        s.stage is Barrier,
        n == s.at(Stage::AllCopied),
    ensures
        good(n, log.push((s.ask(), AnswerView::Done))),
{
    let x = (s.ask(), AnswerView::Done);
    lemma_carry(s, n, log, x);
    reveal(rests_on);
    reveal(all_vouched);
    let t = log.len() as int;
    assert(log.push(x).take(t) =~= log);
    assert forall|f: usize| #[trigger] n.proven.contains(f) implies vouched(
        n,
        log.push(x).take(t),
        f as int,
    ) by {
        assert(s.proven.contains(f));
        lemma_vouched_stays(s, n, log, f as int);
    }
    assert(barrier_at(n, log.push(x), t));
}

/// The barrier was just recorded.
proof fn lemma_all_copied_now(s: RunView, n: RunView, log: Seq<Exchange>)
    requires
        good(s, log),
        basic(n),
        s.stage is AllCopied,
        n == s.all_copied().s,
    ensures
        good(n, log.push((s.ask(), AnswerView::Done))),
{
    let x = (s.ask(), AnswerView::Done);
    lemma_carry(s, n, log, x);
    reveal(rests_on);
    let t = choose|t: int| #[trigger] barrier_at(s, log, t);
    lemma_barrier_at_grows(s, n, log, x, t);
    let u = log.len() as int;
    assert(log.push(x)[u] == (AskView::Commit(RecordView::AllCopied), AnswerView::Done));
    assert(recorded_after(log.push(x), t));
    assert(barrier_recorded(n, log.push(x)));
}

#[verifier::rlimit(50)]
#[verifier::spinoff_prover]
proof fn lemma_done_early(s: RunView, log: Seq<Exchange>)
    requires
        good(s, log),
    ensures
        s.on_done_early().s.job == s.job,
        good(s.on_done_early().s, log.push((s.ask(), AnswerView::Done))),
{
    let n = s.on_done_early().s;
    let x = (s.ask(), AnswerView::Done);
    match s.stage {
        Stage::Lock => {
            let m = if s.job.m.root_is_file {
                s.to_names()
            } else {
                s.at(Stage::Root)
            };
            assert(n == m) by {
                reveal(RunView::on_done_early);
            }
            assert(basic(m)) by {
                reveal(basic);
            }
            lemma_plain(s, m, log, x);
        },
        Stage::Root => {
            let m = s.to_names();
            assert(n == m) by {
                reveal(RunView::on_done_early);
            }
            assert(basic(m)) by {
                reveal(basic);
            }
            lemma_plain(s, m, log, x);
        },
        Stage::DirMake(i) => {
            let m = s.dir_made(i as int, None).s;
            assert(n == m) by {
                reveal(RunView::on_done_early);
            }
            assert(basic(m)) by {
                reveal(basic);
            }
            lemma_plain(s, m, log, x);
        },
        Stage::Open => {
            let m = s.opened().s;
            assert(n == m) by {
                reveal(RunView::on_done_early);
            }
            assert(basic(m)) by {
                reveal(basic);
            }
            lemma_plain(s, m, log, x);
        },
        Stage::Session => {
            let m = s.files_begin().s;
            assert(n == m) by {
                reveal(RunView::on_done_early);
            }
            assert(basic(m)) by {
                reveal(basic);
            }
            lemma_plain(s, m, log, x);
        },
        _ => {
            assert(n == s) by {
                reveal(RunView::on_done_early);
            }
            lemma_idle(s, log, x);
        },
    }
}

#[verifier::rlimit(50)]
#[verifier::spinoff_prover]
proof fn lemma_done_file(s: RunView, log: Seq<Exchange>)
    requires
        good(s, log),
    ensures
        s.on_done_file().s.job == s.job,
        good(s.on_done_file().s, log.push((s.ask(), AnswerView::Done))),
{
    let n = s.on_done_file().s;
    let x = (s.ask(), AnswerView::Done);
    match s.stage {
        Stage::DropStale(i) => {
            let m = s.at(Stage::Gate(i, 0));
            assert(n == m) by {
                reveal(RunView::on_done_file);
            }
            assert(basic(m)) by {
                reveal(basic);
            }
            lemma_plain(s, m, log, x);
        },
        Stage::Parent(i, r) => {
            let m = s.at(Stage::Copying(i, r));
            assert(n == m) by {
                reveal(RunView::on_done_file);
            }
            assert(basic(m)) by {
                reveal(basic);
            }
            lemma_plain(s, m, log, x);
        },
        Stage::DropEmpty(i) => {
            let m = s.copy_problem(i as int).s;
            assert(n == m) by {
                reveal(RunView::on_done_file);
            }
            assert(basic(m)) by {
                reveal(basic);
            }
            lemma_plain(s, m, log, x);
        },
        Stage::DropBad(i) => {
            let m = s.bad_copy(i as int).s;
            assert(n == m) by {
                reveal(RunView::on_done_file);
            }
            assert(basic(m)) by {
                reveal(basic);
            }
            lemma_plain(s, m, log, x);
        },
        Stage::Rename(i) => {
            let m = s.at(Stage::Stamp(i));
            assert(n == m) by {
                reveal(RunView::on_done_file);
            }
            assert(basic(m)) by {
                reveal(basic);
            }
            lemma_placed_now(s, m, log, i as int);
        },
        Stage::DropStuck(i) => {
            let m = s.to_file(i + 1);
            assert(n == m) by {
                reveal(RunView::on_done_file);
            }
            assert(basic(m)) by {
                reveal(basic);
            }
            lemma_plain(s, m, log, x);
        },
        Stage::Stamp(i) => {
            let m = s.at(Stage::Recording(i));
            assert(n == m) by {
                reveal(RunView::on_done_file);
            }
            assert(basic(m)) by {
                reveal(basic);
            }
            lemma_stamped(s, m, log, x, i as int);
        },
        Stage::Recording(i) => {
            let m = s.recorded(i as int).s;
            assert(n == m) by {
                reveal(RunView::on_done_file);
            }
            assert(basic(m)) by {
                reveal(basic);
            }
            assert(i < s.job.n() && s.job.n() <= usize::MAX) by {
                reveal(basic);
            }
            lemma_recorded_now(s, m, log, i as int);
        },
        _ => {
            assert(n == s) by {
                reveal(RunView::on_done_file);
            }
            lemma_idle(s, log, x);
        },
    }
}

#[verifier::rlimit(50)]
#[verifier::spinoff_prover]
proof fn lemma_done_late(s: RunView, log: Seq<Exchange>)
    requires
        good(s, log),
    ensures
        s.on_done_late().s.job == s.job,
        good(s.on_done_late().s, log.push((s.ask(), AnswerView::Done))),
{
    let n = s.on_done_late().s;
    let x = (s.ask(), AnswerView::Done);
    match s.stage {
        Stage::FirstFlush => {
            let m = s.flushed();
            assert(n == m) by {
                reveal(RunView::on_done_late);
            }
            assert(basic(m)) by {
                reveal(basic);
            }
            lemma_carry(s, m, log, x);
            assert(rests_on(m, log.push(x))) by {
                reveal(rests_on);
            }
        },
        Stage::Barrier => {
            let m = s.at(Stage::AllCopied);
            assert(n == m) by {
                reveal(RunView::on_done_late);
            }
            assert(basic(m)) by {
                reveal(basic);
            }
            lemma_barrier_now(s, m, log);
        },
        Stage::AllCopied => {
            let m = s.all_copied().s;
            assert(n == m) by {
                reveal(RunView::on_done_late);
            }
            assert(basic(m)) by {
                reveal(basic);
            }
            lemma_all_copied_now(s, m, log);
        },
        Stage::Deleting(i) => {
            let m = s.at(Stage::DeleteRecord(i));
            assert(n == m) by {
                reveal(RunView::on_done_late);
            }
            assert(basic(m)) by {
                reveal(basic);
            }
            lemma_deleting(s, m, log, x);
        },
        Stage::DeleteRecord(i) => {
            let m = s.deleted(i as int).s;
            assert(n == m) by {
                reveal(RunView::on_done_late);
            }
            assert(basic(m)) by {
                reveal(basic);
            }
            lemma_deleting(s, m, log, x);
        },
        Stage::SecondFlush => {
            let m = s.conclude();
            assert(n == m) by {
                reveal(RunView::on_done_late);
            }
            assert(basic(m)) by {
                reveal(basic);
            }
            lemma_plain(s, m, log, x);
        },
        Stage::Complete => {
            let m = s.at(Stage::RemoveJournal);
            assert(n == m) by {
                reveal(RunView::on_done_late);
            }
            assert(basic(m)) by {
                reveal(basic);
            }
            lemma_plain(s, m, log, x);
        },
        Stage::RemoveJournal => {
            let m = s.at(Stage::Finished(true));
            assert(n == m) by {
                reveal(RunView::on_done_late);
            }
            assert(basic(m)) by {
                reveal(basic);
            }
            lemma_plain(s, m, log, x);
        },
        _ => {
            assert(n == s) by {
                reveal(RunView::on_done_late);
            }
            lemma_idle(s, log, x);
        },
    }
}

proof fn lemma_done(s: RunView, log: Seq<Exchange>)
    requires
        good(s, log),
    ensures
        s.on_done().s.job == s.job,
        good(s.on_done().s, log.push((s.ask(), AnswerView::Done))),
{
    lemma_done_early(s, log);
    lemma_done_file(s, log);
    lemma_done_late(s, log);
    reveal(RunView::on_done);
}

#[verifier::rlimit(50)]
#[verifier::spinoff_prover]
proof fn lemma_failed_early(s: RunView, log: Seq<Exchange>, e: Seq<char>)
    requires
        good(s, log),
    ensures
        s.on_failed_early(e).s.job == s.job,
        good(s.on_failed_early(e).s, log.push((s.ask(), AnswerView::Failed(e)))),
{
    let n = s.on_failed_early(e).s;
    let x = (s.ask(), AnswerView::Failed(e));
    match s.stage {
        Stage::Load | Stage::Lock | Stage::Open | Stage::Session => {
            let m = s.fail(Kind::Passed, e);
            assert(n == m) by {
                reveal(RunView::on_failed_early);
            }
            assert(basic(m)) by {
                reveal(basic);
            }
            lemma_plain(s, m, log, x);
        },
        Stage::Root => {
            let m = s.fail(Kind::Passed, "cannot create destination "@ + s.job.dst + ": "@ + e);
            assert(n == m) by {
                reveal(RunView::on_failed_early);
            }
            assert(basic(m)) by {
                reveal(basic);
            }
            lemma_plain(s, m, log, x);
        },
        Stage::DirMake(i) => {
            let m = s.dir_made(i as int, Some(e)).s;
            assert(n == m) by {
                reveal(RunView::on_failed_early);
            }
            assert(basic(m)) by {
                reveal(basic);
            }
            lemma_plain(s, m, log, x);
        },
        _ => {
            assert(n == s) by {
                reveal(RunView::on_failed_early);
            }
            lemma_idle(s, log, x);
        },
    }
}

#[verifier::spinoff_prover]
proof fn lemma_failed_recorded(s: RunView, log: Seq<Exchange>, e: Seq<char>)
    requires
        good(s, log),
        s.stage is RecordedSource || s.stage is RecordedDest,
    ensures
        s.on_failed_file(e).s.job == s.job,
        good(s.on_failed_file(e).s, log.push((s.ask(), AnswerView::Failed(e)))),
{
    let n = s.on_failed_file(e).s;
    let x = (s.ask(), AnswerView::Failed(e));
    match s.stage {
        Stage::RecordedSource(i) | Stage::RecordedDest(i) => {
            let m = s.unsettled(i as int).s;
            assert(n == m) by {
                reveal(RunView::on_failed_file);
            }
            assert(basic(m)) by {
                reveal(basic);
                reveal(no_clash);
            }
            lemma_plain(s, m, log, x);
        },
        _ => {},
    }
}

#[verifier::spinoff_prover]
proof fn lemma_failed_same(s: RunView, log: Seq<Exchange>, e: Seq<char>)
    requires
        good(s, log),
        s.stage is SameSource || s.stage is SameDest,
    ensures
        s.on_failed_file(e).s.job == s.job,
        good(s.on_failed_file(e).s, log.push((s.ask(), AnswerView::Failed(e)))),
{
    let n = s.on_failed_file(e).s;
    let x = (s.ask(), AnswerView::Failed(e));
    match s.stage {
        Stage::SameSource(i) => {
            let m = RunView { hash: None, ..s }.at(Stage::SameDest(i));
            assert(n == m) by {
                reveal(RunView::on_failed_file);
            }
            assert(basic(m)) by {
                reveal(basic);
            }
            lemma_plain(s, m, log, x);
        },
        Stage::SameDest(i) => {
            let m = s.start(i as int).s;
            assert(n == m) by {
                reveal(RunView::on_failed_file);
            }
            assert(basic(m)) by {
                reveal(basic);
                reveal(no_clash);
            }
            lemma_plain(s, m, log, x);
        },
        _ => {},
    }
}

#[verifier::rlimit(50)]
#[verifier::spinoff_prover]
proof fn lemma_failed_file(s: RunView, log: Seq<Exchange>, e: Seq<char>)
    requires
        good(s, log),
    ensures
        s.on_failed_file(e).s.job == s.job,
        good(s.on_failed_file(e).s, log.push((s.ask(), AnswerView::Failed(e)))),
{
    let n = s.on_failed_file(e).s;
    let x = (s.ask(), AnswerView::Failed(e));
    match s.stage {
        Stage::Recording(_) => {
            let m = s.fail(Kind::Passed, e);
            assert(n == m) by {
                reveal(RunView::on_failed_file);
            }
            assert(basic(m)) by {
                reveal(basic);
            }
            lemma_plain(s, m, log, x);
        },
        Stage::RecordedSource(_) | Stage::RecordedDest(_) => {
            lemma_failed_recorded(s, log, e);
        },
        Stage::SameSource(_) | Stage::SameDest(_) => {
            lemma_failed_same(s, log, e);
        },
        Stage::Span(i, _) => {
            let m = s.at(Stage::Gate(i, 0));
            assert(n == m) by {
                reveal(RunView::on_failed_file);
            }
            assert(basic(m)) by {
                reveal(basic);
            }
            lemma_plain(s, m, log, x);
        },
        Stage::DropStale(i) => {
            let m = s.at(Stage::Gate(i, 0));
            assert(n == m) by {
                reveal(RunView::on_failed_file);
            }
            assert(basic(m)) by {
                reveal(basic);
            }
            lemma_plain(s, m, log, x);
        },
        Stage::Copying(i, _) => {
            let m = RunView { why: e, ..s }.at(Stage::CopyFailed(i));
            assert(n == m) by {
                reveal(RunView::on_failed_file);
            }
            assert(basic(m)) by {
                reveal(basic);
            }
            lemma_plain(s, m, log, x);
        },
        Stage::DropEmpty(i) => {
            let m = s.copy_problem(i as int).s;
            assert(n == m) by {
                reveal(RunView::on_failed_file);
            }
            assert(basic(m)) by {
                reveal(basic);
            }
            lemma_plain(s, m, log, x);
        },
        Stage::Verify(i) => {
            let m = s.file_problem(i as int, "verify unreadable: "@ + e).s;
            assert(n == m) by {
                reveal(RunView::on_failed_file);
            }
            assert(basic(m)) by {
                reveal(basic);
            }
            lemma_plain(s, m, log, x);
        },
        Stage::DropBad(i) => {
            let m = s.bad_copy(i as int).s;
            assert(n == m) by {
                reveal(RunView::on_failed_file);
            }
            assert(basic(m)) by {
                reveal(basic);
            }
            lemma_plain(s, m, log, x);
        },
        Stage::Rename(i) => {
            let m = s.rename_failed(i as int, e).s;
            assert(n == m) by {
                reveal(RunView::on_failed_file);
            }
            assert(basic(m)) by {
                reveal(basic);
            }
            lemma_plain(s, m, log, x);
        },
        Stage::DropStuck(i) => {
            let m = s.to_file(i + 1);
            assert(n == m) by {
                reveal(RunView::on_failed_file);
            }
            assert(basic(m)) by {
                reveal(basic);
            }
            lemma_plain(s, m, log, x);
        },
        Stage::Stamp(i) => {
            let m = s.at(Stage::Recording(i));
            assert(n == m) by {
                reveal(RunView::on_failed_file);
            }
            assert(basic(m)) by {
                reveal(basic);
            }
            lemma_stamped(s, m, log, x, i as int);
        },
        _ => {
            assert(n == s) by {
                reveal(RunView::on_failed_file);
            }
            lemma_idle(s, log, x);
        },
    }
}

#[verifier::rlimit(50)]
#[verifier::spinoff_prover]
proof fn lemma_failed_late(s: RunView, log: Seq<Exchange>, e: Seq<char>)
    requires
        good(s, log),
    ensures
        s.on_failed_late(e).s.job == s.job,
        good(s.on_failed_late(e).s, log.push((s.ask(), AnswerView::Failed(e)))),
{
    let n = s.on_failed_late(e).s;
    let x = (s.ask(), AnswerView::Failed(e));
    match s.stage {
        Stage::FirstFlush
        | Stage::AllCopied
        | Stage::DeleteRecord(_)
        | Stage::SecondFlush
        | Stage::Complete
        | Stage::RemoveJournal => {
            let m = s.fail(Kind::Passed, e);
            assert(n == m) by {
                reveal(RunView::on_failed_late);
            }
            assert(basic(m)) by {
                reveal(basic);
            }
            lemma_plain(s, m, log, x);
        },
        Stage::Barrier => {
            let m = s.problem(
                Place::Here,
                "cannot make the destination durable: "@ + e + " — originals kept"@,
            ).conclude();
            assert(n == m) by {
                reveal(RunView::on_failed_late);
            }
            assert(basic(m)) by {
                reveal(basic);
            }
            lemma_plain(s, m, log, x);
        },
        Stage::Deleting(i) => {
            let m = s.problem(Place::File(i), "source not removed: "@ + e).to_delete(i + 1);
            assert(n == m) by {
                reveal(RunView::on_failed_late);
            }
            assert(basic(m)) by {
                reveal(basic);
            }
            lemma_deleting(s, m, log, x);
        },
        _ => {
            assert(n == s) by {
                reveal(RunView::on_failed_late);
            }
            lemma_idle(s, log, x);
        },
    }
}

proof fn lemma_failed(s: RunView, log: Seq<Exchange>, e: Seq<char>)
    requires
        good(s, log),
    ensures
        s.on_failed(e).s.job == s.job,
        good(s.on_failed(e).s, log.push((s.ask(), AnswerView::Failed(e)))),
{
    lemma_failed_early(s, log, e);
    lemma_failed_file(s, log, e);
    lemma_failed_late(s, log, e);
    reveal(RunView::on_failed);
}

/// The hash of the source at hand agrees with the record, so far.
proof fn lemma_source_agrees(s: RunView, n: RunView, log: Seq<Exchange>, i: int, h: u128)
    requires
        good(s, log),
        basic(n),
        s.stage == Stage::RecordedSource(i as usize),
        0 <= i <= usize::MAX,
        text::hex(h as nat, 32) == s.record(i)->0.hash,
        n == s.at(Stage::RecordedDest(i as usize)),
    ensures
        good(n, log.push((s.ask(), AnswerView::Hash(h)))),
{
    let x = (s.ask(), AnswerView::Hash(h));
    lemma_carry(s, n, log, x);
    reveal(rests_on);
    assert(n.record(i) == s.record(i));
    assert(log.push(x)[log.len() as int] == (AskView::HashSource(i), AnswerView::Hash(h)));
    assert(has_hash(log.push(x), AskView::HashSource(i), s.record(i)->0.hash));
}

/// A file the journal calls done has been found in place.
proof fn lemma_present_now(s: RunView, n: RunView, log: Seq<Exchange>, x: Exchange, i: int)
    requires
        basic(n),
        all_vouched(s, log),
        0 <= i < s.job.n(),
        n == s.present(i).s,
        was_found(s, log.push(x), i),
    ensures
        good(n, log.push(x)),
{
    reveal(rests_on);
    reveal(all_vouched);
    reveal(seen_logged);
    reveal(resume_ok);
    assert(n.record(i) == s.record(i));
    assert(was_found(n, log.push(x), i));
    assert(vouched(n, log.push(x), i));
    assert forall|f: usize| #[trigger] n.proven.contains(f) implies vouched(
        n,
        log.push(x),
        f as int,
    ) by {
        if s.proven.contains(f) {
            lemma_vouched_grows(s, n, log, x, f as int);
        } else {
            assert(f == i) by {
                reveal(basic);
            }
        }
    }
}

proof fn lemma_dest_agrees(s: RunView, n: RunView, log: Seq<Exchange>, i: int, h: u128)
    requires
        good(s, log),
        basic(n),
        s.stage == Stage::RecordedDest(i as usize),
        0 <= i < s.job.n(),
        s.job.n() <= usize::MAX,
        text::hex(h as nat, 32) == s.record(i)->0.hash,
        n == s.present(i).s,
    ensures
        good(n, log.push((s.ask(), AnswerView::Hash(h)))),
{
    let x = (s.ask(), AnswerView::Hash(h));
    let hex = s.record(i)->0.hash;
    assert(was_found(s, log.push(x), i)) by {
        reveal(rests_on);
        reveal(seen_logged);
        lemma_hash_grows(log, x, AskView::HashSource(i), hex);
        assert(log.push(x)[log.len() as int] == (AskView::HashDest(i), AnswerView::Hash(h)));
        assert(has_hash(log.push(x), AskView::HashDest(i), hex));
        let t = choose|t: int|
            0 <= t < log.len() && #[trigger] log[t] == (
                AskView::StatDest(i),
                AnswerView::Stat(s.seen),
            );
        assert(log.push(x)[t] == log[t]);
    }
    lemma_present_now(s, n, log, x, i);
}

/// A checkpoint was just read back.
#[verifier::spinoff_prover]
proof fn lemma_span_now(s: RunView, n: RunView, log: Seq<Exchange>, i: int, k: int, h: u128)
    requires
        good(s, log),
        basic(n),
        s.stage == Stage::Span(i as usize, k as usize),
        0 <= i <= usize::MAX,
        0 <= k <= usize::MAX,
        n == s.span_hashed(i, k, h).s,
    ensures
        good(n, log.push((s.ask(), AnswerView::Hash(h)))),
{
    let x = (s.ask(), AnswerView::Hash(h));
    let chain = s.prev.partial->0.chain;
    let c = chain[k];
    assert(0 <= k < chain.len() && s.chain(i) == Some(chain)) by {
        reveal(basic);
        reveal(resume_ok);
    }
    if text::hex(h as nat, 32) != c.span_hash {
        lemma_plain(s, n, log, x);
    } else {
        assert(seen_logged(n, log.push(x)) && all_vouched(n, log.push(x))) by {
            let q = n.at(Stage::DropStale(i as usize));
            lemma_carry(s, q, log, x);
            reveal(seen_logged);
            reveal(all_vouched);
            assert forall|f: usize| #[trigger] n.proven.contains(f) implies vouched(
                n,
                log.push(x),
                f as int,
            ) by {
                assert(q.proven.contains(f));
                lemma_vouched_stays(q, n, log.push(x), f as int);
            }
        }
        assert(resume_ok(n, log.push(x))) by {
            reveal(resume_ok);
            lemma_spans_grow(s, n, log, x, i, k);
            assert(log.push(x)[log.len() as int] == x);
            assert(span_checked(log.push(x), i, c));
            assert(spans_checked(n, log.push(x), i, k + 1));
        }
        assert(rests_on(n, log.push(x))) by {
            reveal(rests_on);
        }
    }
}

/// The staged copy was just read back.
proof fn lemma_verified_now(s: RunView, n: RunView, log: Seq<Exchange>, i: int, h: u128)
    requires
        good(s, log),
        basic(n),
        s.stage == Stage::Verify(i as usize),
        s.job.verify,
        0 <= i <= usize::MAX,
        n == s.verified(i, h),
    ensures
        good(n, log.push((s.ask(), AnswerView::Hash(h)))),
{
    let x = (s.ask(), AnswerView::Hash(h));
    lemma_carry(s, n, log, x);
    reveal(rests_on);
    assert(log.push(x).take(log.len() as int) =~= log);
    assert(log.push(x)[log.len() as int] == (AskView::HashPart(i), AnswerView::Hash(h)));
    if s.hash == Some(h) {
        assert(was_verified(log.push(x), i, h));
    }
}

#[verifier::spinoff_prover]
proof fn lemma_hashed_source(s: RunView, log: Seq<Exchange>, h: u128)
    requires
        good(s, log),
        s.stage is RecordedSource,
    ensures
        s.on_hash(h).s.job == s.job,
        good(s.on_hash(h).s, log.push((s.ask(), AnswerView::Hash(h)))),
{
    let n = s.on_hash(h).s;
    let x = (s.ask(), AnswerView::Hash(h));
    match s.stage {
        Stage::RecordedSource(i) => {
            let m = if text::hex(h as nat, 32) == s.record(i as int)->0.hash {
                s.at(Stage::RecordedDest(i))
            } else {
                s.unsettled(i as int).s
            };
            assert(n == m) by {
                reveal(RunView::on_hash);
            }
            assert(basic(m)) by {
                reveal(basic);
                reveal(no_clash);
            }
            if text::hex(h as nat, 32) == s.record(i as int)->0.hash {
                lemma_source_agrees(s, m, log, i as int, h);
            } else {
                lemma_plain(s, m, log, x);
            }
        },
        _ => {},
    }
}

#[verifier::spinoff_prover]
proof fn lemma_hashed_dest(s: RunView, log: Seq<Exchange>, h: u128)
    requires
        good(s, log),
        s.stage is RecordedDest,
    ensures
        s.on_hash(h).s.job == s.job,
        good(s.on_hash(h).s, log.push((s.ask(), AnswerView::Hash(h)))),
{
    let n = s.on_hash(h).s;
    let x = (s.ask(), AnswerView::Hash(h));
    match s.stage {
        Stage::RecordedDest(i) => {
            let m = if text::hex(h as nat, 32) == s.record(i as int)->0.hash {
                s.present(i as int).s
            } else {
                s.unsettled(i as int).s
            };
            assert(n == m) by {
                reveal(RunView::on_hash);
            }
            assert(basic(m)) by {
                reveal(basic);
                reveal(no_clash);
            }
            if text::hex(h as nat, 32) == s.record(i as int)->0.hash {
                assert(i < s.job.n() && s.job.n() <= usize::MAX) by {
                    reveal(basic);
                }
                lemma_dest_agrees(s, m, log, i as int, h);
            } else {
                lemma_plain(s, m, log, x);
            }
        },
        _ => {},
    }
}

#[verifier::spinoff_prover]
proof fn lemma_hashed_same(s: RunView, log: Seq<Exchange>, h: u128)
    requires
        good(s, log),
        s.stage is SameDest,
    ensures
        s.on_hash(h).s.job == s.job,
        good(s.on_hash(h).s, log.push((s.ask(), AnswerView::Hash(h)))),
{
    let n = s.on_hash(h).s;
    let x = (s.ask(), AnswerView::Hash(h));
    match s.stage {
        Stage::SameDest(i) => {
            let m = if s.hash == Some(h) {
                s.same(i as int).s
            } else {
                s.start(i as int).s
            };
            assert(n == m) by {
                reveal(RunView::on_hash);
            }
            assert(basic(m)) by {
                reveal(basic);
                reveal(no_clash);
            }
            lemma_plain(s, m, log, x);
        },
        _ => {},
    }
}

#[verifier::rlimit(60)]
#[verifier::spinoff_prover]
proof fn lemma_hashed(s: RunView, log: Seq<Exchange>, h: u128)
    requires
        good(s, log),
    ensures
        s.on_hash(h).s.job == s.job,
        good(s.on_hash(h).s, log.push((s.ask(), AnswerView::Hash(h)))),
{
    let n = s.on_hash(h).s;
    let x = (s.ask(), AnswerView::Hash(h));
    match s.stage {
        Stage::RecordedSource(_) => {
            lemma_hashed_source(s, log, h);
        },
        Stage::RecordedDest(_) => {
            lemma_hashed_dest(s, log, h);
        },
        Stage::SameSource(i) => {
            let m = RunView { hash: Some(h), ..s }.at(Stage::SameDest(i));
            assert(n == m) by {
                reveal(RunView::on_hash);
            }
            assert(basic(m)) by {
                reveal(basic);
            }
            lemma_plain(s, m, log, x);
        },
        Stage::SameDest(_) => {
            lemma_hashed_same(s, log, h);
        },
        Stage::Span(i, k) => {
            let m = s.span_hashed(i as int, k as int, h).s;
            assert(n == m) by {
                reveal(RunView::on_hash);
            }
            assert(basic(m)) by {
                reveal(basic);
            }
            lemma_span_now(s, m, log, i as int, k as int, h);
        },
        Stage::Verify(i) => {
            let m = s.verified(i as int, h);
            assert(n == m) by {
                reveal(RunView::on_hash);
            }
            assert(basic(m)) by {
                reveal(basic);
            }
            assert(s.job.verify) by {
                reveal(basic);
            }
            lemma_verified_now(s, m, log, i as int, h);
        },
        _ => {
            assert(n == s) by {
                reveal(RunView::on_hash);
            }
            lemma_idle(s, log, x);
        },
    }
}

proof fn lemma_failed_at(s: RunView, log: Seq<Exchange>, p: Seq<char>, e: Seq<char>)
    requires
        good(s, log),
    ensures
        s.on_failed_at(p, e).s.job == s.job,
        good(s.on_failed_at(p, e).s, log.push((s.ask(), AnswerView::FailedAt(p, e)))),
{
    let n = s.on_failed_at(p, e).s;
    let x = (s.ask(), AnswerView::FailedAt(p, e));
    match s.stage {
        Stage::Parent(i, _) => {
            let m = s.file_problem(i as int, "cannot create directory "@ + p + ": "@ + e).s;
            assert(n == m) by {
                reveal(RunView::on_failed_at);
            }
            assert(basic(m)) by {
                reveal(basic);
            }
            lemma_plain(s, m, log, x);
        },
        _ => {
            assert(n == s) by {
                reveal(RunView::on_failed_at);
            }
            lemma_idle(s, log, x);
        },
    }
}

proof fn lemma_paths(s: RunView, log: Seq<Exchange>, f: FactsView)
    requires
        good(s, log),
    ensures
        s.on_paths(f).s.job == s.job,
        good(s.on_paths(f).s, log.push((s.ask(), AnswerView::Paths(f)))),
{
    let n = s.on_paths(f).s;
    let x = (s.ask(), AnswerView::Paths(f));
    match s.stage {
        Stage::Paths => {
            let m = s.paths_known(f);
            assert(n == m) by {
                reveal(RunView::on_paths);
            }
            assert(basic(m)) by {
                reveal(basic);
                reveal(pair_ok);
            }
            lemma_plain(s, m, log, x);
        },
        _ => {
            assert(n == s) by {
                reveal(RunView::on_paths);
            }
            lemma_idle(s, log, x);
        },
    }
}

proof fn lemma_loaded(s: RunView, log: Seq<Exchange>, prev: ResumeView)
    requires
        good(s, log),
    ensures
        s.on_loaded(prev).s.job == s.job,
        good(s.on_loaded(prev).s, log.push((s.ask(), AnswerView::Loaded(prev)))),
{
    let n = s.on_loaded(prev).s;
    let x = (s.ask(), AnswerView::Loaded(prev));
    match s.stage {
        Stage::Load => {
            let m = s.loaded(prev).s;
            assert(n == m) by {
                reveal(RunView::on_loaded);
            }
            assert(basic(m)) by {
                reveal(basic);
            }
            assert(good(m, log.push(x))) by {
                reveal(basic);
                reveal(rests_on);
                reveal(all_vouched);
                reveal(seen_logged);
                reveal(resume_ok);
            }
        },
        _ => {
            assert(n == s) by {
                reveal(RunView::on_loaded);
            }
            lemma_idle(s, log, x);
        },
    }
}

proof fn lemma_stats(s: RunView, log: Seq<Exchange>, stats: Seq<Option<DestStat>>)
    requires
        good(s, log),
    ensures
        s.on_stats(stats).s.job == s.job,
        good(s.on_stats(stats).s, log.push((s.ask(), AnswerView::Stats(stats)))),
{
    let n = s.on_stats(stats).s;
    let x = (s.ask(), AnswerView::Stats(stats));
    match s.stage {
        Stage::Clashes => {
            let m = s.clashes_known(stats);
            assert(n == m) by {
                reveal(RunView::on_stats);
            }
            assert(basic(m)) by {
                reveal(basic);
            }
            lemma_plain(s, m, log, x);
        },
        _ => {
            assert(n == s) by {
                reveal(RunView::on_stats);
            }
            lemma_idle(s, log, x);
        },
    }
}

proof fn lemma_stopped(s: RunView, log: Seq<Exchange>, written: u64)
    requires
        good(s, log),
    ensures
        s.on_stopped(written).s.job == s.job,
        good(s.on_stopped(written).s, log.push((s.ask(), AnswerView::Stopped { written }))),
{
    let n = s.on_stopped(written).s;
    let x = (s.ask(), AnswerView::Stopped { written });
    match s.stage {
        Stage::Copying(_, _) => {
            let m = s.wrote(written).stop(Stage::FirstFlush);
            assert(n == m) by {
                reveal(RunView::on_stopped);
            }
            assert(basic(m)) by {
                reveal(basic);
            }
            lemma_plain(s, m, log, x);
        },
        _ => {
            assert(n == s) by {
                reveal(RunView::on_stopped);
            }
            lemma_idle(s, log, x);
        },
    }
}

proof fn lemma_copied(s: RunView, log: Seq<Exchange>, hash: u128, written: u64)
    requires
        good(s, log),
    ensures
        s.on_copied(hash, written).s.job == s.job,
        good(
            s.on_copied(hash, written).s,
            log.push((s.ask(), AnswerView::Copied { hash, written })),
        ),
{
    let n = s.on_copied(hash, written).s;
    let x = (s.ask(), AnswerView::Copied { hash, written });
    match s.stage {
        Stage::Copying(i, _) => {
            let m = s.copied(i as int, hash, written);
            assert(n == m) by {
                reveal(RunView::on_copied);
            }
            assert(basic(m)) by {
                reveal(basic);
            }
            lemma_carry(s, m, log, x);
            assert(rests_on(m, log.push(x))) by {
                reveal(rests_on);
                assert(log.push(x)[log.len() as int] == x);
                assert(was_copied(log.push(x), i as int, hash));
            }
        },
        _ => {
            assert(n == s) by {
                reveal(RunView::on_copied);
            }
            lemma_idle(s, log, x);
        },
    }
}

proof fn lemma_source(s: RunView, log: Seq<Exchange>, st: Option<SourceStat>)
    requires
        good(s, log),
    ensures
        s.on_source(st).s.job == s.job,
        good(s.on_source(st).s, log.push((s.ask(), AnswerView::Source(st)))),
{
    let n = s.on_source(st).s;
    let x = (s.ask(), AnswerView::Source(st));
    match s.stage {
        Stage::DeleteLook(i) => {
            let m = s.original_seen(i as int, st);
            assert(n == m) by {
                reveal(RunView::on_source);
            }
            assert(basic(m)) by {
                reveal(basic);
            }
            assert(s.proven.contains(i)) by {
                reveal(rests_on);
            }
            lemma_deleting(s, m, log, x);
        },
        _ => {
            assert(n == s) by {
                reveal(RunView::on_source);
            }
            lemma_idle(s, log, x);
        },
    }
}

/// The destination of the file at hand was just looked at.
#[verifier::spinoff_prover]
proof fn lemma_stat(s: RunView, log: Seq<Exchange>, st: Option<DestStat>)
    requires
        good(s, log),
    ensures
        s.on_stat(st).s.job == s.job,
        good(s.on_stat(st).s, log.push((s.ask(), AnswerView::Stat(st)))),
{
    let n = s.on_stat(st).s;
    let x = (s.ask(), AnswerView::Stat(st));
    match s.stage {
        Stage::Look(i) => {
            let m = s.looked(i as int, st).s;
            assert(n == m) by {
                reveal(RunView::on_stat);
            }
            assert(basic(m) && i < s.job.n()) by {
                reveal(basic);
                reveal(no_clash);
            }
            let k = log.len() as int;
            assert(log.push(x)[k] == (AskView::StatDest(i as int), AnswerView::Stat(st)));
            assert(was_seen(log.push(x), i as int, st));
            let now = RunView { seen: st, ..s };
            assert(all_vouched(now, log)) by {
                reveal(all_vouched);
                assert forall|f: usize| #[trigger]
                    now.proven.contains(f) implies vouched(now, log, f as int) by {
                    assert(s.proven.contains(f));
                    lemma_vouched_stays(s, now, log, f as int);
                }
            }
            let e = s.job.m.files[i as int];
            if now.record(i as int) is Some && engine::settled(st, e, now.record(i as int)->0)
                && !s.job.paranoid {
                assert(was_found(now, log.push(x), i as int));
                lemma_present_now(now, m, log, x, i as int);
            } else {
                assert(seen_logged(m, log.push(x))) by {
                    reveal(seen_logged);
                }
                assert(rests_on(m, log.push(x))) by {
                    reveal(rests_on);
                }
                assert(resume_step(s, m));
                lemma_resume(s, m, log, x);
                assert(all_vouched(m, log.push(x))) by {
                    reveal(all_vouched);
                    assert forall|f: usize| #[trigger]
                        m.proven.contains(f) implies vouched(m, log.push(x), f as int) by {
                        assert(s.proven.contains(f));
                        lemma_vouched_grows(s, m, log, x, f as int);
                    }
                }
            }
        },
        _ => {
            assert(n == s) by {
                reveal(RunView::on_stat);
            }
            lemma_idle(s, log, x);
        },
    }
}

proof fn lemma_step(s: RunView, log: Seq<Exchange>, a: AnswerView)
    requires
        good(s, log),
    ensures
        s.step(a).s.job == s.job,
        good(s.step(a).s, log.push((s.ask(), a))),
{
    match a {
        AnswerView::Flag(b) => lemma_flag(s, log, b),
        AnswerView::Done => lemma_done(s, log),
        AnswerView::Failed(e) => lemma_failed(s, log, e),
        AnswerView::FailedAt(p, e) => lemma_failed_at(s, log, p, e),
        AnswerView::Paths(f) => lemma_paths(s, log, f),
        AnswerView::Loaded(prev) => lemma_loaded(s, log, prev),
        AnswerView::Stats(stats) => lemma_stats(s, log, stats),
        AnswerView::Stat(st) => lemma_stat(s, log, st),
        AnswerView::Hash(h) => lemma_hashed(s, log, h),
        AnswerView::Copied { hash, written } => lemma_copied(s, log, hash, written),
        AnswerView::Stopped { written } => lemma_stopped(s, log, written),
        AnswerView::Source(st) => lemma_source(s, log, st),
    }
}

proof fn lemma_good(job: JobView, answers: Seq<AnswerView>)
    requires
        sane(job),
    ensures
        good(Log::after(job, answers).at, Log::after(job, answers).log),
        Log::after(job, answers).at.job == job,
    decreases answers.len(),
{
    if answers.len() == 0 {
        reveal(basic);
        reveal(rests_on);
        reveal(seen_logged);
        reveal(all_vouched);
        reveal(resume_ok);
    } else {
        lemma_good(job, answers.drop_last());
        let l = Log::after(job, answers.drop_last());
        lemma_step(l.at, l.log, answers.last());
    }
}

/// The file at hand was looked at, and what was there is what the transfer goes by.
pub(crate) proof fn lemma_seen(job: JobView, answers: Seq<AnswerView>)
    requires
        sane(job),
    ensures
        ({
            let l = Log::after(job, answers);
            &&& l.at.job == job
            &&& looked_at(l.at.stage) ==> was_seen(
                l.log,
                run::file_of(l.at.stage)->0,
                l.at.seen,
            )
        }),
{
    lemma_good(job, answers);
    reveal(seen_logged);
}

// ── what every transfer guarantees ───────────────────────────────────────────
/// What the evidence is for a file that is about to be recorded, or found in place.
pub(crate) proof fn lemma_evidence(job: JobView, answers: Seq<AnswerView>)
    requires
        sane(job),
    ensures
        ({
            let l = Log::after(job, answers);
            &&& l.at.stage matches Stage::Recording(i) ==> l.at.hash is Some && was_placed(
                job,
                l.log,
                i as int,
                l.at.hash->0,
            )
            &&& l.at.stage matches Stage::RecordedDest(i) ==> seen_settled(l.at, i as int)
                && has_hash(l.log, AskView::HashSource(i as int), l.at.record(i as int)->0.hash)
        }),
{
    lemma_good(job, answers);
    reveal(rests_on);
}

/// A transfer stays in order: its stage fits its job, and every exchange is logged.
pub(crate) proof fn lemma_in_order(job: JobView, answers: Seq<AnswerView>)
    requires
        sane(job),
    ensures
        Log::after(job, answers).log.len() == answers.len(),
        Log::after(job, answers).at.job == job,
        Log::after(job, answers).at.stage_ok(),
{
    lemma_good(job, answers);
    lemma_log_len(job, answers);
    reveal(basic);
}

/// The exchange at step `t` is the question of that moment and the answer to it.
proof fn lemma_exchange(job: JobView, answers: Seq<AnswerView>, t: int)
    requires
        0 <= t < answers.len(),
    ensures
        Log::after(job, answers).log.len() == answers.len(),
        Log::after(job, answers).log[t] == (
            Log::after(job, answers.take(t)).at.ask(),
            answers[t],
        ),
    decreases answers.len(),
{
    let init = answers.drop_last();
    lemma_log_len(job, init);
    if t == answers.len() - 1 {
        assert(answers.take(t) =~= init);
    } else {
        lemma_exchange(job, init, t);
        assert(init.take(t) =~= answers.take(t));
    }
}

proof fn lemma_log_len(job: JobView, answers: Seq<AnswerView>)
    ensures
        Log::after(job, answers).log.len() == answers.len(),
    decreases answers.len(),
{
    if answers.len() > 0 {
        lemma_log_len(job, answers.drop_last());
    }
}

// ── the laws ─────────────────────────────────────────────────────────────────
/// A file is never in neither place. An original is removed only in a move; only when its
/// copy could be relied on before the whole destination was made durable, which was then
/// recorded; only when at that moment nothing had gone wrong and nobody had asked to stop;
/// and only when the original had just been found unchanged.
pub proof fn law_an_original_goes_last(job: JobView, answers: Seq<AnswerView>, i: int)
    requires
        sane(job),
        Log::after(job, answers).at.ask() == AskView::DeleteSource(i),
    ensures
        job.mode is Move,
        ({
            let l = Log::after(job, answers);
            &&& l.log.contains(unchanged(job, i))
            &&& exists|t: int|
                0 <= t < answers.len() && #[trigger] l.log[t] == (
                    AskView::SyncDestination,
                    AnswerView::Done,
                ) && vouched(l.at, l.log.take(t), i) && recorded_after(l.log, t) && Log::after(
                    job,
                    answers.take(t),
                ).at.may_delete()
        }),
{
    lemma_good(job, answers);
    lemma_log_len(job, answers);
    let l = Log::after(job, answers);
    let s = l.at;
    assert(s.stage == Stage::Deleting(i as usize) && 0 <= i < job.n() && i as usize == i) by {
        reveal(basic);
    }
    reveal(rests_on);
    let t = choose|t: int| #[trigger] barrier_at(s, l.log, t) && recorded_after(l.log, t);
    lemma_exchange(job, answers, t);
    lemma_good(job, answers.take(t));
    let before = Log::after(job, answers.take(t)).at;
    assert(before.ask() == AskView::SyncDestination);
    assert(before.stage is Barrier);
    assert(before.may_delete());
    assert(s.proven.contains(i as usize));
    assert(vouched(s, l.log.take(t), i));
    assert(l.log[t] == (AskView::SyncDestination, AnswerView::Done));
}

/// A copy never removes an original.
pub proof fn law_a_copy_removes_nothing(job: JobView, answers: Seq<AnswerView>)
    requires
        sane(job),
        job.mode is Copy,
    ensures
        !(Log::after(job, answers).at.ask() is DeleteSource),
{
    lemma_good(job, answers);
    reveal(rests_on);
}

/// A dry run looks and reports: it asks for nothing that would be written.
pub proof fn law_a_dry_run_writes_nothing(job: JobView, answers: Seq<AnswerView>)
    requires
        sane(job),
        job.dry_run,
    ensures
        match Log::after(job, answers).at.ask() {
            AskView::DestinationIsDir | AskView::Load(_) | AskView::Finished { .. }
            | AskView::Failed { .. } => true,
            AskView::Paths { into, probe } => !probe,
            _ => false,
        },
{
    lemma_good(job, answers);
    reveal(basic);
}

/// A pair that must not be served is refused before anything is written: past the look at
/// the pair, source and destination are neither one place nor one inside the other.
pub proof fn law_a_bad_pair_goes_no_further(job: JobView, answers: Seq<AnswerView>)
    requires
        sane(job),
    ensures
        match Log::after(job, answers).at.ask() {
            AskView::DestinationIsDir | AskView::Paths { .. } | AskView::Failed { .. } => true,
            _ => Log::after(job, answers).at.facts.refusal(job.mode, job.os) is None,
        },
{
    lemma_good(job, answers);
    reveal(basic);
    reveal(pair_ok);
}

/// A refusal is final, and says why.
pub proof fn law_a_refusal_is_final(s: RunView, f: FactsView, a: AnswerView)
    requires
        s.stage is Paths,
        f.refusal(s.job.mode, s.job.os) is Some,
    ensures
        ({
            let r = s.step(AnswerView::Paths(f)).s;
            &&& r.ask() == (AskView::Failed {
                kind: Kind::InvalidInput,
                why: f.refusal(s.job.mode, s.job.os)->0,
            })
            &&& r.step(a).s == r
        }),
{
    let r = s.step(AnswerView::Paths(f)).s;
    assert(r == s.paths_known(f)) by {
        reveal(RunView::on_paths);
    }
    law_failed_stays(r, a);
}

/// A transfer that has failed does nothing more.
#[verifier::rlimit(50)]
#[verifier::spinoff_prover]
pub proof fn law_failed_stays(s: RunView, a: AnswerView)
    requires
        s.stage is Failed,
    ensures
        s.step(a).s == s,
        s.step(a).out.len() == 0,
{
    match a {
        AnswerView::Flag(_) => {
            reveal(RunView::on_flag);
            reveal(RunView::on_flag_late);
        },
        AnswerView::Done => {
            reveal(RunView::on_done);
            reveal(RunView::on_done_late);
        },
        AnswerView::Failed(_) => {
            reveal(RunView::on_failed);
            reveal(RunView::on_failed_late);
        },
        AnswerView::FailedAt(_, _) => {
            reveal(RunView::on_failed_at);
        },
        AnswerView::Paths(_) => {
            reveal(RunView::on_paths);
        },
        AnswerView::Loaded(_) => {
            reveal(RunView::on_loaded);
        },
        AnswerView::Stats(_) => {
            reveal(RunView::on_stats);
        },
        AnswerView::Stat(_) => {
            reveal(RunView::on_stat);
        },
        AnswerView::Hash(_) => {
            reveal(RunView::on_hash);
        },
        AnswerView::Copied { .. } => {
            reveal(RunView::on_copied);
        },
        AnswerView::Stopped { .. } => {
            reveal(RunView::on_stopped);
        },
        AnswerView::Source(_) => {
            reveal(RunView::on_source);
        },
    }
}

/// Where existing files are to be kept, a file that differed when its place was looked at is
/// neither written over nor copied at all.
pub proof fn law_a_kept_file_is_not_touched(job: JobView, answers: Seq<AnswerView>, i: int)
    requires
        sane(job),
        job.on_exists is Keep,
        Log::after(job, answers).at.ask() == AskView::Rename(i) || (Log::after(
            job,
            answers,
        ).at.ask() is Copy && Log::after(job, answers).at.ask()->Copy_file == i),
    ensures
        exists|st: Option<DestStat>| #[trigger]
            was_seen(Log::after(job, answers).log, i, st) && !engine::clashes(
                st,
                job.m.files[i],
            ),
{
    lemma_good(job, answers);
    let l = Log::after(job, answers);
    reveal(basic);
    reveal(no_clash);
    reveal(seen_logged);
    assert(run::file_of(l.at.stage) == Some(i));
    assert(was_seen(l.log, i, l.at.seen));
}

/// A file is recorded as done only once it has been copied and flushed, verified where that
/// was asked for, and renamed into place; the record carries the hash of the source.
pub proof fn law_a_record_follows_the_data(
    job: JobView,
    answers: Seq<AnswerView>,
    r: RecordView,
)
    requires
        sane(job),
        Log::after(job, answers).at.ask() == AskView::Append(r),
        r is FileDone,
    ensures
        exists|i: int, h: u128| #[trigger]
            was_placed(job, Log::after(job, answers).log, i, h) && 0 <= i < job.n() && r
                == done_line(job, i, h),
{
    lemma_good(job, answers);
    let l = Log::after(job, answers);
    reveal(rests_on);
    let i = run::file_of(l.at.stage)->0;
    assert(0 <= i < job.n()) by {
        reveal(basic);
    }
    assert(was_placed(job, l.log, i, l.at.hash->0));
    assert(r == done_line(job, i, l.at.hash->0));
}

/// A checkpoint is never trusted blind. A file is continued past its first byte only from
/// the end of a chain of checkpoints that were taken of the source as it is now, that reach
/// back to byte zero, and of which every span was read off the medium and still hashed to
/// what was recorded.
pub proof fn law_no_checkpoint_is_trusted_blind(
    job: JobView,
    answers: Seq<AnswerView>,
    i: int,
    r: u64,
)
    requires
        sane(job),
        Log::after(job, answers).at.ask() == (AskView::Copy { file: i, resume: r }),
        r > 0,
    ensures
        may_resume(Log::after(job, answers).at, Log::after(job, answers).log, i, r),
{
    lemma_good(job, answers);
    reveal(resume_ok);
}

/// The checkpoints a file is continued from cover every byte below the resume point, each
/// exactly once: byte `b` lies in the span of one of them.
pub proof fn law_the_resumed_prefix_is_covered(
    s: RunView,
    log: Seq<Exchange>,
    i: int,
    r: u64,
    b: int,
)
    requires
        s.prev.wf(),
        may_resume(s, log, i, r),
        0 <= b < r,
    ensures
        exists|k: int|
            0 <= k < s.chain(i)->0.len() && (#[trigger] s.chain(i)->0[k]).off - s.chain(
                i,
            )->0[k].span <= b < s.chain(i)->0[k].off && span_checked(log, i, s.chain(i)->0[k]),
{
    let chain = s.chain(i)->0;
    lemma_covered(chain, b, chain.len() - 1);
    let k = choose|k: int|
        0 <= k <= chain.len() - 1 && (#[trigger] chain[k]).off - chain[k].span <= b < chain[k].off;
    assert(span_checked(log, i, chain[k]));
}

proof fn lemma_covered(chain: Seq<CkptView>, b: int, n: int)
    requires
        0 <= n < chain.len(),
        chain[0].off == chain[0].span,
        forall|j: int|
            #![trigger chain[j]]
            1 <= j < chain.len() ==> chain[j].off >= chain[j].span && chain[j].off
                - chain[j].span == chain[j - 1].off,
        0 <= b < chain[n].off,
    ensures
        exists|k: int|
            0 <= k <= n && (#[trigger] chain[k]).off - chain[k].span <= b < chain[k].off,
    decreases n,
{
    if n > 0 && b < chain[n].off - chain[n].span {
        lemma_covered(chain, b, n - 1);
    } else {
        assert(chain[n].off - chain[n].span <= b);
    }
}

/// The journal is removed, and the job called done, only when nothing went wrong, nobody
/// stopped it, and of every single file it is known what became of it: it was copied, flushed,
/// renamed into place and recorded, or found in place, or left out because its place was taken
/// and was to be kept.
pub proof fn law_done_means_everything(job: JobView, answers: Seq<AnswerView>)
    requires
        sane(job),
        Log::after(job, answers).at.ask() is RemoveJournal || Log::after(
            job,
            answers,
        ).at.ask() == (AskView::Finished { dry: false, done: true }),
    ensures
        clean(Log::after(job, answers).at),
        Log::after(job, answers).at.sum.copied + Log::after(job, answers).at.sum.skipped == job.n(),
        forall|i: int|
            0 <= i < job.n() ==> #[trigger] accounted_for(
                Log::after(job, answers).at,
                Log::after(job, answers).log,
                i,
            ),
{
    lemma_good(job, answers);
    reveal(basic);
    arrival_laws::lemma_arrived(job, answers);
}

/// A transfer that ended with nothing gone wrong and nobody stopping it has left no file out:
/// each was copied or skipped, and of each it is known what became of it.
pub proof fn law_a_clean_end_leaves_no_file_out(job: JobView, answers: Seq<AnswerView>)
    requires
        sane(job),
        !job.dry_run,
        Log::after(job, answers).at.stage is Finished,
        clean(Log::after(job, answers).at),
    ensures
        Log::after(job, answers).at.sum.copied + Log::after(job, answers).at.sum.skipped == job.n(),
        forall|i: int|
            0 <= i < job.n() ==> #[trigger] accounted_for(
                Log::after(job, answers).at,
                Log::after(job, answers).log,
                i,
            ),
{
    lemma_good(job, answers);
    reveal(basic);
    arrival_laws::lemma_arrived(job, answers);
}

/// The counts never run past the job: what was copied and what was skipped together are at
/// most the files there are.
pub proof fn law_counts_stay_within_the_job(job: JobView, answers: Seq<AnswerView>)
    requires
        sane(job),
    ensures
        ({
            let sum = Log::after(job, answers).at.sum;
            &&& 0 <= sum.copied
            &&& 0 <= sum.kept <= sum.skipped
            &&& sum.copied + sum.skipped <= job.n()
            &&& 0 <= sum.verified <= job.n()
            &&& 0 <= sum.deleted <= job.n()
        }),
{
    lemma_good(job, answers);
    reveal(basic);
}

} // verus!
