//! What has to be true before a transfer takes a step that cannot be taken back, and what it
//! does when something goes wrong.

use crate::engine;
use crate::engine::{DestStat, Kind};
use crate::engine_laws;
use crate::journal::{CkptView, RecordView};
use crate::run::{AnswerView, AskView, JobView, Place, RunView, SourceStat, Stage};
use crate::run_laws;
use crate::run_laws::{Exchange, Log};
use crate::text;
use vstd::prelude::*;

verus! {

// ── before an original goes ──────────────────────────────────────────────────
/// An original is removed only in a move. Before it, the whole destination was made durable, at
/// a moment when nobody had asked to stop and not one problem had come up; that all was copied
/// was then recorded; and the original was looked at once more and still had the size and the
/// time of the scan.
pub proof fn law_originals_go_only_from_a_clean_move(
    job: JobView,
    answers: Seq<AnswerView>,
    i: int,
)
    requires
        run_laws::sane(job),
        Log::after(job, answers).at.ask() == AskView::DeleteSource(i),
    ensures
        job.mode is Move,
        ({
            let log = Log::after(job, answers).log;
            &&& exists|t: int, u: int|
                0 <= t < u < log.len() && #[trigger] log[t] == (
                    AskView::SyncDestination,
                    AnswerView::Done,
                ) && #[trigger] log[u] == (
                    AskView::Commit(RecordView::AllCopied),
                    AnswerView::Done,
                ) && Log::after(job, answers.take(t)).at.sum.errors.len() == 0 && !Log::after(
                    job,
                    answers.take(t),
                ).at.sum.stopped
            &&& exists|t: int|
                0 <= t < log.len() && (#[trigger] log[t]).0 == AskView::StatSource(i) && log[t].1
                    == AnswerView::Source(
                    Some(
                        SourceStat {
                            len: job.m.files[i].size,
                            mtime_ns: job.m.files[i].mtime_ns,
                        },
                    ),
                )
        }),
{
    run_laws::law_an_original_goes_last(job, answers, i);
    let l = Log::after(job, answers);
    let log = l.log;
    let t = choose|t: int|
        0 <= t < answers.len() && #[trigger] log[t] == (
            AskView::SyncDestination,
            AnswerView::Done,
        ) && run_laws::vouched(l.at, log.take(t), i) && run_laws::recorded_after(log, t)
            && Log::after(job, answers.take(t)).at.may_delete();
    let u = choose|u: int|
        t < u < log.len() && #[trigger] log[u] == (
            AskView::Commit(RecordView::AllCopied),
            AnswerView::Done,
        );
    assert(log[t] == (AskView::SyncDestination, AnswerView::Done));
    let x = run_laws::unchanged(job, i);
    let k = choose|k: int| 0 <= k < log.len() && log[k] == x;
    assert(log[k].0 == AskView::StatSource(i));
}

/// An original that is gone is passed over, one that is not as it was scanned is kept and
/// reported, and only one that is exactly so is removed.
pub proof fn law_an_original_is_looked_at_again(s: RunView, i: usize, st: Option<SourceStat>)
    requires
        s.stage == Stage::DeleteLook(i),
    ensures
        ({
            let n = s.step(AnswerView::Source(st)).s;
            let e = s.job.m.files[i as int];
            &&& n.stage == Stage::Deleting(i) <==> st is Some && st->0.len == e.size
                && st->0.mtime_ns == e.mtime_ns
            &&& st is Some && (st->0.len != e.size || st->0.mtime_ns != e.mtime_ns)
                ==> n.sum.errors.len() == s.sum.errors.len() + 1
            &&& st is None ==> n.sum.errors == s.sum.errors
        }),
{
    reveal(RunView::on_source);
}

// ── before a file is continued ───────────────────────────────────────────────
/// The span of this checkpoint was read back, and its bytes hashed to what was recorded.
pub open spec fn read_back(log: Seq<Exchange>, i: int, c: CkptView) -> bool {
    exists|t: int|
        0 <= t < log.len() && (#[trigger] log[t]).0 == (AskView::HashSpan {
            file: i,
            off: c.off,
            span: c.span,
        }) && log[t].1 is Hash && text::hex(log[t].1->Hash_0 as nat, 32) == c.span_hash
}

/// A file is continued past its first byte only at the end of its chain of checkpoints, of which
/// the first begins at byte zero, each names the size and the time of the source as it is now,
/// and each was read back from the destination and found to be as recorded.
pub proof fn law_a_resume_point_is_earned(
    job: JobView,
    answers: Seq<AnswerView>,
    i: int,
    r: u64,
)
    requires
        run_laws::sane(job),
        Log::after(job, answers).at.ask() == (AskView::Copy { file: i, resume: r }),
        r > 0,
    ensures
        ({
            let l = Log::after(job, answers);
            let p = l.at.prev.partial;
            let chain = p->0.chain;
            &&& p is Some
            &&& p->0.rel == job.key(i)
            &&& chain.len() > 0
            &&& chain[0].off == chain[0].span
            &&& chain[chain.len() - 1].off == r
            &&& forall|k: int|
                0 <= k < chain.len() ==> {
                    &&& (#[trigger] chain[k]).src_size == job.m.files[i].size
                    &&& chain[k].src_size > 0
                    &&& chain[k].src_mtime == job.m.files[i].mtime_ns
                    &&& read_back(l.log, i, chain[k])
                }
        }),
{
    run_laws::law_no_checkpoint_is_trusted_blind(job, answers, i, r);
    run_laws::lemma_in_order(job, answers);
    let l = Log::after(job, answers);
    let chain = l.at.prev.partial->0.chain;
    assert(l.at.chain(i) == Some(chain));
    assert forall|k: int| 0 <= k < chain.len() implies {
        &&& (#[trigger] chain[k]).src_size == job.m.files[i].size
        &&& chain[k].src_size > 0
        &&& chain[k].src_mtime == job.m.files[i].mtime_ns
        &&& read_back(l.log, i, chain[k])
    } by {
        assert(run_laws::span_checked(l.log, i, l.at.chain(i)->0[k]));
        let c = chain[k];
        let t = choose|t: int|
            0 <= t < l.log.len() && (#[trigger] l.log[t]).0 == (AskView::HashSpan {
                file: i,
                off: c.off,
                span: c.span,
            }) && l.log[t].1 is Hash && text::hex(l.log[t].1->Hash_0 as nat, 32) == c.span_hash;
        assert(l.log[t].0 == (AskView::HashSpan { file: i, off: c.off, span: c.span }));
    }
}

/// A span that does not read back as recorded sends the file back to its first byte; so does one
/// that could not be read.
pub proof fn law_a_bad_span_starts_over(s: RunView, i: usize, k: usize, h: u128, e: Seq<char>)
    requires
        s.stage == Stage::Span(i, k),
        s.prev.partial is Some,
        k < s.prev.partial->0.chain.len(),
    ensures
        text::hex(h as nat, 32) != s.prev.partial->0.chain[k as int].span_hash ==> s.step(
            AnswerView::Hash(h),
        ).s.stage == Stage::Gate(i, 0),
        s.step(AnswerView::Failed(e)).s.stage == Stage::Gate(i, 0),
{
    reveal(RunView::on_hash);
    reveal(RunView::on_failed);
    reveal(RunView::on_failed_file);
}

// ── after a file was written ─────────────────────────────────────────────────
/// A copy that is to be checked is read back before it gets its name. Only where the two hashes
/// are one does it; otherwise it is thrown away, and the file counts as failed.
pub proof fn law_a_copy_is_checked_before_it_counts(
    s: RunView,
    i: usize,
    hash: u128,
    written: u64,
    h: u128,
)
    requires
        s.stage matches Stage::Copying(f, _) && f == i,
    ensures
        ({
            let n = s.step(AnswerView::Copied { hash, written }).s;
            &&& s.job.verify ==> n.ask() == AskView::HashPart(i as int)
            &&& !s.job.verify ==> n.ask() == AskView::Rename(i as int)
            &&& s.job.verify && h == hash ==> n.step(AnswerView::Hash(h)).s.ask()
                == AskView::Rename(i as int) && n.step(AnswerView::Hash(h)).s.sum.verified
                == s.sum.verified + 1
            &&& s.job.verify && h != hash ==> n.step(AnswerView::Hash(h)).s.ask()
                == AskView::RemovePart(i as int) && n.step(AnswerView::Hash(h)).s.sum.verified
                == s.sum.verified
            &&& n.sum.copied == s.sum.copied
            &&& s.sum.bytes_written + written <= u64::MAX ==> n.sum.bytes_written
                == s.sum.bytes_written + written
        }),
{
    reveal(RunView::on_copied);
    reveal(RunView::on_hash);
    let n = s.step(AnswerView::Copied { hash, written }).s;
    assert(n == s.copied(i as int, hash, written));
}

/// A bad copy costs this file and no other: it is reported under its own place, and the transfer
/// goes on with the next.
pub proof fn law_a_failed_file_costs_only_itself(s: RunView, i: usize, e: Seq<char>)
    requires
        i < s.job.n() <= usize::MAX,
        s.stage == Stage::DropBad(i) || s.stage == Stage::Verify(i),
    ensures
        ({
            let n = s.step(AnswerView::Failed(e)).s;
            let last = n.sum.errors[n.sum.errors.len() - 1];
            &&& n.sum.errors.len() == s.sum.errors.len() + 1
            &&& n.sum.errors.drop_last() == s.sum.errors
            &&& last.place == Place::File(i)
            &&& n.sum.copied == s.sum.copied && n.sum.skipped == s.sum.skipped
            &&& n.proven == s.proven
            &&& i + 1 < s.job.n() ==> n.stage == Stage::FilePoll((i + 1) as usize)
            &&& i + 1 == s.job.n() ==> n.stage is FirstFlush
        }),
{
    reveal(RunView::on_failed);
    reveal(RunView::on_failed_file);
    let n = s.step(AnswerView::Failed(e)).s;
    assert(n.sum.errors.drop_last() =~= s.sum.errors);
}

/// Only a file whose record was written counts as copied, and in a move as one whose original
/// may go; the record carries the size, the times and the hash of the source.
pub proof fn law_what_counts_as_copied(s: RunView, i: usize)
    requires
        i < s.job.n() <= usize::MAX,
        s.stage == Stage::Recording(i),
    ensures
        ({
            let n = s.step(AnswerView::Done).s;
            let e = s.job.m.files[i as int];
            &&& s.ask() == AskView::Append(
                RecordView::FileDone {
                    rel: s.job.key(i as int),
                    size: e.size,
                    mtime: e.mtime,
                    mtime_ns: e.mtime_ns,
                    hash: text::hex(s.hash->0 as nat, 32),
                },
            )
            &&& n.sum.copied == s.sum.copied + 1
            &&& s.job.mode is Move ==> n.proven == s.proven.insert(i)
            &&& s.job.mode is Copy ==> n.proven == s.proven
            &&& n.sum.errors == s.sum.errors
        }),
{
    reveal(RunView::on_done);
    reveal(RunView::on_done_file);
}

// ── stopping and refusing ────────────────────────────────────────────────────
/// Being asked to stop is heeded between files, before a file's first byte and between two
/// removals: nothing more is taken up, and the end says that it was stopped.
pub proof fn law_a_stop_is_heeded(s: RunView)
    ensures
        s.stage is FilePoll || s.stage is Gate ==> s.step(AnswerView::Flag(true)).s.sum.stopped
            && s.step(AnswerView::Flag(true)).s.stage is FirstFlush,
        s.stage is DeletePoll ==> s.step(AnswerView::Flag(true)).s.sum.stopped && s.step(
            AnswerView::Flag(true),
        ).s.stage is SecondFlush,
{
    reveal(RunView::on_flag);
    reveal(RunView::on_flag_file);
    reveal(RunView::on_flag_late);
}

/// Where existing files are to fail the transfer, it fails exactly when some place is taken by
/// something that is not the file, and says how many and which is the first.
pub proof fn law_a_taken_place_fails_the_transfer(s: RunView, stats: Seq<Option<DestStat>>)
    requires
        s.stage is Clashes,
    ensures
        ({
            let n = s.step(AnswerView::Stats(stats)).s;
            &&& n.stage is Failed <==> exists|i: int|
                0 <= i < s.job.n() && #[trigger] engine_laws::taken(s.job.m.files, stats, i)
            &&& n.stage is Failed ==> n.kind == Kind::AlreadyExists
        }),
{
    reveal(RunView::on_stats);
    let files = s.job.m.files;
    let c = engine::conflicts_of(files, stats, s.job.n());
    engine_laws::law_conflicts_are_the_places_taken(files, stats, s.job.n());
    if c.len() > 0 {
        let x = c[0];
        let i = choose|i: int|
            0 <= i < s.job.n() && #[trigger] engine_laws::taken(files, stats, i) && files[i].rel
                == c[0];
        assert(engine_laws::taken(files, stats, i));
    }
    if exists|i: int| 0 <= i < s.job.n() && #[trigger] engine_laws::taken(files, stats, i) {
        let i = choose|i: int|
            0 <= i < s.job.n() && #[trigger] engine_laws::taken(files, stats, i);
        assert(c.contains(files[i].rel));
    }
}

/// Where they are not to, nothing is refused over them before the first file.
pub proof fn law_only_that_choice_refuses_over_files_there(s: RunView)
    ensures
        s.job.on_exists is Fail ==> s.to_clashes().stage is Clashes,
        !(s.job.on_exists is Fail) ==> !(s.to_clashes().stage is Clashes) && !(
        s.to_clashes().stage is Failed),
{
}

/// The first line of a journal says what the job is: where from and where to, the mode, how many
/// files and bytes, and what was chosen and left out.
pub proof fn law_what_the_first_line_says(s: RunView)
    requires
        s.stage is Session,
        s.job.n() <= usize::MAX,
    ensures
        s.ask() matches AskView::Commit(r) && r is Session && r->src == s.job.src_abs && r->mode
            == s.job.mode && r->files == s.job.n() && r->bytes == s.job.m.total_bytes && r->names
            == s.job.selection && r->skip_caches == s.job.skip_caches && r->skip_cloud
            == s.job.skip_cloud && (!s.into ==> r->dst == s.job.dst_abs),
{
}

/// A dry run ends where the journal is known, with nothing asked for but looks.
pub proof fn law_a_dry_run_ends_before_the_lock(s: RunView, prev: crate::journal::ResumeView)
    requires
        s.stage is Load,
    ensures
        s.job.dry_run ==> s.step(AnswerView::Loaded(prev)).s.stage == Stage::Finished(false),
        !s.job.dry_run ==> s.step(AnswerView::Loaded(prev)).s.stage is Lock,
        s.step(AnswerView::Loaded(prev)).s.prev == prev,
{
    reveal(RunView::on_loaded);
}

/// The job is over and done only with no problem and no stop.
pub proof fn law_when_a_job_is_over(s: RunView)
    ensures
        s.conclude().stage is Complete <==> s.sum.errors.len() == 0 && !s.sum.stopped,
        s.conclude().stage == Stage::Finished(false) <==> s.sum.errors.len() > 0 || s.sum.stopped,
        s.may_delete() <==> s.job.mode is Move && !s.sum.stopped && s.sum.errors.len() == 0
            && s.proven.len() > 0,
{
}

} // verus!
