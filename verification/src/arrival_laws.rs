//! What is known of every single file once a transfer has gone past it.

use crate::engine;
use crate::engine::{DestStat, FactsView};
use crate::engine_laws;
use crate::journal::{DoneView, ResumeView};
use crate::run;
use crate::run::{AnswerView, AskView, JobView, RunView, SourceStat, Stage};
use crate::run_laws;
use crate::run_laws::{Exchange, Log};
use crate::scan::EntryView;
use crate::text;
use vstd::prelude::*;

verus! {

// ── one step ─────────────────────────────────────────────────────────────────
/// What a step needs of the state before it.
spec fn in_step(s: RunView) -> bool {
    &&& s.job.n() <= usize::MAX
    &&& s.stage_ok()
    &&& s.stage is RenameFailed || s.stage is DropStuck ==> s.sum.errors.len() > 0
}

/// The transfer still counts: nothing went wrong and nobody stopped it.
spec fn counts(s: RunView) -> bool {
    run_laws::clean(s) && !(s.stage is Failed) && !s.job.dry_run
}

/// Something else was seen in the place of the file, and is not to be replaced.
spec fn is_left(s: RunView, i: int, st: Option<DestStat>) -> bool {
    !(s.job.on_exists is Replace) && engine::clashes(st, s.job.m.files[i])
}

/// The answer lets the transfer go past the file at hand.
spec fn passes(s: RunView, a: AnswerView) -> bool {
    match (s.stage, a) {
        (Stage::Recording(_), AnswerView::Done) => true,
        (Stage::Look(i), AnswerView::Stat(st)) => {
            let e = s.job.m.files[i as int];
            ||| s.record(i as int) is Some && engine::settled(st, e, s.record(i as int)->0)
                && !s.job.paranoid
            ||| s.record(i as int) is None && s.job.mode is Copy && engine::matches_dest(st, e)
                && !s.job.paranoid
            ||| is_left(s, i as int, st)
        },
        (Stage::RecordedSource(i), _) => is_left(s, i as int, s.seen),
        (Stage::RecordedDest(i), AnswerView::Hash(h)) => text::hex(h as nat, 32) == s.record(
            i as int,
        )->0.hash || is_left(s, i as int, s.seen),
        (Stage::RecordedDest(i), _) => is_left(s, i as int, s.seen),
        (Stage::SameDest(_), AnswerView::Hash(h)) => s.hash == Some(h),
        _ => false,
    }
}

/// The look at its place shows the file to be there: as recorded, or, without a record, as it
/// would be written.
spec fn found_now(s: RunView, a: AnswerView) -> bool {
    match (s.stage, a) {
        (Stage::Look(i), AnswerView::Stat(st)) => match s.record(i as int) {
            Some(rec) => engine::settled(st, s.job.m.files[i as int], rec),
            None => s.job.mode is Copy && engine::matches_dest(st, s.job.m.files[i as int]),
        },
        _ => false,
    }
}

/// How a step relates to the files behind it.
#[verifier::opaque]
spec fn went_on(s: RunView, n: RunView, a: AnswerView) -> bool {
    &&& n.job == s.job
    &&& counts(n) ==> counts(s)
    &&& !run::early(s.stage) ==> n.prev == s.prev && !run::early(n.stage)
    &&& n.stage is RenameFailed || n.stage is DropStuck ==> n.sum.errors.len() > 0
    &&& counts(n) ==> n.files_behind() <= s.files_behind() || (run::file_of(s.stage) is Some
        && passes(s, a) && n.files_behind() <= s.files_behind() + 1)
    &&& n.sum.skipped > s.sum.skipped ==> n.sum.kept > s.sum.kept || s.stage is RecordedDest
        || s.stage is SameDest || found_now(s, a)
    &&& n.stage matches Stage::SameSource(i) ==> (n.stage == s.stage && n.seen == s.seen) || (
    s.stage == Stage::Look(i) && a == AnswerView::Stat(n.seen) && engine::matches_dest(
        n.seen,
        s.job.m.files[i as int],
    ) && s.record(i as int) is None && s.job.mode is Copy)
    &&& n.stage matches Stage::SameDest(i) ==> n.seen == s.seen && ((n.stage == s.stage && n.hash
        == s.hash) || (s.stage == Stage::SameSource(i) && (n.hash is None || a == AnswerView::Hash(
        n.hash->0,
    ))))
}

#[verifier::spinoff_prover]
proof fn lemma_went_on_flag_early(s: RunView, b: bool)
    requires
        in_step(s),
        run::early(s.stage),
    ensures
        went_on(s, s.on_flag_early(b).s, AnswerView::Flag(b)),
{
    reveal(went_on);
    reveal(RunView::on_flag_early);
}

#[verifier::spinoff_prover]
proof fn lemma_went_on_flag_file(s: RunView, b: bool)
    requires
        in_step(s),
        run::file_of(s.stage) is Some,
    ensures
        went_on(s, s.on_flag_file(b).s, AnswerView::Flag(b)),
{
    reveal(went_on);
    reveal(RunView::on_flag_file);
}

#[verifier::spinoff_prover]
proof fn lemma_went_on_flag_late(s: RunView, b: bool)
    requires
        in_step(s),
        !run::early(s.stage),
        run::file_of(s.stage) is None,
    ensures
        went_on(s, s.on_flag_late(b).s, AnswerView::Flag(b)),
{
    reveal(went_on);
    reveal(RunView::on_flag_late);
}

#[verifier::spinoff_prover]
proof fn lemma_went_on_done_early(s: RunView)
    requires
        in_step(s),
        run::early(s.stage),
    ensures
        went_on(s, s.on_done_early().s, AnswerView::Done),
{
    reveal(went_on);
    reveal(RunView::on_done_early);
}

#[verifier::spinoff_prover]
proof fn lemma_went_on_done_file(s: RunView)
    requires
        in_step(s),
        run::file_of(s.stage) is Some,
    ensures
        went_on(s, s.on_done_file().s, AnswerView::Done),
{
    reveal(went_on);
    reveal(RunView::on_done_file);
}

#[verifier::spinoff_prover]
proof fn lemma_went_on_done_late(s: RunView)
    requires
        in_step(s),
        !run::early(s.stage),
        run::file_of(s.stage) is None,
    ensures
        went_on(s, s.on_done_late().s, AnswerView::Done),
{
    reveal(went_on);
    reveal(RunView::on_done_late);
}

#[verifier::spinoff_prover]
proof fn lemma_went_on_failed_early(s: RunView, e: Seq<char>)
    requires
        in_step(s),
        run::early(s.stage),
    ensures
        went_on(s, s.on_failed_early(e).s, AnswerView::Failed(e)),
{
    reveal(went_on);
    reveal(RunView::on_failed_early);
}

#[verifier::spinoff_prover]
proof fn lemma_went_on_failed_file(s: RunView, e: Seq<char>)
    requires
        in_step(s),
        run::file_of(s.stage) is Some,
    ensures
        went_on(s, s.on_failed_file(e).s, AnswerView::Failed(e)),
{
    reveal(went_on);
    reveal(RunView::on_failed_file);
}

#[verifier::spinoff_prover]
proof fn lemma_went_on_failed_late(s: RunView, e: Seq<char>)
    requires
        in_step(s),
        !run::early(s.stage),
        run::file_of(s.stage) is None,
    ensures
        went_on(s, s.on_failed_late(e).s, AnswerView::Failed(e)),
{
    reveal(went_on);
    reveal(RunView::on_failed_late);
}

#[verifier::spinoff_prover]
proof fn lemma_went_on_failed_at(s: RunView, p: Seq<char>, e: Seq<char>)
    requires
        in_step(s),
    ensures
        went_on(s, s.on_failed_at(p, e).s, AnswerView::FailedAt(p, e)),
{
    reveal(went_on);
    reveal(RunView::on_failed_at);
}

#[verifier::spinoff_prover]
proof fn lemma_went_on_paths(s: RunView, f: FactsView)
    requires
        in_step(s),
    ensures
        went_on(s, s.on_paths(f).s, AnswerView::Paths(f)),
{
    reveal(went_on);
    reveal(RunView::on_paths);
}

#[verifier::spinoff_prover]
proof fn lemma_went_on_loaded(s: RunView, prev: ResumeView)
    requires
        in_step(s),
    ensures
        went_on(s, s.on_loaded(prev).s, AnswerView::Loaded(prev)),
{
    reveal(went_on);
    reveal(RunView::on_loaded);
}

#[verifier::spinoff_prover]
proof fn lemma_went_on_stats(s: RunView, v: Seq<Option<DestStat>>)
    requires
        in_step(s),
    ensures
        went_on(s, s.on_stats(v).s, AnswerView::Stats(v)),
{
    reveal(went_on);
    reveal(RunView::on_stats);
}

#[verifier::spinoff_prover]
proof fn lemma_went_on_stat(s: RunView, st: Option<DestStat>)
    requires
        in_step(s),
    ensures
        went_on(s, s.on_stat(st).s, AnswerView::Stat(st)),
{
    reveal(went_on);
    reveal(RunView::on_stat);
}

#[verifier::spinoff_prover]
proof fn lemma_went_on_hash(s: RunView, h: u128)
    requires
        in_step(s),
    ensures
        went_on(s, s.on_hash(h).s, AnswerView::Hash(h)),
{
    reveal(went_on);
    reveal(RunView::on_hash);
}

#[verifier::spinoff_prover]
proof fn lemma_went_on_copied(s: RunView, hash: u128, written: u64)
    requires
        in_step(s),
    ensures
        went_on(s, s.on_copied(hash, written).s, AnswerView::Copied { hash, written }),
{
    reveal(went_on);
    reveal(RunView::on_copied);
}

#[verifier::spinoff_prover]
proof fn lemma_went_on_stopped(s: RunView, written: u64)
    requires
        in_step(s),
    ensures
        went_on(s, s.on_stopped(written).s, AnswerView::Stopped { written }),
{
    reveal(went_on);
    reveal(RunView::on_stopped);
}

#[verifier::spinoff_prover]
proof fn lemma_went_on_source(s: RunView, st: Option<SourceStat>)
    requires
        in_step(s),
    ensures
        went_on(s, s.on_source(st).s, AnswerView::Source(st)),
{
    reveal(went_on);
    reveal(RunView::on_source);
}

#[verifier::spinoff_prover]
proof fn lemma_went_on_step(s: RunView, a: AnswerView)
    requires
        in_step(s),
    ensures
        went_on(s, s.step(a).s, a),
{
    match a {
        AnswerView::Flag(b) => {
            reveal(RunView::on_flag);
            if run::early(s.stage) {
                lemma_went_on_flag_early(s, b);
            } else if run::file_of(s.stage) is Some {
                lemma_went_on_flag_file(s, b);
            } else {
                lemma_went_on_flag_late(s, b);
            }
        },
        AnswerView::Done => {
            reveal(RunView::on_done);
            if run::early(s.stage) {
                lemma_went_on_done_early(s);
            } else if run::file_of(s.stage) is Some {
                lemma_went_on_done_file(s);
            } else {
                lemma_went_on_done_late(s);
            }
        },
        AnswerView::Failed(e) => {
            reveal(RunView::on_failed);
            if run::early(s.stage) {
                lemma_went_on_failed_early(s, e);
            } else if run::file_of(s.stage) is Some {
                lemma_went_on_failed_file(s, e);
            } else {
                lemma_went_on_failed_late(s, e);
            }
        },
        AnswerView::FailedAt(p, e) => lemma_went_on_failed_at(s, p, e),
        AnswerView::Paths(f) => lemma_went_on_paths(s, f),
        AnswerView::Loaded(prev) => lemma_went_on_loaded(s, prev),
        AnswerView::Stats(v) => lemma_went_on_stats(s, v),
        AnswerView::Stat(st) => lemma_went_on_stat(s, st),
        AnswerView::Hash(h) => lemma_went_on_hash(s, h),
        AnswerView::Copied { hash, written } => lemma_went_on_copied(s, hash, written),
        AnswerView::Stopped { written } => lemma_went_on_stopped(s, written),
        AnswerView::Source(st) => lemma_went_on_source(s, st),
    }
}

// ── every step ───────────────────────────────────────────────────────────────
#[verifier::opaque]
spec fn arrived(s: RunView, log: Seq<Exchange>) -> bool {
    &&& s.stage is RenameFailed || s.stage is DropStuck ==> s.sum.errors.len() > 0
    &&& s.stage matches Stage::SameSource(i) ==> engine::matches_dest(
        s.seen,
        s.job.m.files[i as int],
    ) && s.record(i as int) is None && s.job.mode is Copy
    &&& s.stage matches Stage::SameDest(i) ==> engine::matches_dest(s.seen, s.job.m.files[i as int])
        && s.record(i as int) is None && s.job.mode is Copy && (s.hash is Some ==> run_laws::was_hashed(log, AskView::HashSource(i as int), s.hash->0))
    &&& counts(s) ==> forall|j: int|
        0 <= j < s.files_behind() ==> #[trigger] run_laws::accounted_for(s, log, j)
}

proof fn lemma_seen_grows(log: Seq<Exchange>, x: Exchange, i: int, st: Option<DestStat>)
    requires
        run_laws::was_seen(log, i, st),
    ensures
        run_laws::was_seen(log.push(x), i, st),
{
    let t = choose|t: int|
        0 <= t < log.len() && #[trigger] log[t] == (AskView::StatDest(i), AnswerView::Stat(st));
    assert(log.push(x)[t] == log[t]);
}

proof fn lemma_hashed_grows(log: Seq<Exchange>, x: Exchange, q: AskView, h: u128)
    requires
        run_laws::was_hashed(log, q, h),
    ensures
        run_laws::was_hashed(log.push(x), q, h),
{
    let t = choose|t: int| 0 <= t < log.len() && #[trigger] log[t] == (q, AnswerView::Hash(h));
    assert(log.push(x)[t] == log[t]);
}

/// What is known stays known.
#[verifier::spinoff_prover]
proof fn lemma_accounted_grows(s: RunView, n: RunView, log: Seq<Exchange>, x: Exchange, i: int)
    requires
        run_laws::accounted_for(s, log, i),
        n.job == s.job,
        n.prev == s.prev,
    ensures
        run_laws::accounted_for(n, log.push(x), i),
{
    let e = s.job.m.files[i];
    if run_laws::vouched(s, log, i) {
        run_laws::lemma_vouched_grows(s, n, log, x, i);
    } else if run_laws::was_same(s, log, i) {
        let st = choose|st: Option<DestStat>| #[trigger]
            run_laws::was_seen(log, i, st) && engine::matches_dest(st, e);
        lemma_seen_grows(log, x, i, st);
        if s.job.paranoid {
            let h = choose|h: u128| #[trigger]
                run_laws::was_hashed(log, AskView::HashSource(i), h) && run_laws::was_hashed(
                    log,
                    AskView::HashDest(i),
                    h,
                );
            lemma_hashed_grows(log, x, AskView::HashSource(i), h);
            lemma_hashed_grows(log, x, AskView::HashDest(i), h);
        }
        assert(run_laws::was_same(n, log.push(x), i));
    } else {
        let st = choose|st: Option<DestStat>| #[trigger]
            run_laws::was_seen(log, i, st) && engine::clashes(st, e);
        lemma_seen_grows(log, x, i, st);
        assert(run_laws::was_left(n, log.push(x), i));
    }
}

/// The transfer goes past a file only on evidence.
#[verifier::spinoff_prover]
proof fn lemma_passed(job: JobView, answers: Seq<AnswerView>, a: AnswerView, n: RunView)
    requires
        run_laws::sane(job),
        ({
            let l = Log::after(job, answers);
            &&& arrived(l.at, l.log)
            &&& passes(l.at, a)
            &&& n.job == l.at.job
            &&& n.prev == l.at.prev
        }),
    ensures
        ({
            let l = Log::after(job, answers);
            run_laws::accounted_for(n, l.log.push((l.at.ask(), a)), run::file_of(l.at.stage)->0)
        }),
{
    let l = Log::after(job, answers);
    let s = l.at;
    let i = run::file_of(s.stage)->0;
    let x = (s.ask(), a);
    let log = l.log.push(x);
    let e = s.job.m.files[i];
    run_laws::lemma_in_order(job, answers);
    run_laws::lemma_evidence(job, answers);
    run_laws::lemma_seen(job, answers);
    reveal(arrived);
    assert(log[l.log.len() as int] == x);
    assert(log.take(l.log.len() as int) =~= l.log);
    assert(n.record(i) == s.record(i));
    match s.stage {
        Stage::Recording(_) => {
            let h = s.hash->0;
            assert(s.done_record(i) == run_laws::done_line(job, i, h));
            assert(run_laws::was_recorded(n.job, log, i, h));
        },
        Stage::Look(_) => {
            let st = a->Stat_0;
            assert(run_laws::was_seen(log, i, st));
            if s.record(i) is Some && engine::settled(st, e, s.record(i)->0) && !s.job.paranoid {
                assert(run_laws::was_found(n, log, i));
            } else if is_left(s, i, st) {
                assert(run_laws::was_left(n, log, i));
            } else {
                assert(run_laws::was_same(n, log, i));
            }
        },
        Stage::SameDest(_) => {
            lemma_seen_grows(l.log, x, i, s.seen);
            let h = a->Hash_0;
            lemma_hashed_grows(l.log, x, AskView::HashSource(i), h);
            assert(run_laws::was_hashed(log, AskView::HashDest(i), h));
            assert(run_laws::was_same(n, log, i));
        },
        _ => {
            lemma_seen_grows(l.log, x, i, s.seen);
            if is_left(s, i, s.seen) {
                assert(run_laws::was_left(n, log, i));
            } else {
                let hex = s.record(i)->0.hash;
                run_laws::lemma_hash_grows(l.log, x, AskView::HashSource(i), hex);
                assert(run_laws::has_hash(log, AskView::HashDest(i), hex));
                let t = choose|t: int|
                    0 <= t < log.len() && #[trigger] log[t] == (
                        AskView::StatDest(i),
                        AnswerView::Stat(s.seen),
                    );
                assert(log[t].0 == AskView::StatDest(i));
                assert(run_laws::was_found(n, log, i));
            }
        },
    }
}

/// Of every file behind, as long as nothing went wrong, it is known what became of it.
#[verifier::spinoff_prover]
proof fn lemma_arrived_so_far(job: JobView, answers: Seq<AnswerView>)
    requires
        run_laws::sane(job),
    ensures
        arrived(Log::after(job, answers).at, Log::after(job, answers).log),
    decreases answers.len(),
{
    reveal(arrived);
    if answers.len() > 0 {
        let init = answers.drop_last();
        let a = answers.last();
        let l = Log::after(job, init);
        let s = l.at;
        let n = s.step(a).s;
        let x = (s.ask(), a);
        lemma_arrived_so_far(job, init);
        run_laws::lemma_in_order(job, init);
        lemma_went_on_step(s, a);
        reveal(went_on);
        assert(l.log.push(x)[l.log.len() as int] == x);
        if let Stage::SameDest(i) = n.stage {
            if n.stage == s.stage && s.hash is Some {
                lemma_hashed_grows(l.log, x, AskView::HashSource(i as int), s.hash->0);
            }
        }
        if counts(n) {
            assert forall|j: int| 0 <= j < n.files_behind() implies #[trigger]
                run_laws::accounted_for(n, l.log.push(x), j) by {
                if j < s.files_behind() {
                    lemma_accounted_grows(s, n, l.log, x, j);
                } else {
                    lemma_passed(job, init, a, n);
                }
            }
        }
    }
}

pub(crate) proof fn lemma_arrived(job: JobView, answers: Seq<AnswerView>)
    requires
        run_laws::sane(job),
    ensures
        ({
            let l = Log::after(job, answers);
            run_laws::clean(l.at) && !(l.at.stage is Failed) && !job.dry_run ==> forall|i: int|
                0 <= i < l.at.files_behind() ==> #[trigger] run_laws::accounted_for(l.at, l.log, i)
        }),
{
    lemma_arrived_so_far(job, answers);
    run_laws::lemma_in_order(job, answers);
    reveal(arrived);
}

// ── what a record is good for ────────────────────────────────────────────────
/// This run copied the file to its end.
pub open spec fn copied_now(log: Seq<Exchange>, i: int) -> bool {
    exists|t: int|
        0 <= t < log.len() && (#[trigger] log[t]).0 is Copy && log[t].0->Copy_file == i
            && log[t].1 is Copied
}

/// The source is still the file of this line of the journal, in its size and both its times.
pub open spec fn still_the_same(e: EntryView, rec: DoneView) -> bool {
    &&& e.size == rec.size
    &&& e.mtime == rec.mtime
    &&& e.mtime_ns == rec.mtime_ns
    &&& rec.mtime_ns != 0
}

/// What was seen at the destination has the size of this line of the journal, and its time but
/// for the clock: off by whole hours, fourteen at most, to within two seconds.
pub open spec fn still_there(st: Option<DestStat>, rec: DoneView) -> bool {
    &&& st is Some
    &&& st->0.len == rec.size
    &&& exists|h: int|
        -14 <= h <= 14 && -2 <= st->0.mtime - rec.mtime - #[trigger] (h * 3600) <= 2
}

/// The place of the file was looked at, and something else stood there.
pub open spec fn place_taken(log: Seq<Exchange>, e: EntryView, i: int) -> bool {
    exists|st: Option<DestStat>| #[trigger]
        run_laws::was_seen(log, i, st) && st is Some && !(st->0.is_file && st->0.len == e.size
            && -2 <= st->0.mtime - e.mtime <= 2)
}

/// The place of the file was looked at, and the file stood there: regular, of its length, and
/// at most two seconds earlier or later.
pub open spec fn place_holds(log: Seq<Exchange>, e: EntryView, i: int) -> bool {
    exists|st: Option<DestStat>| #[trigger]
        run_laws::was_seen(log, i, st) && st is Some && st->0.is_file && st->0.len == e.size && -2
            <= st->0.mtime - e.mtime <= 2
}

/// A transfer that is done has, of each file that the journal recorded, either copied it anew,
/// or seen its place taken where nothing was to be replaced, or seen the recorded copy in its
/// place while the source was the recorded one to the nanosecond. So a source that was edited
/// since is never passed over for the record.
pub proof fn law_a_record_is_good_for_one_source(job: JobView, answers: Seq<AnswerView>, i: int)
    requires
        run_laws::sane(job),
        !job.dry_run,
        Log::after(job, answers).at.stage is Finished,
        run_laws::clean(Log::after(job, answers).at),
        0 <= i < job.n(),
        Log::after(job, answers).at.prev.done.dom().contains(job.key(i)),
    ensures
        ({
            let l = Log::after(job, answers);
            let e = job.m.files[i];
            let rec = l.at.prev.done[job.key(i)];
            ||| copied_now(l.log, i)
            ||| !(job.on_exists is Replace) && place_taken(l.log, e, i)
            ||| still_the_same(e, rec) && exists|st: Option<DestStat>| #[trigger]
                run_laws::was_seen(l.log, i, st) && still_there(st, rec)
        }),
{
    let l = Log::after(job, answers);
    run_laws::law_a_clean_end_leaves_no_file_out(job, answers);
    run_laws::lemma_in_order(job, answers);
    assert(run_laws::accounted_for(l.at, l.log, i));
    if run_laws::vouched(l.at, l.log, i) {
        lemma_vouched_means(l.at, l.log, i);
    } else {
        lemma_left_means(l.at, l.log, i);
    }
}

/// A transfer that is done has, of each file without a record, either copied it, or seen it in
/// its place in a copy, or seen its place taken where nothing was to be replaced. So without a
/// record a source that is more than two seconds newer than what stands in its place is never
/// passed over.
pub proof fn law_without_a_record_only_the_same_is_passed_over(
    job: JobView,
    answers: Seq<AnswerView>,
    i: int,
)
    requires
        run_laws::sane(job),
        !job.dry_run,
        Log::after(job, answers).at.stage is Finished,
        run_laws::clean(Log::after(job, answers).at),
        0 <= i < job.n(),
        !Log::after(job, answers).at.prev.done.dom().contains(job.key(i)),
    ensures
        ({
            let l = Log::after(job, answers);
            let e = job.m.files[i];
            ||| copied_now(l.log, i)
            ||| job.mode is Copy && place_holds(l.log, e, i)
            ||| !(job.on_exists is Replace) && place_taken(l.log, e, i)
        }),
{
    let l = Log::after(job, answers);
    run_laws::law_a_clean_end_leaves_no_file_out(job, answers);
    run_laws::lemma_in_order(job, answers);
    assert(run_laws::accounted_for(l.at, l.log, i));
    if run_laws::vouched(l.at, l.log, i) {
        lemma_vouched_means(l.at, l.log, i);
    } else if run_laws::was_same(l.at, l.log, i) {
        let st = choose|st: Option<DestStat>| #[trigger]
            run_laws::was_seen(l.log, i, st) && engine::matches_dest(st, job.m.files[i]);
        engine_laws::law_the_same_file_within_two_seconds(st, job.m.files[i]);
        assert(place_holds(l.log, job.m.files[i], i));
    } else {
        lemma_left_means(l.at, l.log, i);
    }
}

/// An original that this run did not copy is removed only where the journal had recorded the
/// file, the source is the recorded one to the nanosecond, and the recorded copy was seen in
/// its place.
pub proof fn law_no_original_goes_for_a_stale_record(
    job: JobView,
    answers: Seq<AnswerView>,
    i: int,
)
    requires
        run_laws::sane(job),
        Log::after(job, answers).at.ask() == AskView::DeleteSource(i),
    ensures
        ({
            let l = Log::after(job, answers);
            let e = job.m.files[i];
            let rec = l.at.prev.done[job.key(i)];
            ||| copied_now(l.log, i)
            ||| l.at.prev.done.dom().contains(job.key(i)) && still_the_same(e, rec)
                && exists|st: Option<DestStat>| #[trigger]
                run_laws::was_seen(l.log, i, st) && still_there(st, rec)
        }),
{
    let l = Log::after(job, answers);
    run_laws::law_an_original_goes_last(job, answers, i);
    run_laws::lemma_in_order(job, answers);
    let t = choose|t: int|
        0 <= t < answers.len() && #[trigger] l.log[t] == (
            AskView::SyncDestination,
            AnswerView::Done,
        ) && run_laws::vouched(l.at, l.log.take(t), i) && run_laws::recorded_after(l.log, t)
            && Log::after(job, answers.take(t)).at.may_delete();
    let early = l.log.take(t);
    lemma_vouched_means(l.at, early, i);
    if copied_now(early, i) {
        let u = choose|u: int|
            0 <= u < early.len() && (#[trigger] early[u]).0 is Copy && early[u].0->Copy_file == i
                && early[u].1 is Copied;
        assert(l.log[u] == early[u]);
    } else {
        let rec = l.at.prev.done[job.key(i)];
        let st = choose|st: Option<DestStat>| #[trigger]
            run_laws::was_seen(early, i, st) && still_there(st, rec);
        let u = choose|u: int|
            0 <= u < early.len() && #[trigger] early[u] == (
                AskView::StatDest(i),
                AnswerView::Stat(st),
            );
        assert(l.log[u] == early[u]);
        assert(run_laws::was_seen(l.log, i, st));
    }
}

/// Whatever else becomes of a run, a file that the journal recorded is counted as skipped, and
/// not as kept, only while the source is the recorded one to the nanosecond.
pub proof fn law_nothing_edited_is_skipped(job: JobView, answers: Seq<AnswerView>, a: AnswerView)
    requires
        run_laws::sane(job),
        ({
            let s = Log::after(job, answers).at;
            let n = Log::after(job, answers.push(a)).at;
            n.sum.skipped > s.sum.skipped && n.sum.kept == s.sum.kept
        }),
    ensures
        ({
            let s = Log::after(job, answers).at;
            let i = run::file_of(s.stage)->0;
            &&& run::file_of(s.stage) is Some
            &&& s.prev.done.dom().contains(job.key(i)) ==> still_the_same(
                job.m.files[i],
                s.prev.done[job.key(i)],
            )
            &&& !s.prev.done.dom().contains(job.key(i)) ==> job.mode is Copy && place_holds(
                Log::after(job, answers.push(a)).log,
                job.m.files[i],
                i,
            )
        }),
{
    let l = Log::after(job, answers);
    let s = l.at;
    let all = answers.push(a);
    assert(all.drop_last() =~= answers);
    let n = Log::after(job, all);
    let i = run::file_of(s.stage)->0;
    let e = job.m.files[i];
    run_laws::lemma_in_order(job, answers);
    run_laws::lemma_evidence(job, answers);
    run_laws::lemma_seen(job, answers);
    lemma_arrived_so_far(job, answers);
    reveal(arrived);
    lemma_went_on_step(s, a);
    reveal(went_on);
    let x = (s.ask(), a);
    assert(n.log == l.log.push(x));
    assert(n.log[l.log.len() as int] == x);
    if s.stage is RecordedDest {
        engine_laws::law_settled_means_unchanged(s.seen, e, s.record(i)->0);
    } else if s.stage is SameDest {
        lemma_seen_grows(l.log, x, i, s.seen);
        engine_laws::law_the_same_file_within_two_seconds(s.seen, e);
        assert(place_holds(n.log, e, i));
    } else {
        let st = a->Stat_0;
        assert(run_laws::was_seen(n.log, i, st));
        if s.record(i) is Some {
            engine_laws::law_settled_means_unchanged(st, e, s.record(i)->0);
        } else {
            engine_laws::law_the_same_file_within_two_seconds(st, e);
            assert(place_holds(n.log, e, i));
        }
    }
}

/// What may be relied on was copied now, or is what the journal says.
proof fn lemma_vouched_means(s: RunView, log: Seq<Exchange>, i: int)
    requires
        run_laws::vouched(s, log, i),
    ensures
        copied_now(log, i) || {
            &&& s.prev.done.dom().contains(s.job.key(i))
            &&& still_the_same(s.job.m.files[i], s.prev.done[s.job.key(i)])
            &&& exists|st: Option<DestStat>| #[trigger]
                run_laws::was_seen(log, i, st) && still_there(st, s.prev.done[s.job.key(i)])
        },
{
    if run_laws::was_found(s, log, i) {
        let rec = s.record(i)->0;
        let t = choose|t: int|
            0 <= t < log.len() && (#[trigger] log[t]).0 == AskView::StatDest(i) && log[t].1
                is Stat && engine::settled(log[t].1->Stat_0, s.job.m.files[i], rec);
        let st = log[t].1->Stat_0;
        engine_laws::law_settled_means_unchanged(st, s.job.m.files[i], rec);
        assert(log[t] == (AskView::StatDest(i), AnswerView::Stat(st)));
        assert(run_laws::was_seen(log, i, st));
        assert(still_there(st, rec));
    } else {
        let h = choose|h: u128| #[trigger] run_laws::was_recorded(s.job, log, i, h);
        lemma_recorded_means(s.job, log, i, h);
    }
}

proof fn lemma_recorded_means(job: JobView, log: Seq<Exchange>, i: int, h: u128)
    requires
        run_laws::was_recorded(job, log, i, h),
    ensures
        copied_now(log, i),
{
    let t = choose|t: int|
        0 <= t < log.len() && #[trigger] log[t] == (
            AskView::Append(run_laws::done_line(job, i, h)),
            AnswerView::Done,
        ) && run_laws::was_placed(job, log.take(t), i, h);
    let a = log.take(t);
    let u = choose|u: int|
        0 <= u < a.len() && #[trigger] a[u] == (AskView::Rename(i), AnswerView::Done)
            && run_laws::was_proven(job, a.take(u), i, h);
    let b = a.take(u);
    let c = if job.verify {
        let v = choose|v: int|
            0 <= v < b.len() && #[trigger] b[v] == (AskView::HashPart(i), AnswerView::Hash(h))
                && run_laws::was_copied(b.take(v), i, h);
        b.take(v)
    } else {
        b
    };
    assert(run_laws::was_copied(c, i, h));
    let w = choose|w: int|
        0 <= w < c.len() && (#[trigger] c[w]).0 is Copy && c[w].0->Copy_file == i && c[w].1
            is Copied && c[w].1->hash == h;
    assert(log[w] == c[w]);
}

proof fn lemma_left_means(s: RunView, log: Seq<Exchange>, i: int)
    requires
        run_laws::was_left(s, log, i),
    ensures
        !(s.job.on_exists is Replace),
        place_taken(log, s.job.m.files[i], i),
{
    let st = choose|st: Option<DestStat>| #[trigger]
        run_laws::was_seen(log, i, st) && engine::clashes(st, s.job.m.files[i]);
    engine_laws::law_the_same_file_within_two_seconds(st, s.job.m.files[i]);
    assert(run_laws::was_seen(log, i, st));
}

} // verus!
