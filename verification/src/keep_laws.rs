//! What becomes of a file whose place is taken, where that is to be kept.

use crate::engine;
use crate::engine::{DestStat, FactsView};
use crate::journal::ResumeView;
use crate::run;
use crate::run::{AnswerView, AskView, JobView, RunView, SourceStat, Stage};
use crate::run_laws;
use crate::run_laws::{Exchange, Log};
use vstd::prelude::*;

verus! {

/// The destinations of the files were as in `stats` when they were looked at, and no journal
/// of the job held a finished file.
pub open spec fn found_so(x: Exchange, stats: Seq<Option<DestStat>>) -> bool {
    match x {
        (AskView::StatDest(i), AnswerView::Stat(st)) => st == engine::stat_at(stats, i),
        (AskView::Load(_), AnswerView::Loaded(prev)) => prev.done.dom()
            == Set::<Seq<char>>::empty(),
        _ => true,
    }
}

/// Something else stands in the place of the file.
pub open spec fn taken(job: JobView, stats: Seq<Option<DestStat>>, i: int) -> bool {
    engine::clashes(engine::stat_at(stats, i), job.m.files[i])
}

/// How many of the first `n` files have their place taken.
spec fn conflicts(job: JobView, stats: Seq<Option<DestStat>>, n: int) -> int {
    engine::conflicts_of(job.m.files, stats, n).len() as int
}

#[verifier::opaque]
spec fn spares(s: RunView, stats: Seq<Option<DestStat>>) -> bool {
    &&& s.job.on_exists is Keep
    &&& s.prev.done.dom() =~= Set::<Seq<char>>::empty()
    &&& run_laws::looked_at(s.stage) ==> !taken(s.job, stats, run::file_of(s.stage)->0)
    &&& !(s.stage is RecordedSource || s.stage is RecordedDest)
    &&& forall|f: usize| #[trigger] s.proven.contains(f) ==> !taken(s.job, stats, f as int)
    &&& s.stage matches Stage::DeleteLook(i) ==> s.proven.contains(i)
    &&& s.stage matches Stage::Deleting(i) ==> s.proven.contains(i)
    &&& !s.sum.stopped && !(s.stage is Failed) && !s.job.dry_run ==> s.sum.kept == conflicts(
        s.job,
        stats,
        s.files_behind(),
    )
}

#[verifier::spinoff_prover]
proof fn lemma_spares_flag_early(s: RunView, b: bool, stats: Seq<Option<DestStat>>)
    requires
        spares(s, stats),
        s.job.n() <= usize::MAX,
        s.stage_ok(),
        run::early(s.stage),
    ensures
        spares(s.on_flag_early(b).s, stats),
{
    reveal(spares);
    reveal(RunView::on_flag_early);
}

#[verifier::spinoff_prover]
proof fn lemma_spares_flag_file(s: RunView, b: bool, stats: Seq<Option<DestStat>>)
    requires
        spares(s, stats),
        s.job.n() <= usize::MAX,
        s.stage_ok(),
        run::file_of(s.stage) is Some,
    ensures
        spares(s.on_flag_file(b).s, stats),
{
    reveal(spares);
    reveal(RunView::on_flag_file);
}

#[verifier::spinoff_prover]
proof fn lemma_spares_flag_late(s: RunView, b: bool, stats: Seq<Option<DestStat>>)
    requires
        spares(s, stats),
        s.job.n() <= usize::MAX,
        s.stage_ok(),
        !run::early(s.stage),
        run::file_of(s.stage) is None,
    ensures
        spares(s.on_flag_late(b).s, stats),
{
    reveal(spares);
    reveal(RunView::on_flag_late);
}

#[verifier::spinoff_prover]
proof fn lemma_spares_done_early(s: RunView, stats: Seq<Option<DestStat>>)
    requires
        spares(s, stats),
        s.job.n() <= usize::MAX,
        s.stage_ok(),
        run::early(s.stage),
    ensures
        spares(s.on_done_early().s, stats),
{
    reveal(spares);
    reveal(RunView::on_done_early);
}

#[verifier::spinoff_prover]
proof fn lemma_spares_done_file(s: RunView, stats: Seq<Option<DestStat>>)
    requires
        spares(s, stats),
        s.job.n() <= usize::MAX,
        s.stage_ok(),
        run::file_of(s.stage) is Some,
    ensures
        spares(s.on_done_file().s, stats),
{
    reveal(spares);
    reveal(RunView::on_done_file);
}

#[verifier::spinoff_prover]
proof fn lemma_spares_done_late(s: RunView, stats: Seq<Option<DestStat>>)
    requires
        spares(s, stats),
        s.job.n() <= usize::MAX,
        s.stage_ok(),
        !run::early(s.stage),
        run::file_of(s.stage) is None,
    ensures
        spares(s.on_done_late().s, stats),
{
    reveal(spares);
    reveal(RunView::on_done_late);
}

#[verifier::spinoff_prover]
proof fn lemma_spares_failed_early(s: RunView, e: Seq<char>, stats: Seq<Option<DestStat>>)
    requires
        spares(s, stats),
        s.job.n() <= usize::MAX,
        s.stage_ok(),
        run::early(s.stage),
    ensures
        spares(s.on_failed_early(e).s, stats),
{
    reveal(spares);
    reveal(RunView::on_failed_early);
}

#[verifier::spinoff_prover]
proof fn lemma_spares_failed_file(s: RunView, e: Seq<char>, stats: Seq<Option<DestStat>>)
    requires
        spares(s, stats),
        s.job.n() <= usize::MAX,
        s.stage_ok(),
        run::file_of(s.stage) is Some,
    ensures
        spares(s.on_failed_file(e).s, stats),
{
    reveal(spares);
    reveal(RunView::on_failed_file);
}

#[verifier::spinoff_prover]
proof fn lemma_spares_failed_late(s: RunView, e: Seq<char>, stats: Seq<Option<DestStat>>)
    requires
        spares(s, stats),
        s.job.n() <= usize::MAX,
        s.stage_ok(),
        !run::early(s.stage),
        run::file_of(s.stage) is None,
    ensures
        spares(s.on_failed_late(e).s, stats),
{
    reveal(spares);
    reveal(RunView::on_failed_late);
}

#[verifier::spinoff_prover]
proof fn lemma_spares_failed_at(
    s: RunView,
    p: Seq<char>,
    e: Seq<char>,
    stats: Seq<Option<DestStat>>,
)
    requires
        spares(s, stats),
        s.job.n() <= usize::MAX,
        s.stage_ok(),
    ensures
        spares(s.on_failed_at(p, e).s, stats),
{
    reveal(spares);
    reveal(RunView::on_failed_at);
}

#[verifier::spinoff_prover]
proof fn lemma_spares_paths(s: RunView, f: FactsView, stats: Seq<Option<DestStat>>)
    requires
        spares(s, stats),
        s.job.n() <= usize::MAX,
        s.stage_ok(),
    ensures
        spares(s.on_paths(f).s, stats),
{
    reveal(spares);
    reveal(RunView::on_paths);
}

#[verifier::spinoff_prover]
proof fn lemma_spares_loaded(s: RunView, prev: ResumeView, stats: Seq<Option<DestStat>>)
    requires
        spares(s, stats),
        s.job.n() <= usize::MAX,
        s.stage_ok(),
        found_so((s.ask(), AnswerView::Loaded(prev)), stats),
    ensures
        spares(s.on_loaded(prev).s, stats),
{
    reveal(spares);
    reveal(RunView::on_loaded);
}

#[verifier::spinoff_prover]
proof fn lemma_spares_stats(s: RunView, v: Seq<Option<DestStat>>, stats: Seq<Option<DestStat>>)
    requires
        spares(s, stats),
        s.job.n() <= usize::MAX,
        s.stage_ok(),
    ensures
        spares(s.on_stats(v).s, stats),
{
    reveal(spares);
    reveal(RunView::on_stats);
}

#[verifier::spinoff_prover]
proof fn lemma_spares_stat(s: RunView, st: Option<DestStat>, stats: Seq<Option<DestStat>>)
    requires
        spares(s, stats),
        s.job.n() <= usize::MAX,
        s.stage_ok(),
        found_so((s.ask(), AnswerView::Stat(st)), stats),
    ensures
        spares(s.on_stat(st).s, stats),
{
    reveal(spares);
    reveal(RunView::on_stat);
}

#[verifier::spinoff_prover]
proof fn lemma_spares_hash(s: RunView, h: u128, stats: Seq<Option<DestStat>>)
    requires
        spares(s, stats),
        s.job.n() <= usize::MAX,
        s.stage_ok(),
    ensures
        spares(s.on_hash(h).s, stats),
{
    reveal(spares);
    reveal(RunView::on_hash);
}

#[verifier::spinoff_prover]
proof fn lemma_spares_copied(s: RunView, hash: u128, written: u64, stats: Seq<Option<DestStat>>)
    requires
        spares(s, stats),
        s.job.n() <= usize::MAX,
        s.stage_ok(),
    ensures
        spares(s.on_copied(hash, written).s, stats),
{
    reveal(spares);
    reveal(RunView::on_copied);
}

#[verifier::spinoff_prover]
proof fn lemma_spares_stopped(s: RunView, written: u64, stats: Seq<Option<DestStat>>)
    requires
        spares(s, stats),
        s.job.n() <= usize::MAX,
        s.stage_ok(),
    ensures
        spares(s.on_stopped(written).s, stats),
{
    reveal(spares);
    reveal(RunView::on_stopped);
}

#[verifier::spinoff_prover]
proof fn lemma_spares_source(s: RunView, st: Option<SourceStat>, stats: Seq<Option<DestStat>>)
    requires
        spares(s, stats),
        s.job.n() <= usize::MAX,
        s.stage_ok(),
    ensures
        spares(s.on_source(st).s, stats),
{
    reveal(spares);
    reveal(RunView::on_source);
}

#[verifier::spinoff_prover]
proof fn lemma_spares_step(s: RunView, a: AnswerView, stats: Seq<Option<DestStat>>)
    requires
        spares(s, stats),
        s.job.n() <= usize::MAX,
        s.stage_ok(),
        found_so((s.ask(), a), stats),
    ensures
        spares(s.step(a).s, stats),
{
    match a {
        AnswerView::Flag(b) => {
            reveal(RunView::on_flag);
            if run::early(s.stage) {
                lemma_spares_flag_early(s, b, stats);
            } else if run::file_of(s.stage) is Some {
                lemma_spares_flag_file(s, b, stats);
            } else {
                lemma_spares_flag_late(s, b, stats);
            }
        },
        AnswerView::Done => {
            reveal(RunView::on_done);
            if run::early(s.stage) {
                lemma_spares_done_early(s, stats);
            } else if run::file_of(s.stage) is Some {
                lemma_spares_done_file(s, stats);
            } else {
                lemma_spares_done_late(s, stats);
            }
        },
        AnswerView::Failed(e) => {
            reveal(RunView::on_failed);
            if run::early(s.stage) {
                lemma_spares_failed_early(s, e, stats);
            } else if run::file_of(s.stage) is Some {
                lemma_spares_failed_file(s, e, stats);
            } else {
                lemma_spares_failed_late(s, e, stats);
            }
        },
        AnswerView::FailedAt(p, e) => lemma_spares_failed_at(s, p, e, stats),
        AnswerView::Paths(f) => lemma_spares_paths(s, f, stats),
        AnswerView::Loaded(prev) => lemma_spares_loaded(s, prev, stats),
        AnswerView::Stats(v) => lemma_spares_stats(s, v, stats),
        AnswerView::Stat(st) => lemma_spares_stat(s, st, stats),
        AnswerView::Hash(h) => lemma_spares_hash(s, h, stats),
        AnswerView::Copied { hash, written } => lemma_spares_copied(s, hash, written, stats),
        AnswerView::Stopped { written } => lemma_spares_stopped(s, written, stats),
        AnswerView::Source(st) => lemma_spares_source(s, st, stats),
    }
}

proof fn lemma_spares(job: JobView, answers: Seq<AnswerView>, stats: Seq<Option<DestStat>>)
    requires
        run_laws::sane(job),
        job.on_exists is Keep,
        forall|t: int|
            0 <= t < answers.len() ==> found_so(#[trigger] Log::after(job, answers).log[t], stats),
    ensures
        Log::after(job, answers).log.len() == answers.len(),
        spares(Log::after(job, answers).at, stats),
        Log::after(job, answers).at.job == job,
    decreases answers.len(),
{
    if answers.len() == 0 {
        reveal(spares);
    } else {
        let init = answers.drop_last();
        let l = Log::after(job, init);
        let all = Log::after(job, answers).log;
        run_laws::lemma_in_order(job, init);
        assert forall|t: int| 0 <= t < init.len() implies found_so(#[trigger] l.log[t], stats) by {
            assert(all[t] == l.log[t]);
        }
        lemma_spares(job, init, stats);
        let a = answers.last();
        assert(all[init.len() as int] == (l.at.ask(), a));
        assert(found_so(all[init.len() as int], stats));
        lemma_spares_step(l.at, a, stats);
        run_laws::lemma_in_order(job, answers);
    }
}

/// Where existing files are to be kept and nothing is known from an earlier run, exactly the
/// conflicts are kept: their number is the number of files whose place was found taken.
pub proof fn law_the_conflicts_are_what_is_kept(
    job: JobView,
    answers: Seq<AnswerView>,
    stats: Seq<Option<DestStat>>,
)
    requires
        run_laws::sane(job),
        job.on_exists is Keep,
        !job.dry_run,
        forall|t: int|
            0 <= t < answers.len() ==> found_so(#[trigger] Log::after(job, answers).log[t], stats),
        Log::after(job, answers).at.stage is Finished,
        !Log::after(job, answers).at.sum.stopped,
    ensures
        Log::after(job, answers).at.sum.kept == engine::conflicts_of(
            job.m.files,
            stats,
            job.n(),
        ).len(),
{
    lemma_spares(job, answers, stats);
    reveal(spares);
}

/// Such a file is left as it is at both ends: it is neither copied nor renamed into place,
/// and its original is not removed.
pub proof fn law_a_conflict_is_left_at_both_ends(
    job: JobView,
    answers: Seq<AnswerView>,
    stats: Seq<Option<DestStat>>,
    i: int,
)
    requires
        run_laws::sane(job),
        job.on_exists is Keep,
        forall|t: int|
            0 <= t < answers.len() ==> found_so(#[trigger] Log::after(job, answers).log[t], stats),
        ({
            let q = Log::after(job, answers).at.ask();
            ||| q is Copy && q->Copy_file == i
            ||| q == AskView::Rename(i)
            ||| q == AskView::DeleteSource(i)
        }),
    ensures
        !taken(job, stats, i),
{
    lemma_spares(job, answers, stats);
    reveal(spares);
}

} // verus!
