//! What must be settled before anything is written: a transfer that the drive cannot take is
//! refused before its first folder is made.

use crate::engine;
use crate::engine::{DestStat, FactsView};
use crate::journal;
use crate::journal::ResumeView;
use crate::run;
use crate::run::{AnswerView, AskView, JobView, RunView, SourceStat, Stage};
use crate::run_laws::{Exchange, Log};
use vstd::prelude::*;

verus! {

/// No two names of the job are one on a drive that ignores case.
pub open spec fn names_differ(job: JobView) -> bool {
    let all = engine::all_rels(job.m);
    engine::distinct_upto(all, job.os, all.len() as int)
}

/// Every name can be written on the system that runs the job.
pub open spec fn names_cleared(job: JobView) -> bool {
    job.os is Windows ==> engine::windows_refusal(job.m.files, 0) is None
}

/// The drive was found to tell upper case from lower, or no two names differ in case alone.
pub open spec fn case_cleared(job: JobView, log: Seq<Exchange>) -> bool {
    ||| job.m.files.len() + job.m.dirs.len() < 2
    ||| log.contains((AskView::ProbeCase, AnswerView::Flag(false)))
    ||| names_differ(job)
}

/// The drive was found not to be FAT, or no file is too large for one.
pub open spec fn size_cleared(job: JobView, log: Seq<Exchange>) -> bool {
    ||| log.contains((AskView::ProbeFat, AnswerView::Flag(false)))
    ||| engine::fat_refusal(job.m.files, 0, job.os) is None
}

/// Every place was looked at, and no different file stands in one.
pub open spec fn none_clashes(job: JobView, log: Seq<Exchange>) -> bool {
    exists|stats: Seq<Option<DestStat>>| #[trigger]
        log.contains((AskView::StatAll, AnswerView::Stats(stats))) && engine::conflicts_of(
            job.m.files,
            stats,
            job.n(),
        ).len() == 0
}

/// Where clashes are to fail the transfer, there were none.
pub open spec fn clash_cleared(job: JobView, log: Seq<Exchange>) -> bool {
    job.on_exists is Fail ==> none_clashes(job, log)
}

/// How many of the four questions a stage has behind it.
pub open spec fn answered(stage: Stage) -> int {
    match stage {
        Stage::LookDst | Stage::Paths | Stage::Load | Stage::Lock | Stage::Root | Stage::Failed
        | Stage::Finished(_) => 0,
        Stage::Case => 1,
        Stage::Fat => 2,
        Stage::Clashes => 3,
        _ => 4,
    }
}

/// The lock of the destination has been taken.
pub open spec fn locked(stage: Stage) -> bool {
    answered(stage) > 0 || stage is Root
}

#[verifier::opaque]
spec fn cleared(s: RunView, log: Seq<Exchange>) -> bool {
    &&& answered(s.stage) >= 1 ==> names_cleared(s.job)
    &&& answered(s.stage) >= 2 ==> case_cleared(s.job, log)
    &&& answered(s.stage) >= 3 ==> size_cleared(s.job, log)
    &&& answered(s.stage) >= 4 ==> clash_cleared(s.job, log)
}

proof fn lemma_still_there(log: Seq<Exchange>, x: Exchange, y: Exchange)
    requires
        log.contains(y),
    ensures
        log.push(x).contains(y),
{
    let t = log.index_of(y);
    assert(log.push(x)[t] == y);
}

proof fn lemma_just_said(log: Seq<Exchange>, x: Exchange)
    ensures
        log.push(x).contains(x),
{
    assert(log.push(x)[log.len() as int] == x);
}

/// A step between stages that have the same questions behind them, or fewer.
proof fn lemma_no_further(s: RunView, n: RunView, log: Seq<Exchange>, x: Exchange)
    requires
        cleared(s, log),
        n.job == s.job,
        answered(n.stage) <= answered(s.stage),
    ensures
        cleared(n, log.push(x)),
{
    reveal(cleared);
    let case = (AskView::ProbeCase, AnswerView::Flag(false));
    let fat = (AskView::ProbeFat, AnswerView::Flag(false));
    if log.contains(case) {
        lemma_still_there(log, x, case);
    }
    if log.contains(fat) {
        lemma_still_there(log, x, fat);
    }
    if none_clashes(s.job, log) {
        let stats = choose|stats: Seq<Option<DestStat>>| #[trigger]
            log.contains((AskView::StatAll, AnswerView::Stats(stats))) && engine::conflicts_of(
                s.job.m.files,
                stats,
                s.job.n(),
            ).len() == 0;
        lemma_still_there(log, x, (AskView::StatAll, AnswerView::Stats(stats)));
    }
}

/// The questions that a step leaves behind it are those it had, or one of the four that the
/// answer settles.
spec fn asks_on(s: RunView, a: AnswerView) -> bool {
    ||| s.stage is Lock && a is Done
    ||| s.stage is Root && a is Done
    ||| s.stage is Case && a is Flag
    ||| s.stage is Fat && a is Flag
    ||| s.stage is Clashes && a is Stats
}

/// A step that settles nothing leads no further.
#[verifier::opaque]
spec fn no_further(s: RunView, n: RunView) -> bool {
    &&& n.job == s.job
    &&& s.stage is Paths || n.facts == s.facts
    &&& locked(n.stage) ==> locked(s.stage)
    &&& answered(n.stage) <= answered(s.stage)
}

#[verifier::spinoff_prover]
proof fn lemma_no_further_flag_early(s: RunView, b: bool)
    requires
        !asks_on(s, AnswerView::Flag(b)),
        run::early(s.stage),
    ensures
        no_further(s, s.on_flag_early(b).s),
{
    reveal(no_further);
    reveal(RunView::on_flag_early);
}

#[verifier::spinoff_prover]
proof fn lemma_no_further_flag_file(s: RunView, b: bool)
    requires
        !asks_on(s, AnswerView::Flag(b)),
        run::file_of(s.stage) is Some,
    ensures
        no_further(s, s.on_flag_file(b).s),
{
    reveal(no_further);
    reveal(RunView::on_flag_file);
}

#[verifier::spinoff_prover]
proof fn lemma_no_further_flag_late(s: RunView, b: bool)
    requires
        !asks_on(s, AnswerView::Flag(b)),
        !run::early(s.stage),
        run::file_of(s.stage) is None,
    ensures
        no_further(s, s.on_flag_late(b).s),
{
    reveal(no_further);
    reveal(RunView::on_flag_late);
}

#[verifier::spinoff_prover]
proof fn lemma_no_further_done_early(s: RunView)
    requires
        !asks_on(s, AnswerView::Done),
        run::early(s.stage),
    ensures
        no_further(s, s.on_done_early().s),
{
    reveal(no_further);
    reveal(RunView::on_done_early);
}

#[verifier::spinoff_prover]
proof fn lemma_no_further_done_file(s: RunView)
    requires
        !asks_on(s, AnswerView::Done),
        run::file_of(s.stage) is Some,
    ensures
        no_further(s, s.on_done_file().s),
{
    reveal(no_further);
    reveal(RunView::on_done_file);
}

#[verifier::spinoff_prover]
proof fn lemma_no_further_done_late(s: RunView)
    requires
        !asks_on(s, AnswerView::Done),
        !run::early(s.stage),
        run::file_of(s.stage) is None,
    ensures
        no_further(s, s.on_done_late().s),
{
    reveal(no_further);
    reveal(RunView::on_done_late);
}

#[verifier::spinoff_prover]
proof fn lemma_no_further_failed_early(s: RunView, e: Seq<char>)
    requires
        !asks_on(s, AnswerView::Failed(e)),
        run::early(s.stage),
    ensures
        no_further(s, s.on_failed_early(e).s),
{
    reveal(no_further);
    reveal(RunView::on_failed_early);
}

#[verifier::spinoff_prover]
proof fn lemma_no_further_failed_file(s: RunView, e: Seq<char>)
    requires
        !asks_on(s, AnswerView::Failed(e)),
        run::file_of(s.stage) is Some,
    ensures
        no_further(s, s.on_failed_file(e).s),
{
    reveal(no_further);
    reveal(RunView::on_failed_file);
}

#[verifier::spinoff_prover]
proof fn lemma_no_further_failed_late(s: RunView, e: Seq<char>)
    requires
        !asks_on(s, AnswerView::Failed(e)),
        !run::early(s.stage),
        run::file_of(s.stage) is None,
    ensures
        no_further(s, s.on_failed_late(e).s),
{
    reveal(no_further);
    reveal(RunView::on_failed_late);
}

#[verifier::spinoff_prover]
proof fn lemma_no_further_failed_at(s: RunView, p: Seq<char>, e: Seq<char>)
    requires
        !asks_on(s, AnswerView::FailedAt(p, e)),
    ensures
        no_further(s, s.on_failed_at(p, e).s),
{
    reveal(no_further);
    reveal(RunView::on_failed_at);
}

#[verifier::spinoff_prover]
proof fn lemma_no_further_paths(s: RunView, f: FactsView)
    requires
        !asks_on(s, AnswerView::Paths(f)),
    ensures
        no_further(s, s.on_paths(f).s),
{
    reveal(no_further);
    reveal(RunView::on_paths);
}

#[verifier::spinoff_prover]
proof fn lemma_no_further_loaded(s: RunView, prev: ResumeView)
    requires
        !asks_on(s, AnswerView::Loaded(prev)),
    ensures
        no_further(s, s.on_loaded(prev).s),
{
    reveal(no_further);
    reveal(RunView::on_loaded);
}

#[verifier::spinoff_prover]
proof fn lemma_no_further_stats(s: RunView, v: Seq<Option<DestStat>>)
    requires
        !asks_on(s, AnswerView::Stats(v)),
    ensures
        no_further(s, s.on_stats(v).s),
{
    reveal(no_further);
    reveal(RunView::on_stats);
}

#[verifier::spinoff_prover]
proof fn lemma_no_further_stat(s: RunView, st: Option<DestStat>)
    requires
        !asks_on(s, AnswerView::Stat(st)),
    ensures
        no_further(s, s.on_stat(st).s),
{
    reveal(no_further);
    reveal(RunView::on_stat);
}

#[verifier::spinoff_prover]
proof fn lemma_no_further_hash(s: RunView, h: u128)
    requires
        !asks_on(s, AnswerView::Hash(h)),
    ensures
        no_further(s, s.on_hash(h).s),
{
    reveal(no_further);
    reveal(RunView::on_hash);
}

#[verifier::spinoff_prover]
proof fn lemma_no_further_copied(s: RunView, hash: u128, written: u64)
    requires
        !asks_on(s, AnswerView::Copied { hash, written }),
    ensures
        no_further(s, s.on_copied(hash, written).s),
{
    reveal(no_further);
    reveal(RunView::on_copied);
}

#[verifier::spinoff_prover]
proof fn lemma_no_further_stopped(s: RunView, written: u64)
    requires
        !asks_on(s, AnswerView::Stopped { written }),
    ensures
        no_further(s, s.on_stopped(written).s),
{
    reveal(no_further);
    reveal(RunView::on_stopped);
}

#[verifier::spinoff_prover]
proof fn lemma_no_further_source(s: RunView, st: Option<SourceStat>)
    requires
        !asks_on(s, AnswerView::Source(st)),
    ensures
        no_further(s, s.on_source(st).s),
{
    reveal(no_further);
    reveal(RunView::on_source);
}

#[verifier::spinoff_prover]
proof fn lemma_no_further_step(s: RunView, a: AnswerView)
    requires
        !asks_on(s, a),
    ensures
        no_further(s, s.step(a).s),
{
    match a {
        AnswerView::Flag(b) => {
            reveal(RunView::on_flag);
            if run::early(s.stage) {
                lemma_no_further_flag_early(s, b);
            } else if run::file_of(s.stage) is Some {
                lemma_no_further_flag_file(s, b);
            } else {
                lemma_no_further_flag_late(s, b);
            }
        },
        AnswerView::Done => {
            reveal(RunView::on_done);
            if run::early(s.stage) {
                lemma_no_further_done_early(s);
            } else if run::file_of(s.stage) is Some {
                lemma_no_further_done_file(s);
            } else {
                lemma_no_further_done_late(s);
            }
        },
        AnswerView::Failed(e) => {
            reveal(RunView::on_failed);
            if run::early(s.stage) {
                lemma_no_further_failed_early(s, e);
            } else if run::file_of(s.stage) is Some {
                lemma_no_further_failed_file(s, e);
            } else {
                lemma_no_further_failed_late(s, e);
            }
        },
        AnswerView::FailedAt(p, e) => lemma_no_further_failed_at(s, p, e),
        AnswerView::Paths(f) => lemma_no_further_paths(s, f),
        AnswerView::Loaded(prev) => lemma_no_further_loaded(s, prev),
        AnswerView::Stats(v) => lemma_no_further_stats(s, v),
        AnswerView::Stat(st) => lemma_no_further_stat(s, st),
        AnswerView::Hash(h) => lemma_no_further_hash(s, h),
        AnswerView::Copied { hash, written } => lemma_no_further_copied(s, hash, written),
        AnswerView::Stopped { written } => lemma_no_further_stopped(s, written),
        AnswerView::Source(st) => lemma_no_further_source(s, st),
    }
}

/// The answer settles a question, or the transfer is over.
#[verifier::rlimit(50)]
#[verifier::spinoff_prover]
proof fn lemma_question(s: RunView, log: Seq<Exchange>, a: AnswerView)
    requires
        cleared(s, log),
        asks_on(s, a),
    ensures
        cleared(s.step(a).s, log.push((s.ask(), a))),
{
    let x = (s.ask(), a);
    lemma_just_said(log, x);
    lemma_no_further(s, s, log, x);
    reveal(cleared);
    match s.stage {
        Stage::Lock | Stage::Root => {
            reveal(RunView::on_done);
            reveal(RunView::on_done_early);
        },
        Stage::Case | Stage::Fat => {
            reveal(RunView::on_flag);
            reveal(RunView::on_flag_early);
        },
        _ => {
            reveal(RunView::on_stats);
        },
    }
}

proof fn lemma_cleared(job: JobView, answers: Seq<AnswerView>)
    ensures
        Log::after(job, answers).at.job == job,
        cleared(Log::after(job, answers).at, Log::after(job, answers).log),
    decreases answers.len(),
{
    if answers.len() == 0 {
        reveal(cleared);
    } else {
        lemma_cleared(job, answers.drop_last());
        let l = Log::after(job, answers.drop_last());
        let a = answers.last();
        if asks_on(l.at, a) {
            lemma_question(l.at, l.log, a);
            lemma_question_keeps_the_job(l.at, a);
        } else {
            lemma_no_further_step(l.at, a);
            reveal(no_further);
            lemma_no_further(l.at, l.at.step(a).s, l.log, (l.at.ask(), a));
        }
    }
}

#[verifier::rlimit(50)]
#[verifier::spinoff_prover]
proof fn lemma_question_keeps_the_job(s: RunView, a: AnswerView)
    requires
        asks_on(s, a),
    ensures
        s.step(a).s.job == s.job,
        s.step(a).s.facts == s.facts,
{
    reveal(RunView::on_done);
    reveal(RunView::on_done_early);
    reveal(RunView::on_flag);
    reveal(RunView::on_flag_early);
    reveal(RunView::on_stats);
}

/// A transfer that the drive cannot take is refused before its first folder is made: past
/// that point every name can be written, no two of them are one on a drive that ignores
/// case, no file is too large for a FAT drive and, where clashes are to fail the transfer,
/// none was found.
pub proof fn law_a_doomed_transfer_writes_nothing(job: JobView, answers: Seq<AnswerView>)
    requires
        ({
            let q = Log::after(job, answers).at.ask();
            q is MakeDir || q is OpenJournal || q is Commit || q is Append || q is MakeParent
                || q is Copy || q is Rename || q is DeleteSource
        }),
    ensures
        names_cleared(job),
        case_cleared(job, Log::after(job, answers).log),
        size_cleared(job, Log::after(job, answers).log),
        clash_cleared(job, Log::after(job, answers).log),
{
    lemma_cleared(job, answers);
    reveal(cleared);
}

/// The lock of the destination is named after its key alone.
pub open spec fn lock_of(s: RunView) -> AskView {
    AskView::Lock(journal::hashed_name(s.facts.dst_key, ".lock"@))
}

/// The lock that keeps every other transfer off the destination was asked for and taken.
pub open spec fn took_lock(s: RunView, log: Seq<Exchange>) -> bool {
    log.contains((lock_of(s), AnswerView::Done))
}

proof fn lemma_locked(job: JobView, answers: Seq<AnswerView>)
    ensures
        locked(Log::after(job, answers).at.stage) ==> took_lock(
            Log::after(job, answers).at,
            Log::after(job, answers).log,
        ),
    decreases answers.len(),
{
    if answers.len() > 0 {
        lemma_locked(job, answers.drop_last());
        let l = Log::after(job, answers.drop_last());
        let a = answers.last();
        let x = (l.at.ask(), a);
        if asks_on(l.at, a) {
            lemma_question_keeps_the_job(l.at, a);
            lemma_just_said(l.log, x);
        } else {
            lemma_no_further_step(l.at, a);
            reveal(no_further);
        }
        if took_lock(l.at, l.log) {
            lemma_still_there(l.log, x, (lock_of(l.at), AnswerView::Done));
        }
    }
}

/// One transfer per destination at a time: nothing is written before the lock of the
/// destination is taken, and the lock is that of the destination alone, whatever the source
/// and the mode.
pub proof fn law_nothing_is_written_without_the_lock(job: JobView, answers: Seq<AnswerView>)
    requires
        ({
            let q = Log::after(job, answers).at.ask();
            q is MakeRoot || q is MakeDir || q is OpenJournal || q is Commit || q is Append
                || q is MakeParent || q is Copy || q is Rename || q is RemovePart
                || q is DeleteSource
        }),
    ensures
        took_lock(Log::after(job, answers).at, Log::after(job, answers).log),
{
    lemma_locked(job, answers);
}

} // verus!
