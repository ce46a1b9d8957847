//! What a transfer tells adds up to what it says it did.

use crate::engine::{DestStat, FactsView, Kind};
use crate::journal::ResumeView;
use crate::path::Os;
use crate::run;
use crate::run::{AnswerView, AskView, JobView, Next, OutView, RunView, SourceStat, Stage};
use crate::run_laws;
use crate::run_laws::{Exchange, Log};
use crate::scan;
use crate::scan::ManifestView;
use vstd::prelude::*;

verus! {

// ── what was told ────────────────────────────────────────────────────────────
/// Everything a transfer has told, in order.
pub open spec fn told(job: JobView, answers: Seq<AnswerView>) -> Seq<OutView>
    decreases answers.len(),
{
    if answers.len() == 0 {
        Seq::empty()
    } else {
        told(job, answers.drop_last()) + Log::after(job, answers.drop_last()).at.step(
            answers.last(),
        ).out
    }
}

/// What is told of single files and of the phases.
pub enum Event {
    /// Something went wrong.
    Errors,
    /// Originals are going to be removed.
    DeletePhase,
    /// One has been.
    Deleted,
    FileDone,
    FileSkipped,
}

pub open spec fn is_event(o: OutView, e: Event) -> bool {
    match o {
        OutView::Tell(p) => match e {
            Event::Errors => p is Errors,
            Event::DeletePhase => p is DeletePhase,
            Event::Deleted => p is Deleted,
            Event::FileDone => p is FileDone,
            Event::FileSkipped => p is FileSkipped,
        },
        _ => false,
    }
}

/// How often it was told.
pub open spec fn times(out: Seq<OutView>, e: Event) -> int
    decreases out.len(),
{
    if out.len() == 0 {
        0
    } else {
        times(out.drop_last(), e) + hit(out.last(), e)
    }
}

pub open spec fn hit(o: OutView, e: Event) -> int {
    if is_event(o, e) {
        1
    } else {
        0
    }
}

proof fn lemma_times_add(a: Seq<OutView>, b: Seq<OutView>, e: Event)
    ensures
        times(a + b, e) == times(a, e) + times(b, e),
    decreases b.len(),
{
    if b.len() == 0 {
        assert(a + b =~= a);
    } else {
        assert((a + b).drop_last() =~= a + b.drop_last());
        lemma_times_add(a, b.drop_last(), e);
    }
}

proof fn lemma_times_range(out: Seq<OutView>, e: Event)
    ensures
        0 <= times(out, e),
        times(out, e) > 0 ==> exists|k: int| 0 <= k < out.len() && is_event(#[trigger] out[k], e),
        times(out, e) == 0 ==> forall|k: int|
            0 <= k < out.len() ==> !is_event(#[trigger] out[k], e),
    decreases out.len(),
{
    if out.len() > 0 {
        let init = out.drop_last();
        lemma_times_range(init, e);
        if times(init, e) > 0 {
            let k = choose|k: int| 0 <= k < init.len() && is_event(#[trigger] init[k], e);
            assert(out[k] == init[k]);
        } else if is_event(out.last(), e) {
            assert(out[out.len() - 1] == out.last());
        } else {
            assert forall|k: int| 0 <= k < out.len() implies !is_event(#[trigger] out[k], e) by {
                if k < init.len() {
                    assert(out[k] == init[k]);
                }
            }
        }
    }
}

/// The `k`-th entry, counted where it is such an event.
spec fn nth(out: Seq<OutView>, k: int, e: Event) -> int {
    if k < out.len() {
        hit(out[k], e)
    } else {
        0
    }
}

proof fn lemma_times_short(out: Seq<OutView>)
    requires
        out.len() <= 4,
    ensures
        forall|e: Event| #[trigger]
            times(out, e) == nth(out, 0, e) + nth(out, 1, e) + nth(out, 2, e) + nth(out, 3, e),
{
    assert forall|e: Event| #[trigger] times(out, e) == nth(out, 0, e) + nth(out, 1, e) + nth(
        out,
        2,
        e,
    ) + nth(out, 3, e) by {
        reveal_with_fuel(times, 6);
        if out.len() > 0 {
            let a = out.drop_last();
            if a.len() > 0 {
                let b = a.drop_last();
                if b.len() > 0 {
                    let c = b.drop_last();
                    assert(c.len() <= 1);
                }
            }
        }
    }
}

proof fn lemma_notes_are_no_events(m: ManifestView, src: Seq<char>, os: Os, n: int)
    ensures
        forall|e: Event| #[trigger] times(RunView::skip_notes(m, src, os, n), e) == 0,
    decreases n,
{
    if n > 0 {
        lemma_notes_are_no_events(m, src, os, n - 1);
        let init = RunView::skip_notes(m, src, os, n - 1);
        let all = RunView::skip_notes(m, src, os, n);
        assert(all.drop_last() =~= init);
        assert(all.last() is Note);
        assert forall|e: Event| #[trigger] times(all, e) == 0 by {
            assert(times(init, e) == 0);
        }
    }
}

// ── one step ─────────────────────────────────────────────────────────────────
/// No original may be removed yet.
pub open spec fn before_deleting(stage: Stage) -> bool {
    run::early(stage) || run::file_of(stage) is Some || stage is FirstFlush || stage is Barrier
        || stage is AllCopied
}

/// Originals are being removed.
pub open spec fn deleting(stage: Stage) -> bool {
    run::original_of(stage) is Some || stage is SecondFlush
}

/// What one step may tell, and what it then counts.
#[verifier::opaque]
spec fn counted(s: RunView, n: Next) -> bool {
    &&& n.s.sum.copied == s.sum.copied + times(n.out, Event::FileDone)
    &&& n.s.sum.skipped == s.sum.skipped + times(n.out, Event::FileSkipped)
    &&& n.s.sum.deleted == s.sum.deleted + times(n.out, Event::Deleted)
    &&& n.s.sum.errors.len() >= s.sum.errors.len()
    &&& times(n.out, Event::Errors) > 0 ==> n.s.sum.errors.len() > 0 && before_deleting(s.stage)
        && !(s.stage is AllCopied)
    &&& times(n.out, Event::DeletePhase) > 0 ==> s.stage is AllCopied
    &&& 0 <= times(n.out, Event::DeletePhase) <= 1
    &&& times(n.out, Event::Deleted) > 0 ==> s.stage is DeleteRecord
    &&& before_deleting(n.s.stage) ==> before_deleting(s.stage) && times(
        n.out,
        Event::DeletePhase,
    ) == 0
    &&& deleting(n.s.stage) ==> deleting(s.stage) || times(n.out, Event::DeletePhase) == 1
    &&& n.s.stage is Barrier || n.s.stage is AllCopied ==> run_laws::clean(n.s)
}

/// What a step needs of the state before it.
spec fn ready(s: RunView) -> bool {
    s.stage is Barrier || s.stage is AllCopied ==> run_laws::clean(s)
}

#[verifier::spinoff_prover]
proof fn lemma_flag_early(s: RunView, b: bool)
    requires
        ready(s),
        run::early(s.stage),
    ensures
        counted(s, s.on_flag_early(b)),
{
    reveal(counted);
    reveal(RunView::on_flag_early);
    lemma_times_short(s.on_flag_early(b).out);
}

#[verifier::spinoff_prover]
proof fn lemma_flag_file(s: RunView, b: bool)
    requires
        ready(s),
        run::file_of(s.stage) is Some,
    ensures
        counted(s, s.on_flag_file(b)),
{
    reveal(counted);
    reveal(RunView::on_flag_file);
    lemma_times_short(s.on_flag_file(b).out);
}

#[verifier::spinoff_prover]
proof fn lemma_flag_late(s: RunView, b: bool)
    requires
        ready(s),
        !run::early(s.stage),
        run::file_of(s.stage) is None,
    ensures
        counted(s, s.on_flag_late(b)),
{
    reveal(counted);
    reveal(RunView::on_flag_late);
    lemma_times_short(s.on_flag_late(b).out);
}

#[verifier::spinoff_prover]
proof fn lemma_done_early(s: RunView)
    requires
        ready(s),
        run::early(s.stage),
    ensures
        counted(s, s.on_done_early()),
{
    reveal(counted);
    reveal(RunView::on_done_early);
    lemma_times_short(s.on_done_early().out);
}

#[verifier::spinoff_prover]
proof fn lemma_done_file(s: RunView)
    requires
        ready(s),
        run::file_of(s.stage) is Some,
    ensures
        counted(s, s.on_done_file()),
{
    reveal(counted);
    reveal(RunView::on_done_file);
    lemma_times_short(s.on_done_file().out);
}

#[verifier::spinoff_prover]
proof fn lemma_done_late(s: RunView)
    requires
        ready(s),
        !run::early(s.stage),
        run::file_of(s.stage) is None,
    ensures
        counted(s, s.on_done_late()),
{
    reveal(counted);
    reveal(RunView::on_done_late);
    lemma_times_short(s.on_done_late().out);
}

#[verifier::spinoff_prover]
proof fn lemma_failed_early(s: RunView, e: Seq<char>)
    requires
        ready(s),
        run::early(s.stage),
    ensures
        counted(s, s.on_failed_early(e)),
{
    reveal(counted);
    reveal(RunView::on_failed_early);
    lemma_times_short(s.on_failed_early(e).out);
}

#[verifier::spinoff_prover]
proof fn lemma_failed_file(s: RunView, e: Seq<char>)
    requires
        ready(s),
        run::file_of(s.stage) is Some,
    ensures
        counted(s, s.on_failed_file(e)),
{
    reveal(counted);
    reveal(RunView::on_failed_file);
    lemma_times_short(s.on_failed_file(e).out);
}

#[verifier::spinoff_prover]
proof fn lemma_failed_late(s: RunView, e: Seq<char>)
    requires
        ready(s),
        !run::early(s.stage),
        run::file_of(s.stage) is None,
    ensures
        counted(s, s.on_failed_late(e)),
{
    reveal(counted);
    reveal(RunView::on_failed_late);
    lemma_times_short(s.on_failed_late(e).out);
}

#[verifier::spinoff_prover]
proof fn lemma_hash(s: RunView, h: u128)
    requires
        ready(s),
    ensures
        counted(s, s.on_hash(h)),
{
    reveal(counted);
    reveal(RunView::on_hash);
    lemma_times_short(s.on_hash(h).out);
}

#[verifier::spinoff_prover]
proof fn lemma_stat(s: RunView, st: Option<DestStat>)
    requires
        ready(s),
    ensures
        counted(s, s.on_stat(st)),
{
    reveal(counted);
    reveal(RunView::on_stat);
    lemma_times_short(s.on_stat(st).out);
}

#[verifier::spinoff_prover]
proof fn lemma_loaded(s: RunView, prev: ResumeView)
    requires
        ready(s),
    ensures
        counted(s, s.on_loaded(prev)),
{
    reveal(counted);
    reveal(RunView::on_loaded);
    let n = s.on_loaded(prev);
    if s.stage is Load && s.job.dry_run {
        let k = s.job.m.skipped.len() as int;
        let notes = RunView::skip_notes(s.job.m, s.job.src, s.job.os, k);
        let head = n.out.take(n.out.len() - notes.len());
        assert(n.out =~= head + notes);
        lemma_notes_are_no_events(s.job.m, s.job.src, s.job.os, k);
        lemma_times_short(head);
        assert forall|e: Event| #[trigger] times(n.out, e) == 0 by {
            lemma_times_add(head, notes, e);
            assert(times(notes, e) == 0);
            assert(times(head, e) == 0);
        }
    } else {
        lemma_times_short(n.out);
    }
}

#[verifier::spinoff_prover]
proof fn lemma_rest_counted(s: RunView, a: AnswerView)
    requires
        ready(s),
        a is FailedAt || a is Paths || a is Stats || a is Copied || a is Stopped || a is Source,
    ensures
        counted(s, s.step(a)),
{
    reveal(counted);
    match a {
        AnswerView::FailedAt(p, e) => {
            reveal(RunView::on_failed_at);
            lemma_times_short(s.on_failed_at(p, e).out);
            assert(counted(s, s.on_failed_at(p, e)));
        },
        AnswerView::Paths(f) => {
            reveal(RunView::on_paths);
            lemma_times_short(s.on_paths(f).out);
            assert(counted(s, s.on_paths(f)));
        },
        AnswerView::Stats(v) => {
            reveal(RunView::on_stats);
            lemma_times_short(s.on_stats(v).out);
            assert(counted(s, s.on_stats(v)));
        },
        AnswerView::Copied { hash, written } => {
            reveal(RunView::on_copied);
            lemma_times_short(s.on_copied(hash, written).out);
            assert(counted(s, s.on_copied(hash, written)));
        },
        AnswerView::Stopped { written } => {
            reveal(RunView::on_stopped);
            lemma_times_short(s.on_stopped(written).out);
            assert(counted(s, s.on_stopped(written)));
        },
        AnswerView::Source(st) => {
            reveal(RunView::on_source);
            lemma_times_short(s.on_source(st).out);
            assert(counted(s, s.on_source(st)));
        },
        _ => {},
    }
}

#[verifier::spinoff_prover]
proof fn lemma_counted(s: RunView, a: AnswerView)
    requires
        ready(s),
    ensures
        counted(s, s.step(a)),
{
    match a {
        AnswerView::Flag(b) => {
            reveal(RunView::on_flag);
            if run::early(s.stage) {
                lemma_flag_early(s, b);
            } else if run::file_of(s.stage) is Some {
                lemma_flag_file(s, b);
            } else {
                lemma_flag_late(s, b);
            }
        },
        AnswerView::Done => {
            reveal(RunView::on_done);
            if run::early(s.stage) {
                lemma_done_early(s);
            } else if run::file_of(s.stage) is Some {
                lemma_done_file(s);
            } else {
                lemma_done_late(s);
            }
        },
        AnswerView::Failed(e) => {
            reveal(RunView::on_failed);
            if run::early(s.stage) {
                lemma_failed_early(s, e);
            } else if run::file_of(s.stage) is Some {
                lemma_failed_file(s, e);
            } else {
                lemma_failed_late(s, e);
            }
        },
        AnswerView::Loaded(prev) => lemma_loaded(s, prev),
        AnswerView::Hash(h) => lemma_hash(s, h),
        AnswerView::Stat(st) => lemma_stat(s, st),
        _ => lemma_rest_counted(s, a),
    }
}

// ── every step ───────────────────────────────────────────────────────────────
/// Every removal told comes behind the start of removing.
pub open spec fn phase_comes_first(out: Seq<OutView>) -> bool {
    forall|j: int|
        0 <= j < out.len() && is_event(#[trigger] out[j], Event::Deleted) ==> exists|k: int|
            0 <= k < j && is_event(#[trigger] out[k], Event::DeletePhase)
}

spec fn tallied(s: RunView, out: Seq<OutView>) -> bool {
    &&& ready(s)
    &&& s.sum.copied == times(out, Event::FileDone)
    &&& s.sum.skipped == times(out, Event::FileSkipped)
    &&& s.sum.deleted == times(out, Event::Deleted)
    &&& times(out, Event::Errors) > 0 ==> s.sum.errors.len() > 0
    &&& times(out, Event::DeletePhase) <= 1
    &&& times(out, Event::Deleted) > 0 ==> times(out, Event::DeletePhase) == 1
    &&& times(out, Event::DeletePhase) == 1 ==> times(out, Event::Errors) == 0
    &&& before_deleting(s.stage) ==> times(out, Event::DeletePhase) == 0
    &&& deleting(s.stage) ==> times(out, Event::DeletePhase) == 1
    &&& phase_comes_first(out)
}

proof fn lemma_tallied_step(s: RunView, out: Seq<OutView>, a: AnswerView)
    requires
        tallied(s, out),
    ensures
        tallied(s.step(a).s, out + s.step(a).out),
{
    let n = s.step(a);
    lemma_counted(s, a);
    reveal(counted);
    lemma_times_add(out, n.out, Event::Errors);
    lemma_times_add(out, n.out, Event::DeletePhase);
    lemma_times_add(out, n.out, Event::Deleted);
    lemma_times_add(out, n.out, Event::FileDone);
    lemma_times_add(out, n.out, Event::FileSkipped);
    lemma_times_range(out, Event::Errors);
    lemma_times_range(out, Event::DeletePhase);
    lemma_times_range(out, Event::Deleted);
    lemma_times_range(n.out, Event::Errors);
    lemma_times_range(n.out, Event::Deleted);
    let all = out + n.out;
    assert forall|j: int|
        0 <= j < all.len() && is_event(#[trigger] all[j], Event::Deleted) implies exists|k: int|
        0 <= k < j && is_event(#[trigger] all[k], Event::DeletePhase) by {
        if j < out.len() {
            assert(all[j] == out[j]);
            let k = choose|k: int| 0 <= k < j && is_event(#[trigger] out[k], Event::DeletePhase);
            assert(all[k] == out[k]);
        } else {
            assert(is_event(n.out[j - out.len()], Event::Deleted));
            assert(times(n.out, Event::Deleted) > 0);
            assert(deleting(s.stage));
            let k = choose|k: int|
                0 <= k < out.len() && is_event(#[trigger] out[k], Event::DeletePhase);
            assert(all[k] == out[k]);
        }
    }
}

proof fn lemma_tallied(job: JobView, answers: Seq<AnswerView>)
    ensures
        tallied(Log::after(job, answers).at, told(job, answers)),
    decreases answers.len(),
{
    if answers.len() > 0 {
        let init = answers.drop_last();
        lemma_tallied(job, init);
        lemma_tallied_step(Log::after(job, init).at, told(job, init), answers.last());
    }
}

/// The counts are those of what was told: one copied file for every file told done, one
/// skipped for every file told skipped, one removed original for every removal told.
pub proof fn law_the_counts_are_what_was_told(job: JobView, answers: Seq<AnswerView>)
    ensures
        ({
            let s = Log::after(job, answers).at.sum;
            let out = told(job, answers);
            &&& s.copied == times(out, Event::FileDone)
            &&& s.skipped == times(out, Event::FileSkipped)
            &&& s.deleted == times(out, Event::Deleted)
        }),
{
    lemma_tallied(job, answers);
}

/// The start of removing is told at most once, and every removal after it. Once a problem has
/// been told there is neither, and nothing is removed.
pub proof fn law_removing_is_announced_once(job: JobView, answers: Seq<AnswerView>)
    ensures
        ({
            let out = told(job, answers);
            &&& times(out, Event::DeletePhase) <= 1
            &&& phase_comes_first(out)
            &&& times(out, Event::Errors) > 0 ==> {
                &&& times(out, Event::DeletePhase) == 0
                &&& times(out, Event::Deleted) == 0
                &&& Log::after(job, answers).at.sum.deleted == 0
            }
        }),
{
    lemma_tallied(job, answers);
    lemma_times_range(told(job, answers), Event::DeletePhase);
    lemma_times_range(told(job, answers), Event::Deleted);
}

/// The copying was stopped on request, and what is left is to end.
spec fn halted(s: RunView) -> bool {
    s.sum.stopped && s.stage is FirstFlush || s.stage == Stage::Finished(false) || s.stage
        is Failed
}

#[verifier::spinoff_prover]
proof fn lemma_halted(s: RunView, a: AnswerView)
    requires
        halted(s),
    ensures
        halted(s.step(a).s),
        s.step(a).out.len() == 0,
        s.step(a).s.sum.deleted == s.sum.deleted,
{
    match a {
        AnswerView::Flag(b) => {
            assert(s.on_flag(b) == s.silent()) by {
                reveal(RunView::on_flag);
                reveal(RunView::on_flag_late);
            }
        },
        AnswerView::Done => {
            assert(s.on_done() == s.silent() || s.on_done() == s.at(
                Stage::Finished(false),
            ).silent()) by {
                reveal(RunView::on_done);
                reveal(RunView::on_done_late);
            }
        },
        AnswerView::Failed(e) => {
            assert(s.on_failed(e) == s.silent() || s.on_failed(e) == s.fail(
                Kind::Passed,
                e,
            ).silent()) by {
                reveal(RunView::on_failed);
                reveal(RunView::on_failed_late);
            }
        },
        AnswerView::FailedAt(p, e) => {
            assert(s.on_failed_at(p, e) == s.silent()) by {
                reveal(RunView::on_failed_at);
            }
        },
        AnswerView::Paths(f) => {
            assert(s.on_paths(f) == s.silent()) by {
                reveal(RunView::on_paths);
            }
        },
        AnswerView::Loaded(prev) => {
            assert(s.on_loaded(prev) == s.silent()) by {
                reveal(RunView::on_loaded);
            }
        },
        AnswerView::Stats(v) => {
            assert(s.on_stats(v) == s.silent()) by {
                reveal(RunView::on_stats);
            }
        },
        AnswerView::Stat(st) => {
            assert(s.on_stat(st) == s.silent()) by {
                reveal(RunView::on_stat);
            }
        },
        AnswerView::Hash(h) => {
            assert(s.on_hash(h) == s.silent()) by {
                reveal(RunView::on_hash);
            }
        },
        AnswerView::Copied { hash, written } => {
            assert(s.on_copied(hash, written) == s.silent()) by {
                reveal(RunView::on_copied);
            }
        },
        AnswerView::Stopped { written } => {
            assert(s.on_stopped(written) == s.silent()) by {
                reveal(RunView::on_stopped);
            }
        },
        AnswerView::Source(st) => {
            assert(s.on_source(st) == s.silent()) by {
                reveal(RunView::on_source);
            }
        },
    }
}

/// A transfer that was stopped while files were being copied removes nothing, and tells of no
/// removal, whatever it is answered from then on.
pub proof fn law_a_stop_keeps_every_original(job: JobView, answers: Seq<AnswerView>, t: int)
    requires
        0 <= t <= answers.len(),
        Log::after(job, answers.take(t)).at.stage is FirstFlush,
        Log::after(job, answers.take(t)).at.sum.stopped,
    ensures
        ({
            let out = told(job, answers);
            &&& times(out, Event::DeletePhase) == 0
            &&& times(out, Event::Deleted) == 0
            &&& Log::after(job, answers).at.sum.deleted == 0
        }),
{
    lemma_stays_halted(job, answers, t);
}

proof fn lemma_stays_halted(job: JobView, answers: Seq<AnswerView>, t: int)
    requires
        0 <= t <= answers.len(),
        Log::after(job, answers.take(t)).at.stage is FirstFlush,
        Log::after(job, answers.take(t)).at.sum.stopped,
    ensures
        halted(Log::after(job, answers).at),
        times(told(job, answers), Event::DeletePhase) == 0,
        times(told(job, answers), Event::Deleted) == 0,
        Log::after(job, answers).at.sum.deleted == 0,
    decreases answers.len(),
{
    if t == answers.len() {
        assert(answers.take(t) =~= answers);
        lemma_tallied(job, answers);
        lemma_times_range(told(job, answers), Event::DeletePhase);
        lemma_times_range(told(job, answers), Event::Deleted);
    } else {
        let init = answers.drop_last();
        assert(init.take(t) =~= answers.take(t));
        lemma_stays_halted(job, init, t);
        lemma_halted(Log::after(job, init).at, answers.last());
        assert(told(job, answers) =~= told(job, init));
    }
}

// ── bytes ────────────────────────────────────────────────────────────────────
/// A sum of what was told during each exchange.
pub open spec fn total(bytes: Seq<nat>) -> nat
    decreases bytes.len(),
{
    if bytes.len() == 0 {
        0
    } else {
        total(bytes.drop_last()) + bytes.last()
    }
}

/// While a file was being copied, as many bytes were told as the copy then said it wrote. Of
/// a copy that failed nothing is known; everything else tells of no bytes.
pub open spec fn tells_truly(x: Exchange, bytes: nat) -> bool {
    match x {
        (AskView::Copy { .. }, AnswerView::Copied { written, .. }) => bytes == written,
        (AskView::Copy { .. }, AnswerView::Stopped { written }) => bytes == written,
        (AskView::Copy { .. }, AnswerView::Failed(_)) => true,
        _ => bytes == 0,
    }
}

spec fn sums_up(s: RunView, bytes: Seq<nat>) -> bool {
    s.sum.errors.len() == 0 && !(s.stage is CopyFailed) && !(s.stage is DropEmpty)
        ==> s.sum.bytes_written == scan::clamp(total(bytes))
}

/// The bytes a step writes.
#[verifier::opaque]
spec fn adds(s: RunView, n: RunView, a: AnswerView) -> bool {
    &&& n.sum.errors.len() >= s.sum.errors.len()
    &&& n.sum.bytes_written == (match (s.ask(), a) {
        (AskView::Copy { .. }, AnswerView::Copied { written, .. }) => s.wrote(written),
        (AskView::Copy { .. }, AnswerView::Stopped { written }) => s.wrote(written),
        _ => s,
    }).sum.bytes_written
    &&& s.stage is CopyFailed || s.stage is DropEmpty ==> n.stage is CopyFailed || n.stage
        is DropEmpty || n.sum.errors.len() > 0
    &&& (match (s.ask(), a) {
        (AskView::Copy { .. }, AnswerView::Failed(_)) => true,
        _ => false,
    }) ==> n.stage is CopyFailed
}

#[verifier::spinoff_prover]
proof fn lemma_flag_early_adds(s: RunView, b: bool)
    requires
        run::early(s.stage),
    ensures
        adds(s, s.on_flag_early(b).s, AnswerView::Flag(b)),
{
    reveal(adds);
    reveal(RunView::on_flag_early);
}

#[verifier::spinoff_prover]
proof fn lemma_flag_file_adds(s: RunView, b: bool)
    requires
        run::file_of(s.stage) is Some,
    ensures
        adds(s, s.on_flag_file(b).s, AnswerView::Flag(b)),
{
    reveal(adds);
    reveal(RunView::on_flag_file);
}

#[verifier::spinoff_prover]
proof fn lemma_flag_late_adds(s: RunView, b: bool)
    requires
        !run::early(s.stage),
        run::file_of(s.stage) is None,
    ensures
        adds(s, s.on_flag_late(b).s, AnswerView::Flag(b)),
{
    reveal(adds);
    reveal(RunView::on_flag_late);
}

#[verifier::spinoff_prover]
proof fn lemma_done_early_adds(s: RunView)
    requires
        run::early(s.stage),
    ensures
        adds(s, s.on_done_early().s, AnswerView::Done),
{
    reveal(adds);
    reveal(RunView::on_done_early);
}

#[verifier::spinoff_prover]
proof fn lemma_done_file_adds(s: RunView)
    requires
        run::file_of(s.stage) is Some,
    ensures
        adds(s, s.on_done_file().s, AnswerView::Done),
{
    reveal(adds);
    reveal(RunView::on_done_file);
}

#[verifier::spinoff_prover]
proof fn lemma_done_late_adds(s: RunView)
    requires
        !run::early(s.stage),
        run::file_of(s.stage) is None,
    ensures
        adds(s, s.on_done_late().s, AnswerView::Done),
{
    reveal(adds);
    reveal(RunView::on_done_late);
}

#[verifier::spinoff_prover]
proof fn lemma_failed_early_adds(s: RunView, e: Seq<char>)
    requires
        run::early(s.stage),
    ensures
        adds(s, s.on_failed_early(e).s, AnswerView::Failed(e)),
{
    reveal(adds);
    reveal(RunView::on_failed_early);
}

#[verifier::spinoff_prover]
proof fn lemma_failed_file_adds(s: RunView, e: Seq<char>)
    requires
        run::file_of(s.stage) is Some,
    ensures
        adds(s, s.on_failed_file(e).s, AnswerView::Failed(e)),
{
    reveal(adds);
    reveal(RunView::on_failed_file);
}

#[verifier::spinoff_prover]
proof fn lemma_failed_late_adds(s: RunView, e: Seq<char>)
    requires
        !run::early(s.stage),
        run::file_of(s.stage) is None,
    ensures
        adds(s, s.on_failed_late(e).s, AnswerView::Failed(e)),
{
    reveal(adds);
    reveal(RunView::on_failed_late);
}

#[verifier::spinoff_prover]
proof fn lemma_failed_at_adds(s: RunView, p: Seq<char>, e: Seq<char>)
    ensures
        adds(s, s.on_failed_at(p, e).s, AnswerView::FailedAt(p, e)),
{
    reveal(adds);
    reveal(RunView::on_failed_at);
}

#[verifier::spinoff_prover]
proof fn lemma_paths_adds(s: RunView, f: FactsView)
    ensures
        adds(s, s.on_paths(f).s, AnswerView::Paths(f)),
{
    reveal(adds);
    reveal(RunView::on_paths);
}

#[verifier::spinoff_prover]
proof fn lemma_loaded_adds(s: RunView, prev: ResumeView)
    ensures
        adds(s, s.on_loaded(prev).s, AnswerView::Loaded(prev)),
{
    reveal(adds);
    reveal(RunView::on_loaded);
}

#[verifier::spinoff_prover]
proof fn lemma_stats_adds(s: RunView, v: Seq<Option<DestStat>>)
    ensures
        adds(s, s.on_stats(v).s, AnswerView::Stats(v)),
{
    reveal(adds);
    reveal(RunView::on_stats);
}

#[verifier::spinoff_prover]
proof fn lemma_stat_adds(s: RunView, st: Option<DestStat>)
    ensures
        adds(s, s.on_stat(st).s, AnswerView::Stat(st)),
{
    reveal(adds);
    reveal(RunView::on_stat);
}

#[verifier::spinoff_prover]
proof fn lemma_hash_adds(s: RunView, h: u128)
    ensures
        adds(s, s.on_hash(h).s, AnswerView::Hash(h)),
{
    reveal(adds);
    reveal(RunView::on_hash);
}

#[verifier::spinoff_prover]
proof fn lemma_copied_adds(s: RunView, hash: u128, written: u64)
    ensures
        adds(s, s.on_copied(hash, written).s, AnswerView::Copied { hash, written }),
{
    reveal(adds);
    reveal(RunView::on_copied);
}

#[verifier::spinoff_prover]
proof fn lemma_stopped_adds(s: RunView, written: u64)
    ensures
        adds(s, s.on_stopped(written).s, AnswerView::Stopped { written }),
{
    reveal(adds);
    reveal(RunView::on_stopped);
}

#[verifier::spinoff_prover]
proof fn lemma_source_adds(s: RunView, st: Option<SourceStat>)
    ensures
        adds(s, s.on_source(st).s, AnswerView::Source(st)),
{
    reveal(adds);
    reveal(RunView::on_source);
}

#[verifier::spinoff_prover]
proof fn lemma_adds(s: RunView, a: AnswerView)
    ensures
        adds(s, s.step(a).s, a),
{
    match a {
        AnswerView::Flag(b) => {
            reveal(RunView::on_flag);
            if run::early(s.stage) {
                lemma_flag_early_adds(s, b);
            } else if run::file_of(s.stage) is Some {
                lemma_flag_file_adds(s, b);
            } else {
                lemma_flag_late_adds(s, b);
            }
        },
        AnswerView::Done => {
            reveal(RunView::on_done);
            if run::early(s.stage) {
                lemma_done_early_adds(s);
            } else if run::file_of(s.stage) is Some {
                lemma_done_file_adds(s);
            } else {
                lemma_done_late_adds(s);
            }
        },
        AnswerView::Failed(e) => {
            reveal(RunView::on_failed);
            if run::early(s.stage) {
                lemma_failed_early_adds(s, e);
            } else if run::file_of(s.stage) is Some {
                lemma_failed_file_adds(s, e);
            } else {
                lemma_failed_late_adds(s, e);
            }
        },
        AnswerView::FailedAt(p, e) => lemma_failed_at_adds(s, p, e),
        AnswerView::Paths(f) => lemma_paths_adds(s, f),
        AnswerView::Loaded(prev) => lemma_loaded_adds(s, prev),
        AnswerView::Stats(v) => lemma_stats_adds(s, v),
        AnswerView::Stat(st) => lemma_stat_adds(s, st),
        AnswerView::Hash(h) => lemma_hash_adds(s, h),
        AnswerView::Copied { hash, written } => lemma_copied_adds(s, hash, written),
        AnswerView::Stopped { written } => lemma_stopped_adds(s, written),
        AnswerView::Source(st) => lemma_source_adds(s, st),
    }
}

/// The bytes written are those that were told: as long as no copy failed, the sum counts
/// every byte told while files were being copied, and no other.
pub proof fn law_the_bytes_are_what_was_told(
    job: JobView,
    answers: Seq<AnswerView>,
    bytes: Seq<nat>,
)
    requires
        bytes.len() == answers.len(),
        forall|t: int|
            0 <= t < answers.len() ==> tells_truly(
                #[trigger] Log::after(job, answers).log[t],
                bytes[t],
            ),
        Log::after(job, answers).at.sum.errors.len() == 0,
        !(Log::after(job, answers).at.stage is CopyFailed),
        !(Log::after(job, answers).at.stage is DropEmpty),
    ensures
        Log::after(job, answers).at.sum.bytes_written == scan::clamp(total(bytes)),
{
    lemma_sums_up(job, answers, bytes);
}

proof fn lemma_sums_up(job: JobView, answers: Seq<AnswerView>, bytes: Seq<nat>)
    requires
        bytes.len() == answers.len(),
        forall|t: int|
            0 <= t < answers.len() ==> tells_truly(
                #[trigger] Log::after(job, answers).log[t],
                bytes[t],
            ),
    ensures
        Log::after(job, answers).log.len() == answers.len(),
        sums_up(Log::after(job, answers).at, bytes),
    decreases answers.len(),
{
    if answers.len() > 0 {
        let init = answers.drop_last();
        let l = Log::after(job, init);
        let all = Log::after(job, answers).log;
        lemma_log_len(job, init);
        assert forall|t: int| 0 <= t < init.len() implies tells_truly(
            #[trigger] l.log[t],
            bytes.drop_last()[t],
        ) by {
            assert(all[t] == l.log[t]);
        }
        lemma_sums_up(job, init, bytes.drop_last());
        let a = answers.last();
        assert(all[init.len() as int] == (l.at.ask(), a));
        assert(tells_truly(all[init.len() as int], bytes[init.len() as int]));
        lemma_adds(l.at, a);
        reveal(adds);
    }
}

proof fn lemma_log_len(job: JobView, answers: Seq<AnswerView>)
    ensures
        Log::after(job, answers).log.len() == answers.len(),
    decreases answers.len(),
{
    if answers.len() > 0 {
        lemma_log_len(job, answers.drop_last());
    }
}

} // verus!
