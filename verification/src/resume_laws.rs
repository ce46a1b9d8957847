//! What a transfer owes to the runs before it: nothing that is already in place is copied
//! again, and a file that was in flight is continued from its last checkpoint.

use crate::engine;
use crate::engine::{DestStat, FactsView};
use crate::journal;
use crate::journal::{CkptView, DoneView, RecordView, ResumeView};
use crate::run;
use crate::run::{AnswerView, AskView, JobView, RunView, SourceStat, Stage};
use crate::run_laws;
use crate::run_laws::Log;
use crate::text;
use vstd::prelude::*;

verus! {

/// The destination holds the file already: as the journal recorded it or, in a copy that has
/// no record of it, with the same size and time.
pub open spec fn in_place(s: RunView, i: int, st: Option<DestStat>) -> bool {
    match s.record(i) {
        Some(rec) => engine::settled(st, s.job.m.files[i], rec),
        None => s.job.mode is Copy && engine::matches_dest(st, s.job.m.files[i]),
    }
}

/// The same, of what is known of the file.
#[verifier::opaque]
spec fn placed(job: JobView, rec: Option<DoneView>, i: int, st: Option<DestStat>) -> bool {
    match rec {
        Some(rec) => engine::settled(st, job.m.files[i], rec),
        None => job.mode is Copy && engine::matches_dest(st, job.m.files[i]),
    }
}

/// A file that is being copied was not in place; only a paranoid run reads both ends first.
#[verifier::opaque]
spec fn due(s: RunView) -> bool {
    &&& run_laws::copying(s.stage) && !s.job.paranoid ==> !placed(
        s.job,
        s.record(run::file_of(s.stage)->0),
        run::file_of(s.stage)->0,
        s.seen,
    )
    &&& s.stage is RecordedSource || s.stage is RecordedDest || s.stage is SameSource
        || s.stage is SameDest ==> s.job.paranoid
}

#[verifier::spinoff_prover]
proof fn lemma_due_flag_early(s: RunView, b: bool)
    requires
        due(s),
        run::early(s.stage),
    ensures
        due(s.on_flag_early(b).s),
{
    reveal(due);
    reveal(RunView::on_flag_early);
}

#[verifier::spinoff_prover]
proof fn lemma_due_flag_file(s: RunView, b: bool)
    requires
        due(s),
        run::file_of(s.stage) is Some,
    ensures
        due(s.on_flag_file(b).s),
{
    reveal(due);
    reveal(RunView::on_flag_file);
}

#[verifier::spinoff_prover]
proof fn lemma_due_flag_late(s: RunView, b: bool)
    requires
        due(s),
        !run::early(s.stage),
        run::file_of(s.stage) is None,
    ensures
        due(s.on_flag_late(b).s),
{
    reveal(due);
    reveal(RunView::on_flag_late);
}

#[verifier::spinoff_prover]
proof fn lemma_due_done_early(s: RunView)
    requires
        due(s),
        run::early(s.stage),
    ensures
        due(s.on_done_early().s),
{
    reveal(due);
    reveal(RunView::on_done_early);
}

#[verifier::spinoff_prover]
proof fn lemma_due_done_file(s: RunView)
    requires
        due(s),
        run::file_of(s.stage) is Some,
    ensures
        due(s.on_done_file().s),
{
    reveal(due);
    reveal(RunView::on_done_file);
}

#[verifier::spinoff_prover]
proof fn lemma_due_done_late(s: RunView)
    requires
        due(s),
        !run::early(s.stage),
        run::file_of(s.stage) is None,
    ensures
        due(s.on_done_late().s),
{
    reveal(due);
    reveal(RunView::on_done_late);
}

#[verifier::spinoff_prover]
proof fn lemma_due_failed_early(s: RunView, e: Seq<char>)
    requires
        due(s),
        run::early(s.stage),
    ensures
        due(s.on_failed_early(e).s),
{
    reveal(due);
    reveal(RunView::on_failed_early);
}

#[verifier::spinoff_prover]
proof fn lemma_due_failed_file(s: RunView, e: Seq<char>)
    requires
        due(s),
        run::file_of(s.stage) is Some,
    ensures
        due(s.on_failed_file(e).s),
{
    reveal(due);
    reveal(RunView::on_failed_file);
}

#[verifier::spinoff_prover]
proof fn lemma_due_failed_late(s: RunView, e: Seq<char>)
    requires
        due(s),
        !run::early(s.stage),
        run::file_of(s.stage) is None,
    ensures
        due(s.on_failed_late(e).s),
{
    reveal(due);
    reveal(RunView::on_failed_late);
}

#[verifier::spinoff_prover]
proof fn lemma_due_failed_at(s: RunView, p: Seq<char>, e: Seq<char>)
    requires
        due(s),
    ensures
        due(s.on_failed_at(p, e).s),
{
    reveal(due);
    reveal(RunView::on_failed_at);
}

#[verifier::spinoff_prover]
proof fn lemma_due_paths(s: RunView, f: FactsView)
    requires
        due(s),
    ensures
        due(s.on_paths(f).s),
{
    reveal(due);
    reveal(RunView::on_paths);
}

#[verifier::spinoff_prover]
proof fn lemma_due_loaded(s: RunView, prev: ResumeView)
    requires
        due(s),
    ensures
        due(s.on_loaded(prev).s),
{
    reveal(due);
    reveal(RunView::on_loaded);
}

#[verifier::spinoff_prover]
proof fn lemma_due_stats(s: RunView, v: Seq<Option<DestStat>>)
    requires
        due(s),
    ensures
        due(s.on_stats(v).s),
{
    reveal(due);
    reveal(RunView::on_stats);
}

#[verifier::spinoff_prover]
proof fn lemma_due_stat(s: RunView, st: Option<DestStat>)
    requires
        due(s),
    ensures
        due(s.on_stat(st).s),
{
    reveal(due);
    reveal(placed);
    reveal(RunView::on_stat);
}

#[verifier::spinoff_prover]
proof fn lemma_due_hash(s: RunView, h: u128)
    requires
        due(s),
    ensures
        due(s.on_hash(h).s),
{
    reveal(due);
    reveal(RunView::on_hash);
}

#[verifier::spinoff_prover]
proof fn lemma_due_copied(s: RunView, hash: u128, written: u64)
    requires
        due(s),
    ensures
        due(s.on_copied(hash, written).s),
{
    reveal(due);
    reveal(RunView::on_copied);
}

#[verifier::spinoff_prover]
proof fn lemma_due_stopped(s: RunView, written: u64)
    requires
        due(s),
    ensures
        due(s.on_stopped(written).s),
{
    reveal(due);
    reveal(RunView::on_stopped);
}

#[verifier::spinoff_prover]
proof fn lemma_due_source(s: RunView, st: Option<SourceStat>)
    requires
        due(s),
    ensures
        due(s.on_source(st).s),
{
    reveal(due);
    reveal(RunView::on_source);
}

#[verifier::spinoff_prover]
proof fn lemma_due_step(s: RunView, a: AnswerView)
    requires
        due(s),
    ensures
        due(s.step(a).s),
{
    match a {
        AnswerView::Flag(b) => {
            reveal(RunView::on_flag);
            if run::early(s.stage) {
                lemma_due_flag_early(s, b);
            } else if run::file_of(s.stage) is Some {
                lemma_due_flag_file(s, b);
            } else {
                lemma_due_flag_late(s, b);
            }
        },
        AnswerView::Done => {
            reveal(RunView::on_done);
            if run::early(s.stage) {
                lemma_due_done_early(s);
            } else if run::file_of(s.stage) is Some {
                lemma_due_done_file(s);
            } else {
                lemma_due_done_late(s);
            }
        },
        AnswerView::Failed(e) => {
            reveal(RunView::on_failed);
            if run::early(s.stage) {
                lemma_due_failed_early(s, e);
            } else if run::file_of(s.stage) is Some {
                lemma_due_failed_file(s, e);
            } else {
                lemma_due_failed_late(s, e);
            }
        },
        AnswerView::FailedAt(p, e) => lemma_due_failed_at(s, p, e),
        AnswerView::Paths(f) => lemma_due_paths(s, f),
        AnswerView::Loaded(prev) => lemma_due_loaded(s, prev),
        AnswerView::Stats(v) => lemma_due_stats(s, v),
        AnswerView::Stat(st) => lemma_due_stat(s, st),
        AnswerView::Hash(h) => lemma_due_hash(s, h),
        AnswerView::Copied { hash, written } => lemma_due_copied(s, hash, written),
        AnswerView::Stopped { written } => lemma_due_stopped(s, written),
        AnswerView::Source(st) => lemma_due_source(s, st),
    }
}

proof fn lemma_due(job: JobView, answers: Seq<AnswerView>)
    ensures
        due(Log::after(job, answers).at),
    decreases answers.len(),
{
    if answers.len() == 0 {
        reveal(due);
    } else {
        lemma_due(job, answers.drop_last());
        let s = Log::after(job, answers.drop_last()).at;
        lemma_due_step(s, answers.last());
    }
}

/// Nothing that is already in place is copied again, unless both ends are to be read: a file
/// is copied only if its place was looked at and did not hold it.
#[verifier::spinoff_prover]
pub proof fn law_what_is_in_place_is_not_copied_again(
    job: JobView,
    answers: Seq<AnswerView>,
    i: int,
)
    requires
        run_laws::sane(job),
        !job.paranoid,
        Log::after(job, answers).at.ask() == AskView::Rename(i) || (Log::after(
            job,
            answers,
        ).at.ask() is Copy && Log::after(job, answers).at.ask()->Copy_file == i),
    ensures
        exists|st: Option<DestStat>| #[trigger]
            run_laws::was_seen(Log::after(job, answers).log, i, st) && !in_place(
                Log::after(job, answers).at,
                i,
                st,
            ),
{
    let l = Log::after(job, answers);
    run_laws::lemma_seen(job, answers);
    lemma_due(job, answers);
    reveal(due);
    reveal(placed);
    assert(run::file_of(l.at.stage) == Some(i));
    assert(run_laws::was_seen(l.log, i, l.at.seen));
}

/// A later run goes past what an earlier one recorded. The journal holds the record of the
/// file; the source has not changed since; the destination has its size, and its time but
/// for a change of clock. Then the file is counted as skipped, and nothing is copied.
#[verifier::spinoff_prover]
pub proof fn law_a_later_run_goes_past_what_was_recorded(
    s: RunView,
    i: usize,
    h: u128,
    lines: Seq<Option<RecordView>>,
    t: int,
    st: DestStat,
)
    requires
        s.stage == Stage::Look(i),
        !s.job.paranoid,
        s.prev == ResumeView::of(lines),
        0 <= t < lines.len(),
        lines[t] == Some(run_laws::done_line(s.job, i as int, h)),
        forall|u: int|
            t < u < lines.len() ==> !journal::records_done(#[trigger] lines[u], s.job.key(i as int)),
        s.job.m.files[i as int].mtime_ns != 0,
        st.len == s.job.m.files[i as int].size,
        engine::same_but_clock(st.mtime as int, s.job.m.files[i as int].mtime as int),
    ensures
        ({
            let n = s.step(AnswerView::Stat(Some(st))).s;
            &&& n.sum.skipped == s.sum.skipped + 1
            &&& n.sum.copied == s.sum.copied
            &&& n.stage == (if i + 1 < s.job.n() {
                Stage::FilePoll((i + 1) as usize)
            } else {
                Stage::FirstFlush
            })
        }),
{
    let e = s.job.m.files[i as int];
    let done = DoneView {
        size: e.size,
        mtime: e.mtime,
        mtime_ns: e.mtime_ns,
        hash: text::hex(h as nat, 32),
    };
    journal::law_a_recorded_file_is_remembered(lines, t, s.job.key(i as int), done);
    assert(s.record(i as int) == Some(done));
    assert(engine::settled(Some(st), e, done));
    assert(s.step(AnswerView::Stat(Some(st))) == s.looked(i as int, Some(st))) by {
        reveal(RunView::on_stat);
    }
}

/// A transfer after some more answers.
pub open spec fn going(s: RunView, answers: Seq<AnswerView>) -> RunView
    decreases answers.len(),
{
    if answers.len() == 0 {
        s
    } else {
        going(s.step(answers[0]).s, answers.skip(1))
    }
}

/// Nobody stops it, and each span of the chain hashes to what is given here; then nobody
/// stops it still, and the folder above the file is there.
pub open spec fn checking(hashes: Seq<u128>) -> Seq<AnswerView>
    decreases hashes.len(),
{
    if hashes.len() == 0 {
        seq![AnswerView::Flag(false), AnswerView::Done]
    } else {
        seq![AnswerView::Flag(false), AnswerView::Hash(hashes[0])] + checking(hashes.skip(1))
    }
}

/// The hashes are those that the checkpoints recorded, and each span is one of bytes that
/// exist.
pub open spec fn intact(chain: Seq<CkptView>, hashes: Seq<u128>) -> bool {
    &&& chain.len() == hashes.len()
    &&& forall|k: int|
        0 <= k < chain.len() ==> 0 < (#[trigger] chain[k]).span <= chain[k].off && text::hex(
            hashes[k] as nat,
            32,
        ) == chain[k].span_hash
}

/// One span that reads back as recorded leads to the next, or past the last of them.
#[verifier::rlimit(50)]
#[verifier::spinoff_prover]
proof fn lemma_span_agrees(s: RunView, i: usize, k: usize, h: u128)
    requires
        s.stage == Stage::SpanPoll(i, k),
        s.prev.partial is Some,
        k < s.prev.partial->0.chain.len() <= usize::MAX,
        0 < s.prev.partial->0.chain[k as int].span <= s.prev.partial->0.chain[k as int].off,
        text::hex(h as nat, 32) == s.prev.partial->0.chain[k as int].span_hash,
    ensures
        ({
            let n = s.step(AnswerView::Flag(false)).s.step(AnswerView::Hash(h)).s;
            &&& n.prev == s.prev
            &&& n.stage == (if k + 1 < s.prev.partial->0.chain.len() {
                Stage::SpanPoll(i, (k + 1) as usize)
            } else {
                Stage::Gate(i, s.prev.partial->0.chain.last().off)
            })
        }),
{
    let n = s.step(AnswerView::Flag(false)).s;
    assert(n == s.at(Stage::Span(i, k))) by {
        reveal(RunView::on_flag);
        reveal(RunView::on_flag_file);
    }
    assert(n.step(AnswerView::Hash(h)) == n.span_hashed(i as int, k as int, h)) by {
        reveal(RunView::on_hash);
    }
}

/// Behind the last span the copy begins, unless it is stopped.
#[verifier::rlimit(50)]
#[verifier::spinoff_prover]
proof fn lemma_gate_passed(s: RunView, i: usize, off: u64)
    requires
        s.stage == Stage::Gate(i, off),
    ensures
        s.step(AnswerView::Flag(false)).s.step(AnswerView::Done).s.stage == Stage::Copying(
            i,
            off,
        ),
{
    let n = s.step(AnswerView::Flag(false)).s;
    assert(n == s.at(Stage::Parent(i, off))) by {
        reveal(RunView::on_flag);
        reveal(RunView::on_flag_file);
    }
    assert(n.step(AnswerView::Done).s == n.at(Stage::Copying(i, off))) by {
        reveal(RunView::on_done);
        reveal(RunView::on_done_file);
    }
}

/// Two answers, then the others.
proof fn lemma_two_steps(s: RunView, a: AnswerView, b: AnswerView, more: Seq<AnswerView>)
    ensures
        going(s, seq![a, b] + more) == going(s.step(a).s.step(b).s, more),
{
    let all = seq![a, b] + more;
    assert(all[0] == a);
    assert(all.skip(1)[0] == b);
    assert(all.skip(1).skip(1) =~= more);
    reveal_with_fuel(going, 3);
}

#[verifier::spinoff_prover]
proof fn lemma_checked_on(s: RunView, i: usize, k: usize, hashes: Seq<u128>)
    requires
        s.stage == Stage::SpanPoll(i, k),
        s.prev.partial is Some,
        k < s.prev.partial->0.chain.len() <= usize::MAX,
        intact(s.prev.partial->0.chain.skip(k as int), hashes),
    ensures
        going(s, checking(hashes)).stage == Stage::Copying(
            i,
            s.prev.partial->0.chain.last().off,
        ),
    decreases hashes.len(),
{
    let chain = s.prev.partial->0.chain;
    let rest = chain.skip(k as int);
    let n = s.step(AnswerView::Flag(false)).s.step(AnswerView::Hash(hashes[0])).s;
    let more = checking(hashes.skip(1));
    assert(rest[0] == chain[k as int]);
    lemma_span_agrees(s, i, k, hashes[0]);
    lemma_two_steps(s, AnswerView::Flag(false), AnswerView::Hash(hashes[0]), more);
    if k + 1 < chain.len() {
        let tail = chain.skip(k + 1);
        assert forall|m: int| 0 <= m < tail.len() implies 0 < (#[trigger] tail[m]).span
            <= tail[m].off && text::hex(hashes.skip(1)[m] as nat, 32) == tail[m].span_hash by {
            assert(rest[m + 1] == tail[m]);
        }
        lemma_checked_on(n, i, (k + 1) as usize, hashes.skip(1));
    } else {
        assert(more =~= seq![AnswerView::Flag(false), AnswerView::Done] + Seq::empty());
        lemma_gate_passed(n, i, chain.last().off);
        lemma_two_steps(n, AnswerView::Flag(false), AnswerView::Done, Seq::empty());
    }
}

/// How reading one end is answered.
pub open spec fn read_as(h: Option<u128>, why: Seq<char>) -> AnswerView {
    match h {
        Some(h) => AnswerView::Hash(h),
        None => AnswerView::Failed(why),
    }
}

/// What the look at a place leads to, with both ends read where the run is paranoid.
pub open spec fn compared(
    s: RunView,
    st: Option<DestStat>,
    src: Option<u128>,
    dst: Option<u128>,
    why: Seq<char>,
) -> RunView {
    let n = s.step(AnswerView::Stat(st)).s;
    if n.stage is SameSource {
        n.step(read_as(src, why)).s.step(read_as(dst, why)).s
    } else {
        n
    }
}

/// In a copy that has no record of a file, the file is passed over exactly where the
/// destination holds the same: of the same size and time and, in a paranoid run, with both
/// ends readable and of the same hash. Otherwise it is going to be copied. So what a paranoid
/// run passes over, any run does.
#[verifier::spinoff_prover]
pub proof fn law_a_paranoid_copy_compares_the_bytes(
    s: RunView,
    i: usize,
    st: Option<DestStat>,
    src: Option<u128>,
    dst: Option<u128>,
    why: Seq<char>,
)
    requires
        s.stage == Stage::Look(i),
        i < s.job.n() <= usize::MAX,
        s.job.mode is Copy,
        s.record(i as int) is None,
        s.job.on_exists is Replace || !engine::clashes(st, s.job.m.files[i as int]),
    ensures
        ({
            let e = s.job.m.files[i as int];
            let n = compared(s, st, src, dst, why);
            let same = engine::matches_deep(st, e, s.job.paranoid, src, dst);
            &&& same ==> n.sum.skipped == s.sum.skipped + 1 && n.stage == s.to_file(i + 1).stage
            &&& !same ==> n.sum == s.sum && run_laws::copying(n.stage) && run::file_of(n.stage)
                == Some(i as int)
            &&& engine::matches_deep(st, e, true, src, dst) ==> engine::matches_deep(
                st,
                e,
                false,
                src,
                dst,
            )
        }),
{
    let n = s.step(AnswerView::Stat(st)).s;
    assert(n == s.looked(i as int, st).s) by {
        reveal(RunView::on_stat);
    }
    let e = s.job.m.files[i as int];
    let now = RunView { seen: st, ..s };
    if engine::matches_dest(st, e) && s.job.paranoid {
        assert(n == now.at(Stage::SameSource(i)));
        lemma_source_read(n, i, src, why);
        let m = n.step(read_as(src, why)).s;
        lemma_dest_read(m, i, dst, why);
        if !(src is Some && src == dst) {
            lemma_started(m, i);
        }
    } else if !engine::matches_dest(st, e) {
        lemma_started(now, i);
    }
}

/// The source was read, or not.
#[verifier::spinoff_prover]
proof fn lemma_source_read(s: RunView, i: usize, src: Option<u128>, why: Seq<char>)
    requires
        s.stage == Stage::SameSource(i),
    ensures
        s.step(read_as(src, why)).s == (RunView { hash: src, ..s }.at(Stage::SameDest(i))),
{
    match src {
        Some(_) => {
            reveal(RunView::on_hash);
        },
        None => {
            reveal(RunView::on_failed);
            reveal(RunView::on_failed_file);
        },
    }
}

/// Then the destination.
#[verifier::spinoff_prover]
proof fn lemma_dest_read(s: RunView, i: usize, dst: Option<u128>, why: Seq<char>)
    requires
        s.stage == Stage::SameDest(i),
    ensures
        s.step(read_as(dst, why)).s == (if s.hash is Some && s.hash == dst {
            s.same(i as int).s
        } else {
            s.start(i as int).s
        }),
{
    match dst {
        Some(_) => {
            reveal(RunView::on_hash);
        },
        None => {
            reveal(RunView::on_failed);
            reveal(RunView::on_failed_file);
        },
    }
}

/// A file that is taken up is going to be copied.
#[verifier::spinoff_prover]
proof fn lemma_started(s: RunView, i: usize)
    ensures
        s.start(i as int).s.sum == s.sum,
        run_laws::copying(s.start(i as int).s.stage),
        run::file_of(s.start(i as int).s.stage) == Some(i as int),
{
}

/// A file that was in flight is continued from its last checkpoint. Its place was looked at
/// and did not hold it; the checkpoints were taken of the source as it is, back to the first
/// byte; and every span reads back as recorded. Then, unless it is stopped, the copy goes on
/// behind the last of them.
#[verifier::spinoff_prover]
pub proof fn law_an_intact_chain_is_continued(
    s: RunView,
    i: usize,
    st: Option<DestStat>,
    hashes: Seq<u128>,
)
    requires
        s.stage == Stage::Look(i),
        s.chain(i as int) is Some,
        0 < s.chain(i as int)->0.len() <= usize::MAX,
        s.record(i as int) is None,
        s.job.on_exists is Replace || !engine::clashes(st, s.job.m.files[i as int]),
        !in_place(s, i as int, st),
        RunView::same_source(s.chain(i as int)->0, s.job.m.files[i as int]),
        RunView::from_zero(s.chain(i as int)->0),
        intact(s.chain(i as int)->0, hashes),
    ensures
        going(s.step(AnswerView::Stat(st)).s, checking(hashes)).ask() == (AskView::Copy {
            file: i as int,
            resume: s.chain(i as int)->0.last().off,
        }),
{
    let n = s.step(AnswerView::Stat(st)).s;
    assert(n == s.looked(i as int, st).s) by {
        reveal(RunView::on_stat);
    }
    assert(n.stage == Stage::SpanPoll(i, 0) && n.prev == s.prev);
    let chain = s.chain(i as int)->0;
    assert(chain.skip(0) =~= chain);
    lemma_checked_on(n, i, 0, hashes);
}

} // verus!
