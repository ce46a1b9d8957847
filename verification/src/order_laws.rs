//! In which order a transfer takes its steps, what each of them is told of, and what a step that
//! fails costs.

use crate::engine;
use crate::engine::{DestStat, FactsView, Kind, OnExists, ProgressView};
use crate::journal;
use crate::journal::{Mode, RecordView};
use crate::path;
use crate::run::{AnswerView, AskView, JobView, OutView, Place, RunView, Stage};
use crate::text;
use vstd::prelude::*;

verus! {

// ── beginning ────────────────────────────────────────────────────────────────
/// A folder goes to the destination that was named. A file goes into it where it is written as a
/// folder or is one, and only a file whose source has a name can.
pub proof fn law_where_a_lone_file_goes(job: JobView)
    ensures
        ({
            let s = RunView::begin(job);
            &&& !job.m.root_is_file ==> s.stage is Paths && !s.into
            &&& job.m.root_is_file && path::dir_spelling(job.dst, job.os) && job.src_name is Some
                ==> s.stage is Paths && s.into
            &&& job.m.root_is_file && path::dir_spelling(job.dst, job.os) && job.src_name is None
                ==> s.stage is Failed && s.kind == Kind::InvalidInput
            &&& job.m.root_is_file && !path::dir_spelling(job.dst, job.os) ==> s.ask()
                == AskView::DestinationIsDir
            &&& s.stage is LookDst ==> {
                let yes = s.step(AnswerView::Flag(true)).s;
                let no = s.step(AnswerView::Flag(false)).s;
                &&& no.stage is Paths && !no.into
                &&& job.src_name is Some ==> yes.stage is Paths && yes.into
                &&& job.src_name is None ==> yes.stage is Failed
            }
            &&& s.sum.errors.len() == 0 && !s.sum.stopped && s.sum.copied == 0 && s.sum.skipped == 0
                && s.sum.deleted == 0 && s.sum.kept == 0 && s.sum.verified == 0
            &&& s.proven == Set::<usize>::empty()
        }),
{
    reveal(RunView::on_flag);
    reveal(RunView::on_flag_early);
}

/// Whether the two ends are one another is tried out only where originals will go. The journal
/// is the one of this pair in this mode with this choice; the lock is the one of the
/// destination, whoever writes to it.
pub proof fn law_which_journal_and_which_lock(s: RunView)
    ensures
        s.stage is Paths ==> s.ask() == (AskView::Paths {
            into: s.into,
            probe: s.job.mode is Move && !s.job.dry_run,
        }),
        s.stage is Load ==> s.ask() == AskView::Load(
            journal::hashed_name(
                journal::job_key(s.facts.src_key, s.facts.dst_key, s.job.mode, s.job.tag),
                ".jsonl"@,
            ),
        ),
        s.stage is Lock ==> s.ask() == AskView::Lock(
            journal::hashed_name(s.facts.dst_key, ".lock"@),
        ),
{
}

/// What is known of the pair is kept as it was found, and a pair that is served leads to its
/// journal.
pub proof fn law_the_pair_is_taken_as_found(s: RunView, f: FactsView)
    requires
        s.stage is Paths,
    ensures
        ({
            let n = s.step(AnswerView::Paths(f)).s;
            &&& n.facts == f
            &&& f.refusal(s.job.mode, s.job.os) is None ==> n.stage is Load
            &&& f.refusal(s.job.mode, s.job.os) is Some ==> n.stage is Failed && n.why == f.refusal(
                s.job.mode,
                s.job.os,
            )->0
        }),
{
    reveal(RunView::on_paths);
}

/// Once the destination is locked, the folder is made before anything is put in it; then the
/// names are looked at, the drive is asked whether it tells capitals apart wherever two entries
/// could meet, and whether it is FAT.
pub proof fn law_what_is_asked_of_the_drive(s: RunView)
    ensures
        ({
            let n = s.step(AnswerView::Done).s;
            &&& s.stage is Lock && !s.job.m.root_is_file ==> n.ask() == AskView::MakeRoot
            &&& s.stage is Root || (s.stage is Lock && s.job.m.root_is_file) ==> {
                ||| n.stage is Failed && s.job.os is Windows
                ||| n.ask() == AskView::ProbeCase && s.job.m.files.len() + s.job.m.dirs.len() >= 2
                ||| n.ask() == AskView::ProbeFat && s.job.m.files.len() + s.job.m.dirs.len() < 2
            }
        }),
        s.stage is Case ==> s.step(AnswerView::Flag(false)).s.ask() == AskView::ProbeFat,
        s.stage is Fat && s.job.on_exists is Fail ==> s.step(AnswerView::Flag(false)).s.ask()
            == AskView::StatAll,
{
    reveal(RunView::on_done);
    reveal(RunView::on_done_early);
    reveal(RunView::on_flag);
    reveal(RunView::on_flag_early);
}

/// A transfer that cannot have its lock, its folder or its journal does not begin, and says why.
pub proof fn law_without_its_means_a_transfer_fails(s: RunView, e: Seq<char>)
    requires
        s.stage is Load || s.stage is Lock || s.stage is Root || s.stage is Open || s.stage
            is Session,
    ensures
        ({
            let n = s.step(AnswerView::Failed(e)).s;
            &&& n.stage is Failed
            &&& n.kind == Kind::Passed
            &&& n.ask() == (AskView::Failed { kind: n.kind, why: n.why })
            &&& !(s.stage is Root) ==> n.why == e
            &&& n.sum == s.sum
        }),
{
    reveal(RunView::on_failed);
    reveal(RunView::on_failed_early);
}

/// Losing the journal ends a transfer, whatever it was about to write there.
pub proof fn law_losing_the_journal_ends_a_transfer(s: RunView, e: Seq<char>)
    requires
        s.stage is Recording || s.stage is FirstFlush || s.stage is AllCopied || s.stage
            is DeleteRecord || s.stage is SecondFlush || s.stage is Complete,
    ensures
        s.step(AnswerView::Failed(e)).s.ask() == (AskView::Failed { kind: Kind::Passed, why: e }),
        s.step(AnswerView::Failed(e)).s.sum == s.sum,
{
    reveal(RunView::on_failed);
    reveal(RunView::on_failed_file);
    reveal(RunView::on_failed_late);
}

// ── folders ──────────────────────────────────────────────────────────────────
/// Every folder of the job is made, one after the other. One that cannot be made is a problem of
/// its own and stops nothing; the last one is always told of.
pub proof fn law_every_folder_is_made(s: RunView, i: usize, e: Seq<char>)
    requires
        i < s.job.m.dirs.len() <= usize::MAX,
    ensures
        s.stage == Stage::DirPoll(i) ==> s.step(AnswerView::Flag(false)).s.ask() == AskView::MakeDir(
            i as int,
        ),
        s.stage == Stage::DirMake(i) ==> {
            let done = s.step(AnswerView::Done);
            let failed = s.step(AnswerView::Failed(e));
            let told = OutView::Tell(
                ProgressView::Dirs {
                    done: s.job.m.dirs.len() as usize,
                    total: s.job.m.dirs.len() as usize,
                },
            );
            &&& done.s.sum == s.sum
            &&& failed.s.sum.errors.len() == s.sum.errors.len() + 1
            &&& failed.s.sum.errors.last().place == Place::Dir(i)
            &&& failed.s.stage == done.s.stage
            &&& i + 1 < s.job.m.dirs.len() ==> done.s.stage == Stage::DirPoll((i + 1) as usize)
            &&& i + 1 == s.job.m.dirs.len() ==> done.s.stage is Open && done.out.contains(told)
        },
{
    reveal(RunView::on_done);
    reveal(RunView::on_done_early);
    reveal(RunView::on_failed);
    reveal(RunView::on_failed_early);
    reveal(RunView::on_flag);
    reveal(RunView::on_flag_early);
    if s.stage == Stage::DirMake(i) && i + 1 == s.job.m.dirs.len() {
        let done = s.step(AnswerView::Done);
        assert(done.out.last() == done.out[done.out.len() - 1]);
    }
}

/// A job that was begun before goes on in its journal; a new one puts its first line there. The
/// files begin at the first, and that they begin is told.
pub proof fn law_how_the_files_begin(s: RunView)
    requires
        s.job.n() <= usize::MAX,
    ensures
        s.stage is Open && s.prev.done.dom().len() == 0 && s.prev.partial is None ==> s.step(
            AnswerView::Done,
        ).s.stage is Session,
        (s.stage is Open && (s.prev.done.dom().len() > 0 || s.prev.partial is Some)) || s.stage
            is Session ==> {
            let n = s.step(AnswerView::Done);
            &&& n.out == seq![OutView::Tell(ProgressView::Start)]
            &&& s.job.n() > 0 ==> n.s.stage == Stage::FilePoll(0)
            &&& s.job.n() == 0 ==> n.s.stage is FirstFlush
        },
{
    reveal(RunView::on_done);
    reveal(RunView::on_done_early);
}

// ── one file ─────────────────────────────────────────────────────────────────
/// Taking up a file looks at its place first, and the estimate learns its size.
pub proof fn law_taking_up_a_file_looks_first(s: RunView, i: usize)
    requires
        s.stage == Stage::FilePoll(i),
    ensures
        s.step(AnswerView::Flag(false)).s.ask() == AskView::StatDest(i as int),
        s.step(AnswerView::Flag(false)).out == seq![
            OutView::EtaStart(s.job.m.files[i as int].size),
        ],
{
    reveal(RunView::on_flag);
    reveal(RunView::on_flag_file);
}

/// What becomes of a file whose place was looked at. It is passed over where its record still
/// holds, or, without a record, where a copy finds the same file there; where paranoia was asked
/// for the bytes are read first. Something else in its place is kept where that was chosen.
/// Everything else is copied. Of the originals only that of a recorded file may go for it.
pub proof fn law_what_becomes_of_a_file(s: RunView, i: usize, st: Option<DestStat>)
    requires
        s.stage == Stage::Look(i),
        i < s.job.n() <= usize::MAX,
    ensures
        ({
            let next = s.step(AnswerView::Stat(st));
            let n = next.s;
            let e = s.job.m.files[i as int];
            let rec = s.record(i as int);
            let holds = rec is Some && engine::settled(st, e, rec->0);
            let there = st is Some && !engine::matches_dest(st, e);
            let keeps = there && !holds && (s.job.on_exists == OnExists::Keep || (rec is None
                && s.job.on_exists == OnExists::Fail));
            let same = rec is None && s.job.mode == Mode::Copy && engine::matches_dest(st, e);
            let over = holds || same;
            &&& n.seen == st
            &&& over && s.job.paranoid ==> n.ask() == AskView::HashSource(i as int) && n.sum == s.sum
                && n.proven == s.proven
            &&& keeps ==> n.sum.kept == s.sum.kept + 1 && n.sum.skipped == s.sum.skipped + 1
                && n.proven == s.proven
            &&& over && !s.job.paranoid ==> n.sum.kept == s.sum.kept && n.sum.skipped
                == s.sum.skipped + 1
            &&& holds && !s.job.paranoid && s.job.mode == Mode::Move ==> n.proven == s.proven.insert(
                i,
            )
            &&& keeps || (over && !s.job.paranoid) ==> {
                &&& next.out.len() >= 2
                &&& next.out[0] == OutView::Tell(ProgressView::Skipped(e.size))
                &&& next.out[1] == OutView::Tell(ProgressView::FileSkipped)
                &&& i + 1 < s.job.n() ==> n.stage == Stage::FilePoll((i + 1) as usize)
                &&& i + 1 == s.job.n() ==> n.stage is FirstFlush
            }
            &&& !keeps && !over ==> {
                &&& n.sum == s.sum && n.proven == s.proven
                &&& next.out.len() >= 1 && next.out[0] == OutView::Tell(
                    ProgressView::File { rel: s.job.key(i as int) },
                )
                &&& n.stage == Stage::Gate(i, 0) || n.stage == Stage::SpanPoll(i, 0) || n.ask()
                    == AskView::RemovePart(i as int)
            }
        }),
{
    reveal(RunView::on_stat);
}

/// Where paranoia was asked for, a recorded file is passed over only if both ends hash to what
/// was recorded, and one that is only there only if both hash to the same; a file that cannot be
/// read is copied.
pub proof fn law_paranoia_believes_the_bytes(s: RunView, i: usize, h: u128, e: Seq<char>)
    requires
        i < s.job.n() <= usize::MAX,
    ensures
        s.stage == Stage::RecordedSource(i) && s.record(i as int) is Some ==> (s.step(
            AnswerView::Hash(h),
        ).s.ask() == AskView::HashDest(i as int) <==> text::hex(h as nat, 32) == s.record(
            i as int,
        )->0.hash),
        s.stage == Stage::RecordedDest(i) && s.record(i as int) is Some && text::hex(h as nat, 32)
            == s.record(i as int)->0.hash ==> s.step(AnswerView::Hash(h)).s.sum.skipped
            == s.sum.skipped + 1 && s.step(AnswerView::Hash(h)).s.sum.kept == s.sum.kept,
        s.stage == Stage::SameSource(i) ==> s.step(AnswerView::Hash(h)).s.hash == Some(h) && s.step(
            AnswerView::Hash(h),
        ).s.ask() == AskView::HashDest(i as int),
        s.stage == Stage::SameDest(i) && s.hash == Some(h) ==> s.step(
            AnswerView::Hash(h),
        ).s.sum.skipped == s.sum.skipped + 1,
        s.stage == Stage::SameDest(i) && s.hash != Some(h) ==> s.step(AnswerView::Hash(h)).s.sum
            == s.sum && s.step(AnswerView::Hash(h)).s.proven == s.proven,
        s.stage == Stage::SameSource(i) ==> s.step(AnswerView::Failed(e)).s.hash is None,
        s.stage == Stage::SameDest(i) ==> s.step(AnswerView::Failed(e)).s.sum == s.sum,
        (s.stage == Stage::RecordedSource(i) || s.stage == Stage::RecordedDest(i)) && !(
        s.job.on_exists is Keep) ==> s.step(AnswerView::Failed(e)).s.sum == s.sum && s.step(
            AnswerView::Failed(e),
        ).s.proven == s.proven,
{
    reveal(RunView::on_hash);
    reveal(RunView::on_failed);
    reveal(RunView::on_failed_file);
}

/// The folder around a file is made before the copy begins, the copy begins where it was decided
/// to, and where the folder cannot be made the file has failed.
pub proof fn law_the_folder_comes_before_the_copy(
    s: RunView,
    i: usize,
    r: u64,
    p: Seq<char>,
    e: Seq<char>,
)
    requires
        i < s.job.n() <= usize::MAX,
    ensures
        s.stage == Stage::Gate(i, r) ==> s.step(AnswerView::Flag(false)).s.stage == Stage::Parent(
            i,
            r,
        ) && s.step(AnswerView::Flag(false)).s.ask() == AskView::MakeParent(i as int),
        s.stage == Stage::Parent(i, r) ==> s.step(AnswerView::Done).s.ask() == (AskView::Copy {
            file: i as int,
            resume: r,
        }),
        s.stage == Stage::Parent(i, r) ==> s.step(AnswerView::FailedAt(p, e)).s.sum.errors.len()
            == s.sum.errors.len() + 1 && s.step(AnswerView::FailedAt(p, e)).s.sum.errors.last().place
            == Place::File(i),
        s.stage == Stage::DropStale(i) ==> s.step(AnswerView::Done).s.stage == Stage::Gate(i, 0)
            && s.step(AnswerView::Failed(e)).s.stage == Stage::Gate(i, 0),
{
    reveal(RunView::on_flag);
    reveal(RunView::on_flag_file);
    reveal(RunView::on_done);
    reveal(RunView::on_done_file);
    reveal(RunView::on_failed);
    reveal(RunView::on_failed_file);
    reveal(RunView::on_failed_at);
}

/// A copy that was stopped has its bytes counted and ends the transfer as a stopped one. One
/// that failed leaves nothing empty behind, and is a problem of that file.
pub proof fn law_what_a_broken_off_copy_costs(
    s: RunView,
    i: usize,
    r: u64,
    written: u64,
    e: Seq<char>,
)
    requires
        i < s.job.n() <= usize::MAX,
    ensures
        s.stage == Stage::Copying(i, r) ==> {
            let n = s.step(AnswerView::Stopped { written }).s;
            &&& n.sum.stopped && n.stage is FirstFlush
            &&& s.sum.bytes_written + written <= u64::MAX ==> n.sum.bytes_written
                == s.sum.bytes_written + written
            &&& n.sum.copied == s.sum.copied && n.proven == s.proven && n.sum.errors == s.sum.errors
        },
        s.stage == Stage::Copying(i, r) ==> s.step(AnswerView::Failed(e)).s.ask()
            == AskView::PartIsEmpty(i as int) && s.step(AnswerView::Failed(e)).s.why == e,
        s.stage == Stage::CopyFailed(i) ==> s.step(AnswerView::Flag(true)).s.ask()
            == AskView::RemovePart(i as int) && s.step(AnswerView::Flag(true)).s.sum == s.sum,
        s.stage == Stage::CopyFailed(i) ==> s.step(AnswerView::Flag(false)).s.sum.errors.len()
            == s.sum.errors.len() + 1,
        s.stage == Stage::DropEmpty(i) ==> s.step(AnswerView::Done).s.sum.errors.len()
            == s.sum.errors.len() + 1 && s.step(AnswerView::Failed(e)).s.sum.errors.len()
            == s.sum.errors.len() + 1,
{
    reveal(RunView::on_stopped);
    reveal(RunView::on_failed);
    reveal(RunView::on_failed_file);
    reveal(RunView::on_flag);
    reveal(RunView::on_flag_file);
    reveal(RunView::on_done);
    reveal(RunView::on_done_file);
}

/// A copy gets its name, then its time, then its record, and a time that cannot be set costs
/// nothing.
#[verifier::spinoff_prover]
pub proof fn law_name_then_time_then_record(s: RunView, i: usize, e: Seq<char>)
    ensures
        s.stage == Stage::Rename(i) ==> s.step(AnswerView::Done).s.ask() == AskView::SetMtime(
            i as int,
        ) && s.step(AnswerView::Done).s.sum == s.sum,
        s.stage == Stage::Stamp(i) ==> s.step(AnswerView::Done).s == s.step(AnswerView::Failed(e)).s
            && s.step(AnswerView::Done).s.stage == Stage::Recording(i) && s.step(
            AnswerView::Done,
        ).s.sum == s.sum,
{
    reveal(RunView::on_done);
    reveal(RunView::on_done_file);
    reveal(RunView::on_failed);
    reveal(RunView::on_failed_file);
}

/// A file that was recorded is told of, and the next one follows.
#[verifier::spinoff_prover]
pub proof fn law_what_is_told_of_a_finished_file(s: RunView, i: usize)
    requires
        i < s.job.n() <= usize::MAX,
        s.stage == Stage::Recording(i),
    ensures
        ({
            let next = s.step(AnswerView::Done);
            &&& next.out.len() == 3
            &&& next.out[0] == OutView::Tell(ProgressView::FileDone)
            &&& next.out[1] is EtaDone
            &&& next.out[2] is Tick
            &&& i + 1 < s.job.n() ==> next.s.stage == Stage::FilePoll((i + 1) as usize)
            &&& i + 1 == s.job.n() ==> next.s.stage is FirstFlush
        }),
{
    reveal(RunView::on_done);
    reveal(RunView::on_done_file);
}

/// A name that cannot be had is a problem of that file, which is then not copied; what was
/// staged goes where a folder stands in its way.
#[verifier::spinoff_prover]
pub proof fn law_what_a_name_that_cannot_be_had_costs(s: RunView, i: usize, e: Seq<char>)
    requires
        i < s.job.n() <= usize::MAX,
    ensures
        s.stage == Stage::Rename(i) ==> {
            let n = s.step(AnswerView::Failed(e)).s;
            &&& n.sum.errors.len() == s.sum.errors.len() + 1
            &&& n.sum.errors.last().place == Place::File(i)
            &&& n.ask() == AskView::DestIsDir(i as int)
            &&& n.sum.copied == s.sum.copied && n.proven == s.proven
        },
        s.stage == Stage::RenameFailed(i) ==> s.step(AnswerView::Flag(true)).s.ask()
            == AskView::RemovePart(i as int),
        s.stage == Stage::RenameFailed(i) ==> s.step(AnswerView::Flag(false)).s.sum == s.sum
            && s.step(AnswerView::Flag(false)).s.proven == s.proven,
{
    reveal(RunView::on_failed);
    reveal(RunView::on_failed_file);
    reveal(RunView::on_flag);
    reveal(RunView::on_flag_file);
}

// ── the end ──────────────────────────────────────────────────────────────────
/// After the last file the records are made durable. A move in which nothing went wrong goes on
/// to make the destination durable and to record that all was copied; the number of originals
/// that may go is told, and they are gone through from the first.
pub proof fn law_what_follows_the_last_file(s: RunView)
    requires
        s.job.n() <= usize::MAX,
    ensures
        s.stage is FirstFlush ==> s.ask() == AskView::Flush,
        s.stage is FirstFlush ==> (s.step(AnswerView::Done).s.ask() == AskView::SyncDestination
            <==> s.job.mode is Move && !s.sum.stopped && s.sum.errors.len() == 0 && s.proven.len()
            > 0),
        s.stage is Barrier ==> s.step(AnswerView::Done).s.ask() == AskView::Commit(
            RecordView::AllCopied,
        ),
        s.stage is AllCopied ==> {
            let next = s.step(AnswerView::Done);
            &&& next.out.len() == 1
            &&& next.out[0] == OutView::Tell(
                ProgressView::DeletePhase { total: s.proven.len() as usize },
            )
            &&& s.job.n() > 0 ==> next.s.stage == Stage::DeletePoll(0)
            &&& s.job.n() == 0 ==> next.s.stage is SecondFlush
        },
        s.stage is SecondFlush ==> s.ask() == AskView::Flush,
        s.stage is FirstFlush && !(s.job.mode is Move) && s.sum.errors.len() == 0 && !s.sum.stopped
            ==> s.step(AnswerView::Done).s.ask() == AskView::Commit(RecordView::Complete),
        s.stage is SecondFlush && s.sum.errors.len() == 0 && !s.sum.stopped ==> s.step(
            AnswerView::Done,
        ).s.ask() == AskView::Commit(RecordView::Complete),
        s.stage is Complete ==> s.step(AnswerView::Done).s.ask() == AskView::RemoveJournal,
        s.stage is RemoveJournal ==> s.step(AnswerView::Done).s.ask() == (AskView::Finished {
            dry: s.job.dry_run,
            done: true,
        }),
{
    reveal(RunView::on_done);
    reveal(RunView::on_done_late);
}

/// A destination that cannot be made durable keeps every original, and the job is not over.
pub proof fn law_no_original_goes_from_an_unsafe_drive(s: RunView, e: Seq<char>)
    requires
        s.stage is Barrier,
    ensures
        ({
            let n = s.step(AnswerView::Failed(e)).s;
            &&& n.sum.errors.len() == s.sum.errors.len() + 1
            &&& n.sum.errors.last().place == Place::Here
            &&& n.ask() == (AskView::Finished { dry: s.job.dry_run, done: false })
            &&& n.sum.deleted == s.sum.deleted
        }),
{
    reveal(RunView::on_failed);
    reveal(RunView::on_failed_late);
}

/// Each original whose copy is proven is looked at, unless an earlier run removed it; the others
/// are left alone. One that was removed is recorded and counted, one at a time, and told of; one
/// that cannot be removed is a problem of its own.
pub proof fn law_how_originals_go(s: RunView, i: usize, e: Seq<char>)
    requires
        i < s.job.n() <= usize::MAX,
    ensures
        s.stage == Stage::DeletePoll(i) ==> {
            let n = s.step(AnswerView::Flag(false)).s;
            &&& s.proven.contains(i) && !s.prev.deleted.contains(s.job.key(i as int)) <==> n.ask()
                == AskView::StatSource(i as int)
            &&& n.sum == s.sum
        },
        s.stage == Stage::Deleting(i) ==> s.ask() == AskView::DeleteSource(i as int) && s.step(
            AnswerView::Done,
        ).s.ask() == AskView::Append(RecordView::SourceDeleted { rel: s.job.key(i as int) })
            && s.step(AnswerView::Done).s.sum == s.sum,
        s.stage == Stage::Deleting(i) ==> s.step(AnswerView::Failed(e)).s.sum.errors.len()
            == s.sum.errors.len() + 1 && s.step(AnswerView::Failed(e)).s.sum.errors.last().place
            == Place::File(i) && s.step(AnswerView::Failed(e)).s.sum.deleted == s.sum.deleted,
        s.stage == Stage::DeleteRecord(i) ==> {
            let next = s.step(AnswerView::Done);
            &&& next.s.sum.deleted == s.sum.deleted + 1
            &&& next.s.sum.errors == s.sum.errors
            &&& next.out.len() == 1
            &&& next.out[0] == OutView::Tell(ProgressView::Deleted)
            &&& i + 1 < s.job.n() ==> next.s.stage == Stage::DeletePoll((i + 1) as usize)
            &&& i + 1 == s.job.n() ==> next.s.stage is SecondFlush
        },
{
    reveal(RunView::on_flag);
    reveal(RunView::on_flag_late);
    reveal(RunView::on_done);
    reveal(RunView::on_done_late);
    reveal(RunView::on_failed);
    reveal(RunView::on_failed_late);
}

} // verus!
