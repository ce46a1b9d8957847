//! What is written to a journal, and what is read back of it.

use crate::fields;
use crate::journal;
use crate::journal::{RecordView, ResumeView, NEWLINE};
use crate::path;
use crate::scan;
use crate::sort;
use vstd::prelude::*;

verus! {

/// Every file can be split.
proof fn lemma_can_be_split(bytes: Seq<u8>) -> (r: (Seq<Seq<u8>>, Seq<u8>))
    ensures
        journal::splits_into(bytes, r.0, r.1),
    decreases bytes.len(),
{
    if bytes.len() == 0 {
        assert(bytes =~= journal::framed(Seq::empty()) + Seq::<u8>::empty());
        (Seq::empty(), Seq::empty())
    } else {
        let (lines, tail) = lemma_can_be_split(bytes.drop_last());
        let b = bytes.last();
        assert(bytes =~= bytes.drop_last().push(b));
        if b == NEWLINE {
            let more = lines.push(tail);
            assert(more.drop_last() =~= lines);
            assert(bytes =~= journal::framed(more) + Seq::<u8>::empty());
            assert forall|i: int| 0 <= i < more.len() implies !(#[trigger] more[i]).contains(
                NEWLINE,
            ) by {
                if i < lines.len() {
                    assert(more[i] == lines[i]);
                }
            }
            (more, Seq::empty())
        } else {
            let longer = tail.push(b);
            assert(bytes =~= journal::framed(lines) + longer);
            assert forall|k: int| 0 <= k < longer.len() implies longer[k] != NEWLINE by {
                if k < tail.len() {
                    assert(tail.contains(tail[k]));
                }
            }
            (lines, longer)
        }
    }
}

/// A file that ends in a newline, or is empty, has no torn tail.
proof fn lemma_whole(bytes: Seq<u8>)
    requires
        bytes.len() == 0 || bytes.last() == NEWLINE,
    ensures
        journal::splits_into(bytes, journal::complete_lines(bytes), Seq::empty()),
{
    let (lines, tail) = lemma_can_be_split(bytes);
    journal::lemma_complete(bytes, lines, tail);
    assert(tail =~= Seq::empty());
}

/// A torn last line is never read, not even where it is a whole record but for its newline,
/// and costs nothing that stands before it: it changes the flag alone.
pub proof fn law_a_torn_line_changes_the_flag_alone(
    kept: Seq<u8>,
    torn: Seq<u8>,
    parse: spec_fn(Seq<char>) -> Option<RecordView>,
)
    requires
        kept.len() == 0 || kept.last() == NEWLINE,
        torn.len() > 0,
        !torn.contains(NEWLINE),
    ensures
        journal::state_of(kept + torn, parse) == (ResumeView {
            torn_tail: true,
            ..journal::state_of(kept, parse)
        }),
{
    lemma_whole(kept);
    let lines = journal::complete_lines(kept);
    assert(kept + torn =~= journal::framed(lines) + torn);
    journal::lemma_complete(kept + torn, lines, torn);
}

// ── records ──────────────────────────────────────────────────────────────────
/// What is pending once these lines were appended, one after another.
pub open spec fn buffered(pending: Seq<u8>, lines: Seq<Seq<u8>>) -> Seq<u8>
    decreases lines.len(),
{
    if lines.len() == 0 {
        pending
    } else {
        buffered(pending, lines.drop_last()) + lines.last().push(NEWLINE)
    }
}

/// The state after a number of records.
pub open spec fn absorbed(st: ResumeView, recs: Seq<RecordView>) -> ResumeView
    decreases recs.len(),
{
    if recs.len() == 0 {
        st
    } else {
        absorbed(st, recs.drop_last()).absorb(Some(recs.last()))
    }
}

proof fn lemma_buffered(pending: Seq<u8>, lines: Seq<Seq<u8>>)
    ensures
        buffered(pending, lines) == pending + journal::framed(lines),
    decreases lines.len(),
{
    if lines.len() > 0 {
        lemma_buffered(pending, lines.drop_last());
        assert(buffered(pending, lines) =~= pending + journal::framed(lines));
    } else {
        assert(pending + journal::framed(lines) =~= pending);
    }
}

proof fn lemma_absorbed(lines: Seq<Option<RecordView>>, recs: Seq<RecordView>)
    ensures
        ResumeView::of(lines + recs.map_values(|r: RecordView| Some(r))) == absorbed(
            ResumeView::of(lines),
            recs,
        ),
    decreases recs.len(),
{
    let some = |r: RecordView| Some(r);
    let all = lines + recs.map_values(some);
    if recs.len() == 0 {
        assert(all =~= lines);
    } else {
        assert(all.drop_last() =~= lines + recs.drop_last().map_values(some));
        assert(all.last() == Some(recs.last()));
        lemma_absorbed(lines, recs.drop_last());
    }
}

/// A record printed on one line reads as itself.
pub open spec fn reads_back(
    print: spec_fn(RecordView) -> Seq<u8>,
    parse: spec_fn(Seq<char>) -> Option<RecordView>,
) -> bool {
    forall|r: RecordView|
        {
            &&& !(#[trigger] print(r)).contains(NEWLINE)
            &&& !fields::blank(path::lossy_text(print(r)))
            &&& parse(path::lossy_text(print(r))) == Some(r)
        }
}

proof fn lemma_written_prefix(a: Seq<Seq<u8>>, b: Seq<Seq<u8>>, n: int)
    requires
        0 <= n <= a.len(),
    ensures
        journal::written_lines(a + b, n) == journal::written_lines(a, n),
    decreases n,
{
    if n > 0 {
        lemma_written_prefix(a, b, n - 1);
        assert((a + b)[n - 1] == a[n - 1]);
    }
}

/// Of printed records every line is written, and parses as its record.
proof fn lemma_written(
    held: Seq<Seq<u8>>,
    recs: Seq<RecordView>,
    print: spec_fn(RecordView) -> Seq<u8>,
    parse: spec_fn(Seq<char>) -> Option<RecordView>,
)
    requires
        reads_back(print, parse),
    ensures
        ({
            let all = held + recs.map_values(print);
            journal::written_lines(all, all.len() as int).map_values(parse)
                == journal::written_lines(held, held.len() as int).map_values(parse)
                + recs.map_values(|r: RecordView| Some(r))
        }),
    decreases recs.len(),
{
    let some = |r: RecordView| Some(r);
    let all = held + recs.map_values(print);
    let first = journal::written_lines(held, held.len() as int).map_values(parse);
    if recs.len() == 0 {
        assert(all =~= held);
        assert(first + recs.map_values(some) =~= first);
    } else {
        let init = recs.drop_last();
        let before = held + init.map_values(print);
        lemma_written(held, init, print, parse);
        assert(all =~= before + seq![print(recs.last())]);
        lemma_written_prefix(before, seq![print(recs.last())], before.len() as int);
        let n = all.len() as int;
        assert(all[n - 1] == print(recs.last()));
        let shorter = journal::written_lines(before, before.len() as int);
        assert(journal::written_lines(all, n) == shorter.push(
            path::lossy_text(print(recs.last())),
        ));
        assert(journal::written_lines(all, n).map_values(parse) =~= shorter.map_values(parse).push(
            Some(recs.last()),
        ));
        assert(first + recs.map_values(some) =~= (first + init.map_values(some)).push(
            Some(recs.last()),
        ));
    }
}

/// What was appended is what is read back. The records are printed one to a line and parsed
/// again; a commit puts their lines at the end of the file, in order and each ended; then the
/// file holds what it held and behind that exactly these lines, which parse as the records,
/// and says what it said and then what they say. Nothing is torn, and another commit at once
/// adds nothing.
pub proof fn law_committed_records_are_read_back(
    file: Seq<u8>,
    recs: Seq<RecordView>,
    print: spec_fn(RecordView) -> Seq<u8>,
    parse: spec_fn(Seq<char>) -> Option<RecordView>,
)
    requires
        file.len() == 0 || file.last() == NEWLINE,
        reads_back(print, parse),
    ensures
        ({
            let lines = recs.map_values(print);
            let after = file + buffered(Seq::empty(), lines);
            let held = journal::complete_lines(file);
            let all = journal::complete_lines(after);
            &&& after == file + journal::framed(lines)
            &&& all == held + lines
            &&& journal::written_lines(all, all.len() as int).map_values(parse)
                == journal::written_lines(held, held.len() as int).map_values(parse)
                + recs.map_values(|r: RecordView| Some(r))
            &&& journal::kept_len(after) == after.len()
            &&& journal::state_of(after, parse) == absorbed(journal::state_of(file, parse), recs)
            &&& after + buffered(Seq::empty(), Seq::empty()) == after
        }),
{
    let lines = recs.map_values(print);
    let held = journal::complete_lines(file);
    let after = file + buffered(Seq::empty(), lines);
    lemma_buffered(Seq::empty(), lines);
    assert(after =~= file + journal::framed(lines));
    lemma_whole(file);
    journal::lemma_complete(file, held, Seq::empty());
    assert(journal::plain(lines));
    journal::law_append_after_truncation(file, held, Seq::empty(), lines);
    assert(file.take(journal::kept_len(file) as int) =~= file);
    journal::lemma_complete(after, held + lines, Seq::empty());
    lemma_written(held, recs, print, parse);
    lemma_absorbed(journal::written_lines(held, held.len() as int).map_values(parse), recs);
    assert(after + buffered(Seq::empty(), Seq::empty()) =~= after);
}

// ── the file in flight ───────────────────────────────────────────────────────
/// The `k`-th line is a checkpoint.
pub open spec fn checkpoint_at(lines: Seq<Option<RecordView>>, k: int) -> bool {
    lines[k] matches Some(RecordView::Checkpoint { .. })
}

/// The last checkpoint, and the file it is of was not recorded as done after it.
pub open spec fn in_flight(lines: Seq<Option<RecordView>>, k: int) -> bool {
    &&& 0 <= k < lines.len()
    &&& lines[k] matches Some(RecordView::Checkpoint { rel, .. }) && forall|j: int|
        k < j < lines.len() ==> !checkpoint_at(lines, j) && !journal::records_done(
            #[trigger] lines[j],
            rel,
        )
}

/// The partial file is that of the last checkpoint, unless the file was recorded as done
/// after it; its chain ends in that checkpoint, and every span in it begins where the one
/// before ends.
pub proof fn law_the_partial_file_is_the_last_in_flight(lines: Seq<Option<RecordView>>)
    ensures
        ({
            let partial = ResumeView::of(lines).partial;
            &&& partial is Some <==> exists|k: int| in_flight(lines, k)
            &&& partial matches Some(p) ==> p.wf() && exists|k: int|
                #[trigger] in_flight(lines, k) && lines[k] == Some(
                    RecordView::Checkpoint {
                        rel: p.rel,
                        off: p.chain.last().off,
                        span: p.chain.last().span,
                        span_hash: p.chain.last().span_hash,
                        src_size: p.chain.last().src_size,
                        src_mtime: p.chain.last().src_mtime,
                    },
                )
        }),
    decreases lines.len(),
{
    journal::lemma_fold_wf(lines);
    if lines.len() > 0 {
        let init = lines.drop_last();
        let end = lines.len() - 1;
        law_the_partial_file_is_the_last_in_flight(init);
        let before = ResumeView::of(init).partial;
        let now = ResumeView::of(lines).partial;
        let last = lines.last();
        assert(lines[end] == last);
        assert forall|k: int| 0 <= k < end implies #[trigger] in_flight(lines, k) == (in_flight(
            init,
            k,
        ) && !checkpoint_at(lines, end) && !(lines[k] matches Some(
            RecordView::Checkpoint { rel, .. },
        ) && journal::records_done(last, rel))) by {
            assert(lines[k] == init[k]);
            if in_flight(lines, k) {
                assert forall|j: int| k < j < init.len() implies !checkpoint_at(init, j)
                    && !journal::records_done(#[trigger] init[j], init[k]->0->Checkpoint_rel) by {
                    assert(lines[j] == init[j]);
                    assert(!checkpoint_at(lines, j));
                }
            }
            if in_flight(init, k) {
                assert forall|j: int| k < j < end implies !checkpoint_at(lines, j)
                    && !journal::records_done(#[trigger] lines[j], lines[k]->0->Checkpoint_rel) by {
                    assert(lines[j] == init[j]);
                    assert(!checkpoint_at(init, j));
                }
            }
        }
        if checkpoint_at(lines, end) {
            assert(in_flight(lines, end));
        } else {
            assert(!in_flight(lines, end));
            if before is Some {
                let k = choose|k: int|
                    #[trigger] in_flight(init, k) && init[k] == Some(
                        RecordView::Checkpoint {
                            rel: before->0.rel,
                            off: before->0.chain.last().off,
                            span: before->0.chain.last().span,
                            span_hash: before->0.chain.last().span_hash,
                            src_size: before->0.chain.last().src_size,
                            src_mtime: before->0.chain.last().src_mtime,
                        },
                    );
                assert(lines[k] == init[k]);
                assert(in_flight(lines, k) == !journal::records_done(last, before->0.rel));
                if now is None {
                    assert forall|j: int| !#[trigger] in_flight(lines, j) by {
                        if in_flight(lines, j) {
                            assert(j < end);
                            assert(in_flight(init, j));
                            lemma_one_in_flight(init, k, j);
                        }
                    }
                }
            } else {
                assert forall|j: int| !#[trigger] in_flight(lines, j) by {
                    if in_flight(lines, j) {
                        assert(j < end);
                        assert(in_flight(init, j));
                    }
                }
            }
        }
    }
}

proof fn lemma_one_in_flight(lines: Seq<Option<RecordView>>, j: int, k: int)
    requires
        in_flight(lines, j),
        in_flight(lines, k),
    ensures
        j == k,
{
    assert(checkpoint_at(lines, j) && checkpoint_at(lines, k));
    if j < k {
        assert(lines[k] == lines[k]);
        assert(!checkpoint_at(lines, k));
    } else if k < j {
        assert(lines[j] == lines[j]);
        assert(!checkpoint_at(lines, j));
    }
}

// ── what the lines of a journal say, one kind at a time ──────────────────────
/// A journal says nothing that none of its lines says: it is complete, all copied, torn, or of
/// a named pair exactly when some line says so; and a file is done, or its original removed,
/// exactly when some line says that of this very file.
pub proof fn law_a_journal_says_what_its_lines_say(lines: Seq<Option<RecordView>>, rel: Seq<char>)
    ensures
        ({
            let r = ResumeView::of(lines);
            &&& r.complete <==> lines.contains(Some(RecordView::Complete))
            &&& r.all_copied <==> lines.contains(Some(RecordView::AllCopied))
            &&& r.torn_tail <==> lines.contains(None)
            &&& r.session is Some <==> exists|t: int|
                0 <= t < lines.len() && ((#[trigger] lines[t]) matches Some(
                    RecordView::Session { .. },
                ))
            &&& r.done.dom().contains(rel) <==> exists|t: int|
                0 <= t < lines.len() && journal::records_done(#[trigger] lines[t], rel)
            &&& r.deleted.contains(rel) <==> lines.contains(
                Some(RecordView::SourceDeleted { rel }),
            )
        }),
    decreases lines.len(),
{
    if lines.len() > 0 {
        let init = lines.drop_last();
        let last = lines.len() - 1;
        law_a_journal_says_what_its_lines_say(init, rel);
        assert(lines[last] == lines.last());
        assert(forall|t: int| 0 <= t < init.len() ==> #[trigger] init[t] == lines[t]);
        lemma_contains_last(lines, Some(RecordView::Complete));
        lemma_contains_last(lines, Some(RecordView::AllCopied));
        lemma_contains_last(lines, None);
        lemma_contains_last(lines, Some(RecordView::SourceDeleted { rel }));
        let b = ResumeView::of(init);
        let r = ResumeView::of(lines);
        assert forall|t: int|
            0 <= t < last && journal::records_done(#[trigger] lines[t], rel) implies b.done.dom().contains(
            rel,
        ) by {
            assert(journal::records_done(init[t], rel));
        }
        if b.done.dom().contains(rel) {
            let t = choose|t: int|
                0 <= t < init.len() && journal::records_done(#[trigger] init[t], rel);
            assert(journal::records_done(lines[t], rel));
        }
        if journal::records_done(lines.last(), rel) {
            assert(journal::records_done(lines[last], rel));
        }
        assert forall|t: int|
            0 <= t < last && ((#[trigger] lines[t]) matches Some(
                RecordView::Session { .. },
            )) implies b.session is Some by {
            assert(init[t] matches Some(RecordView::Session { .. }));
        }
        if b.session is Some {
            let t = choose|t: int|
                0 <= t < init.len() && ((#[trigger] init[t]) matches Some(
                    RecordView::Session { .. },
                ));
            assert(lines[t] matches Some(RecordView::Session { .. }));
        }
        assert(lines.last() matches Some(RecordView::Session { .. }) ==> (lines[last] matches Some(
            RecordView::Session { .. },
        )));
        if let Some(RecordView::SourceDeleted { rel: other }) = lines.last() {
            assert(r.deleted == b.deleted.push(other));
            if b.deleted.contains(rel) {
                let k = choose|k: int| 0 <= k < b.deleted.len() && b.deleted[k] == rel;
                assert(r.deleted[k] == rel);
            }
            assert(r.deleted[r.deleted.len() - 1] == other);
            if r.deleted.contains(rel) && rel != other {
                let k = choose|k: int| 0 <= k < r.deleted.len() && r.deleted[k] == rel;
                assert(b.deleted[k] == rel);
            }
        }
    }
}

proof fn lemma_contains_last(lines: Seq<Option<RecordView>>, x: Option<RecordView>)
    requires
        lines.len() > 0,
    ensures
        lines.contains(x) <==> lines.last() == x || lines.drop_last().contains(x),
{
    let init = lines.drop_last();
    if lines.contains(x) {
        let k = choose|k: int| 0 <= k < lines.len() && lines[k] == x;
        if k < init.len() {
            assert(init[k] == x);
        }
    }
    if init.contains(x) {
        let k = choose|k: int| 0 <= k < init.len() && init[k] == x;
        assert(lines[k] == x);
    }
    if lines.last() == x {
        assert(lines[lines.len() - 1] == x);
    }
}

/// A line changes what it is about and nothing else. In particular a record of a file done
/// carries its size, its times and its hash over as they are, ends the chain of that file and
/// of no other, and takes nothing back.
pub proof fn law_a_line_changes_only_what_it_is_about(
    r: ResumeView,
    rel: Seq<char>,
    size: u64,
    mtime: i64,
    mtime_ns: i64,
    hash: Seq<char>,
    other: Seq<char>,
)
    requires
        other != rel,
    ensures
        ({
            let n = r.absorb(Some(RecordView::FileDone { rel, size, mtime, mtime_ns, hash }));
            &&& n.done.dom().contains(rel)
            &&& n.done[rel].size == size
            &&& n.done[rel].mtime == mtime
            &&& n.done[rel].mtime_ns == mtime_ns
            &&& n.done[rel].hash == hash
            &&& n.done.dom().contains(other) == r.done.dom().contains(other)
            &&& r.done.dom().contains(other) ==> n.done[other] == r.done[other]
            &&& r.partial matches Some(p) ==> (p.rel == rel ==> n.partial is None)
            &&& r.partial matches Some(p) ==> (p.rel != rel ==> n.partial == r.partial)
            &&& r.partial is None ==> n.partial is None
            &&& n.deleted == r.deleted
            &&& n.complete == r.complete
            &&& n.all_copied == r.all_copied
            &&& n.session == r.session
            &&& n.torn_tail == r.torn_tail
        }),
        ({
            let n = r.absorb(Some(RecordView::SourceDeleted { rel }));
            n == ResumeView { deleted: n.deleted, ..r } && n.deleted == r.deleted.push(rel)
        }),
        r.absorb(Some(RecordView::Complete)) == (ResumeView { complete: true, ..r }),
        r.absorb(Some(RecordView::AllCopied)) == (ResumeView { all_copied: true, ..r }),
        r.absorb(None) == (ResumeView { torn_tail: true, ..r }),
{
}

/// A checkpoint lengthens the chain only where it starts at the very byte at which the newest
/// one of the same file ended; otherwise it starts a chain of its own. Nothing else changes.
pub proof fn law_a_checkpoint_adjoins_or_starts_anew(
    r: ResumeView,
    rel: Seq<char>,
    ck: journal::CkptView,
)
    ensures
        ({
            let n = r.absorb(
                Some(
                    RecordView::Checkpoint {
                        rel,
                        off: ck.off,
                        span: ck.span,
                        span_hash: ck.span_hash,
                        src_size: ck.src_size,
                        src_mtime: ck.src_mtime,
                    },
                ),
            );
            let p = n.partial->0;
            &&& n == (ResumeView { partial: n.partial, ..r })
            &&& n.partial is Some
            &&& p.rel == rel
            &&& p.chain.len() > 0
            &&& p.chain[p.chain.len() - 1] == ck
            &&& p.chain.len() > 1 ==> r.partial is Some && r.partial->0.rel == rel
                && p.chain.drop_last() == r.partial->0.chain && p.chain[p.chain.len() - 2].off
                + ck.span == ck.off
            &&& r.partial is Some && r.partial->0.rel == rel && r.partial->0.chain.len() > 0
                && r.partial->0.chain.last().off + ck.span == ck.off ==> p.chain.len()
                == r.partial->0.chain.len() + 1
        }),
{
    let n = r.absorb(
        Some(
            RecordView::Checkpoint {
                rel,
                off: ck.off,
                span: ck.span,
                span_hash: ck.span_hash,
                src_size: ck.src_size,
                src_mtime: ck.src_mtime,
            },
        ),
    );
    if r.continues(rel, ck) {
        assert(n.partial->0.chain.drop_last() =~= r.partial->0.chain);
    }
}

// ── what is still owed ───────────────────────────────────────────────────────
/// A transfer is offered again exactly when its pair is known and it never completed. What is
/// told of it are the files that are done, each once, the sum of their sizes, and up to twenty
/// of them by name; the rest is what the session line said.
pub proof fn law_what_is_told_of_an_interrupted_transfer(r: ResumeView)
    requires
        r.wf(),
        r.done.dom().finite(),
    ensures
        journal::owed(r) is Some <==> r.session is Some && !r.complete,
        journal::owed(r) matches Some(p) ==> {
            &&& p.src == r.session->0.src
            &&& p.dst == r.session->0.dst
            &&& p.mode == r.session->0.mode
            &&& p.files_done == r.done.dom().len()
            &&& p.files_total == r.session_files
            &&& p.bytes_total == r.session_bytes
            &&& p.names == r.session_names
            &&& p.skip_caches == r.session_skip_caches
            &&& p.skip_cloud == r.session_skip_cloud
            &&& p.sample.len() == (if r.done.dom().len() <= 20 {
                r.done.dom().len()
            } else {
                20
            })
            &&& forall|k: int|
                0 <= k < p.sample.len() ==> r.done.dom().contains(#[trigger] p.sample[k])
        },
{
    r.order.unique_seq_to_set();
    if let Some(p) = journal::owed(r) {
        assert forall|k: int| 0 <= k < p.sample.len() implies r.done.dom().contains(
            #[trigger] p.sample[k],
        ) by {
            assert(p.sample[k] == r.order[k]);
            assert(r.order.to_set().contains(r.order[k]));
        }
    }
}

/// The bytes that are done are the sizes of the files that are done, each once.
pub proof fn law_done_bytes_add_up(r: ResumeView, n: int)
    requires
        0 <= n < r.order.len(),
    ensures
        journal::done_bytes(r, 0) == 0,
        journal::done_bytes(r, n + 1) == journal::done_bytes(r, n) + r.done[r.order[n]].size,
        journal::owed(r) matches Some(p) ==> p.bytes_done == scan::clamp(
            journal::done_bytes(r, r.order.len() as int),
        ),
{
}

/// The most recent comes first: no later place belongs to a later moment, and every moment has
/// its place.
pub proof fn law_the_latest_comes_first(times: Seq<i128>, p: Seq<usize>, i: int)
    requires
        journal::latest_first(times, p),
        times.len() <= usize::MAX,
    ensures
        forall|a: int, b: int|
            #![trigger p[a], p[b]]
            0 <= a < b < p.len() ==> times[p[a] as int] >= times[p[b] as int] && p[a] != p[b],
        0 <= i < times.len() ==> exists|k: int| 0 <= k < p.len() && #[trigger] p[k] == i,
{
    assert(p.no_duplicates()) by {
        assert forall|a: int, b: int| 0 <= a < p.len() && 0 <= b < p.len() && a != b implies p[a]
            != p[b] by {
            if a < b {
                assert(p[a] != p[b]);
            } else {
                assert(p[b] != p[a]);
            }
        }
    }
    if 0 <= i < times.len() {
        sort::lemma_all_positions(p, times.len() as int, i);
    }
}

/// A journal file is kept up to and with its last newline.
pub proof fn law_kept_is_up_to_the_last_newline(bytes: Seq<u8>)
    ensures
        journal::kept_len(bytes) <= bytes.len(),
        journal::kept_len(bytes) > 0 ==> bytes[journal::kept_len(bytes) - 1] == 10,
        forall|i: int| journal::kept_len(bytes) <= i < bytes.len() ==> #[trigger] bytes[i] != 10,
    decreases bytes.len(),
{
    if bytes.len() > 0 && bytes.last() != NEWLINE {
        let init = bytes.drop_last();
        law_kept_is_up_to_the_last_newline(init);
        assert forall|i: int| journal::kept_len(bytes) <= i < bytes.len() implies #[trigger] bytes[i]
            != 10 by {
            if i < init.len() {
                assert(init[i] == bytes[i]);
            }
        }
    }
}

/// Of a new entry in the history: it is added to up to 999, and from a thousand on only the
/// newest 499 stay with it.
pub proof fn law_how_the_history_is_cut(count: nat)
    ensures
        count < 1000 ==> journal::history_len_after(count) == count + 1,
        count >= 1000 ==> journal::history_len_after(count) == 500,
{
}

/// Only finished files bring a commit closer: each by one file and by its size.
pub proof fn law_what_brings_a_commit_closer(files: usize, bytes: u64, rec: RecordView)
    ensures
        !(rec is FileDone) ==> journal::files_since(files, rec) == files && journal::bytes_since(
            bytes,
            rec,
        ) == bytes,
        rec matches RecordView::FileDone { size, .. } ==> (files < usize::MAX
            ==> journal::files_since(files, rec) == files + 1) && (bytes + size <= u64::MAX
            ==> journal::bytes_since(bytes, rec) == bytes + size),
{
}

/// A file that ended in the middle of a line is known to be torn, and says nothing else than its
/// complete lines do.
pub proof fn law_a_torn_file_says_what_its_lines_say(lines: Seq<Option<RecordView>>, torn: bool)
    ensures
        ({
            let r = ResumeView::read(lines, torn);
            let w = ResumeView::of(lines);
            &&& torn ==> r.torn_tail
            &&& !torn ==> r == w
            &&& r.done == w.done && r.partial == w.partial && r.deleted == w.deleted
        }),
{
}

/// A journal is cut exactly where its last byte ends no line, and then behind the last byte that
/// does: what goes is the beginning of a line and nothing else.
pub proof fn law_where_a_journal_is_cut(bytes: Seq<u8>)
    requires
        bytes.len() <= usize::MAX,
    ensures
        journal::cut_to(bytes) is None <==> bytes.len() == 0 || bytes.last() == journal::NEWLINE,
        journal::cut_to(bytes) matches Some(n) ==> {
            &&& n < bytes.len()
            &&& n > 0 ==> bytes[n - 1] == journal::NEWLINE
            &&& forall|i: int| n <= i < bytes.len() ==> #[trigger] bytes[i] != journal::NEWLINE
        },
{
    law_kept_is_up_to_the_last_newline(bytes);
}

} // verus!
