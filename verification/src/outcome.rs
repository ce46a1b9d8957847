//! A finished transfer: what is said of it, and what can be done next.

use crate::browse::Field;
use crate::engine;
use crate::journal::Mode;
use crate::path;
use crate::path::{lossy, Os, RelPath};
use crate::run;
use crate::run::{Place, Problem, ProblemView, Summary};
use crate::scan;
use crate::scan::{Manifest, ManifestView, Skipped, SkippedView};
use crate::size;
use crate::size::human;
use crate::text;
use crate::text::decimal;
use crate::words;
use crate::words::{humanize_error, plural, shorten};
use vstd::prelude::*;

verus! {

/// The entry that a problem is about; none where it is about the destination as a whole.
pub open spec fn entry_of(m: ManifestView, place: Place) -> Option<Seq<Seq<u8>>> {
    match place {
        Place::Dir(i) => if i < m.dirs.len() {
            Some(m.dirs[i as int])
        } else {
            None
        },
        Place::File(i) => if i < m.files.len() {
            Some(m.files[i as int].rel)
        } else {
            None
        },
        Place::Here => None,
    }
}

/// The entries that problems are about, in their order.
pub open spec fn entries_of(m: ManifestView, errors: Seq<ProblemView>, n: int) -> Seq<Seq<Seq<u8>>>
    decreases n,
{
    if n <= 0 {
        Seq::empty()
    } else {
        match entry_of(m, errors[n - 1].place) {
            Some(r) => entries_of(m, errors, n - 1).push(r),
            None => entries_of(m, errors, n - 1),
        }
    }
}

pub fn failed_entry(m: &Manifest, place: Place) -> (r: Option<RelPath>)
    ensures
        match entry_of(m@, place) {
            Some(e) => r is Some && r->0@ == e,
            None => r is None,
        },
{
    assert(m@.dirs.len() == m.dirs@.len() && m@.files.len() == m.files@.len());
    match place {
        Place::Dir(i) => {
            if i < m.dirs.len() {
                Some(m.dirs[i].copy())
            } else {
                None
            }
        },
        Place::File(i) => {
            if i < m.files.len() {
                Some(m.files[i].rel.copy())
            } else {
                None
            }
        },
        Place::Here => None,
    }
}

/// The files that the next run could do without: every one that failed.
pub fn failed_entries(m: &Manifest, errors: &Vec<Problem>) -> (r: Vec<RelPath>)
    ensures
        scan::rels(r@) == entries_of(m@, run::problems(errors@), errors@.len() as int),
{
    let ghost all = run::problems(errors@);
    let mut r: Vec<RelPath> = Vec::new();
    let mut i: usize = 0;
    assert(scan::rels(r@) =~= entries_of(m@, all, 0));
    while i < errors.len()
        invariant
            i <= errors.len(),
            all == run::problems(errors@),
            scan::rels(r@) == entries_of(m@, all, i as int),
        decreases errors.len() - i,
    {
        assert(all[i as int] == errors@[i as int]@);
        let ghost before = scan::rels(r@);
        if let Some(e) = failed_entry(m, errors[i].place) {
            let ghost ev = e@;
            r.push(e);
            assert(scan::rels(r@) =~= before.push(ev));
        }
        i += 1;
    }
    r
}

/// The run left something to do, and its two ends are still known.
pub open spec fn continues(have_pair: bool, stopped: bool, errors: usize) -> bool {
    have_pair && (stopped || errors > 0)
}

/// What is left to do may be left undone.
pub open spec fn finishes(have_pair: bool, stopped: bool, errors: usize, mode: Mode) -> bool {
    errors > 0 && !stopped && mode == Mode::Copy && have_pair
}

/// Whether the run may be taken up again.
pub fn can_continue(have_pair: bool, stopped: bool, errors: usize) -> (r: bool)
    ensures
        r == continues(have_pair, stopped, errors),
{
    have_pair && (stopped || errors > 0)
}

/// A copy that met problems may be finished without the files they are about. A move may not:
/// it would delete the originals of everything else.
pub fn offers_finish(have_pair: bool, stopped: bool, errors: usize, mode: Mode) -> (r: bool)
    ensures
        r == finishes(have_pair, stopped, errors, mode),
{
    errors > 0 && !stopped && have_pair && (match mode {
        Mode::Copy => true,
        Mode::Move => false,
    })
}

/// The big word. It never says copied where files failed.
pub open spec fn heading_text(errors: nat, stopped: bool, mode: Mode) -> Seq<char> {
    if errors > 0 {
        text::dec(errors) + " files couldn't be copied"@
    } else if stopped {
        "Stopped"@
    } else if mode == Mode::Copy {
        "Copied"@
    } else {
        "Moved"@
    }
}

pub fn heading(errors: usize, stopped: bool, mode: Mode) -> (s: String)
    ensures
        s@ == heading_text(errors as nat, stopped, mode),
{
    if errors > 0 {
        let mut s = decimal(errors as u64);
        s.append(" files couldn't be copied");
        s
    } else if stopped {
        String::from_str("Stopped")
    } else {
        match mode {
            Mode::Copy => String::from_str("Copied"),
            Mode::Move => String::from_str("Moved"),
        }
    }
}

/// A count and what was done to so many, left out where there is none.
pub open spec fn tally(n: nat, noun: Seq<char>, did: Seq<char>) -> Seq<Seq<char>> {
    if n > 0 {
        seq![words::counted(n, noun) + did]
    } else {
        Seq::empty()
    }
}

/// The counts of a run, one line each.
pub open spec fn tallies(s: Summary) -> Seq<Seq<char>> {
    seq![words::counted(s.files_copied as nat, "file"@) + " written"@] + tally(
        s.files_skipped as nat,
        "file"@,
        " already there"@,
    ) + tally(s.files_verified as nat, "file"@, " checked after writing"@) + tally(
        s.kept_existing as nat,
        "file"@,
        " left as they were on the drive"@,
    )
}

fn add_tally(v: &mut Vec<String>, n: usize, noun: &str, did: &str)
    ensures
        text::texts(final(v)@) == text::texts(old(v)@) + tally(n as nat, noun@, did@),
{
    let ghost before = text::texts(v@);
    if n > 0 {
        let mut s = plural(n, noun);
        s.append(did);
        let ghost sv = s@;
        v.push(s);
        assert(text::texts(v@) =~= before.push(sv));
        assert(before.push(sv) =~= before + seq![sv]);
    } else {
        assert(before + Seq::<Seq<char>>::empty() =~= before);
    }
}

pub fn count_lines(s: &Summary) -> (v: Vec<String>)
    ensures
        text::texts(v@) == tallies(*s),
{
    let mut v: Vec<String> = Vec::new();
    let mut first = plural(s.files_copied, "file");
    first.append(" written");
    let ghost fv = first@;
    v.push(first);
    assert(text::texts(v@) =~= seq![fv]);
    add_tally(&mut v, s.files_skipped, "file", " already there");
    add_tally(&mut v, s.files_verified, "file", " checked after writing");
    add_tally(&mut v, s.kept_existing, "file", " left as they were on the drive");
    v
}

/// How many originals went, where any did.
pub fn removed_line(s: &Summary) -> (r: Option<String>)
    ensures
        crate::drive::opt_text(r) == removed_text(s.sources_deleted as nat),
{
    if s.sources_deleted > 0 {
        let mut t = plural(s.sources_deleted, "original");
        t.append(" removed");
        Some(t)
    } else {
        None
    }
}

/// What is left out is part of the outcome.
pub fn left_out_line(n: usize) -> (r: Option<String>)
    ensures
        crate::drive::opt_text(r) == left_out_count(n as nat),
{
    if n > 0 {
        let mut t = plural(n, "item");
        t.append(" left out");
        Some(t)
    } else {
        None
    }
}

/// One thing left out, and why; `base` is the source, for places that are told in full.
pub open spec fn left_out_text(s: SkippedView, base: Seq<char>, os: Os) -> Seq<char> {
    let rel = path::rel_text(s.rel, os);
    "  "@ + words::shortened(
        if s.absolute {
            path::below(base, rel, os)
        } else {
            rel
        },
        52,
    ) + ": "@ + s.why
}

pub fn left_out_row(s: &Skipped, base: &str, os: Os) -> (t: String)
    ensures
        t@ == left_out_text(s@, base@, os),
{
    let rel = s.rel.text(os);
    let place = if s.absolute {
        path::below_text(base, rel.as_str(), os)
    } else {
        rel
    };
    let mut t = String::from_str("  ");
    t.append(shorten(place.as_str(), 52).as_str());
    t.append(": ");
    t.append(s.why.as_str());
    t
}

/// The name under which a failure is told: the last component, or a dot for all of it.
pub open spec fn failure_name(rel: Option<Seq<Seq<u8>>>) -> Seq<char> {
    match rel {
        Some(r) => if r.len() > 0 {
            path::lossy_text(r.last())
        } else {
            Seq::empty()
        },
        None => "."@,
    }
}

/// One failure.
pub open spec fn failure_text(rel: Option<Seq<Seq<u8>>>, why: Seq<char>) -> Seq<char> {
    "  "@ + failure_name(rel) + " — "@ + words::plain_error(why, engine::lower_text(why))
}

pub fn failure_row(rel: &Option<RelPath>, why: &str) -> (t: String)
    ensures
        t@ == failure_text(
            match *rel {
                Some(r) => Some(r@),
                None => None,
            },
            why@,
        ),
{
    let name = match rel {
        Some(r) => {
            let n = r.depth();
            if n > 0 {
                assert(r@.last() == r.parts@[n - 1]@);
                lossy(r.parts[n - 1].as_slice())
            } else {
                String::new()
            }
        },
        None => String::from_str("."),
    };
    let mut t = String::from_str("  ");
    t.append(name.as_str());
    t.append(" — ");
    t.append(humanize_error(why).as_str());
    t
}

/// The end of the transfer that lies on a drive to be removed.
pub open spec fn side_to_eject(dst_removable: bool, src_removable: bool) -> Option<Field> {
    if dst_removable {
        Some(Field::Dest)
    } else if src_removable {
        Some(Field::Source)
    } else {
        None
    }
}

/// The end of the transfer that lies on a drive to be removed: the destination, or, after a
/// copy from a drive, the source.
pub fn eject_side(dst_removable: bool, src_removable: bool) -> (r: Option<Field>)
    ensures
        r == side_to_eject(dst_removable, src_removable),
{
    if dst_removable {
        Some(Field::Dest)
    } else if src_removable {
        Some(Field::Source)
    } else {
        None
    }
}

// ── the history ──────────────────────────────────────────────────────────────
/// How a recorded run ended.
pub open spec fn status_text(done: bool, errors: nat) -> Seq<char> {
    if done {
        "finished"@
    } else if errors > 0 {
        text::dec(errors) + " error(s)"@
    } else {
        "stopped — resumable"@
    }
}

pub fn history_status(done: bool, errors: usize) -> (s: String)
    ensures
        s@ == status_text(done, errors as nat),
{
    if done {
        String::from_str("finished")
    } else if errors > 0 {
        let mut s = decimal(errors as u64);
        s.append(" error(s)");
        s
    } else {
        String::from_str("stopped — resumable")
    }
}

/// What a recorded run did; `lasted` is its time in words.
pub open spec fn detail_text(copied: nat, bytes: u64, skipped: nat, lasted: Seq<char>) -> Seq<char> {
    text::dec(copied) + " file(s), "@ + size::human_text(bytes) + (if skipped > 0 {
        " · "@ + text::dec(skipped) + " already there"@
    } else {
        Seq::empty()
    }) + " · "@ + lasted
}

pub fn history_detail(copied: usize, bytes: u64, skipped: usize, lasted: &str) -> (s: String)
    ensures
        s@ == detail_text(copied as nat, bytes, skipped as nat, lasted@),
{
    let mut s = decimal(copied as u64);
    s.append(" file(s), ");
    s.append(human(bytes).as_str());
    let ghost head = s@;
    if skipped > 0 {
        s.append(" · ");
        s.append(decimal(skipped as u64).as_str());
        s.append(" already there");
        assert(s@ =~= head + (" · "@ + text::dec(skipped as nat) + " already there"@));
    } else {
        assert(s@ =~= head + Seq::<char>::empty());
    }
    s.append(" · ");
    s.append(lasted);
    s
}

/// A run that met problems is never headed as copied or moved, and can always be continued
/// while its two ends are known.
pub proof fn law_failures_are_never_called_copied(errors: nat, stopped: bool, mode: Mode)
    requires
        errors > 0,
    ensures
        heading_text(errors, stopped, mode) != "Copied"@,
        heading_text(errors, stopped, mode) != "Moved"@,
{
    reveal_strlit("Copied");
    reveal_strlit("Moved");
    reveal_strlit(" files couldn't be copied");
    let h = heading_text(errors, stopped, mode);
    lemma_digits(errors);
    assert(h.len() > 20);
}

proof fn lemma_digits(n: nat)
    ensures
        text::dec(n).len() > 0,
{
}

/// A problem with a folder or a file is about that very entry; one with the destination is about
/// none.
pub proof fn law_what_a_problem_is_about(m: ManifestView, i: usize)
    ensures
        i < m.dirs.len() ==> entry_of(m, Place::Dir(i)) == Some(m.dirs[i as int]),
        i < m.files.len() ==> entry_of(m, Place::File(i)) == Some(m.files[i as int].rel),
        entry_of(m, Place::Here) is None,
{
}

/// The entries that problems are about are told in the order of the problems, each problem's
/// once.
pub proof fn law_every_problem_names_its_entry(m: ManifestView, errors: Seq<ProblemView>, n: int)
    requires
        0 <= n < errors.len(),
    ensures
        entries_of(m, errors, 0).len() == 0,
        (errors[n].place matches Place::File(i) && i < m.files.len()) ==> entries_of(
            m,
            errors,
            n + 1,
        ) == entries_of(m, errors, n).push(m.files[errors[n].place->File_0 as int].rel),
        (errors[n].place matches Place::Dir(i) && i < m.dirs.len()) ==> entries_of(
            m,
            errors,
            n + 1,
        ) == entries_of(m, errors, n).push(m.dirs[errors[n].place->Dir_0 as int]),
        errors[n].place is Here ==> entries_of(m, errors, n + 1) == entries_of(m, errors, n),
{
}

/// The heading says that all is well only where nothing failed and nobody stopped it, and then
/// what was done.
pub proof fn law_what_the_heading_says(errors: nat, stopped: bool, mode: Mode)
    ensures
        errors == 0 && !stopped && mode is Copy ==> heading_text(errors, stopped, mode)
            == "Copied"@,
        errors == 0 && !stopped && mode is Move ==> heading_text(errors, stopped, mode)
            == "Moved"@,
        errors == 0 && stopped ==> heading_text(errors, stopped, mode) == "Stopped"@,
        errors > 0 ==> heading_text(errors, stopped, mode) == text::dec(errors)
            + " files couldn't be copied"@,
{
}

/// What was written is always told; the other counts where they are not nought, each as it is.
pub proof fn law_which_counts_are_told(s: Summary)
    ensures
        tallies(s).len() == 1 + (if s.files_skipped > 0 {
            1int
        } else {
            0
        }) + (if s.files_verified > 0 {
            1int
        } else {
            0
        }) + (if s.kept_existing > 0 {
            1int
        } else {
            0
        }),
        tallies(s)[0] == words::counted(s.files_copied as nat, "file"@) + " written"@,
        s.files_skipped > 0 ==> tallies(s)[1] == words::counted(s.files_skipped as nat, "file"@)
            + " already there"@,
        s.kept_existing > 0 ==> tallies(s)[tallies(s).len() - 1] == words::counted(
            s.kept_existing as nat,
            "file"@,
        ) + " left as they were on the drive"@,
{
}

/// A run can be continued exactly when it was stopped or met problems and its ends are known; it
/// can be finished without the files that failed only if it is a copy that ran to its end, and
/// whatever can be finished so can be continued too.
pub proof fn law_what_may_be_done_after_a_run(
    have_pair: bool,
    stopped: bool,
    errors: usize,
    mode: Mode,
)
    ensures
        continues(have_pair, stopped, errors) <==> have_pair && !(errors == 0 && !stopped),
        finishes(have_pair, stopped, errors, mode) ==> mode is Copy && !stopped && continues(
            have_pair,
            stopped,
            errors,
        ),
        have_pair && !stopped && errors > 0 && mode is Copy ==> finishes(
            have_pair,
            stopped,
            errors,
            mode,
        ),
        mode is Move ==> !finishes(have_pair, stopped, errors, mode),
{
}

/// A run in the history is finished, or has errors, or was stopped.
pub proof fn law_what_the_history_says(errors: nat)
    ensures
        status_text(true, errors) == "finished"@,
        errors > 0 ==> status_text(false, errors) == text::dec(errors) + " error(s)"@,
        status_text(false, 0) == "stopped — resumable"@,
{
}

/// Only a drive that can be removed is offered to be, and the destination before the source.
pub proof fn law_which_end_may_be_removed(dst_removable: bool, src_removable: bool)
    ensures
        side_to_eject(dst_removable, src_removable) == Some(Field::Dest) <==> dst_removable,
        side_to_eject(dst_removable, src_removable) == Some(Field::Source) <==> src_removable
            && !dst_removable,
        side_to_eject(dst_removable, src_removable) is None <==> !dst_removable && !src_removable,
{
}

/// A row about a failure names the entry, then says what went wrong; one about an entry that was
/// left out does the same, its place cut to 52 characters.
pub proof fn law_what_a_row_names(
    rel: Option<Seq<Seq<u8>>>,
    why: Seq<char>,
    s: SkippedView,
    base: Seq<char>,
    os: Os,
)
    ensures
        ("  "@ + failure_name(rel)).is_prefix_of(failure_text(rel, why)),
        words::plain_error(why, engine::lower_text(why)).is_suffix_of(failure_text(rel, why)),
        s.why.is_suffix_of(left_out_text(s, base, os)),
        !s.absolute ==> ("  "@ + words::shortened(path::rel_text(s.rel, os), 52)).is_prefix_of(
            left_out_text(s, base, os),
        ),
        s.absolute ==> ("  "@ + words::shortened(
            path::below(base, path::rel_text(s.rel, os), os),
            52,
        )).is_prefix_of(left_out_text(s, base, os)),
{
    let f = failure_text(rel, why);
    let a = "  "@ + failure_name(rel);
    let z = words::plain_error(why, engine::lower_text(why));
    assert(f.take(a.len() as int) =~= a);
    assert(f.skip(f.len() - z.len()) =~= z);
    let l = left_out_text(s, base, os);
    let place = if s.absolute {
        path::below(base, path::rel_text(s.rel, os), os)
    } else {
        path::rel_text(s.rel, os)
    };
    let b = "  "@ + words::shortened(place, 52);
    assert(l.take(b.len() as int) =~= b);
    assert(l.skip(l.len() - s.why.len()) =~= s.why);
}

/// How many originals are gone.
pub open spec fn removed_text(n: nat) -> Option<Seq<char>> {
    if n > 0 {
        Some(words::counted(n, "original"@) + " removed"@)
    } else {
        None
    }
}

/// How much was left out.
pub open spec fn left_out_count(n: nat) -> Option<Seq<char>> {
    if n > 0 {
        Some(words::counted(n, "item"@) + " left out"@)
    } else {
        None
    }
}

/// Originals that went and items that were left out are told of exactly where there are any, and
/// by their number.
pub proof fn law_when_removals_and_omissions_are_told(n: nat)
    ensures
        removed_text(n) is Some <==> n > 0,
        left_out_count(n) is Some <==> n > 0,
        n > 0 ==> words::counted(n, "original"@).is_prefix_of(removed_text(n)->0),
        n > 0 ==> words::counted(n, "item"@).is_prefix_of(left_out_count(n)->0),
{
    if n > 0 {
        let a = words::counted(n, "original"@);
        let b = words::counted(n, "item"@);
        assert(removed_text(n)->0.take(a.len() as int) =~= a);
        assert(left_out_count(n)->0.take(b.len() as int) =~= b);
    }
}

} // verus!
