//! A running transfer as the screen sees it: what each report changes, and what is said.

use crate::engine::{Progress, ProgressView};
use crate::journal::Mode;
use crate::size;
use crate::size::{eta, eta_words, human};
use crate::text;
use crate::text::{chars_of, decimal};
use crate::words;
use crate::words::{plural, thousands};
use vstd::prelude::*;

verus! {

/// Where a transfer stands.
pub struct Shared {
    /// Originals to remove, and removed; the total is nothing until everything is proven.
    pub deleting_total: usize,
    pub deleted: usize,
    /// Bytes of an earlier prefix found good, while one is being read back; nothing otherwise.
    pub checking: u64,
    pub files_total: usize,
    pub files_done: usize,
    pub files_skipped: usize,
    pub bytes_total: u64,
    /// Written and carried over: what the bar shows.
    pub bytes_done: u64,
    /// Written by this run: what the speed is made of.
    pub bytes_fresh: u64,
    pub finished: bool,
    /// Stop was pressed.
    pub stopping: bool,
    pub current: String,
    pub dirs_done: usize,
    pub dirs_total: usize,
    pub eta_secs: Option<u64>,
    pub eta_small_left: u64,
    pub eta_small_secs: Option<u64>,
    pub eta_big_bytes: u64,
    pub eta_big_secs: Option<u64>,
    /// Files in cache folders that were not left out.
    pub cache_files: usize,
    pub errors: usize,
}

#[verifier::ext_equal]
pub struct SharedView {
    pub deleting_total: usize,
    pub deleted: usize,
    pub checking: u64,
    pub files_total: usize,
    pub files_done: usize,
    pub files_skipped: usize,
    pub bytes_total: u64,
    pub bytes_done: u64,
    pub bytes_fresh: u64,
    pub finished: bool,
    pub stopping: bool,
    pub current: Seq<char>,
    pub dirs_done: usize,
    pub dirs_total: usize,
    pub eta_secs: Option<u64>,
    pub eta_small_left: u64,
    pub eta_small_secs: Option<u64>,
    pub eta_big_bytes: u64,
    pub eta_big_secs: Option<u64>,
    pub cache_files: usize,
    pub errors: usize,
}

impl View for Shared {
    type V = SharedView;

    open spec fn view(&self) -> SharedView {
        SharedView {
            deleting_total: self.deleting_total,
            deleted: self.deleted,
            checking: self.checking,
            files_total: self.files_total,
            files_done: self.files_done,
            files_skipped: self.files_skipped,
            bytes_total: self.bytes_total,
            bytes_done: self.bytes_done,
            bytes_fresh: self.bytes_fresh,
            finished: self.finished,
            stopping: self.stopping,
            current: self.current@,
            dirs_done: self.dirs_done,
            dirs_total: self.dirs_total,
            eta_secs: self.eta_secs,
            eta_small_left: self.eta_small_left,
            eta_small_secs: self.eta_small_secs,
            eta_big_bytes: self.eta_big_bytes,
            eta_big_secs: self.eta_big_secs,
            cache_files: self.cache_files,
            errors: self.errors,
        }
    }
}

/// An estimate as it is kept: at least one second, and none where it is past all bounds.
pub open spec fn kept_estimate(v: Option<u64>) -> Option<u64> {
    match v {
        Some(s) => if s > i64::MAX {
            None
        } else if s == 0 {
            Some(1)
        } else {
            Some(s)
        },
        None => None,
    }
}

fn keep_estimate(v: Option<u64>) -> (r: Option<u64>)
    ensures
        r == kept_estimate(v),
{
    match v {
        Some(s) => {
            if s > i64::MAX as u64 {
                None
            } else if s == 0 {
                Some(1)
            } else {
                Some(s)
            }
        },
        None => None,
    }
}

impl SharedView {
    pub open spec fn new() -> SharedView {
        SharedView {
            deleting_total: 0,
            deleted: 0,
            checking: 0,
            files_total: 0,
            files_done: 0,
            files_skipped: 0,
            bytes_total: 0,
            bytes_done: 0,
            bytes_fresh: 0,
            finished: false,
            stopping: false,
            current: Seq::empty(),
            dirs_done: 0,
            dirs_total: 0,
            eta_secs: None,
            eta_small_left: 0,
            eta_small_secs: None,
            eta_big_bytes: 0,
            eta_big_secs: None,
            cache_files: 0,
            errors: 0,
        }
    }

    /// What one report changes. Bytes carried over move the bar and never the speed.
    pub open spec fn told(self, p: ProgressView) -> SharedView {
        match p {
            ProgressView::Start => self,
            ProgressView::Dirs { done, total } => SharedView {
                dirs_done: done,
                dirs_total: total,
                ..self
            },
            ProgressView::Eta { seconds, small_left, small_secs, big_bytes, big_secs } => SharedView {
                eta_secs: kept_estimate(seconds),
                eta_small_left: small_left,
                eta_small_secs: kept_estimate(small_secs),
                eta_big_bytes: big_bytes,
                eta_big_secs: kept_estimate(big_secs),
                ..self
            },
            ProgressView::FileSkipped => SharedView {
                files_skipped: self.files_skipped.wrapping_add(1),
                ..self
            },
            ProgressView::Errors { total } => SharedView { errors: total, ..self },
            ProgressView::File { rel } => SharedView { current: rel, checking: 0, ..self },
            ProgressView::Checking { rel, bytes } => SharedView {
                current: rel,
                checking: if bytes == 0 {
                    1
                } else {
                    bytes
                },
                ..self
            },
            ProgressView::Bytes(n) => SharedView {
                bytes_done: self.bytes_done.wrapping_add(n),
                bytes_fresh: self.bytes_fresh.wrapping_add(n),
                ..self
            },
            ProgressView::Skipped(n) => SharedView {
                bytes_done: self.bytes_done.wrapping_add(n),
                ..self
            },
            ProgressView::FileDone => SharedView {
                files_done: self.files_done.wrapping_add(1),
                ..self
            },
            ProgressView::DeletePhase { total } => SharedView {
                deleting_total: total,
                deleted: 0,
                ..self
            },
            ProgressView::Deleted => SharedView { deleted: self.deleted.wrapping_add(1), ..self },
        }
    }

    /// The line under the heading: the file at hand, or the folders being made.
    pub open spec fn current_text(self) -> Seq<char> {
        if self.current.len() > 0 {
            self.current
        } else if self.dirs_total > 0 {
            "making folders on the drive — "@ + text::dec(self.dirs_done as nat) + " of "@
                + text::dec(self.dirs_total as nat)
        } else {
            "starting…"@
        }
    }

    /// The time left, at `rate` bytes a second: the estimate of the engine where there is one.
    pub open spec fn left_text(self, rate: u64) -> Seq<char> {
        let remaining = if self.bytes_total > self.bytes_done {
            (self.bytes_total - self.bytes_done) as u64
        } else {
            0
        };
        if self.eta_secs is Some {
            size::eta_text(self.eta_secs->0) + " left"@
        } else if rate == 0 || remaining == 0 {
            Seq::empty()
        } else {
            size::eta_text(size::eta_secs(remaining, rate)) + " left"@
        }
    }

    /// The line under the bar: what is going on where no bytes move, else the time left.
    pub open spec fn headline(self, rate: u64) -> Seq<char> {
        if self.deleting_total > 0 {
            "everything is copied and checked — removing the originals, "@ + text::dec(
                self.deleted as nat,
            ) + " of "@ + text::dec(self.deleting_total as nat)
        } else if self.checking > 0 {
            "checking what's already on the drive — "@ + size::human_text(self.checking)
                + " verified"@
        } else {
            self.left_text(rate)
        }
    }

    /// The small files and the large ones by themselves, where both are left and both known.
    pub open spec fn parts(self) -> Option<Seq<char>> {
        if !self.finished && self.deleting_total == 0 && self.checking == 0 && self.eta_small_left
            > 0 && self.eta_big_bytes > 0 && self.eta_small_secs is Some && self.eta_big_secs
            is Some {
            Some(
                words::grouped(self.eta_small_left as nat) + " small files ("@ + size::eta_text(
                    self.eta_small_secs->0,
                ) + "), then "@ + size::human_text(self.eta_big_bytes) + " in larger files ("@
                    + size::eta_text(self.eta_big_secs->0) + ")"@,
            )
        } else {
            None
        }
    }

    /// How many files are done; those of earlier runs count. `fps` is the files of a second.
    pub open spec fn files_text(self, fps: Option<u64>) -> Seq<char> {
        let tail = if !self.finished && fps is Some {
            " · "@ + text::dec(fps->0 as nat) + " files a second"@
        } else {
            Seq::empty()
        };
        if self.files_skipped > 0 {
            text::dec((self.files_done + self.files_skipped) as nat) + " of "@ + text::dec(
                self.files_total as nat,
            ) + " files · "@ + text::dec(self.files_skipped as nat)
                + " from earlier runs, checked"@ + tail
        } else {
            text::dec(self.files_done as nat) + " of "@ + text::dec(self.files_total as nat)
                + " files"@ + tail
        }
    }

    /// Problems so far, while it is still going.
    pub open spec fn problems(self) -> Option<Seq<char>> {
        if self.errors > 0 && !self.finished {
            Some(
                words::counted(self.errors as nat, "file"@)
                    + " couldn't be read so far — the copy keeps going; the full list comes at the end"@,
            )
        } else {
            None
        }
    }

    /// Leaving out caches is worth saying: they are many, much is left, and they are more than
    /// a third of it all.
    pub open spec fn caches_matter(self) -> bool {
        &&& !self.finished
        &&& self.cache_files > 10_000
        &&& self.files_total - (self.files_done + self.files_skipped) > 20_000
        &&& self.cache_files * 3 > self.files_total
    }

    pub open spec fn cache_hint(self) -> Option<Seq<char>> {
        if self.caches_matter() {
            Some(
                "This can finish much sooner: "@ + words::grouped(self.cache_files as nat)
                    + " of these files are app caches — browser data, AppData and similar, which apps rebuild on their own. Stop, tick \"Leave out app caches\", and start again; everything already copied is kept."@,
            )
        } else {
            None
        }
    }
}

pub open spec fn opt_view(s: Option<String>) -> Option<Seq<char>> {
    match s {
        Some(t) => Some(t@),
        None => None,
    }
}

impl Shared {
    pub fn new() -> (s: Shared)
        ensures
            s@ == SharedView::new(),
    {
        Shared {
            deleting_total: 0,
            deleted: 0,
            checking: 0,
            files_total: 0,
            files_done: 0,
            files_skipped: 0,
            bytes_total: 0,
            bytes_done: 0,
            bytes_fresh: 0,
            finished: false,
            stopping: false,
            current: String::new(),
            dirs_done: 0,
            dirs_total: 0,
            eta_secs: None,
            eta_small_left: 0,
            eta_small_secs: None,
            eta_big_bytes: 0,
            eta_big_secs: None,
            cache_files: 0,
            errors: 0,
        }
    }

    pub fn tell(&mut self, p: Progress)
        ensures
            final(self)@ == old(self)@.told(p@),
    {
        match p {
            Progress::Start => {},
            Progress::Dirs { done, total } => {
                self.dirs_done = done;
                self.dirs_total = total;
            },
            Progress::Eta { seconds, small_left, small_secs, big_bytes, big_secs } => {
                self.eta_secs = keep_estimate(seconds);
                self.eta_small_left = small_left;
                self.eta_small_secs = keep_estimate(small_secs);
                self.eta_big_bytes = big_bytes;
                self.eta_big_secs = keep_estimate(big_secs);
            },
            Progress::FileSkipped => {
                self.files_skipped = self.files_skipped.wrapping_add(1);
            },
            Progress::Errors { total } => {
                self.errors = total;
            },
            Progress::File { rel } => {
                self.current = rel;
                self.checking = 0;
            },
            Progress::Checking { rel, bytes } => {
                self.current = rel;
                self.checking = if bytes == 0 {
                    1
                } else {
                    bytes
                };
            },
            Progress::Bytes(n) => {
                self.bytes_done = self.bytes_done.wrapping_add(n);
                self.bytes_fresh = self.bytes_fresh.wrapping_add(n);
            },
            Progress::Skipped(n) => {
                self.bytes_done = self.bytes_done.wrapping_add(n);
            },
            Progress::FileDone => {
                self.files_done = self.files_done.wrapping_add(1);
            },
            Progress::DeletePhase { total } => {
                self.deleting_total = total;
                self.deleted = 0;
            },
            Progress::Deleted => {
                self.deleted = self.deleted.wrapping_add(1);
            },
        }
    }

    /// The scan is still going on: there is nothing to count yet.
    pub fn looking(&self) -> (r: bool)
        ensures
            r == (self@.files_total == 0 && !self@.finished),
    {
        self.files_total == 0 && !self.finished
    }

    pub fn current_line(&self) -> (s: String)
        ensures
            s@ == self@.current_text(),
    {
        if chars_of(self.current.as_str()).len() > 0 {
            self.current.clone()
        } else if self.dirs_total > 0 {
            let mut s = String::from_str("making folders on the drive — ");
            s.append(decimal(self.dirs_done as u64).as_str());
            s.append(" of ");
            s.append(decimal(self.dirs_total as u64).as_str());
            s
        } else {
            String::from_str("starting…")
        }
    }

    pub fn headline(&self, rate: u64) -> (s: String)
        ensures
            s@ == self@.headline(rate),
    {
        if self.deleting_total > 0 {
            let mut s = String::from_str(
                "everything is copied and checked — removing the originals, ",
            );
            s.append(decimal(self.deleted as u64).as_str());
            s.append(" of ");
            s.append(decimal(self.deleting_total as u64).as_str());
            s
        } else if self.checking > 0 {
            let mut s = String::from_str("checking what's already on the drive — ");
            s.append(human(self.checking).as_str());
            s.append(" verified");
            s
        } else {
            let remaining: u64 = if self.bytes_total > self.bytes_done {
                self.bytes_total - self.bytes_done
            } else {
                0
            };
            match self.eta_secs {
                Some(secs) => {
                    let mut s = eta_words(secs);
                    s.append(" left");
                    s
                },
                None => match eta(remaining, rate) {
                    Some(s) => s,
                    None => String::new(),
                },
            }
        }
    }

    pub fn parts_line(&self) -> (r: Option<String>)
        ensures
            opt_view(r) == self@.parts(),
    {
        if self.finished || self.deleting_total > 0 || self.checking > 0 || self.eta_small_left == 0
            || self.eta_big_bytes == 0 {
            return None;
        }
        match (self.eta_small_secs, self.eta_big_secs) {
            (Some(a), Some(b)) => {
                let mut s = thousands(self.eta_small_left);
                s.append(" small files (");
                s.append(eta_words(a).as_str());
                s.append("), then ");
                s.append(human(self.eta_big_bytes).as_str());
                s.append(" in larger files (");
                s.append(eta_words(b).as_str());
                s.append(")");
                Some(s)
            },
            _ => None,
        }
    }

    pub fn files_line(&self, fps: Option<u64>) -> (s: String)
        requires
            self@.files_done + self@.files_skipped <= u64::MAX,
        ensures
            s@ == self@.files_text(fps),
    {
        let mut s = String::new();
        if self.files_skipped > 0 {
            let both: u64 = self.files_done as u64 + self.files_skipped as u64;
            s = decimal(both);
            s.append(" of ");
            s.append(decimal(self.files_total as u64).as_str());
            s.append(" files · ");
            s.append(decimal(self.files_skipped as u64).as_str());
            s.append(" from earlier runs, checked");
        } else {
            s = decimal(self.files_done as u64);
            s.append(" of ");
            s.append(decimal(self.files_total as u64).as_str());
            s.append(" files");
        }
        let ghost head = s@;
        match fps {
            Some(n) => {
                if !self.finished {
                    s.append(" · ");
                    s.append(decimal(n).as_str());
                    s.append(" files a second");
                    assert(s@ =~= head + (" · "@ + text::dec(n as nat) + " files a second"@));
                }
            },
            None => {},
        }
        assert(head + Seq::<char>::empty() =~= head);
        s
    }

    pub fn problem_line(&self) -> (r: Option<String>)
        ensures
            opt_view(r) == self@.problems(),
    {
        if self.errors > 0 && !self.finished {
            let mut s = plural(self.errors, "file");
            s.append(
                " couldn't be read so far — the copy keeps going; the full list comes at the end",
            );
            Some(s)
        } else {
            None
        }
    }

    pub fn cache_line(&self) -> (r: Option<String>)
        ensures
            opt_view(r) == self@.cache_hint(),
    {
        let done: u128 = self.files_done as u128 + self.files_skipped as u128;
        let total: u128 = self.files_total as u128;
        if !self.finished && self.cache_files > 10_000 && total > done && total - done > 20_000
            && self.cache_files as u128 * 3 > total {
            let mut s = String::from_str("This can finish much sooner: ");
            s.append(thousands(self.cache_files as u64).as_str());
            s.append(
                " of these files are app caches — browser data, AppData and similar, which apps rebuild on their own. Stop, tick \"Leave out app caches\", and start again; everything already copied is kept.",
            );
            Some(s)
        } else {
            None
        }
    }
}

/// The heading while it runs.
pub fn running_title(mode: Mode) -> (s: &'static str)
    ensures
        s@ == (if mode == Mode::Copy {
            "Copying"@
        } else {
            "Moving"@
        }),
{
    match mode {
        Mode::Copy => "Copying",
        Mode::Move => "Moving",
    }
}

/// The state after a run of reports.
pub open spec fn after(reports: Seq<ProgressView>) -> SharedView
    decreases reports.len(),
{
    if reports.len() == 0 {
        SharedView::new()
    } else {
        after(reports.drop_last()).told(reports.last())
    }
}

/// The bytes that reports of a run carried: written ones, and with `all` those of earlier runs.
pub open spec fn reported(reports: Seq<ProgressView>, all: bool) -> nat
    decreases reports.len(),
{
    if reports.len() == 0 {
        0
    } else {
        reported(reports.drop_last(), all) + match reports.last() {
            ProgressView::Bytes(n) => n as nat,
            ProgressView::Skipped(n) => if all {
                n as nat
            } else {
                0
            },
            _ => 0,
        }
    }
}

/// The bar is made of everything reported, the speed only of what was written by this run.
pub proof fn law_carried_bytes_never_count_as_speed(reports: Seq<ProgressView>)
    requires
        reported(reports, true) <= u64::MAX,
    ensures
        after(reports).bytes_done == reported(reports, true),
        after(reports).bytes_fresh == reported(reports, false),
        after(reports).bytes_fresh <= after(reports).bytes_done,
    decreases reports.len(),
{
    if reports.len() > 0 {
        law_carried_bytes_never_count_as_speed(reports.drop_last());
    }
}

/// How many of the reports tell of a file done, a file skipped, an original removed.
pub open spec fn files_reported(reports: Seq<ProgressView>) -> nat
    decreases reports.len(),
{
    if reports.len() == 0 {
        0
    } else {
        files_reported(reports.drop_last()) + (if reports.last() is FileDone {
            1nat
        } else {
            0nat
        })
    }
}

pub open spec fn skips_reported(reports: Seq<ProgressView>) -> nat
    decreases reports.len(),
{
    if reports.len() == 0 {
        0
    } else {
        skips_reported(reports.drop_last()) + (if reports.last() is FileSkipped {
            1nat
        } else {
            0nat
        })
    }
}

/// Files are counted one by one: as done where they were reported done, as skipped where they
/// were reported skipped, and never as both.
pub proof fn law_every_file_reported_counts_once(reports: Seq<ProgressView>)
    requires
        reports.len() <= usize::MAX,
    ensures
        after(reports).files_done == files_reported(reports),
        after(reports).files_skipped == skips_reported(reports),
        files_reported(reports) + skips_reported(reports) <= reports.len(),
    decreases reports.len(),
{
    if reports.len() > 0 {
        law_every_file_reported_counts_once(reports.drop_last());
    }
}

/// A report changes what it is about and leaves all other numbers alone.
pub proof fn law_a_report_changes_only_its_own(s: SharedView, p: ProgressView)
    ensures
        ({
            let n = s.told(p);
            &&& !(p is Bytes) && !(p is Skipped) ==> n.bytes_done == s.bytes_done
            &&& !(p is Bytes) ==> n.bytes_fresh == s.bytes_fresh
            &&& !(p is FileDone) ==> n.files_done == s.files_done
            &&& !(p is FileSkipped) ==> n.files_skipped == s.files_skipped
            &&& !(p is Errors) ==> n.errors == s.errors
            &&& p matches ProgressView::Errors { total } ==> n.errors == total
            &&& !(p is DeletePhase) ==> n.deleting_total == s.deleting_total
            &&& p matches ProgressView::DeletePhase { total } ==> n.deleting_total == total
                && n.deleted == 0
            &&& !(p is DeletePhase) && !(p is Deleted) ==> n.deleted == s.deleted
            &&& p is Deleted && s.deleted < usize::MAX ==> n.deleted == s.deleted + 1
            &&& !(p is Dirs) ==> n.dirs_done == s.dirs_done && n.dirs_total == s.dirs_total
            &&& p matches ProgressView::Dirs { done, total } ==> n.dirs_done == done
                && n.dirs_total == total
            &&& !(p is File) && !(p is Checking) ==> n.current == s.current && n.checking
                == s.checking
            &&& p matches ProgressView::File { rel } ==> n.current == rel && n.checking == 0
            &&& p matches ProgressView::Checking { rel, bytes } ==> n.current == rel && n.checking
                > 0 && (bytes > 0 ==> n.checking == bytes)
            &&& !(p is Eta) ==> n.eta_secs == s.eta_secs && n.eta_small_left == s.eta_small_left
                && n.eta_big_bytes == s.eta_big_bytes && n.eta_small_secs == s.eta_small_secs
                && n.eta_big_secs == s.eta_big_secs
            &&& p matches ProgressView::Eta { small_left, big_bytes, .. } ==> n.eta_small_left
                == small_left && n.eta_big_bytes == big_bytes
            &&& n.files_total == s.files_total && n.bytes_total == s.bytes_total && n.finished
                == s.finished && n.stopping == s.stopping && n.cache_files == s.cache_files
        }),
{
}

/// An estimate is kept as it is, but for none at all where it is beyond all bounds and a second
/// where it is nothing.
pub proof fn law_how_an_estimate_is_kept(s: SharedView, p: ProgressView)
    requires
        p is Eta,
    ensures
        p->seconds is None ==> s.told(p).eta_secs is None,
        p->seconds matches Some(t) ==> (0 < t <= 9_223_372_036_854_775_807 ==> s.told(p).eta_secs
            == Some(t)),
        p->seconds == Some(0u64) ==> s.told(p).eta_secs == Some(1u64),
        p->small_secs matches Some(t) ==> (0 < t <= 9_223_372_036_854_775_807 ==> s.told(
            p,
        ).eta_small_secs == Some(t)),
        p->small_secs is None ==> s.told(p).eta_small_secs is None,
        p->big_secs matches Some(t) ==> (0 < t <= 9_223_372_036_854_775_807 ==> s.told(
            p,
        ).eta_big_secs == Some(t)),
        p->big_secs is None ==> s.told(p).eta_big_secs is None,
{
}

/// The time left is that of the estimate, and without one that of the bytes still to come at
/// the rate of now; nothing is said where neither is known or nothing is left.
pub proof fn law_how_long_is_left(s: SharedView, rate: u64)
    ensures
        s.eta_secs matches Some(t) ==> s.left_text(rate) == size::eta_text(t) + " left"@,
        s.eta_secs is None && (rate == 0 || s.bytes_done >= s.bytes_total) ==> s.left_text(
            rate,
        ).len() == 0,
        s.eta_secs is None && rate > 0 && s.bytes_done < s.bytes_total ==> s.left_text(rate)
            == size::eta_text(
            size::eta_secs((s.bytes_total - s.bytes_done) as u64, rate),
        ) + " left"@,
        s.deleting_total == 0 && s.checking == 0 ==> s.headline(rate) == s.left_text(rate),
{
}

/// The hint about caches comes exactly while the transfer runs, with more than ten thousand
/// files in caches, more than twenty thousand still to go, and the caches more than a third of
/// it all.
pub proof fn law_when_caches_are_mentioned(s: SharedView)
    ensures
        s.cache_hint() is Some <==> {
            &&& !s.finished
            &&& s.cache_files > 10_000
            &&& s.files_done + s.files_skipped + 20_000 < s.files_total
            &&& s.files_total < 3 * s.cache_files
        },
        s.problems() is Some <==> s.errors > 0 && !s.finished,
        s.parts() is Some <==> {
            &&& !s.finished
            &&& s.deleting_total == 0
            &&& s.checking == 0
            &&& s.eta_small_left > 0
            &&& s.eta_big_bytes > 0
            &&& s.eta_small_secs is Some
            &&& s.eta_big_secs is Some
        },
{
}

} // verus!
