//! Time remaining, for two kinds of files at once.
//!
//! A small file costs its seeks and its metadata, a large one its bytes: one rate for both
//! would be wrong by hours on a mixed tree. Here is what is left of each kind and what has
//! been measured; dividing the one by the other is left to whoever keeps the time.

use crate::engine::{Progress, ProgressView};
use crate::scan;
use crate::scan::{EntryView, Manifest};
use vstd::prelude::*;

verus! {

/// Files below this size are timed per file.
pub const ETA_SMALL: u64 = 1_048_576;

/// One second, in nanoseconds: neither estimates nor samples come faster.
pub const SECOND_NS: u64 = 1_000_000_000;

/// How many of these files are small.
pub open spec fn small_count(files: Seq<EntryView>) -> nat
    decreases files.len(),
{
    if files.len() == 0 {
        0
    } else {
        small_count(files.drop_last()) + (if files.last().size < ETA_SMALL {
            1nat
        } else {
            0nat
        })
    }
}

/// The bytes of those that are not.
pub open spec fn big_bytes(files: Seq<EntryView>) -> nat
    decreases files.len(),
{
    if files.len() == 0 {
        0
    } else {
        big_bytes(files.drop_last()) + (if files.last().size < ETA_SMALL {
            0nat
        } else {
            files.last().size as nat
        })
    }
}

/// What lies ahead, and what was measured since the last sample.
pub struct EtaModel {
    /// Small files not yet reached.
    pub small_left: u64,
    /// Bytes of large files not yet reached.
    pub big_left: u64,
    /// Size of the large file in flight, or zero.
    pub cur_big: u64,
    /// How much of it is accounted for.
    pub cur_big_done: u64,
    pub cur_is_small: bool,
    /// Small files finished since the last sample.
    pub win_small: u64,
    /// Bytes of large files written since then.
    pub win_big: u64,
}

/// New measurements; nothing for a kind that was not being worked on.
pub struct Sample {
    pub small: Option<u64>,
    pub big: Option<u64>,
}

pub open spec fn minus(a: u64, b: u64) -> u64 {
    if a >= b {
        (a - b) as u64
    } else {
        0
    }
}

pub open spec fn plus(a: u64, b: u64) -> u64 {
    scan::clamp(a as nat + b as nat)
}

impl EtaModel {
    /// Large-file bytes still to write.
    pub open spec fn big_remaining(self) -> u64 {
        plus(self.big_left, minus(self.cur_big, self.cur_big_done))
    }

    /// Nothing is done yet.
    pub open spec fn fresh(files: Seq<EntryView>) -> EtaModel {
        EtaModel {
            small_left: small_count(files) as u64,
            big_left: scan::clamp(big_bytes(files)),
            cur_big: 0,
            cur_big_done: 0,
            cur_is_small: true,
            win_small: 0,
            win_big: 0,
        }
    }

    /// Measuring begins anew.
    pub open spec fn sampled(self) -> EtaModel {
        EtaModel { win_small: 0, win_big: 0, ..self }
    }

    pub fn new(m: &Manifest) -> (r: EtaModel)
        ensures
            r == EtaModel::fresh(m@.files),
            r.small_left == small_count(m@.files),
    {
        let mut small: u64 = 0;
        let mut big: u64 = 0;
        let mut i: usize = 0;
        while i < m.files.len()
            invariant
                i <= m.files.len(),
                small <= i,
                small == small_count(m@.files.take(i as int)),
                big == scan::clamp(big_bytes(m@.files.take(i as int))),
            decreases m.files.len() - i,
        {
            proof {
                assert(m@.files.take(i + 1).drop_last() =~= m@.files.take(i as int));
                assert(m@.files.take(i + 1).last() == m.files@[i as int]@);
            }
            let size = m.files[i].size;
            if size < ETA_SMALL {
                small = small + 1;
            } else {
                big = big.saturating_add(size);
            }
            i += 1;
        }
        assert(m@.files.take(i as int) =~= m@.files);
        EtaModel {
            small_left: small,
            big_left: big,
            cur_big: 0,
            cur_big_done: 0,
            cur_is_small: true,
            win_small: 0,
            win_big: 0,
        }
    }

    /// A file is taken up. It is no longer ahead, whatever becomes of it.
    pub fn start_file(&mut self, size: u64)
        ensures
            *final(self) == old(self).started(size),
    {
        self.cur_big_done = 0;
        if size < ETA_SMALL {
            self.cur_is_small = true;
            self.cur_big = 0;
            self.small_left = self.small_left.saturating_sub(1);
        } else {
            self.cur_is_small = false;
            self.cur_big = size;
            self.big_left = self.big_left.saturating_sub(size);
        }
    }

    pub open spec fn started(self, size: u64) -> EtaModel {
        EtaModel {
            cur_is_small: size < ETA_SMALL,
            cur_big: if size < ETA_SMALL {
                0
            } else {
                size
            },
            cur_big_done: 0,
            small_left: if size < ETA_SMALL {
                minus(self.small_left, 1)
            } else {
                self.small_left
            },
            big_left: if size < ETA_SMALL {
                self.big_left
            } else {
                minus(self.big_left, size)
            },
            ..self
        }
    }

    pub open spec fn finished(self) -> EtaModel {
        EtaModel {
            win_small: if self.cur_is_small {
                plus(self.win_small, 1)
            } else {
                self.win_small
            },
            cur_big: 0,
            cur_big_done: 0,
            ..self
        }
    }

    pub open spec fn written(self, n: u64) -> EtaModel {
        if self.cur_big > 0 {
            EtaModel {
                cur_big_done: plus(self.cur_big_done, n),
                win_big: plus(self.win_big, n),
                ..self
            }
        } else {
            self
        }
    }

    pub open spec fn spared(self, n: u64) -> EtaModel {
        if self.cur_big > 0 {
            EtaModel { cur_big_done: plus(self.cur_big_done, n), ..self }
        } else {
            self
        }
    }

    /// What was measured since the last sample, of each kind that is being worked on.
    pub open spec fn measured(self) -> Sample {
        Sample {
            small: if self.win_small > 0 || self.cur_is_small {
                Some(self.win_small)
            } else {
                None
            },
            big: if self.win_big > 0 || self.cur_big > 0 {
                Some(self.win_big)
            } else {
                None
            },
        }
    }

    /// The estimate for these seconds of each kind.
    pub open spec fn estimated(self, small: Option<u64>, big: Option<u64>) -> ProgressView {
        let s = if self.small_left == 0 {
            Some(0u64)
        } else {
            small
        };
        let b = if self.big_remaining() == 0 {
            Some(0u64)
        } else {
            big
        };
        ProgressView::Eta {
            seconds: if s is Some && b is Some {
                Some(plus(s->0, b->0))
            } else {
                None
            },
            small_left: self.small_left,
            small_secs: s,
            big_bytes: self.big_remaining(),
            big_secs: b,
        }
    }

    /// The file in flight is finished. A small one counts as a measurement.
    pub fn completed(&mut self)
        ensures
            *final(self) == old(self).finished(),
    {
        if self.cur_is_small {
            self.win_small = self.win_small.saturating_add(1);
        }
        self.cur_big = 0;
        self.cur_big_done = 0;
    }

    /// Bytes of the file in flight were written. Those of a large one are a measurement.
    pub fn wrote(&mut self, n: u64)
        ensures
            *final(self) == old(self).written(n),
    {
        if self.cur_big > 0 {
            self.cur_big_done = self.cur_big_done.saturating_add(n);
            self.win_big = self.win_big.saturating_add(n);
        }
    }

    /// Bytes of the file in flight need not be written: less is left, nothing is measured.
    pub fn carried(&mut self, n: u64)
        ensures
            *final(self) == old(self).spared(n),
    {
        if self.cur_big > 0 {
            self.cur_big_done = self.cur_big_done.saturating_add(n);
        }
    }

    /// Whether so long after the last estimate, or the last sample, the next is due.
    pub fn due(elapsed_ns: u64) -> (r: bool)
        ensures
            r == (elapsed_ns >= SECOND_NS),
            r <==> elapsed_ns >= 1_000_000_000,
    {
        elapsed_ns >= SECOND_NS
    }

    /// Hands out what was measured and starts measuring anew. A kind is sampled only while it
    /// is being worked on: an hour inside one huge file says nothing of small ones, but a
    /// stall on a small one does.
    pub fn sample(&mut self) -> (r: Sample)
        ensures
            r == old(self).measured(),
            *final(self) == old(self).sampled(),
    {
        let r = Sample {
            small: if self.win_small > 0 || self.cur_is_small {
                Some(self.win_small)
            } else {
                None
            },
            big: if self.win_big > 0 || self.cur_big > 0 {
                Some(self.win_big)
            } else {
                None
            },
        };
        self.win_small = 0;
        self.win_big = 0;
        r
    }

    /// What is still to be divided by the rates.
    pub fn left(&self) -> (r: (u64, u64))
        ensures
            r == (self.small_left, self.big_remaining()),
    {
        let cur: u64 = if self.cur_big >= self.cur_big_done {
            self.cur_big - self.cur_big_done
        } else {
            0
        };
        (self.small_left, self.big_left.saturating_add(cur))
    }

    /// The estimate, given the seconds each kind takes at its rate, where it has one. There
    /// is no total while one of the two is unknown.
    pub fn estimate(&self, small: Option<u64>, big: Option<u64>) -> (p: Progress)
        ensures
            p@ == self.estimated(small, big),
    {
        let (small_left, big_bytes) = self.left();
        let small_secs = if small_left == 0 {
            Some(0)
        } else {
            small
        };
        let big_secs = if big_bytes == 0 {
            Some(0)
        } else {
            big
        };
        let seconds = match (small_secs, big_secs) {
            (Some(a), Some(b)) => Some(a.saturating_add(b)),
            _ => None,
        };
        Progress::Eta { seconds, small_left, small_secs, big_bytes, big_secs }
    }

    /// The model after a number of files have been taken up, one after the other.
    pub open spec fn after(self, files: Seq<EntryView>) -> EtaModel
        decreases files.len(),
    {
        if files.len() == 0 {
            self
        } else {
            self.after(files.drop_last()).started(files.last().size)
        }
    }
}

/// What lies ahead is at every moment exactly what has not been taken up, and nothing in the
/// end.
pub proof fn law_what_is_ahead(m: EtaModel, files: Seq<EntryView>, k: int)
    requires
        0 <= k <= files.len(),
        m.small_left == small_count(files),
        big_bytes(files) <= u64::MAX,
        m.big_left == big_bytes(files),
    ensures
        m.after(files.take(k)).small_left == small_count(files) - small_count(files.take(k)),
        m.after(files.take(k)).big_left == big_bytes(files) - big_bytes(files.take(k)),
        k == files.len() ==> m.after(files.take(k)).small_left == 0 && m.after(
            files.take(k),
        ).big_left == 0,
    decreases k,
{
    lemma_counts_grow(files, k);
    if k == files.len() {
        assert(files.take(k) =~= files);
    }
    if k > 0 {
        law_what_is_ahead(m, files, k - 1);
        lemma_counts_grow(files, k - 1);
        assert(files.take(k).drop_last() =~= files.take(k - 1));
        assert(files.take(k).last() == files[k - 1]);
    } else {
        assert(files.take(0) =~= Seq::empty());
    }
}

proof fn lemma_counts_grow(files: Seq<EntryView>, k: int)
    requires
        0 <= k <= files.len(),
    ensures
        small_count(files.take(k)) <= small_count(files),
        big_bytes(files.take(k)) <= big_bytes(files),
    decreases files.len() - k,
{
    if k < files.len() {
        lemma_counts_grow(files, k + 1);
        assert(files.take(k + 1).drop_last() =~= files.take(k));
    } else {
        assert(files.take(k) =~= files);
    }
}

/// A file below one mebibyte counts as one small file, and any other by its bytes.
pub proof fn law_what_counts_as_small(files: Seq<EntryView>, e: EntryView)
    ensures
        small_count(Seq::empty()) == 0,
        big_bytes(Seq::empty()) == 0,
        e.size < 1_048_576 ==> small_count(files.push(e)) == small_count(files) + 1 && big_bytes(
            files.push(e),
        ) == big_bytes(files),
        e.size >= 1_048_576 ==> small_count(files.push(e)) == small_count(files) && big_bytes(
            files.push(e),
        ) == big_bytes(files) + e.size,
{
    assert(files.push(e).drop_last() =~= files);
}

/// To take up a large file changes nothing of what is left: its bytes move from those ahead to
/// those in flight. A small one leaves the bytes alone and is one file less. What was left of
/// the file before it no longer counts.
pub proof fn law_taking_up_a_file(m: EtaModel, size: u64)
    ensures
        size >= 1_048_576 && size <= m.big_left ==> m.started(size).big_remaining() == m.big_left
            && m.started(size).small_left == m.small_left,
        size >= 1_048_576 && size <= m.big_left && m.cur_big <= m.cur_big_done ==> m.started(
            size,
        ).big_remaining() == m.big_remaining(),
        size >= 1_048_576 ==> m.started(size).big_left + size == m.big_left || size > m.big_left,
        size < 1_048_576 ==> m.started(size).big_remaining() == m.big_left,
        size < 1_048_576 && m.small_left > 0 ==> m.started(size).small_left == m.small_left - 1,
        m.started(size).win_small == m.win_small,
        m.started(size).win_big == m.win_big,
{
}

/// What became of some bytes of the file in flight.
pub enum Moved {
    Wrote(u64),
    Carried(u64),
}

impl Moved {
    pub open spec fn bytes(self) -> nat {
        match self {
            Moved::Wrote(n) => n as nat,
            Moved::Carried(n) => n as nat,
        }
    }
}

/// How many bytes that makes together.
pub open spec fn all_bytes(steps: Seq<Moved>) -> nat
    decreases steps.len(),
{
    if steps.len() == 0 {
        0
    } else {
        all_bytes(steps.drop_last()) + steps.last().bytes()
    }
}

/// How many of them were written.
pub open spec fn bytes_written(steps: Seq<Moved>) -> nat
    decreases steps.len(),
{
    if steps.len() == 0 {
        0
    } else {
        bytes_written(steps.drop_last()) + (match steps.last() {
            Moved::Wrote(n) => n as nat,
            Moved::Carried(_) => 0nat,
        })
    }
}

/// The model after all that.
pub open spec fn moved(m: EtaModel, steps: Seq<Moved>) -> EtaModel
    decreases steps.len(),
{
    if steps.len() == 0 {
        m
    } else {
        match steps.last() {
            Moved::Wrote(n) => moved(m, steps.drop_last()).written(n),
            Moved::Carried(n) => moved(m, steps.drop_last()).spared(n),
        }
    }
}

proof fn lemma_moved(m: EtaModel, steps: Seq<Moved>)
    requires
        m.cur_big_done == 0,
        all_bytes(steps) <= u64::MAX,
        m.win_big + bytes_written(steps) <= u64::MAX,
    ensures
        m.cur_big > 0 ==> moved(m, steps) == (EtaModel {
            cur_big_done: all_bytes(steps) as u64,
            win_big: (m.win_big + bytes_written(steps)) as u64,
            ..m
        }),
        m.cur_big == 0 ==> moved(m, steps) == m,
    decreases steps.len(),
{
    if steps.len() > 0 {
        lemma_moved(m, steps.drop_last());
    }
}

/// What is left while a file is in flight, however its bytes are written or carried over: the
/// large files not yet taken up, in full, and of the one in flight, if it is large, its size
/// less what was written or carried of it. So nothing is left only once every byte of every
/// large file is accounted for.
pub proof fn law_what_is_left_while_a_file_is_in_flight(
    m: EtaModel,
    files: Seq<EntryView>,
    k: int,
    steps: Seq<Moved>,
)
    requires
        0 < k <= files.len(),
        m.small_left == small_count(files),
        big_bytes(files) <= u64::MAX,
        m.big_left == big_bytes(files),
        all_bytes(steps) <= u64::MAX,
        m.win_big + bytes_written(steps) <= u64::MAX,
    ensures
        ({
            let e = files[k - 1];
            let n = moved(m.after(files.take(k)), steps);
            let ahead = big_bytes(files) - big_bytes(files.take(k));
            &&& n.small_left == small_count(files) - small_count(files.take(k))
            &&& e.size < 1_048_576 ==> n.big_remaining() == ahead
            &&& e.size >= 1_048_576 && all_bytes(steps) <= e.size ==> n.big_remaining() == ahead
                + e.size - all_bytes(steps)
            &&& e.size >= 1_048_576 && all_bytes(steps) > e.size ==> n.big_remaining() == ahead
            &&& n.big_remaining() == 0 && e.size >= 1_048_576 ==> all_bytes(steps) >= e.size
            // What was written is what a sample will say; what was carried over is not in it.
            &&& e.size >= 1_048_576 ==> n.measured().big == Some(
                (m.win_big + bytes_written(steps)) as u64,
            )
        }),
{
    law_what_is_ahead(m, files, k);
    law_what_is_ahead(m, files, k - 1);
    lemma_counts_grow(files, k);
    let s = m.after(files.take(k));
    assert(files.take(k).drop_last() =~= files.take(k - 1));
    assert(files.take(k).last() == files[k - 1]);
    lemma_windows(m, files.take(k));
    lemma_moved(s, steps);
    assert(files.take(k) =~= files.take(k - 1).push(files[k - 1]));
    law_what_counts_as_small(files.take(k - 1), files[k - 1]);
}

/// To take up files measures nothing.
proof fn lemma_windows(m: EtaModel, files: Seq<EntryView>)
    ensures
        m.after(files).win_big == m.win_big,
        m.after(files).win_small == m.win_small,
    decreases files.len(),
{
    if files.len() > 0 {
        lemma_windows(m, files.drop_last());
    }
}

/// A file that is finished is no longer in flight; a small one was one measurement more, a
/// large one none. What lies ahead stays.
pub proof fn law_a_finished_file(m: EtaModel)
    ensures
        m.finished().big_remaining() == m.big_left,
        m.finished().small_left == m.small_left,
        m.finished().win_big == m.win_big,
        m.cur_is_small && m.win_small < u64::MAX ==> m.finished().win_small == m.win_small + 1,
        !m.cur_is_small ==> m.finished().win_small == m.win_small,
{
}

/// A sample is taken of a kind exactly while there is something to say of it: files finished
/// or a small one in flight, bytes written or a large one in flight.
pub proof fn law_what_a_sample_says(m: EtaModel)
    ensures
        m.measured().small == (if m.cur_is_small || m.win_small != 0 {
            Some(m.win_small)
        } else {
            None
        }),
        m.measured().big == (if m.cur_big != 0 || m.win_big != 0 {
            Some(m.win_big)
        } else {
            None
        }),
{
}

/// There is a total exactly when each kind is either all behind or has a time of its own; it is
/// then the sum of the two, and a kind that is behind adds nothing. What is left is told in any
/// case.
pub proof fn law_an_estimate_is_whole_or_none(m: EtaModel, small: Option<u64>, big: Option<u64>)
    ensures
        ({
            let p = m.estimated(small, big);
            let s = if m.small_left == 0 {
                0
            } else {
                small->0 as int
            };
            let b = if m.big_remaining() == 0 {
                0
            } else {
                big->0 as int
            };
            &&& p is Eta
            &&& p->Eta_small_left == m.small_left
            &&& p->big_bytes == m.big_remaining()
            &&& p->seconds is Some <==> (m.small_left == 0 || small is Some)
                && (m.big_remaining() == 0 || big is Some)
            &&& p->seconds is Some && s + b <= u64::MAX ==> p->seconds->0 == s + b
            &&& m.small_left > 0 ==> p->small_secs == small
            &&& m.big_remaining() > 0 ==> p->big_secs == big
        }),
{
}

/// At the start all of the job is ahead: every small file, and every byte of the large ones.
/// Nothing has been measured.
pub proof fn law_at_the_start_everything_is_ahead(files: Seq<EntryView>)
    requires
        small_count(files) <= u64::MAX,
        big_bytes(files) <= u64::MAX,
    ensures
        EtaModel::fresh(files).small_left == small_count(files),
        EtaModel::fresh(files).big_remaining() == big_bytes(files),
        EtaModel::fresh(files).win_small == 0 && EtaModel::fresh(files).win_big == 0,
{
}

/// Handing out a sample changes nothing of what is left, and what was handed out is not handed
/// out again.
pub proof fn law_a_sample_is_handed_out_once(m: EtaModel)
    ensures
        m.sampled().small_left == m.small_left,
        m.sampled().big_remaining() == m.big_remaining(),
        m.sampled().measured().small matches Some(n) ==> n == 0,
        m.sampled().measured().big matches Some(n) ==> n == 0,
        m.sampled().cur_is_small == m.cur_is_small && m.sampled().cur_big == m.cur_big,
{
}

} // verus!
