//! What a transfer is: its options, what it reports, and the questions it asks of names,
//! sizes and times before and between the copies.

use crate::journal::{DoneFile, DoneView, Mode};
use crate::path;
use crate::path::{separator, FullPath, FullView, Os, PartView, RelPath};
use crate::scan;
use crate::scan::{eq_ignore_ascii_case, Entry, EntryView, Manifest, ManifestView};
use crate::size::gigabytes;
use crate::sort;
use crate::sort::{sorted_positions, Ranked};
use crate::text;
use crate::text::{chars_of, has_prefix};
use vstd::hash_map::StringHashMap;
use vstd::prelude::*;

verus! {

/// What to do about a destination file that differs from the source.
#[derive(Clone, Copy, PartialEq, Eq, Structural, Debug)]
pub enum OnExists {
    /// Write the source over it.
    Replace,
    /// Leave it alone.
    Keep,
    /// Refuse the whole transfer before it starts.
    Fail,
}

impl Default for OnExists {
    fn default() -> (r: OnExists)
        ensures
            r is Replace,
    {
        OnExists::Replace
    }
}

pub struct Options {
    pub mode: Mode,
    pub on_exists: OnExists,
    /// Tells apart jobs that share a source path: two selections made in one folder.
    pub job_tag: Option<String>,
    pub verify: bool,
    pub paranoid: bool,
    pub dry_run: bool,
    /// Written into the session line, so that a resumed run is the same job.
    pub selection: Vec<String>,
    pub skip_caches: bool,
    pub skip_cloud: bool,
}

/// What a running transfer reports.
pub enum Progress {
    /// Before the first byte.
    Start,
    /// The folders at the destination are being created.
    Dirs { done: usize, total: usize },
    /// A file is in flight.
    File { rel: String },
    /// A prefix written earlier is being read back; the bytes found good so far.
    Checking { rel: String, bytes: u64 },
    /// More bytes have been written.
    Bytes(u64),
    /// Bytes of the job that need not be written.
    Skipped(u64),
    /// A whole file was found in place.
    FileSkipped,
    FileDone,
    /// Everything is proven; originals are being removed.
    DeletePhase { total: usize },
    Deleted,
    /// How many problems there are so far.
    Errors { total: usize },
    /// Time left, in seconds, for the small files and for the large ones.
    Eta {
        seconds: Option<u64>,
        small_left: u64,
        small_secs: Option<u64>,
        big_bytes: u64,
        big_secs: Option<u64>,
    },
}

#[verifier::ext_equal]
pub enum ProgressView {
    Start,
    Dirs { done: usize, total: usize },
    File { rel: Seq<char> },
    Checking { rel: Seq<char>, bytes: u64 },
    Bytes(u64),
    Skipped(u64),
    FileSkipped,
    FileDone,
    DeletePhase { total: usize },
    Deleted,
    Errors { total: usize },
    Eta {
        seconds: Option<u64>,
        small_left: u64,
        small_secs: Option<u64>,
        big_bytes: u64,
        big_secs: Option<u64>,
    },
}

impl View for Progress {
    type V = ProgressView;

    open spec fn view(&self) -> ProgressView {
        match *self {
            Progress::Start => ProgressView::Start,
            Progress::Dirs { done, total } => ProgressView::Dirs { done, total },
            Progress::File { rel } => ProgressView::File { rel: rel@ },
            Progress::Checking { rel, bytes } => ProgressView::Checking { rel: rel@, bytes },
            Progress::Bytes(n) => ProgressView::Bytes(n),
            Progress::Skipped(n) => ProgressView::Skipped(n),
            Progress::FileSkipped => ProgressView::FileSkipped,
            Progress::FileDone => ProgressView::FileDone,
            Progress::DeletePhase { total } => ProgressView::DeletePhase { total },
            Progress::Deleted => ProgressView::Deleted,
            Progress::Errors { total } => ProgressView::Errors { total },
            Progress::Eta { seconds, small_left, small_secs, big_bytes, big_secs } =>
                ProgressView::Eta { seconds, small_left, small_secs, big_bytes, big_secs },
        }
    }
}

// ── is it already there? ─────────────────────────────────────────────────────
/// What stands at a destination path.
#[derive(Clone, Copy, PartialEq, Eq, Structural, Debug)]
pub struct DestStat {
    pub is_file: bool,
    pub is_dir: bool,
    pub len: u64,
    /// Whole seconds: drives with a FAT file system cannot store finer.
    pub mtime: i64,
}

/// How far apart two times are.
pub open spec fn apart(a: int, b: int) -> int {
    if a >= b {
        a - b
    } else {
        b - a
    }
}

/// The destination holds a file of the same size and, within the two seconds that FAT rounds
/// by, the same modification time.
pub open spec fn matches_dest(st: Option<DestStat>, e: EntryView) -> bool {
    st matches Some(d) && d.is_file && d.len == e.size && apart(d.mtime as int, e.mtime as int) <= 2
}

pub fn matches_destination(st: &Option<DestStat>, e: &Entry) -> (r: bool)
    ensures
        r == matches_dest(*st, e@),
{
    match st {
        Some(d) => {
            let gap: i128 = d.mtime as i128 - e.mtime as i128;
            d.is_file && d.len == e.size && -2 <= gap && gap <= 2
        },
        None => false,
    }
}

/// The same and, in a paranoid run, both ends read and their bytes hash alike. `src` and
/// `dst` are the hashes, or nothing where an end could not be read.
pub open spec fn matches_deep(
    st: Option<DestStat>,
    e: EntryView,
    paranoid: bool,
    src: Option<u128>,
    dst: Option<u128>,
) -> bool {
    matches_dest(st, e) && (paranoid ==> src is Some && src == dst)
}

/// The two times differ by at most two seconds, or by a whole number of hours from one to
/// fourteen to within two seconds: FAT stores local time, so a change of clock or zone
/// shifts every stamp by whole hours.
pub open spec fn same_but_clock(a: int, b: int) -> bool {
    let gap = apart(a, b);
    ||| gap <= 2
    ||| exists|h: int| 1 <= h <= 14 && apart(gap, #[trigger] (h * 3600)) <= 2
}

/// The destination still holds what the journal says was copied there, and the source is
/// still what was copied, to the nanosecond. A record without nanoseconds proves nothing.
pub open spec fn settled(st: Option<DestStat>, e: EntryView, rec: DoneView) -> bool {
    &&& st is Some
    &&& st->0.len == rec.size
    &&& rec.size == e.size
    &&& rec.mtime == e.mtime
    &&& rec.mtime_ns != 0
    &&& rec.mtime_ns == e.mtime_ns
    &&& same_but_clock(st->0.mtime as int, rec.mtime as int)
}

fn is_same_but_clock(a: i64, b: i64) -> (r: bool)
    ensures
        r == same_but_clock(a as int, b as int),
{
    let gap: i128 = if a >= b {
        a as i128 - b as i128
    } else {
        b as i128 - a as i128
    };
    if gap <= 2 {
        return true;
    }
    let nearest: i128 = ((gap + 1800) / 3600) * 3600;
    let off: i128 = if gap >= nearest {
        gap - nearest
    } else {
        nearest - gap
    };
    let r = nearest >= 3600 && nearest <= 50_400 && off <= 2;
    proof {
        let h = (gap + 1800) / 3600;
        if r {
            assert(1 <= h <= 14 && apart(gap as int, h * 3600) <= 2);
        } else {
            assert forall|k: int| 1 <= k <= 14 && apart(gap as int, #[trigger] (k * 3600))
                <= 2 implies false by {
                assert(k == h);
            }
        }
    }
    r
}

/// Whether a file the journal calls done may be passed over, judged by size and times.
pub fn already_settled(st: &Option<DestStat>, e: &Entry, rec: &DoneFile) -> (r: bool)
    ensures
        r == settled(*st, e@, rec@),
{
    match st {
        Some(d) => d.len == rec.size && rec.size == e.size && rec.mtime == e.mtime && rec.mtime_ns
            != 0 && rec.mtime_ns == e.mtime_ns && is_same_but_clock(d.mtime, rec.mtime),
        None => false,
    }
}

/// What stands at the place of the `i`-th file, if it was looked at.
pub open spec fn stat_at(stats: Seq<Option<DestStat>>, i: int) -> Option<DestStat> {
    if 0 <= i < stats.len() {
        stats[i]
    } else {
        None
    }
}

/// Something stands there, and it is not what would be written.
pub open spec fn clashes(st: Option<DestStat>, e: EntryView) -> bool {
    st is Some && !matches_dest(st, e)
}

/// The paths of the first `n` files whose place is taken by something else, in order.
pub open spec fn conflicts_of(
    files: Seq<EntryView>,
    stats: Seq<Option<DestStat>>,
    n: int,
) -> Seq<Seq<Seq<u8>>>
    decreases n,
{
    if n <= 0 {
        Seq::empty()
    } else {
        let init = conflicts_of(files, stats, n - 1);
        if clashes(stat_at(stats, n - 1), files[n - 1]) {
            init.push(files[n - 1].rel)
        } else {
            init
        }
    }
}

/// Destination files that exist and differ from what is about to be written.
pub fn conflicts(m: &Manifest, stats: &Vec<Option<DestStat>>) -> (r: Vec<RelPath>)
    ensures
        scan::rels(r@) == conflicts_of(m@.files, stats@, m@.files.len() as int),
{
    let mut r: Vec<RelPath> = Vec::new();
    let mut i: usize = 0;
    assert(scan::rels(r@) =~= Seq::empty());
    while i < m.files.len()
        invariant
            i <= m.files.len(),
            scan::rels(r@) == conflicts_of(m@.files, stats@, i as int),
        decreases m.files.len() - i,
    {
        let st: Option<DestStat> = if i < stats.len() {
            stats[i]
        } else {
            None
        };
        assert(m@.files[i as int] == m.files@[i as int]@);
        if st.is_some() && !matches_destination(&st, &m.files[i]) {
            let ghost before = scan::rels(r@);
            r.push(m.files[i].rel.copy());
            assert(scan::rels(r@) =~= before.push(m@.files[i as int].rel));
        }
        i += 1;
    }
    r
}

/// The bytes among the first `n` files that the destination does not hold yet.
pub open spec fn needed(files: Seq<EntryView>, stats: Seq<Option<DestStat>>, n: int) -> nat
    decreases n,
{
    if n <= 0 {
        0
    } else {
        let init = needed(files, stats, n - 1);
        if matches_dest(stat_at(stats, n - 1), files[n - 1]) {
            init
        } else {
            init + files[n - 1].size as nat
        }
    }
}

/// What this transfer still has to write: the total without everything already in place. A
/// sum beyond 64 bits reads as the largest there is.
pub fn bytes_still_needed(m: &Manifest, stats: &Vec<Option<DestStat>>) -> (r: u64)
    ensures
        r == scan::clamp(needed(m@.files, stats@, m@.files.len() as int)),
{
    let mut r: u64 = 0;
    let mut i: usize = 0;
    while i < m.files.len()
        invariant
            i <= m.files.len(),
            r == scan::clamp(needed(m@.files, stats@, i as int)),
        decreases m.files.len() - i,
    {
        let st: Option<DestStat> = if i < stats.len() {
            stats[i]
        } else {
            None
        };
        assert(m@.files[i as int] == m.files@[i as int]@);
        if !matches_destination(&st, &m.files[i]) {
            r = r.saturating_add(m.files[i].size);
        }
        i += 1;
    }
    r
}

/// Nothing beyond the total is ever needed, and all of it where the destination is empty.
pub proof fn law_needed_is_part_of_the_total(
    files: Seq<EntryView>,
    stats: Seq<Option<DestStat>>,
    n: int,
)
    requires
        0 <= n <= files.len(),
    ensures
        needed(files, stats, n) <= scan::total_size(files.take(n)),
        (forall|i: int| 0 <= i < stats.len() ==> #[trigger] stats[i] is None) ==> needed(
            files,
            stats,
            n,
        ) == scan::total_size(files.take(n)),
    decreases n,
{
    if n > 0 {
        law_needed_is_part_of_the_total(files, stats, n - 1);
        assert(files.take(n).drop_last() =~= files.take(n - 1));
        assert(files.take(n).last() == files[n - 1]);
    }
}

// ── may the pair be served at all? ───────────────────────────────────────────
/// What is known of a source and a destination before anything is written.
pub struct PathFacts {
    /// Keys of the two, resolved as far as they exist.
    pub src_key: String,
    pub dst_key: String,
    /// Both exist and are the same file.
    pub same_file: bool,
    /// A marker put into the source showed up in the destination.
    pub probed: bool,
    /// Some folder above the destination is the source.
    pub inside: bool,
}

#[verifier::ext_equal]
pub struct FactsView {
    pub src_key: Seq<char>,
    pub dst_key: Seq<char>,
    pub same_file: bool,
    pub probed: bool,
    pub inside: bool,
}

impl View for PathFacts {
    type V = FactsView;

    open spec fn view(&self) -> FactsView {
        FactsView {
            src_key: self.src_key@,
            dst_key: self.dst_key@,
            same_file: self.same_file,
            probed: self.probed,
            inside: self.inside,
        }
    }
}

impl FactsView {
    /// Source and destination are one place.
    pub open spec fn one_place(self) -> bool {
        self.src_key == self.dst_key || self.same_file || self.probed
    }

    /// The destination lies below the source.
    pub open spec fn below(self, os: Os) -> bool {
        self.src_key.push(path::sep(os)).is_prefix_of(self.dst_key) || self.inside
    }

    /// Why the pair is refused, if it is.
    pub open spec fn refusal(self, mode: Mode, os: Os) -> Option<Seq<char>> {
        if self.one_place() {
            Some(
                if mode is Move {
                    "source and destination are the same path — a move would delete the only copy"@
                } else {
                    "source and destination are the same path"@
                },
            )
        } else if self.below(os) {
            Some("destination is inside the source folder"@)
        } else {
            None
        }
    }
}

/// What kind of error ends a transfer.
#[derive(Clone, Copy, PartialEq, Eq, Structural, Debug)]
pub enum Kind {
    /// The job cannot be served as it was given.
    InvalidInput,
    /// Something stands in the way that was not to be replaced.
    AlreadyExists,
    /// Whatever the failure was that the transfer was told of.
    Passed,
}

/// Why something is refused.
#[derive(Debug)]
pub struct Refusal {
    pub kind: Kind,
    pub why: String,
}

impl Refusal {
    /// The job cannot be served as it was given.
    pub open spec fn of_input(self, why: Seq<char>) -> bool {
        self.kind == Kind::InvalidInput && self.why@ == why
    }
}

pub(crate) fn invalid(why: String) -> (e: Refusal)
    ensures
        e.of_input(why@),
{
    Refusal { kind: Kind::InvalidInput, why }
}

/// Refuses pairs that cannot be served safely: in a move onto itself the only copy would be
/// deleted, and a destination inside the source nests deeper with every run.
pub fn check_paths(facts: &PathFacts, mode: Mode, os: Os) -> (r: Result<(), Refusal>)
    ensures
        match facts@.refusal(mode, os) {
            Some(why) => r is Err && r->Err_0.of_input(why),
            None => r is Ok,
        },
{
    if facts.src_key == facts.dst_key || facts.same_file || facts.probed {
        return Err(
            invalid(
                match mode {
                    Mode::Move => String::from_str(
                        "source and destination are the same path — a move would delete the only copy",
                    ),
                    Mode::Copy => String::from_str("source and destination are the same path"),
                },
            ),
        );
    }
    let mut p = chars_of(facts.src_key.as_str());
    p.push(separator(os));
    if has_prefix(&chars_of(facts.dst_key.as_str()), &p) || facts.inside {
        return Err(invalid(String::from_str("destination is inside the source folder")));
    }
    Ok(())
}

// ── can the names land there? ────────────────────────────────────────────────
/// What `str::to_lowercase` makes of this text.
pub uninterp spec fn lower_text(s: Seq<char>) -> Seq<char>;

/// `str::to_lowercase`: a function of the characters alone. Which lower-case form each
/// character has stays unsaid.
#[verifier::external_body]
pub(crate) fn lower(s: &str) -> (r: String)
    ensures
        r@ == lower_text(s@),
{
    s.to_lowercase()
}

/// The position of the first `c` in `s`, or the length of `s`.
pub open spec fn first_index(s: Seq<char>, c: char) -> int
    decreases s.len(),
{
    if s.len() == 0 || s[0] == c {
        0
    } else {
        1 + first_index(s.drop_first(), c)
    }
}

/// The part of a name before its first dot.
pub open spec fn stem(name: Seq<char>) -> Seq<char> {
    name.take(first_index(name, '.'))
}

/// Device names of Windows: a file so named opens the device.
pub open spec fn reserved_stems() -> Seq<Seq<char>> {
    seq![
        "CON"@,
        "PRN"@,
        "AUX"@,
        "NUL"@,
        "COM1"@,
        "COM2"@,
        "COM3"@,
        "COM4"@,
        "COM5"@,
        "COM6"@,
        "COM7"@,
        "COM8"@,
        "COM9"@,
        "LPT1"@,
        "LPT2"@,
        "LPT3"@,
        "LPT4"@,
        "LPT5"@,
        "LPT6"@,
        "LPT7"@,
        "LPT8"@,
        "LPT9"@,
    ]
}

pub open spec fn is_reserved(name: Seq<char>) -> bool {
    exists|i: int|
        0 <= i < reserved_stems().len() && scan::same_but_case(
            #[trigger] reserved_stems()[i],
            stem(name),
        )
}

/// Why Windows cannot hold a component of this name, if it cannot.
pub open spec fn windows_objection(name: Seq<char>) -> Option<Seq<char>> {
    if is_reserved(name) {
        Some("a reserved device name"@)
    } else if name.contains(':') {
        Some("':' names an NTFS alternate data stream"@)
    } else if name.len() > 0 && (name.last() == '.' || name.last() == ' ') {
        Some("Windows strips trailing dots and spaces"@)
    } else {
        None
    }
}

proof fn lemma_first_index(s: Seq<char>, c: char)
    ensures
        0 <= first_index(s, c) <= s.len(),
    decreases s.len(),
{
    if s.len() > 0 && s[0] != c {
        lemma_first_index(s.drop_first(), c);
    }
}

fn stem_of(name: &Vec<char>) -> (r: String)
    ensures
        r@ == stem(name@),
{
    let mut i: usize = 0;
    let mut s = String::new();
    assert(name@.skip(0) =~= name@);
    proof {
        lemma_first_index(name@, '.');
    }
    while i < name.len() && name[i] != '.'
        invariant
            i <= name.len(),
            s@ == name@.take(i as int),
            first_index(name@, '.') == i + first_index(name@.skip(i as int), '.'),
        decreases name.len() - i,
    {
        s.push(name[i]);
        assert(name@.skip(i as int).drop_first() =~= name@.skip(i + 1));
        assert(s@ =~= name@.take(i + 1));
        i += 1;
    }
    s
}

fn among(s: &str, list: &Vec<String>) -> (r: bool)
    ensures
        r == exists|i: int|
            0 <= i < list.len() && scan::same_but_case(#[trigger] text::texts(list@)[i], s@),
{
    let mut i: usize = 0;
    while i < list.len()
        invariant
            i <= list.len(),
            forall|k: int|
                0 <= k < i ==> !scan::same_but_case(#[trigger] text::texts(list@)[k], s@),
        decreases list.len() - i,
    {
        if eq_ignore_ascii_case(list[i].as_str(), s) {
            assert(scan::same_but_case(text::texts(list@)[i as int], s@));
            return true;
        }
        i += 1;
    }
    false
}

fn reserved_list() -> (v: Vec<String>)
    ensures
        text::texts(v@) == reserved_stems(),
{
    let mut v: Vec<String> = Vec::new();
    v.push(String::from_str("CON"));
    v.push(String::from_str("PRN"));
    v.push(String::from_str("AUX"));
    v.push(String::from_str("NUL"));
    v.push(String::from_str("COM1"));
    v.push(String::from_str("COM2"));
    v.push(String::from_str("COM3"));
    v.push(String::from_str("COM4"));
    v.push(String::from_str("COM5"));
    v.push(String::from_str("COM6"));
    v.push(String::from_str("COM7"));
    v.push(String::from_str("COM8"));
    v.push(String::from_str("COM9"));
    v.push(String::from_str("LPT1"));
    v.push(String::from_str("LPT2"));
    v.push(String::from_str("LPT3"));
    v.push(String::from_str("LPT4"));
    v.push(String::from_str("LPT5"));
    v.push(String::from_str("LPT6"));
    v.push(String::from_str("LPT7"));
    v.push(String::from_str("LPT8"));
    v.push(String::from_str("LPT9"));
    assert(text::texts(v@) =~= reserved_stems());
    v
}

/// What Windows has against a component of this name.
pub fn objection(name: &str) -> (r: Option<String>)
    ensures
        match windows_objection(name@) {
            Some(why) => r is Some && r->0@ == why,
            None => r is None,
        },
{
    let cs = chars_of(name);
    let st = stem_of(&cs);
    if among(st.as_str(), &reserved_list()) {
        return Some(String::from_str("a reserved device name"));
    }
    let mut i: usize = 0;
    while i < cs.len()
        invariant
            i <= cs.len(),
            cs@ == name@,
            !is_reserved(name@),
            forall|k: int| 0 <= k < i ==> cs@[k] != ':',
        decreases cs.len() - i,
    {
        if cs[i] == ':' {
            assert(cs@[i as int] == ':');
            return Some(String::from_str("':' names an NTFS alternate data stream"));
        }
        i += 1;
    }
    if cs.len() > 0 && (cs[cs.len() - 1] == '.' || cs[cs.len() - 1] == ' ') {
        return Some(String::from_str("Windows strips trailing dots and spaces"));
    }
    None
}

/// The first component of a path that Windows cannot hold, at or after the `i`-th.
pub open spec fn part_objection(rel: Seq<Seq<u8>>, i: int) -> Option<Seq<char>>
    decreases rel.len() - i,
{
    if i < 0 || i >= rel.len() {
        None
    } else {
        match windows_objection(path::lossy_text(rel[i])) {
            Some(why) => Some(why),
            None => part_objection(rel, i + 1),
        }
    }
}

/// The refusal for the first file, at or after the `i`-th, that Windows cannot hold.
pub open spec fn windows_refusal(files: Seq<EntryView>, i: int) -> Option<Seq<char>>
    decreases files.len() - i,
{
    if i < 0 || i >= files.len() {
        None
    } else {
        match part_objection(files[i].rel, 0) {
            Some(why) => Some(
                "\""@ + path::rel_text(files[i].rel, Os::Windows)
                    + "\" cannot be written on Windows ("@ + why + "). Rename it and run again."@,
            ),
            None => windows_refusal(files, i + 1),
        }
    }
}

fn rel_objection(rel: &RelPath) -> (r: Option<String>)
    ensures
        match part_objection(rel@, 0) {
            Some(why) => r is Some && r->0@ == why,
            None => r is None,
        },
{
    let mut i: usize = 0;
    while i < rel.parts.len()
        invariant
            i <= rel.parts.len(),
            part_objection(rel@, 0) == part_objection(rel@, i as int),
        decreases rel.parts.len() - i,
    {
        let name = path::lossy(rel.parts[i].as_slice());
        assert(rel@[i as int] == rel.parts@[i as int]@);
        let o = objection(name.as_str());
        if o.is_some() {
            return o;
        }
        i += 1;
    }
    None
}

/// Refuses a manifest that holds a name Windows cannot write.
pub fn check_windows_names(m: &Manifest) -> (r: Result<(), Refusal>)
    ensures
        match windows_refusal(m@.files, 0) {
            Some(why) => r is Err && r->Err_0.of_input(why),
            None => r is Ok,
        },
{
    let mut i: usize = 0;
    while i < m.files.len()
        invariant
            i <= m.files.len(),
            windows_refusal(m@.files, 0) == windows_refusal(m@.files, i as int),
        decreases m.files.len() - i,
    {
        assert(m@.files[i as int] == m.files@[i as int]@);
        if let Some(why) = rel_objection(&m.files[i].rel) {
            let mut s = String::from_str("\"");
            s.append(m.files[i].rel.text(Os::Windows).as_str());
            s.append("\" cannot be written on Windows (");
            s.append(why.as_str());
            s.append("). Rename it and run again.");
            return Err(invalid(s));
        }
        i += 1;
    }
    Ok(())
}

/// Every path the job will create: folders, then files.
pub open spec fn all_rels(m: ManifestView) -> Seq<Seq<Seq<u8>>> {
    m.dirs + m.files.map_values(|e: EntryView| e.rel)
}

/// A path as a drive that ignores case sees it.
pub open spec fn folded_rel(rel: Seq<Seq<u8>>, os: Os) -> Seq<char> {
    lower_text(path::rel_text(rel, os))
}

/// Paths `j` and `i` are one on such a drive, and before `i` there is no other such pair.
pub open spec fn first_collision(all: Seq<Seq<Seq<u8>>>, os: Os, j: int, i: int) -> bool {
    &&& 0 <= j < i < all.len()
    &&& folded_rel(all[j], os) == folded_rel(all[i], os)
    &&& distinct_upto(all, os, i)
}

/// The first `n` paths stay apart on a drive that ignores case.
pub open spec fn distinct_upto(all: Seq<Seq<Seq<u8>>>, os: Os, n: int) -> bool {
    forall|a: int, b: int|
        #![trigger all[a], all[b]]
        0 <= a < b < n ==> folded_rel(all[a], os) != folded_rel(all[b], os)
}

pub open spec fn collision_text(all: Seq<Seq<Seq<u8>>>, os: Os, j: int, i: int) -> Seq<char> {
    "\""@ + path::rel_text(all[j], os) + "\" and \""@ + path::rel_text(all[i], os)
        + "\" are the same name on this drive's filesystem — copying both would leave only one. Rename one and run again."@
}

/// What is said of the first two paths that are one on a drive that ignores case.
pub open spec fn collision(all: Seq<Seq<Seq<u8>>>, os: Os) -> Seq<char> {
    let (j, i) = choose|j: int, i: int| first_collision(all, os, j, i);
    collision_text(all, os, j, i)
}

/// There is only one first collision.
proof fn lemma_collision(all: Seq<Seq<Seq<u8>>>, os: Os, j: int, i: int)
    requires
        first_collision(all, os, j, i),
    ensures
        collision(all, os) == collision_text(all, os, j, i),
{
    let (b, a) = choose|b: int, a: int| first_collision(all, os, b, a);
    assert(first_collision(all, os, b, a));
    if a < i {
        assert(folded_rel(all[b], os) != folded_rel(all[a], os));
    } else if i < a {
        assert(folded_rel(all[j], os) != folded_rel(all[i], os));
    } else if b < j {
        assert(folded_rel(all[b], os) != folded_rel(all[j], os));
    } else if j < b {
        assert(folded_rel(all[j], os) != folded_rel(all[b], os));
    }
}

fn rel_at(m: &Manifest, i: u128) -> (r: &RelPath)
    requires
        i < m@.dirs.len() + m@.files.len(),
    ensures
        r@ == all_rels(m@)[i as int],
{
    let n = m.dirs.len() as u128;
    if i < n {
        &m.dirs[i as usize]
    } else {
        assert(i - n < m.files.len());
        let k: usize = (i - n) as usize;
        assert(all_rels(m@)[i as int] == m@.files[k as int].rel);
        &m.files[k].rel
    }
}

/// Refuses a manifest of which two paths are one on a drive that ignores case: the second
/// copy would replace the first, and a move would then delete both originals.
pub fn check_collisions(m: &Manifest, os: Os) -> (r: Result<(), Refusal>)
    ensures
        r is Ok <==> distinct_upto(all_rels(m@), os, all_rels(m@).len() as int),
        r matches Err(e) ==> e.of_input(collision(all_rels(m@), os)),
{
    let ghost all = all_rels(m@);
    let mut seen: StringHashMap<u128> = StringHashMap::new();
    let n: u128 = m.dirs.len() as u128;
    let k: u128 = m.files.len() as u128;
    let total: u128 = n + k;
    let mut i: u128 = 0;
    while i < total
        invariant
            total == n + k,
            n == m@.dirs.len(),
            k == m@.files.len(),
            all == all_rels(m@),
            i <= all.len(),
            all.len() == n + k,
            distinct_upto(all, os, i as int),
            forall|s: Seq<char>| #[trigger]
                seen@.dom().contains(s) ==> seen@[s] < i && folded_rel(
                    all[seen@[s] as int],
                    os,
                ) == s,
            forall|a: int| 0 <= a < i ==> seen@.dom().contains(folded_rel(#[trigger] all[a], os)),
        decreases all.len() - i,
    {
        let rel = rel_at(m, i);
        let key = lower(rel.text(os).as_str());
        if let Some(j) = seen.get(key.as_str()) {
            let j: u128 = *j;
            let first = rel_at(m, j);
            let mut s = String::from_str("\"");
            s.append(first.text(os).as_str());
            s.append("\" and \"");
            s.append(rel.text(os).as_str());
            s.append(
                "\" are the same name on this drive's filesystem — copying both would leave only one. Rename one and run again.",
            );
            proof {
                assert(first_collision(all, os, j as int, i as int));
                lemma_collision(all, os, j as int, i as int);
                assert(folded_rel(all[j as int], os) == folded_rel(all[i as int], os));
                assert(!distinct_upto(all, os, all.len() as int));
            }
            return Err(invalid(s));
        }
        seen.insert(key, i);
        assert(distinct_upto(all, os, i + 1)) by {
            assert forall|a: int, b: int|
                #![trigger all[a], all[b]]
                0 <= a < b < i + 1 implies folded_rel(all[a], os) != folded_rel(all[b], os) by {
                if b == i {
                    assert(seen@.dom().contains(folded_rel(all[a], os)));
                }
            }
        }
        i += 1;
    }
    Ok(())
}

/// The largest file a FAT drive can hold.
pub const FAT_MAX: u64 = 4_294_967_295;

/// The refusal for the first file, at or after the `i`-th, too large for a FAT drive.
pub open spec fn fat_refusal(files: Seq<EntryView>, i: int, os: Os) -> Option<Seq<char>>
    decreases files.len() - i,
{
    if i < 0 || i >= files.len() {
        None
    } else if files[i].size > FAT_MAX {
        Some(
            "\""@ + path::rel_text(files[i].rel, os) + "\" is "@ + crate::size::gigabytes_text(
                files[i].size,
            )
                + " GB, but this drive is formatted FAT32, which cannot hold any file of 4 GB or more. Reformat the drive as exFAT, or leave that file out."@,
        )
    } else {
        fat_refusal(files, i + 1, os)
    }
}

/// Refuses a file that a FAT drive cannot hold, before the drive does so an hour later.
pub fn check_fat_size_limit(m: &Manifest, os: Os) -> (r: Result<(), Refusal>)
    ensures
        match fat_refusal(m@.files, 0, os) {
            Some(why) => r is Err && r->Err_0.of_input(why),
            None => r is Ok,
        },
{
    let mut i: usize = 0;
    while i < m.files.len()
        invariant
            i <= m.files.len(),
            fat_refusal(m@.files, 0, os) == fat_refusal(m@.files, i as int, os),
        decreases m.files.len() - i,
    {
        assert(m@.files[i as int] == m.files@[i as int]@);
        if m.files[i].size > FAT_MAX {
            let mut s = String::from_str("\"");
            s.append(m.files[i].rel.text(os).as_str());
            s.append("\" is ");
            s.append(gigabytes(m.files[i].size).as_str());
            s.append(
                " GB, but this drive is formatted FAT32, which cannot hold any file of 4 GB or more. Reformat the drive as exFAT, or leave that file out.",
            );
            return Err(invalid(s));
        }
        i += 1;
    }
    Ok(())
}

// ── the barrier before anything is deleted ───────────────────────────────────
/// A folder of the tree, in path order.
struct Folder {
    rel: RelPath,
}

impl Ranked for Folder {
    closed spec fn before(&self, other: &Self) -> bool {
        path::path_before(self.rel@, other.rel@)
    }

    proof fn law_irreflexive(x: &Self) {
        path::lemma_path_irreflexive(x.rel@);
    }

    proof fn law_transitive(x: &Self, y: &Self, z: &Self) {
        path::lemma_path_transitive(x.rel@, y.rel@, z.rel@);
    }

    proof fn law_ties(x: &Self, y: &Self, z: &Self) {
        path::lemma_path_total(x.rel@, y.rel@);
        path::lemma_path_total(y.rel@, z.rel@);
        path::lemma_path_irreflexive(x.rel@);
        if z.before(x) && x.rel@ != y.rel@ && y.rel@ != z.rel@ {
            path::lemma_path_transitive(x.rel@, y.rel@, z.rel@);
            path::lemma_path_transitive(x.rel@, z.rel@, x.rel@);
        }
    }

    fn is_before(&self, other: &Self) -> (r: bool) {
        self.rel.is_before(&other.rel)
    }
}

/// The folder below the root that a file lies in; nothing for one that lies in the root.
pub open spec fn folder_of(rel: Seq<Seq<u8>>) -> Option<Seq<Seq<u8>>> {
    if rel.len() > 1 {
        Some(rel.drop_last())
    } else {
        None
    }
}

/// The folders below the root that hold files.
pub open spec fn folders(files: Seq<EntryView>) -> Set<Seq<Seq<u8>>> {
    Set::new(
        |d: Seq<Seq<u8>>|
            exists|i: int| 0 <= i < files.len() && folder_of((#[trigger] files[i]).rel) == Some(d),
    )
}

/// In path order, none twice.
pub open spec fn strictly_ordered(l: Seq<Seq<Seq<u8>>>) -> bool {
    forall|i: int, j: int|
        0 <= i < j < l.len() ==> path::path_before(#[trigger] l[i], #[trigger] l[j])
}

fn parent_rel(rel: &RelPath) -> (r: RelPath)
    requires
        rel@.len() > 0,
    ensures
        r@ == rel@.drop_last(),
{
    let mut r = rel.copy();
    assert(r.parts@.len() == rel@.len()) by {
        assert(path::names(r.parts@).len() == r@.len());
    }
    r.parts.pop();
    assert(r@ =~= rel@.drop_last());
    r
}

/// The folders below the root that hold files, in path order, each once.
pub fn touched_folders(m: &Manifest) -> (r: Vec<RelPath>)
    ensures
        strictly_ordered(scan::rels(r@)),
        scan::rels(r@).to_set() == folders(m@.files),
{
    let ghost files = m@.files;
    let mut all: Vec<Folder> = Vec::new();
    let mut i: usize = 0;
    while i < m.files.len()
        invariant
            i <= m.files.len(),
            files == m@.files,
            forall|k: int| 0 <= k < all@.len() ==> folders(files).contains((#[trigger] all@[k]).rel@),
            forall|k: int|
                0 <= k < i && folder_of((#[trigger] files[k]).rel) is Some ==> exists|j: int|
                    0 <= j < all@.len() && (#[trigger] all@[j]).rel@ == folder_of(files[k].rel)->0,
        decreases m.files.len() - i,
    {
        assert(files[i as int] == m.files@[i as int]@);
        let ghost before = all@;
        if m.files[i].rel.depth() > 1 {
            let f = Folder { rel: parent_rel(&m.files[i].rel) };
            assert(folder_of(files[i as int].rel) == Some(f.rel@));
            all.push(f);
            assert(all@[before.len() as int] == f);
        }
        proof {
            assert forall|k: int|
                0 <= k < i + 1 && folder_of((#[trigger] files[k]).rel) is Some implies exists|j: int|
                0 <= j < all@.len() && (#[trigger] all@[j]).rel@ == folder_of(files[k].rel)->0 by {
                if k < i {
                    let j = choose|j: int|
                        0 <= j < before.len() && (#[trigger] before[j]).rel@ == folder_of(
                            files[k].rel,
                        )->0;
                    assert(all@[j] == before[j]);
                }
            }
        }
        i += 1;
    }
    let ghost given = all@;
    let p = sorted_positions(&all);
    let mut r: Vec<RelPath> = Vec::new();
    let mut k: usize = 0;
    while k < p.len()
        invariant
            k <= p.len(),
            all@ == given,
            sort::orders(given, p@, 0, given.len() as int),
            forall|j: int| 0 <= j < given.len() ==> folders(files).contains((#[trigger] given[j]).rel@),
            strictly_ordered(scan::rels(r@)),
            r@.len() > 0 ==> k > 0 && r@.last()@ == given[p@[k - 1] as int].rel@,
            r@.len() == 0 ==> k == 0,
            forall|x: int| 0 <= x < r@.len() ==> folders(files).contains((#[trigger] r@[x])@),
            forall|j: int|
                0 <= j < k ==> scan::rels(r@).contains((given[(#[trigger] p@[j]) as int]).rel@),
        decreases p.len() - k,
    {
        let ghost before = r@;
        let ghost rb = scan::rels(r@);
        let f = &all[p[k]];
        let ghost fv = f.rel@;
        assert(fv == given[p@[k as int] as int].rel@);
        let again = if r.len() > 0 {
            r[r.len() - 1].is_same(&f.rel)
        } else {
            false
        };
        if !again {
            let c = f.rel.copy();
            r.push(c);
            assert(scan::rels(r@) =~= rb.push(fv));
            proof {
                if before.len() > 0 {
                    let last = rb.last();
                    assert(sort::precedes(given, p@[k - 1] as int, p@[k as int] as int));
                    path::lemma_path_total(last, fv);
                    assert(path::path_before(last, fv));
                    assert forall|a: int, b: int| 0 <= a < b < r@.len() implies path::path_before(
                        #[trigger] scan::rels(r@)[a],
                        #[trigger] scan::rels(r@)[b],
                    ) by {
                        if b == before.len() && a < before.len() - 1 {
                            assert(path::path_before(rb[a], rb[before.len() - 1]));
                            path::lemma_path_transitive(rb[a], last, fv);
                        }
                    }
                }
            }
        }
        proof {
            assert forall|j: int| 0 <= j < k + 1 implies scan::rels(r@).contains(
                (given[(#[trigger] p@[j]) as int]).rel@,
            ) by {
                if j < k {
                    let x = given[p@[j] as int].rel@;
                    assert(rb.contains(x));
                    let a = choose|a: int| 0 <= a < rb.len() && rb[a] == x;
                    assert(scan::rels(r@)[a] == x);
                } else {
                    let last = r@.len() - 1;
                    assert(scan::rels(r@)[last] == fv);
                }
            }
        }
        k += 1;
    }
    proof {
        let l = scan::rels(r@);
        assert forall|d: Seq<Seq<u8>>| l.to_set().contains(d) == folders(files).contains(d) by {
            if l.contains(d) {
                let a = choose|a: int| 0 <= a < l.len() && l[a] == d;
                assert(l[a] == r@[a]@);
            }
            if folders(files).contains(d) {
                let i = choose|i: int|
                    0 <= i < files.len() && folder_of((#[trigger] files[i]).rel) == Some(d);
                let j = choose|j: int|
                    0 <= j < given.len() && (#[trigger] given[j]).rel@ == folder_of(files[i].rel)->0;
                lemma_position(given, p@, j);
                let k = choose|k: int| 0 <= k < p@.len() && p@[k] == j;
                assert(l.contains(given[p@[k] as int].rel@));
            }
        }
        assert(l.to_set() =~= folders(files));
    }
    r
}

/// Sorted positions leave none out.
proof fn lemma_position(items: Seq<Folder>, p: Seq<usize>, j: int)
    requires
        sort::orders(items, p, 0, items.len() as int),
        0 <= j < items.len(),
    ensures
        exists|k: int| 0 <= k < p.len() && p[k] == j,
{
    sort::lemma_orders_distinct(items, p, 0, items.len() as int);
    sort::lemma_all_positions(p, items.len() as int, j);
}

/// The folder that pins down the name of what was written: the destination itself, or, where the
/// destination is the file, the folder it lies in.
pub open spec fn root_to_sync(dst: FullView, is_dir: bool) -> FullView {
    match dst.parent() {
        Some(p) => if is_dir || (p.prefix.len() == 0 && !p.rooted && p.parts.len() == 0) {
            dst
        } else {
            p
        },
        None => dst,
    }
}

/// `dst` with the folder `rel` below it.
pub open spec fn below_dst(dst: FullView, rel: Seq<Seq<u8>>) -> FullView {
    FullView { parts: dst.parts + rel.map_values(|n: Seq<u8>| PartView::Name(n)), ..dst }
}

fn join_all(dst: &FullPath, rel: &RelPath) -> (r: FullPath)
    ensures
        r@ == below_dst(dst@, rel@),
{
    let mut r = dst.copy();
    let mut i: usize = 0;
    assert(r@ =~= below_dst(dst@, rel@.take(0)));
    while i < rel.parts.len()
        invariant
            i <= rel.parts.len(),
            r@ == below_dst(dst@, rel@.take(i as int)),
        decreases rel.parts.len() - i,
    {
        let next = r.join(rel.parts[i].as_slice());
        assert(rel@[i as int] == rel.parts@[i as int]@);
        assert(rel@.take(i + 1) =~= rel@.take(i as int).push(rel@[i as int]));
        assert(next@ =~= below_dst(dst@, rel@.take(i + 1)));
        r = next;
        i += 1;
    }
    assert(rel@.take(i as int) =~= rel@);
    r
}

/// The folders to flush, in order: the one of the destination, and every one below it that
/// holds files.
pub fn sync_destination(dst: &FullPath, dst_is_dir: bool, m: &Manifest) -> (r: Vec<FullPath>)
    ensures
        r@.len() > 0,
        r@[0]@ == root_to_sync(dst@, dst_is_dir),
        exists|l: Seq<Seq<Seq<u8>>>|
            strictly_ordered(l) && l.to_set() == folders(m@.files) && r@.len() == l.len() + 1
                && forall|i: int|
                0 <= i < l.len() ==> (#[trigger] r@[i + 1])@ == below_dst(dst@, l[i]),
{
    let base = if dst_is_dir {
        dst.copy()
    } else {
        match dst.parent() {
            Some(p) => {
                assert(p@.parts.len() == p.parts@.len());
                if p.prefix.len() == 0 && !p.rooted && p.parts.len() == 0 {
                    dst.copy()
                } else {
                    p
                }
            },
            None => dst.copy(),
        }
    };
    let rels = touched_folders(m);
    let mut r: Vec<FullPath> = Vec::new();
    r.push(base);
    let mut i: usize = 0;
    while i < rels.len()
        invariant
            i <= rels.len(),
            r@.len() == i + 1,
            r@[0]@ == root_to_sync(dst@, dst_is_dir),
            forall|k: int|
                0 <= k < i ==> (#[trigger] r@[k + 1])@ == below_dst(dst@, scan::rels(rels@)[k]),
        decreases rels.len() - i,
    {
        let ghost before = r@;
        r.push(join_all(dst, &rels[i]));
        assert(forall|k: int| 0 <= k < before.len() ==> r@[k] == before[k]);
        i += 1;
    }
    assert(strictly_ordered(scan::rels(rels@)));
    r
}

/// Every folder that a file of the job lies in is flushed before an original goes.
pub proof fn law_every_written_folder_is_flushed(files: Seq<EntryView>, i: int)
    requires
        0 <= i < files.len(),
        files[i].rel.len() > 1,
    ensures
        folders(files).contains(files[i].rel.drop_last()),
{
    assert(folder_of(files[i].rel) == Some(files[i].rel.drop_last()));
}

// ── times of files ───────────────────────────────────────────────────────────
/// The seconds from 1601, with which the file times of Windows begin, to 1970.
pub const SINCE_1601: i64 = 11_644_473_600;

/// Ticks in a second: each is a hundred nanoseconds.
pub const TICKS: u64 = 10_000_000;

/// The ticks that a file time of Windows counts at this second.
pub open spec fn ticks_at(mtime: int) -> int {
    (mtime + SINCE_1601) * TICKS
}

/// The second can be stored as a file time of Windows.
pub open spec fn fits_ticks(mtime: int) -> bool {
    -SINCE_1601 <= mtime && ticks_at(mtime) <= u64::MAX
}

/// A file time of Windows, as its low and its high half.
pub fn file_time(mtime: i64) -> (r: (u32, u32))
    requires
        -SINCE_1601 <= mtime,
        (mtime + SINCE_1601) * TICKS <= u64::MAX,
    ensures
        r.0 + r.1 * 0x1_0000_0000 == ticks_at(mtime as int),
{
    assert(mtime + SINCE_1601 <= 1_844_674_407_370) by (nonlinear_arith)
        requires
            (mtime + SINCE_1601) * TICKS <= u64::MAX,
            TICKS == 10_000_000,
    ;
    let ticks: u64 = (mtime + SINCE_1601) as u64 * TICKS;
    ((ticks % 0x1_0000_0000) as u32, (ticks / 0x1_0000_0000) as u32)
}

/// Whether a time can be stored as a file time of Windows.
pub fn has_file_time(mtime: i64) -> (r: bool)
    ensures
        r == fits_ticks(mtime as int),
{
    let since: i128 = mtime as i128 + SINCE_1601 as i128;
    assert((since * TICKS <= u64::MAX) == (since <= 1_844_674_407_370)) by (nonlinear_arith)
        requires
            TICKS == 10_000_000,
    ;
    since >= 0 && since <= 1_844_674_407_370
}

} // verus!
