//! Enumerating the source before the first byte is copied.
//!
//! The walk asks for one directory at a time. Whatever it is told about ends up in exactly
//! one of four lists: folders, files, things skipped with a reason, things left out by
//! choice.

use crate::engine::{invalid, Refusal};
use crate::path;
use crate::path::{lossy, RelPath};
use crate::sort;
use crate::sort::{reorder, sorted_positions, sort_stable, Ranked};
use crate::text;
use crate::text::chars_of;
use vstd::prelude::*;

verus! {

/// Equal, or the same ASCII letter in another case.
pub open spec fn same_letter(a: char, b: char) -> bool {
    a == b || ('A' <= a <= 'Z' && a as int + 32 == b as int) || ('A' <= b <= 'Z' && b as int + 32
        == a as int)
}

/// Equal but for the case of ASCII letters.
pub open spec fn same_but_case(a: Seq<char>, b: Seq<char>) -> bool {
    a.len() == b.len() && forall|i: int| 0 <= i < a.len() ==> same_letter(#[trigger] a[i], b[i])
}

/// `name` begins with `prefix`, but for the case of ASCII letters.
pub open spec fn begins_but_case(name: Seq<char>, prefix: Seq<char>) -> bool {
    prefix.len() <= name.len() && same_but_case(name.take(prefix.len() as int), prefix)
}

fn is_same_letter(a: char, b: char) -> (r: bool)
    ensures
        r == same_letter(a, b),
{
    let x = a as u32;
    let y = b as u32;
    x == y || (65 <= x && x <= 90 && x + 32 == y) || (65 <= y && y <= 90 && y + 32 == x)
}

/// Whether the first `n` characters of `a` are those of `b` but for the case of ASCII
/// letters.
fn heads_match(a: &Vec<char>, b: &Vec<char>, n: usize) -> (r: bool)
    requires
        n <= a.len(),
        n <= b.len(),
    ensures
        r == (forall|i: int| 0 <= i < n ==> same_letter(#[trigger] a@[i], b@[i])),
{
    let mut i: usize = 0;
    while i < n
        invariant
            i <= n <= a.len(),
            n <= b.len(),
            forall|k: int| 0 <= k < i ==> same_letter(#[trigger] a@[k], b@[k]),
        decreases n - i,
    {
        if !is_same_letter(a[i], b[i]) {
            assert(!same_letter(a@[i as int], b@[i as int]));
            return false;
        }
        i += 1;
    }
    true
}

pub fn eq_ignore_ascii_case(a: &str, b: &str) -> (r: bool)
    ensures
        r == same_but_case(a@, b@),
{
    let x = chars_of(a);
    let y = chars_of(b);
    x.len() == y.len() && heads_match(&x, &y, x.len())
}

pub fn starts_with_ignore_ascii_case(name: &str, prefix: &str) -> (r: bool)
    ensures
        r == begins_but_case(name@, prefix@),
{
    let x = chars_of(name);
    let y = chars_of(prefix);
    if y.len() > x.len() {
        return false;
    }
    let r = heads_match(&x, &y, y.len());
    proof {
        let t = name@.take(prefix@.len() as int);
        if r {
            assert forall|i: int| 0 <= i < t.len() implies same_letter(#[trigger] t[i], prefix@[i]) by {
                assert(same_letter(x@[i], y@[i]));
            }
        }
        if same_but_case(t, prefix@) {
            assert forall|i: int| 0 <= i < y.len() implies same_letter(#[trigger] x@[i], y@[i]) by {
                assert(same_letter(t[i], prefix@[i]));
            }
        }
    }
    r
}

/// Folder names that hold only what an application can rebuild. Nothing that may be the only
/// copy of somebody's data belongs here.
pub open spec fn cache_names() -> Seq<Seq<char>> {
    seq![
        "AppData"@,
        "node_modules"@,
        ".cache"@,
        "__pycache__"@,
        ".npm"@,
        ".nuget"@,
        ".gradle"@,
        ".m2"@,
        ".rustup"@,
        ".thumbnails"@,
        "$RECYCLE.BIN"@,
        "System Volume Information"@,
        "anaconda3"@,
        "miniconda3"@,
        ".conda"@,
        ".vscode"@,
        "Caches"@,
        "DerivedData"@,
        ".venv"@,
    ]
}

/// How the folders of cloud services begin; a work account adds its tenant's name.
pub open spec fn cloud_prefixes() -> Seq<Seq<char>> {
    seq!["OneDrive"@, "Dropbox"@, "Google Drive"@, "iCloud"@]
}

/// Names to leave out of a scan, compared with single path components, without regard to
/// the case of ASCII letters. What the user chose by hand is never held against it.
pub struct Filter {
    names: Vec<String>,
    prefixes: Vec<String>,
}

#[verifier::ext_equal]
pub struct FilterView {
    pub names: Seq<Seq<char>>,
    pub prefixes: Seq<Seq<char>>,
}

impl View for Filter {
    type V = FilterView;

    closed spec fn view(&self) -> FilterView {
        FilterView { names: text::texts(self.names@), prefixes: text::texts(self.prefixes@) }
    }
}

impl FilterView {
    /// A component of this name is left out.
    pub open spec fn excludes(self, name: Seq<u8>) -> bool {
        let text = path::lossy_text(name);
        ||| exists|i: int|
            0 <= i < self.names.len() && same_but_case(#[trigger] self.names[i], text)
        ||| exists|i: int|
            0 <= i < self.prefixes.len() && begins_but_case(text, #[trigger] self.prefixes[i])
    }

    /// Some component of this path is left out.
    pub open spec fn excludes_some(self, rel: Seq<Seq<u8>>) -> bool {
        exists|i: int| 0 <= i < rel.len() && self.excludes(#[trigger] rel[i])
    }
}

fn push_text(v: &mut Vec<String>, s: &str)
    ensures
        text::texts(final(v)@) == text::texts(old(v)@).push(s@),
{
    let ghost before = text::texts(v@);
    v.push(String::from_str(s));
    assert(text::texts(v@) =~= before.push(s@));
}

impl Filter {
    /// Leaves nothing out.
    pub fn none() -> (f: Filter)
        ensures
            f@ == (FilterView { names: Seq::empty(), prefixes: Seq::empty() }),
    {
        let f = Filter { names: Vec::new(), prefixes: Vec::new() };
        assert(f@.names =~= Seq::empty());
        assert(f@.prefixes =~= Seq::empty());
        f
    }

    /// Leaves out the rebuildable state of applications.
    pub fn caches() -> (f: Filter)
        ensures
            f@ == (FilterView { names: cache_names(), prefixes: Seq::empty() }),
    {
        let mut f = Filter::none();
        f.add("AppData");
        f.add("node_modules");
        f.add(".cache");
        f.add("__pycache__");
        f.add(".npm");
        f.add(".nuget");
        f.add(".gradle");
        f.add(".m2");
        f.add(".rustup");
        f.add(".thumbnails");
        f.add("$RECYCLE.BIN");
        f.add("System Volume Information");
        f.add("anaconda3");
        f.add("miniconda3");
        f.add(".conda");
        f.add(".vscode");
        f.add("Caches");
        f.add("DerivedData");
        f.add(".venv");
        assert(f@.names =~= cache_names());
        f
    }

    /// Leaves out every component of this name.
    pub fn add(&mut self, name: &str)
        ensures
            final(self)@ == (FilterView { names: old(self)@.names.push(name@), ..old(self)@ }),
    {
        push_text(&mut self.names, name);
    }

    /// Leaves out every component that begins so.
    pub fn add_prefix(&mut self, prefix: &str)
        ensures
            final(self)@ == (FilterView {
                prefixes: old(self)@.prefixes.push(prefix@),
                ..old(self)@
            }),
    {
        push_text(&mut self.prefixes, prefix);
    }

    /// Leaves out the folders of cloud services as well.
    pub fn add_cloud(&mut self)
        ensures
            final(self)@ == (FilterView {
                prefixes: old(self)@.prefixes + cloud_prefixes(),
                ..old(self)@
            }),
    {
        let ghost before = self@;
        self.add_prefix("OneDrive");
        self.add_prefix("Dropbox");
        self.add_prefix("Google Drive");
        self.add_prefix("iCloud");
        assert(self@.prefixes =~= before.prefixes + cloud_prefixes());
    }

    /// No whole name is left out. Prefixes do not count here.
    pub fn is_empty(&self) -> (r: bool)
        ensures
            r == (self@.names.len() == 0),
    {
        self.names.len() == 0
    }

    /// Whether a component of this name is left out.
    pub fn excludes(&self, name: &[u8]) -> (r: bool)
        ensures
            r == self@.excludes(name@),
    {
        if self.names.len() == 0 && self.prefixes.len() == 0 {
            return false;
        }
        let readable = lossy(name);
        let mut i: usize = 0;
        while i < self.names.len()
            invariant
                i <= self.names.len(),
                readable@ == path::lossy_text(name@),
                forall|k: int|
                    0 <= k < i ==> !same_but_case(#[trigger] self@.names[k], readable@),
            decreases self.names.len() - i,
        {
            if eq_ignore_ascii_case(self.names[i].as_str(), readable.as_str()) {
                assert(same_but_case(self@.names[i as int], readable@));
                return true;
            }
            i += 1;
        }
        let mut j: usize = 0;
        while j < self.prefixes.len()
            invariant
                j <= self.prefixes.len(),
                readable@ == path::lossy_text(name@),
                forall|k: int|
                    0 <= k < j ==> !begins_but_case(readable@, #[trigger] self@.prefixes[k]),
            decreases self.prefixes.len() - j,
        {
            if starts_with_ignore_ascii_case(readable.as_str(), self.prefixes[j].as_str()) {
                assert(begins_but_case(readable@, self@.prefixes[j as int]));
                return true;
            }
            j += 1;
        }
        false
    }

    /// Whether some component of this path would be left out.
    pub fn matches_path(&self, rel: &RelPath) -> (r: bool)
        ensures
            r == self@.excludes_some(rel@),
    {
        let mut i: usize = 0;
        while i < rel.parts.len()
            invariant
                i <= rel.parts.len(),
                forall|k: int| 0 <= k < i ==> !self@.excludes(#[trigger] rel@[k]),
            decreases rel.parts.len() - i,
        {
            if self.excludes(rel.parts[i].as_slice()) {
                assert(self@.excludes(rel@[i as int]));
                return true;
            }
            i += 1;
        }
        false
    }
}

// ── the manifest ─────────────────────────────────────────────────────────────
/// One regular file to copy.
pub struct Entry {
    /// Path below the scan root.
    pub rel: RelPath,
    pub size: u64,
    pub mtime: i64,
    /// Modification time in nanoseconds: seconds are too coarse to tell a source from one
    /// that was regenerated right after it.
    pub mtime_ns: i64,
}

#[verifier::ext_equal]
pub struct EntryView {
    pub rel: Seq<Seq<u8>>,
    pub size: u64,
    pub mtime: i64,
    pub mtime_ns: i64,
}

impl View for Entry {
    type V = EntryView;

    open spec fn view(&self) -> EntryView {
        EntryView {
            rel: self.rel@,
            size: self.size,
            mtime: self.mtime,
            mtime_ns: self.mtime_ns,
        }
    }
}

/// Something that is not copied, and why.
pub struct Skipped {
    pub rel: RelPath,
    /// The place is to be reported as an absolute path.
    pub absolute: bool,
    pub why: String,
}

#[verifier::ext_equal]
pub struct SkippedView {
    pub rel: Seq<Seq<u8>>,
    pub absolute: bool,
    pub why: Seq<char>,
}

impl View for Skipped {
    type V = SkippedView;

    open spec fn view(&self) -> SkippedView {
        SkippedView { rel: self.rel@, absolute: self.absolute, why: self.why@ }
    }
}

/// Everything a job is about, known before it starts.
pub struct Manifest {
    pub dirs: Vec<RelPath>,
    pub files: Vec<Entry>,
    pub total_bytes: u64,
    /// Reported, never silently dropped.
    pub skipped: Vec<Skipped>,
    /// Left out by choice, which is no failure.
    pub excluded: Vec<RelPath>,
    /// The scan root is itself a file; its own name is the one entry's path.
    pub root_is_file: bool,
}

#[verifier::ext_equal]
pub struct ManifestView {
    pub dirs: Seq<Seq<Seq<u8>>>,
    pub files: Seq<EntryView>,
    pub total_bytes: u64,
    pub skipped: Seq<SkippedView>,
    pub excluded: Seq<Seq<Seq<u8>>>,
    pub root_is_file: bool,
}

pub open spec fn rels(v: Seq<RelPath>) -> Seq<Seq<Seq<u8>>> {
    v.map_values(|r: RelPath| r@)
}

pub open spec fn entries(v: Seq<Entry>) -> Seq<EntryView> {
    v.map_values(|e: Entry| e@)
}

impl View for Manifest {
    type V = ManifestView;

    open spec fn view(&self) -> ManifestView {
        ManifestView {
            dirs: rels(self.dirs@),
            files: entries(self.files@),
            total_bytes: self.total_bytes,
            skipped: self.skipped@.map_values(|s: Skipped| s@),
            excluded: rels(self.excluded@),
            root_is_file: self.root_is_file,
        }
    }
}

impl ManifestView {
    pub open spec fn empty() -> ManifestView {
        ManifestView {
            dirs: Seq::empty(),
            files: Seq::empty(),
            total_bytes: 0,
            skipped: Seq::empty(),
            excluded: Seq::empty(),
            root_is_file: false,
        }
    }
}

/// The sum of the sizes of some files.
pub open spec fn total_size(files: Seq<EntryView>) -> nat
    decreases files.len(),
{
    if files.len() == 0 {
        0
    } else {
        total_size(files.drop_last()) + files.last().size as nat
    }
}

/// A size sum as it is kept: at most what 64 bits hold.
pub open spec fn clamp(n: nat) -> u64 {
    if n > u64::MAX {
        u64::MAX
    } else {
        n as u64
    }
}

impl Manifest {
    pub fn empty() -> (m: Manifest)
        ensures
            m@ == ManifestView::empty(),
    {
        let m = Manifest {
            dirs: Vec::new(),
            files: Vec::new(),
            total_bytes: 0,
            skipped: Vec::new(),
            excluded: Vec::new(),
            root_is_file: false,
        };
        assert(m@ =~~= ManifestView::empty());
        m
    }

    pub fn file_count(&self) -> (n: usize)
        ensures
            n == self@.files.len(),
    {
        self.files.len()
    }
}

// ── the walk ─────────────────────────────────────────────────────────────────
/// What was found under a name.
pub enum Found {
    /// The directory listing itself failed at this point; there is no name.
    Unlisted(String),
    /// The name is there but cannot be looked at.
    Unreadable(String),
    Symlink,
    Dir,
    File { size: u64, mtime: i64, mtime_ns: i64 },
    Other,
}

#[verifier::ext_equal]
pub enum FoundView {
    Unlisted(Seq<char>),
    Unreadable(Seq<char>),
    Symlink,
    Dir,
    File { size: u64, mtime: i64, mtime_ns: i64 },
    Other,
}

impl View for Found {
    type V = FoundView;

    open spec fn view(&self) -> FoundView {
        match *self {
            Found::Unlisted(e) => FoundView::Unlisted(e@),
            Found::Unreadable(e) => FoundView::Unreadable(e@),
            Found::Symlink => FoundView::Symlink,
            Found::Dir => FoundView::Dir,
            Found::File { size, mtime, mtime_ns } => FoundView::File { size, mtime, mtime_ns },
            Found::Other => FoundView::Other,
        }
    }
}

/// A walk in progress: what it has found, and the folders still to list.
pub struct Scan {
    m: Manifest,
    queue: Vec<RelPath>,
}

#[verifier::ext_equal]
pub struct ScanView {
    pub m: ManifestView,
    pub queue: Seq<Seq<Seq<u8>>>,
}

impl ScanView {
    /// A scan that begins with the folder itself.
    pub open spec fn of_tree() -> ScanView {
        ScanView { m: ManifestView::empty(), queue: seq![Seq::<Seq<u8>>::empty()] }
    }

    /// A scan that is told what was chosen.
    pub open spec fn of_choice() -> ScanView {
        ScanView { m: ManifestView::empty(), queue: Seq::empty() }
    }
}

/// The folder found last is taken up, if any is left.
pub open spec fn took_up(before: ScanView, after: ScanView, dir: Option<Seq<Seq<u8>>>) -> bool {
    if before.queue.len() == 0 {
        dir is None && after == before
    } else {
        dir == Some(before.queue.last()) && after == (ScanView {
            queue: before.queue.drop_last(),
            ..before
        })
    }
}

impl View for Scan {
    type V = ScanView;

    closed spec fn view(&self) -> ScanView {
        ScanView { m: self.m@, queue: rels(self.queue@) }
    }
}

impl ScanView {
    pub open spec fn skip(self, rel: Seq<Seq<u8>>, absolute: bool, why: Seq<char>) -> ScanView {
        ScanView {
            m: ManifestView {
                skipped: self.m.skipped.push(SkippedView { rel, absolute, why }),
                ..self.m
            },
            ..self
        }
    }

    pub open spec fn add_dir(self, rel: Seq<Seq<u8>>) -> ScanView {
        ScanView {
            m: ManifestView { dirs: self.m.dirs.push(rel), ..self.m },
            queue: self.queue.push(rel),
        }
    }

    pub open spec fn add_file(
        self,
        rel: Seq<Seq<u8>>,
        size: u64,
        mtime: i64,
        mtime_ns: i64,
    ) -> ScanView {
        ScanView {
            m: ManifestView {
                files: self.m.files.push(EntryView { rel, size, mtime, mtime_ns }),
                total_bytes: clamp(self.m.total_bytes as nat + size as nat),
                ..self.m
            },
            ..self
        }
    }

    /// One entry of the folder `dir`.
    pub open spec fn visit(
        self,
        dir: Seq<Seq<u8>>,
        name: Seq<u8>,
        what: FoundView,
        filter: FilterView,
    ) -> ScanView {
        let rel = dir.push(name);
        match what {
            FoundView::Unlisted(e) => self.skip(dir, true, "unreadable entry: "@ + e),
            _ => if filter.excludes(name) {
                ScanView {
                    m: ManifestView { excluded: self.m.excluded.push(rel), ..self.m },
                    ..self
                }
            } else {
                match what {
                    FoundView::Unreadable(e) => self.skip(rel, true, "unreadable: "@ + e),
                    FoundView::Symlink => self.skip(rel, false, "symlink (not handled in v0.1)"@),
                    FoundView::Dir => self.add_dir(rel),
                    FoundView::File { size, mtime, mtime_ns } => self.add_file(
                        rel,
                        size,
                        mtime,
                        mtime_ns,
                    ),
                    _ => self.skip(rel, false, "not a regular file"@),
                }
            },
        }
    }

    /// One entry the user chose by hand. No filter is asked.
    pub open spec fn pick(self, rel: Seq<Seq<u8>>, what: FoundView) -> ScanView {
        match what {
            FoundView::Unreadable(e) => self.skip(rel, false, "unreadable: "@ + e),
            FoundView::Dir => self.add_dir(rel),
            FoundView::File { size, mtime, mtime_ns } => self.add_file(
                rel,
                size,
                mtime,
                mtime_ns,
            ),
            _ => self.skip(rel, false, "not a regular file"@),
        }
    }

    /// Everything found so far, whatever became of it.
    pub open spec fn found(self) -> nat {
        self.m.dirs.len() + self.m.files.len() + self.m.skipped.len() + self.m.excluded.len()
    }
}

impl Scan {
    /// A walk over the whole tree: the root is listed first, and never filtered.
    pub fn tree() -> (s: Scan)
        ensures
            s@ == ScanView::of_tree(),
    {
        let mut queue: Vec<RelPath> = Vec::new();
        queue.push(RelPath::root());
        let s = Scan { m: Manifest::empty(), queue };
        assert(s@.queue =~= seq![Seq::<Seq<u8>>::empty()]);
        s
    }

    /// A walk over a selection, still empty.
    pub fn selection() -> (s: Scan)
        ensures
            s@ == ScanView::of_choice(),
    {
        let s = Scan { m: Manifest::empty(), queue: Vec::new() };
        assert(s@.queue =~= Seq::empty());
        s
    }

    fn skip(&mut self, rel: RelPath, absolute: bool, why: String)
        ensures
            final(self)@ == old(self)@.skip(rel@, absolute, why@),
    {
        let ghost before = self@.m.skipped;
        let s = Skipped { rel, absolute, why };
        let ghost sv = s@;
        self.m.skipped.push(s);
        assert(self@.m.skipped =~= before.push(sv));
    }

    fn add_dir(&mut self, rel: RelPath)
        ensures
            final(self)@ == old(self)@.add_dir(rel@),
    {
        let ghost before = self@;
        let ghost rv = rel@;
        self.m.dirs.push(rel.copy());
        self.queue.push(rel);
        assert(self@.m.dirs =~= before.m.dirs.push(rv));
        assert(self@.queue =~= before.queue.push(rv));
    }

    fn add_file(&mut self, rel: RelPath, size: u64, mtime: i64, mtime_ns: i64)
        ensures
            final(self)@ == old(self)@.add_file(rel@, size, mtime, mtime_ns),
    {
        let ghost before = self@.m.files;
        let e = Entry { rel, size, mtime, mtime_ns };
        let ghost ev = e@;
        self.m.total_bytes = self.m.total_bytes.saturating_add(size);
        self.m.files.push(e);
        assert(self@.m.files =~= before.push(ev));
    }

    /// The folder to list next, newest first.
    pub fn next_dir(&mut self) -> (r: Option<RelPath>)
        ensures
            took_up(
                old(self)@,
                final(self)@,
                match r {
                    Some(d) => Some(d@),
                    None => None,
                },
            ),
    {
        let ghost before = self@;
        let r = self.queue.pop();
        proof {
            if before.queue.len() > 0 {
                assert(self@.queue =~= before.queue.drop_last());
            } else {
                assert(self@.queue =~= before.queue);
            }
        }
        r
    }

    /// The folder `dir` could not be listed.
    pub fn unreadable_dir(&mut self, dir: &RelPath, why: &str)
        ensures
            final(self)@ == old(self)@.skip(dir@, true, "unreadable directory: "@ + why@),
    {
        let mut w = String::from_str("unreadable directory: ");
        w.append(why);
        self.skip(dir.copy(), true, w);
    }

    /// Takes one entry of the folder `dir`. A name that the filter leaves out need not have
    /// been looked at: what was found under it is then ignored.
    pub fn visit(&mut self, dir: &RelPath, name: &[u8], what: Found, filter: &Filter)
        ensures
            final(self)@ == old(self)@.visit(dir@, name@, what@, filter@),
    {
        if let Found::Unlisted(e) = what {
            let mut w = String::from_str("unreadable entry: ");
            w.append(e.as_str());
            self.skip(dir.copy(), true, w);
            return;
        }
        let rel = dir.join(name);
        if filter.excludes(name) {
            let ghost before = self@.m.excluded;
            let ghost rv = rel@;
            self.m.excluded.push(rel);
            assert(self@.m.excluded =~= before.push(rv));
            return;
        }
        match what {
            Found::Unreadable(e) => {
                let mut w = String::from_str("unreadable: ");
                w.append(e.as_str());
                self.skip(rel, true, w);
            },
            Found::Symlink => {
                self.skip(rel, false, String::from_str("symlink (not handled in v0.1)"));
            },
            Found::Dir => {
                self.add_dir(rel);
            },
            Found::File { size, mtime, mtime_ns } => {
                self.add_file(rel, size, mtime, mtime_ns);
            },
            _ => {
                self.skip(rel, false, String::from_str("not a regular file"));
            },
        }
    }

    /// Takes one entry the user chose by hand.
    pub fn pick(&mut self, rel: &RelPath, what: Found)
        ensures
            final(self)@ == old(self)@.pick(rel@, what@),
    {
        match what {
            Found::Unreadable(e) => {
                let mut w = String::from_str("unreadable: ");
                w.append(e.as_str());
                self.skip(rel.copy(), false, w);
            },
            Found::Dir => {
                self.add_dir(rel.copy());
            },
            Found::File { size, mtime, mtime_ns } => {
                self.add_file(rel.copy(), size, mtime, mtime_ns);
            },
            _ => {
                self.skip(rel.copy(), false, String::from_str("not a regular file"));
            },
        }
    }

    /// The manifest: folders shallowest first, so that a parent always comes before what it
    /// holds; files in path order, so that every run visits them in the same sequence.
    pub fn finish(self) -> (m: Manifest)
        ensures
            m@ == (ManifestView { dirs: m@.dirs, files: m@.files, ..self@.m }),
            shallow_first(self@.m.dirs, m@.dirs),
            in_path_order(self@.m.files, m@.files),
    {
        let m = self.m;
        let ghost dirs0 = rels(m.dirs@);
        let ghost files0 = entries(m.files@);
        let mut depths: Vec<Depth> = Vec::new();
        let mut i: usize = 0;
        while i < m.dirs.len()
            invariant
                i <= m.dirs.len(),
                depths.len() == i,
                forall|k: int| 0 <= k < i ==> #[trigger] depths@[k].0 == m.dirs@[k]@.len(),
            decreases m.dirs.len() - i,
        {
            depths.push(Depth(m.dirs[i].depth()));
            i += 1;
        }
        let p = sorted_positions(&depths);
        let ghost pd = p@;
        let dirs = reorder(m.dirs, &p);
        let files = sort_stable(m.files);
        let out = Manifest {
            dirs,
            files,
            total_bytes: m.total_bytes,
            skipped: m.skipped,
            excluded: m.excluded,
            root_is_file: m.root_is_file,
        };
        proof {
            assert(by_depth(dirs0, pd)) by {
                assert forall|a: int, b: int|
                    #![trigger pd[a], pd[b]]
                    0 <= a < b < pd.len() implies depth_precedes(
                    dirs0,
                    pd[a] as int,
                    pd[b] as int,
                ) by {
                    assert(sort::precedes(depths@, pd[a] as int, pd[b] as int));
                    assert(depths@[pd[a] as int].0 == dirs0[pd[a] as int].len());
                    assert(depths@[pd[b] as int].0 == dirs0[pd[b] as int].len());
                }
            }
            assert(rels(out.dirs@) =~= sort::picked(dirs0, pd));
            let items = m.files@;
            let pf = choose|q: Seq<usize>| #[trigger]
                sort::orders(items, q, 0, items.len() as int) && files@ == sort::picked(items, q);
            assert(by_path(files0, pf)) by {
                assert forall|a: int, b: int|
                    #![trigger pf[a], pf[b]]
                    0 <= a < b < pf.len() implies path_precedes(
                    files0,
                    pf[a] as int,
                    pf[b] as int,
                ) by {
                    assert(sort::precedes(items, pf[a] as int, pf[b] as int));
                }
            }
            assert(entries(out.files@) =~= sort::picked(files0, pf));
        }
        out
    }
}

/// A rank by depth below the root.
pub struct Depth(pub usize);

impl Ranked for Depth {
    open spec fn before(&self, other: &Self) -> bool {
        self.0 < other.0
    }

    proof fn law_irreflexive(x: &Self) {
    }

    proof fn law_transitive(x: &Self, y: &Self, z: &Self) {
    }

    proof fn law_ties(x: &Self, y: &Self, z: &Self) {
    }

    fn is_before(&self, other: &Self) -> (r: bool) {
        self.0 < other.0
    }
}

impl Ranked for Entry {
    open spec fn before(&self, other: &Self) -> bool {
        path::path_before(self.rel@, other.rel@)
    }

    proof fn law_irreflexive(x: &Self) {
        path::lemma_path_irreflexive(x.rel@);
    }

    proof fn law_transitive(x: &Self, y: &Self, z: &Self) {
        path::lemma_path_transitive(x.rel@, y.rel@, z.rel@);
    }

    proof fn law_ties(x: &Self, y: &Self, z: &Self) {
        path::lemma_path_total(x.rel@, y.rel@);
        path::lemma_path_total(y.rel@, z.rel@);
        path::lemma_path_irreflexive(x.rel@);
        if z.before(x) {
            if x.rel@ == y.rel@ {
            } else if y.rel@ == z.rel@ {
            } else {
                path::lemma_path_transitive(x.rel@, y.rel@, z.rel@);
                path::lemma_path_transitive(x.rel@, z.rel@, x.rel@);
            }
        }
    }

    fn is_before(&self, other: &Self) -> (r: bool) {
        self.rel.is_before(&other.rel)
    }
}

/// Folder `i` has to stand before folder `j`.
pub open spec fn depth_precedes(dirs: Seq<Seq<Seq<u8>>>, i: int, j: int) -> bool {
    dirs[i].len() < dirs[j].len() || (dirs[i].len() == dirs[j].len() && i < j)
}

/// These positions go through all folders, shallowest first.
pub open spec fn by_depth(dirs: Seq<Seq<Seq<u8>>>, p: Seq<usize>) -> bool {
    &&& p.len() == dirs.len()
    &&& forall|k: int| 0 <= k < p.len() ==> (#[trigger] p[k]) < dirs.len()
    &&& forall|a: int, b: int|
        #![trigger p[a], p[b]]
        0 <= a < b < p.len() ==> depth_precedes(dirs, p[a] as int, p[b] as int)
}

/// `r` is `dirs`, shallowest first, those of the same depth in the order they were found.
pub open spec fn shallow_first(dirs: Seq<Seq<Seq<u8>>>, r: Seq<Seq<Seq<u8>>>) -> bool {
    exists|p: Seq<usize>| #[trigger] by_depth(dirs, p) && r == sort::picked(dirs, p)
}

/// File `i` has to stand before file `j`.
pub open spec fn path_precedes(files: Seq<EntryView>, i: int, j: int) -> bool {
    path::path_before(files[i].rel, files[j].rel) || (!path::path_before(
        files[j].rel,
        files[i].rel,
    ) && i < j)
}

/// These positions go through all files in path order.
pub open spec fn by_path(files: Seq<EntryView>, p: Seq<usize>) -> bool {
    &&& p.len() == files.len()
    &&& forall|k: int| 0 <= k < p.len() ==> (#[trigger] p[k]) < files.len()
    &&& forall|a: int, b: int|
        #![trigger p[a], p[b]]
        0 <= a < b < p.len() ==> path_precedes(files, p[a] as int, p[b] as int)
}

/// `r` is `files` in path order.
pub open spec fn in_path_order(files: Seq<EntryView>, r: Seq<EntryView>) -> bool {
    exists|p: Seq<usize>| #[trigger] by_path(files, p) && r == sort::picked(files, p)
}

/// A job of one file.
pub open spec fn lone(name: Seq<u8>, size: u64, mtime: i64, mtime_ns: i64) -> ManifestView {
    ManifestView {
        files: seq![EntryView { rel: seq![name], size, mtime, mtime_ns }],
        total_bytes: size,
        root_is_file: true,
        ..ManifestView::empty()
    }
}

/// The manifest of a source that is itself a file. One without a name of its own cannot be
/// copied into anything.
pub fn scan_file(name: Option<Vec<u8>>, size: u64, mtime: i64, mtime_ns: i64) -> (r: Result<
    Manifest,
    Refusal,
>)
    ensures
        match name {
            Some(n) => {
                &&& r is Ok
                &&& r->Ok_0@ == lone(n@, size, mtime, mtime_ns)
            },
            None => r is Err && r->Err_0.of_input("source has no file name"@),
        },
{
    match name {
        Some(n) => {
            let ghost nv = n@;
            let mut parts: Vec<Vec<u8>> = Vec::new();
            parts.push(n);
            let rel = RelPath { parts };
            assert(rel@ =~= seq![nv]);
            let mut m = Manifest::empty();
            let e = Entry { rel, size, mtime, mtime_ns };
            let ghost ev = e@;
            m.files.push(e);
            m.total_bytes = size;
            m.root_is_file = true;
            assert(m@.files =~= seq![ev]);
            Ok(m)
        },
        None => Err(invalid(String::from_str("source has no file name"))),
    }
}

// ── what a walk guarantees ───────────────────────────────────────────────────
/// Nothing that was listed is dropped: each entry ends up in exactly one of the four lists,
/// and nothing already there is changed.
pub proof fn law_every_entry_is_accounted_for(
    s: ScanView,
    dir: Seq<Seq<u8>>,
    name: Seq<u8>,
    what: FoundView,
    filter: FilterView,
)
    ensures
        s.visit(dir, name, what, filter).found() == s.found() + 1,
        s.m.dirs.is_prefix_of(s.visit(dir, name, what, filter).m.dirs),
        s.m.files.is_prefix_of(s.visit(dir, name, what, filter).m.files),
        s.m.skipped.is_prefix_of(s.visit(dir, name, what, filter).m.skipped),
        s.m.excluded.is_prefix_of(s.visit(dir, name, what, filter).m.excluded),
{
}

/// `rel` is one of `chosen` or lies below one, and nothing between is left out.
pub open spec fn reachable(
    rel: Seq<Seq<u8>>,
    chosen: Set<Seq<Seq<u8>>>,
    filter: FilterView,
) -> bool {
    exists|k: int|
        0 <= k <= rel.len() && chosen.contains(#[trigger] rel.take(k)) && !filter.excludes_some(
            rel.skip(k),
        )
}

/// Every folder and file of a walk was reached through names that are not left out.
pub open spec fn only_reachable(
    s: ScanView,
    chosen: Set<Seq<Seq<u8>>>,
    filter: FilterView,
) -> bool {
    &&& forall|i: int|
        0 <= i < s.m.dirs.len() ==> reachable(#[trigger] s.m.dirs[i], chosen, filter)
    &&& forall|i: int|
        0 <= i < s.m.files.len() ==> reachable((#[trigger] s.m.files[i]).rel, chosen, filter)
    &&& forall|i: int|
        0 <= i < s.queue.len() ==> reachable(#[trigger] s.queue[i], chosen, filter)
}

/// A folder the filter leaves out is left out with all it holds: no step of a walk, taken in
/// a folder that was itself reached, records or queues anything behind such a name.
pub proof fn law_left_out_means_the_whole_subtree(
    s: ScanView,
    dir: Seq<Seq<u8>>,
    name: Seq<u8>,
    what: FoundView,
    filter: FilterView,
    chosen: Set<Seq<Seq<u8>>>,
)
    requires
        only_reachable(s, chosen, filter),
        reachable(dir, chosen, filter),
    ensures
        only_reachable(s.visit(dir, name, what, filter), chosen, filter),
{
    let n = s.visit(dir, name, what, filter);
    let rel = dir.push(name);
    if !filter.excludes(name) {
        let k = choose|k: int|
            0 <= k <= dir.len() && chosen.contains(#[trigger] dir.take(k))
                && !filter.excludes_some(dir.skip(k));
        assert(rel.take(k) =~= dir.take(k));
        assert(!filter.excludes_some(rel.skip(k))) by {
            if filter.excludes_some(rel.skip(k)) {
                let i = choose|i: int|
                    0 <= i < rel.skip(k).len() && filter.excludes(#[trigger] rel.skip(k)[i]);
                if i < dir.skip(k).len() {
                    assert(dir.skip(k)[i] == rel.skip(k)[i]);
                } else {
                    assert(rel.skip(k)[i] == name);
                }
            }
        }
        assert(reachable(rel, chosen, filter));
    }
    assert forall|i: int| 0 <= i < n.m.dirs.len() implies reachable(
        #[trigger] n.m.dirs[i],
        chosen,
        filter,
    ) by {
        if i < s.m.dirs.len() {
            assert(n.m.dirs[i] == s.m.dirs[i]);
        }
    }
    assert forall|i: int| 0 <= i < n.m.files.len() implies reachable(
        (#[trigger] n.m.files[i]).rel,
        chosen,
        filter,
    ) by {
        if i < s.m.files.len() {
            assert(n.m.files[i] == s.m.files[i]);
        }
    }
    assert forall|i: int| 0 <= i < n.queue.len() implies reachable(
        #[trigger] n.queue[i],
        chosen,
        filter,
    ) by {
        if i < s.queue.len() {
            assert(n.queue[i] == s.queue[i]);
        }
    }
}

/// Choosing a folder or a file by hand outranks every rule about its name: it is taken up
/// under whatever filter.
pub proof fn law_a_chosen_name_is_never_left_out(
    s: ScanView,
    rel: Seq<Seq<u8>>,
    what: FoundView,
    filter: FilterView,
    chosen: Set<Seq<Seq<u8>>>,
)
    requires
        only_reachable(s, chosen, filter),
        chosen.contains(rel),
    ensures
        only_reachable(s.pick(rel, what), chosen, filter),
        s.pick(rel, what).m.excluded == s.m.excluded,
        what is Dir ==> s.pick(rel, what).m.dirs.last() == rel && s.pick(
            rel,
            what,
        ).queue.last() == rel,
        what is File ==> s.pick(rel, what).m.files.last().rel == rel,
{
    let n = s.pick(rel, what);
    assert(rel.take(rel.len() as int) =~= rel);
    assert(!filter.excludes_some(rel.skip(rel.len() as int)));
    assert(reachable(rel, chosen, filter));
    assert forall|i: int| 0 <= i < n.m.dirs.len() implies reachable(
        #[trigger] n.m.dirs[i],
        chosen,
        filter,
    ) by {
        if i < s.m.dirs.len() {
            assert(n.m.dirs[i] == s.m.dirs[i]);
        }
    }
    assert forall|i: int| 0 <= i < n.m.files.len() implies reachable(
        (#[trigger] n.m.files[i]).rel,
        chosen,
        filter,
    ) by {
        if i < s.m.files.len() {
            assert(n.m.files[i] == s.m.files[i]);
        }
    }
    assert forall|i: int| 0 <= i < n.queue.len() implies reachable(
        #[trigger] n.queue[i],
        chosen,
        filter,
    ) by {
        if i < s.queue.len() {
            assert(n.queue[i] == s.queue[i]);
        }
    }
}

/// The total is always that of the files found.
pub proof fn law_total_is_the_sum_of_the_files(
    s: ScanView,
    dir: Seq<Seq<u8>>,
    name: Seq<u8>,
    what: FoundView,
    filter: FilterView,
)
    requires
        s.m.total_bytes == clamp(total_size(s.m.files)),
    ensures
        ({
            let n = s.visit(dir, name, what, filter);
            n.m.total_bytes == clamp(total_size(n.m.files))
        }),
        ({
            let n = s.pick(dir, what);
            n.m.total_bytes == clamp(total_size(n.m.files))
        }),
{
    if let FoundView::File { size, mtime, mtime_ns } = what {
        let f = s.add_file(dir.push(name), size, mtime, mtime_ns).m.files;
        assert(f.drop_last() =~= s.m.files);
        let g = s.add_file(dir, size, mtime, mtime_ns).m.files;
        assert(g.drop_last() =~= s.m.files);
    }
}

/// A parent folder always comes before what it holds.
pub proof fn law_parents_come_first(
    dirs: Seq<Seq<Seq<u8>>>,
    r: Seq<Seq<Seq<u8>>>,
    i: int,
    j: int,
)
    requires
        shallow_first(dirs, r),
        0 <= i < r.len(),
        0 <= j < r.len(),
        r[j].len() > 0,
        r[i] == r[j].drop_last(),
    ensures
        i < j,
{
    let p = choose|p: Seq<usize>| #[trigger] by_depth(dirs, p) && r == sort::picked(dirs, p);
    if j < i {
        assert(depth_precedes(dirs, p[j] as int, p[i] as int));
    }
}

} // verus!
