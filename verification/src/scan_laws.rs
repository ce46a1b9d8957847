//! What a whole walk guarantees, from its first folder to the finished manifest.

use crate::path;
use crate::scan;
use crate::scan::{
    by_depth, by_path, clamp, depth_precedes, in_path_order, law_a_chosen_name_is_never_left_out,
    law_left_out_means_the_whole_subtree, law_total_is_the_sum_of_the_files, only_reachable,
    path_precedes, reachable, shallow_first, total_size, EntryView, FilterView, FoundView,
    ManifestView, ScanView,
};
use crate::sort;
use vstd::prelude::*;

verus! {

// ── a whole walk ─────────────────────────────────────────────────────────────
/// What the listing of one folder came to.
#[verifier::ext_equal]
pub enum Listing {
    /// The folder could not be listed.
    Unreadable(Seq<char>),
    /// The names in it, and what was found under each.
    Entries(Seq<(Seq<u8>, FoundView)>),
}

/// No name stands twice in one listing. An entry that could not be listed has no name.
pub open spec fn distinct(es: Seq<(Seq<u8>, FoundView)>) -> bool {
    forall|a: int, b: int|
        #![trigger es[a], es[b]]
        0 <= a < b < es.len() && es[a].1 !is Unlisted && es[b].1 !is Unlisted ==> es[a].0
            != es[b].0
}

impl Listing {
    pub open spec fn distinct(self) -> bool {
        self matches Listing::Entries(es) ==> distinct(es)
    }
}

/// The walk after these entries of the folder `dir`.
pub open spec fn visited(
    s: ScanView,
    dir: Seq<Seq<u8>>,
    es: Seq<(Seq<u8>, FoundView)>,
    filter: FilterView,
) -> ScanView
    decreases es.len(),
{
    if es.len() == 0 {
        s
    } else {
        visited(s, dir, es.drop_last(), filter).visit(dir, es.last().0, es.last().1, filter)
    }
}

/// The walk once its next folder has been taken and listed.
pub open spec fn listed(s: ScanView, l: Listing, filter: FilterView) -> ScanView {
    let dir = s.queue.last();
    let n = ScanView { queue: s.queue.drop_last(), ..s };
    match l {
        Listing::Unreadable(why) => n.skip(dir, true, "unreadable directory: "@ + why),
        Listing::Entries(es) => visited(n, dir, es, filter),
    }
}

/// The walk after these listings, one for each folder taken.
pub open spec fn walked(s: ScanView, ls: Seq<Listing>, filter: FilterView) -> ScanView
    decreases ls.len(),
{
    if ls.len() == 0 {
        s
    } else {
        listed(walked(s, ls.drop_last(), filter), ls.last(), filter)
    }
}

/// There was a folder to take for each of these listings, and no listing names anything twice.
pub open spec fn a_walk(s: ScanView, ls: Seq<Listing>, filter: FilterView) -> bool
    decreases ls.len(),
{
    ls.len() > 0 ==> {
        &&& a_walk(s, ls.drop_last(), filter)
        &&& walked(s, ls.drop_last(), filter).queue.len() > 0
        &&& ls.last().distinct()
    }
}

/// The walk after these names were chosen by hand.
pub open spec fn chose(s: ScanView, names: Seq<(Seq<u8>, FoundView)>) -> ScanView
    decreases names.len(),
{
    if names.len() == 0 {
        s
    } else {
        chose(s, names.drop_last()).pick(seq![names.last().0], names.last().1)
    }
}

/// Where a walk starts: at the root of a tree, or at names chosen by hand.
#[verifier::ext_equal]
pub enum Start {
    Tree,
    Names(Seq<(Seq<u8>, FoundView)>),
}

impl Start {
    pub open spec fn scan(self) -> ScanView {
        match self {
            Start::Tree => ScanView {
                m: ManifestView::empty(),
                queue: seq![Seq::<Seq<u8>>::empty()],
            },
            Start::Names(names) => chose(
                ScanView { m: ManifestView::empty(), queue: Seq::empty() },
                names,
            ),
        }
    }

    /// No name was chosen twice.
    pub open spec fn distinct(self) -> bool {
        self matches Start::Names(names) ==> forall|a: int, b: int|
            #![trigger names[a], names[b]]
            0 <= a < b < names.len() ==> names[a].0 != names[b].0
    }

    /// The paths the walk is about, with all that lies below them.
    pub open spec fn chosen(self) -> Set<Seq<Seq<u8>>> {
        match self {
            Start::Tree => set![Seq::<Seq<u8>>::empty()],
            Start::Names(names) => Set::new(
                |rel: Seq<Seq<u8>>|
                    exists|i: int| 0 <= i < names.len() && rel == seq![(#[trigger] names[i]).0],
            ),
        }
    }
}

/// `m` is what a walk that stands at `s` finishes with.
pub open spec fn finished(s: ScanView, m: ManifestView) -> bool {
    &&& m == (ManifestView { dirs: m.dirs, files: m.files, ..s.m })
    &&& shallow_first(s.m.dirs, m.dirs)
    &&& in_path_order(s.m.files, m.files)
}

pub open spec fn paths_of(files: Seq<EntryView>) -> Seq<Seq<Seq<u8>>> {
    files.map_values(|e: EntryView| e.rel)
}

/// How often `rel` stands among the folders, the files and what was left out by choice.
pub open spec fn times(m: ManifestView, rel: Seq<Seq<u8>>) -> nat {
    m.dirs.to_multiset().count(rel) + paths_of(m.files).to_multiset().count(rel)
        + m.excluded.to_multiset().count(rel)
}

// ── the laws ─────────────────────────────────────────────────────────────────
/// Each path is listed once: over a whole walk, however it goes, nothing stands twice among
/// the folders, the files and what was left out, neither in one of the lists nor in two.
pub proof fn law_each_path_is_listed_once(
    start: Start,
    ls: Seq<Listing>,
    filter: FilterView,
    m: ManifestView,
    rel: Seq<Seq<u8>>,
)
    requires
        start.distinct(),
        a_walk(start.scan(), ls, filter),
        finished(walked(start.scan(), ls, filter), m),
        m.dirs.len() <= usize::MAX,
        m.files.len() <= usize::MAX,
    ensures
        times(m, rel) <= 1,
{
    let expanded = lemma_start(start);
    lemma_walk(start.scan(), ls, filter, expanded);
    lemma_finished(walked(start.scan(), ls, filter), m);
}

/// The total of a finished manifest is the sum of the sizes of its files, at most what 64
/// bits hold.
pub proof fn law_the_total_of_a_walk(
    start: Start,
    ls: Seq<Listing>,
    filter: FilterView,
    m: ManifestView,
)
    requires
        finished(walked(start.scan(), ls, filter), m),
        m.files.len() <= usize::MAX,
    ensures
        m.total_bytes == clamp(total_size(m.files)),
{
    let s = walked(start.scan(), ls, filter);
    lemma_total_at_start(start);
    lemma_total_of_walk(start.scan(), ls, filter);
    let p = choose|p: Seq<usize>| #[trigger]
        by_path(s.m.files, p) && m.files == sort::picked(s.m.files, p);
    lemma_path_positions(s.m.files, p);
    sort::lemma_permuted(s.m.files, p);
    lemma_total_permuted(m.files, s.m.files);
}

/// Whatever lies behind a name that is left out stays out of the whole manifest: every folder
/// and every file in it is one that was chosen, or was reached from one through names that are
/// kept.
pub proof fn law_a_manifest_holds_only_what_is_kept(
    start: Start,
    ls: Seq<Listing>,
    filter: FilterView,
    m: ManifestView,
)
    requires
        a_walk(start.scan(), ls, filter),
        finished(walked(start.scan(), ls, filter), m),
    ensures
        forall|i: int|
            0 <= i < m.dirs.len() ==> reachable(#[trigger] m.dirs[i], start.chosen(), filter),
        forall|i: int|
            0 <= i < m.files.len() ==> reachable(
                (#[trigger] m.files[i]).rel,
                start.chosen(),
                filter,
            ),
{
    let s = walked(start.scan(), ls, filter);
    lemma_reachable_at_start(start, filter);
    lemma_reachable_walk(start, ls, filter);
    let pd = choose|p: Seq<usize>| #[trigger]
        by_depth(s.m.dirs, p) && m.dirs == sort::picked(s.m.dirs, p);
    let pf = choose|p: Seq<usize>| #[trigger]
        by_path(s.m.files, p) && m.files == sort::picked(s.m.files, p);
    assert forall|i: int| 0 <= i < m.dirs.len() implies reachable(
        #[trigger] m.dirs[i],
        start.chosen(),
        filter,
    ) by {
        assert(pd[i] < s.m.dirs.len());
        assert(m.dirs[i] == s.m.dirs[pd[i] as int]);
    }
    assert forall|i: int| 0 <= i < m.files.len() implies reachable(
        (#[trigger] m.files[i]).rel,
        start.chosen(),
        filter,
    ) by {
        assert(pf[i] < s.m.files.len());
        assert(m.files[i] == s.m.files[pf[i] as int]);
    }
}

// ── one entry ────────────────────────────────────────────────────────────────
/// A file that is not left out is taken up as it is: under its path, with its size and both its
/// times; the total grows by its size, and nothing else changes.
pub proof fn law_a_file_is_taken_as_it_is(
    s: ScanView,
    dir: Seq<Seq<u8>>,
    name: Seq<u8>,
    size: u64,
    mtime: i64,
    mtime_ns: i64,
    filter: FilterView,
)
    requires
        !filter.excludes(name),
    ensures
        ({
            let n = s.visit(dir, name, FoundView::File { size, mtime, mtime_ns }, filter);
            let e = n.m.files[n.m.files.len() - 1];
            &&& n.m.files.len() == s.m.files.len() + 1
            &&& n.m.files.drop_last() == s.m.files
            &&& e.rel.len() == dir.len() + 1
            &&& e.rel.take(dir.len() as int) == dir
            &&& e.rel[dir.len() as int] == name
            &&& e.size == size
            &&& e.mtime == mtime
            &&& e.mtime_ns == mtime_ns
            &&& s.m.total_bytes + size <= u64::MAX ==> n.m.total_bytes == s.m.total_bytes + size
            &&& n.m.dirs == s.m.dirs && n.m.skipped == s.m.skipped && n.m.excluded
                == s.m.excluded && n.queue == s.queue
        }),
{
    let n = s.visit(dir, name, FoundView::File { size, mtime, mtime_ns }, filter);
    assert(n.m.files.drop_last() =~= s.m.files);
    assert(dir.push(name).take(dir.len() as int) =~= dir);
}

/// A folder that is not left out is taken up and will be listed; a link, and whatever is neither
/// a file nor a folder, is reported with its reason and never followed.
pub proof fn law_what_becomes_of_the_others(
    s: ScanView,
    dir: Seq<Seq<u8>>,
    name: Seq<u8>,
    what: FoundView,
    filter: FilterView,
)
    requires
        !filter.excludes(name),
        !(what is File),
        !(what is Unlisted),
    ensures
        ({
            let n = s.visit(dir, name, what, filter);
            &&& n.m.files == s.m.files
            &&& n.m.total_bytes == s.m.total_bytes
            &&& n.m.excluded == s.m.excluded
            &&& what is Dir ==> n.m.dirs == s.m.dirs.push(dir.push(name)) && n.queue
                == s.queue.push(dir.push(name)) && n.m.skipped == s.m.skipped
            &&& !(what is Dir) ==> n.m.dirs == s.m.dirs && n.queue == s.queue
                && n.m.skipped.len() == s.m.skipped.len() + 1
                && n.m.skipped[s.m.skipped.len() as int].rel == dir.push(name)
        }),
{
}

/// A name that is left out is put down as such, whatever stands under it, and is neither listed
/// nor taken up.
pub proof fn law_a_left_out_name_is_put_down(
    s: ScanView,
    dir: Seq<Seq<u8>>,
    name: Seq<u8>,
    what: FoundView,
    filter: FilterView,
)
    requires
        filter.excludes(name),
        !(what is Unlisted),
    ensures
        ({
            let n = s.visit(dir, name, what, filter);
            &&& n.m.excluded == s.m.excluded.push(dir.push(name))
            &&& n.m.files == s.m.files && n.m.dirs == s.m.dirs && n.m.skipped == s.m.skipped
                && n.queue == s.queue && n.m.total_bytes == s.m.total_bytes
        }),
{
}

/// What is chosen by hand is taken up as it is, under no filter.
pub proof fn law_a_choice_is_taken_as_it_is(s: ScanView, rel: Seq<Seq<u8>>, what: FoundView)
    ensures
        ({
            let n = s.pick(rel, what);
            &&& n.m.excluded == s.m.excluded
            &&& what matches FoundView::File { size, mtime, mtime_ns } ==> n.m.files
                == s.m.files.push(EntryView { rel, size, mtime, mtime_ns }) && n.m.dirs
                == s.m.dirs && n.queue == s.queue && n.m.skipped == s.m.skipped
            &&& what is Dir ==> n.m.dirs == s.m.dirs.push(rel) && n.queue == s.queue.push(rel)
                && n.m.files == s.m.files && n.m.skipped == s.m.skipped
            &&& !(what is Dir) && !(what is File) ==> n.m.files == s.m.files && n.m.dirs
                == s.m.dirs && n.queue == s.queue && n.m.skipped.len() == s.m.skipped.len() + 1
        }),
{
}

// ── what a filter leaves out ─────────────────────────────────────────────────
/// One letter, small or capital, or one and the same character.
pub open spec fn like(a: char, b: char) -> bool {
    ||| a == b
    ||| 'a' <= a <= 'z' && a as int - 'a' as int == b as int - 'A' as int
    ||| 'a' <= b <= 'z' && b as int - 'a' as int == a as int - 'A' as int
}

/// The two read the same but for small and capital letters.
pub open spec fn alike(a: Seq<char>, b: Seq<char>) -> bool {
    a.len() == b.len() && forall|i: int| 0 <= i < a.len() ==> like(#[trigger] a[i], b[i])
}

/// A name is left out exactly when it reads like one of the names, or begins like one of the
/// beginnings, but for small and capital letters.
pub proof fn law_what_a_filter_leaves_out(f: FilterView, name: Seq<u8>)
    ensures
        f.excludes(name) <==> {
            let t = path::lossy_text(name);
            ||| exists|i: int| 0 <= i < f.names.len() && alike(#[trigger] f.names[i], t)
            ||| exists|i: int|
                0 <= i < f.prefixes.len() && (#[trigger] f.prefixes[i]).len() <= t.len() && alike(
                    f.prefixes[i],
                    t.take(f.prefixes[i].len() as int),
                )
        },
        f.names.len() == 0 && f.prefixes.len() == 0 ==> !f.excludes(name),
{
    let t = path::lossy_text(name);
    assert forall|i: int| 0 <= i < f.names.len() implies scan::same_but_case(
        #[trigger] f.names[i],
        t,
    ) == alike(f.names[i], t) by {
        lemma_alike(f.names[i], t);
    }
    assert forall|i: int| 0 <= i < f.prefixes.len() implies scan::begins_but_case(
        t,
        #[trigger] f.prefixes[i],
    ) == (f.prefixes[i].len() <= t.len() && alike(
        f.prefixes[i],
        t.take(f.prefixes[i].len() as int),
    )) by {
        let p = f.prefixes[i];
        if p.len() <= t.len() {
            let h = t.take(p.len() as int);
            lemma_alike(h, p);
            lemma_alike(p, h);
            lemma_turned(h, p);
        }
    }
}

proof fn lemma_alike(a: Seq<char>, b: Seq<char>)
    ensures
        scan::same_but_case(a, b) == alike(a, b),
{
    if scan::same_but_case(a, b) {
        assert forall|i: int| 0 <= i < a.len() implies like(#[trigger] a[i], b[i]) by {
            assert(scan::same_letter(a[i], b[i]));
        }
    }
    if alike(a, b) {
        assert forall|i: int| 0 <= i < a.len() implies scan::same_letter(#[trigger] a[i], b[i]) by {
            assert(like(a[i], b[i]));
        }
    }
}

proof fn lemma_turned(a: Seq<char>, b: Seq<char>)
    ensures
        alike(a, b) == alike(b, a),
{
    if alike(a, b) {
        assert forall|i: int| 0 <= i < b.len() implies like(#[trigger] b[i], a[i]) by {
            assert(like(a[i], b[i]));
        }
    }
    if alike(b, a) {
        assert forall|i: int| 0 <= i < a.len() implies like(#[trigger] a[i], b[i]) by {
            assert(like(b[i], a[i]));
        }
    }
}

/// Keys and documents are nobody's cache: in whatever case they are written, the names `.ssh`,
/// `.gnupg` and `Documents` are never left out with the caches.
pub proof fn law_keys_and_documents_are_no_caches(name: Seq<u8>)
    requires
        ({
            let t = path::lossy_text(name);
            alike(t, ".ssh"@) || alike(t, ".gnupg"@) || alike(t, "Documents"@)
        }),
    ensures
        !(FilterView { names: scan::cache_names(), prefixes: Seq::empty() }).excludes(name),
{
    let t = path::lossy_text(name);
    reveal_strlit(".ssh");
    reveal_strlit(".gnupg");
    reveal_strlit("Documents");
    reveal_strlit("AppData");
    reveal_strlit("node_modules");
    reveal_strlit(".cache");
    reveal_strlit("__pycache__");
    reveal_strlit(".npm");
    reveal_strlit(".nuget");
    reveal_strlit(".gradle");
    reveal_strlit(".m2");
    reveal_strlit(".rustup");
    reveal_strlit(".thumbnails");
    reveal_strlit("$RECYCLE.BIN");
    reveal_strlit("System Volume Information");
    reveal_strlit("anaconda3");
    reveal_strlit("miniconda3");
    reveal_strlit(".conda");
    reveal_strlit(".vscode");
    reveal_strlit("Caches");
    reveal_strlit("DerivedData");
    reveal_strlit(".venv");
    let names = scan::cache_names();
    if alike(t, ".ssh"@) {
        assert(like(t[1], ".ssh"@[1]));
    } else if alike(t, ".gnupg"@) {
        assert(like(t[1], ".gnupg"@[1]));
        assert(like(t[2], ".gnupg"@[2]));
    } else {
        assert(like(t[0], "Documents"@[0]));
        assert(like(t[1], "Documents"@[1]));
    }
    assert forall|i: int| 0 <= i < names.len() implies !scan::same_but_case(
        #[trigger] names[i],
        t,
    ) by {
        if scan::same_but_case(names[i], t) {
            assert(names[i].len() == t.len());
            assert(scan::same_letter(names[i][0], t[0]));
            assert(scan::same_letter(names[i][1], t[1]));
            assert(scan::same_letter(names[i][2], t[2]));
        }
    }
}

// ── each path once ───────────────────────────────────────────────────────────
/// Every path found lies in one of the folders `expanded`, and stands there once. The folders
/// still to list are not among those, and no two of them are the same; both kinds were found
/// themselves, but for the root.
spec fn orderly(s: ScanView, expanded: Set<Seq<Seq<u8>>>) -> bool {
    &&& forall|r: Seq<Seq<u8>>| #[trigger] times(s.m, r) <= 1
    &&& forall|r: Seq<Seq<u8>>| #[trigger]
        times(s.m, r) > 0 ==> r.len() > 0 && expanded.contains(r.drop_last())
    &&& forall|a: int, b: int|
        #![trigger s.queue[a], s.queue[b]]
        0 <= a < b < s.queue.len() ==> s.queue[a] != s.queue[b]
    &&& forall|a: int|
        0 <= a < s.queue.len() ==> {
            &&& !expanded.contains(#[trigger] s.queue[a])
            &&& s.queue[a].len() > 0 ==> times(s.m, s.queue[a]) > 0
        }
    &&& forall|d: Seq<Seq<u8>>| #[trigger]
        expanded.contains(d) && d.len() > 0 ==> times(s.m, d) > 0
}

/// Every path found in the folder `dir` was found under one of these names.
spec fn named(s: ScanView, dir: Seq<Seq<u8>>, es: Seq<(Seq<u8>, FoundView)>) -> bool {
    forall|r: Seq<Seq<u8>>| #[trigger]
        times(s.m, r) > 0 && r.drop_last() == dir ==> exists|k: int|
            0 <= k < es.len() && es[k].1 !is Unlisted && (#[trigger] es[k]).0 == r.last()
}

/// Adding one path, wherever it goes, makes it stand there once more, and no other.
proof fn lemma_added(s: ScanView, n: ScanView, rel: Seq<Seq<u8>>, to: int)
    requires
        to == 0 ==> n.m.dirs == s.m.dirs.push(rel) && n.m.files == s.m.files && n.m.excluded
            == s.m.excluded,
        to == 1 ==> n.m.dirs == s.m.dirs && n.m.files.len() == s.m.files.len() + 1
            && n.m.files.drop_last() == s.m.files && n.m.files.last().rel == rel && n.m.excluded
            == s.m.excluded,
        to == 2 ==> n.m.dirs == s.m.dirs && n.m.files == s.m.files && n.m.excluded
            == s.m.excluded.push(rel),
        0 <= to <= 2,
    ensures
        forall|r: Seq<Seq<u8>>| #[trigger]
            times(n.m, r) == times(s.m, r) + if r == rel {
                1nat
            } else {
                0nat
            },
{
    broadcast use vstd::seq_lib::group_to_multiset_ensures;

    if to == 1 {
        assert(paths_of(n.m.files) =~= paths_of(s.m.files).push(rel));
    }
}

proof fn lemma_visited(
    s: ScanView,
    dir: Seq<Seq<u8>>,
    es: Seq<(Seq<u8>, FoundView)>,
    filter: FilterView,
    expanded: Set<Seq<Seq<u8>>>,
)
    requires
        orderly(s, expanded),
        expanded.contains(dir),
        named(s, dir, Seq::empty()),
        distinct(es),
    ensures
        orderly(visited(s, dir, es, filter), expanded),
        named(visited(s, dir, es, filter), dir, es),
    decreases es.len(),
{
    if es.len() == 0 {
        assert(es =~= Seq::empty());
    } else {
        let before = es.drop_last();
        assert forall|a: int, b: int|
            0 <= a < b < before.len() && before[a].1 !is Unlisted
                && before[b].1 !is Unlisted implies (#[trigger] before[a]).0 != (
        #[trigger] before[b]).0 by {
            assert(es[a] == before[a] && es[b] == before[b]);
        }
        lemma_visited(s, dir, before, filter, expanded);
        lemma_visit(visited(s, dir, before, filter), dir, es, filter, expanded);
    }
}

/// The last entry of `es`, after all the others.
proof fn lemma_visit(
    s: ScanView,
    dir: Seq<Seq<u8>>,
    es: Seq<(Seq<u8>, FoundView)>,
    filter: FilterView,
    expanded: Set<Seq<Seq<u8>>>,
)
    requires
        es.len() > 0,
        orderly(s, expanded),
        expanded.contains(dir),
        named(s, dir, es.drop_last()),
        distinct(es),
    ensures
        orderly(s.visit(dir, es.last().0, es.last().1, filter), expanded),
        named(s.visit(dir, es.last().0, es.last().1, filter), dir, es),
{
    let name = es.last().0;
    let what = es.last().1;
    let n = s.visit(dir, name, what, filter);
    let rel = dir.push(name);
    let last = es.len() - 1;
    assert(rel.drop_last() =~= dir);
    assert forall|r: Seq<Seq<u8>>| #[trigger]
        times(s.m, r) > 0 && r.drop_last() == dir implies exists|k: int|
        0 <= k < es.len() && es[k].1 !is Unlisted && (#[trigger] es[k]).0 == r.last() by {
        let k = choose|k: int|
            0 <= k < es.drop_last().len() && es.drop_last()[k].1 !is Unlisted && (
            #[trigger] es.drop_last()[k]).0 == r.last();
        assert(es[k] == es.drop_last()[k]);
    }
    if what !is Unlisted {
        assert(times(s.m, rel) == 0) by {
            if times(s.m, rel) > 0 {
                let k = choose|k: int|
                    0 <= k < es.drop_last().len() && es.drop_last()[k].1 !is Unlisted && (
                    #[trigger] es.drop_last()[k]).0 == rel.last();
                assert(es[k] == es.drop_last()[k]);
                assert(es[last].0 == name);
            }
        }
        assert(es[last].0 == rel.last());
        if filter.excludes(name) {
            lemma_added(s, n, rel, 2);
        } else if what is Dir {
            lemma_added(s, n, rel, 0);
            lemma_queued(s, rel, expanded);
        } else if what is File {
            assert(n.m.files.drop_last() =~= s.m.files);
            lemma_added(s, n, rel, 1);
        }
    }
}

/// A folder just found is not among those already waiting, nor among those already listed.
proof fn lemma_queued(s: ScanView, rel: Seq<Seq<u8>>, expanded: Set<Seq<Seq<u8>>>)
    requires
        orderly(s, expanded),
        rel.len() > 0,
        times(s.m, rel) == 0,
    ensures
        forall|a: int| 0 <= a < s.queue.len() ==> #[trigger] s.queue[a] != rel,
        !expanded.contains(rel),
{
}

proof fn lemma_chose(names: Seq<(Seq<u8>, FoundView)>)
    requires
        Start::Names(names).distinct(),
    ensures
        orderly(Start::Names(names).scan(), set![Seq::<Seq<u8>>::empty()]),
        named(Start::Names(names).scan(), Seq::empty(), names),
    decreases names.len(),
{
    let root = Seq::<Seq<u8>>::empty();
    let expanded = set![root];
    let n = Start::Names(names).scan();
    if names.len() == 0 {
        lemma_nothing(n);
    } else {
        let before = names.drop_last();
        let s = Start::Names(before).scan();
        assert forall|a: int, b: int| 0 <= a < b < before.len() implies (#[trigger] before[a]).0
            != (#[trigger] before[b]).0 by {
            assert(names[a] == before[a] && names[b] == before[b]);
        }
        lemma_chose(before);
        let what = names.last().1;
        let rel = seq![names.last().0];
        let last = names.len() - 1;
        assert(n == s.pick(rel, what));
        assert(rel.drop_last() =~= root);
        assert forall|r: Seq<Seq<u8>>| #[trigger]
            times(s.m, r) > 0 && r.drop_last() == root implies exists|k: int|
            0 <= k < names.len() && names[k].1 !is Unlisted && (#[trigger] names[k]).0
                == r.last() by {
            let k = choose|k: int|
                0 <= k < before.len() && before[k].1 !is Unlisted && (#[trigger] before[k]).0
                    == r.last();
            assert(names[k] == before[k]);
        }
        assert(times(s.m, rel) == 0) by {
            if times(s.m, rel) > 0 {
                let k = choose|k: int|
                    0 <= k < before.len() && before[k].1 !is Unlisted && (#[trigger] before[k]).0
                        == rel.last();
                assert(names[k] == before[k]);
                assert(names[last].0 == rel.last());
            }
        }
        assert(names[last].0 == rel.last());
        if what is Dir {
            lemma_added(s, n, rel, 0);
            lemma_queued(s, rel, expanded);
        } else if what is File {
            assert(n.m.files.drop_last() =~= s.m.files);
            lemma_added(s, n, rel, 1);
        } else {
            assert(forall|r: Seq<Seq<u8>>| #[trigger] times(n.m, r) == times(s.m, r));
        }
    }
}

proof fn lemma_nothing(s: ScanView)
    requires
        s.m == ManifestView::empty(),
    ensures
        forall|r: Seq<Seq<u8>>| #[trigger] times(s.m, r) == 0,
{
    broadcast use vstd::seq_lib::group_to_multiset_ensures;

    let none = Seq::<Seq<Seq<u8>>>::empty();
    assert(paths_of(s.m.files) =~= none);
    assert forall|r: Seq<Seq<u8>>| #[trigger] times(s.m, r) == 0 by {
        assert(!none.contains(r));
    }
}

/// The folders a walk counts as listed when it starts: below the names chosen by hand, the one
/// they stand in.
proof fn lemma_start(start: Start) -> (expanded: Set<Seq<Seq<u8>>>)
    requires
        start.distinct(),
    ensures
        orderly(start.scan(), expanded),
{
    match start {
        Start::Tree => {
            lemma_nothing(start.scan());
            Set::empty()
        },
        Start::Names(names) => {
            lemma_chose(names);
            set![Seq::<Seq<u8>>::empty()]
        },
    }
}

proof fn lemma_walk(
    s: ScanView,
    ls: Seq<Listing>,
    filter: FilterView,
    expanded: Set<Seq<Seq<u8>>>,
) -> (seen: Set<Seq<Seq<u8>>>)
    requires
        orderly(s, expanded),
        a_walk(s, ls, filter),
    ensures
        orderly(walked(s, ls, filter), seen),
    decreases ls.len(),
{
    if ls.len() == 0 {
        expanded
    } else {
        let seen = lemma_walk(s, ls.drop_last(), filter, expanded);
        let b = walked(s, ls.drop_last(), filter);
        let dir = b.queue.last();
        let n = ScanView { queue: b.queue.drop_last(), ..b };
        let more = seen.insert(dir);
        assert(dir == b.queue[b.queue.len() - 1]);
        assert forall|a: int| 0 <= a < n.queue.len() implies !more.contains(
            #[trigger] n.queue[a],
        ) by {
            assert(n.queue[a] == b.queue[a]);
        }
        assert(orderly(n, more));
        assert(named(n, dir, Seq::empty()));
        match ls.last() {
            Listing::Unreadable(why) => {
                let u = listed(b, ls.last(), filter);
                assert(forall|r: Seq<Seq<u8>>| #[trigger] times(u.m, r) == times(n.m, r));
                assert(orderly(u, more));
            },
            Listing::Entries(es) => {
                lemma_visited(n, dir, es, filter, more);
            },
        }
        more
    }
}

proof fn lemma_path_positions(files: Seq<EntryView>, p: Seq<usize>)
    requires
        by_path(files, p),
    ensures
        forall|a: int, b: int| 0 <= a < b < p.len() ==> p[a] != p[b],
{
    assert forall|a: int, b: int| 0 <= a < b < p.len() implies p[a] != p[b] by {
        assert(path_precedes(files, p[a] as int, p[b] as int));
        path::lemma_path_irreflexive(files[p[a] as int].rel);
    }
}

/// Putting the lists in order moves nothing from one to another.
proof fn lemma_finished(s: ScanView, m: ManifestView)
    requires
        finished(s, m),
        m.dirs.len() <= usize::MAX,
        m.files.len() <= usize::MAX,
    ensures
        forall|r: Seq<Seq<u8>>| #[trigger] times(m, r) == times(s.m, r),
{
    let pd = choose|p: Seq<usize>| #[trigger]
        by_depth(s.m.dirs, p) && m.dirs == sort::picked(s.m.dirs, p);
    assert forall|a: int, b: int| 0 <= a < b < pd.len() implies pd[a] != pd[b] by {
        assert(depth_precedes(s.m.dirs, pd[a] as int, pd[b] as int));
    }
    sort::lemma_permuted(s.m.dirs, pd);
    let pf = choose|p: Seq<usize>| #[trigger]
        by_path(s.m.files, p) && m.files == sort::picked(s.m.files, p);
    lemma_path_positions(s.m.files, pf);
    sort::lemma_permuted(paths_of(s.m.files), pf);
    assert(paths_of(m.files) =~= sort::picked(paths_of(s.m.files), pf));
}

// ── the total ────────────────────────────────────────────────────────────────
proof fn lemma_total_chose(names: Seq<(Seq<u8>, FoundView)>)
    ensures
        ({
            let s = Start::Names(names).scan();
            s.m.total_bytes == clamp(total_size(s.m.files))
        }),
    decreases names.len(),
{
    if names.len() > 0 {
        let before = names.drop_last();
        lemma_total_chose(before);
        law_total_is_the_sum_of_the_files(
            Start::Names(before).scan(),
            seq![names.last().0],
            Seq::empty(),
            names.last().1,
            vstd::pervasive::arbitrary(),
        );
    }
}

proof fn lemma_total_at_start(start: Start)
    ensures
        start.scan().m.total_bytes == clamp(total_size(start.scan().m.files)),
{
    if let Start::Names(names) = start {
        lemma_total_chose(names);
    }
}

proof fn lemma_total_visited(
    s: ScanView,
    dir: Seq<Seq<u8>>,
    es: Seq<(Seq<u8>, FoundView)>,
    filter: FilterView,
)
    requires
        s.m.total_bytes == clamp(total_size(s.m.files)),
    ensures
        ({
            let n = visited(s, dir, es, filter);
            n.m.total_bytes == clamp(total_size(n.m.files))
        }),
    decreases es.len(),
{
    if es.len() > 0 {
        let before = es.drop_last();
        lemma_total_visited(s, dir, before, filter);
        law_total_is_the_sum_of_the_files(
            visited(s, dir, before, filter),
            dir,
            es.last().0,
            es.last().1,
            filter,
        );
    }
}

proof fn lemma_total_of_walk(s: ScanView, ls: Seq<Listing>, filter: FilterView)
    requires
        s.m.total_bytes == clamp(total_size(s.m.files)),
    ensures
        ({
            let n = walked(s, ls, filter);
            n.m.total_bytes == clamp(total_size(n.m.files))
        }),
    decreases ls.len(),
{
    if ls.len() > 0 {
        lemma_total_of_walk(s, ls.drop_last(), filter);
        let b = walked(s, ls.drop_last(), filter);
        let n = ScanView { queue: b.queue.drop_last(), ..b };
        if let Listing::Entries(es) = ls.last() {
            lemma_total_visited(n, b.queue.last(), es, filter);
        }
    }
}

proof fn lemma_total_remove(files: Seq<EntryView>, k: int)
    requires
        0 <= k < files.len(),
    ensures
        total_size(files) == total_size(files.remove(k)) + files[k].size,
    decreases files.len(),
{
    if k == files.len() - 1 {
        assert(files.remove(k) =~= files.drop_last());
    } else {
        lemma_total_remove(files.drop_last(), k);
        assert(files.remove(k).drop_last() =~= files.drop_last().remove(k));
        assert(files.remove(k).last() == files.last());
    }
}

/// The order of the files does not change their total.
proof fn lemma_total_permuted(a: Seq<EntryView>, b: Seq<EntryView>)
    requires
        a.to_multiset() == b.to_multiset(),
    ensures
        total_size(a) == total_size(b),
    decreases a.len(),
{
    broadcast use vstd::seq_lib::group_to_multiset_ensures;

    assert(a.len() == b.len()) by {
        assert(a.to_multiset().len() == a.len());
        assert(b.to_multiset().len() == b.len());
    }
    if a.len() > 0 {
        let x = a.last();
        let last = a.len() - 1;
        assert(a[last] == x);
        assert(a.contains(x));
        assert(b.to_multiset().count(x) > 0);
        assert(b.contains(x));
        let k = choose|k: int| 0 <= k < b.len() && b[k] == x;
        lemma_total_remove(b, k);
        assert(a.remove(last) =~= a.drop_last());
        assert(a.remove(last).to_multiset() == b.remove(k).to_multiset());
        lemma_total_permuted(a.drop_last(), b.remove(k));
    }
}

// ── only what is kept ────────────────────────────────────────────────────────
proof fn lemma_reachable_chose(
    names: Seq<(Seq<u8>, FoundView)>,
    filter: FilterView,
    chosen: Set<Seq<Seq<u8>>>,
)
    requires
        forall|i: int| 0 <= i < names.len() ==> chosen.contains(seq![(#[trigger] names[i]).0]),
    ensures
        only_reachable(Start::Names(names).scan(), chosen, filter),
    decreases names.len(),
{
    if names.len() > 0 {
        let before = names.drop_last();
        assert forall|i: int| 0 <= i < before.len() implies chosen.contains(
            seq![(#[trigger] before[i]).0],
        ) by {
            assert(names[i] == before[i]);
        }
        lemma_reachable_chose(before, filter, chosen);
        assert(chosen.contains(seq![names[names.len() - 1].0]));
        law_a_chosen_name_is_never_left_out(
            Start::Names(before).scan(),
            seq![names.last().0],
            names.last().1,
            filter,
            chosen,
        );
    }
}

proof fn lemma_reachable_at_start(start: Start, filter: FilterView)
    ensures
        only_reachable(start.scan(), start.chosen(), filter),
{
    match start {
        Start::Tree => {
            let root = Seq::<Seq<u8>>::empty();
            assert(root.take(0) =~= root);
            assert(!filter.excludes_some(root.skip(0)));
            assert(reachable(root, start.chosen(), filter));
        },
        Start::Names(names) => {
            lemma_reachable_chose(names, filter, start.chosen());
        },
    }
}

proof fn lemma_reachable_visited(
    s: ScanView,
    dir: Seq<Seq<u8>>,
    es: Seq<(Seq<u8>, FoundView)>,
    filter: FilterView,
    chosen: Set<Seq<Seq<u8>>>,
)
    requires
        only_reachable(s, chosen, filter),
        reachable(dir, chosen, filter),
    ensures
        only_reachable(visited(s, dir, es, filter), chosen, filter),
    decreases es.len(),
{
    if es.len() > 0 {
        let before = es.drop_last();
        lemma_reachable_visited(s, dir, before, filter, chosen);
        law_left_out_means_the_whole_subtree(
            visited(s, dir, before, filter),
            dir,
            es.last().0,
            es.last().1,
            filter,
            chosen,
        );
    }
}

proof fn lemma_reachable_walk(start: Start, ls: Seq<Listing>, filter: FilterView)
    requires
        a_walk(start.scan(), ls, filter),
        only_reachable(start.scan(), start.chosen(), filter),
    ensures
        only_reachable(walked(start.scan(), ls, filter), start.chosen(), filter),
    decreases ls.len(),
{
    if ls.len() > 0 {
        lemma_reachable_walk(start, ls.drop_last(), filter);
        let b = walked(start.scan(), ls.drop_last(), filter);
        let dir = b.queue[b.queue.len() - 1];
        let n = ScanView { queue: b.queue.drop_last(), ..b };
        assert forall|i: int| 0 <= i < n.queue.len() implies reachable(
            #[trigger] n.queue[i],
            start.chosen(),
            filter,
        ) by {
            assert(n.queue[i] == b.queue[i]);
        }
        assert(only_reachable(n, start.chosen(), filter));
        if let Listing::Entries(es) = ls.last() {
            lemma_reachable_visited(n, dir, es, filter, start.chosen());
        }
    }
}

/// A text begins like another but for small and capital letters.
pub open spec fn begins_like(t: Seq<char>, p: Seq<char>) -> bool {
    p.len() <= t.len() && alike(p, t.take(p.len() as int))
}

/// Leaving out caches leaves out these names and no others.
pub proof fn law_which_names_are_caches(name: Seq<u8>)
    ensures
        (FilterView { names: scan::cache_names(), prefixes: Seq::empty() }).excludes(name) <==> {
            let t = path::lossy_text(name);
            ||| alike("AppData"@, t)
            ||| alike("node_modules"@, t)
            ||| alike(".cache"@, t)
            ||| alike("__pycache__"@, t)
            ||| alike(".npm"@, t)
            ||| alike(".nuget"@, t)
            ||| alike(".gradle"@, t)
            ||| alike(".m2"@, t)
            ||| alike(".rustup"@, t)
            ||| alike(".thumbnails"@, t)
            ||| alike("$RECYCLE.BIN"@, t)
            ||| alike("System Volume Information"@, t)
            ||| alike("anaconda3"@, t)
            ||| alike("miniconda3"@, t)
            ||| alike(".conda"@, t)
            ||| alike(".vscode"@, t)
            ||| alike("Caches"@, t)
            ||| alike("DerivedData"@, t)
            ||| alike(".venv"@, t)
        },
{
    let f = FilterView { names: scan::cache_names(), prefixes: Seq::empty() };
    law_what_a_filter_leaves_out(f, name);
    assert(f.names[0] == "AppData"@);
    assert(f.names[1] == "node_modules"@);
    assert(f.names[2] == ".cache"@);
    assert(f.names[3] == "__pycache__"@);
    assert(f.names[4] == ".npm"@);
    assert(f.names[5] == ".nuget"@);
    assert(f.names[6] == ".gradle"@);
    assert(f.names[7] == ".m2"@);
    assert(f.names[8] == ".rustup"@);
    assert(f.names[9] == ".thumbnails"@);
    assert(f.names[10] == "$RECYCLE.BIN"@);
    assert(f.names[11] == "System Volume Information"@);
    assert(f.names[12] == "anaconda3"@);
    assert(f.names[13] == "miniconda3"@);
    assert(f.names[14] == ".conda"@);
    assert(f.names[15] == ".vscode"@);
    assert(f.names[16] == "Caches"@);
    assert(f.names[17] == "DerivedData"@);
    assert(f.names[18] == ".venv"@);
}

/// Leaving out cloud folders leaves out what begins like these and nothing else.
pub proof fn law_which_folders_are_of_the_cloud(name: Seq<u8>)
    ensures
        (FilterView { names: Seq::empty(), prefixes: scan::cloud_prefixes() }).excludes(name)
            <==> {
            let t = path::lossy_text(name);
            ||| begins_like(t, "OneDrive"@)
            ||| begins_like(t, "Dropbox"@)
            ||| begins_like(t, "Google Drive"@)
            ||| begins_like(t, "iCloud"@)
        },
{
    let f = FilterView { names: Seq::empty(), prefixes: scan::cloud_prefixes() };
    law_what_a_filter_leaves_out(f, name);
    assert(f.prefixes[0] == "OneDrive"@);
    assert(f.prefixes[1] == "Dropbox"@);
    assert(f.prefixes[2] == "Google Drive"@);
    assert(f.prefixes[3] == "iCloud"@);
}

/// Each folder that waits is taken up once: taking one up leaves exactly the others waiting, in
/// their order, and changes nothing of what was found. None is taken up only where none waits.
pub proof fn law_each_folder_is_taken_up_once(
    before: ScanView,
    after: ScanView,
    dir: Option<Seq<Seq<u8>>>,
)
    requires
        scan::took_up(before, after, dir),
    ensures
        dir is None <==> before.queue.len() == 0,
        dir is None ==> after == before,
        dir is Some ==> after.queue.push(dir->0) == before.queue,
        after.m == before.m,
{
    if dir is Some {
        assert(after.queue.push(dir->0) =~= before.queue);
    }
}

/// A file for itself is a job of that one file, as it was found; its total is its size.
pub proof fn law_a_lone_file_is_taken_as_it_is(name: Seq<u8>, size: u64, mtime: i64, mtime_ns: i64)
    ensures
        ({
            let m = scan::lone(name, size, mtime, mtime_ns);
            &&& m.root_is_file
            &&& m.files.len() == 1
            &&& m.files[0].rel.len() == 1 && m.files[0].rel[0] == name
            &&& m.files[0].size == size
            &&& m.files[0].mtime == mtime && m.files[0].mtime_ns == mtime_ns
            &&& m.total_bytes == size
            &&& m.dirs.len() == 0 && m.skipped.len() == 0 && m.excluded.len() == 0
        }),
{
}

/// A scan begins with nothing found: of a folder with that folder to list, of a choice with none.
pub proof fn law_how_a_scan_begins()
    ensures
        ScanView::of_tree().queue.len() == 1 && ScanView::of_tree().queue[0].len() == 0,
        ScanView::of_choice().queue.len() == 0,
        ScanView::of_tree().m == ScanView::of_choice().m,
        ScanView::of_tree().m.files.len() == 0 && ScanView::of_tree().m.dirs.len() == 0,
        ScanView::of_tree().m.total_bytes == 0 && !ScanView::of_tree().m.root_is_file,
{
}

} // verus!
