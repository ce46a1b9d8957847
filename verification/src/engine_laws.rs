//! What the decisions before and during a transfer mean, in terms of the files themselves.

use crate::engine;
use crate::engine::{DestStat, FactsView};
use crate::journal::{DoneView, Mode};
use crate::path;
use crate::path::{FullView, Os, PartView};
use crate::path_laws::law_above_and_last;
use crate::scan;
use crate::scan::{EntryView, ManifestView};
use vstd::prelude::*;

verus! {

// ── is it already there? ─────────────────────────────────────────────────────
/// A file the journal calls done is passed over exactly when the source is, in size, in whole
/// seconds and in nanoseconds, the one that was recorded, with nanoseconds that were recorded
/// at all; and the destination has the recorded size and a time that is off by a whole number
/// of hours, up to fourteen either way, to within two seconds.
pub proof fn law_settled_means_unchanged(st: Option<DestStat>, e: EntryView, rec: DoneView)
    ensures
        engine::settled(st, e, rec) <==> {
            &&& e.size == rec.size
            &&& e.mtime == rec.mtime
            &&& e.mtime_ns == rec.mtime_ns
            &&& rec.mtime_ns != 0
            &&& st is Some
            &&& st->0.len == rec.size
            &&& exists|h: int|
                -14 <= h <= 14 && -2 <= st->0.mtime - rec.mtime - #[trigger] (h * 3600) <= 2
        },
{
    if st is Some {
        let d = st->0.mtime - rec.mtime;
        let gap = engine::apart(st->0.mtime as int, rec.mtime as int);
        if engine::same_but_clock(st->0.mtime as int, rec.mtime as int) {
            if gap <= 2 {
                assert(-2 <= d - 0 * 3600 <= 2);
            } else {
                let h = choose|h: int|
                    1 <= h <= 14 && engine::apart(gap, #[trigger] (h * 3600)) <= 2;
                if d >= 0 {
                    assert(-2 <= d - h * 3600 <= 2);
                } else {
                    let k = -h;
                    assert(k * 3600 == -(h * 3600));
                    assert(-2 <= d - k * 3600 <= 2);
                }
            }
        }
        if exists|h: int| -14 <= h <= 14 && -2 <= d - #[trigger] (h * 3600) <= 2 {
            let h = choose|h: int| -14 <= h <= 14 && -2 <= d - #[trigger] (h * 3600) <= 2;
            if h > 0 {
                assert(engine::apart(gap, h * 3600) <= 2);
            } else if h < 0 {
                let k = -h;
                assert(k * 3600 == -(h * 3600));
                assert(engine::apart(gap, k * 3600) <= 2);
            }
        }
    }
}

/// One record vouches for one state of the source only: whatever stands at the destination,
/// two entries that the same record settles have the same size and the same times.
pub proof fn law_a_record_settles_one_source(
    st: Option<DestStat>,
    st2: Option<DestStat>,
    e: EntryView,
    e2: EntryView,
    rec: DoneView,
)
    requires
        engine::settled(st, e, rec),
        engine::settled(st2, e2, rec),
    ensures
        e.size == e2.size,
        e.mtime == e2.mtime,
        e.mtime_ns == e2.mtime_ns,
        st->0.len == e2.size,
{
}

/// The destination is taken to hold the entry exactly when it is a regular file of the entry's
/// length whose time is at most two seconds earlier or later.
pub proof fn law_the_same_file_within_two_seconds(st: Option<DestStat>, e: EntryView)
    ensures
        engine::matches_dest(st, e) <==> {
            &&& st is Some
            &&& st->0.is_file
            &&& st->0.len == e.size
            &&& -2 <= st->0.mtime - e.mtime <= 2
        },
        st is Some && e.mtime - st->0.mtime > 2 ==> engine::clashes(st, e),
        st is Some && st->0.mtime - e.mtime > 2 ==> engine::clashes(st, e),
        st is None ==> !engine::clashes(st, e),
        engine::clashes(st, e) ==> st is Some && (!st->0.is_file || st->0.len != e.size
            || st->0.mtime - e.mtime < -2 || st->0.mtime - e.mtime > 2),
{
}

/// In a paranoid run, the same size and time are not enough: both ends must have been read,
/// and their hashes be one.
pub proof fn law_paranoia_asks_for_the_bytes(
    st: Option<DestStat>,
    e: EntryView,
    paranoid: bool,
    src: Option<u128>,
    dst: Option<u128>,
)
    ensures
        engine::matches_deep(st, e, paranoid, src, dst) ==> st is Some && st->0.is_file
            && st->0.len == e.size && -2 <= st->0.mtime - e.mtime <= 2,
        engine::matches_deep(st, e, true, src, dst) ==> src is Some && dst is Some && src->0
            == dst->0,
        !paranoid && st is Some && st->0.is_file && st->0.len == e.size && -2 <= st->0.mtime
            - e.mtime <= 2 ==> engine::matches_deep(st, e, paranoid, src, dst),
{
}

/// The place of file `i` is taken by something that is not the file.
pub open spec fn taken(files: Seq<EntryView>, stats: Seq<Option<DestStat>>, i: int) -> bool {
    &&& 0 <= i < stats.len()
    &&& stats[i] is Some
    &&& !(stats[i]->0.is_file && stats[i]->0.len == files[i].size && -2 <= stats[i]->0.mtime
        - files[i].mtime <= 2)
}

/// The place of file `i` holds the file already.
pub open spec fn in_place(files: Seq<EntryView>, stats: Seq<Option<DestStat>>, i: int) -> bool {
    &&& 0 <= i < stats.len()
    &&& stats[i] is Some
    &&& stats[i]->0.is_file && stats[i]->0.len == files[i].size && -2 <= stats[i]->0.mtime
        - files[i].mtime <= 2
}

/// The conflicts are the files whose place is taken by something else, all of them and no
/// others, in the order of the files.
pub proof fn law_conflicts_are_the_places_taken(
    files: Seq<EntryView>,
    stats: Seq<Option<DestStat>>,
    n: int,
)
    requires
        0 <= n <= files.len(),
    ensures
        n == 0 ==> engine::conflicts_of(files, stats, n).len() == 0,
        n > 0 && taken(files, stats, n - 1) ==> engine::conflicts_of(files, stats, n)
            == engine::conflicts_of(files, stats, n - 1).push(files[n - 1].rel),
        n > 0 && !taken(files, stats, n - 1) ==> engine::conflicts_of(files, stats, n)
            == engine::conflicts_of(files, stats, n - 1),
        forall|i: int|
            0 <= i < n && #[trigger] taken(files, stats, i) ==> engine::conflicts_of(
                files,
                stats,
                n,
            ).contains(files[i].rel),
        forall|k: int|
            #![trigger engine::conflicts_of(files, stats, n)[k]]
            0 <= k < engine::conflicts_of(files, stats, n).len() ==> exists|i: int|
                0 <= i < n && #[trigger] taken(files, stats, i) && files[i].rel
                    == engine::conflicts_of(files, stats, n)[k],
    decreases n,
{
    if n > 0 {
        law_conflicts_are_the_places_taken(files, stats, n - 1);
        let b = engine::conflicts_of(files, stats, n - 1);
        let c = engine::conflicts_of(files, stats, n);
        assert forall|i: int| 0 <= i < n && #[trigger] taken(files, stats, i) implies c.contains(
            files[i].rel,
        ) by {
            if i == n - 1 {
                assert(c[c.len() - 1] == files[i].rel);
            } else {
                assert(b.contains(files[i].rel));
                let k = choose|k: int| 0 <= k < b.len() && b[k] == files[i].rel;
                assert(c[k] == files[i].rel);
            }
        }
        assert forall|k: int| 0 <= k < c.len() implies exists|i: int|
            0 <= i < n && #[trigger] taken(files, stats, i) && files[i].rel == #[trigger] c[k] by {
            if k < b.len() {
                assert(c[k] == b[k]);
                let i = choose|i: int|
                    0 <= i < n - 1 && #[trigger] taken(files, stats, i) && files[i].rel == b[k];
                assert(taken(files, stats, i));
            } else {
                assert(taken(files, stats, n - 1));
            }
        }
    }
}

/// What is still needed are the sizes of the files that are not in place, each once.
pub proof fn law_needed_is_what_is_not_in_place(
    files: Seq<EntryView>,
    stats: Seq<Option<DestStat>>,
    n: int,
)
    requires
        0 <= n < files.len(),
    ensures
        engine::needed(files, stats, 0) == 0,
        engine::needed(files, stats, n + 1) == engine::needed(files, stats, n) + (if in_place(
            files,
            stats,
            n,
        ) {
            0int
        } else {
            files[n].size as int
        }),
{
}

/// A sum is kept as it is up to what 64 bits hold, and as that beyond.
pub proof fn law_a_sum_is_cut_at_64_bits(n: nat)
    ensures
        n <= 18_446_744_073_709_551_615 ==> scan::clamp(n) == n,
        n > 18_446_744_073_709_551_615 ==> scan::clamp(n) == 18_446_744_073_709_551_615,
{
}

/// The total is the sum of the sizes: nothing for no files, and each more file adds its own.
pub proof fn law_a_total_adds_each_size(files: Seq<EntryView>, e: EntryView)
    ensures
        scan::total_size(Seq::empty()) == 0,
        scan::total_size(files.push(e)) == scan::total_size(files) + e.size,
{
    assert(files.push(e).drop_last() =~= files);
}

// ── may the pair be served at all? ───────────────────────────────────────────
/// `dst` reads like a path below `src`.
pub open spec fn reads_below(src: Seq<char>, dst: Seq<char>, c: char) -> bool {
    dst.len() > src.len() && dst.take(src.len() as int) == src && dst[src.len() as int] == c
}

/// A pair is served exactly when source and destination are known to be two places and the
/// destination does not lie below the source. Nothing but these facts decides; the mode only
/// changes the words.
pub proof fn law_a_pair_is_served_only_apart(f: FactsView, mode: Mode, os: Os)
    ensures
        f.refusal(mode, os) is None <==> {
            &&& f.src_key != f.dst_key
            &&& !f.same_file
            &&& !f.probed
            &&& !f.inside
            &&& !reads_below(f.src_key, f.dst_key, if os is Windows {
                '\\'
            } else {
                '/'
            })
        },
        (f.refusal(Mode::Copy, os) is None) == (f.refusal(Mode::Move, os) is None),
{
    let c = if os is Windows {
        '\\'
    } else {
        '/'
    };
    let p = f.src_key.push(c);
    let n = f.src_key.len() as int;
    if p.is_prefix_of(f.dst_key) {
        assert(f.dst_key.take(n) =~= f.src_key) by {
            assert forall|i: int| 0 <= i < n implies f.dst_key[i] == f.src_key[i] by {
                assert(p[i] == f.dst_key.take(n + 1)[i]);
            }
        }
        assert(p[n] == f.dst_key.take(n + 1)[n]);
    }
    if reads_below(f.src_key, f.dst_key, c) {
        assert(p =~= f.dst_key.take(n + 1)) by {
            assert forall|i: int| 0 <= i < n implies p[i] == f.dst_key[i] by {
                assert(f.dst_key.take(n)[i] == f.src_key[i]);
            }
        }
    }
}

/// What is said of a refused pair: of one place, in a move, that the only copy would go.
pub proof fn law_what_is_said_of_a_refused_pair(f: FactsView, os: Os)
    requires
        f.src_key == f.dst_key || f.same_file || f.probed,
    ensures
        f.refusal(Mode::Move, os) == Some(
            "source and destination are the same path — a move would delete the only copy"@,
        ),
        f.refusal(Mode::Copy, os) == Some("source and destination are the same path"@),
{
}

// ── can the names land there? ────────────────────────────────────────────────
/// `c` is this letter, small or capital.
pub open spec fn letter(c: char, small: char, capital: char) -> bool {
    c == small || c == capital
}

/// The name of a device of Windows, in whatever case.
pub open spec fn device(s: Seq<char>) -> bool {
    ||| s.len() == 3 && letter(s[0], 'c', 'C') && letter(s[1], 'o', 'O') && letter(s[2], 'n', 'N')
    ||| s.len() == 3 && letter(s[0], 'p', 'P') && letter(s[1], 'r', 'R') && letter(s[2], 'n', 'N')
    ||| s.len() == 3 && letter(s[0], 'a', 'A') && letter(s[1], 'u', 'U') && letter(s[2], 'x', 'X')
    ||| s.len() == 3 && letter(s[0], 'n', 'N') && letter(s[1], 'u', 'U') && letter(s[2], 'l', 'L')
    ||| s.len() == 4 && letter(s[0], 'c', 'C') && letter(s[1], 'o', 'O') && letter(s[2], 'm', 'M')
        && '1' <= s[3] <= '9'
    ||| s.len() == 4 && letter(s[0], 'l', 'L') && letter(s[1], 'p', 'P') && letter(s[2], 't', 'T')
        && '1' <= s[3] <= '9'
}

/// What stands before the first dot of a name is its first `k` characters.
pub open spec fn cut_at_dot(name: Seq<char>, k: int) -> bool {
    &&& 0 <= k <= name.len()
    &&& forall|i: int| 0 <= i < k ==> #[trigger] name[i] != '.'
    &&& k < name.len() ==> name[k] == '.'
}

/// Windows can hold a name exactly when it has no colon, ends in neither a dot nor a space,
/// and is, up to its first dot, not the name of a device.
pub proof fn law_what_windows_can_hold(name: Seq<char>, k: int)
    requires
        cut_at_dot(name, k),
    ensures
        engine::windows_objection(name) is None <==> {
            &&& !name.contains(':')
            &&& !(name.len() > 0 && (name[name.len() - 1] == '.' || name[name.len() - 1] == ' '))
            &&& !device(name.take(k))
        },
{
    lemma_stem(name, k);
    lemma_device(name.take(k));
}

proof fn lemma_stem(name: Seq<char>, k: int)
    requires
        cut_at_dot(name, k),
    ensures
        engine::first_index(name, '.') == k,
    decreases name.len(),
{
    if k > 0 {
        assert(name[0] != '.');
        let rest = name.drop_first();
        assert forall|i: int| 0 <= i < k - 1 implies #[trigger] rest[i] != '.' by {
            assert(rest[i] == name[i + 1]);
        }
        lemma_stem(rest, k - 1);
    }
}

#[verifier::spinoff_prover]
proof fn lemma_device(s: Seq<char>)
    ensures
        device(s) == (exists|i: int|
            0 <= i < engine::reserved_stems().len() && scan::same_but_case(
                #[trigger] engine::reserved_stems()[i],
                s,
            )),
{
    reveal_strlit("CON");
    reveal_strlit("PRN");
    reveal_strlit("AUX");
    reveal_strlit("NUL");
    reveal_strlit("COM1");
    reveal_strlit("COM2");
    reveal_strlit("COM3");
    reveal_strlit("COM4");
    reveal_strlit("COM5");
    reveal_strlit("COM6");
    reveal_strlit("COM7");
    reveal_strlit("COM8");
    reveal_strlit("COM9");
    reveal_strlit("LPT1");
    reveal_strlit("LPT2");
    reveal_strlit("LPT3");
    reveal_strlit("LPT4");
    reveal_strlit("LPT5");
    reveal_strlit("LPT6");
    reveal_strlit("LPT7");
    reveal_strlit("LPT8");
    reveal_strlit("LPT9");
    let r = engine::reserved_stems();
    if device(s) {
        let i: int = if s.len() == 3 {
            if letter(s[0], 'c', 'C') {
                0
            } else if letter(s[0], 'p', 'P') {
                1
            } else if letter(s[0], 'a', 'A') {
                2
            } else {
                3
            }
        } else if letter(s[0], 'c', 'C') {
            4 + (s[3] as int - '1' as int)
        } else {
            13 + (s[3] as int - '1' as int)
        };
        assert(scan::same_but_case(r[i], s));
    }
    if exists|i: int| 0 <= i < r.len() && scan::same_but_case(#[trigger] r[i], s) {
        let i = choose|i: int| 0 <= i < r.len() && scan::same_but_case(#[trigger] r[i], s);
        assert(r[i].len() == s.len());
        assert(scan::same_letter(r[i][0], s[0]));
        assert(scan::same_letter(r[i][1], s[1]));
        assert(scan::same_letter(r[i][2], s[2]));
        if r[i].len() == 4 {
            assert(scan::same_letter(r[i][3], s[3]));
        }
    }
}

/// A job can go to Windows exactly when every name of every file can.
pub proof fn law_one_bad_name_refuses_the_job(files: Seq<EntryView>, i: int)
    requires
        0 <= i <= files.len(),
    ensures
        engine::windows_refusal(files, i) is None <==> forall|f: int, k: int|
            i <= f < files.len() && 0 <= k < files[f].rel.len() ==> engine::windows_objection(
                path::lossy_text(#[trigger] files[f].rel[k]),
            ) is None,
    decreases files.len() - i,
{
    if i < files.len() {
        law_one_bad_name_refuses_the_job(files, i + 1);
        lemma_parts(files[i].rel, 0);
    }
}

proof fn lemma_parts(rel: Seq<Seq<u8>>, i: int)
    requires
        0 <= i <= rel.len(),
    ensures
        engine::part_objection(rel, i) is None <==> forall|k: int|
            i <= k < rel.len() ==> engine::windows_objection(
                path::lossy_text(#[trigger] rel[k]),
            ) is None,
    decreases rel.len() - i,
{
    if i < rel.len() {
        lemma_parts(rel, i + 1);
    }
}

/// A drive that ignores case takes a job exactly when no two of its paths, folders and files
/// together, read the same in small letters.
pub proof fn law_no_two_paths_become_one(m: ManifestView, os: Os)
    ensures
        engine::distinct_upto(
            engine::all_rels(m),
            os,
            engine::all_rels(m).len() as int,
        ) <==> {
            &&& forall|a: int, b: int|
                #![trigger m.dirs[a], m.dirs[b]]
                0 <= a < b < m.dirs.len() ==> engine::lower_text(path::rel_text(m.dirs[a], os))
                    != engine::lower_text(path::rel_text(m.dirs[b], os))
            &&& forall|a: int, b: int|
                #![trigger m.files[a], m.files[b]]
                0 <= a < b < m.files.len() ==> engine::lower_text(
                    path::rel_text(m.files[a].rel, os),
                ) != engine::lower_text(path::rel_text(m.files[b].rel, os))
            &&& forall|a: int, b: int|
                #![trigger m.dirs[a], m.files[b]]
                0 <= a < m.dirs.len() && 0 <= b < m.files.len() ==> engine::lower_text(
                    path::rel_text(m.dirs[a], os),
                ) != engine::lower_text(path::rel_text(m.files[b].rel, os))
        },
{
    let all = engine::all_rels(m);
    let d = m.dirs.len() as int;
    assert(forall|a: int| 0 <= a < d ==> #[trigger] all[a] == m.dirs[a]);
    assert(forall|a: int| 0 <= a < m.files.len() ==> all[d + a] == (#[trigger] m.files[a]).rel);
    assert(all.len() == d + m.files.len());
    if engine::distinct_upto(all, os, all.len() as int) {
        assert forall|a: int, b: int|
            #![trigger m.dirs[a], m.dirs[b]]
            0 <= a < b < m.dirs.len() implies engine::lower_text(path::rel_text(m.dirs[a], os))
            != engine::lower_text(path::rel_text(m.dirs[b], os)) by {
            assert(all[a] == m.dirs[a] && all[b] == m.dirs[b]);
        }
        assert forall|a: int, b: int|
            #![trigger m.files[a], m.files[b]]
            0 <= a < b < m.files.len() implies engine::lower_text(
            path::rel_text(m.files[a].rel, os),
        ) != engine::lower_text(path::rel_text(m.files[b].rel, os)) by {
            assert(all[d + a] == m.files[a].rel && all[d + b] == m.files[b].rel);
        }
        assert forall|a: int, b: int|
            #![trigger m.dirs[a], m.files[b]]
            0 <= a < m.dirs.len() && 0 <= b < m.files.len() implies engine::lower_text(
            path::rel_text(m.dirs[a], os),
        ) != engine::lower_text(path::rel_text(m.files[b].rel, os)) by {
            assert(all[a] == m.dirs[a] && all[d + b] == m.files[b].rel);
        }
    } else {
        let (a, b) = choose|a: int, b: int|
            #![trigger all[a], all[b]]
            0 <= a < b < all.len() && engine::folded_rel(all[a], os) == engine::folded_rel(
                all[b],
                os,
            );
        if b < d {
            assert(all[a] == m.dirs[a] && all[b] == m.dirs[b]);
        } else if a < d {
            assert(all[a] == m.dirs[a] && all[b] == m.files[b - d].rel);
        } else {
            assert(all[a] == m.files[a - d].rel && all[b] == m.files[b - d].rel);
        }
    }
}

/// A FAT drive takes a job exactly when every file is smaller than four gibibytes.
pub proof fn law_what_a_fat_drive_can_hold(files: Seq<EntryView>, i: int, os: Os)
    requires
        0 <= i <= files.len(),
    ensures
        engine::fat_refusal(files, i, os) is None <==> forall|k: int|
            i <= k < files.len() ==> (#[trigger] files[k]).size < 4 * 1024 * 1024 * 1024,
    decreases files.len() - i,
{
    if i < files.len() {
        law_what_a_fat_drive_can_hold(files, i + 1, os);
    }
}

// ── the barrier before anything is deleted ───────────────────────────────────
/// The folders that are flushed are those that hold files, and no others.
pub proof fn law_only_written_folders_are_flushed(files: Seq<EntryView>, d: Seq<Seq<u8>>)
    ensures
        engine::folders(files).contains(d) <==> d.len() > 0 && exists|i: int|
            0 <= i < files.len() && (#[trigger] files[i]).rel.len() == d.len() + 1
                && files[i].rel.take(d.len() as int) == d,
{
    if engine::folders(files).contains(d) {
        let i = choose|i: int|
            0 <= i < files.len() && engine::folder_of((#[trigger] files[i]).rel) == Some(d);
        assert(files[i].rel.take(d.len() as int) =~= files[i].rel.drop_last());
    }
    if d.len() > 0 && exists|i: int|
        0 <= i < files.len() && (#[trigger] files[i]).rel.len() == d.len() + 1
            && files[i].rel.take(d.len() as int) == d {
        let i = choose|i: int|
            0 <= i < files.len() && (#[trigger] files[i]).rel.len() == d.len() + 1
                && files[i].rel.take(d.len() as int) == d;
        assert(files[i].rel.drop_last() =~= files[i].rel.take(d.len() as int));
        assert(engine::folder_of(files[i].rel) == Some(d));
    }
}

// ── times of files ───────────────────────────────────────────────────────────
/// The file times of Windows count tenths of a millionth of a second and begin 134774 days
/// before 1970. A second fits exactly where its count is one that 64 bits hold.
pub proof fn law_how_windows_counts_time(mtime: int)
    ensures
        engine::ticks_at(mtime + 1) - engine::ticks_at(mtime) == 10_000_000,
        engine::ticks_at(-134_774 * 86_400) == 0,
        engine::ticks_at(0) == 116_444_736_000_000_000,
        engine::fits_ticks(mtime) <==> 0 <= engine::ticks_at(mtime) <= 0xffff_ffff_ffff_ffff,
{
}

/// A job that cannot be served as it was given is refused as such, with its reason.
pub proof fn law_a_refusal_says_its_reason(r: engine::Refusal, why: Seq<char>)
    ensures
        r.of_input(why) <==> r.kind == engine::Kind::InvalidInput && r.why@ == why,
{
}

// ── what is made durable ─────────────────────────────────────────────────────
/// The destination itself is made durable where it is a folder, and the folder around it where
/// it is a file; each folder below it is found by its names, one inside the other.
pub proof fn law_where_the_flushed_folders_are(
    dst: FullView,
    name: Seq<u8>,
    rel: Seq<Seq<u8>>,
    n: Seq<u8>,
)
    ensures
        engine::root_to_sync(dst, true) == dst,
        dst.rooted || dst.prefix.len() > 0 || dst.parts.len() > 0 ==> engine::root_to_sync(
            dst.push(name),
            false,
        ) == dst,
        engine::below_dst(dst, Seq::empty()) == dst,
        engine::below_dst(dst, rel.push(n)) == engine::below_dst(dst, rel).push(n),
{
    law_above_and_last(dst, name);
    let f = |n: Seq<u8>| PartView::Name(n);
    assert(dst.parts + Seq::<Seq<u8>>::empty().map_values(f) =~= dst.parts);
    assert(dst.parts + rel.push(n).map_values(f) =~= (dst.parts + rel.map_values(f)).push(
        PartView::Name(n),
    ));
}

/// Two paths that become one are two, not one; they are alike but for their capitals, and none
/// before the later one clash. The refusal names both, the earlier one first.
pub proof fn law_a_collision_is_of_two_paths(all: Seq<Seq<Seq<u8>>>, os: Os, j: int, i: int)
    requires
        engine::first_collision(all, os, j, i),
    ensures
        0 <= j < i < all.len(),
        engine::lower_text(path::rel_text(all[j], os)) == engine::lower_text(
            path::rel_text(all[i], os),
        ),
        forall|a: int, b: int|
            #![trigger all[a], all[b]]
            0 <= a < b < i ==> engine::lower_text(path::rel_text(all[a], os))
                != engine::lower_text(path::rel_text(all[b], os)),
        ("\""@ + path::rel_text(all[j], os) + "\" and \""@ + path::rel_text(
            all[i],
            os,
        )).is_prefix_of(engine::collision_text(all, os, j, i)),
{
    let a = "\""@ + path::rel_text(all[j], os) + "\" and \""@ + path::rel_text(all[i], os);
    assert(engine::collision_text(all, os, j, i).take(a.len() as int) =~= a);
}

} // verus!
