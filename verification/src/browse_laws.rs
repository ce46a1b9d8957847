//! What the list of a folder shows, in which order, and what a selection comes to.

use crate::browse;
use crate::browse::{Browser, Field, Held, ItemView, Seen, SortKey};
use crate::field_laws::law_what_trimming_leaves;
use crate::fields;
use crate::path;
use crate::path::{FullPath, FullView};
use crate::path_laws::law_above_and_last;
use crate::sort;
use vstd::prelude::*;

verus! {

// ── rows ─────────────────────────────────────────────────────────────────────
/// A row shows what was found: its name, its kind, its time and, of a file, its size. A name that
/// begins with a dot gets a row only where those are wanted, a file only where files may be
/// chosen, and everything else always.
pub proof fn law_which_entries_get_a_row(
    name: Seq<u8>,
    is_text: bool,
    seen: Option<Seen>,
    files: bool,
    dots: bool,
)
    ensures
        ({
            let r = browse::row_of(name, is_text, seen, files, dots);
            let folder = seen is Some && seen->0.is_dir;
            let dotted = is_text && name.len() > 0 && name[0] == '.' as u8;
            &&& r is Some <==> (dots || !dotted) && (files || folder)
            &&& r matches Some(i) ==> {
                &&& i.name == name
                &&& i.is_dir == folder
                &&& seen is Some ==> i.mtime == seen->0.mtime
                &&& seen is Some && !folder ==> i.size == seen->0.len
                &&& folder ==> i.size == 0
                &&& seen is None ==> i.mtime == 0 && i.size == 0
            }
        }),
{
}

// ── order ────────────────────────────────────────────────────────────────────
/// Folders stand before files, whatever the column and the direction.
pub proof fn law_folders_come_first(a: ItemView, b: ItemView, key: SortKey, desc: bool)
    requires
        a.is_dir,
        !b.is_dir,
    ensures
        browse::row_before(a, b, key, desc),
        !browse::row_before(b, a, key, desc),
{
}

/// Within one kind, the smaller stands first by size and the older by date, and the other way
/// round when turned.
pub proof fn law_the_column_decides(a: ItemView, b: ItemView)
    requires
        a.is_dir == b.is_dir,
    ensures
        a.size < b.size ==> browse::row_before(a, b, SortKey::Size, false) && browse::row_before(
            b,
            a,
            SortKey::Size,
            true,
        ),
        a.size < b.size ==> !browse::row_before(b, a, SortKey::Size, false) && !browse::row_before(
            a,
            b,
            SortKey::Size,
            true,
        ),
        a.mtime < b.mtime ==> browse::row_before(a, b, SortKey::Modified, false)
            && browse::row_before(b, a, SortKey::Modified, true),
        a.mtime == b.mtime ==> !browse::row_before(a, b, SortKey::Modified, false)
            && !browse::row_before(a, b, SortKey::Modified, true),
{
}

/// Within one kind, names stand in the order of their bytes with capitals made small, and the
/// other way round when turned; so do the names of files of one size.
pub proof fn law_names_decide_in_small_letters(a: ItemView, b: ItemView)
    requires
        a.is_dir == b.is_dir,
        path::bytes_before(browse::lowered(a.name), browse::lowered(b.name)),
    ensures
        browse::row_before(a, b, SortKey::Name, false),
        browse::row_before(b, a, SortKey::Name, true),
        a.size == b.size ==> browse::row_before(a, b, SortKey::Size, false),
{
}

/// Made small are the capitals of ASCII, and nothing else.
pub proof fn law_which_bytes_are_made_small(n: Seq<u8>, i: int)
    requires
        0 <= i < n.len(),
    ensures
        browse::lowered(n).len() == n.len(),
        'A' as u8 <= n[i] <= 'Z' as u8 ==> browse::lowered(n)[i] == n[i] + ('a' as u8 - 'A' as u8),
        !('A' as u8 <= n[i] <= 'Z' as u8) ==> browse::lowered(n)[i] == n[i],
{
}

/// A sorted list has no row that ought to stand before an earlier one.
pub proof fn law_a_sorted_list_is_in_order(
    items: Seq<ItemView>,
    r: Seq<ItemView>,
    key: SortKey,
    desc: bool,
    a: int,
    b: int,
)
    requires
        browse::ordered(items, r, key, desc),
        0 <= a < b < r.len(),
    ensures
        !browse::row_before(r[b], r[a], key, desc) || browse::row_before(r[a], r[b], key, desc),
        r[b].is_dir ==> r[a].is_dir,
{
    let p = choose|p: Seq<usize>| #[trigger]
        browse::in_rows(items, p, key, desc) && r == sort::picked(items, p);
    assert(browse::row_precedes(items, p[a] as int, p[b] as int, key, desc));
    assert(r[a] == items[p[a] as int] && r[b] == items[p[b] as int]);
}

// ── the selection ────────────────────────────────────────────────────────────
/// A run of rows selects the names of these rows, both ends with it, and no others.
pub proof fn law_what_a_run_of_rows_selects(items: Seq<ItemView>, lo: int, hi: int, n: Seq<u8>)
    ensures
        browse::names_between(items, lo, hi).contains(n) <==> exists|k: int|
            0 <= k < items.len() && lo <= k <= hi && (#[trigger] items[k]).name == n,
        0 <= lo <= hi < items.len() ==> browse::names_between(items, lo, hi).contains(
            items[lo].name,
        ) && browse::names_between(items, lo, hi).contains(items[hi].name),
{
}

/// A click with nothing held selects that row alone. With command it turns that row on or off
/// and leaves the others. With shift it selects all from the last clicked row to this one, both
/// with it, and gives up the others only where command is not held; the row that was clicked
/// before stays where the next one reaches from.
pub proof fn law_what_a_click_selects(
    items: Seq<ItemView>,
    picked: Set<Seq<u8>>,
    anchor: Option<usize>,
    at: usize,
    shift: bool,
    command: bool,
    n: Seq<u8>,
)
    requires
        at < items.len(),
    ensures
        ({
            let after = browse::clicked(
                items,
                picked,
                anchor,
                at,
                (Held { shift, command, alt: false }),
            );
            let here = items[at as int].name;
            let run = browse::names_between(
                items,
                if anchor is Some && anchor->0 < at {
                    anchor->0 as int
                } else {
                    at as int
                },
                if anchor is Some && anchor->0 > at {
                    anchor->0 as int
                } else {
                    at as int
                },
            );
            &&& !shift ==> after.1 == Some(at)
            &&& shift ==> after.1 == anchor
            &&& !shift && !command ==> (after.0.contains(n) <==> n == here)
            &&& !shift && command && n != here ==> (after.0.contains(n) <==> picked.contains(n))
            &&& !shift && command ==> (after.0.contains(here) <==> !picked.contains(here))
            &&& shift && !command ==> (after.0.contains(n) <==> run.contains(n))
            &&& shift && command ==> (after.0.contains(n) <==> picked.contains(n) || run.contains(
                n,
            ))
        }),
{
}

/// Alt with shift and without command is a click with nothing held, and alone it changes nothing.
pub proof fn law_what_alt_changes(
    items: Seq<ItemView>,
    picked: Set<Seq<u8>>,
    anchor: Option<usize>,
    at: usize,
    command: bool,
)
    ensures
        browse::clicked(items, picked, anchor, at, (Held { shift: true, command: false, alt: true }))
            == browse::clicked(
            items,
            picked,
            anchor,
            at,
            (Held { shift: false, command: false, alt: false }),
        ),
        browse::clicked(items, picked, anchor, at, (Held { shift: false, command, alt: true }))
            == browse::clicked(
            items,
            picked,
            anchor,
            at,
            (Held { shift: false, command, alt: false }),
        ),
{
}

/// A click on the column in force turns its order round, and a second one back; another column
/// begins with the largest, but names begin with the first.
pub proof fn law_what_a_click_on_a_header_does(active: SortKey, desc: bool, key: SortKey)
    ensures
        browse::turned_round(key, desc, key) != desc,
        browse::turned_round(key, browse::turned_round(key, desc, key), key) == desc,
        active != key && key is Name ==> !browse::turned_round(active, desc, key),
        active != key && !(key is Name) ==> browse::turned_round(active, desc, key),
{
}

/// One level up is the folder around, still to be listed, with nothing selected of the old one.
/// From the root of a drive the field on the side of the drives goes back to the list of drives
/// and stays where it is; at the very top nothing changes.
pub proof fn law_how_far_up_goes(
    before: Browser,
    after: Browser,
    which: Field,
    relist: bool,
    n: Seq<u8>,
    above: FullView,
)
    requires
        browse::went_up(before, after, which, relist),
        before.cwd@ == above.push(n),
    ensures
        before.drive_root is None || before.drive_root->0@ != before.cwd@ || which
            != before.locked ==> relist && after.cwd@ == above && after.entries@.len() == 0
            && after.drive_root == before.drive_root,
        before.drive_root is Some && before.drive_root->0@ == before.cwd@ && which == before.locked
            ==> !relist && after.cwd == before.cwd && after.drive_root is None,
{
    law_above_and_last(above, n);
    assert(browse::item_views(after.entries@).len() == after.entries@.len());
}

/// A folder gets the name that was typed, without the white space around it, and none is made
/// where nothing else was typed.
pub proof fn law_what_a_new_folder_is_called(t: Seq<char>)
    ensures
        browse::typed_name(None) is None,
        browse::typed_name(Some(t)) is None <==> forall|i: int|
            0 <= i < t.len() ==> fields::is_space(#[trigger] t[i]),
        browse::typed_name(Some(t)) matches Some(n) ==> n.len() > 0 && !fields::is_space(n[0])
            && !fields::is_space(n.last()) && exists|a: int, b: int|
            0 <= a <= b <= t.len() && n == #[trigger] t.subrange(a, b) && fields::blank(
                t.take(a),
            ) && fields::blank(t.skip(b)),
{
    let ends = law_what_trimming_leaves(t);
    if browse::typed_name(Some(t)) is Some {
        let n = t.subrange(ends.0, ends.1);
        assert(n[0] == t[ends.0] && n.last() == t[ends.1 - 1]);
        assert forall|i: int| 0 <= i < ends.0 implies fields::is_space(
            #[trigger] t.take(ends.0)[i],
        ) by {
            assert(fields::is_space(t[i]));
        }
        assert forall|i: int| 0 <= i < t.len() - ends.1 implies fields::is_space(
            #[trigger] t.skip(ends.1)[i],
        ) by {
            assert(fields::is_space(t[i + ends.1]));
        }
    }
}

/// The size of a selection is the sum of the sizes of its rows, and its folders are those among
/// them.
pub proof fn law_what_a_selection_comes_to(items: Seq<ItemView>, set: Set<Seq<u8>>, n: int)
    requires
        0 <= n < items.len(),
    ensures
        browse::picked_bytes(items, set, 0) == 0,
        browse::picked_folders(items, set, 0) == 0,
        set.contains(items[n].name) ==> browse::picked_bytes(items, set, n + 1)
            == browse::picked_bytes(items, set, n) + items[n].size,
        !set.contains(items[n].name) ==> browse::picked_bytes(items, set, n + 1)
            == browse::picked_bytes(items, set, n) && browse::picked_folders(items, set, n + 1)
            == browse::picked_folders(items, set, n),
        set.contains(items[n].name) && items[n].is_dir ==> browse::picked_folders(
            items,
            set,
            n + 1,
        ) == browse::picked_folders(items, set, n) + 1,
        set.contains(items[n].name) && !items[n].is_dir ==> browse::picked_folders(
            items,
            set,
            n + 1,
        ) == browse::picked_folders(items, set, n),
{
}

/// The browser starts in a chosen folder, and around a chosen file in the folder that holds it;
/// on the drive that this lies on.
pub proof fn law_where_the_browser_starts(p: FullView, is_dir: bool, otherwise: FullView)
    ensures
        is_dir ==> browse::start_folder(p, is_dir, otherwise) == p,
        !is_dir && p.parts.len() > 0 ==> browse::start_folder(p, is_dir, otherwise) == (FullView {
            parts: p.parts.drop_last(),
            ..p
        }),
        !is_dir && p.parts.len() == 0 ==> browse::start_folder(p, is_dir, otherwise) == otherwise,
{
}

/// It starts on a drive exactly when what was chosen lies on one, and then on that one.
pub proof fn law_which_drive_the_browser_starts_on(p: FullView, drives: Seq<FullPath>)
    ensures
        browse::start_drive(None, true, drives) is None,
        browse::start_drive(Some(p), true, drives) is Some <==> exists|i: int|
            0 <= i < drives.len() && p.within((#[trigger] drives[i])@),
        browse::start_drive(Some(p), true, drives) matches Some(d) ==> p.within(d),
{
    crate::path_laws::law_which_root_a_path_is_on(p, drives, drives.len() as int);
}

/// The browser opens where something was chosen before: in that folder, or in the one around
/// that file. On the side of the computer it opens at home where it was last on a drive, and
/// otherwise where it was.
pub proof fn law_where_the_browser_opens(
    p: FullView,
    is_dir: bool,
    drives: Seq<FullPath>,
    home: FullView,
    last: FullView,
)
    ensures
        browse::opens_in(false, Some(p), true, drives, home, last) == p,
        p.parent() is Some ==> browse::opens_in(false, Some(p), false, drives, home, last)
            == p.parent()->0,
        path::root_index(last, drives, drives.len() as int) is None ==> browse::opens_in(
            false,
            None,
            is_dir,
            drives,
            home,
            last,
        ) == last,
        path::root_index(last, drives, drives.len() as int) is Some ==> browse::opens_in(
            false,
            None,
            is_dir,
            drives,
            home,
            last,
        ) == home,
        path::root_index(p, drives, drives.len() as int) is Some ==> browse::opens_in(
            true,
            Some(p),
            true,
            drives,
            home,
            last,
        ) == p,
        browse::opens_in(true, None, is_dir, drives, home, last) == last,
{
}

/// A list of folders to copy into is never ordered by size; any other order stays as it is.
pub proof fn law_a_list_of_folders_is_not_ordered_by_size(key: SortKey, desc: bool)
    ensures
        !(browse::sort_for(Field::Dest, key, desc).0 is Size),
        browse::sort_for(Field::Source, key, desc) == (key, desc),
        !(key is Size) ==> browse::sort_for(Field::Dest, key, desc) == (key, desc),
        key is Size ==> browse::sort_for(Field::Dest, key, desc) == (SortKey::Name, false),
{
}

} // verus!
