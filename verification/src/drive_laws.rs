//! What is told of drives, in terms of the lines and names it is read from.

use crate::drive;
use crate::drive::{DriveKind, MountView};
use crate::field_laws::{is_word, law_how_lines_come_out, law_how_words_come_out};
use crate::fields;
use crate::path::{FullPath, FullView};
use vstd::prelude::*;

verus! {

// ── the disk behind a device ─────────────────────────────────────────────────
/// Only digits, and at least one.
pub open spec fn number(s: Seq<char>) -> bool {
    s.len() > 0 && forall|i: int| 0 <= i < s.len() ==> '0' <= (#[trigger] s[i]) <= '9'
}

/// A name in which partitions are set off by a `p`.
pub open spec fn sets_off(name: Seq<char>) -> bool {
    "nvme"@.is_prefix_of(name) || "mmcblk"@.is_prefix_of(name)
}

/// Wherever its node lies, a partition is on the disk whose name it carries before its number:
/// set off by a `p` for NVMe drives and memory cards, and not set off for all others. The disk
/// itself is on itself.
pub proof fn law_a_partition_is_on_its_disk(dir: Seq<char>, disk: Seq<char>, n: Seq<char>)
    requires
        dir.len() == 0 || dir.last() == '/',
        !disk.contains('/'),
        disk.len() > 0,
        number(n),
    ensures
        !sets_off(disk) && !sets_off(disk + n) && !('0' <= disk.last() <= '9') ==> drive::base_of(
            dir + disk + n,
        ) == disk && drive::base_of(dir + disk) == disk,
        sets_off(disk) ==> drive::base_of(dir + disk + "p"@ + n) == disk,
        sets_off(disk) && !disk.contains('p') ==> drive::base_of(dir + disk) == disk,
{
    reveal_strlit("p");
    let p = "p"@;
    assert(p =~= seq!['p']);
    lemma_no_slash(n);
    // Without a mark.
    let whole = disk + n;
    assert(!whole.contains('/')) by {
        if whole.contains('/') {
            let i = choose|i: int| 0 <= i < whole.len() && whole[i] == '/';
            if i < disk.len() {
                assert(disk[i] == '/');
            } else {
                assert(n[i - disk.len()] == '/');
            }
        }
    }
    assert(dir + disk + n =~= dir + whole);
    lemma_after_last(dir, whole, '/');
    lemma_after_last(dir, disk, '/');
    if !('0' <= disk.last() <= '9') {
        lemma_without_digits(disk, n);
        lemma_without_digits(disk, Seq::empty());
        assert(disk + Seq::<char>::empty() =~= disk);
    }
    // With one.
    let marked = disk + p + n;
    assert(!marked.contains('/')) by {
        if marked.contains('/') {
            let i = choose|i: int| 0 <= i < marked.len() && marked[i] == '/';
            if i < disk.len() {
                assert(disk[i] == '/');
            } else if i > disk.len() {
                assert(n[i - disk.len() - 1] == '/');
            }
        }
    }
    assert(dir + disk + p + n =~= dir + marked);
    lemma_after_last(dir, marked, '/');
    let head = disk + p;
    assert(head.last() == 'p');
    assert(!n.contains('p')) by {
        if n.contains('p') {
            let i = choose|i: int| 0 <= i < n.len() && n[i] == 'p';
            assert('0' <= n[i] <= '9');
        }
    }
    lemma_after_last(head, n, 'p');
    assert(head + n =~= marked);
    assert(marked.take(marked.len() - n.len() - 1) =~= disk);
    if sets_off(disk) {
        assert(sets_off(marked)) by {
            if "nvme"@.is_prefix_of(disk) {
                assert(marked.take("nvme"@.len() as int) =~= disk.take("nvme"@.len() as int));
            } else {
                assert(marked.take("mmcblk"@.len() as int) =~= disk.take("mmcblk"@.len() as int));
            }
        }
        if !disk.contains('p') {
            assert(Seq::<char>::empty() + disk =~= disk);
            lemma_after_last(Seq::empty(), disk, 'p');
        }
    }
}

proof fn lemma_no_slash(n: Seq<char>)
    requires
        number(n),
    ensures
        !n.contains('/'),
{
    if n.contains('/') {
        let i = choose|i: int| 0 <= i < n.len() && n[i] == '/';
        assert('0' <= n[i] <= '9');
    }
}

/// What stands behind the last `c`.
proof fn lemma_after_last(head: Seq<char>, tail: Seq<char>, c: char)
    requires
        head.len() == 0 || head.last() == c,
        !tail.contains(c),
    ensures
        drive::after_last(head + tail, c) == tail,
    decreases tail.len(),
{
    let all = head + tail;
    if tail.len() == 0 {
        assert(all =~= head);
        assert(drive::after_last(all, c) =~= tail);
    } else {
        assert(all.last() == tail[tail.len() - 1]);
        assert(all.drop_last() =~= head + tail.drop_last());
        assert(!tail.drop_last().contains(c)) by {
            if tail.drop_last().contains(c) {
                let i = choose|i: int|
                    0 <= i < tail.drop_last().len() && tail.drop_last()[i] == c;
                assert(tail[i] == c);
            }
        }
        lemma_after_last(head, tail.drop_last(), c);
        assert(drive::after_last(all, c) =~= tail);
    }
}

proof fn lemma_without_digits(name: Seq<char>, n: Seq<char>)
    requires
        name.len() > 0,
        !('0' <= name.last() <= '9'),
        forall|i: int| 0 <= i < n.len() ==> '0' <= (#[trigger] n[i]) <= '9',
    ensures
        drive::without_digits(name + n) == name,
    decreases n.len(),
{
    let all = name + n;
    if n.len() == 0 {
        assert(all =~= name);
    } else {
        assert(all.last() == n[n.len() - 1]);
        assert(all.drop_last() =~= name + n.drop_last());
        assert forall|i: int| 0 <= i < n.drop_last().len() implies '0' <= (#[trigger] n.drop_last()[i])
            <= '9' by {
            assert(n.drop_last()[i] == n[i]);
        }
        lemma_without_digits(name, n.drop_last());
    }
}

/// A drive is external exactly when it is not the disk that the running system is on, and the
/// kernel calls it removable or it sits on the USB bus. Being unknown counts for nothing.
pub proof fn law_what_counts_as_external(
    dev: Seq<char>,
    root: Option<Seq<char>>,
    flag: Option<Seq<char>>,
    node: Option<Seq<char>>,
)
    ensures
        drive::external(dev, root, flag, node) ==> {
            &&& root is Some ==> drive::base_of(dev) != drive::base_of(root->0)
            &&& (flag is Some && fields::trimmed(flag->0) == "1"@) || (node is Some
                && fields::occurs(node->0, "/usb"@))
        },
        (root is None || drive::base_of(dev) != drive::base_of(root->0)) && flag is Some
            && fields::trimmed(flag->0) == "1"@ ==> drive::external(dev, root, flag, node),
        (root is None || drive::base_of(dev) != drive::base_of(root->0)) && node is Some
            && fields::occurs(node->0, "/usb"@) ==> drive::external(dev, root, flag, node),
        flag is None && node is None ==> !drive::external(dev, root, flag, node),
{
}

// ── the table of mounts ──────────────────────────────────────────────────────
/// The device mounted at a place is what the first line that names the place says; a place that
/// no line names has none.
pub proof fn law_the_first_line_names_the_device(ms: Seq<MountView>, mp: Seq<char>, i: int)
    requires
        0 <= i <= ms.len(),
        forall|k: int| 0 <= k < i ==> (#[trigger] ms[k]).point != Some(mp),
        i < ms.len() ==> ms[i].point == Some(mp),
    ensures
        i < ms.len() ==> drive::device_of(ms, mp) == ms[i].device,
        i == ms.len() ==> drive::device_of(ms, mp) is None,
{
    lemma_none_before(ms, mp, i);
    if i < ms.len() {
        assert(drive::device_at(ms, mp, i + 1) == Some(ms[i].device));
        lemma_stays(ms, mp, i + 1, ms.len() as int);
    }
}

proof fn lemma_none_before(ms: Seq<MountView>, mp: Seq<char>, i: int)
    requires
        0 <= i <= ms.len(),
        forall|k: int| 0 <= k < i ==> (#[trigger] ms[k]).point != Some(mp),
    ensures
        drive::device_at(ms, mp, i) is None,
    decreases i,
{
    if i > 0 {
        lemma_none_before(ms, mp, i - 1);
    }
}

proof fn lemma_stays(ms: Seq<MountView>, mp: Seq<char>, n: int, m: int)
    requires
        1 <= n <= m,
        drive::device_at(ms, mp, n) is Some,
    ensures
        drive::device_at(ms, mp, m) == drive::device_at(ms, mp, n),
    decreases m,
{
    if n < m {
        lemma_stays(ms, mp, n, m - 1);
    }
}

/// A place where removable drives are mounted.
pub open spec fn for_media(p: Seq<char>) -> bool {
    ||| p.len() >= 7 && p.take(7) == "/media/"@
    ||| p.len() >= 11 && p.take(11) == "/run/media/"@
    ||| p.len() >= 5 && p.take(5) == "/mnt/"@
}

/// The mounts of removable drives are those below `/media`, `/run/media` and `/mnt`: each of
/// them is listed, and nothing else.
pub proof fn law_which_mounts_are_for_media(ms: Seq<MountView>, n: int)
    requires
        0 <= n <= ms.len(),
    ensures
        forall|i: int|
            0 <= i < n && (#[trigger] ms[i]).point is Some && for_media(ms[i].point->0)
                ==> drive::mounted_in(drive::media_in(ms, n), ms[i].point->0),
        forall|k: int|
            0 <= k < drive::media_in(ms, n).len() ==> {
                &&& (#[trigger] drive::media_in(ms, n)[k]).point is Some
                &&& for_media(drive::media_in(ms, n)[k].point->0)
                &&& ms.contains(drive::media_in(ms, n)[k])
            },
    decreases n,
{
    reveal_strlit("/media/");
    reveal_strlit("/run/media/");
    reveal_strlit("/mnt/");
    if n > 0 {
        law_which_mounts_are_for_media(ms, n - 1);
        let b = drive::media_in(ms, n - 1);
        let c = drive::media_in(ms, n);
        let m = ms[n - 1];
        if m.point is Some {
            lemma_for_media(m.point->0);
        }
        assert forall|p: Seq<char>| drive::mounted_in(b, p) implies #[trigger] drive::mounted_in(
            c,
            p,
        ) by {
            let i = choose|i: int| 0 <= i < b.len() && (#[trigger] b[i]).point == Some(p);
            assert(c[i] == b[i]);
        }
        assert forall|i: int|
            0 <= i < n && (#[trigger] ms[i]).point is Some && for_media(
                ms[i].point->0,
            ) implies drive::mounted_in(c, ms[i].point->0) by {
            if i == n - 1 && !drive::mounted_in(b, m.point->0) {
                assert(c[c.len() - 1].point == m.point);
            } else if i < n - 1 {
                assert(drive::mounted_in(b, ms[i].point->0));
            }
        }
        assert forall|k: int| 0 <= k < c.len() implies (#[trigger] c[k]).point is Some && for_media(
            c[k].point->0,
        ) && ms.contains(c[k]) by {
            if k < b.len() {
                assert(c[k] == b[k]);
            } else {
                assert(c[k] == ms[n - 1]);
            }
        }
    }
}

proof fn lemma_for_media(p: Seq<char>)
    ensures
        drive::under_media(p) == for_media(p),
{
    reveal_strlit("/media/");
    reveal_strlit("/run/media/");
    reveal_strlit("/mnt/");
    if "/media/"@.is_prefix_of(p) {
        assert(p.take(7) =~= "/media/"@);
    }
    if "/run/media/"@.is_prefix_of(p) {
        assert(p.take(11) =~= "/run/media/"@);
    }
    if "/mnt/"@.is_prefix_of(p) {
        assert(p.take(5) =~= "/mnt/"@);
    }
}

/// Whatever is unmounted with a drive is a line of the table that lies on it: it has a place, a
/// device node, and was found to be on that disk.
pub proof fn law_only_what_is_on_the_drive(ms: Seq<MountView>, on: Seq<bool>, n: int)
    requires
        0 <= n <= ms.len(),
    ensures
        forall|k: int|
            0 <= k < drive::on_drive(ms, on, n).len() ==> exists|i: int|
                0 <= i < n && i < on.len() && on[i] && (#[trigger] ms[i]).point == Some(
                    (#[trigger] drive::on_drive(ms, on, n)[k]).point,
                ) && ms[i].device == Some(drive::on_drive(ms, on, n)[k].device)
                    && "/dev/"@.is_prefix_of(drive::on_drive(ms, on, n)[k].device),
    decreases n,
{
    if n > 0 {
        law_only_what_is_on_the_drive(ms, on, n - 1);
        let b = drive::on_drive(ms, on, n - 1);
        let c = drive::on_drive(ms, on, n);
        assert forall|k: int| 0 <= k < c.len() implies exists|i: int|
            0 <= i < n && i < on.len() && on[i] && (#[trigger] ms[i]).point == Some(
                (#[trigger] c[k]).point,
            ) && ms[i].device == Some(c[k].device) && "/dev/"@.is_prefix_of(c[k].device) by {
            if k < b.len() {
                assert(c[k] == b[k]);
                let i = choose|i: int|
                    0 <= i < n - 1 && i < on.len() && on[i] && (#[trigger] ms[i]).point == Some(
                        b[k].point,
                    ) && ms[i].device == Some(b[k].device) && "/dev/"@.is_prefix_of(b[k].device);
                assert(ms[i].point == Some(c[k].point));
            } else {
                assert(ms[n - 1].point == Some(c[k].point));
            }
        }
    }
}

/// How many folders up the mount point lies: all those in between are on the same device, and
/// the next one up, if there is one, is not.
pub proof fn law_where_the_mount_begins(dev: u64, above: Seq<Option<u64>>)
    ensures
        drive::level(dev, above) <= above.len(),
        forall|i: int| 0 <= i < drive::level(dev, above) ==> #[trigger] above[i] == Some(dev),
        drive::level(dev, above) < above.len() ==> above[drive::level(dev, above) as int] != Some(
            dev,
        ),
    decreases above.len(),
{
    if above.len() > 0 && above[0] == Some(dev) {
        let rest = above.drop_first();
        law_where_the_mount_begins(dev, rest);
        assert forall|i: int| 0 <= i < drive::level(dev, above) implies #[trigger] above[i] == Some(
            dev,
        ) by {
            if i > 0 {
                assert(rest[i - 1] == above[i]);
            }
        }
        if drive::level(dev, above) < above.len() {
            assert(rest[drive::level(dev, rest) as int] == above[drive::level(dev, above) as int]);
        }
    }
}

/// The roots that a destination may lie on are those of the external drives, each once.
pub proof fn law_every_external_root_once(
    roots: Seq<FullPath>,
    external: Seq<bool>,
    n: int,
    p: FullView,
)
    requires
        0 <= n <= roots.len(),
        roots.len() == external.len(),
    ensures
        drive::externals(roots, external, n).contains(p) <==> exists|i: int|
            0 <= i < n && #[trigger] external[i] && roots[i]@ == p,
        drive::externals(roots, external, n).no_duplicates(),
    decreases n,
{
    if n > 0 {
        law_every_external_root_once(roots, external, n - 1, p);
        let b = drive::externals(roots, external, n - 1);
        let c = drive::externals(roots, external, n);
        let r = roots[n - 1]@;
        law_every_external_root_once(roots, external, n - 1, r);
        if b.contains(p) {
            let i = choose|i: int| 0 <= i < n - 1 && #[trigger] external[i] && roots[i]@ == p;
            assert(external[i]);
            let k = choose|k: int| 0 <= k < b.len() && b[k] == p;
            assert(c[k] == p);
        }
        if c.contains(p) && !b.contains(p) {
            let k = choose|k: int| 0 <= k < c.len() && c[k] == p;
            assert(k == b.len()) by {
                if k < b.len() {
                    assert(b[k] == p);
                }
            }
            assert(external[n - 1]);
        }
        if external[n - 1] && r == p && !b.contains(r) {
            assert(c[c.len() - 1] == p);
        }
        assert forall|x: int, y: int| 0 <= x < c.len() && 0 <= y < c.len() && x != y implies c[x]
            != c[y] by {
            if x < b.len() && y < b.len() {
                assert(b[x] != b[y]);
            } else if x < b.len() {
                assert(c[x] == b[x]);
                assert(b.contains(b[x]));
            } else {
                assert(c[y] == b[y]);
                assert(b.contains(b[y]));
            }
        }
    }
}

// ── drives with letters ──────────────────────────────────────────────────────
/// The drive the system runs from is the one it names, as a capital, and C where it names none.
pub proof fn law_the_letter_of_the_system(name: Option<Seq<char>>)
    ensures
        name is None ==> drive::system_drive(name) == 'C',
        name is Some && name->0.len() == 0 ==> drive::system_drive(name) == 'C',
        name is Some && name->0.len() > 0 && 'A' <= name->0[0] <= 'Z' ==> drive::system_drive(
            name,
        ) == name->0[0],
        name is Some && name->0.len() > 0 && 'a' <= name->0[0] <= 'z' ==> drive::system_drive(
            name,
        ) as int + ('a' as int - 'A' as int) == name->0[0] as int,
{
}

/// A drive with a letter is external exactly when it is not the system's and is either
/// removable or a fixed disk on the USB bus. A network drive never is.
pub proof fn law_which_letters_are_external(
    letter: char,
    kind: DriveKind,
    system: char,
    usb: bool,
)
    ensures
        drive::win_external(letter, kind, system, usb) ==> letter != system,
        letter != system && kind is Removable ==> drive::win_external(letter, kind, system, usb),
        letter != system && kind is Fixed ==> drive::win_external(letter, kind, system, usb) == usb,
        kind is Remote || kind is Other ==> !drive::win_external(letter, kind, system, usb),
{
}

/// Every drive is listed but those that are no disk and the card readers without a card.
pub proof fn law_which_letters_are_listed(kind: DriveKind, v: drive::Volume)
    ensures
        kind is Fixed || kind is Remote ==> !drive::unlisted(kind, v),
        kind is Other ==> drive::unlisted(kind, v),
        kind is Removable ==> (drive::unlisted(kind, v) <==> v is Silent && v->empty),
{
}

/// Windows numbers removable drives two, fixed ones three and network drives four. A network
/// drive is never asked for its volume, and neither is one of an unknown kind; the bus is asked
/// for exactly where the drive is fixed and is not the one the system runs from.
pub proof fn law_what_a_drive_is_asked(code: u32, letter: char, system: char)
    ensures
        drive::answers(drive::kind_of(code)) <==> code == 2 || code == 3,
        drive::kind_of(code) is Removable <==> code == 2,
        drive::kind_of(code) is Remote <==> code == 4,
        drive::bus_decides(letter, drive::kind_of(code), system) <==> code == 3 && letter
            != system,
{
}

/// A line of the table of mounts names its mount point in the fifth place and its device in the
/// second behind the dash; a line without the dash is no mount.
pub proof fn law_what_a_line_of_the_table_says(
    w: Seq<Seq<char>>,
    more: Seq<char>,
    fs: Seq<char>,
    dev: Seq<char>,
    opts: Seq<char>,
    head: Seq<char>,
    line: Seq<char>,
)
    requires
        w.len() == 5,
        forall|i: int| 0 <= i < 5 ==> is_word(#[trigger] w[i]),
        is_word(fs) && is_word(dev),
        head == w[0] + seq![' '] + (w[1] + seq![' '] + (w[2] + seq![' '] + (w[3] + seq![' '] + (w[4]
            + seq![' '] + more)))),
        fields::first_at(line, seq![' ', '-', ' '], head.len() as int),
        line == head + seq![' ', '-', ' '] + (fs + seq![' '] + (dev + seq![' '] + opts)),
    ensures
        drive::mount_of(line) == Some(drive::MountView { point: Some(drive::unescaped(w[4])), device: Some(dev) }),
        forall|l: Seq<char>|
            !fields::occurs(l, seq![' ', '-', ' ']) ==> (#[trigger] drive::mount_of(l)) is None,
{
    reveal_strlit(" - ");
    assert(" - "@ =~= seq![' ', '-', ' ']);
    let d = seq![' ', '-', ' '];
    let tail = fs + seq![' '] + (dev + seq![' '] + opts);
    let r4 = w[4] + seq![' '] + more;
    let r3 = w[3] + seq![' '] + r4;
    let r2 = w[2] + seq![' '] + r3;
    let r1 = w[1] + seq![' '] + r2;
    law_how_words_come_out(w[4], ' ', more);
    law_how_words_come_out(w[3], ' ', r4);
    law_how_words_come_out(w[2], ' ', r3);
    law_how_words_come_out(w[1], ' ', r2);
    law_how_words_come_out(w[0], ' ', r1);
    law_how_words_come_out(dev, ' ', opts);
    law_how_words_come_out(fs, ' ', dev + seq![' '] + opts);
    assert(fields::words(head)[4] == w[4]);
    assert(fields::words(tail)[1] == dev);
    fields::lemma_cut(line, d, head.len() as int);
    assert(line.take(head.len() as int) =~= head);
    assert(line.skip(head.len() as int + 3) =~= tail);
}

/// A volume of a Mac is external where one line says so, wherever it stands: a line on its
/// location that says external, or one on its media that says that these can be taken out. How
/// far the line is indented does not matter, and lines on anything else say nothing.
pub proof fn law_which_mac_volumes_are_external(l: Seq<char>, rest: Seq<char>, what: Seq<char>)
    requires
        !l.contains('\n'),
        l.len() > 0 && l.last() != '\r',
    ensures
        drive::volume_external(l + seq!['\n'] + rest) <==> drive::says_external(l)
            || drive::volume_external(rest),
        !drive::volume_external(Seq::empty()),
        fields::trimmed(l) == "Device Location:"@ + what ==> (drive::says_external(l)
            <==> fields::occurs("Device Location:"@ + what, "External"@)),
        fields::trimmed(l) == "Removable Media:"@ + what && fields::occurs(
            "Removable Media:"@ + what,
            "Removable"@,
        ) ==> drive::says_external(l),
        !"Device Location:"@.is_prefix_of(fields::trimmed(l)) && !"Removable Media:"@.is_prefix_of(
            fields::trimmed(l),
        ) ==> !drive::says_external(l),
{
    let m = fields::trimmed(l);
    let place = "Device Location:"@;
    let media = "Removable Media:"@;
    reveal_strlit("Device Location:");
    reveal_strlit("Removable Media:");
    assert(place[0] == 'D' && media[0] == 'R');
    if m == place + what {
        assert(m.take(place.len() as int) =~= place);
        assert(m[0] == 'D');
    }
    if m == media + what {
        assert(m.take(media.len() as int) =~= media);
    }
    law_how_lines_come_out(l, rest);
    let all = fields::lines(l + seq!['\n'] + rest);
    let behind = fields::lines(rest);
    assert(all[0] == l);
    assert forall|i: int| 0 <= i < behind.len() implies all[i + 1] == #[trigger] behind[i] by {}
    if drive::volume_external(rest) {
        let i = choose|i: int| 0 <= i < behind.len() && drive::says_external(#[trigger] behind[i]);
        assert(drive::says_external(all[i + 1]));
    }
    if drive::volume_external(l + seq!['\n'] + rest) {
        let i = choose|i: int| 0 <= i < all.len() && drive::says_external(#[trigger] all[i]);
        if i > 0 {
            assert(behind[i - 1] == all[i]);
        }
    }
}

/// The table of mounts is read line by line, in order: what the first line says comes first, if
/// it says anything, and the rest of the table follows.
pub proof fn law_the_table_is_read_line_by_line(l: Seq<char>, rest: Seq<char>)
    requires
        !l.contains('\n'),
        l.len() == 0 || l.last() != '\r',
    ensures
        drive::mount_table(l + seq!['\n'] + rest) == (match drive::mount_of(l) {
            Some(m) => seq![m] + drive::mount_table(rest),
            None => drive::mount_table(rest),
        }),
        drive::mount_table(Seq::empty()) == Seq::<MountView>::empty(),
{
    law_how_lines_come_out(l, rest);
    let behind = fields::lines(rest);
    lemma_mounts_in(l, behind, behind.len() as int);
    assert((seq![l] + behind).len() == behind.len() + 1);
}

proof fn lemma_mounts_in(l: Seq<char>, behind: Seq<Seq<char>>, n: int)
    requires
        0 <= n <= behind.len(),
    ensures
        drive::mounts_in(seq![l] + behind, n + 1) == (match drive::mount_of(l) {
            Some(m) => seq![m] + drive::mounts_in(behind, n),
            None => drive::mounts_in(behind, n),
        }),
    decreases n,
{
    let all = seq![l] + behind;
    if n > 0 {
        lemma_mounts_in(l, behind, n - 1);
        assert(all[n] == behind[n - 1]);
        let before = drive::mounts_in(behind, n - 1);
        if let Some(m) = drive::mount_of(l) {
            if let Some(k) = drive::mount_of(behind[n - 1]) {
                assert((seq![m] + before).push(k) =~= seq![m] + before.push(k));
            }
        }
    } else {
        reveal_with_fuel(drive::mounts_in, 2);
        assert(all[0] == l);
        if let Some(m) = drive::mount_of(l) {
            assert(Seq::<MountView>::empty().push(m) =~= seq![m] + Seq::<MountView>::empty());
        }
    }
}

/// What a device is made of is looked at one layer deeper, each of its parts once, and what
/// waited before still waits.
pub proof fn law_each_layer_is_one_deeper(
    v: drive::DiskWalkView,
    names: Seq<Seq<char>>,
    k: int,
)
    requires
        v.asked is Some,
        v.asked->0.left > 0,
        0 <= k < names.len(),
    ensures
        ({
            let n = v.answered(names);
            &&& n.asked is None && n.found == v.found && n.base == v.base
            &&& n.todo.len() == v.todo.len() + names.len()
            &&& n.todo.take(v.todo.len() as int) == v.todo
            &&& n.todo[v.todo.len() + names.len() - 1 - k].0 == drive::node_of(names[k])
            &&& n.todo[v.todo.len() + names.len() - 1 - k].1 + 1 == v.asked->0.left
        }),
{
    let n = v.answered(names);
    assert(n.todo.take(v.todo.len() as int) =~= v.todo);
}

} // verus!
