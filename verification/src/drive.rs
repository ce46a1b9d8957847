//! Which drives are connected, which of them may be written to, and what a drive lives on.

use crate::fields;
use crate::fields::{lines_of, replace, slice, split_once, split_whitespace, trim};
use crate::path;
use crate::path::{name_of_place, FullPath, FullView, Os};
use crate::text;
use crate::text::{cat, chars_of, has_prefix, same, text_of};
use crate::words::mentions;
use vstd::prelude::*;

verus! {

// ── the mount table ──────────────────────────────────────────────────────────
/// One mount: where, and the device behind it.
pub struct Mount {
    pub point: Option<String>,
    pub device: Option<String>,
}

#[verifier::ext_equal]
pub struct MountView {
    pub point: Option<Seq<char>>,
    pub device: Option<Seq<char>>,
}

pub open spec fn opt_text(s: Option<String>) -> Option<Seq<char>> {
    match s {
        Some(t) => Some(t@),
        None => None,
    }
}

impl View for Mount {
    type V = MountView;

    open spec fn view(&self) -> MountView {
        MountView { point: opt_text(self.point), device: opt_text(self.device) }
    }
}

pub open spec fn mount_views(v: Seq<Mount>) -> Seq<MountView> {
    v.map_values(|m: Mount| m@)
}

/// The mount table escapes what would break its fields, in octal. The backslash comes last, so
/// that one which was meant is not read again.
pub open spec fn unescaped(s: Seq<char>) -> Seq<char> {
    fields::replaced(
        fields::replaced(
            fields::replaced(fields::replaced(s, "\\040"@, " "@), "\\011"@, "\t"@),
            "\\012"@,
            "\n"@,
        ),
        "\\134"@,
        "\\"@,
    )
}

pub fn unescape_mountinfo(s: &str) -> (r: String)
    ensures
        r@ == unescaped(s@),
{
    proof {
        reveal_strlit("\\040");
        reveal_strlit("\\011");
        reveal_strlit("\\012");
        reveal_strlit("\\134");
    }
    let a = chars_of(s);
    let b = replace(a.as_slice(), chars_of("\\040").as_slice(), chars_of(" ").as_slice());
    let c = replace(b.as_slice(), chars_of("\\011").as_slice(), chars_of("\t").as_slice());
    let d = replace(c.as_slice(), chars_of("\\012").as_slice(), chars_of("\n").as_slice());
    let e = replace(d.as_slice(), chars_of("\\134").as_slice(), chars_of("\\").as_slice());
    text_of(e.as_slice())
}

/// How the mount table writes a character, once the first `k` of what it escapes stand for
/// themselves again.
pub open spec fn code(c: char, k: int) -> Seq<char> {
    if c == ' ' && k < 1 {
        seq!['\\', '0', '4', '0']
    } else if c == '\t' && k < 2 {
        seq!['\\', '0', '1', '1']
    } else if c == '\n' && k < 3 {
        seq!['\\', '0', '1', '2']
    } else if c == '\\' && k < 4 {
        seq!['\\', '1', '3', '4']
    } else {
        seq![c]
    }
}

pub open spec fn coded(t: Seq<char>, k: int) -> Seq<char>
    decreases t.len(),
{
    if t.len() == 0 {
        Seq::empty()
    } else {
        code(t[0], k) + coded(t.drop_first(), k)
    }
}

/// How the mount table writes a text: space, tab, newline and backslash in octal.
pub open spec fn escaped(t: Seq<char>) -> Seq<char> {
    coded(t, 0)
}

/// Making codes into the `k`-th character takes back that character's code and leaves the
/// others.
proof fn lemma_decoded(t: Seq<char>, k: int, pat: Seq<char>, to: char)
    requires
        0 <= k < 4,
        to == (if k == 0 {
            ' '
        } else if k == 1 {
            '\t'
        } else if k == 2 {
            '\n'
        } else {
            '\\'
        }),
        pat == code(to, k),
    ensures
        fields::replaced(coded(t, k), pat, seq![to]) == coded(t, k + 1),
    decreases t.len(),
{
    let s = coded(t, k);
    if t.len() == 0 {
        assert forall|i: int| !#[trigger] fields::stands_at(s, pat, i) by {}
    } else {
        let c = t[0];
        let rest = coded(t.drop_first(), k);
        lemma_decoded(t.drop_first(), k, pat, to);
        if c == to {
            assert(s.subrange(0, 4) =~= pat);
            assert(s.skip(4) =~= rest);
            fields::lemma_replaced_here(s, pat, seq![to]);
            assert(code(c, k + 1) =~= seq![to]);
        } else {
            lemma_kept(code(c, k), rest, pat, seq![to]);
            assert(code(c, k + 1) =~= code(c, k));
        }
    }
}

/// A head that is one plain character or another code is left as it is.
proof fn lemma_kept(head: Seq<char>, rest: Seq<char>, pat: Seq<char>, to: Seq<char>)
    requires
        pat.len() == 4,
        pat[0] == '\\',
        head.len() <= 4,
        head.len() == 4 ==> head != pat,
        head.len() == 4 || head.len() > 0 ==> head[0] != '\\' || head.len() == 4,
        forall|j: int| 1 <= j < head.len() ==> head[j] != '\\',
    ensures
        fields::replaced(head + rest, pat, to) == head + fields::replaced(rest, pat, to),
    decreases head.len(),
{
    let s = head + rest;
    if head.len() == 0 {
        assert(s =~= rest);
    } else {
        assert(!fields::stands_at(s, pat, 0)) by {
            if fields::stands_at(s, pat, 0) {
                assert(s.subrange(0, 4)[0] == s[0]);
                assert(s.subrange(0, 4) =~= head);
            }
        }
        fields::lemma_replaced_later(s, pat, to);
        let tail = head.drop_first();
        assert(s.drop_first() =~= tail + rest);
        lemma_kept(tail, rest, pat, to);
        assert(seq![s[0]] + (tail + fields::replaced(rest, pat, to)) =~= head + fields::replaced(
            rest,
            pat,
            to,
        ));
    }
}

proof fn lemma_coded_plain(t: Seq<char>)
    ensures
        coded(t, 4) == t,
    decreases t.len(),
{
    if t.len() > 0 {
        lemma_coded_plain(t.drop_first());
        assert(seq![t[0]] + t.drop_first() =~= t);
    }
}

/// Unescaping takes back escaping, whatever the text holds: a backslash that was meant is not
/// read again.
pub proof fn law_unescaping_takes_back_escaping(t: Seq<char>)
    ensures
        unescaped(escaped(t)) == t,
{
    reveal_strlit("\\040");
    reveal_strlit("\\011");
    reveal_strlit("\\012");
    reveal_strlit("\\134");
    reveal_strlit(" ");
    reveal_strlit("\t");
    reveal_strlit("\n");
    reveal_strlit("\\");
    assert("\\040"@ =~= code(' ', 0) && " "@ =~= seq![' ']);
    assert("\\011"@ =~= code('\t', 1) && "\t"@ =~= seq!['\t']);
    assert("\\012"@ =~= code('\n', 2) && "\n"@ =~= seq!['\n']);
    assert("\\134"@ =~= code('\\', 3) && "\\"@ =~= seq!['\\']);
    lemma_decoded(t, 0, "\\040"@, ' ');
    lemma_decoded(t, 1, "\\011"@, '\t');
    lemma_decoded(t, 2, "\\012"@, '\n');
    lemma_decoded(t, 3, "\\134"@, '\\');
    lemma_coded_plain(t);
}

/// A text without a backslash is what it says.
pub proof fn law_no_backslash_no_change(s: Seq<char>)
    requires
        !s.contains('\\'),
    ensures
        unescaped(s) == s,
{
    reveal_strlit("\\040");
    reveal_strlit("\\011");
    reveal_strlit("\\012");
    reveal_strlit("\\134");
    lemma_no_code(s, "\\040"@);
    lemma_no_code(s, "\\011"@);
    lemma_no_code(s, "\\012"@);
    lemma_no_code(s, "\\134"@);
}

proof fn lemma_no_code(s: Seq<char>, pat: Seq<char>)
    requires
        !s.contains('\\'),
        pat.len() > 0,
        pat[0] == '\\',
    ensures
        !fields::occurs(s, pat),
{
    assert forall|i: int| !#[trigger] fields::stands_at(s, pat, i) by {
        if fields::stands_at(s, pat, i) {
            assert(s.subrange(i, i + pat.len())[0] == s[i]);
            assert(s.contains(s[i]));
        }
    }
}

/// What one line of the table says: the fifth field before ` - ` is the mount point, the second
/// behind it the device.
pub open spec fn mount_of(line: Seq<char>) -> Option<MountView> {
    match fields::cut_at(line, " - "@) {
        Some(p) => Some(
            MountView {
                point: match fields::word(p.0, 4) {
                    Some(w) => Some(unescaped(w)),
                    None => None,
                },
                device: fields::word(p.1, 1),
            },
        ),
        None => None,
    }
}

/// What the first `n` lines say, in order. A line that cannot be read is passed over.
pub open spec fn mounts_in(lines: Seq<Seq<char>>, n: int) -> Seq<MountView>
    decreases n,
{
    if n <= 0 {
        Seq::empty()
    } else {
        match mount_of(lines[n - 1]) {
            Some(m) => mounts_in(lines, n - 1).push(m),
            None => mounts_in(lines, n - 1),
        }
    }
}

/// The mounts of a whole table.
pub open spec fn mount_table(info: Seq<char>) -> Seq<MountView> {
    mounts_in(fields::lines(info), fields::lines(info).len() as int)
}

fn nth_word(s: &Vec<char>, n: usize) -> (r: Option<String>)
    ensures
        opt_text(r) == fields::word(s@, n as int),
{
    let ws = split_whitespace(s.as_slice());
    if n < ws.len() {
        assert(fields::rows(ws@)[n as int] == ws@[n as int]@);
        Some(text_of(ws[n].as_slice()))
    } else {
        None
    }
}

pub fn mounts(info: &str) -> (r: Vec<Mount>)
    ensures
        mount_views(r@) == mount_table(info@),
{
    let rows = lines_of(chars_of(info).as_slice());
    let ghost ls = fields::lines(info@);
    let dash = chars_of(" - ");
    let mut r: Vec<Mount> = Vec::new();
    let mut i: usize = 0;
    assert(mount_views(r@) =~= mounts_in(ls, 0));
    while i < rows.len()
        invariant
            i <= rows.len(),
            fields::rows(rows@) == ls,
            dash@ == " - "@,
            mount_views(r@) == mounts_in(ls, i as int),
        decreases rows.len() - i,
    {
        let ghost before = r@;
        assert(ls[i as int] == rows@[i as int]@);
        match split_once(rows[i].as_slice(), dash.as_slice()) {
            Some(p) => {
                let point = match nth_word(&p.0, 4) {
                    Some(w) => Some(unescape_mountinfo(w.as_str())),
                    None => None,
                };
                let m = Mount { point, device: nth_word(&p.1, 1) };
                r.push(m);
                assert(mount_views(r@) =~= mount_views(before).push(m@));
            },
            None => {},
        }
        i += 1;
    }
    r
}

/// The device behind the first mount at `mp` among the first `n`.
pub open spec fn device_at(ms: Seq<MountView>, mp: Seq<char>, n: int) -> Option<Option<Seq<char>>>
    decreases n,
{
    if n <= 0 {
        None
    } else {
        match device_at(ms, mp, n - 1) {
            Some(d) => Some(d),
            None => if ms[n - 1].point == Some(mp) {
                Some(ms[n - 1].device)
            } else {
                None
            },
        }
    }
}

/// The device mounted at `mp`: the first line that names it decides, and says which, if it does.
pub open spec fn device_of(ms: Seq<MountView>, mp: Seq<char>) -> Option<Seq<char>> {
    match device_at(ms, mp, ms.len() as int) {
        Some(d) => d,
        None => None,
    }
}

proof fn lemma_device_stays(ms: Seq<MountView>, mp: Seq<char>, n: int, m: int)
    requires
        0 <= n <= m,
        device_at(ms, mp, n) is Some,
    ensures
        device_at(ms, mp, m) == device_at(ms, mp, n),
    decreases m - n,
{
    if n < m {
        lemma_device_stays(ms, mp, n, m - 1);
    }
}

fn copy_text(s: &Option<String>) -> (r: Option<String>)
    ensures
        opt_text(r) == opt_text(*s),
{
    match s {
        Some(t) => Some(t.clone()),
        None => None,
    }
}

pub fn device_for_mount(ms: &Vec<Mount>, mp: &str) -> (r: Option<String>)
    ensures
        opt_text(r) == device_of(mount_views(ms@), mp@),
{
    let ghost all = mount_views(ms@);
    let mut i: usize = 0;
    while i < ms.len()
        invariant
            i <= ms.len(),
            all == mount_views(ms@),
            device_at(all, mp@, i as int) is None,
        decreases ms.len() - i,
    {
        assert(all[i as int] == ms@[i as int]@);
        match &ms[i].point {
            Some(p) => {
                if same(p.as_str(), mp) {
                    proof {
                        lemma_device_stays(all, mp@, i + 1, all.len() as int);
                    }
                    return copy_text(&ms[i].device);
                }
            },
            None => {},
        }
        i += 1;
    }
    None
}

/// Below one of the places where removable drives are mounted.
pub open spec fn under_media(mp: Seq<char>) -> bool {
    "/media/"@.is_prefix_of(mp) || "/run/media/"@.is_prefix_of(mp) || "/mnt/"@.is_prefix_of(mp)
}

/// The mounts below those places among the first `n`, each place once.
pub open spec fn media_in(ms: Seq<MountView>, n: int) -> Seq<MountView>
    decreases n,
{
    if n <= 0 {
        Seq::empty()
    } else {
        let before = media_in(ms, n - 1);
        match ms[n - 1].point {
            Some(p) => if under_media(p) && !mounted_in(before, p) {
                before.push(ms[n - 1])
            } else {
                before
            },
            None => before,
        }
    }
}

/// One of `ms` is mounted at `p`.
pub open spec fn mounted_in(ms: Seq<MountView>, p: Seq<char>) -> bool {
    exists|i: int| 0 <= i < ms.len() && (#[trigger] ms[i]).point == Some(p)
}

fn is_media(mp: &str) -> (r: bool)
    ensures
        r == under_media(mp@),
{
    let cs = chars_of(mp);
    has_prefix(&cs, &chars_of("/media/")) || has_prefix(&cs, &chars_of("/run/media/"))
        || has_prefix(&cs, &chars_of("/mnt/"))
}

fn already_mounted(ms: &Vec<Mount>, p: &str) -> (r: bool)
    ensures
        r == mounted_in(mount_views(ms@), p@),
{
    let ghost all = mount_views(ms@);
    let mut i: usize = 0;
    while i < ms.len()
        invariant
            i <= ms.len(),
            all == mount_views(ms@),
            forall|k: int| 0 <= k < i ==> (#[trigger] all[k]).point != Some(p@),
        decreases ms.len() - i,
    {
        assert(all[i as int] == ms@[i as int]@);
        if let Some(q) = &ms[i].point {
            if same(q.as_str(), p) {
                assert(all[i as int].point == Some(p@));
                return true;
            }
        }
        i += 1;
    }
    false
}

/// The mounts below the places where removable drives are mounted, each place once, in the
/// order of the table.
pub fn media_mounts(ms: &Vec<Mount>) -> (r: Vec<Mount>)
    ensures
        mount_views(r@) == media_in(mount_views(ms@), ms@.len() as int),
{
    let ghost all = mount_views(ms@);
    let mut r: Vec<Mount> = Vec::new();
    let mut i: usize = 0;
    assert(mount_views(r@) =~= media_in(all, 0));
    while i < ms.len()
        invariant
            i <= ms.len(),
            all == mount_views(ms@),
            mount_views(r@) == media_in(all, i as int),
        decreases ms.len() - i,
    {
        assert(all[i as int] == ms@[i as int]@);
        let ghost before = r@;
        if let Some(p) = &ms[i].point {
            if is_media(p.as_str()) && !already_mounted(&r, p.as_str()) {
                let m = Mount { point: copy_text(&ms[i].point), device: copy_text(&ms[i].device) };
                r.push(m);
                assert(mount_views(r@) =~= mount_views(before).push(m@));
            }
        }
        i += 1;
    }
    r
}

/// Only places below the media directories are listed, and none twice.
pub proof fn law_media_mounts_are_distinct(ms: Seq<MountView>, n: int)
    requires
        0 <= n <= ms.len(),
    ensures
        forall|i: int|
            #![trigger media_in(ms, n)[i]]
            0 <= i < media_in(ms, n).len() ==> media_in(ms, n)[i].point is Some && under_media(
                media_in(ms, n)[i].point->0,
            ),
        forall|i: int, j: int|
            0 <= i < j < media_in(ms, n).len() ==> (#[trigger] media_in(ms, n)[i]).point != (
            #[trigger] media_in(ms, n)[j]).point,
    decreases n,
{
    if n > 0 {
        law_media_mounts_are_distinct(ms, n - 1);
    }
}

// ── the disk behind a device ─────────────────────────────────────────────────
pub open spec fn is_digit(c: char) -> bool {
    '0' <= c <= '9'
}

pub open spec fn all_digits(s: Seq<char>) -> bool {
    forall|i: int| 0 <= i < s.len() ==> is_digit(#[trigger] s[i])
}

/// What stands behind the last `c`, or all of `s`.
pub open spec fn after_last(s: Seq<char>, c: char) -> Seq<char>
    decreases s.len(),
{
    if s.len() == 0 || s.last() == c {
        Seq::empty()
    } else {
        after_last(s.drop_last(), c).push(s.last())
    }
}

/// `s` without the digits it ends in.
pub open spec fn without_digits(s: Seq<char>) -> Seq<char>
    decreases s.len(),
{
    if s.len() > 0 && is_digit(s.last()) {
        without_digits(s.drop_last())
    } else {
        s
    }
}

/// The whole disk that a partition lies on: `sda1` is on `sda`, `nvme0n1p5` on `nvme0n1`.
pub open spec fn base_of(dev: Seq<char>) -> Seq<char> {
    let name = after_last(dev, '/');
    if "nvme"@.is_prefix_of(name) || "mmcblk"@.is_prefix_of(name) {
        let tail = after_last(name, 'p');
        if tail.len() < name.len() && tail.len() > 0 && all_digits(tail) {
            name.take(name.len() - tail.len() - 1)
        } else {
            name
        }
    } else {
        without_digits(name)
    }
}

/// How long the part behind the last `c` is.
fn tail_len(s: &Vec<char>, c: char) -> (n: usize)
    ensures
        n <= s.len(),
        s@.skip(s@.len() - n) == after_last(s@, c),
        n < s.len() ==> s@[s@.len() - n - 1] == c,
{
    let mut n: usize = 0;
    assert(s@.take(s@.len() as int) =~= s@);
    assert(s@.skip(s@.len() as int) =~= Seq::empty());
    while n < s.len() && s[s.len() - n - 1] != c
        invariant
            n <= s.len(),
            after_last(s@, c) == after_last(s@.take(s@.len() - n), c) + s@.skip(s@.len() - n),
        decreases s.len() - n,
    {
        let ghost head = s@.take(s@.len() - n);
        assert(head.drop_last() =~= s@.take(s@.len() - (n + 1)));
        assert(head.last() == s@[s@.len() - n - 1]);
        assert(after_last(head.drop_last(), c).push(head.last()) + s@.skip(s@.len() - n)
            =~= after_last(head.drop_last(), c) + s@.skip(s@.len() - (n + 1)));
        n += 1;
    }
    let ghost head = s@.take(s@.len() - n);
    assert(head.len() > 0 ==> head.last() == s@[s@.len() - n - 1]);
    assert(after_last(head, c) =~= Seq::empty());
    assert(Seq::<char>::empty() + s@.skip(s@.len() - n) =~= s@.skip(s@.len() - n));
    n
}

fn digits_only(s: &Vec<char>, from: usize) -> (r: bool)
    requires
        from <= s.len(),
    ensures
        r == all_digits(s@.skip(from as int)),
{
    let ghost tail = s@.skip(from as int);
    let mut i: usize = from;
    while i < s.len()
        invariant
            from <= i <= s.len(),
            tail == s@.skip(from as int),
            forall|k: int| 0 <= k < i - from ==> is_digit(#[trigger] tail[k]),
        decreases s.len() - i,
    {
        if !('0' <= s[i] && s[i] <= '9') {
            assert(tail[i - from] == s@[i as int]);
            return false;
        }
        i += 1;
    }
    true
}

pub fn block_base(dev: &str) -> (r: String)
    ensures
        r@ == base_of(dev@),
{
    let d = chars_of(dev);
    let n = tail_len(&d, '/');
    let name = slice(d.as_slice(), d.len() - n, d.len());
    assert(name@ =~= after_last(dev@, '/'));
    if has_prefix(&name, &chars_of("nvme")) || has_prefix(&name, &chars_of("mmcblk")) {
        let t = tail_len(&name, 'p');
        assert(after_last(name@, 'p').len() == t);
        if t < name.len() && t > 0 && digits_only(&name, name.len() - t) {
            let head = slice(name.as_slice(), 0, name.len() - t - 1);
            assert(head@ =~= name@.take(name@.len() - t - 1));
            return text_of(head.as_slice());
        }
        return text_of(name.as_slice());
    }
    let mut end: usize = name.len();
    assert(name@.take(end as int) =~= name@);
    while end > 0 && '0' <= name[end - 1] && name[end - 1] <= '9'
        invariant
            end <= name.len(),
            without_digits(name@) == without_digits(name@.take(end as int)),
        decreases end,
    {
        assert(name@.take(end as int).drop_last() =~= name@.take(end - 1));
        end -= 1;
    }
    assert(without_digits(name@) == name@.take(end as int));
    let head = slice(name.as_slice(), 0, end);
    assert(head@ =~= name@.take(end as int));
    text_of(head.as_slice())
}

/// A drive that may be written to and safely removed: never the disk that carries the running
/// system, and either one the kernel calls removable or one that sits on the USB bus.
pub open spec fn external(
    dev: Seq<char>,
    root: Option<Seq<char>>,
    flag: Option<Seq<char>>,
    node: Option<Seq<char>>,
) -> bool {
    &&& root is Some ==> base_of(root->0) != base_of(dev)
    &&& (flag is Some && fields::trimmed(flag->0) == "1"@) || (node is Some && fields::occurs(
        node->0,
        "/usb"@,
    ))
}

/// Decides from the device, the one mounted at the root, what the `removable` file of the disk
/// holds and where its node in the device tree lies.
pub fn is_external(
    dev: &str,
    root: &Option<String>,
    flag: &Option<String>,
    node: &Option<String>,
) -> (r: bool)
    ensures
        r == external(dev@, opt_text(*root), opt_text(*flag), opt_text(*node)),
{
    if let Some(rd) = root {
        if same(block_base(rd.as_str()).as_str(), block_base(dev).as_str()) {
            return false;
        }
    }
    let by_flag = match flag {
        Some(f) => {
            let t = text_of(trim(chars_of(f.as_str()).as_slice()).as_slice());
            same(t.as_str(), "1")
        },
        None => false,
    };
    let by_bus = match node {
        Some(n) => mentions(&chars_of(n.as_str()), "/usb"),
        None => false,
    };
    by_flag || by_bus
}

/// A line of `diskutil info` that calls a volume external.
pub open spec fn says_external(line: Seq<char>) -> bool {
    let l = fields::trimmed(line);
    ||| "Device Location:"@.is_prefix_of(l) && fields::occurs(l, "External"@)
    ||| "Removable Media:"@.is_prefix_of(l) && fields::occurs(l, "Removable"@)
}

/// One of the lines that `diskutil info` printed calls the volume external.
pub open spec fn volume_external(info: Seq<char>) -> bool {
    exists|i: int|
        0 <= i < fields::lines(info).len() && says_external(#[trigger] fields::lines(info)[i])
}

/// Whether what `diskutil info` printed calls the volume external.
pub fn mac_volume_is_external(info: &str) -> (r: bool)
    ensures
        r == volume_external(info@),
{
    let rows = lines_of(chars_of(info).as_slice());
    let ghost ls = fields::lines(info@);
    let mut i: usize = 0;
    while i < rows.len()
        invariant
            i <= rows.len(),
            fields::rows(rows@) == ls,
            ls == fields::lines(info@),
            forall|k: int| 0 <= k < i ==> !says_external(#[trigger] ls[k]),
        decreases rows.len() - i,
    {
        assert(ls[i as int] == rows@[i as int]@);
        let l = trim(rows[i].as_slice());
        if (has_prefix(&l, &chars_of("Device Location:")) && mentions(&l, "External")) || (
        has_prefix(&l, &chars_of("Removable Media:")) && mentions(&l, "Removable")) {
            assert(says_external(ls[i as int]));
            return true;
        }
        i += 1;
    }
    false
}

// ── what a device is made of ─────────────────────────────────────────────────
/// How many layers of mapping are followed down.
pub const LAYERS: u8 = 4;

/// The device of that kernel name.
pub open spec fn node_of(name: Seq<char>) -> Seq<char> {
    "/dev/"@ + name
}

/// One of `devs` lies on the disk `base`, directly or through at most `depth` layers, where
/// `below` tells what each device is made of.
pub open spec fn any_on(
    devs: Seq<Seq<char>>,
    base: Seq<char>,
    depth: nat,
    below: spec_fn(Seq<char>) -> Seq<Seq<char>>,
) -> bool
    decreases depth, devs.len(),
{
    devs.len() > 0 && {
        ||| base_of(devs[0]) == base
        ||| depth > 0 && any_on(
            below(devs[0]).map_values(|n: Seq<char>| node_of(n)),
            base,
            (depth - 1) as nat,
            below,
        )
        ||| any_on(devs.drop_first(), base, depth, below)
    }
}

/// The search whether a device lies on a disk. It asks what a device is made of, and is told.
pub struct DiskWalk {
    base: String,
    todo: Vec<(String, u8)>,
    asked: Option<(String, u8)>,
    found: bool,
}

#[verifier::ext_equal]
pub struct DiskWalkView {
    pub base: Seq<char>,
    /// Still to look at, the next one last, each with the layers left.
    pub todo: Seq<(Seq<char>, nat)>,
    /// What was asked about.
    pub asked: Option<Layer>,
    pub found: bool,
}

/// A device asked about, with the layers left.
#[verifier::ext_equal]
pub struct Layer {
    pub dev: Seq<char>,
    pub left: nat,
}

impl DiskWalkView {
    /// Goes on to the next device whose make-up must be known: those that are on the disk end
    /// the search, those with no layer left are dropped.
    pub open spec fn settled(self) -> DiskWalkView
        decreases self.todo.len(),
    {
        if self.found || self.todo.len() == 0 {
            self
        } else {
            let (dev, left) = self.todo.last();
            let rest = DiskWalkView { todo: self.todo.drop_last(), ..self };
            if base_of(dev) == self.base {
                DiskWalkView { found: true, ..rest }
            } else if left > 0 {
                DiskWalkView { asked: Some(Layer { dev, left }), ..rest }
            } else {
                rest.settled()
            }
        }
    }

    /// The device asked about is made of these, which are looked at next, the first one first.
    pub open spec fn answered(self, names: Seq<Seq<char>>) -> DiskWalkView {
        DiskWalkView {
            todo: self.todo + names.map_values(|n: Seq<char>| node_of(n)).reverse().map_values(
                |d: Seq<char>| (d, (self.asked->0.left - 1) as nat),
            ),
            asked: None,
            ..self
        }
    }

    /// The answer that the search is after, given what each device is made of.
    pub open spec fn verdict(self, below: spec_fn(Seq<char>) -> Seq<Seq<char>>) -> bool {
        ||| self.found
        ||| self.asked is Some && self.asked->0.left > 0 && any_on(
            below(self.asked->0.dev).map_values(|n: Seq<char>| node_of(n)),
            self.base,
            (self.asked->0.left - 1) as nat,
            below,
        )
        ||| left_on(self.todo, self.base, below)
    }
}

/// Something still to look at lies on the disk.
pub open spec fn left_on(
    todo: Seq<(Seq<char>, nat)>,
    base: Seq<char>,
    below: spec_fn(Seq<char>) -> Seq<Seq<char>>,
) -> bool
    decreases todo.len(),
{
    todo.len() > 0 && (any_on(seq![todo.last().0], base, todo.last().1, below) || left_on(
        todo.drop_last(),
        base,
        below,
    ))
}

impl View for DiskWalk {
    type V = DiskWalkView;

    closed spec fn view(&self) -> DiskWalkView {
        DiskWalkView {
            base: self.base@,
            todo: self.todo@.map_values(|p: (String, u8)| (p.0@, p.1 as nat)),
            asked: match self.asked {
                Some(p) => Some(Layer { dev: p.0@, left: p.1 as nat }),
                None => None,
            },
            found: self.found,
        }
    }
}

proof fn lemma_one(
    d: Seq<char>,
    base: Seq<char>,
    depth: nat,
    below: spec_fn(Seq<char>) -> Seq<Seq<char>>,
)
    ensures
        any_on(seq![d], base, depth, below) == (base_of(d) == base || depth > 0 && any_on(
            below(d).map_values(|n: Seq<char>| node_of(n)),
            base,
            (depth - 1) as nat,
            below,
        )),
{
    assert(seq![d].drop_first() =~= Seq::empty());
    assert(!any_on(Seq::empty(), base, depth, below));
}

/// Pushing children, the last first, is asking about all of them.
proof fn lemma_children(
    todo: Seq<(Seq<char>, nat)>,
    devs: Seq<Seq<char>>,
    base: Seq<char>,
    depth: nat,
    below: spec_fn(Seq<char>) -> Seq<Seq<char>>,
)
    ensures
        left_on(todo + devs.reverse().map_values(|d: Seq<char>| (d, depth)), base, below) == (any_on(
            devs,
            base,
            depth,
            below,
        ) || left_on(todo, base, below)),
    decreases devs.len(),
{
    let all = todo + devs.reverse().map_values(|d: Seq<char>| (d, depth));
    if devs.len() == 0 {
        assert(all =~= todo);
    } else {
        let rest = devs.drop_first();
        lemma_children(todo, rest, base, depth, below);
        assert(all.last() == (devs[0], depth));
        assert(all.drop_last() =~= todo + rest.reverse().map_values(|d: Seq<char>| (d, depth)));
        lemma_one(devs[0], base, depth, below);
    }
}

impl DiskWalk {
    /// Whether `dev` lies on the disk `base`.
    pub fn begin(dev: &str, base: &str) -> (w: DiskWalk)
        ensures
            w@ == (DiskWalkView {
                base: base@,
                todo: seq![(dev@, LAYERS as nat)],
                asked: None,
                found: false,
            }),
    {
        let mut todo: Vec<(String, u8)> = Vec::new();
        todo.push((String::from_str(dev), LAYERS));
        let w = DiskWalk { base: String::from_str(base), todo, asked: None, found: false };
        assert(w@.todo =~= seq![(dev@, LAYERS as nat)]);
        w
    }

    /// The next device whose make-up must be known, or nothing when the search is over.
    pub fn next(&mut self) -> (r: Option<String>)
        requires
            old(self)@.asked is None,
        ensures
            final(self)@ == old(self)@.settled(),
            forall|below: spec_fn(Seq<char>) -> Seq<Seq<char>>| #[trigger]
                final(self)@.verdict(below) == old(self)@.verdict(below),
            final(self)@.base == old(self)@.base,
            match r {
                Some(d) => final(self)@.asked is Some && final(self)@.asked->0.dev == d@
                    && final(self)@.asked->0.left > 0 && !final(self)@.found,
                None => final(self)@.asked is None && forall|
                    below: spec_fn(Seq<char>) -> Seq<Seq<char>>,
                | #[trigger] final(self)@.verdict(below) == final(self)@.found,
            },
    {
        loop
            invariant
                self@.asked is None,
                self@.base == old(self)@.base,
                self@.settled() == old(self)@.settled(),
                forall|below: spec_fn(Seq<char>) -> Seq<Seq<char>>| #[trigger]
                    self@.verdict(below) == old(self)@.verdict(below),
            decreases self.todo.len(),
        {
            if self.found {
                return None;
            }
            let ghost before = self@;
            match self.todo.pop() {
                None => {
                    return None;
                },
                Some(p) => {
                    assert(before.todo.last() == (p.0@, p.1 as nat));
                    assert(self@.todo =~= before.todo.drop_last());
                    proof {
                        assert forall|below: spec_fn(Seq<char>) -> Seq<Seq<char>>| #[trigger]
                            before.verdict(below) == (any_on(
                                seq![p.0@],
                                before.base,
                                p.1 as nat,
                                below,
                            ) || left_on(self@.todo, before.base, below)) by {}
                        assert forall|below: spec_fn(Seq<char>) -> Seq<Seq<char>>| #[trigger]
                            any_on(seq![p.0@], before.base, p.1 as nat, below) == (base_of(p.0@)
                                == before.base || p.1 > 0 && any_on(
                                below(p.0@).map_values(|n: Seq<char>| node_of(n)),
                                before.base,
                                (p.1 - 1) as nat,
                                below,
                            )) by {
                            lemma_one(p.0@, before.base, p.1 as nat, below);
                        }
                    }
                    if same(block_base(p.0.as_str()).as_str(), self.base.as_str()) {
                        self.found = true;
                        assert(self@.found);
                        assert forall|below: spec_fn(Seq<char>) -> Seq<Seq<char>>| #[trigger]
                            self@.verdict(below) == old(self)@.verdict(below) by {
                            assert(before.verdict(below) == old(self)@.verdict(below));
                            assert(any_on(seq![p.0@], before.base, p.1 as nat, below));
                        }
                    } else if p.1 > 0 {
                        let d = p.0.clone();
                        self.asked = Some(p);
                        assert forall|below: spec_fn(Seq<char>) -> Seq<Seq<char>>| #[trigger]
                            self@.verdict(below) == old(self)@.verdict(below) by {
                            assert(before.verdict(below) == old(self)@.verdict(below));
                            assert(any_on(seq![p.0@], before.base, p.1 as nat, below) == any_on(
                                below(p.0@).map_values(|n: Seq<char>| node_of(n)),
                                before.base,
                                (p.1 - 1) as nat,
                                below,
                            ));
                        }
                        return Some(d);
                    } else {
                        assert forall|below: spec_fn(Seq<char>) -> Seq<Seq<char>>| #[trigger]
                            self@.verdict(below) == old(self)@.verdict(below) by {
                            assert(before.verdict(below) == old(self)@.verdict(below));
                            assert(!any_on(seq![p.0@], before.base, p.1 as nat, below));
                        }
                    }
                },
            }
        }
    }

    /// Takes the names of what the device asked about is made of.
    pub fn answer(&mut self, names: &Vec<String>)
        requires
            old(self)@.asked is Some,
            old(self)@.asked->0.left > 0,
        ensures
            final(self)@ == old(self)@.answered(text::texts(names@)),
            forall|below: spec_fn(Seq<char>) -> Seq<Seq<char>>|
                below(old(self)@.asked->0.dev) == text::texts(names@)
                    ==> #[trigger] final(self)@.verdict(below) == old(self)@.verdict(below),
    {
        let ghost before = self@;
        let depth: u8 = match &self.asked {
            Some(p) => p.1,
            None => 1,
        };
        self.asked = None;
        let ghost devs = text::texts(names@).map_values(|n: Seq<char>| node_of(n));
        let ghost dn = (depth - 1) as nat;
        let mut i: usize = names.len();
        assert(devs.skip(i as int).reverse().map_values(|d: Seq<char>| (d, dn))
            =~= Seq::<(Seq<char>, nat)>::empty());
        assert(self@.todo =~= before.todo + devs.skip(i as int).reverse().map_values(
            |d: Seq<char>| (d, dn),
        ));
        while i > 0
            invariant
                i <= names.len(),
                depth > 0,
                dn == (depth - 1) as nat,
                devs == text::texts(names@).map_values(|n: Seq<char>| node_of(n)),
                self.asked is None,
                self@.base == before.base,
                self@.found == before.found,
                self@.todo == before.todo + devs.skip(i as int).reverse().map_values(
                    |d: Seq<char>| (d, dn),
                ),
            decreases i,
        {
            i -= 1;
            let d = cat("/dev/", names[i].as_str());
            let ghost t0 = self@.todo;
            assert(devs[i as int] == d@);
            self.todo.push((d, depth - 1));
            assert(self@.todo =~= t0.push((d@, dn)));
            assert(devs.skip(i as int).reverse().map_values(|d: Seq<char>| (d, dn))
                =~= devs.skip(i + 1).reverse().map_values(|d: Seq<char>| (d, dn)).push((d@, dn)));
            assert(self@.todo =~= before.todo + devs.skip(i as int).reverse().map_values(
                |d: Seq<char>| (d, dn),
            ));
        }
        assert(devs.skip(0) =~= devs);
        assert forall|below: spec_fn(Seq<char>) -> Seq<Seq<char>>|
            below(before.asked->0.dev) == text::texts(names@) implies #[trigger] self@.verdict(below)
            == before.verdict(below) by {
            lemma_children(before.todo, devs, before.base, dn, below);
        }
    }

    /// What the search found.
    pub fn found(&self) -> (r: bool)
        ensures
            r == self@.found,
    {
        self.found
    }
}

/// A search that was answered truthfully to its end has found whether the device lies on the
/// disk: what it began with asks for exactly that.
pub proof fn law_the_walk_decides(
    dev: Seq<char>,
    base: Seq<char>,
    below: spec_fn(Seq<char>) -> Seq<Seq<char>>,
)
    ensures
        (DiskWalkView { base, todo: seq![(dev, LAYERS as nat)], asked: None, found: false }).verdict(
            below,
        ) == any_on(seq![dev], base, LAYERS as nat, below),
{
    let todo = seq![(dev, LAYERS as nat)];
    assert(todo.drop_last() =~= Seq::empty());
    assert(!left_on(Seq::empty(), base, below));
    assert(todo.last() == (dev, LAYERS as nat));
}

/// What is still to look at, weighed so that a device outweighs what it is made of, if that
/// is at most `most` others.
pub open spec fn weight(todo: Seq<(Seq<char>, nat)>, most: nat) -> nat
    decreases todo.len(),
{
    if todo.len() == 0 {
        0
    } else {
        weight(todo.drop_last(), most) + power(most + 1, todo.last().1)
    }
}

pub open spec fn power(b: nat, n: nat) -> nat
    decreases n,
{
    if n == 0 {
        1
    } else {
        b * power(b, (n - 1) as nat)
    }
}

/// The search comes to an end: as long as no device is made of more than `most` others, each
/// question and its answer leave less to look at than there was.
pub proof fn law_the_walk_ends(v: DiskWalkView, names: Seq<Seq<char>>, most: nat)
    requires
        v.asked is None,
        v.settled().asked is Some,
        names.len() <= most,
    ensures
        weight(v.settled().answered(names).todo, most) < weight(v.todo, most),
    decreases v.todo.len(),
{
    let (dev, left) = v.todo.last();
    let rest = DiskWalkView { todo: v.todo.drop_last(), ..v };
    lemma_power_positive(most + 1, left);
    if base_of(dev) != v.base && left == 0 {
        law_the_walk_ends(rest, names, most);
    } else {
        let less = (left - 1) as nat;
        let more = names.map_values(|n: Seq<char>| node_of(n)).reverse().map_values(
            |d: Seq<char>| (d, less),
        );
        lemma_weight_of_children(rest.todo, more, less, most);
        let p = power(most + 1, less);
        lemma_power_positive(most + 1, less);
        assert(names.len() * p < (most + 1) * p) by (nonlinear_arith)
            requires
                names.len() <= most,
                p > 0,
        ;
    }
}

proof fn lemma_power_positive(b: nat, n: nat)
    requires
        b > 0,
    ensures
        power(b, n) > 0,
    decreases n,
{
    if n > 0 {
        lemma_power_positive(b, (n - 1) as nat);
        let p = power(b, (n - 1) as nat);
        assert(b * p > 0) by (nonlinear_arith)
            requires
                b > 0,
                p > 0,
        ;
    }
}

proof fn lemma_weight_of_children(
    todo: Seq<(Seq<char>, nat)>,
    more: Seq<(Seq<char>, nat)>,
    left: nat,
    most: nat,
)
    requires
        forall|i: int| 0 <= i < more.len() ==> (#[trigger] more[i]).1 == left,
    ensures
        weight(todo + more, most) == weight(todo, most) + more.len() * power(most + 1, left),
    decreases more.len(),
{
    let p = power(most + 1, left);
    if more.len() == 0 {
        assert(todo + more =~= todo);
    } else {
        let init = more.drop_last();
        assert forall|i: int| 0 <= i < init.len() implies (#[trigger] init[i]).1 == left by {
            assert(init[i] == more[i]);
        }
        lemma_weight_of_children(todo, init, left, most);
        assert((todo + more).drop_last() =~= todo + init);
        assert((todo + more).last() == more[more.len() - 1]);
        assert(more.len() * p == init.len() * p + p) by (nonlinear_arith)
            requires
                more.len() == init.len() + 1,
        ;
    }
}

// ── everything mounted from one disk ─────────────────────────────────────────
/// A device, and where it is mounted.
pub struct Mounted {
    pub device: String,
    pub point: String,
}

#[verifier::ext_equal]
pub struct MountedView {
    pub device: Seq<char>,
    pub point: Seq<char>,
}

impl View for Mounted {
    type V = MountedView;

    open spec fn view(&self) -> MountedView {
        MountedView { device: self.device@, point: self.point@ }
    }
}

pub open spec fn mounted_views(v: Seq<Mounted>) -> Seq<MountedView> {
    v.map_values(|m: Mounted| m@)
}

pub open spec fn has_device(v: Seq<MountedView>, d: Seq<char>) -> bool {
    exists|i: int| 0 <= i < v.len() && (#[trigger] v[i]).device == d
}

/// A line of the table that can be unmounted: it has a mount point and a device node.
pub open spec fn is_node(m: MountView) -> bool {
    m.point is Some && m.device is Some && "/dev/"@.is_prefix_of(m.device->0)
}

/// The mounts among the first `n` whose device lies on the disk, as `on` tells, each device once.
pub open spec fn on_drive(ms: Seq<MountView>, on: Seq<bool>, n: int) -> Seq<MountedView>
    decreases n,
{
    if n <= 0 {
        Seq::empty()
    } else {
        let before = on_drive(ms, on, n - 1);
        let m = ms[n - 1];
        if is_node(m) && n <= on.len() && on[n - 1] && !has_device(before, m.device->0) {
            before.push(MountedView { device: m.device->0, point: m.point->0 })
        } else {
            before
        }
    }
}

/// Whether the device of this line is worth asking about.
pub fn wants_walk(m: &Mount) -> (r: bool)
    ensures
        r == is_node(m@),
{
    match (&m.point, &m.device) {
        (Some(_), Some(d)) => has_prefix(&chars_of(d.as_str()), &chars_of("/dev/")),
        _ => false,
    }
}

fn holds_device(v: &Vec<Mounted>, d: &str) -> (r: bool)
    ensures
        r == has_device(mounted_views(v@), d@),
{
    let ghost all = mounted_views(v@);
    let mut i: usize = 0;
    while i < v.len()
        invariant
            i <= v.len(),
            all == mounted_views(v@),
            forall|k: int| 0 <= k < i ==> (#[trigger] all[k]).device != d@,
        decreases v.len() - i,
    {
        assert(all[i as int] == v@[i as int]@);
        if same(v[i].device.as_str(), d) {
            assert(all[i as int].device == d@);
            return true;
        }
        i += 1;
    }
    false
}

/// Every mount that lives on one disk, as `on` tells of each line of the table.
pub fn mounts_on_drive(ms: &Vec<Mount>, on: &Vec<bool>) -> (r: Vec<Mounted>)
    ensures
        mounted_views(r@) == on_drive(mount_views(ms@), on@, ms@.len() as int),
{
    let ghost all = mount_views(ms@);
    let mut r: Vec<Mounted> = Vec::new();
    let mut i: usize = 0;
    assert(mounted_views(r@) =~= on_drive(all, on@, 0));
    while i < ms.len()
        invariant
            i <= ms.len(),
            all == mount_views(ms@),
            mounted_views(r@) == on_drive(all, on@, i as int),
        decreases ms.len() - i,
    {
        assert(all[i as int] == ms@[i as int]@);
        let ghost before = r@;
        if wants_walk(&ms[i]) && i < on.len() && on[i] {
            if let (Some(p), Some(d)) = (&ms[i].point, &ms[i].device) {
                if !holds_device(&r, d.as_str()) {
                    let m = Mounted { device: d.clone(), point: p.clone() };
                    r.push(m);
                    assert(mounted_views(r@) =~= mounted_views(before).push(m@));
                }
            }
        }
        i += 1;
    }
    r
}

/// Nothing on the disk is passed over: every device of the table that lies on it is listed.
pub proof fn law_no_sibling_is_missed(ms: Seq<MountView>, on: Seq<bool>, n: int, k: int)
    requires
        0 <= k < n <= ms.len(),
        n <= on.len(),
        on[k],
        is_node(ms[k]),
    ensures
        has_device(on_drive(ms, on, n), ms[k].device->0),
    decreases n,
{
    let before = on_drive(ms, on, n - 1);
    let now = on_drive(ms, on, n);
    if k < n - 1 {
        law_no_sibling_is_missed(ms, on, n - 1, k);
        let i = choose|i: int| 0 <= i < before.len() && (#[trigger] before[i]).device == ms[k].device->0;
        assert(now[i] == before[i]);
    } else if !has_device(before, ms[k].device->0) {
        assert(now.last().device == ms[k].device->0);
        assert(now[now.len() - 1].device == ms[k].device->0);
    }
}

// ── drive letters ────────────────────────────────────────────────────────────
/// What the system calls a drive.
#[derive(Clone, Copy, PartialEq, Eq, Structural)]
pub enum DriveKind {
    Removable,
    Fixed,
    Remote,
    Other,
}

/// What asking a drive for its volume brought.
pub enum Volume {
    /// Not asked: a network drive can take very long to answer.
    Unasked,
    Named(String),
    /// It did not say; `empty` is a card reader without a card.
    Silent { empty: bool },
}

/// A drive of the list.
pub struct WinDrive {
    pub label: String,
    pub letter: char,
    pub external: bool,
}

/// What the system means by the number it gives for a drive.
pub open spec fn kind_of(code: u32) -> DriveKind {
    if code == 2 {
        DriveKind::Removable
    } else if code == 3 {
        DriveKind::Fixed
    } else if code == 4 {
        DriveKind::Remote
    } else {
        DriveKind::Other
    }
}

/// Drives of this kind answer for their volume at once.
pub open spec fn answers(kind: DriveKind) -> bool {
    kind is Removable || kind is Fixed
}

/// Only the bus tells whether this drive is external.
pub open spec fn bus_decides(letter: char, kind: DriveKind, system: char) -> bool {
    letter != system && kind is Fixed
}

pub fn drive_kind(code: u32) -> (k: DriveKind)
    ensures
        k == kind_of(code),
{
    if code == 2 {
        DriveKind::Removable
    } else if code == 3 {
        DriveKind::Fixed
    } else if code == 4 {
        DriveKind::Remote
    } else {
        DriveKind::Other
    }
}

/// `c` in upper case, where it is an ASCII letter.
pub open spec fn upper(c: char) -> char {
    if 'a' <= c <= 'z' {
        (c as u32 - 32) as char
    } else {
        c
    }
}

/// `c` in upper case, where it is an ASCII letter.
pub fn to_upper(c: char) -> (r: char)
    ensures
        r == upper(c),
{
    if 'a' <= c && c <= 'z' {
        ((c as u8) - 32) as char
    } else {
        c
    }
}

/// The letter of the drive the system runs from: the first of what it calls that drive, else C.
pub open spec fn system_drive(name: Option<Seq<char>>) -> char {
    match name {
        Some(s) => if s.len() > 0 {
            upper(s[0])
        } else {
            'C'
        },
        None => 'C',
    }
}

pub fn system_letter(name: &Option<String>) -> (c: char)
    ensures
        c == system_drive(opt_text(*name)),
{
    match name {
        Some(s) => {
            let cs = chars_of(s.as_str());
            if cs.len() > 0 {
                to_upper(cs[0])
            } else {
                'C'
            }
        },
        None => 'C',
    }
}

/// Whether a drive of this kind may be asked for its volume.
pub fn wants_volume(kind: DriveKind) -> (r: bool)
    ensures
        r == answers(kind),
{
    match kind {
        DriveKind::Removable | DriveKind::Fixed => true,
        _ => false,
    }
}

/// Whether the bus a drive sits on decides if it is external.
pub fn wants_bus(letter: char, kind: DriveKind, system: char) -> (r: bool)
    ensures
        r == bus_decides(letter, kind, system),
{
    letter != system && (match kind {
        DriveKind::Fixed => true,
        _ => false,
    })
}

/// How a drive is listed.
pub open spec fn drive_title(letter: char, name: Seq<char>) -> Seq<char> {
    if name.len() == 0 {
        seq![letter] + ":"@
    } else {
        name + " ("@ + seq![letter] + ":)"@
    }
}

pub open spec fn volume_name(v: Volume) -> Seq<char> {
    match v {
        Volume::Named(n) => n@,
        _ => Seq::empty(),
    }
}

/// A drive that the list leaves out: no disk at all, or a card reader without a card.
pub open spec fn unlisted(kind: DriveKind, v: Volume) -> bool {
    kind is Other || (kind is Removable && v is Silent && v->empty)
}

/// External means: not the system drive, and either removable or a fixed disk on the USB bus.
pub open spec fn win_external(letter: char, kind: DriveKind, system: char, usb: bool) -> bool {
    letter != system && (kind is Removable || (kind is Fixed && usb))
}

/// How a drive is listed, if it is.
pub fn win_drive(letter: char, kind: DriveKind, system: char, volume: &Volume, usb: bool) -> (r:
    Option<WinDrive>)
    ensures
        unlisted(kind, *volume) ==> r is None,
        !unlisted(kind, *volume) ==> r is Some && r->0.letter == letter && r->0.label@
            == drive_title(letter, volume_name(*volume)) && r->0.external == win_external(
            letter,
            kind,
            system,
            usb,
        ),
{
    let (listed, removable, fixed) = match kind {
        DriveKind::Removable => (true, true, false),
        DriveKind::Fixed => (true, false, true),
        DriveKind::Remote => (true, false, false),
        DriveKind::Other => (false, false, false),
    };
    if !listed {
        return None;
    }
    let mut label = String::new();
    match volume {
        Volume::Named(n) => {
            label = n.clone();
        },
        Volume::Silent { empty } => {
            if removable && *empty {
                return None;
            }
        },
        Volume::Unasked => {},
    }
    let named = chars_of(label.as_str()).len() > 0;
    if named {
        label.append(" (");
        label.push(letter);
        label.append(":)");
        assert(label@ =~= drive_title(letter, volume_name(*volume)));
    } else {
        label = String::new();
        label.push(letter);
        label.append(":");
        assert(label@ =~= drive_title(letter, volume_name(*volume)));
    }
    Some(
        WinDrive { label, letter, external: letter != system && (removable || (fixed && usb)) },
    )
}

/// What stands before the last ` (`.
pub open spec fn before_paren(title: Seq<char>) -> Option<Seq<char>>
    decreases title.len(),
{
    if title.len() < 2 {
        None
    } else if title[title.len() - 2] == ' ' && title.last() == '(' {
        Some(title.take(title.len() - 2))
    } else {
        before_paren(title.drop_last())
    }
}

/// The volume's own name in a title: what stands before the letter, else all of it.
pub open spec fn own_name(title: Seq<char>) -> Seq<char> {
    match before_paren(title) {
        Some(n) => n,
        None => title,
    }
}

pub fn volume_of(title: &str) -> (r: String)
    ensures
        r@ == own_name(title@),
{
    let cs = chars_of(title);
    let mut n: usize = cs.len();
    assert(cs@.take(n as int) =~= cs@);
    while n >= 2
        invariant
            n <= cs.len(),
            cs@ == title@,
            before_paren(title@) == before_paren(cs@.take(n as int)),
        decreases n,
    {
        let ghost now = cs@.take(n as int);
        if cs[n - 2] == ' ' && cs[n - 1] == '(' {
            let head = slice(cs.as_slice(), 0, n - 2);
            assert(head@ =~= now.take(now.len() - 2));
            return text_of(head.as_slice());
        }
        assert(now.drop_last() =~= cs@.take(n - 1));
        n -= 1;
    }
    String::from_str(title)
}

/// The name of a listed drive is found again in its title.
pub proof fn law_the_name_survives_the_title(letter: char, name: Seq<char>)
    requires
        name.len() > 0,
    ensures
        own_name(drive_title(letter, name)) == name,
{
    reveal_strlit(" (");
    reveal_strlit(":)");
    let t = drive_title(letter, name);
    assert(t =~= name + seq![' ', '(', letter, ':', ')']);
    let a = t.drop_last();
    let b = a.drop_last();
    let c = b.drop_last();
    assert(c =~= name + seq![' ', '(']);
    assert(before_paren(c) == Some(c.take(c.len() - 2)));
    assert(c.take(c.len() - 2) =~= name);
    assert(t[t.len() - 2] == ':');
    assert(a[a.len() - 2] == letter && a.last() == ':');
    assert(b[b.len() - 2] == '(' && b.last() == letter);
    assert(before_paren(b) == before_paren(c));
    assert(before_paren(a) == before_paren(b));
    assert(before_paren(t) == before_paren(a));
}

/// The system drive is never external.
pub proof fn law_the_system_drive_is_never_external(
    dev: Seq<char>,
    flag: Option<Seq<char>>,
    node: Option<Seq<char>>,
)
    ensures
        !external(dev, Some(dev), flag, node),
{
}

// ── where a path is mounted ──────────────────────────────────────────────────
/// How many of the folders above lie on the device `dev`, without a gap.
pub open spec fn level(dev: u64, above: Seq<Option<u64>>) -> nat
    decreases above.len(),
{
    if above.len() > 0 && above[0] == Some(dev) {
        1 + level(dev, above.drop_first())
    } else {
        0
    }
}

/// How many levels up the mount point of a folder lies: the device of the folder is `dev`, and
/// `above` are those of the folders above it, nearest first, as far as they can be read.
pub fn mount_level(dev: u64, above: &Vec<Option<u64>>) -> (n: usize)
    ensures
        n == level(dev, above@),
        n <= above@.len(),
{
    let mut n: usize = 0;
    assert(above@.skip(0) =~= above@);
    while n < above.len() && above[n] == Some(dev)
        invariant
            n <= above.len(),
            level(dev, above@) == n + level(dev, above@.skip(n as int)),
        decreases above.len() - n,
    {
        assert(above@.skip(n as int).drop_first() =~= above@.skip(n + 1));
        n += 1;
    }
    n
}

// ── places to jump to ────────────────────────────────────────────────────────
/// A place in the list of quick jumps.
pub struct Jump {
    pub name: String,
    pub path: FullPath,
}

#[verifier::ext_equal]
pub struct JumpView {
    pub name: Seq<char>,
    pub path: FullView,
}

impl View for Jump {
    type V = JumpView;

    open spec fn view(&self) -> JumpView {
        JumpView { name: self.name@, path: self.path@ }
    }
}

pub open spec fn jump_views(v: Seq<Jump>) -> Seq<JumpView> {
    v.map_values(|j: Jump| j@)
}

/// Home, where there is one, and then the mounted drives under their names.
pub open spec fn jumps(home: Option<FullView>, drives: Seq<FullPath>, os: Os) -> Seq<JumpView> {
    (match home {
        Some(h) => seq![JumpView { name: "Home"@, path: h }],
        None => Seq::empty(),
    }) + drives.map_values(|d: FullPath| JumpView { name: path::place_name(d@, os), path: d@ })
}

pub fn drive_places(home: &Option<FullPath>, drives: &Vec<FullPath>, os: Os) -> (r: Vec<Jump>)
    ensures
        jump_views(r@) == jumps(path::opt_view(*home), drives@, os),
{
    let mut r: Vec<Jump> = Vec::new();
    let ghost more = drives@.map_values(
        |d: FullPath| JumpView { name: path::place_name(d@, os), path: d@ },
    );
    match home {
        Some(h) => {
            let j = Jump { name: String::from_str("Home"), path: h.copy() };
            let ghost jv = j@;
            r.push(j);
            assert(jump_views(r@) =~= seq![jv]);
        },
        None => {
            assert(jump_views(r@) =~= Seq::empty());
        },
    }
    let ghost first = jump_views(r@);
    let mut i: usize = 0;
    assert(first + more.take(0) =~= first);
    while i < drives.len()
        invariant
            i <= drives.len(),
            more == drives@.map_values(
                |d: FullPath| JumpView { name: path::place_name(d@, os), path: d@ },
            ),
            jump_views(r@) == first + more.take(i as int),
        decreases drives.len() - i,
    {
        let ghost before = jump_views(r@);
        let j = Jump { name: name_of_place(&drives[i], os), path: drives[i].copy() };
        let ghost jv = j@;
        r.push(j);
        assert(jv =~= more[i as int]);
        assert(jump_views(r@) =~= before.push(jv));
        assert(first + more.take(i + 1) =~= (first + more.take(i as int)).push(more[i as int]));
        i += 1;
    }
    assert(more.take(i as int) =~= more);
    r
}

/// The external ones of the first `n` roots, each once.
pub open spec fn externals(roots: Seq<FullPath>, external: Seq<bool>, n: int) -> Seq<FullView>
    decreases n,
{
    if n <= 0 {
        Seq::empty()
    } else {
        let init = externals(roots, external, n - 1);
        if external[n - 1] && !init.contains(roots[n - 1]@) {
            init.push(roots[n - 1]@)
        } else {
            init
        }
    }
}

pub open spec fn full_views(v: Seq<FullPath>) -> Seq<FullView> {
    v.map_values(|p: FullPath| p@)
}

/// The roots of every connected external drive, each once: the only places a destination may
/// live. `external` tells of each root whether it is one.
pub fn removable_drives(roots: &Vec<FullPath>, external: &Vec<bool>) -> (r: Vec<FullPath>)
    requires
        roots.len() == external.len(),
    ensures
        full_views(r@) == externals(roots@, external@, roots@.len() as int),
{
    let mut r: Vec<FullPath> = Vec::new();
    let mut i: usize = 0;
    assert(full_views(r@) =~= Seq::empty());
    while i < roots.len()
        invariant
            i <= roots.len(),
            roots.len() == external.len(),
            full_views(r@) == externals(roots@, external@, i as int),
        decreases roots.len() - i,
    {
        let mut known = false;
        let mut k: usize = 0;
        while k < r.len()
            invariant
                k <= r.len(),
                i < roots.len(),
                known == exists|j: int| 0 <= j < k && #[trigger] r@[j]@ == roots@[i as int]@,
            decreases r.len() - k,
        {
            if r[k].is_same(&roots[i]) {
                assert(r@[k as int]@ == roots@[i as int]@);
                known = true;
            }
            k += 1;
        }
        let ghost before = full_views(r@);
        assert(known == before.contains(roots@[i as int]@)) by {
            if known {
                let j = choose|j: int| 0 <= j < k && #[trigger] r@[j]@ == roots@[i as int]@;
                assert(before[j] == roots@[i as int]@);
            }
            if before.contains(roots@[i as int]@) {
                let j = choose|j: int| 0 <= j < before.len() && before[j] == roots@[i as int]@;
                assert(r@[j]@ == roots@[i as int]@);
            }
        }
        if external[i] && !known {
            r.push(roots[i].copy());
            assert(full_views(r@) =~= before.push(roots@[i as int]@));
        }
        i += 1;
    }
    r
}

} // verus!
