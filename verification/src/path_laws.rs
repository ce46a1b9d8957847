//! How paths are put in order, put together and told apart.

use crate::path;
use crate::path::{FullPath, FullView, Os, PartView, KeyWalkView};
use vstd::prelude::*;
use vstd::utf8;

verus! {

// ── order ────────────────────────────────────────────────────────────────────
/// Of two names the one with the smaller byte at the first difference comes first, and a name
/// before whatever it begins.
pub proof fn law_names_are_ordered_by_their_first_difference(
    head: Seq<u8>,
    x: u8,
    y: u8,
    a: Seq<u8>,
    b: Seq<u8>,
)
    ensures
        x < y ==> path::bytes_before(head.push(x) + a, head.push(y) + b),
        x < y ==> !path::bytes_before(head.push(y) + b, head.push(x) + a),
        path::bytes_before(head, head.push(x) + a),
        !path::bytes_before(head.push(x) + a, head),
    decreases head.len(),
{
    let s = head.push(x) + a;
    let t = head.push(y) + b;
    if head.len() > 0 {
        let rest = head.drop_first();
        law_names_are_ordered_by_their_first_difference(rest, x, y, a, b);
        assert(s.drop_first() =~= rest.push(x) + a);
        assert(t.drop_first() =~= rest.push(y) + b);
        assert(s[0] == head[0] && t[0] == head[0]);
    } else {
        assert(s[0] == x && t[0] == y);
    }
}

/// Of two paths the one with the earlier name at the first difference comes first, and a folder
/// before all it holds.
pub proof fn law_paths_are_ordered_by_their_first_difference(
    head: Seq<Seq<u8>>,
    x: Seq<u8>,
    y: Seq<u8>,
    a: Seq<Seq<u8>>,
    b: Seq<Seq<u8>>,
)
    ensures
        path::bytes_before(x, y) ==> path::path_before(head.push(x) + a, head.push(y) + b),
        path::bytes_before(x, y) ==> !path::path_before(head.push(y) + b, head.push(x) + a),
        path::path_before(head, head.push(x) + a),
        !path::path_before(head.push(x) + a, head),
    decreases head.len(),
{
    let s = head.push(x) + a;
    let t = head.push(y) + b;
    if head.len() > 0 {
        let rest = head.drop_first();
        law_paths_are_ordered_by_their_first_difference(rest, x, y, a, b);
        assert(s.drop_first() =~= rest.push(x) + a);
        assert(t.drop_first() =~= rest.push(y) + b);
        assert(s[0] == head[0] && t[0] == head[0]);
    } else {
        assert(s[0] == x && t[0] == y);
        if path::bytes_before(x, y) {
            path::lemma_bytes_irreflexive(x);
            path::lemma_bytes_irreflexive(y);
            if path::bytes_before(y, x) {
                path::lemma_bytes_transitive(x, y, x);
            }
        }
    }
}

// ── texts ────────────────────────────────────────────────────────────────────
/// A path reads as its names with one separator between every two: a backslash on Windows, a
/// slash elsewhere.
pub proof fn law_how_a_path_reads(parts: Seq<Seq<u8>>, p: Seq<u8>, os: Os)
    ensures
        path::rel_text(Seq::empty(), os).len() == 0,
        path::rel_text(seq![p], os) == path::lossy_text(p),
        parts.len() > 0 ==> path::rel_text(parts.push(p), os) == path::rel_text(parts, os).push(
            if os is Windows {
                '\\'
            } else {
                '/'
            },
        ) + path::lossy_text(p),
{
    let f = |p: Seq<u8>| path::lossy_text(p);
    assert(Seq::<Seq<u8>>::empty().map_values(f) =~= Seq::empty());
    assert(seq![p].map_values(f) =~= seq![path::lossy_text(p)]);
    let all = parts.push(p).map_values(f);
    assert(all.drop_last() =~= parts.map_values(f));
    assert(all.last() == path::lossy_text(p));
}

/// An entry below a folder reads as the folder, a separator unless the folder ends in one, and
/// the entry.
pub proof fn law_how_an_entry_below_reads(base: Seq<char>, rel: Seq<char>)
    ensures
        base.len() > 0 && base.last() != '/' ==> path::below(base, rel, Os::Linux) == base.push(
            '/',
        ) + rel,
        base.len() > 0 && base.last() == '/' ==> path::below(base, rel, Os::Linux) == base + rel,
        base.len() > 0 && base.last() != '/' && base.last() != '\\' ==> path::below(
            base,
            rel,
            Os::Windows,
        ) == base.push('\\') + rel,
        base.len() > 0 && (base.last() == '/' || base.last() == '\\') ==> path::below(
            base,
            rel,
            Os::Windows,
        ) == base + rel,
        path::dir_spelling(base, Os::Linux) <==> base.len() > 0 && base.last() == '/',
        path::dir_spelling(base, Os::Mac) <==> base.len() > 0 && base.last() == '/',
        path::dir_spelling(base, Os::Windows) <==> base.len() > 0 && (base.last() == '/'
            || base.last() == '\\'),
{
}

/// A file in the making never has the name of the file it becomes, and two files in the making
/// share a name only if the files do.
pub proof fn law_a_part_is_not_the_file(a: Seq<char>, b: Seq<char>)
    ensures
        a + path::part_suffix() != a,
        a + path::part_suffix() == b + path::part_suffix() ==> a == b,
{
    reveal_strlit(".kpart");
    let s = path::part_suffix();
    assert((a + s).len() == a.len() + 6);
    if a + s == b + s {
        assert(a =~= (a + s).take(a.len() as int));
        assert(b =~= (b + s).take(b.len() as int));
    }
}

// ── absolute and normal ──────────────────────────────────────────────────────
/// A path stands on its own when it begins at a root and, on Windows, names its drive.
pub proof fn law_what_absolute_means(p: FullView)
    ensures
        p.absolute(Os::Linux) <==> p.rooted,
        p.absolute(Os::Mac) <==> p.rooted,
        p.absolute(Os::Windows) <==> p.rooted && p.prefix.len() > 0,
{
}

/// An absolute path means the same everywhere; a relative one is taken from the working
/// directory. Either way the result keeps no detours.
pub proof fn law_what_the_working_directory_changes(p: FullView, cwd: FullView, os: Os)
    ensures
        p.absolute(os) ==> path::lexical(p, Some(cwd), os) == path::lexical(p, None, os),
        p.absolute(os) ==> path::lexical(p, None, os).prefix == p.prefix && path::lexical(
            p,
            None,
            os,
        ).rooted == p.rooted,
        !p.absolute(os) && !p.rooted && p.prefix.len() == 0 ==> path::lexical(p, Some(cwd), os)
            == (FullView { parts: path::folded(cwd.parts + p.parts), ..cwd }),
        path::lexical(p, Some(cwd), os).plain(),
{
    let abs = if p.absolute(os) {
        p
    } else {
        cwd.resolve(p)
    };
    lemma_plain(abs.parts);
}

proof fn lemma_plain(parts: Seq<PartView>)
    ensures
        forall|i: int| 0 <= i < path::folded(parts).len() ==> #[trigger] path::folded(parts)[i] is Name,
    decreases parts.len(),
{
    if parts.len() > 0 {
        lemma_plain(parts.drop_last());
    }
}

/// Going up takes the last name away and does nothing at the root; a dot does nothing at all; a
/// name is added.
pub proof fn law_what_each_step_of_a_path_does(parts: Seq<PartView>, n: Seq<u8>)
    ensures
        path::folded(parts.push(PartView::Here)) == path::folded(parts),
        path::folded(parts.push(PartView::Name(n))) == path::folded(parts).push(
            PartView::Name(n),
        ),
        path::folded(parts).len() > 0 ==> path::folded(parts.push(PartView::Up)) == path::folded(
            parts,
        ).drop_last(),
        path::folded(parts).len() == 0 ==> path::folded(parts.push(PartView::Up)).len() == 0,
{
    assert(parts.push(PartView::Here).drop_last() =~= parts);
    assert(parts.push(PartView::Name(n)).drop_last() =~= parts);
    assert(parts.push(PartView::Up).drop_last() =~= parts);
}

// ── inside ───────────────────────────────────────────────────────────────────
/// A path is inside another exactly when it begins with all its components, on the same drive.
/// Sharing only the beginning of a name is not enough.
pub proof fn law_what_inside_means(p: FullView, base: FullView)
    ensures
        p.within(base) <==> {
            &&& p.prefix == base.prefix
            &&& p.rooted == base.rooted
            &&& p.parts.len() >= base.parts.len()
            &&& forall|i: int| 0 <= i < base.parts.len() ==> #[trigger] p.parts[i] == base.parts[i]
        },
        p.within(p),
{
    let n = base.parts.len() as int;
    if p.within(base) {
        assert forall|i: int| 0 <= i < n implies #[trigger] p.parts[i] == base.parts[i] by {
            assert(p.parts.take(n)[i] == base.parts[i]);
        }
    }
    if p.parts.len() >= n && (forall|i: int| 0 <= i < n ==> #[trigger] p.parts[i] == base.parts[i]) {
        assert(p.parts.take(n) =~= base.parts);
    }
    assert(p.parts.take(p.parts.len() as int) =~= p.parts);
}

/// The drive a path is on is the first root that it is inside; it is on none exactly when it is
/// inside none.
pub proof fn law_which_root_a_path_is_on(p: FullView, roots: Seq<FullPath>, n: int)
    requires
        0 <= n <= roots.len(),
    ensures
        path::root_index(p, roots, n) is None <==> forall|i: int|
            0 <= i < n ==> !p.within((#[trigger] roots[i])@),
        path::root_index(p, roots, n) matches Some(k) ==> 0 <= k < n && p.within(roots[k]@)
            && forall|i: int| 0 <= i < k ==> !p.within((#[trigger] roots[i])@),
    decreases n,
{
    if n > 0 {
        law_which_root_a_path_is_on(p, roots, n - 1);
    }
}

/// The path above one is it without its last component, and the last name is that component.
pub proof fn law_above_and_last(p: FullView, n: Seq<u8>)
    ensures
        p.push(n).parent() == Some(p),
        p.push(n).file_name() == Some(n),
        p.parts.len() == 0 ==> p.parent() is None && p.file_name() is None,
        p.push(n).within(p),
{
    assert(p.push(n).parts.drop_last() =~= p.parts);
    assert(p.push(n).parts.take(p.parts.len() as int) =~= p.parts);
}

// ── where the program keeps its own files ────────────────────────────────────
/// The program keeps its files below the first of these that is absolute: on Windows the place
/// for application data, then the one the environment names, then home, then the place for
/// temporary files.
pub proof fn law_where_files_are_kept(
    os: Os,
    appdata: Option<FullView>,
    xdg: Option<FullView>,
    home: Option<FullView>,
    temp: FullView,
)
    ensures
        ({
            let c = path::config_home(os, appdata, xdg, home, temp);
            let ours = utf8::encode_utf8("kevat"@);
            let a = os is Windows && appdata is Some && appdata->0.absolute(os);
            let x = xdg is Some && xdg->0.absolute(os);
            let h = home is Some && home->0.absolute(os);
            &&& c.file_name() == Some(ours)
            &&& c.absolute(os)
            &&& a ==> c.parent() == appdata
            &&& !a && x ==> c.parent() == xdg
            &&& !a && !x && h ==> c.within(home->0)
            &&& !a && !x && h && !(os is Mac) ==> c.parent() is Some && c.parent()->0.parent()
                == home
            &&& !a && !x && !h && temp.absolute(os) ==> c.parent() == Some(temp)
        }),
{
    let c = path::config_home(os, appdata, xdg, home, temp);
    let ours = utf8::encode_utf8("kevat"@);
    if appdata is Some {
        law_above_and_last(appdata->0, ours);
    }
    if xdg is Some {
        law_above_and_last(xdg->0, ours);
    }
    law_above_and_last(temp, ours);
    if home is Some {
        let h = home->0;
        let l = h.push(utf8::encode_utf8("Library"@));
        let s = l.push(utf8::encode_utf8("Application Support"@));
        let d = h.push(utf8::encode_utf8(".config"@));
        law_above_and_last(d, ours);
        law_above_and_last(h, utf8::encode_utf8(".config"@));
        law_above_and_last(s, ours);
        assert(s.push(ours).parts.take(h.parts.len() as int) =~= h.parts);
        assert(d.push(ours).parts.take(h.parts.len() as int) =~= h.parts);
    }
    let f = path::fixed_temp(os);
    law_above_and_last(f, ours);
}

// ── the key of a place ───────────────────────────────────────────────────────
/// The key of a place that exists is where it resolves to. Of one that does not, the folders
/// around it are tried from the inside out, and the key is where the first that exists resolves
/// to, with the names below it as they are written. Where none does, it is the path itself.
pub proof fn law_what_the_key_of_a_place_is(
    abs: FullView,
    n: nat,
    canon: FullView,
    os: Os,
    key: Option<Seq<char>>,
    after: KeyWalkView,
)
    requires
        n <= abs.parts.len(),
    ensures
        ({
            let w = KeyWalkView { abs, dropped: n as int };
            let m = abs.parts.len() as int;
            &&& w.probe().parts == abs.parts.take(m - n)
            &&& w.told(Some(canon), os, key, after) ==> after == w && key == Some(
                (FullView { parts: canon.parts + abs.parts.skip(m - n), ..canon }).text(os),
            )
            &&& w.told(None, os, key, after) && n < m ==> key is None && after.abs == abs
                && after.probe().parts == w.probe().parts.drop_last()
            &&& w.told(None, os, key, after) && n == m ==> key == Some(abs.text(os))
        }),
        ({
            let w = KeyWalkView { abs, dropped: 0 };
            w.told(Some(canon), os, key, after) ==> key == Some(canon.text(os))
        }),
{
    let m = abs.parts.len() as int;
    let w = KeyWalkView { abs, dropped: n as int };
    if n < m {
        assert(abs.parts.take(m - n - 1) =~= abs.parts.take(m - n).drop_last());
    }
    assert(canon.parts + abs.parts.skip(m) =~= canon.parts);
}

} // verus!
