//! Between the scan and the first byte: files given up on, what is worth telling, and the
//! refusals that come before anything is written.

use crate::path::{Os, RelPath};
use crate::scan;
use crate::scan::{Entry, EntryView, Filter, FilterView, Manifest, ManifestView, Skipped, SkippedView};
use crate::size;
use crate::size::human;
use vstd::hash_map::StringHashMap;
use vstd::prelude::*;

verus! {

// ── files given up on ────────────────────────────────────────────────────────
/// Paths to look up.
struct Lookup {
    list: Vec<RelPath>,
    /// The first path that reads like this.
    first: StringHashMap<usize>,
}

impl Lookup {
    spec fn wf(&self) -> bool {
        forall|i: int|
            #![trigger self.list@[i]]
            0 <= i < self.list@.len() ==> self.first@.dom().contains(
                crate::path::rel_text(self.list@[i]@, Os::Linux),
            )
    }

    spec fn holds(&self, rel: Seq<Seq<u8>>) -> bool {
        scan::rels(self.list@).contains(rel)
    }

    fn new(paths: &Vec<RelPath>) -> (l: Lookup)
        ensures
            l.wf(),
            scan::rels(l.list@) == scan::rels(paths@),
    {
        let mut list: Vec<RelPath> = Vec::new();
        let mut first: StringHashMap<usize> = StringHashMap::new();
        let mut i: usize = 0;
        assert(scan::rels(list@) =~= scan::rels(paths@).take(0));
        while i < paths.len()
            invariant
                i <= paths.len(),
                scan::rels(list@) == scan::rels(paths@).take(i as int),
                list@.len() == i,
                forall|k: int|
                    #![trigger list@[k]]
                    0 <= k < i ==> first@.dom().contains(
                        crate::path::rel_text(list@[k]@, Os::Linux),
                    ),
            decreases paths.len() - i,
        {
            let ghost before = list@;
            let t = paths[i].text(Os::Linux);
            if !first.contains_key(t.as_str()) {
                first.insert(t, i);
            }
            list.push(paths[i].copy());
            assert(scan::rels(list@) =~= scan::rels(before).push(paths@[i as int]@));
            assert(scan::rels(paths@).take(i + 1) =~= scan::rels(paths@).take(i as int).push(
                paths@[i as int]@,
            ));
            i += 1;
        }
        assert(scan::rels(paths@).take(i as int) =~= scan::rels(paths@));
        Lookup { list, first }
    }

    fn contains(&self, rel: &RelPath) -> (r: bool)
        requires
            self.wf(),
        ensures
            r == self.holds(rel@),
    {
        let ghost all = scan::rels(self.list@);
        match self.first.get(rel.text(Os::Linux).as_str()) {
            None => {
                proof {
                    if all.contains(rel@) {
                        let i = choose|i: int| 0 <= i < all.len() && all[i] == rel@;
                        assert(self.list@[i]@ == rel@);
                    }
                }
                false
            },
            Some(at) => {
                if *at < self.list.len() && self.list[*at].is_same(rel) {
                    assert(all[*at as int] == rel@);
                    return true;
                }
                let mut i: usize = 0;
                while i < self.list.len()
                    invariant
                        i <= self.list.len(),
                        all == scan::rels(self.list@),
                        forall|k: int| 0 <= k < i ==> (#[trigger] all[k]) != rel@,
                    decreases self.list.len() - i,
                {
                    assert(all[i as int] == self.list@[i as int]@);
                    if self.list[i].is_same(rel) {
                        assert(all.contains(rel@));
                        return true;
                    }
                    i += 1;
                }
                false
            },
        }
    }
}

/// The first `n` files without those on the list.
pub open spec fn kept_files(
    files: Seq<EntryView>,
    skip: Seq<Seq<Seq<u8>>>,
    n: int,
) -> Seq<EntryView>
    decreases n,
{
    if n <= 0 {
        Seq::empty()
    } else if skip.contains(files[n - 1].rel) {
        kept_files(files, skip, n - 1)
    } else {
        kept_files(files, skip, n - 1).push(files[n - 1])
    }
}

/// Those of the first `n` files that are on the list.
pub open spec fn given_up(
    files: Seq<EntryView>,
    skip: Seq<Seq<Seq<u8>>>,
    n: int,
) -> Seq<Seq<Seq<u8>>>
    decreases n,
{
    if n <= 0 {
        Seq::empty()
    } else if skip.contains(files[n - 1].rel) {
        given_up(files, skip, n - 1).push(files[n - 1].rel)
    } else {
        given_up(files, skip, n - 1)
    }
}

/// A job without the files given up on; its size is that of the files that stay.
pub open spec fn without(m: ManifestView, skip: Seq<Seq<Seq<u8>>>) -> ManifestView {
    if skip.len() == 0 {
        m
    } else {
        let files = kept_files(m.files, skip, m.files.len() as int);
        ManifestView { files, total_bytes: scan::clamp(scan::total_size(files)), ..m }
    }
}

/// The files of a job that were given up on.
pub open spec fn all_given_up(files: Seq<EntryView>, skip: Seq<Seq<Seq<u8>>>) -> Seq<Seq<Seq<u8>>> {
    if skip.len() == 0 {
        Seq::empty()
    } else {
        given_up(files, skip, files.len() as int)
    }
}

/// Takes the files given up on out of a job, before any of its totals are used.
pub fn leave_out(m: Manifest, skip: &Vec<RelPath>) -> (r: (Manifest, Vec<RelPath>))
    ensures
        r.0@ == without(m@, scan::rels(skip@)),
        scan::rels(r.1@) == all_given_up(m@.files, scan::rels(skip@)),
{
    let mut gone: Vec<RelPath> = Vec::new();
    assert(scan::rels(gone@) =~= Seq::empty());
    if skip.len() == 0 {
        return (m, gone);
    }
    let ghost files = m@.files;
    let ghost sk = scan::rels(skip@);
    let l = Lookup::new(skip);
    let mut m = m;
    let mut front: Vec<Entry> = Vec::new();
    std::mem::swap(&mut front, &mut m.files);
    let ghost all = front@;
    // Turned round, so that the files come off the end in their order.
    let mut back: Vec<Entry> = Vec::new();
    while front.len() > 0
        invariant
            front@ == all.take(front@.len() as int),
            front@.len() + back@.len() == all.len(),
            forall|k: int|
                0 <= k < back@.len() ==> (#[trigger] back@[k]) == all[all.len() - 1 - k],
        decreases front.len(),
    {
        if let Some(e) = front.pop() {
            back.push(e);
        }
    }
    let mut stay: Vec<Entry> = Vec::new();
    let mut bytes: u64 = 0;
    assert(scan::entries(stay@) =~= kept_files(files, sk, 0));
    assert(scan::rels(gone@) =~= given_up(files, sk, 0));
    assert(files =~= scan::entries(all));
    while back.len() > 0
        invariant
            l.wf(),
            scan::rels(l.list@) == sk,
            files == scan::entries(all),
            back@.len() <= all.len(),
            forall|k: int|
                0 <= k < back@.len() ==> (#[trigger] back@[k]) == all[all.len() - 1 - k],
            scan::entries(stay@) == kept_files(files, sk, all.len() - back@.len()),
            scan::rels(gone@) == given_up(files, sk, all.len() - back@.len()),
            bytes == scan::clamp(scan::total_size(scan::entries(stay@))),
        decreases back.len(),
    {
        let ghost at = all.len() - back@.len();
        assert(back@[back@.len() - 1] == all[at]);
        if let Some(e) = back.pop() {
            assert(e == all[at]);
            assert(files[at] == e@);
            let ghost s0 = scan::entries(stay@);
            let ghost g0 = scan::rels(gone@);
            if l.contains(&e.rel) {
                gone.push(e.rel.copy());
                assert(scan::rels(gone@) =~= g0.push(e@.rel));
            } else {
                bytes = if e.size > u64::MAX - bytes {
                    u64::MAX
                } else {
                    bytes + e.size
                };
                let ghost ev = e@;
                stay.push(e);
                assert(scan::entries(stay@) =~= s0.push(ev));
                assert(s0.push(ev).drop_last() =~= s0);
            }
        }
    }
    m.files = stay;
    m.total_bytes = bytes;
    (m, gone)
}

/// Nothing leaves the job but what was given up on, and that is reported.
pub proof fn law_given_up_is_told(files: Seq<EntryView>, skip: Seq<Seq<Seq<u8>>>, n: int, i: int)
    requires
        0 <= i < n <= files.len(),
    ensures
        skip.contains(files[i].rel) ==> given_up(files, skip, n).contains(files[i].rel),
        !skip.contains(files[i].rel) ==> kept_files(files, skip, n).contains(files[i]),
        kept_files(files, skip, n).len() + given_up(files, skip, n).len() == n,
    decreases n,
{
    let k0 = kept_files(files, skip, n - 1);
    let g0 = given_up(files, skip, n - 1);
    let k = kept_files(files, skip, n);
    let g = given_up(files, skip, n);
    if i < n - 1 {
        law_given_up_is_told(files, skip, n - 1, i);
        if g0.contains(files[i].rel) {
            let j = choose|j: int| 0 <= j < g0.len() && g0[j] == files[i].rel;
            assert(g[j] == files[i].rel);
        }
        if k0.contains(files[i]) {
            let j = choose|j: int| 0 <= j < k0.len() && k0[j] == files[i];
            assert(k[j] == files[i]);
        }
    } else {
        if n > 1 {
            law_given_up_is_told(files, skip, n - 1, 0);
        }
        if skip.contains(files[i].rel) {
            assert(g[g.len() - 1] == files[i].rel);
        } else {
            assert(k[k.len() - 1] == files[i]);
        }
    }
}

// ── how much of it is caches ─────────────────────────────────────────────────
/// The path that the cache rule would be put to: of a selection not the name that was chosen,
/// which is never left out.
pub open spec fn ruled(rel: Seq<Seq<u8>>, chosen: bool) -> Seq<Seq<u8>> {
    if chosen {
        if rel.len() > 0 {
            rel.skip(1)
        } else {
            rel
        }
    } else {
        rel
    }
}

/// How many of the first `n` files lie in cache folders.
pub open spec fn cached(files: Seq<EntryView>, caches: FilterView, chosen: bool, n: int) -> nat
    decreases n,
{
    if n <= 0 {
        0
    } else {
        cached(files, caches, chosen, n - 1) + (if caches.excludes_some(
            ruled(files[n - 1].rel, chosen),
        ) {
            1nat
        } else {
            0nat
        })
    }
}

/// What leaving out caches would leave out.
pub open spec fn cache_rule() -> FilterView {
    FilterView { names: scan::cache_names(), prefixes: Seq::empty() }
}

fn tail_of(rel: &RelPath) -> (r: RelPath)
    ensures
        r@ == ruled(rel@, true),
{
    let mut r = RelPath::root();
    let mut i: usize = 1;
    if rel.depth() == 0 {
        return rel.copy();
    }
    assert(r@ =~= rel@.subrange(1, 1));
    while i < rel.parts.len()
        invariant
            1 <= i <= rel.parts.len(),
            r@ == rel@.subrange(1, i as int),
        decreases rel.parts.len() - i,
    {
        let next = r.join(rel.parts[i].as_slice());
        assert(rel@[i as int] == rel.parts@[i as int]@);
        assert(next@ =~= rel@.subrange(1, i + 1));
        r = next;
        i += 1;
    }
    assert(r@ =~= rel@.skip(1));
    r
}

/// How many files lie in cache folders, unless names were left out.
pub open spec fn cached_unless(files: Seq<EntryView>, f: FilterView, chosen: bool) -> int {
    if f.names.len() == 0 {
        cached(files, cache_rule(), chosen, files.len() as int) as int
    } else {
        0
    }
}

/// How many files of a job lie in cache folders, where no names were left out.
pub fn cache_files(m: &Manifest, filter: &Filter, chosen: bool) -> (n: usize)
    ensures
        n == cached_unless(m@.files, filter@, chosen),
{
    if !filter.is_empty() {
        return 0;
    }
    let rule = Filter::caches();
    assert(rule@ =~= cache_rule());
    let ghost files = m@.files;
    let mut n: usize = 0;
    let mut i: usize = 0;
    while i < m.files.len()
        invariant
            i <= m.files.len(),
            files == m@.files,
            rule@ == cache_rule(),
            n == cached(files, cache_rule(), chosen, i as int),
            n <= i,
        decreases m.files.len() - i,
    {
        assert(files[i as int] == m.files@[i as int]@);
        let hit = if chosen {
            rule.matches_path(&tail_of(&m.files[i].rel))
        } else {
            rule.matches_path(&m.files[i].rel)
        };
        if hit {
            n += 1;
        }
        i += 1;
    }
    assert(files.len() == m.files@.len());
    n
}

// ── what is worth telling ────────────────────────────────────────────────────
pub open spec fn skipped_views(v: Seq<Skipped>) -> Seq<SkippedView> {
    v.map_values(|s: Skipped| s@)
}

/// One reason for many paths.
pub open spec fn noted(paths: Seq<Seq<Seq<u8>>>, why: Seq<char>) -> Seq<SkippedView> {
    paths.map_values(|p: Seq<Seq<u8>>| SkippedView { rel: p, absolute: false, why })
}

fn note_all(out: &mut Vec<Skipped>, paths: &Vec<RelPath>, why: &str)
    ensures
        skipped_views(final(out)@) == skipped_views(old(out)@) + noted(scan::rels(paths@), why@),
{
    let ghost before = skipped_views(out@);
    let ghost more = noted(scan::rels(paths@), why@);
    let mut i: usize = 0;
    assert(before + more.take(0) =~= before);
    while i < paths.len()
        invariant
            i <= paths.len(),
            more == noted(scan::rels(paths@), why@),
            skipped_views(out@) == before + more.take(i as int),
        decreases paths.len() - i,
    {
        let ghost o0 = skipped_views(out@);
        let s = Skipped { rel: paths[i].copy(), absolute: false, why: String::from_str(why) };
        let ghost sv = s@;
        out.push(s);
        assert(sv =~= more[i as int]);
        assert(skipped_views(out@) =~= o0.push(sv));
        assert(before + more.take(i + 1) =~= (before + more.take(i as int)).push(more[i as int]));
        i += 1;
    }
    assert(more.take(i as int) =~= more);
}

/// All that is left out, with the reasons.
pub open spec fn all_notes(m: ManifestView, gone: Seq<Seq<Seq<u8>>>) -> Seq<SkippedView> {
    m.skipped + noted(m.excluded, "left out, as asked"@) + noted(
        gone,
        "couldn't be read last time — left out, as asked"@,
    )
}

/// Everything that the job leaves out, with the reason: what could not be taken, what was left
/// out by choice, and what was given up on.
pub fn notes(m: &Manifest, gone: &Vec<RelPath>) -> (r: Vec<Skipped>)
    ensures
        skipped_views(r@) == all_notes(m@, scan::rels(gone@)),
{
    let mut r: Vec<Skipped> = Vec::new();
    let mut i: usize = 0;
    assert(skipped_views(r@) =~= m@.skipped.take(0));
    while i < m.skipped.len()
        invariant
            i <= m.skipped.len(),
            skipped_views(r@) == m@.skipped.take(i as int),
        decreases m.skipped.len() - i,
    {
        let ghost r0 = skipped_views(r@);
        let s = &m.skipped[i];
        let c = Skipped { rel: s.rel.copy(), absolute: s.absolute, why: s.why.clone() };
        let ghost cv = c@;
        assert(cv =~= m@.skipped[i as int]);
        r.push(c);
        assert(skipped_views(r@) =~= r0.push(cv));
        assert(m@.skipped.take(i + 1) =~= m@.skipped.take(i as int).push(m@.skipped[i as int]));
        i += 1;
    }
    assert(m@.skipped.take(i as int) =~= m@.skipped);
    note_all(&mut r, &m.excluded, "left out, as asked");
    note_all(&mut r, gone, "couldn't be read last time — left out, as asked");
    r
}

// ── refusals before the first byte ───────────────────────────────────────────
/// Why a job cannot begin, if it cannot: nothing in it could be taken, or what is still to be
/// written is more than the destination has free. Free space that is not known stops nothing.
pub open spec fn hopeless(m: ManifestView, needed: u64, free: Option<u64>) -> Option<Seq<char>> {
    if m.files.len() == 0 && m.skipped.len() > 0 {
        Some("nothing was copied — every entry was skipped (symlinks or unreadable files)"@)
    } else if free is Some && needed > free->0 {
        Some(
            size::human_text(needed) + " still to copy — the destination has "@
                + size::human_text(free->0) + " free."@,
        )
    } else {
        None
    }
}

pub fn refusal(m: &Manifest, needed: u64, free: Option<u64>) -> (r: Option<String>)
    ensures
        match hopeless(m@, needed, free) {
            Some(t) => r is Some && r->0@ == t,
            None => r is None,
        },
{
    assert(m@.files.len() == m.files@.len());
    assert(m@.skipped.len() == m.skipped@.len());
    if m.files.len() == 0 && m.skipped.len() > 0 {
        return Some(
            String::from_str(
                "nothing was copied — every entry was skipped (symlinks or unreadable files)",
            ),
        );
    }
    match free {
        Some(f) => {
            if needed > f {
                let mut s = human(needed);
                s.append(" still to copy — the destination has ");
                s.append(human(f).as_str());
                s.append(" free.");
                Some(s)
            } else {
                None
            }
        },
        None => None,
    }
}

/// A job with files in it is refused exactly when the free space is known and smaller than
/// what is still to be written. Nothing else of the job matters: neither its total nor what
/// was skipped.
pub proof fn law_only_missing_space_refuses_files(m: ManifestView, needed: u64, free: Option<u64>)
    requires
        m.files.len() > 0,
    ensures
        free is None ==> hopeless(m, needed, free) is None,
        free is Some && needed <= free->0 ==> hopeless(m, needed, free) is None,
        free is Some && free->0 < needed ==> hopeless(m, needed, free) == Some(
            size::human_text(needed) + " still to copy — the destination has "@
                + size::human_text(free->0) + " free."@,
        ),
{
}

/// Two jobs with files in them fare alike where they still need the same.
pub proof fn law_space_is_all_that_counts(
    m: ManifestView,
    m2: ManifestView,
    needed: u64,
    free: Option<u64>,
)
    requires
        m.files.len() > 0,
        m2.files.len() > 0,
    ensures
        hopeless(m, needed, free) == hopeless(m2, needed, free),
{
}

/// A job without files is refused where everything was skipped; one that is empty, with
/// nothing to write, never is.
pub proof fn law_an_empty_job(m: ManifestView, needed: u64, free: Option<u64>)
    requires
        m.files.len() == 0,
    ensures
        m.skipped.len() > 0 ==> hopeless(m, needed, free) is Some,
        m.skipped.len() == 0 && needed == 0 ==> hopeless(m, needed, free) is None,
{
}

/// What stays of a job is in it already, is not on the list, and keeps its order; what was
/// given up on is on the list. The total is that of what stays.
pub proof fn law_what_stays_of_a_job(m: ManifestView, skip: Seq<Seq<Seq<u8>>>)
    ensures
        forall|k: int|
            0 <= k < without(m, skip).files.len() ==> !skip.contains(
                (#[trigger] without(m, skip).files[k]).rel,
            ) && m.files.contains(without(m, skip).files[k]),
        skip.len() == 0 ==> without(m, skip) == m,
        skip.len() > 0 ==> without(m, skip).total_bytes == scan::clamp(
            scan::total_size(without(m, skip).files),
        ),
        without(m, skip).dirs == m.dirs,
        without(m, skip).skipped == m.skipped,
        without(m, skip).excluded == m.excluded,
        (forall|i: int| 0 <= i < m.files.len() ==> !skip.contains((#[trigger] m.files[i]).rel))
            ==> without(m, skip).files == m.files,
{
    let n = m.files.len() as int;
    lemma_kept(m.files, skip, n);
    if skip.len() == 0 {
        assert forall|k: int| 0 <= k < m.files.len() implies m.files.contains(
            #[trigger] m.files[k],
        ) by {}
    }
    assert(m.files.take(n) =~= m.files);
}

proof fn lemma_kept(files: Seq<EntryView>, skip: Seq<Seq<Seq<u8>>>, n: int)
    requires
        0 <= n <= files.len(),
    ensures
        forall|k: int|
            0 <= k < kept_files(files, skip, n).len() ==> !skip.contains(
                (#[trigger] kept_files(files, skip, n)[k]).rel,
            ) && files.contains(kept_files(files, skip, n)[k]),
        (forall|i: int| 0 <= i < n ==> !skip.contains((#[trigger] files[i]).rel)) ==> kept_files(
            files,
            skip,
            n,
        ) == files.take(n),
    decreases n,
{
    if n > 0 {
        lemma_kept(files, skip, n - 1);
        let b = kept_files(files, skip, n - 1);
        let c = kept_files(files, skip, n);
        assert forall|k: int| 0 <= k < c.len() implies !skip.contains((#[trigger] c[k]).rel)
            && files.contains(c[k]) by {
            if k < b.len() {
                assert(c[k] == b[k]);
            } else {
                assert(c[k] == files[n - 1]);
            }
        }
        assert(files.take(n) =~= files.take(n - 1).push(files[n - 1]));
    } else {
        assert(kept_files(files, skip, n) =~= files.take(n));
    }
}

/// A file counts as cached exactly when some name on its way down, but for the one that was
/// chosen by hand, is that of a cache.
pub proof fn law_what_counts_as_cached(files: Seq<EntryView>, chosen: bool, n: int)
    requires
        0 <= n < files.len(),
    ensures
        cached(files, cache_rule(), chosen, 0) == 0,
        cached(files, cache_rule(), chosen, n + 1) == cached(files, cache_rule(), chosen, n) + (
        if exists|k: int|
            (if chosen {
                1int
            } else {
                0int
            }) <= k < files[n].rel.len() && cache_rule().excludes(#[trigger] files[n].rel[k]) {
            1int
        } else {
            0int
        }),
        cache_rule().names == scan::cache_names(),
        cache_rule().prefixes.len() == 0,
{
    let rel = files[n].rel;
    let low: int = if chosen {
        1
    } else {
        0
    };
    let r = ruled(rel, chosen);
    if rel.len() > 0 {
        assert(forall|i: int| 0 <= i < r.len() ==> #[trigger] r[i] == rel[i + low]);
        if exists|k: int| low <= k < rel.len() && cache_rule().excludes(#[trigger] rel[k]) {
            let k = choose|k: int| low <= k < rel.len() && cache_rule().excludes(#[trigger] rel[k]);
            assert(r[k - low] == rel[k]);
        }
    }
}

/// Where nothing was given up on, nothing is; and files in caches are counted only where no name
/// is left out already.
pub proof fn law_when_nothing_is_given_up(files: Seq<EntryView>, f: FilterView, chosen: bool)
    ensures
        all_given_up(files, Seq::empty()).len() == 0,
        f.names.len() > 0 ==> cached_unless(files, f, chosen) == 0,
        f.names.len() == 0 ==> cached_unless(files, f, chosen) == cached(
            files,
            cache_rule(),
            chosen,
            files.len() as int,
        ),
{
}

/// Everything that is left out is told of, once each and in order: first what could not be taken,
/// as it was noted, then what was left out by choice, then what was given up on.
pub proof fn law_everything_left_out_is_told(m: ManifestView, gone: Seq<Seq<Seq<u8>>>, i: int)
    requires
        0 <= i < m.skipped.len() + m.excluded.len() + gone.len(),
    ensures
        ({
            let all = all_notes(m, gone);
            let a = m.skipped.len() as int;
            let b = a + m.excluded.len();
            &&& all.len() == b + gone.len()
            &&& i < a ==> all[i] == m.skipped[i]
            &&& a <= i < b ==> all[i].rel == m.excluded[i - a] && !all[i].absolute && all[i].why
                == "left out, as asked"@
            &&& b <= i ==> all[i].rel == gone[i - b] && !all[i].absolute && all[i].why
                == "couldn't be read last time — left out, as asked"@
        }),
{
}

} // verus!
