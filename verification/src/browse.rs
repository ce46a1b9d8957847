//! The file browser: what is listed, in which order, what is selected, and what a press on the
//! button takes.

use crate::path;
use crate::path::{
    clone_name, is_bytes_before, lossy, removable_root_of, same_bytes, FullPath, FullView,
};
use crate::scan;
use crate::size;
use crate::size::human;
use crate::sort;
use crate::sort::{reorder, sorted_positions, Ranked};
use crate::text;
use crate::text::{chars_of, decimal, text_of};
use crate::fields;
use crate::words;
use crate::words::plural;
use vstd::prelude::*;

verus! {

// ── a set of names ───────────────────────────────────────────────────────────
/// Names in byte order, none twice.
pub struct NameSet {
    list: Vec<Vec<u8>>,
}

/// In byte order, none twice.
pub open spec fn ascending(l: Seq<Seq<u8>>) -> bool {
    forall|i: int, j: int|
        0 <= i < j < l.len() ==> path::bytes_before(#[trigger] l[i], #[trigger] l[j])
}

impl View for NameSet {
    type V = Set<Seq<u8>>;

    open spec fn view(&self) -> Set<Seq<u8>> {
        self.names().to_set()
    }
}

impl NameSet {
    /// The names, in byte order.
    pub closed spec fn names(&self) -> Seq<Seq<u8>> {
        path::names(self.list@)
    }

    pub open spec fn wf(&self) -> bool {
        ascending(self.names())
    }

    pub fn new() -> (s: NameSet)
        ensures
            s.wf(),
            s@ == Set::<Seq<u8>>::empty(),
            s.names() == Seq::<Seq<u8>>::empty(),
    {
        let s = NameSet { list: Vec::new() };
        assert(s.names() =~= Seq::empty());
        assert(s@ =~= Set::empty());
        s
    }

    pub fn len(&self) -> (n: usize)
        ensures
            n == self.names().len(),
    {
        self.list.len()
    }

    pub fn is_empty(&self) -> (r: bool)
        ensures
            r == (self@ == Set::<Seq<u8>>::empty()),
    {
        let r = self.list.len() == 0;
        proof {
            if r {
                assert(self@ =~= Set::empty());
            } else {
                assert(self.names().contains(self.names()[0]));
                assert(self@.contains(self.names()[0]));
            }
        }
        r
    }

    pub fn at(&self, i: usize) -> (n: Vec<u8>)
        requires
            i < self.names().len(),
        ensures
            n@ == self.names()[i as int],
    {
        clone_name(&self.list[i])
    }

    /// Where `x` stands or belongs: everything before it comes first.
    fn place(&self, x: &[u8]) -> (k: usize)
        requires
            self.wf(),
        ensures
            k <= self.names().len(),
            forall|i: int| 0 <= i < k ==> path::bytes_before(#[trigger] self.names()[i], x@),
            forall|i: int|
                k <= i < self.names().len() ==> !path::bytes_before(#[trigger] self.names()[i], x@),
    {
        let mut k: usize = 0;
        while k < self.list.len() && is_bytes_before(self.list[k].as_slice(), x)
            invariant
                k <= self.list.len(),
                self.names().len() == self.list@.len(),
                forall|i: int| 0 <= i < k ==> path::bytes_before(#[trigger] self.names()[i], x@),
            decreases self.list.len() - k,
        {
            assert(self.names()[k as int] == self.list@[k as int]@);
            k += 1;
        }
        proof {
            assert forall|i: int| k <= i < self.names().len() implies !path::bytes_before(
                #[trigger] self.names()[i],
                x@,
            ) by {
                assert(self.names()[k as int] == self.list@[k as int]@);
                if i > k && path::bytes_before(self.names()[i], x@) {
                    path::lemma_bytes_transitive(self.names()[k as int], self.names()[i], x@);
                }
            }
        }
        k
    }

    pub fn contains(&self, x: &[u8]) -> (r: bool)
        requires
            self.wf(),
        ensures
            r == self@.contains(x@),
    {
        let mut i: usize = 0;
        while i < self.list.len()
            invariant
                i <= self.list.len(),
                self.names().len() == self.list@.len(),
                forall|k: int| 0 <= k < i ==> (#[trigger] self.names()[k]) != x@,
            decreases self.list.len() - i,
        {
            assert(self.names()[i as int] == self.list@[i as int]@);
            if same_bytes(self.list[i].as_slice(), x) {
                assert(self.names().contains(x@));
                return true;
            }
            i += 1;
        }
        false
    }

    pub fn insert(&mut self, x: &[u8])
        requires
            old(self).wf(),
        ensures
            final(self).wf(),
            final(self)@ == old(self)@.insert(x@),
    {
        let ghost l0 = self.names();
        let k = self.place(x);
        if k < self.list.len() && same_bytes(self.list[k].as_slice(), x) {
            assert(l0[k as int] == x@);
            assert(l0.contains(x@));
            assert(self@ =~= self@.insert(x@));
            return;
        }
        proof {
            if k < l0.len() {
                path::lemma_bytes_total(l0[k as int], x@);
            }
        }
        let mut v: Vec<u8> = Vec::new();
        v.extend_from_slice(x);
        assert(v@ =~= x@);
        self.list.insert(k, v);
        let ghost l1 = self.names();
        proof {
            assert(l1 =~= l0.insert(k as int, x@));
            assert forall|i: int, j: int| 0 <= i < j < l1.len() implies path::bytes_before(
                #[trigger] l1[i],
                #[trigger] l1[j],
            ) by {
                let i0 = if i < k {
                    i
                } else {
                    i - 1
                };
                let j0 = if j < k {
                    j
                } else {
                    j - 1
                };
                if i != k {
                    assert(l1[i] == l0[i0]);
                }
                if j != k {
                    assert(l1[j] == l0[j0]);
                }
                if i == k && j > k {
                    if j0 > k {
                        assert(path::bytes_before(l0[k as int], l0[j0]));
                        path::lemma_bytes_transitive(x@, l0[k as int], l0[j0]);
                    }
                }
            }
            assert forall|y: Seq<u8>| self@.contains(y) == old(self)@.insert(x@).contains(y) by {
                if l1.contains(y) {
                    let i = choose|i: int| 0 <= i < l1.len() && l1[i] == y;
                    if i < k {
                        assert(l0[i] == y);
                    } else if i > k {
                        assert(l0[i - 1] == y);
                    }
                }
                if l0.contains(y) {
                    let i = choose|i: int| 0 <= i < l0.len() && l0[i] == y;
                    if i < k {
                        assert(l1[i] == y);
                    } else {
                        assert(l1[i + 1] == y);
                    }
                }
                assert(l1[k as int] == x@);
            }
            assert(self@ =~= old(self)@.insert(x@));
        }
    }

    pub fn remove(&mut self, x: &[u8])
        requires
            old(self).wf(),
        ensures
            final(self).wf(),
            final(self)@ == old(self)@.remove(x@),
    {
        let ghost l0 = self.names();
        let k = self.place(x);
        if k < self.list.len() && same_bytes(self.list[k].as_slice(), x) {
            assert(l0[k as int] == x@);
            self.list.remove(k);
            let ghost l1 = self.names();
            proof {
                assert(l1 =~= l0.remove(k as int));
                assert forall|i: int, j: int| 0 <= i < j < l1.len() implies path::bytes_before(
                    #[trigger] l1[i],
                    #[trigger] l1[j],
                ) by {
                    let i0 = if i < k {
                        i
                    } else {
                        i + 1
                    };
                    let j0 = if j < k {
                        j
                    } else {
                        j + 1
                    };
                    assert(l1[i] == l0[i0] && l1[j] == l0[j0]);
                }
                assert forall|y: Seq<u8>| self@.contains(y) == old(self)@.remove(x@).contains(y) by {
                    if l1.contains(y) {
                        let i = choose|i: int| 0 <= i < l1.len() && l1[i] == y;
                        let i0 = if i < k {
                            i
                        } else {
                            i + 1
                        };
                        assert(l0[i0] == y);
                        if y == x@ {
                            path::lemma_bytes_irreflexive(x@);
                            if i0 < k {
                                assert(path::bytes_before(l0[i0], l0[k as int]));
                            } else {
                                assert(path::bytes_before(l0[k as int], l0[i0]));
                            }
                        }
                    }
                    if l0.contains(y) && y != x@ {
                        let i = choose|i: int| 0 <= i < l0.len() && l0[i] == y;
                        if i < k {
                            assert(l1[i] == y);
                        } else {
                            assert(l1[i - 1] == y);
                        }
                    }
                }
                assert(self@ =~= old(self)@.remove(x@));
            }
        } else {
            proof {
                if l0.contains(x@) {
                    let i = choose|i: int| 0 <= i < l0.len() && l0[i] == x@;
                    path::lemma_bytes_irreflexive(x@);
                    assert(i >= k);
                    if i > k {
                        assert(path::bytes_before(l0[k as int], l0[i]));
                    }
                    assert(i == k);
                }
                assert(self@ =~= self@.remove(x@));
            }
        }
    }
}

// ── what is listed ───────────────────────────────────────────────────────────
/// One row.
pub struct Item {
    pub name: Vec<u8>,
    pub is_dir: bool,
    /// Modification time in seconds; nothing if it is unknown.
    pub mtime: i64,
    /// Bytes of a file; nothing for a folder.
    pub size: u64,
}

#[verifier::ext_equal]
pub struct ItemView {
    pub name: Seq<u8>,
    pub is_dir: bool,
    pub mtime: i64,
    pub size: u64,
}

impl View for Item {
    type V = ItemView;

    open spec fn view(&self) -> ItemView {
        ItemView { name: self.name@, is_dir: self.is_dir, mtime: self.mtime, size: self.size }
    }
}

pub open spec fn item_views(v: Seq<Item>) -> Seq<ItemView> {
    v.map_values(|i: Item| i@)
}

#[derive(Clone, Copy, PartialEq, Eq, Structural)]
pub enum SortKey {
    Name,
    Size,
    Modified,
}

#[derive(Clone, Copy, PartialEq, Eq, Structural)]
pub enum Field {
    Source,
    Dest,
}

/// What a look at a directory entry found.
#[derive(Clone, Copy)]
pub struct Seen {
    pub is_dir: bool,
    pub mtime: i64,
    pub len: u64,
}

/// A name that begins with a dot; one that is no text counts as none.
pub open spec fn hidden(name: Seq<u8>, is_text: bool) -> bool {
    is_text && name.len() > 0 && name[0] == 46
}

/// The row for a directory entry, if it gets one: hidden ones only where they are wanted, files
/// only where a source is being chosen.
pub open spec fn row_of(
    name: Seq<u8>,
    is_text: bool,
    seen: Option<Seen>,
    files: bool,
    dots: bool,
) -> Option<ItemView> {
    let is_dir = seen is Some && seen->0.is_dir;
    if (hidden(name, is_text) && !dots) || !(is_dir || files) {
        None
    } else {
        Some(
            ItemView {
                name,
                is_dir,
                mtime: if seen is Some {
                    seen->0.mtime
                } else {
                    0
                },
                size: if is_dir || seen is None {
                    0
                } else {
                    seen->0.len
                },
            },
        )
    }
}

// ── the order ────────────────────────────────────────────────────────────────
/// The bytes with ASCII capitals made small.
pub open spec fn lowered(n: Seq<u8>) -> Seq<u8> {
    n.map_values(
        |b: u8|
            if 65 <= b <= 90 {
                (b + 32) as u8
            } else {
                b
            },
    )
}

/// What a row is ordered by: a number, and a name where the numbers are the same. Rows with the
/// same date stay as they were found.
pub open spec fn number_of(i: ItemView, key: SortKey) -> int {
    match key {
        SortKey::Name => 0,
        SortKey::Size => i.size as int,
        SortKey::Modified => i.mtime as int,
    }
}

pub open spec fn order_name(i: ItemView, key: SortKey) -> Seq<u8> {
    match key {
        SortKey::Modified => Seq::empty(),
        _ => lowered(i.name),
    }
}

pub open spec fn key_before(na: int, a: Seq<u8>, nb: int, b: Seq<u8>) -> bool {
    na < nb || (na == nb && path::bytes_before(a, b))
}

/// Row `a` stands before row `b`: folders first, then by the chosen column, the other way round
/// when `desc`.
pub open spec fn row_before(a: ItemView, b: ItemView, key: SortKey, desc: bool) -> bool {
    if a.is_dir != b.is_dir {
        a.is_dir
    } else if desc {
        key_before(number_of(b, key), order_name(b, key), number_of(a, key), order_name(a, key))
    } else {
        key_before(number_of(a, key), order_name(a, key), number_of(b, key), order_name(b, key))
    }
}

/// Row `i` has to stand before row `j`; rows of the same rank keep their order.
pub open spec fn row_precedes(
    items: Seq<ItemView>,
    i: int,
    j: int,
    key: SortKey,
    desc: bool,
) -> bool {
    row_before(items[i], items[j], key, desc) || (!row_before(items[j], items[i], key, desc) && i
        < j)
}

/// These positions go through all rows in order.
pub open spec fn in_rows(items: Seq<ItemView>, p: Seq<usize>, key: SortKey, desc: bool) -> bool {
    &&& p.len() == items.len()
    &&& forall|k: int| 0 <= k < p.len() ==> (#[trigger] p[k]) < items.len()
    &&& forall|a: int, b: int|
        #![trigger p[a], p[b]]
        0 <= a < b < p.len() ==> row_precedes(items, p[a] as int, p[b] as int, key, desc)
}

/// `r` are the rows in order.
pub open spec fn ordered(
    items: Seq<ItemView>,
    r: Seq<ItemView>,
    key: SortKey,
    desc: bool,
) -> bool {
    exists|p: Seq<usize>| #[trigger] in_rows(items, p, key, desc) && r == sort::picked(items, p)
}

/// The rank of a row.
struct Rank {
    is_dir: bool,
    desc: bool,
    number: i128,
    name: Vec<u8>,
}

impl Ranked for Rank {
    closed spec fn before(&self, other: &Self) -> bool {
        if self.is_dir != other.is_dir {
            self.is_dir
        } else if self.desc != other.desc {
            self.desc
        } else if self.desc {
            key_before(other.number as int, other.name@, self.number as int, self.name@)
        } else {
            key_before(self.number as int, self.name@, other.number as int, other.name@)
        }
    }

    proof fn law_irreflexive(x: &Self) {
        path::lemma_bytes_irreflexive(x.name@);
    }

    proof fn law_transitive(x: &Self, y: &Self, z: &Self) {
        if path::bytes_before(x.name@, y.name@) && path::bytes_before(y.name@, z.name@) {
            path::lemma_bytes_transitive(x.name@, y.name@, z.name@);
        }
        if path::bytes_before(z.name@, y.name@) && path::bytes_before(y.name@, x.name@) {
            path::lemma_bytes_transitive(z.name@, y.name@, x.name@);
        }
    }

    proof fn law_ties(x: &Self, y: &Self, z: &Self) {
        path::lemma_bytes_total(x.name@, y.name@);
        path::lemma_bytes_total(y.name@, z.name@);
        path::lemma_bytes_irreflexive(x.name@);
        if path::bytes_before(x.name@, y.name@) && path::bytes_before(y.name@, z.name@) {
            path::lemma_bytes_transitive(x.name@, y.name@, z.name@);
        }
        if path::bytes_before(z.name@, y.name@) && path::bytes_before(y.name@, x.name@) {
            path::lemma_bytes_transitive(z.name@, y.name@, x.name@);
        }
        if path::bytes_before(z.name@, x.name@) && path::bytes_before(x.name@, z.name@) {
            path::lemma_bytes_transitive(z.name@, x.name@, z.name@);
            path::lemma_bytes_irreflexive(z.name@);
        }
    }

    fn is_before(&self, other: &Self) -> (r: bool) {
        if self.is_dir != other.is_dir {
            self.is_dir
        } else if self.desc != other.desc {
            self.desc
        } else if self.desc {
            other.number < self.number || (other.number == self.number && is_bytes_before(
                other.name.as_slice(),
                self.name.as_slice(),
            ))
        } else {
            self.number < other.number || (self.number == other.number && is_bytes_before(
                self.name.as_slice(),
                other.name.as_slice(),
            ))
        }
    }
}

fn lower_name(n: &Vec<u8>) -> (r: Vec<u8>)
    ensures
        r@ == lowered(n@),
{
    let mut r: Vec<u8> = Vec::new();
    let mut i: usize = 0;
    while i < n.len()
        invariant
            i <= n.len(),
            r@.len() == i,
            forall|k: int| 0 <= k < i ==> #[trigger] r@[k] == lowered(n@)[k],
        decreases n.len() - i,
    {
        let b = n[i];
        if 65 <= b && b <= 90 {
            r.push(b + 32);
        } else {
            r.push(b);
        }
        i += 1;
    }
    assert(r@ =~= lowered(n@));
    r
}

fn rank_of(i: &Item, key: SortKey, desc: bool) -> (r: Rank)
    ensures
        r.is_dir == i.is_dir,
        r.desc == desc,
        r.number == number_of(i@, key),
        r.name@ == order_name(i@, key),
{
    let (number, name) = match key {
        SortKey::Name => (0, lower_name(&i.name)),
        SortKey::Size => (i.size as i128, lower_name(&i.name)),
        SortKey::Modified => {
            let none: Vec<u8> = Vec::new();
            assert(none@ =~= Seq::empty());
            (i.mtime as i128, none)
        },
    };
    Rank { is_dir: i.is_dir, desc, number, name }
}

/// The rows in order.
pub fn sorted_rows(items: Vec<Item>, key: SortKey, desc: bool) -> (r: Vec<Item>)
    ensures
        ordered(item_views(items@), item_views(r@), key, desc),
        r@.len() == items@.len(),
{
    let ghost views = item_views(items@);
    let mut ranks: Vec<Rank> = Vec::new();
    let mut i: usize = 0;
    while i < items.len()
        invariant
            i <= items.len(),
            views == item_views(items@),
            ranks@.len() == i,
            forall|k: int|
                0 <= k < i ==> (#[trigger] ranks@[k]).is_dir == views[k].is_dir && ranks@[k].desc
                    == desc && ranks@[k].number == number_of(views[k], key) && ranks@[k].name@
                    == order_name(views[k], key),
        decreases items.len() - i,
    {
        assert(views[i as int] == items@[i as int]@);
        ranks.push(rank_of(&items[i], key, desc));
        i += 1;
    }
    let p = sorted_positions(&ranks);
    proof {
        assert(sort::orders(ranks@, p@, 0, ranks@.len() as int));
        assert forall|a: int, b: int|
            #![trigger p@[a], p@[b]]
            0 <= a < b < p@.len() implies row_precedes(views, p@[a] as int, p@[b] as int, key, desc) by {
            assert(sort::precedes(ranks@, p@[a] as int, p@[b] as int));
            let x = ranks@[p@[a] as int];
            let y = ranks@[p@[b] as int];
            assert(x.before(&y) == row_before(
                views[p@[a] as int],
                views[p@[b] as int],
                key,
                desc,
            ));
            assert(y.before(&x) == row_before(
                views[p@[b] as int],
                views[p@[a] as int],
                key,
                desc,
            ));
        }
        assert(in_rows(views, p@, key, desc));
    }
    let r = reorder(items, &p);
    assert(item_views(r@) =~= sort::picked(views, p@));
    r
}

// ── the browser ──────────────────────────────────────────────────────────────
pub struct Browser {
    pub open_for: Option<Field>,
    pub cwd: FullPath,
    pub entries: Vec<Item>,
    pub error: Option<String>,
    pub sort_key: SortKey,
    pub sort_desc: bool,
    /// The drive whose tree the drive-side field is in; none while the drives are listed.
    pub drive_root: Option<FullPath>,
    /// The field that only takes places on external drives.
    pub locked: Field,
    /// The selected names of this folder; none means the folder itself.
    pub picked: NameSet,
    /// The row the last click landed on, from which a range extends.
    pub anchor: Option<usize>,
    pub show_hidden: bool,
    /// The name of a folder being made.
    pub new_folder: Option<String>,
}

/// Which keys were held during a click.
#[derive(Clone, Copy)]
pub struct Held {
    pub shift: bool,
    pub command: bool,
    pub alt: bool,
}

/// What a double click on a row does.
pub enum Opened {
    /// Show this folder.
    Folder(FullPath),
    /// Take this file.
    File(FullPath),
}

/// What the button takes.
pub enum Taken {
    One(FullPath),
    /// Several entries of one folder, by name.
    Several { folder: FullPath, names: Vec<Vec<u8>> },
}

#[verifier::ext_equal]
pub enum TakenView {
    One(FullView),
    Several { folder: FullView, names: Seq<Seq<u8>> },
}

impl View for Taken {
    type V = TakenView;

    open spec fn view(&self) -> TakenView {
        match self {
            Taken::One(p) => TakenView::One(p@),
            Taken::Several { folder, names } => TakenView::Several {
                folder: folder@,
                names: path::names(names@),
            },
        }
    }
}

pub open spec fn opt_path(p: Option<FullPath>) -> Option<FullView> {
    path::opt_view(p)
}

/// The names of the rows `lo` to `hi`, both of them, as far as there are rows.
pub open spec fn names_between(items: Seq<ItemView>, lo: int, hi: int) -> Set<Seq<u8>> {
    Set::new(
        |n: Seq<u8>| exists|k: int| lo <= k <= hi && 0 <= k < items.len() && (#[trigger] items[k]).name == n,
    )
}

/// The bytes of the selected files among the first `n` rows.
pub open spec fn picked_bytes(items: Seq<ItemView>, set: Set<Seq<u8>>, n: int) -> nat
    decreases n,
{
    if n <= 0 {
        0
    } else {
        picked_bytes(items, set, n - 1) + (if set.contains(items[n - 1].name) {
            items[n - 1].size as nat
        } else {
            0
        })
    }
}

/// How many selected folders there are among the first `n` rows.
pub open spec fn picked_folders(items: Seq<ItemView>, set: Set<Seq<u8>>, n: int) -> nat
    decreases n,
{
    if n <= 0 {
        0
    } else {
        picked_folders(items, set, n - 1) + (if items[n - 1].is_dir && set.contains(
            items[n - 1].name,
        ) {
            1nat
        } else {
            0nat
        })
    }
}

/// The line beside the button: how much is selected.
pub open spec fn selection_text(n: nat, bytes: u64, folders: nat) -> Seq<char> {
    let a = text::dec(n) + " selected"@;
    let b = if bytes > 0 {
        a + " · "@ + size::human_text(bytes)
    } else {
        a
    };
    if folders > 0 {
        b + " · "@ + words::counted(folders, "folder"@) + " (contents counted when it starts)"@
    } else {
        b
    }
}

/// What the button says it takes.
pub open spec fn action_text(which: Field, picked: Seq<Seq<u8>>, here: Seq<char>) -> Seq<char> {
    match which {
        Field::Source => if picked.len() == 1 {
            "Choose “"@ + path::lossy_text(picked[0]) + "”"@
        } else if picked.len() > 1 {
            "Choose "@ + text::dec(picked.len()) + " items"@
        } else {
            "Choose “"@ + here + "”"@
        },
        Field::Dest => "Copy into “"@ + here + "”"@,
    }
}

/// What pressing the button for a source takes: the selected entries, or the folder itself.
pub open spec fn taken(cwd: FullView, picked: Seq<Seq<u8>>) -> TakenView {
    if picked.len() == 0 {
        TakenView::One(cwd)
    } else if picked.len() == 1 {
        TakenView::One(cwd.push(picked[0]))
    } else {
        TakenView::Several { folder: cwd, names: picked }
    }
}

impl Browser {
    pub open spec fn wf(&self) -> bool {
        self.picked.wf()
    }

    /// Nothing listed and nothing selected; the rest as before.
    pub open spec fn emptied(&self, before: &Browser) -> bool {
        &&& self.wf()
        &&& item_views(self.entries@) == Seq::<ItemView>::empty()
        &&& self.picked@ == Set::<Seq<u8>>::empty()
        &&& self.anchor is None
        &&& self.error is None
        &&& self.sort_key == before.sort_key
        &&& self.sort_desc == before.sort_desc
        &&& self.locked == before.locked
        &&& self.show_hidden == before.show_hidden
        &&& self.new_folder == before.new_folder
    }

    /// Everything but the selection and its anchor is as before.
    pub open spec fn only_selection(&self, before: &Browser) -> bool {
        &&& self.open_for == before.open_for
        &&& self.cwd == before.cwd
        &&& self.entries == before.entries
        &&& self.error == before.error
        &&& self.sort_key == before.sort_key
        &&& self.sort_desc == before.sort_desc
        &&& self.drive_root == before.drive_root
        &&& self.locked == before.locked
        &&& self.show_hidden == before.show_hidden
        &&& self.new_folder == before.new_folder
    }

    pub fn new(home: FullPath) -> (b: Browser)
        ensures
            b.wf(),
            b.open_for is None,
            b.cwd == home,
            item_views(b.entries@) == Seq::<ItemView>::empty(),
            b.error is None,
            b.sort_key == SortKey::Name,
            !b.sort_desc,
            b.drive_root is None,
            b.locked == Field::Dest,
            b.picked@ == Set::<Seq<u8>>::empty(),
            b.anchor is None,
            !b.show_hidden,
            b.new_folder is None,
    {
        let entries: Vec<Item> = Vec::new();
        assert(item_views(entries@) =~= Seq::empty());
        Browser {
            open_for: None,
            cwd: home,
            entries,
            error: None,
            sort_key: SortKey::Name,
            sort_desc: false,
            drive_root: None,
            locked: Field::Dest,
            picked: NameSet::new(),
            anchor: None,
            show_hidden: false,
            new_folder: None,
        }
    }

    /// Before a listing: a selection names entries of the folder that is left.
    pub fn clear_listing(&mut self)
        ensures
            final(self).emptied(&*old(self)),
            final(self).open_for == old(self).open_for,
            final(self).cwd == old(self).cwd,
            final(self).drive_root == old(self).drive_root,
    {
        self.entries = Vec::new();
        self.picked = NameSet::new();
        self.anchor = None;
        self.error = None;
        assert(item_views(self.entries@) =~= Seq::empty());
    }

    /// One entry of the directory.
    pub fn offer(&mut self, name: Vec<u8>, is_text: bool, seen: Option<Seen>)
        ensures
            final(self).only_selection(&(Browser { entries: final(self).entries, ..*old(self) })),
            final(self).picked == old(self).picked,
            final(self).anchor == old(self).anchor,
            item_views(final(self).entries@) == match row_of(
                name@,
                is_text,
                seen,
                old(self).open_for == Some(Field::Source),
                old(self).show_hidden,
            ) {
                Some(r) => item_views(old(self).entries@).push(r),
                None => item_views(old(self).entries@),
            },
    {
        let ghost before = self.entries@;
        let files = match self.open_for {
            Some(Field::Source) => true,
            _ => false,
        };
        let dotted = is_text && name.len() > 0 && name[0] == 46;
        if dotted && !self.show_hidden {
            return;
        }
        let (is_dir, mtime, len) = match seen {
            Some(s) => (s.is_dir, s.mtime, s.len),
            None => (false, 0, 0),
        };
        if is_dir || files {
            let size: u64 = if is_dir {
                0
            } else {
                len
            };
            let item = Item { name, is_dir, mtime, size };
            self.entries.push(item);
            assert(item_views(self.entries@) =~= item_views(before).push(item@));
        }
    }

    /// The directory could not be read.
    pub fn unreadable(&mut self, why: &str)
        ensures
            final(self).only_selection(&(Browser { error: final(self).error, ..*old(self) })),
            final(self).picked == old(self).picked,
            final(self).anchor == old(self).anchor,
            final(self).error is Some,
            final(self).error->0@ == "cannot read this folder: "@ + why@,
    {
        let mut s = String::from_str("cannot read this folder: ");
        s.append(why);
        self.error = Some(s);
    }

    /// Orders the rows by the active column.
    pub fn resort(&mut self)
        ensures
            final(self).only_selection(&(Browser { entries: final(self).entries, ..*old(self) })),
            final(self).picked == old(self).picked,
            final(self).anchor == old(self).anchor,
            ordered(
                item_views(old(self).entries@),
                item_views(final(self).entries@),
                old(self).sort_key,
                old(self).sort_desc,
            ),
    {
        let mut rows: Vec<Item> = Vec::new();
        std::mem::swap(&mut rows, &mut self.entries);
        self.entries = sorted_rows(rows, self.sort_key, self.sort_desc);
    }

    /// A click on a column header: switch to it, or turn its order round. Sizes and dates begin
    /// with the largest.
    pub fn sort_by(&mut self, key: SortKey)
        ensures
            final(self).only_selection(
                &(Browser {
                    entries: final(self).entries,
                    sort_key: key,
                    sort_desc: turned_round(old(self).sort_key, old(self).sort_desc, key),
                    ..*old(self)
                }),
            ),
            final(self).picked == old(self).picked,
            final(self).anchor == old(self).anchor,
            ordered(
                item_views(old(self).entries@),
                item_views(final(self).entries@),
                final(self).sort_key,
                final(self).sort_desc,
            ),
    {
        if self.sort_key == key {
            self.sort_desc = !self.sort_desc;
        } else {
            self.sort_key = key;
            self.sort_desc = key != SortKey::Name;
        }
        self.resort();
    }

    /// Shows another folder, still to be listed.
    pub fn go(&mut self, p: FullPath)
        ensures
            final(self).emptied(&*old(self)),
            final(self).cwd == p,
            final(self).open_for == old(self).open_for,
            final(self).drive_root == old(self).drive_root,
    {
        self.cwd = p;
        self.clear_listing();
    }

    /// Goes into a drive, still to be listed.
    pub fn enter_drive(&mut self, root: FullPath)
        ensures
            final(self).emptied(&*old(self)),
            final(self).cwd@ == root@,
            final(self).open_for == old(self).open_for,
            opt_path(final(self).drive_root) == Some(root@),
    {
        self.drive_root = Some(root.copy());
        self.go(root);
    }

    /// One level up. At the root of a drive the drive-side field goes back to the list of
    /// drives, never above it. Says whether the folder has to be listed anew.
    pub fn up(&mut self, which: Field) -> (relist: bool)
        requires
            old(self).wf(),
        ensures
            final(self).wf(),
            went_up(*old(self), *final(self), which, relist),
    {
        let at_root = match &self.drive_root {
            Some(r) => r.is_same(&self.cwd),
            None => false,
        };
        if which == self.locked && at_root {
            self.drive_root = None;
            return false;
        }
        match self.cwd.parent() {
            Some(p) => {
                self.go(p);
                true
            },
            None => false,
        }
    }

    /// Opens the browser for a field: at what was chosen before, on the drive it lies on where
    /// the field is the drive-side one. Still to be listed.
    pub fn open(
        &mut self,
        which: Field,
        current: &Option<FullPath>,
        current_is_dir: bool,
        drives: &Vec<FullPath>,
        home: &FullPath,
    )
        ensures
            final(self).wf(),
            final(self).open_for == Some(which),
            item_views(final(self).entries@) == Seq::<ItemView>::empty(),
            final(self).picked@ == Set::<Seq<u8>>::empty(),
            final(self).anchor is None,
            final(self).error is None,
            final(self).locked == old(self).locked,
            final(self).show_hidden == old(self).show_hidden,
            final(self).new_folder == old(self).new_folder,
            (final(self).sort_key, final(self).sort_desc) == sort_for(
                which,
                old(self).sort_key,
                old(self).sort_desc,
            ),
            opt_path(final(self).drive_root) == (if which == old(self).locked {
                start_drive(opt_path(*current), current_is_dir, drives@)
            } else {
                opt_path(old(self).drive_root)
            }),
            final(self).cwd@ == opens_in(
                which == old(self).locked,
                opt_path(*current),
                current_is_dir,
                drives@,
                home@,
                old(self).cwd@,
            ),
    {
        self.open_for = Some(which);
        if which == Field::Dest && self.sort_key == SortKey::Size {
            self.sort_key = SortKey::Name;
            self.sort_desc = false;
        }
        if which == self.locked {
            match current {
                Some(p) => {
                    let at = if current_is_dir {
                        p.copy()
                    } else {
                        match p.parent() {
                            Some(q) => q,
                            None => p.copy(),
                        }
                    };
                    match removable_root_of(&at, drives) {
                        Some(root) => {
                            self.cwd = if current_is_dir {
                                p.copy()
                            } else {
                                match p.parent() {
                                    Some(q) => q,
                                    None => root.copy(),
                                }
                            };
                            self.drive_root = Some(root);
                        },
                        None => {
                            self.drive_root = None;
                        },
                    }
                },
                None => {
                    self.drive_root = None;
                },
            }
        } else {
            match current {
                Some(p) => {
                    if current_is_dir {
                        self.cwd = p.copy();
                    } else if let Some(q) = p.parent() {
                        self.cwd = q;
                    }
                },
                None => {
                    if removable_root_of(&self.cwd, drives).is_some() {
                        self.cwd = home.copy();
                    }
                },
            }
        }
        self.clear_listing();
    }

    pub fn close(&mut self)
        ensures
            *final(self) == (Browser { open_for: None, ..*old(self) }),
    {
        self.open_for = None;
    }

    /// Selects everything that is listed.
    pub fn select_all(&mut self)
        ensures
            final(self).wf(),
            final(self).only_selection(&*old(self)),
            final(self).anchor == old(self).anchor,
            final(self).picked@ == names_between(
                item_views(old(self).entries@),
                0,
                old(self).entries@.len() - 1,
            ),
    {
        self.picked = NameSet::new();
        let ghost items = item_views(self.entries@);
        let n = self.entries.len();
        self.add_rows(0, n);
        assert(self.picked@ =~= names_between(items, 0, n - 1));
    }

    /// Adds rows `from` up to but not with `to`.
    fn add_rows(&mut self, from: usize, to: usize)
        requires
            old(self).wf(),
            from <= to <= old(self).entries@.len(),
        ensures
            final(self).wf(),
            final(self).only_selection(&*old(self)),
            final(self).anchor == old(self).anchor,
            final(self).picked@ == old(self).picked@.union(
                names_between(item_views(old(self).entries@), from as int, to - 1),
            ),
    {
        let ghost items = item_views(self.entries@);
        let ghost set0 = self.picked@;
        let mut i: usize = from;
        assert(set0.union(names_between(items, from as int, from - 1)) =~= set0);
        while i < to
            invariant
                from <= i <= to <= self.entries@.len(),
                self.wf(),
                self.only_selection(&*old(self)),
                self.anchor == old(self).anchor,
                items == item_views(self.entries@),
                self.picked@ == set0.union(names_between(items, from as int, i - 1)),
            decreases to - i,
        {
            let ghost now = self.picked@;
            assert(items[i as int] == self.entries@[i as int]@);
            let name = clone_name(&self.entries[i].name);
            self.picked.insert(name.as_slice());
            proof {
                let a = names_between(items, from as int, i - 1);
                let b = names_between(items, from as int, i as int);
                assert forall|n: Seq<u8>| b.contains(n) == a.insert(name@).contains(n) by {
                    if b.contains(n) {
                        let k = choose|k: int|
                            from <= k <= i && 0 <= k < items.len() && (#[trigger] items[k]).name == n;
                        if k < i {
                            assert(from <= k <= i - 1 && items[k].name == n);
                        }
                    }
                    if a.contains(n) {
                        let k = choose|k: int|
                            from <= k <= i - 1 && 0 <= k < items.len() && (#[trigger] items[k]).name
                                == n;
                        assert(from <= k <= i && items[k].name == n);
                    }
                    assert(items[i as int].name == name@);
                }
                assert(b =~= a.insert(name@));
                assert(set0.union(b) =~= now.insert(name@));
            }
            i += 1;
        }
    }

    pub fn clear_selection(&mut self)
        ensures
            final(self).wf(),
            final(self).only_selection(&*old(self)),
            final(self).picked@ == Set::<Seq<u8>>::empty(),
            final(self).anchor is None,
    {
        self.picked = NameSet::new();
        self.anchor = None;
    }

    /// A click on row `at`: alone it selects that row and nothing else; with command it turns
    /// that row on or off; with shift it selects everything from the anchor to that row, and
    /// with both it adds that.
    pub fn click(&mut self, at: usize, held: Held)
        requires
            old(self).wf(),
            at < old(self).entries@.len(),
        ensures
            final(self).wf(),
            final(self).only_selection(&*old(self)),
            (final(self).picked@, final(self).anchor) == clicked(
                item_views(old(self).entries@),
                old(self).picked@,
                old(self).anchor,
                at,
                held,
            ),
    {
        let ghost items = item_views(self.entries@);
        assert(items[at as int] == self.entries@[at as int]@);
        let name = clone_name(&self.entries[at].name);
        if held.shift && (held.command || !held.alt) {
            let from: usize = match self.anchor {
                Some(a) => a,
                None => at,
            };
            let (lo, hi) = if from <= at {
                (from, at)
            } else {
                (at, from)
            };
            if !held.command {
                self.picked = NameSet::new();
            }
            let ghost start = self.picked@;
            let n = self.entries.len();
            let end: usize = if hi < n {
                hi + 1
            } else {
                n
            };
            self.add_rows(lo, end);
            proof {
                let a = names_between(items, lo as int, end - 1);
                let b = names_between(items, lo as int, hi as int);
                assert forall|x: Seq<u8>| a.contains(x) == b.contains(x) by {
                    if b.contains(x) {
                        let k = choose|k: int|
                            lo <= k <= hi && 0 <= k < items.len() && (#[trigger] items[k]).name == x;
                        assert(lo <= k <= end - 1 && items[k].name == x);
                    }
                    if a.contains(x) {
                        let k = choose|k: int|
                            lo <= k <= end - 1 && 0 <= k < items.len() && (#[trigger] items[k]).name
                                == x;
                        assert(lo <= k <= hi && items[k].name == x);
                    }
                }
                assert(a =~= b);
                assert(Set::<Seq<u8>>::empty().union(b) =~= b);
            }
        } else if held.command {
            if self.picked.contains(name.as_slice()) {
                self.picked.remove(name.as_slice());
            } else {
                self.picked.insert(name.as_slice());
            }
            self.anchor = Some(at);
        } else {
            self.picked = NameSet::new();
            self.picked.insert(name.as_slice());
            self.anchor = Some(at);
            assert(Set::<Seq<u8>>::empty().insert(name@) =~= set![name@]);
        }
    }

    /// A double click opens a folder and takes a file.
    pub fn double_click(&self, at: usize) -> (r: Opened)
        requires
            at < self.entries@.len(),
        ensures
            ({
                let i = self.entries@[at as int];
                let p = self.cwd@.push(i.name@);
                if i.is_dir {
                    r is Folder && r->Folder_0@ == p
                } else {
                    r is File && r->File_0@ == p
                }
            }),
    {
        let p = self.cwd.join(self.entries[at].name.as_slice());
        if self.entries[at].is_dir {
            Opened::Folder(p)
        } else {
            Opened::File(p)
        }
    }

    /// The names that are selected, in byte order.
    pub fn names(&self) -> (v: Vec<Vec<u8>>)
        ensures
            path::names(v@) == self.picked.names(),
    {
        let mut v: Vec<Vec<u8>> = Vec::new();
        let mut i: usize = 0;
        let n = self.picked.len();
        while i < n
            invariant
                i <= n,
                n == self.picked.names().len(),
                path::names(v@) == self.picked.names().take(i as int),
            decreases n - i,
        {
            let ghost before = path::names(v@);
            let x = self.picked.at(i);
            v.push(x);
            assert(path::names(v@) =~= before.push(x@));
            assert(self.picked.names().take(i + 1) =~= self.picked.names().take(i as int).push(
                x@,
            ));
            i += 1;
        }
        assert(self.picked.names().take(n as int) =~= self.picked.names());
        v
    }

    /// What pressing the button for a source takes.
    pub fn take(&self) -> (t: Taken)
        ensures
            t@ == taken(self.cwd@, self.picked.names()),
    {
        let n = self.picked.len();
        if n == 0 {
            Taken::One(self.cwd.copy())
        } else if n == 1 {
            let x = self.picked.at(0);
            Taken::One(self.cwd.join(x.as_slice()))
        } else {
            Taken::Several { folder: self.cwd.copy(), names: self.names() }
        }
    }

    /// What the button says; `label` names the folder where it is the root of a drive.
    pub fn action(&self, which: Field, label: &str) -> (s: String)
        ensures
            s@ == action_text(
                which,
                self.picked.names(),
                match self.cwd@.file_name() {
                    Some(n) => path::lossy_text(n),
                    None => label@,
                },
            ),
    {
        let here = match self.cwd.file_name() {
            Some(n) => lossy(n.as_slice()),
            None => String::from_str(label),
        };
        let n = self.picked.len();
        match which {
            Field::Source => {
                if n == 1 {
                    let mut s = String::from_str("Choose “");
                    s.append(lossy(self.picked.at(0).as_slice()).as_str());
                    s.append("”");
                    s
                } else if n > 1 {
                    let mut s = String::from_str("Choose ");
                    s.append(decimal(n as u64).as_str());
                    s.append(" items");
                    s
                } else {
                    let mut s = String::from_str("Choose “");
                    s.append(here.as_str());
                    s.append("”");
                    s
                }
            },
            Field::Dest => {
                let mut s = String::from_str("Copy into “");
                s.append(here.as_str());
                s.append("”");
                s
            },
        }
    }

    /// The line beside the button, where anything is selected.
    pub fn selection_note(&self) -> (r: Option<String>)
        requires
            self.wf(),
        ensures
            ({
                let items = item_views(self.entries@);
                let n = self.picked.names().len();
                if n == 0 {
                    r is None
                } else {
                    r is Some && r->0@ == selection_text(
                        n,
                        scan::clamp(picked_bytes(items, self.picked@, items.len() as int)),
                        picked_folders(items, self.picked@, items.len() as int),
                    )
                }
            }),
    {
        let n = self.picked.len();
        if n == 0 {
            return None;
        }
        let ghost items = item_views(self.entries@);
        let mut bytes: u64 = 0;
        let mut folders: usize = 0;
        let mut i: usize = 0;
        while i < self.entries.len()
            invariant
                i <= self.entries.len(),
                self.wf(),
                items == item_views(self.entries@),
                bytes == scan::clamp(picked_bytes(items, self.picked@, i as int)),
                folders == picked_folders(items, self.picked@, i as int),
                folders <= i,
            decreases self.entries.len() - i,
        {
            assert(items[i as int] == self.entries@[i as int]@);
            let it = &self.entries[i];
            if self.picked.contains(it.name.as_slice()) {
                bytes = if it.size > u64::MAX - bytes {
                    u64::MAX
                } else {
                    bytes + it.size
                };
                if it.is_dir {
                    folders += 1;
                }
            }
            i += 1;
        }
        let mut s = decimal(n as u64);
        s.append(" selected");
        if bytes > 0 {
            s.append(" · ");
            s.append(human(bytes).as_str());
        }
        if folders > 0 {
            s.append(" · ");
            s.append(plural(folders, "folder").as_str());
            s.append(" (contents counted when it starts)");
        }
        Some(s)
    }

    /// The name of the folder to make, if enough was typed for one.
    pub fn folder_to_make(&self) -> (r: Option<String>)
        ensures
            crate::drive::opt_text(r) == typed_name(crate::drive::opt_text(self.new_folder)),
    {
        match &self.new_folder {
            Some(t) => {
                let cs = chars_of(t.as_str());
                if fields::is_blank(cs.as_slice()) {
                    None
                } else {
                    Some(text_of(fields::trim(cs.as_slice()).as_slice()))
                }
            },
            None => None,
        }
    }
}

/// Folders have no sizes, so a list of folders is not ordered by them.
pub open spec fn sort_for(which: Field, key: SortKey, desc: bool) -> (SortKey, bool) {
    if which == Field::Dest && key == SortKey::Size {
        (SortKey::Name, false)
    } else {
        (key, desc)
    }
}

/// The folder in which the browser opens.
pub open spec fn opens_in(
    on_drive: bool,
    current: Option<FullView>,
    is_dir: bool,
    drives: Seq<FullPath>,
    home: FullView,
    last: FullView,
) -> FullView {
    if on_drive {
        match start_drive(current, is_dir, drives) {
            Some(root) => start_folder(current->0, is_dir, root),
            None => last,
        }
    } else {
        match current {
            Some(p) => start_folder(p, is_dir, last),
            None => if path::root_index(last, drives, drives.len() as int) is Some {
                home
            } else {
                last
            },
        }
    }
}

/// Which way round the rows come after a click on a column header.
pub open spec fn turned_round(active: SortKey, desc: bool, key: SortKey) -> bool {
    if active == key {
        !desc
    } else {
        key != SortKey::Name
    }
}

/// What is selected after a click on row `at`, and the row that a later one reaches from.
pub open spec fn clicked(
    items: Seq<ItemView>,
    picked: Set<Seq<u8>>,
    anchor: Option<usize>,
    at: usize,
    held: Held,
) -> (Set<Seq<u8>>, Option<usize>) {
    let name = items[at as int].name;
    if held.shift && (held.command || !held.alt) {
        let from = if anchor is Some {
            anchor->0 as int
        } else {
            at as int
        };
        let run = if from <= at {
            names_between(items, from, at as int)
        } else {
            names_between(items, at as int, from)
        };
        (
            if held.command {
                picked.union(run)
            } else {
                run
            },
            anchor,
        )
    } else if held.command {
        (
            if picked.contains(name) {
                picked.remove(name)
            } else {
                picked.insert(name)
            },
            Some(at),
        )
    } else {
        (set![name], Some(at))
    }
}

/// One level up led from one browser to the other.
pub open spec fn went_up(before: Browser, after: Browser, which: Field, relist: bool) -> bool {
    if which == before.locked && opt_path(before.drive_root) == Some(before.cwd@) {
        !relist && after == (Browser { drive_root: None, ..before })
    } else {
        match before.cwd@.parent() {
            Some(p) => relist && after.cwd@ == p && after.emptied(&before) && after.drive_root
                == before.drive_root && after.open_for == before.open_for,
            None => !relist && after == before,
        }
    }
}

/// The name that was typed for a new folder, without the space around it.
pub open spec fn typed_name(typed: Option<Seq<char>>) -> Option<Seq<char>> {
    match typed {
        Some(t) => if fields::blank(t) {
            None
        } else {
            Some(fields::trimmed(t))
        },
        None => None,
    }
}

/// The drive the browser starts on: the one that holds what was chosen before.
pub open spec fn start_drive(
    current: Option<FullView>,
    is_dir: bool,
    drives: Seq<FullPath>,
) -> Option<FullView> {
    match current {
        Some(p) => {
            let at = start_folder(p, is_dir, p);
            match path::root_index(at, drives, drives.len() as int) {
                Some(i) => Some(drives[i]@),
                None => None,
            }
        },
        None => None,
    }
}

/// The folder the browser starts in: a chosen folder, or the one around a chosen file.
pub open spec fn start_folder(p: FullView, is_dir: bool, otherwise: FullView) -> FullView {
    if is_dir {
        p
    } else {
        match p.parent() {
            Some(q) => q,
            None => otherwise,
        }
    }
}

/// What heads the browser.
pub open spec fn browser_title(which: Field, locked: Field) -> Seq<char> {
    match (which, which == locked) {
        (Field::Source, false) => "Choose a folder or a file to copy from"@,
        (Field::Source, true) => "Choose what to copy from the drive"@,
        (Field::Dest, true) => "Choose an external drive to copy into"@,
        (Field::Dest, false) => "Choose a folder on this computer to copy into"@,
    }
}

pub fn title(which: Field, locked: Field) -> (s: &'static str)
    ensures
        s@ == browser_title(which, locked),
{
    match (which, which == locked) {
        (Field::Source, false) => "Choose a folder or a file to copy from",
        (Field::Source, true) => "Choose what to copy from the drive",
        (Field::Dest, true) => "Choose an external drive to copy into",
        (Field::Dest, false) => "Choose a folder on this computer to copy into",
    }
}

/// What a click with nothing held selects, the button takes: that one entry.
pub proof fn law_a_click_takes_that_entry(cwd: FullView, name: Seq<u8>, picked: Seq<Seq<u8>>)
    requires
        ascending(picked),
        picked.to_set() == set![name],
    ensures
        taken(cwd, picked) == TakenView::One(cwd.push(name)),
{
    assert(set![name].contains(name));
    assert(picked.contains(name));
    let i = choose|i: int| 0 <= i < picked.len() && picked[i] == name;
    if picked.len() > 1 {
        let j = if i == 0 {
            1int
        } else {
            0int
        };
        assert(picked.contains(picked[j]));
        assert(picked.to_set().contains(picked[j]));
        assert(picked[j] == name);
        path::lemma_bytes_irreflexive(name);
        if i < j {
            assert(path::bytes_before(picked[i], picked[j]));
        } else {
            assert(path::bytes_before(picked[j], picked[i]));
        }
    }
}

/// The rows shown are the rows found: ordering loses none and adds none.
pub proof fn law_ordering_keeps_every_row(
    items: Seq<ItemView>,
    r: Seq<ItemView>,
    key: SortKey,
    desc: bool,
)
    requires
        ordered(items, r, key, desc),
        items.len() <= usize::MAX,
    ensures
        r.to_multiset() == items.to_multiset(),
{
    let p = choose|p: Seq<usize>| #[trigger]
        in_rows(items, p, key, desc) && r == sort::picked(items, p);
    assert forall|a: int, b: int| 0 <= a < b < p.len() implies p[a] != p[b] by {
        assert(row_precedes(items, p[a] as int, p[b] as int, key, desc));
        if p[a] == p[b] {
            let x = items[p[a] as int];
            path::lemma_bytes_irreflexive(order_name(x, key));
        }
    }
    sort::lemma_permuted(items, p);
}

} // verus!
