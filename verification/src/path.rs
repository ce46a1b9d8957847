//! Paths as lists of components, byte-exact and never case-folded.

use crate::text::chars_of;
use vstd::prelude::*;
use vstd::utf8;

verus! {

/// The system the program runs on, as far as names and paths depend on it.
#[derive(Clone, Copy, PartialEq, Eq, Structural, Debug)]
pub enum Os {
    Linux,
    Mac,
    Windows,
    Other,
}

/// What `String::from_utf8_lossy` makes of these bytes.
pub uninterp spec fn lossy_text(bytes: Seq<u8>) -> Seq<char>;

/// `String::from_utf8_lossy`: bytes that are UTF-8 keep their characters. What stands in for
/// bytes that are not stays unsaid.
#[verifier::external_body]
pub(crate) fn lossy(bytes: &[u8]) -> (s: String)
    ensures
        s@ == lossy_text(bytes@),
        utf8::valid_utf8(bytes@) ==> s@ == utf8::decode_utf8(bytes@),
{
    String::from_utf8_lossy(bytes).into_owned()
}

/// The character between two components.
pub open spec fn sep(os: Os) -> char {
    if os is Windows {
        '\\'
    } else {
        '/'
    }
}

pub fn separator(os: Os) -> (c: char)
    ensures
        c == sep(os),
{
    match os {
        Os::Windows => '\\',
        _ => '/',
    }
}

/// Texts with a separator between every two of them.
pub open spec fn joined(parts: Seq<Seq<char>>, c: char) -> Seq<char>
    decreases parts.len(),
{
    if parts.len() == 0 {
        Seq::empty()
    } else if parts.len() == 1 {
        parts[0]
    } else {
        joined(parts.drop_last(), c).push(c) + parts.last()
    }
}

/// The byte strings of a list of names.
pub open spec fn names(v: Seq<Vec<u8>>) -> Seq<Seq<u8>> {
    v.map_values(|n: Vec<u8>| n@)
}

/// The readable form of a relative path.
pub open spec fn rel_text(parts: Seq<Seq<u8>>, os: Os) -> Seq<char> {
    joined(parts.map_values(|p: Seq<u8>| lossy_text(p)), sep(os))
}

/// `a` comes before `b` in byte order, a prefix before what it begins.
pub open spec fn bytes_before(a: Seq<u8>, b: Seq<u8>) -> bool
    decreases a.len(),
{
    if b.len() == 0 {
        false
    } else if a.len() == 0 {
        true
    } else if a[0] != b[0] {
        a[0] < b[0]
    } else {
        bytes_before(a.drop_first(), b.drop_first())
    }
}

/// `a` comes before `b`, compared component by component.
pub open spec fn path_before(a: Seq<Seq<u8>>, b: Seq<Seq<u8>>) -> bool
    decreases a.len(),
{
    if b.len() == 0 {
        false
    } else if a.len() == 0 {
        true
    } else if a[0] != b[0] {
        bytes_before(a[0], b[0])
    } else {
        path_before(a.drop_first(), b.drop_first())
    }
}

pub proof fn lemma_bytes_irreflexive(a: Seq<u8>)
    ensures
        !bytes_before(a, a),
    decreases a.len(),
{
    if a.len() > 0 {
        lemma_bytes_irreflexive(a.drop_first());
    }
}

pub proof fn lemma_bytes_transitive(a: Seq<u8>, b: Seq<u8>, c: Seq<u8>)
    requires
        bytes_before(a, b),
        bytes_before(b, c),
    ensures
        bytes_before(a, c),
    decreases a.len(),
{
    if a.len() > 0 && b.len() > 0 && c.len() > 0 && a[0] == b[0] && b[0] == c[0] {
        lemma_bytes_transitive(a.drop_first(), b.drop_first(), c.drop_first());
    }
}

pub proof fn lemma_bytes_total(a: Seq<u8>, b: Seq<u8>)
    ensures
        a == b || bytes_before(a, b) || bytes_before(b, a),
    decreases a.len(),
{
    if a.len() > 0 && b.len() > 0 && a[0] == b[0] {
        lemma_bytes_total(a.drop_first(), b.drop_first());
        if a.drop_first() == b.drop_first() {
            assert(a =~= seq![a[0]] + a.drop_first());
            assert(b =~= seq![b[0]] + b.drop_first());
        }
    } else if a.len() == 0 && b.len() == 0 {
        assert(a =~= b);
    }
}

/// No path comes before itself.
pub proof fn lemma_path_irreflexive(a: Seq<Seq<u8>>)
    ensures
        !path_before(a, a),
    decreases a.len(),
{
    if a.len() > 0 {
        lemma_path_irreflexive(a.drop_first());
    }
}

pub proof fn lemma_path_transitive(a: Seq<Seq<u8>>, b: Seq<Seq<u8>>, c: Seq<Seq<u8>>)
    requires
        path_before(a, b),
        path_before(b, c),
    ensures
        path_before(a, c),
    decreases a.len(),
{
    if a.len() > 0 && b.len() > 0 && c.len() > 0 {
        if a[0] == b[0] && b[0] == c[0] {
            lemma_path_transitive(a.drop_first(), b.drop_first(), c.drop_first());
        } else if a[0] != b[0] && b[0] != c[0] {
            lemma_bytes_transitive(a[0], b[0], c[0]);
            if a[0] == c[0] {
                lemma_bytes_irreflexive(a[0]);
            }
        }
    }
}

/// Of two different paths one comes first.
pub proof fn lemma_path_total(a: Seq<Seq<u8>>, b: Seq<Seq<u8>>)
    ensures
        a == b || path_before(a, b) || path_before(b, a),
    decreases a.len(),
{
    if a.len() > 0 && b.len() > 0 {
        if a[0] == b[0] {
            lemma_path_total(a.drop_first(), b.drop_first());
            if a.drop_first() == b.drop_first() {
                assert(a =~= seq![a[0]] + a.drop_first());
                assert(b =~= seq![b[0]] + b.drop_first());
            }
        } else {
            lemma_bytes_total(a[0], b[0]);
        }
    } else if a.len() == 0 && b.len() == 0 {
        assert(a =~= b);
    }
}

/// A path below some root: its components, from the root on.
pub struct RelPath {
    pub parts: Vec<Vec<u8>>,
}

impl View for RelPath {
    type V = Seq<Seq<u8>>;

    open spec fn view(&self) -> Seq<Seq<u8>> {
        names(self.parts@)
    }
}

/// The same bytes again.
pub fn clone_name(n: &Vec<u8>) -> (r: Vec<u8>)
    ensures
        r@ == n@,
{
    let mut r: Vec<u8> = Vec::new();
    r.extend_from_slice(n.as_slice());
    assert(r@ =~= n@);
    r
}

/// Whether two byte strings are the same.
pub fn same_bytes(a: &[u8], b: &[u8]) -> (r: bool)
    ensures
        r == (a@ == b@),
{
    if a.len() != b.len() {
        return false;
    }
    let mut i: usize = 0;
    while i < a.len()
        invariant
            a.len() == b.len(),
            i <= a.len(),
            forall|k: int| 0 <= k < i ==> a@[k] == b@[k],
        decreases a.len() - i,
    {
        if a[i] != b[i] {
            return false;
        }
        i += 1;
    }
    assert(a@ =~= b@);
    true
}

/// Whether `a` comes before `b` in byte order.
pub fn is_bytes_before(a: &[u8], b: &[u8]) -> (r: bool)
    ensures
        r == bytes_before(a@, b@),
{
    let mut i: usize = 0;
    assert(a@.skip(0) =~= a@ && b@.skip(0) =~= b@);
    while i < a.len() && i < b.len() && a[i] == b[i]
        invariant
            i <= a.len(),
            i <= b.len(),
            bytes_before(a@, b@) == bytes_before(a@.skip(i as int), b@.skip(i as int)),
        decreases a.len() - i,
    {
        assert(a@.skip(i as int).drop_first() =~= a@.skip(i + 1));
        assert(b@.skip(i as int).drop_first() =~= b@.skip(i + 1));
        i += 1;
    }
    if i >= b.len() {
        false
    } else if i >= a.len() {
        true
    } else {
        a[i] < b[i]
    }
}

impl RelPath {
    /// The root itself.
    pub fn root() -> (r: RelPath)
        ensures
            r@ == Seq::<Seq<u8>>::empty(),
    {
        let r = RelPath { parts: Vec::new() };
        assert(r@ =~= Seq::empty());
        r
    }

    pub fn copy(&self) -> (r: RelPath)
        ensures
            r@ == self@,
    {
        let mut parts: Vec<Vec<u8>> = Vec::new();
        let mut i: usize = 0;
        while i < self.parts.len()
            invariant
                i <= self.parts.len(),
                names(parts@) == self@.take(i as int),
            decreases self.parts.len() - i,
        {
            let ghost before = names(parts@);
            parts.push(clone_name(&self.parts[i]));
            assert(names(parts@) =~= before.push(self.parts@[i as int]@));
            assert(self@.take(i + 1) =~= self@.take(i as int).push(self@[i as int]));
            i += 1;
        }
        assert(self@.take(i as int) =~= self@);
        RelPath { parts }
    }

    /// The entry `name` inside this directory.
    pub fn join(&self, name: &[u8]) -> (r: RelPath)
        ensures
            r@ == self@.push(name@),
    {
        let mut r = self.copy();
        let ghost before = r@;
        let mut n: Vec<u8> = Vec::new();
        n.extend_from_slice(name);
        assert(n@ =~= name@);
        r.parts.push(n);
        assert(r@ =~= before.push(name@));
        r
    }

    /// How deep the path lies below its root.
    pub fn depth(&self) -> (n: usize)
        ensures
            n == self@.len(),
    {
        self.parts.len()
    }

    pub fn is_same(&self, other: &RelPath) -> (r: bool)
        ensures
            r == (self@ == other@),
    {
        if self.parts.len() != other.parts.len() {
            assert(self@.len() != other@.len());
            return false;
        }
        let mut i: usize = 0;
        while i < self.parts.len()
            invariant
                self.parts.len() == other.parts.len(),
                i <= self.parts.len(),
                forall|k: int| 0 <= k < i ==> self@[k] == other@[k],
            decreases self.parts.len() - i,
        {
            if !same_bytes(self.parts[i].as_slice(), other.parts[i].as_slice()) {
                assert(self@[i as int] != other@[i as int]);
                return false;
            }
            i += 1;
        }
        assert(self@ =~= other@);
        true
    }

    /// Whether this path comes before `other`, component by component.
    pub fn is_before(&self, other: &RelPath) -> (r: bool)
        ensures
            r == path_before(self@, other@),
    {
        let mut i: usize = 0;
        assert(self@.skip(0) =~= self@ && other@.skip(0) =~= other@);
        while i < self.parts.len() && i < other.parts.len()
            invariant
                i <= self.parts.len(),
                i <= other.parts.len(),
                path_before(self@, other@) == path_before(
                    self@.skip(i as int),
                    other@.skip(i as int),
                ),
            decreases self.parts.len() - i,
        {
            assert(self@.skip(i as int)[0] == self.parts@[i as int]@);
            assert(other@.skip(i as int)[0] == other.parts@[i as int]@);
            if !same_bytes(self.parts[i].as_slice(), other.parts[i].as_slice()) {
                return is_bytes_before(self.parts[i].as_slice(), other.parts[i].as_slice());
            }
            assert(self@.skip(i as int).drop_first() =~= self@.skip(i + 1));
            assert(other@.skip(i as int).drop_first() =~= other@.skip(i + 1));
            i += 1;
        }
        i < other.parts.len()
    }

    /// The readable form.
    pub fn text(&self, os: Os) -> (s: String)
        ensures
            s@ == rel_text(self@, os),
    {
        let c = separator(os);
        let mut s = String::new();
        let mut i: usize = 0;
        let ghost all = self@.map_values(|p: Seq<u8>| lossy_text(p));
        assert(all.take(0) =~= Seq::empty());
        while i < self.parts.len()
            invariant
                i <= self.parts.len(),
                c == sep(os),
                all == self@.map_values(|p: Seq<u8>| lossy_text(p)),
                s@ == joined(all.take(i as int), c),
            decreases self.parts.len() - i,
        {
            proof {
                assert(all.take(i + 1).drop_last() =~= all.take(i as int));
                assert(all.take(i + 1).last() == lossy_text(self.parts@[i as int]@));
            }
            if i > 0 {
                s.push(c);
            }
            let part = lossy(self.parts[i].as_slice());
            s.append(part.as_str());
            assert(s@ =~= joined(all.take(i + 1), c));
            i += 1;
        }
        assert(all.take(i as int) =~= all);
        s
    }
}

// ── whole paths ──────────────────────────────────────────────────────────────
/// One component of a path as typed.
pub enum Part {
    /// `.`
    Here,
    /// `..`
    Up,
    Name(Vec<u8>),
}

#[verifier::ext_equal]
pub enum PartView {
    Here,
    Up,
    Name(Seq<u8>),
}

impl View for Part {
    type V = PartView;

    open spec fn view(&self) -> PartView {
        match *self {
            Part::Here => PartView::Here,
            Part::Up => PartView::Up,
            Part::Name(n) => PartView::Name(n@),
        }
    }
}

/// A path as the system splits it: drive or share prefix, root, components.
pub struct FullPath {
    pub prefix: Vec<u8>,
    pub rooted: bool,
    pub parts: Vec<Part>,
}

#[verifier::ext_equal]
pub struct FullView {
    pub prefix: Seq<u8>,
    pub rooted: bool,
    pub parts: Seq<PartView>,
}

pub open spec fn part_views(v: Seq<Part>) -> Seq<PartView> {
    v.map_values(|p: Part| p@)
}

impl View for FullPath {
    type V = FullView;

    open spec fn view(&self) -> FullView {
        FullView { prefix: self.prefix@, rooted: self.rooted, parts: part_views(self.parts@) }
    }
}

/// The readable form of one component.
pub open spec fn part_text(p: PartView) -> Seq<char> {
    match p {
        PartView::Here => seq!['.'],
        PartView::Up => seq!['.', '.'],
        PartView::Name(n) => lossy_text(n),
    }
}

impl FullView {
    /// Does not depend on any working directory.
    pub open spec fn absolute(self, os: Os) -> bool {
        self.rooted && (os is Windows ==> self.prefix.len() > 0)
    }

    /// The readable form.
    pub open spec fn text(self, os: Os) -> Seq<char> {
        let head = if self.prefix.len() > 0 {
            lossy_text(self.prefix)
        } else {
            Seq::empty()
        };
        let root = if self.rooted {
            seq![sep(os)]
        } else {
            Seq::empty()
        };
        head + root + joined(self.parts.map_values(|p: PartView| part_text(p)), sep(os))
    }

    pub open spec fn push(self, name: Seq<u8>) -> FullView {
        FullView { parts: self.parts.push(PartView::Name(name)), ..self }
    }

    /// `self` with the path `p` resolved against it.
    pub open spec fn resolve(self, p: FullView) -> FullView {
        if p.prefix.len() > 0 {
            p
        } else if p.rooted {
            FullView { prefix: self.prefix, ..p }
        } else {
            FullView { parts: self.parts + p.parts, ..self }
        }
    }

    /// No `.` and no `..` left.
    pub open spec fn plain(self) -> bool {
        forall|i: int| 0 <= i < self.parts.len() ==> #[trigger] self.parts[i] is Name
    }
}

/// Components with every `.` dropped and every `..` taking back the name before it.
pub open spec fn folded(parts: Seq<PartView>) -> Seq<PartView>
    decreases parts.len(),
{
    if parts.len() == 0 {
        Seq::empty()
    } else {
        let init = folded(parts.drop_last());
        match parts.last() {
            PartView::Here => init,
            PartView::Up => if init.len() > 0 {
                init.drop_last()
            } else {
                init
            },
            PartView::Name(n) => init.push(PartView::Name(n)),
        }
    }
}

/// The absolute, textually normalised form of `p` for the working directory `cwd`.
pub open spec fn lexical(p: FullView, cwd: Option<FullView>, os: Os) -> FullView {
    let abs = if p.absolute(os) {
        p
    } else {
        match cwd {
            Some(c) => c.resolve(p),
            None => p,
        }
    };
    FullView { parts: folded(abs.parts), ..abs }
}

fn clone_part(p: &Part) -> (r: Part)
    ensures
        r@ == p@,
{
    match p {
        Part::Here => Part::Here,
        Part::Up => Part::Up,
        Part::Name(n) => Part::Name(clone_name(n)),
    }
}

impl FullPath {
    pub fn copy(&self) -> (r: FullPath)
        ensures
            r@ == self@,
    {
        let mut parts: Vec<Part> = Vec::new();
        append_parts(&mut parts, &self.parts);
        assert(part_views(parts@) =~= part_views(self.parts@));
        FullPath { prefix: clone_name(&self.prefix), rooted: self.rooted, parts }
    }

    pub fn is_absolute(&self, os: Os) -> (r: bool)
        ensures
            r == self@.absolute(os),
    {
        self.rooted && (match os {
            Os::Windows => self.prefix.len() > 0,
            _ => true,
        })
    }

    /// The entry `name` inside this directory.
    pub fn join(&self, name: &[u8]) -> (r: FullPath)
        ensures
            r@ == self@.push(name@),
    {
        let mut r = self.copy();
        let ghost before = r@;
        let mut n: Vec<u8> = Vec::new();
        n.extend_from_slice(name);
        assert(n@ =~= name@);
        r.parts.push(Part::Name(n));
        assert(r@.parts =~= before.parts.push(PartView::Name(name@)));
        r
    }

    /// The readable form.
    pub fn text(&self, os: Os) -> (s: String)
        ensures
            s@ == self@.text(os),
    {
        let c = separator(os);
        let mut s = String::new();
        if self.prefix.len() > 0 {
            s = lossy(self.prefix.as_slice());
        }
        if self.rooted {
            s.push(c);
        }
        let ghost head = s@;
        let ghost all = self@.parts.map_values(|p: PartView| part_text(p));
        let mut i: usize = 0;
        assert(all.take(0) =~= Seq::empty());
        assert(head + joined(all.take(0), c) =~= head);
        while i < self.parts.len()
            invariant
                i <= self.parts.len(),
                c == sep(os),
                all == self@.parts.map_values(|p: PartView| part_text(p)),
                s@ == head + joined(all.take(i as int), c),
            decreases self.parts.len() - i,
        {
            proof {
                assert(all.take(i + 1).drop_last() =~= all.take(i as int));
                assert(all.take(i + 1).last() == part_text(self.parts@[i as int]@));
            }
            if i > 0 {
                s.push(c);
            }
            let ghost mid = s@;
            match &self.parts[i] {
                Part::Here => {
                    s.push('.');
                },
                Part::Up => {
                    s.push('.');
                    s.push('.');
                },
                Part::Name(n) => {
                    let part = lossy(n.as_slice());
                    s.append(part.as_str());
                },
            }
            assert(s@ =~= mid + part_text(self.parts@[i as int]@));
            assert(s@ =~= head + joined(all.take(i + 1), c));
            i += 1;
        }
        assert(all.take(i as int) =~= all);
        assert(s@ =~= self@.text(os));
        s
    }
}

fn append_parts(to: &mut Vec<Part>, from: &Vec<Part>)
    ensures
        part_views(final(to)@) == part_views(old(to)@) + part_views(from@),
{
    let ghost start = part_views(to@);
    let mut i: usize = 0;
    assert(start + part_views(from@).take(0) =~= start);
    while i < from.len()
        invariant
            i <= from.len(),
            part_views(to@) == start + part_views(from@).take(i as int),
        decreases from.len() - i,
    {
        let ghost before = part_views(to@);
        to.push(clone_part(&from[i]));
        assert(part_views(to@) =~= before.push(from@[i as int]@));
        assert(part_views(from@).take(i + 1) =~= part_views(from@).take(i as int).push(
            part_views(from@)[i as int],
        ));
        i += 1;
    }
    assert(part_views(from@).take(i as int) =~= part_views(from@));
}

/// Absolute, textually normalised form of `p`: `.` dropped, `..` folded, a relative path
/// put onto the working directory where there is one. Links are not looked at.
pub fn lexical_abs(p: &FullPath, cwd: &Option<FullPath>, os: Os) -> (r: FullPath)
    ensures
        r@ == lexical(
            p@,
            match cwd {
                Some(c) => Some(c@),
                None => None,
            },
            os,
        ),
        r@.plain(),
{
    let abs = if p.is_absolute(os) {
        p.copy()
    } else {
        match cwd {
            Some(c) => if p.prefix.len() > 0 {
                p.copy()
            } else if p.rooted {
                let mut q = p.copy();
                q.prefix = clone_name(&c.prefix);
                q
            } else {
                let mut q = c.copy();
                append_parts(&mut q.parts, &p.parts);
                q
            },
            None => p.copy(),
        }
    };
    let ghost whole = abs@;
    let mut out: Vec<Part> = Vec::new();
    let mut i: usize = 0;
    assert(part_views(out@) =~= folded(whole.parts.take(0)));
    while i < abs.parts.len()
        invariant
            i <= abs.parts.len(),
            whole == abs@,
            part_views(out@) == folded(whole.parts.take(i as int)),
            forall|k: int| 0 <= k < out.len() ==> (#[trigger] part_views(out@)[k]) is Name,
        decreases abs.parts.len() - i,
    {
        let ghost before = part_views(out@);
        proof {
            assert(whole.parts.take(i + 1).drop_last() =~= whole.parts.take(i as int));
            assert(whole.parts.take(i + 1).last() == abs.parts@[i as int]@);
        }
        match &abs.parts[i] {
            Part::Here => {},
            Part::Up => {
                if out.len() > 0 {
                    out.pop();
                    assert(part_views(out@) =~= before.drop_last());
                    assert forall|k: int| 0 <= k < out.len() implies (#[trigger] part_views(
                        out@,
                    )[k]) is Name by {
                        assert(before[k] is Name);
                    }
                }
            },
            Part::Name(n) => {
                out.push(Part::Name(clone_name(n)));
                assert(part_views(out@) =~= before.push(PartView::Name(n@)));
                assert forall|k: int| 0 <= k < out.len() implies (#[trigger] part_views(
                    out@,
                )[k]) is Name by {
                    if k < before.len() {
                        assert(before[k] is Name);
                    }
                }
            },
        }
        i += 1;
    }
    assert(whole.parts.take(i as int) =~= whole.parts);
    FullPath { prefix: abs.prefix, rooted: abs.rooted, parts: out }
}

/// A relative path and the same path spelled absolutely name the same place.
pub proof fn law_relative_and_absolute_agree(p: FullView, cwd: FullView, os: Os)
    requires
        cwd.absolute(os),
        p.prefix.len() == 0,
        !p.rooted,
    ensures
        lexical(p, Some(cwd), os) == lexical(cwd.resolve(p), Some(cwd), os),
{
}

/// Normalising forgets `.` and forgets a name that is taken back at once.
pub proof fn law_detours_do_not_matter(a: Seq<PartView>, n: Seq<u8>, b: Seq<PartView>)
    ensures
        folded(a + seq![PartView::Here] + b) == folded(a + b),
        folded(a + seq![PartView::Name(n), PartView::Up] + b) == folded(a + b),
    decreases b.len(),
{
    if b.len() == 0 {
        let h = a + seq![PartView::Here] + b;
        assert(h.drop_last() =~= a);
        assert(a + b =~= a);
        let u = a + seq![PartView::Name(n), PartView::Up] + b;
        assert(u.drop_last() =~= a + seq![PartView::Name(n)]);
        assert((a + seq![PartView::Name(n)]).drop_last() =~= a);
        assert(folded(a + seq![PartView::Name(n)]) =~= folded(a).push(PartView::Name(n)));
        assert(folded(a).push(PartView::Name(n)).drop_last() =~= folded(a));
    } else {
        law_detours_do_not_matter(a, n, b.drop_last());
        assert((a + seq![PartView::Here] + b).drop_last() =~= a + seq![PartView::Here]
            + b.drop_last());
        assert((a + seq![PartView::Name(n), PartView::Up] + b).drop_last() =~= a
            + seq![PartView::Name(n), PartView::Up] + b.drop_last());
        assert((a + b).drop_last() =~= a + b.drop_last());
    }
}

/// A normalised path is its own normal form.
pub proof fn law_normal_form_is_stable(parts: Seq<PartView>)
    ensures
        folded(folded(parts)) == folded(parts),
    decreases parts.len(),
{
    lemma_folded_names(parts);
    lemma_names_fold_to_themselves(folded(parts));
}

proof fn lemma_folded_names(parts: Seq<PartView>)
    ensures
        forall|i: int| 0 <= i < folded(parts).len() ==> #[trigger] folded(parts)[i] is Name,
    decreases parts.len(),
{
    if parts.len() > 0 {
        lemma_folded_names(parts.drop_last());
    }
}

proof fn lemma_names_fold_to_themselves(parts: Seq<PartView>)
    requires
        forall|i: int| 0 <= i < parts.len() ==> #[trigger] parts[i] is Name,
    ensures
        folded(parts) == parts,
    decreases parts.len(),
{
    if parts.len() == 0 {
        assert(folded(parts) =~= parts);
    } else {
        assert(parts[parts.len() - 1] is Name);
        lemma_names_fold_to_themselves(parts.drop_last());
        assert(parts =~= parts.drop_last().push(parts.last()));
    }
}

// ── a key that survives the creation of what it names ────────────────────────
/// The search for the deepest part of a path that exists.
pub struct KeyWalk {
    abs: FullPath,
    dropped: usize,
}

#[verifier::ext_equal]
pub struct KeyWalkView {
    /// The normalised path.
    pub abs: FullView,
    /// How many of its last components have turned out not to exist.
    pub dropped: int,
}

impl View for KeyWalk {
    type V = KeyWalkView;

    closed spec fn view(&self) -> KeyWalkView {
        KeyWalkView { abs: self.abs@, dropped: self.dropped as int }
    }
}

impl KeyWalkView {
    /// The path to resolve next.
    pub open spec fn probe(self) -> FullView {
        FullView { parts: self.abs.parts.take(self.abs.parts.len() - self.dropped), ..self.abs }
    }

    /// The key, once the probe has resolved to `canon`: that, and the components below it.
    pub open spec fn key(self, canon: FullView) -> FullView {
        FullView {
            parts: canon.parts + self.abs.parts.skip(self.abs.parts.len() - self.dropped),
            ..canon
        }
    }

    /// What resolving the probe led to: a key, or a shorter probe.
    pub open spec fn told(
        self,
        canon: Option<FullView>,
        os: Os,
        key: Option<Seq<char>>,
        after: KeyWalkView,
    ) -> bool {
        match canon {
            Some(c) => key == Some(self.key(c).text(os)) && after == self,
            None => if self.dropped < self.abs.parts.len() {
                key is None && after == (KeyWalkView { dropped: self.dropped + 1, ..self })
            } else {
                key == Some(self.abs.text(os)) && after == self
            },
        }
    }
}

impl KeyWalk {
    pub closed spec fn wf(&self) -> bool {
        self.dropped <= self.abs.parts.len()
    }

    pub fn begin(abs: FullPath) -> (w: KeyWalk)
        ensures
            w.wf(),
            w@ == (KeyWalkView { abs: abs@, dropped: 0 }),
    {
        KeyWalk { abs, dropped: 0 }
    }

    /// The path to resolve next, links and all.
    pub fn probe(&self) -> (p: FullPath)
        requires
            self.wf(),
        ensures
            p@ == self@.probe(),
    {
        let mut p = self.abs.copy();
        let n: usize = self.abs.parts.len() - self.dropped;
        let ghost all = p@.parts;
        p.parts.truncate(n);
        assert(p@.parts =~= all.take(n as int));
        p
    }

    /// Takes the resolved form of the probe, or nothing where it does not exist. Gives the
    /// key as soon as there is one; a path of which no part can be resolved is its own key.
    pub fn answer(&mut self, canon: Option<FullPath>, os: Os) -> (key: Option<String>)
        requires
            old(self).wf(),
        ensures
            final(self).wf(),
            old(self)@.told(
                opt_view(canon),
                os,
                match key {
                    Some(t) => Some(t@),
                    None => None,
                },
                final(self)@,
            ),
    {
        match canon {
            Some(c) => {
                let mut out = c;
                let ghost start = out@.parts;
                let n: usize = self.abs.parts.len() - self.dropped;
                let mut i: usize = n;
                let ghost tail = self.abs@.parts.skip(n as int);
                assert(start + tail.take(0) =~= start);
                while i < self.abs.parts.len()
                    invariant
                        n <= i <= self.abs.parts.len(),
                        tail == self.abs@.parts.skip(n as int),
                        out@ == (FullView { parts: start + tail.take(i - n), ..canon->0@ }),
                    decreases self.abs.parts.len() - i,
                {
                    let ghost before = out@.parts;
                    out.parts.push(clone_part(&self.abs.parts[i]));
                    assert(out@.parts =~= before.push(self.abs.parts@[i as int]@));
                    assert(tail.take(i - n + 1) =~= tail.take(i - n).push(
                        self.abs.parts@[i as int]@,
                    ));
                    i += 1;
                }
                assert(tail.take(i - n) =~= tail);
                Some(out.text(os))
            },
            None => {
                if self.dropped < self.abs.parts.len() {
                    self.dropped = self.dropped + 1;
                    None
                } else {
                    Some(self.abs.text(os))
                }
            },
        }
    }
}

/// Creating a path does not change its key. Before, the deepest part that existed lay `deep`
/// components up and resolved to `canon`; afterwards a part only `high` components up exists
/// too, and resolves to the same place with the created names below it.
pub proof fn law_key_is_stable_across_creation(
    abs: FullView,
    canon: FullView,
    deep: int,
    high: int,
)
    requires
        0 <= high <= deep <= abs.parts.len(),
    ensures
        ({
            let n = abs.parts.len() as int;
            let created = FullView {
                parts: canon.parts + abs.parts.subrange(n - deep, n - high),
                ..canon
            };
            KeyWalkView { abs, dropped: deep }.key(canon) == KeyWalkView {
                abs,
                dropped: high,
            }.key(created)
        }),
{
    let n = abs.parts.len() as int;
    let created = FullView {
        parts: canon.parts + abs.parts.subrange(n - deep, n - high),
        ..canon
    };
    assert(KeyWalkView { abs, dropped: deep }.key(canon).parts =~= KeyWalkView {
        abs,
        dropped: high,
    }.key(created).parts);
}

// ── where the program keeps its own files ────────────────────────────────────
/// A candidate from the environment counts only if it is absolute: a relative one would put
/// the journal under the working directory, which may be the very drive it has to outlive.
pub open spec fn usable(p: Option<FullView>, os: Os) -> bool {
    p matches Some(q) && q.absolute(os)
}

/// The place for temporary files that every system of the kind has, should the environment
/// name none that can be used.
pub open spec fn fixed_temp(os: Os) -> FullView {
    if os is Windows {
        FullView { prefix: seq![67u8, 58u8], rooted: true, parts: Seq::empty() }.push(
            utf8::encode_utf8("Windows"@),
        ).push(utf8::encode_utf8("Temp"@))
    } else {
        FullView { prefix: Seq::empty(), rooted: true, parts: Seq::empty() }.push(
            utf8::encode_utf8("tmp"@),
        )
    }
}

/// `C:\\Windows\\Temp`, or `/tmp`.
fn fixed_temp_dir(os: Os) -> (r: FullPath)
    ensures
        r@ == fixed_temp(os),
{
    let parts: Vec<Part> = Vec::new();
    if let Os::Windows = os {
        let prefix: Vec<u8> = vec![67u8, 58u8];
        let root = FullPath { prefix, rooted: true, parts };
        assert(root@ =~= (FullView {
            prefix: seq![67u8, 58u8],
            rooted: true,
            parts: Seq::empty(),
        }));
        root.join("Windows".as_bytes()).join("Temp".as_bytes())
    } else {
        let root = FullPath { prefix: Vec::new(), rooted: true, parts };
        assert(root@ =~= (FullView { prefix: Seq::empty(), rooted: true, parts: Seq::empty() }));
        root.join("tmp".as_bytes())
    }
}

pub open spec fn config_home(
    os: Os,
    appdata: Option<FullView>,
    xdg: Option<FullView>,
    home: Option<FullView>,
    temp: FullView,
) -> FullView {
    let kevat = utf8::encode_utf8("kevat"@);
    if os is Windows && usable(appdata, os) {
        appdata->0.push(kevat)
    } else if usable(xdg, os) {
        xdg->0.push(kevat)
    } else if usable(home, os) {
        if os is Mac {
            home->0.push(utf8::encode_utf8("Library"@)).push(utf8::encode_utf8("Application Support"@)).push(
                kevat,
            )
        } else {
            home->0.push(utf8::encode_utf8(".config"@)).push(kevat)
        }
    } else if temp.absolute(os) {
        temp.push(kevat)
    } else {
        fixed_temp(os).push(kevat)
    }
}

pub open spec fn opt_view(p: Option<FullPath>) -> Option<FullView> {
    match p {
        Some(q) => Some(q@),
        None => None,
    }
}

/// The directory of the journals, the locks and the history: absolute, whatever the
/// environment holds.
pub fn config_dir(
    os: Os,
    appdata: &Option<FullPath>,
    xdg: &Option<FullPath>,
    home: &Option<FullPath>,
    temp: &FullPath,
) -> (r: FullPath)
    ensures
        r@ == config_home(os, opt_view(*appdata), opt_view(*xdg), opt_view(*home), temp@),
        r@.absolute(os),
{
    if let Os::Windows = os {
        if let Some(p) = appdata {
            if p.is_absolute(os) {
                return p.join("kevat".as_bytes());
            }
        }
    }
    if let Some(p) = xdg {
        if p.is_absolute(os) {
            return p.join("kevat".as_bytes());
        }
    }
    if let Some(p) = home {
        if p.is_absolute(os) {
            if let Os::Mac = os {
                return p.join("Library".as_bytes()).join("Application Support".as_bytes()).join(
                    "kevat".as_bytes(),
                );
            }
            return p.join(".config".as_bytes()).join("kevat".as_bytes());
        }
    }
    if temp.is_absolute(os) {
        temp.join("kevat".as_bytes())
    } else {
        fixed_temp_dir(os).join("kevat".as_bytes())
    }
}

/// The file of finished runs inside that directory.
pub fn history_path(config: &FullPath) -> (r: FullPath)
    ensures
        r@ == config@.push(utf8::encode_utf8("history.jsonl"@)),
{
    config.join("history.jsonl".as_bytes())
}

// ── texts of paths ───────────────────────────────────────────────────────────
/// The text of the entry `rel` below the directory `base`.
pub open spec fn below(base: Seq<char>, rel: Seq<char>, os: Os) -> Seq<char> {
    if base.len() == 0 || base.last() == sep(os) || (os is Windows && base.last() == '/') {
        base + rel
    } else {
        base.push(sep(os)) + rel
    }
}

pub fn below_text(base: &str, rel: &str, os: Os) -> (s: String)
    ensures
        s@ == below(base@, rel@, os),
{
    let cs = chars_of(base);
    let n = cs.len();
    let mut s = String::from_str(base);
    let bare = if n == 0 {
        true
    } else {
        let last = cs[n - 1];
        last == separator(os) || (match os {
            Os::Windows => last == '/',
            _ => false,
        })
    };
    if !bare {
        s.push(separator(os));
    }
    s.append(rel);
    s
}

/// A destination spelled with a trailing separator promises to be a directory, even before
/// it exists.
pub open spec fn dir_spelling(p: Seq<char>, os: Os) -> bool {
    p.len() > 0 && (p.last() == '/' || (os is Windows && p.last() == '\\'))
}

pub fn spelled_as_dir(p: &str, os: Os) -> (r: bool)
    ensures
        r == dir_spelling(p@, os),
{
    let cs = chars_of(p);
    let n = cs.len();
    n > 0 && (cs[n - 1] == '/' || (match os {
        Os::Windows => cs[n - 1] == '\\',
        _ => false,
    }))
}

/// Outputs in progress carry this suffix until they are renamed into place.
pub open spec fn part_suffix() -> Seq<char> {
    ".kpart"@
}

/// The name under which a file is staged until it is proven.
pub fn part_path(final_path: &str) -> (s: String)
    ensures
        s@ == final_path@ + part_suffix(),
{
    let mut s = String::from_str(final_path);
    s.append(".kpart");
    s
}

impl FullView {
    /// The path above, unless this is a root or empty.
    pub open spec fn parent(self) -> Option<FullView> {
        if self.parts.len() > 0 {
            Some(FullView { parts: self.parts.drop_last(), ..self })
        } else {
            None
        }
    }

    /// The last component, where it is a name.
    pub open spec fn file_name(self) -> Option<Seq<u8>> {
        if self.parts.len() > 0 {
            match self.parts.last() {
                PartView::Name(n) => Some(n),
                _ => None,
            }
        } else {
            None
        }
    }

    /// `base` itself, or something below it.
    pub open spec fn within(self, base: FullView) -> bool {
        self.prefix == base.prefix && self.rooted == base.rooted && base.parts.is_prefix_of(
            self.parts,
        )
    }
}

fn same_part(a: &Part, b: &Part) -> (r: bool)
    ensures
        r == (a@ == b@),
{
    match (a, b) {
        (Part::Here, Part::Here) => true,
        (Part::Up, Part::Up) => true,
        (Part::Name(x), Part::Name(y)) => same_bytes(x.as_slice(), y.as_slice()),
        _ => false,
    }
}

impl FullPath {
    pub fn parent(&self) -> (r: Option<FullPath>)
        ensures
            opt_view(r) == self@.parent(),
    {
        if self.parts.len() == 0 {
            return None;
        }
        let mut p = self.copy();
        let ghost before = p@;
        assert(p.parts@.len() == self.parts@.len()) by {
            assert(part_views(p.parts@).len() == part_views(self.parts@).len());
        }
        p.parts.pop();
        assert(part_views(p.parts@) =~= before.parts.drop_last());
        Some(p)
    }

    pub fn file_name(&self) -> (r: Option<Vec<u8>>)
        ensures
            match self@.file_name() {
                Some(n) => r is Some && r->0@ == n,
                None => r is None,
            },
    {
        if self.parts.len() == 0 {
            return None;
        }
        let last: usize = self.parts.len() - 1;
        assert(self@.parts.last() == self.parts@[last as int]@);
        match &self.parts[last] {
            Part::Name(n) => Some(clone_name(n)),
            _ => None,
        }
    }

    pub fn is_within(&self, base: &FullPath) -> (r: bool)
        ensures
            r == self@.within(base@),
    {
        if !same_bytes(self.prefix.as_slice(), base.prefix.as_slice()) || self.rooted
            != base.rooted || base.parts.len() > self.parts.len() {
            return false;
        }
        let mut i: usize = 0;
        while i < base.parts.len()
            invariant
                i <= base.parts.len() <= self.parts.len(),
                forall|k: int|
                    0 <= k < i ==> (#[trigger] base.parts@[k])@ == self.parts@[k]@,
            decreases base.parts.len() - i,
        {
            if !same_part(&base.parts[i], &self.parts[i]) {
                assert(base@.parts[i as int] != self@.parts.take(base@.parts.len() as int)[i as int]);
                return false;
            }
            i += 1;
        }
        assert(base@.parts =~= self@.parts.take(base@.parts.len() as int));
        true
    }

    pub fn is_same(&self, other: &FullPath) -> (r: bool)
        ensures
            r == (self@ == other@),
    {
        let r = self.parts.len() == other.parts.len() && self.is_within(other);
        proof {
            assert(self@.parts.len() == self.parts@.len());
            assert(other@.parts.len() == other.parts@.len());
            if r {
                assert(self@.parts =~= self@.parts.take(other@.parts.len() as int));
                assert(self@ =~= other@);
            } else if self@ == other@ {
                assert(other@.parts =~= self@.parts.take(other@.parts.len() as int));
            }
        }
        r
    }
}

/// The name to show for a place: its last component, or the whole of it where it has none.
pub open spec fn place_name(p: FullView, os: Os) -> Seq<char> {
    match p.file_name() {
        Some(n) => lossy_text(n),
        None => p.text(os),
    }
}

pub fn name_of_place(p: &FullPath, os: Os) -> (s: String)
    ensures
        s@ == place_name(p@, os),
{
    match p.file_name() {
        Some(n) => lossy(n.as_slice()),
        None => p.text(os),
    }
}

/// Where a transfer lands: a folder becomes a folder of the same name inside the chosen
/// destination, a file goes to the destination as given.
pub open spec fn landing(src: FullView, src_is_dir: bool, picked: FullView) -> FullView {
    match src.file_name() {
        Some(n) => if src_is_dir {
            picked.push(n)
        } else {
            picked
        },
        None => picked,
    }
}

pub fn effective_dst(src: &FullPath, src_is_dir: bool, picked: &FullPath) -> (r: FullPath)
    ensures
        r@ == landing(src@, src_is_dir, picked@),
{
    if src_is_dir {
        match src.file_name() {
            Some(n) => picked.join(n.as_slice()),
            None => picked.copy(),
        }
    } else {
        picked.copy()
    }
}

/// The first of `roots` that holds `path`.
pub open spec fn root_index(path: FullView, roots: Seq<FullPath>, n: int) -> Option<int>
    decreases n,
{
    if n <= 0 {
        None
    } else {
        match root_index(path, roots, n - 1) {
            Some(i) => Some(i),
            None => if path.within(roots[n - 1]@) {
                Some(n - 1)
            } else {
                None
            },
        }
    }
}

/// The root of the connected drive that `path` lies on, if it lies on one of `drives`.
pub fn removable_root_of(path: &FullPath, drives: &Vec<FullPath>) -> (r: Option<FullPath>)
    ensures
        match root_index(path@, drives@, drives@.len() as int) {
            Some(i) => 0 <= i < drives@.len() && r is Some && r->0@ == drives@[i]@,
            None => r is None,
        },
{
    let mut i: usize = 0;
    while i < drives.len()
        invariant
            i <= drives.len(),
            root_index(path@, drives@, i as int) is None,
        decreases drives.len() - i,
    {
        if path.is_within(&drives[i]) {
            proof {
                lemma_root_stays(path@, drives@, i + 1, drives@.len() as int);
            }
            return Some(drives[i].copy());
        }
        i += 1;
    }
    None
}

proof fn lemma_root_stays(path: FullView, roots: Seq<FullPath>, n: int, m: int)
    requires
        0 <= n <= m,
        root_index(path, roots, n) is Some,
    ensures
        root_index(path, roots, m) == root_index(path, roots, n),
    decreases m - n,
{
    if n < m {
        lemma_root_stays(path, roots, n, m - 1);
    }
}

/// Going up from inside a drive stays inside it, as long as the drive's root is not left: the
/// parent of everything below the root is still within.
pub proof fn law_up_stays_inside(path: FullView, root: FullView)
    requires
        path.within(root),
        path != root,
    ensures
        path.parent() is Some && path.parent()->0.within(root),
{
    if path.parts.len() == root.parts.len() {
        assert(path.parts =~= path.parts.take(root.parts.len() as int));
        assert(path =~= root);
    }
    assert(path.parts.len() >= root.parts.len());
    assert(path.parts.drop_last().take(root.parts.len() as int) =~= path.parts.take(
        root.parts.len() as int,
    ));
}

} // verus!
