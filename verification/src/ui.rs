//! The window's state: what is chosen, what a press does to it, and when a transfer may start.

use crate::browse::{Browser, Field, Taken};
use crate::browse;
use crate::engine::{OnExists, Options};
use crate::erase::{EraseState, EraseView};
use crate::erase;
use crate::hash;
use crate::journal::{Mode, Pending};
use crate::path;
use crate::path::{clone_name, effective_dst, lossy, FullPath, FullView, Os, RelPath};
use crate::scan;
use crate::scan::{Filter, FilterView};
use crate::size;
use crate::size::human;
use crate::text;
use crate::text::{decimal, hex128, same};
use crate::words;
use crate::words::{plural, shorten};
use vstd::prelude::*;
use vstd::utf8;
use xxhash_rust::xxh3::xxh3_128;

verus! {

#[derive(Clone, Copy, PartialEq, Eq, Structural)]
pub enum Screen {
    Pick,
    Running,
    Done,
    Erase,
    History,
}

/// Which way a transfer points. The field on the drive's side only takes places on external
/// drives.
#[derive(Clone, Copy, PartialEq, Eq, Structural)]
pub enum Direction {
    ToDrive,
    FromDrive,
}

pub struct Ui {
    pub screen: Screen,
    pub direction: Direction,
    pub src: Option<FullPath>,
    /// Entries of `src` that were selected together; none for an ordinary source.
    pub src_names: Vec<Vec<u8>>,
    pub on_exists: OnExists,
    /// How many files at the destination differ, and what that was counted for.
    pub conflicts: usize,
    pub conflict_key: Option<String>,
    pub dst: Option<FullPath>,
    pub mode: Mode,
    pub verify: bool,
    pub skip_caches: bool,
    pub skip_cloud: bool,
    /// Files the next run is to do without; for that run only.
    pub skip_rels: Vec<RelPath>,
    pub browser: Browser,
    pub error: Option<String>,
    pub dark: bool,
    pub eject_status: Option<Result<String, String>>,
    pub eject_busy: bool,
    pub show_about: bool,
    pub erase: EraseState,
    /// A move deletes originals: the first press arms, the second commits.
    pub move_armed: bool,
    /// The drive that was filled in without being asked for.
    pub auto_dst: Option<FullPath>,
    pub pending: Vec<Pending>,
    /// `dst` is where the run writes, no folder to be derived from it.
    pub exact_dst: bool,
    pub pending_armed: bool,
}

pub open spec fn opt_text(s: Option<String>) -> Option<Seq<char>> {
    match s {
        Some(t) => Some(t@),
        None => None,
    }
}

fn copy_path(p: &Option<FullPath>) -> (r: Option<FullPath>)
    ensures
        path::opt_view(r) == path::opt_view(*p),
{
    match p {
        Some(q) => Some(q.copy()),
        None => None,
    }
}

fn same_path(a: &Option<FullPath>, b: &Option<FullPath>) -> (r: bool)
    ensures
        r == (path::opt_view(*a) == path::opt_view(*b)),
{
    match (a, b) {
        (Some(x), Some(y)) => x.is_same(y),
        (None, None) => true,
        _ => false,
    }
}

fn copy_names(v: &Vec<Vec<u8>>) -> (r: Vec<Vec<u8>>)
    ensures
        path::names(r@) == path::names(v@),
{
    let mut r: Vec<Vec<u8>> = Vec::new();
    let mut i: usize = 0;
    assert(path::names(r@) =~= path::names(v@).take(0));
    while i < v.len()
        invariant
            i <= v.len(),
            path::names(r@) == path::names(v@).take(i as int),
        decreases v.len() - i,
    {
        let ghost before = path::names(r@);
        r.push(clone_name(&v[i]));
        assert(path::names(r@) =~= before.push(v@[i as int]@));
        assert(path::names(v@).take(i + 1) =~= path::names(v@).take(i as int).push(v@[i as int]@));
        i += 1;
    }
    assert(path::names(v@).take(i as int) =~= path::names(v@));
    r
}

/// The field on the drive's side.
pub open spec fn drive_side(d: Direction) -> Field {
    match d {
        Direction::ToDrive => Field::Dest,
        Direction::FromDrive => Field::Source,
    }
}

impl Ui {
    /// What the drive-side field holds.
    pub open spec fn on_drive_side(self) -> Option<FullView> {
        match drive_side(self.direction) {
            Field::Dest => path::opt_view(self.dst),
            Field::Source => path::opt_view(self.src),
        }
    }

    /// Both ends are chosen, and they are not the same.
    pub open spec fn ready(self) -> bool {
        self.src is Some && self.dst is Some && path::opt_view(self.src) != path::opt_view(self.dst)
    }

    /// Where the run would write.
    pub open spec fn lands(self, src_is_dir: bool) -> FullView {
        if self.exact_dst || self.src_names@.len() > 0 {
            self.dst->0@
        } else {
            path::landing(self.src->0@, src_is_dir, self.dst->0@)
        }
    }
}

/// Turning round voids everything that the two fields mean differently the other way.
pub open spec fn turned(before: Ui, after: Ui, dir: Direction) -> bool {
    if before.direction == dir {
        after == before
    } else {
        &&& after == Ui {
            direction: dir,
            src: None,
            src_names: after.src_names,
            dst: None,
            skip_rels: after.skip_rels,
            auto_dst: None,
            move_armed: false,
            exact_dst: false,
            error: None,
            browser: Browser {
                open_for: None,
                drive_root: None,
                locked: drive_side(dir),
                ..before.browser
            },
            ..before
        }
        &&& after.src_names@.len() == 0
        &&& after.skip_rels@.len() == 0
    }
}

// ── starting ─────────────────────────────────────────────────────────────────
/// What the disk says at the moment of the start.
#[derive(Clone, Copy)]
pub struct StartFacts {
    pub src_exists: bool,
    pub src_is_dir: bool,
    pub dst_exists: bool,
    /// The folder around the destination exists, and lies on a connected drive.
    pub parent_exists: bool,
    pub parent_on_drive: bool,
    /// These lie on a drive, connected or by their place.
    pub src_on_drive: bool,
    pub dst_on_drive: bool,
}

pub open spec fn gone_text(on_drive: bool) -> Seq<char> {
    if on_drive {
        "That drive isn't connected any more — plug it back in and try again."@
    } else {
        "That folder no longer exists — pick it again."@
    }
}

/// The destination is there. One that a journal named need not exist itself; then the folder
/// around it must, and it must lie on a connected drive unless the drive is the source.
pub open spec fn destination_present(u: Ui, f: StartFacts) -> bool {
    f.dst_exists || (u.exact_dst && u.dst->0@.parent() is Some && f.parent_exists && (u.direction
        == Direction::FromDrive || f.parent_on_drive))
}

/// Why a start is refused, if it is.
pub open spec fn start_refusal(u: Ui, f: StartFacts) -> Option<Seq<char>> {
    if !destination_present(u, f) {
        Some(gone_text(f.dst_on_drive))
    } else if u.eject_busy {
        Some("The drive is still being removed — wait a moment."@)
    } else if !f.src_exists {
        Some(gone_text(f.src_on_drive))
    } else {
        None
    }
}

/// A run that was started.
pub struct Start {
    pub src: FullPath,
    pub dst: FullPath,
    pub names: Vec<Vec<u8>>,
    pub filter: Filter,
    pub skip_rels: Vec<RelPath>,
    pub opts: Options,
}

/// The names as text, each closed by a zero.
pub open spec fn tag_text(names: Seq<Seq<u8>>) -> Seq<char>
    decreases names.len(),
{
    if names.len() == 0 {
        Seq::empty()
    } else {
        tag_text(names.drop_last()) + path::lossy_text(names.last()) + seq!['\0']
    }
}

/// Two selections in one folder share that folder as their source; this tells them apart.
pub open spec fn selection_tag(names: Seq<Seq<u8>>) -> Option<Seq<char>> {
    if names.len() == 0 {
        None
    } else {
        Some(text::hex(hash::xxh3_of(utf8::encode_utf8(tag_text(names))) as nat, 32))
    }
}

/// The filter that the two choices describe.
pub open spec fn chosen_filter(skip_caches: bool, skip_cloud: bool) -> FilterView {
    FilterView {
        names: if skip_caches {
            scan::cache_names()
        } else {
            Seq::empty()
        },
        prefixes: if skip_cloud {
            scan::cloud_prefixes()
        } else {
            Seq::empty()
        },
    }
}

/// `s` is the run that the state describes.
pub open spec fn starts_as(s: Start, u: Ui, f: StartFacts) -> bool {
    &&& Some(s.src@) == path::opt_view(u.src)
    &&& s.dst@ == u.lands(f.src_is_dir)
    &&& path::names(s.names@) == path::names(u.src_names@)
    &&& s.filter@ == chosen_filter(u.skip_caches, u.skip_cloud)
    &&& s.skip_rels == u.skip_rels
    &&& s.opts.mode == u.mode
    &&& s.opts.on_exists == u.on_exists
    &&& s.opts.verify == (u.verify || u.exact_dst)
    &&& opt_text(s.opts.job_tag) == selection_tag(path::names(u.src_names@))
    &&& !s.opts.paranoid
    &&& !s.opts.dry_run
    &&& text::texts(s.opts.selection@) == path::names(u.src_names@).map_values(
        |n: Seq<u8>| path::lossy_text(n),
    )
    &&& s.opts.skip_caches == u.skip_caches
    &&& s.opts.skip_cloud == u.skip_cloud
}

fn gone(on_drive: bool) -> (s: String)
    ensures
        s@ == gone_text(on_drive),
{
    if on_drive {
        String::from_str("That drive isn't connected any more — plug it back in and try again.")
    } else {
        String::from_str("That folder no longer exists — pick it again.")
    }
}

fn tag_of(names: &Vec<Vec<u8>>) -> (r: Option<String>)
    ensures
        opt_text(r) == selection_tag(path::names(names@)),
{
    if names.len() == 0 {
        return None;
    }
    let ghost all = path::names(names@);
    let mut key = String::new();
    let mut i: usize = 0;
    assert(key@ =~= tag_text(all.take(0)));
    while i < names.len()
        invariant
            i <= names.len(),
            all == path::names(names@),
            key@ == tag_text(all.take(i as int)),
        decreases names.len() - i,
    {
        let ghost k0 = key@;
        key.append(lossy(names[i].as_slice()).as_str());
        key.push('\0');
        assert(all[i as int] == names@[i as int]@);
        assert(all.take(i + 1).drop_last() =~= all.take(i as int));
        assert(all.take(i + 1).last() == all[i as int]);
        assert(key@ =~= k0 + path::lossy_text(all[i as int]) + seq!['\0']);
        i += 1;
    }
    assert(all.take(i as int) =~= all);
    Some(hex128(xxh3_128(key.as_str().as_bytes())))
}

fn texts_of(names: &Vec<Vec<u8>>) -> (r: Vec<String>)
    ensures
        text::texts(r@) == path::names(names@).map_values(|n: Seq<u8>| path::lossy_text(n)),
{
    let ghost all = path::names(names@).map_values(|n: Seq<u8>| path::lossy_text(n));
    let mut r: Vec<String> = Vec::new();
    let mut i: usize = 0;
    assert(text::texts(r@) =~= all.take(0));
    while i < names.len()
        invariant
            i <= names.len(),
            all == path::names(names@).map_values(|n: Seq<u8>| path::lossy_text(n)),
            text::texts(r@) == all.take(i as int),
        decreases names.len() - i,
    {
        let ghost r0 = text::texts(r@);
        let t = lossy(names[i].as_slice());
        let ghost tv = t@;
        r.push(t);
        assert(text::texts(r@) =~= r0.push(tv));
        assert(all.take(i + 1) =~= all.take(i as int).push(all[i as int]));
        i += 1;
    }
    assert(all.take(i as int) =~= all);
    r
}

impl Ui {
    #[verifier::spinoff_prover]
    pub fn new(dark: bool, home: FullPath, pending: Vec<Pending>) -> (u: Ui)
        ensures
            u.screen == Screen::Pick,
            u.direction == Direction::ToDrive,
            u.src is None && u.dst is None && u.auto_dst is None,
            u.src_names@.len() == 0 && u.skip_rels@.len() == 0,
            u.on_exists == OnExists::Replace,
            u.conflicts == 0 && u.conflict_key is None,
            u.mode == Mode::Copy,
            !u.verify && !u.skip_caches && !u.skip_cloud,
            u.browser.wf() && u.browser.cwd == home && u.browser.open_for is None
                && u.browser.locked == Field::Dest,
            u.error is None && u.eject_status is None && !u.eject_busy,
            u.dark == dark,
            !u.show_about && !u.move_armed && !u.exact_dst && !u.pending_armed,
            u.pending == pending,
            u.erase@.drives.len() == 0 && u.erase.selected is None,
    {
        Ui {
            screen: Screen::Pick,
            direction: Direction::ToDrive,
            src: None,
            src_names: Vec::new(),
            on_exists: OnExists::Replace,
            conflicts: 0,
            conflict_key: None,
            dst: None,
            mode: Mode::Copy,
            verify: false,
            skip_caches: false,
            skip_cloud: false,
            skip_rels: Vec::new(),
            browser: Browser::new(home),
            error: None,
            dark,
            eject_status: None,
            eject_busy: false,
            show_about: false,
            erase: EraseState::open(Vec::new()),
            move_armed: false,
            auto_dst: None,
            pending,
            exact_dst: false,
            pending_armed: false,
        }
    }

    /// What the scan leaves out: the same for the run and for the count of conflicts.
    pub fn scan_filter(&self) -> (f: Filter)
        ensures
            f@ == chosen_filter(self.skip_caches, self.skip_cloud),
    {
        let mut f = if self.skip_caches {
            Filter::caches()
        } else {
            Filter::none()
        };
        if self.skip_cloud {
            f.add_cloud();
        }
        assert(f@ =~= chosen_filter(self.skip_caches, self.skip_cloud));
        f
    }

    pub fn locked_field(&self) -> (f: Field)
        ensures
            f == drive_side(self.direction),
    {
        match self.direction {
            Direction::ToDrive => Field::Dest,
            Direction::FromDrive => Field::Source,
        }
    }

    pub fn set_direction(&mut self, dir: Direction)
        ensures
            turned(*old(self), *final(self), dir),
    {
        if self.direction == dir {
            return;
        }
        self.direction = dir;
        self.src = None;
        self.src_names = Vec::new();
        self.dst = None;
        self.skip_rels = Vec::new();
        self.auto_dst = None;
        self.move_armed = false;
        self.exact_dst = false;
        self.error = None;
        self.browser.open_for = None;
        self.browser.drive_root = None;
        self.browser.locked = self.locked_field();
    }

    /// Starts the transfer that is described, or says why not. Nothing has been written yet.
    #[verifier::spinoff_prover]
    pub fn start(&mut self, f: StartFacts) -> (r: Option<Start>)
        ensures
            ({
                let u = *old(self);
                if u.src is None || u.dst is None {
                    r is None && *final(self) == u
                } else {
                    match start_refusal(u, f) {
                        Some(why) => r is None && opt_text(final(self).error) == Some(why)
                            && *final(self) == (Ui { error: final(self).error, ..u }),
                        None => r is Some && starts_as(r->0, u, f)
                            && final(self).skip_rels@.len() == 0 && *final(self) == (Ui {
                            error: None,
                            eject_status: None,
                            screen: Screen::Running,
                            skip_rels: final(self).skip_rels,
                            ..u
                        }),
                    }
                }
            }),
    {
        let (src, picked) = match (copy_path(&self.src), copy_path(&self.dst)) {
            (Some(s), Some(d)) => (s, d),
            _ => {
                return None;
            },
        };
        let parent_ok = picked.parent().is_some() && f.parent_exists && (self.direction
            == Direction::FromDrive || f.parent_on_drive);
        if !(f.dst_exists || (self.exact_dst && parent_ok)) {
            self.error = Some(gone(f.dst_on_drive));
            return None;
        }
        if self.eject_busy {
            self.error = Some(
                String::from_str("The drive is still being removed — wait a moment."),
            );
            return None;
        }
        if !f.src_exists {
            self.error = Some(gone(f.src_on_drive));
            return None;
        }
        let names = copy_names(&self.src_names);
        assert(path::names(names@).len() == path::names(self.src_names@).len());
        let dst = if self.exact_dst || names.len() > 0 {
            picked
        } else {
            effective_dst(&src, f.src_is_dir, &picked)
        };
        self.error = None;
        self.eject_status = None;
        self.screen = Screen::Running;
        let filter = self.scan_filter();
        let mut skip_rels: Vec<RelPath> = Vec::new();
        std::mem::swap(&mut skip_rels, &mut self.skip_rels);
        let opts = Options {
            mode: self.mode,
            on_exists: self.on_exists,
            job_tag: tag_of(&names),
            verify: self.verify || self.exact_dst,
            paranoid: false,
            dry_run: false,
            selection: texts_of(&names),
            skip_caches: self.skip_caches,
            skip_cloud: self.skip_cloud,
        };
        Some(Start { src, dst, names, filter, skip_rels, opts })
    }

    // ── keys, drops and the header ───────────────────────────────────────────
    /// Escape undoes one step: the innermost thing that is open.
    pub fn escape(&mut self)
        requires
            old(self).browser.wf(),
        ensures
            final(self).browser.wf(),
            escaped(*old(self), *final(self)),
    {
        if self.show_about {
            self.show_about = false;
        } else if self.browser.new_folder.is_some() {
            self.browser.new_folder = None;
        } else if !self.browser.picked.is_empty() {
            self.browser.clear_selection();
        } else if self.browser.open_for.is_some() {
            self.browser.open_for = None;
        } else if self.screen == Screen::Erase {
            self.screen = Screen::Pick;
        } else if self.move_armed {
            self.move_armed = false;
        }
    }

    /// Enter starts a copy that is ready on the pick screen. A move always takes its two
    /// presses.
    pub fn enter_starts(&self) -> (r: bool)
        ensures
            r == enters(*self),
    {
        !self.show_about && self.screen == Screen::Pick && self.browser.open_for.is_none()
            && self.mode == Mode::Copy && self.is_ready()
    }

    pub fn is_ready(&self) -> (r: bool)
        ensures
            r == self.ready(),
    {
        self.src.is_some() && self.dst.is_some() && !same_path(&self.src, &self.dst)
    }

    /// Both fields hold the same place.
    pub fn same_place(&self) -> (r: bool)
        ensures
            r == onto_itself(*self),
    {
        self.src.is_some() && same_path(&self.src, &self.dst)
    }

    /// A file or folder was dropped on the window: on the pick screen it becomes the source. One
    /// that lies on no drive can only be meant for the way to a drive.
    pub fn dropped(&mut self, p: FullPath, on_drive: bool)
        ensures
            ({
                let u = *old(self);
                if u.screen != Screen::Pick {
                    *final(self) == u
                } else if u.direction == Direction::FromDrive && !on_drive {
                    exists|w: Ui|
                        turned(u, w, Direction::ToDrive) && #[trigger] took_source(
                            w,
                            *final(self),
                            p,
                        )
                } else {
                    took_source(u, *final(self), p)
                }
            }),
    {
        if self.screen == Screen::Pick {
            if self.direction == Direction::FromDrive && !on_drive {
                self.set_direction(Direction::ToDrive);
            }
            let ghost w = *self;
            self.commit_single(p);
            assert(took_source(w, *self, p));
        }
    }

    /// Takes one path as the source and closes the browser. What was armed or derived for the
    /// old source is void.
    pub fn commit_single(&mut self, p: FullPath)
        ensures
            took_source(*old(self), *final(self), p),
    {
        self.src = Some(p);
        self.src_names = Vec::new();
        self.move_armed = false;
        self.exact_dst = false;
        self.browser.open_for = None;
    }

    /// The button of the browser.
    pub fn commit(&mut self, which: Field)
        ensures
            which == Field::Source ==> committed_source(*old(self), *final(self)),
            which == Field::Dest ==> committed_dest(*old(self), *final(self)),
    {
        match which {
            Field::Source => self.commit_source(),
            Field::Dest => self.commit_dest(),
        }
    }

    fn commit_source(&mut self)
        ensures
            committed_source(*old(self), *final(self)),
    {
        let taken = self.browser.take();
        match taken {
            Taken::One(p) => {
                self.src = Some(p);
                self.src_names = Vec::new();
            },
            Taken::Several { folder, names } => {
                self.src = Some(folder);
                self.src_names = names;
            },
        }
        self.exact_dst = false;
        self.move_armed = false;
        self.browser.open_for = None;
    }

    fn commit_dest(&mut self)
        ensures
            committed_dest(*old(self), *final(self)),
    {
        self.dst = Some(self.browser.cwd.copy());
        self.exact_dst = false;
        self.auto_dst = None;
        self.move_armed = false;
        self.browser.open_for = None;
    }

    pub fn toggle_dark(&mut self)
        ensures
            *final(self) == (Ui { dark: !old(self).dark, ..*old(self) }),
    {
        self.dark = !self.dark;
    }

    pub fn toggle_about(&mut self)
        ensures
            *final(self) == (Ui { show_about: !old(self).show_about, ..*old(self) }),
    {
        self.show_about = !self.show_about;
    }

    /// The ways to other screens are shown, except over a running transfer or a running eject.
    pub fn shows_chips(&self) -> (r: bool)
        ensures
            r == (self.screen != Screen::Running && !self.show_about && !self.eject_busy),
    {
        self.screen != Screen::Running && !self.show_about && !self.eject_busy
    }

    pub fn open_erase(&mut self, drives: Vec<erase::DriveInfo>)
        ensures
            *final(self) == (Ui {
                screen: Screen::Erase,
                erase: final(self).erase,
                ..*old(self)
            }),
            final(self).erase@ == (EraseView {
                drives: erase::info_views(drives@),
                selected: None,
                fs: None,
                confirm: Seq::empty(),
                status: None,
            }),
    {
        self.erase = EraseState::open(drives);
        self.screen = Screen::Erase;
    }

    /// Opens the history, or goes back from it; says whether it has to be read.
    pub fn toggle_history(&mut self) -> (read: bool)
        ensures
            read == (old(self).screen != Screen::History),
            *final(self) == (Ui {
                screen: if read {
                    Screen::History
                } else {
                    Screen::Pick
                },
                ..*old(self)
            }),
    {
        if self.screen == Screen::History {
            self.screen = Screen::Pick;
            false
        } else {
            self.screen = Screen::History;
            true
        }
    }

    pub fn leave_erase(&mut self)
        ensures
            *final(self) == (Ui { screen: Screen::Pick, ..*old(self) }),
    {
        self.screen = Screen::Pick;
    }

    // ── the pick screen ──────────────────────────────────────────────────────
    /// The browser's notion of the drive-side field follows the direction.
    pub fn sync_locked(&mut self)
        ensures
            *final(self) == (Ui {
                browser: Browser { locked: drive_side(old(self).direction), ..old(self).browser },
                ..*old(self)
            }),
    {
        self.browser.locked = self.locked_field();
    }

    /// Puts a drive into the drive-side field.
    pub fn use_drive(&mut self, d: &FullPath)
        ensures
            final(self).on_drive_side() == Some(d@),
            *final(self) == (match drive_side(old(self).direction) {
                Field::Dest => Ui {
                    dst: final(self).dst,
                    exact_dst: false,
                    move_armed: false,
                    ..*old(self)
                },
                Field::Source => Ui { src: final(self).src, move_armed: false, ..*old(self) },
            }),
    {
        match self.direction {
            Direction::ToDrive => {
                self.dst = Some(d.copy());
                self.exact_dst = false;
            },
            Direction::FromDrive => {
                self.src = Some(d.copy());
            },
        }
        self.move_armed = false;
    }

    /// One drive is connected and nothing chosen: fill it in, once for each drive. Says whether
    /// the drives have to be offered.
    #[verifier::spinoff_prover]
    pub fn auto_fill(&mut self, drives: &Vec<FullPath>) -> (offer: bool)
        ensures
            ({
                let u = *old(self);
                let fill = fills(u, drives@);
                &&& !fill ==> *final(self) == u
                &&& fill ==> {
                    &&& final(self).on_drive_side() == Some(drives@[0]@)
                    &&& path::opt_view(final(self).auto_dst) == Some(drives@[0]@)
                    &&& *final(self) == (match drive_side(u.direction) {
                        Field::Dest => Ui {
                            dst: final(self).dst,
                            exact_dst: false,
                            auto_dst: final(self).auto_dst,
                            move_armed: false,
                            ..u
                        },
                        Field::Source => Ui {
                            src: final(self).src,
                            auto_dst: final(self).auto_dst,
                            move_armed: false,
                            ..u
                        },
                    })
                }
                &&& offer == (final(self).on_drive_side() is None)
            }),
    {
        let empty = match self.direction {
            Direction::ToDrive => self.dst.is_none(),
            Direction::FromDrive => self.src.is_none(),
        };
        if !empty {
            return false;
        }
        if drives.len() == 1 {
            let seen = match &self.auto_dst {
                Some(a) => a.is_same(&drives[0]),
                None => false,
            };
            if !seen {
                self.use_drive(&drives[0]);
                self.auto_dst = Some(drives[0].copy());
                return false;
            }
        }
        true
    }

    /// The drive-side field still holds what was filled in unasked.
    pub fn auto_filled(&self) -> (r: bool)
        ensures
            r == offered(*self),
    {
        self.auto_dst.is_some() && (match self.direction {
            Direction::ToDrive => same_path(&self.auto_dst, &self.dst),
            Direction::FromDrive => same_path(&self.auto_dst, &self.src),
        })
    }

    /// A source on a drive, with no destination chosen by hand, looks like the other way round.
    pub fn suggests_turn(&self, src_on_drive: bool) -> (r: bool)
        ensures
            r == wrong_way(*self, src_on_drive),
    {
        self.direction == Direction::ToDrive && self.src.is_some() && src_on_drive && (
        self.dst.is_none() || same_path(&self.dst, &self.auto_dst))
    }

    /// Turns round and keeps the source, which is what was meant.
    pub fn turn_keeping_source(&mut self)
        ensures
            path::opt_view(final(self).src) == path::opt_view(old(self).src),
            exists|w: Ui| #[trigger]
                turned(*old(self), w, Direction::FromDrive) && *final(self) == (Ui {
                    src: final(self).src,
                    ..w
                }),
    {
        let keep = copy_path(&self.src);
        self.set_direction(Direction::FromDrive);
        let ghost w = *self;
        self.src = keep;
        assert(turned(*old(self), w, Direction::FromDrive));
    }

    /// The name of the folder that the transfer makes inside the destination, where it makes one.
    pub fn new_folder_name(&self, src_is_dir: bool) -> (r: Option<String>)
        ensures
            match self.src {
                Some(s) => if self.dst is Some && src_is_dir && self.src_names@.len() == 0 {
                    opt_text(r) == (match s@.file_name() {
                        Some(n) => Some(path::lossy_text(n)),
                        None => None,
                    })
                } else {
                    r is None
                },
                None => r is None,
            },
    {
        match &self.src {
            Some(s) => {
                if self.dst.is_some() && src_is_dir && self.src_names.len() == 0 {
                    match s.file_name() {
                        Some(n) => Some(lossy(n.as_slice())),
                        None => None,
                    }
                } else {
                    None
                }
            },
            None => None,
        }
    }

    /// Where the transfer would write, where both ends are chosen.
    pub fn landed(&self, src_is_dir: bool) -> (r: Option<FullPath>)
        ensures
            path::opt_view(r) == (if self.src is Some && self.dst is Some {
                Some(self.lands(src_is_dir))
            } else {
                None
            }),
    {
        match (&self.src, &self.dst) {
            (Some(s), Some(d)) => {
                if self.exact_dst || self.src_names.len() > 0 {
                    Some(d.copy())
                } else {
                    Some(effective_dst(s, src_is_dir, d))
                }
            },
            _ => None,
        }
    }

    /// The count of conflicts holds no longer once anything it was made for changes: this text
    /// tells what it is made for. Says whether it has to be made.
    #[verifier::spinoff_prover]
    pub fn wants_conflicts(&mut self, src_is_dir: bool, os: Os) -> (count: bool)
        ensures
            ({
                let u = *old(self);
                if u.src is Some && u.dst is Some {
                    let key = conflict_text(u, src_is_dir, os);
                    count == (opt_text(u.conflict_key) != Some(key)) && opt_text(
                        final(self).conflict_key,
                    ) == Some(key) && *final(self) == (Ui {
                        conflict_key: final(self).conflict_key,
                        ..u
                    })
                } else {
                    !count && *final(self) == (Ui { conflict_key: None, conflicts: 0, ..u })
                }
            }),
    {
        let (src, to) = match (&self.src, self.landed(src_is_dir)) {
            (Some(s), Some(d)) => (s, d),
            _ => {
                self.conflict_key = None;
                self.conflicts = 0;
                return false;
            },
        };
        let mut key = src.text(os);
        key.push('\0');
        key.append(to.text(os).as_str());
        key.push('\0');
        key.push(
            if self.skip_caches {
                '1'
            } else {
                '0'
            },
        );
        key.push(
            if self.skip_cloud {
                '1'
            } else {
                '0'
            },
        );
        let ghost head = key@;
        assert(head =~= conflict_head(*self, src_is_dir, os));
        let ghost all = path::names(self.src_names@);
        let mut i: usize = 0;
        assert(head + names_tail(all.take(0)) =~= head);
        while i < self.src_names.len()
            invariant
                i <= self.src_names.len(),
                all == path::names(self.src_names@),
                key@ == head + names_tail(all.take(i as int)),
            decreases self.src_names.len() - i,
        {
            key.push('\0');
            key.append(lossy(self.src_names[i].as_slice()).as_str());
            assert(all[i as int] == self.src_names@[i as int]@);
            assert(all.take(i + 1).drop_last() =~= all.take(i as int));
            assert(all.take(i + 1).last() == all[i as int]);
            assert(key@ =~= head + names_tail(all.take(i + 1)));
            i += 1;
        }
        assert(all.take(i as int) =~= all);
        let known = match &self.conflict_key {
            Some(k) => same(k.as_str(), key.as_str()),
            None => false,
        };
        self.conflict_key = Some(key);
        !known
    }

    /// The count was made.
    pub fn set_conflicts(&mut self, n: usize)
        ensures
            *final(self) == (Ui { conflicts: n, ..*old(self) }),
    {
        self.conflicts = n;
    }

    pub fn set_on_exists(&mut self, on_exists: OnExists)
        ensures
            *final(self) == with_existing(*old(self), on_exists),
    {
        self.on_exists = on_exists;
        self.move_armed = false;
    }

    /// Chooses copy or move; checking what was written is the default of a move.
    pub fn set_mode(&mut self, mode: Mode)
        ensures
            *final(self) == with_mode(*old(self), mode),
    {
        self.mode = mode;
        self.verify = match mode {
            Mode::Move => true,
            Mode::Copy => false,
        };
        self.move_armed = false;
    }

    pub fn set_verify(&mut self, verify: bool)
        ensures
            *final(self) == with_verify(*old(self), verify),
    {
        self.verify = verify;
        self.move_armed = false;
    }

    pub fn set_skip_caches(&mut self, skip_caches: bool)
        ensures
            *final(self) == with_caches(*old(self), skip_caches),
    {
        self.skip_caches = skip_caches;
        self.move_armed = false;
        self.conflict_key = None;
    }

    pub fn set_skip_cloud(&mut self, skip_cloud: bool)
        ensures
            *final(self) == with_cloud(*old(self), skip_cloud),
    {
        self.skip_cloud = skip_cloud;
        self.move_armed = false;
        self.conflict_key = None;
    }

    /// The start button: a copy begins; a move is armed by the first press and begins with the
    /// second. Says whether it begins.
    pub fn press_start(&mut self) -> (begin: bool)
        ensures
            ({
                let u = *old(self);
                if !u.ready() {
                    !begin && *final(self) == u
                } else if u.mode == Mode::Copy {
                    begin && *final(self) == u
                } else if !u.move_armed {
                    !begin && *final(self) == (Ui { move_armed: true, ..u })
                } else {
                    begin && *final(self) == (Ui { move_armed: false, ..u })
                }
            }),
            begin == begins(*old(self)),
            *final(self) == pressed(*old(self)),
    {
        if !self.is_ready() {
            return false;
        }
        match self.mode {
            Mode::Copy => true,
            Mode::Move => {
                if self.move_armed {
                    self.move_armed = false;
                    true
                } else {
                    self.move_armed = true;
                    false
                }
            },
        }
    }

    pub fn disarm(&mut self)
        ensures
            *final(self) == (Ui { move_armed: false, ..*old(self) }),
    {
        self.move_armed = false;
    }

    // ── going on ─────────────────────────────────────────────────────────────
    /// The button of the card: arms where going on needs two presses, else sets everything up
    /// as the interrupted job was. `src` and `dst` are the paths that its journal names. Says
    /// whether it begins.
    #[verifier::spinoff_prover]
    pub fn press_continue(
        &mut self,
        f: CardFacts,
        src: FullPath,
        dst: FullPath,
        names: Vec<Vec<u8>>,
    ) -> (begin: bool)
        requires
            old(self).pending@.len() > 0,
        ensures
            pressed_on(*old(self), *final(self), f, src, dst, names, begin),
    {
        let card = Card::of(&self.pending[0], f);
        if !card.ready {
            return false;
        }
        if card.needs_arm && !self.pending_armed {
            self.pending_armed = true;
            return false;
        }
        let job = self.pending.remove(0);
        self.pending_armed = false;
        self.direction = if !f.dst_removable && f.src_removable {
            Direction::FromDrive
        } else {
            Direction::ToDrive
        };
        self.browser.locked = self.locked_field();
        self.src = Some(src);
        self.src_names = names;
        self.skip_caches = job.skip_caches;
        self.skip_cloud = job.skip_cloud;
        self.dst = Some(dst);
        self.exact_dst = true;
        self.mode = job.mode;
        self.verify = match job.mode {
            Mode::Move => true,
            Mode::Copy => false,
        };
        self.move_armed = false;
        self.auto_dst = None;
        true
    }

    /// Hides the offer until the next launch; the journal stays.
    pub fn not_now(&mut self)
        requires
            old(self).pending@.len() > 0,
        ensures
            final(self).pending@ == old(self).pending@.remove(0),
            *final(self) == (Ui {
                pending_armed: false,
                pending: final(self).pending,
                ..*old(self)
            }),
    {
        self.pending_armed = false;
        let _ = self.pending.remove(0);
    }

    // ── after a run ──────────────────────────────────────────────────────────
    /// The transfer is over.
    pub fn finished(&mut self)
        ensures
            *final(self) == (Ui { screen: Screen::Done, ..*old(self) }),
    {
        self.screen = Screen::Done;
    }

    /// The next run is to do without these files.
    pub fn finish_without(&mut self, files: Vec<RelPath>)
        ensures
            *final(self) == (Ui { skip_rels: files, ..*old(self) }),
    {
        self.skip_rels = files;
    }

    pub fn eject_began(&mut self)
        ensures
            *final(self) == (Ui { eject_busy: true, eject_status: None, ..*old(self) }),
    {
        self.eject_busy = true;
        self.eject_status = None;
    }

    pub fn eject_ended(&mut self, r: Result<String, String>)
        ensures
            *final(self) == (Ui { eject_busy: false, eject_status: Some(r), ..*old(self) }),
    {
        self.eject_busy = false;
        self.eject_status = Some(r);
    }

    /// The eject button is shown: not while one runs, and not after one went well.
    pub fn may_eject(&self) -> (r: bool)
        ensures
            r == ejectable(*self),
    {
        !self.eject_busy && !(match &self.eject_status {
            Some(Ok(_)) => true,
            _ => false,
        })
    }

    /// Back to choosing, unless an eject is still running.
    pub fn again(&mut self)
        ensures
            began_again(*old(self), *final(self)),
    {
        if self.eject_busy {
            return;
        }
        self.screen = Screen::Pick;
        self.eject_status = None;
        self.skip_rels = Vec::new();
        self.exact_dst = false;
    }
}

/// Escape led from one state to the other: it closes what lies on top, and only that.
pub open spec fn escaped(u: Ui, v: Ui) -> bool {
    if u.show_about {
        v == (Ui { show_about: false, ..u })
    } else if u.browser.new_folder is Some {
        v == (Ui { browser: Browser { new_folder: None, ..u.browser }, ..u })
    } else if u.browser.picked@ != Set::<Seq<u8>>::empty() {
        v.browser.only_selection(&u.browser) && v.browser.picked@ == Set::<Seq<u8>>::empty()
            && v.browser.anchor is None && v == (Ui { browser: v.browser, ..u })
    } else if u.browser.open_for is Some {
        v == (Ui { browser: Browser { open_for: None, ..u.browser }, ..u })
    } else if u.screen == Screen::Erase {
        v == (Ui { screen: Screen::Pick, ..u })
    } else {
        v == (Ui { move_armed: false, ..u })
    }
}

/// The only drive there is is put in the empty field on the side of the drive, once.
pub open spec fn fills(u: Ui, drives: Seq<FullPath>) -> bool {
    u.on_drive_side() is None && drives.len() == 1 && path::opt_view(u.auto_dst) != Some(
        drives[0]@,
    )
}

/// The source lies on a drive while copying goes to one, and no other destination was chosen.
pub open spec fn wrong_way(u: Ui, src_on_drive: bool) -> bool {
    u.direction == Direction::ToDrive && u.src is Some && src_on_drive && (u.dst is None
        || path::opt_view(u.dst) == path::opt_view(u.auto_dst))
}

/// Source and destination are one.
pub open spec fn onto_itself(u: Ui) -> bool {
    u.src is Some && path::opt_view(u.src) == path::opt_view(u.dst)
}

/// What stands on the side of the drive was put there unasked.
pub open spec fn offered(u: Ui) -> bool {
    u.auto_dst is Some && path::opt_view(u.auto_dst) == u.on_drive_side()
}

/// A press on the button of a card led from one state to the other, and began the job or not.
pub open spec fn pressed_on(
    u: Ui,
    v: Ui,
    f: CardFacts,
    src: FullPath,
    dst: FullPath,
    names: Vec<Vec<u8>>,
    begin: bool,
) -> bool {
    let job = u.pending@[0];
    if !card_ready(job, f) {
        !begin && v == u
    } else if card_arms(job, f) && !u.pending_armed {
        !begin && v == (Ui { pending_armed: true, ..u })
    } else {
        begin && v.pending@ == u.pending@.remove(0) && v == resumed(
            u,
            job,
            f,
            src,
            dst,
            names,
            v.pending,
        )
    }
}

/// Back to choosing, which waits for a drive that is on its way out.
pub open spec fn began_again(u: Ui, v: Ui) -> bool {
    &&& u.eject_busy ==> v == u
    &&& !u.eject_busy ==> v.skip_rels@.len() == 0 && v == (Ui {
        screen: Screen::Pick,
        eject_status: None,
        skip_rels: v.skip_rels,
        exact_dst: false,
        ..u
    })
}

/// The line about files that are there and differ.
pub open spec fn conflict_line(n: nat) -> Option<Seq<char>> {
    if n > 0 {
        Some(words::counted(n, "file"@) + " already on the drive and different."@)
    } else {
        None
    }
}

/// When to draw again.
pub open spec fn repaint(running: bool, changed: bool, wish: Option<u64>) -> Repaint {
    if running {
        Repaint::Tick
    } else if changed || wish == Some(0u64) {
        Repaint::Now
    } else if wish is Some {
        Repaint::In(wish->0)
    } else {
        Repaint::Wait
    }
}

/// What to do with files that are there was chosen.
pub open spec fn with_existing(u: Ui, on_exists: OnExists) -> Ui {
    Ui { on_exists, move_armed: false, ..u }
}

/// The mode was chosen: a move checks its copies unless told otherwise, a copy does not.
pub open spec fn with_mode(u: Ui, mode: Mode) -> Ui {
    Ui { mode, verify: mode == Mode::Move, move_armed: false, ..u }
}

/// Whether to check the copies was chosen.
pub open spec fn with_verify(u: Ui, verify: bool) -> Ui {
    Ui { verify, move_armed: false, ..u }
}

/// Whether to leave out caches was chosen.
pub open spec fn with_caches(u: Ui, skip_caches: bool) -> Ui {
    Ui { skip_caches, move_armed: false, conflict_key: None, ..u }
}

/// Whether to leave out cloud folders was chosen.
pub open spec fn with_cloud(u: Ui, skip_cloud: bool) -> Ui {
    Ui { skip_cloud, move_armed: false, conflict_key: None, ..u }
}

/// The enter key starts the transfer.
pub open spec fn enters(u: Ui) -> bool {
    !u.show_about && u.screen == Screen::Pick && u.browser.open_for is None && u.mode == Mode::Copy
        && u.ready()
}

/// The drive may be asked to go: it is not being asked already, and has not gone.
pub open spec fn ejectable(u: Ui) -> bool {
    !u.eject_busy && !(u.eject_status matches Some(Ok(_)))
}

/// A path was taken as the source: what was armed or derived for the old one is void.
pub open spec fn took_source(before: Ui, after: Ui, p: FullPath) -> bool {
    &&& after.src_names@.len() == 0
    &&& after == Ui {
        src: Some(p),
        src_names: after.src_names,
        move_armed: false,
        exact_dst: false,
        browser: Browser { open_for: None, ..before.browser },
        ..before
    }
}

/// The source is what the browser takes: selected entries win over the folder around them.
pub open spec fn committed_source(before: Ui, after: Ui) -> bool {
    &&& match browse::taken(before.browser.cwd@, before.browser.picked.names()) {
        browse::TakenView::One(p) => path::opt_view(after.src) == Some(p)
            && after.src_names@.len() == 0,
        browse::TakenView::Several { folder, names } => path::opt_view(after.src) == Some(folder)
            && path::names(after.src_names@) == names,
    }
    &&& after == Ui {
        src: after.src,
        src_names: after.src_names,
        exact_dst: false,
        move_armed: false,
        browser: Browser { open_for: None, ..before.browser },
        ..before
    }
}

/// The destination is the folder shown; it was chosen by hand.
pub open spec fn committed_dest(before: Ui, after: Ui) -> bool {
    &&& path::opt_view(after.dst) == Some(before.browser.cwd@)
    &&& after == Ui {
        dst: after.dst,
        exact_dst: false,
        auto_dst: None,
        move_armed: false,
        browser: Browser { open_for: None, ..before.browser },
        ..before
    }
}

/// The state in which an interrupted job goes on: its ends, its selection and its choices as
/// they were recorded, its destination used as it is.
pub open spec fn resumed(
    u: Ui,
    job: Pending,
    f: CardFacts,
    src: FullPath,
    dst: FullPath,
    names: Vec<Vec<u8>>,
    rest: Vec<Pending>,
) -> Ui {
    let dir = if !f.dst_removable && f.src_removable {
        Direction::FromDrive
    } else {
        Direction::ToDrive
    };
    Ui {
        pending_armed: false,
        direction: dir,
        browser: Browser { locked: drive_side(dir), ..u.browser },
        src: Some(src),
        src_names: names,
        skip_caches: job.skip_caches,
        skip_cloud: job.skip_cloud,
        dst: Some(dst),
        exact_dst: true,
        mode: job.mode,
        verify: job.mode == Mode::Move,
        move_armed: false,
        auto_dst: None,
        pending: rest,
        ..u
    }
}

/// The part of the text before the names.
pub open spec fn conflict_head(u: Ui, src_is_dir: bool, os: Os) -> Seq<char> {
    u.src->0@.text(os) + seq!['\0'] + u.lands(src_is_dir).text(os) + seq!['\0'] + seq![
        if u.skip_caches {
            '1'
        } else {
            '0'
        },
        if u.skip_cloud {
            '1'
        } else {
            '0'
        },
    ]
}

/// The names as text, each after a zero.
pub open spec fn names_tail(names: Seq<Seq<u8>>) -> Seq<char>
    decreases names.len(),
{
    if names.len() == 0 {
        Seq::empty()
    } else {
        names_tail(names.drop_last()) + seq!['\0'] + path::lossy_text(names.last())
    }
}

/// Everything that a count of conflicts depends on, as one text.
pub open spec fn conflict_text(u: Ui, src_is_dir: bool, os: Os) -> Seq<char> {
    conflict_head(u, src_is_dir, os) + names_tail(path::names(u.src_names@))
}

/// What one of the two folder fields shows.
pub open spec fn field_text(value: Option<FullView>, names: nat, os: Os) -> Seq<char> {
    match value {
        Some(v) => if names > 0 {
            text::dec(names) + " items in "@ + words::shortened(v.text(os), 34)
        } else {
            words::shortened(v.text(os), 46)
        },
        None => "nothing chosen yet"@,
    }
}

pub fn field_label(value: &Option<FullPath>, names: usize, os: Os) -> (s: String)
    ensures
        s@ == field_text(path::opt_view(*value), names as nat, os),
{
    match value {
        Some(v) => {
            if names > 0 {
                let mut s = decimal(names as u64);
                s.append(" items in ");
                s.append(shorten(v.text(os).as_str(), 34).as_str());
                s
            } else {
                shorten(v.text(os).as_str(), 46)
            }
        },
        None => String::from_str("nothing chosen yet"),
    }
}

/// What a move means, said before it is armed.
pub open spec fn move_warning(direction: Direction, verify: bool) -> Seq<char> {
    match (direction, verify) {
        (Direction::ToDrive, true) =>
            "Moving deletes the originals — each one only after its copy is safely on the drive and has been checked."@,
        (Direction::ToDrive, false) =>
            "Moving deletes the originals — only at the very end, after every copy is finished and flushed to the drive. With the check off they are not read back first: faster, a little less certain."@,
        (Direction::FromDrive, true) =>
            "Moving deletes the originals from the drive — each one only after its copy is safely on this computer and has been checked. When it finishes, the drive no longer has a copy."@,
        (Direction::FromDrive, false) =>
            "Moving deletes the originals from the drive — only at the very end, after every copy is finished and flushed. With the check off they are not read back first, and when it finishes the drive no longer has a copy."@,
    }
}

pub fn move_note(direction: Direction, verify: bool) -> (s: &'static str)
    ensures
        s@ == move_warning(direction, verify),
{
    match (direction, verify) {
        (Direction::ToDrive, true) =>
            "Moving deletes the originals — each one only after its copy is safely on the drive and has been checked.",
        (Direction::ToDrive, false) =>
            "Moving deletes the originals — only at the very end, after every copy is finished and flushed to the drive. With the check off they are not read back first: faster, a little less certain.",
        (Direction::FromDrive, true) =>
            "Moving deletes the originals from the drive — each one only after its copy is safely on this computer and has been checked. When it finishes, the drive no longer has a copy.",
        (Direction::FromDrive, false) =>
            "Moving deletes the originals from the drive — only at the very end, after every copy is finished and flushed. With the check off they are not read back first, and when it finishes the drive no longer has a copy.",
    }
}

// ── the card of an interrupted transfer ──────────────────────────────────────
/// What the disk says of an interrupted transfer.
#[derive(Clone, Copy)]
pub struct CardFacts {
    pub src_exists: bool,
    pub dst_exists: bool,
    /// The folder around the destination exists, and lies on a connected drive.
    pub parent_exists: bool,
    pub parent_on_drive: bool,
    /// These lie on a drive that can be removed.
    pub src_removable: bool,
    pub dst_removable: bool,
    /// Some file of the sample was found below the source, below the destination.
    pub sample_at_src: bool,
    pub sample_at_dst: bool,
}

/// The destination is there, or its drive is: the folder itself is made anew.
pub open spec fn card_dst_ok(f: CardFacts) -> bool {
    f.dst_exists || (f.parent_exists && (f.src_removable || f.parent_on_drive))
}

/// Nothing speaks against this being the drive that the job was going to. The end on the
/// removable drive is looked at, and that only where finished files must still be there: a move
/// from a drive has taken them away itself.
pub open spec fn card_same_drive(job: Pending, f: CardFacts) -> bool {
    if f.src_removable {
        job.mode == Mode::Move || job.files_done == 0 || !f.src_exists || f.sample_at_src
    } else {
        job.files_done == 0 || !f.dst_exists || f.sample_at_dst
    }
}

/// Going on is possible: both ends are there, and a move is not about to delete originals for
/// the sake of what looks like another drive.
pub open spec fn card_ready(job: Pending, f: CardFacts) -> bool {
    f.src_exists && card_dst_ok(f) && !(!card_same_drive(job, f) && job.mode == Mode::Move)
}

/// Going on takes two presses.
pub open spec fn card_arms(job: Pending, f: CardFacts) -> bool {
    job.mode == Mode::Move || !card_same_drive(job, f)
}

/// What the card says and allows.
pub struct Card {
    pub src_ok: bool,
    pub dst_ok: bool,
    pub same_drive: bool,
    pub ready: bool,
    pub needs_arm: bool,
}

impl Card {
    pub fn of(job: &Pending, f: CardFacts) -> (c: Card)
        ensures
            c.src_ok == f.src_exists,
            c.dst_ok == card_dst_ok(f),
            c.same_drive == card_same_drive(*job, f),
            c.ready == card_ready(*job, f),
            c.needs_arm == card_arms(*job, f),
    {
        let dst_ok = f.dst_exists || (f.parent_exists && (f.src_removable || f.parent_on_drive));
        let moving = match job.mode {
            Mode::Move => true,
            Mode::Copy => false,
        };
        let same_drive = if f.src_removable {
            moving || job.files_done == 0 || !f.src_exists || f.sample_at_src
        } else {
            job.files_done == 0 || !f.dst_exists || f.sample_at_dst
        };
        Card {
            src_ok: f.src_exists,
            dst_ok,
            same_drive,
            ready: f.src_exists && dst_ok && (same_drive || !moving),
            needs_arm: moving || !same_drive,
        }
    }

    /// What the button says.
    pub fn label(&self, mode: Mode, armed: bool) -> (s: &'static str)
        ensures
            s@ == card_label(mode, armed, self.same_drive),
    {
        if armed {
            match mode {
                Mode::Copy => "Press again to continue",
                Mode::Move => "Confirm — originals are deleted after copying",
            }
        } else {
            match mode {
                Mode::Copy => {
                    if self.same_drive {
                        "Continue copying"
                    } else {
                        "Copy everything again"
                    }
                },
                Mode::Move => "Continue the move",
            }
        }
    }

    /// What is missing, if anything is.
    pub fn missing(&self, dst: &str) -> (r: Option<String>)
        ensures
            opt_text(r) == card_missing(self.src_ok, self.dst_ok, dst@),
    {
        if !self.dst_ok {
            let mut s = String::from_str("Plug in the drive this was going to (");
            s.append(dst);
            s.append(
                ") and this will light up. If it comes back under a different letter or name, pick the source and drive again — the copy restarts, but nothing is lost.",
            );
            Some(s)
        } else if !self.src_ok {
            Some(String::from_str("The source folder isn't reachable right now."))
        } else {
            None
        }
    }

    /// The warning about another drive, where one looks like it.
    pub fn suspicion(&self, mode: Mode) -> (r: Option<&'static str>)
        ensures
            match card_suspicion(mode, self.same_drive, self.dst_ok) {
                Some(t) => r is Some && r->0@ == t,
                None => r is None,
            },
    {
        if !self.same_drive && self.dst_ok {
            match mode {
                Mode::Move => Some(
                    "None of the files already moved were found on this drive — it looks like a different drive at the same location. For a move, pick the destination again yourself.",
                ),
                Mode::Copy => Some(
                    "None of the files already copied were found on this drive — it may be a different drive at the same location.",
                ),
            }
        } else {
            None
        }
    }
}

pub open spec fn card_label(mode: Mode, armed: bool, same_drive: bool) -> Seq<char> {
    match (armed, mode, same_drive) {
        (true, Mode::Copy, _) => "Press again to continue"@,
        (true, Mode::Move, _) => "Confirm — originals are deleted after copying"@,
        (false, Mode::Copy, true) => "Continue copying"@,
        (false, Mode::Copy, false) => "Copy everything again"@,
        (false, Mode::Move, _) => "Continue the move"@,
    }
}

pub open spec fn card_missing(src_ok: bool, dst_ok: bool, dst: Seq<char>) -> Option<Seq<char>> {
    if !dst_ok {
        Some(
            "Plug in the drive this was going to ("@ + dst
                + ") and this will light up. If it comes back under a different letter or name, pick the source and drive again — the copy restarts, but nothing is lost."@,
        )
    } else if !src_ok {
        Some("The source folder isn't reachable right now."@)
    } else {
        None
    }
}

pub open spec fn card_suspicion(mode: Mode, same_drive: bool, dst_ok: bool) -> Option<Seq<char>> {
    if !same_drive && dst_ok {
        match mode {
            Mode::Move => Some(
                "None of the files already moved were found on this drive — it looks like a different drive at the same location. For a move, pick the destination again yourself."@,
            ),
            Mode::Copy => Some(
                "None of the files already copied were found on this drive — it may be a different drive at the same location."@,
            ),
        }
    } else {
        None
    }
}

/// The line of the card that says how far it got.
pub open spec fn card_text(job: Pending) -> Seq<char> {
    job.src@ + "  →  "@ + job.dst@ + "   ·   "@ + text::dec(job.files_done as nat) + " of "@
        + text::dec(job.files_total as nat) + " files finished ("@ + size::human_text(
        job.bytes_done,
    ) + " of "@ + size::human_text(job.bytes_total) + ")"@
}

pub fn card_line(job: &Pending) -> (s: String)
    ensures
        s@ == card_text(*job),
{
    let mut s = job.src.clone();
    s.append("  →  ");
    s.append(job.dst.as_str());
    s.append("   ·   ");
    s.append(decimal(job.files_done as u64).as_str());
    s.append(" of ");
    s.append(decimal(job.files_total as u64).as_str());
    s.append(" files finished (");
    s.append(human(job.bytes_done).as_str());
    s.append(" of ");
    s.append(human(job.bytes_total).as_str());
    s.append(")");
    s
}

/// How many files differ at the destination, as it is said.
pub fn conflict_note(n: usize) -> (r: Option<String>)
    ensures
        opt_text(r) == conflict_line(n as nat),
{
    if n > 0 {
        let mut s = plural(n, "file");
        s.append(" already on the drive and different.");
        Some(s)
    } else {
        None
    }
}

// ── when to draw again ───────────────────────────────────────────────────────
/// When the next frame is due.
#[derive(Clone, Copy, PartialEq, Eq, Structural)]
pub enum Repaint {
    /// After a tick: a transfer is running.
    Tick,
    Now,
    /// After so many milliseconds.
    In(u64),
    /// When something happens.
    Wait,
}

/// While a transfer runs, every tick. A screen that changed during this frame needs another one
/// at once, and so does a wish without delay.
pub fn next_frame(running: bool, changed: bool, wish: Option<u64>) -> (r: Repaint)
    ensures
        r == repaint(running, changed, wish),
{
    if running {
        Repaint::Tick
    } else if changed {
        Repaint::Now
    } else {
        match wish {
            Some(ms) => {
                if ms == 0 {
                    Repaint::Now
                } else {
                    Repaint::In(ms)
                }
            },
            None => Repaint::Wait,
        }
    }
}

// ── laws ─────────────────────────────────────────────────────────────────────
/// A press on the start button.
pub open spec fn pressed(u: Ui) -> Ui {
    if !u.ready() || u.mode == Mode::Copy {
        u
    } else {
        Ui { move_armed: !u.move_armed, ..u }
    }
}

/// A press on the start button begins.
pub open spec fn begins(u: Ui) -> bool {
    u.ready() && (u.mode == Mode::Copy || u.move_armed)
}

/// A move never begins with the first press, but with the second, on the pair that the first one
/// armed.
pub proof fn law_a_move_takes_two_presses(u: Ui)
    requires
        u.mode == Mode::Move,
        !u.move_armed,
        u.ready(),
    ensures
        !begins(u),
        begins(pressed(u)),
        pressed(u).src == u.src && pressed(u).dst == u.dst,
        !begins(pressed(pressed(u))),
{
}

/// Turning round leaves nothing of the old pair behind, so that no field can hold a place that
/// the other direction would not have let in.
pub proof fn law_turning_round_clears_the_pair(before: Ui, after: Ui, dir: Direction)
    requires
        before.direction != dir,
        turned(before, after, dir),
    ensures
        after.src is None && after.dst is None,
        after.browser.locked == drive_side(dir),
        !after.exact_dst && !after.move_armed,
        !after.ready(),
{
}

/// A new source disarms a move and lets go of a destination that belonged to another job.
pub proof fn law_a_new_source_disarms(before: Ui, after: Ui, p: FullPath)
    requires
        took_source(before, after, p),
    ensures
        !after.move_armed && !after.exact_dst,
        after.dst == before.dst,
{
}

/// A destination that a journal named is used as it is: no folder is put inside it again, and
/// the run checks what it finds.
pub proof fn law_a_resumed_destination_is_exact(s: Start, u: Ui, f: StartFacts)
    requires
        u.exact_dst,
        u.dst is Some,
        starts_as(s, u, f),
    ensures
        s.dst@ == u.dst->0@,
        s.opts.verify,
{
}

/// Continuing an interrupted transfer runs the same job: from the same source into the same
/// destination, in the same mode, with the same things left out and, as long as the names read
/// as they did, under the same tag.
pub proof fn law_a_continued_job_is_the_same_job(
    before: Ui,
    job: Pending,
    f: CardFacts,
    src: FullPath,
    dst: FullPath,
    names: Vec<Vec<u8>>,
    rest: Vec<Pending>,
    s: Start,
    g: StartFacts,
    first: Seq<Seq<u8>>,
)
    requires
        starts_as(s, resumed(before, job, f, src, dst, names, rest), g),
        names@.len() == first.len(),
        forall|i: int|
            0 <= i < first.len() ==> path::lossy_text(#[trigger] first[i]) == path::lossy_text(
                names@[i]@,
            ),
    ensures
        s.src@ == src@,
        s.dst@ == dst@,
        s.opts.mode == job.mode,
        s.opts.skip_caches == job.skip_caches,
        s.opts.skip_cloud == job.skip_cloud,
        s.filter@ == chosen_filter(job.skip_caches, job.skip_cloud),
        opt_text(s.opts.job_tag) == selection_tag(first),
        s.opts.verify,
{
    let all = path::names(names@);
    assert(all.len() == first.len());
    assert forall|i: int| 0 <= i < first.len() implies path::lossy_text(#[trigger] first[i])
        == path::lossy_text(all[i]) by {
        assert(all[i] == names@[i]@);
    }
    lemma_tag_reads(first, all);
}

/// What names read as decides their tag.
proof fn lemma_tag_reads(a: Seq<Seq<u8>>, b: Seq<Seq<u8>>)
    requires
        a.len() == b.len(),
        forall|i: int|
            0 <= i < a.len() ==> path::lossy_text(#[trigger] a[i]) == path::lossy_text(b[i]),
    ensures
        tag_text(a) == tag_text(b),
    decreases a.len(),
{
    if a.len() > 0 {
        assert forall|i: int| 0 <= i < a.drop_last().len() implies path::lossy_text(
            #[trigger] a.drop_last()[i],
        ) == path::lossy_text(b.drop_last()[i]) by {
            assert(a.drop_last()[i] == a[i]);
        }
        lemma_tag_reads(a.drop_last(), b.drop_last());
        assert(a[a.len() - 1] == a.last());
    }
}

/// A move is never resumed onto a drive on which none of its finished files is found.
pub proof fn law_no_move_onto_a_strange_drive(job: Pending, f: CardFacts)
    requires
        job.mode == Mode::Move,
        !f.src_removable,
        job.files_done > 0,
        f.dst_exists,
        !f.sample_at_dst,
    ensures
        !card_ready(job, f),
{
}

/// With the drive unplugged, a start is refused, whatever is left of its mount point.
pub proof fn law_an_absent_drive_is_never_written(u: Ui, f: StartFacts)
    requires
        u.direction == Direction::ToDrive,
        !f.dst_exists,
        !f.parent_on_drive,
    ensures
        start_refusal(u, f) is Some,
{
}

/// Two selections of the same folder that read differently have different texts behind their
/// tags, as long as no name holds a zero.
#[verifier::spinoff_prover]
pub proof fn law_selections_are_told_apart(a: Seq<Seq<u8>>, b: Seq<Seq<u8>>)
    requires
        tag_text(a) == tag_text(b),
        forall|i: int| 0 <= i < a.len() ==> !path::lossy_text(#[trigger] a[i]).contains('\0'),
        forall|i: int| 0 <= i < b.len() ==> !path::lossy_text(#[trigger] b[i]).contains('\0'),
    ensures
        a.map_values(|n: Seq<u8>| path::lossy_text(n)) == b.map_values(
            |n: Seq<u8>| path::lossy_text(n),
        ),
    decreases a.len(),
{
    let f = |n: Seq<u8>| path::lossy_text(n);
    if a.len() == 0 {
        if b.len() > 0 {
            assert(tag_text(b).len() > 0);
        }
        assert(a.map_values(f) =~= b.map_values(f));
    } else if b.len() == 0 {
        assert(tag_text(a).len() > 0);
    } else {
        let ta = tag_text(a);
        let a0 = tag_text(a.drop_last());
        let b0 = tag_text(b.drop_last());
        let x = path::lossy_text(a.last());
        let y = path::lossy_text(b.last());
        assert(a[a.len() - 1] == a.last() && b[b.len() - 1] == b.last());
        assert(ta =~= a0 + x + seq!['\0']);
        assert(ta =~= b0 + y + seq!['\0']);
        lemma_tag_end(a.drop_last());
        lemma_tag_end(b.drop_last());
        // The last name reaches back to the zero before it.
        if x.len() < y.len() {
            let k = ta.len() - 2 - x.len();
            assert(ta[k] == a0[a0.len() - 1]) by {
                if a0.len() == 0 {
                    assert(ta.len() == x.len() + 1);
                    assert(ta.len() == b0.len() + y.len() + 1);
                }
            }
            assert(a0.last() == '\0');
            assert(ta[k] == y[k - b0.len()]);
            assert(y.contains('\0'));
        } else if y.len() < x.len() {
            let k = ta.len() - 2 - y.len();
            assert(ta[k] == b0[b0.len() - 1]) by {
                if b0.len() == 0 {
                    assert(ta.len() == y.len() + 1);
                    assert(ta.len() == a0.len() + x.len() + 1);
                }
            }
            assert(b0.last() == '\0');
            assert(ta[k] == x[k - a0.len()]);
            assert(x.contains('\0'));
        }
        assert(a0.len() == b0.len());
        assert(a0 =~= ta.take(a0.len() as int));
        assert(b0 =~= ta.take(b0.len() as int));
        assert(x =~= ta.subrange(a0.len() as int, ta.len() - 1));
        assert(y =~= ta.subrange(b0.len() as int, ta.len() - 1));
        assert forall|i: int| 0 <= i < a.drop_last().len() implies !path::lossy_text(
            #[trigger] a.drop_last()[i],
        ).contains('\0') by {
            assert(a.drop_last()[i] == a[i]);
        }
        assert forall|i: int| 0 <= i < b.drop_last().len() implies !path::lossy_text(
            #[trigger] b.drop_last()[i],
        ).contains('\0') by {
            assert(b.drop_last()[i] == b[i]);
        }
        law_selections_are_told_apart(a.drop_last(), b.drop_last());
        assert(a.map_values(f) =~= a.drop_last().map_values(f).push(x));
        assert(b.map_values(f) =~= b.drop_last().map_values(f).push(y));
    }
}

proof fn lemma_tag_end(names: Seq<Seq<u8>>)
    ensures
        tag_text(names).len() > 0 ==> tag_text(names).last() == '\0',
        names.len() > 0 ==> tag_text(names).len() > 0,
{
}

} // verus!
