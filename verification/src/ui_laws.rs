//! What the choices on the screen mean for the transfer that they start.

use crate::engine::OnExists;
use crate::journal::{Mode, Pending};
use crate::path;
use crate::path::{FullPath, FullView, PartView};
use crate::scan;
use crate::ui;
use crate::ui::{CardFacts, Direction, Repaint, Start, StartFacts, Ui};
use vstd::prelude::*;

verus! {

// ── starting ─────────────────────────────────────────────────────────────────
/// A transfer is the one that was set: its mode, what it does with files in its way, what it
/// leaves out and what it was told to pass over. It is never a dry run, and it checks the copies
/// where that was asked for.
pub proof fn law_a_start_is_what_was_set(s: Start, u: Ui, f: StartFacts)
    requires
        ui::starts_as(s, u, f),
        u.src is Some,
        u.dst is Some,
    ensures
        s.src@ == u.src->0@,
        s.opts.mode is Move <==> u.mode is Move,
        s.opts.mode is Copy <==> u.mode is Copy,
        s.opts.on_exists is Keep <==> u.on_exists is Keep,
        s.opts.on_exists is Fail <==> u.on_exists is Fail,
        s.opts.on_exists is Replace <==> u.on_exists is Replace,
        u.verify ==> s.opts.verify,
        s.opts.verify ==> u.verify || u.exact_dst,
        !s.opts.dry_run,
        !s.opts.paranoid,
        s.skip_rels == u.skip_rels,
        s.opts.skip_caches == u.skip_caches,
        s.opts.skip_cloud == u.skip_cloud,
        !u.skip_caches ==> s.filter@.names.len() == 0,
        u.skip_caches ==> s.filter@.names == scan::cache_names(),
        !u.skip_cloud ==> s.filter@.prefixes.len() == 0,
        u.skip_cloud ==> s.filter@.prefixes == scan::cloud_prefixes(),
        path::names(s.names@) == path::names(u.src_names@),
{
}

/// A folder lands inside the chosen destination under its own name; a file, a selection, and a
/// destination that a journal named land in the destination itself.
pub proof fn law_where_a_transfer_lands(u: Ui, src_is_dir: bool, name: Seq<u8>)
    requires
        u.src is Some,
        u.dst is Some,
    ensures
        u.exact_dst ==> u.lands(src_is_dir) == u.dst->0@,
        u.src_names@.len() > 0 ==> u.lands(src_is_dir) == u.dst->0@,
        !src_is_dir ==> u.lands(src_is_dir) == u.dst->0@,
        !u.exact_dst && u.src_names@.len() == 0 && src_is_dir && u.src->0@.parts.len() > 0
            && u.src->0@.parts[u.src->0@.parts.len() - 1] == PartView::Name(name)
            ==> u.lands(src_is_dir) == (FullView {
            parts: u.dst->0@.parts.push(PartView::Name(name)),
            ..u.dst->0@
        }),
{
}

/// A transfer may start exactly when its destination is there, no drive is just being removed,
/// and its source is there. A destination that a journal named may be missing itself, as long as
/// the folder around it is there, on a connected drive unless the drive is the source.
pub proof fn law_when_a_start_is_refused(u: Ui, f: StartFacts)
    ensures
        ui::start_refusal(u, f) is None <==> {
            &&& f.src_exists
            &&& !u.eject_busy
            &&& f.dst_exists || (u.exact_dst && u.dst->0@.parent() is Some && f.parent_exists && (
            u.direction is FromDrive || f.parent_on_drive))
        },
{
}

/// Two ends make a pair only where both are chosen and they are not one.
pub proof fn law_what_a_pair_is(u: Ui)
    ensures
        u.ready() ==> u.src is Some && u.dst is Some && u.src->0@ != u.dst->0@,
        u.src is Some && u.dst is Some && u.src->0@ != u.dst->0@ ==> u.ready(),
        u.src is None || u.dst is None ==> !u.ready(),
{
}

/// A copy begins with one press on a pair, a move only with one that finds it armed; without a
/// pair nothing begins. A press changes nothing but whether a move is armed.
pub proof fn law_when_a_press_begins(u: Ui)
    ensures
        ui::begins(u) ==> u.src is Some && u.dst is Some && u.src->0@ != u.dst->0@,
        ui::begins(u) && u.mode is Move ==> u.move_armed,
        u.ready() && u.mode is Copy ==> ui::begins(u),
        u.ready() && u.mode is Move && u.move_armed ==> ui::begins(u),
        ui::pressed(u) == (Ui { move_armed: ui::pressed(u).move_armed, ..u }),
        u.mode is Copy ==> ui::pressed(u).move_armed == u.move_armed,
        u.ready() && u.mode is Move ==> ui::pressed(u).move_armed == !u.move_armed,
{
}

/// Whatever is changed about a transfer disarms its move and changes nothing else of it; choosing
/// to move turns the check on, choosing to copy turns it off.
pub proof fn law_every_change_disarms(u: Ui, e: OnExists, mode: Mode, b: bool)
    ensures
        ui::with_existing(u, e) == (Ui { on_exists: e, move_armed: false, ..u }),
        ui::with_mode(u, mode).mode == mode,
        mode is Move ==> ui::with_mode(u, mode).verify,
        mode is Copy ==> !ui::with_mode(u, mode).verify,
        !ui::with_mode(u, mode).move_armed,
        ui::with_mode(u, mode).src == u.src && ui::with_mode(u, mode).dst == u.dst,
        ui::with_mode(u, mode).on_exists == u.on_exists,
        ui::with_verify(u, b).verify == b && !ui::with_verify(u, b).move_armed,
        ui::with_verify(u, b).mode == u.mode,
        ui::with_caches(u, b).skip_caches == b && !ui::with_caches(u, b).move_armed,
        ui::with_caches(u, b).skip_cloud == u.skip_cloud,
        ui::with_cloud(u, b).skip_cloud == b && !ui::with_cloud(u, b).move_armed,
        ui::with_cloud(u, b).skip_caches == u.skip_caches,
{
}

/// The enter key never starts a move, and starts a copy only of a pair, on the screen where it
/// is chosen, with nothing open over it.
pub proof fn law_what_enter_starts(u: Ui)
    ensures
        ui::enters(u) <==> {
            &&& u.mode is Copy
            &&& u.src is Some && u.dst is Some && u.src->0@ != u.dst->0@
            &&& u.screen is Pick
            &&& !u.show_about
            &&& u.browser.open_for is None
        },
{
}

/// A drive is asked to go at most once at a time, and not again once it has gone.
pub proof fn law_when_a_drive_may_be_asked_to_go(u: Ui)
    ensures
        u.eject_busy ==> !ui::ejectable(u),
        u.eject_status matches Some(Ok(_)) ==> !ui::ejectable(u),
        !u.eject_busy && u.eject_status is None ==> ui::ejectable(u),
        !u.eject_busy && (u.eject_status matches Some(Err(_))) ==> ui::ejectable(u),
{
}

/// Escape starts nothing and changes no choice: the pair, the mode and what goes with it stay,
/// and an armed move stays armed only where something on top of it was closed.
pub proof fn law_what_escape_keeps(u: Ui, v: Ui)
    requires
        ui::escaped(u, v),
    ensures
        v.src == u.src && v.dst == u.dst && v.mode == u.mode && v.verify == u.verify,
        v.on_exists == u.on_exists && v.pending == u.pending && v.direction == u.direction,
        v.browser.cwd == u.browser.cwd,
        v.screen == u.screen || (u.screen is Erase && v.screen is Pick),
        v.move_armed ==> u.move_armed,
        u.show_about ==> !v.show_about && v.browser == u.browser && v.screen == u.screen,
        !u.show_about && u.browser.new_folder is Some ==> v.browser.new_folder is None
            && v.browser.open_for == u.browser.open_for,
        !u.show_about && u.browser.new_folder is None && u.browser.picked@
            == Set::<Seq<u8>>::empty() && u.browser.open_for is None && !(u.screen is Erase)
            ==> !v.move_armed && v.screen == u.screen,
        !u.show_about && u.browser.new_folder is None && u.browser.picked@
            == Set::<Seq<u8>>::empty() && u.browser.open_for is Some ==> v.browser.open_for is None
            && v.screen == u.screen,
{
}

/// A drive is filled in unasked only where it is the only one, nothing was chosen on its side,
/// and it was not filled in before.
pub proof fn law_when_a_drive_is_filled_in(u: Ui, drives: Seq<FullPath>)
    ensures
        ui::fills(u, drives) ==> drives.len() == 1,
        u.direction is ToDrive && u.dst is Some ==> !ui::fills(u, drives),
        u.direction is FromDrive && u.src is Some ==> !ui::fills(u, drives),
        drives.len() == 1 && u.auto_dst is Some && u.auto_dst->0@ == drives[0]@ ==> !ui::fills(
            u,
            drives,
        ),
        drives.len() == 1 && u.auto_dst is None && u.direction is ToDrive && u.dst is None
            ==> ui::fills(u, drives),
        drives.len() == 1 && u.auto_dst is None && u.direction is FromDrive && u.src is None
            ==> ui::fills(u, drives),
{
}

/// Turning round is suggested only for a source on a drive, while copying to a drive, and never
/// once another destination was chosen by hand.
pub proof fn law_when_turning_round_is_suggested(u: Ui, src_on_drive: bool)
    ensures
        ui::wrong_way(u, src_on_drive) ==> src_on_drive && u.src is Some && u.direction is ToDrive,
        u.dst is Some && u.auto_dst is None ==> !ui::wrong_way(u, src_on_drive),
        u.dst is Some && u.auto_dst is Some && u.dst->0@ != u.auto_dst->0@ ==> !ui::wrong_way(
            u,
            src_on_drive,
        ),
        src_on_drive && u.src is Some && u.direction is ToDrive && u.dst is None ==> ui::wrong_way(
            u,
            src_on_drive,
        ),
        src_on_drive && u.src is Some && u.direction is ToDrive && u.dst is Some && u.auto_dst
            is Some && u.dst->0@ == u.auto_dst->0@ ==> ui::wrong_way(u, src_on_drive),
{
}

/// A pair that is one place is no pair to start, and two places are no such pair.
pub proof fn law_a_place_is_not_copied_onto_itself(u: Ui)
    ensures
        ui::onto_itself(u) ==> !u.ready() && !ui::begins(u) && !ui::enters(u),
        ui::onto_itself(u) <==> u.src is Some && u.dst is Some && u.src->0@ == u.dst->0@,
        u.src is Some && u.dst is Some ==> (u.ready() <==> !ui::onto_itself(u)),
{
}

/// A press on a card begins its job only where the card can go on; where it has to be confirmed
/// the first press only asks, and the second begins. A job that began is off the list, the
/// others keep their order; before that nothing of the list changes.
pub proof fn law_what_a_press_on_a_card_does(
    u: Ui,
    v: Ui,
    f: CardFacts,
    src: FullPath,
    dst: FullPath,
    names: Vec<Vec<u8>>,
    begin: bool,
)
    requires
        u.pending@.len() > 0,
        ui::pressed_on(u, v, f, src, dst, names, begin),
    ensures
        begin ==> ui::card_ready(u.pending@[0], f),
        begin ==> !ui::card_arms(u.pending@[0], f) || u.pending_armed,
        !begin ==> v.pending == u.pending && v.src == u.src && v.dst == u.dst && v.mode == u.mode,
        ui::card_ready(u.pending@[0], f) && !begin ==> v.pending_armed && !u.pending_armed,
        ui::card_ready(u.pending@[0], f) && u.pending_armed ==> begin,
        begin ==> v.pending@.len() == u.pending@.len() - 1 && forall|i: int|
            0 <= i < v.pending@.len() ==> #[trigger] v.pending@[i] == u.pending@[i + 1],
{
}

/// Choosing begins anew with nothing left out and no exact destination, but with the pair as it
/// was; while a drive is on its way out nothing changes.
pub proof fn law_what_beginning_again_keeps(u: Ui, v: Ui)
    requires
        ui::began_again(u, v),
    ensures
        v.src == u.src && v.dst == u.dst && v.mode == u.mode && v.verify == u.verify,
        u.eject_busy ==> v.screen == u.screen && v.skip_rels == u.skip_rels && v.eject_status
            == u.eject_status,
        !u.eject_busy ==> v.screen is Pick && !v.exact_dst && v.skip_rels@.len() == 0
            && v.eject_status is None,
{
}

/// While a transfer runs the screen ticks. Otherwise it is drawn at once where something changed
/// or at once was asked for, then when it was asked for, and not at all where nothing was.
pub proof fn law_when_the_screen_is_drawn(changed: bool, wish: Option<u64>)
    ensures
        ui::repaint(true, changed, wish) is Tick,
        ui::repaint(false, changed, wish) is Now <==> changed || wish == Some(0u64),
        ui::repaint(false, changed, wish) is Wait <==> !changed && wish is None,
        !changed && wish is Some && wish->0 > 0 ==> ui::repaint(false, changed, wish)
            == Repaint::In(wish->0),
{
}

/// Files that differ are told of exactly when there are any, with their number.
pub proof fn law_when_conflicts_are_told(n: nat)
    ensures
        ui::conflict_line(n) is None <==> n == 0,
        n == 1 ==> ui::conflict_line(n) == Some(
            crate::words::counted(1, "file"@) + " already on the drive and different."@,
        ),
        n > 0 ==> (crate::words::counted(n, "file"@)).is_prefix_of(ui::conflict_line(n)->0),
{
    if n > 0 {
        let c = crate::words::counted(n, "file"@);
        let t = ui::conflict_line(n)->0;
        assert(t.take(c.len() as int) =~= c);
    }
}

/// The drive is the destination of a transfer to it and the source of one from it.
pub proof fn law_which_end_is_the_drive(u: Ui)
    ensures
        ui::drive_side(Direction::ToDrive) is Dest,
        ui::drive_side(Direction::FromDrive) is Source,
        u.direction is ToDrive ==> u.on_drive_side() == path::opt_view(u.dst),
        u.direction is FromDrive ==> u.on_drive_side() == path::opt_view(u.src),
{
}

/// Turning round voids both ends, the selection, what was given up on and everything armed; it
/// keeps the mode and what is to be left out. To turn to where one already looks changes
/// nothing.
pub proof fn law_what_turning_round_keeps(before: Ui, after: Ui, dir: Direction)
    requires
        ui::turned(before, after, dir),
    ensures
        after.direction == dir,
        after.mode == before.mode,
        after.verify == before.verify,
        after.on_exists == before.on_exists,
        after.skip_caches == before.skip_caches,
        after.skip_cloud == before.skip_cloud,
        before.direction == dir ==> after == before,
        before.direction != dir ==> {
            &&& after.src is None
            &&& after.dst is None
            &&& after.src_names@.len() == 0
            &&& after.skip_rels@.len() == 0
            &&& !after.move_armed
            &&& !after.exact_dst
            &&& after.auto_dst is None
            &&& after.browser.open_for is None
        },
{
}

/// A source that was taken replaces the old one whole, and disarms; the destination and the
/// mode stay.
pub proof fn law_taking_a_source(before: Ui, after: Ui, p: FullPath)
    requires
        ui::took_source(before, after, p),
    ensures
        after.src == Some(p),
        after.src_names@.len() == 0,
        !after.move_armed,
        !after.exact_dst,
        after.dst == before.dst,
        after.mode == before.mode,
        after.on_exists == before.on_exists,
        after.verify == before.verify,
{
}

/// What is taken from the browser: without a selection the folder shown, one selected entry
/// alone, several with the folder they stand in.
pub proof fn law_what_is_taken_as_the_source(before: Ui, after: Ui)
    requires
        ui::committed_source(before, after),
    ensures
        !after.move_armed,
        !after.exact_dst,
        after.dst == before.dst,
        after.mode == before.mode,
        after.browser.open_for is None,
        after.src is Some,
        before.browser.picked.names().len() == 0 ==> after.src->0@ == before.browser.cwd@
            && after.src_names@.len() == 0,
        before.browser.picked.names().len() > 1 ==> after.src->0@ == before.browser.cwd@
            && path::names(after.src_names@) == before.browser.picked.names(),
        before.browser.picked.names().len() == 1 ==> after.src_names@.len() == 0 && after.src->0@
            == (FullView {
            parts: before.browser.cwd@.parts.push(
                PartView::Name(before.browser.picked.names()[0]),
            ),
            ..before.browser.cwd@
        }),
{
}

/// What is taken as the destination is the folder shown, and nothing of the source changes.
pub proof fn law_what_is_taken_as_the_destination(before: Ui, after: Ui)
    requires
        ui::committed_dest(before, after),
    ensures
        after.dst is Some,
        after.dst->0@ == before.browser.cwd@,
        after.auto_dst is None,
        !after.move_armed,
        !after.exact_dst,
        after.src == before.src,
        after.src_names == before.src_names,
        after.mode == before.mode,
{
}

// ── going on with an interrupted transfer ────────────────────────────────────
/// An interrupted transfer goes on as it was: from its source to its destination, exactly there,
/// in its mode, leaving out what it left out; and a move checks its copies.
pub proof fn law_how_an_interrupted_transfer_goes_on(
    u: Ui,
    job: Pending,
    f: CardFacts,
    src: FullPath,
    dst: FullPath,
    names: Vec<Vec<u8>>,
    rest: Vec<Pending>,
)
    ensures
        ({
            let n = ui::resumed(u, job, f, src, dst, names, rest);
            &&& n.src == Some(src)
            &&& n.dst == Some(dst)
            &&& n.src_names == names
            &&& n.exact_dst
            &&& n.mode == job.mode
            &&& job.mode is Move ==> n.verify
            &&& n.skip_caches == job.skip_caches
            &&& n.skip_cloud == job.skip_cloud
            &&& !n.move_armed
            &&& !n.pending_armed
            &&& n.pending == rest
            &&& n.on_exists == u.on_exists
            &&& n.direction is FromDrive <==> f.src_removable && !f.dst_removable
        }),
{
}

/// A card lets the transfer go on exactly when its source is there, its destination or the drive
/// around it is there, and it is not a move that finds none of its finished files where they
/// should be.
pub proof fn law_when_a_card_lets_go_on(job: Pending, f: CardFacts)
    ensures
        ui::card_dst_ok(f) <==> f.dst_exists || f.parent_exists && (f.src_removable
            || f.parent_on_drive),
        ui::card_ready(job, f) ==> f.src_exists && ui::card_dst_ok(f),
        ui::card_ready(job, f) && job.mode is Move && !f.src_removable && job.files_done > 0
            && f.dst_exists ==> f.sample_at_dst,
        f.src_exists && ui::card_dst_ok(f) && job.mode is Copy ==> ui::card_ready(job, f),
        f.src_exists && ui::card_dst_ok(f) && job.mode is Move && (f.src_removable
            || job.files_done == 0 || !f.dst_exists || f.sample_at_dst) ==> ui::card_ready(
            job,
            f,
        ),
{
}

/// It takes a second press for every move, and for a copy that finds none of its finished files
/// where they should be; and for nothing else.
pub proof fn law_when_a_card_asks_again(job: Pending, f: CardFacts)
    ensures
        job.mode is Move ==> ui::card_arms(job, f),
        job.mode is Copy && !f.src_removable ==> (ui::card_arms(job, f) <==> job.files_done > 0
            && f.dst_exists && !f.sample_at_dst),
        job.mode is Copy && f.src_removable ==> (ui::card_arms(job, f) <==> job.files_done > 0
            && f.src_exists && !f.sample_at_src),
{
}

/// A card is suspicious exactly where its destination is there and nothing of it was found on
/// it, and of a move it says something else than of a copy.
pub proof fn law_when_a_card_is_suspicious(mode: Mode, same_drive: bool, dst_ok: bool)
    ensures
        ui::card_suspicion(mode, same_drive, dst_ok) is Some <==> dst_ok && !same_drive,
        ui::card_suspicion(Mode::Move, false, true) != ui::card_suspicion(Mode::Copy, false, true),
{
    reveal_strlit(
        "None of the files already moved were found on this drive — it looks like a different drive at the same location. For a move, pick the destination again yourself.",
    );
    reveal_strlit(
        "None of the files already copied were found on this drive — it may be a different drive at the same location.",
    );
    let a = ui::card_suspicion(Mode::Move, false, true)->0;
    let b = ui::card_suspicion(Mode::Copy, false, true)->0;
    assert(a[26] != b[26]);
}

/// A drive counts as filled in unasked exactly as long as it stands where it was put.
pub proof fn law_when_a_drive_was_filled_in(u: Ui)
    ensures
        ui::offered(u) ==> u.auto_dst is Some,
        u.direction is ToDrive ==> (ui::offered(u) <==> u.auto_dst is Some && u.dst is Some
            && u.auto_dst->0@ == u.dst->0@),
        u.direction is FromDrive ==> (ui::offered(u) <==> u.auto_dst is Some && u.src is Some
            && u.auto_dst->0@ == u.src->0@),
{
}

} // verus!
