//! The window: browsing, choosing, starting, and what the screens say.

use kevat::browse::{title, Browser, Field, Held, NameSet, Opened, Seen, SortKey, Taken};
use kevat::engine::{OnExists, Progress};
use kevat::erase::DriveInfo;
use kevat::journal::{Mode, Pending};
use kevat::outcome::{
    can_continue, count_lines, eject_side, failed_entries, failed_entry, failure_row, heading,
    history_detail, history_status, left_out_line, left_out_row, offers_finish, removed_line,
};
use kevat::path::{FullPath, Os, Part, RelPath};
use kevat::progress::{running_title, Shared};
use kevat::run::{Place, Problem, Summary};
use kevat::scan::{Entry, Manifest, Skipped};
use kevat::theme::{on_accent, palette, prefers_dark, rgb, Rgb};
use kevat::ui::{
    card_line, conflict_note, field_label, move_note, next_frame, Card, CardFacts, Direction,
    Repaint, Screen, StartFacts, Ui,
};

fn full(text: &str) -> FullPath {
    let parts = text.split('/').filter(|p| !p.is_empty());
    FullPath {
        prefix: Vec::new(),
        rooted: text.starts_with('/'),
        parts: parts.map(|p| Part::Name(p.as_bytes().to_vec())).collect(),
    }
}

fn show(p: &Option<FullPath>) -> Option<String> {
    p.as_ref().map(|q| q.text(Os::Linux))
}

fn file(len: u64, mtime: i64) -> Option<Seen> {
    Some(Seen { is_dir: false, mtime, len })
}

fn folder(mtime: i64) -> Option<Seen> {
    Some(Seen { is_dir: true, mtime, len: 4096 })
}

fn browser() -> Browser {
    let mut b = Browser::new(full("/home/me"));
    b.open(Field::Source, &None, false, &Vec::new(), &full("/home/me"));
    b.offer(b"zeta".to_vec(), true, folder(3));
    b.offer(b"Beta.txt".to_vec(), true, file(30, 1));
    b.offer(b"alpha.txt".to_vec(), true, file(10, 9));
    b.offer(b".secret".to_vec(), true, file(1, 1));
    b.offer(b"Docs".to_vec(), true, folder(5));
    b.resort();
    b
}

fn rows(b: &Browser) -> Vec<String> {
    b.entries.iter().map(|i| String::from_utf8_lossy(&i.name).into_owned()).collect()
}

fn picked(b: &Browser) -> Vec<String> {
    b.names().iter().map(|n| String::from_utf8_lossy(n).into_owned()).collect()
}

const PLAIN: Held = Held { shift: false, command: false, alt: false };
const SHIFT: Held = Held { shift: true, command: false, alt: false };
const CTRL: Held = Held { shift: false, command: true, alt: false };
const BOTH: Held = Held { shift: true, command: true, alt: false };

#[test]
fn names_are_kept_in_order_and_once() {
    let mut s = NameSet::new();
    for n in ["b", "a", "c", "b", "ab"] {
        s.insert(n.as_bytes());
    }
    let all: Vec<Vec<u8>> = (0..s.len()).map(|i| s.at(i)).collect();
    assert_eq!(all, [b"a".to_vec(), b"ab".to_vec(), b"b".to_vec(), b"c".to_vec()]);
    s.remove(b"b");
    s.remove(b"nothing");
    assert!(!s.contains(b"b") && s.contains(b"ab") && s.len() == 3 && !s.is_empty());
}

#[test]
fn folders_come_first_whatever_the_column() {
    let mut b = browser();
    assert_eq!(rows(&b), ["Docs", "zeta", "alpha.txt", "Beta.txt"]);
    b.sort_by(SortKey::Name);
    assert!(b.sort_desc);
    assert_eq!(rows(&b), ["zeta", "Docs", "Beta.txt", "alpha.txt"]);
    b.sort_by(SortKey::Size);
    assert!(b.sort_desc);
    assert_eq!(rows(&b), ["zeta", "Docs", "Beta.txt", "alpha.txt"]);
    b.sort_by(SortKey::Size);
    assert_eq!(rows(&b), ["Docs", "zeta", "alpha.txt", "Beta.txt"]);
    b.sort_by(SortKey::Modified);
    assert_eq!(rows(&b), ["Docs", "zeta", "alpha.txt", "Beta.txt"]);
    b.sort_by(SortKey::Modified);
    assert_eq!(rows(&b), ["zeta", "Docs", "Beta.txt", "alpha.txt"]);
}

#[test]
fn a_destination_lists_only_folders() {
    let mut b = Browser::new(full("/home/me"));
    b.open(Field::Dest, &None, false, &Vec::new(), &full("/home/me"));
    b.show_hidden = true;
    b.offer(b"file".to_vec(), true, file(1, 1));
    b.offer(b".dir".to_vec(), true, folder(1));
    b.offer(b"gone".to_vec(), true, None);
    b.resort();
    assert_eq!(rows(&b), [".dir"]);
    assert_eq!(b.entries[0].size, 0);
    // A name that is no text is not taken for hidden.
    b.show_hidden = false;
    b.offer(b".x\xff".to_vec(), false, folder(1));
    assert_eq!(b.entries.len(), 2);
    b.unreadable("denied");
    assert_eq!(b.error.as_deref(), Some("cannot read this folder: denied"));
}

#[test]
fn clicks_select_as_in_every_file_manager() {
    let mut b = browser();
    b.click(2, PLAIN);
    assert_eq!(picked(&b), ["alpha.txt"]);
    b.click(0, CTRL);
    assert_eq!(picked(&b), ["Docs", "alpha.txt"]);
    b.click(0, CTRL);
    assert_eq!(picked(&b), ["alpha.txt"]);
    // From the last row clicked, both ends included, in either direction.
    b.click(2, SHIFT);
    assert_eq!(picked(&b), ["Docs", "alpha.txt", "zeta"]);
    b.click(3, PLAIN);
    b.click(1, SHIFT);
    assert_eq!(picked(&b), ["Beta.txt", "alpha.txt", "zeta"]);
    b.click(0, PLAIN);
    b.click(3, BOTH);
    assert_eq!(picked(&b).len(), 4);
    b.click(1, Held { shift: true, command: false, alt: true });
    assert_eq!(picked(&b), ["zeta"]);
    b.select_all();
    assert_eq!(picked(&b).len(), 4);
    b.clear_selection();
    assert!(picked(&b).is_empty() && b.anchor.is_none());
}

#[test]
fn the_button_takes_what_it_says() {
    let mut b = browser();
    assert_eq!(b.action(Field::Source, "drive"), "Choose “me”");
    assert_eq!(b.action(Field::Dest, "drive"), "Copy into “me”");
    assert!(matches!(b.take(), Taken::One(p) if p.text(Os::Linux) == "/home/me"));
    assert_eq!(b.selection_note(), None);
    b.click(2, PLAIN);
    assert_eq!(b.action(Field::Source, "drive"), "Choose “alpha.txt”");
    assert!(matches!(b.take(), Taken::One(p) if p.text(Os::Linux) == "/home/me/alpha.txt"));
    assert_eq!(b.selection_note().unwrap(), "1 selected · 10 B");
    b.select_all();
    assert_eq!(b.action(Field::Source, "drive"), "Choose 4 items");
    assert_eq!(
        b.selection_note().unwrap(),
        "4 selected · 40 B · 2 folders (contents counted when it starts)"
    );
    match b.take() {
        Taken::Several { folder, names } => {
            assert_eq!(folder.text(Os::Linux), "/home/me");
            assert_eq!(names, [b"Beta.txt".to_vec(), b"Docs".to_vec(), b"alpha.txt".to_vec(), b"zeta".to_vec()]);
        }
        _ => panic!("not several"),
    }
    b.go(full("/"));
    assert_eq!(b.action(Field::Dest, "USB (D:)"), "Copy into “USB (D:)”");
    assert!(picked(&b).is_empty());
}

#[test]
fn double_clicks_open_or_take() {
    let b = browser();
    assert!(matches!(b.double_click(0), Opened::Folder(p) if p.text(Os::Linux) == "/home/me/Docs"));
    assert!(matches!(b.double_click(2), Opened::File(p) if p.text(Os::Linux) == "/home/me/alpha.txt"));
}

#[test]
fn the_drive_side_never_leaves_its_drive() {
    let drives = vec![full("/media/usb")];
    let home = full("/home/me");
    let mut b = Browser::new(full("/home/me"));
    b.open(Field::Dest, &None, false, &drives, &home);
    assert!(b.drive_root.is_none());
    b.enter_drive(full("/media/usb"));
    b.go(full("/media/usb/a"));
    assert!(b.up(Field::Dest));
    assert_eq!(b.cwd.text(Os::Linux), "/media/usb");
    // At the root of the drive, up leads back to the drives.
    assert!(!b.up(Field::Dest));
    assert!(b.drive_root.is_none());
    assert_eq!(b.cwd.text(Os::Linux), "/media/usb");
    // The other side climbs freely, and does not start on a drive by accident.
    b.open(Field::Source, &None, false, &drives, &home);
    assert_eq!(b.cwd.text(Os::Linux), "/home/me");
    assert!(b.up(Field::Source) && b.up(Field::Source));
    assert!(!b.up(Field::Source));
    // What was chosen before is where it starts.
    b.open(Field::Dest, &Some(full("/media/usb/x/y")), true, &drives, &home);
    assert_eq!(show(&b.drive_root).unwrap(), "/media/usb");
    assert_eq!(b.cwd.text(Os::Linux), "/media/usb/x/y");
    b.open(Field::Source, &Some(full("/data/a.iso")), false, &drives, &home);
    assert_eq!(b.cwd.text(Os::Linux), "/data");
    // A size column that a destination does not have is not sorted by.
    b.sort_by(SortKey::Size);
    b.open(Field::Dest, &None, false, &drives, &home);
    assert!(b.sort_key == SortKey::Name && !b.sort_desc);
    assert_eq!(title(Field::Dest, Field::Dest), "Choose an external drive to copy into");
    b.new_folder = Some("  pics ".to_string());
    assert_eq!(b.folder_to_make().unwrap(), "pics");
    b.new_folder = Some(" \t".to_string());
    assert!(b.folder_to_make().is_none());
    b.close();
    assert!(b.open_for.is_none());
}

// ── the window ──

fn ui() -> Ui {
    Ui::new(false, full("/home/me"), Vec::new())
}

const FINE: StartFacts = StartFacts {
    src_exists: true,
    src_is_dir: true,
    dst_exists: true,
    parent_exists: true,
    parent_on_drive: true,
    src_on_drive: false,
    dst_on_drive: true,
};

fn chosen() -> Ui {
    let mut u = ui();
    u.commit_single(full("/home/me/Photos"));
    u.use_drive(&full("/media/usb"));
    u
}

#[test]
fn a_start_describes_the_whole_run() {
    let mut u = chosen();
    u.skip_cloud = true;
    u.finish_without(vec![RelPath::root().join(b"x")]);
    let s = u.start(FINE).unwrap();
    assert_eq!(s.src.text(Os::Linux), "/home/me/Photos");
    assert_eq!(s.dst.text(Os::Linux), "/media/usb/Photos");
    assert!(s.opts.mode == Mode::Copy && !s.opts.verify && s.opts.job_tag.is_none());
    assert!(s.filter.excludes(b"OneDrive") && !s.filter.excludes(b"node_modules"));
    assert_eq!(s.skip_rels.len(), 1);
    assert!(u.screen == Screen::Running && u.skip_rels.is_empty());
    // Giving up on files is for one run.
    assert!(u.start(FINE).unwrap().skip_rels.is_empty());
}

#[test]
fn a_selection_lands_item_by_item_under_its_own_tag() {
    let mut u = chosen();
    u.src_names = vec![b"a".to_vec(), b"b".to_vec()];
    let s = u.start(FINE).unwrap();
    assert_eq!(s.dst.text(Os::Linux), "/media/usb");
    assert_eq!(s.opts.selection, ["a", "b"]);
    let want = format!("{:032x}", xxhash_rust::xxh3::xxh3_128(b"a\0b\0"));
    assert_eq!(s.opts.job_tag.unwrap(), want);
    u.src_names = vec![b"ab".to_vec()];
    assert_ne!(u.start(FINE).unwrap().opts.job_tag.unwrap(), want);
}

#[test]
fn an_absent_drive_is_never_written() {
    let mut u = chosen();
    assert!(u.start(StartFacts { dst_exists: false, ..FINE }).is_none());
    assert_eq!(
        u.error.as_deref(),
        Some("That drive isn't connected any more — plug it back in and try again.")
    );
    // A resumed destination may be missing, but not its drive.
    u.exact_dst = true;
    assert!(u.start(StartFacts { dst_exists: false, parent_on_drive: false, ..FINE }).is_none());
    assert!(u.start(StartFacts { dst_exists: false, ..FINE }).is_some());
    let mut u = chosen();
    assert!(u.start(StartFacts { src_exists: false, ..FINE }).is_none());
    assert_eq!(u.error.as_deref(), Some("That folder no longer exists — pick it again."));
    u.eject_began();
    assert!(u.start(FINE).is_none());
    assert_eq!(u.error.as_deref(), Some("The drive is still being removed — wait a moment."));
    assert!(ui().start(FINE).is_none());
}

#[test]
fn a_resumed_destination_is_used_as_it_is() {
    let mut u = chosen();
    u.exact_dst = true;
    let s = u.start(FINE).unwrap();
    assert_eq!(s.dst.text(Os::Linux), "/media/usb");
    assert!(s.opts.verify);
}

#[test]
fn a_move_takes_two_presses() {
    let mut u = chosen();
    assert!(u.press_start());
    u.set_mode(Mode::Move);
    assert!(u.verify);
    assert!(!u.press_start() && u.move_armed);
    u.set_verify(false);
    assert!(!u.move_armed);
    assert!(!u.press_start());
    assert!(u.press_start() && !u.move_armed);
    u.press_start();
    u.disarm();
    assert!(!u.move_armed);
    // Nothing begins with half a pair, or with one place twice.
    u.dst = None;
    assert!(!u.press_start() && !u.move_armed);
    u.dst = Some(full("/home/me/Photos"));
    assert!(!u.is_ready() && u.same_place());
}

#[test]
fn every_change_disarms_a_move() {
    let armed = || {
        let mut u = chosen();
        u.set_mode(Mode::Move);
        u.press_start();
        assert!(u.move_armed);
        u
    };
    let mut u = armed();
    u.set_skip_caches(true);
    assert!(!u.move_armed && u.conflict_key.is_none());
    let mut u = armed();
    u.set_skip_cloud(true);
    assert!(!u.move_armed);
    let mut u = armed();
    u.set_on_exists(OnExists::Keep);
    assert!(!u.move_armed);
    let mut u = armed();
    u.commit(Field::Dest);
    assert!(!u.move_armed && show(&u.dst).unwrap() == "/home/me");
    let mut u = armed();
    u.commit(Field::Source);
    assert!(!u.move_armed);
    let mut u = armed();
    u.dropped(full("/x"), false);
    assert!(!u.move_armed && show(&u.src).unwrap() == "/x");
    let mut u = armed();
    u.set_direction(Direction::FromDrive);
    assert!(!u.move_armed && u.src.is_none() && u.dst.is_none());
    assert!(u.browser.locked == Field::Source && u.locked_field() == Field::Source);
}

#[test]
fn enter_starts_a_copy_and_never_a_move() {
    let mut u = chosen();
    assert!(u.enter_starts());
    u.toggle_about();
    assert!(!u.enter_starts());
    u.toggle_about();
    u.set_mode(Mode::Move);
    assert!(!u.enter_starts());
}

#[test]
fn escape_undoes_one_step() {
    let mut u = chosen();
    u.set_mode(Mode::Move);
    u.press_start();
    u.browser = browser();
    u.browser.click(0, PLAIN);
    u.browser.new_folder = Some("x".to_string());
    u.toggle_about();
    u.escape();
    assert!(!u.show_about && u.browser.new_folder.is_some());
    u.escape();
    assert!(u.browser.new_folder.is_none() && u.browser.names().len() == 1);
    u.escape();
    assert!(u.browser.names().is_empty() && u.browser.open_for.is_some());
    u.escape();
    assert!(u.browser.open_for.is_none() && u.move_armed);
    u.escape();
    assert!(!u.move_armed);
    u.open_erase(Vec::<DriveInfo>::new());
    assert!(u.screen == Screen::Erase);
    u.escape();
    assert!(u.screen == Screen::Pick);
}

#[test]
fn one_connected_drive_is_filled_in_once() {
    let one = vec![full("/media/usb")];
    let mut u = ui();
    assert!(!u.auto_fill(&one));
    assert_eq!(show(&u.dst).unwrap(), "/media/usb");
    assert!(u.auto_filled());
    // Cleared by hand, it does not snap back; another drive does.
    u.dst = None;
    assert!(u.auto_fill(&one));
    assert!(u.dst.is_none());
    assert!(!u.auto_fill(&vec![full("/media/other")]));
    assert_eq!(show(&u.dst).unwrap(), "/media/other");
    let mut u = ui();
    assert!(u.auto_fill(&vec![full("/a"), full("/b")]));
    u.set_direction(Direction::FromDrive);
    assert!(!u.auto_fill(&one));
    assert_eq!(show(&u.src).unwrap(), "/media/usb");
}

#[test]
fn a_source_on_a_drive_suggests_the_other_way() {
    let mut u = ui();
    u.commit_single(full("/media/usb/Photos"));
    assert!(u.suggests_turn(true) && !u.suggests_turn(false));
    u.auto_fill(&vec![full("/media/usb")]);
    assert!(u.suggests_turn(true));
    u.use_drive(&full("/media/two"));
    assert!(!u.suggests_turn(true));
    u.turn_keeping_source();
    assert!(u.direction == Direction::FromDrive && u.dst.is_none());
    assert_eq!(show(&u.src).unwrap(), "/media/usb/Photos");
    // Something dropped from this computer can only be meant the first way.
    u.dropped(full("/home/me/x"), false);
    assert!(u.direction == Direction::ToDrive);
    u.sync_locked();
    assert!(u.browser.locked == Field::Dest);
}

#[test]
fn conflicts_are_counted_again_when_anything_changes() {
    let mut u = chosen();
    assert!(u.wants_conflicts(true, Os::Linux));
    u.set_conflicts(3);
    assert!(!u.wants_conflicts(true, Os::Linux));
    u.skip_cloud = true;
    assert!(u.wants_conflicts(true, Os::Linux));
    u.src_names = vec![b"a".to_vec()];
    assert!(u.wants_conflicts(true, Os::Linux));
    u.src_names = vec![b"b".to_vec()];
    assert!(u.wants_conflicts(true, Os::Linux));
    assert!(u.conflicts == 3);
    u.dst = None;
    assert!(!u.wants_conflicts(true, Os::Linux) && u.conflicts == 0);
    assert_eq!(conflict_note(1).unwrap(), "1 file already on the drive and different.");
    assert_eq!(conflict_note(0), None);
}

#[test]
fn the_fields_say_what_they_hold() {
    assert_eq!(field_label(&None, 0, Os::Linux), "nothing chosen yet");
    assert_eq!(field_label(&Some(full("/a/b")), 0, Os::Linux), "/a/b");
    assert_eq!(field_label(&Some(full("/a/b")), 3, Os::Linux), "3 items in /a/b");
    let u = chosen();
    assert_eq!(u.new_folder_name(true).unwrap(), "Photos");
    assert_eq!(u.new_folder_name(false), None);
    assert_eq!(show(&u.landed(true)).unwrap(), "/media/usb/Photos");
    assert!(move_note(Direction::FromDrive, true).contains("the drive no longer has a copy"));
    assert!(move_note(Direction::ToDrive, false).contains("not read back first"));
}

#[test]
fn screens_are_left_only_when_it_is_safe() {
    let mut u = chosen();
    assert!(u.shows_chips());
    assert!(u.toggle_history());
    assert!(u.screen == Screen::History && !u.toggle_history() && u.screen == Screen::Pick);
    u.finished();
    assert!(u.screen == Screen::Done && u.may_eject());
    u.eject_began();
    assert!(!u.may_eject() && !u.shows_chips());
    u.again();
    assert!(u.screen == Screen::Done);
    u.eject_ended(Err("busy".to_string()));
    assert!(u.may_eject());
    u.eject_ended(Ok("safe".to_string()));
    assert!(!u.may_eject());
    u.exact_dst = true;
    u.again();
    assert!(u.screen == Screen::Pick && !u.exact_dst && u.eject_status.is_none());
    u.toggle_dark();
    assert!(u.dark);
    u.leave_erase();
    assert!(next_frame(true, false, None) == Repaint::Tick);
    assert!(next_frame(false, true, None) == Repaint::Now);
    assert!(next_frame(false, false, Some(0)) == Repaint::Now);
    assert!(next_frame(false, false, Some(300)) == Repaint::In(300));
    assert!(next_frame(false, false, None) == Repaint::Wait);
}

// ── the card ──

fn owed(mode: Mode, files_done: usize) -> Pending {
    Pending {
        src: "/home/me/Photos".to_string(),
        dst: "/media/usb/Photos".to_string(),
        mode,
        files_done,
        files_total: 9,
        bytes_done: 1500,
        bytes_total: 5_000_000,
        sample: vec!["a".to_string()],
        names: Vec::new(),
        skip_caches: true,
        skip_cloud: false,
    }
}

const THERE: CardFacts = CardFacts {
    src_exists: true,
    dst_exists: true,
    parent_exists: true,
    parent_on_drive: true,
    src_removable: false,
    dst_removable: true,
    sample_at_src: true,
    sample_at_dst: true,
};

#[test]
fn a_copy_goes_on_with_one_press() {
    let mut u = ui();
    u.pending = vec![owed(Mode::Copy, 2), owed(Mode::Move, 1)];
    assert_eq!(
        card_line(&u.pending[0]),
        "/home/me/Photos  →  /media/usb/Photos   ·   2 of 9 files finished (1.5 kB of 5.0 MB)"
    );
    assert!(u.press_continue(THERE, full("/home/me/Photos"), full("/media/usb/Photos"), Vec::new()));
    assert!(u.exact_dst && u.skip_caches && !u.verify && u.direction == Direction::ToDrive);
    assert_eq!(u.pending.len(), 1);
    u.not_now();
    assert!(u.pending.is_empty());
}

#[test]
fn a_move_goes_on_with_two() {
    let mut u = ui();
    u.pending = vec![owed(Mode::Move, 2)];
    let f = CardFacts { src_removable: true, dst_removable: false, sample_at_src: false, ..THERE };
    let go = |u: &mut Ui| u.press_continue(f, full("/s"), full("/d"), vec![b"n".to_vec()]);
    assert!(!go(&mut u) && u.pending_armed);
    assert!(go(&mut u) && !u.pending_armed);
    assert!(u.mode == Mode::Move && u.verify && u.direction == Direction::FromDrive);
    assert_eq!(u.src_names, [b"n".to_vec()]);
}

#[test]
fn a_strange_drive_is_noticed() {
    let strange = CardFacts { sample_at_dst: false, ..THERE };
    let c = Card::of(&owed(Mode::Copy, 2), strange);
    assert!(c.ready && c.needs_arm && !c.same_drive);
    assert_eq!(c.label(Mode::Copy, false), "Copy everything again");
    assert!(c.suspicion(Mode::Copy).unwrap().contains("may be a different drive"));
    let c = Card::of(&owed(Mode::Move, 2), strange);
    assert!(!c.ready);
    assert!(c.suspicion(Mode::Move).unwrap().contains("pick the destination again"));
    let mut u = ui();
    u.pending = vec![owed(Mode::Move, 2)];
    assert!(!u.press_continue(strange, full("/s"), full("/d"), Vec::new()) && !u.pending_armed);
    // Nothing finished yet, nothing to miss.
    assert!(Card::of(&owed(Mode::Move, 0), strange).ready);
    let away = CardFacts { dst_exists: false, parent_on_drive: false, ..THERE };
    let c = Card::of(&owed(Mode::Copy, 2), away);
    assert!(!c.ready && !c.dst_ok);
    assert!(c.missing("/media/usb").unwrap().starts_with("Plug in the drive this was going to (/media/usb)"));
    let c = Card::of(&owed(Mode::Copy, 2), CardFacts { src_exists: false, ..THERE });
    assert_eq!(c.missing("x").unwrap(), "The source folder isn't reachable right now.");
    let c = Card::of(&owed(Mode::Copy, 2), THERE);
    assert!(c.missing("x").is_none() && c.suspicion(Mode::Copy).is_none());
    assert_eq!(c.label(Mode::Copy, false), "Continue copying");
    assert_eq!(c.label(Mode::Move, true), "Confirm — originals are deleted after copying");
}

// ── running ──

#[test]
fn carried_bytes_never_count_as_speed() {
    let mut s = Shared::new();
    assert!(s.looking());
    s.files_total = 10;
    s.bytes_total = 1000;
    assert!(!s.looking());
    assert_eq!(s.current_line(), "starting…");
    s.tell(Progress::Dirs { done: 3, total: 7 });
    assert_eq!(s.current_line(), "making folders on the drive — 3 of 7");
    s.tell(Progress::File { rel: "a/b".to_string() });
    assert_eq!(s.current_line(), "a/b");
    s.tell(Progress::Skipped(600));
    s.tell(Progress::FileSkipped);
    s.tell(Progress::Bytes(100));
    assert_eq!((s.bytes_done, s.bytes_fresh), (700, 100));
    s.tell(Progress::FileDone);
    assert_eq!(s.files_line(None), "2 of 10 files · 1 from earlier runs, checked");
    assert_eq!(s.files_line(Some(42)), "2 of 10 files · 1 from earlier runs, checked · 42 files a second");
    assert_eq!(s.headline(0), "");
    assert_eq!(s.headline(1), "about 5 minutes left");
    assert_eq!(running_title(Mode::Move), "Moving");
}

#[test]
fn work_that_moves_no_bytes_is_named() {
    let mut s = Shared::new();
    s.tell(Progress::Checking { rel: "big".to_string(), bytes: 0 });
    assert_eq!(s.headline(0), "checking what's already on the drive — 1 B verified");
    s.tell(Progress::Checking { rel: "big".to_string(), bytes: 2_000_000 });
    assert_eq!(s.headline(0), "checking what's already on the drive — 2.0 MB verified");
    s.tell(Progress::File { rel: "big".to_string() });
    assert_eq!(s.checking, 0);
    s.tell(Progress::DeletePhase { total: 5 });
    s.tell(Progress::Deleted);
    assert_eq!(s.headline(0), "everything is copied and checked — removing the originals, 1 of 5");
}

#[test]
fn the_estimate_is_itemised_when_both_parts_are_known() {
    let mut s = Shared::new();
    let eta = |seconds, small_secs, big_secs| Progress::Eta {
        seconds,
        small_left: 214_000,
        small_secs,
        big_bytes: 70_000_000_000,
        big_secs,
    };
    s.tell(eta(Some(7800), Some(7200), Some(0)));
    assert_eq!(s.headline(0), "about 2 h 10 m left");
    assert_eq!(
        s.parts_line().unwrap(),
        "214,000 small files (about 2 h 0 m), then 70.0 GB in larger files (less than a minute)"
    );
    s.tell(eta(None, Some(1), None));
    assert!(s.parts_line().is_none() && s.eta_secs.is_none());
    s.tell(eta(Some(u64::MAX), None, None));
    assert!(s.eta_secs.is_none());
}

#[test]
fn problems_and_caches_are_told_while_it_runs() {
    let mut s = Shared::new();
    assert!(s.problem_line().is_none());
    s.tell(Progress::Errors { total: 1 });
    assert!(s.problem_line().unwrap().starts_with("1 file couldn't be read so far"));
    s.files_total = 60_000;
    s.cache_files = 20_001;
    assert!(s.cache_line().unwrap().contains("20,001 of these files are app caches"));
    s.files_done = 40_000;
    assert!(s.cache_line().is_none());
    s.files_done = 0;
    s.cache_files = 20_000;
    assert!(s.cache_line().is_none());
    s.cache_files = 50_000;
    s.finished = true;
    assert!(s.cache_line().is_none() && s.problem_line().is_none());
}

// ── done ──

fn summary() -> Summary {
    Summary {
        stopped: false,
        files_copied: 1,
        files_skipped: 2,
        kept_existing: 0,
        files_verified: 3,
        bytes_written: 10,
        sources_deleted: 1,
        errors: Vec::new(),
    }
}

#[test]
fn the_outcome_is_told_as_it_is() {
    assert_eq!(heading(0, false, Mode::Copy), "Copied");
    assert_eq!(heading(0, false, Mode::Move), "Moved");
    assert_eq!(heading(0, true, Mode::Move), "Stopped");
    assert_eq!(heading(2, true, Mode::Copy), "2 files couldn't be copied");
    let s = summary();
    assert_eq!(count_lines(&s), ["1 file written", "2 files already there", "3 files checked after writing"]);
    assert_eq!(removed_line(&s).unwrap(), "1 original removed");
    assert_eq!(left_out_line(0), None);
    assert_eq!(left_out_line(2).unwrap(), "2 items left out");
    let sk = Skipped { rel: RelPath::root().join(b"l"), absolute: true, why: "a link".to_string() };
    assert_eq!(left_out_row(&sk, "/src", Os::Linux), "  /src/l: a link");
    assert!(can_continue(true, true, 0) && can_continue(true, false, 1));
    assert!(!can_continue(false, true, 1) && !can_continue(true, false, 0));
    assert!(offers_finish(true, false, 1, Mode::Copy));
    assert!(!offers_finish(true, false, 1, Mode::Move) && !offers_finish(true, true, 1, Mode::Copy));
    assert!(eject_side(true, true) == Some(Field::Dest));
    assert!(eject_side(false, true) == Some(Field::Source));
    assert!(eject_side(false, false).is_none());
}

#[test]
fn failures_name_their_files() {
    let mut m = Manifest::empty();
    m.dirs.push(RelPath::root().join(b"d"));
    let rel = RelPath::root().join(b"d").join(b"f");
    m.files.push(Entry { rel, size: 1, mtime: 0, mtime_ns: 0 });
    let p = |place| Problem { place, why: "No such file".to_string() };
    let v = vec![p(Place::File(0)), p(Place::Here), p(Place::Dir(0)), p(Place::File(9))];
    let names: Vec<String> = failed_entries(&m, &v).iter().map(|r| r.text(Os::Linux)).collect();
    assert_eq!(names, ["d/f", "d"]);
    assert_eq!(
        failure_row(&failed_entry(&m, Place::File(0)), "No such file"),
        "  f — the file went away before it could be copied"
    );
    assert_eq!(failure_row(&None, "odd"), "  . — odd");
}

#[test]
fn the_history_tells_each_run() {
    assert_eq!(history_status(true, 3), "finished");
    assert_eq!(history_status(false, 3), "3 error(s)");
    assert_eq!(history_status(false, 0), "stopped — resumable");
    assert_eq!(history_detail(2, 1500, 0, "5 s"), "2 file(s), 1.5 kB · 5 s");
    assert_eq!(history_detail(2, 1500, 7, "2 min"), "2 file(s), 1.5 kB · 7 already there · 2 min");
}

#[test]
fn the_themes_share_their_accent() {
    let (l, d) = (palette(false), palette(true));
    assert_eq!(l.ground, Rgb { r: 0xEE, g: 0xF3, b: 0xF1 });
    assert_eq!(d.amber, rgb(0xD9A03C));
    assert_eq!(l.teal_bright, d.teal_bright);
    assert_eq!(d.teal, d.teal_bright);
    assert_ne!(l.teal, l.teal_bright);
    assert_eq!(on_accent(&l), rgb(0xFFFFFF));
    assert_eq!(on_accent(&d), d.ground);
    assert!(prefers_dark(&Some("dark".to_string())));
    assert!(!prefers_dark(&Some("Dark".to_string())) && !prefers_dark(&None));
}

#[test]
fn a_continued_selection_keeps_its_tag() {
    let names = || vec![b"a".to_vec(), "\u{e9}t\u{e9}".as_bytes().to_vec()];
    let mut u = chosen();
    u.src_names = names();
    let first = u.start(FINE).unwrap();
    let mut u = ui();
    u.pending = vec![owed(Mode::Copy, 0)];
    let at = first.dst.copy();
    assert!(u.press_continue(THERE, full("/home/me/Photos"), at, names()));
    let again = u.start(FINE).unwrap();
    assert_eq!(again.opts.job_tag, first.opts.job_tag);
    assert_eq!(again.opts.selection, first.opts.selection);
    assert!(again.dst.is_same(&first.dst) && again.src.is_same(&first.src));
    assert!(again.opts.skip_caches && again.opts.verify);
}
