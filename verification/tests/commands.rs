//! The command line.

use kevat::cli::{eta_note, exit_code, human, nothing_to_copy, parse, percent, Args, Command};
use kevat::engine::OnExists;
use kevat::journal::Mode;

fn read(words: &[&str]) -> Result<Command, String> {
    parse(&words.iter().map(|w| w.to_string()).collect())
}

fn args(words: &[&str]) -> Args {
    match read(words) {
        Ok(Command::Run(a)) => a,
        _ => panic!("no run"),
    }
}

fn refused(words: &[&str]) -> String {
    match read(words) {
        Err(e) => e,
        _ => panic!("not refused"),
    }
}

#[test]
fn options_stand_anywhere() {
    let a = args(&["--move", "/src", "--paranoid", "/dst", "--dry-run"]);
    assert_eq!((a.src.as_deref(), a.dst.as_deref()), (Some("/src"), Some("/dst")));
    assert!(a.moving && a.paranoid && a.dry_run);
    assert_eq!(a.mode(), Mode::Move);
    assert!(a.verifies());
    let a = args(&[]);
    assert!(a.src.is_none() && a.dst.is_none());
    assert_eq!((a.mode(), a.verifies()), (Mode::Copy, false));
    assert_eq!(a.on_exists, OnExists::Replace);
}

#[test]
fn verification_can_be_chosen_either_way() {
    assert!(args(&["--verify"]).verifies());
    assert!(!args(&["--move", "--no-verify"]).verifies());
    assert!(args(&["--no-verify", "--verify"]).verifies());
}

#[test]
fn existing_files_have_three_policies() {
    assert_eq!(args(&["--exists=keep"]).on_exists, OnExists::Keep);
    assert_eq!(args(&["--exists=fail"]).on_exists, OnExists::Fail);
    assert_eq!(args(&["--exists=keep", "--exists=replace"]).on_exists, OnExists::Replace);
    assert_eq!(
        refused(&["--exists=k\"x"]),
        "--exists must be replace, keep or fail (got \"k\\\"x\")"
    );
}

#[test]
fn filters_come_from_three_options() {
    let f = args(&["--skip-caches", "--skip-cloud", "--exclude=Target", "--exclude=x"]).filter();
    assert!(f.excludes(b"node_modules") && f.excludes(b"OneDrive - Me"));
    assert!(f.excludes(b"target") && f.excludes(b"X") && !f.excludes(b"src"));
    assert_eq!(refused(&["--exclude="]), "--exclude needs a name (--exclude=node_modules)");
}

#[test]
fn what_is_not_understood_is_refused() {
    assert_eq!(refused(&["--mvoe"]), "unknown option: --mvoe");
    assert_eq!(refused(&["-"]), "unknown option: -");
    assert_eq!(refused(&["a", "b", "c", "d"]), "unexpected argument: c");
    assert_eq!(args(&["", "b"]).src.as_deref(), Some(""));
}

#[test]
fn the_first_word_that_decides_wins() {
    assert!(matches!(read(&["a", "-h", "--nonsense"]), Ok(Command::Help)));
    assert!(matches!(read(&["--version"]), Ok(Command::Version)));
    assert!(matches!(read(&["-V"]), Ok(Command::Version)));
    assert!(matches!(read(&["--help"]), Ok(Command::Help)));
    assert!(read(&["--nonsense", "-h"]).is_err());
}

#[test]
fn a_scan_of_nothing_but_skips_is_a_failure() {
    assert!(nothing_to_copy(0, 3, false));
    assert!(!nothing_to_copy(0, 0, false));
    assert!(!nothing_to_copy(0, 3, true));
    assert!(!nothing_to_copy(1, 3, false));
    assert_eq!((exit_code(false, 0), exit_code(false, 2), exit_code(true, 2)), (0, 1, 0));
}

#[test]
fn the_live_line_reads_well() {
    assert_eq!(eta_note(None, 0, None), "");
    assert_eq!(eta_note(Some(59), 0, None), "  under a minute left");
    assert_eq!(eta_note(Some(90), 0, None), "  about 2 m left");
    assert_eq!(eta_note(Some(7800), 0, None), "  about 2 h 10 m left");
    assert_eq!(
        eta_note(Some(1000), 20_000, Some(700)),
        "  about 17 m left  (20000 small files are most of it)"
    );
    assert_eq!(eta_note(Some(1400), 20_000, Some(700)), "  about 23 m left");
    assert_eq!(eta_note(Some(1000), 10_000, Some(700)), "  about 17 m left");
    assert_eq!((percent(1, 3), percent(5, 0), percent(u64::MAX, u64::MAX)), (33, 0, 100));
    assert_eq!(human(1536), "1.5 KiB");
}
