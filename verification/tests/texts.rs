//! Numbers, dates and errors as they are shown.

use kevat::size::{eta, eta_words, gigabytes, human, human_binary, speed};
use kevat::words::{
    fmt_mtime, humanize_error, humanize_lowered, mentions, moment_utc, more_note, plural, shorten,
    thousands,
};

#[test]
fn eta_is_coarse_and_honest() {
    // No rate yet, or nothing left: nothing to promise.
    assert_eq!(eta(1_000_000, 0), None);
    assert_eq!(eta(0, 5_000_000), None);
    // Under a minute is never given false precision.
    assert_eq!(eta(1_000_000, 10_000_000).unwrap(), "less than a minute left");
    // Singular and plural minutes, rounded.
    assert_eq!(eta(60_000_000, 1_000_000).unwrap(), "about 1 minute left");
    assert_eq!(eta(150_000_000, 1_000_000).unwrap(), "about 3 minutes left");
    // Hours for the long haul.
    assert!(eta(9_000_000_000, 1_000_000).unwrap().starts_with("about 2 h"));
}

#[test]
fn human_uses_decimal_drive_units() {
    assert_eq!(human(512), "512 B");
    assert_eq!(human(1500), "1.5 kB");
    assert_eq!(human(5_000_000), "5.0 MB");
    assert_eq!(human(64_000_000_000), "64.0 GB");
}

#[test]
fn speed_switches_to_gb_when_fast() {
    assert_eq!(speed(120_000_000), "120 MB/s");
    assert_eq!(speed(2_500_000_000), "2.5 GB/s");
}

#[test]
fn plural_is_grammatical() {
    assert_eq!(plural(1, "file"), "1 file");
    assert_eq!(plural(3, "file"), "3 files");
}

fn human_in_floats(bytes: u64) -> String {
    let units = ["B", "kB", "MB", "GB", "TB"];
    let mut v = bytes as f64;
    let mut i = 0;
    while v >= 1000.0 && i < units.len() - 1 {
        v /= 1000.0;
        i += 1;
    }
    if i == 0 {
        format!("{bytes} B")
    } else {
        format!("{v:.1} {}", units[i])
    }
}

fn human_binary_in_floats(bytes: u64) -> String {
    let units = ["B", "KiB", "MiB", "GiB", "TiB"];
    let mut v = bytes as f64;
    let mut i = 0;
    while v >= 1024.0 && i < units.len() - 1 {
        v /= 1024.0;
        i += 1;
    }
    if i == 0 {
        format!("{} {}", bytes, units[0])
    } else {
        format!("{v:.1} {}", units[i])
    }
}

fn samples() -> Vec<u64> {
    let mut v = vec![0, 1, 999, 1000, 1023, 1024, 1049, 1050, 1051, 1250, 1350, 999_949, 999_950];
    v.extend([999_999, 1_000_000, 1_048_575, 1_048_576, 1_150_000, u64::MAX, u64::MAX - 1]);
    let mut x: u64 = 88_172_645_463_325_252;
    for shift in 0..2000u32 {
        x ^= x << 13;
        x ^= x >> 7;
        x ^= x << 17;
        v.push(x >> (shift % 60));
    }
    v
}

#[test]
fn sizes_read_as_binary_floats_would_print_them() {
    for b in samples() {
        assert_eq!(human(b), human_in_floats(b), "{b}");
        assert_eq!(human_binary(b), human_binary_in_floats(b), "{b}");
        assert_eq!(gigabytes(b), format!("{:.1}", b as f64 / 1e9), "{b}");
    }
}

#[test]
fn speeds_read_as_binary_floats_would_print_them() {
    for b in samples() {
        let want = if b as f64 >= 1_000_000_000.0 {
            format!("{:.1} GB/s", b as f64 / 1_000_000_000.0)
        } else {
            format!("{:.0} MB/s", b as f64 / 1_000_000.0)
        };
        assert_eq!(speed(b), want, "{b}");
    }
}

#[test]
fn times_left_round_as_floats_do() {
    for (i, b) in samples().into_iter().enumerate() {
        let rate = 1 + (i as u64) * 37_501;
        if b == 0 {
            continue;
        }
        let secs = (b as f64 / rate as f64).round() as u64;
        assert_eq!(eta(b, rate).unwrap(), format!("{} left", eta_words(secs)), "{b} {rate}");
    }
}

#[test]
fn durations_have_three_shapes() {
    assert_eq!(eta_words(0), "less than a minute");
    assert_eq!(eta_words(59), "less than a minute");
    assert_eq!(eta_words(60), "about 1 minute");
    assert_eq!(eta_words(3599), "about 60 minutes");
    assert_eq!(eta_words(7800), "about 2 h 10 m");
}

#[test]
fn counts_get_commas() {
    assert_eq!(thousands(0), "0");
    assert_eq!(thousands(999), "999");
    assert_eq!(thousands(1000), "1,000");
    assert_eq!(thousands(214_000), "214,000");
    assert_eq!(thousands(1_000_001), "1,000,001");
    assert_eq!(thousands(u64::MAX), "18,446,744,073,709,551,615");
}

#[test]
fn long_paths_keep_their_end() {
    assert_eq!(shorten("/a/b", 4), "/a/b");
    assert_eq!(shorten("/home/someone/file", 6), "…/file");
    assert_eq!(shorten("héllo", 4), "…llo");
    assert_eq!(shorten("ab", 1), "…");
}

#[test]
fn errors_are_worded_for_people() {
    assert_eq!(
        humanize_error("Verify failed: hash differs"),
        "didn't copy correctly — Continue will redo it"
    );
    assert_eq!(humanize_error("open: Permission Denied (os error 13)"), "permission denied");
    assert_eq!(humanize_error("No space left on device"), "No space left on device");
    assert_eq!(humanize_error("it WON'T FIT"), "it WON'T FIT");
    assert_eq!(
        humanize_error("No such file or directory"),
        "the file went away before it could be copied"
    );
    assert_eq!(
        humanize_error("source not removed: busy"),
        "copied, but the original couldn't be deleted"
    );
    assert_eq!(humanize_error("Something ELSE"), "Something ELSE");
    // The wording goes by the lower-case form that it is given.
    assert_eq!(humanize_lowered("X", "verify failed"), "didn't copy correctly — Continue will redo it");
    assert!(mentions(&"abcdef".chars().collect(), "cde"));
    assert!(mentions(&"abc".chars().collect(), ""));
    assert!(!mentions(&"abc".chars().collect(), "abcd"));
}

#[test]
fn dates_are_those_of_the_calendar() {
    assert_eq!(fmt_mtime(0), "");
    assert_eq!(fmt_mtime(-5), "");
    assert_eq!(fmt_mtime(1), "1970-01-01 00:00");
    assert_eq!(fmt_mtime(951_782_400), "2000-02-29 00:00");
    assert_eq!(fmt_mtime(951_868_799), "2000-02-29 23:59");
    assert_eq!(fmt_mtime(951_868_800), "2000-03-01 00:00");
    assert_eq!(fmt_mtime(1_709_164_800), "2024-02-29 00:00");
    assert_eq!(fmt_mtime(4_107_542_400), "2100-03-01 00:00");
    assert_eq!(fmt_mtime(1_704_067_199), "2023-12-31 23:59");
}

#[test]
fn every_day_follows_the_day_before() {
    let mut last = moment_utc(0);
    for day in 1..60_000u64 {
        let m = moment_utc(day * 86_400 + 3_661);
        assert_eq!((m.hour, m.minute), (1, 1));
        let next_day = m.year == last.year && m.month == last.month && m.day == last.day + 1;
        let next_month = m.day == 1 && last.day >= 28
            && ((m.year == last.year && m.month == last.month + 1)
                || (m.year == last.year + 1 && m.month == 1 && last.month == 12));
        assert!(next_day || next_month, "{day}");
        last = m;
    }
    let far = moment_utc(i64::MAX as u64);
    assert!(far.year > 292_000_000_000);
}

#[test]
fn long_lists_say_how_much_is_missing() {
    assert_eq!(more_note(5, 5), None);
    assert_eq!(more_note(0, 5), None);
    assert_eq!(more_note(8, 5).unwrap(), "…and 3 more");
}
