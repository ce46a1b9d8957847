//! Drives: finding them, removing them safely, erasing them.

use kevat::drive::{
    block_base, device_for_mount, drive_kind, drive_places, is_external, mac_volume_is_external,
    media_mounts, mount_level, mounts, mounts_on_drive, removable_drives, system_letter, unescape_mountinfo,
    volume_of, wants_bus, wants_volume, wants_walk, win_drive, DiskWalk, DriveKind, Mounted,
    Volume, WinDrive,
};
use kevat::eject::{
    mac_eject_result, map_eject_err_linux, DeviceNumber, Eject, EjectAnswer, EjectAsk, PnpAnswer,
    PnpAsk, PnpEject,
};
use kevat::erase::{
    drive_entry, fat_label, format_drive, format_result, letter_entry, root_of_letter, DriveInfo,
    EraseState, Fs, Tools,
};
use kevat::path::{FullPath, Os, Part};

const TABLE: &str = "22 1 8:2 / / rw,relatime shared:1 - ext4 /dev/sda2 rw
35 22 8:17 / /run/media/me/My\\040Passport rw - exfat /dev/sdb1 rw
garbage without a separator
36 22 8:18 / /mnt/b\\134x rw - ext4 /dev/sdb2 rw
37 22 8:17 / /run/media/me/My\\040Passport ro - exfat /dev/sdb1 rw
38 22 253:0 / /media/crypt rw - ext4 /dev/mapper/luks-1 rw
39 22 0:5 / /proc rw - proc proc rw
";

fn full(text: &str) -> FullPath {
    let parts = text.split('/').filter(|p| !p.is_empty());
    FullPath {
        prefix: Vec::new(),
        rooted: text.starts_with('/'),
        parts: parts.map(|p| Part::Name(p.as_bytes().to_vec())).collect(),
    }
}

#[test]
fn the_mount_table_is_unescaped() {
    assert_eq!(unescape_mountinfo("My\\040Passport"), "My Passport");
    assert_eq!(unescape_mountinfo("a\\011b\\012c"), "a\tb\nc");
    // A backslash that was meant is not read again.
    assert_eq!(unescape_mountinfo("x\\134040"), "x\\040");
    assert_eq!(unescape_mountinfo("\\040\\040"), "  ");
    assert_eq!(unescape_mountinfo(""), "");
    let escape = |t: &str| -> String {
        t.chars()
            .map(|c| match c {
                ' ' => "\\040".to_string(),
                '\t' => "\\011".to_string(),
                '\n' => "\\012".to_string(),
                '\\' => "\\134".to_string(),
                c => c.to_string(),
            })
            .collect()
    };
    for t in ["", "plain", " \t\n\\", "\\040", "\\\\134 \\", "a\\011b", "134040"] {
        assert_eq!(unescape_mountinfo(&escape(t)), t, "{t:?}");
    }
}

#[test]
fn devices_are_found_by_their_mount_point() {
    let t = mounts(TABLE);
    assert_eq!(t.len(), 6);
    assert_eq!(device_for_mount(&t, "/").unwrap(), "/dev/sda2");
    assert_eq!(device_for_mount(&t, "/run/media/me/My Passport").unwrap(), "/dev/sdb1");
    assert_eq!(device_for_mount(&t, "/mnt/b\\x").unwrap(), "/dev/sdb2");
    assert_eq!(device_for_mount(&t, "/nowhere"), None);
    // A line that names no device still decides.
    let odd = mounts("1 2 3 4 /x rw - fs\n1 2 3 4 /x rw - fs /dev/z\n");
    assert_eq!(device_for_mount(&odd, "/x"), None);
}

#[test]
fn removable_mounts_are_listed_once() {
    let t = mounts(TABLE);
    let m: Vec<String> = media_mounts(&t).into_iter().map(|m| m.point.unwrap()).collect();
    assert_eq!(m, ["/run/media/me/My Passport", "/mnt/b\\x", "/media/crypt"]);
    let jumps = drive_places(&Some(full("/home/me")), &vec![full("/media/a b")], Os::Linux);
    let names: Vec<&str> = jumps.iter().map(|j| j.name.as_str()).collect();
    assert_eq!(names, ["Home", "a b"]);
    assert!(drive_places(&None, &Vec::new(), Os::Linux).is_empty());
    let roots = vec![full("/media/a"), full("/"), full("/media/b"), full("/media/a")];
    let r = removable_drives(&roots, &vec![true, false, true, true]);
    let r: Vec<String> = r.iter().map(|p| p.text(Os::Linux)).collect();
    assert_eq!(r, ["/media/a", "/media/b"]);
}

#[test]
fn partitions_belong_to_disks() {
    for (dev, base) in [
        ("/dev/sda1", "sda"),
        ("/dev/sdb", "sdb"),
        ("nvme0n1p5", "nvme0n1"),
        ("/dev/nvme0n1", "nvme0n1"),
        ("/dev/mmcblk0p2", "mmcblk0"),
        ("/dev/mmcblk0", "mmcblk0"),
        ("/dev/nvmep", "nvmep"),
        ("/dev/mapper/luks-1", "luks-"),
        ("", ""),
        ("/dev/123", ""),
    ] {
        assert_eq!(block_base(dev), base, "{dev}");
    }
}

#[test]
fn only_external_disks_are_external() {
    let s = |t: &str| Some(t.to_string());
    let root = s("/dev/sda2");
    assert!(is_external("/dev/sdb1", &root, &s("1\n"), &None));
    assert!(is_external("/dev/sdb1", &root, &s("0\n"), &s("/sys/devices/pci0/usb2/2-1/block/sdb")));
    assert!(!is_external("/dev/sdb1", &root, &s("0\n"), &s("/sys/devices/pci0/ata1/block/sdb")));
    assert!(!is_external("/dev/sdb1", &root, &None, &None));
    // Never the disk that carries the running system.
    assert!(!is_external("/dev/sda5", &root, &s("1"), &s("/usb")));
    assert!(is_external("/dev/sda5", &None, &s("1"), &None));
}

#[test]
fn volumes_of_a_mac_say_where_they_are() {
    assert!(mac_volume_is_external("   Device Location:           External\n"));
    assert!(mac_volume_is_external("a\r\n Removable Media:  Removable\r\n"));
    assert!(!mac_volume_is_external("   Device Location:           Internal\n"));
    assert!(!mac_volume_is_external("   Name: External\n"));
    assert!(!mac_volume_is_external(""));
}

fn on_disk(dev: &str, base: &str, below: &dyn Fn(&str) -> Vec<&'static str>) -> bool {
    let mut w = DiskWalk::begin(dev, base);
    for _ in 0..100 {
        match w.next() {
            Some(d) => w.answer(&below(&d).iter().map(|n| n.to_string()).collect()),
            None => return w.found(),
        }
    }
    panic!("it never ends");
}

#[test]
fn a_search_through_a_tangle_ends() {
    // Every device is made of itself and another: only the depth ends it.
    let mut w = DiskWalk::begin("/dev/a", "sdz");
    let mut asked = 0;
    while let Some(d) = w.next() {
        asked += 1;
        assert!(asked < 1000, "{d}");
        w.answer(&vec!["a".to_string(), "b".to_string()]);
    }
    assert!(!w.found());
    // One device, then twice as many on each layer below.
    assert_eq!(asked, 1 + 2 + 4 + 8);
}

#[test]
fn mapped_devices_are_followed_down() {
    let below = |d: &str| match d {
        "/dev/mapper/luks-1" => vec!["dm-1", "dm-2"],
        "/dev/dm-2" => vec!["sdb2"],
        "/dev/loop" => vec!["loop"],
        _ => vec![],
    };
    assert!(on_disk("/dev/sdb1", "sdb", &below));
    assert!(on_disk("/dev/mapper/luks-1", "sdb", &below));
    assert!(!on_disk("/dev/mapper/luks-1", "sdc", &below));
    // A circle ends too.
    assert!(!on_disk("/dev/loop", "sdb", &below));
    let deep = |d: &str| match d {
        "/dev/a" => vec!["b"],
        "/dev/b" => vec!["c"],
        "/dev/c" => vec!["d"],
        "/dev/d" => vec!["sdb1"],
        "/dev/top" => vec!["a"],
        _ => vec![],
    };
    assert!(on_disk("/dev/a", "sdb", &deep));
    assert!(!on_disk("/dev/top", "sdb", &deep));
}

#[test]
fn every_mount_of_a_disk_is_listed() {
    let t = mounts(TABLE);
    let below = |d: &str| if d == "/dev/mapper/luks-1" { vec!["sdb3"] } else { vec![] };
    let on: Vec<bool> = t
        .iter()
        .map(|m| wants_walk(m) && on_disk(m.device.as_deref().unwrap(), "sdb", &below))
        .collect();
    let v: Vec<(String, String)> =
        mounts_on_drive(&t, &on).into_iter().map(|m| (m.device, m.point)).collect();
    assert_eq!(
        v,
        [
            ("/dev/sdb1".to_string(), "/run/media/me/My Passport".to_string()),
            ("/dev/sdb2".to_string(), "/mnt/b\\x".to_string()),
            ("/dev/mapper/luks-1".to_string(), "/media/crypt".to_string()),
        ]
    );
}

#[test]
fn a_mount_point_is_where_the_device_changes() {
    assert_eq!(mount_level(7, &vec![Some(7), Some(7), Some(1), Some(7)]), 2);
    assert_eq!(mount_level(7, &vec![None, Some(7)]), 0);
    assert_eq!(mount_level(7, &vec![Some(7)]), 1);
    assert_eq!(mount_level(7, &Vec::new()), 0);
}

#[test]
fn drive_letters_are_listed_with_care() {
    let named = |n: &str| Volume::Named(n.to_string());
    let d = win_drive('D', DriveKind::Removable, 'C', &named("USB STICK"), false).unwrap();
    assert_eq!((d.label.as_str(), d.external), ("USB STICK (D:)", true));
    let d = win_drive('E', DriveKind::Fixed, 'C', &named(""), true).unwrap();
    assert_eq!((d.label.as_str(), d.external), ("E:", true));
    assert!(!win_drive('E', DriveKind::Fixed, 'C', &named("x"), false).unwrap().external);
    assert!(!win_drive('C', DriveKind::Removable, 'C', &named("x"), true).unwrap().external);
    assert!(!win_drive('Z', DriveKind::Remote, 'C', &Volume::Unasked, true).unwrap().external);
    assert!(win_drive('F', DriveKind::Removable, 'C', &Volume::Silent { empty: true }, false).is_none());
    assert!(win_drive('F', DriveKind::Removable, 'C', &Volume::Silent { empty: false }, false).is_some());
    assert!(win_drive('F', DriveKind::Fixed, 'C', &Volume::Silent { empty: true }, false).is_some());
    assert!(win_drive('G', DriveKind::Other, 'C', &named("x"), true).is_none());
    assert!(drive_kind(2) == DriveKind::Removable && drive_kind(5) == DriveKind::Other);
    assert_eq!(system_letter(&Some("d:".to_string())), 'D');
    assert_eq!((system_letter(&None), system_letter(&Some(String::new()))), ('C', 'C'));
    assert!(wants_volume(DriveKind::Fixed) && !wants_volume(DriveKind::Remote));
    assert!(wants_bus('D', DriveKind::Fixed, 'C') && !wants_bus('C', DriveKind::Fixed, 'C'));
    assert_eq!(volume_of("USB (A) (D:)"), "USB (A)");
    assert_eq!(volume_of("D:"), "D:");
}

// ── removing ──

fn mounted(device: &str, point: &str) -> Mounted {
    Mounted { device: device.to_string(), point: point.to_string() }
}

fn text(s: &str) -> String {
    s.to_string()
}

#[test]
fn a_drive_is_safe_once_every_part_let_go() {
    let mut e = Eject::begin(text("/dev/sdb1"), text("/m"), vec![mounted("/dev/sdb1", "/m"), mounted("/dev/sdb2", "/n")]);
    assert!(matches!(e.ask(), EjectAsk::Unmount(d) if d == "/dev/sdb1"));
    // What was not asked for does not count.
    e.answer(EjectAnswer::PoweredOff(true));
    e.answer(EjectAnswer::Still(Vec::new()));
    assert!(matches!(e.ask(), EjectAsk::Unmount(d) if d == "/dev/sdb1"));
    e.answer(EjectAnswer::Unmounted(Ok(())));
    assert!(matches!(e.ask(), EjectAsk::Unmount(d) if d == "/dev/sdb2"));
    e.answer(EjectAnswer::Unmounted(Err(text("Error: NotMounted"))));
    assert!(matches!(e.ask(), EjectAsk::PowerOff(d) if d == "/dev/sdb1"));
    e.answer(EjectAnswer::PoweredOff(true));
    assert!(matches!(e.ask(), EjectAsk::Done(Ok(s)) if s == "Powered off — unplug it."));
}

#[test]
fn a_drive_that_cannot_be_powered_off_is_looked_at_again() {
    let until = || {
        let mut e = Eject::begin(text("/dev/sdb1"), text("/m"), Vec::new());
        assert!(matches!(e.ask(), EjectAsk::Unmount(d) if d == "/dev/sdb1"));
        e.answer(EjectAnswer::Unmounted(Ok(())));
        e.answer(EjectAnswer::PoweredOff(false));
        assert!(matches!(e.ask(), EjectAsk::Rescan));
        e
    };
    let mut e = until();
    e.answer(EjectAnswer::Still(Vec::new()));
    assert!(matches!(e.ask(), EjectAsk::Done(Ok(s)) if s == "Unmounted and flushed — you can unplug it."));
    let mut e = until();
    e.answer(EjectAnswer::Still(vec![mounted("/dev/sdb2", "/n")]));
    assert!(matches!(e.ask(), EjectAsk::Done(Err(s))
        if s == "Another part of this drive (/n) is still in use — it was not removed."));
}

#[test]
fn a_busy_drive_is_not_called_safe() {
    let mut e = Eject::begin(text("/dev/sdb1"), text("/m"), Vec::new());
    e.answer(EjectAnswer::Unmounted(Err(text("target is busy"))));
    assert!(matches!(e.ask(), EjectAsk::Done(Err(s)) if s.starts_with("Something still has the drive open")));
    assert!(map_eject_err_linux("No such file or directory", "/m").contains("udisks"));
    assert!(map_eject_err_linux("Not authorized", "/m").contains("would not let this session"));
    assert_eq!(map_eject_err_linux("", "/m"), "could not unmount /m");
    assert_eq!(map_eject_err_linux("odd", "/m"), "The drive was not removed (/m would not unmount).");
    assert_eq!(mac_eject_result(&Ok(())).unwrap(), "Ejected — safe to unplug.");
    assert!(mac_eject_result(&Err(text("x dissented"))).unwrap_err().contains("Finder windows"));
    assert!(mac_eject_result(&Err(text("?"))).unwrap_err().starts_with("macOS declined"));
}

struct Tree {
    /// Driver service, capabilities and parent of each node.
    nodes: Vec<(u32, &'static str, Option<u32>, Option<u32>)>,
    replies: Vec<(u32, i32, &'static str)>,
    requested: Vec<u32>,
    paused: usize,
}

impl Tree {
    fn eject(&mut self, mount_root: Option<&str>, kind: u32) -> Result<String, String> {
        let mut e = PnpEject::begin();
        let mut disks = vec![(9, 1), (10, 3)];
        for _ in 0..100 {
            let find = |n: u32| *self.nodes.iter().find(|x| x.0 == n).unwrap();
            let a = match e.ask() {
                PnpAsk::Letter => PnpAnswer::Letter(Some('E')),
                PnpAsk::MountRoot => PnpAnswer::MountRoot(mount_root.map(str::to_string)),
                PnpAsk::VolumeNumber(c) => {
                    assert_eq!(c, 'E');
                    PnpAnswer::Number(Some(DeviceNumber { kind, number: 3 }))
                }
                PnpAsk::Disks => PnpAnswer::Disks(true),
                PnpAsk::NextDisk => match disks.pop() {
                    Some((node, number)) => PnpAnswer::Disk {
                        node,
                        number: Some(DeviceNumber { kind: 7, number }),
                    },
                    None => PnpAnswer::NoDisk,
                },
                PnpAsk::Service(n) => PnpAnswer::Service(find(n).1.to_string()),
                PnpAsk::Capabilities(n) => PnpAnswer::Capabilities(find(n).2),
                PnpAsk::Parent(n) => PnpAnswer::Parent(find(n).3),
                PnpAsk::Request(n) => {
                    self.requested.push(n);
                    let (code, veto, name) = self.replies.remove(0);
                    PnpAnswer::Requested { code, veto, name: name.to_string() }
                }
                PnpAsk::Pause => {
                    self.paused += 1;
                    PnpAnswer::Waited
                }
                PnpAsk::Done(r) => return r,
            };
            e.answer(a);
        }
        panic!("it never ends");
    }
}

fn tree(
    nodes: Vec<(u32, &'static str, Option<u32>, Option<u32>)>,
    replies: Vec<(u32, i32, &'static str)>,
) -> Tree {
    Tree { nodes, replies, requested: Vec::new(), paused: 0 }
}

#[test]
fn the_removable_node_above_the_disk_is_ejected() {
    let mut t = tree(
        vec![(10, "disk", Some(0), Some(20)), (20, "USBSTOR", Some(0x14), Some(30))],
        vec![(0, 0, "")],
    );
    assert_eq!(t.eject(Some("e:\\"), 7).unwrap(), "Ejected — safe to unplug.");
    assert_eq!(t.requested, [20]);
}

#[test]
fn a_hub_is_never_ejected() {
    // A plain stick: the third node is the hub, and it calls itself removable.
    let mut t = tree(
        vec![
            (10, "disk", Some(0), Some(20)),
            (20, "USBSTOR", None, Some(30)),
            (30, "usbhub3", Some(4), Some(40)),
        ],
        vec![(23, 99, "")],
    );
    assert!(t.eject(None, 7).is_err());
    assert_eq!(t.requested, [10]);
    // Nor is anything more than two nodes above the disk.
    let mut t = tree(
        vec![
            (10, "disk", Some(0), Some(20)),
            (20, "a", Some(0), Some(30)),
            (30, "b", Some(0), Some(40)),
            (40, "c", Some(4), None),
        ],
        vec![(0, 0, "")],
    );
    assert!(t.eject(None, 7).is_ok());
    assert_eq!(t.requested, [10]);
}

#[test]
fn a_veto_is_told_by_name() {
    let one = |replies: Vec<(u32, i32, &'static str)>| {
        let mut t = tree(vec![(10, "disk", Some(4), None)], replies);
        let r = t.eject(None, 7);
        (r, t.paused)
    };
    assert_eq!(
        one(vec![(23, 5, "notepad.exe")]).0.unwrap_err(),
        "Windows says notepad.exe still has the drive open — close it and try again."
    );
    assert!(one(vec![(23, 3, "")]).0.unwrap_err().contains("a program still has the drive open"));
    assert!(one(vec![(23, 12, "")]).0.unwrap_err().contains("would not let Kevat"));
    assert!(one(vec![(23, 1, "")]).0.unwrap_err().starts_with("Windows declined"));
    assert!(one(vec![(5, 0, "")]).0.unwrap_err().starts_with("Windows declined"));
    assert_eq!(
        one(vec![(23, 13, "")]).0.unwrap(),
        "The drive is already ejected — safe to unplug."
    );
    // A close in flight gets one more try, and only one.
    assert_eq!(one(vec![(23, 2, ""), (0, 0, "")]), (Ok(text("Ejected — safe to unplug.")), 1));
    let (r, paused) = one(vec![(23, 2, ""), (23, 2, "")]);
    assert!(r.is_err() && paused == 1);
}

#[test]
fn odd_volumes_are_left_alone() {
    let mut t = tree(vec![(10, "disk", Some(4), None)], vec![]);
    assert!(t.eject(Some("C:\\mnt\\usb\\"), 7).unwrap_err().contains("folder-mounted"));
    assert!(t.eject(None, 8).unwrap_err().contains("more than one disk"));
    assert!(t.requested.is_empty());
    let mut e = PnpEject::begin();
    e.answer(PnpAnswer::Letter(None));
    assert!(matches!(e.ask(), PnpAsk::Done(Err(s)) if s == "could not find the drive"));
}

// ── erasing ──

fn stick() -> DriveInfo {
    DriveInfo {
        mount: Some(text("/media/me/My Stick")),
        device: text("/dev/sdb1"),
        label: text("My Stick"),
        size: 64_000_000_000,
    }
}

#[test]
fn labels_fit_fat() {
    assert_eq!(fat_label("My Stick"), "MYSTICK");
    assert_eq!(fat_label("abcdefghijklmnop"), "ABCDEFGHIJK");
    assert_eq!(fat_label("éü—"), "");
    assert_eq!(fat_label("a1-b2"), "A1B2");
}

#[test]
fn each_system_has_its_own_command() {
    let none: Vec<WinDrive> = Vec::new();
    let p = format_drive(&stick(), Fs::Fat32, Os::Linux, &none).ok().unwrap();
    assert_eq!((p.unmount.as_deref(), p.program.as_str()), (Some("/dev/sdb1"), "pkexec"));
    assert_eq!(p.args, ["mkfs.vfat", "-F", "32", "-n", "MYSTICK", "/dev/sdb1"]);
    let p = format_drive(&stick(), Fs::Ext4, Os::Linux, &none).ok().unwrap();
    assert_eq!(p.args, ["mkfs.ext4", "-F", "-L", "My Stick", "/dev/sdb1"]);
    let p = format_drive(&stick(), Fs::ExFat, Os::Linux, &none).ok().unwrap();
    assert_eq!(p.args, ["mkfs.exfat", "-L", "MYSTICK", "/dev/sdb1"]);
    let p = format_drive(&stick(), Fs::Ntfs, Os::Linux, &none).ok().unwrap();
    assert_eq!(p.args, ["mkfs.ntfs", "-Q", "-L", "My Stick", "/dev/sdb1"]);
    let p = format_drive(&stick(), Fs::Fat32, Os::Mac, &none).ok().unwrap();
    assert_eq!(p.program, "diskutil");
    assert_eq!(p.args, ["eraseVolume", "MS-DOS FAT32", "My Stick", "/media/me/My Stick"]);
    let e = format_drive(&stick(), Fs::Ext4, Os::Mac, &none).err().unwrap();
    assert_eq!(e, "macOS cannot create ext4");
    let mut d = stick();
    d.mount = None;
    assert_eq!(format_drive(&d, Fs::Ext4, Os::Mac, &none).err().unwrap(), "bad mount path");
    d.device = String::new();
    assert_eq!(
        format_drive(&d, Fs::Fat32, Os::Linux, &none).err().unwrap(),
        "could not identify the drive's device"
    );
    assert!(format_drive(&d, Fs::Fat32, Os::Other, &none).is_err());
}

#[test]
fn a_swapped_drive_letter_is_not_formatted() {
    let listed = WinDrive { label: text("STICK (E:)"), letter: 'E', external: true };
    let d = letter_entry(&listed, 5);
    assert_eq!((d.device.as_str(), d.label.as_str()), ("E:", "STICK"));
    assert_eq!(d.mount.as_deref(), Some("E:\\"));
    let now = vec![listed];
    let p = format_drive(&d, Fs::ExFat, Os::Windows, &now).ok().unwrap();
    assert_eq!(p.program, "powershell");
    assert_eq!(p.args[..2], ["-NoProfile", "-Command"]);
    assert!(p.args[2].contains("-DriveLetter E -FileSystem exFAT -NewFileSystemLabel STICK -Force"));
    let swapped = vec![WinDrive { label: text("OTHER (E:)"), letter: 'E', external: true }];
    let e = format_drive(&d, Fs::ExFat, Os::Windows, &swapped).err().unwrap();
    assert!(e.starts_with("the drive changed"));
    assert!(format_drive(&d, Fs::ExFat, Os::Windows, &Vec::new()).is_err());
    assert_eq!(
        format_drive(&d, Fs::Ext4, Os::Windows, &now).err().unwrap(),
        "Windows cannot create ext4"
    );
    // A bare letter is no name to keep.
    let bare = vec![WinDrive { label: text("E:"), letter: 'E', external: true }];
    let p = format_drive(&letter_entry(&bare[0], 5), Fs::Fat32, Os::Windows, &bare).ok().unwrap();
    assert!(p.args[2].contains("-NewFileSystemLabel KEVAT "));
    assert_eq!(root_of_letter('E'), "E:\\");
}

#[test]
fn a_cancelled_format_is_not_a_success() {
    assert_eq!(
        format_result(Fs::Fat32, "x", &Ok(())).unwrap(),
        "Formatted as FAT32 — the drive is ready."
    );
    assert_eq!(format_result(Fs::Fat32, "format failed", &Err(text(""))).unwrap_err(), "format failed");
    assert_eq!(format_result(Fs::Fat32, "format failed", &Err(text("why"))).unwrap_err(), "why");
}

#[test]
fn only_what_can_be_made_is_offered() {
    let t = Tools { exfat: true, vfat: false, ext4: true, ntfs: false };
    let v = Fs::available(Os::Linux, t);
    assert!(v == [Fs::ExFat, Fs::Ext4]);
    assert!(Fs::default_of(&v) == Some(Fs::ExFat));
    let v = Fs::available(Os::Windows, t);
    assert!(v == [Fs::ExFat, Fs::Fat32, Fs::Ntfs]);
    assert!(Fs::default_of(&v) == Some(Fs::Fat32));
    assert!(Fs::available(Os::Other, t).is_empty());
    assert!(Fs::default_of(&Vec::new()).is_none());
    assert!(Fs::Fat32.label().contains("4 GB") && Fs::Ntfs.short() == "NTFS");
}

#[test]
fn nothing_is_erased_before_its_name_is_typed() {
    let other = drive_entry(&full("/media/me/Other"), Some(text("/media/me/Other")), None, 7, Os::Linux);
    assert_eq!((other.label.as_str(), other.device.as_str()), ("Other", ""));
    let mut e = EraseState::open(vec![stick(), other]);
    let formats = vec![Fs::ExFat, Fs::Fat32];
    assert!(e.armed().is_none());
    e.confirm = text("My Stick");
    assert!(e.armed().is_none());
    e.select(0, &formats);
    assert!(e.armed().is_none() && e.confirm.is_empty());
    e.confirm = text("my stick");
    assert!(e.armed().is_none());
    e.confirm = text("My Stick");
    let t = e.armed().unwrap();
    assert!(t.at == 0 && t.fs == Fs::Fat32);
    e.set_fs(Fs::ExFat);
    assert!(e.armed().unwrap().fs == Fs::ExFat);
    // Another drive voids what was typed.
    e.select(1, &formats);
    assert!(e.armed().is_none() && e.fs == Some(Fs::ExFat));
    e.confirm = text("Other");
    assert!(e.armed().is_some());
    e.finish(Ok(text("done")), Vec::new());
    assert!(e.armed().is_none() && e.drives.is_empty() && e.status.is_some());
    e.cancel();
    assert!(e.selected.is_none());
}
