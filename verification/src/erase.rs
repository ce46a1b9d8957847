//! Erasing a drive: what may be erased, what must be typed first, and the command that does it.

use crate::drive;
use crate::drive::{opt_text, volume_of, WinDrive};
use crate::path;
use crate::path::{name_of_place, FullPath, Os};
use crate::text;
use crate::text::{chars_of, same, text_of};
use vstd::prelude::*;

verus! {

/// A filesystem a drive can be given.
#[derive(Clone, Copy, PartialEq, Eq, Structural)]
pub enum Fs {
    ExFat,
    Fat32,
    Ext4,
    Ntfs,
}

/// Which tools for making filesystems are installed.
#[derive(Clone, Copy)]
pub struct Tools {
    pub exfat: bool,
    pub vfat: bool,
    pub ext4: bool,
    pub ntfs: bool,
}

impl Fs {
    pub open spec fn title(self) -> Seq<char> {
        match self {
            Fs::ExFat => "exFAT — best for USB drives, any OS, no size limit"@,
            Fs::Fat32 => "FAT32 — universal, but no single file over 4 GB"@,
            Fs::Ext4 => "ext4 — Linux native"@,
            Fs::Ntfs => "NTFS — Windows native"@,
        }
    }

    pub open spec fn name(self) -> Seq<char> {
        match self {
            Fs::ExFat => "exFAT"@,
            Fs::Fat32 => "FAT32"@,
            Fs::Ext4 => "ext4"@,
            Fs::Ntfs => "NTFS"@,
        }
    }

    pub fn label(self) -> (s: &'static str)
        ensures
            s@ == self.title(),
    {
        match self {
            Fs::ExFat => "exFAT — best for USB drives, any OS, no size limit",
            Fs::Fat32 => "FAT32 — universal, but no single file over 4 GB",
            Fs::Ext4 => "ext4 — Linux native",
            Fs::Ntfs => "NTFS — Windows native",
        }
    }

    pub fn short(self) -> (s: &'static str)
        ensures
            s@ == self.name(),
    {
        match self {
            Fs::ExFat => "exFAT",
            Fs::Fat32 => "FAT32",
            Fs::Ext4 => "ext4",
            Fs::Ntfs => "NTFS",
        }
    }

    /// Whether this system can make it.
    pub open spec fn offered(self, os: Os, tools: Tools) -> bool {
        match os {
            Os::Linux => match self {
                Fs::ExFat => tools.exfat,
                Fs::Fat32 => tools.vfat,
                Fs::Ext4 => tools.ext4,
                Fs::Ntfs => tools.ntfs,
            },
            Os::Mac | Os::Windows => self != Fs::Ext4,
            Os::Other => false,
        }
    }

    /// What this system can make, in the order it is offered.
    pub fn available(os: Os, tools: Tools) -> (v: Vec<Fs>)
        ensures
            v@ == seq![Fs::ExFat, Fs::Fat32, Fs::Ext4, Fs::Ntfs].filter(
                |f: Fs| f.offered(os, tools),
            ),
    {
        let (exfat, vfat, ext4, ntfs) = match os {
            Os::Linux => (tools.exfat, tools.vfat, tools.ext4, tools.ntfs),
            Os::Mac | Os::Windows => (true, true, false, true),
            Os::Other => (false, false, false, false),
        };
        let mut v: Vec<Fs> = Vec::new();
        if exfat {
            v.push(Fs::ExFat);
        }
        if vfat {
            v.push(Fs::Fat32);
        }
        if ext4 {
            v.push(Fs::Ext4);
        }
        if ntfs {
            v.push(Fs::Ntfs);
        }
        proof {
            let p = |f: Fs| f.offered(os, tools);
            let all = seq![Fs::ExFat, Fs::Fat32, Fs::Ext4, Fs::Ntfs];
            let a3 = all.drop_last();
            let a2 = a3.drop_last();
            let a1 = a2.drop_last();
            let a0 = a1.drop_last();
            assert(a0 =~= Seq::empty());
            assert(a1 =~= seq![Fs::ExFat]);
            assert(a2 =~= seq![Fs::ExFat, Fs::Fat32]);
            assert(a3 =~= seq![Fs::ExFat, Fs::Fat32, Fs::Ext4]);
            reveal_with_fuel(Seq::filter, 5);
            assert(all.filter(p) =~= v@);
        }
        v
    }

    /// FAT32 where it can be had: everything reads it. Else the first that can.
    pub open spec fn preferred(v: Seq<Fs>) -> Option<Fs> {
        if v.contains(Fs::Fat32) {
            Some(Fs::Fat32)
        } else if v.len() > 0 {
            Some(v[0])
        } else {
            None
        }
    }

    pub fn default_of(v: &Vec<Fs>) -> (r: Option<Fs>)
        ensures
            r == Fs::preferred(v@),
    {
        let mut i: usize = 0;
        while i < v.len()
            invariant
                i <= v.len(),
                forall|k: int| 0 <= k < i ==> v@[k] != Fs::Fat32,
            decreases v.len() - i,
        {
            if v[i] == Fs::Fat32 {
                assert(v@[i as int] == Fs::Fat32);
                return Some(Fs::Fat32);
            }
            i += 1;
        }
        if v.len() > 0 {
            Some(v[0])
        } else {
            None
        }
    }
}

/// A drive that could be erased.
pub struct DriveInfo {
    /// Where it is mounted, if that can be written down as text.
    pub mount: Option<String>,
    pub device: String,
    pub label: String,
    pub size: u64,
}

#[verifier::ext_equal]
pub struct DriveInfoView {
    pub mount: Option<Seq<char>>,
    pub device: Seq<char>,
    pub label: Seq<char>,
    pub size: u64,
}

impl View for DriveInfo {
    type V = DriveInfoView;

    open spec fn view(&self) -> DriveInfoView {
        DriveInfoView {
            mount: opt_text(self.mount),
            device: self.device@,
            label: self.label@,
            size: self.size,
        }
    }
}

pub open spec fn info_views(v: Seq<DriveInfo>) -> Seq<DriveInfoView> {
    v.map_values(|d: DriveInfo| d@)
}

/// A mounted drive, for the list.
pub fn drive_entry(
    mount: &FullPath,
    mount_text: Option<String>,
    device: Option<String>,
    size: u64,
    os: Os,
) -> (d: DriveInfo)
    ensures
        d@ == (DriveInfoView {
            mount: opt_text(mount_text),
            device: match device {
                Some(t) => t@,
                None => Seq::empty(),
            },
            label: path::place_name(mount@, os),
            size,
        }),
{
    DriveInfo {
        mount: mount_text,
        device: match device {
            Some(t) => t,
            None => String::new(),
        },
        label: name_of_place(mount, os),
        size,
    }
}

/// The root of a drive letter.
pub open spec fn letter_root(letter: char) -> Seq<char> {
    seq![letter] + ":\\"@
}

pub fn root_of_letter(letter: char) -> (s: String)
    ensures
        s@ == letter_root(letter),
{
    let mut s = String::new();
    s.push(letter);
    s.append(":\\");
    assert(s@ =~= letter_root(letter));
    s
}

/// A drive letter, for the list: the bare letter is the device, the volume's own name the label.
pub fn letter_entry(d: &WinDrive, size: u64) -> (r: DriveInfo)
    ensures
        r@ == (DriveInfoView {
            mount: Some(letter_root(d.letter)),
            device: seq![d.letter] + ":"@,
            label: drive::own_name(d.label@),
            size,
        }),
{
    let mut device = String::new();
    device.push(d.letter);
    device.append(":");
    assert(device@ =~= seq![d.letter] + ":"@);
    DriveInfo {
        mount: Some(root_of_letter(d.letter)),
        device,
        label: volume_of(d.label.as_str()),
        size,
    }
}

// ── the label of the new filesystem ──────────────────────────────────────────
pub open spec fn is_plain(c: char) -> bool {
    ('0' <= c <= '9') || ('a' <= c <= 'z') || ('A' <= c <= 'Z')
}

/// The ASCII letters and digits of `s`, in upper case.
pub open spec fn plain_upper(s: Seq<char>) -> Seq<char>
    decreases s.len(),
{
    if s.len() == 0 {
        Seq::empty()
    } else if is_plain(s.last()) {
        plain_upper(s.drop_last()).push(drive::upper(s.last()))
    } else {
        plain_upper(s.drop_last())
    }
}

/// A FAT label: at most eleven letters and digits, in upper case.
pub open spec fn fat_text(s: Seq<char>) -> Seq<char> {
    if plain_upper(s).len() <= 11 {
        plain_upper(s)
    } else {
        plain_upper(s).take(11)
    }
}

proof fn lemma_plain_prefix(s: Seq<char>, n: int, m: int)
    requires
        0 <= n <= m <= s.len(),
    ensures
        plain_upper(s.take(n)).is_prefix_of(plain_upper(s.take(m))),
    decreases m - n,
{
    if n < m {
        lemma_plain_prefix(s, n, m - 1);
        assert(s.take(m).drop_last() =~= s.take(m - 1));
        let a = plain_upper(s.take(n));
        let b = plain_upper(s.take(m - 1));
        let c = plain_upper(s.take(m));
        assert(a =~= c.take(a.len() as int)) by {
            assert(a =~= b.take(a.len() as int));
        }
    } else {
        assert(plain_upper(s.take(n)) =~= plain_upper(s.take(n)).take(
            plain_upper(s.take(n)).len() as int,
        ));
    }
}

pub fn fat_label(s: &str) -> (r: String)
    ensures
        r@ == fat_text(s@),
{
    let cs = chars_of(s);
    let mut out: Vec<char> = Vec::new();
    let mut i: usize = 0;
    assert(plain_upper(cs@.take(0)) =~= Seq::empty());
    while i < cs.len() && out.len() < 11
        invariant
            i <= cs.len(),
            cs@ == s@,
            out.len() <= 11,
            out@ == plain_upper(cs@.take(i as int)),
        decreases cs.len() - i,
    {
        let c = cs[i];
        assert(cs@.take(i + 1).drop_last() =~= cs@.take(i as int));
        assert(cs@.take(i + 1).last() == c);
        if 'a' <= c && c <= 'z' {
            out.push(((c as u8) - 32) as char);
        } else if ('0' <= c && c <= '9') || ('A' <= c && c <= 'Z') {
            out.push(c);
        }
        i += 1;
    }
    proof {
        lemma_plain_prefix(cs@, i as int, cs@.len() as int);
        assert(cs@.take(cs@.len() as int) =~= cs@);
        let all = plain_upper(s@);
        assert(out@ =~= all.take(out@.len() as int));
        if i < cs@.len() {
            assert(out@.len() == 11);
            assert(all.len() >= 11);
            if all.len() == 11 {
                assert(all.take(11) =~= all);
            }
        }
    }
    text_of(out.as_slice())
}

// ── the command ──────────────────────────────────────────────────────────────
/// A command that erases, with what to say where it fails without a word.
pub struct Plan {
    /// What has to be unmounted first.
    pub unmount: Option<String>,
    pub program: String,
    pub args: Vec<String>,
    pub silent: String,
}

#[verifier::ext_equal]
pub struct PlanView {
    pub unmount: Option<Seq<char>>,
    pub program: Seq<char>,
    pub args: Seq<Seq<char>>,
    pub silent: Seq<char>,
}

impl View for Plan {
    type V = PlanView;

    open spec fn view(&self) -> PlanView {
        PlanView {
            unmount: opt_text(self.unmount),
            program: self.program@,
            args: text::texts(self.args@),
            silent: self.silent@,
        }
    }
}

/// The name a volume gets where it has none.
pub open spec fn default_name() -> Seq<char> {
    "KEVAT"@
}

pub open spec fn linux_plan(d: DriveInfoView, fs: Fs) -> Result<PlanView, Seq<char>> {
    if d.device.len() == 0 {
        Err("could not identify the drive's device"@)
    } else {
        Ok(
            PlanView {
                unmount: Some(d.device),
                program: "pkexec"@,
                args: match fs {
                    Fs::ExFat => seq!["mkfs.exfat"@, "-L"@, fat_text(d.label), d.device],
                    Fs::Fat32 => seq![
                        "mkfs.vfat"@,
                        "-F"@,
                        "32"@,
                        "-n"@,
                        fat_text(d.label),
                        d.device,
                    ],
                    Fs::Ext4 => seq!["mkfs.ext4"@, "-F"@, "-L"@, d.label, d.device],
                    Fs::Ntfs => seq!["mkfs.ntfs"@, "-Q"@, "-L"@, d.label, d.device],
                },
                silent: "format failed"@,
            },
        )
    }
}

pub open spec fn mac_plan(d: DriveInfoView, fs: Fs) -> Result<PlanView, Seq<char>> {
    match (d.mount, fs) {
        (None, _) => Err("bad mount path"@),
        (Some(_), Fs::Ext4) => Err("macOS cannot create ext4"@),
        (Some(m), _) => Ok(
            PlanView {
                unmount: None,
                program: "diskutil"@,
                args: seq![
                    "eraseVolume"@,
                    match fs {
                        Fs::ExFat => "ExFAT"@,
                        Fs::Fat32 => "MS-DOS FAT32"@,
                        _ => "NTFS"@,
                    },
                    if d.label.len() == 0 {
                        default_name()
                    } else {
                        d.label
                    },
                    m,
                ],
                silent: Seq::empty(),
            },
        ),
    }
}

/// The drive is still the one that was listed: same root, same name, still external.
pub open spec fn still_listed(d: DriveInfoView, now: Seq<WinDrive>) -> bool {
    exists|i: int|
        0 <= i < now.len() && (#[trigger] now[i]).external && Some(letter_root(now[i].letter))
            == d.mount && drive::own_name(now[i].label@) == d.label
}

pub open spec fn is_letter(c: char) -> bool {
    ('a' <= c <= 'z') || ('A' <= c <= 'Z')
}

/// A volume that has no name of its own is listed under its letter; that is no name to keep.
pub open spec fn win_name(d: DriveInfoView) -> Seq<char> {
    if fat_text(d.label).len() == 0 || d.label == seq![d.device[0]] + ":"@ {
        default_name()
    } else {
        fat_text(d.label)
    }
}

pub open spec fn win_script(letter: char, fmt: Seq<char>, name: Seq<char>) -> Seq<char> {
    "$p = Start-Process -Verb RunAs -Wait -PassThru -FilePath powershell.exe -ArgumentList '-NoProfile','-Command','Format-Volume -DriveLetter "@
        + seq![letter] + " -FileSystem "@ + fmt + " -NewFileSystemLabel "@ + name
        + " -Force -Confirm:$false; exit (1 - [int]$?)'; if ($null -eq $p) { exit 1 }; if ($null -eq $p.ExitCode) { exit 1 }; exit $p.ExitCode"@
}

pub open spec fn win_plan(d: DriveInfoView, fs: Fs, now: Seq<WinDrive>) -> Result<
    PlanView,
    Seq<char>,
> {
    if fs == Fs::Ext4 {
        Err("Windows cannot create ext4"@)
    } else if d.device.len() == 0 || !is_letter(d.device[0]) {
        Err("could not identify the drive letter"@)
    } else if !still_listed(d, now) {
        Err("the drive changed since this screen was opened — go back and reselect it"@)
    } else {
        Ok(
            PlanView {
                unmount: None,
                program: "powershell"@,
                args: seq![
                    "-NoProfile"@,
                    "-Command"@,
                    win_script(d.device[0], fs.name(), win_name(d)),
                ],
                silent: "format failed or was cancelled — the drive was not changed"@,
            },
        )
    }
}

/// The command that erases drive `d`, or why there is none.
pub open spec fn plan_of(d: DriveInfoView, fs: Fs, os: Os, now: Seq<WinDrive>) -> Result<
    PlanView,
    Seq<char>,
> {
    match os {
        Os::Linux => linux_plan(d, fs),
        Os::Mac => mac_plan(d, fs),
        Os::Windows => win_plan(d, fs, now),
        Os::Other => Err("Formatting isn't wired up on this platform yet."@),
    }
}

pub open spec fn result_view(r: Result<Plan, String>) -> Result<PlanView, Seq<char>> {
    match r {
        Ok(p) => Ok(p@),
        Err(e) => Err(e@),
    }
}

fn list4(a: &str, b: &str, c: &str, d: &str) -> (v: Vec<String>)
    ensures
        text::texts(v@) == seq![a@, b@, c@, d@],
{
    let mut v: Vec<String> = Vec::new();
    v.push(String::from_str(a));
    v.push(String::from_str(b));
    v.push(String::from_str(c));
    v.push(String::from_str(d));
    assert(text::texts(v@) =~= seq![a@, b@, c@, d@]);
    v
}

fn list5(a: &str, b: &str, c: &str, d: &str, e: &str) -> (v: Vec<String>)
    ensures
        text::texts(v@) == seq![a@, b@, c@, d@, e@],
{
    let mut v = list4(a, b, c, d);
    let ghost before = text::texts(v@);
    v.push(String::from_str(e));
    assert(text::texts(v@) =~= before.push(e@));
    assert(text::texts(v@) =~= seq![a@, b@, c@, d@, e@]);
    v
}

fn plan_linux(d: &DriveInfo, fs: Fs) -> (r: Result<Plan, String>)
    ensures
        result_view(r) == linux_plan(d@, fs),
{
    let dev = d.device.as_str();
    if chars_of(dev).len() == 0 {
        return Err(String::from_str("could not identify the drive's device"));
    }
    let name = fat_label(d.label.as_str());
    let args = match fs {
        Fs::ExFat => list4("mkfs.exfat", "-L", name.as_str(), dev),
        Fs::Fat32 => {
            let mut v = list5("mkfs.vfat", "-F", "32", "-n", name.as_str());
            let ghost before = text::texts(v@);
            v.push(String::from_str(dev));
            assert(text::texts(v@) =~= before.push(dev@));
            assert(text::texts(v@) =~= seq![
                "mkfs.vfat"@,
                "-F"@,
                "32"@,
                "-n"@,
                name@,
                dev@,
            ]);
            v
        },
        Fs::Ext4 => list5("mkfs.ext4", "-F", "-L", d.label.as_str(), dev),
        Fs::Ntfs => list5("mkfs.ntfs", "-Q", "-L", d.label.as_str(), dev),
    };
    Ok(
        Plan {
            unmount: Some(d.device.clone()),
            program: String::from_str("pkexec"),
            args,
            silent: String::from_str("format failed"),
        },
    )
}

fn plan_mac(d: &DriveInfo, fs: Fs) -> (r: Result<Plan, String>)
    ensures
        result_view(r) == mac_plan(d@, fs),
{
    let mount = match &d.mount {
        Some(m) => m,
        None => {
            return Err(String::from_str("bad mount path"));
        },
    };
    let fmt = match fs {
        Fs::ExFat => "ExFAT",
        Fs::Fat32 => "MS-DOS FAT32",
        Fs::Ntfs => "NTFS",
        Fs::Ext4 => {
            return Err(String::from_str("macOS cannot create ext4"));
        },
    };
    let args = if chars_of(d.label.as_str()).len() == 0 {
        list4("eraseVolume", fmt, "KEVAT", mount.as_str())
    } else {
        list4("eraseVolume", fmt, d.label.as_str(), mount.as_str())
    };
    Ok(
        Plan {
            unmount: None,
            program: String::from_str("diskutil"),
            args,
            silent: String::new(),
        },
    )
}

fn is_still_listed(d: &DriveInfo, now: &Vec<WinDrive>) -> (r: bool)
    ensures
        r == still_listed(d@, now@),
{
    let mut i: usize = 0;
    while i < now.len()
        invariant
            i <= now.len(),
            forall|k: int|
                0 <= k < i ==> !((#[trigger] now@[k]).external && Some(letter_root(now@[k].letter))
                    == d@.mount && drive::own_name(now@[k].label@) == d@.label),
        decreases now.len() - i,
    {
        let w = &now[i];
        let here = match &d.mount {
            Some(m) => same(m.as_str(), root_of_letter(w.letter).as_str()),
            None => false,
        };
        if w.external && here && same(volume_of(w.label.as_str()).as_str(), d.label.as_str()) {
            assert(now@[i as int].external);
            return true;
        }
        i += 1;
    }
    false
}

fn plan_win(d: &DriveInfo, fs: Fs, now: &Vec<WinDrive>) -> (r: Result<Plan, String>)
    ensures
        result_view(r) == win_plan(d@, fs, now@),
{
    if fs == Fs::Ext4 {
        return Err(String::from_str("Windows cannot create ext4"));
    }
    let dev = chars_of(d.device.as_str());
    if dev.len() == 0 || !(('a' <= dev[0] && dev[0] <= 'z') || ('A' <= dev[0] && dev[0] <= 'Z')) {
        return Err(String::from_str("could not identify the drive letter"));
    }
    let letter = dev[0];
    if !is_still_listed(d, now) {
        return Err(
            String::from_str(
                "the drive changed since this screen was opened — go back and reselect it",
            ),
        );
    }
    let mut name = fat_label(d.label.as_str());
    let mut bare = String::new();
    bare.push(letter);
    bare.append(":");
    assert(bare@ =~= seq![d@.device[0]] + ":"@);
    if chars_of(name.as_str()).len() == 0 || same(d.label.as_str(), bare.as_str()) {
        name = String::from_str("KEVAT");
    }
    assert(name@ == win_name(d@));
    let mut script = String::from_str(
        "$p = Start-Process -Verb RunAs -Wait -PassThru -FilePath powershell.exe -ArgumentList '-NoProfile','-Command','Format-Volume -DriveLetter ",
    );
    let ghost s0 = script@;
    script.push(letter);
    assert(script@ =~= s0 + seq![letter]);
    script.append(" -FileSystem ");
    script.append(fs.short());
    script.append(" -NewFileSystemLabel ");
    script.append(name.as_str());
    script.append(
        " -Force -Confirm:$false; exit (1 - [int]$?)'; if ($null -eq $p) { exit 1 }; if ($null -eq $p.ExitCode) { exit 1 }; exit $p.ExitCode",
    );
    assert(script@ == win_script(letter, fs.name(), name@));
    let ghost sv = script@;
    let mut args: Vec<String> = Vec::new();
    args.push(String::from_str("-NoProfile"));
    args.push(String::from_str("-Command"));
    args.push(script);
    assert(text::texts(args@) =~= seq!["-NoProfile"@, "-Command"@, sv]);
    Ok(
        Plan {
            unmount: None,
            program: String::from_str("powershell"),
            args,
            silent: String::from_str(
                "format failed or was cancelled — the drive was not changed",
            ),
        },
    )
}

/// The command that erases a drive and gives it a fresh filesystem. It goes through the
/// system's own authorisation; `now` are the drive letters at this moment.
pub fn format_drive(drive: &DriveInfo, fs: Fs, os: Os, now: &Vec<WinDrive>) -> (r: Result<
    Plan,
    String,
>)
    ensures
        result_view(r) == plan_of(drive@, fs, os, now@),
{
    match os {
        Os::Linux => plan_linux(drive, fs),
        Os::Mac => plan_mac(drive, fs),
        Os::Windows => plan_win(drive, fs, now),
        Os::Other => Err(String::from_str("Formatting isn't wired up on this platform yet.")),
    }
}

/// What is said once the command has run.
pub open spec fn format_text(fs: Fs, silent: Seq<char>, r: Result<(), Seq<char>>) -> Result<
    Seq<char>,
    Seq<char>,
> {
    match r {
        Ok(_) => Ok("Formatted as "@ + fs.name() + " — the drive is ready."@),
        Err(e) => Err(
            if e.len() == 0 {
                silent
            } else {
                e
            },
        ),
    }
}

pub fn format_result(fs: Fs, silent: &str, r: &Result<(), String>) -> (t: Result<String, String>)
    ensures
        match (
            t,
            format_text(
                fs,
                silent@,
                match *r {
                    Ok(_) => Ok(()),
                    Err(e) => Err(e@),
                },
            ),
        ) {
            (Ok(a), Ok(b)) => a@ == b,
            (Err(a), Err(b)) => a@ == b,
            _ => false,
        },
{
    match r {
        Ok(_) => {
            let mut s = String::from_str("Formatted as ");
            s.append(fs.short());
            s.append(" — the drive is ready.");
            Ok(s)
        },
        Err(e) => {
            if chars_of(e.as_str()).len() == 0 {
                Err(String::from_str(silent))
            } else {
                Err(e.clone())
            }
        },
    }
}

// ── the screen ───────────────────────────────────────────────────────────────
/// The erase screen. It shares nothing with the copy screens.
pub struct EraseState {
    pub drives: Vec<DriveInfo>,
    pub selected: Option<usize>,
    pub fs: Option<Fs>,
    /// What the user typed to confirm.
    pub confirm: String,
    pub status: Option<Result<String, String>>,
}

#[verifier::ext_equal]
pub struct EraseView {
    pub drives: Seq<DriveInfoView>,
    pub selected: Option<usize>,
    pub fs: Option<Fs>,
    pub confirm: Seq<char>,
    pub status: Option<Result<Seq<char>, Seq<char>>>,
}

pub open spec fn status_view(r: Option<Result<String, String>>) -> Option<
    Result<Seq<char>, Seq<char>>,
> {
    match r {
        Some(Ok(s)) => Some(Ok(s@)),
        Some(Err(s)) => Some(Err(s@)),
        None => None,
    }
}

impl View for EraseState {
    type V = EraseView;

    open spec fn view(&self) -> EraseView {
        EraseView {
            drives: info_views(self.drives@),
            selected: self.selected,
            fs: self.fs,
            confirm: self.confirm@,
            status: status_view(self.status),
        }
    }
}

/// What would be erased, and what it would become.
#[derive(Clone, Copy)]
pub struct Target {
    pub at: usize,
    pub fs: Fs,
}

impl EraseView {
    /// A drive of the list was clicked: what was typed for another is void.
    pub open spec fn chose(self, i: usize, formats: Seq<Fs>) -> EraseView {
        EraseView {
            selected: Some(i),
            confirm: Seq::empty(),
            status: None,
            fs: if self.fs is Some {
                self.fs
            } else {
                Fs::preferred(formats)
            },
            ..self
        }
    }

    pub open spec fn with_fs(self, fs: Fs) -> EraseView {
        EraseView { fs: Some(fs), ..self }
    }

    /// Erasing came to an end, and the drives were listed anew.
    pub open spec fn ended(
        self,
        drives: Seq<DriveInfoView>,
        status: Option<Result<Seq<char>, Seq<char>>>,
    ) -> EraseView {
        EraseView { drives, selected: None, confirm: Seq::empty(), status, ..self }
    }

    pub open spec fn cancelled(self) -> EraseView {
        EraseView { selected: None, confirm: Seq::empty(), ..self }
    }

    /// The drive that pressing the button now would erase, and the filesystem it would get: one
    /// is selected, its name stands typed out, and a filesystem is chosen.
    pub open spec fn armed(self) -> Option<Target> {
        match (self.selected, self.fs) {
            (Some(i), Some(fs)) => if i < self.drives.len() && self.confirm
                == self.drives[i as int].label {
                Some(Target { at: i, fs })
            } else {
                None
            },
            _ => None,
        }
    }
}

impl EraseState {
    pub fn open(drives: Vec<DriveInfo>) -> (e: EraseState)
        ensures
            e@ == (EraseView {
                drives: info_views(drives@),
                selected: None,
                fs: None,
                confirm: Seq::empty(),
                status: None,
            }),
    {
        EraseState { drives, selected: None, fs: None, confirm: String::new(), status: None }
    }

    /// A click on a drive of the list: what was typed for another drive is void.
    pub fn select(&mut self, i: usize, formats: &Vec<Fs>)
        ensures
            final(self)@ == old(self)@.chose(i, formats@),
    {
        self.selected = Some(i);
        self.confirm = String::new();
        self.status = None;
        if self.fs.is_none() {
            self.fs = Fs::default_of(formats);
        }
    }

    pub fn set_fs(&mut self, fs: Fs)
        ensures
            final(self)@ == old(self)@.with_fs(fs),
    {
        self.fs = Some(fs);
    }

    /// The drive and the filesystem, if the button may be pressed.
    pub fn armed(&self) -> (r: Option<Target>)
        ensures
            r == self@.armed(),
    {
        match (self.selected, self.fs) {
            (Some(i), Some(fs)) => {
                if i < self.drives.len() {
                    assert(self@.drives[i as int] == self.drives@[i as int]@);
                    if same(self.confirm.as_str(), self.drives[i].label.as_str()) {
                        return Some(Target { at: i, fs });
                    }
                }
                None
            },
            _ => None,
        }
    }

    /// The command has run; the list is read anew, since the drive may be another one now.
    pub fn finish(&mut self, status: Result<String, String>, drives: Vec<DriveInfo>)
        ensures
            final(self)@ == old(self)@.ended(info_views(drives@), status_view(Some(status))),
    {
        self.status = Some(status);
        self.drives = drives;
        self.selected = None;
        self.confirm = String::new();
    }

    pub fn cancel(&mut self)
        ensures
            final(self)@ == old(self)@.cancelled(),
    {
        self.selected = None;
        self.confirm = String::new();
    }
}

/// A drive that has a name can never be erased without that name standing typed out, and what
/// is erased is the drive it names.
pub proof fn law_only_a_named_drive_is_erased(e: EraseView)
    requires
        e.armed() is Some,
    ensures
        e.selected == Some(e.armed()->0.at),
        0 <= e.armed()->0.at < e.drives.len(),
        e.confirm == e.drives[e.armed()->0.at as int].label,
        Some(e.armed()->0.fs) == e.fs,
{
}

/// Picking another drive disarms the button, unless that drive has no name to type.
pub proof fn law_another_drive_disarms(e: EraseView, i: usize, formats: Seq<Fs>)
    requires
        i < e.drives.len(),
        e.drives[i as int].label.len() > 0,
    ensures
        e.chose(i, formats).armed() is None,
{
}

} // verus!
