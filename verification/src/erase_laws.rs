//! What erasing a drive does, and to which drive.

use crate::drive;
use crate::drive::WinDrive;
use crate::erase;
use crate::erase::{DriveInfoView, EraseView, Fs, Tools};
use crate::path::Os;
use vstd::prelude::*;

verus! {

/// The tool that makes this filesystem on Linux.
pub open spec fn maker(fs: Fs) -> Seq<char> {
    match fs {
        Fs::ExFat => "mkfs.exfat"@,
        Fs::Fat32 => "mkfs.vfat"@,
        Fs::Ext4 => "mkfs.ext4"@,
        Fs::Ntfs => "mkfs.ntfs"@,
    }
}

/// On Linux the command is the maker of the chosen filesystem, and the one device it names, its
/// last word, is that of the drive; that device is unmounted first. There is a command exactly
/// when the device is known.
pub proof fn law_what_is_erased_on_linux(d: DriveInfoView, fs: Fs, now: Seq<WinDrive>)
    ensures
        erase::plan_of(d, fs, Os::Linux, now) is Ok <==> d.device.len() > 0,
        erase::plan_of(d, fs, Os::Linux, now) matches Ok(p) ==> {
            &&& p.unmount == Some(d.device)
            &&& p.program == "pkexec"@
            &&& p.args.len() >= 2
            &&& p.args[0] == maker(fs)
            &&& p.args[p.args.len() - 1] == d.device
        },
{
}

/// On a Mac the command erases the volume mounted where the drive was listed, and gives it the
/// chosen filesystem, which must not be ext4, under its old name or, without one, ours.
pub proof fn law_what_is_erased_on_a_mac(d: DriveInfoView, fs: Fs, now: Seq<WinDrive>)
    ensures
        erase::plan_of(d, fs, Os::Mac, now) is Ok <==> d.mount is Some && !(fs is Ext4),
        erase::plan_of(d, fs, Os::Mac, now) matches Ok(p) ==> {
            &&& p.program == "diskutil"@
            &&& p.args.len() == 4
            &&& p.args[0] == "eraseVolume"@
            &&& fs is ExFat ==> p.args[1] == "ExFAT"@
            &&& fs is Fat32 ==> p.args[1] == "MS-DOS FAT32"@
            &&& fs is Ntfs ==> p.args[1] == "NTFS"@
            &&& d.label.len() > 0 ==> p.args[2] == d.label
            &&& d.label.len() == 0 ==> p.args[2] == "KEVAT"@
            &&& Some(p.args[3]) == d.mount
        },
{
}

/// On Windows there is a command exactly when the filesystem is not ext4, the drive has a letter,
/// and at this moment an external drive of that root and that name is there. The letter in the
/// command is that of the drive.
pub proof fn law_what_is_erased_on_windows(d: DriveInfoView, fs: Fs, now: Seq<WinDrive>)
    ensures
        erase::plan_of(d, fs, Os::Windows, now) is Ok <==> {
            &&& !(fs is Ext4)
            &&& d.device.len() > 0
            &&& ('a' <= d.device[0] <= 'z' || 'A' <= d.device[0] <= 'Z')
            &&& exists|i: int|
                0 <= i < now.len() && (#[trigger] now[i]).external && d.mount == Some(
                    seq![now[i].letter] + ":\\"@,
                ) && drive::own_name(now[i].label@) == d.label
        },
        erase::plan_of(d, fs, Os::Windows, now) matches Ok(p) ==> {
            &&& p.program == "powershell"@
            &&& p.args.len() == 3
            &&& p.args[2] == erase::win_script(d.device[0], fs.name(), erase::win_name(d))
        },
{
}

/// Elsewhere nothing is erased.
pub proof fn law_nothing_is_erased_elsewhere(d: DriveInfoView, fs: Fs, now: Seq<WinDrive>)
    ensures
        erase::plan_of(d, fs, Os::Other, now) is Err,
{
}

/// The script for one letter, filesystem and name is not that for others of the same length.
pub proof fn law_a_script_is_for_one_drive(a: char, b: char, fmt: Seq<char>, name: Seq<char>)
    requires
        erase::win_script(a, fmt, name) == erase::win_script(b, fmt, name),
    ensures
        a == b,
{
    let head =
        "$p = Start-Process -Verb RunAs -Wait -PassThru -FilePath powershell.exe -ArgumentList '-NoProfile','-Command','Format-Volume -DriveLetter "@;
    let k = head.len() as int;
    assert(erase::win_script(a, fmt, name)[k] == a);
    assert(erase::win_script(b, fmt, name)[k] == b);
}

/// A capital or a digit.
pub open spec fn fit_for_fat(c: char) -> bool {
    'A' <= c <= 'Z' || '0' <= c <= '9'
}

/// A FAT label has at most eleven characters, all of them capitals and digits; a name that is
/// so already stays as it is.
pub proof fn law_what_a_fat_label_is(s: Seq<char>)
    ensures
        erase::fat_text(s).len() <= 11,
        erase::fat_text(s).len() <= s.len(),
        forall|i: int| 0 <= i < erase::fat_text(s).len() ==> fit_for_fat(#[trigger] erase::fat_text(s)[i]),
        s.len() <= 11 && (forall|i: int| 0 <= i < s.len() ==> fit_for_fat(#[trigger] s[i]))
            ==> erase::fat_text(s) == s,
{
    lemma_plain(s);
}

proof fn lemma_plain(s: Seq<char>)
    ensures
        erase::plain_upper(s).len() <= s.len(),
        forall|i: int|
            0 <= i < erase::plain_upper(s).len() ==> fit_for_fat(#[trigger] erase::plain_upper(s)[i]),
        (forall|i: int| 0 <= i < s.len() ==> fit_for_fat(#[trigger] s[i])) ==> erase::plain_upper(
            s,
        ) == s,
    decreases s.len(),
{
    if s.len() > 0 {
        let init = s.drop_last();
        lemma_plain(init);
        assert(forall|i: int| 0 <= i < init.len() ==> #[trigger] init[i] == s[i]);
        assert(s.last() == s[s.len() - 1]);
        if forall|i: int| 0 <= i < s.len() ==> fit_for_fat(#[trigger] s[i]) {
            assert forall|i: int| 0 <= i < init.len() implies fit_for_fat(#[trigger] init[i]) by {
                assert(init[i] == s[i]);
            }
            assert(fit_for_fat(s[s.len() - 1]));
            assert(erase::plain_upper(s) =~= s);
        }
    }
}

/// Of a name, letters and digits stay, the letters as capitals; everything else goes.
pub proof fn law_what_stays_of_a_name(s: Seq<char>, c: char)
    ensures
        'a' <= c <= 'z' ==> erase::plain_upper(s.push(c)) == erase::plain_upper(s).push(
            (c as int - 32) as char,
        ),
        fit_for_fat(c) ==> erase::plain_upper(s.push(c)) == erase::plain_upper(s).push(c),
        !fit_for_fat(c) && !('a' <= c <= 'z') ==> erase::plain_upper(s.push(c))
            == erase::plain_upper(s),
{
    assert(s.push(c).drop_last() =~= s);
}

/// On Linux a filesystem is offered exactly when its tool is there; on a Mac and on Windows all
/// but ext4 are; elsewhere none.
pub proof fn law_what_is_offered(fs: Fs, os: Os, tools: Tools)
    ensures
        os is Linux && fs is ExFat ==> fs.offered(os, tools) == tools.exfat,
        os is Linux && fs is Fat32 ==> fs.offered(os, tools) == tools.vfat,
        os is Linux && fs is Ext4 ==> fs.offered(os, tools) == tools.ext4,
        os is Linux && fs is Ntfs ==> fs.offered(os, tools) == tools.ntfs,
        os is Mac || os is Windows ==> (fs.offered(os, tools) <==> !(fs is Ext4)),
        os is Other ==> !fs.offered(os, tools),
{
}

/// What is proposed is one of those offered, FAT32 wherever it is among them, and nothing only
/// where nothing is.
pub proof fn law_what_is_proposed(v: Seq<Fs>)
    ensures
        Fs::preferred(v) is None <==> v.len() == 0,
        Fs::preferred(v) is Some ==> v.contains(Fs::preferred(v)->0),
        v.contains(Fs::Fat32) ==> Fs::preferred(v) == Some(Fs::Fat32),
        v.len() > 0 && !v.contains(Fs::Fat32) ==> Fs::preferred(v) == Some(v[0]),
{
}

/// The button erases exactly when a listed drive is selected, its name stands typed out, and a
/// filesystem is chosen; then it erases that drive and makes that filesystem.
pub proof fn law_when_the_button_erases(e: EraseView, i: usize, fs: Fs)
    requires
        e.selected == Some(i),
        e.fs == Some(fs),
    ensures
        e.armed() is Some <==> i < e.drives.len() && e.confirm == e.drives[i as int].label,
        e.armed() matches Some(t) ==> t.at == i && t.fs == fs,
{
}

/// Without a drive or without a filesystem there is nothing to press.
pub proof fn law_when_nothing_can_be_erased(e: EraseView)
    ensures
        e.selected is None ==> e.armed() is None,
        e.fs is None ==> e.armed() is None,
{
}

/// What is said afterwards is good news exactly when the command succeeded; of a failure it is
/// what the command said, or the standing words where it said nothing.
pub proof fn law_what_is_said_of_erasing(fs: Fs, silent: Seq<char>, r: Result<(), Seq<char>>)
    ensures
        erase::format_text(fs, silent, r) is Ok <==> r is Ok,
        r matches Err(e) ==> (e.len() > 0 ==> erase::format_text(fs, silent, r) == Err::<
            Seq<char>,
            Seq<char>,
        >(e)),
        r matches Err(e) ==> (e.len() == 0 ==> erase::format_text(fs, silent, r) == Err::<
            Seq<char>,
            Seq<char>,
        >(silent)),
{
}

/// Whatever is done on the page for erasing, only typing can arm it: choosing a drive, giving up
/// and coming to an end all leave nothing typed, and after the last two no drive is chosen.
/// Another file system changes nothing else, and one that was chosen stays.
pub proof fn law_only_typing_arms(
    e: EraseView,
    i: usize,
    formats: Seq<Fs>,
    fs: Fs,
    drives: Seq<DriveInfoView>,
    status: Option<Result<Seq<char>, Seq<char>>>,
)
    ensures
        e.chose(i, formats).selected == Some(i) && e.chose(i, formats).confirm.len() == 0,
        e.chose(i, formats).status is None && e.chose(i, formats).drives == e.drives,
        e.fs is Some ==> e.chose(i, formats).fs == e.fs,
        e.fs is None ==> e.chose(i, formats).fs == Fs::preferred(formats),
        e.cancelled().selected is None && e.cancelled().confirm.len() == 0
            && e.cancelled().armed() is None && e.cancelled().drives == e.drives,
        e.ended(drives, status).armed() is None && e.ended(drives, status).status == status
            && e.ended(drives, status).drives == drives && e.ended(drives, status).confirm.len()
            == 0,
        e.with_fs(fs).fs == Some(fs) && e.with_fs(fs).selected == e.selected && e.with_fs(
            fs,
        ).confirm == e.confirm && e.with_fs(fs).drives == e.drives,
{
}

} // verus!
