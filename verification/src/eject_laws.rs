//! When a drive is called safe to unplug, and which one is asked to go.

use crate::drive::MountedView;
use crate::eject;
use crate::eject::{EjectAsk, EjectReply, EjectView, PnpAsk, PnpReply, PnpStage, PnpView};
use crate::fields;
use crate::scan;
use vstd::prelude::*;

verus! {

// ── unmount, then power off ──────────────────────────────────────────────────
/// A mount counts as gone exactly when unmounting it went through, or failed for its being
/// unmounted already. Any other failure ends the removal with bad news.
pub proof fn law_what_counts_as_unmounted(v: EjectView, e: Seq<char>)
    requires
        v.done is None,
        v.next < v.mounts.len(),
    ensures
        v.step(EjectReply::Unmounted(None)) == (EjectView { next: v.next + 1, ..v }),
        fields::occurs(e, "NotMounted"@) || fields::occurs(e, "not mounted"@) ==> v.step(
            EjectReply::Unmounted(Some(e)),
        ) == (EjectView { next: v.next + 1, ..v }),
        !fields::occurs(e, "NotMounted"@) && !fields::occurs(e, "not mounted"@) ==> v.step(
            EjectReply::Unmounted(Some(e)),
        ).done matches Some(Err(_)),
{
}

/// The drive is powered off only once every mount is gone; that it went through is good news.
/// If it did not, what is still mounted is looked at, and decides.
pub proof fn law_what_decides_at_the_end(v: EjectView, a: EjectReply)
    requires
        v.done is None,
    ensures
        v.step(a).done matches Some(Ok(_)) ==> v.next >= v.mounts.len() && (a
            == EjectReply::PoweredOff(true) || (a matches EjectReply::Still(s) && s.len() == 0)),
        v.next >= v.mounts.len() && !v.tried ==> (v.step(EjectReply::PoweredOff(true)).done matches Some(
            Ok(_),
        )),
        v.next >= v.mounts.len() && !v.tried ==> v.step(EjectReply::PoweredOff(false)).done is None,
        v.next >= v.mounts.len() && v.tried ==> (a matches EjectReply::Still(s) ==> (s.len() > 0
            ==> (v.step(a).done matches Some(Err(_))))),
        v.next >= v.mounts.len() && v.tried ==> (a matches EjectReply::Still(s) ==> (s.len() == 0
            ==> (v.step(a).done matches Some(Ok(_))))),
{
}

/// What is unmounted are all mounts of the drive, or, where none is known, the one at hand.
pub proof fn law_what_is_unmounted(
    dev: Seq<char>,
    point: Seq<char>,
    mounts: Seq<crate::drive::MountedView>,
)
    ensures
        mounts.len() > 0 ==> EjectView::begin(dev, point, mounts).mounts == mounts,
        mounts.len() == 0 ==> EjectView::begin(dev, point, mounts).mounts.len() == 1
            && EjectView::begin(dev, point, mounts).mounts[0].device == dev,
        EjectView::begin(dev, point, mounts).dev == dev,
        EjectView::begin(dev, point, mounts).next == 0,
        EjectView::begin(dev, point, mounts).done is None,
{
}

/// The reason given for a mount that would not let go goes by what the service said: no such
/// service, something open, not allowed, in this order.
pub proof fn law_why_a_mount_stays(e: Seq<char>, point: Seq<char>)
    ensures
        ({
            let none = fields::occurs(e, "No such file or directory"@);
            let open = fields::occurs(e, "busy"@) || fields::occurs(e, "Error.DeviceBusy"@);
            let barred = fields::occurs(e, "Not authorized"@) || fields::occurs(e, "polkit"@)
                || fields::occurs(e, "Error.NotAuthorized"@);
            let said = eject::unmount_refusal(e, point);
            &&& none ==> said
                == "This system has no removal service (udisks). Your files are copied; unmount the drive from your desktop or with umount."@
            &&& !none && open ==> said
                == "Something still has the drive open — maybe the folder window you just opened. Close it and try again."@
            &&& !none && !open && barred ==> said
                == "The system would not let this session remove the drive."@
        }),
{
}

/// On a Mac a drive is safe to unplug exactly when the tool printed no error. One that speaks of
/// dissent or of being busy means that something is open, and no other does.
pub proof fn law_when_a_mac_lets_go(e: Option<Seq<char>>)
    ensures
        eject::mac_text(e) is Ok <==> e is None,
        e matches Some(m) ==> (eject::mac_text(e) == Err::<Seq<char>, Seq<char>>(
            "Something still has the drive open — close Finder windows showing it and try again."@,
        ) <==> fields::occurs(m, "dissented"@) || fields::occurs(m, "busy"@)),
{
    reveal_strlit(
        "Something still has the drive open — close Finder windows showing it and try again.",
    );
    reveal_strlit(
        "macOS declined to release the drive. Your files are copied; eject it from Finder.",
    );
    let a = "Something still has the drive open — close Finder windows showing it and try again."@;
    let b = "macOS declined to release the drive. Your files are copied; eject it from Finder."@;
    assert(a[0] != b[0]);
}

/// Letting a drive go begins with its first mount, nothing tried and nothing decided; a drive
/// without mounts is let go by itself.
pub proof fn law_how_letting_go_begins(
    dev: Seq<char>,
    point: Seq<char>,
    mounts: Seq<MountedView>,
)
    ensures
        ({
            let v = EjectView::begin(dev, point, mounts);
            &&& v.next == 0 && !v.tried && v.done is None && v.dev == dev
            &&& mounts.len() > 0 ==> v.mounts == mounts
            &&& mounts.len() == 0 ==> v.mounts.len() == 1 && v.mounts[0].device == dev
                && v.mounts[0].point == point
        }),
        PnpView::begin().stage is Letter && PnpView::begin().letter == 'A',
        !PnpView::begin().retried && PnpView::begin().hop == 0 && PnpView::begin().done is None,
{
}

// ── the device by its node ───────────────────────────────────────────────────
/// A request went through when its code is zero; one that was vetoed is good news only where the
/// veto says that the drive is gone already. Everything else is bad news.
pub proof fn law_what_a_request_means(code: u32, veto: i32, name: Seq<char>)
    ensures
        eject::verdict(code, veto, name) is Ok <==> code == 0 || (code == 23 && veto == 13),
{
}

/// The driver of a hub is one whose name begins with `usbhub`, in whatever case.
pub proof fn law_what_a_hub_is(service: Seq<char>)
    ensures
        eject::is_hub(service) <==> service.len() >= 6 && {
            &&& (service[0] == 'u' || service[0] == 'U')
            &&& (service[1] == 's' || service[1] == 'S')
            &&& (service[2] == 'b' || service[2] == 'B')
            &&& (service[3] == 'h' || service[3] == 'H')
            &&& (service[4] == 'u' || service[4] == 'U')
            &&& (service[5] == 'b' || service[5] == 'B')
        },
{
    reveal_strlit("USBHUB");
    let w = "USBHUB"@;
    if service.len() >= 6 {
        let t = service.take(6);
        assert(t[0] == service[0] && t[1] == service[1] && t[2] == service[2] && t[3]
            == service[3] && t[4] == service[4] && t[5] == service[5]);
        if eject::is_hub(service) {
            assert(scan::same_letter(t[0], w[0]));
            assert(scan::same_letter(t[1], w[1]));
            assert(scan::same_letter(t[2], w[2]));
            assert(scan::same_letter(t[3], w[3]));
            assert(scan::same_letter(t[4], w[4]));
            assert(scan::same_letter(t[5], w[5]));
        }
    }
}

/// A device is removable exactly when the third bit of its capabilities is set.
pub proof fn law_what_is_removable(caps: u32)
    ensures
        eject::removable(caps) <==> caps & 4 == 4,
{
    assert((caps / 4 % 2 == 1) == (caps & 4 == 4)) by (bit_vector);
}

/// At step `k` a disk was named with the number of the volume, of the kind of a disk.
pub open spec fn is_the_disk(answers: Seq<PnpReply>, k: int, number: u32) -> bool {
    &&& 0 <= k < answers.len()
    &&& answers[k] is Disk
    &&& answers[k]->Disk_number is Some
    &&& answers[k]->Disk_number->0.kind == 7
    &&& answers[k]->Disk_number->0.number == number
}

/// At step `j` the volume was said to have this number, on one disk.
pub open spec fn is_the_volume(answers: Seq<PnpReply>, j: int, number: u32) -> bool {
    &&& 0 <= j < answers.len()
    &&& answers[j] is Number
    &&& answers[j]->Number_0 is Some
    &&& answers[j]->Number_0->0.kind == 7
    &&& answers[j]->Number_0->0.number == number
}

/// Nothing is asked to go but for the sake of the volume's own disk: when a request is made, the
/// volume was said to lie on one disk, and a disk of that very number was found.
pub proof fn law_only_the_disk_of_the_volume_goes(answers: Seq<PnpReply>)
    requires
        eject::pnp_after(answers).stage is Request,
    ensures
        exists|k: int, j: int| #[trigger]
            is_the_disk(answers, k, eject::pnp_after(answers).number) && #[trigger] is_the_volume(
                answers,
                j,
                eject::pnp_after(answers).number,
            ),
{
    lemma_found(answers);
}

spec fn behind_number(stage: PnpStage) -> bool {
    stage is Disks || stage is NextDisk || behind_disk(stage)
}

spec fn behind_disk(stage: PnpStage) -> bool {
    stage is Service || stage is Capabilities || stage is Parent || stage is Request || stage
        is Pause
}

proof fn lemma_found(answers: Seq<PnpReply>)
    ensures
        ({
            let v = eject::pnp_after(answers);
            &&& behind_number(v.stage) ==> exists|j: int| #[trigger]
                is_the_volume(answers, j, v.number)
            &&& behind_disk(v.stage) ==> exists|k: int| #[trigger]
                is_the_disk(answers, k, v.number)
        }),
    decreases answers.len(),
{
    if answers.len() > 0 {
        let init = answers.drop_last();
        let last = answers.len() - 1;
        lemma_found(init);
        let b = eject::pnp_after(init);
        let v = eject::pnp_after(answers);
        assert(answers[last] == answers.last());
        assert(forall|i: int| 0 <= i < last ==> #[trigger] init[i] == answers[i]);
        if behind_number(b.stage) && behind_number(v.stage) {
            let j = choose|j: int| #[trigger] is_the_volume(init, j, b.number);
            assert(init[j] == answers[j]);
            assert(is_the_volume(answers, j, v.number));
        } else if behind_number(v.stage) {
            assert(is_the_volume(answers, last, v.number));
        }
        if behind_disk(b.stage) && behind_disk(v.stage) {
            let k = choose|k: int| #[trigger] is_the_disk(init, k, b.number);
            assert(init[k] == answers[k]);
            assert(is_the_disk(answers, k, v.number));
        } else if behind_disk(v.stage) {
            assert(is_the_disk(answers, last, v.number));
        }
    }
}

/// A node above the disk becomes the one to ask only where it said of itself that it can be
/// removed; a veto of the kind that passes is retried once, and once only.
pub proof fn law_when_the_target_changes(v: PnpView, a: PnpReply)
    ensures
        v.step(a).target != v.target ==> v.step(a).target == v.node || v.stage is NextDisk,
        v.stage is Capabilities && v.step(a).target != v.target ==> (a matches PnpReply::Capabilities(
            c,
        ) && c is Some && c->0 & 4 == 4),
        v.stage is Request && v.retried && a is Requested ==> v.step(a).stage is Done,
        v.stage is Request && v.step(a).stage is Pause ==> !v.retried && v.step(a).retried,
{
    if let PnpReply::Capabilities(Some(c)) = a {
        law_what_is_removable(c);
    }
}

// ── what is asked ────────────────────────────────────────────────────────────
/// Nothing is asked of the system once it is decided. Until then the mounts are let go one after
/// the other, each by its own device; only after the last of them is the drive switched off, and
/// only the one that was named, and only after that is anything looked at again.
pub proof fn law_what_is_asked_before_a_drive_goes(v: EjectView, ask: EjectAsk)
    requires
        eject::asks(v, ask),
    ensures
        ask is Done <==> v.done is Some,
        ask matches EjectAsk::Unmount(d) ==> v.next < v.mounts.len() && d@
            == v.mounts[v.next as int].device,
        ask matches EjectAsk::PowerOff(d) ==> v.next >= v.mounts.len() && !v.tried && d@ == v.dev,
        ask is Rescan ==> v.next >= v.mounts.len() && v.tried,
{
}

/// On Windows only the node that was settled on is asked to go, and only at the stage for it;
/// what is asked of a node is asked of the one at hand.
pub proof fn law_what_is_asked_of_windows(v: PnpView, ask: PnpAsk)
    requires
        eject::pnp_asks(v, ask),
    ensures
        ask matches PnpAsk::Request(t) ==> v.stage is Request && t == v.target,
        ask matches PnpAsk::Service(n) ==> n == v.node,
        ask matches PnpAsk::Capabilities(n) ==> n == v.node,
        ask matches PnpAsk::Parent(n) ==> n == v.node,
        ask matches PnpAsk::VolumeNumber(l) ==> l == v.letter,
        ask is Done <==> v.stage is Done,
{
}

} // verus!
