//! Safe removal of a drive: what to ask the system, in which order, and what its answers allow
//! to be said. Nothing is called safe that the system did not confirm.

use crate::drive;
use crate::drive::{Mounted, MountedView};
use crate::fields;
use crate::scan;
use crate::scan::{eq_ignore_ascii_case, starts_with_ignore_ascii_case};
use crate::text::chars_of;
use crate::words::mentions;
use vstd::prelude::*;

verus! {

/// How a removal ended.
pub open spec fn outcome(r: Option<Result<String, String>>) -> Option<Result<Seq<char>, Seq<char>>> {
    match r {
        Some(Ok(s)) => Some(Ok(s@)),
        Some(Err(s)) => Some(Err(s@)),
        None => None,
    }
}

fn ended(r: &Option<Result<String, String>>) -> (d: Option<Result<String, String>>)
    ensures
        outcome(d) == outcome(*r),
{
    match r {
        Some(Ok(s)) => Some(Ok(s.clone())),
        Some(Err(s)) => Some(Err(s.clone())),
        None => None,
    }
}

// ── unmount, then power off ──────────────────────────────────────────────────
/// Why a mount point would not let go, from what the removal service printed.
pub open spec fn unmount_refusal(e: Seq<char>, point: Seq<char>) -> Seq<char> {
    if fields::occurs(e, "No such file or directory"@) {
        "This system has no removal service (udisks). Your files are copied; unmount the drive from your desktop or with umount."@
    } else if fields::occurs(e, "busy"@) || fields::occurs(e, "Error.DeviceBusy"@) {
        "Something still has the drive open — maybe the folder window you just opened. Close it and try again."@
    } else if fields::occurs(e, "Not authorized"@) || fields::occurs(e, "polkit"@)
        || fields::occurs(e, "Error.NotAuthorized"@) {
        "The system would not let this session remove the drive."@
    } else if e.len() == 0 {
        "could not unmount "@ + point
    } else {
        "The drive was not removed ("@ + point + " would not unmount)."@
    }
}

pub fn map_eject_err_linux(e: &str, mountpoint: &str) -> (s: String)
    ensures
        s@ == unmount_refusal(e@, mountpoint@),
{
    let cs = chars_of(e);
    if mentions(&cs, "No such file or directory") {
        String::from_str(
            "This system has no removal service (udisks). Your files are copied; unmount the drive from your desktop or with umount.",
        )
    } else if mentions(&cs, "busy") || mentions(&cs, "Error.DeviceBusy") {
        String::from_str(
            "Something still has the drive open — maybe the folder window you just opened. Close it and try again.",
        )
    } else if mentions(&cs, "Not authorized") || mentions(&cs, "polkit") || mentions(
        &cs,
        "Error.NotAuthorized",
    ) {
        String::from_str("The system would not let this session remove the drive.")
    } else if cs.len() == 0 {
        let mut s = String::from_str("could not unmount ");
        s.append(mountpoint);
        s
    } else {
        let mut s = String::from_str("The drive was not removed (");
        s.append(mountpoint);
        s.append(" would not unmount).");
        s
    }
}

/// Being unmounted already is what was wanted.
pub open spec fn already_gone(e: Seq<char>) -> bool {
    fields::occurs(e, "NotMounted"@) || fields::occurs(e, "not mounted"@)
}

/// What to do next.
pub enum EjectAsk {
    Unmount(String),
    PowerOff(String),
    /// Look again what is mounted from the drive.
    Rescan,
    Done(Result<String, String>),
}

/// What came of it.
pub enum EjectAnswer {
    /// Unmounted, or what the service printed.
    Unmounted(Result<(), String>),
    PoweredOff(bool),
    Still(Vec<Mounted>),
}

#[verifier::ext_equal]
pub enum EjectReply {
    Unmounted(Option<Seq<char>>),
    PoweredOff(bool),
    Still(Seq<MountedView>),
}

impl View for EjectAnswer {
    type V = EjectReply;

    open spec fn view(&self) -> EjectReply {
        match self {
            EjectAnswer::Unmounted(Ok(_)) => EjectReply::Unmounted(None),
            EjectAnswer::Unmounted(Err(e)) => EjectReply::Unmounted(Some(e@)),
            EjectAnswer::PoweredOff(b) => EjectReply::PoweredOff(*b),
            EjectAnswer::Still(v) => EjectReply::Still(drive::mounted_views(v@)),
        }
    }
}

/// A removal on a system where every partition is unmounted by itself.
pub struct Eject {
    dev: String,
    mounts: Vec<Mounted>,
    next: usize,
    tried: bool,
    done: Option<Result<String, String>>,
}

#[verifier::ext_equal]
pub struct EjectView {
    pub dev: Seq<char>,
    pub mounts: Seq<MountedView>,
    /// How many of them are unmounted.
    pub next: nat,
    /// Powering off was tried.
    pub tried: bool,
    pub done: Option<Result<Seq<char>, Seq<char>>>,
}

impl View for Eject {
    type V = EjectView;

    closed spec fn view(&self) -> EjectView {
        EjectView {
            dev: self.dev@,
            mounts: drive::mounted_views(self.mounts@),
            next: self.next as nat,
            tried: self.tried,
            done: outcome(self.done),
        }
    }
}

impl EjectView {
    /// Every mount of the drive is on the list; where none is known, the one at hand.
    pub open spec fn begin(dev: Seq<char>, point: Seq<char>, mounts: Seq<MountedView>) -> EjectView {
        EjectView {
            dev,
            mounts: if mounts.len() == 0 {
                seq![MountedView { device: dev, point }]
            } else {
                mounts
            },
            next: 0,
            tried: false,
            done: None,
        }
    }

    pub open spec fn step(self, a: EjectReply) -> EjectView {
        if self.done is Some {
            self
        } else if self.next < self.mounts.len() {
            match a {
                EjectReply::Unmounted(None) => EjectView { next: self.next + 1, ..self },
                EjectReply::Unmounted(Some(e)) => if already_gone(e) {
                    EjectView { next: self.next + 1, ..self }
                } else {
                    EjectView {
                        done: Some(Err(unmount_refusal(e, self.mounts[self.next as int].point))),
                        ..self
                    }
                },
                _ => self,
            }
        } else if !self.tried {
            match a {
                EjectReply::PoweredOff(true) => EjectView {
                    tried: true,
                    done: Some(Ok("Powered off — unplug it."@)),
                    ..self
                },
                EjectReply::PoweredOff(false) => EjectView { tried: true, ..self },
                _ => self,
            }
        } else {
            match a {
                EjectReply::Still(v) => if v.len() > 0 {
                    EjectView {
                        done: Some(
                            Err(
                                "Another part of this drive ("@ + v[0].point
                                    + ") is still in use — it was not removed."@,
                            ),
                        ),
                        ..self
                    }
                } else {
                    EjectView {
                        done: Some(Ok("Unmounted and flushed — you can unplug it."@)),
                        ..self
                    }
                },
                _ => self,
            }
        }
    }
}

/// `ask` is what the state asks for.
pub open spec fn asks(v: EjectView, ask: EjectAsk) -> bool {
    match v.done {
        Some(d) => ask is Done && outcome(Some(ask->Done_0)) == Some(d),
        None => if v.next < v.mounts.len() {
            ask is Unmount && ask->Unmount_0@ == v.mounts[v.next as int].device
        } else if !v.tried {
            ask is PowerOff && ask->PowerOff_0@ == v.dev
        } else {
            ask is Rescan
        },
    }
}

impl Eject {
    pub fn begin(dev: String, point: String, mounts: Vec<Mounted>) -> (e: Eject)
        ensures
            e@ == EjectView::begin(dev@, point@, drive::mounted_views(mounts@)),
    {
        let ghost given = drive::mounted_views(mounts@);
        let mut mounts = mounts;
        let d = dev.clone();
        if mounts.len() == 0 {
            let m = Mounted { device: d, point };
            mounts.push(m);
            assert(drive::mounted_views(mounts@) =~= seq![m@]);
        }
        let e = Eject { dev, mounts, next: 0, tried: false, done: None };
        assert(e@ =~= EjectView::begin(dev@, point@, given));
        e
    }

    pub fn ask(&self) -> (a: EjectAsk)
        ensures
            asks(self@, a),
    {
        match ended(&self.done) {
            Some(d) => EjectAsk::Done(d),
            None => {
                if self.next < self.mounts.len() {
                    assert(self@.mounts[self.next as int] == self.mounts@[self.next as int]@);
                    EjectAsk::Unmount(self.mounts[self.next].device.clone())
                } else if !self.tried {
                    EjectAsk::PowerOff(self.dev.clone())
                } else {
                    EjectAsk::Rescan
                }
            },
        }
    }

    pub fn answer(&mut self, a: EjectAnswer)
        ensures
            final(self)@ == old(self)@.step(a@),
    {
        if self.done.is_some() {
            return;
        }
        if self.next < self.mounts.len() {
            assert(self@.mounts[self.next as int] == self.mounts@[self.next as int]@);
            match a {
                EjectAnswer::Unmounted(Ok(_)) => {
                    self.next = self.next + 1;
                },
                EjectAnswer::Unmounted(Err(e)) => {
                    let cs = chars_of(e.as_str());
                    if mentions(&cs, "NotMounted") || mentions(&cs, "not mounted") {
                        self.next = self.next + 1;
                    } else {
                        self.done = Some(
                            Err(
                                map_eject_err_linux(
                                    e.as_str(),
                                    self.mounts[self.next].point.as_str(),
                                ),
                            ),
                        );
                    }
                },
                _ => {},
            }
        } else if !self.tried {
            match a {
                EjectAnswer::PoweredOff(ok) => {
                    self.tried = true;
                    if ok {
                        self.done = Some(Ok(String::from_str("Powered off — unplug it.")));
                    }
                },
                _ => {},
            }
        } else {
            match a {
                EjectAnswer::Still(v) => {
                    if v.len() > 0 {
                        assert(drive::mounted_views(v@)[0] == v@[0]@);
                        let mut s = String::from_str("Another part of this drive (");
                        s.append(v[0].point.as_str());
                        s.append(") is still in use — it was not removed.");
                        self.done = Some(Err(s));
                    } else {
                        self.done = Some(
                            Ok(String::from_str("Unmounted and flushed — you can unplug it.")),
                        );
                    }
                },
                _ => {},
            }
        }
    }
}

/// The state after a run of answers.
pub open spec fn eject_after(v: EjectView, answers: Seq<EjectReply>) -> EjectView
    decreases answers.len(),
{
    if answers.len() == 0 {
        v
    } else {
        eject_after(v, answers.drop_last()).step(answers.last())
    }
}

/// The answer tells that the mount is gone.
pub open spec fn let_go(a: EjectReply) -> bool {
    a matches EjectReply::Unmounted(e) && (e is Some ==> already_gone(e->0))
}

/// At this step exactly the `i`-th mount was asked for, and was reported gone.
pub open spec fn unmounted_at(
    start: EjectView,
    answers: Seq<EjectReply>,
    i: int,
    t: int,
) -> bool {
    let v = eject_after(start, answers.take(t));
    &&& 0 <= t < answers.len()
    &&& 0 <= i < start.mounts.len()
    &&& forall|q: EjectAsk| #[trigger]
        asks(v, q) ==> q is Unmount && q->Unmount_0@ == start.mounts[i].device
    &&& v.done is None && v.next == i
    &&& let_go(answers[t])
}

/// At some step of the run it was.
pub open spec fn was_unmounted(start: EjectView, answers: Seq<EjectReply>, i: int) -> bool {
    exists|t: int| unmounted_at(start, answers, i, t)
}

/// At this step, with every mount gone, the system was asked to power the drive off and did,
/// or was asked what is left of it and showed nothing.
pub open spec fn confirmed_at(start: EjectView, answers: Seq<EjectReply>, t: int) -> bool {
    let v = eject_after(start, answers.take(t));
    &&& 0 <= t < answers.len()
    &&& v.done is None && v.next == start.mounts.len()
    &&& if v.tried {
        answers[t] == EjectReply::Still(Seq::empty())
    } else {
        answers[t] == EjectReply::PoweredOff(true)
    }
}

/// A drive is called safe to unplug only after each mount of it was asked for and reported
/// gone, and after the system then either powered it off or was looked at again and showed
/// nothing left.
pub proof fn law_safe_means_every_part_let_go(
    dev: Seq<char>,
    point: Seq<char>,
    mounts: Seq<MountedView>,
    answers: Seq<EjectReply>,
)
    requires
        eject_after(EjectView::begin(dev, point, mounts), answers).done matches Some(Ok(_)),
    ensures
        ({
            let start = EjectView::begin(dev, point, mounts);
            &&& forall|i: int|
                0 <= i < start.mounts.len() ==> #[trigger] was_unmounted(start, answers, i)
            &&& exists|t: int| confirmed_at(start, answers, t)
        }),
{
    lemma_eject(EjectView::begin(dev, point, mounts), answers);
}

proof fn lemma_eject(start: EjectView, answers: Seq<EjectReply>)
    requires
        start.next == 0,
        start.done is None,
        !start.tried,
    ensures
        ({
            let v = eject_after(start, answers);
            &&& v.mounts == start.mounts
            &&& v.next <= v.mounts.len()
            &&& v.tried ==> v.next == v.mounts.len()
            &&& forall|i: int| 0 <= i < v.next ==> #[trigger] was_unmounted(start, answers, i)
            &&& v.done matches Some(Ok(_)) ==> v.next == v.mounts.len() && exists|t: int|
                confirmed_at(start, answers, t)
        }),
    decreases answers.len(),
{
    if answers.len() > 0 {
        let init = answers.drop_last();
        let last = answers.len() - 1;
        lemma_eject(start, init);
        let u = eject_after(start, init);
        let v = eject_after(start, answers);
        assert(answers.take(last) =~= init);
        assert forall|i: int| 0 <= i < v.next implies #[trigger] was_unmounted(
            start,
            answers,
            i,
        ) by {
            if i < u.next {
                assert(was_unmounted(start, init, i));
                let t = choose|t: int| unmounted_at(start, init, i, t);
                assert(init.take(t) =~= answers.take(t));
                assert(unmounted_at(start, answers, i, t));
            } else {
                assert(unmounted_at(start, answers, i, last));
            }
        }
        if v.done matches Some(Ok(_)) {
            if u.done is Some {
                let t = choose|t: int| confirmed_at(start, init, t);
                assert(init.take(t) =~= answers.take(t));
                assert(confirmed_at(start, answers, t));
            } else {
                assert(answers.last() matches EjectReply::Still(w) ==> w =~= Seq::empty());
                assert(confirmed_at(start, answers, last));
            }
        }
    }
}

// ── the whole disk at once ───────────────────────────────────────────────────
/// What a refusal to eject a whole disk means, from what the tool printed.
pub open spec fn mac_text(e: Option<Seq<char>>) -> Result<Seq<char>, Seq<char>> {
    match e {
        None => Ok("Ejected — safe to unplug."@),
        Some(m) => if fields::occurs(m, "dissented"@) || fields::occurs(m, "busy"@) {
            Err(
                "Something still has the drive open — close Finder windows showing it and try again."@,
            )
        } else {
            Err(
                "macOS declined to release the drive. Your files are copied; eject it from Finder."@,
            )
        },
    }
}

pub fn mac_eject_result(e: &Result<(), String>) -> (r: Result<String, String>)
    ensures
        outcome(Some(r)) == Some(
            mac_text(
                match *e {
                    Ok(_) => None,
                    Err(m) => Some(m@),
                },
            ),
        ),
{
    match e {
        Ok(_) => Ok(String::from_str("Ejected — safe to unplug.")),
        Err(m) => {
            let cs = chars_of(m.as_str());
            if mentions(&cs, "dissented") || mentions(&cs, "busy") {
                Err(
                    String::from_str(
                        "Something still has the drive open — close Finder windows showing it and try again.",
                    ),
                )
            } else {
                Err(
                    String::from_str(
                        "macOS declined to release the drive. Your files are copied; eject it from Finder.",
                    ),
                )
            }
        },
    }
}

// ── through the device tree ──────────────────────────────────────────────────
/// The kind of device that is a disk.
pub const DISK: u32 = 7;

/// The request went through.
pub const DONE_OK: u32 = 0;

/// The request was vetoed.
pub const VETOED: u32 = 23;

/// How many nodes are looked at on the way up from the disk.
pub const HOPS: u8 = 3;

/// What to ask the system next.
pub enum PnpAsk {
    /// The letter of the volume that holds the destination.
    Letter,
    /// The path at which that volume is mounted.
    MountRoot,
    /// Kind and number of the device behind the volume.
    VolumeNumber(char),
    /// The list of disks.
    Disks,
    /// The next disk of the list.
    NextDisk,
    /// The driver service of a node.
    Service(u32),
    /// The capabilities of a node.
    Capabilities(u32),
    /// The node above.
    Parent(u32),
    /// Ask for a node to be ejected.
    Request(u32),
    /// Give a program that is just closing a moment.
    Pause,
    Done(Result<String, String>),
}

/// What the system said.
pub enum PnpAnswer {
    Letter(Option<char>),
    MountRoot(Option<String>),
    Number(Option<DeviceNumber>),
    Disks(bool),
    /// The list is at its end.
    NoDisk,
    /// A disk of the list, with its node; its number may not be readable.
    Disk { node: u32, number: Option<DeviceNumber> },
    Service(String),
    Capabilities(Option<u32>),
    Parent(Option<u32>),
    Requested { code: u32, veto: i32, name: String },
    Waited,
}

#[derive(Clone, Copy)]
pub struct DeviceNumber {
    pub kind: u32,
    pub number: u32,
}

#[verifier::ext_equal]
pub enum PnpReply {
    Letter(Option<char>),
    MountRoot(Option<Seq<char>>),
    Number(Option<DeviceNumber>),
    Disks(bool),
    NoDisk,
    Disk { node: u32, number: Option<DeviceNumber> },
    Service(Seq<char>),
    Capabilities(Option<u32>),
    Parent(Option<u32>),
    Requested { code: u32, veto: i32, name: Seq<char> },
    Waited,
}

impl View for PnpAnswer {
    type V = PnpReply;

    open spec fn view(&self) -> PnpReply {
        match self {
            PnpAnswer::Letter(c) => PnpReply::Letter(*c),
            PnpAnswer::MountRoot(p) => PnpReply::MountRoot(drive::opt_text(*p)),
            PnpAnswer::Number(n) => PnpReply::Number(*n),
            PnpAnswer::Disks(b) => PnpReply::Disks(*b),
            PnpAnswer::NoDisk => PnpReply::NoDisk,
            PnpAnswer::Disk { node, number } => PnpReply::Disk { node: *node, number: *number },
            PnpAnswer::Service(s) => PnpReply::Service(s@),
            PnpAnswer::Capabilities(c) => PnpReply::Capabilities(*c),
            PnpAnswer::Parent(p) => PnpReply::Parent(*p),
            PnpAnswer::Requested { code, veto, name } => PnpReply::Requested {
                code: *code,
                veto: *veto,
                name: name@,
            },
            PnpAnswer::Waited => PnpReply::Waited,
        }
    }
}

/// Where the removal stands.
#[derive(Clone, Copy, PartialEq, Eq, Structural)]
pub enum PnpStage {
    Letter,
    MountRoot,
    Number,
    Disks,
    NextDisk,
    Service,
    Capabilities,
    Parent,
    Request,
    Pause,
    Done,
}

/// A removal on a system that ejects a device by its node: from the volume to its disk, from
/// the disk up to the nearest removable node, and then one request with one retry.
pub struct PnpEject {
    stage: PnpStage,
    letter: char,
    number: u32,
    /// The node that a request goes to.
    target: u32,
    /// The node under inspection.
    node: u32,
    hop: u8,
    retried: bool,
    done: Option<Result<String, String>>,
}

#[verifier::ext_equal]
pub struct PnpView {
    pub stage: PnpStage,
    pub letter: char,
    pub number: u32,
    pub target: u32,
    pub node: u32,
    pub hop: u8,
    pub retried: bool,
    pub done: Option<Result<Seq<char>, Seq<char>>>,
}

impl View for PnpEject {
    type V = PnpView;

    closed spec fn view(&self) -> PnpView {
        PnpView {
            stage: self.stage,
            letter: self.letter,
            number: self.number,
            target: self.target,
            node: self.node,
            hop: self.hop,
            retried: self.retried,
            done: outcome(self.done),
        }
    }
}

pub open spec fn declined() -> Seq<char> {
    "Windows declined to release the drive. Your files are copied; use the Safely Remove icon in the taskbar."@
}

/// The driver of a USB hub: ejecting one would take everything plugged into it along.
pub open spec fn is_hub(service: Seq<char>) -> bool {
    scan::begins_but_case(service, "USBHUB"@)
}

/// The capability bit of a removable device.
pub open spec fn removable(caps: u32) -> bool {
    caps / 4 % 2 == 1
}

/// What a finished request means.
pub open spec fn verdict(code: u32, veto: i32, name: Seq<char>) -> Result<Seq<char>, Seq<char>> {
    if code == DONE_OK {
        Ok("Ejected — safe to unplug."@)
    } else if code == VETOED {
        if veto == 13 {
            Ok("The drive is already ejected — safe to unplug."@)
        } else if veto == 5 || veto == 3 || veto == 4 {
            if name.len() == 0 {
                Err(
                    "Windows says a program still has the drive open. Close windows showing the drive, then try again."@,
                )
            } else {
                Err(
                    "Windows says "@ + name
                        + " still has the drive open — close it and try again."@,
                )
            }
        } else if veto == 12 {
            Err(
                "Windows would not let Kevat request the removal. Use the Safely Remove icon in the taskbar."@,
            )
        } else {
            Err(declined())
        }
    } else {
        Err(declined())
    }
}

impl PnpView {
    pub open spec fn begin() -> PnpView {
        PnpView {
            stage: PnpStage::Letter,
            letter: 'A',
            number: 0,
            target: 0,
            node: 0,
            hop: 0,
            retried: false,
            done: None,
        }
    }

    pub open spec fn end(self, r: Result<Seq<char>, Seq<char>>) -> PnpView {
        PnpView { stage: PnpStage::Done, done: Some(r), ..self }
    }

    /// The node after the one under inspection, or the request where the walk is over.
    pub open spec fn climb(self, parent: Option<u32>) -> PnpView {
        match parent {
            Some(p) => if self.hop + 1 < HOPS {
                PnpView {
                    stage: PnpStage::Service,
                    node: p,
                    hop: (self.hop + 1) as u8,
                    ..self
                }
            } else {
                PnpView { stage: PnpStage::Request, ..self }
            },
            None => PnpView { stage: PnpStage::Request, ..self },
        }
    }

    pub open spec fn step(self, a: PnpReply) -> PnpView {
        match (self.stage, a) {
            (PnpStage::Letter, PnpReply::Letter(Some(c))) => PnpView {
                stage: PnpStage::MountRoot,
                letter: c,
                ..self
            },
            (PnpStage::Letter, PnpReply::Letter(None)) => self.end(
                Err("could not find the drive"@),
            ),
            (PnpStage::MountRoot, PnpReply::MountRoot(p)) => if p is Some
                && !scan::same_but_case(p->0, seq![self.letter] + ":\\"@) {
                self.end(
                    Err(
                        "this destination is a folder-mounted volume — eject it from Windows itself."@,
                    ),
                )
            } else {
                PnpView { stage: PnpStage::Number, ..self }
            },
            (PnpStage::Number, PnpReply::Number(None)) => self.end(
                Err("couldn't reach the drive — it may already be unplugged."@),
            ),
            (PnpStage::Number, PnpReply::Number(Some(n))) => if n.kind != DISK {
                self.end(
                    Err("this volume spans more than one disk — eject it from Windows itself."@),
                )
            } else {
                PnpView { stage: PnpStage::Disks, number: n.number, ..self }
            },
            (PnpStage::Disks, PnpReply::Disks(true)) => PnpView {
                stage: PnpStage::NextDisk,
                ..self
            },
            (PnpStage::Disks, PnpReply::Disks(false)) => self.end(Err(declined())),
            (PnpStage::NextDisk, PnpReply::NoDisk) => self.end(Err(declined())),
            (PnpStage::NextDisk, PnpReply::Disk { node, number }) => if number is Some
                && number->0.number == self.number && number->0.kind == DISK {
                PnpView {
                    stage: PnpStage::Capabilities,
                    target: node,
                    node,
                    hop: 0,
                    ..self
                }
            } else {
                self
            },
            (PnpStage::Service, PnpReply::Service(s)) => if is_hub(s) {
                PnpView { stage: PnpStage::Request, ..self }
            } else {
                PnpView { stage: PnpStage::Capabilities, ..self }
            },
            (PnpStage::Capabilities, PnpReply::Capabilities(c)) => if c is Some && removable(
                c->0,
            ) {
                PnpView { stage: PnpStage::Request, target: self.node, ..self }
            } else {
                PnpView { stage: PnpStage::Parent, ..self }
            },
            (PnpStage::Parent, PnpReply::Parent(p)) => self.climb(p),
            (PnpStage::Request, PnpReply::Requested { code, veto, name }) => if code == VETOED
                && veto == 2 && !self.retried {
                PnpView { stage: PnpStage::Pause, retried: true, ..self }
            } else {
                self.end(verdict(code, veto, name))
            },
            (PnpStage::Pause, PnpReply::Waited) => PnpView { stage: PnpStage::Request, ..self },
            _ => self,
        }
    }
}

/// `ask` is what the state asks for.
pub open spec fn pnp_asks(v: PnpView, ask: PnpAsk) -> bool {
    match v.stage {
        PnpStage::Letter => ask is Letter,
        PnpStage::MountRoot => ask is MountRoot,
        PnpStage::Number => ask == PnpAsk::VolumeNumber(v.letter),
        PnpStage::Disks => ask is Disks,
        PnpStage::NextDisk => ask is NextDisk,
        PnpStage::Service => ask == PnpAsk::Service(v.node),
        PnpStage::Capabilities => ask == PnpAsk::Capabilities(v.node),
        PnpStage::Parent => ask == PnpAsk::Parent(v.node),
        PnpStage::Request => ask == PnpAsk::Request(v.target),
        PnpStage::Pause => ask is Pause,
        PnpStage::Done => ask is Done && outcome(Some(ask->Done_0)) == v.done,
    }
}

fn declined_text() -> (s: String)
    ensures
        s@ == declined(),
{
    String::from_str(
        "Windows declined to release the drive. Your files are copied; use the Safely Remove icon in the taskbar.",
    )
}

fn request_verdict(code: u32, veto: i32, name: &str) -> (r: Result<String, String>)
    ensures
        outcome(Some(r)) == Some(verdict(code, veto, name@)),
{
    if code == DONE_OK {
        Ok(String::from_str("Ejected — safe to unplug."))
    } else if code == VETOED {
        if veto == 13 {
            Ok(String::from_str("The drive is already ejected — safe to unplug."))
        } else if veto == 5 || veto == 3 || veto == 4 {
            if chars_of(name).len() == 0 {
                Err(
                    String::from_str(
                        "Windows says a program still has the drive open. Close windows showing the drive, then try again.",
                    ),
                )
            } else {
                let mut s = String::from_str("Windows says ");
                s.append(name);
                s.append(" still has the drive open — close it and try again.");
                Err(s)
            }
        } else if veto == 12 {
            Err(
                String::from_str(
                    "Windows would not let Kevat request the removal. Use the Safely Remove icon in the taskbar.",
                ),
            )
        } else {
            Err(declined_text())
        }
    } else {
        Err(declined_text())
    }
}

impl PnpEject {
    /// Few enough nodes were looked at; an outcome is there exactly at the end.
    pub closed spec fn wf(&self) -> bool {
        self.hop < HOPS && (self.done is Some <==> self.stage is Done)
    }

    pub fn begin() -> (e: PnpEject)
        ensures
            e.wf(),
            e@ == PnpView::begin(),
    {
        PnpEject {
            stage: PnpStage::Letter,
            letter: 'A',
            number: 0,
            target: 0,
            node: 0,
            hop: 0,
            retried: false,
            done: None,
        }
    }

    pub fn ask(&self) -> (a: PnpAsk)
        requires
            self.wf(),
        ensures
            pnp_asks(self@, a),
    {
        match self.stage {
            PnpStage::Letter => PnpAsk::Letter,
            PnpStage::MountRoot => PnpAsk::MountRoot,
            PnpStage::Number => PnpAsk::VolumeNumber(self.letter),
            PnpStage::Disks => PnpAsk::Disks,
            PnpStage::NextDisk => PnpAsk::NextDisk,
            PnpStage::Service => PnpAsk::Service(self.node),
            PnpStage::Capabilities => PnpAsk::Capabilities(self.node),
            PnpStage::Parent => PnpAsk::Parent(self.node),
            PnpStage::Request => PnpAsk::Request(self.target),
            PnpStage::Pause => PnpAsk::Pause,
            PnpStage::Done => match ended(&self.done) {
                Some(d) => PnpAsk::Done(d),
                None => PnpAsk::Done(Err(declined_text())),
            },
        }
    }

    fn finish(&mut self, r: Result<String, String>)
        ensures
            final(self)@ == old(self)@.end(
                match r {
                    Ok(s) => Ok(s@),
                    Err(s) => Err(s@),
                },
            ),
            old(self).wf() ==> final(self).wf(),
    {
        self.stage = PnpStage::Done;
        self.done = Some(r);
    }

    pub fn answer(&mut self, a: PnpAnswer)
        requires
            old(self).wf(),
        ensures
            final(self).wf(),
            final(self)@ == old(self)@.step(a@),
    {
        match (self.stage, a) {
            (PnpStage::Letter, PnpAnswer::Letter(c)) => match c {
                Some(c) => {
                    self.stage = PnpStage::MountRoot;
                    self.letter = c;
                },
                None => self.finish(Err(String::from_str("could not find the drive"))),
            },
            (PnpStage::MountRoot, PnpAnswer::MountRoot(p)) => {
                let mut expected = String::new();
                expected.push(self.letter);
                expected.append(":\\");
                assert(expected@ =~= seq![self.letter] + ":\\"@);
                let elsewhere = match &p {
                    Some(p) => !eq_ignore_ascii_case(p.as_str(), expected.as_str()),
                    None => false,
                };
                if elsewhere {
                    self.finish(
                        Err(
                            String::from_str(
                                "this destination is a folder-mounted volume — eject it from Windows itself.",
                            ),
                        ),
                    );
                } else {
                    self.stage = PnpStage::Number;
                }
            },
            (PnpStage::Number, PnpAnswer::Number(n)) => match n {
                None => self.finish(
                    Err(
                        String::from_str(
                            "couldn't reach the drive — it may already be unplugged.",
                        ),
                    ),
                ),
                Some(n) => {
                    if n.kind != DISK {
                        self.finish(
                            Err(
                                String::from_str(
                                    "this volume spans more than one disk — eject it from Windows itself.",
                                ),
                            ),
                        );
                    } else {
                        self.stage = PnpStage::Disks;
                        self.number = n.number;
                    }
                },
            },
            (PnpStage::Disks, PnpAnswer::Disks(ok)) => {
                if ok {
                    self.stage = PnpStage::NextDisk;
                } else {
                    self.finish(Err(declined_text()));
                }
            },
            (PnpStage::NextDisk, PnpAnswer::NoDisk) => self.finish(Err(declined_text())),
            (PnpStage::NextDisk, PnpAnswer::Disk { node, number }) => {
                if let Some(n) = number {
                    if n.number == self.number && n.kind == DISK {
                        self.stage = PnpStage::Capabilities;
                        self.target = node;
                        self.node = node;
                        self.hop = 0;
                    }
                }
            },
            (PnpStage::Service, PnpAnswer::Service(s)) => {
                if starts_with_ignore_ascii_case(s.as_str(), "USBHUB") {
                    self.stage = PnpStage::Request;
                } else {
                    self.stage = PnpStage::Capabilities;
                }
            },
            (PnpStage::Capabilities, PnpAnswer::Capabilities(c)) => {
                let ours = match c {
                    Some(c) => c / 4 % 2 == 1,
                    None => false,
                };
                if ours {
                    self.stage = PnpStage::Request;
                    self.target = self.node;
                } else {
                    self.stage = PnpStage::Parent;
                }
            },
            (PnpStage::Parent, PnpAnswer::Parent(p)) => match p {
                Some(p) => {
                    if self.hop + 1 < HOPS {
                        self.stage = PnpStage::Service;
                        self.node = p;
                        self.hop = self.hop + 1;
                    } else {
                        self.stage = PnpStage::Request;
                    }
                },
                None => {
                    self.stage = PnpStage::Request;
                },
            },
            (PnpStage::Request, PnpAnswer::Requested { code, veto, name }) => {
                if code == VETOED && veto == 2 && !self.retried {
                    self.stage = PnpStage::Pause;
                    self.retried = true;
                } else {
                    let r = request_verdict(code, veto, name.as_str());
                    self.finish(r);
                }
            },
            (PnpStage::Pause, PnpAnswer::Waited) => {
                self.stage = PnpStage::Request;
            },
            _ => {},
        }
    }
}

/// The state after a run of answers.
pub open spec fn pnp_after(answers: Seq<PnpReply>) -> PnpView
    decreases answers.len(),
{
    if answers.len() == 0 {
        PnpView::begin()
    } else {
        pnp_after(answers.drop_last()).step(answers.last())
    }
}

/// At step `k` of the run, node `n` was named as the disk itself.
pub open spec fn named_disk(answers: Seq<PnpReply>, k: int, n: u32) -> bool {
    &&& 0 <= k < answers.len()
    &&& pnp_after(answers.take(k)).stage is NextDisk
    &&& answers[k] is Disk
    &&& answers[k]->Disk_node == n
}

/// At step `k` of the run, node `n` was asked for its driver, and it was no hub.
pub open spec fn cleared(answers: Seq<PnpReply>, k: int, n: u32) -> bool {
    &&& 0 <= k < answers.len()
    &&& pnp_after(answers.take(k)).stage is Service
    &&& pnp_after(answers.take(k)).node == n
    &&& answers[k] is Service
    &&& !is_hub(answers[k]->Service_0)
}

/// Node `n` is the disk itself, or one above it whose driver is known to be no hub.
pub open spec fn ours(answers: Seq<PnpReply>, n: u32) -> bool {
    (exists|k: int| #[trigger] named_disk(answers, k, n)) || (exists|k: int| #[trigger]
        cleared(answers, k, n))
}

proof fn lemma_ours_stays(answers: Seq<PnpReply>, a: PnpReply, n: u32)
    requires
        ours(answers, n),
    ensures
        ours(answers.push(a), n),
{
    let more = answers.push(a);
    if exists|k: int| #[trigger] named_disk(answers, k, n) {
        let k = choose|k: int| #[trigger] named_disk(answers, k, n);
        assert(more.take(k) =~= answers.take(k));
        assert(named_disk(more, k, n));
    } else {
        let k = choose|k: int| #[trigger] cleared(answers, k, n);
        assert(more.take(k) =~= answers.take(k));
        assert(cleared(more, k, n));
    }
}

proof fn lemma_pnp(answers: Seq<PnpReply>)
    ensures
        ({
            let v = pnp_after(answers);
            &&& v.stage is Request || v.stage is Pause ==> ours(answers, v.target)
            &&& v.stage is Capabilities || v.stage is Parent ==> ours(answers, v.node) && ours(
                answers,
                v.target,
            )
            &&& v.stage is Service ==> ours(answers, v.target)
            &&& v.hop < HOPS
            &&& v.done is Some <==> v.stage is Done
        }),
    decreases answers.len(),
{
    if answers.len() > 0 {
        let init = answers.drop_last();
        let a = answers.last();
        lemma_pnp(init);
        let v = pnp_after(init);
        assert(answers =~= init.push(a));
        let k = init.len() as int;
        assert(answers.take(k) =~= init);
        assert(answers[k] == a);
        if ours(init, v.target) {
            lemma_ours_stays(init, a, v.target);
        }
        if ours(init, v.node) {
            lemma_ours_stays(init, a, v.node);
        }
        if v.stage is NextDisk && a is Disk {
            assert(named_disk(answers, k, a->Disk_node));
        }
        if v.stage is Service && a is Service && !is_hub(a->Service_0) {
            assert(cleared(answers, k, v.node));
        }
    }
}

/// A hub is never asked to go: every request is for the disk itself or for a node above it
/// whose driver was asked for and is no hub.
pub proof fn law_a_hub_is_never_ejected(answers: Seq<PnpReply>)
    requires
        pnp_after(answers).stage is Request,
    ensures
        ours(answers, pnp_after(answers).target),
{
    lemma_pnp(answers);
}

/// The drive is called safe to unplug only when the system said that the request went through
/// or that the drive is gone already.
pub proof fn law_safe_means_the_system_said_so(answers: Seq<PnpReply>)
    requires
        pnp_after(answers).done matches Some(Ok(_)),
    ensures
        exists|k: int|
            0 <= k < answers.len() && (#[trigger] answers[k]) is Requested && (
            answers[k]->Requested_code == DONE_OK || (answers[k]->Requested_code == VETOED
                && answers[k]->Requested_veto == 13)),
    decreases answers.len(),
{
    lemma_pnp(answers);
    if answers.len() > 0 {
        let init = answers.drop_last();
        lemma_pnp(init);
        let v = pnp_after(init);
        if v.done is Some {
            assert(pnp_after(answers) == v);
            law_safe_means_the_system_said_so(init);
            let k = choose|k: int|
                0 <= k < init.len() && (#[trigger] init[k]) is Requested && (
                init[k]->Requested_code == DONE_OK || (init[k]->Requested_code == VETOED
                    && init[k]->Requested_veto == 13));
            assert(answers[k] == init[k]);
        } else {
            assert(answers[answers.len() - 1] == answers.last());
        }
    }
}

} // verus!
