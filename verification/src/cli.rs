//! The command line: what the arguments mean, and what is said while it works.

use crate::engine::OnExists;
use crate::journal::Mode;
use crate::scan;
use crate::scan::{Filter, FilterView};
use crate::size;
use crate::size::human_binary;
use crate::text;
use crate::text::{after, cat, chars_of, decimal, has_prefix, same};
use vstd::prelude::*;

verus! {

/// What was asked for.
pub struct Args {
    pub src: Option<String>,
    pub dst: Option<String>,
    pub moving: bool,
    pub verify: Option<bool>,
    pub paranoid: bool,
    pub dry_run: bool,
    pub on_exists: OnExists,
    pub skip_caches: bool,
    pub skip_cloud: bool,
    pub exclude: Vec<String>,
}

/// What the arguments come to.
pub enum Command {
    Help,
    Version,
    Run(Args),
}

#[verifier::ext_equal]
pub struct ArgsView {
    pub moving: bool,
    pub verify: Option<bool>,
    pub paranoid: bool,
    pub dry_run: bool,
    pub on_exists: OnExists,
    pub skip_caches: bool,
    pub skip_cloud: bool,
    pub exclude: Seq<Seq<char>>,
    /// Everything that is no option, in order.
    pub places: Seq<Seq<char>>,
}

#[verifier::ext_equal]
pub enum Reading {
    Go(ArgsView),
    Help,
    Version,
    Bad(Seq<char>),
}

/// What `{:?}` prints of this text.
pub uninterp spec fn debug_text(s: Seq<char>) -> Seq<char>;

/// `format!` with `{:?}` of a string slice: a function of the characters alone. How it quotes
/// and escapes them stays unsaid.
#[verifier::external_body]
fn debug_form(s: &str) -> (r: String)
    ensures
        r@ == debug_text(s@),
{
    format!("{s:?}")
}

impl ArgsView {
    pub open spec fn empty() -> ArgsView {
        ArgsView {
            moving: false,
            verify: None,
            paranoid: false,
            dry_run: false,
            on_exists: OnExists::Replace,
            skip_caches: false,
            skip_cloud: false,
            exclude: Seq::empty(),
            places: Seq::empty(),
        }
    }

    /// What one more argument means.
    pub open spec fn take(self, arg: Seq<char>) -> Reading {
        if arg == "-h"@ || arg == "--help"@ {
            Reading::Help
        } else if arg == "-V"@ || arg == "--version"@ {
            Reading::Version
        } else if arg == "--move"@ {
            Reading::Go(ArgsView { moving: true, ..self })
        } else if arg == "--verify"@ {
            Reading::Go(ArgsView { verify: Some(true), ..self })
        } else if arg == "--no-verify"@ {
            Reading::Go(ArgsView { verify: Some(false), ..self })
        } else if arg == "--paranoid"@ {
            Reading::Go(ArgsView { paranoid: true, ..self })
        } else if "--exists="@.is_prefix_of(arg) {
            let what = arg.skip("--exists="@.len() as int);
            if what == "replace"@ {
                Reading::Go(ArgsView { on_exists: OnExists::Replace, ..self })
            } else if what == "keep"@ {
                Reading::Go(ArgsView { on_exists: OnExists::Keep, ..self })
            } else if what == "fail"@ {
                Reading::Go(ArgsView { on_exists: OnExists::Fail, ..self })
            } else {
                Reading::Bad(
                    "--exists must be replace, keep or fail (got "@ + debug_text(what) + ")"@,
                )
            }
        } else if arg == "--skip-caches"@ {
            Reading::Go(ArgsView { skip_caches: true, ..self })
        } else if arg == "--skip-cloud"@ {
            Reading::Go(ArgsView { skip_cloud: true, ..self })
        } else if "--exclude="@.is_prefix_of(arg) {
            let name = arg.skip("--exclude="@.len() as int);
            if name.len() == 0 {
                Reading::Bad("--exclude needs a name (--exclude=node_modules)"@)
            } else {
                Reading::Go(ArgsView { exclude: self.exclude.push(name), ..self })
            }
        } else if arg == "--dry-run"@ {
            Reading::Go(ArgsView { dry_run: true, ..self })
        } else if arg.len() > 0 && arg[0] == '-' {
            Reading::Bad("unknown option: "@ + arg)
        } else {
            Reading::Go(ArgsView { places: self.places.push(arg), ..self })
        }
    }

    /// What a list of arguments means, read from the left. The first that asks for help or
    /// cannot be understood ends the reading; more than two places are one too many.
    pub open spec fn read(self, args: Seq<Seq<char>>) -> Reading
        decreases args.len(),
    {
        if args.len() == 0 {
            if self.places.len() > 2 {
                Reading::Bad("unexpected argument: "@ + self.places[2])
            } else {
                Reading::Go(self)
            }
        } else {
            match self.take(args[0]) {
                Reading::Go(next) => next.read(args.drop_first()),
                end => end,
            }
        }
    }
}

/// A reading under construction.
struct Draft {
    moving: bool,
    verify: Option<bool>,
    paranoid: bool,
    dry_run: bool,
    on_exists: OnExists,
    skip_caches: bool,
    skip_cloud: bool,
    exclude: Vec<String>,
    places: Vec<String>,
}

enum Took {
    Go,
    Help,
    Version,
    Bad(String),
}

impl Draft {
    spec fn val(self) -> ArgsView {
        ArgsView {
            moving: self.moving,
            verify: self.verify,
            paranoid: self.paranoid,
            dry_run: self.dry_run,
            on_exists: self.on_exists,
            skip_caches: self.skip_caches,
            skip_cloud: self.skip_cloud,
            exclude: text::texts(self.exclude@),
            places: text::texts(self.places@),
        }
    }

    fn take(&mut self, arg: &String) -> (r: Took)
        ensures
            match old(self).val().take(arg@) {
                Reading::Go(next) => r is Go && final(self).val() == next,
                Reading::Help => r is Help,
                Reading::Version => r is Version,
                Reading::Bad(why) => r is Bad && r->0@ == why,
            },
    {
        let ghost before = self.val();
        let a = arg.as_str();
        let cs = chars_of(a);
        let exists = chars_of("--exists=");
        let exclude = chars_of("--exclude=");
        if same(a, "-h") || same(a, "--help") {
            return Took::Help;
        } else if same(a, "-V") || same(a, "--version") {
            return Took::Version;
        } else if same(a, "--move") {
            self.moving = true;
        } else if same(a, "--verify") {
            self.verify = Some(true);
        } else if same(a, "--no-verify") {
            self.verify = Some(false);
        } else if same(a, "--paranoid") {
            self.paranoid = true;
        } else if has_prefix(&cs, &exists) {
            let what = after(&cs, exists.len());
            if same(what.as_str(), "replace") {
                self.on_exists = OnExists::Replace;
            } else if same(what.as_str(), "keep") {
                self.on_exists = OnExists::Keep;
            } else if same(what.as_str(), "fail") {
                self.on_exists = OnExists::Fail;
            } else {
                let mut s = String::from_str("--exists must be replace, keep or fail (got ");
                s.append(debug_form(what.as_str()).as_str());
                s.append(")");
                return Took::Bad(s);
            }
        } else if same(a, "--skip-caches") {
            self.skip_caches = true;
        } else if same(a, "--skip-cloud") {
            self.skip_cloud = true;
        } else if has_prefix(&cs, &exclude) {
            let name = after(&cs, exclude.len());
            if cs.len() == exclude.len() {
                return Took::Bad(
                    String::from_str("--exclude needs a name (--exclude=node_modules)"),
                );
            }
            let ghost nv = name@;
            self.exclude.push(name);
            assert(self.val().exclude =~= before.exclude.push(nv));
        } else if same(a, "--dry-run") {
            self.dry_run = true;
        } else if cs.len() > 0 && cs[0] == '-' {
            return Took::Bad(cat("unknown option: ", a));
        } else {
            self.places.push(arg.clone());
            assert(self.val().places =~= before.places.push(arg@));
        }
        Took::Go
    }
}

/// The `i`-th place, if there is one.
pub open spec fn place(a: ArgsView, i: int) -> Option<Seq<char>> {
    if i < a.places.len() {
        Some(a.places[i])
    } else {
        None
    }
}

pub open spec fn opt_text(s: Option<String>) -> Option<Seq<char>> {
    match s {
        Some(t) => Some(t@),
        None => None,
    }
}

/// `a` is what was read.
pub open spec fn reads_as(a: Args, v: ArgsView) -> bool {
    &&& opt_text(a.src) == place(v, 0)
    &&& opt_text(a.dst) == place(v, 1)
    &&& a.moving == v.moving
    &&& a.verify == v.verify
    &&& a.paranoid == v.paranoid
    &&& a.dry_run == v.dry_run
    &&& a.on_exists == v.on_exists
    &&& a.skip_caches == v.skip_caches
    &&& a.skip_cloud == v.skip_cloud
    &&& text::texts(a.exclude@) == v.exclude
}

/// What the arguments come to, read from the first to the last.
pub open spec fn parsed(args: Seq<Seq<char>>, r: Result<Command, String>) -> bool {
    match ArgsView::empty().read(args) {
        Reading::Help => r matches Ok(Command::Help),
        Reading::Version => r matches Ok(Command::Version),
        Reading::Bad(why) => r is Err && r->Err_0@ == why,
        Reading::Go(v) => r matches Ok(Command::Run(a)) && reads_as(a, v),
    }
}

/// Reads the arguments behind the program's name.
pub fn parse(args: &Vec<String>) -> (r: Result<Command, String>)
    ensures
        parsed(text::texts(args@), r),
{
    let ghost all = text::texts(args@);
    let mut d = Draft {
        moving: false,
        verify: None,
        paranoid: false,
        dry_run: false,
        on_exists: OnExists::Replace,
        skip_caches: false,
        skip_cloud: false,
        exclude: Vec::new(),
        places: Vec::new(),
    };
    assert(d.val() =~= ArgsView::empty());
    assert(all.skip(0) =~= all);
    let mut i: usize = 0;
    while i < args.len()
        invariant
            i <= args.len(),
            all == text::texts(args@),
            ArgsView::empty().read(all) == d.val().read(all.skip(i as int)),
        decreases args.len() - i,
    {
        assert(all.skip(i as int)[0] == args@[i as int]@);
        assert(all.skip(i as int).drop_first() =~= all.skip(i + 1));
        match d.take(&args[i]) {
            Took::Go => {},
            Took::Help => {
                return Ok(Command::Help);
            },
            Took::Version => {
                return Ok(Command::Version);
            },
            Took::Bad(why) => {
                return Err(why);
            },
        }
        i += 1;
    }
    assert(all.skip(i as int).len() == 0);
    if d.places.len() > 2 {
        return Err(cat("unexpected argument: ", d.places[2].as_str()));
    }
    let src = if d.places.len() > 0 {
        Some(d.places[0].clone())
    } else {
        None
    };
    let dst = if d.places.len() > 1 {
        Some(d.places[1].clone())
    } else {
        None
    };
    let a = Args {
        src,
        dst,
        moving: d.moving,
        verify: d.verify,
        paranoid: d.paranoid,
        dry_run: d.dry_run,
        on_exists: d.on_exists,
        skip_caches: d.skip_caches,
        skip_cloud: d.skip_cloud,
        exclude: d.exclude,
    };
    Ok(Command::Run(a))
}

pub open spec fn mode_of(moving: bool) -> Mode {
    if moving {
        Mode::Move
    } else {
        Mode::Copy
    }
}

/// What the scan leaves out.
pub open spec fn ruled_out(
    skip_caches: bool,
    skip_cloud: bool,
    exclude: Seq<Seq<char>>,
) -> FilterView {
    FilterView {
        names: (if skip_caches {
            scan::cache_names()
        } else {
            Seq::empty()
        }) + exclude,
        prefixes: if skip_cloud {
            scan::cloud_prefixes()
        } else {
            Seq::empty()
        },
    }
}

/// Whether copies are checked: as was said, and by default in a move alone.
pub open spec fn verifies_as(verify: Option<bool>, moving: bool) -> bool {
    match verify {
        Some(v) => v,
        None => moving,
    }
}

impl Args {
    pub fn mode(&self) -> (m: Mode)
        ensures
            m == mode_of(self.moving),
    {
        if self.moving {
            Mode::Move
        } else {
            Mode::Copy
        }
    }

    /// Verification is the default for a move, which deletes originals, and not for a copy.
    pub fn verifies(&self) -> (r: bool)
        ensures
            r == verifies_as(self.verify, self.moving),
    {
        match self.verify {
            Some(v) => v,
            None => self.moving,
        }
    }

    /// What the scan leaves out.
    pub fn filter(&self) -> (f: Filter)
        ensures
            f@ == ruled_out(self.skip_caches, self.skip_cloud, text::texts(self.exclude@)),
    {
        let mut f = if self.skip_caches {
            Filter::caches()
        } else {
            Filter::none()
        };
        if self.skip_cloud {
            f.add_cloud();
            assert(f@.prefixes =~= scan::cloud_prefixes());
        }
        let ghost base = f@;
        let ghost all = text::texts(self.exclude@);
        let mut i: usize = 0;
        assert(base.names + all.take(0) =~= base.names);
        while i < self.exclude.len()
            invariant
                i <= self.exclude.len(),
                all == text::texts(self.exclude@),
                f@ == (FilterView { names: base.names + all.take(i as int), ..base }),
            decreases self.exclude.len() - i,
        {
            f.add(self.exclude[i].as_str());
            assert(base.names + all.take(i + 1) =~= (base.names + all.take(i as int)).push(
                self.exclude@[i as int]@,
            ));
            i += 1;
        }
        assert(all.take(i as int) =~= all);
        f
    }
}

/// Sizes in binary units.
pub fn human(bytes: u64) -> (s: String)
    ensures
        s@ == size::binary_text(bytes),
{
    human_binary(bytes)
}

/// Everything that was found was skipped.
pub open spec fn nothing_came(files: usize, skipped: usize, dry_run: bool) -> bool {
    files == 0 && skipped > 0 && !dry_run
}

/// The share done, in whole percent, cut off.
pub open spec fn share(done: u64, total: u64) -> int {
    if total > 0 {
        done as int * 100 / total as int
    } else {
        0
    }
}

/// The exit code of a transfer that ended with so many problems.
pub open spec fn exit_of(dry_run: bool, errors: usize) -> u8 {
    if dry_run || errors == 0 {
        0
    } else {
        EXIT_FAILED
    }
}

/// A scan that found nothing because everything was skipped is a failure: a script would
/// otherwise take it for data safely across. An empty tree is none, nor is a dry run.
pub fn nothing_to_copy(files: usize, skipped: usize, dry_run: bool) -> (r: bool)
    ensures
        r == nothing_came(files, skipped, dry_run),
{
    files == 0 && skipped > 0 && !dry_run
}

/// The share done, in whole percent.
pub fn percent(done: u64, total: u64) -> (r: u128)
    ensures
        r == share(done, total),
{
    if total > 0 {
        done as u128 * 100 / total as u128
    } else {
        0
    }
}

/// What stands behind the speed while it works: the time left, and what it goes to if small
/// files are most of it.
pub open spec fn eta_note_text(
    seconds: Option<u64>,
    small_left: u64,
    small_secs: Option<u64>,
) -> Seq<char> {
    let time = match seconds {
        Some(s) => if s >= 3600 {
            "  about "@ + text::dec(s as nat / 3600) + " h "@ + text::dec(
                (s as nat % 3600 + 30) / 60,
            ) + " m left"@
        } else if s >= 60 {
            "  about "@ + text::dec((s as nat + 30) / 60) + " m left"@
        } else {
            "  under a minute left"@
        },
        None => Seq::empty(),
    };
    if seconds is Some && small_secs is Some && small_secs->0 > 600 && small_secs->0 * 2
        > seconds->0 && small_left > 10_000 {
        time + "  ("@ + text::dec(small_left as nat) + " small files are most of it)"@
    } else {
        time
    }
}

pub fn eta_note(seconds: Option<u64>, small_left: u64, small_secs: Option<u64>) -> (r: String)
    ensures
        r@ == eta_note_text(seconds, small_left, small_secs),
{
    let mut n = String::new();
    if let Some(s) = seconds {
        if s >= 3600 {
            n = String::from_str("  about ");
            n.append(decimal(s / 3600).as_str());
            n.append(" h ");
            n.append(decimal((s % 3600 + 30) / 60).as_str());
            n.append(" m left");
        } else if s >= 60 {
            n = String::from_str("  about ");
            n.append(decimal((s + 30) / 60).as_str());
            n.append(" m left");
        } else {
            n = String::from_str("  under a minute left");
        }
        if let Some(t) = small_secs {
            if t > 600 && t as u128 * 2 > s as u128 && small_left > 10_000 {
                n.append("  (");
                n.append(decimal(small_left).as_str());
                n.append(" small files are most of it)");
            }
        }
    }
    n
}

/// The exit code for arguments that could not be understood.
pub const EXIT_USAGE: u8 = 2;

/// The exit code of a transfer that ran but met a problem.
pub const EXIT_FAILED: u8 = 1;

/// The exit code of a transfer that ended with so many problems.
pub fn exit_code(dry_run: bool, errors: usize) -> (r: u8)
    ensures
        r == exit_of(dry_run, errors),
{
    if dry_run || errors == 0 {
        0
    } else {
        EXIT_FAILED
    }
}

} // verus!
