//! What a command line means as a whole, whatever the order of its arguments.

use crate::cli;
use crate::cli::{Args, ArgsView, Command, Reading};
use crate::engine::OnExists;
use crate::scan;
use crate::text;
use vstd::prelude::*;

verus! {

/// An option that is set by being there.
pub open spec fn is_flag(arg: Seq<char>) -> bool {
    arg == "--move"@ || arg == "--verify"@ || arg == "--no-verify"@ || arg == "--paranoid"@ || arg
        == "--skip-caches"@ || arg == "--skip-cloud"@ || arg == "--dry-run"@
}

pub open spec fn chooses_existing(arg: Seq<char>) -> bool {
    arg == "--exists=replace"@ || arg == "--exists=keep"@ || arg == "--exists=fail"@
}

/// An argument that names something to leave out.
pub open spec fn names_excluded(arg: Seq<char>) -> bool {
    arg.len() > 10 && arg.take(10) == "--exclude="@
}

/// An argument that is no option.
pub open spec fn is_place(arg: Seq<char>) -> bool {
    arg.len() == 0 || arg[0] != '-'
}

/// An argument that can be understood and does not end the reading.
pub open spec fn goes_on(arg: Seq<char>) -> bool {
    is_flag(arg) || chooses_existing(arg) || names_excluded(arg) || is_place(arg)
}

pub open spec fn asks_help(arg: Seq<char>) -> bool {
    arg == "-h"@ || arg == "--help"@
}

pub open spec fn asks_version(arg: Seq<char>) -> bool {
    arg == "-V"@ || arg == "--version"@
}

/// The places among the arguments, in order.
pub open spec fn places_of(args: Seq<Seq<char>>) -> Seq<Seq<char>> {
    args.filter(|a: Seq<char>| is_place(a))
}

/// What is to be left out by name, in order.
pub open spec fn excluded_of(args: Seq<Seq<char>>) -> Seq<Seq<char>> {
    args.filter(|a: Seq<char>| names_excluded(a)).map_values(|a: Seq<char>| a.skip(10))
}

/// What one argument does to what was read before it.
#[verifier::spinoff_prover]
proof fn lemma_take(a: ArgsView, arg: Seq<char>)
    ensures
        a.take(arg) is Go <==> goes_on(arg),
        a.take(arg) is Help <==> asks_help(arg),
        a.take(arg) is Version <==> asks_version(arg),
        a.take(arg) matches Reading::Go(n) ==> {
            &&& n.moving == (a.moving || arg == "--move"@)
            &&& n.paranoid == (a.paranoid || arg == "--paranoid"@)
            &&& n.dry_run == (a.dry_run || arg == "--dry-run"@)
            &&& n.skip_caches == (a.skip_caches || arg == "--skip-caches"@)
            &&& n.skip_cloud == (a.skip_cloud || arg == "--skip-cloud"@)
            &&& arg == "--verify"@ ==> n.verify == Some(true)
            &&& arg == "--no-verify"@ ==> n.verify == Some(false)
            &&& arg != "--verify"@ && arg != "--no-verify"@ ==> n.verify == a.verify
            &&& arg == "--exists=replace"@ ==> n.on_exists is Replace
            &&& arg == "--exists=keep"@ ==> n.on_exists is Keep
            &&& arg == "--exists=fail"@ ==> n.on_exists is Fail
            &&& !chooses_existing(arg) ==> n.on_exists == a.on_exists
            &&& n.exclude == (if names_excluded(arg) {
                a.exclude.push(arg.skip(10))
            } else {
                a.exclude
            })
            &&& n.places == (if is_place(arg) {
                a.places.push(arg)
            } else {
                a.places
            })
        },
{
    reveal_strlit("-h");
    reveal_strlit("--help");
    reveal_strlit("-V");
    reveal_strlit("--version");
    reveal_strlit("--move");
    reveal_strlit("--verify");
    reveal_strlit("--no-verify");
    reveal_strlit("--paranoid");
    reveal_strlit("--skip-caches");
    reveal_strlit("--skip-cloud");
    reveal_strlit("--dry-run");
    reveal_strlit("--exists=");
    reveal_strlit("--exclude=");
    lemma_existing(arg);
    lemma_excluded(arg);
    lemma_letters(arg);
}

/// The options differ in their letters.
proof fn lemma_letters(arg: Seq<char>)
    ensures
        asks_help(arg) || asks_version(arg) || is_flag(arg) ==> arg.len() > 0 && arg[0] == '-'
            && !"--exists="@.is_prefix_of(arg) && !"--exclude="@.is_prefix_of(arg),
        !(asks_help(arg) && asks_version(arg)),
        !(is_flag(arg) && (asks_help(arg) || asks_version(arg))),
        arg == "--move"@ ==> arg[2] == 'm',
        arg == "--verify"@ ==> arg[2] == 'v',
        arg == "--no-verify"@ ==> arg[2] == 'n',
        arg == "--paranoid"@ ==> arg[2] == 'p',
        arg == "--dry-run"@ ==> arg[2] == 'd',
        arg == "--skip-caches"@ ==> arg[2] == 's' && arg.len() == 13,
        arg == "--skip-cloud"@ ==> arg[2] == 's' && arg.len() == 12,
        "--exists="@.is_prefix_of(arg) ==> arg.len() >= 9 && arg[0] == '-' && arg[2] == 'e'
            && arg[4] == 'i',
        "--exclude="@.is_prefix_of(arg) ==> arg.len() >= 10 && arg[0] == '-' && arg[2] == 'e'
            && arg[4] == 'c',
{
    reveal_strlit("-h");
    reveal_strlit("--help");
    reveal_strlit("-V");
    reveal_strlit("--version");
    reveal_strlit("--move");
    reveal_strlit("--verify");
    reveal_strlit("--no-verify");
    reveal_strlit("--paranoid");
    reveal_strlit("--skip-caches");
    reveal_strlit("--skip-cloud");
    reveal_strlit("--dry-run");
    reveal_strlit("--exists=");
    reveal_strlit("--exclude=");
    assert("-h"@[1] == 'h' && "-V"@[1] == 'V' && "--help"@[2] == 'h' && "--version"@[2] == 'v');
    assert("--help"@.len() == 6 && "--version"@.len() == 9 && "--verify"@.len() == 8);
    let ex = "--exists="@;
    let ec = "--exclude="@;
    if ex.is_prefix_of(arg) {
        assert(arg.take(9)[0] == ex[0] && arg.take(9)[2] == ex[2] && arg.take(9)[4] == ex[4]);
    }
    if ec.is_prefix_of(arg) {
        assert(arg.take(10)[0] == ec[0] && arg.take(10)[2] == ec[2] && arg.take(10)[4] == ec[4]);
    }
}

proof fn lemma_existing_differ()
    ensures
        "--exists=replace"@ != "--exists=keep"@,
        "--exists=replace"@ != "--exists=fail"@,
        "--exists=keep"@ != "--exists=fail"@,
{
    reveal_strlit("--exists=replace");
    reveal_strlit("--exists=keep");
    reveal_strlit("--exists=fail");
    assert("--exists=keep"@[9] == 'k');
    assert("--exists=fail"@[9] == 'f');
}

proof fn lemma_existing(arg: Seq<char>)
    ensures
        chooses_existing(arg) ==> "--exists="@.is_prefix_of(arg),
        "--exists="@.is_prefix_of(arg) ==> {
            let what = arg.skip("--exists="@.len() as int);
            &&& what == "replace"@ <==> arg == "--exists=replace"@
            &&& what == "keep"@ <==> arg == "--exists=keep"@
            &&& what == "fail"@ <==> arg == "--exists=fail"@
        },
        arg == "--exists=replace"@ ==> arg != "--exists=keep"@ && arg != "--exists=fail"@,
        arg == "--exists=keep"@ ==> arg != "--exists=fail"@,
{
    reveal_strlit("--exists=");
    reveal_strlit("replace");
    reveal_strlit("keep");
    reveal_strlit("fail");
    reveal_strlit("--exists=replace");
    reveal_strlit("--exists=keep");
    reveal_strlit("--exists=fail");
    let p = "--exists="@;
    lemma_existing_differ();
    assert("--exists=replace"@ =~= p + "replace"@);
    assert("--exists=keep"@ =~= p + "keep"@);
    assert("--exists=fail"@ =~= p + "fail"@);
    assert((p + "replace"@).skip(9) =~= "replace"@);
    assert((p + "keep"@).skip(9) =~= "keep"@);
    assert((p + "fail"@).skip(9) =~= "fail"@);
    assert((p + "replace"@).take(9) =~= p);
    assert((p + "keep"@).take(9) =~= p);
    assert((p + "fail"@).take(9) =~= p);
    if p.is_prefix_of(arg) {
        assert(arg =~= arg.take(9) + arg.skip(9));
        assert(arg.take(9) =~= p);
    }
}

proof fn lemma_excluded(arg: Seq<char>)
    ensures
        "--exclude="@.len() == 10,
        names_excluded(arg) <==> "--exclude="@.is_prefix_of(arg) && arg.skip(10).len() > 0,
{
    reveal_strlit("--exclude=");
    if "--exclude="@.is_prefix_of(arg) {
        assert(arg.take(10) =~= "--exclude="@);
    }
}

/// A word is the first or one of the others.
proof fn lemma_contains(args: Seq<Seq<char>>, x: Seq<char>)
    requires
        args.len() > 0,
    ensures
        args.contains(x) == (x == args[0] || args.drop_first().contains(x)),
{
    let rest = args.drop_first();
    if args.contains(x) {
        let i = choose|i: int| 0 <= i < args.len() && args[i] == x;
        if i > 0 {
            assert(rest[i - 1] == x);
        }
    }
    if rest.contains(x) {
        let i = choose|i: int| 0 <= i < rest.len() && rest[i] == x;
        assert(args[i + 1] == x);
    }
}

/// Reading on from `a`.
#[verifier::spinoff_prover]
#[verifier::rlimit(40)]
proof fn lemma_read(a: ArgsView, args: Seq<Seq<char>>)
    ensures
        a.read(args) is Go <==> (forall|i: int| 0 <= i < args.len() ==> goes_on(#[trigger] args[i]))
            && a.places.len() + places_of(args).len() <= 2,
        a.read(args) matches Reading::Go(v) ==> {
            &&& v.moving == (a.moving || args.contains("--move"@))
            &&& v.paranoid == (a.paranoid || args.contains("--paranoid"@))
            &&& v.dry_run == (a.dry_run || args.contains("--dry-run"@))
            &&& v.skip_caches == (a.skip_caches || args.contains("--skip-caches"@))
            &&& v.skip_cloud == (a.skip_cloud || args.contains("--skip-cloud"@))
            &&& v.exclude == a.exclude + excluded_of(args)
            &&& v.places == a.places + places_of(args)
        },
    decreases args.len(),
{
    if args.len() == 0 {
        assert(excluded_of(args) =~= Seq::empty());
        assert(places_of(args) =~= Seq::empty());
    } else {
        let rest = args.drop_first();
        lemma_take(a, args[0]);
        lemma_filters(args);
        assert(args =~= seq![args[0]] + rest);
        lemma_contains(args, "--move"@);
        lemma_contains(args, "--paranoid"@);
        lemma_contains(args, "--dry-run"@);
        lemma_contains(args, "--skip-caches"@);
        lemma_contains(args, "--skip-cloud"@);
        assert((forall|i: int| 0 <= i < args.len() ==> goes_on(#[trigger] args[i])) == (goes_on(
            args[0],
        ) && forall|i: int| 0 <= i < rest.len() ==> goes_on(#[trigger] rest[i]))) by {
            assert(forall|i: int| 0 <= i < rest.len() ==> #[trigger] rest[i] == args[i + 1]);
            assert(forall|i: int| 1 <= i < args.len() ==> #[trigger] args[i] == rest[i - 1]);
        }
        if let Reading::Go(n) = a.take(args[0]) {
            lemma_read(n, rest);
            if let Reading::Go(v) = n.read(rest) {
                assert(v.exclude =~= a.exclude + excluded_of(args));
                assert(v.places =~= a.places + places_of(args));
            }
        }
    }
}

/// Both lists grow from the left.
proof fn lemma_filters(args: Seq<Seq<char>>)
    requires
        args.len() > 0,
    ensures
        places_of(args) == (if is_place(args[0]) {
            seq![args[0]]
        } else {
            Seq::empty()
        }) + places_of(args.drop_first()),
        excluded_of(args) == (if names_excluded(args[0]) {
            seq![args[0].skip(10)]
        } else {
            Seq::empty()
        }) + excluded_of(args.drop_first()),
{
    let one = seq![args[0]];
    let rest = args.drop_first();
    let p = |a: Seq<char>| is_place(a);
    let e = |a: Seq<char>| names_excluded(a);
    let f = |a: Seq<char>| a.skip(10);
    assert(args =~= one + rest);
    Seq::filter_distributes_over_add(one, rest, p);
    Seq::filter_distributes_over_add(one, rest, e);
    reveal_with_fuel(Seq::filter, 2);
    assert(one.drop_last() =~= Seq::empty());
    assert(one.filter(p) =~= if is_place(args[0]) {
        one
    } else {
        Seq::empty()
    });
    assert(one.filter(e) =~= if names_excluded(args[0]) {
        one
    } else {
        Seq::empty()
    });
    assert((one.filter(e) + rest.filter(e)).map_values(f) =~= one.filter(e).map_values(f)
        + rest.filter(e).map_values(f));
    assert(one.map_values(f) =~= seq![args[0].skip(10)]);
    assert(places_of(args) =~= one.filter(p) + places_of(rest));
}

// ── the laws ─────────────────────────────────────────────────────────────────
/// Of a command line that asks for a transfer, each flag is set exactly when its own option is
/// among the arguments. So a transfer moves exactly when it was told to, and no other option
/// changes that. The places and what is to be left out are taken up in order.
pub proof fn law_each_option_sets_its_own_flag(args: Seq<Seq<char>>, v: ArgsView)
    requires
        ArgsView::empty().read(args) == Reading::Go(v),
    ensures
        v.moving <==> args.contains("--move"@),
        v.paranoid <==> args.contains("--paranoid"@),
        v.dry_run <==> args.contains("--dry-run"@),
        v.skip_caches <==> args.contains("--skip-caches"@),
        v.skip_cloud <==> args.contains("--skip-cloud"@),
        v.places == places_of(args),
        v.places.len() <= 2,
        v.exclude == excluded_of(args),
{
    lemma_read(ArgsView::empty(), args);
    assert(v.places =~= places_of(args));
    assert(v.exclude =~= excluded_of(args));
}

/// A transfer is asked for exactly when every argument can be understood, none asks for help
/// or the version, and there are at most two places.
pub proof fn law_when_there_is_a_transfer(args: Seq<Seq<char>>)
    ensures
        ArgsView::empty().read(args) is Go <==> (forall|i: int|
            0 <= i < args.len() ==> goes_on(#[trigger] args[i])) && places_of(args).len() <= 2,
{
    lemma_read(ArgsView::empty(), args);
}

/// Help is given exactly where an argument asks for it and everything before it can be
/// understood; likewise the version. What stands behind is not looked at.
pub proof fn law_when_there_is_help(args: Seq<Seq<char>>)
    ensures
        ArgsView::empty().read(args) is Help <==> exists|i: int|
            0 <= i < args.len() && asks_help(#[trigger] args[i]) && forall|j: int|
                0 <= j < i ==> goes_on(#[trigger] args[j]),
        ArgsView::empty().read(args) is Version <==> exists|i: int|
            0 <= i < args.len() && asks_version(#[trigger] args[i]) && forall|j: int|
                0 <= j < i ==> goes_on(#[trigger] args[j]),
{
    lemma_help(ArgsView::empty(), args);
}

spec fn help_at(args: Seq<Seq<char>>, i: int) -> bool {
    0 <= i < args.len() && asks_help(args[i]) && forall|j: int|
        0 <= j < i ==> goes_on(#[trigger] args[j])
}

spec fn version_at(args: Seq<Seq<char>>, i: int) -> bool {
    0 <= i < args.len() && asks_version(args[i]) && forall|j: int|
        0 <= j < i ==> goes_on(#[trigger] args[j])
}

proof fn lemma_help(a: ArgsView, args: Seq<Seq<char>>)
    ensures
        a.read(args) is Help <==> exists|i: int|
            0 <= i < args.len() && asks_help(#[trigger] args[i]) && forall|j: int|
                0 <= j < i ==> goes_on(#[trigger] args[j]),
        a.read(args) is Version <==> exists|i: int|
            0 <= i < args.len() && asks_version(#[trigger] args[i]) && forall|j: int|
                0 <= j < i ==> goes_on(#[trigger] args[j]),
    decreases args.len(),
{
    if args.len() > 0 {
        let rest = args.drop_first();
        lemma_take(a, args[0]);
        if let Reading::Go(n) = a.take(args[0]) {
            lemma_help(n, rest);
        }
        lemma_before(args);
        assert forall|i: int| #[trigger] help_at(rest, i) && goes_on(args[0]) implies help_at(
            args,
            i + 1,
        ) by {
            assert(args[i + 1] == rest[i]);
            assert forall|j: int| 0 <= j < i + 1 implies goes_on(#[trigger] args[j]) by {
                if j > 0 {
                    assert(rest[j - 1] == args[j]);
                }
            }
        }
        assert forall|i: int| #[trigger] version_at(rest, i) && goes_on(args[0]) implies version_at(
            args,
            i + 1,
        ) by {
            assert(args[i + 1] == rest[i]);
            assert forall|j: int| 0 <= j < i + 1 implies goes_on(#[trigger] args[j]) by {
                if j > 0 {
                    assert(rest[j - 1] == args[j]);
                }
            }
        }
        if a.read(args) is Help {
            if goes_on(args[0]) {
                let i = choose|i: int|
                    0 <= i < rest.len() && asks_help(#[trigger] rest[i]) && forall|j: int|
                        0 <= j < i ==> goes_on(#[trigger] rest[j]);
                assert(help_at(rest, i));
                assert(help_at(args, i + 1));
                assert(asks_help(args[i + 1]));
            } else {
                assert(asks_help(args[0]));
            }
        }
        if a.read(args) is Version {
            if goes_on(args[0]) {
                let i = choose|i: int|
                    0 <= i < rest.len() && asks_version(#[trigger] rest[i]) && forall|j: int|
                        0 <= j < i ==> goes_on(#[trigger] rest[j]);
                assert(version_at(rest, i));
                assert(version_at(args, i + 1));
                assert(asks_version(args[i + 1]));
            } else {
                assert(asks_version(args[0]));
            }
        }
    }
}

/// An argument that ends the reading is the first, or stands in the rest behind one that does
/// not.
proof fn lemma_before(args: Seq<Seq<char>>)
    requires
        args.len() > 0,
    ensures
        forall|i: int| #[trigger]
            help_at(args, i) && i > 0 ==> goes_on(args[0]) && help_at(args.drop_first(), i - 1),
        forall|i: int| #[trigger]
            version_at(args, i) && i > 0 ==> goes_on(args[0]) && version_at(
                args.drop_first(),
                i - 1,
            ),
        forall|i: int|
            0 <= i < args.len() && asks_help(#[trigger] args[i]) && (forall|j: int|
                0 <= j < i ==> goes_on(#[trigger] args[j])) ==> help_at(args, i),
        forall|i: int|
            0 <= i < args.len() && asks_version(#[trigger] args[i]) && (forall|j: int|
                0 <= j < i ==> goes_on(#[trigger] args[j])) ==> version_at(args, i),
{
    let rest = args.drop_first();
    assert forall|i: int| #[trigger] help_at(args, i) && i > 0 implies goes_on(args[0]) && help_at(
        rest,
        i - 1,
    ) by {
        assert(rest[i - 1] == args[i]);
        assert forall|j: int| 0 <= j < i - 1 implies goes_on(#[trigger] rest[j]) by {
            assert(rest[j] == args[j + 1]);
        }
    }
    assert forall|i: int| #[trigger] version_at(args, i) && i > 0 implies goes_on(args[0])
        && version_at(rest, i - 1) by {
        assert(rest[i - 1] == args[i]);
        assert forall|j: int| 0 <= j < i - 1 implies goes_on(#[trigger] rest[j]) by {
            assert(rest[j] == args[j + 1]);
        }
    }
}

/// Of the options that contradict each other the last one counts: whether to verify, and what
/// to do with what is there already. Without any, the former is left open and the latter is to
/// replace it.
pub proof fn law_the_last_word_counts(args: Seq<Seq<char>>, v: ArgsView)
    requires
        ArgsView::empty().read(args) == Reading::Go(v),
    ensures
        v.verify is None <==> !args.contains("--verify"@) && !args.contains("--no-verify"@),
        v.verify == Some(true) <==> exists|i: int|
            0 <= i < args.len() && #[trigger] args[i] == "--verify"@ && !args.skip(
                i + 1,
            ).contains("--no-verify"@),
        v.on_exists is Keep <==> exists|i: int|
            0 <= i < args.len() && #[trigger] args[i] == "--exists=keep"@ && forall|j: int|
                i < j < args.len() ==> !chooses_existing(#[trigger] args[j]),
        v.on_exists is Fail <==> exists|i: int|
            0 <= i < args.len() && #[trigger] args[i] == "--exists=fail"@ && forall|j: int|
                i < j < args.len() ==> !chooses_existing(#[trigger] args[j]),
        (forall|j: int| 0 <= j < args.len() ==> !chooses_existing(#[trigger] args[j]))
            ==> v.on_exists is Replace,
{
    lemma_last_verify(ArgsView::empty(), args);
    lemma_last_exists(ArgsView::empty(), args);
}

/// The last word on verifying, or `a` without one.
spec fn verify_word(args: Seq<Seq<char>>, a: Option<bool>) -> Option<bool>
    decreases args.len(),
{
    if args.len() == 0 {
        a
    } else if args.last() == "--verify"@ {
        Some(true)
    } else if args.last() == "--no-verify"@ {
        Some(false)
    } else {
        verify_word(args.drop_last(), a)
    }
}

spec fn exists_word(args: Seq<Seq<char>>, a: OnExists) -> OnExists
    decreases args.len(),
{
    if args.len() == 0 {
        a
    } else if args.last() == "--exists=replace"@ {
        OnExists::Replace
    } else if args.last() == "--exists=keep"@ {
        OnExists::Keep
    } else if args.last() == "--exists=fail"@ {
        OnExists::Fail
    } else {
        exists_word(args.drop_last(), a)
    }
}

/// The reading goes by the last words.
proof fn lemma_words(a: ArgsView, args: Seq<Seq<char>>)
    ensures
        a.read(args) matches Reading::Go(v) ==> v.verify == verify_word(args, a.verify)
            && v.on_exists == exists_word(args, a.on_exists),
    decreases args.len(),
{
    if args.len() > 0 {
        lemma_take(a, args[0]);
        if let Reading::Go(n) = a.take(args[0]) {
            lemma_words(n, args.drop_first());
            reveal_with_fuel(verify_word, 2);
            reveal_with_fuel(exists_word, 2);
            lemma_existing_differ();
            lemma_letters(args[0]);
            assert(seq![args[0]].drop_last() =~= Seq::empty());
            lemma_first_word(args, a.verify, n.verify, a.on_exists, n.on_exists);
        }
    }
}

proof fn lemma_first_word(
    args: Seq<Seq<char>>,
    a: Option<bool>,
    n: Option<bool>,
    e: OnExists,
    f: OnExists,
)
    requires
        args.len() > 0,
        n == verify_word(seq![args[0]], a),
        f == exists_word(seq![args[0]], e),
    ensures
        verify_word(args, a) == verify_word(args.drop_first(), n),
        exists_word(args, e) == exists_word(args.drop_first(), f),
    decreases args.len(),
{
    if args.len() == 1 {
        assert(args =~= seq![args[0]]);
        assert(args.drop_first().len() == 0);
    } else {
        lemma_first_word(args.drop_last(), a, n, e, f);
        assert(args.drop_first().drop_last() =~= args.drop_last().drop_first());
        assert(args.drop_first().last() == args.last());
    }
}

proof fn lemma_last_verify(a: ArgsView, args: Seq<Seq<char>>)
    ensures
        a.read(args) matches Reading::Go(v) ==> {
            &&& a.verify is None ==> (v.verify is None <==> !args.contains("--verify"@)
                && !args.contains("--no-verify"@))
            &&& a.verify is None ==> (v.verify == Some(true) <==> exists|i: int|
                0 <= i < args.len() && #[trigger] args[i] == "--verify"@ && !args.skip(
                    i + 1,
                ).contains("--no-verify"@))
        },
{
    lemma_words(a, args);
    if a.verify is None {
        lemma_verify_word(args);
    }
}

proof fn lemma_verify_word(args: Seq<Seq<char>>)
    ensures
        verify_word(args, None) is None <==> !args.contains("--verify"@) && !args.contains(
            "--no-verify"@,
        ),
        verify_word(args, None) == Some(true) <==> exists|i: int|
            0 <= i < args.len() && #[trigger] args[i] == "--verify"@ && !args.skip(
                i + 1,
            ).contains("--no-verify"@),
    decreases args.len(),
{
    reveal_strlit("--verify");
    reveal_strlit("--no-verify");
    if args.len() > 0 {
        let init = args.drop_last();
        let last = args.len() - 1;
        lemma_verify_word(init);
        assert(args =~= init.push(args.last()));
        assert forall|x: Seq<char>| args.contains(x) == (init.contains(x) || x == args.last()) by {
            if args.contains(x) {
                let i = choose|i: int| 0 <= i < args.len() && args[i] == x;
                if i < last {
                    assert(init[i] == x);
                }
            }
            if init.contains(x) {
                let i = choose|i: int| 0 <= i < init.len() && init[i] == x;
                assert(args[i] == x);
            }
            if x == args.last() {
                assert(args[last] == x);
            }
        }
        if args.last() == "--verify"@ {
            assert(args[last] == "--verify"@);
            assert(args.skip(last + 1).len() == 0);
        } else {
            let no = "--no-verify"@;
            assert forall|i: int| 0 <= i < init.len() implies #[trigger] args.skip(
                i + 1,
            ).contains(no) == (init.skip(i + 1).contains(no) || args.last() == no) by {
                let big = args.skip(i + 1);
                let small = init.skip(i + 1);
                assert(big =~= small.push(args.last()));
                if small.contains(no) {
                    let k = choose|k: int| 0 <= k < small.len() && small[k] == no;
                    assert(big[k] == no);
                }
                if args.last() == no {
                    assert(big[big.len() - 1] == no);
                }
                if big.contains(no) {
                    let k = choose|k: int| 0 <= k < big.len() && big[k] == no;
                    if k < small.len() {
                        assert(small[k] == no);
                    }
                }
            }
            if verify_word(args, None) == Some(true) {
                let i = choose|i: int|
                    0 <= i < init.len() && #[trigger] init[i] == "--verify"@ && !init.skip(
                        i + 1,
                    ).contains(no);
                assert(args[i] == "--verify"@);
                assert(!args.skip(i + 1).contains(no));
            }
            if exists|i: int|
                0 <= i < args.len() && #[trigger] args[i] == "--verify"@ && !args.skip(
                    i + 1,
                ).contains(no) {
                let i = choose|i: int|
                    0 <= i < args.len() && #[trigger] args[i] == "--verify"@ && !args.skip(
                        i + 1,
                    ).contains(no);
                assert(init[i] == "--verify"@);
                assert(!init.skip(i + 1).contains(no));
            }
        }
    }
}

proof fn lemma_last_exists(a: ArgsView, args: Seq<Seq<char>>)
    ensures
        a.read(args) matches Reading::Go(v) ==> {
            &&& a.on_exists is Replace ==> (v.on_exists is Keep <==> exists|i: int|
                0 <= i < args.len() && #[trigger] args[i] == "--exists=keep"@ && forall|j: int|
                    i < j < args.len() ==> !chooses_existing(#[trigger] args[j]))
            &&& a.on_exists is Replace ==> (v.on_exists is Fail <==> exists|i: int|
                0 <= i < args.len() && #[trigger] args[i] == "--exists=fail"@ && forall|j: int|
                    i < j < args.len() ==> !chooses_existing(#[trigger] args[j]))
            &&& a.on_exists is Replace && (forall|j: int|
                0 <= j < args.len() ==> !chooses_existing(#[trigger] args[j])) ==> v.on_exists
                is Replace
        },
{
    lemma_words(a, args);
    lemma_exists_word(args);
}

spec fn last_exists(args: Seq<Seq<char>>, word: Seq<char>, i: int) -> bool {
    0 <= i < args.len() && args[i] == word && forall|j: int|
        i < j < args.len() ==> !chooses_existing(#[trigger] args[j])
}

proof fn lemma_exists_word(args: Seq<Seq<char>>)
    ensures
        exists_word(args, OnExists::Replace) is Keep <==> exists|i: int|
            0 <= i < args.len() && #[trigger] args[i] == "--exists=keep"@ && forall|j: int|
                i < j < args.len() ==> !chooses_existing(#[trigger] args[j]),
        exists_word(args, OnExists::Replace) is Fail <==> exists|i: int|
            0 <= i < args.len() && #[trigger] args[i] == "--exists=fail"@ && forall|j: int|
                i < j < args.len() ==> !chooses_existing(#[trigger] args[j]),
        (forall|j: int| 0 <= j < args.len() ==> !chooses_existing(#[trigger] args[j]))
            ==> exists_word(args, OnExists::Replace) is Replace,
    decreases args.len(),
{
    lemma_existing_differ();
    if args.len() > 0 {
        let init = args.drop_last();
        let last = args.len() - 1;
        lemma_exists_word(init);
        assert(forall|i: int| 0 <= i < last ==> #[trigger] init[i] == args[i]);
        lemma_exists_at(args, "--exists=keep"@);
        lemma_exists_at(args, "--exists=fail"@);
        lemma_exists_at(init, "--exists=keep"@);
        lemma_exists_at(init, "--exists=fail"@);
        lemma_exists_step(args, "--exists=keep"@);
        lemma_exists_step(args, "--exists=fail"@);
        if (forall|j: int| 0 <= j < args.len() ==> !chooses_existing(#[trigger] args[j])) {
            assert(!chooses_existing(args[last]));
            assert forall|j: int| 0 <= j < init.len() implies !chooses_existing(
                #[trigger] init[j],
            ) by {
                assert(init[j] == args[j]);
            }
        }
    }
}

/// The last word of the arguments is their last argument, if that is one, and else the last
/// word of those before it.
proof fn lemma_exists_step(args: Seq<Seq<char>>, w: Seq<char>)
    requires
        args.len() > 0,
        chooses_existing(w),
    ensures
        chooses_existing(args.last()) ==> ((exists|i: int| #[trigger] last_exists(args, w, i))
            <==> w == args.last()),
        !chooses_existing(args.last()) ==> ((exists|i: int| #[trigger] last_exists(args, w, i))
            <==> exists|i: int| #[trigger] last_exists(args.drop_last(), w, i)),
{
    let init = args.drop_last();
    let last = args.len() - 1;
    assert(args[last] == args.last());
    if w == args.last() {
        assert(last_exists(args, w, last));
    }
    if exists|i: int| #[trigger] last_exists(args, w, i) {
        let i = choose|i: int| #[trigger] last_exists(args, w, i);
        if i < last {
            assert(!chooses_existing(args[last]));
            assert forall|j: int| i < j < init.len() implies !chooses_existing(
                #[trigger] init[j],
            ) by {
                assert(init[j] == args[j]);
            }
            assert(last_exists(init, w, i));
        }
    }
    if !chooses_existing(args.last()) && exists|i: int| #[trigger] last_exists(init, w, i) {
        let i = choose|i: int| #[trigger] last_exists(init, w, i);
        assert forall|j: int| i < j < args.len() implies !chooses_existing(#[trigger] args[j]) by {
            if j < last {
                assert(init[j] == args[j]);
            }
        }
        assert(last_exists(args, w, i));
    }
}

proof fn lemma_exists_at(args: Seq<Seq<char>>, w: Seq<char>)
    ensures
        (exists|i: int| #[trigger] last_exists(args, w, i)) <==> (exists|i: int|
            0 <= i < args.len() && #[trigger] args[i] == w && forall|j: int|
                i < j < args.len() ==> !chooses_existing(#[trigger] args[j])),
{
    if exists|i: int| #[trigger] last_exists(args, w, i) {
        let i = choose|i: int| #[trigger] last_exists(args, w, i);
        assert(args[i] == w);
    }
    if exists|i: int|
        0 <= i < args.len() && #[trigger] args[i] == w && forall|j: int|
            i < j < args.len() ==> !chooses_existing(#[trigger] args[j]) {
        let i = choose|i: int|
            0 <= i < args.len() && #[trigger] args[i] == w && forall|j: int|
                i < j < args.len() ==> !chooses_existing(#[trigger] args[j]);
        assert(last_exists(args, w, i));
    }
}

/// A command line moves exactly when it says so. It checks the copies as its last word on that
/// says, and without one exactly when it moves.
pub proof fn law_what_a_command_line_does(args: Seq<Seq<char>>, v: ArgsView)
    requires
        ArgsView::empty().read(args) == Reading::Go(v),
    ensures
        cli::mode_of(v.moving) is Move <==> args.contains("--move"@),
        !args.contains("--verify"@) && !args.contains("--no-verify"@) ==> cli::verifies_as(
            v.verify,
            v.moving,
        ) == args.contains("--move"@),
        args.contains("--verify"@) && !args.contains("--no-verify"@) ==> cli::verifies_as(
            v.verify,
            v.moving,
        ),
        args.contains("--no-verify"@) && !args.contains("--verify"@) ==> !cli::verifies_as(
            v.verify,
            v.moving,
        ),
{
    law_each_option_sets_its_own_flag(args, v);
    law_the_last_word_counts(args, v);
    let yes = "--verify"@;
    let no = "--no-verify"@;
    if args.contains(yes) && !args.contains(no) {
        let i = choose|i: int| 0 <= i < args.len() && args[i] == yes;
        let rest = args.skip(i + 1);
        if rest.contains(no) {
            let k = choose|k: int| 0 <= k < rest.len() && rest[k] == no;
            assert(args[i + 1 + k] == no);
        }
        assert(args[i] == yes);
    }
}

/// The share is the hundredths of the whole that are done in full: nought at the start, a hundred
/// at the end and only there.
pub proof fn law_a_share_is_of_a_hundred(done: u64, total: u64)
    requires
        0 < total,
        done <= total,
    ensures
        cli::share(done, total) * total <= done * 100 < (cli::share(done, total) + 1) * total,
        0 <= cli::share(done, total) <= 100,
        cli::share(done, total) == 100 <==> done == total,
{
    let d = done as int * 100;
    let t = total as int;
    let q = cli::share(done, total);
    assert(q * t <= d < q * t + t) by (nonlinear_arith)
        requires
            q == d / t,
            t > 0,
    ;
    assert((q + 1) * t == q * t + t) by (nonlinear_arith);
    assert(0 <= q <= 100 && (q == 100 <==> d == 100 * t)) by (nonlinear_arith)
        requires
            q * t <= d < q * t + t,
            0 <= d <= 100 * t,
            t > 0,
    ;
}

/// A transfer exits with nought exactly when it met no problem or only pretended; a command line
/// that cannot be understood exits with two, a transfer that met problems with one.
pub proof fn law_how_a_transfer_exits(dry_run: bool, errors: usize)
    ensures
        cli::exit_of(dry_run, errors) == 0 <==> dry_run || errors == 0,
        !dry_run && errors > 0 ==> cli::exit_of(dry_run, errors) == 1,
        cli::EXIT_USAGE == 2,
{
}

/// A scan is a failure exactly when it was meant and everything in it was skipped.
pub proof fn law_when_nothing_came(files: usize, skipped: usize, dry_run: bool)
    ensures
        files > 0 ==> !cli::nothing_came(files, skipped, dry_run),
        skipped == 0 ==> !cli::nothing_came(files, skipped, dry_run),
        dry_run ==> !cli::nothing_came(files, skipped, dry_run),
        files == 0 && skipped > 0 && !dry_run ==> cli::nothing_came(files, skipped, dry_run),
{
}

/// A command line leaves out the names that it gives, the caches where it says so, the cloud
/// folders where it says so, and nothing else.
pub proof fn law_what_a_command_line_leaves_out(
    skip_caches: bool,
    skip_cloud: bool,
    exclude: Seq<Seq<char>>,
    n: Seq<char>,
)
    ensures
        ({
            let f = cli::ruled_out(skip_caches, skip_cloud, exclude);
            &&& f.names.contains(n) <==> exclude.contains(n) || (skip_caches
                && scan::cache_names().contains(n))
            &&& f.prefixes.contains(n) <==> skip_cloud && scan::cloud_prefixes().contains(n)
        }),
{
    let f = cli::ruled_out(skip_caches, skip_cloud, exclude);
    let front = if skip_caches {
        scan::cache_names()
    } else {
        Seq::empty()
    };
    if f.names.contains(n) {
        let i = choose|i: int| 0 <= i < f.names.len() && f.names[i] == n;
        if i >= front.len() {
            assert(exclude[i - front.len()] == n);
        } else {
            assert(front[i] == n);
        }
    }
    if exclude.contains(n) {
        let i = choose|i: int| 0 <= i < exclude.len() && exclude[i] == n;
        assert(f.names[front.len() + i] == n);
    }
    if front.contains(n) {
        let i = choose|i: int| 0 <= i < front.len() && front[i] == n;
        assert(f.names[i] == n);
    }
}

/// A command line that comes to a transfer comes to the one that it says: it moves exactly with
/// `--move`, and each other option sets its own flag and no other; the first place is the source
/// and the second the destination; the last word on checking and on what is there counts.
pub proof fn law_a_parsed_transfer_is_the_one_that_was_said(args: Seq<Seq<char>>, a: Args)
    requires
        cli::parsed(args, Ok(Command::Run(a))),
    ensures
        a.moving <==> args.contains("--move"@),
        a.paranoid <==> args.contains("--paranoid"@),
        a.dry_run <==> args.contains("--dry-run"@),
        a.skip_caches <==> args.contains("--skip-caches"@),
        a.skip_cloud <==> args.contains("--skip-cloud"@),
        text::texts(a.exclude@) == excluded_of(args),
        places_of(args).len() <= 2,
        a.src is Some <==> places_of(args).len() > 0,
        a.dst is Some <==> places_of(args).len() > 1,
        a.src is Some ==> a.src->0@ == places_of(args)[0],
        a.dst is Some ==> a.dst->0@ == places_of(args)[1],
        a.verify is None <==> !args.contains("--verify"@) && !args.contains("--no-verify"@),
        a.verify == Some(true) <==> exists|i: int|
            0 <= i < args.len() && #[trigger] args[i] == "--verify"@ && !args.skip(
                i + 1,
            ).contains("--no-verify"@),
        a.on_exists is Keep <==> exists|i: int|
            0 <= i < args.len() && #[trigger] args[i] == "--exists=keep"@ && forall|j: int|
                i < j < args.len() ==> !chooses_existing(#[trigger] args[j]),
        a.on_exists is Fail <==> exists|i: int|
            0 <= i < args.len() && #[trigger] args[i] == "--exists=fail"@ && forall|j: int|
                i < j < args.len() ==> !chooses_existing(#[trigger] args[j]),
{
    let v = match ArgsView::empty().read(args) {
        Reading::Go(v) => v,
        _ => ArgsView::empty(),
    };
    law_each_option_sets_its_own_flag(args, v);
    law_the_last_word_counts(args, v);
}

/// Arguments that come to no transfer come to help, to the version or to a refusal, and to one of
/// them only.
pub proof fn law_what_arguments_come_to(args: Seq<Seq<char>>, r: Result<Command, String>)
    requires
        cli::parsed(args, r),
    ensures
        r matches Ok(Command::Run(_)) <==> ArgsView::empty().read(args) is Go,
        r matches Ok(Command::Help) <==> ArgsView::empty().read(args) is Help,
        r matches Ok(Command::Version) <==> ArgsView::empty().read(args) is Version,
        r is Err <==> ArgsView::empty().read(args) is Bad,
{
}

/// The time left is told in hours and minutes from an hour on, in minutes from a minute on, and
/// below that as less; small files are blamed exactly where they take more than ten minutes and
/// more than half of the time, and are more than ten thousand.
pub proof fn law_what_stands_behind_the_speed(seconds: u64, small_left: u64, small_secs: Option<u64>)
    ensures
        cli::eta_note_text(None, small_left, small_secs).len() == 0,
        ({
            let note = cli::eta_note_text(Some(seconds), small_left, small_secs);
            let time = cli::eta_note_text(Some(seconds), small_left, None);
            let blamed = small_secs is Some && small_secs->0 > 600 && 2 * small_secs->0 > seconds
                && small_left > 10_000;
            &&& !blamed ==> note == time
            &&& blamed ==> note == time + "  ("@ + text::dec(small_left as nat)
                + " small files are most of it)"@
            &&& seconds < 60 ==> time == "  under a minute left"@
            &&& 60 <= seconds < 3600 ==> time == "  about "@ + text::dec((seconds as nat + 30) / 60)
                + " m left"@
            &&& 3600 <= seconds ==> time == "  about "@ + text::dec(seconds as nat / 3600) + " h "@
                + text::dec((seconds as nat % 3600 + 30) / 60) + " m left"@
        }),
{
}

} // verus!
