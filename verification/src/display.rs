//! How a command is shown to a reader: on one line, without the noise, cut
//! short where it is long.

use vstd::prelude::*;
use vstd::string::{StringExecFns, StringSliceAdditionalSpecFns};

use crate::bytes::{contents, copy_bytes, optional_slice, same_bytes, starts_with, utf8};
use crate::path::{paths_agree, same_path};
use crate::style::{cyan, cyan_text, dimmed, dimmed_text};
use crate::text::texts;

verus! {

/// The width, one column for each byte and each space before an argument, that
/// arguments may take before the rest of them is left out.
pub const WIDTH_LIMIT: usize = 100;

/// Whether a program is git, where git is known.
pub open spec fn is_git(cmd: Seq<u8>, git: Option<Seq<u8>>) -> bool {
    git matches Some(path) && paths_agree(cmd, path)
}

/// The arguments of git that say nothing about what is done.
pub open spec fn is_quiet_flag(arg: Seq<u8>) -> bool {
    ||| arg == utf8("--no-ext-diff")
    ||| arg == utf8("--no-textconv")
    ||| arg == utf8("--ignore-submodules")
    ||| arg == utf8("--no-color")
}

/// The settings of git, given after `-c`, that say nothing about what is done.
pub open spec fn is_quiet_setting(arg: Seq<u8>) -> bool {
    ||| utf8("core.useBuiltinFSMonitor").is_prefix_of(arg)
    ||| utf8("protocol.version").is_prefix_of(arg)
}

/// How many arguments, from this one on, are not shown.
pub open spec fn skipped(
    cmd: Seq<u8>,
    git: Option<Seq<u8>>,
    cur: Seq<u8>,
    next: Option<Seq<u8>>,
) -> nat {
    if !is_git(cmd, git) {
        0
    } else if cur == utf8("-c") {
        if next matches Some(setting) && is_quiet_setting(setting) {
            2
        } else {
            0
        }
    } else if is_quiet_flag(cur) {
        1
    } else {
        0
    }
}

/// The number of arguments to skip: `cur` alone, `cur` with `next`, or none.
pub fn skip_args(cmd: &[u8], git: Option<&[u8]>, cur: &[u8], next: Option<&[u8]>) -> (count: usize)
    ensures
        count == skipped(cmd@, optional_slice(git), cur@, optional_slice(next)),
{
    let git_runs = match git {
        Some(path) => same_path(cmd, path),
        None => false,
    };
    if git_runs {
        if same_bytes(cur, "-c".as_bytes()) {
            if let Some(flag) = next {
                if starts_with(flag, "core.useBuiltinFSMonitor".as_bytes()) || starts_with(
                    flag,
                    "protocol.version".as_bytes(),
                ) {
                    return 2;
                }
            }
        } else if same_bytes(cur, "--no-ext-diff".as_bytes()) || same_bytes(
            cur,
            "--no-textconv".as_bytes(),
        ) || same_bytes(cur, "--ignore-submodules".as_bytes()) || same_bytes(
            cur,
            "--no-color".as_bytes(),
        ) {
            return 1;
        }
    }
    0
}

/// The arguments that are left when those to skip are.
pub open spec fn kept(cmd: Seq<u8>, git: Option<Seq<u8>>, args: Seq<Seq<u8>>) -> Seq<Seq<u8>>
    decreases args.len(),
{
    if args.len() == 0 {
        Seq::empty()
    } else {
        let next = if args.len() > 1 {
            Some(args[1])
        } else {
            None
        };
        let count = skipped(cmd, git, args[0], next);
        if count == 0 {
            seq![args[0]] + kept(cmd, git, args.drop_first())
        } else {
            kept(cmd, git, args.skip(count as int))
        }
    }
}

/// The arguments without the program, where it is repeated as the first one.
pub open spec fn own_args(cmd: Seq<u8>, args: Seq<Seq<u8>>) -> Seq<Seq<u8>> {
    if args.len() > 0 && args[0] == cmd {
        args.drop_first()
    } else {
        args
    }
}

/// The width of arguments, each with a space before it.
pub open spec fn width(args: Seq<Seq<u8>>) -> nat
    decreases args.len(),
{
    if args.len() == 0 {
        0
    } else {
        width(args.drop_last()) + args.last().len() + 1
    }
}

/// How many arguments are shown: all that fit, and the first that does not.
pub open spec fn cut(args: Seq<Seq<u8>>) -> nat
    decreases args.len(),
{
    if width(args) <= WIDTH_LIMIT || width(args.drop_last()) <= WIDTH_LIMIT {
        args.len()
    } else if args.len() > 0 {
        cut(args.drop_last())
    } else {
        0
    }
}

/// The candidates for being shown, of the arguments of a command.
pub open spec fn candidates(cmd: Seq<u8>, git: Option<Seq<u8>>, args: Seq<Seq<u8>>) -> Seq<
    Seq<u8>,
> {
    kept(cmd, git, own_args(cmd, args))
}

/// The arguments of a command that are shown.
pub open spec fn shown(cmd: Seq<u8>, git: Option<Seq<u8>>, args: Seq<Seq<u8>>) -> Seq<Seq<u8>> {
    candidates(cmd, git, args).take(cut(candidates(cmd, git, args)) as int)
}

/// Whether the arguments of a command are too wide, and cut short.
pub open spec fn is_cut(cmd: Seq<u8>, git: Option<Seq<u8>>, args: Seq<Seq<u8>>) -> bool {
    width(candidates(cmd, git, args)) > WIDTH_LIMIT
}

/// More arguments are not narrower.
proof fn lemma_width_grows(args: Seq<Seq<u8>>, more: Seq<Seq<u8>>)
    ensures
        width(args) <= width(args + more),
    decreases more.len(),
{
    if more.len() == 0 {
        assert(args + more =~= args);
    } else {
        assert((args + more).drop_last() =~= args + more.drop_last());
        lemma_width_grows(args, more.drop_last());
    }
}

/// Arguments are cut after the first with which they are too wide, whatever
/// follows it.
proof fn lemma_cut_at(args: Seq<Seq<u8>>, arg: Seq<u8>, more: Seq<Seq<u8>>)
    requires
        width(args) <= WIDTH_LIMIT,
        width(args.push(arg)) > WIDTH_LIMIT,
    ensures
        cut(args.push(arg) + more) == args.len() + 1,
        width(args.push(arg) + more) > WIDTH_LIMIT,
    decreases more.len(),
{
    let all = args.push(arg) + more;
    lemma_width_grows(args.push(arg), more);
    if more.len() == 0 {
        assert(all =~= args.push(arg));
        assert(all.drop_last() =~= args);
    } else {
        assert(all.drop_last() =~= args.push(arg) + more.drop_last());
        lemma_cut_at(args, arg, more.drop_last());
    }
}

/// Picks the arguments to show, and says whether they are cut short.
pub fn shown_args(cmd: &[u8], git: Option<&[u8]>, args: &Vec<Vec<u8>>) -> (picked: (
    Vec<Vec<u8>>,
    bool,
))
    ensures
        contents(picked.0@) == shown(cmd@, optional_slice(git), contents(args@)),
        picked.1 == is_cut(cmd@, optional_slice(git), contents(args@)),
{
    let ghost all = contents(args@);
    let ghost known = optional_slice(git);
    let ghost wanted = candidates(cmd@, known, all);
    let mut picked: Vec<Vec<u8>> = Vec::new();
    let mut at: usize = 0;
    if args.len() > 0 && same_bytes(args[0].as_slice(), cmd) {
        at = 1;
    }
    let mut len: usize = 0;
    proof {
        assert(all.skip(at as int) =~= own_args(cmd@, all));
        assert(contents(picked@) + kept(cmd@, known, all.skip(at as int)) =~= wanted);
    }
    while at < args.len()
        invariant
            all == contents(args@),
            known == optional_slice(git),
            wanted == candidates(cmd@, known, all),
            at <= args@.len(),
            contents(picked@) + kept(cmd@, known, all.skip(at as int)) == wanted,
            len == width(contents(picked@)),
            len <= WIDTH_LIMIT,
        decreases args@.len() - at,
    {
        let ghost rest = all.skip(at as int);
        let arg = &args[at];
        let next: Option<&[u8]> = if at + 1 < args.len() {
            Some(args[at + 1].as_slice())
        } else {
            None
        };
        let skip = skip_args(cmd, git, arg.as_slice(), next);
        assert(rest[0] == arg@);
        assert(rest.len() > 1 ==> rest[1] == all[at + 1]);
        if skip > 0 {
            assert(rest.skip(skip as int) =~= all.skip(at + skip));
            at = at + skip;
            continue;
        }
        let ghost had = contents(picked@);
        picked.push(copy_bytes(arg.as_slice()));
        proof {
            assert(contents(picked@) =~= had.push(arg@));
            assert(contents(picked@).drop_last() =~= had);
            assert(rest.drop_first() =~= all.skip(at + 1));
            assert(contents(picked@) + kept(cmd@, known, all.skip(at + 1)) =~= had + kept(
                cmd@,
                known,
                rest,
            ));
        }
        if arg.len() >= WIDTH_LIMIT - len {
            proof {
                lemma_cut_at(had, arg@, kept(cmd@, known, all.skip(at + 1)));
                assert(contents(picked@) =~= wanted.take(cut(wanted) as int));
            }
            return (picked, true);
        }
        len = len + arg.len() + 1;
        at = at + 1;
    }
    proof {
        assert(all.skip(at as int) =~= Seq::empty());
        assert(contents(picked@) =~= wanted);
        assert(wanted.take(cut(wanted) as int) =~= wanted);
    }
    (picked, false)
}

/// Nothing is skipped of the arguments of a program that is not git.
pub proof fn law_other_programs_keep_all(
    cmd: Seq<u8>,
    git: Option<Seq<u8>>,
    args: Seq<Seq<u8>>,
)
    requires
        !is_git(cmd, git),
    ensures
        kept(cmd, git, args) == args,
    decreases args.len(),
{
    if args.len() == 0 {
        assert(args =~= Seq::empty());
    } else {
        law_other_programs_keep_all(cmd, git, args.drop_first());
        assert(seq![args[0]] + args.drop_first() =~= args);
    }
}

/// A quiet flag of git, and a quiet setting after `-c`, is as if it were not
/// there; anything else stays, in its place.
pub proof fn law_git_noise_is_skipped(
    cmd: Seq<u8>,
    git: Option<Seq<u8>>,
    arg: Seq<u8>,
    next: Seq<u8>,
    rest: Seq<Seq<u8>>,
)
    requires
        is_git(cmd, git),
    ensures
        is_quiet_flag(arg) ==> kept(cmd, git, seq![arg] + rest) == kept(cmd, git, rest),
        arg == utf8("-c") && is_quiet_setting(next) ==> kept(cmd, git, seq![arg, next] + rest)
            == kept(cmd, git, rest),
        arg == utf8("-c") && !is_quiet_setting(next) ==> kept(cmd, git, seq![arg, next] + rest)
            == seq![arg] + kept(cmd, git, seq![next] + rest),
        arg == utf8("-c") ==> kept(cmd, git, seq![arg]) == seq![arg],
        arg != utf8("-c") && !is_quiet_flag(arg) ==> kept(cmd, git, seq![arg] + rest) == seq![arg]
            + kept(cmd, git, rest),
{
    let one = seq![arg] + rest;
    let two = seq![arg, next] + rest;
    assert(one.skip(1) =~= rest);
    assert(one.drop_first() =~= rest);
    assert(two.skip(2) =~= rest);
    assert(two.drop_first() =~= seq![next] + rest);
    assert(two[1] == next);
    assert(seq![arg].drop_first() =~= Seq::empty());
    assert(seq![arg] + kept(cmd, git, Seq::empty()) =~= seq![arg]);
    if is_quiet_flag(arg) {
        lemma_flags_are_no_options(arg);
    }
}

/// `-c` is no quiet flag.
proof fn lemma_flags_are_no_options(arg: Seq<u8>)
    requires
        is_quiet_flag(arg),
    ensures
        arg != utf8("-c"),
{
    reveal_strlit("-c");
    reveal_strlit("--no-ext-diff");
    reveal_strlit("--no-textconv");
    reveal_strlit("--ignore-submodules");
    reveal_strlit("--no-color");
    vstd::string::is_ascii_spec_bytes("-c");
    vstd::string::is_ascii_spec_bytes("--no-ext-diff");
    vstd::string::is_ascii_spec_bytes("--no-textconv");
    vstd::string::is_ascii_spec_bytes("--ignore-submodules");
    vstd::string::is_ascii_spec_bytes("--no-color");
    assert(vstd::string::is_ascii("-c"));
    assert(vstd::string::is_ascii("--no-ext-diff"));
    assert(vstd::string::is_ascii("--no-textconv"));
    assert(vstd::string::is_ascii("--ignore-submodules"));
    assert(vstd::string::is_ascii("--no-color"));
    assert("-c".spec_bytes().len() == 2);
}

/// No quiet flag of git is ever shown.
pub proof fn law_no_quiet_flag_is_kept(
    cmd: Seq<u8>,
    git: Option<Seq<u8>>,
    args: Seq<Seq<u8>>,
    i: int,
)
    requires
        is_git(cmd, git),
        0 <= i < kept(cmd, git, args).len(),
    ensures
        !is_quiet_flag(kept(cmd, git, args)[i]),
    decreases args.len(),
{
    let next = if args.len() > 1 {
        Some(args[1])
    } else {
        None
    };
    let count = skipped(cmd, git, args[0], next);
    if count > 0 {
        law_no_quiet_flag_is_kept(cmd, git, args.skip(count as int), i);
    } else if i > 0 {
        law_no_quiet_flag_is_kept(cmd, git, args.drop_first(), i - 1);
    } else if is_quiet_flag(args[0]) {
        lemma_flags_are_no_options(args[0]);
    }
}

/// A command that repeats its program as the first argument is shown as if it
/// did not.
pub proof fn law_repeated_program_is_not_shown(
    cmd: Seq<u8>,
    git: Option<Seq<u8>>,
    args: Seq<Seq<u8>>,
)
    requires
        args.len() > 0 ==> args[0] != cmd,
    ensures
        shown(cmd, git, seq![cmd] + args) == shown(cmd, git, args),
        is_cut(cmd, git, seq![cmd] + args) == is_cut(cmd, git, args),
{
    assert((seq![cmd] + args).drop_first() =~= args);
}

/// Arguments that are not too wide are shown whole. Of others, as many are shown
/// as it takes to be too wide, and no more.
pub proof fn law_args_are_cut_when_too_wide(
    cmd: Seq<u8>,
    git: Option<Seq<u8>>,
    args: Seq<Seq<u8>>,
)
    ensures
        shown(cmd, git, args).is_prefix_of(candidates(cmd, git, args)),
        !is_cut(cmd, git, args) ==> shown(cmd, git, args) == candidates(cmd, git, args),
        is_cut(cmd, git, args) ==> {
            &&& shown(cmd, git, args).len() > 0
            &&& width(shown(cmd, git, args)) > WIDTH_LIMIT
            &&& width(shown(cmd, git, args).drop_last()) <= WIDTH_LIMIT
        },
{
    let all = candidates(cmd, git, args);
    lemma_cut_is_first(all);
    assert(shown(cmd, git, args) =~= all.subrange(0, cut(all) as int));
    if !is_cut(cmd, git, args) {
        assert(all.take(all.len() as int) =~= all);
    }
}

/// Arguments are cut at the first with which they are too wide.
proof fn lemma_cut_is_first(args: Seq<Seq<u8>>)
    ensures
        cut(args) <= args.len(),
        width(args) <= WIDTH_LIMIT ==> cut(args) == args.len(),
        width(args) > WIDTH_LIMIT ==> {
            &&& cut(args) > 0
            &&& width(args.take(cut(args) as int)) > WIDTH_LIMIT
            &&& width(args.take(cut(args) as int).drop_last()) <= WIDTH_LIMIT
        },
    decreases args.len(),
{
    if width(args) > WIDTH_LIMIT {
        if width(args.drop_last()) > WIDTH_LIMIT {
            lemma_cut_is_first(args.drop_last());
            assert(args.drop_last().take(cut(args) as int) =~= args.take(cut(args) as int));
        } else {
            assert(args.take(args.len() as int) =~= args);
        }
    }
}

/// Arguments as they are shown: dimmed, each with a space before it.
pub open spec fn styled_args(args: Seq<Seq<char>>) -> Seq<char>
    decreases args.len(),
{
    if args.len() == 0 {
        Seq::empty()
    } else {
        styled_args(args.drop_last()) + " "@ + dimmed_text(args.last())
    }
}

/// A command as it is shown: where it runs, the program, the arguments, and a
/// mark where they are cut short.
pub open spec fn command_line(
    dir: Option<Seq<char>>,
    program: Seq<char>,
    args: Seq<Seq<char>>,
    cut_short: bool,
) -> Seq<char> {
    let place = match dir {
        Some(dir) => "cd "@ + dir + " && "@,
        None => Seq::empty(),
    };
    let mark = if cut_short {
        " "@ + dimmed_text("[...]"@)
    } else {
        Seq::empty()
    };
    place + cyan_text(program) + styled_args(args) + mark
}

/// What an optional text holds.
pub open spec fn optional_text(text: Option<String>) -> Option<Seq<char>> {
    match text {
        Some(text) => Some(text@),
        None => None,
    }
}

/// Shows a command.
pub fn show_command(
    dir: &Option<String>,
    program: &str,
    args: &Vec<String>,
    cut_short: bool,
) -> (line: String)
    ensures
        line@ == command_line(optional_text(*dir), program@, texts(args@), cut_short),
{
    let mut line = String::new();
    if let Some(dir) = dir {
        line.append("cd ");
        line.append(dir.as_str());
        line.append(" && ");
    }
    line.append(cyan(program).as_str());
    let ghost start = line@;
    let ghost all = texts(args@);
    for i in 0..args.len()
        invariant
            all == texts(args@),
            line@ == start + styled_args(all.take(i as int)),
    {
        line.append(" ");
        line.append(dimmed(args[i].as_str()).as_str());
        assert(all.take(i + 1).drop_last() =~= all.take(i as int));
        assert(line@ =~= start + styled_args(all.take(i + 1)));
    }
    assert(all.take(all.len() as int) =~= all);
    if cut_short {
        line.append(" ");
        line.append(dimmed("[...]").as_str());
    }
    assert(line@ =~= command_line(optional_text(*dir), program@, texts(args@), cut_short));
    line
}

/// A program is git where it is the path that git is known by, and nothing is git
/// where git is not known.
pub proof fn law_git_is_known_by_its_path(cmd: Seq<u8>, path: Seq<u8>)
    ensures
        !is_git(cmd, None),
        is_git(cmd, Some(path)) <==> paths_agree(cmd, path),
{
}

/// Which arguments of git are quiet: four flags, spelled just so, and the settings
/// that begin with one of two names, whatever follows it.
pub proof fn law_quiet_arguments(arg: Seq<u8>, value: Seq<u8>)
    ensures
        is_quiet_flag(arg) <==> seq![
            utf8("--no-ext-diff"),
            utf8("--no-textconv"),
            utf8("--ignore-submodules"),
            utf8("--no-color"),
        ].contains(arg),
        is_quiet_setting(utf8("core.useBuiltinFSMonitor") + value),
        is_quiet_setting(utf8("protocol.version") + value),
        is_quiet_setting(arg) ==> exists|rest: Seq<u8>|
            {
                ||| arg == #[trigger] (utf8("core.useBuiltinFSMonitor") + rest)
                ||| arg == utf8("protocol.version") + rest
            },
{
    let flags = seq![
        utf8("--no-ext-diff"),
        utf8("--no-textconv"),
        utf8("--ignore-submodules"),
        utf8("--no-color"),
    ];
    assert(flags[0] == utf8("--no-ext-diff"));
    assert(flags[1] == utf8("--no-textconv"));
    assert(flags[2] == utf8("--ignore-submodules"));
    assert(flags[3] == utf8("--no-color"));
    let monitor = utf8("core.useBuiltinFSMonitor");
    let version = utf8("protocol.version");
    assert((monitor + value).subrange(0, monitor.len() as int) =~= monitor);
    assert((version + value).subrange(0, version.len() as int) =~= version);
    if monitor.is_prefix_of(arg) {
        let rest = arg.skip(monitor.len() as int);
        assert(arg =~= monitor + rest);
    } else if version.is_prefix_of(arg) {
        let rest = arg.skip(version.len() as int);
        assert(arg =~= version + rest);
        assert(monitor + rest == monitor + rest);
    }
}

/// How many arguments are skipped: two at `-c` before a quiet setting, one at a
/// quiet flag, and else none; none at all of a program that is not git.
pub proof fn law_skipped_arguments(
    cmd: Seq<u8>,
    git: Option<Seq<u8>>,
    cur: Seq<u8>,
    next: Option<Seq<u8>>,
)
    ensures
        skipped(cmd, git, cur, next) <= 2,
        skipped(cmd, git, cur, next) == 2 <==> is_git(cmd, git) && cur == utf8("-c") && (
        next matches Some(setting) && is_quiet_setting(setting)),
        skipped(cmd, git, cur, next) == 1 <==> is_git(cmd, git) && is_quiet_flag(cur),
        kept(cmd, git, Seq::empty()) == Seq::<Seq<u8>>::empty(),
{
    if is_quiet_flag(cur) {
        lemma_flags_are_no_options(cur);
    }
}

/// The candidates for being shown are the arguments that are kept, without the
/// program where it comes first among them, and with any other first argument.
pub proof fn law_candidates(cmd: Seq<u8>, git: Option<Seq<u8>>, args: Seq<Seq<u8>>)
    ensures
        own_args(cmd, seq![cmd] + args) == args,
        args.len() == 0 || args[0] != cmd ==> own_args(cmd, args) == args,
        candidates(cmd, git, seq![cmd] + args) == kept(cmd, git, args),
        args.len() == 0 || args[0] != cmd ==> candidates(cmd, git, args) == kept(cmd, git, args),
        args.len() == 0 || args[0] != cmd ==> !is_git(cmd, git) ==> candidates(cmd, git, args)
            == args,
{
    assert((seq![cmd] + args).drop_first() =~= args);
    if !is_git(cmd, git) {
        law_other_programs_keep_all(cmd, git, args);
    }
}

/// Arguments are as wide as the ones and the others among them together; one is
/// as wide as it has bytes, and a space; and none have no width. They are cut
/// short when they are wider than a hundred columns.
pub proof fn law_width(
    cmd: Seq<u8>,
    git: Option<Seq<u8>>,
    args: Seq<Seq<u8>>,
    arg: Seq<u8>,
    more: Seq<Seq<u8>>,
)
    ensures
        width(Seq::empty()) == 0,
        width(seq![arg]) == arg.len() + 1,
        width(args + more) == width(args) + width(more),
        is_cut(cmd, git, args) <==> width(candidates(cmd, git, args)) > 100,
    decreases more.len(),
{
    assert(seq![arg].drop_last() =~= Seq::empty());
    assert(width(seq![arg].drop_last()) == 0);
    if more.len() == 0 {
        assert(args + more =~= args);
    } else {
        law_width(cmd, git, args, arg, more.drop_last());
        assert((args + more).drop_last() =~= args + more.drop_last());
    }
}

/// One argument more is shown after the others, whole: a space, and the argument
/// dimmed.
pub proof fn law_one_argument_more(args: Seq<Seq<char>>, arg: Seq<char>)
    ensures
        styled_args(Seq::empty()) == Seq::<char>::empty(),
        styled_args(args.push(arg)) == styled_args(args) + seq![' '] + dimmed_text(arg),
{
    reveal_strlit(" ");
    assert(" "@ =~= seq![' ']);
    assert(args.push(arg).drop_last() =~= args);
}

/// Every argument is shown, in order, each with a space before it and dimmed.
pub proof fn law_every_argument_is_shown(args: Seq<Seq<char>>)
    ensures
        styled_args(args) == args.map_values(
            |arg: Seq<char>| seq![' '] + dimmed_text(arg),
        ).flatten(),
    decreases args.len(),
{
    let piece = |arg: Seq<char>| seq![' '] + dimmed_text(arg);
    if args.len() == 0 {
        assert(args.map_values(piece) =~= Seq::empty());
        assert(args.map_values(piece).flatten() =~= Seq::empty());
    } else {
        let fewer = args.drop_last();
        law_every_argument_is_shown(fewer);
        law_one_argument_more(fewer, args.last());
        assert(fewer.push(args.last()) =~= args);
        assert(args.map_values(piece) =~= fewer.map_values(piece).push(piece(args.last())));
        fewer.map_values(piece).lemma_flatten_push(piece(args.last()));
        assert(styled_args(args) =~= fewer.map_values(piece).flatten() + piece(args.last()));
    }
}

/// A line is the program and the arguments; with one argument more it goes on with
/// that argument; where it is cut short it ends in a mark; and where there is a
/// directory that comes first.
pub proof fn law_command_line(
    dir: Option<Seq<char>>,
    place: Seq<char>,
    program: Seq<char>,
    args: Seq<Seq<char>>,
    arg: Seq<char>,
    cut_short: bool,
)
    ensures
        command_line(None, program, Seq::empty(), false) == cyan_text(program),
        command_line(dir, program, args.push(arg), false) == command_line(
            dir,
            program,
            args,
            false,
        ) + seq![' '] + dimmed_text(arg),
        command_line(dir, program, args, true) == command_line(dir, program, args, false) + seq![
            ' ',
        ] + dimmed_text("[...]"@),
        command_line(Some(place), program, args, cut_short) == "cd "@ + place + " && "@
            + command_line(None, program, args, cut_short),
{
    reveal_strlit(" ");
    assert(" "@ =~= seq![' ']);
    law_one_argument_more(args, arg);
    assert(command_line(None, program, Seq::empty(), false) =~= cyan_text(program));
    assert(command_line(dir, program, args.push(arg), false) =~= command_line(
        dir,
        program,
        args,
        false,
    ) + seq![' '] + dimmed_text(arg));
    assert(command_line(dir, program, args, true) =~= command_line(dir, program, args, false)
        + seq![' '] + dimmed_text("[...]"@));
    assert(command_line(Some(place), program, args, cut_short) =~= "cd "@ + place + " && "@
        + command_line(None, program, args, cut_short));
}

/// An optional text holds what the text holds, where it is there.
pub proof fn law_optional_text(text: String)
    ensures
        optional_text(Some(text)) == Some(text@),
        optional_text(None) is None,
{
}

/// A command is shown with one argument more by the line without it, and then the
/// argument, whole and dimmed, after a space.
pub proof fn law_line_goes_on(
    dir: &Option<String>,
    program: &str,
    args: &Vec<String>,
    more: &Vec<String>,
    arg: String,
    line: String,
    longer: String,
)
    requires
        more@ == args@.push(arg),
        call_ensures(show_command, (dir, program, args, false), line),
        call_ensures(show_command, (dir, program, more, false), longer),
    ensures
        longer@ == line@ + seq![' '] + dimmed_text(arg@),
{
    assert(texts(more@) =~= texts(args@).push(arg@));
    law_command_line(optional_text(*dir), program@, program@, texts(args@), arg@, false);
}

} // verus!
