//! Translating the arguments of a remote `code` command into arguments for
//! the local VS Code command.

use vstd::prelude::*;
use crate::error::{Error, ErrorView, Failure};
use crate::path::{self, resolve_goto_target, resolve_remote_path};
use crate::text::{self, same, starts_with};

verus! {

/// The flags that take no argument.
pub open spec fn is_plain_flag(arg: Seq<char>) -> bool {
    arg == "-r"@ || arg == "--reuse-window"@ || arg == "-n"@ || arg == "--new-window"@ || arg
        == "--wait"@
}

/// The flags that take a file with a line and a column.
pub open spec fn is_goto_flag(arg: Seq<char>) -> bool {
    arg == "-g"@ || arg == "--goto"@
}

/// The flags that a remote `code` command may use.
pub open spec fn is_allowed_flag(arg: Seq<char>) -> bool {
    is_plain_flag(arg) || is_goto_flag(arg) || arg == "--diff"@ || arg == "--add"@ || arg == "--"@
}

/// `head`, followed by what `tail` gives, unless that fails.
pub open spec fn prepend(head: Seq<Seq<char>>, tail: Result<Seq<Seq<char>>, ErrorView>) -> Result<
    Seq<Seq<char>>,
    ErrorView,
> {
    match tail {
        Ok(rest) => Ok(head + rest),
        Err(e) => Err(e),
    }
}

/// Each of `values`, resolved against `cwd`.
pub open spec fn resolved_all(cwd: Seq<char>, values: Seq<Seq<char>>) -> Seq<Seq<char>> {
    Seq::new(values.len(), |i: int| path::resolved_path(cwd, values[i]))
}

/// The translation of the arguments of a command that was run in `cwd`.
pub open spec fn translated_args(cwd: Seq<char>, args: Seq<Seq<char>>) -> Result<
    Seq<Seq<char>>,
    ErrorView,
>
    decreases args.len(),
{
    if args.len() == 0 {
        Ok(Seq::empty())
    } else {
        let arg = args[0];
        if arg == "--"@ {
            Ok(seq![arg] + resolved_all(cwd, args.skip(1)))
        } else if is_plain_flag(arg) {
            prepend(seq![arg], translated_args(cwd, args.skip(1)))
        } else if is_goto_flag(arg) {
            if args.len() < 2 {
                Err(Failure::MissingFile { flag: arg })
            } else {
                prepend(
                    seq![arg, path::goto_target(cwd, args[1])],
                    translated_args(cwd, args.skip(2)),
                )
            }
        } else if arg == "--diff"@ {
            if args.len() < 3 {
                Err(Failure::MissingDiffFiles)
            } else {
                prepend(
                    seq![
                        arg,
                        path::resolved_path(cwd, args[1]),
                        path::resolved_path(cwd, args[2]),
                    ],
                    translated_args(cwd, args.skip(3)),
                )
            }
        } else if arg == "--add"@ {
            if args.len() < 2 {
                Err(Failure::MissingFolder)
            } else {
                prepend(
                    seq![arg, path::resolved_path(cwd, args[1])],
                    translated_args(cwd, args.skip(2)),
                )
            }
        } else if text::begins_with(arg, '-') {
            Err(Failure::UnsupportedFlag { flag: arg })
        } else {
            prepend(seq![path::resolved_path(cwd, arg)], translated_args(cwd, args.skip(1)))
        }
    }
}

/// The translation of a whole command: without arguments it opens the
/// directory it was run in.
pub open spec fn translated_command(cwd: Seq<char>, args: Seq<Seq<char>>) -> Result<
    Seq<Seq<char>>,
    ErrorView,
> {
    if !text::begins_with(cwd, '/') {
        Err(Failure::RelativeCwd)
    } else if args.len() == 0 {
        Ok(seq![cwd])
    } else {
        translated_args(cwd, args)
    }
}

/// Translates the arguments of a `code` command that was run in the remote
/// directory `cwd`.
#[verifier::rlimit(30)]
pub fn translate_code_args(cwd: &str, args: &[String]) -> (r: Result<Vec<String>, Error>)
    ensures
        match r {
            Ok(translated) => translated_command(cwd@, text::texts(args@)) == Ok::<
                Seq<Seq<char>>,
                ErrorView,
            >(text::texts(translated@)),
            Err(e) => translated_command(cwd@, text::texts(args@)) == Err::<
                Seq<Seq<char>>,
                ErrorView,
            >(e@),
        },
{
    if !starts_with(cwd, '/') {
        return Err(Failure::RelativeCwd);
    }
    let mut translated: Vec<String> = Vec::new();
    if args.len() == 0 {
        translated.push(cwd.to_owned());
        assert(text::texts(translated@) == seq![cwd@]);
        return Ok(translated);
    }
    let ghost all = text::texts(args@);
    let ghost whole = translated_args(cwd@, all);
    let mut i: usize = 0;
    assert(all.skip(0) == all);
    proof {
        lemma_prepend_nothing(whole);
    }
    while i < args.len()
        invariant
            i <= args.len(),
            all == text::texts(args@),
            all.len() > 0,
            text::begins_with(cwd@, '/'),
            whole == translated_args(cwd@, all),
            whole == prepend(text::texts(translated@), translated_args(cwd@, all.skip(i as int))),
        decreases args.len() - i,
    {
        let ghost done = text::texts(translated@);
        let ghost rest = all.skip(i as int);
        let arg = args[i].as_str();
        assert(rest[0] == arg@);
        assert(rest.skip(1) == all.skip(i + 1));
        if same(arg, "--") {
            translated.push(args[i].clone());
            let ghost start: int = i + 1;
            i += 1;
            while i < args.len()
                invariant
                    0 <= start <= i <= args.len(),
                    all == text::texts(args@),
                    text::texts(translated@) == done.push("--"@) + resolved_all(
                        cwd@,
                        all.subrange(start, i as int),
                    ),
                decreases args.len() - i,
            {
                let ghost before = text::texts(translated@);
                translated.push(resolve_remote_path(cwd, args[i].as_str()));
                proof {
                    assert(text::texts(translated@) == before.push(
                        path::resolved_path(cwd@, all[i as int]),
                    ));
                    assert(all.subrange(start, i + 1) == all.subrange(start, i as int).push(
                        all[i as int],
                    ));
                }
                i += 1;
            }
            proof {
                assert(all.subrange(start, i as int) == all.skip(start));
                assert(done.push("--"@) + resolved_all(cwd@, all.skip(start)) == done + (seq!["--"@]
                    + resolved_all(cwd@, all.skip(start))));
            }
            return Ok(translated);
        }
        if same(arg, "-r") || same(arg, "--reuse-window") || same(arg, "-n") || same(
            arg,
            "--new-window",
        ) || same(arg, "--wait") {
            translated.push(args[i].clone());
            proof {
                assert(text::texts(translated@) == done + seq![arg@]);
                lemma_prepend_twice(done, seq![arg@], translated_args(cwd@, all.skip(i + 1)));
            }
        } else if same(arg, "-g") || same(arg, "--goto") {
            if args.len() - i < 2 {
                return Err(Failure::MissingFile { flag: args[i].clone() });
            }
            translated.push(args[i].clone());
            i += 1;
            translated.push(resolve_goto_target(cwd, args[i].as_str()));
            proof {
                let step = seq![arg@, path::goto_target(cwd@, rest[1])];
                assert(rest.skip(2) == all.skip(i + 1));
                assert(text::texts(translated@) == done + step);
                lemma_prepend_twice(done, step, translated_args(cwd@, all.skip(i + 1)));
            }
        } else if same(arg, "--diff") {
            if args.len() - i < 3 {
                return Err(Failure::MissingDiffFiles);
            }
            translated.push(args[i].clone());
            i += 1;
            translated.push(resolve_remote_path(cwd, args[i].as_str()));
            i += 1;
            translated.push(resolve_remote_path(cwd, args[i].as_str()));
            proof {
                let step = seq![
                    arg@,
                    path::resolved_path(cwd@, rest[1]),
                    path::resolved_path(cwd@, rest[2]),
                ];
                assert(rest.skip(3) == all.skip(i + 1));
                assert(text::texts(translated@) == done + step);
                lemma_prepend_twice(done, step, translated_args(cwd@, all.skip(i + 1)));
            }
        } else if same(arg, "--add") {
            if args.len() - i < 2 {
                return Err(Failure::MissingFolder);
            }
            translated.push(args[i].clone());
            i += 1;
            translated.push(resolve_remote_path(cwd, args[i].as_str()));
            proof {
                let step = seq![arg@, path::resolved_path(cwd@, rest[1])];
                assert(rest.skip(2) == all.skip(i + 1));
                assert(text::texts(translated@) == done + step);
                lemma_prepend_twice(done, step, translated_args(cwd@, all.skip(i + 1)));
            }
        } else if starts_with(arg, '-') {
            return Err(Failure::UnsupportedFlag { flag: args[i].clone() });
        } else {
            translated.push(resolve_remote_path(cwd, arg));
            proof {
                let step = seq![path::resolved_path(cwd@, arg@)];
                assert(text::texts(translated@) == done + step);
                lemma_prepend_twice(done, step, translated_args(cwd@, all.skip(i + 1)));
            }
        }
        i += 1;
    }
    proof {
        assert(all.skip(i as int) == Seq::<Seq<char>>::empty());
        assert(text::texts(translated@) + Seq::<Seq<char>>::empty() == text::texts(translated@));
    }
    Ok(translated)
}

proof fn lemma_prepend_nothing(tail: Result<Seq<Seq<char>>, ErrorView>)
    ensures
        prepend(Seq::empty(), tail) == tail,
{
    if let Ok(rest) = tail {
        assert(Seq::<Seq<char>>::empty() + rest == rest);
    }
}

proof fn lemma_prepend_twice(
    head: Seq<Seq<char>>,
    next: Seq<Seq<char>>,
    tail: Result<Seq<Seq<char>>, ErrorView>,
)
    ensures
        prepend(head, prepend(next, tail)) == prepend(head + next, tail),
{
    if let Ok(rest) = tail {
        assert(head + (next + rest) == (head + next) + rest);
    }
}

/// How many arguments a command line takes up with its first one: an option
/// together with its values.
pub open spec fn first_group(args: Seq<Seq<char>>) -> int {
    if args.len() == 0 {
        0
    } else if is_goto_flag(args[0]) || args[0] == "--add"@ {
        2
    } else if args[0] == "--diff"@ {
        3
    } else {
        1
    }
}

/// Whether a `--` among `args` ends the options.
pub open spec fn ends_options(args: Seq<Seq<char>>) -> bool
    decreases args.len(),
{
    if args.len() == 0 || args.len() < first_group(args) {
        false
    } else {
        args[0] == "--"@ || ends_options(args.skip(first_group(args)))
    }
}

/// No flag is taken for another.
proof fn lemma_flags_differ()
    ensures
        !is_plain_flag("--"@),
        !is_goto_flag("--"@),
        "--diff"@ != "--"@,
        "--add"@ != "--"@,
        "--diff"@ != "--add"@,
        !is_plain_flag("--diff"@),
        !is_goto_flag("--diff"@),
        !is_plain_flag("--add"@),
        !is_goto_flag("--add"@),
        forall|arg: Seq<char>| #[trigger] is_plain_flag(arg) ==> !is_goto_flag(arg),
{
    reveal_strlit("--");
    reveal_strlit("-r");
    reveal_strlit("--reuse-window");
    reveal_strlit("-n");
    reveal_strlit("--new-window");
    reveal_strlit("--wait");
    reveal_strlit("-g");
    reveal_strlit("--goto");
    reveal_strlit("--diff");
    reveal_strlit("--add");
    assert("--"@.len() == 2 && "--reuse-window"@.len() == 14 && "--new-window"@.len() == 12);
    assert("--wait"@.len() == 6 && "--goto"@.len() == 6 && "--diff"@.len() == 6);
    assert("--add"@.len() == 5);
    assert("-r"@[1] == 'r');
    assert("-n"@[1] == 'n');
    assert("-g"@[1] == 'g');
    assert("--"@[1] == '-');
    assert("--wait"@[2] == 'w');
    assert("--goto"@[2] == 'g');
    assert("--diff"@[2] == 'd');
    assert("--add"@[2] == 'a');
}

/// Arguments are translated one after the other: what comes first has no
/// bearing on the translation of what follows, unless a `--` ends the
/// options.
pub proof fn law_translation_composes(
    cwd: Seq<char>,
    before: Seq<Seq<char>>,
    after: Seq<Seq<char>>,
    translated: Seq<Seq<char>>,
)
    requires
        translated_args(cwd, before) == Ok::<Seq<Seq<char>>, ErrorView>(translated),
        !ends_options(before),
    ensures
        translated_args(cwd, before + after) == prepend(translated, translated_args(cwd, after)),
    decreases before.len(),
{
    lemma_flags_differ();
    let tail = translated_args(cwd, after);
    let all = before + after;
    if before.len() == 0 {
        assert(all == after);
        assert(translated == Seq::<Seq<char>>::empty());
        lemma_prepend_nothing(tail);
    } else {
        let group = first_group(before);
        let rest = before.skip(group);
        assert(all.skip(group) == rest + after);
        assert(all[0] == before[0]);
        assert(group >= 2 ==> all[1] == before[1]);
        assert(group >= 3 ==> all[2] == before[2]);
        if let Ok(done) = translated_args(cwd, rest) {
            law_translation_composes(cwd, rest, after, done);
            let step = translated.take(group);
            assert(translated.len() == group + done.len());
            assert(translated == step + done);
            lemma_prepend_twice(step, done, tail);
            if is_goto_flag(before[0]) {
                assert(step == seq![before[0], path::goto_target(cwd, before[1])]);
            } else if before[0] == "--diff"@ {
                assert(step == seq![
                    before[0],
                    path::resolved_path(cwd, before[1]),
                    path::resolved_path(cwd, before[2]),
                ]);
            } else if before[0] == "--add"@ {
                assert(step == seq![before[0], path::resolved_path(cwd, before[1])]);
            } else if is_plain_flag(before[0]) {
                assert(step == seq![before[0]]);
            } else {
                assert(step == seq![path::resolved_path(cwd, before[0])]);
            }
        }
    }
}

/// A flag that a remote `code` command may not use is rejected wherever it
/// stands among the options, whatever follows it.
pub proof fn law_unknown_flag_is_rejected(
    cwd: Seq<char>,
    before: Seq<Seq<char>>,
    flag: Seq<char>,
    after: Seq<Seq<char>>,
)
    requires
        text::begins_with(cwd, '/'),
        translated_args(cwd, before) is Ok,
        !ends_options(before),
        text::begins_with(flag, '-'),
        !is_allowed_flag(flag),
    ensures
        translated_command(cwd, before + seq![flag] + after) == Err::<Seq<Seq<char>>, ErrorView>(
            Failure::UnsupportedFlag { flag },
        ),
{
    let tail = seq![flag] + after;
    assert(before + seq![flag] + after == before + tail);
    assert(tail[0] == flag);
    law_translation_composes(cwd, before, tail, translated_args(cwd, before)->Ok_0);
}

/// What the local VS Code command may be given: an allowed flag, an absolute
/// path, or something that begins like a URI.
pub open spec fn is_safe_argument(arg: Seq<char>) -> bool {
    is_allowed_flag(arg) || text::begins_with(arg, '/') || path::uri_like(arg)
}

pub open spec fn all_safe(args: Seq<Seq<char>>) -> bool {
    forall|i: int| 0 <= i < args.len() ==> is_safe_argument(#[trigger] args[i])
}

/// Whatever a request holds, its translation consists of allowed flags,
/// absolute paths, and arguments that begin like a URI.
pub proof fn law_translation_is_safe(
    cwd: Seq<char>,
    args: Seq<Seq<char>>,
    translated: Seq<Seq<char>>,
)
    requires
        translated_command(cwd, args) == Ok::<Seq<Seq<char>>, ErrorView>(translated),
    ensures
        all_safe(translated),
{
    if args.len() > 0 {
        lemma_args_safe(cwd, args, translated);
    }
}

proof fn lemma_args_safe(cwd: Seq<char>, args: Seq<Seq<char>>, translated: Seq<Seq<char>>)
    requires
        text::begins_with(cwd, '/'),
        translated_args(cwd, args) == Ok::<Seq<Seq<char>>, ErrorView>(translated),
    ensures
        all_safe(translated),
    decreases args.len(),
{
    if args.len() == 0 {
    } else if args[0] == "--"@ {
        assert forall|i: int| 0 <= i < translated.len() implies is_safe_argument(
            #[trigger] translated[i],
        ) by {
            if i > 0 {
                path::law_resolved_path_is_absolute(cwd, args.skip(1)[i - 1]);
            }
        }
    } else {
        lemma_flags_differ();
        let group = first_group(args);
        let rest = args.skip(group);
        if let Ok(done) = translated_args(cwd, rest) {
            lemma_args_safe(cwd, rest, done);
            if is_goto_flag(args[0]) {
                lemma_goto_safe(cwd, args[1]);
            } else if args[0] == "--diff"@ {
                path::law_resolved_path_is_absolute(cwd, args[1]);
                path::law_resolved_path_is_absolute(cwd, args[2]);
            } else if args[0] == "--add"@ {
                path::law_resolved_path_is_absolute(cwd, args[1]);
            } else if !is_plain_flag(args[0]) {
                path::law_resolved_path_is_absolute(cwd, args[0]);
            }
            assert forall|i: int| 0 <= i < translated.len() implies is_safe_argument(
                #[trigger] translated[i],
            ) by {
                if i >= group {
                    assert(translated[i] == done[i - group]);
                }
            }
        }
    }
}

proof fn lemma_goto_safe(cwd: Seq<char>, value: Seq<char>)
    requires
        text::begins_with(cwd, '/'),
    ensures
        is_safe_argument(path::goto_target(cwd, value)),
{
    match path::goto_suffix(value) {
        None => {
            path::law_resolved_path_is_absolute(cwd, value);
        },
        Some((file, suffix)) => {
            path::law_resolved_path_is_absolute(cwd, file);
            let target = path::goto_target(cwd, value);
            if path::uri_like(file) && path::resolved_path(cwd, file) == file {
                text::lemma_first_of(file, ':');
                text::lemma_first_of_is(target, ':', text::first_of(file, ':'));
                let colon = text::first_of(file, ':');
                assert forall|i: int| 0 <= i < colon implies path::is_scheme_char(
                    #[trigger] target[i],
                ) by {
                    assert(target[i] == file[i]);
                }
                assert(path::uri_like(target));
            }
        },
    }
}

/// What a command that begins with something that translates to `head` and
/// goes on with `rest` translates to.
pub open spec fn with_rest(cwd: Seq<char>, head: Seq<Seq<char>>, rest: Seq<Seq<char>>) -> Result<
    Seq<Seq<char>>,
    ErrorView,
> {
    if rest.len() == 0 {
        Ok(head)
    } else {
        match translated_command(cwd, rest) {
            Ok(translated) => Ok(head + translated),
            Err(e) => Err(e),
        }
    }
}

proof fn lemma_with_rest(cwd: Seq<char>, head: Seq<Seq<char>>, rest: Seq<Seq<char>>)
    requires
        text::begins_with(cwd, '/'),
    ensures
        with_rest(cwd, head, rest) == prepend(head, translated_args(cwd, rest)),
{
    if rest.len() == 0 {
        assert(head + Seq::<Seq<char>>::empty() == head);
    }
}

/// A command that was not run in an absolute directory is rejected, whatever
/// its arguments.
pub proof fn law_relative_directory_is_rejected(cwd: Seq<char>, args: Seq<Seq<char>>)
    requires
        cwd.len() == 0 || cwd[0] != '/',
    ensures
        translated_command(cwd, args) == Err::<Seq<Seq<char>>, ErrorView>(Failure::RelativeCwd),
{
}

/// Without arguments, and with `.` alone, the directory is opened.
pub proof fn law_directory_itself(cwd: Seq<char>)
    requires
        cwd.len() > 0,
        cwd[0] == '/',
    ensures
        translated_command(cwd, Seq::empty()) == Ok::<Seq<Seq<char>>, ErrorView>(seq![cwd]),
        translated_command(cwd, seq!["."@]) == Ok::<Seq<Seq<char>>, ErrorView>(seq![cwd]),
{
    reveal_strlit(".");
    law_single_path(cwd, "."@);
}

/// A path alone is opened: an absolute one and a URI unchanged, and any other
/// one below the directory.
pub proof fn law_single_path(cwd: Seq<char>, value: Seq<char>)
    requires
        cwd.len() > 0,
        cwd[0] == '/',
        value.len() == 0 || value[0] != '-',
    ensures
        value.len() > 0 && value[0] == '/' ==> translated_command(cwd, seq![value]) == Ok::<
            Seq<Seq<char>>,
            ErrorView,
        >(seq![value]),
        path::uri_like(value) ==> translated_command(cwd, seq![value]) == Ok::<
            Seq<Seq<char>>,
            ErrorView,
        >(seq![value]),
        value == "."@ ==> translated_command(cwd, seq![value]) == Ok::<Seq<Seq<char>>, ErrorView>(
            seq![cwd],
        ),
        value != "."@ && !(value.len() > 0 && value[0] == '/') && !path::uri_like(value)
            ==> translated_command(cwd, seq![value]) == Ok::<Seq<Seq<char>>, ErrorView>(
            seq![path::normal_path(cwd + "/"@ + value)],
        ),
{
    law_path_comes_first(cwd, value, Seq::empty());
    path::law_resolution(cwd, value);
    assert(seq![value] + Seq::<Seq<char>>::empty() == seq![value]);
}

/// A path is opened below the directory wherever it stands, and has no
/// bearing on what follows it.
pub proof fn law_path_comes_first(cwd: Seq<char>, value: Seq<char>, rest: Seq<Seq<char>>)
    requires
        cwd.len() > 0,
        cwd[0] == '/',
        value.len() == 0 || value[0] != '-',
    ensures
        translated_command(cwd, seq![value] + rest) == with_rest(
            cwd,
            seq![path::resolved_path(cwd, value)],
            rest,
        ),
{
    lemma_flags_begin_with_dash();
    assert(!is_allowed_flag(value));
    let args = seq![value] + rest;
    assert(args[0] == value);
    assert(args.skip(1) == rest);
    lemma_with_rest(cwd, seq![path::resolved_path(cwd, value)], rest);
}

/// The flags for the window are passed on as they are.
pub proof fn law_window_flags_are_kept(cwd: Seq<char>, flag: Seq<char>, rest: Seq<Seq<char>>)
    requires
        cwd.len() > 0,
        cwd[0] == '/',
        flag == "-r"@ || flag == "--reuse-window"@ || flag == "-n"@ || flag == "--new-window"@
            || flag == "--wait"@,
    ensures
        translated_command(cwd, seq![flag] + rest) == with_rest(cwd, seq![flag], rest),
{
    lemma_flags_differ();
    let args = seq![flag] + rest;
    assert(args[0] == flag);
    assert(args.skip(1) == rest);
    lemma_with_rest(cwd, seq![flag], rest);
}

/// `-g` and `--goto` take one file, which may name a line and a column.
pub proof fn law_goto_takes_a_file(
    cwd: Seq<char>,
    flag: Seq<char>,
    file: Seq<char>,
    rest: Seq<Seq<char>>,
)
    requires
        cwd.len() > 0,
        cwd[0] == '/',
        flag == "-g"@ || flag == "--goto"@,
    ensures
        translated_command(cwd, seq![flag, file] + rest) == with_rest(
            cwd,
            seq![flag, path::goto_target(cwd, file)],
            rest,
        ),
        translated_command(cwd, seq![flag]) == Err::<Seq<Seq<char>>, ErrorView>(
            Failure::MissingFile { flag },
        ),
{
    lemma_flags_differ();
    let args = seq![flag, file] + rest;
    assert(args[0] == flag && args[1] == file);
    assert(args.skip(2) == rest);
    lemma_with_rest(cwd, seq![flag, path::goto_target(cwd, file)], rest);
}

/// `--diff` takes two files.
pub proof fn law_diff_takes_two_files(
    cwd: Seq<char>,
    left: Seq<char>,
    right: Seq<char>,
    rest: Seq<Seq<char>>,
)
    requires
        cwd.len() > 0,
        cwd[0] == '/',
    ensures
        translated_command(cwd, seq!["--diff"@, left, right] + rest) == with_rest(
            cwd,
            seq!["--diff"@, path::resolved_path(cwd, left), path::resolved_path(cwd, right)],
            rest,
        ),
        translated_command(cwd, seq!["--diff"@, left]) == Err::<Seq<Seq<char>>, ErrorView>(
            Failure::MissingDiffFiles,
        ),
        translated_command(cwd, seq!["--diff"@]) == Err::<Seq<Seq<char>>, ErrorView>(
            Failure::MissingDiffFiles,
        ),
{
    lemma_flags_differ();
    let args = seq!["--diff"@, left, right] + rest;
    assert(args[0] == "--diff"@ && args[1] == left && args[2] == right);
    assert(args.skip(3) == rest);
    lemma_with_rest(
        cwd,
        seq!["--diff"@, path::resolved_path(cwd, left), path::resolved_path(cwd, right)],
        rest,
    );
}

/// `--add` takes one folder.
pub proof fn law_add_takes_a_folder(cwd: Seq<char>, folder: Seq<char>, rest: Seq<Seq<char>>)
    requires
        cwd.len() > 0,
        cwd[0] == '/',
    ensures
        translated_command(cwd, seq!["--add"@, folder] + rest) == with_rest(
            cwd,
            seq!["--add"@, path::resolved_path(cwd, folder)],
            rest,
        ),
        translated_command(cwd, seq!["--add"@]) == Err::<Seq<Seq<char>>, ErrorView>(
            Failure::MissingFolder,
        ),
{
    lemma_flags_differ();
    let args = seq!["--add"@, folder] + rest;
    assert(args[0] == "--add"@ && args[1] == folder);
    assert(args.skip(2) == rest);
    lemma_with_rest(cwd, seq!["--add"@, path::resolved_path(cwd, folder)], rest);
}

/// After `--` everything is a path, whatever it begins with.
pub proof fn law_double_dash_ends_flags(cwd: Seq<char>, paths: Seq<Seq<char>>)
    requires
        cwd.len() > 0,
        cwd[0] == '/',
    ensures
        translated_command(cwd, seq!["--"@] + paths) matches Ok(translated) && {
            &&& translated.len() == 1 + paths.len()
            &&& translated[0] == "--"@
            &&& forall|i: int|
                0 <= i < paths.len() ==> translated[i + 1] == path::resolved_path(
                    cwd,
                    #[trigger] paths[i],
                )
        },
{
    let args = seq!["--"@] + paths;
    assert(args[0] == "--"@);
    assert(args.skip(1) == paths);
}

/// Nothing else that begins with a dash is accepted where a flag may stand.
pub proof fn law_other_flags_are_rejected(
    cwd: Seq<char>,
    flag: Seq<char>,
    rest: Seq<Seq<char>>,
)
    requires
        cwd.len() > 0,
        cwd[0] == '/',
        flag.len() > 0,
        flag[0] == '-',
        flag != "-r"@,
        flag != "--reuse-window"@,
        flag != "-n"@,
        flag != "--new-window"@,
        flag != "--wait"@,
        flag != "-g"@,
        flag != "--goto"@,
        flag != "--diff"@,
        flag != "--add"@,
        flag != "--"@,
    ensures
        translated_command(cwd, seq![flag] + rest) == Err::<Seq<Seq<char>>, ErrorView>(
            Failure::UnsupportedFlag { flag },
        ),
{
    assert((seq![flag] + rest)[0] == flag);
}

proof fn lemma_flags_begin_with_dash()
    ensures
        forall|arg: Seq<char>| #[trigger]
            is_allowed_flag(arg) ==> text::begins_with(arg, '-'),
{
    reveal_strlit("--");
    reveal_strlit("-r");
    reveal_strlit("--reuse-window");
    reveal_strlit("-n");
    reveal_strlit("--new-window");
    reveal_strlit("--wait");
    reveal_strlit("-g");
    reveal_strlit("--goto");
    reveal_strlit("--diff");
    reveal_strlit("--add");
}

} // verus!
