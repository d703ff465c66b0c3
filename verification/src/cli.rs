//! The command line, and the keys as a terminal reports them.

use crate::config::{quote, quoted_text, KeyCode};
use crate::text::{chars_of, opt_text, same_text, starts_with, text_of, text_starts_with, texts};
use vstd::prelude::*;
use vstd::string::*;

verus! {

/// How the program is called.
pub const USAGE: &'static str =
    "usage: git-tui [--theme <default|tokyo-night>] [--repo <path>]... [<path>...] [-- <path>...]";

/// What the command line says: a palette, and the projects.
#[derive(Debug)]
pub struct Cli {
    pub theme: Option<String>,
    pub paths: Vec<String>,
}

/// What a [`Cli`] holds.
#[verifier::ext_equal]
pub struct CliView {
    pub theme: Option<Seq<char>>,
    pub paths: Seq<Seq<char>>,
}

impl View for Cli {
    type V = CliView;

    open spec fn view(&self) -> CliView {
        CliView { theme: opt_text(self.theme), paths: texts(self.paths@) }
    }
}

/// Why a command line starts nothing.
#[derive(Debug)]
pub enum Stop {
    /// It asks for the usage.
    Help,
    /// `--theme` names none.
    ThemeNeedsValue,
    /// `--repo` names none.
    RepoNeedsValue,
    /// A flag that there is none of.
    Unexpected(String),
}

/// What a [`Stop`] says.
#[verifier::ext_equal]
pub enum StopView {
    Help,
    ThemeNeedsValue,
    RepoNeedsValue,
    Unexpected(Seq<char>),
}

impl View for Stop {
    type V = StopView;

    open spec fn view(&self) -> StopView {
        match self {
            Stop::Help => StopView::Help,
            Stop::ThemeNeedsValue => StopView::ThemeNeedsValue,
            Stop::RepoNeedsValue => StopView::RepoNeedsValue,
            Stop::Unexpected(arg) => StopView::Unexpected(arg@),
        }
    }
}

impl StopView {
    /// What is said of it.
    pub open spec fn message(self) -> Seq<char> {
        match self {
            StopView::Help => USAGE@,
            StopView::ThemeNeedsValue => "--theme needs a value"@,
            StopView::RepoNeedsValue => "--repo needs a value"@,
            StopView::Unexpected(arg) => USAGE@ + " (unexpected argument "@ + quoted_text(arg)
                + ")"@,
        }
    }
}

impl Stop {
    pub fn message(&self) -> (out: String)
        ensures
            out@ == self@.message(),
    {
        match self {
            Stop::Help => USAGE.to_owned(),
            Stop::ThemeNeedsValue => "--theme needs a value".to_owned(),
            Stop::RepoNeedsValue => "--repo needs a value".to_owned(),
            Stop::Unexpected(arg) => USAGE.to_owned().concat(" (unexpected argument ").concat(
                quote(arg.as_str()).as_str(),
            ).concat(")"),
        }
    }
}

impl CliView {
    /// With another palette.
    pub open spec fn with_theme(self, name: Seq<char>) -> CliView {
        CliView { theme: Some(name), ..self }
    }

    /// With one more project.
    pub open spec fn with_path(self, path: Seq<char>) -> CliView {
        CliView { paths: self.paths.push(path), ..self }
    }
}

/// What the arguments from the `i`-th on add to what those before them say.
pub open spec fn read_args(args: Seq<Seq<char>>, i: nat, cli: CliView) -> Result<CliView, StopView>
    decreases args.len() - i,
{
    if i >= args.len() {
        Ok(cli)
    } else {
        let arg = args[i as int];
        if arg == "--"@ {
            Ok(CliView { paths: cli.paths + args.skip(i as int + 1), ..cli })
        } else if arg == "-h"@ || arg == "--help"@ {
            Err(StopView::Help)
        } else if arg == "--theme"@ {
            if i + 1 < args.len() {
                read_args(args, i + 2, cli.with_theme(args[i as int + 1]))
            } else {
                Err(StopView::ThemeNeedsValue)
            }
        } else if starts_with(arg, "--theme="@) {
            if arg.len() > 8 {
                read_args(args, i + 1, cli.with_theme(arg.skip(8)))
            } else {
                Err(StopView::ThemeNeedsValue)
            }
        } else if arg == "--repo"@ {
            if i + 1 < args.len() && args[i as int + 1].len() > 0 && args[i as int + 1][0] != '-' {
                read_args(args, i + 2, cli.with_path(args[i as int + 1]))
            } else {
                Err(StopView::RepoNeedsValue)
            }
        } else if starts_with(arg, "--repo="@) {
            if arg.len() > 7 {
                read_args(args, i + 1, cli.with_path(arg.skip(7)))
            } else {
                Err(StopView::RepoNeedsValue)
            }
        } else if starts_with(arg, "-"@) {
            Err(StopView::Unexpected(arg))
        } else {
            read_args(args, i + 1, cli.with_path(arg))
        }
    }
}

/// A command line without arguments.
pub open spec fn no_args() -> CliView {
    CliView { theme: None, paths: Seq::empty() }
}

/// A text without its first characters.
fn text_from(s: &str, from: usize) -> (out: String)
    requires
        from <= s@.len(),
    ensures
        out@ == s@.skip(from as int),
{
    let cs = chars_of(s);
    let out = text_of(&cs, from, cs.len());
    assert(out@ =~= s@.skip(from as int));
    out
}

/// Whether a text can stand behind `--repo`: it is neither empty nor a flag.
fn is_value(s: &str) -> (yes: bool)
    ensures
        yes == (s@.len() > 0 && s@[0] != '-'),
{
    let cs = chars_of(s);
    cs.len() > 0 && cs[0] != '-'
}

proof fn lemma_push_text(list: Seq<String>, s: String)
    ensures
        texts(list.push(s)) == texts(list).push(s@),
{
    assert(texts(list.push(s)) =~= texts(list).push(s@));
}

/// Copies the arguments from `from` on to the projects.
fn take_rest(cli: &mut Cli, args: &Vec<String>, from: usize)
    requires
        from <= args@.len(),
    ensures
        final(cli)@ == (CliView {
            paths: old(cli)@.paths + texts(args@).skip(from as int),
            ..old(cli)@
        }),
{
    let ghost first = cli@;
    let ghost all = texts(args@);
    let mut i: usize = from;
    assert(all.subrange(from as int, from as int) =~= Seq::empty());
    assert(first.paths + Seq::<Seq<char>>::empty() =~= first.paths);
    while i < args.len()
        invariant
            from <= i <= args@.len(),
            all == texts(args@),
            cli@.theme == first.theme,
            cli@.paths == first.paths + all.subrange(from as int, i as int),
        decreases args@.len() - i,
    {
        let path = args[i].clone();
        proof {
            lemma_push_text(cli.paths@, path);
            assert(all.subrange(from as int, i as int + 1) =~= all.subrange(
                from as int,
                i as int,
            ).push(path@));
            assert((first.paths + all.subrange(from as int, i as int)).push(path@)
                =~= first.paths + all.subrange(from as int, i as int + 1));
        }
        cli.paths.push(path);
        i += 1;
    }
    assert(all.subrange(from as int, i as int) =~= all.skip(from as int));
}

impl Cli {
    fn add_path(&mut self, path: String)
        ensures
            final(self)@ == old(self)@.with_path(path@),
    {
        proof {
            lemma_push_text(self.paths@, path);
        }
        self.paths.push(path);
    }
}

/// What a result of reading the arguments says.
pub open spec fn parsed_view(r: Result<Cli, Stop>) -> Result<CliView, StopView> {
    match r {
        Ok(cli) => Ok(cli@),
        Err(stop) => Err(stop@),
    }
}

/// Reads the arguments of the program, without its name.
pub fn parse_args(args: &Vec<String>) -> (out: Result<Cli, Stop>)
    ensures
        parsed_view(out) == read_args(texts(args@), 0, no_args()),
{
    let ghost all = texts(args@);
    let mut cli = Cli { theme: None, paths: Vec::new() };
    assert(cli@ =~= no_args());
    let mut i: usize = 0;
    while i < args.len()
        invariant
            i <= args@.len(),
            all == texts(args@),
            all.len() == args@.len(),
            read_args(all, 0, no_args()) == read_args(all, i as nat, cli@),
        decreases args@.len() - i,
    {
        let arg = args[i].as_str();
        proof {
            assert(all[i as int] == arg@);
            reveal_strlit("--theme=");
            reveal_strlit("--repo=");
        }
        if same_text(arg, "--") {
            take_rest(&mut cli, args, i + 1);
            return Ok(cli);
        } else if same_text(arg, "-h") || same_text(arg, "--help") {
            return Err(Stop::Help);
        } else if same_text(arg, "--theme") {
            if i + 1 >= args.len() {
                return Err(Stop::ThemeNeedsValue);
            }
            assert(all[i as int + 1] == args@[i as int + 1]@);
            cli.theme = Some(args[i + 1].clone());
            i += 2;
        } else if text_starts_with(arg, "--theme=") {
            let name = text_from(arg, 8);
            if name.unicode_len() == 0 {
                return Err(Stop::ThemeNeedsValue);
            }
            cli.theme = Some(name);
            i += 1;
        } else if same_text(arg, "--repo") {
            if i + 1 >= args.len() || !is_value(args[i + 1].as_str()) {
                proof {
                    if i + 1 < args@.len() {
                        assert(all[i as int + 1] == args@[i as int + 1]@);
                    }
                }
                return Err(Stop::RepoNeedsValue);
            }
            assert(all[i as int + 1] == args@[i as int + 1]@);
            cli.add_path(args[i + 1].clone());
            i += 2;
        } else if text_starts_with(arg, "--repo=") {
            let path = text_from(arg, 7);
            if path.unicode_len() == 0 {
                return Err(Stop::RepoNeedsValue);
            }
            cli.add_path(path);
            i += 1;
        } else if text_starts_with(arg, "-") {
            return Err(Stop::Unexpected(args[i].clone()));
        } else {
            cli.add_path(args[i].clone());
            i += 1;
        }
    }
    Ok(cli)
}

/// A small letter of the alphabet as a capital.
#[verifier::allow_in_spec]
pub fn capital(c: char) -> char
    requires
        'a' <= c <= 'z',
    returns
        ((c as u8 - 32) as u8) as char,
{
    ((c as u8 - 32) as u8) as char
}

/// Some terminals report Shift and a letter as the small letter with Shift
/// held: that is the capital.
#[verifier::allow_in_spec]
pub fn normalize_key(code: KeyCode, shift: bool) -> KeyCode
    returns
        (match code {
            KeyCode::Char(c) => if shift && 'a' <= c <= 'z' {
                KeyCode::Char(capital(c))
            } else {
                code
            },
            _ => code,
        }),
{
    match code {
        KeyCode::Char(c) => {
            if shift && 'a' <= c && c <= 'z' {
                KeyCode::Char(capital(c))
            } else {
                code
            }
        },
        _ => code,
    }
}

/// What a key press asks for.
#[derive(Clone, Copy, Debug, PartialEq, Eq, Structural)]
pub enum Press {
    /// The end of the program, whatever is open.
    Quit,
    /// A key for the workspace, and whether it counts as shifted.
    Key(KeyCode, bool),
}

/// What a key press asks for. Control with `c` always quits; a capital `A`
/// counts as shifted.
#[verifier::allow_in_spec]
pub fn read_key(code: KeyCode, shift: bool, control: bool) -> Press
    returns
        (if control && (code == KeyCode::Char('c') || code == KeyCode::Char('C')) {
            Press::Quit
        } else {
            Press::Key(
                normalize_key(code, shift),
                shift || normalize_key(code, shift) == KeyCode::Char('A'),
            )
        }),
{
    if control && (code == KeyCode::Char('c') || code == KeyCode::Char('C')) {
        return Press::Quit;
    }
    let key = normalize_key(code, shift);
    Press::Key(key, shift || key == KeyCode::Char('A'))
}

/// A terminal that reports the capital, with Shift or without, and one that
/// reports the small letter with Shift held give the same key.
pub proof fn law_shift_is_capital(c: char)
    requires
        'a' <= c <= 'z',
    ensures
        normalize_key(KeyCode::Char(c), true) == KeyCode::Char(capital(c)),
        normalize_key(KeyCode::Char(capital(c)), true) == KeyCode::Char(capital(c)),
        normalize_key(KeyCode::Char(capital(c)), false) == KeyCode::Char(capital(c)),
        normalize_key(KeyCode::Char(c), false) == KeyCode::Char(c),
        'A' <= capital(c) <= 'Z',
{
}

/// Behind `--` everything is a project, flags too.
pub proof fn law_separator_ends_flags(args: Seq<Seq<char>>, cli: CliView)
    requires
        args.len() > 0,
        args[0] == "--"@,
    ensures
        read_args(args, 0, cli) == Ok::<CliView, StopView>(
            (CliView { paths: cli.paths + args.skip(1), ..cli }),
        ),
{
}

/// Arguments that are no flags are the projects, in their order.
pub proof fn law_plain_args_are_paths(args: Seq<Seq<char>>, i: nat, cli: CliView)
    requires
        i <= args.len(),
        forall|k: int| 0 <= k < args.len() ==> !starts_with(#[trigger] args[k], "-"@),
    ensures
        read_args(args, i, cli) == Ok::<CliView, StopView>(
            (CliView { paths: cli.paths + args.skip(i as int), ..cli }),
        ),
    decreases args.len() - i,
{
    if i < args.len() {
        let arg = args[i as int];
        reveal_strlit("-");
        reveal_strlit("--");
        reveal_strlit("-h");
        reveal_strlit("--help");
        reveal_strlit("--theme");
        reveal_strlit("--theme=");
        reveal_strlit("--repo");
        reveal_strlit("--repo=");
        assert("-"@ =~= seq!['-']);
        assert(arg.len() > 0 && arg[0] == '-' ==> starts_with(arg, "-"@)) by {
            if arg.len() > 0 && arg[0] == '-' {
                assert(arg.take(1) =~= "-"@);
            }
        }
        assert(!starts_with(arg, "--theme="@)) by {
            if starts_with(arg, "--theme="@) {
                assert(arg.take(8)[0] == '-');
            }
        }
        assert(!starts_with(arg, "--repo="@)) by {
            if starts_with(arg, "--repo="@) {
                assert(arg.take(7)[0] == '-');
            }
        }
        law_plain_args_are_paths(args, i + 1, cli.with_path(arg));
        assert(cli.paths.push(arg) + args.skip(i as int + 1) =~= cli.paths + args.skip(i as int));
    } else {
        assert(cli.paths + args.skip(i as int) =~= cli.paths);
    }
}

/// A palette that is named with `--theme` is the one, in either spelling; what
/// else is given stays as it is.
pub proof fn law_theme_flag(args: Seq<Seq<char>>, i: nat, cli: CliView, name: Seq<char>)
    requires
        i < args.len(),
        name.len() > 0,
    ensures
        args[i as int] == "--theme"@ && i + 1 < args.len() && args[i as int + 1] == name
            ==> read_args(args, i, cli) == read_args(
            args,
            i + 2,
            CliView { theme: Some(name), paths: cli.paths },
        ),
        args[i as int] == "--theme="@ + name ==> read_args(args, i, cli) == read_args(
            args,
            i + 1,
            CliView { theme: Some(name), paths: cli.paths },
        ),
        args[i as int] == "--theme"@ && i + 1 == args.len() ==> read_args(args, i, cli) is Err,
{
    lemma_flags_differ();
    reveal_strlit("--theme=");
    let arg = args[i as int];
    if arg == "--theme="@ + name {
        assert(arg.len() > 8);
        assert(arg.take(8) =~= "--theme="@);
        assert(arg.skip(8) =~= name);
        lemma_longer(arg, 8);
    }
}

/// A project that is given with `--repo` is one more project, in either
/// spelling, as if it were given without the flag.
pub proof fn law_repo_flag(args: Seq<Seq<char>>, i: nat, cli: CliView, path: Seq<char>)
    requires
        i < args.len(),
        path.len() > 0,
        path[0] != '-',
    ensures
        args[i as int] == "--repo"@ && i + 1 < args.len() && args[i as int + 1] == path
            ==> read_args(args, i, cli) == read_args(
            args,
            i + 2,
            CliView { theme: cli.theme, paths: cli.paths.push(path) },
        ),
        args[i as int] == "--repo="@ + path ==> read_args(args, i, cli) == read_args(
            args,
            i + 1,
            CliView { theme: cli.theme, paths: cli.paths.push(path) },
        ),
        args[i as int] == "--repo"@ && i + 1 == args.len() ==> read_args(args, i, cli) is Err,
{
    lemma_flags_differ();
    reveal_strlit("--repo=");
    reveal_strlit("--theme=");
    let arg = args[i as int];
    if arg == "--repo="@ + path {
        assert(arg.len() > 7);
        assert(arg[2] == 'r');
        assert(arg.take(7) =~= "--repo="@);
        assert(arg.skip(7) =~= path);
        lemma_longer(arg, 7);
        if starts_with(arg, "--theme="@) {
            assert(arg.take(8)[2] == 't');
        }
    }
}

/// Help is given where it is asked for, and a flag that there is none of is
/// refused by its name.
pub proof fn law_help_and_unknown_flags(args: Seq<Seq<char>>, i: nat, cli: CliView)
    requires
        i < args.len(),
    ensures
        args[i as int] == "-h"@ || args[i as int] == "--help"@ ==> read_args(args, i, cli) == Err::<
            CliView,
            StopView,
        >(StopView::Help),
        args[i as int].len() == 2 && args[i as int][0] == '-' && args[i as int][1] != '-'
            && args[i as int][1] != 'h' ==> read_args(args, i, cli) == Err::<CliView, StopView>(
            StopView::Unexpected(args[i as int]),
        ),
{
    lemma_flags_differ();
    reveal_strlit("-");
    reveal_strlit("--theme=");
    reveal_strlit("--repo=");
    let arg = args[i as int];
    if arg.len() == 2 && arg[0] == '-' {
        assert(arg.take(1) =~= "-"@);
    }
}

/// A text of more than `n` characters that starts with a flag and `=` is none of
/// the flags themselves.
proof fn lemma_longer(arg: Seq<char>, n: int)
    requires
        arg.len() > n,
        n == 8 && arg.take(8) == "--theme="@ || n == 7 && arg.take(7) == "--repo="@,
    ensures
        arg != "--"@,
        arg != "-h"@,
        arg != "--help"@,
        arg != "--theme"@,
        arg != "--repo"@,
{
    lemma_flags_differ();
    reveal_strlit("--theme=");
    reveal_strlit("--repo=");
    assert(arg.take(n)[2] == arg[2]);
}

/// The flags are told apart by their lengths and letters.
proof fn lemma_flags_differ()
    ensures
        "--"@.len() == 2,
        "--"@[1] == '-',
        "-h"@.len() == 2,
        "-h"@[1] == 'h',
        "--help"@.len() == 6,
        "--help"@[2] == 'h',
        "--theme"@.len() == 7,
        "--theme"@[2] == 't',
        "--repo"@.len() == 6,
        "--repo"@[2] == 'r',
{
    reveal_strlit("--");
    reveal_strlit("-h");
    reveal_strlit("--help");
    reveal_strlit("--theme");
    reveal_strlit("--repo");
}

} // verus!
