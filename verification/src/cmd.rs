//! A fancier command: a process to launch, with a summary of what it is for and
//! with a say in how its status is taken.

use vstd::prelude::*;
use vstd::string::{StringExecFns, StringSliceAdditionalSpecFns};

use crate::bytes::{contents, copy_bytes, optional_slice, slice_contents, utf8};
use crate::child::{CmdChild, PtyProcess};
use crate::command::{Command, CommandView, Stdio};
use crate::display::{
    candidates, command_line, is_cut, law_args_are_cut_when_too_wide, law_every_argument_is_shown,
    show_command, shown, shown_args, width,
};
use crate::env::{changes, child_env, in_order, EnvChanges, EnvVar};
use crate::status::{Error, ExitStatus, Output, OutputView, StatusError};
use crate::style::{cyan_text, dimmed_text};
use crate::text::{decode, decoded, texts};

verus! {

/// Whether, and how, a program is to write in color.
#[derive(Clone, Copy, Debug, PartialEq, Eq, Structural)]
pub enum ColorChoice {
    /// In color where it seems to be supported.
    Auto,
    /// As `Always`, by ANSI escape sequences alone.
    AlwaysAnsi,
    /// In color, if at all possible.
    Always,
    /// Without color.
    Never,
}

/// `anstream::ColorChoice::global`: the choice that this process has stored.
/// Which one it is depends on what was stored last, so nothing is said of it.
#[verifier::external_body]
fn global_color_choice() -> (choice: ColorChoice) {
    match anstream::ColorChoice::global() {
        anstream::ColorChoice::Auto => ColorChoice::Auto,
        anstream::ColorChoice::AlwaysAnsi => ColorChoice::AlwaysAnsi,
        anstream::ColorChoice::Always => ColorChoice::Always,
        anstream::ColorChoice::Never => ColorChoice::Never,
    }
}

/// Whether a choice is what reading the stored choice gave.
pub closed spec fn is_stored_choice(choice: ColorChoice) -> bool {
    call_ensures(global_color_choice, (), choice)
}

/// A choice is the stored one where, and only where, reading gave it.
proof fn lemma_stored_choice(choice: ColorChoice)
    ensures
        is_stored_choice(choice) <==> call_ensures(global_color_choice, (), choice),
{
}

/// Changes to an environment, and one variable more that is set to `1`.
pub open spec fn switched_on(
    env: Map<Seq<u8>, Option<Seq<u8>>>,
    key: &str,
) -> Map<Seq<u8>, Option<Seq<u8>>> {
    env.insert(utf8(key), Some(utf8("1")))
}

/// Changes to an environment, and those that tell a program of a color choice.
pub open spec fn colored(
    env: Map<Seq<u8>, Option<Seq<u8>>>,
    choice: ColorChoice,
) -> Map<Seq<u8>, Option<Seq<u8>>> {
    match choice {
        ColorChoice::Always | ColorChoice::AlwaysAnsi => switched_on(
            switched_on(switched_on(env, "FORCE_COLOR"), "CLICOLOR_FORCE"),
            "CLICOLOR",
        ),
        ColorChoice::Never => switched_on(env, "NO_COLOR"),
        ColorChoice::Auto => switched_on(env, "CLICOLOR"),
    }
}

/// Changes to an environment, and a list of variables more that are set, one
/// after the other.
pub open spec fn with_vars(
    env: Map<Seq<u8>, Option<Seq<u8>>>,
    vars: Seq<(&[u8], &[u8])>,
) -> Map<Seq<u8>, Option<Seq<u8>>>
    decreases vars.len(),
{
    if vars.len() == 0 {
        env
    } else {
        with_vars(env, vars.drop_last()).insert(vars.last().0@, Some(vars.last().1@))
    }
}

/// Changes to an environment, and a list of variables in text more that are set,
/// one after the other.
pub open spec fn with_texts(
    env: Map<Seq<u8>, Option<Seq<u8>>>,
    vars: Seq<(&'static str, &'static str)>,
) -> Map<Seq<u8>, Option<Seq<u8>>>
    decreases vars.len(),
{
    if vars.len() == 0 {
        env
    } else {
        with_texts(env, vars.drop_last()).insert(utf8(vars.last().0), Some(utf8(vars.last().1)))
    }
}

/// Changes to an environment, and those for a terminal after them.
pub open spec fn in_terminal(env: Map<Seq<u8>, Option<Seq<u8>>>) -> Map<Seq<u8>, Option<Seq<u8>>> {
    switched_on(switched_on(env, "FORCE_COLOR"), "CLICOLOR").insert(
        utf8("TERM"),
        Some(utf8("xterm-256color")),
    )
}

/// The names of the variables that tell a program of color and of a terminal are
/// different names.
proof fn lemma_color_names()
    ensures
        utf8("TERM") != utf8("FORCE_COLOR"),
        utf8("TERM") != utf8("CLICOLOR"),
        utf8("FORCE_COLOR") != utf8("CLICOLOR_FORCE"),
        utf8("FORCE_COLOR") != utf8("CLICOLOR"),
        utf8("FORCE_COLOR") != utf8("NO_COLOR"),
        utf8("CLICOLOR_FORCE") != utf8("CLICOLOR"),
        utf8("CLICOLOR_FORCE") != utf8("NO_COLOR"),
        utf8("CLICOLOR") != utf8("NO_COLOR"),
{
    reveal_strlit("FORCE_COLOR");
    reveal_strlit("CLICOLOR_FORCE");
    reveal_strlit("CLICOLOR");
    reveal_strlit("NO_COLOR");
    reveal_strlit("TERM");
    vstd::string::is_ascii_spec_bytes("TERM");
    assert(vstd::string::is_ascii("TERM"));
    assert("TERM".spec_bytes().len() == 4);
    assert("CLICOLOR".spec_bytes().len() == 8) by {
        vstd::string::is_ascii_spec_bytes("CLICOLOR");
        assert(vstd::string::is_ascii("CLICOLOR"));
    }
    vstd::string::is_ascii_spec_bytes("FORCE_COLOR");
    vstd::string::is_ascii_spec_bytes("CLICOLOR_FORCE");
    vstd::string::is_ascii_spec_bytes("CLICOLOR");
    vstd::string::is_ascii_spec_bytes("NO_COLOR");
    assert(vstd::string::is_ascii("FORCE_COLOR"));
    assert(vstd::string::is_ascii("CLICOLOR_FORCE"));
    assert(vstd::string::is_ascii("CLICOLOR"));
    assert(vstd::string::is_ascii("NO_COLOR"));
    assert("FORCE_COLOR".spec_bytes().len() == 11);
    assert("CLICOLOR_FORCE".spec_bytes().len() == 14);
    assert("CLICOLOR".spec_bytes()[0] == 'C' as u8);
    assert("NO_COLOR".spec_bytes()[0] == 'N' as u8);
}

/// Which variables a color choice sets: color is forced by the two choices of
/// color always, which come to the same; it is offered by these and by the
/// automatic choice; and it is refused by the last choice alone. Every other
/// variable is left as it was.
pub proof fn law_color_variables(
    env: Map<Seq<u8>, Option<Seq<u8>>>,
    choice: ColorChoice,
    key: Seq<u8>,
)
    ensures
        ({
            let always = choice == ColorChoice::Always || choice == ColorChoice::AlwaysAnsi;
            let set = {
                ||| always && (key == utf8("FORCE_COLOR") || key == utf8("CLICOLOR_FORCE"))
                ||| choice != ColorChoice::Never && key == utf8("CLICOLOR")
                ||| choice == ColorChoice::Never && key == utf8("NO_COLOR")
            };
            &&& set ==> colored(env, choice).contains_key(key) && colored(env, choice)[key] == Some(
                utf8("1"),
            )
            &&& !set ==> colored(env, choice).contains_key(key) == env.contains_key(key)
            &&& !set && env.contains_key(key) ==> colored(env, choice)[key] == env[key]
        }),
{
    lemma_color_names();
}

/// To set the color variables for the same choice again changes nothing.
pub proof fn law_color_variables_settle(env: Map<Seq<u8>, Option<Seq<u8>>>, choice: ColorChoice)
    ensures
        colored(colored(env, choice), choice) == colored(env, choice),
        colored(env, ColorChoice::Always) == colored(env, ColorChoice::AlwaysAnsi),
{
    assert(colored(colored(env, choice), choice) =~= colored(env, choice));
}

/// To set variables by two lists is to set them by one list after the other.
pub proof fn law_variables_in_sequence(
    env: Map<Seq<u8>, Option<Seq<u8>>>,
    a: Seq<(&[u8], &[u8])>,
    b: Seq<(&[u8], &[u8])>,
)
    ensures
        with_vars(env, a + b) == with_vars(with_vars(env, a), b),
    decreases b.len(),
{
    if b.len() == 0 {
        assert(a + b =~= a);
    } else {
        law_variables_in_sequence(env, a, b.drop_last());
        assert((a + b).drop_last() =~= a + b.drop_last());
    }
}

/// To set variables by a list of one is to set that variable, to the whole of its
/// value; and by an empty list, to set none.
pub proof fn law_one_variable(env: Map<Seq<u8>, Option<Seq<u8>>>, key: &[u8], value: &[u8])
    ensures
        with_vars(env, Seq::empty()) == env,
        with_vars(env, seq![(key, value)]) == env.insert(key@, Some(value@)),
{
    let one = seq![(key, value)];
    assert(one.drop_last() =~= Seq::empty());
    assert(one.last() == (key, value));
}

/// Of the entries for one variable the last one counts, with the whole of its
/// value.
pub proof fn law_last_entry_counts(
    env: Map<Seq<u8>, Option<Seq<u8>>>,
    vars: Seq<(&[u8], &[u8])>,
    i: int,
)
    requires
        0 <= i < vars.len(),
        forall|j: int| i < j < vars.len() ==> (#[trigger] vars[j]).0@ != vars[i].0@,
    ensures
        with_vars(env, vars).contains_key(vars[i].0@),
        with_vars(env, vars)[vars[i].0@] == Some(vars[i].1@),
    decreases vars.len(),
{
    let fewer = vars.drop_last();
    if i < fewer.len() {
        assert forall|j: int| i < j < fewer.len() implies (#[trigger] fewer[j]).0@
            != fewer[i].0@ by {
            assert(fewer[j] == vars[j]);
        }
        law_last_entry_counts(env, fewer, i);
        assert(vars[vars.len() - 1].0@ != vars[i].0@);
    }
}

/// A variable that no entry of a list is for is as it was.
pub proof fn law_other_variables_stay(
    env: Map<Seq<u8>, Option<Seq<u8>>>,
    vars: Seq<(&[u8], &[u8])>,
    key: Seq<u8>,
)
    requires
        forall|i: int| 0 <= i < vars.len() ==> (#[trigger] vars[i]).0@ != key,
    ensures
        with_vars(env, vars).contains_key(key) == env.contains_key(key),
        env.contains_key(key) ==> with_vars(env, vars)[key] == env[key],
    decreases vars.len(),
{
    if vars.len() > 0 {
        let fewer = vars.drop_last();
        assert forall|i: int| 0 <= i < fewer.len() implies (#[trigger] fewer[i]).0@ != key by {
            assert(fewer[i] == vars[i]);
        }
        law_other_variables_stay(env, fewer, key);
        assert(vars[vars.len() - 1].0@ != key);
    }
}

/// To set variables by a list in text is to set them one after the other, each to
/// the whole of its value.
pub proof fn law_variables_in_text(
    env: Map<Seq<u8>, Option<Seq<u8>>>,
    vars: Seq<(&'static str, &'static str)>,
    key: &'static str,
    value: &'static str,
)
    ensures
        with_texts(env, Seq::empty()) == env,
        with_texts(env, vars.push((key, value))) == with_texts(env, vars).insert(
            utf8(key),
            Some(utf8(value)),
        ),
{
    assert(vars.push((key, value)).drop_last() =~= vars);
}

/// A process to launch, a summary of what it is trying to do, whether its
/// status is checked, and whether it gets a terminal of its own.
pub struct Cmd {
    /// The inner command, in case you need to access it
    pub inner: Command,
    summary: String,
    check_status: bool,
    use_pty: bool,
}

/// What a `Cmd` holds.
#[verifier::ext_equal]
pub struct CmdView {
    pub inner: CommandView,
    pub summary: Seq<char>,
    pub check_status: bool,
    pub use_pty: bool,
}

impl CmdView {
    /// The same with another process to launch.
    pub open spec fn with_inner(self, inner: CommandView) -> CmdView {
        CmdView { inner, ..self }
    }

    /// The same with other arguments.
    pub open spec fn with_args(self, args: Seq<Seq<u8>>) -> CmdView {
        self.with_inner(CommandView { args, ..self.inner })
    }

    /// The environment that the process gets when it is spawned, given the one
    /// that could be inherited.
    pub open spec fn environment(self, inherited: Map<Seq<u8>, Seq<u8>>) -> Map<Seq<u8>, Seq<u8>> {
        let env = if self.use_pty {
            in_terminal(self.inner.env)
        } else {
            self.inner.env
        };
        child_env(inherited, env, self.inner.env_cleared)
    }

    /// The same with other changes to the environment.
    pub open spec fn with_env(self, env: Map<Seq<u8>, Option<Seq<u8>>>) -> CmdView {
        self.with_inner(CommandView { env, ..self.inner })
    }
}

impl View for Cmd {
    type V = CmdView;

    closed spec fn view(&self) -> CmdView {
        CmdView {
            inner: self.inner@,
            summary: self.summary@,
            check_status: self.check_status,
            use_pty: self.use_pty,
        }
    }
}

/// Constructors
impl Cmd {
    /// Create a new command with an additional "summary" of what this is trying to do
    pub fn new(command: &[u8], summary: &str) -> (cmd: Self)
        ensures
            cmd@ == (CmdView {
                inner: CommandView {
                    program: command@,
                    args: Seq::empty(),
                    env: Map::empty(),
                    env_cleared: false,
                    current_dir: None,
                    stdin: None,
                    stdout: None,
                    stderr: None,
                },
                summary: summary@,
                check_status: true,
                use_pty: false,
            }),
    {
        let inner = Command {
            program: copy_bytes(command),
            args: Vec::new(),
            env: EnvChanges::new(),
            current_dir: None,
            stdin: None,
            stdout: None,
            stderr: None,
        };
        assert(contents(inner.args@) =~= Seq::empty());
        Cmd { inner, summary: summary.to_owned(), check_status: true, use_pty: false }
    }
}

/// Builder APIs
impl Cmd {
    /// Set whether `ExitStatus::success` should be checked after executions
    /// (except `spawn`, which doesn't yet have a status to check).
    ///
    /// Defaults to `true`.
    ///
    /// If true, an `Err` will be produced by those execution commands.
    ///
    /// Executions which produce status will pass them to `Cmd::maybe_check_status`,
    /// which uses this setting.
    pub fn check(&mut self, checked: bool) -> (this: &mut Self)
        ensures
            this@ == (CmdView { check_status: checked, ..old(self)@ }),
            *final(self) == *final(this),
    {
        self.check_status = checked;
        self
    }

    /// Pipe stdout into stderr
    ///
    /// This is useful for cases where you want your program to livestream
    /// the output of a command to give your user realtime feedback, but the command
    /// randomly writes some things to stdout, and you don't want your own stdout tainted.
    pub fn stdout_to_stderr(&mut self) -> (this: &mut Self)
        ensures
            this@ == old(self)@.with_inner(
                (CommandView { stdout: Some(Stdio::ParentStderr), ..old(self)@.inner }),
            ),
            *final(self) == *final(this),
    {
        self.inner.stdout = Some(Stdio::ParentStderr);
        self
    }

    /// Sets color-related environment variables based on the provided `ColorChoice`.
    pub fn set_color_env_with_choice(&mut self, color_choice: ColorChoice) -> (this: &mut Self)
        ensures
            this@ == old(self)@.with_env(colored(old(self)@.inner.env, color_choice)),
            *final(self) == *final(this),
    {
        match color_choice {
            ColorChoice::Always | ColorChoice::AlwaysAnsi => {
                self.env("FORCE_COLOR".as_bytes(), "1".as_bytes());
                self.env("CLICOLOR_FORCE".as_bytes(), "1".as_bytes());
                self.env("CLICOLOR".as_bytes(), "1".as_bytes());
            },
            ColorChoice::Never => {
                self.env("NO_COLOR".as_bytes(), "1".as_bytes());
            },
            ColorChoice::Auto => {
                self.env("CLICOLOR".as_bytes(), "1".as_bytes());
            },
        }
        self
    }

    /// Sets color-related environment variables based on the globally stored `ColorChoice`.
    pub fn set_color_env(&mut self) -> (this: &mut Self)
        ensures
            exists|choice: ColorChoice|
                {
                    &&& #[trigger] is_stored_choice(choice)
                    &&& this@ == old(self)@.with_env(colored(old(self)@.inner.env, choice))
                },
            *final(self) == *final(this),
    {
        let color_choice = global_color_choice();
        proof {
            lemma_stored_choice(color_choice);
        }
        self.set_color_env_with_choice(color_choice)
    }

    /// Enable PTY allocation for this command
    pub fn with_pty(&mut self, use_pty: bool) -> (this: &mut Self)
        ensures
            this@ == (CmdView { use_pty, ..old(self)@ }),
            *final(self) == *final(this),
    {
        self.use_pty = use_pty;
        self
    }
}

/// What is launched
impl Cmd {
    /// Adds an argument.
    pub fn arg(&mut self, arg: &[u8]) -> (this: &mut Self)
        ensures
            this@ == old(self)@.with_args(old(self)@.inner.args.push(arg@)),
            *final(self) == *final(this),
    {
        self.inner.args.push(copy_bytes(arg));
        assert(contents(self.inner.args@) =~= contents(old(self).inner.args@).push(arg@));
        self
    }

    /// Adds several arguments.
    pub fn args(&mut self, args: &[&[u8]]) -> (this: &mut Self)
        ensures
            this@ == old(self)@.with_args(old(self)@.inner.args + slice_contents(args@)),
            *final(self) == *final(this),
    {
        let ghost added = slice_contents(args@);
        assert(self@.inner.args =~= self@.inner.args + added.take(0));
        for i in 0..args.len()
            invariant
                added == slice_contents(args@),
                self@ == old(self)@.with_args(old(self)@.inner.args + added.take(i as int)),
        {
            self.arg(args[i]);
            assert(old(self)@.inner.args + added.take(i + 1) =~= (old(self)@.inner.args
                + added.take(i as int)).push(args@[i as int]@));
        }
        assert(added.take(args@.len() as int) =~= added);
        self
    }

    /// Sets an environment variable.
    pub fn env(&mut self, key: &[u8], val: &[u8]) -> (this: &mut Self)
        ensures
            this@ == old(self)@.with_env(old(self)@.inner.env.insert(key@, Some(val@))),
            *final(self) == *final(this),
    {
        self.inner.env.set(key, val);
        self
    }

    /// Sets several environment variables, a later one in place of an earlier
    /// one of the same name.
    pub fn envs(&mut self, vars: &[(&[u8], &[u8])]) -> (this: &mut Self)
        ensures
            this@ == old(self)@.with_env(with_vars(old(self)@.inner.env, vars@)),
            *final(self) == *final(this),
    {
        for i in 0..vars.len()
            invariant
                self@ == old(self)@.with_env(
                    with_vars(old(self)@.inner.env, vars@.take(i as int)),
                ),
        {
            let (key, val) = vars[i];
            self.env(key, val);
            assert(vars@.take(i + 1).drop_last() =~= vars@.take(i as int));
        }
        assert(vars@.take(vars@.len() as int) =~= vars@);
        self
    }

    /// Removes an environment variable: one that was set is set no more, and
    /// one that would be inherited is not.
    pub fn env_remove(&mut self, key: &[u8]) -> (this: &mut Self)
        ensures
            this@ == old(self)@.with_env(
                if old(self)@.inner.env_cleared {
                    old(self)@.inner.env.remove(key@)
                } else {
                    old(self)@.inner.env.insert(key@, None)
                },
            ),
            *final(self) == *final(this),
    {
        self.inner.env.remove(key);
        self
    }

    /// Forgets every environment variable that was set or removed, and inherits
    /// none.
    pub fn env_clear(&mut self) -> (this: &mut Self)
        ensures
            this@ == old(self)@.with_inner(
                (CommandView { env: Map::empty(), env_cleared: true, ..old(self)@.inner }),
            ),
            *final(self) == *final(this),
    {
        self.inner.env.clear();
        self
    }

    /// Sets the directory to run in.
    pub fn current_dir(&mut self, dir: &[u8]) -> (this: &mut Self)
        ensures
            this@ == old(self)@.with_inner(
                (CommandView { current_dir: Some(dir@), ..old(self)@.inner }),
            ),
            *final(self) == *final(this),
    {
        self.inner.current_dir = Some(copy_bytes(dir));
        self
    }

    /// Configures the standard input.
    pub fn stdin(&mut self, cfg: Stdio) -> (this: &mut Self)
        ensures
            this@ == old(self)@.with_inner(
                (CommandView { stdin: Some(cfg), ..old(self)@.inner }),
            ),
            *final(self) == *final(this),
    {
        self.inner.stdin = Some(cfg);
        self
    }

    /// Configures the standard output.
    pub fn stdout(&mut self, cfg: Stdio) -> (this: &mut Self)
        ensures
            this@ == old(self)@.with_inner(
                (CommandView { stdout: Some(cfg), ..old(self)@.inner }),
            ),
            *final(self) == *final(this),
    {
        self.inner.stdout = Some(cfg);
        self
    }

    /// Configures the standard error.
    pub fn stderr(&mut self, cfg: Stdio) -> (this: &mut Self)
        ensures
            this@ == old(self)@.with_inner(
                (CommandView { stderr: Some(cfg), ..old(self)@.inner }),
            ),
            *final(self) == *final(this),
    {
        self.inner.stderr = Some(cfg);
        self
    }

    /// The program.
    pub fn get_program(&self) -> (program: &[u8])
        ensures
            program@ == self@.inner.program,
    {
        self.inner.program.as_slice()
    }

    /// The arguments, without the program.
    pub fn get_args(&self) -> (args: &Vec<Vec<u8>>)
        ensures
            contents(args@) == self@.inner.args,
    {
        &self.inner.args
    }

    /// The environment variables that are set, or, with `None`, removed, in the
    /// order of their names.
    pub fn get_envs(&self) -> (vars: &Vec<EnvVar>)
        ensures
            in_order(vars@),
            changes(vars@) == self@.inner.env,
    {
        self.inner.env.list()
    }

    /// The directory to run in, where one was set.
    pub fn get_current_dir(&self) -> (dir: Option<&[u8]>)
        ensures
            optional_slice(dir) == self@.inner.current_dir,
    {
        match &self.inner.current_dir {
            Some(dir) => Some(dir.as_slice()),
            None => None,
        }
    }
}

/// Whether an error says that a command could not be executed, and why.
pub open spec fn is_exec_error(error: Error, summary: Seq<char>, cause: std::io::Error) -> bool {
    error matches Error::Exec { summary: said, cause: why } && said@ == summary && why == cause
}

/// Whether an error says that a command ended with a status that is no
/// success, and what it wrote where that is known.
pub open spec fn is_status_error(
    error: Error,
    summary: Seq<char>,
    status: ExitStatus,
    output: Option<OutputView>,
) -> bool {
    &&& error matches Error::Status { summary: said, error: found }
    &&& said@ == summary
    &&& found.status == status
    &&& match found.output {
        Some(found) => output == Some(found@),
        None => output is None,
    }
}

/// A terminal's size, in characters and in pixels.
#[derive(Clone, Copy, Debug, PartialEq, Eq, Structural)]
pub struct PtySize {
    pub rows: u16,
    pub cols: u16,
    pub pixel_width: u16,
    pub pixel_height: u16,
}

/// A terminal to open, and what to launch in it: the process as it is
/// described, but that the terminal is its standard streams and that variables
/// which ask for color are set after its own.
pub struct PtySpawn<'a> {
    pub size: PtySize,
    pub command: &'a Command,
    pub env: Vec<(&'static str, &'static str)>,
}

impl<'a> PtySpawn<'a> {
    /// Whether this is the terminal that a process gets, 24 lines of 80
    /// columns, with the process in it.
    pub open spec fn is_for(self, inner: CommandView) -> bool {
        &&& self.size == PtySize { rows: 24, cols: 80, pixel_width: 0, pixel_height: 0 }
        &&& self.command@ == inner
        &&& self.env@.map_values(|var: (&'static str, &'static str)| (var.0@, var.1@)) == seq![
            ("FORCE_COLOR"@, "1"@),
            ("CLICOLOR"@, "1"@),
            ("TERM"@, "xterm-256color"@),
        ]
    }

    /// The changes to the environment of the process: its own, and after them
    /// those for the terminal.
    pub fn env_changes(&self) -> (env: EnvChanges)
        ensures
            env.vars() == with_texts(self.command@.env, self.env@),
            env.cleared() == self.command@.env_cleared,
    {
        let mut env = self.command.env.clone();
        for i in 0..self.env.len()
            invariant
                env.vars() == with_texts(self.command@.env, self.env@.take(i as int)),
                env.cleared() == self.command@.env_cleared,
        {
            let (key, value) = self.env[i];
            env.set(key.as_bytes(), value.as_bytes());
            assert(self.env@.take(i + 1).drop_last() =~= self.env@.take(i as int));
        }
        assert(self.env@.take(self.env@.len() as int) =~= self.env@);
        env
    }

    /// The terminal that a process gets, with the process in it.
    pub fn new(command: &'a Command) -> (spawn: Self)
        ensures
            spawn.is_for(command@),
    {
        let mut env: Vec<(&'static str, &'static str)> = Vec::new();
        env.push(("FORCE_COLOR", "1"));
        env.push(("CLICOLOR", "1"));
        env.push(("TERM", "xterm-256color"));
        assert(env@.map_values(|var: (&'static str, &'static str)| (var.0@, var.1@)) =~= seq![
            ("FORCE_COLOR"@, "1"@),
            ("CLICOLOR"@, "1"@),
            ("TERM"@, "xterm-256color"@),
        ]);
        PtySpawn {
            size: PtySize { rows: 24, cols: 80, pixel_width: 0, pixel_height: 0 },
            command,
            env,
        }
    }
}

/// What spawning a command comes to.
pub enum SpawnPlan<'a> {
    /// The process is launched as it is described.
    Direct(&'a Command),
    /// The process is launched in a terminal.
    Pty(PtySpawn<'a>),
}

impl<'a> SpawnPlan<'a> {
    /// The environment that the process gets by this plan, given the one that
    /// could be inherited.
    pub open spec fn environment(self, inherited: Map<Seq<u8>, Seq<u8>>) -> Map<Seq<u8>, Seq<u8>> {
        match self {
            SpawnPlan::Direct(command) => child_env(
                inherited,
                command@.env,
                command@.env_cleared,
            ),
            SpawnPlan::Pty(spawn) => child_env(
                inherited,
                with_texts(spawn.command@.env, spawn.env@),
                spawn.command@.env_cleared,
            ),
        }
    }
}

/// The list of variables for a terminal sets what a terminal asks for.
proof fn lemma_terminal_variables(spawn: PtySpawn<'_>, inner: CommandView)
    requires
        spawn.is_for(inner),
    ensures
        with_texts(inner.env, spawn.env@) == in_terminal(inner.env),
{
    let vars = spawn.env@;
    let held = vars.map_values(|var: (&'static str, &'static str)| (var.0@, var.1@));
    assert(vars.len() == held.len());
    assert(held[0] == ("FORCE_COLOR"@, "1"@));
    assert(held[1] == ("CLICOLOR"@, "1"@));
    assert(held[2] == ("TERM"@, "xterm-256color"@));
    let two = vars.drop_last();
    let one = two.drop_last();
    assert(one.drop_last() =~= Seq::empty());
    assert(with_texts(inner.env, one.drop_last()) == inner.env);
    assert(with_texts(inner.env, one) == switched_on(inner.env, "FORCE_COLOR"));
    assert(with_texts(inner.env, two) == switched_on(
        switched_on(inner.env, "FORCE_COLOR"),
        "CLICOLOR",
    ));
}

/// A process in a terminal is asked for color and told of the terminal, whatever
/// its command sets, removes or clears, and whatever could be inherited. Every
/// other variable is as it would be without the terminal.
pub proof fn law_terminal_variables_win(
    inherited: Map<Seq<u8>, Seq<u8>>,
    env: Map<Seq<u8>, Option<Seq<u8>>>,
    cleared: bool,
)
    ensures
        child_env(inherited, in_terminal(env), cleared) == child_env(inherited, env, cleared).insert(
            utf8("FORCE_COLOR"),
            utf8("1"),
        ).insert(utf8("CLICOLOR"), utf8("1")).insert(utf8("TERM"), utf8("xterm-256color")),
        ({
            let found = child_env(inherited, in_terminal(env), cleared);
            &&& found.contains_key(utf8("FORCE_COLOR")) && found[utf8("FORCE_COLOR")] == utf8("1")
            &&& found.contains_key(utf8("CLICOLOR")) && found[utf8("CLICOLOR")] == utf8("1")
            &&& found.contains_key(utf8("TERM")) && found[utf8("TERM")] == utf8("xterm-256color")
        }),
{
    lemma_color_names();
    assert(child_env(inherited, in_terminal(env), cleared) =~= child_env(
        inherited,
        env,
        cleared,
    ).insert(utf8("FORCE_COLOR"), utf8("1")).insert(utf8("CLICOLOR"), utf8("1")).insert(
        utf8("TERM"),
        utf8("xterm-256color"),
    ));
}

/// What has been launched: `T` is a handle to a normal process, `P` one to a
/// process in a terminal, and `M` one to the terminal.
pub enum Launched<T, P, M> {
    Direct(T),
    Pty { child: P, master: M },
}

/// What the standard streams of a process are connected to while its output is
/// collected.
#[derive(Clone, Copy, Debug, PartialEq, Eq, Structural)]
pub struct Streams {
    pub stdin: Stdio,
    pub stdout: Stdio,
    pub stderr: Stdio,
}

/// A stream as it was configured, or, where it was not, by default.
pub open spec fn configured(stream: Option<Stdio>, default: Stdio) -> Stdio {
    match stream {
        Some(cfg) => cfg,
        None => default,
    }
}

/// Execution APIs. What only the system can do lies between two calls or
/// before one: its outcome is an argument here.
impl Cmd {
    /// What is to be launched.
    pub fn spawn_plan(&self) -> (plan: SpawnPlan)
        ensures
            match plan {
                SpawnPlan::Direct(command) => !self@.use_pty && command@ == self@.inner,
                SpawnPlan::Pty(spawn) => self@.use_pty && spawn.is_for(self@.inner),
            },
            forall|inherited: Map<Seq<u8>, Seq<u8>>| #[trigger]
                plan.environment(inherited) == self@.environment(inherited),
    {
        if self.use_pty {
            let spawn = PtySpawn::new(&self.inner);
            proof {
                lemma_terminal_variables(spawn, self@.inner);
            }
            SpawnPlan::Pty(spawn)
        } else {
            SpawnPlan::Direct(&self.inner)
        }
    }

    /// What launching the command, as planned, came to, with the error wrapped.
    /// There is a process to wait for, in a terminal exactly where one was
    /// asked for.
    pub fn spawn<T, P, M>(&self, launched: Result<Launched<T, P, M>, std::io::Error>) -> (child:
        Result<CmdChild<T, P, M>, Error>)
        requires
            launched matches Ok(process) ==> (process is Pty <==> self@.use_pty),
        ensures
            match launched {
                Ok(Launched::Direct(process)) => child == Ok::<CmdChild<T, P, M>, Error>(
                    CmdChild::TokioChild(Some(process)),
                ),
                Ok(Launched::Pty { child: process, master }) => child == Ok::<
                    CmdChild<T, P, M>,
                    Error,
                >(CmdChild::PtyChild { child: PtyProcess::Running(process), master }),
                Err(cause) => child matches Err(error) && is_exec_error(
                    error,
                    self@.summary,
                    cause,
                ),
            },
            child matches Ok(child) ==> (child is PtyChild <==> self@.use_pty)
                && !child.is_taken(),
    {
        match launched {
            Ok(Launched::Direct(process)) => Ok(CmdChild::TokioChild(Some(process))),
            Ok(Launched::Pty { child, master }) => Ok(
                CmdChild::PtyChild { child: PtyProcess::Running(child), master },
            ),
            Err(cause) => Err(Error::Exec { summary: self.summary.clone(), cause }),
        }
    }

    /// What the streams are connected to while the output is collected: those
    /// that were configured as they were, stdout and stderr else to pipes, and
    /// stdin else to nothing.
    pub fn output_streams(&self) -> (streams: Streams)
        ensures
            streams.stdin == configured(self@.inner.stdin, Stdio::Null),
            streams.stdout == configured(self@.inner.stdout, Stdio::Piped),
            streams.stderr == configured(self@.inner.stderr, Stdio::Piped),
            self@.inner.stdin matches Some(cfg) ==> streams.stdin == cfg,
            self@.inner.stdout matches Some(cfg) ==> streams.stdout == cfg,
            self@.inner.stderr matches Some(cfg) ==> streams.stderr == cfg,
            self@.inner.stdin is None ==> streams.stdin == Stdio::Null,
            self@.inner.stdout is None ==> streams.stdout == Stdio::Piped,
            self@.inner.stderr is None ==> streams.stderr == Stdio::Piped,
    {
        Streams {
            stdin: self.inner.stdin.unwrap_or(Stdio::Null),
            stdout: self.inner.stdout.unwrap_or(Stdio::Piped),
            stderr: self.inner.stderr.unwrap_or(Stdio::Piped),
        }
    }

    /// What executing the command and collecting its output came to, with the
    /// error wrapped, and status checked (by default).
    pub fn output(&self, collected: Result<Output, std::io::Error>) -> (output: Result<
        Output,
        Error,
    >)
        ensures
            match collected {
                Ok(found) => if !self@.check_status || found.status.is_success() {
                    output == Ok::<Output, Error>(found)
                } else {
                    output matches Err(error) && is_status_error(
                        error,
                        self@.summary,
                        found.status,
                        Some(found@),
                    )
                },
                Err(cause) => output matches Err(error) && is_exec_error(
                    error,
                    self@.summary,
                    cause,
                ),
            },
    {
        let output = match collected {
            Ok(output) => output,
            Err(cause) => {
                return Err(Error::Exec { summary: self.summary.clone(), cause });
            },
        };
        if self.check_status {
            self.check_output(&output)?;
        }
        Ok(output)
    }

    /// What executing the command came to, with the error wrapped, and status
    /// checked (by default).
    pub fn status(&self, ended: Result<ExitStatus, std::io::Error>) -> (status: Result<
        ExitStatus,
        Error,
    >)
        ensures
            match ended {
                Ok(found) => if !self@.check_status || found.is_success() {
                    status == Ok::<ExitStatus, Error>(found)
                } else {
                    status matches Err(error) && is_status_error(
                        error,
                        self@.summary,
                        found,
                        None,
                    )
                },
                Err(cause) => status matches Err(error) && is_exec_error(
                    error,
                    self@.summary,
                    cause,
                ),
            },
    {
        let status = match ended {
            Ok(status) => status,
            Err(cause) => {
                return Err(Error::Exec { summary: self.summary.clone(), cause });
            },
        };
        self.maybe_check_status(status)?;
        Ok(status)
    }

    /// Equivalent to `Cmd::status`,
    /// but doesn't bother returning the actual status code (because it's captured in the `Result`)
    pub fn run(&self, ended: Result<ExitStatus, std::io::Error>) -> (done: Result<(), Error>)
        ensures
            match ended {
                Ok(found) => if !self@.check_status || found.is_success() {
                    done is Ok
                } else {
                    done matches Err(error) && is_status_error(error, self@.summary, found, None)
                },
                Err(cause) => done matches Err(error) && is_exec_error(
                    error,
                    self@.summary,
                    cause,
                ),
            },
    {
        self.status(ended)?;
        Ok(())
    }
}

/// Diagnostic APIs (used internally, but available for yourself)
impl Cmd {
    /// Check `ExitStatus::success`, producing a contextual error if it's `false`.
    pub fn check_status(&self, status: ExitStatus) -> (checked: Result<(), Error>)
        ensures
            checked is Ok <==> status.is_success(),
            checked matches Err(error) ==> is_status_error(error, self@.summary, status, None),
    {
        if status.success() {
            Ok(())
        } else {
            Err(
                Error::Status {
                    summary: self.summary.clone(),
                    error: StatusError { status, output: None },
                },
            )
        }
    }

    /// Check `ExitStatus::success`, producing an error with the output if it's `false`.
    pub fn check_output(&self, output: &Output) -> (checked: Result<(), Error>)
        ensures
            checked is Ok <==> output.status.is_success(),
            checked matches Err(error) ==> is_status_error(
                error,
                self@.summary,
                output.status,
                Some(output@),
            ),
    {
        if output.status.success() {
            Ok(())
        } else {
            Err(
                Error::Status {
                    summary: self.summary.clone(),
                    error: StatusError { status: output.status, output: Some(output.clone()) },
                },
            )
        }
    }

    /// Invoke `Cmd::check_status` if `Cmd::check` is `true`
    /// (defaults to `true`).
    pub fn maybe_check_status(&self, status: ExitStatus) -> (checked: Result<(), Error>)
        ensures
            checked is Ok <==> !self@.check_status || status.is_success(),
            checked matches Err(error) ==> is_status_error(error, self@.summary, status, None),
    {
        if self.check_status {
            self.check_status(status)?;
        }
        Ok(())
    }

    /// Invoke `Cmd::check_status` if `Cmd::check` is `true`
    /// (defaults to `true`).
    pub fn maybe_check_output(&self, output: &Output) -> (checked: Result<(), Error>)
        ensures
            checked is Ok <==> !self@.check_status || output.status.is_success(),
            checked matches Err(error) ==> is_status_error(
                error,
                self@.summary,
                output.status,
                None,
            ),
    {
        if self.check_status {
            self.check_status(output.status)?;
        }
        Ok(())
    }

    /// How the command is shown, where git is known.
    pub open spec fn shown_as(self, git: Option<Seq<u8>>) -> Seq<char> {
        let inner = self@.inner;
        let args = shown(inner.program, git, inner.args);
        command_line(
            match inner.current_dir {
                Some(dir) => Some(decoded(dir)),
                None => None,
            },
            decoded(inner.program),
            args.map_values(|arg: Seq<u8>| decoded(arg)),
            is_cut(inner.program, git, inner.args),
        )
    }

    /// Simplified output of the command, with args truncated if they're too long.
    /// `git` is the path of git, where there is one.
    pub fn display(&self, git: Option<&[u8]>) -> (line: String)
        ensures
            line@ == self.shown_as(optional_slice(git)),
    {
        let dir = match &self.inner.current_dir {
            Some(dir) => Some(decode(dir.as_slice())),
            None => None,
        };
        let program = decode(self.inner.program.as_slice());
        let (picked, cut_short) = shown_args(self.inner.program.as_slice(), git, &self.inner.args);
        let mut args: Vec<String> = Vec::new();
        let ghost wanted = contents(picked@).map_values(|arg: Seq<u8>| decoded(arg));
        for i in 0..picked.len()
            invariant
                wanted == contents(picked@).map_values(|arg: Seq<u8>| decoded(arg)),
                texts(args@) == wanted.take(i as int),
        {
            let ghost had = texts(args@);
            let arg = decode(picked[i].as_slice());
            args.push(arg);
            assert(texts(args@) =~= had.push(arg@));
            assert(wanted.take(i + 1) =~= wanted.take(i as int).push(wanted[i as int]));
        }
        assert(wanted.take(wanted.len() as int) =~= wanted);
        show_command(&dir, program.as_str(), &args, cut_short)
    }

    /// The line to log before the command is executed.
    pub fn log_command(&self, git: Option<&[u8]>) -> (line: String)
        ensures
            line@ == "Executing `"@ + self.shown_as(optional_slice(git)) + "`"@,
    {
        let mut line = String::new();
        line.append("Executing `");
        line.append(self.display(git).as_str());
        line.append("`");
        assert(line@ =~= "Executing `"@ + self.shown_as(optional_slice(git)) + "`"@);
        line
    }
}

/// What is changed of a command is that alone; the rest of it stays.
pub proof fn law_changed_in_one_place(
    cmd: CmdView,
    inner: CommandView,
    args: Seq<Seq<u8>>,
    env: Map<Seq<u8>, Option<Seq<u8>>>,
)
    ensures
        cmd.with_inner(inner) == (CmdView {
            inner,
            summary: cmd.summary,
            check_status: cmd.check_status,
            use_pty: cmd.use_pty,
        }),
        cmd.with_args(args) == cmd.with_inner(
            (CommandView {
                program: cmd.inner.program,
                args,
                env: cmd.inner.env,
                env_cleared: cmd.inner.env_cleared,
                current_dir: cmd.inner.current_dir,
                stdin: cmd.inner.stdin,
                stdout: cmd.inner.stdout,
                stderr: cmd.inner.stderr,
            }),
        ),
        cmd.with_env(env) == cmd.with_inner(
            (CommandView {
                program: cmd.inner.program,
                args: cmd.inner.args,
                env,
                env_cleared: cmd.inner.env_cleared,
                current_dir: cmd.inner.current_dir,
                stdin: cmd.inner.stdin,
                stdout: cmd.inner.stdout,
                stderr: cmd.inner.stderr,
            }),
        ),
{
}

/// A stream is connected to just what it was configured as; and one that was not
/// configured to what it is by default.
pub proof fn law_configured_stream(cfg: Stdio, default: Stdio)
    ensures
        configured(Some(cfg), default) == cfg,
        configured(None, default) == default,
{
}

/// While output is collected each stream is connected to just what it was
/// configured as. One that was left alone is connected to a pipe where it is
/// stdout or stderr, as one that was configured so is, and to nothing where it is
/// stdin.
pub proof fn law_streams_of_output(cmd: &Cmd, streams: Streams)
    requires
        call_ensures(Cmd::output_streams, (cmd,), streams),
    ensures
        cmd@.inner.stdin matches Some(cfg) ==> streams.stdin == cfg,
        cmd@.inner.stdout matches Some(cfg) ==> streams.stdout == cfg,
        cmd@.inner.stderr matches Some(cfg) ==> streams.stderr == cfg,
        cmd@.inner.stdin is None ==> streams.stdin == Stdio::Null,
        cmd@.inner.stdout is None || cmd@.inner.stdout == Some(Stdio::Piped) ==> streams.stdout
            == Stdio::Piped,
        cmd@.inner.stderr is None || cmd@.inner.stderr == Some(Stdio::Piped) ==> streams.stderr
            == Stdio::Piped,
{
}

/// An error that says a command could not be executed gives its summary and the
/// cause, and no other error does.
pub proof fn law_exec_error(said: String, why: std::io::Error, error: StatusError)
    ensures
        forall|summary: Seq<char>, cause: std::io::Error| #[trigger]
            is_exec_error(Error::Exec { summary: said, cause: why }, summary, cause) <==> said@
                == summary && why == cause,
        forall|summary: Seq<char>, cause: std::io::Error| !#[trigger]
            is_exec_error(Error::Status { summary: said, error }, summary, cause),
{
}

/// An error that says how a command ended gives its summary and its status, and
/// all of what it wrote or, where nothing is known of that, nothing; and no other
/// error does.
pub proof fn law_status_error(said: String, why: std::io::Error, found: StatusError)
    ensures
        forall|summary: Seq<char>, status: ExitStatus, output: Option<OutputView>| #[trigger]
            is_status_error(
                Error::Status { summary: said, error: found },
                summary,
                status,
                output,
            ) <==> {
                &&& said@ == summary
                &&& found.status == status
                &&& found.output is None <==> output is None
                &&& found.output matches Some(held) ==> output matches Some(seen) && {
                    &&& held.status == seen.status
                    &&& held.stdout@ == seen.stdout
                    &&& held.stderr@ == seen.stderr
                }
            },
        forall|summary: Seq<char>, status: ExitStatus, output: Option<OutputView>| !#[trigger]
            is_status_error(
                Error::Exec { summary: said, cause: why },
                summary,
                status,
                output,
            ),
{
}

/// The terminal that a process gets has 24 lines of 80 columns, the whole command
/// in it, and three variables to set after those of the command.
pub proof fn law_terminal(spawn: PtySpawn<'_>, inner: CommandView)
    requires
        spawn.is_for(inner),
    ensures
        spawn.size.rows == 24,
        spawn.size.cols == 80,
        spawn.size.pixel_width == 0,
        spawn.size.pixel_height == 0,
        spawn.command@ == inner,
        spawn.env@.len() == 3,
        spawn.env@[0].0@ == "FORCE_COLOR"@ && spawn.env@[0].1@ == "1"@,
        spawn.env@[1].0@ == "CLICOLOR"@ && spawn.env@[1].1@ == "1"@,
        spawn.env@[2].0@ == "TERM"@ && spawn.env@[2].1@ == "xterm-256color"@,
{
    let held = spawn.env@.map_values(|var: (&'static str, &'static str)| (var.0@, var.1@));
    assert(spawn.env@.len() == held.len());
    assert(held[0] == ("FORCE_COLOR"@, "1"@));
    assert(held[1] == ("CLICOLOR"@, "1"@));
    assert(held[2] == ("TERM"@, "xterm-256color"@));
}

/// Without a terminal a process gets the environment that its command describes;
/// in a terminal it gets the same, but for the three variables that ask for color
/// and tell of the terminal.
pub proof fn law_environment(cmd: CmdView, inherited: Map<Seq<u8>, Seq<u8>>)
    ensures
        ({
            let described = child_env(inherited, cmd.inner.env, cmd.inner.env_cleared);
            &&& !cmd.use_pty ==> cmd.environment(inherited) == described
            &&& cmd.use_pty ==> cmd.environment(inherited) == described.insert(
                utf8("FORCE_COLOR"),
                utf8("1"),
            ).insert(utf8("CLICOLOR"), utf8("1")).insert(utf8("TERM"), utf8("xterm-256color"))
        }),
{
    law_terminal_variables_win(inherited, cmd.inner.env, cmd.inner.env_cleared);
}

/// The environment by a plan is that of the command, with the list of variables
/// set after it where there is a terminal.
pub proof fn law_environment_by_plan(
    command: &Command,
    spawn: PtySpawn<'_>,
    inherited: Map<Seq<u8>, Seq<u8>>,
)
    ensures
        SpawnPlan::Direct(command).environment(inherited) == child_env(
            inherited,
            command@.env,
            command@.env_cleared,
        ),
        SpawnPlan::Pty(spawn).environment(inherited) == child_env(
            inherited,
            with_texts(spawn.command@.env, spawn.env@),
            spawn.command@.env_cleared,
        ),
{
}

/// A command is shown by the directory it runs in, where one was set, by its
/// program, and by its arguments: all the candidates, in order and each of them
/// whole, where they take a hundred columns at most, and else those that are shown
/// with a mark after them.
pub proof fn law_shown_line(cmd: Cmd, git: Option<Seq<u8>>)
    ensures
        ({
            let inner = cmd@.inner;
            let all = candidates(inner.program, git, inner.args);
            let part = shown(inner.program, git, inner.args);
            let piece = |arg: Seq<u8>| seq![' '] + dimmed_text(decoded(arg));
            let place = match inner.current_dir {
                Some(dir) => "cd "@ + decoded(dir) + " && "@,
                None => Seq::empty(),
            };
            let head = place + cyan_text(decoded(inner.program));
            &&& width(all) <= 100 ==> cmd.shown_as(git) == head + all.map_values(piece).flatten()
            &&& width(all) > 100 ==> cmd.shown_as(git) == head + part.map_values(piece).flatten()
                + seq![' '] + dimmed_text("[...]"@)
        }),
{
    let inner = cmd@.inner;
    let part = shown(inner.program, git, inner.args);
    let texts = part.map_values(|arg: Seq<u8>| decoded(arg));
    let piece = |arg: Seq<u8>| seq![' '] + dimmed_text(decoded(arg));
    law_args_are_cut_when_too_wide(inner.program, git, inner.args);
    law_every_argument_is_shown(texts);
    assert(part.map_values(piece) =~= texts.map_values(
        |arg: Seq<char>| seq![' '] + dimmed_text(arg),
    ));
    reveal_strlit(" ");
    assert(" "@ =~= seq![' ']);
}

/// The color variables of a command are set by the choice that is stored, whatever
/// its program, arguments and variables are; and nothing else of it is changed.
pub proof fn law_stored_choice_is_used(cmd: &mut Cmd, this: &mut Cmd)
    requires
        call_ensures(Cmd::set_color_env, (cmd,), this),
    ensures
        exists|choice: ColorChoice|
            {
                &&& #[trigger] is_stored_choice(choice)
                &&& old(this)@.inner.env == colored(old(cmd)@.inner.env, choice)
            },
        old(this)@ == (CmdView {
            inner: CommandView { env: old(this)@.inner.env, ..old(cmd)@.inner },
            ..old(cmd)@
        }),
{
}

/// To set a list of one variable is to set that variable.
pub proof fn law_list_of_one_variable(
    a: &mut Cmd,
    b: &mut Cmd,
    vars: &[(&[u8], &[u8])],
    by_list: &mut Cmd,
    by_one: &mut Cmd,
)
    requires
        old(a)@ == old(b)@,
        vars@.len() == 1,
        call_ensures(Cmd::envs, (a, vars), by_list),
        call_ensures(Cmd::env, (b, vars@[0].0, vars@[0].1), by_one),
    ensures
        old(by_list)@ == old(by_one)@,
{
    law_one_variable(old(a)@.inner.env, vars@[0].0, vars@[0].1);
    assert(vars@ =~= seq![vars@[0]]);
}

} // verus!
