//! Herdr CLI commands: the arguments of each command, the checking of a
//! command's output, and the reading of its standard output.

use crate::model::PaneId;
use crate::text::{concat_str, decimal, decimal_text, trim_chars, trim_text};
use vstd::prelude::*;
use vstd::string::StringExecFns;
use vstd::utf8::{decode_utf8, valid_utf8};

verus! {

#[verifier::external_type_specification]
#[verifier::external_body]
pub struct ExAnyhowError(anyhow::Error);

#[verifier::external_type_specification]
#[verifier::external_body]
pub struct ExPathBuf(std::path::PathBuf);

#[verifier::external_type_specification]
#[verifier::external_body]
pub struct ExFromUtf8Error(std::string::FromUtf8Error);

/// The text that `String::from_utf8_lossy` makes of `bytes`: their UTF-8
/// decoding with each invalid sequence replaced by U+FFFD.
pub uninterp spec fn utf8_lossy(bytes: Seq<u8>) -> Seq<char>;

/// Calls `String::from_utf8_lossy`; the contract names its result.
#[verifier::external_body]
fn lossy_text(bytes: &[u8]) -> (s: String)
    ensures
        s@ == utf8_lossy(bytes@),
{
    String::from_utf8_lossy(bytes).into_owned()
}

/// Calls `String::from_utf8`, which the standard library documents as
/// succeeding exactly on valid UTF-8, with the decoded text, and failing
/// with an error that keeps the bytes otherwise.
#[verifier::external_body]
fn utf8_text(bytes: Vec<u8>) -> (s: Result<String, std::string::FromUtf8Error>)
    ensures
        match s {
            Ok(t) => valid_utf8(bytes@) && t@ == decode_utf8(bytes@),
            Err(_) => !valid_utf8(bytes@),
        },
{
    String::from_utf8(bytes)
}

/// Calls `Display` of `anyhow::Error` through `format!`: the error's
/// outermost message. Nothing is claimed of the text.
#[verifier::external_body]
fn error_text(e: &anyhow::Error) -> String {
    format!("{}", e)
}

/// The text a path holds: what `Path::to_str` gives back of it.
pub uninterp spec fn path_text(path: std::path::PathBuf) -> Seq<char>;

/// Calls `PathBuf::from` on a string, which keeps the string's text as the
/// path's text.
#[verifier::external_body]
fn path_from(text: String) -> (p: std::path::PathBuf)
    ensures
        path_text(p) == text@,
{
    std::path::PathBuf::from(text)
}

/// Output captured from a Herdr CLI command.
#[derive(Debug, Clone, PartialEq, Eq)]
pub struct CommandOutput {
    pub stdout: Vec<u8>,
    pub stderr: Vec<u8>,
    pub success: bool,
}

/// Why a Herdr command gave no result.
#[derive(Debug)]
pub enum CommandError {
    /// The runner could not run the command; its own error.
    Runner(anyhow::Error),
    /// The command ran and reported failure.
    Failed { message: String },
    /// `plugin config-dir` printed output that is not UTF-8.
    NotUtf8 { source: std::string::FromUtf8Error },
}

/// The message for `plugin config-dir` output that is not UTF-8.
pub open spec fn not_utf8_text() -> Seq<char> {
    "plugin config-dir output was not UTF-8"@
}

impl CommandError {
    /// The error's message: the runner's own message, the failure message
    /// of a failed command, or the note on output that is not UTF-8.
    pub fn message(&self) -> (text: String)
        ensures
            match self {
                CommandError::Runner(_) => true,
                CommandError::Failed { message } => text@ == message@,
                CommandError::NotUtf8 { .. } => text@ == not_utf8_text(),
            },
    {
        match self {
            CommandError::Runner(e) => error_text(e),
            CommandError::Failed { message } => message.clone(),
            CommandError::NotUtf8 { .. } => "plugin config-dir output was not UTF-8".to_owned(),
        }
    }
}

/// Fakeable command runner for Herdr CLI interactions.
pub trait CommandRunner {
    /// The commands this runner has run, in order: each program with its
    /// arguments. This is ghost state: the default leaves it unspecified,
    /// and all that is known of it, for any runner, is what
    /// [`CommandRunner::run`] promises.
    closed spec fn calls(&self) -> Seq<(Seq<char>, Seq<Seq<char>>)> {
        arbitrary()
    }

    /// The replies this runner has given, one per command, in order; a
    /// record of the same kind as [`CommandRunner::calls`].
    closed spec fn replies(&self) -> Seq<Result<CommandOutput, anyhow::Error>> {
        arbitrary()
    }

    /// Runs `program` once with `args` and gives back its reply. Every
    /// runner is trusted to keep this contract, which nothing checks: each
    /// call adds one entry to both records, the arguments as given and the
    /// reply as returned.
    fn run(&mut self, program: &str, args: &[String]) -> (reply: Result<CommandOutput, anyhow::Error>)
        ensures
            final(self).calls() == old(self).calls().push((program@, texts(args@))),
            final(self).replies() == old(self).replies().push(reply),
    ;
}

/// Views of strings.
pub open spec fn texts(v: Seq<String>) -> Seq<Seq<char>> {
    v.map_values(|s: String| s@)
}

/// Arguments of `pane layout` for a pane.
pub open spec fn pane_layout_argv(pane: Seq<char>) -> Seq<Seq<char>> {
    seq!["pane"@, "layout"@, "--pane"@, pane]
}

/// Arguments of `pane read` for a pane, text source and line count.
pub open spec fn pane_read_argv(pane: Seq<char>, source: Seq<char>, lines: nat) -> Seq<Seq<char>> {
    seq!["pane"@, "read"@, pane, "--source"@, source, "--lines"@, decimal(lines)]
}

/// The `--env KEY=VALUE` arguments for each environment entry.
pub open spec fn env_argv(env: Seq<(Seq<char>, Seq<char>)>) -> Seq<Seq<char>>
    decreases env.len(),
{
    if env.len() == 0 {
        Seq::empty()
    } else {
        env_argv(env.drop_last()) + seq!["--env"@, env.last().0 + "="@ + env.last().1]
    }
}

/// Arguments of `plugin pane open` for an overlay pane.
pub open spec fn overlay_argv(
    plugin_id: Seq<char>,
    entrypoint: Seq<char>,
    env: Seq<(Seq<char>, Seq<char>)>,
    focus: bool,
) -> Seq<Seq<char>> {
    seq![
        "plugin"@,
        "pane"@,
        "open"@,
        "--plugin"@,
        plugin_id,
        "--entrypoint"@,
        entrypoint,
        "--placement"@,
        "overlay"@,
    ] + env_argv(env) + seq![if focus { "--focus"@ } else { "--no-focus"@ }]
}

/// Arguments of `plugin config-dir` for a plugin.
pub open spec fn config_dir_argv(plugin_id: Seq<char>) -> Seq<Seq<char>> {
    seq!["plugin"@, "config-dir"@, plugin_id]
}

/// The words of `args` joined by single spaces.
pub open spec fn joined(args: Seq<Seq<char>>) -> Seq<char>
    decreases args.len(),
{
    if args.len() == 0 {
        Seq::empty()
    } else if args.len() == 1 {
        args[0]
    } else {
        joined(args.drop_last()) + " "@ + args.last()
    }
}

/// Message of a failed Herdr command.
pub open spec fn failure_message(args: Seq<Seq<char>>, stderr: Seq<u8>) -> Seq<char> {
    "Herdr command `"@ + joined(args) + "` failed: "@ + utf8_lossy(stderr)
}

/// Arguments of `pane layout`.
pub fn pane_layout_args(pane: &PaneId) -> (args: Vec<String>)
    ensures
        texts(args@) == pane_layout_argv(pane.0@),
{
    let mut args: Vec<String> = Vec::new();
    args.push("pane".to_owned());
    args.push("layout".to_owned());
    args.push("--pane".to_owned());
    args.push(pane.0.clone());
    assert(texts(args@) =~= pane_layout_argv(pane.0@));
    args
}

/// Arguments of `pane read`.
pub fn pane_read_args(pane: &PaneId, source: &str, lines: u16) -> (args: Vec<String>)
    ensures
        texts(args@) == pane_read_argv(pane.0@, source@, lines as nat),
{
    let mut args: Vec<String> = Vec::new();
    args.push("pane".to_owned());
    args.push("read".to_owned());
    args.push(pane.0.clone());
    args.push("--source".to_owned());
    args.push(source.to_owned());
    args.push("--lines".to_owned());
    args.push(decimal_text(lines as u64));
    assert(texts(args@) =~= pane_read_argv(pane.0@, source@, lines as nat));
    args
}

/// Arguments of `plugin pane open` for an overlay pane.
pub fn plugin_pane_open_overlay_args(
    plugin_id: &str,
    entrypoint: &str,
    env: &[(&str, String)],
    focus: bool,
) -> (args: Vec<String>)
    ensures
        texts(args@) == overlay_argv(
            plugin_id@,
            entrypoint@,
            env@.map_values(|e: (&str, String)| (e.0@, e.1@)),
            focus,
        ),
{
    let mut args: Vec<String> = Vec::new();
    args.push("plugin".to_owned());
    args.push("pane".to_owned());
    args.push("open".to_owned());
    args.push("--plugin".to_owned());
    args.push(plugin_id.to_owned());
    args.push("--entrypoint".to_owned());
    args.push(entrypoint.to_owned());
    args.push("--placement".to_owned());
    args.push("overlay".to_owned());
    let ghost head = texts(args@);
    assert(head =~= seq![
        "plugin"@,
        "pane"@,
        "open"@,
        "--plugin"@,
        plugin_id@,
        "--entrypoint"@,
        entrypoint@,
        "--placement"@,
        "overlay"@,
    ]);
    let ghost envs = env@.map_values(|e: (&str, String)| (e.0@, e.1@));
    assert(head + env_argv(envs.take(0)) =~= head);
    let mut i: usize = 0;
    while i < env.len()
        invariant
            envs == env@.map_values(|e: (&str, String)| (e.0@, e.1@)),
            i <= env@.len(),
            texts(args@) == head + env_argv(envs.take(i as int)),
        decreases env@.len() - i,
    {
        let (key, value) = &env[i];
        let pair = concat_str(concat_str(key, "=").as_str(), value.as_str());
        let ghost before = texts(args@);
        args.push("--env".to_owned());
        args.push(pair);
        assert(envs.take(i + 1).drop_last() =~= envs.take(i as int));
        assert(envs.take(i + 1).last() == (key@, value@));
        assert(texts(args@) =~= before + seq!["--env"@, key@ + "="@ + value@]);
        i = i + 1;
    }
    assert(envs.take(env@.len() as int) =~= envs);
    let flag = if focus {
        "--focus"
    } else {
        "--no-focus"
    };
    let ghost before_flag = texts(args@);
    args.push(flag.to_owned());
    assert(texts(args@) =~= before_flag.push(flag@));
    assert(texts(args@) =~= overlay_argv(plugin_id@, entrypoint@, envs, focus));
    args
}

/// Arguments of `plugin config-dir`.
pub fn plugin_config_dir_args(plugin_id: &str) -> (args: Vec<String>)
    ensures
        texts(args@) == config_dir_argv(plugin_id@),
{
    let mut args: Vec<String> = Vec::new();
    args.push("plugin".to_owned());
    args.push("config-dir".to_owned());
    args.push(plugin_id.to_owned());
    assert(texts(args@) =~= config_dir_argv(plugin_id@));
    args
}

/// The words of `args` joined by single spaces.
fn join_args(args: &[String]) -> (s: String)
    ensures
        s@ == joined(texts(args@)),
{
    let ghost words = texts(args@);
    let mut s = String::new();
    let mut i: usize = 0;
    while i < args.len()
        invariant
            words == texts(args@),
            i <= args@.len(),
            s@ == joined(words.take(i as int)),
        decreases args@.len() - i,
    {
        assert(words.take(i + 1).drop_last() =~= words.take(i as int));
        if i > 0 {
            s.append(" ");
        }
        s.append(args[i].as_str());
        i = i + 1;
    }
    assert(words.take(args@.len() as int) =~= words);
    s
}

/// The message for a Herdr command that reported failure.
pub fn command_failure_message(args: &[String], stderr: &[u8]) -> (message: String)
    ensures
        message@ == failure_message(texts(args@), stderr@),
{
    let mut message = "Herdr command `".to_owned();
    message.append(join_args(args).as_str());
    message.append("` failed: ");
    message.append(lossy_text(stderr).as_str());
    message
}

/// The standard output of a command that succeeded; a failure carrying
/// [`command_failure_message`] otherwise.
pub fn check_output(args: &[String], output: CommandOutput) -> (checked: Result<Vec<u8>, CommandError>)
    ensures
        match checked {
            Ok(stdout) => output.success && stdout@ == output.stdout@,
            Err(e) => !output.success && (e matches CommandError::Failed { message } && message@
                == failure_message(texts(args@), output.stderr@)),
        },
{
    if output.success {
        Ok(output.stdout)
    } else {
        Err(CommandError::Failed { message: command_failure_message(args, output.stderr.as_slice()) })
    }
}

/// Whether `e` is what a checked command gives for a reply that is no
/// success: the runner's own error, or the failure message of the command
/// `args` when it ran and failed.
pub open spec fn failed_reply(e: CommandError, reply: Result<CommandOutput, anyhow::Error>, args: Seq<Seq<char>>) -> bool {
    match reply {
        Err(r) => e matches CommandError::Runner(f) && f == r,
        Ok(o) => !o.success && (e matches CommandError::Failed { message } && message@ == failure_message(
            args,
            o.stderr@,
        )),
    }
}

/// Whether `stdout` is the standard output of a reply that is a success.
pub open spec fn succeeded_with(reply: Result<CommandOutput, anyhow::Error>, stdout: Seq<u8>) -> bool {
    reply matches Ok(o) && o.success && o.stdout@ == stdout
}

/// The config directory that `plugin config-dir` printed: its output decoded
/// as UTF-8 and trimmed; an error when the output is not UTF-8.
pub fn config_dir_from_stdout(stdout: Vec<u8>) -> (dir: Result<std::path::PathBuf, CommandError>)
    ensures
        match dir {
            Ok(p) => valid_utf8(stdout@) && path_text(p) == trim_chars(decode_utf8(stdout@)),
            Err(e) => !valid_utf8(stdout@) && e is NotUtf8,
        },
{
    match utf8_text(stdout) {
        Ok(text) => Ok(path_from(trim_text(text.as_str()))),
        Err(source) => Err(CommandError::NotUtf8 { source }),
    }
}

/// Whether a reply is a successful run.
pub open spec fn reply_succeeded(reply: Result<CommandOutput, anyhow::Error>) -> bool {
    reply matches Ok(o) && o.success
}

/// Whether `after` is the runner `before` having run exactly one more
/// command: `program` with `args`.
pub open spec fn ran_one<R: CommandRunner>(after: R, before: R, program: Seq<char>, args: Seq<Seq<char>>) -> bool {
    &&& after.calls() == before.calls().push((program, args))
    &&& after.replies().drop_last() == before.replies()
    &&& after.replies().len() == before.replies().len() + 1
}

/// Runs `program` once with `args` through `runner` and checks its status:
/// the standard output of a successful run, else the runner's error or the
/// command's failure.
pub fn run_checked<R: CommandRunner>(program: &str, runner: &mut R, args: Vec<String>) -> (out: Result<
    Vec<u8>,
    CommandError,
>)
    ensures
        ran_one(*final(runner), *old(runner), program@, texts(args@)),
        match out {
            Ok(b) => succeeded_with(final(runner).replies().last(), b@),
            Err(e) => failed_reply(e, final(runner).replies().last(), texts(args@)),
        },
{
    let reply = runner.run(program, args.as_slice());
    assert(runner.replies().drop_last() =~= old(runner).replies());
    match reply {
        Err(e) => Err(CommandError::Runner(e)),
        Ok(output) => check_output(args.as_slice(), output),
    }
}

/// Small Herdr CLI wrapper that validates status and parses command responses.
pub struct HerdrCommands<'a, R> {
    herdr_bin: &'a str,
    runner: &'a mut R,
}

impl<'a, R: CommandRunner> HerdrCommands<'a, R> {
    /// The runner the commands run through, as it stands.
    pub closed spec fn runner(&self) -> R {
        *self.runner
    }

    /// Program every command runs.
    pub closed spec fn program(&self) -> Seq<char> {
        self.herdr_bin@
    }

    /// The runner's reply to the last command.
    pub open spec fn last_reply(&self) -> Result<CommandOutput, anyhow::Error> {
        self.runner().replies().last()
    }

    /// Whether, from `before` to `self`, the runner ran exactly one more
    /// command: the program with `args`.
    pub open spec fn ran_once(&self, before: &Self, args: Seq<Seq<char>>) -> bool {
        &&& self.program() == before.program()
        &&& ran_one(self.runner(), before.runner(), before.program(), args)
    }

    /// Commands run through `runner` with the Herdr binary `herdr_bin`.
    pub fn new(herdr_bin: &'a str, runner: &'a mut R) -> (commands: Self)
        ensures
            commands.program() == herdr_bin@,
            commands.runner() == *old(runner),
    {
        HerdrCommands { herdr_bin, runner }
    }

    /// Runs `herdr` with `args` and checks its status.
    fn run_checked_owned(&mut self, args: Vec<String>) -> (out: Result<Vec<u8>, CommandError>)
        ensures
            final(self).ran_once(old(self), texts(args@)),
            match out {
                Ok(b) => succeeded_with(final(self).last_reply(), b@),
                Err(e) => failed_reply(e, final(self).last_reply(), texts(args@)),
            },
    {
        run_checked(self.herdr_bin, self.runner, args)
    }

    /// Raw `pane layout --pane PANE` output.
    pub fn pane_layout(&mut self, pane: &PaneId) -> (out: Result<Vec<u8>, CommandError>)
        ensures
            final(self).ran_once(old(self), pane_layout_argv(pane.0@)),
            match out {
                Ok(b) => succeeded_with(final(self).last_reply(), b@),
                Err(e) => failed_reply(e, final(self).last_reply(), pane_layout_argv(pane.0@)),
            },
    {
        let args = pane_layout_args(pane);
        self.run_checked_owned(args)
    }

    /// The last `lines` recent unwrapped lines of a pane: the command's
    /// standard output, decoded lossily.
    pub fn pane_read_recent_unwrapped(&mut self, pane: &PaneId, lines: u16) -> (out: Result<String, CommandError>)
        ensures
            final(self).ran_once(old(self), pane_read_argv(pane.0@, "recent-unwrapped"@, lines as nat)),
            match out {
                Ok(text) => final(self).last_reply() matches Ok(o) && o.success && text@ == utf8_lossy(
                    o.stdout@,
                ),
                Err(e) => failed_reply(
                    e,
                    final(self).last_reply(),
                    pane_read_argv(pane.0@, "recent-unwrapped"@, lines as nat),
                ),
            },
    {
        match self.run_checked_owned(pane_read_args(pane, "recent-unwrapped", lines)) {
            Ok(stdout) => Ok(lossy_text(stdout.as_slice())),
            Err(e) => Err(e),
        }
    }

    /// The last `lines` visible rows of a pane: the command's standard
    /// output, decoded lossily.
    pub fn pane_read_visible(&mut self, pane: &PaneId, lines: u16) -> (out: Result<String, CommandError>)
        ensures
            final(self).ran_once(old(self), pane_read_argv(pane.0@, "visible"@, lines as nat)),
            match out {
                Ok(text) => final(self).last_reply() matches Ok(o) && o.success && text@ == utf8_lossy(
                    o.stdout@,
                ),
                Err(e) => failed_reply(
                    e,
                    final(self).last_reply(),
                    pane_read_argv(pane.0@, "visible"@, lines as nat),
                ),
            },
    {
        match self.run_checked_owned(pane_read_args(pane, "visible", lines)) {
            Ok(stdout) => Ok(lossy_text(stdout.as_slice())),
            Err(e) => Err(e),
        }
    }

    /// Opens a manifest-declared plugin overlay pane over the currently active pane.
    pub fn plugin_pane_open_overlay(
        &mut self,
        plugin_id: &str,
        entrypoint: &str,
        env: &[(&str, String)],
        focus: bool,
    ) -> (out: Result<(), CommandError>)
        ensures
            final(self).ran_once(
                old(self),
                overlay_argv(
                    plugin_id@,
                    entrypoint@,
                    env@.map_values(|e: (&str, String)| (e.0@, e.1@)),
                    focus,
                ),
            ),
            match out {
                Ok(_) => final(self).last_reply() matches Ok(o) && o.success,
                Err(e) => failed_reply(
                    e,
                    final(self).last_reply(),
                    overlay_argv(
                        plugin_id@,
                        entrypoint@,
                        env@.map_values(|e: (&str, String)| (e.0@, e.1@)),
                        focus,
                    ),
                ),
            },
    {
        match self.run_checked_owned(plugin_pane_open_overlay_args(plugin_id, entrypoint, env, focus)) {
            Ok(_) => Ok(()),
            Err(e) => Err(e),
        }
    }

    /// Returns Herdr's stable user-editable config directory for an
    /// installed plugin: the command's standard output decoded as UTF-8 and
    /// trimmed, as [`config_dir_from_stdout`] reads it.
    pub fn plugin_config_dir(&mut self, plugin_id: &str) -> (out: Result<std::path::PathBuf, CommandError>)
        ensures
            final(self).ran_once(old(self), config_dir_argv(plugin_id@)),
            match final(self).last_reply() {
                Ok(o) if o.success => if valid_utf8(o.stdout@) {
                    out matches Ok(p) && path_text(p) == trim_chars(decode_utf8(o.stdout@))
                } else {
                    out matches Err(e) && e is NotUtf8
                },
                _ => out matches Err(e) && failed_reply(e, final(self).last_reply(), config_dir_argv(plugin_id@)),
            },
    {
        match self.run_checked_owned(plugin_config_dir_args(plugin_id)) {
            Ok(stdout) => config_dir_from_stdout(stdout),
            Err(e) => Err(e),
        }
    }
}

} // verus!
