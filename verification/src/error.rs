//! What can go wrong, and the words in which it is reported.

use vstd::prelude::*;
use crate::number::NumberError;

verus! {

/// A failure. `S` is the type of the texts it carries: `String` in programs,
/// a sequence of characters in contracts.
#[derive(Debug)]
pub enum Failure<S> {
    /// A command line argument is not UTF-8.
    ArgumentNotUtf8,
    /// A command that takes no arguments was given one.
    ExtraArgument { argument: S, command: S },
    /// An option that takes a value stands last.
    MissingValue { name: S },
    /// The value of a port option is not a port number.
    NotAPort { name: S, reason: NumberError },
    /// `--help` stands among the connect options.
    HelpRequested,
    /// An option that `vssh` does not have.
    UnknownOption { flag: S },
    /// `--help` stands among the install-shim options.
    InstallShimHelp,
    /// An option that `vssh install-shim` does not have.
    UnknownInstallShimOption { flag: S },
    /// A second host.
    UnexpectedArgument { argument: S },
    /// No host was given.
    MissingHost,
    /// The raw SSH option `-p` stands last.
    MissingSshPort,
    /// The raw SSH options name a port that is not a port number.
    NotASshPort { value: S, reason: NumberError },
    /// A request without an Authorization header.
    MissingAuthorization,
    /// A request whose Authorization header is not text.
    UnreadableAuthorization,
    /// A request with another token.
    WrongToken,
    /// A request from a session with another host.
    HostMismatch { requested: S, expected: S },
    /// A request whose working directory is not absolute.
    RelativeCwd,
    /// `-g` or `--goto` stands last.
    MissingFile { flag: S },
    /// `--diff` is followed by fewer than two arguments.
    MissingDiffFiles,
    /// `--add` stands last.
    MissingFolder,
    /// A flag that remote `code` commands may not use.
    UnsupportedFlag { flag: S },
    /// The local program is to be searched for and there is no search path.
    PathNotSet { program: S },
    /// The local program is in no directory of the search path.
    ProgramNotFound { program: S },
    /// The local program could not be started.
    LocalNotStarted { program: S, resolved: S, cause: S },
    /// The local program failed.
    LocalFailed { program: S, status: S },
    /// The SSH program could not be started.
    SshNotStarted { program: S, cause: S },
    /// The SSH session failed.
    SshFailed { status: S },
    /// Installing the remote shim failed.
    InstallFailed { status: S },
}

pub type Error = Failure<String>;

/// What an `Error` says.
pub type ErrorView = Failure<Seq<char>>;

impl View for Failure<String> {
    type V = Failure<Seq<char>>;

    open spec fn view(&self) -> Failure<Seq<char>> {
        match self {
            Failure::ArgumentNotUtf8 => Failure::ArgumentNotUtf8,
            Failure::ExtraArgument { argument, command } => Failure::ExtraArgument {
                argument: argument@,
                command: command@,
            },
            Failure::MissingValue { name } => Failure::MissingValue { name: name@ },
            Failure::NotAPort { name, reason } => Failure::NotAPort {
                name: name@,
                reason: *reason,
            },
            Failure::HelpRequested => Failure::HelpRequested,
            Failure::UnknownOption { flag } => Failure::UnknownOption { flag: flag@ },
            Failure::InstallShimHelp => Failure::InstallShimHelp,
            Failure::UnknownInstallShimOption { flag } => Failure::UnknownInstallShimOption {
                flag: flag@,
            },
            Failure::UnexpectedArgument { argument } => Failure::UnexpectedArgument {
                argument: argument@,
            },
            Failure::MissingHost => Failure::MissingHost,
            Failure::MissingSshPort => Failure::MissingSshPort,
            Failure::NotASshPort { value, reason } => Failure::NotASshPort {
                value: value@,
                reason: *reason,
            },
            Failure::MissingAuthorization => Failure::MissingAuthorization,
            Failure::UnreadableAuthorization => Failure::UnreadableAuthorization,
            Failure::WrongToken => Failure::WrongToken,
            Failure::HostMismatch { requested, expected } => Failure::HostMismatch {
                requested: requested@,
                expected: expected@,
            },
            Failure::RelativeCwd => Failure::RelativeCwd,
            Failure::MissingFile { flag } => Failure::MissingFile { flag: flag@ },
            Failure::MissingDiffFiles => Failure::MissingDiffFiles,
            Failure::MissingFolder => Failure::MissingFolder,
            Failure::UnsupportedFlag { flag } => Failure::UnsupportedFlag { flag: flag@ },
            Failure::PathNotSet { program } => Failure::PathNotSet { program: program@ },
            Failure::ProgramNotFound { program } => Failure::ProgramNotFound { program: program@ },
            Failure::LocalNotStarted { program, resolved, cause } => Failure::LocalNotStarted {
                program: program@,
                resolved: resolved@,
                cause: cause@,
            },
            Failure::LocalFailed { program, status } => Failure::LocalFailed {
                program: program@,
                status: status@,
            },
            Failure::SshNotStarted { program, cause } => Failure::SshNotStarted {
                program: program@,
                cause: cause@,
            },
            Failure::SshFailed { status } => Failure::SshFailed { status: status@ },
            Failure::InstallFailed { status } => Failure::InstallFailed { status: status@ },
        }
    }
}

impl Failure<Seq<char>> {
    /// The failure in words.
    pub open spec fn text(self) -> Seq<char> {
        match self {
            Failure::ArgumentNotUtf8 => "arguments must be valid UTF-8"@,
            Failure::ExtraArgument { argument, command } => {
                "unexpected argument `"@ + argument + "` for `"@ + command + "`"@
            },
            Failure::MissingValue { name } => name + " requires a value"@,
            Failure::NotAPort { name, .. } => name + " must be a TCP port number"@,
            Failure::HelpRequested => "use `vssh --help` for usage"@,
            Failure::UnknownOption { flag } => {
                "unknown vssh option `"@ + flag + "`; put raw ssh arguments after `--`"@
            },
            Failure::InstallShimHelp => {
                "usage: vssh install-shim [--ssh-bin PATH] <host> [-- raw ssh args]"@
            },
            Failure::UnknownInstallShimOption { flag } => {
                "unknown install-shim option `"@ + flag + "`; put raw ssh arguments after `--`"@
            },
            Failure::UnexpectedArgument { argument } => {
                "unexpected argument `"@ + argument + "`; put raw ssh arguments after `--`"@
            },
            Failure::MissingHost => "missing SSH host"@,
            Failure::MissingSshPort => "SSH option `-p` requires a port"@,
            Failure::NotASshPort { value, .. } => {
                "SSH port `"@ + value + "` is not a TCP port number"@
            },
            Failure::MissingAuthorization => "missing Authorization header"@,
            Failure::UnreadableAuthorization => "Authorization header is not valid UTF-8"@,
            Failure::WrongToken => "invalid Authorization token"@,
            Failure::HostMismatch { requested, expected } => {
                "remote host mismatch: request used `"@ + requested + "`, bridge expects `"@
                    + expected + "`"@
            },
            Failure::RelativeCwd => "cwd must be an absolute remote path"@,
            Failure::MissingFile { flag } => flag + " requires a file argument"@,
            Failure::MissingDiffFiles => "--diff requires two file arguments"@,
            Failure::MissingFolder => "--add requires a folder argument"@,
            Failure::UnsupportedFlag { flag } => "unsupported code flag `"@ + flag + "`"@,
            Failure::PathNotSet { program } => {
                "local `"@ + program + "` not found because PATH is not set"@
            },
            Failure::ProgramNotFound { program } => {
                "local `"@ + program
                    + "` not found in PATH; set --code-bin or VSSH_CODE to the VS Code CLI path"@
            },
            Failure::LocalNotStarted { program, resolved, .. } => {
                "failed to start local `"@ + program + "` resolved as `"@ + resolved + "`"@
            },
            Failure::LocalFailed { program, status } => {
                "local `"@ + program + "` exited with status "@ + status
            },
            Failure::SshNotStarted { program, .. } => "failed to start `"@ + program + "`"@,
            Failure::SshFailed { status } => "ssh exited with status "@ + status,
            Failure::InstallFailed { status } => "install-shim failed with status "@ + status,
        }
    }

    /// What the failure goes back to, in words, where it is another error.
    pub open spec fn cause_text(self) -> Option<Seq<char>> {
        match self {
            Failure::NotAPort { reason, .. } => Some(reason.text()),
            Failure::NotASshPort { reason, .. } => Some(reason.text()),
            Failure::UnreadableAuthorization => Some("failed to convert header to a str"@),
            Failure::LocalNotStarted { cause, .. } => Some(cause),
            Failure::SshNotStarted { cause, .. } => Some(cause),
            _ => None,
        }
    }

    /// The failure and what it goes back to, on one line.
    pub open spec fn report_text(self) -> Seq<char> {
        match self.cause_text() {
            Some(cause) => self.text() + ": "@ + cause,
            None => self.text(),
        }
    }
}

impl Failure<String> {
    /// The failure in words.
    pub fn message(&self) -> (r: String)
        ensures
            r@ == self@.text(),
    {
        match self {
            Failure::ArgumentNotUtf8 => "arguments must be valid UTF-8".to_owned(),
            Failure::ExtraArgument { argument, command } => {
                "unexpected argument `".to_owned().concat(argument.as_str()).concat("` for `")
                    .concat(command.as_str()).concat("`")
            },
            Failure::MissingValue { name } => name.clone().concat(" requires a value"),
            Failure::NotAPort { name, .. } => name.clone().concat(" must be a TCP port number"),
            Failure::HelpRequested => "use `vssh --help` for usage".to_owned(),
            Failure::UnknownOption { flag } => {
                "unknown vssh option `".to_owned().concat(flag.as_str())
                    .concat("`; put raw ssh arguments after `--`")
            },
            Failure::InstallShimHelp => {
                "usage: vssh install-shim [--ssh-bin PATH] <host> [-- raw ssh args]".to_owned()
            },
            Failure::UnknownInstallShimOption { flag } => {
                "unknown install-shim option `".to_owned().concat(flag.as_str())
                    .concat("`; put raw ssh arguments after `--`")
            },
            Failure::UnexpectedArgument { argument } => {
                "unexpected argument `".to_owned().concat(argument.as_str())
                    .concat("`; put raw ssh arguments after `--`")
            },
            Failure::MissingHost => "missing SSH host".to_owned(),
            Failure::MissingSshPort => "SSH option `-p` requires a port".to_owned(),
            Failure::NotASshPort { value, .. } => {
                "SSH port `".to_owned().concat(value.as_str()).concat("` is not a TCP port number")
            },
            Failure::MissingAuthorization => "missing Authorization header".to_owned(),
            Failure::UnreadableAuthorization => {
                "Authorization header is not valid UTF-8".to_owned()
            },
            Failure::WrongToken => "invalid Authorization token".to_owned(),
            Failure::HostMismatch { requested, expected } => {
                "remote host mismatch: request used `".to_owned().concat(requested.as_str())
                    .concat("`, bridge expects `").concat(expected.as_str()).concat("`")
            },
            Failure::RelativeCwd => "cwd must be an absolute remote path".to_owned(),
            Failure::MissingFile { flag } => flag.clone().concat(" requires a file argument"),
            Failure::MissingDiffFiles => "--diff requires two file arguments".to_owned(),
            Failure::MissingFolder => "--add requires a folder argument".to_owned(),
            Failure::UnsupportedFlag { flag } => {
                "unsupported code flag `".to_owned().concat(flag.as_str()).concat("`")
            },
            Failure::PathNotSet { program } => {
                "local `".to_owned().concat(program.as_str())
                    .concat("` not found because PATH is not set")
            },
            Failure::ProgramNotFound { program } => {
                "local `".to_owned().concat(program.as_str())
                    .concat("` not found in PATH; set --code-bin or VSSH_CODE to the VS Code CLI path")
            },
            Failure::LocalNotStarted { program, resolved, .. } => {
                "failed to start local `".to_owned().concat(program.as_str())
                    .concat("` resolved as `").concat(resolved.as_str()).concat("`")
            },
            Failure::LocalFailed { program, status } => {
                "local `".to_owned().concat(program.as_str()).concat("` exited with status ")
                    .concat(status.as_str())
            },
            Failure::SshNotStarted { program, .. } => {
                "failed to start `".to_owned().concat(program.as_str()).concat("`")
            },
            Failure::SshFailed { status } => {
                "ssh exited with status ".to_owned().concat(status.as_str())
            },
            Failure::InstallFailed { status } => {
                "install-shim failed with status ".to_owned().concat(status.as_str())
            },
        }
    }

    /// What the failure goes back to, in words, where it is another error.
    pub fn cause(&self) -> (r: Option<String>)
        ensures
            match r {
                Some(cause) => self@.cause_text() == Some(cause@),
                None => self@.cause_text() is None,
            },
    {
        match self {
            Failure::NotAPort { reason, .. } => Some(reason.describe()),
            Failure::NotASshPort { reason, .. } => Some(reason.describe()),
            Failure::UnreadableAuthorization => {
                Some("failed to convert header to a str".to_owned())
            },
            Failure::LocalNotStarted { cause, .. } => Some(cause.clone()),
            Failure::SshNotStarted { cause, .. } => Some(cause.clone()),
            _ => None,
        }
    }

    /// The failure and what it goes back to, on one line.
    pub fn report(&self) -> (r: String)
        ensures
            r@ == self@.report_text(),
    {
        let message = self.message();
        match self.cause() {
            Some(cause) => message.concat(": ").concat(cause.as_str()),
            None => message,
        }
    }
}

/// Whether `part` stands somewhere in `s`.
pub open spec fn names(s: Seq<char>, part: Seq<char>) -> bool {
    exists|before: Seq<char>, after: Seq<char>| s == #[trigger] (before + part + after)
}

proof fn lemma_names(before: Seq<char>, part: Seq<char>, after: Seq<char>)
    ensures
        names(before + part + after, part),
{
}

/// The message of a failure names what it is about: the argument, the option,
/// the program, the host, or the exit status.
pub proof fn law_messages_name_their_subject(
    a: Seq<char>,
    b: Seq<char>,
    c: Seq<char>,
    reason: NumberError,
)
    ensures
        names((Failure::ExtraArgument { argument: a, command: b }).text(), a),
        names((Failure::MissingValue { name: a }).text(), a),
        names((Failure::NotAPort { name: a, reason }).text(), a),
        names((Failure::UnknownOption { flag: a }).text(), a),
        names((Failure::UnknownInstallShimOption { flag: a }).text(), a),
        names((Failure::UnexpectedArgument { argument: a }).text(), a),
        names((Failure::NotASshPort { value: a, reason }).text(), a),
        names((Failure::HostMismatch { requested: a, expected: b }).text(), a),
        names((Failure::HostMismatch { requested: a, expected: b }).text(), b),
        names((Failure::MissingFile { flag: a }).text(), a),
        names((Failure::UnsupportedFlag { flag: a }).text(), a),
        names((Failure::PathNotSet { program: a }).text(), a),
        names((Failure::ProgramNotFound { program: a }).text(), a),
        names((Failure::LocalNotStarted { program: a, resolved: b, cause: c }).text(), a),
        names((Failure::LocalNotStarted { program: a, resolved: b, cause: c }).text(), b),
        names((Failure::LocalFailed { program: a, status: b }).text(), a),
        names((Failure::LocalFailed { program: a, status: b }).text(), b),
        names((Failure::SshNotStarted { program: a, cause: c }).text(), a),
        names((Failure::SshFailed { status: a }).text(), a),
        names((Failure::InstallFailed { status: a }).text(), a),
{
    let empty = Seq::<char>::empty();
    let tail = "` for `"@ + b + "`"@;
    lemma_names("unexpected argument `"@, a, tail);
    assert("unexpected argument `"@ + a + tail == (Failure::ExtraArgument {
        argument: a,
        command: b,
    }).text());
    lemma_names(empty, a, " requires a value"@);
    assert(empty + a + " requires a value"@ == a + " requires a value"@);
    lemma_names(empty, a, " must be a TCP port number"@);
    assert(empty + a + " must be a TCP port number"@ == a + " must be a TCP port number"@);
    lemma_names(empty, a, " requires a file argument"@);
    assert(empty + a + " requires a file argument"@ == a + " requires a file argument"@);
    let tail = "`, bridge expects `"@ + b + "`"@;
    lemma_names("remote host mismatch: request used `"@, a, tail);
    assert("remote host mismatch: request used `"@ + a + tail == (Failure::HostMismatch {
        requested: a,
        expected: b,
    }).text());
    let tail = "` resolved as `"@ + b + "`"@;
    lemma_names("failed to start local `"@, a, tail);
    assert("failed to start local `"@ + a + tail == (Failure::LocalNotStarted {
        program: a,
        resolved: b,
        cause: c,
    }).text());
    let tail = "` exited with status "@ + b;
    lemma_names("local `"@, a, tail);
    assert("local `"@ + a + tail == (Failure::LocalFailed { program: a, status: b }).text());
    let head = "local `"@ + a + "` exited with status "@;
    lemma_names(head, b, empty);
    assert(head + b + empty == head + b);
    lemma_names("ssh exited with status "@, a, empty);
    assert("ssh exited with status "@ + a + empty == "ssh exited with status "@ + a);
    lemma_names("install-shim failed with status "@, a, empty);
    assert("install-shim failed with status "@ + a + empty == "install-shim failed with status "@
        + a);
}

/// The one-line report of a failure is its message, followed by its cause
/// where it has one: that of starting a program, or why a text is no number.
pub proof fn law_reports_hold_the_cause(
    program: Seq<char>,
    resolved: Seq<char>,
    cause: Seq<char>,
    value: Seq<char>,
    reason: NumberError,
)
    ensures
        ({
            let local = Failure::LocalNotStarted { program, resolved, cause };
            let ssh = Failure::SshNotStarted { program, cause };
            let port = Failure::NotAPort { name: value, reason };
            let ssh_port = Failure::NotASshPort { value, reason };
            &&& local.report_text() == local.text() + ": "@ + cause
            &&& ssh.report_text() == ssh.text() + ": "@ + cause
            &&& port.report_text() == port.text() + ": "@ + reason.text()
            &&& ssh_port.report_text() == ssh_port.text() + ": "@ + reason.text()
        }),
{
}

} // verus!
