//! The command line of `vssh`.

use vstd::prelude::*;
use crate::error::{Error, ErrorView, Failure};
use crate::number::{self, parse_u16};
use crate::text::{self, same, starts_with, tail_of};

verus! {

/// The environment variables that set defaults, where they are set.
#[derive(Debug)]
pub struct Environment {
    /// `VSSH_SSH`
    pub ssh: Option<String>,
    /// `VSSH_CODE`
    pub code: Option<String>,
}

impl Environment {
    /// The SSH program where no option names one.
    pub open spec fn default_ssh(self) -> Seq<char> {
        match self.ssh {
            Some(program) => program@,
            None => "ssh"@,
        }
    }

    /// The VS Code program where no option names one.
    pub open spec fn default_code(self) -> Seq<char> {
        match self.code {
            Some(program) => program@,
            None => "code"@,
        }
    }

    fn ssh_program(&self) -> (r: String)
        ensures
            r@ == self.default_ssh(),
    {
        match &self.ssh {
            Some(program) => program.clone(),
            None => "ssh".to_owned(),
        }
    }

    fn code_program(&self) -> (r: String)
        ensures
            r@ == self.default_code(),
    {
        match &self.code {
            Some(program) => program.clone(),
            None => "code".to_owned(),
        }
    }
}

/// What a session is started with.
#[derive(Debug)]
pub struct ConnectOptions {
    pub host: String,
    pub code_host: String,
    pub local_port: Option<u16>,
    pub remote_port: Option<u16>,
    pub quiet: bool,
    pub ssh_bin: String,
    pub code_bin: String,
    pub ssh_args: Vec<String>,
}

/// What `ConnectOptions` hold.
pub struct ConnectView {
    pub host: Seq<char>,
    pub code_host: Seq<char>,
    pub local_port: Option<u16>,
    pub remote_port: Option<u16>,
    pub quiet: bool,
    pub ssh_bin: Seq<char>,
    pub code_bin: Seq<char>,
    pub ssh_args: Seq<Seq<char>>,
}

impl View for ConnectOptions {
    type V = ConnectView;

    open spec fn view(&self) -> ConnectView {
        ConnectView {
            host: self.host@,
            code_host: self.code_host@,
            local_port: self.local_port,
            remote_port: self.remote_port,
            quiet: self.quiet,
            ssh_bin: self.ssh_bin@,
            code_bin: self.code_bin@,
            ssh_args: text::texts(self.ssh_args@),
        }
    }
}

/// What the remote shim is installed with.
#[derive(Debug)]
pub struct InstallShimOptions {
    pub host: String,
    pub ssh_bin: String,
    pub ssh_args: Vec<String>,
}

/// What `InstallShimOptions` hold.
pub struct InstallShimView {
    pub host: Seq<char>,
    pub ssh_bin: Seq<char>,
    pub ssh_args: Seq<Seq<char>>,
}

impl View for InstallShimOptions {
    type V = InstallShimView;

    open spec fn view(&self) -> InstallShimView {
        InstallShimView {
            host: self.host@,
            ssh_bin: self.ssh_bin@,
            ssh_args: text::texts(self.ssh_args@),
        }
    }
}

/// What a command line asks for.
#[derive(Debug)]
pub enum Cli {
    Connect(ConnectOptions),
    InstallShim(InstallShimOptions),
    PrintShim,
    Help,
}

/// What a `Cli` holds.
pub enum CliView {
    Connect(ConnectView),
    InstallShim(InstallShimView),
    PrintShim,
    Help,
}

impl View for Cli {
    type V = CliView;

    open spec fn view(&self) -> CliView {
        match self {
            Cli::Connect(options) => CliView::Connect(options@),
            Cli::InstallShim(options) => CliView::InstallShim(options@),
            Cli::PrintShim => CliView::PrintShim,
            Cli::Help => CliView::Help,
        }
    }
}

/// The value that follows the option `name`.
pub open spec fn required_value(value: Option<Seq<char>>, name: Seq<char>) -> Result<
    Seq<char>,
    ErrorView,
> {
    match value {
        Some(s) => Ok(s),
        None => Err(Failure::MissingValue { name }),
    }
}

/// The port that follows the option `name`.
pub open spec fn required_port(value: Option<Seq<char>>, name: Seq<char>) -> Result<
    u16,
    ErrorView,
> {
    match value {
        Some(s) => match number::read_u16(s) {
            Ok(port) => Ok(port),
            Err(reason) => Err(Failure::NotAPort { name, reason }),
        },
        None => Err(Failure::MissingValue { name }),
    }
}

/// The argument after the first one.
pub open spec fn second(args: Seq<Seq<char>>) -> Option<Seq<char>> {
    if args.len() >= 2 {
        Some(args[1])
    } else {
        None
    }
}

/// Options for a session, as far as they have been read.
pub struct ConnectDraftView {
    pub host: Option<Seq<char>>,
    pub code_host: Option<Seq<char>>,
    pub local_port: Option<u16>,
    pub remote_port: Option<u16>,
    pub quiet: bool,
    pub ssh_bin: Seq<char>,
    pub code_bin: Seq<char>,
    pub ssh_args: Seq<Seq<char>>,
}

impl ConnectDraftView {
    /// What holds where no option says otherwise.
    pub open spec fn start(env: Environment) -> ConnectDraftView {
        ConnectDraftView {
            host: None,
            code_host: None,
            local_port: None,
            remote_port: None,
            quiet: false,
            ssh_bin: env.default_ssh(),
            code_bin: env.default_code(),
            ssh_args: Seq::empty(),
        }
    }

    /// The draft after reading `args`: each option takes effect in turn, and
    /// after `--` come the raw SSH arguments.
    pub open spec fn read(self, args: Seq<Seq<char>>) -> Result<ConnectDraftView, ErrorView>
        decreases args.len(),
    {
        if args.len() == 0 {
            Ok(self)
        } else {
            let arg = args[0];
            if arg == "--"@ {
                Ok(ConnectDraftView { ssh_args: args.skip(1), ..self })
            } else if arg == "--local-port"@ {
                match required_port(second(args), arg) {
                    Ok(port) => ConnectDraftView { local_port: Some(port), ..self }.read(
                        args.skip(2),
                    ),
                    Err(e) => Err(e),
                }
            } else if arg == "--remote-port"@ {
                match required_port(second(args), arg) {
                    Ok(port) => ConnectDraftView { remote_port: Some(port), ..self }.read(
                        args.skip(2),
                    ),
                    Err(e) => Err(e),
                }
            } else if arg == "--code-host"@ {
                match required_value(second(args), arg) {
                    Ok(value) => ConnectDraftView { code_host: Some(value), ..self }.read(
                        args.skip(2),
                    ),
                    Err(e) => Err(e),
                }
            } else if arg == "--ssh-bin"@ {
                match required_value(second(args), arg) {
                    Ok(value) => ConnectDraftView { ssh_bin: value, ..self }.read(args.skip(2)),
                    Err(e) => Err(e),
                }
            } else if arg == "--code-bin"@ {
                match required_value(second(args), arg) {
                    Ok(value) => ConnectDraftView { code_bin: value, ..self }.read(args.skip(2)),
                    Err(e) => Err(e),
                }
            } else if arg == "-q"@ || arg == "--quiet"@ {
                ConnectDraftView { quiet: true, ..self }.read(args.skip(1))
            } else if arg == "-h"@ || arg == "--help"@ {
                Err(Failure::HelpRequested)
            } else if text::begins_with(arg, '-') {
                Err(Failure::UnknownOption { flag: arg })
            } else if self.host is Some {
                Err(Failure::UnexpectedArgument { argument: arg })
            } else {
                ConnectDraftView { host: Some(arg), ..self }.read(args.skip(1))
            }
        }
    }

    /// The options, once everything has been read: the VS Code alias is the
    /// host unless another one was given.
    pub open spec fn finish(self) -> Result<ConnectView, ErrorView> {
        match self.host {
            None => Err(Failure::MissingHost),
            Some(host) => Ok(
                ConnectView {
                    host,
                    code_host: match self.code_host {
                        Some(alias) => alias,
                        None => host,
                    },
                    local_port: self.local_port,
                    remote_port: self.remote_port,
                    quiet: self.quiet,
                    ssh_bin: self.ssh_bin,
                    code_bin: self.code_bin,
                    ssh_args: self.ssh_args,
                },
            ),
        }
    }
}

/// The options that `args` give a session.
pub open spec fn connect_options(args: Seq<Seq<char>>, env: Environment) -> Result<
    ConnectView,
    ErrorView,
> {
    match ConnectDraftView::start(env).read(args) {
        Ok(draft) => draft.finish(),
        Err(e) => Err(e),
    }
}

/// Options for installing the shim, as far as they have been read.
pub struct InstallDraftView {
    pub host: Option<Seq<char>>,
    pub ssh_bin: Seq<char>,
    pub ssh_args: Seq<Seq<char>>,
}

impl InstallDraftView {
    /// What holds where no option says otherwise.
    pub open spec fn start(env: Environment) -> InstallDraftView {
        InstallDraftView { host: None, ssh_bin: env.default_ssh(), ssh_args: Seq::empty() }
    }

    /// The draft after reading `args`.
    pub open spec fn read(self, args: Seq<Seq<char>>) -> Result<InstallDraftView, ErrorView>
        decreases args.len(),
    {
        if args.len() == 0 {
            Ok(self)
        } else {
            let arg = args[0];
            if arg == "--"@ {
                Ok(InstallDraftView { ssh_args: args.skip(1), ..self })
            } else if arg == "--ssh-bin"@ {
                match required_value(second(args), arg) {
                    Ok(value) => InstallDraftView { ssh_bin: value, ..self }.read(args.skip(2)),
                    Err(e) => Err(e),
                }
            } else if arg == "-h"@ || arg == "--help"@ {
                Err(Failure::InstallShimHelp)
            } else if text::begins_with(arg, '-') {
                Err(Failure::UnknownInstallShimOption { flag: arg })
            } else if self.host is Some {
                Err(Failure::UnexpectedArgument { argument: arg })
            } else {
                InstallDraftView { host: Some(arg), ..self }.read(args.skip(1))
            }
        }
    }

    /// The options, once everything has been read.
    pub open spec fn finish(self) -> Result<InstallShimView, ErrorView> {
        match self.host {
            None => Err(Failure::MissingHost),
            Some(host) => Ok(
                InstallShimView { host, ssh_bin: self.ssh_bin, ssh_args: self.ssh_args },
            ),
        }
    }
}

/// The options that `args` give for installing the shim.
pub open spec fn install_shim_options(args: Seq<Seq<char>>, env: Environment) -> Result<
    InstallShimView,
    ErrorView,
> {
    match InstallDraftView::start(env).read(args) {
        Ok(draft) => draft.finish(),
        Err(e) => Err(e),
    }
}

/// What a command line of texts asks for.
pub open spec fn command(args: Seq<Seq<char>>, env: Environment) -> Result<CliView, ErrorView> {
    if args.len() == 0 || args[0] == "-h"@ || args[0] == "--help"@ || args[0] == "help"@ {
        Ok(CliView::Help)
    } else if args[0] == "print-shim"@ {
        if args.len() > 1 {
            Err(Failure::ExtraArgument { argument: args[1], command: "print-shim"@ })
        } else {
            Ok(CliView::PrintShim)
        }
    } else if args[0] == "install-shim"@ {
        match install_shim_options(args.skip(1), env) {
            Ok(options) => Ok(CliView::InstallShim(options)),
            Err(e) => Err(e),
        }
    } else {
        match connect_options(args, env) {
            Ok(options) => Ok(CliView::Connect(options)),
            Err(e) => Err(e),
        }
    }
}

/// What a command line asks for; an argument that is not UTF-8 is `None`.
pub open spec fn command_line(args: Seq<Option<String>>, env: Environment) -> Result<
    CliView,
    ErrorView,
> {
    if exists|i: int| 0 <= i < args.len() && #[trigger] args[i] is None {
        Err(Failure::ArgumentNotUtf8)
    } else {
        command(Seq::new(args.len(), |i: int| args[i]->0@), env)
    }
}

/// The value of the option `name`.
pub fn parse_value<'a>(value: Option<&'a String>, name: &str) -> (r: Result<&'a str, Error>)
    ensures
        ({
            let given = match value {
                Some(s) => Some(s@),
                None => None,
            };
            match r {
                Ok(s) => required_value(given, name@) == Ok::<Seq<char>, ErrorView>(s@),
                Err(e) => required_value(given, name@) == Err::<Seq<char>, ErrorView>(e@),
            }
        }),
{
    match value {
        Some(s) => Ok(s.as_str()),
        None => Err(Failure::MissingValue { name: name.to_owned() }),
    }
}

/// The value of the port option `name`.
pub fn parse_port(value: Option<&String>, name: &str) -> (r: Result<u16, Error>)
    ensures
        ({
            let given = match value {
                Some(s) => Some(s@),
                None => None,
            };
            match r {
                Ok(port) => required_port(given, name@) == Ok::<u16, ErrorView>(port),
                Err(e) => required_port(given, name@) == Err::<u16, ErrorView>(e@),
            }
        }),
{
    let s = match parse_value(value, name) {
        Ok(s) => s,
        Err(e) => {
            return Err(e);
        },
    };
    match parse_u16(s) {
        Ok(port) => Ok(port),
        Err(reason) => Err(Failure::NotAPort { name: name.to_owned(), reason }),
    }
}

/// Rejects arguments to a command that takes none.
pub fn ensure_no_extra(args: &[String], command: &str) -> (r: Result<(), Error>)
    ensures
        match r {
            Ok(_) => args@.len() == 0,
            Err(e) => args@.len() > 0 && e@ == (Failure::ExtraArgument {
                argument: args@[0]@,
                command: command@,
            }),
        },
{
    if args.len() > 0 {
        return Err(
            Failure::ExtraArgument { argument: args[0].clone(), command: command.to_owned() },
        );
    }
    Ok(())
}

fn value_at(args: &[String], i: usize) -> (r: Option<&String>)
    ensures
        match r {
            Some(s) => i < args@.len() && s@ == args@[i as int]@,
            None => i >= args@.len(),
        },
{
    if i < args.len() {
        Some(&args[i])
    } else {
        None
    }
}

struct ConnectDraft {
    host: Option<String>,
    code_host: Option<String>,
    local_port: Option<u16>,
    remote_port: Option<u16>,
    quiet: bool,
    ssh_bin: String,
    code_bin: String,
    ssh_args: Vec<String>,
}

impl View for ConnectDraft {
    type V = ConnectDraftView;

    closed spec fn view(&self) -> ConnectDraftView {
        ConnectDraftView {
            host: text::text_in(self.host),
            code_host: text::text_in(self.code_host),
            local_port: self.local_port,
            remote_port: self.remote_port,
            quiet: self.quiet,
            ssh_bin: self.ssh_bin@,
            code_bin: self.code_bin@,
            ssh_args: text::texts(self.ssh_args@),
        }
    }
}

/// Reads the options of a session.
pub fn parse_connect(args: &[String], env: &Environment) -> (r: Result<ConnectOptions, Error>)
    ensures
        match r {
            Ok(options) => connect_options(text::texts(args@), *env) == Ok::<
                ConnectView,
                ErrorView,
            >(options@),
            Err(e) => connect_options(text::texts(args@), *env) == Err::<ConnectView, ErrorView>(
                e@,
            ),
        },
{
    let ghost all = text::texts(args@);
    let ghost whole = ConnectDraftView::start(*env).read(all);
    let mut draft = ConnectDraft {
        host: None,
        code_host: None,
        local_port: None,
        remote_port: None,
        quiet: false,
        ssh_bin: env.ssh_program(),
        code_bin: env.code_program(),
        ssh_args: Vec::new(),
    };
    assert(text::texts(draft.ssh_args@) == Seq::<Seq<char>>::empty());
    assert(draft@ == ConnectDraftView::start(*env));
    let mut i: usize = 0;
    assert(all.skip(0) == all);
    while i < args.len()
        invariant_except_break
            whole == draft@.read(all.skip(i as int)),
        invariant
            i <= args.len(),
            all == text::texts(args@),
            whole == ConnectDraftView::start(*env).read(all),
        ensures
            whole == Ok::<ConnectDraftView, ErrorView>(draft@),
        decreases args.len() - i,
    {
        let ghost rest = all.skip(i as int);
        let arg = args[i].as_str();
        assert(rest[0] == arg@);
        assert(rest.skip(1) == all.skip(i + 1));
        assert(rest.len() >= 2 ==> rest.skip(2) == all.skip(i + 2) && rest[1] == args@[i + 1]@);
        if same(arg, "--") {
            draft.ssh_args = tail_of(args, i + 1);
            break;
        } else if same(arg, "--local-port") {
            match parse_port(value_at(args, i + 1), "--local-port") {
                Ok(port) => {
                    draft.local_port = Some(port);
                },
                Err(e) => {
                    return Err(e);
                },
            }
            i += 1;
        } else if same(arg, "--remote-port") {
            match parse_port(value_at(args, i + 1), "--remote-port") {
                Ok(port) => {
                    draft.remote_port = Some(port);
                },
                Err(e) => {
                    return Err(e);
                },
            }
            i += 1;
        } else if same(arg, "--code-host") {
            match parse_value(value_at(args, i + 1), "--code-host") {
                Ok(value) => {
                    draft.code_host = Some(value.to_owned());
                },
                Err(e) => {
                    return Err(e);
                },
            }
            i += 1;
        } else if same(arg, "--ssh-bin") {
            match parse_value(value_at(args, i + 1), "--ssh-bin") {
                Ok(value) => {
                    draft.ssh_bin = value.to_owned();
                },
                Err(e) => {
                    return Err(e);
                },
            }
            i += 1;
        } else if same(arg, "--code-bin") {
            match parse_value(value_at(args, i + 1), "--code-bin") {
                Ok(value) => {
                    draft.code_bin = value.to_owned();
                },
                Err(e) => {
                    return Err(e);
                },
            }
            i += 1;
        } else if same(arg, "-q") || same(arg, "--quiet") {
            draft.quiet = true;
        } else if same(arg, "-h") || same(arg, "--help") {
            return Err(Failure::HelpRequested);
        } else if starts_with(arg, '-') {
            return Err(Failure::UnknownOption { flag: args[i].clone() });
        } else {
            if draft.host.is_some() {
                return Err(Failure::UnexpectedArgument { argument: args[i].clone() });
            }
            draft.host = Some(args[i].clone());
        }
        i += 1;
    }
    let host = match draft.host {
        Some(host) => host,
        None => {
            return Err(Failure::MissingHost);
        },
    };
    let code_host = match draft.code_host {
        Some(alias) => alias,
        None => host.clone(),
    };
    Ok(
        ConnectOptions {
            host,
            code_host,
            local_port: draft.local_port,
            remote_port: draft.remote_port,
            quiet: draft.quiet,
            ssh_bin: draft.ssh_bin,
            code_bin: draft.code_bin,
            ssh_args: draft.ssh_args,
        },
    )
}

struct InstallDraft {
    host: Option<String>,
    ssh_bin: String,
    ssh_args: Vec<String>,
}

impl View for InstallDraft {
    type V = InstallDraftView;

    closed spec fn view(&self) -> InstallDraftView {
        InstallDraftView {
            host: text::text_in(self.host),
            ssh_bin: self.ssh_bin@,
            ssh_args: text::texts(self.ssh_args@),
        }
    }
}

/// Reads the options for installing the shim.
pub fn parse_install_shim(args: &[String], env: &Environment) -> (r: Result<
    InstallShimOptions,
    Error,
>)
    ensures
        match r {
            Ok(options) => install_shim_options(text::texts(args@), *env) == Ok::<
                InstallShimView,
                ErrorView,
            >(options@),
            Err(e) => install_shim_options(text::texts(args@), *env) == Err::<
                InstallShimView,
                ErrorView,
            >(e@),
        },
{
    let ghost all = text::texts(args@);
    let ghost whole = InstallDraftView::start(*env).read(all);
    let mut draft = InstallDraft { host: None, ssh_bin: env.ssh_program(), ssh_args: Vec::new() };
    assert(text::texts(draft.ssh_args@) == Seq::<Seq<char>>::empty());
    assert(draft@ == InstallDraftView::start(*env));
    let mut i: usize = 0;
    assert(all.skip(0) == all);
    while i < args.len()
        invariant_except_break
            whole == draft@.read(all.skip(i as int)),
        invariant
            i <= args.len(),
            all == text::texts(args@),
            whole == InstallDraftView::start(*env).read(all),
        ensures
            whole == Ok::<InstallDraftView, ErrorView>(draft@),
        decreases args.len() - i,
    {
        let ghost rest = all.skip(i as int);
        let arg = args[i].as_str();
        assert(rest[0] == arg@);
        assert(rest.skip(1) == all.skip(i + 1));
        assert(rest.len() >= 2 ==> rest.skip(2) == all.skip(i + 2) && rest[1] == args@[i + 1]@);
        if same(arg, "--") {
            draft.ssh_args = tail_of(args, i + 1);
            break;
        } else if same(arg, "--ssh-bin") {
            match parse_value(value_at(args, i + 1), "--ssh-bin") {
                Ok(value) => {
                    draft.ssh_bin = value.to_owned();
                },
                Err(e) => {
                    return Err(e);
                },
            }
            i += 1;
        } else if same(arg, "-h") || same(arg, "--help") {
            return Err(Failure::InstallShimHelp);
        } else if starts_with(arg, '-') {
            return Err(Failure::UnknownInstallShimOption { flag: args[i].clone() });
        } else {
            if draft.host.is_some() {
                return Err(Failure::UnexpectedArgument { argument: args[i].clone() });
            }
            draft.host = Some(args[i].clone());
        }
        i += 1;
    }
    match draft.host {
        Some(host) => Ok(
            InstallShimOptions { host, ssh_bin: draft.ssh_bin, ssh_args: draft.ssh_args },
        ),
        None => Err(Failure::MissingHost),
    }
}

impl Cli {
    /// Reads a command line; an argument that is not UTF-8 is `None`.
    pub fn parse(args: Vec<Option<String>>, env: &Environment) -> (r: Result<Cli, Error>)
        ensures
            match r {
                Ok(cli) => command_line(args@, *env) == Ok::<CliView, ErrorView>(cli@),
                Err(e) => command_line(args@, *env) == Err::<CliView, ErrorView>(e@),
            },
    {
        let mut list: Vec<String> = Vec::new();
        let mut i: usize = 0;
        while i < args.len()
            invariant
                i <= args.len(),
                list@.len() == i,
                forall|j: int| 0 <= j < i ==> #[trigger] args@[j] is Some,
                forall|j: int| 0 <= j < i ==> #[trigger] list@[j]@ == args@[j]->0@,
            decreases args.len() - i,
        {
            match &args[i] {
                Some(arg) => {
                    list.push(arg.clone());
                },
                None => {
                    assert(args@[i as int] is None);
                    return Err(Failure::ArgumentNotUtf8);
                },
            }
            i += 1;
        }
        let ghost all = Seq::new(args@.len(), |j: int| args@[j]->0@);
        assert(text::texts(list@) == all);
        assert(command_line(args@, *env) == command(all, *env));
        if list.len() == 0 {
            return Ok(Cli::Help);
        }
        let first = list[0].as_str();
        assert(all[0] == first@);
        if same(first, "-h") || same(first, "--help") || same(first, "help") {
            return Ok(Cli::Help);
        }
        let rest = vstd::slice::slice_subrange(&list, 1, list.len());
        assert(text::texts(rest@) == all.skip(1));
        if same(first, "print-shim") {
            match ensure_no_extra(rest, "print-shim") {
                Ok(_) => Ok(Cli::PrintShim),
                Err(e) => {
                    assert(rest@[0] == list@[1]);
                    Err(e)
                },
            }
        } else if same(first, "install-shim") {
            match parse_install_shim(rest, env) {
                Ok(options) => Ok(Cli::InstallShim(options)),
                Err(e) => Err(e),
            }
        } else {
            match parse_connect(&list, env) {
                Ok(options) => Ok(Cli::Connect(options)),
                Err(e) => Err(e),
            }
        }
    }
}

/// The options that take a value.
pub open spec fn takes_value(arg: Seq<char>) -> bool {
    arg == "--local-port"@ || arg == "--remote-port"@ || arg == "--code-host"@ || arg
        == "--ssh-bin"@ || arg == "--code-bin"@
}

/// Whether a `--` among `args` ends the options.
pub open spec fn ends_options(args: Seq<Seq<char>>) -> bool
    decreases args.len(),
{
    if args.len() == 0 {
        false
    } else if args[0] == "--"@ {
        true
    } else if takes_value(args[0]) {
        args.len() >= 2 && ends_options(args.skip(2))
    } else {
        ends_options(args.skip(1))
    }
}

/// Options are read one after the other: reading some and then others is
/// reading them all.
pub proof fn law_connect_options_compose(
    draft: ConnectDraftView,
    before: Seq<Seq<char>>,
    after: Seq<Seq<char>>,
    read: ConnectDraftView,
)
    requires
        draft.read(before) == Ok::<ConnectDraftView, ErrorView>(read),
        !ends_options(before),
    ensures
        draft.read(before + after) == read.read(after),
    decreases before.len(),
{
    let all = before + after;
    if before.len() == 0 {
        assert(all == after);
    } else {
        let arg = before[0];
        assert(all[0] == arg);
        assert(all.skip(1) == before.skip(1) + after);
        assert(before.len() >= 2 ==> all[1] == before[1] && all.skip(2) == before.skip(2) + after);
        if arg == "--local-port"@ {
            let port = required_port(second(before), arg)->Ok_0;
            law_connect_options_compose(
                ConnectDraftView { local_port: Some(port), ..draft },
                before.skip(2),
                after,
                read,
            );
        } else if arg == "--remote-port"@ {
            let port = required_port(second(before), arg)->Ok_0;
            law_connect_options_compose(
                ConnectDraftView { remote_port: Some(port), ..draft },
                before.skip(2),
                after,
                read,
            );
        } else if arg == "--code-host"@ {
            law_connect_options_compose(
                ConnectDraftView { code_host: Some(before[1]), ..draft },
                before.skip(2),
                after,
                read,
            );
        } else if arg == "--ssh-bin"@ {
            law_connect_options_compose(
                ConnectDraftView { ssh_bin: before[1], ..draft },
                before.skip(2),
                after,
                read,
            );
        } else if arg == "--code-bin"@ {
            law_connect_options_compose(
                ConnectDraftView { code_bin: before[1], ..draft },
                before.skip(2),
                after,
                read,
            );
        } else if arg == "-q"@ || arg == "--quiet"@ {
            law_connect_options_compose(
                ConnectDraftView { quiet: true, ..draft },
                before.skip(1),
                after,
                read,
            );
        } else {
            law_connect_options_compose(
                ConnectDraftView { host: Some(arg), ..draft },
                before.skip(1),
                after,
                read,
            );
        }
    }
}

/// What follows `--` reaches SSH as it is, and has no bearing on the other
/// options.
pub proof fn law_raw_arguments_are_kept(
    args: Seq<Seq<char>>,
    raw: Seq<Seq<char>>,
    env: Environment,
    options: ConnectView,
)
    requires
        connect_options(args, env) == Ok::<ConnectView, ErrorView>(options),
        !ends_options(args),
    ensures
        connect_options(args + (seq!["--"@] + raw), env) == Ok::<ConnectView, ErrorView>(
            ConnectView { ssh_args: raw, ..options },
        ),
{
    let start = ConnectDraftView::start(env);
    let read = start.read(args)->Ok_0;
    let tail = seq!["--"@] + raw;
    law_connect_options_compose(start, args, tail, read);
    assert(tail[0] == "--"@);
    assert(tail.skip(1) == raw);
}

/// Whether a `--` among the options for installing the shim ends them.
pub open spec fn ends_install_options(args: Seq<Seq<char>>) -> bool
    decreases args.len(),
{
    if args.len() == 0 {
        false
    } else if args[0] == "--"@ {
        true
    } else if args[0] == "--ssh-bin"@ {
        args.len() >= 2 && ends_install_options(args.skip(2))
    } else {
        ends_install_options(args.skip(1))
    }
}

/// Options for installing the shim are read one after the other, too.
pub proof fn law_install_options_compose(
    draft: InstallDraftView,
    before: Seq<Seq<char>>,
    after: Seq<Seq<char>>,
    read: InstallDraftView,
)
    requires
        draft.read(before) == Ok::<InstallDraftView, ErrorView>(read),
        !ends_install_options(before),
    ensures
        draft.read(before + after) == read.read(after),
    decreases before.len(),
{
    let all = before + after;
    if before.len() == 0 {
        assert(all == after);
    } else {
        let arg = before[0];
        assert(all[0] == arg);
        assert(all.skip(1) == before.skip(1) + after);
        assert(before.len() >= 2 ==> all[1] == before[1] && all.skip(2) == before.skip(2) + after);
        if arg == "--ssh-bin"@ {
            law_install_options_compose(
                InstallDraftView { ssh_bin: before[1], ..draft },
                before.skip(2),
                after,
                read,
            );
        } else {
            law_install_options_compose(
                InstallDraftView { host: Some(arg), ..draft },
                before.skip(1),
                after,
                read,
            );
        }
    }
}

/// What follows `--` reaches SSH as it is when the shim is installed, too.
pub proof fn law_install_raw_arguments_are_kept(
    args: Seq<Seq<char>>,
    raw: Seq<Seq<char>>,
    env: Environment,
    options: InstallShimView,
)
    requires
        install_shim_options(args, env) == Ok::<InstallShimView, ErrorView>(options),
        !ends_install_options(args),
    ensures
        install_shim_options(args + (seq!["--"@] + raw), env) == Ok::<InstallShimView, ErrorView>(
            InstallShimView { ssh_args: raw, ..options },
        ),
{
    let start = InstallDraftView::start(env);
    let read = start.read(args)->Ok_0;
    let tail = seq!["--"@] + raw;
    law_install_options_compose(start, args, tail, read);
    assert(tail[0] == "--"@);
    assert(tail.skip(1) == raw);
}

/// A host alone starts a session with that host, its name as the VS Code
/// alias, and the defaults for everything else.
pub proof fn law_host_alone(host: Seq<char>, env: Environment)
    requires
        !text::begins_with(host, '-'),
    ensures
        connect_options(seq![host], env) == Ok::<ConnectView, ErrorView>(
            ConnectView {
                host,
                code_host: host,
                local_port: None,
                remote_port: None,
                quiet: false,
                ssh_bin: env.default_ssh(),
                code_bin: env.default_code(),
                ssh_args: Seq::empty(),
            },
        ),
{
    lemma_options_begin_with_dash();
    let start = ConnectDraftView::start(env);
    let args = seq![host];
    let read = ConnectDraftView { host: Some(host), ..start };
    assert(args.skip(1) == Seq::<Seq<char>>::empty());
    assert(read.read(args.skip(1)) == Ok::<ConnectDraftView, ErrorView>(read));
}

proof fn lemma_options_begin_with_dash()
    ensures
        text::begins_with("--"@, '-'),
        text::begins_with("--local-port"@, '-'),
        text::begins_with("--remote-port"@, '-'),
        text::begins_with("--code-host"@, '-'),
        text::begins_with("--ssh-bin"@, '-'),
        text::begins_with("--code-bin"@, '-'),
        text::begins_with("-q"@, '-'),
        text::begins_with("--quiet"@, '-'),
        text::begins_with("-h"@, '-'),
        text::begins_with("--help"@, '-'),
{
    reveal_strlit("--");
    reveal_strlit("--local-port");
    reveal_strlit("--remote-port");
    reveal_strlit("--code-host");
    reveal_strlit("--ssh-bin");
    reveal_strlit("--code-bin");
    reveal_strlit("-q");
    reveal_strlit("--quiet");
    reveal_strlit("-h");
    reveal_strlit("--help");
}

/// A command line is read by the texts of its arguments, and rejected where
/// one of them is not UTF-8.
pub proof fn law_command_line_is_text(
    args: Seq<Option<String>>,
    words: Seq<Seq<char>>,
    env: Environment,
)
    requires
        args.len() == words.len(),
    ensures
        (forall|i: int|
            0 <= i < args.len() ==> (#[trigger] args[i] matches Some(arg) && arg@ == words[i]))
            ==> command_line(args, env) == command(words, env),
        (exists|i: int| 0 <= i < args.len() && #[trigger] args[i] is None) ==> command_line(
            args,
            env,
        ) == Err::<CliView, ErrorView>(Failure::ArgumentNotUtf8),
{
    if forall|i: int|
        0 <= i < args.len() ==> (#[trigger] args[i] matches Some(arg) && arg@ == words[i]) {
        assert(Seq::new(args.len(), |i: int| args[i]->0@) == words);
    }
}

/// The first argument alone decides which command is meant: help, the shim's
/// text, installing the shim, or else a session.
pub proof fn law_first_argument_decides(first: Seq<char>, rest: Seq<Seq<char>>, env: Environment)
    ensures
        command(Seq::empty(), env) == Ok::<CliView, ErrorView>(CliView::Help),
        first == "-h"@ || first == "--help"@ || first == "help"@ ==> command(
            seq![first] + rest,
            env,
        ) == Ok::<CliView, ErrorView>(CliView::Help),
        first == "print-shim"@ ==> command(seq![first] + rest, env) == (if rest.len() == 0 {
            Ok::<CliView, ErrorView>(CliView::PrintShim)
        } else {
            Err(Failure::ExtraArgument { argument: rest[0], command: "print-shim"@ })
        }),
        first == "install-shim"@ ==> command(seq![first] + rest, env) == (
        match install_shim_options(rest, env) {
            Ok(read) => Ok(CliView::InstallShim(read)),
            Err(e) => Err(e),
        }),
        first != "-h"@ && first != "--help"@ && first != "help"@ && first != "print-shim"@ && first
            != "install-shim"@ ==> command(seq![first] + rest, env) == (
        match connect_options(seq![first] + rest, env) {
            Ok(read) => Ok(CliView::Connect(read)),
            Err(e) => Err(e),
        }),
{
    lemma_commands_differ();
    let args = seq![first] + rest;
    assert(args[0] == first);
    assert(args.skip(1) == rest);
    assert(rest.len() > 0 ==> args[1] == rest[0]);
}

proof fn lemma_commands_differ()
    ensures
        "print-shim"@ != "install-shim"@,
        "print-shim"@ != "-h"@ && "print-shim"@ != "--help"@ && "print-shim"@ != "help"@,
        "install-shim"@ != "-h"@ && "install-shim"@ != "--help"@ && "install-shim"@ != "help"@,
        !text::begins_with("print-shim"@, '-'),
        !text::begins_with("install-shim"@, '-'),
        !text::begins_with("help"@, '-'),
{
    reveal_strlit("print-shim");
    reveal_strlit("install-shim");
    reveal_strlit("-h");
    reveal_strlit("--help");
    reveal_strlit("help");
    assert("print-shim"@.len() == 10 && "install-shim"@.len() == 12 && "-h"@.len() == 2
        && "--help"@.len() == 6 && "help"@.len() == 4);
}

/// No option is taken for another.
proof fn lemma_options_differ()
    ensures
        "--"@ != "--local-port"@ && "--"@ != "--remote-port"@ && "--"@ != "--code-host"@ && "--"@
            != "--ssh-bin"@ && "--"@ != "--code-bin"@ && "--"@ != "-q"@ && "--"@ != "--quiet"@
            && "--"@ != "-h"@ && "--"@ != "--help"@,
        "--local-port"@ != "--remote-port"@ && "--local-port"@ != "--code-host"@ && "--local-port"@
            != "--ssh-bin"@ && "--local-port"@ != "--code-bin"@,
        "--remote-port"@ != "--code-host"@ && "--remote-port"@ != "--ssh-bin"@ && "--remote-port"@
            != "--code-bin"@,
        "--code-host"@ != "--ssh-bin"@ && "--code-host"@ != "--code-bin"@,
        "--ssh-bin"@ != "--code-bin"@,
        !takes_value("-q"@) && !takes_value("--quiet"@) && !takes_value("-h"@) && !takes_value(
            "--help"@,
        ),
        "-q"@ != "-h"@ && "-q"@ != "--help"@ && "--quiet"@ != "-h"@ && "--quiet"@ != "--help"@,
{
    reveal_strlit("--");
    reveal_strlit("--local-port");
    reveal_strlit("--remote-port");
    reveal_strlit("--code-host");
    reveal_strlit("--ssh-bin");
    reveal_strlit("--code-bin");
    reveal_strlit("-q");
    reveal_strlit("--quiet");
    reveal_strlit("-h");
    reveal_strlit("--help");
    assert("--"@.len() == 2 && "--local-port"@.len() == 12 && "--remote-port"@.len() == 13);
    assert("--code-host"@.len() == 11 && "--ssh-bin"@.len() == 9 && "--code-bin"@.len() == 10);
    assert("-q"@.len() == 2 && "--quiet"@.len() == 7 && "-h"@.len() == 2 && "--help"@.len() == 6);
    assert("--"@[1] == '-');
    assert("-q"@[1] == 'q');
    assert("-h"@[1] == 'h');
}

/// What a session with `host` alone is started with: the host is the alias,
/// `ssh` and `code` are the programs unless the environment names others, and
/// there is nothing else.
pub proof fn law_session_of_host(host: Seq<char>, env: Environment)
    requires
        host.len() == 0 || host[0] != '-',
        host != "help"@,
        host != "print-shim"@,
        host != "install-shim"@,
    ensures
        command(seq![host], env) matches Ok(CliView::Connect(options)) && {
            &&& options.host == host
            &&& options.code_host == host
            &&& options.local_port is None
            &&& options.remote_port is None
            &&& !options.quiet
            &&& options.ssh_bin == (match env.ssh {
                Some(program) => program@,
                None => "ssh"@,
            })
            &&& options.code_bin == (match env.code {
                Some(program) => program@,
                None => "code"@,
            })
            &&& options.ssh_args.len() == 0
        },
{
    lemma_options_begin_with_dash();
    law_host_alone(host, env);
    law_first_argument_decides(host, Seq::empty(), env);
    assert(seq![host] + Seq::<Seq<char>>::empty() == seq![host]);
}

/// A command line that starts a session can be read on from where it ends.
proof fn lemma_session_goes_on(
    args: Seq<Seq<char>>,
    more: Seq<Seq<char>>,
    env: Environment,
    options: ConnectView,
) -> (draft: ConnectDraftView)
    requires
        command(args, env) == Ok::<CliView, ErrorView>(CliView::Connect(options)),
        !ends_options(args),
    ensures
        draft.finish() == Ok::<ConnectView, ErrorView>(options),
        connect_options(args + more, env) == (match draft.read(more) {
            Ok(read) => read.finish(),
            Err(e) => Err(e),
        }),
        command(args + more, env) == (match connect_options(args + more, env) {
            Ok(read) => Ok(CliView::Connect(read)),
            Err(e) => Err(e),
        }),
{
    let start = ConnectDraftView::start(env);
    let draft = start.read(args)->Ok_0;
    law_connect_options_compose(start, args, more, draft);
    assert((args + more)[0] == args[0]);
    draft
}

/// Each option takes effect where it stands last, and changes nothing else.
pub proof fn law_options_take_effect(
    args: Seq<Seq<char>>,
    value: Seq<char>,
    env: Environment,
    options: ConnectView,
)
    requires
        command(args, env) == Ok::<CliView, ErrorView>(CliView::Connect(options)),
        !ends_options(args),
    ensures
        command(args + seq!["--code-host"@, value], env) == Ok::<CliView, ErrorView>(
            CliView::Connect(ConnectView { code_host: value, ..options }),
        ),
        command(args + seq!["--ssh-bin"@, value], env) == Ok::<CliView, ErrorView>(
            CliView::Connect(ConnectView { ssh_bin: value, ..options }),
        ),
        command(args + seq!["--code-bin"@, value], env) == Ok::<CliView, ErrorView>(
            CliView::Connect(ConnectView { code_bin: value, ..options }),
        ),
        command(args + seq!["-q"@], env) == Ok::<CliView, ErrorView>(
            CliView::Connect(ConnectView { quiet: true, ..options }),
        ),
        command(args + seq!["--quiet"@], env) == Ok::<CliView, ErrorView>(
            CliView::Connect(ConnectView { quiet: true, ..options }),
        ),
        command(args + seq!["--local-port"@, value], env) == (match number::read_u16(value) {
            Ok(port) => Ok(
                CliView::Connect(ConnectView { local_port: Some(port), ..options }),
            ),
            Err(reason) => Err(Failure::NotAPort { name: "--local-port"@, reason }),
        }),
        command(args + seq!["--remote-port"@, value], env) == (match number::read_u16(value) {
            Ok(port) => Ok(
                CliView::Connect(ConnectView { remote_port: Some(port), ..options }),
            ),
            Err(reason) => Err(Failure::NotAPort { name: "--remote-port"@, reason }),
        }),
{
    lemma_options_differ();
    lemma_one_value(args, "--code-host"@, value, env, options);
    lemma_one_value(args, "--ssh-bin"@, value, env, options);
    lemma_one_value(args, "--code-bin"@, value, env, options);
    lemma_one_value(args, "--local-port"@, value, env, options);
    lemma_one_value(args, "--remote-port"@, value, env, options);
    lemma_quiet(args, "-q"@, env, options);
    lemma_quiet(args, "--quiet"@, env, options);
}

proof fn lemma_one_value(
    args: Seq<Seq<char>>,
    name: Seq<char>,
    value: Seq<char>,
    env: Environment,
    options: ConnectView,
)
    requires
        command(args, env) == Ok::<CliView, ErrorView>(CliView::Connect(options)),
        !ends_options(args),
        takes_value(name),
    ensures
        ({
            let all = command(args + seq![name, value], env);
            &&& name == "--code-host"@ ==> all == Ok::<CliView, ErrorView>(
                CliView::Connect(ConnectView { code_host: value, ..options }),
            )
            &&& name == "--ssh-bin"@ ==> all == Ok::<CliView, ErrorView>(
                CliView::Connect(ConnectView { ssh_bin: value, ..options }),
            )
            &&& name == "--code-bin"@ ==> all == Ok::<CliView, ErrorView>(
                CliView::Connect(ConnectView { code_bin: value, ..options }),
            )
            &&& name == "--local-port"@ ==> all == (match number::read_u16(value) {
                Ok(port) => Ok(
                    CliView::Connect(ConnectView { local_port: Some(port), ..options }),
                ),
                Err(reason) => Err(Failure::NotAPort { name, reason }),
            })
            &&& name == "--remote-port"@ ==> all == (match number::read_u16(value) {
                Ok(port) => Ok(
                    CliView::Connect(ConnectView { remote_port: Some(port), ..options }),
                ),
                Err(reason) => Err(Failure::NotAPort { name, reason }),
            })
        }),
{
    lemma_options_differ();
    let more = seq![name, value];
    let draft = lemma_session_goes_on(args, more, env, options);
    assert(more[0] == name);
    assert(second(more) == Some(value));
    let none = more.skip(2);
    assert(none.len() == 0);
    if name == "--code-host"@ {
        let read = ConnectDraftView { code_host: Some(value), ..draft };
        assert(read.read(none) == Ok::<ConnectDraftView, ErrorView>(read));
    } else if name == "--ssh-bin"@ {
        let read = ConnectDraftView { ssh_bin: value, ..draft };
        assert(read.read(none) == Ok::<ConnectDraftView, ErrorView>(read));
    } else if name == "--code-bin"@ {
        let read = ConnectDraftView { code_bin: value, ..draft };
        assert(read.read(none) == Ok::<ConnectDraftView, ErrorView>(read));
    } else if let Ok(port) = number::read_u16(value) {
        let local = ConnectDraftView { local_port: Some(port), ..draft };
        let remote = ConnectDraftView { remote_port: Some(port), ..draft };
        assert(local.read(none) == Ok::<ConnectDraftView, ErrorView>(local));
        assert(remote.read(none) == Ok::<ConnectDraftView, ErrorView>(remote));
    }
}

proof fn lemma_quiet(
    args: Seq<Seq<char>>,
    name: Seq<char>,
    env: Environment,
    options: ConnectView,
)
    requires
        command(args, env) == Ok::<CliView, ErrorView>(CliView::Connect(options)),
        !ends_options(args),
        name == "-q"@ || name == "--quiet"@,
    ensures
        command(args + seq![name], env) == Ok::<CliView, ErrorView>(
            CliView::Connect(ConnectView { quiet: true, ..options }),
        ),
{
    lemma_options_differ();
    let more = seq![name];
    let draft = lemma_session_goes_on(args, more, env, options);
    assert(more[0] == name);
    assert(more.skip(1).len() == 0);
    let read = ConnectDraftView { quiet: true, ..draft };
    assert(read.read(more.skip(1)) == Ok::<ConnectDraftView, ErrorView>(read));
}

/// On a command line that starts a session, what follows the `--` that ends
/// the options reaches SSH as it is and in its order, and everything else is
/// as the options before it say. Without a `--` nothing reaches SSH.
pub proof fn law_raw_arguments_of_command_line(
    args: Seq<Seq<char>>,
    raw: Seq<Seq<char>>,
    env: Environment,
    options: ConnectView,
)
    requires
        command(args, env) == Ok::<CliView, ErrorView>(CliView::Connect(options)),
        !ends_options(args),
    ensures
        options.ssh_args.len() == 0,
        command(args + seq!["--"@] + raw, env) == Ok::<CliView, ErrorView>(
            CliView::Connect(ConnectView { ssh_args: raw, ..options }),
        ),
{
    lemma_commands_differ();
    let more = seq!["--"@] + raw;
    law_raw_arguments_are_kept(args, raw, env, options);
    let draft = lemma_session_goes_on(args, more, env, options);
    assert(args + seq!["--"@] + raw == args + more);
    lemma_no_raw_arguments(ConnectDraftView::start(env), args);
}

proof fn lemma_no_raw_arguments(draft: ConnectDraftView, args: Seq<Seq<char>>)
    requires
        !ends_options(args),
        draft.read(args) is Ok,
    ensures
        (draft.read(args)->Ok_0).ssh_args == draft.ssh_args,
    decreases args.len(),
{
    if args.len() > 0 {
        let arg = args[0];
        if arg == "--local-port"@ {
            let port = required_port(second(args), arg)->Ok_0;
            lemma_no_raw_arguments(
                ConnectDraftView { local_port: Some(port), ..draft },
                args.skip(2),
            );
        } else if arg == "--remote-port"@ {
            let port = required_port(second(args), arg)->Ok_0;
            lemma_no_raw_arguments(
                ConnectDraftView { remote_port: Some(port), ..draft },
                args.skip(2),
            );
        } else if arg == "--code-host"@ {
            lemma_no_raw_arguments(
                ConnectDraftView { code_host: Some(args[1]), ..draft },
                args.skip(2),
            );
        } else if arg == "--ssh-bin"@ {
            lemma_no_raw_arguments(ConnectDraftView { ssh_bin: args[1], ..draft }, args.skip(2));
        } else if arg == "--code-bin"@ {
            lemma_no_raw_arguments(ConnectDraftView { code_bin: args[1], ..draft }, args.skip(2));
        } else if arg == "-q"@ || arg == "--quiet"@ {
            lemma_no_raw_arguments(ConnectDraftView { quiet: true, ..draft }, args.skip(1));
        } else {
            lemma_no_raw_arguments(ConnectDraftView { host: Some(arg), ..draft }, args.skip(1));
        }
    }
}

/// Where a host was read before, reading further options does not need it.
proof fn lemma_read_without_host(draft: ConnectDraftView, args: Seq<Seq<char>>)
    requires
        draft.host is Some,
        !ends_options(args),
        draft.read(args) is Ok,
    ensures
        (draft.read(args)->Ok_0).host == draft.host,
        (ConnectDraftView { host: None, ..draft }).read(args) == Ok::<ConnectDraftView, ErrorView>(
            (ConnectDraftView { host: None, ..draft.read(args)->Ok_0 }),
        ),
    decreases args.len(),
{
    if args.len() > 0 {
        let arg = args[0];
        if arg == "--local-port"@ {
            let port = required_port(second(args), arg)->Ok_0;
            lemma_read_without_host(
                ConnectDraftView { local_port: Some(port), ..draft },
                args.skip(2),
            );
        } else if arg == "--remote-port"@ {
            let port = required_port(second(args), arg)->Ok_0;
            lemma_read_without_host(
                ConnectDraftView { remote_port: Some(port), ..draft },
                args.skip(2),
            );
        } else if arg == "--code-host"@ {
            lemma_read_without_host(
                ConnectDraftView { code_host: Some(args[1]), ..draft },
                args.skip(2),
            );
        } else if arg == "--ssh-bin"@ {
            lemma_read_without_host(ConnectDraftView { ssh_bin: args[1], ..draft }, args.skip(2));
        } else if arg == "--code-bin"@ {
            lemma_read_without_host(ConnectDraftView { code_bin: args[1], ..draft }, args.skip(2));
        } else if arg == "-q"@ || arg == "--quiet"@ {
            lemma_read_without_host(ConnectDraftView { quiet: true, ..draft }, args.skip(1));
        }
    }
}

/// The host may stand before options or after them, whatever follows; and it
/// must stand somewhere.
pub proof fn law_host_may_follow_options(
    host: Seq<char>,
    args: Seq<Seq<char>>,
    after: Seq<Seq<char>>,
    env: Environment,
)
    requires
        host.len() == 0 || host[0] != '-',
        args.len() > 0,
        !ends_options(args),
        command(seq![host] + args, env) matches Ok(CliView::Connect(_)),
    ensures
        command(args + seq![host] + after, env) == command(seq![host] + args + after, env),
        command(args, env) == Err::<CliView, ErrorView>(Failure::MissingHost),
{
    lemma_options_begin_with_dash();
    lemma_options_differ();
    lemma_commands_differ();
    let start = ConnectDraftView::start(env);
    let named = ConnectDraftView { host: Some(host), ..start };
    let first = seq![host] + args;
    assert(first[0] == host);
    assert(first.skip(1) == args);
    assert(start.read(first) == named.read(args));
    let read = named.read(args)->Ok_0;
    let bare = ConnectDraftView { host: None, ..read };
    lemma_read_without_host(named, args);
    assert(ConnectDraftView { host: None, ..named } == start);
    assert(start.read(args) == Ok::<ConnectDraftView, ErrorView>(bare));
    let more = seq![host] + after;
    law_connect_options_compose(start, args, more, bare);
    assert(more[0] == host);
    assert(more.skip(1) == after);
    assert(ConnectDraftView { host: Some(host), ..bare } == read);
    assert(bare.read(more) == read.read(after));
    assert(args + seq![host] + after == args + more);
    let whole = seq![host] + args + after;
    assert(whole[0] == host);
    assert(whole.skip(1) == args + after);
    law_connect_options_compose(named, args, after, read);
    assert(start.read(whole) == named.read(args + after));
    assert((args + more)[0] == args[0]);
    assert(text::begins_with(args[0], '-'));
}

/// Whether options may follow `args`: they have been read without an error,
/// and no `--` has ended them.
pub open spec fn is_open(args: Seq<Seq<char>>, env: Environment) -> bool {
    args.len() == 0 || (!ends_options(args) && args[0] != "install-shim"@ && (command(args, env)
        == Err::<CliView, ErrorView>(Failure::MissingHost) || (command(args, env) matches Ok(
        CliView::Connect(_),
    ))))
}

proof fn lemma_open_goes_on(args: Seq<Seq<char>>, more: Seq<Seq<char>>, env: Environment) -> (draft:
    ConnectDraftView)
    requires
        is_open(args, env),
        args.len() > 0 || more.len() > 0 && text::begins_with(more[0], '-') && more[0] != "-h"@
            && more[0] != "--help"@,
    ensures
        command(args + more, env) == (match draft.read(more) {
            Ok(last) => match last.finish() {
                Ok(read) => Ok(CliView::Connect(read)),
                Err(e) => Err(e),
            },
            Err(e) => Err(e),
        }),
{
    lemma_commands_differ();
    let start = ConnectDraftView::start(env);
    if args.len() == 0 {
        assert(args + more == more);
        start
    } else {
        assert((args + more)[0] == args[0]);
        lemma_missing_host_was_read(start, args);
        let draft = start.read(args)->Ok_0;
        law_connect_options_compose(start, args, more, draft);
        draft
    }
}

/// Reading options does not fail for want of a host.
proof fn lemma_missing_host_was_read(draft: ConnectDraftView, args: Seq<Seq<char>>)
    ensures
        draft.read(args) != Err::<ConnectDraftView, ErrorView>(Failure::MissingHost),
    decreases args.len(),
{
    if args.len() > 0 {
        let arg = args[0];
        if arg == "--local-port"@ {
            if let Ok(port) = required_port(second(args), arg) {
                lemma_missing_host_was_read(
                    ConnectDraftView { local_port: Some(port), ..draft },
                    args.skip(2),
                );
            }
        } else if arg == "--remote-port"@ {
            if let Ok(port) = required_port(second(args), arg) {
                lemma_missing_host_was_read(
                    ConnectDraftView { remote_port: Some(port), ..draft },
                    args.skip(2),
                );
            }
        } else if arg == "--code-host"@ {
            if args.len() >= 2 {
                lemma_missing_host_was_read(
                    ConnectDraftView { code_host: Some(args[1]), ..draft },
                    args.skip(2),
                );
            }
        } else if arg == "--ssh-bin"@ {
            if args.len() >= 2 {
                lemma_missing_host_was_read(
                    ConnectDraftView { ssh_bin: args[1], ..draft },
                    args.skip(2),
                );
            }
        } else if arg == "--code-bin"@ {
            if args.len() >= 2 {
                lemma_missing_host_was_read(
                    ConnectDraftView { code_bin: args[1], ..draft },
                    args.skip(2),
                );
            }
        } else if arg == "-q"@ || arg == "--quiet"@ {
            lemma_missing_host_was_read(ConnectDraftView { quiet: true, ..draft }, args.skip(1));
        } else {
            lemma_missing_host_was_read(
                ConnectDraftView { host: Some(arg), ..draft },
                args.skip(1),
            );
        }
    }
}

/// Where options may stand, an option that there is not is rejected, and so
/// is one that takes a value and has none.
pub proof fn law_unknown_options_are_rejected(
    args: Seq<Seq<char>>,
    flag: Seq<char>,
    rest: Seq<Seq<char>>,
    env: Environment,
)
    requires
        is_open(args, env),
    ensures
        flag.len() > 0 && flag[0] == '-' && flag != "--"@ && flag != "--local-port"@ && flag
            != "--remote-port"@ && flag != "--code-host"@ && flag != "--ssh-bin"@ && flag
            != "--code-bin"@ && flag != "-q"@ && flag != "--quiet"@ && flag != "-h"@ && flag
            != "--help"@ ==> command(args + (seq![flag] + rest), env) == Err::<CliView, ErrorView>(
            Failure::UnknownOption { flag },
        ),
        flag == "--local-port"@ || flag == "--remote-port"@ || flag == "--code-host"@ || flag
            == "--ssh-bin"@ || flag == "--code-bin"@ ==> command(args + seq![flag], env) == Err::<
            CliView,
            ErrorView,
        >(Failure::MissingValue { name: flag }),
{
    lemma_options_begin_with_dash();
    lemma_options_differ();
    let more = seq![flag] + rest;
    let last = seq![flag];
    assert(more[0] == flag);
    assert(last[0] == flag);
    assert(second(last) is None);
    if flag.len() > 0 && flag[0] == '-' && flag != "-h"@ && flag != "--help"@ {
        let draft = lemma_open_goes_on(args, more, env);
        let end = lemma_open_goes_on(args, last, env);
    }
}

/// Where options may stand, a port that is no port number is rejected,
/// whatever follows it.
pub proof fn law_other_ports_are_rejected(
    args: Seq<Seq<char>>,
    name: Seq<char>,
    value: Seq<char>,
    rest: Seq<Seq<char>>,
    env: Environment,
)
    requires
        is_open(args, env),
        name == "--local-port"@ || name == "--remote-port"@,
        number::read_u16(value) is Err,
    ensures
        command(args + (seq![name, value] + rest), env) == Err::<CliView, ErrorView>(
            Failure::NotAPort { name, reason: number::read_u16(value)->Err_0 },
        ),
{
    lemma_options_begin_with_dash();
    lemma_options_differ();
    let more = seq![name, value] + rest;
    assert(more[0] == name);
    assert(second(more) == Some(value));
    let draft = lemma_open_goes_on(args, more, env);
}

/// After the first argument a request for help is rejected, and after the
/// host a second host is.
pub proof fn law_second_host_is_rejected(
    args: Seq<Seq<char>>,
    arg: Seq<char>,
    rest: Seq<Seq<char>>,
    env: Environment,
)
    requires
        is_open(args, env),
        args.len() > 0,
    ensures
        arg == "-h"@ || arg == "--help"@ ==> command(args + (seq![arg] + rest), env) == Err::<
            CliView,
            ErrorView,
        >(Failure::HelpRequested),
        (arg.len() == 0 || arg[0] != '-') && (command(args, env) is Ok) ==> command(
            args + (seq![arg] + rest),
            env,
        ) == Err::<CliView, ErrorView>(Failure::UnexpectedArgument { argument: arg }),
{
    lemma_options_begin_with_dash();
    lemma_options_differ();
    let more = seq![arg] + rest;
    assert(more[0] == arg);
    let draft = lemma_open_goes_on(args, more, env);
    if command(args, env) is Ok {
        let options = command(args, env)->Ok_0->Connect_0;
        let draft = lemma_session_goes_on(args, more, env, options);
        assert(draft.host is Some);
    }
}

/// The value of an option is the argument after it, and a port is the number
/// that this argument stands for.
pub proof fn law_values(value: Seq<char>, name: Seq<char>)
    ensures
        required_value(Some(value), name) == Ok::<Seq<char>, ErrorView>(value),
        required_value(None, name) == Err::<Seq<char>, ErrorView>(Failure::MissingValue { name }),
        required_port(None, name) == Err::<u16, ErrorView>(Failure::MissingValue { name }),
        required_port(Some(value), name) == (match number::read_u16(value) {
            Ok(port) => Ok(port),
            Err(reason) => Err(Failure::NotAPort { name, reason }),
        }),
{
}

/// A host alone installs the shim there, with `ssh` unless the environment
/// names another program.
pub proof fn law_install_of_host(host: Seq<char>, env: Environment)
    requires
        host.len() == 0 || host[0] != '-',
    ensures
        command(seq!["install-shim"@, host], env) matches Ok(CliView::InstallShim(options)) && {
            &&& options.host == host
            &&& options.ssh_bin == (match env.ssh {
                Some(program) => program@,
                None => "ssh"@,
            })
            &&& options.ssh_args.len() == 0
        },
        command(seq!["install-shim"@], env) == Err::<CliView, ErrorView>(Failure::MissingHost),
{
    lemma_options_begin_with_dash();
    lemma_commands_differ();
    let start = InstallDraftView::start(env);
    let args = seq!["install-shim"@, host];
    let rest = args.skip(1);
    assert(args[0] == "install-shim"@);
    assert(rest[0] == host);
    assert(rest.skip(1).len() == 0);
    let read = InstallDraftView { host: Some(host), ..start };
    assert(read.read(rest.skip(1)) == Ok::<InstallDraftView, ErrorView>(read));
    assert(start.read(rest) == Ok::<InstallDraftView, ErrorView>(read));
    let alone = seq!["install-shim"@];
    assert(alone[0] == "install-shim"@);
    assert(alone.skip(1).len() == 0);
    assert(start.read(alone.skip(1)) == Ok::<InstallDraftView, ErrorView>(start));
}

/// A command line that installs the shim can be read on from where it ends.
proof fn lemma_install_goes_on(
    args: Seq<Seq<char>>,
    more: Seq<Seq<char>>,
    env: Environment,
    options: InstallShimView,
) -> (draft: InstallDraftView)
    requires
        command(seq!["install-shim"@] + args, env) == Ok::<CliView, ErrorView>(
            CliView::InstallShim(options),
        ),
        !ends_install_options(args),
    ensures
        draft.finish() == Ok::<InstallShimView, ErrorView>(options),
        command(seq!["install-shim"@] + args + more, env) == (match draft.read(more) {
            Ok(last) => match last.finish() {
                Ok(read) => Ok(CliView::InstallShim(read)),
                Err(e) => Err(e),
            },
            Err(e) => Err(e),
        }),
{
    lemma_commands_differ();
    let start = InstallDraftView::start(env);
    let line = seq!["install-shim"@] + args;
    assert(line[0] == "install-shim"@);
    assert(line.skip(1) == args);
    let draft = start.read(args)->Ok_0;
    law_install_options_compose(start, args, more, draft);
    let whole = seq!["install-shim"@] + args + more;
    assert(whole[0] == "install-shim"@);
    assert(whole.skip(1) == args + more);
    draft
}

/// When the shim is installed, `--ssh-bin` names the program, what follows
/// `--` reaches SSH as it is, and anything else after the host is rejected.
pub proof fn law_install_options_take_effect(
    args: Seq<Seq<char>>,
    value: Seq<char>,
    raw: Seq<Seq<char>>,
    env: Environment,
    options: InstallShimView,
)
    requires
        command(seq!["install-shim"@] + args, env) == Ok::<CliView, ErrorView>(
            CliView::InstallShim(options),
        ),
        !ends_install_options(args),
    ensures
        command(seq!["install-shim"@] + args + seq!["--ssh-bin"@, value], env) == Ok::<
            CliView,
            ErrorView,
        >(CliView::InstallShim(InstallShimView { ssh_bin: value, ..options })),
        command(seq!["install-shim"@] + args + seq!["--ssh-bin"@], env) == Err::<
            CliView,
            ErrorView,
        >(Failure::MissingValue { name: "--ssh-bin"@ }),
        command(seq!["install-shim"@] + args + (seq!["--"@] + raw), env) == Ok::<
            CliView,
            ErrorView,
        >(CliView::InstallShim(InstallShimView { ssh_args: raw, ..options })),
        value.len() == 0 || value[0] != '-' ==> command(
            seq!["install-shim"@] + args + (seq![value] + raw),
            env,
        ) == Err::<CliView, ErrorView>(Failure::UnexpectedArgument { argument: value }),
        value == "-h"@ || value == "--help"@ ==> command(
            seq!["install-shim"@] + args + (seq![value] + raw),
            env,
        ) == Err::<CliView, ErrorView>(Failure::InstallShimHelp),
        value.len() > 0 && value[0] == '-' && value != "--"@ && value != "--ssh-bin"@ && value
            != "-h"@ && value != "--help"@ ==> command(
            seq!["install-shim"@] + args + (seq![value] + raw),
            env,
        ) == Err::<CliView, ErrorView>(Failure::UnknownInstallShimOption { flag: value }),
{
    lemma_options_begin_with_dash();
    lemma_options_differ();
    let named = seq!["--ssh-bin"@, value];
    let bare = seq!["--ssh-bin"@];
    let ended = seq!["--"@] + raw;
    let other = seq![value] + raw;
    let draft = lemma_install_goes_on(args, named, env, options);
    assert(named[0] == "--ssh-bin"@);
    assert(second(named) == Some(value));
    assert(named.skip(2).len() == 0);
    let read = InstallDraftView { ssh_bin: value, ..draft };
    assert(read.read(named.skip(2)) == Ok::<InstallDraftView, ErrorView>(read));
    let draft = lemma_install_goes_on(args, bare, env, options);
    assert(bare[0] == "--ssh-bin"@);
    assert(second(bare) is None);
    let draft = lemma_install_goes_on(args, ended, env, options);
    assert(ended[0] == "--"@);
    assert(ended.skip(1) == raw);
    let draft = lemma_install_goes_on(args, other, env, options);
    assert(other[0] == value);
    assert(draft.host is Some);
}

/// Where a host was read before, reading further options for installing the
/// shim does not need it.
proof fn lemma_install_without_host(draft: InstallDraftView, args: Seq<Seq<char>>)
    requires
        draft.host is Some,
        !ends_install_options(args),
        draft.read(args) is Ok,
    ensures
        (draft.read(args)->Ok_0).host == draft.host,
        (InstallDraftView { host: None, ..draft }).read(args) == Ok::<InstallDraftView, ErrorView>(
            (InstallDraftView { host: None, ..draft.read(args)->Ok_0 }),
        ),
    decreases args.len(),
{
    if args.len() > 0 && args[0] == "--ssh-bin"@ {
        lemma_install_without_host(InstallDraftView { ssh_bin: args[1], ..draft }, args.skip(2));
    }
}

/// When the shim is installed, the host may stand before options or after
/// them, whatever follows.
pub proof fn law_install_host_may_follow_options(
    host: Seq<char>,
    args: Seq<Seq<char>>,
    after: Seq<Seq<char>>,
    env: Environment,
)
    requires
        host.len() == 0 || host[0] != '-',
        !ends_install_options(args),
        command(seq!["install-shim"@, host] + args, env) is Ok,
    ensures
        command(seq!["install-shim"@] + args + seq![host] + after, env) == command(
            seq!["install-shim"@, host] + args + after,
            env,
        ),
{
    lemma_options_begin_with_dash();
    lemma_options_differ();
    lemma_commands_differ();
    let start = InstallDraftView::start(env);
    let named = InstallDraftView { host: Some(host), ..start };
    let line = seq!["install-shim"@, host] + args;
    let first = seq![host] + args;
    assert(line[0] == "install-shim"@);
    assert(line.skip(1) == first);
    assert(first[0] == host);
    assert(first.skip(1) == args);
    assert(start.read(first) == named.read(args));
    let read = named.read(args)->Ok_0;
    let bare = InstallDraftView { host: None, ..read };
    lemma_install_without_host(named, args);
    assert(InstallDraftView { host: None, ..named } == start);
    let more = seq![host] + after;
    law_install_options_compose(start, args, more, bare);
    assert(more[0] == host);
    assert(more.skip(1) == after);
    assert(InstallDraftView { host: Some(host), ..bare } == read);
    assert(bare.read(more) == read.read(after));
    let later = seq!["install-shim"@] + args + seq![host] + after;
    assert(later[0] == "install-shim"@);
    assert(later.skip(1) == args + more);
    let whole = seq!["install-shim"@, host] + args + after;
    assert(whole[0] == "install-shim"@);
    assert(whole.skip(1) == seq![host] + (args + after));
    assert((seq![host] + (args + after)).skip(1) == args + after);
    law_install_options_compose(named, args, after, read);
    assert(start.read(whole.skip(1)) == named.read(args + after));
}

} // verus!
