//! Running SSH: the arguments it is given, when it is tried again with
//! another remote port, and what is reported.

use vstd::prelude::*;
use crate::cli::{ConnectOptions, ConnectView, InstallShimOptions, InstallShimView};
use crate::error::{Error, ErrorView, Failure};
use crate::number::{self, decimal};
use crate::shell::{self, remote_shell_command};
use crate::shim::INSTALL_COMMAND;
use crate::text;
use crate::token::{self, random_remote_port};

verus! {

/// How often a session without a fixed remote port tries to start.
pub const RANDOM_REMOTE_PORT_ATTEMPTS: usize = 10;

/// The address that the local bridge listens on: always the loopback
/// address, and a port that the system chooses unless one is given.
pub fn bridge_address(port: Option<u16>) -> (r: ([u8; 4], u16))
    ensures
        r.0@ == seq![127u8, 0, 0, 1],
        r.1 == (match port {
            Some(p) => p,
            None => 0,
        }),
{
    let p: u16 = match port {
        Some(p) => p,
        None => 0,
    };
    ([127, 0, 0, 1], p)
}

/// What SSH forwards: a loopback port of the remote host, to the bridge.
pub open spec fn forwarding(remote_port: u16, local_port: u16) -> Seq<char> {
    "127.0.0.1:"@ + number::decimal_text(remote_port as nat) + ":127.0.0.1:"@
        + number::decimal_text(local_port as nat)
}

/// The arguments that SSH is started with.
pub open spec fn session_arguments(
    options: ConnectView,
    local_port: u16,
    remote_port: u16,
    token: Seq<char>,
) -> Seq<Seq<char>> {
    seq!["-t"@, "-o"@, "ExitOnForwardFailure=yes"@, "-R"@, forwarding(remote_port, local_port)]
        + options.ssh_args + seq![
        options.host,
        shell::session_command(remote_port, token, options.code_host),
    ]
}

/// The arguments that SSH is started with to install the shim.
pub open spec fn install_arguments(options: InstallShimView) -> Seq<Seq<char>> {
    options.ssh_args + seq![options.host, INSTALL_COMMAND@]
}

fn push_all(list: &mut Vec<String>, more: &Vec<String>)
    ensures
        text::texts(final(list)@) == text::texts(old(list)@) + text::texts(more@),
{
    let ghost start = text::texts(list@);
    let mut i: usize = 0;
    assert(start + text::texts(more@).take(0) == start);
    while i < more.len()
        invariant
            i <= more.len(),
            text::texts(list@) == start + text::texts(more@).take(i as int),
        decreases more.len() - i,
    {
        let ghost before = text::texts(list@);
        list.push(more[i].clone());
        proof {
            assert(text::texts(list@) == before.push(more@[i as int]@));
            assert(text::texts(more@).take(i + 1) == text::texts(more@).take(i as int).push(
                more@[i as int]@,
            ));
        }
        i += 1;
    }
    assert(text::texts(more@).take(i as int) == text::texts(more@));
}

/// The arguments that SSH is started with for a session.
pub fn ssh_arguments(
    options: &ConnectOptions,
    local_port: u16,
    remote_port: u16,
    token: &str,
) -> (r: Vec<String>)
    ensures
        text::texts(r@) == session_arguments(options@, local_port, remote_port, token@),
        ({
            let n = options.ssh_args@.len() as int;
            &&& r@.len() == n + 7
            &&& text::texts(r@).subrange(5, n + 5) == text::texts(options.ssh_args@)
            &&& r@[n + 5]@ == options.host@
            &&& r@[n + 6]@ == shell::session_command(remote_port, token@, options.code_host@)
        }),
{
    let forward = "127.0.0.1:".to_owned().concat(decimal(remote_port).as_str()).concat(
        ":127.0.0.1:",
    ).concat(decimal(local_port).as_str());
    let mut r: Vec<String> = Vec::new();
    r.push("-t".to_owned());
    r.push("-o".to_owned());
    r.push("ExitOnForwardFailure=yes".to_owned());
    r.push("-R".to_owned());
    r.push(forward);
    let ghost fixed = seq![
        "-t"@,
        "-o"@,
        "ExitOnForwardFailure=yes"@,
        "-R"@,
        forwarding(remote_port, local_port),
    ];
    assert(text::texts(r@) == fixed);
    push_all(&mut r, &options.ssh_args);
    let ghost before = text::texts(r@);
    r.push(options.host.clone());
    r.push(remote_shell_command(remote_port, token, options.code_host.as_str()));
    assert(text::texts(r@) == before + seq![
        options@.host,
        shell::session_command(remote_port, token@, options@.code_host),
    ]);
    proof {
        let all = text::texts(r@);
        let n = options.ssh_args@.len() as int;
        assert(all.subrange(5, n + 5) == text::texts(options.ssh_args@));
        assert(all[n + 5] == r@[n + 5]@ && all[n + 6] == r@[n + 6]@);
    }
    r
}

/// The arguments that SSH is started with to install the shim.
pub fn install_shim_arguments(options: &InstallShimOptions) -> (r: Vec<String>)
    ensures
        text::texts(r@) == install_arguments(options@),
        text::texts(r@) == text::texts(options.ssh_args@) + seq![options.host@, INSTALL_COMMAND@],
{
    let mut r: Vec<String> = Vec::new();
    assert(text::texts(r@) == Seq::<Seq<char>>::empty());
    push_all(&mut r, &options.ssh_args);
    let ghost before = text::texts(r@);
    assert(before == options@.ssh_args);
    r.push(options.host.clone());
    r.push(INSTALL_COMMAND.to_owned());
    assert(text::texts(r@) == before + seq![options@.host, INSTALL_COMMAND@]);
    r
}

/// What came of starting SSH.
#[derive(Debug)]
pub enum SshEvent {
    /// It ran and ended, with an exit code unless a signal ended it.
    Exited { success: bool, code: Option<i32>, status: String },
    /// It could not be started.
    NotStarted { cause: String },
}

/// What an `SshEvent` holds.
pub enum SshEventView {
    Exited { success: bool, code: Option<i32>, status: Seq<char> },
    NotStarted { cause: Seq<char> },
}

impl View for SshEvent {
    type V = SshEventView;

    open spec fn view(&self) -> SshEventView {
        match self {
            SshEvent::Exited { success, code, status } => SshEventView::Exited {
                success: *success,
                code: *code,
                status: status@,
            },
            SshEvent::NotStarted { cause } => SshEventView::NotStarted { cause: cause@ },
        }
    }
}

impl SshEventView {
    /// Whether another remote port may help: SSH did not start, or it ended
    /// with the code that it has for its own errors.
    pub open spec fn is_retryable(self) -> bool {
        match self {
            SshEventView::Exited { success, code, .. } => !success && code == Some(255i32),
            SshEventView::NotStarted { .. } => true,
        }
    }

    /// What the session comes to when SSH is not tried again.
    pub open spec fn outcome(self, ssh_bin: Seq<char>) -> Result<(), ErrorView> {
        match self {
            SshEventView::Exited { success, status, .. } => if success {
                Ok(())
            } else {
                Err(Failure::SshFailed { status })
            },
            SshEventView::NotStarted { cause } => Err(
                Failure::SshNotStarted { program: ssh_bin, cause },
            ),
        }
    }
}

/// What comes of installing the shim, and what is printed when it succeeds.
pub open spec fn install_result(options: InstallShimView, event: SshEventView) -> Result<
    Seq<char>,
    ErrorView,
> {
    match event {
        SshEventView::Exited { success, status, .. } => if success {
            Ok("vssh: installed remote shim at ~/.local/bin/code on "@ + options.host)
        } else {
            Err(Failure::InstallFailed { status })
        },
        SshEventView::NotStarted { cause } => Err(
            Failure::SshNotStarted { program: options.ssh_bin, cause },
        ),
    }
}

/// What comes of installing the shim once SSH has ended, or did not start.
pub fn install_outcome(options: &InstallShimOptions, event: &SshEvent) -> (r: Result<String, Error>)
    ensures
        match r {
            Ok(notice) => install_result(options@, event@) == Ok::<Seq<char>, ErrorView>(notice@),
            Err(e) => install_result(options@, event@) == Err::<Seq<char>, ErrorView>(e@),
        },
{
    match event {
        SshEvent::Exited { success, status, .. } => {
            if *success {
                Ok(
                    "vssh: installed remote shim at ~/.local/bin/code on ".to_owned().concat(
                        options.host.as_str(),
                    ),
                )
            } else {
                Err(Failure::InstallFailed { status: status.clone() })
            }
        },
        SshEvent::NotStarted { cause } => Err(
            Failure::SshNotStarted { program: options.ssh_bin.clone(), cause: cause.clone() },
        ),
    }
}

/// Whether an exit code is the one that SSH has for its own errors.
pub fn is_retryable_ssh_status(code: Option<i32>) -> (r: bool)
    ensures
        r == (code == Some(255i32)),
{
    match code {
        Some(n) => n == 255,
        None => false,
    }
}

/// One try at starting SSH.
#[derive(Debug, Clone, Copy)]
pub struct SshAttempt {
    pub remote_port: u16,
    /// Whether the port was given; it is then tried only once.
    pub fixed: bool,
    /// How many tries there have been, this one included.
    pub number: usize,
}

/// What to do after a try.
#[derive(Debug)]
pub enum Verdict {
    /// Try again, after printing the notice.
    Retry { notice: Option<String> },
    /// The session has ended.
    Ended { outcome: Result<(), Error> },
}

impl SshAttempt {
    pub open spec fn wf(self) -> bool {
        &&& 1 <= self.number <= RANDOM_REMOTE_PORT_ATTEMPTS
        &&& self.fixed ==> self.number == 1
        &&& !self.fixed ==> token::RANDOM_REMOTE_PORT_START <= self.remote_port
            <= token::RANDOM_REMOTE_PORT_END
    }

    /// Whether SSH is tried again after `event`.
    pub open spec fn tries_again(self, event: SshEventView) -> bool {
        !self.fixed && self.number < RANDOM_REMOTE_PORT_ATTEMPTS && event.is_retryable()
    }

    /// What is printed before SSH is tried again.
    pub open spec fn retry_notice(self, event: SshEventView) -> Seq<char> {
        let what = match event {
            SshEventView::Exited { .. } => "vssh: ssh exited while using remote port "@,
            SshEventView::NotStarted { .. } => {
                "vssh: failed to start ssh while using remote port "@
            },
        };
        what + number::decimal_text(self.remote_port as nat) + "; retrying with another port"@
    }

    /// What is printed when SSH is started.
    pub open spec fn start_notice(self, local_address: Seq<char>) -> Seq<char> {
        "vssh: bridge listening on "@ + local_address + "; forwarding remote 127.0.0.1:"@
            + number::decimal_text(self.remote_port as nat)
    }

    /// The first try: with the given remote port, or with `drawn`.
    pub fn first_with(options: &ConnectOptions, drawn: u16) -> (r: SshAttempt)
        requires
            token::RANDOM_REMOTE_PORT_START <= drawn <= token::RANDOM_REMOTE_PORT_END,
        ensures
            r.wf(),
            r == (match options.remote_port {
                Some(port) => SshAttempt { remote_port: port, fixed: true, number: 1 },
                None => SshAttempt { remote_port: drawn, fixed: false, number: 1 },
            }),
    {
        match options.remote_port {
            Some(port) => SshAttempt { remote_port: port, fixed: true, number: 1 },
            None => SshAttempt { remote_port: drawn, fixed: false, number: 1 },
        }
    }

    /// The first try: with the given remote port, or with a random one.
    pub fn first(options: &ConnectOptions) -> (r: SshAttempt)
        ensures
            r.wf(),
            r.number == 1,
            match options.remote_port {
                Some(port) => r.fixed && r.remote_port == port,
                None => !r.fixed,
            },
    {
        let drawn: u16 = match options.remote_port {
            Some(_) => token::RANDOM_REMOTE_PORT_START,
            None => random_remote_port(),
        };
        SshAttempt::first_with(options, drawn)
    }

    /// The next try, with the remote port `drawn`.
    pub fn next_with(&self, drawn: u16) -> (r: SshAttempt)
        requires
            self.wf(),
            !self.fixed,
            self.number < RANDOM_REMOTE_PORT_ATTEMPTS,
            token::RANDOM_REMOTE_PORT_START <= drawn <= token::RANDOM_REMOTE_PORT_END,
        ensures
            r.wf(),
            r == (SshAttempt {
                remote_port: drawn,
                fixed: false,
                number: (self.number + 1) as usize,
            }),
    {
        SshAttempt { remote_port: drawn, fixed: false, number: self.number + 1 }
    }

    /// The next try, with a random remote port.
    pub fn next(&self) -> (r: SshAttempt)
        requires
            self.wf(),
            !self.fixed,
            self.number < RANDOM_REMOTE_PORT_ATTEMPTS,
        ensures
            r.wf(),
            !r.fixed,
            r.number == self.number + 1,
    {
        self.next_with(random_remote_port())
    }

    /// What is printed when SSH is started: nothing in quiet mode.
    pub fn log_bridge(&self, options: &ConnectOptions, local_address: &str) -> (r: Option<String>)
        ensures
            text::text_in(r) == (if options.quiet {
                None
            } else {
                Some(self.start_notice(local_address@))
            }),
    {
        if options.quiet {
            return None;
        }
        Some(
            "vssh: bridge listening on ".to_owned().concat(local_address).concat(
                "; forwarding remote 127.0.0.1:",
            ).concat(decimal(self.remote_port).as_str()),
        )
    }

    /// What to do after the try has come to `event`.
    pub fn judge(&self, options: &ConnectOptions, event: &SshEvent) -> (r: Verdict)
        ensures
            match r {
                Verdict::Retry { notice } => {
                    &&& self.tries_again(event@)
                    &&& text::text_in(notice) == (if options.quiet {
                        None
                    } else {
                        Some(self.retry_notice(event@))
                    })
                },
                Verdict::Ended { outcome } => {
                    &&& !self.tries_again(event@)
                    &&& match outcome {
                        Ok(_) => event@.outcome(options@.ssh_bin) == Ok::<(), ErrorView>(()),
                        Err(e) => event@.outcome(options@.ssh_bin) == Err::<(), ErrorView>(e@),
                    }
                },
            },
    {
        let may_retry = !self.fixed && self.number < RANDOM_REMOTE_PORT_ATTEMPTS;
        match event {
            SshEvent::Exited { success, code, status } => {
                if *success {
                    return Verdict::Ended { outcome: Ok(()) };
                }
                if may_retry && is_retryable_ssh_status(*code) {
                    if options.quiet {
                        return Verdict::Retry { notice: None };
                    }
                    let notice = "vssh: ssh exited while using remote port ".to_owned().concat(
                        decimal(self.remote_port).as_str(),
                    ).concat("; retrying with another port");
                    return Verdict::Retry { notice: Some(notice) };
                }
                Verdict::Ended { outcome: Err(Failure::SshFailed { status: status.clone() }) }
            },
            SshEvent::NotStarted { cause } => {
                if may_retry {
                    if options.quiet {
                        return Verdict::Retry { notice: None };
                    }
                    let notice =
                        "vssh: failed to start ssh while using remote port ".to_owned().concat(
                        decimal(self.remote_port).as_str(),
                    ).concat("; retrying with another port");
                    return Verdict::Retry { notice: Some(notice) };
                }
                Verdict::Ended {
                    outcome: Err(
                        Failure::SshNotStarted {
                            program: options.ssh_bin.clone(),
                            cause: cause.clone(),
                        },
                    ),
                }
            },
        }
    }
}

/// Which of the events, one for each try from `attempt` on, ends a session;
/// the length of `events` where none does.
pub open spec fn last_try(attempt: SshAttempt, events: Seq<SshEventView>) -> int
    decreases events.len(),
{
    if events.len() == 0 || !attempt.tries_again(events[0]) {
        0
    } else {
        1 + last_try(
            SshAttempt { number: (attempt.number + 1) as usize, ..attempt },
            events.skip(1),
        )
    }
}

/// A session tries a given remote port once, and random ones at most ten
/// times: it goes on only past events that another port may help with, and
/// ends at the first other one, or at the last try.
pub proof fn law_tries_are_bounded(attempt: SshAttempt, events: Seq<SshEventView>)
    requires
        attempt.wf(),
    ensures
        ({
            let end = last_try(attempt, events);
            &&& 0 <= end <= events.len()
            &&& attempt.number + end <= RANDOM_REMOTE_PORT_ATTEMPTS
            &&& attempt.fixed ==> end == 0
            &&& forall|i: int| 0 <= i < end ==> (#[trigger] events[i]).is_retryable()
            &&& end < events.len() && !attempt.fixed && attempt.number + end
                < RANDOM_REMOTE_PORT_ATTEMPTS ==> !events[end].is_retryable()
        }),
    decreases events.len(),
{
    if events.len() > 0 && attempt.tries_again(events[0]) {
        let rest = events.skip(1);
        let next = SshAttempt { number: (attempt.number + 1) as usize, ..attempt };
        law_tries_are_bounded(next, rest);
        assert forall|i: int| 0 <= i < last_try(attempt, events) implies (
        #[trigger] events[i]).is_retryable() by {
            if i > 0 {
                assert(rest[i - 1] == events[i]);
            }
        }
    }
}

/// SSH is started with a terminal and with the forwarding of the remote
/// loopback port to the bridge, which must succeed; then come the raw SSH
/// arguments as they are, the host, and the command for the remote shell with
/// the session's token and alias.
pub proof fn law_session_arguments(
    options: ConnectView,
    local_port: u16,
    remote_port: u16,
    token: Seq<char>,
)
    ensures
        ({
            let args = session_arguments(options, local_port, remote_port, token);
            let n = options.ssh_args.len() as int;
            &&& args.len() == n + 7
            &&& args[0] == "-t"@
            &&& args[1] == "-o"@
            &&& args[2] == "ExitOnForwardFailure=yes"@
            &&& args[3] == "-R"@
            &&& args[4] == "127.0.0.1:"@ + number::decimal_text(remote_port as nat)
                + ":127.0.0.1:"@ + number::decimal_text(local_port as nat)
            &&& args.subrange(5, n + 5) == options.ssh_args
            &&& args[n + 5] == options.host
            &&& args[n + 6] == shell::session_command(remote_port, token, options.code_host)
        }),
{
    let args = session_arguments(options, local_port, remote_port, token);
    let n = options.ssh_args.len() as int;
    assert(args.subrange(5, n + 5) == options.ssh_args);
}

/// The shim is installed by SSH with the raw SSH arguments as they are, the
/// host, and a command that stores its input beside the remote `code` command,
/// makes it executable and moves it there.
pub proof fn law_install_arguments(options: InstallShimView)
    ensures
        ({
            let args = install_arguments(options);
            let n = options.ssh_args.len() as int;
            &&& args.len() == n + 2
            &&& args.take(n) == options.ssh_args
            &&& args[n] == options.host
            &&& args[n + 1] == "mkdir -p \"$HOME/.local/bin\""@ + " && "@
                + "tmp=\"$(mktemp \"$HOME/.local/bin/code.XXXXXX\")\""@ + " && "@
                + "cat > \"$tmp\""@ + " && "@ + "chmod +x \"$tmp\""@ + " && "@
                + "mv \"$tmp\" \"$HOME/.local/bin/code\""@
        }),
{
    let args = install_arguments(options);
    assert(args.take(options.ssh_args.len() as int) == options.ssh_args);
    reveal_strlit(
        r#"mkdir -p "$HOME/.local/bin" && tmp="$(mktemp "$HOME/.local/bin/code.XXXXXX")" && cat > "$tmp" && chmod +x "$tmp" && mv "$tmp" "$HOME/.local/bin/code""#,
    );
    reveal_strlit("mkdir -p \"$HOME/.local/bin\"");
    reveal_strlit(" && ");
    reveal_strlit("tmp=\"$(mktemp \"$HOME/.local/bin/code.XXXXXX\")\"");
    reveal_strlit("cat > \"$tmp\"");
    reveal_strlit("chmod +x \"$tmp\"");
    reveal_strlit("mv \"$tmp\" \"$HOME/.local/bin/code\"");
    assert(INSTALL_COMMAND@ == "mkdir -p \"$HOME/.local/bin\""@ + " && "@
        + "tmp=\"$(mktemp \"$HOME/.local/bin/code.XXXXXX\")\""@ + " && "@ + "cat > \"$tmp\""@
        + " && "@ + "chmod +x \"$tmp\""@ + " && "@ + "mv \"$tmp\" \"$HOME/.local/bin/code\""@);
}

/// SSH is tried again exactly where the remote port was not given, fewer than
/// ten tries have been made, and SSH did not start or ended with the code
/// 255.
pub proof fn law_retry_rule(
    attempt: SshAttempt,
    success: bool,
    code: Option<i32>,
    status: Seq<char>,
    cause: Seq<char>,
)
    ensures
        attempt.tries_again(SshEventView::Exited { success, code, status }) <==> !attempt.fixed
            && attempt.number < 10 && !success && code == Some(255i32),
        attempt.tries_again(SshEventView::NotStarted { cause }) <==> !attempt.fixed
            && attempt.number < 10,
{
}

/// A session that SSH ended ends well exactly when SSH did, and the error
/// names its status; where SSH did not start, the error names the program and
/// the cause. The same holds of installing the shim.
pub proof fn law_session_outcomes(
    ssh_bin: Seq<char>,
    options: InstallShimView,
    code: Option<i32>,
    status: Seq<char>,
    cause: Seq<char>,
)
    ensures
        ({
            let succeeded = SshEventView::Exited { success: true, code, status };
            let failed = SshEventView::Exited { success: false, code, status };
            let missing = SshEventView::NotStarted { cause };
            &&& succeeded.outcome(ssh_bin) == Ok::<(), ErrorView>(())
            &&& failed.outcome(ssh_bin) == Err::<(), ErrorView>(Failure::SshFailed { status })
            &&& missing.outcome(ssh_bin) == Err::<(), ErrorView>(
                Failure::SshNotStarted { program: ssh_bin, cause },
            )
            &&& install_result(options, succeeded) == Ok::<Seq<char>, ErrorView>(
                "vssh: installed remote shim at ~/.local/bin/code on "@ + options.host,
            )
            &&& install_result(options, failed) == Err::<Seq<char>, ErrorView>(
                Failure::InstallFailed { status },
            )
            &&& install_result(options, missing) == Err::<Seq<char>, ErrorView>(
                Failure::SshNotStarted { program: options.ssh_bin, cause },
            )
        }),
{
}

/// What is printed names the bridge's address and the remote port that is
/// forwarded to it, or the remote port that did not work.
pub proof fn law_notices(
    attempt: SshAttempt,
    local_address: Seq<char>,
    success: bool,
    code: Option<i32>,
    status: Seq<char>,
    cause: Seq<char>,
)
    ensures
        ({
            let port = number::decimal_text(attempt.remote_port as nat);
            &&& attempt.start_notice(local_address) == "vssh: bridge listening on "@ + local_address
                + "; forwarding remote 127.0.0.1:"@ + port
            &&& attempt.retry_notice(SshEventView::Exited { success, code, status })
                == "vssh: ssh exited while using remote port "@ + port
                + "; retrying with another port"@
            &&& attempt.retry_notice(SshEventView::NotStarted { cause })
                == "vssh: failed to start ssh while using remote port "@ + port
                + "; retrying with another port"@
        }),
{
}

} // verus!
