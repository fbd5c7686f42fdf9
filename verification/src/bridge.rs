//! The bridge: which requests it accepts, what it starts for them, and what
//! it answers.

use vstd::prelude::*;
use crate::authority::{self, code_remote_authority};
use crate::cli::{ConnectOptions, ConnectView};
use crate::error::{Error, ErrorView, Failure};
use crate::headers::{self, header_get};
use crate::text::{self, same};
use crate::translate::{self, translate_code_args};

verus! {

/// What a session's bridge knows.
#[derive(Debug)]
pub struct BridgeState {
    pub token: String,
    pub code_host: String,
    pub code_remote_authority: String,
    pub code_bin: String,
}

/// What a `BridgeState` holds.
pub struct BridgeView {
    pub token: Seq<char>,
    pub code_host: Seq<char>,
    pub code_remote_authority: Seq<char>,
    pub code_bin: Seq<char>,
}

impl View for BridgeState {
    type V = BridgeView;

    open spec fn view(&self) -> BridgeView {
        BridgeView {
            token: self.token@,
            code_host: self.code_host@,
            code_remote_authority: self.code_remote_authority@,
            code_bin: self.code_bin@,
        }
    }
}

/// A request to open something.
#[derive(Debug)]
pub struct OpenRequest {
    pub host: Option<String>,
    pub cwd: String,
    pub args: Vec<String>,
}

/// What an `OpenRequest` holds.
pub struct OpenRequestView {
    pub host: Option<Seq<char>>,
    pub cwd: Seq<char>,
    pub args: Seq<Seq<char>>,
}

impl View for OpenRequest {
    type V = OpenRequestView;

    open spec fn view(&self) -> OpenRequestView {
        OpenRequestView {
            host: text::text_in(self.host),
            cwd: self.cwd@,
            args: text::texts(self.args@),
        }
    }
}

/// The answer to a request.
#[derive(Debug)]
pub struct OpenResponse {
    pub ok: bool,
    pub message: String,
    pub argv: Vec<String>,
}

/// What an `OpenResponse` holds.
pub struct OpenResponseView {
    pub ok: bool,
    pub message: Seq<char>,
    pub argv: Seq<Seq<char>>,
}

impl View for OpenResponse {
    type V = OpenResponseView;

    open spec fn view(&self) -> OpenResponseView {
        OpenResponseView {
            ok: self.ok,
            message: self.message@,
            argv: text::texts(self.argv@),
        }
    }
}

/// What a session's bridge is started with.
pub open spec fn bridge_for(options: ConnectView, token: Seq<char>) -> Result<
    BridgeView,
    ErrorView,
> {
    match authority::remote_authority(options.code_host, options.ssh_args) {
        Ok(target) => Ok(
            BridgeView {
                token,
                code_host: options.code_host,
                code_remote_authority: target,
                code_bin: options.code_bin,
            },
        ),
        Err(e) => Err(e),
    }
}

impl BridgeState {
    /// The state of the bridge of a session.
    pub fn new(options: &ConnectOptions, token: &str) -> (r: Result<BridgeState, Error>)
        ensures
            match r {
                Ok(state) => bridge_for(options@, token@) == Ok::<BridgeView, ErrorView>(state@),
                Err(e) => bridge_for(options@, token@) == Err::<BridgeView, ErrorView>(e@),
            },
            r matches Ok(state) ==> {
                &&& state.token@ == token@
                &&& state.code_host@ == options.code_host@
                &&& state.code_bin@ == options.code_bin@
                &&& authority::remote_authority(
                    options.code_host@,
                    text::texts(options.ssh_args@),
                ) == Ok::<Seq<char>, ErrorView>(state.code_remote_authority@)
            },
            r matches Err(e) ==> authority::remote_authority(
                options.code_host@,
                text::texts(options.ssh_args@),
            ) == Err::<Seq<char>, ErrorView>(e@),
    {
        match code_remote_authority(options.code_host.as_str(), &options.ssh_args) {
            Ok(target) => Ok(
                BridgeState {
                    token: token.to_owned(),
                    code_host: options.code_host.clone(),
                    code_remote_authority: target,
                    code_bin: options.code_bin.clone(),
                },
            ),
            Err(e) => Err(e),
        }
    }
}

/// The Authorization header of a request.
pub enum Authorization<'a> {
    /// There is none.
    Missing,
    /// It is not text.
    Unreadable,
    /// It holds this text.
    Text(&'a str),
}

/// What an `Authorization` holds.
pub enum AuthorizationView {
    Missing,
    Unreadable,
    Text(Seq<char>),
}

impl<'a> View for Authorization<'a> {
    type V = AuthorizationView;

    open spec fn view(&self) -> AuthorizationView {
        match self {
            Authorization::Missing => AuthorizationView::Missing,
            Authorization::Unreadable => AuthorizationView::Unreadable,
            Authorization::Text(value) => AuthorizationView::Text(value@),
        }
    }
}

/// The Authorization header among a request's header fields.
pub open spec fn authorization_in(fields: Map<Seq<char>, Seq<u8>>) -> AuthorizationView {
    if !fields.contains_key("authorization"@) {
        AuthorizationView::Missing
    } else if !headers::is_header_text(fields["authorization"@]) {
        AuthorizationView::Unreadable
    } else {
        AuthorizationView::Text(headers::header_text(fields["authorization"@]))
    }
}

/// Whether a request may proceed: its Authorization header must be `Bearer`
/// and the session's token.
pub open spec fn authorization_outcome(header: AuthorizationView, token: Seq<char>) -> Result<
    (),
    ErrorView,
> {
    match header {
        AuthorizationView::Missing => Err(Failure::MissingAuthorization),
        AuthorizationView::Unreadable => Err(Failure::UnreadableAuthorization),
        AuthorizationView::Text(value) => if value == "Bearer "@ + token {
            Ok(())
        } else {
            Err(Failure::WrongToken)
        },
    }
}

/// Checks an Authorization header against the session's token.
pub fn check_authorization(header: Authorization<'_>, token: &str) -> (r: Result<(), Error>)
    ensures
        match r {
            Ok(_) => authorization_outcome(header@, token@) == Ok::<(), ErrorView>(()),
            Err(e) => authorization_outcome(header@, token@) == Err::<(), ErrorView>(e@),
        },
{
    match header {
        Authorization::Missing => Err(Failure::MissingAuthorization),
        Authorization::Unreadable => Err(Failure::UnreadableAuthorization),
        Authorization::Text(value) => {
            let expected = "Bearer ".to_owned().concat(token);
            if same(value, expected.as_str()) {
                Ok(())
            } else {
                Err(Failure::WrongToken)
            }
        },
    }
}

/// Checks that a request carries the session's token.
pub fn authorize(headers: &axum::http::HeaderMap, token: &str) -> (r: Result<(), Error>)
    ensures
        ({
            let header = authorization_in(headers::header_fields(*headers));
            match r {
                Ok(_) => authorization_outcome(header, token@) == Ok::<(), ErrorView>(()),
                Err(e) => authorization_outcome(header, token@) == Err::<(), ErrorView>(e@),
            }
        }),
{
    proof {
        reveal_strlit("authorization");
    }
    match header_get(headers, "authorization") {
        None => check_authorization(Authorization::Missing, token),
        Some(value) => match value.to_str() {
            Ok(content) => check_authorization(Authorization::Text(content), token),
            Err(_) => check_authorization(Authorization::Unreadable, token),
        },
    }
}

/// The arguments that the local VS Code command is started with for an
/// authorized request.
pub open spec fn launch_arguments(state: BridgeView, request: OpenRequestView) -> Result<
    Seq<Seq<char>>,
    ErrorView,
> {
    if request.host is Some && request.host->0 != state.code_host {
        Err(Failure::HostMismatch { requested: request.host->0, expected: state.code_host })
    } else {
        translate::prepend(
            seq!["--remote"@, "ssh-remote+"@ + state.code_remote_authority],
            translate::translated_command(request.cwd, request.args),
        )
    }
}

/// The arguments that the local VS Code command is started with for a request
/// with the given Authorization header.
pub open spec fn open_outcome(
    state: BridgeView,
    header: AuthorizationView,
    request: OpenRequestView,
) -> Result<Seq<Seq<char>>, ErrorView> {
    match authorization_outcome(header, state.token) {
        Ok(_) => launch_arguments(state, request),
        Err(e) => Err(e),
    }
}

/// The arguments that the local VS Code command is started with for an
/// authorized request.
pub fn accept_request(state: &BridgeState, request: &OpenRequest) -> (r: Result<Vec<String>, Error>)
    ensures
        match r {
            Ok(argv) => launch_arguments(state@, request@) == Ok::<Seq<Seq<char>>, ErrorView>(
                text::texts(argv@),
            ),
            Err(e) => launch_arguments(state@, request@) == Err::<Seq<Seq<char>>, ErrorView>(e@),
        },
        r matches Ok(argv) ==> {
            &&& request.host matches Some(host) ==> host@ == state.code_host@
            &&& argv@.len() >= 2
            &&& argv@[0]@ == "--remote"@
            &&& argv@[1]@ == "ssh-remote+"@ + state.code_remote_authority@
            &&& translate::translated_command(request.cwd@, text::texts(request.args@)) == Ok::<
                Seq<Seq<char>>,
                ErrorView,
            >(text::texts(argv@).skip(2))
        },
{
    if let Some(host) = &request.host {
        if !same(host.as_str(), state.code_host.as_str()) {
            return Err(
                Failure::HostMismatch {
                    requested: host.clone(),
                    expected: state.code_host.clone(),
                },
            );
        }
    }
    let mut translated = match translate_code_args(request.cwd.as_str(), &request.args) {
        Ok(translated) => translated,
        Err(e) => {
            return Err(e);
        },
    };
    let target = "ssh-remote+".to_owned().concat(state.code_remote_authority.as_str());
    let mut argv: Vec<String> = Vec::new();
    argv.push("--remote".to_owned());
    argv.push(target);
    let ghost head = text::texts(argv@);
    let ghost tail = text::texts(translated@);
    assert(head == seq!["--remote"@, "ssh-remote+"@ + state@.code_remote_authority]);
    argv.append(&mut translated);
    proof {
        let all = text::texts(argv@);
        assert(all == head + tail);
        assert(all[0] == head[0] && all[1] == head[1]);
        assert(all.skip(2) == tail);
    }
    Ok(argv)
}

/// The arguments that the local VS Code command is started with for a
/// request.
pub fn open_arguments(
    state: &BridgeState,
    headers: &axum::http::HeaderMap,
    request: &OpenRequest,
) -> (r: Result<Vec<String>, Error>)
    ensures
        ({
            let outcome = open_outcome(
                state@,
                authorization_in(headers::header_fields(*headers)),
                request@,
            );
            match r {
                Ok(argv) => outcome == Ok::<Seq<Seq<char>>, ErrorView>(text::texts(argv@)),
                Err(e) => outcome == Err::<Seq<Seq<char>>, ErrorView>(e@),
            }
        }),
{
    match authorize(headers, state.token.as_str()) {
        Ok(_) => accept_request(state, request),
        Err(e) => Err(e),
    }
}

/// What came of starting the local VS Code command.
#[derive(Debug)]
pub enum Launch {
    Exited { success: bool, status: String },
    NotStarted { resolved: String, cause: String },
}

/// What a `Launch` holds.
pub enum LaunchView {
    Exited { success: bool, status: Seq<char> },
    NotStarted { resolved: Seq<char>, cause: Seq<char> },
}

impl View for Launch {
    type V = LaunchView;

    open spec fn view(&self) -> LaunchView {
        match self {
            Launch::Exited { success, status } => LaunchView::Exited {
                success: *success,
                status: status@,
            },
            Launch::NotStarted { resolved, cause } => LaunchView::NotStarted {
                resolved: resolved@,
                cause: cause@,
            },
        }
    }
}

/// What a request comes to once the local VS Code command was started with
/// `argv`.
pub open spec fn launch_outcome(
    code_bin: Seq<char>,
    argv: Seq<Seq<char>>,
    launch: LaunchView,
) -> Result<OpenResponseView, ErrorView> {
    match launch {
        LaunchView::NotStarted { resolved, cause } => Err(
            Failure::LocalNotStarted { program: code_bin, resolved, cause },
        ),
        LaunchView::Exited { success, status } => if success {
            Ok(OpenResponseView { ok: true, message: "opened"@, argv })
        } else {
            Err(Failure::LocalFailed { program: code_bin, status })
        },
    }
}

/// What a request comes to once the local VS Code command was started.
pub fn finish_open(state: &BridgeState, argv: Vec<String>, launch: &Launch) -> (r: Result<
    OpenResponse,
    Error,
>)
    ensures
        ({
            let outcome = launch_outcome(state@.code_bin, text::texts(argv@), launch@);
            match r {
                Ok(response) => outcome == Ok::<OpenResponseView, ErrorView>(response@),
                Err(e) => outcome == Err::<OpenResponseView, ErrorView>(e@),
            }
        }),
{
    match launch {
        Launch::NotStarted { resolved, cause } => Err(
            Failure::LocalNotStarted {
                program: state.code_bin.clone(),
                resolved: resolved.clone(),
                cause: cause.clone(),
            },
        ),
        Launch::Exited { success, status } => {
            if *success {
                Ok(OpenResponse { ok: true, message: "opened".to_owned(), argv })
            } else {
                Err(
                    Failure::LocalFailed {
                        program: state.code_bin.clone(),
                        status: status.clone(),
                    },
                )
            }
        },
    }
}

/// The HTTP status and the body that answer a request.
pub open spec fn reply(outcome: Result<OpenResponseView, ErrorView>) -> (u16, OpenResponseView) {
    match outcome {
        Ok(response) => (200, response),
        Err(e) => (
            400,
            OpenResponseView { ok: false, message: e.report_text(), argv: Seq::empty() },
        ),
    }
}

/// The HTTP status and the body that answer a request.
pub fn open_reply(outcome: Result<OpenResponse, Error>) -> (r: (u16, OpenResponse))
    ensures
        (r.0, r.1@) == reply(
            match outcome {
                Ok(response) => Ok(response@),
                Err(e) => Err(e@),
            },
        ),
{
    match outcome {
        Ok(response) => (200, response),
        Err(e) => {
            let argv: Vec<String> = Vec::new();
            assert(text::texts(argv@) == Seq::<Seq<char>>::empty());
            (400, OpenResponse { ok: false, message: e.report(), argv })
        },
    }
}

/// A request without the session's token starts nothing: it is answered with
/// a client error that names no arguments.
pub proof fn law_unauthorized_request_is_refused(
    state: BridgeView,
    header: AuthorizationView,
    request: OpenRequestView,
)
    requires
        header != AuthorizationView::Text("Bearer "@ + state.token),
    ensures
        open_outcome(state, header, request) is Err,
        ({
            let (status, body) = reply(
                Err(open_outcome(state, header, request)->Err_0),
            );
            status == 400 && !body.ok && body.argv.len() == 0
        }),
{
}

/// A request with the session's token is treated by what it asks for alone.
pub proof fn law_authorized_request_proceeds(state: BridgeView, request: OpenRequestView)
    ensures
        open_outcome(state, AuthorizationView::Text("Bearer "@ + state.token), request)
            == launch_arguments(state, request),
{
}

/// The bridge of a session accepts what the session's remote shell sends it:
/// requests with the token and the host that the remote command exports.
pub proof fn law_session_requests_are_accepted(
    options: ConnectView,
    token: Seq<char>,
    state: BridgeView,
    cwd: Seq<char>,
    args: Seq<Seq<char>>,
)
    requires
        bridge_for(options, token) == Ok::<BridgeView, ErrorView>(state),
    ensures
        open_outcome(
            state,
            AuthorizationView::Text("Bearer "@ + token),
            OpenRequestView { host: Some(options.code_host), cwd, args },
        ) == translate::prepend(
            seq!["--remote"@, "ssh-remote+"@ + state.code_remote_authority],
            translate::translated_command(cwd, args),
        ),
{
}

/// Whatever a request holds, the local VS Code command is only ever started
/// to connect to the session's target, with allowed flags, absolute paths and
/// arguments that begin like a URI.
pub proof fn law_launch_is_restricted(
    state: BridgeView,
    header: AuthorizationView,
    request: OpenRequestView,
    argv: Seq<Seq<char>>,
)
    requires
        open_outcome(state, header, request) == Ok::<Seq<Seq<char>>, ErrorView>(argv),
    ensures
        argv.len() >= 2,
        argv[0] == "--remote"@,
        argv[1] == "ssh-remote+"@ + state.code_remote_authority,
        translate::all_safe(argv.skip(2)),
        request.host is None || request.host == Some(state.code_host),
{
    let translated = translate::translated_command(request.cwd, request.args)->Ok_0;
    translate::law_translation_is_safe(request.cwd, request.args, translated);
    assert(argv.skip(2) == translated);
}

/// A request succeeds exactly when the local VS Code command ran and
/// succeeded, and the answer then names the arguments that it was given.
pub proof fn law_success_is_reported(
    code_bin: Seq<char>,
    argv: Seq<Seq<char>>,
    launch: LaunchView,
)
    ensures
        ({
            let (status, body) = reply(launch_outcome(code_bin, argv, launch));
            &&& status == 200 <==> body.ok
            &&& body.ok <==> (launch matches LaunchView::Exited { success, .. } && success)
            &&& body.ok ==> body.argv == argv
        }),
{
}

/// The bridge of a session has the session's token, its alias and its VS Code
/// program, and connects to the target that the alias and the raw SSH
/// arguments make; it is refused only where they make none.
pub proof fn law_bridge_belongs_to_session(options: ConnectView, token: Seq<char>)
    ensures
        match bridge_for(options, token) {
            Ok(state) => {
                &&& state.token == token
                &&& state.code_host == options.code_host
                &&& state.code_bin == options.code_bin
                &&& authority::remote_authority(options.code_host, options.ssh_args) == Ok::<
                    Seq<char>,
                    ErrorView,
                >(state.code_remote_authority)
            },
            Err(e) => authority::remote_authority(options.code_host, options.ssh_args) == Err::<
                Seq<char>,
                ErrorView,
            >(e),
        },
{
}

/// A request that names the session's alias, or no host, is launched with the
/// session's target and its own translated arguments.
pub proof fn law_own_requests_are_launched(
    state: BridgeView,
    cwd: Seq<char>,
    args: Seq<Seq<char>>,
    translated: Seq<Seq<char>>,
)
    requires
        translate::translated_command(cwd, args) == Ok::<Seq<Seq<char>>, ErrorView>(translated),
    ensures
        ({
            let launched = Ok::<Seq<Seq<char>>, ErrorView>(
                seq!["--remote"@, "ssh-remote+"@ + state.code_remote_authority] + translated,
            );
            &&& launch_arguments(
                state,
                OpenRequestView { host: Some(state.code_host), cwd, args },
            ) == launched
            &&& launch_arguments(state, OpenRequestView { host: None, cwd, args }) == launched
        }),
{
}

/// A request that names another host is rejected, and so is one whose
/// arguments cannot be translated.
pub proof fn law_other_requests_are_rejected(state: BridgeView, request: OpenRequestView)
    ensures
        request.host matches Some(host) && host != state.code_host ==> launch_arguments(
            state,
            request,
        ) == Err::<Seq<Seq<char>>, ErrorView>(
            Failure::HostMismatch { requested: request.host->0, expected: state.code_host },
        ),
        (request.host is None || request.host->0 == state.code_host) ==> (
        translate::translated_command(request.cwd, request.args) matches Err(e)
            ==> launch_arguments(state, request) == Err::<Seq<Seq<char>>, ErrorView>(e)),
{
}

/// A request proceeds exactly when its Authorization header consists of
/// visible ASCII characters, spaces and tabs that read `Bearer`, a space and
/// the session's token. Otherwise it is rejected, and the error says whether
/// the header is missing, not text, or another one.
pub proof fn law_token_opens_the_bridge(
    state: BridgeView,
    fields: Map<Seq<char>, Seq<u8>>,
    request: OpenRequestView,
)
    ensures
        ({
            let outcome = open_outcome(state, authorization_in(fields), request);
            let bytes = fields["authorization"@];
            let is_text = forall|i: int|
                0 <= i < bytes.len() ==> #[trigger] bytes[i] == 9 || 32 <= bytes[i] <= 126;
            let expected = "Bearer "@ + state.token;
            if !fields.contains_key("authorization"@) {
                outcome == Err::<Seq<Seq<char>>, ErrorView>(Failure::MissingAuthorization)
            } else if !is_text {
                outcome == Err::<Seq<Seq<char>>, ErrorView>(Failure::UnreadableAuthorization)
            } else if bytes.len() == expected.len() && (forall|i: int|
                0 <= i < bytes.len() ==> #[trigger] bytes[i] as char == expected[i]) {
                outcome == launch_arguments(state, request)
            } else {
                outcome == Err::<Seq<Seq<char>>, ErrorView>(Failure::WrongToken)
            }
        }),
{
    let bytes = fields["authorization"@];
    let expected = "Bearer "@ + state.token;
    let read = headers::header_text(bytes);
    if fields.contains_key("authorization"@) && headers::is_header_text(bytes) {
        if bytes.len() == expected.len() && (forall|i: int|
            0 <= i < bytes.len() ==> #[trigger] bytes[i] as char == expected[i]) {
            assert(read == expected);
        } else if read == expected {
            assert(forall|i: int| 0 <= i < bytes.len() ==> #[trigger] bytes[i] as char == read[i]);
        }
    }
}

/// A request whose local command ran and succeeded is answered with 200, the
/// word `opened` and the arguments. Any other request is answered with 400
/// and what went wrong, which names the session's VS Code program where it
/// could not be started or failed.
pub proof fn law_replies(
    code_bin: Seq<char>,
    argv: Seq<Seq<char>>,
    status: Seq<char>,
    resolved: Seq<char>,
    cause: Seq<char>,
    e: ErrorView,
)
    ensures
        reply(launch_outcome(code_bin, argv, LaunchView::Exited { success: true, status })) == (
            200u16,
            OpenResponseView { ok: true, message: "opened"@, argv },
        ),
        launch_outcome(code_bin, argv, LaunchView::Exited { success: false, status }) == Err::<
            OpenResponseView,
            ErrorView,
        >(Failure::LocalFailed { program: code_bin, status }),
        launch_outcome(code_bin, argv, LaunchView::NotStarted { resolved, cause }) == Err::<
            OpenResponseView,
            ErrorView,
        >(Failure::LocalNotStarted { program: code_bin, resolved, cause }),
        reply(Err(e)) == (
            400u16,
            OpenResponseView {
                ok: false,
                message: (match e.cause_text() {
                    Some(why) => e.text() + ": "@ + why,
                    None => e.text(),
                }),
                argv: Seq::empty(),
            },
        ),
{
}

} // verus!
