use axum::http::{HeaderMap, HeaderValue};
use vssh::bridge::{
    accept_request, authorize, check_authorization, finish_open, open_arguments, open_reply,
    Authorization, BridgeState, Launch, OpenRequest,
};
use vssh::cli::{parse_connect, Environment};
use vssh::error::Failure;

fn state() -> BridgeState {
    let args = ["me@h".to_string(), "--".to_string(), "-p2222".to_string()];
    let options = parse_connect(&args, &Environment { ssh: None, code: None }).unwrap();
    BridgeState::new(&options, "secret").unwrap()
}

fn request(host: Option<&str>, cwd: &str, args: &[&str]) -> OpenRequest {
    OpenRequest {
        host: host.map(|host| host.to_string()),
        cwd: cwd.to_string(),
        args: args.iter().map(|arg| arg.to_string()).collect(),
    }
}

fn headers(value: &[u8]) -> HeaderMap {
    let mut headers = HeaderMap::new();
    headers.insert("x-other", HeaderValue::from_static("Bearer secret"));
    headers.insert("Authorization", HeaderValue::from_bytes(value).unwrap());
    headers
}

#[test]
fn knows_its_session() {
    let state = state();
    assert_eq!(state.token, "secret");
    assert_eq!(state.code_host, "me@h");
    assert_eq!(state.code_remote_authority, "me@h:2222");
    assert_eq!(state.code_bin, "code");
    let args = ["h".to_string(), "--".to_string(), "-p".to_string()];
    let options = parse_connect(&args, &Environment { ssh: None, code: None }).unwrap();
    assert!(BridgeState::new(&options, "t").is_err());
}

#[test]
fn accepts_the_token() {
    assert!(authorize(&headers(b"Bearer secret"), "secret").is_ok());
    let mut twice = headers(b"Bearer secret");
    twice.append("authorization", HeaderValue::from_static("Bearer other"));
    assert!(authorize(&twice, "secret").is_ok());
    assert!(authorize(&twice, "other").is_err());
}

#[test]
fn refuses_anything_else() {
    let refused = |value: &[u8]| authorize(&headers(value), "secret").unwrap_err().report();
    assert_eq!(refused(b"Bearer secre"), "invalid Authorization token");
    assert_eq!(refused(b"bearer secret"), "invalid Authorization token");
    assert_eq!(refused(b"Bearer secret "), "invalid Authorization token");
    assert_eq!(refused(b"secret"), "invalid Authorization token");
    assert_eq!(refused(b""), "invalid Authorization token");
    let error = authorize(&HeaderMap::new(), "secret").unwrap_err();
    assert!(matches!(error, Failure::MissingAuthorization));
    assert_eq!(error.report(), "missing Authorization header");
}

#[test]
fn explains_unreadable_headers() {
    let value = HeaderValue::from_bytes(b"Bearer \xff").unwrap();
    let error = authorize(&headers(b"Bearer \xff"), "secret").unwrap_err();
    assert!(matches!(error, Failure::UnreadableAuthorization));
    assert_eq!(error.message(), "Authorization header is not valid UTF-8");
    assert_eq!(error.cause(), Some(value.to_str().unwrap_err().to_string()));
    assert_eq!(
        error.report(),
        "Authorization header is not valid UTF-8: failed to convert header to a str"
    );
}

#[test]
fn checks_headers_by_their_text() {
    assert!(check_authorization(Authorization::Text("Bearer t"), "t").is_ok());
    assert!(check_authorization(Authorization::Text("Bearer t"), "u").is_err());
    assert!(check_authorization(Authorization::Text("Bearer "), "").is_ok());
    assert!(check_authorization(Authorization::Missing, "t").is_err());
    assert!(check_authorization(Authorization::Unreadable, "t").is_err());
}

#[test]
fn starts_code_for_the_session() {
    let argv = open_arguments(
        &state(),
        &headers(b"Bearer secret"),
        &request(Some("me@h"), "/w", &["-g", "a:1"]),
    )
    .unwrap();
    assert_eq!(argv, ["--remote", "ssh-remote+me@h:2222", "-g", "/w/a:1"]);
    let argv = accept_request(&state(), &request(None, "/w", &[])).unwrap();
    assert_eq!(argv, ["--remote", "ssh-remote+me@h:2222", "/w"]);
}

#[test]
fn accepts_what_its_session_sends() {
    let args = ["u@h".to_string(), "--code-host".to_string(), "alias".to_string()];
    let options = parse_connect(&args, &Environment { ssh: None, code: None }).unwrap();
    let state = BridgeState::new(&options, "t0").unwrap();
    let sent = request(Some("alias"), "/w", &["x"]);
    let argv = open_arguments(&state, &headers(b"Bearer t0"), &sent).unwrap();
    assert_eq!(argv, ["--remote", "ssh-remote+alias", "/w/x"]);
}

#[test]
fn checks_the_token_first() {
    let error = open_arguments(&state(), &headers(b"x"), &request(Some("other"), "w", &["--x"]));
    assert!(matches!(error, Err(Failure::WrongToken)));
}

#[test]
fn refuses_another_host() {
    let error = accept_request(&state(), &request(Some("h"), "w", &[])).unwrap_err();
    assert_eq!(
        error.message(),
        "remote host mismatch: request used `h`, bridge expects `me@h`"
    );
    assert!(accept_request(&state(), &request(None, "w", &[])).is_err());
    assert!(accept_request(&state(), &request(None, "/w", &["--bad"])).is_err());
}

#[test]
fn answers_refused_requests() {
    let refused = open_arguments(&state(), &HeaderMap::new(), &request(None, "/w", &[]));
    let (status, body) = open_reply(Err(refused.unwrap_err()));
    assert_eq!(status, 400);
    assert!(!body.ok);
    assert_eq!(body.message, "missing Authorization header");
    assert!(body.argv.is_empty());
}

#[test]
fn answers_by_what_code_came_to() {
    let argv = || vec!["a".to_string(), "b".to_string()];
    let done = Launch::Exited { success: true, status: "exit status: 0".to_string() };
    let (status, body) = open_reply(finish_open(&state(), argv(), &done));
    assert_eq!(status, 200);
    assert!(body.ok);
    assert_eq!(body.message, "opened");
    assert_eq!(body.argv, argv());
    let failed = Launch::Exited { success: false, status: "exit status: 3".to_string() };
    let (status, body) = open_reply(finish_open(&state(), argv(), &failed));
    assert_eq!(status, 400);
    assert_eq!(body.message, "local `code` exited with status exit status: 3");
    let missing = Launch::NotStarted { resolved: "/b/code".to_string(), cause: "gone".to_string() };
    let (status, body) = open_reply(finish_open(&state(), argv(), &missing));
    assert_eq!(status, 400);
    assert_eq!(body.message, "failed to start local `code` resolved as `/b/code`: gone");
    assert!(body.argv.is_empty());
}
