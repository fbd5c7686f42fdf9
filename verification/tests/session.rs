use vssh::cli::{parse_connect, parse_install_shim, ConnectOptions, Environment};
use vssh::error::Failure;
use vssh::session::{
    bridge_address, install_outcome, install_shim_arguments, is_retryable_ssh_status,
    ssh_arguments, SshAttempt, SshEvent, Verdict, RANDOM_REMOTE_PORT_ATTEMPTS,
};
use vssh::shell::remote_shell_command;
use vssh::shim::{HELP, INSTALL_COMMAND, REMOTE_CODE_SHIM};
use vssh::token::{
    encode_token, generate_token, random_remote_port, remote_port_for, RANDOM_REMOTE_PORT_END,
    RANDOM_REMOTE_PORT_START,
};

fn options(args: &[&str]) -> ConnectOptions {
    let args: Vec<String> = args.iter().map(|arg| arg.to_string()).collect();
    parse_connect(&args, &Environment { ssh: None, code: None }).unwrap()
}

fn exited(code: i32) -> SshEvent {
    SshEvent::Exited { success: code == 0, code: Some(code), status: format!("exit status: {code}") }
}

#[test]
fn random_remote_port_stays_in_range() {
    for _ in 0..100 {
        let port = random_remote_port();
        assert!((RANDOM_REMOTE_PORT_START..=RANDOM_REMOTE_PORT_END).contains(&port));
    }
}

#[test]
fn draws_select_ports() {
    assert_eq!(remote_port_for(0), 40000);
    assert_eq!(remote_port_for(20999), 60999);
    assert_eq!(remote_port_for(21000), 40000);
    assert_eq!(remote_port_for(u32::MAX), 40000 + (u32::MAX % 21000) as u16);
}

#[test]
fn ports_are_drawn_afresh() {
    let first = random_remote_port();
    assert!((0..100).any(|_| random_remote_port() != first));
}

#[test]
fn tokens_are_hexadecimal_and_differ() {
    let token = generate_token();
    assert_eq!(token.len(), 64);
    assert!(token.chars().all(|c| c.is_ascii_digit() || ('a'..='f').contains(&c)));
    assert_ne!(token, generate_token());
    assert_eq!(encode_token(&[0x00, 0x0f, 0xa5, 0xff]), "000fa5ff");
    assert_ne!(encode_token(&[0x10]), encode_token(&[0x01]));
}

#[test]
fn listens_on_loopback_only() {
    assert_eq!(bridge_address(None), ([127, 0, 0, 1], 0));
    assert_eq!(bridge_address(Some(8080)), ([127, 0, 0, 1], 8080));
}

#[test]
fn builds_ssh_arguments() {
    let opts = options(&["me@h", "--code-host", "alias", "--", "-p", "2222"]);
    assert_eq!(
        ssh_arguments(&opts, 1234, 40001, "tok"),
        [
            "-t".to_string(),
            "-o".to_string(),
            "ExitOnForwardFailure=yes".to_string(),
            "-R".to_string(),
            "127.0.0.1:40001:127.0.0.1:1234".to_string(),
            "-p".to_string(),
            "2222".to_string(),
            "me@h".to_string(),
            remote_shell_command(40001, "tok", "alias"),
        ]
    );
}

#[test]
fn builds_install_arguments() {
    let args = ["h".to_string(), "--".to_string(), "-v".to_string()];
    let opts = parse_install_shim(&args, &Environment { ssh: None, code: None }).unwrap();
    assert_eq!(install_shim_arguments(&opts), ["-v", "h", INSTALL_COMMAND]);
    assert_eq!(
        install_outcome(&opts, &exited(0)).unwrap(),
        "vssh: installed remote shim at ~/.local/bin/code on h"
    );
    assert_eq!(
        install_outcome(&opts, &exited(1)).unwrap_err().message(),
        "install-shim failed with status exit status: 1"
    );
    let event = SshEvent::NotStarted { cause: "gone".to_string() };
    assert_eq!(
        install_outcome(&opts, &event).unwrap_err().report(),
        "failed to start `ssh`: gone"
    );
}

#[test]
fn retries_on_ssh_errors_only() {
    assert!(is_retryable_ssh_status(Some(255)));
    assert!(!is_retryable_ssh_status(Some(1)));
    assert!(!is_retryable_ssh_status(None));
}

#[test]
fn tries_random_ports_at_most_ten_times() {
    let opts = options(&["h"]);
    let mut attempt = SshAttempt::first(&opts);
    let mut tries = 1;
    loop {
        assert!((RANDOM_REMOTE_PORT_START..=RANDOM_REMOTE_PORT_END).contains(&attempt.remote_port));
        match attempt.judge(&opts, &exited(255)) {
            Verdict::Retry { notice } => {
                assert_eq!(
                    notice.unwrap(),
                    format!(
                        "vssh: ssh exited while using remote port {}; retrying with another port",
                        attempt.remote_port
                    )
                );
                attempt = attempt.next();
                tries += 1;
            }
            Verdict::Ended { outcome } => {
                assert_eq!(
                    outcome.unwrap_err().message(),
                    "ssh exited with status exit status: 255"
                );
                break;
            }
        }
    }
    assert_eq!(tries, RANDOM_REMOTE_PORT_ATTEMPTS);
}

#[test]
fn tries_a_given_port_once() {
    let opts = options(&["--remote-port", "39045", "h"]);
    let attempt = SshAttempt::first_with(&opts, RANDOM_REMOTE_PORT_START);
    assert_eq!(attempt.remote_port, 39045);
    assert!(matches!(
        attempt.judge(&opts, &exited(255)),
        Verdict::Ended { outcome: Err(Failure::SshFailed { .. }) }
    ));
    let event = SshEvent::NotStarted { cause: "gone".to_string() };
    match attempt.judge(&opts, &event) {
        Verdict::Ended { outcome: Err(error) } => {
            assert_eq!(error.report(), "failed to start `ssh`: gone");
        }
        _ => panic!("a given port is tried once"),
    }
}

#[test]
fn ends_at_the_first_other_event() {
    let opts = options(&["-q", "h"]);
    let attempt = SshAttempt::first_with(&opts, 41000);
    let next = attempt.next_with(42000);
    assert_eq!((next.remote_port, next.number, next.fixed), (42000, 2, false));
    assert!(matches!(attempt.judge(&opts, &exited(0)), Verdict::Ended { outcome: Ok(()) }));
    assert!(matches!(attempt.judge(&opts, &exited(2)), Verdict::Ended { outcome: Err(_) }));
    let killed = SshEvent::Exited { success: false, code: None, status: "signal: 9".to_string() };
    assert!(matches!(attempt.judge(&opts, &killed), Verdict::Ended { outcome: Err(_) }));
    assert!(matches!(attempt.judge(&opts, &exited(255)), Verdict::Retry { notice: None }));
    let event = SshEvent::NotStarted { cause: "gone".to_string() };
    assert!(matches!(attempt.judge(&opts, &event), Verdict::Retry { notice: None }));
    let loud = options(&["h"]);
    match attempt.judge(&loud, &event) {
        Verdict::Retry { notice } => assert_eq!(
            notice.unwrap(),
            "vssh: failed to start ssh while using remote port 41000; retrying with another port"
        ),
        _ => panic!("ssh that did not start is tried again"),
    }
}

#[test]
fn logs_the_bridge_unless_quiet() {
    let attempt = SshAttempt::first_with(&options(&["h"]), 41000);
    assert_eq!(
        attempt.log_bridge(&options(&["h"]), "127.0.0.1:5").unwrap(),
        "vssh: bridge listening on 127.0.0.1:5; forwarding remote 127.0.0.1:41000"
    );
    assert_eq!(attempt.log_bridge(&options(&["-q", "h"]), "127.0.0.1:5"), None);
}

#[test]
fn has_its_texts() {
    assert!(REMOTE_CODE_SHIM.starts_with("#!/usr/bin/env python3\n"));
    assert!(REMOTE_CODE_SHIM.ends_with("raise SystemExit(main())\n"));
    assert!(HELP.starts_with("vssh 0.1.0\n"));
    assert!(INSTALL_COMMAND.contains("mv \"$tmp\" \"$HOME/.local/bin/code\""));
}
