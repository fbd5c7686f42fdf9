use vssh::cli::{
    ensure_no_extra, parse_connect, parse_install_shim, parse_port, parse_value, Cli,
    ConnectOptions, Environment,
};
use vssh::error::Failure;

fn strings(items: &[&str]) -> Vec<String> {
    items.iter().map(|item| item.to_string()).collect()
}

fn plain() -> Environment {
    Environment { ssh: None, code: None }
}

fn connect(args: &[&str]) -> ConnectOptions {
    parse_connect(&strings(args), &plain()).unwrap()
}

fn refused(args: &[&str]) -> String {
    parse_connect(&strings(args), &plain()).unwrap_err().message()
}

fn parse(args: &[&str]) -> Result<Cli, vssh::error::Error> {
    let list = args.iter().map(|arg| Some(arg.to_string())).collect();
    Cli::parse(list, &plain())
}

#[test]
fn a_host_alone_takes_the_defaults() {
    let options = connect(&["myhost"]);
    assert_eq!(options.host, "myhost");
    assert_eq!(options.code_host, "myhost");
    assert_eq!(options.local_port, None);
    assert_eq!(options.remote_port, None);
    assert!(!options.quiet);
    assert_eq!(options.ssh_bin, "ssh");
    assert_eq!(options.code_bin, "code");
    assert!(options.ssh_args.is_empty());
}

#[test]
fn reads_every_connect_option() {
    let options = connect(&[
        "--local-port", "1", "--remote-port", "39045", "--code-host", "alias", "--ssh-bin", "/s",
        "--code-bin", "/c", "-q", "user@example.com", "--", "-p", "2222", "--",
    ]);
    assert_eq!(options.host, "user@example.com");
    assert_eq!(options.code_host, "alias");
    assert_eq!(options.local_port, Some(1));
    assert_eq!(options.remote_port, Some(39045));
    assert!(options.quiet);
    assert_eq!(options.ssh_bin, "/s");
    assert_eq!(options.code_bin, "/c");
    assert_eq!(options.ssh_args, ["-p", "2222", "--"]);
    assert!(connect(&["--quiet", "h"]).quiet);
}

#[test]
fn later_options_count() {
    assert_eq!(connect(&["--ssh-bin", "a", "h", "--ssh-bin", "b"]).ssh_bin, "b");
}

#[test]
fn takes_defaults_from_the_environment() {
    let env = Environment { ssh: Some("/e/ssh".to_string()), code: Some("/e/code".to_string()) };
    let options = parse_connect(&strings(&["h"]), &env).unwrap();
    assert_eq!(options.ssh_bin, "/e/ssh");
    assert_eq!(options.code_bin, "/e/code");
    let options = parse_connect(&strings(&["h", "--code-bin", "x"]), &env).unwrap();
    assert_eq!(options.code_bin, "x");
    assert_eq!(parse_install_shim(&strings(&["h"]), &env).unwrap().ssh_bin, "/e/ssh");
}

#[test]
fn raw_arguments_are_kept() {
    let options = connect(&["h", "--code-host", "--", "--", "-v", "--local-port"]);
    assert_eq!(options.code_host, "--");
    assert_eq!(options.ssh_args, ["-v", "--local-port"]);
}

#[test]
fn refuses_bad_connect_options() {
    assert_eq!(refused(&[]), "missing SSH host");
    assert_eq!(refused(&["-q", "--", "h"]), "missing SSH host");
    assert_eq!(refused(&["h", "--local-port"]), "--local-port requires a value");
    assert_eq!(refused(&["h", "--code-host"]), "--code-host requires a value");
    assert_eq!(refused(&["h", "--ssh-bin"]), "--ssh-bin requires a value");
    assert_eq!(refused(&["h", "--code-bin"]), "--code-bin requires a value");
    assert_eq!(refused(&["--remote-port", "x", "h"]), "--remote-port must be a TCP port number");
    assert_eq!(refused(&["h", "-h"]), "use `vssh --help` for usage");
    assert_eq!(refused(&["h", "--help"]), "use `vssh --help` for usage");
    assert_eq!(
        refused(&["-v", "h"]),
        "unknown vssh option `-v`; put raw ssh arguments after `--`"
    );
    assert_eq!(
        refused(&["h", "ls"]),
        "unexpected argument `ls`; put raw ssh arguments after `--`"
    );
}

#[test]
fn explains_bad_ports() {
    let error = parse_port(Some(&"70000".to_string()), "--local-port").unwrap_err();
    assert_eq!(
        error.report(),
        "--local-port must be a TCP port number: number too large to fit in target type"
    );
    assert_eq!(parse_port(Some(&"70".to_string()), "x").unwrap(), 70);
    let value = "v".to_string();
    assert_eq!(parse_value(Some(&value), "x").unwrap(), "v");
    assert!(matches!(parse_value(None, "x"), Err(Failure::MissingValue { name }) if name == "x"));
}

#[test]
fn reads_install_shim_options() {
    let args = strings(&["--ssh-bin", "s", "h", "--", "-p", "1"]);
    let options = parse_install_shim(&args, &plain()).unwrap();
    assert_eq!(options.host, "h");
    assert_eq!(options.ssh_bin, "s");
    assert_eq!(options.ssh_args, ["-p", "1"]);
}

#[test]
fn refuses_bad_install_shim_options() {
    let refused = |args: &[&str]| parse_install_shim(&strings(args), &plain()).unwrap_err().message();
    assert_eq!(refused(&[]), "missing SSH host");
    assert_eq!(refused(&["--ssh-bin"]), "--ssh-bin requires a value");
    assert_eq!(
        refused(&["-h"]),
        "usage: vssh install-shim [--ssh-bin PATH] <host> [-- raw ssh args]"
    );
    assert_eq!(
        refused(&["-q", "h"]),
        "unknown install-shim option `-q`; put raw ssh arguments after `--`"
    );
    assert_eq!(
        refused(&["h", "i"]),
        "unexpected argument `i`; put raw ssh arguments after `--`"
    );
}

#[test]
fn reads_commands() {
    assert!(matches!(parse(&[]), Ok(Cli::Help)));
    assert!(matches!(parse(&["-h"]), Ok(Cli::Help)));
    assert!(matches!(parse(&["--help", "x"]), Ok(Cli::Help)));
    assert!(matches!(parse(&["help"]), Ok(Cli::Help)));
    assert!(matches!(parse(&["print-shim"]), Ok(Cli::PrintShim)));
    assert!(matches!(parse(&["install-shim", "h"]), Ok(Cli::InstallShim(o)) if o.host == "h"));
    assert!(matches!(parse(&["h"]), Ok(Cli::Connect(o)) if o.host == "h"));
    assert_eq!(
        parse(&["print-shim", "x"]).unwrap_err().message(),
        "unexpected argument `x` for `print-shim`"
    );
    assert!(parse(&["install-shim"]).is_err());
    assert!(parse(&["-q"]).is_err());
}

#[test]
fn wants_utf8_arguments() {
    let error = Cli::parse(vec![Some("help".to_string()), None], &plain()).unwrap_err();
    assert!(matches!(error, Failure::ArgumentNotUtf8));
    assert_eq!(error.message(), "arguments must be valid UTF-8");
}

#[test]
fn rejects_extra_arguments() {
    assert!(ensure_no_extra(&[], "c").is_ok());
    let error = ensure_no_extra(&strings(&["a", "b"]), "c").unwrap_err();
    assert_eq!(error.message(), "unexpected argument `a` for `c`");
}
