use vssh::authority::{code_remote_authority, ssh_port, ssh_port_option, white_space};
use vssh::error::Failure;
use vssh::number::{decimal, parse_u16, NumberError};

fn strings(items: &[&str]) -> Vec<String> {
    items.iter().map(|item| item.to_string()).collect()
}

fn target(host: &str, args: &[&str]) -> String {
    code_remote_authority(host, &strings(args)).unwrap()
}

#[test]
fn adds_raw_ssh_port_to_code_authority() {
    assert_eq!(
        code_remote_authority("dm3", &["-p".to_string(), "11121".to_string()]).unwrap(),
        "dm3:11121"
    );
    assert_eq!(
        code_remote_authority("user@dm3", &["-p2222".to_string()]).unwrap(),
        "user@dm3:2222"
    );
}

#[test]
fn recognizes_ssh_port_o_option() {
    assert_eq!(
        code_remote_authority("dm3", &["-o".to_string(), "Port=11121".to_string()]).unwrap(),
        "dm3:11121"
    );
    assert_eq!(
        code_remote_authority("dm3", &["-oport=2222".to_string()]).unwrap(),
        "dm3:2222"
    );
}

#[test]
fn keeps_code_authority_without_raw_ssh_port() {
    assert_eq!(
        code_remote_authority("dm3", &["-i".to_string(), "key".to_string()]).unwrap(),
        "dm3"
    );
}

#[test]
fn replaces_existing_code_authority_port() {
    assert_eq!(
        code_remote_authority("user@dm3:22", &["-p11121".to_string()]).unwrap(),
        "user@dm3:11121"
    );
    assert_eq!(
        code_remote_authority("2001:db8::1", &["-p11121".to_string()]).unwrap(),
        "[2001:db8::1]:11121"
    );
}

#[test]
fn handles_brackets_and_odd_hosts() {
    assert_eq!(target("[2001:db8::1]:22", &["-p5"]), "[2001:db8::1]:5");
    assert_eq!(target("u@[::1]", &["-p5"]), "u@[::1]:5");
    assert_eq!(target("a@b@c:+7", &["-p5"]), "a@b@c:5");
    assert_eq!(target("h:x", &["-p5"]), "[h:x]:5");
    assert_eq!(target("h:70000", &["-p5"]), "[h:70000]:5");
    assert_eq!(target("[h", &["-p5"]), "[h:5");
    assert_eq!(target("u@", &["-p5"]), "u@:5");
    assert_eq!(target("h:22", &[]), "h:22");
}

#[test]
fn naming_another_port_replaces_the_first() {
    for host in ["h", "u@h:1", "::1", "[::1]:9", "h:x", "[h", "u@", "é"] {
        let once = target(host, &["-p", "22"]);
        assert_eq!(target(&once, &["-p", "65535"]), target(host, &["-p", "65535"]));
    }
}

#[test]
fn finds_the_first_port() {
    let first = |args: &[&str]| ssh_port(&strings(args)).unwrap();
    assert_eq!(first(&[]), None);
    assert_eq!(first(&["-v", "-o", "User=x", "-p", "22", "-p23"]), Some(22));
    assert_eq!(first(&["-oPort=22"]), Some(22));
    assert_eq!(first(&["-o", "PORT 0022"]), Some(22));
    assert_eq!(first(&["-o"]), None);
    assert_eq!(first(&["-o", "-p"]), None);
    assert_eq!(first(&["-"]), None);
}

#[test]
fn rejects_bad_ports() {
    let error = ssh_port(&strings(&["-p"])).unwrap_err();
    assert!(matches!(error, Failure::MissingSshPort));
    assert_eq!(error.message(), "SSH option `-p` requires a port");
    assert_eq!(error.cause(), None);
    let error = ssh_port(&strings(&["-px"])).unwrap_err();
    assert_eq!(error.message(), "SSH port `x` is not a TCP port number");
    assert_eq!(error.cause(), Some("invalid digit found in string".to_string()));
    let error = code_remote_authority("h", &strings(&["-o", "Port="])).unwrap_err();
    assert_eq!(
        error.report(),
        "SSH port `` is not a TCP port number: cannot parse integer from empty string"
    );
}

#[test]
fn reads_port_options() {
    assert_eq!(ssh_port_option("Port=22"), Some("22"));
    assert_eq!(ssh_port_option("\u{2003} pOrT \t= = 22 x \u{a0}"), Some("22 x"));
    assert_eq!(ssh_port_option("port"), Some(""));
    assert_eq!(ssh_port_option("Ports=22"), None);
    assert_eq!(ssh_port_option("User=port"), None);
    assert_eq!(ssh_port_option("port\u{b}22"), None);
    assert_eq!(ssh_port_option("  "), None);
}

#[test]
fn knows_white_space() {
    for code in 0..=0x10FFFFu32 {
        if let Some(c) = char::from_u32(code) {
            assert_eq!(white_space(c), c.is_whitespace());
        }
    }
}

#[test]
fn reads_numbers_as_the_standard_library_does() {
    let texts = [
        "", "+", "-", "0", "+0", "00022", "65535", "65536", "6553x", "65536x", "6554x", "99999x",
        "-1", "+-1", "++1", " 1", "1 ", "é", "655é", "99999999999999999999", "x99999",
    ];
    for text in texts {
        let ours = parse_u16(text);
        match text.parse::<u16>() {
            Ok(n) => assert_eq!(ours, Ok(n)),
            Err(e) => assert_eq!(ours.unwrap_err().describe(), e.to_string()),
        }
    }
    assert_eq!(parse_u16(""), Err(NumberError::Empty));
    assert_eq!(parse_u16("+"), Err(NumberError::InvalidDigit));
    assert_eq!(parse_u16("65536"), Err(NumberError::TooLarge));
}

#[test]
fn writes_numbers() {
    for n in 0..=u16::MAX {
        assert_eq!(decimal(n), n.to_string());
        assert_eq!(parse_u16(&decimal(n)), Ok(n));
    }
}
