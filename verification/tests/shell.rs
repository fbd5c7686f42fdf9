use vssh::shell::{remote_shell_command, shell_quote};

#[test]
fn quotes_shell_values() {
    assert_eq!(shell_quote("a'b"), "'a'\\''b'");
}

#[test]
fn quotes_plain_and_empty_values() {
    assert_eq!(shell_quote(""), "''");
    assert_eq!(shell_quote("a b $HOME `x`"), "'a b $HOME `x`'");
    assert_eq!(shell_quote("''"), "''\\'''\\'''");
}

/// Reads one word as a POSIX shell does.
fn shell_word(input: &str) -> String {
    let mut word = String::new();
    let mut chars = input.chars();
    while let Some(c) = chars.next() {
        match c {
            '\'' => {
                for inner in chars.by_ref() {
                    if inner == '\'' {
                        break;
                    }
                    word.push(inner);
                }
            }
            '\\' => word.push(chars.next().unwrap()),
            ' ' | ';' => break,
            other => word.push(other),
        }
    }
    word
}

#[test]
fn quoted_values_read_back() {
    for value in ["", "a", "it's", "'", "''x'", "; rm", "\\", "a\\'b", "é\n"] {
        assert_eq!(shell_word(&(shell_quote(value) + "; next")), value);
    }
}

#[test]
fn exports_the_session() {
    let command = remote_shell_command(40123, "abc", "me@h'x");
    assert_eq!(
        command,
        "export LOCAL_CODE_BRIDGE='http://127.0.0.1:40123'; \
         export LOCAL_CODE_TOKEN='abc'; \
         export LOCAL_CODE_SSH_HOST='me@h'\\''x'; \
         export PATH=\"$HOME/.local/bin:$PATH\"; \
         exec \"${SHELL:-/bin/sh}\" -l"
    );
    assert_eq!(
        shell_word(command.strip_prefix("export ").unwrap()),
        "LOCAL_CODE_BRIDGE=http://127.0.0.1:40123"
    );
}
