//! The command that a session runs in the remote shell, and quoting for it.

use vstd::prelude::*;
use crate::number::{self, decimal};
use crate::text::{self, chars_of};

verus! {

/// `s` with each single quote written so that it can stand between single
/// quotes: the quotes are closed, an escaped quote follows, and they are
/// opened again.
pub open spec fn escaped(s: Seq<char>) -> Seq<char>
    decreases s.len(),
{
    if s.len() == 0 {
        Seq::empty()
    } else if s.last() == '\'' {
        escaped(s.drop_last()) + seq!['\'', '\\', '\'', '\'']
    } else {
        escaped(s.drop_last()).push(s.last())
    }
}

/// `s` between single quotes.
pub open spec fn quoted(s: Seq<char>) -> Seq<char> {
    seq!['\''] + escaped(s) + seq!['\'']
}

/// The address of the bridge as the remote host sees it.
pub open spec fn bridge_url(remote_port: u16) -> Seq<char> {
    "http://127.0.0.1:"@ + number::decimal_text(remote_port as nat)
}

/// A shell assignment of `value` to the variable `name`.
pub open spec fn assignment(name: Seq<char>, value: Seq<char>) -> Seq<char> {
    name + "="@ + quoted(value)
}

/// The remote command from the end of the host's assignment on: it puts the
/// directory of the remote `code` command first and starts a login shell.
pub open spec fn command_after_host() -> Seq<char> {
    "; export PATH=\"$HOME/.local/bin:$PATH\"; exec \"${SHELL:-/bin/sh}\" -l"@
}

/// The remote command from the end of the token's assignment on.
pub open spec fn command_after_token(code_host: Seq<char>) -> Seq<char> {
    "; export "@ + assignment("LOCAL_CODE_SSH_HOST"@, code_host) + command_after_host()
}

/// The remote command from the end of the bridge's assignment on.
pub open spec fn command_after_bridge(token: Seq<char>, code_host: Seq<char>) -> Seq<char> {
    "; export "@ + assignment("LOCAL_CODE_TOKEN"@, token) + command_after_token(code_host)
}

/// The remote command: it tells the remote `code` command where the bridge
/// is, and how to identify itself to it, and starts a login shell.
pub open spec fn session_command(
    remote_port: u16,
    token: Seq<char>,
    code_host: Seq<char>,
) -> Seq<char> {
    "export "@ + assignment("LOCAL_CODE_BRIDGE"@, bridge_url(remote_port)) + command_after_bridge(
        token,
        code_host,
    )
}

/// Quotes a value for the shell.
pub fn shell_quote(value: &str) -> (r: String)
    ensures
        r@ == quoted(value@),
{
    let cs = chars_of(value);
    let mut r = String::new();
    r.push('\'');
    let mut i: usize = 0;
    while i < cs.len()
        invariant
            i <= cs.len(),
            cs@ == value@,
            r@ == seq!['\''] + escaped(value@.take(i as int)),
        decreases cs.len() - i,
    {
        let ghost upto = value@.take(i + 1);
        let ghost before = escaped(value@.take(i as int));
        assert(upto.drop_last() == value@.take(i as int));
        assert(upto.last() == cs@[i as int]);
        if cs[i] == '\'' {
            r.push('\'');
            r.push('\\');
            r.push('\'');
            r.push('\'');
            assert(r@ == seq!['\''] + (before + seq!['\'', '\\', '\'', '\'']));
        } else {
            r.push(cs[i]);
            assert(r@ == seq!['\''] + before.push(cs@[i as int]));
        }
        i += 1;
    }
    assert(value@.take(i as int) == value@);
    r.push('\'');
    assert(r@ == quoted(value@));
    r
}

/// The command that a session runs in the remote shell.
pub fn remote_shell_command(remote_port: u16, token: &str, code_host: &str) -> (r: String)
    ensures
        r@ == session_command(remote_port, token@, code_host@),
{
    let bridge = "http://127.0.0.1:".to_owned().concat(decimal(remote_port).as_str());
    let r = "export ".to_owned().concat(
        shell_assignment("LOCAL_CODE_BRIDGE", bridge.as_str()).as_str(),
    ).concat("; export ").concat(shell_assignment("LOCAL_CODE_TOKEN", token).as_str()).concat(
        "; export ",
    ).concat(shell_assignment("LOCAL_CODE_SSH_HOST", code_host).as_str()).concat(
        "; export PATH=\"$HOME/.local/bin:$PATH\"; exec \"${SHELL:-/bin/sh}\" -l",
    );
    assert(r@ == session_command(remote_port, token@, code_host@));
    r
}

/// Assigns `value` to the shell variable `name`.
fn shell_assignment(name: &str, value: &str) -> (r: String)
    ensures
        r@ == assignment(name@, value@),
{
    name.to_owned().concat("=").concat(shell_quote(value).as_str())
}

/// Whether a shell ends a word before an unquoted `c`.
pub open spec fn ends_word(c: char) -> bool {
    c == ' ' || c == '\t' || c == '\n' || c == ';' || c == '&' || c == '|' || c == '<' || c == '>'
        || c == '(' || c == ')'
}

/// Whether an unquoted `c` has a meaning to the shell that `shell_word` does
/// not follow.
pub open spec fn is_special(c: char) -> bool {
    c == '$' || c == '`' || c == '"' || c == '*' || c == '?' || c == '[' || c == '#' || c == '~'
}

/// The word that a POSIX shell reads at the beginning of `s`, and what is
/// left after it: text between single quotes is taken as it is, a backslash
/// outside them stands for the character after it, and any other character
/// for itself. `None` where a quote is left open, and where the word holds
/// something with a further meaning.
pub open spec fn shell_word(s: Seq<char>) -> Option<(Seq<char>, Seq<char>)>
    decreases s.len(),
{
    if s.len() == 0 || ends_word(s[0]) {
        Some((Seq::empty(), s))
    } else if s[0] == '\'' {
        let inside = text::first_of(s.skip(1), '\'');
        if 0 <= inside < s.len() - 1 {
            match shell_word(s.skip(inside + 2)) {
                Some((word, rest)) => Some((s.subrange(1, inside + 1) + word, rest)),
                None => None,
            }
        } else {
            None
        }
    } else if s[0] == '\\' {
        if s.len() < 2 || s[1] == '\n' {
            None
        } else {
            match shell_word(s.skip(2)) {
                Some((word, rest)) => Some((seq![s[1]] + word, rest)),
                None => None,
            }
        }
    } else if is_special(s[0]) {
        None
    } else {
        match shell_word(s.skip(1)) {
            Some((word, rest)) => Some((seq![s[0]] + word, rest)),
            None => None,
        }
    }
}

/// Whether a word ends where `rest` begins.
pub open spec fn word_ends_at(rest: Seq<char>) -> bool {
    rest.len() == 0 || ends_word(rest[0])
}

proof fn lemma_escaped_concat(a: Seq<char>, b: Seq<char>)
    ensures
        escaped(a + b) == escaped(a) + escaped(b),
    decreases b.len(),
{
    if b.len() == 0 {
        assert(a + b == a);
        assert(escaped(a) + escaped(b) == escaped(a));
    } else {
        let s = a + b;
        assert(s.drop_last() == a + b.drop_last());
        assert(s.last() == b.last());
        lemma_escaped_concat(a, b.drop_last());
        assert(escaped(s) == escaped(a) + escaped(b));
    }
}

proof fn lemma_escaped_plain(s: Seq<char>)
    requires
        forall|i: int| 0 <= i < s.len() ==> s[i] != '\'',
    ensures
        escaped(s) == s,
    decreases s.len(),
{
    if s.len() > 0 {
        lemma_escaped_plain(s.drop_last());
        assert(s.drop_last().push(s.last()) == s);
    }
}

/// A shell reads a quoted value back as the value itself, whatever it holds.
#[verifier::rlimit(30)]
pub proof fn law_quote_reads_back(value: Seq<char>, rest: Seq<char>)
    requires
        word_ends_at(rest),
    ensures
        shell_word(quoted(value) + rest) == Some((value, rest)),
    decreases value.len(),
{
    let s = quoted(value) + rest;
    let cut = text::first_of(value, '\'');
    text::lemma_first_of(value, '\'');
    let plain = value.take(cut);
    lemma_escaped_plain(plain);
    if cut == value.len() {
        assert(plain == value);
        assert(s.skip(1) == value + seq!['\''] + rest);
        text::lemma_first_of_is(s.skip(1), '\'', cut);
        assert(s.skip(cut + 2) == rest);
        assert(shell_word(rest) == Some((Seq::<char>::empty(), rest)));
        assert(s.subrange(1, cut + 1) + Seq::<char>::empty() == value);
    } else {
        let after = value.skip(cut + 1);
        let quote = seq!['\''];
        assert(value == plain + quote + after);
        lemma_escaped_concat(plain + quote, after);
        lemma_escaped_concat(plain, quote);
        assert(quote.drop_last() == Seq::<char>::empty());
        assert(escaped(quote.drop_last()) == Seq::<char>::empty());
        assert(escaped(quote) == seq!['\'', '\\', '\'', '\'']);
        let next = quoted(after) + rest;
        assert(s == seq!['\''] + plain + seq!['\'', '\\', '\''] + next);
        assert(s.skip(1) == plain + seq!['\'', '\\', '\''] + next);
        text::lemma_first_of_is(s.skip(1), '\'', cut);
        let middle = s.skip(cut + 2);
        assert(middle == seq!['\\', '\''] + next);
        assert(middle.skip(2) == next);
        law_quote_reads_back(after, rest);
        assert(shell_word(middle) == Some((seq!['\''] + after, rest)));
        assert(s.subrange(1, cut + 1) == plain);
        assert(plain + (quote + after) == value);
    }
}

/// Whether each character of `s` stands for itself outside quotes.
pub open spec fn is_ordinary(s: Seq<char>) -> bool {
    forall|i: int|
        0 <= i < s.len() ==> !ends_word(#[trigger] s[i]) && !is_special(s[i]) && s[i] != '\''
            && s[i] != '\\'
}

proof fn lemma_ordinary_before_word(
    s: Seq<char>,
    tail: Seq<char>,
    word: Seq<char>,
    rest: Seq<char>,
)
    requires
        is_ordinary(s),
        shell_word(tail) == Some((word, rest)),
    ensures
        shell_word(s + tail) == Some((s + word, rest)),
    decreases s.len(),
{
    if s.len() == 0 {
        assert(s + tail == tail);
        assert(s + word == word);
    } else {
        let whole = s + tail;
        assert(whole.skip(1) == s.skip(1) + tail);
        assert forall|i: int| 0 <= i < s.skip(1).len() implies !ends_word(#[trigger] s.skip(1)[i])
            && !is_special(s.skip(1)[i]) && s.skip(1)[i] != '\'' && s.skip(1)[i] != '\\' by {
            assert(s.skip(1)[i] == s[i + 1]);
        }
        lemma_ordinary_before_word(s.skip(1), tail, word, rest);
        assert(whole[0] == s[0]);
        assert(seq![s[0]] + (s.skip(1) + word) == s + word);
    }
}

/// A shell reads an assignment to a plainly named variable back as the name,
/// `=` and the value, whatever the value holds.
pub proof fn law_assignment_reads_back(name: Seq<char>, value: Seq<char>, rest: Seq<char>)
    requires
        is_ordinary(name),
        word_ends_at(rest),
    ensures
        shell_word(assignment(name, value) + rest) == Some((name + "="@ + value, rest)),
{
    let head = name + "="@;
    reveal_strlit("=");
    law_quote_reads_back(value, rest);
    lemma_ordinary_before_word(head, quoted(value) + rest, value, rest);
    assert(assignment(name, value) + rest == head + (quoted(value) + rest));
}

/// The remote shell gets the bridge's address, the token and the host exactly
/// as the session has them, whatever they hold.
pub proof fn law_session_values_reach_the_shell(
    remote_port: u16,
    token: Seq<char>,
    code_host: Seq<char>,
)
    ensures
        shell_word(
            assignment("LOCAL_CODE_BRIDGE"@, bridge_url(remote_port)) + command_after_bridge(
                token,
                code_host,
            ),
        ) == Some(
            (
                "LOCAL_CODE_BRIDGE"@ + "="@ + bridge_url(remote_port),
                command_after_bridge(token, code_host),
            ),
        ),
        shell_word(assignment("LOCAL_CODE_TOKEN"@, token) + command_after_token(code_host)) == Some(
            ("LOCAL_CODE_TOKEN"@ + "="@ + token, command_after_token(code_host)),
        ),
        shell_word(assignment("LOCAL_CODE_SSH_HOST"@, code_host) + command_after_host()) == Some(
            ("LOCAL_CODE_SSH_HOST"@ + "="@ + code_host, command_after_host()),
        ),
{
    reveal_strlit("LOCAL_CODE_BRIDGE");
    reveal_strlit("LOCAL_CODE_TOKEN");
    reveal_strlit("LOCAL_CODE_SSH_HOST");
    reveal_strlit("; export ");
    reveal_strlit("; export PATH=\"$HOME/.local/bin:$PATH\"; exec \"${SHELL:-/bin/sh}\" -l");
    law_assignment_reads_back(
        "LOCAL_CODE_BRIDGE"@,
        bridge_url(remote_port),
        command_after_bridge(token, code_host),
    );
    law_assignment_reads_back("LOCAL_CODE_TOKEN"@, token, command_after_token(code_host));
    law_assignment_reads_back("LOCAL_CODE_SSH_HOST"@, code_host, command_after_host());
}

/// `s` without the blanks at its beginning.
pub open spec fn after_blanks(s: Seq<char>) -> Seq<char>
    decreases s.len(),
{
    if s.len() > 0 && (s[0] == ' ' || s[0] == '\t') {
        after_blanks(s.skip(1))
    } else {
        s
    }
}

/// The words of the simple command that a POSIX shell reads at the beginning
/// of `s`, up to a `;`, a line end or the end of `s`, and what is left from
/// there on. `None` where another operator follows a word, and where a word
/// cannot be read.
pub open spec fn simple_command(s: Seq<char>) -> Option<(Seq<Seq<char>>, Seq<char>)>
    decreases s.len(),
{
    let start = after_blanks(s);
    if start.len() == 0 || start[0] == ';' || start[0] == '\n' {
        Some((Seq::empty(), start))
    } else if ends_word(start[0]) {
        None
    } else {
        match shell_word(start) {
            Some((word, rest)) if rest.len() < s.len() => match simple_command(rest) {
                Some((words, left)) => Some((seq![word] + words, left)),
                None => None,
            },
            _ => None,
        }
    }
}

proof fn lemma_export(blank: Seq<char>, name: Seq<char>, value: Seq<char>, rest: Seq<char>)
    requires
        blank.len() == 0 || blank == seq![' '],
        name.len() > 0,
        is_ordinary(name),
        rest.len() > 0,
        rest[0] == ';',
    ensures
        simple_command(blank + "export "@ + assignment(name, value) + rest) == Some(
            (seq!["export"@, name + "="@ + value], rest),
        ),
{
    reveal_strlit("export ");
    reveal_strlit("export");
    let assigned = assignment(name, value) + rest;
    let spaced = seq![' '] + assigned;
    let start = "export"@ + spaced;
    let s = blank + "export "@ + assignment(name, value) + rest;
    assert("export "@ == "export"@ + seq![' ']);
    assert(s == blank + start);
    assert(start[0] == 'e');
    if blank.len() == 0 {
        assert(s == start);
    } else {
        assert(s.skip(1) == start);
    }
    assert(after_blanks(start) == start);
    assert(after_blanks(s) == start);
    let empty = Seq::<char>::empty();
    assert(shell_word(spaced) == Some((empty, spaced)));
    lemma_ordinary_before_word("export"@, spaced, empty, spaced);
    assert("export"@ + empty == "export"@);
    assert(assigned[0] == name[0]);
    assert(!ends_word(name[0]));
    assert(spaced.skip(1) == assigned);
    assert(after_blanks(assigned) == assigned);
    assert(after_blanks(spaced) == assigned);
    law_assignment_reads_back(name, value, rest);
    let none = Seq::<Seq<char>>::empty();
    assert(after_blanks(rest) == rest);
    assert(simple_command(rest) == Some((none, rest)));
    let word = name + "="@ + value;
    assert(seq![word] + none == seq![word]);
    assert(simple_command(spaced) == Some((seq![word], rest)));
    assert(seq!["export"@] + seq![word] == seq!["export"@, word]);
}

/// A shell that reads the remote command from its beginning exports the
/// bridge's address, the token and the host, each exactly as the session has
/// it and whatever it holds. Then it puts `~/.local/bin` first in the search
/// path and becomes a login shell.
pub proof fn law_remote_command_exports(remote_port: u16, token: Seq<char>, code_host: Seq<char>)
    ensures
        simple_command(session_command(remote_port, token, code_host)) matches Some((first, rest))
            && {
            &&& first.len() == 2
            &&& first[0] == "export"@
            &&& first[1] == "LOCAL_CODE_BRIDGE=http://127.0.0.1:"@ + number::decimal_text(
                remote_port as nat,
            )
            &&& rest.len() > 0
            &&& rest[0] == ';'
            &&& simple_command(rest.skip(1)) matches Some((second, rest)) && {
                &&& second.len() == 2
                &&& second[0] == "export"@
                &&& second[1] == "LOCAL_CODE_TOKEN="@ + token
                &&& rest.len() > 0
                &&& rest[0] == ';'
                &&& simple_command(rest.skip(1)) matches Some((third, rest)) && {
                    &&& third.len() == 2
                    &&& third[0] == "export"@
                    &&& third[1] == "LOCAL_CODE_SSH_HOST="@ + code_host
                    &&& rest
                        == "; export PATH=\"$HOME/.local/bin:$PATH\"; exec \"${SHELL:-/bin/sh}\" -l"@
                }
            }
        },
{
    reveal_strlit("LOCAL_CODE_BRIDGE");
    reveal_strlit("LOCAL_CODE_TOKEN");
    reveal_strlit("LOCAL_CODE_SSH_HOST");
    reveal_strlit("LOCAL_CODE_TOKEN=");
    reveal_strlit("LOCAL_CODE_SSH_HOST=");
    reveal_strlit("; export ");
    reveal_strlit("export ");
    reveal_strlit("=");
    reveal_strlit("http://127.0.0.1:");
    reveal_strlit("LOCAL_CODE_BRIDGE=http://127.0.0.1:");
    reveal_strlit("; export PATH=\"$HOME/.local/bin:$PATH\"; exec \"${SHELL:-/bin/sh}\" -l");
    let empty = Seq::<char>::empty();
    let space = seq![' '];
    let command = session_command(remote_port, token, code_host);
    let after_bridge = command_after_bridge(token, code_host);
    let after_token = command_after_token(code_host);
    let url = bridge_url(remote_port);
    lemma_export(empty, "LOCAL_CODE_BRIDGE"@, url, after_bridge);
    assert(command == empty + "export "@ + assignment("LOCAL_CODE_BRIDGE"@, url) + after_bridge);
    assert("LOCAL_CODE_BRIDGE"@ + "="@ + "http://127.0.0.1:"@
        == "LOCAL_CODE_BRIDGE=http://127.0.0.1:"@);
    assert("LOCAL_CODE_BRIDGE"@ + "="@ + url == "LOCAL_CODE_BRIDGE=http://127.0.0.1:"@
        + number::decimal_text(remote_port as nat));
    lemma_export(space, "LOCAL_CODE_TOKEN"@, token, after_token);
    assert(after_bridge.skip(1) == space + "export "@ + assignment("LOCAL_CODE_TOKEN"@, token)
        + after_token);
    assert("LOCAL_CODE_TOKEN"@ + "="@ == "LOCAL_CODE_TOKEN="@);
    lemma_export(space, "LOCAL_CODE_SSH_HOST"@, code_host, command_after_host());
    assert(after_token.skip(1) == space + "export "@ + assignment(
        "LOCAL_CODE_SSH_HOST"@,
        code_host,
    ) + command_after_host());
    assert("LOCAL_CODE_SSH_HOST"@ + "="@ == "LOCAL_CODE_SSH_HOST="@);
}

} // verus!
