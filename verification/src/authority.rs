//! The target that VS Code connects to: the host alias, with the SSH port
//! that the raw SSH options name.

use vstd::prelude::*;
use crate::error::{Error, ErrorView, Failure};
use crate::number::{self, decimal, parse_u16};
use crate::text::{self, chars_of, find_first, find_last};

verus! {

/// The characters with the Unicode property `White_Space`.
pub open spec fn is_white_space(c: char) -> bool {
    let n = c as int;
    9 <= n <= 13 || n == 0x20 || n == 0x85 || n == 0xA0 || n == 0x1680 || 0x2000 <= n <= 0x200A || n
        == 0x2028 || n == 0x2029 || n == 0x202F || n == 0x205F || n == 0x3000
}

/// Whether `c` is white space.
pub fn white_space(c: char) -> (r: bool)
    ensures
        r == is_white_space(c),
{
    let n: u32 = c as u32;
    (9 <= n && n <= 13) || n == 0x20 || n == 0x85 || n == 0xA0 || n == 0x1680 || (0x2000 <= n && n
        <= 0x200A) || n == 0x2028 || n == 0x2029 || n == 0x202F || n == 0x205F || n == 0x3000
}

/// `s` without the white space at its beginning.
pub open spec fn trimmed_start(s: Seq<char>) -> Seq<char>
    decreases s.len(),
{
    if s.len() > 0 && is_white_space(s[0]) {
        trimmed_start(s.skip(1))
    } else {
        s
    }
}

/// `s` without the white space at its end.
pub open spec fn trimmed_end(s: Seq<char>) -> Seq<char>
    decreases s.len(),
{
    if s.len() > 0 && is_white_space(s.last()) {
        trimmed_end(s.drop_last())
    } else {
        s
    }
}

/// What parts an SSH option's keyword from its value: `=`, and ASCII white
/// space.
pub open spec fn is_separator(c: char) -> bool {
    let n = c as int;
    c == '=' || n == 9 || n == 10 || n == 12 || n == 13 || n == 32
}

fn separator(c: char) -> (r: bool)
    ensures
        r == is_separator(c),
{
    let n: u32 = c as u32;
    c == '=' || n == 9 || n == 10 || n == 12 || n == 13 || n == 32
}

/// How many characters stand before the first separator.
pub open spec fn keyword_length(s: Seq<char>) -> int
    decreases s.len(),
{
    if s.len() == 0 || is_separator(s[0]) {
        0
    } else {
        1 + keyword_length(s.skip(1))
    }
}

/// `s` without the separators at its beginning.
pub open spec fn after_separators(s: Seq<char>) -> Seq<char>
    decreases s.len(),
{
    if s.len() > 0 && is_separator(s[0]) {
        after_separators(s.skip(1))
    } else {
        s
    }
}

/// An ASCII capital letter as the small one.
pub open spec fn lower(c: char) -> char {
    if 'A' <= c <= 'Z' {
        (c as int + 32) as char
    } else {
        c
    }
}

/// Whether `s` is the keyword `port`, in whatever case.
pub open spec fn is_port_keyword(s: Seq<char>) -> bool {
    s.len() == 4 && lower(s[0]) == 'p' && lower(s[1]) == 'o' && lower(s[2]) == 'r' && lower(s[3])
        == 't'
}

/// The value that an SSH configuration option such as `Port=22` gives the
/// port.
pub open spec fn port_option(option: Seq<char>) -> Option<Seq<char>> {
    let trimmed = trimmed_end(trimmed_start(option));
    let end = keyword_length(trimmed);
    if is_port_keyword(trimmed.take(end)) {
        Some(after_separators(trimmed.skip(end)))
    } else {
        None
    }
}

fn is_letter(c: char, small: char, capital: char) -> (r: bool)
    requires
        'a' <= small <= 'z',
        capital as int + 32 == small as int,
    ensures
        r == (lower(c) == small),
{
    c == small || c == capital
}

/// Where the text between the white space at the ends of `cs` begins and
/// ends.
fn trim_bounds(cs: &[char]) -> (r: (usize, usize))
    ensures
        r.0 <= r.1 <= cs@.len(),
        trimmed_end(trimmed_start(cs@)) == cs@.subrange(r.0 as int, r.1 as int),
{
    let mut from: usize = 0;
    assert(cs@.skip(0) == cs@);
    while from < cs.len() && white_space(cs[from])
        invariant
            from <= cs@.len(),
            trimmed_start(cs@) == trimmed_start(cs@.skip(from as int)),
        decreases cs@.len() - from,
    {
        assert(cs@.skip(from as int).skip(1) == cs@.skip(from + 1));
        from += 1;
    }
    let ghost started = cs@.skip(from as int);
    assert(trimmed_start(cs@) == started);
    let mut to: usize = cs.len();
    assert(cs@.subrange(from as int, to as int) == started);
    while to > from && white_space(cs[to - 1])
        invariant
            from <= to <= cs@.len(),
            trimmed_end(started) == trimmed_end(cs@.subrange(from as int, to as int)),
        decreases to,
    {
        assert(cs@.subrange(from as int, to as int).drop_last() == cs@.subrange(
            from as int,
            to - 1,
        ));
        to -= 1;
    }
    (from, to)
}

/// Where the keyword that begins `cs[from..to]` ends.
fn keyword_end(cs: &[char], from: usize, to: usize) -> (r: usize)
    requires
        from <= to <= cs@.len(),
    ensures
        from <= r <= to,
        r - from == keyword_length(cs@.subrange(from as int, to as int)),
{
    let ghost all = cs@.subrange(from as int, to as int);
    let mut end: usize = from;
    assert(all.skip(0) == all);
    while end < to && !separator(cs[end])
        invariant
            from <= end <= to <= cs@.len(),
            all == cs@.subrange(from as int, to as int),
            keyword_length(all) == end - from + keyword_length(all.skip(end - from)),
        decreases to - end,
    {
        assert(all.skip(end - from).skip(1) == all.skip(end + 1 - from));
        end += 1;
    }
    end
}

/// Where what follows the separators that begin `cs[from..to]` begins.
fn value_start(cs: &[char], from: usize, to: usize) -> (r: usize)
    requires
        from <= to <= cs@.len(),
    ensures
        from <= r <= to,
        after_separators(cs@.subrange(from as int, to as int)) == cs@.subrange(
            r as int,
            to as int,
        ),
{
    let ghost all = cs@.subrange(from as int, to as int);
    let mut start: usize = from;
    while start < to && separator(cs[start])
        invariant
            from <= start <= to <= cs@.len(),
            all == cs@.subrange(from as int, to as int),
            after_separators(all) == after_separators(cs@.subrange(start as int, to as int)),
        decreases to - start,
    {
        assert(cs@.subrange(start as int, to as int).skip(1) == cs@.subrange(
            start + 1,
            to as int,
        ));
        start += 1;
    }
    start
}

/// The value that an SSH configuration option gives the port.
pub fn ssh_port_option(option: &str) -> (r: Option<&str>)
    ensures
        match r {
            Some(value) => port_option(option@) == Some(value@),
            None => port_option(option@) is None,
        },
{
    let cs = chars_of(option);
    let (from, to) = trim_bounds(&cs);
    let end: usize = keyword_end(&cs, from, to);
    let ghost trimmed = option@.subrange(from as int, to as int);
    assert(trimmed.take(end - from) == option@.subrange(from as int, end as int));
    assert(trimmed.skip(end - from) == option@.subrange(end as int, to as int));
    let is_port = end - from == 4 && is_letter(cs[from], 'p', 'P') && is_letter(
        cs[from + 1],
        'o',
        'O',
    ) && is_letter(cs[from + 2], 'r', 'R') && is_letter(cs[from + 3], 't', 'T');
    if !is_port {
        return None;
    }
    let start: usize = value_start(&cs, end, to);
    Some(option.substring_char(start, to))
}

/// The port that a text names.
pub open spec fn named_port(value: Seq<char>) -> Result<Option<u16>, ErrorView> {
    match number::read_u16(value) {
        Ok(port) => Ok(Some(port)),
        Err(reason) => Err(Failure::NotASshPort { value, reason }),
    }
}

/// Whether `arg` begins with the one-letter SSH option `letter`.
pub open spec fn has_option(arg: Seq<char>, letter: char) -> bool {
    arg.len() >= 2 && arg[0] == '-' && arg[1] == letter
}

/// The port that the raw SSH options name first, as `-p PORT`, `-pPORT`,
/// `-o Port=PORT` or `-oPort=PORT`.
pub open spec fn named_ssh_port(args: Seq<Seq<char>>) -> Result<Option<u16>, ErrorView>
    decreases args.len(),
{
    if args.len() == 0 {
        Ok(None)
    } else {
        let arg = args[0];
        if has_option(arg, 'p') {
            if arg.len() > 2 {
                named_port(arg.skip(2))
            } else if args.len() < 2 {
                Err(Failure::MissingSshPort)
            } else {
                named_port(args[1])
            }
        } else if has_option(arg, 'o') && arg.len() == 2 {
            if args.len() < 2 {
                Ok(None)
            } else {
                match port_option(args[1]) {
                    Some(value) => named_port(value),
                    None => named_ssh_port(args.skip(2)),
                }
            }
        } else if has_option(arg, 'o') {
            match port_option(arg.skip(2)) {
                Some(value) => named_port(value),
                None => named_ssh_port(args.skip(1)),
            }
        } else {
            named_ssh_port(args.skip(1))
        }
    }
}

fn read_port(value: &str) -> (r: Result<Option<u16>, Error>)
    ensures
        match r {
            Ok(port) => named_port(value@) == Ok::<Option<u16>, ErrorView>(port),
            Err(e) => named_port(value@) == Err::<Option<u16>, ErrorView>(e@),
        },
{
    match parse_u16(value) {
        Ok(port) => Ok(Some(port)),
        Err(reason) => Err(Failure::NotASshPort { value: value.to_owned(), reason }),
    }
}

/// The port that the raw SSH options name.
pub fn ssh_port(args: &[String]) -> (r: Result<Option<u16>, Error>)
    ensures
        match r {
            Ok(port) => named_ssh_port(text::texts(args@)) == Ok::<Option<u16>, ErrorView>(port),
            Err(e) => named_ssh_port(text::texts(args@)) == Err::<Option<u16>, ErrorView>(e@),
        },
{
    let ghost all = text::texts(args@);
    let mut i: usize = 0;
    assert(all.skip(0) == all);
    while i < args.len()
        invariant
            i <= args.len(),
            all == text::texts(args@),
            named_ssh_port(all) == named_ssh_port(all.skip(i as int)),
        decreases args.len() - i,
    {
        let ghost rest = all.skip(i as int);
        let arg = args[i].as_str();
        assert(rest[0] == arg@);
        assert(rest.skip(1) == all.skip(i + 1));
        let length: usize = arg.unicode_len();
        if length >= 2 && arg.get_char(0) == '-' && arg.get_char(1) == 'p' {
            if length > 2 {
                assert(arg@.subrange(2, length as int) == arg@.skip(2));
                return read_port(arg.substring_char(2, length));
            }
            if args.len() - i < 2 {
                return Err(Failure::MissingSshPort);
            }
            assert(rest[1] == args@[i + 1]@);
            return read_port(args[i + 1].as_str());
        }
        if length >= 2 && arg.get_char(0) == '-' && arg.get_char(1) == 'o' {
            if length == 2 {
                if args.len() - i < 2 {
                    return Ok(None);
                }
                i += 1;
                assert(rest[1] == args@[i as int]@);
                assert(rest.skip(2) == all.skip(i + 1));
                if let Some(value) = ssh_port_option(args[i].as_str()) {
                    return read_port(value);
                }
            } else {
                assert(arg@.subrange(2, length as int) == arg@.skip(2));
                if let Some(value) = ssh_port_option(arg.substring_char(2, length)) {
                    return read_port(value);
                }
            }
        }
        i += 1;
    }
    assert(all.skip(i as int) == Seq::<Seq<char>>::empty());
    Ok(None)
}

/// Where the host begins in a `user@host` text.
pub open spec fn host_start(target: Seq<char>) -> int {
    text::last_of(target, '@') + 1
}

/// A host without the port that it may carry: `[host]:port` and `host:port`
/// lose the port, while a host with several colons is an IPv6 address.
pub open spec fn bare_host(host: Seq<char>) -> Seq<char> {
    let close = 1 + text::first_of(host.skip(1), ']');
    let colon = text::last_of(host, ':');
    if text::begins_with(host, '[') && close < host.len() {
        host.take(close + 1)
    } else if colon >= 0 && text::first_of(host, ':') == colon && number::read_u16(
        host.skip(colon + 1),
    ) is Ok {
        host.take(colon)
    } else {
        host
    }
}

/// A host, in brackets where it holds a colon.
pub open spec fn bracketed(host: Seq<char>) -> Seq<char> {
    if host.contains(':') && !text::begins_with(host, '[') {
        "["@ + host + "]"@
    } else {
        host
    }
}

/// The target `target` with the port `port` in place of the one that it may
/// carry.
pub open spec fn with_port(target: Seq<char>, port: u16) -> Seq<char> {
    target.take(host_start(target)) + bracketed(bare_host(target.skip(host_start(target)))) + ":"@
        + number::decimal_text(port as nat)
}

/// The target that VS Code connects to.
pub open spec fn remote_authority(target: Seq<char>, ssh_args: Seq<Seq<char>>) -> Result<
    Seq<char>,
    ErrorView,
> {
    match named_ssh_port(ssh_args) {
        Err(e) => Err(e),
        Ok(None) => Ok(target),
        Ok(Some(port)) => Ok(with_port(target, port)),
    }
}

/// A host without the port that it may carry.
fn strip_port(host: &str) -> (r: &str)
    ensures
        r@ == bare_host(host@),
{
    let cs = chars_of(host);
    proof {
        text::lemma_last_of(host@, ':');
        text::lemma_first_of(host@, ':');
        text::lemma_first_of(host@.skip(1), ']');
    }
    if cs.len() > 0 && cs[0] == '[' {
        let tail = vstd::slice::slice_subrange(&cs, 1, cs.len());
        assert(tail@ == host@.skip(1));
        let close: usize = find_first(tail, ']');
        if close < tail.len() {
            assert(host@.subrange(0, close + 2) == host@.take(close + 2));
            return host.substring_char(0, close + 2);
        }
    }
    if let Some(colon) = find_last(&cs, ':') {
        if find_first(&cs, ':') == colon {
            assert(host@.subrange(colon + 1, cs@.len() as int) == host@.skip(colon + 1));
            if parse_u16(host.substring_char(colon + 1, cs.len())).is_ok() {
                assert(host@.subrange(0, colon as int) == host@.take(colon as int));
                return host.substring_char(0, colon);
            }
        }
    }
    host
}

/// The target that VS Code connects to: the host alias, with the port that
/// the raw SSH options name.
pub fn code_remote_authority(code_host: &str, ssh_args: &[String]) -> (r: Result<String, Error>)
    ensures
        match r {
            Ok(target) => remote_authority(code_host@, text::texts(ssh_args@)) == Ok::<
                Seq<char>,
                ErrorView,
            >(target@),
            Err(e) => remote_authority(code_host@, text::texts(ssh_args@)) == Err::<
                Seq<char>,
                ErrorView,
            >(e@),
        },
{
    let port: u16 = match ssh_port(ssh_args) {
        Err(e) => {
            return Err(e);
        },
        Ok(None) => {
            return Ok(code_host.to_owned());
        },
        Ok(Some(port)) => port,
    };
    let cs = chars_of(code_host);
    proof {
        text::lemma_last_of(code_host@, '@');
    }
    let start: usize = match find_last(&cs, '@') {
        Some(at) => at + 1,
        None => 0,
    };
    assert(code_host@.subrange(start as int, cs@.len() as int) == code_host@.skip(start as int));
    assert(code_host@.subrange(0, start as int) == code_host@.take(start as int));
    let host = strip_port(code_host.substring_char(start, cs.len()));
    let host_chars = chars_of(host);
    proof {
        text::lemma_first_of(host@, ':');
    }
    let has_colon = find_first(&host_chars, ':') < host_chars.len();
    assert(has_colon == host@.contains(':'));
    let mut target = code_host.substring_char(0, start).to_owned();
    if has_colon && !(host_chars[0] == '[') {
        target = target.concat("[").concat(host).concat("]");
    } else {
        target = target.concat(host);
    }
    target = target.concat(":").concat(decimal(port).as_str());
    assert(target@ == with_port(code_host@, port));
    Ok(target)
}

/// The target carries the port that the raw SSH options name, and is the host
/// alias itself where they name none.
pub proof fn law_authority_carries_the_port(target: Seq<char>, ssh_args: Seq<Seq<char>>)
    ensures
        match named_ssh_port(ssh_args) {
            Ok(Some(port)) => {
                let port_text = ":"@ + number::decimal_text(port as nat);
                &&& remote_authority(target, ssh_args) is Ok
                &&& port_text.is_suffix_of(remote_authority(target, ssh_args)->Ok_0)
            },
            Ok(None) => remote_authority(target, ssh_args) == Ok::<Seq<char>, ErrorView>(target),
            Err(e) => remote_authority(target, ssh_args) == Err::<Seq<char>, ErrorView>(e),
        },
{
    if let Ok(Some(port)) = named_ssh_port(ssh_args) {
        let port_text = ":"@ + number::decimal_text(port as nat);
        let head = target.take(host_start(target)) + bracketed(
            bare_host(target.skip(host_start(target))),
        );
        assert(with_port(target, port) == head + port_text);
    }
}

proof fn lemma_trim_nothing(s: Seq<char>)
    requires
        s.len() > 0,
        !is_white_space(s[0]),
        !is_white_space(s.last()),
    ensures
        trimmed_end(trimmed_start(s)) == s,
{
}

/// `Port=` and a port number give the port that number.
proof fn lemma_port_option(port: u16)
    ensures
        port_option("Port="@ + number::decimal_text(port as nat)) == Some(
            number::decimal_text(port as nat),
        ),
{
    let digits = number::decimal_text(port as nat);
    let option = "Port="@ + digits;
    number::lemma_decimal_text(port as nat);
    reveal_strlit("Port=");
    assert(number::is_digit(digits[digits.len() - 1]));
    assert(number::is_digit(digits[0]));
    assert(option[0] == 'P' && option[1] == 'o' && option[2] == 'r' && option[3] == 't' && option[4]
        == '=');
    assert(option.last() == digits[digits.len() - 1]);
    lemma_trim_nothing(option);
    assert(option.skip(1).skip(1) == option.skip(2));
    assert(option.skip(2).skip(1) == option.skip(3));
    assert(option.skip(3).skip(1) == option.skip(4));
    assert(keyword_length(option.skip(4)) == 0);
    assert(keyword_length(option.skip(3)) == 1);
    assert(keyword_length(option.skip(2)) == 2);
    assert(keyword_length(option.skip(1)) == 3);
    assert(keyword_length(option) == 4);
    assert(option.skip(4).skip(1) == digits);
    assert(after_separators(digits) == digits);
}

/// `-p PORT`, `-pPORT`, `-o Port=PORT` and `-oPort=PORT` all name the port,
/// whatever follows them.
pub proof fn law_port_forms_agree(port: u16, rest: Seq<Seq<char>>)
    ensures
        ({
            let digits = number::decimal_text(port as nat);
            let named = Ok::<Option<u16>, ErrorView>(Some(port));
            &&& named_ssh_port(seq!["-p"@, digits] + rest) == named
            &&& named_ssh_port(seq!["-p"@ + digits] + rest) == named
            &&& named_ssh_port(seq!["-o"@, "Port="@ + digits] + rest) == named
            &&& named_ssh_port(seq!["-o"@ + ("Port="@ + digits)] + rest) == named
        }),
{
    let digits = number::decimal_text(port as nat);
    number::law_decimal_round_trip(port);
    lemma_port_option(port);
    reveal_strlit("-p");
    reveal_strlit("-o");
    assert("-p"@.len() == 2 && "-o"@.len() == 2);
    let spaced = seq!["-p"@, digits] + rest;
    assert(spaced[0] == "-p"@ && spaced[1] == digits);
    let joined = seq!["-p"@ + digits] + rest;
    assert(joined[0] == "-p"@ + digits);
    assert(joined[0].skip(2) == digits);
    let option = "Port="@ + digits;
    let spaced_option = seq!["-o"@, option] + rest;
    assert(spaced_option[0] == "-o"@ && spaced_option[1] == option);
    let joined_option = seq!["-o"@ + option] + rest;
    assert(joined_option[0] == "-o"@ + option);
    assert(joined_option[0].skip(2) == option);
    assert(option.len() > 0);
}

/// The first port that the raw SSH options name counts, whatever follows it.
pub proof fn law_first_named_port_wins(before: Seq<Seq<char>>, after: Seq<Seq<char>>, port: u16)
    requires
        named_ssh_port(before) == Ok::<Option<u16>, ErrorView>(Some(port)),
    ensures
        named_ssh_port(before + after) == Ok::<Option<u16>, ErrorView>(Some(port)),
    decreases before.len(),
{
    if before.len() > 0 {
        let all = before + after;
        assert(all[0] == before[0]);
        assert(all.skip(1) == before.skip(1) + after);
        if before.len() >= 2 {
            assert(all[1] == before[1]);
            assert(all.skip(2) == before.skip(2) + after);
            if named_ssh_port(before.skip(2)) == Ok::<Option<u16>, ErrorView>(Some(port)) {
                law_first_named_port_wins(before.skip(2), after, port);
            }
        }
        if named_ssh_port(before.skip(1)) == Ok::<Option<u16>, ErrorView>(Some(port)) {
            law_first_named_port_wins(before.skip(1), after, port);
        }
    }
}

proof fn lemma_bare_host(host: Seq<char>)
    ensures
        bare_host(host).len() <= host.len(),
        bare_host(host) == host.take(bare_host(host).len() as int),
        text::begins_with(bare_host(host), '[') && bare_host(host).contains(']') ==> {
            let b = bare_host(host);
            b.len() > 1 && b.last() == ']' && forall|i: int| 0 <= i < b.len() - 1 ==> b[i] != ']'
        },
{
    let b = bare_host(host);
    let after = host.skip(1);
    text::lemma_first_of(after, ']');
    text::lemma_last_of(host, ':');
    let close = 1 + text::first_of(after, ']');
    if text::begins_with(host, '[') && close < host.len() {
        assert(host[close] == after[close - 1]);
        assert forall|i: int| 0 <= i < b.len() - 1 implies b[i] != ']' by {
            if i > 0 {
                assert(after[i - 1] == host[i]);
            }
        }
    } else {
        assert(host.take(host.len() as int) == host);
        if text::begins_with(b, '[') && b.contains(']') {
            let k = choose|k: int| 0 <= k < b.len() && b[k] == ']';
            assert(host[k] == ']' && k > 0);
            assert(after[k - 1] == ']');
            assert(false);
        }
    }
}

/// Whether a host, written with a port after it, is read back as that host.
pub open spec fn is_regular_host(host: Seq<char>) -> bool {
    host.contains(':') ==> (text::begins_with(host, '[') <==> host.contains(']'))
}

proof fn lemma_bracketed_host_stays(bare: Seq<char>, digits: Seq<char>)
    requires
        bare.contains(':'),
        !text::begins_with(bare, '['),
        !bare.contains(']'),
    ensures
        bracketed(bare_host(bracketed(bare) + ":"@ + digits)) == bracketed(bare),
{
    reveal_strlit(":");
    reveal_strlit("[");
    reveal_strlit("]");
    assert("["@ == seq!['['] && "]"@ == seq![']'] && ":"@ == seq![':']);
    let shown = bracketed(bare);
    let whole = shown + ":"@ + digits;
    let tail = whole.skip(1);
    let end = bare.len() as int;
    assert(whole[0] == '[');
    assert forall|i: int| 0 <= i < end implies tail[i] != ']' by {
        assert(tail[i] == bare[i]);
    }
    assert(tail[end] == ']');
    text::lemma_first_of_is(tail, ']', end);
    assert(whole.take(end + 2) == shown);
    assert(text::begins_with(shown, '['));
}

proof fn lemma_bracket_host_stays(bare: Seq<char>, digits: Seq<char>)
    requires
        text::begins_with(bare, '['),
        bare.len() > 1,
        bare.last() == ']',
        forall|i: int| 0 <= i < bare.len() - 1 ==> bare[i] != ']',
    ensures
        bare_host(bare + ":"@ + digits) == bare,
{
    let whole = bare + ":"@ + digits;
    let tail = whole.skip(1);
    let end = bare.len() - 2;
    assert(whole[0] == '[');
    assert forall|i: int| 0 <= i < end implies tail[i] != ']' by {
        assert(tail[i] == bare[i + 1]);
    }
    assert(tail[end] == bare.last());
    text::lemma_first_of_is(tail, ']', end);
    assert(whole.take(end + 2) == bare);
}

proof fn lemma_plain_host_stays(bare: Seq<char>, digits: Seq<char>)
    requires
        !bare.contains(':'),
        text::begins_with(bare, '[') ==> !bare.contains(']'),
        number::all_digits(digits),
        number::read_u16(digits) is Ok,
    ensures
        bare_host(bare + ":"@ + digits) == bare,
{
    reveal_strlit(":");
    assert(":"@ == seq![':']);
    let whole = bare + ":"@ + digits;
    let colon = bare.len() as int;
    let tail = whole.skip(1);
    assert(whole[colon] == ':');
    assert(whole.skip(colon + 1) == digits);
    assert forall|i: int| 0 <= i < colon implies whole[i] != ':' by {
        assert(whole[i] == bare[i]);
    }
    assert forall|i: int| colon < i < whole.len() implies whole[i] != ':' && whole[i] != ']' by {
        assert(whole[i] == digits[i - colon - 1]);
        assert(number::is_digit(digits[i - colon - 1]));
    }
    text::lemma_last_of_is(whole, ':', colon);
    text::lemma_first_of_is(whole, ':', colon);
    assert(whole.take(colon) == bare);
    if text::begins_with(whole, '[') {
        assert(whole[0] == '[');
        assert(bare.len() > 0);
        assert(bare[0] == whole[0]);
        assert forall|i: int| 0 <= i < tail.len() implies tail[i] != ']' by {
            assert(tail[i] == whole[i + 1]);
            if i + 1 < colon {
                assert(whole[i + 1] == bare[i + 1]);
            }
        }
        text::lemma_first_of_is(tail, ']', tail.len() as int);
    }
}

/// The user before a host stays where the host has no `@`.
proof fn lemma_host_start(user: Seq<char>, host: Seq<char>)
    requires
        user.len() > 0 ==> user.last() == '@',
        text::is_free_of(host, '@'),
    ensures
        host_start(user + host) == user.len(),
{
    let whole = user + host;
    assert forall|i: int| user.len() <= i < whole.len() implies whole[i] != '@' by {
        assert(whole[i] == host[i - user.len()]);
    }
    assert(user.len() > 0 ==> whole[user.len() - 1] == user.last());
    text::lemma_last_of_is(whole, '@', user.len() - 1);
}

/// Naming another port replaces the port that a target carries.
#[verifier::rlimit(30)]
pub proof fn law_port_is_replaced(target: Seq<char>, first: u16, second: u16)
    requires
        is_regular_host(bare_host(target.skip(host_start(target)))),
    ensures
        with_port(with_port(target, first), second) == with_port(target, second),
{
    let start = host_start(target);
    let user = target.take(start);
    let host = target.skip(start);
    let bare = bare_host(host);
    let shown = bracketed(bare);
    let digits = number::decimal_text(first as nat);
    let next_host = shown + ":"@ + digits;
    text::lemma_last_of(target, '@');
    lemma_bare_host(host);
    number::law_decimal_round_trip(first);
    assert(with_port(target, first) == user + next_host);
    assert(text::is_free_of(next_host, '@')) by {
        reveal_strlit(":");
        reveal_strlit("[");
        reveal_strlit("]");
        assert("["@ == seq!['['] && "]"@ == seq![']'] && ":"@ == seq![':']);
        assert forall|i: int| 0 <= i < bare.len() implies bare[i] != '@' by {
            assert(bare[i] == host.take(bare.len() as int)[i]);
            assert(host[i] == target[start + i]);
        }
        assert forall|i: int| 0 <= i < digits.len() implies digits[i] != '@' by {
            assert(number::is_digit(digits[i]));
        }
        assert(text::is_free_of(shown, '@'));
    }
    lemma_host_start(user, next_host);
    assert((user + next_host).take(start) == user);
    assert((user + next_host).skip(start) == next_host);
    if bare.contains(':') && !text::begins_with(bare, '[') {
        lemma_bracketed_host_stays(bare, digits);
    } else if text::begins_with(bare, '[') && bare.contains(']') {
        lemma_bracket_host_stays(bare, digits);
    } else {
        lemma_plain_host_stays(bare, digits);
    }
}

/// Arguments that begin neither with `-p` nor with `-o` have no bearing on
/// the port that is found, and where there are no others there is none.
pub proof fn law_other_arguments_name_no_port(before: Seq<Seq<char>>, after: Seq<Seq<char>>)
    requires
        forall|i: int|
            0 <= i < before.len() ==> !((#[trigger] before[i]).len() >= 2 && before[i][0] == '-' && (
            before[i][1] == 'p' || before[i][1] == 'o')),
    ensures
        named_ssh_port(before + after) == named_ssh_port(after),
        named_ssh_port(before) == Ok::<Option<u16>, ErrorView>(None),
    decreases before.len(),
{
    if before.len() == 0 {
        assert(before + after == after);
    } else {
        let rest = before.skip(1);
        assert forall|i: int| 0 <= i < rest.len() implies !((#[trigger] rest[i]).len() >= 2
            && rest[i][0] == '-' && (rest[i][1] == 'p' || rest[i][1] == 'o')) by {
            assert(rest[i] == before[i + 1]);
        }
        law_other_arguments_name_no_port(rest, after);
        assert((before + after)[0] == before[0]);
        assert((before + after).skip(1) == rest + after);
        assert(!has_option(before[0], 'p') && !has_option(before[0], 'o'));
    }
}

/// What `-p` is followed by, or has attached, is the port, whatever follows.
pub proof fn law_port_follows_p(value: Seq<char>, rest: Seq<Seq<char>>)
    ensures
        ({
            let named = match number::read_u16(value) {
                Ok(port) => Ok(Some(port)),
                Err(reason) => Err(Failure::NotASshPort { value, reason }),
            };
            &&& named_ssh_port(seq!["-p"@, value] + rest) == named
            &&& value.len() > 0 ==> named_ssh_port(seq!["-p"@ + value] + rest) == named
        }),
        named_ssh_port(seq!["-p"@]) == Err::<Option<u16>, ErrorView>(Failure::MissingSshPort),
{
    reveal_strlit("-p");
    let spaced = seq!["-p"@, value] + rest;
    assert(spaced[0] == "-p"@ && spaced[1] == value);
    let joined = seq!["-p"@ + value] + rest;
    assert(joined[0] == "-p"@ + value);
    assert(joined[0].skip(2) == value);
}

/// What follows `-o`, or is attached to it, names the port exactly where
/// `port_option` finds one in it; otherwise it has no bearing on the port.
pub proof fn law_option_follows_o(option: Seq<char>, rest: Seq<Seq<char>>)
    ensures
        ({
            let named = match port_option(option) {
                None => named_ssh_port(rest),
                Some(value) => match number::read_u16(value) {
                    Ok(port) => Ok(Some(port)),
                    Err(reason) => Err(Failure::NotASshPort { value, reason }),
                },
            };
            &&& named_ssh_port(seq!["-o"@, option] + rest) == named
            &&& option.len() > 0 ==> named_ssh_port(seq!["-o"@ + option] + rest) == named
        }),
        named_ssh_port(seq!["-o"@]) == Ok::<Option<u16>, ErrorView>(None),
{
    reveal_strlit("-o");
    let spaced = seq!["-o"@, option] + rest;
    assert(spaced[0] == "-o"@ && spaced[1] == option);
    assert(spaced.skip(2) == rest);
    let joined = seq!["-o"@ + option] + rest;
    assert(joined[0] == "-o"@ + option);
    assert(joined[0].skip(2) == option);
    assert(joined.skip(1) == rest);
}

/// Whether `s` consists of spaces and tabs.
pub open spec fn is_blank(s: Seq<char>) -> bool {
    forall|i: int| 0 <= i < s.len() ==> (#[trigger] s[i] == ' ' || s[i] == '\t')
}

/// Whether `s` consists of visible ASCII characters other than `=`.
pub open spec fn is_visible(s: Seq<char>) -> bool {
    forall|i: int| 0 <= i < s.len() ==> ('!' <= #[trigger] s[i] <= '~' && s[i] != '=')
}

/// Whether `s` is the word `port`, each letter large or small.
pub open spec fn spells_port(s: Seq<char>) -> bool {
    &&& s.len() == 4
    &&& s[0] == 'p' || s[0] == 'P'
    &&& s[1] == 'o' || s[1] == 'O'
    &&& s[2] == 'r' || s[2] == 'R'
    &&& s[3] == 't' || s[3] == 'T'
}

proof fn lemma_trimmed_start(blank: Seq<char>, s: Seq<char>)
    requires
        is_blank(blank),
        s.len() > 0,
        !is_white_space(s[0]),
    ensures
        trimmed_start(blank + s) == s,
    decreases blank.len(),
{
    if blank.len() == 0 {
        assert(blank + s == s);
    } else {
        let rest = blank.skip(1);
        assert forall|i: int| 0 <= i < rest.len() implies (#[trigger] rest[i] == ' ' || rest[i]
            == '\t') by {
            assert(rest[i] == blank[i + 1]);
        }
        lemma_trimmed_start(rest, s);
        assert((blank + s)[0] == blank[0]);
        assert((blank + s).skip(1) == rest + s);
    }
}

proof fn lemma_trimmed_end(s: Seq<char>, blank: Seq<char>)
    requires
        is_blank(blank),
        s.len() > 0,
        !is_white_space(s.last()),
    ensures
        trimmed_end(s + blank) == s,
    decreases blank.len(),
{
    if blank.len() == 0 {
        assert(s + blank == s);
    } else {
        let rest = blank.drop_last();
        assert forall|i: int| 0 <= i < rest.len() implies (#[trigger] rest[i] == ' ' || rest[i]
            == '\t') by {
            assert(rest[i] == blank[i]);
        }
        lemma_trimmed_end(s, rest);
        assert((s + blank).last() == blank[blank.len() - 1]);
        assert((s + blank).drop_last() == s + rest);
    }
}

proof fn lemma_keyword_length(keyword: Seq<char>, tail: Seq<char>)
    requires
        is_visible(keyword),
        tail.len() == 0 || is_separator(tail[0]),
    ensures
        keyword_length(keyword + tail) == keyword.len(),
    decreases keyword.len(),
{
    if keyword.len() == 0 {
        assert(keyword + tail == tail);
    } else {
        let rest = keyword.skip(1);
        assert forall|i: int| 0 <= i < rest.len() implies ('!' <= #[trigger] rest[i] <= '~'
            && rest[i] != '=') by {
            assert(rest[i] == keyword[i + 1]);
        }
        lemma_keyword_length(rest, tail);
        assert((keyword + tail)[0] == keyword[0]);
        assert((keyword + tail).skip(1) == rest + tail);
    }
}

proof fn lemma_after_separators(separators: Seq<char>, value: Seq<char>)
    requires
        forall|i: int|
            0 <= i < separators.len() ==> (#[trigger] separators[i] == '=' || separators[i] == ' '
                || separators[i] == '\t'),
        value.len() == 0 || !is_separator(value[0]),
    ensures
        after_separators(separators + value) == value,
    decreases separators.len(),
{
    if separators.len() == 0 {
        assert(separators + value == value);
    } else {
        let rest = separators.skip(1);
        assert forall|i: int| 0 <= i < rest.len() implies (#[trigger] rest[i] == '=' || rest[i]
            == ' ' || rest[i] == '\t') by {
            assert(rest[i] == separators[i + 1]);
        }
        lemma_after_separators(rest, value);
        assert((separators + value)[0] == separators[0]);
        assert((separators + value).skip(1) == rest + value);
    }
}

/// An SSH configuration option names the port exactly where its keyword is
/// `port`, large or small; its value is what follows the `=` and the blanks
/// after the keyword, and blanks around the option do not count.
pub proof fn law_port_option_form(
    before: Seq<char>,
    keyword: Seq<char>,
    separators: Seq<char>,
    value: Seq<char>,
    after: Seq<char>,
)
    requires
        is_blank(before),
        is_blank(after),
        keyword.len() > 0,
        is_visible(keyword),
        separators.len() > 0,
        forall|i: int|
            0 <= i < separators.len() ==> (#[trigger] separators[i] == '=' || separators[i] == ' '
                || separators[i] == '\t'),
        value.len() > 0,
        is_visible(value),
    ensures
        port_option(before + keyword + separators + value + after) == (if spells_port(keyword) {
            Some(value)
        } else {
            None
        }),
        port_option(before + keyword + after) == (if spells_port(keyword) {
            Some(Seq::<char>::empty())
        } else {
            None
        }),
        port_option(before + keyword + "="@ + after) == (if spells_port(keyword) {
            Some(Seq::<char>::empty())
        } else {
            None
        }),
{
    reveal_strlit("=");
    assert("="@ == seq!['=']);
    assert(keyword.last() == keyword[keyword.len() - 1]);
    assert(value.last() == value[value.len() - 1]);
    assert(spells_port(keyword) == is_port_keyword(keyword));
    let empty = Seq::<char>::empty();
    let tail = separators + value;
    let core = keyword + tail;
    lemma_trimmed_start(before, core + after);
    lemma_trimmed_end(core, after);
    assert(before + keyword + separators + value + after == before + (core + after));
    lemma_keyword_length(keyword, tail);
    assert(core.take(keyword.len() as int) == keyword);
    assert(core.skip(keyword.len() as int) == tail);
    lemma_after_separators(separators, value);
    lemma_trimmed_start(before, keyword + after);
    lemma_trimmed_end(keyword, after);
    assert(before + keyword + after == before + (keyword + after));
    lemma_keyword_length(keyword, empty);
    assert(keyword + empty == keyword);
    assert(keyword.take(keyword.len() as int) == keyword);
    assert(keyword.skip(keyword.len() as int) == empty);
    let short = keyword + "="@;
    lemma_trimmed_start(before, short + after);
    lemma_trimmed_end(short, after);
    assert(before + keyword + "="@ + after == before + (short + after));
    lemma_keyword_length(keyword, "="@);
    assert(short.take(keyword.len() as int) == keyword);
    assert(short.skip(keyword.len() as int) == "="@);
    lemma_after_separators("="@, empty);
    assert("="@ + empty == "="@);
}

/// A host without a colon gets the port after a colon, and so does one that
/// carries another port, in place of it; the user before the host stays.
pub proof fn law_port_follows_host(
    user: Seq<char>,
    host: Seq<char>,
    old: Seq<char>,
    ssh_args: Seq<Seq<char>>,
    port: u16,
)
    requires
        named_ssh_port(ssh_args) == Ok::<Option<u16>, ErrorView>(Some(port)),
        user.len() == 0 || user.last() == '@',
        !host.contains('@') && !host.contains(':'),
        host.len() == 0 || host[0] != '[',
        number::read_u16(old) is Ok,
    ensures
        remote_authority(user + host, ssh_args) == Ok::<Seq<char>, ErrorView>(
            user + host + ":"@ + number::decimal_text(port as nat),
        ),
        remote_authority(user + host + ":"@ + old, ssh_args) == Ok::<Seq<char>, ErrorView>(
            user + host + ":"@ + number::decimal_text(port as nat),
        ),
{
    lemma_host_without_port(host);
    lemma_host_start(user, host);
    lemma_plain_target(user, host, host, port);
    let longer = host + ":"@ + old;
    lemma_host_with_port(host, old);
    lemma_host_start(user, longer);
    assert(user + host + ":"@ + old == user + longer);
    lemma_plain_target(user, longer, host, port);
}

proof fn lemma_plain_target(user: Seq<char>, host: Seq<char>, bare: Seq<char>, port: u16)
    requires
        host_start(user + host) == user.len(),
        bare_host(host) == bare,
        bracketed(bare) == bare,
    ensures
        with_port(user + host, port) == user + bare + ":"@ + number::decimal_text(port as nat),
{
    assert((user + host).take(user.len() as int) == user);
    assert((user + host).skip(user.len() as int) == host);
}

proof fn lemma_host_without_port(host: Seq<char>)
    requires
        !host.contains(':'),
        host.len() == 0 || host[0] != '[',
    ensures
        bare_host(host) == host,
        bracketed(host) == host,
{
    text::lemma_last_of(host, ':');
}

proof fn lemma_host_with_port(host: Seq<char>, old: Seq<char>)
    requires
        !host.contains('@') && !host.contains(':'),
        host.len() == 0 || host[0] != '[',
        number::read_u16(old) is Ok,
    ensures
        bare_host(host + ":"@ + old) == host,
        text::is_free_of(host + ":"@ + old, '@'),
{
    reveal_strlit(":");
    assert(":"@ == seq![':']);
    number::law_read_u16(old, number::read_u16(old)->Ok_0);
    let digits = if old.len() > 0 && old[0] == '+' { old.drop_first() } else { old };
    assert forall|i: int| 0 <= i < old.len() implies old[i] != ':' && old[i] != '@' by {
        if old[0] == '+' {
            if i > 0 {
                assert(number::is_digit(digits[i - 1]));
            }
        } else {
            assert(number::is_digit(digits[i]));
        }
    }
    let longer = host + ":"@ + old;
    let colon = host.len() as int;
    assert(longer[colon] == ':');
    assert forall|i: int| 0 <= i < colon implies longer[i] != ':' && longer[i] != '@' by {
        assert(longer[i] == host[i]);
    }
    assert forall|i: int| colon < i < longer.len() implies longer[i] != ':' && longer[i] != '@' by {
        assert(longer[i] == old[i - colon - 1]);
    }
    text::lemma_first_of_is(longer, ':', colon);
    text::lemma_last_of_is(longer, ':', colon);
    assert(longer.skip(colon + 1) == old);
    assert(longer.take(colon) == host);
    assert(colon > 0 ==> longer[0] == host[0]);
}

/// A host with a colon after which no port stands, such as an IPv6 address,
/// gets brackets before the port follows it.
pub proof fn law_address_gets_brackets(
    user: Seq<char>,
    before: Seq<char>,
    after: Seq<char>,
    ssh_args: Seq<Seq<char>>,
    port: u16,
)
    requires
        named_ssh_port(ssh_args) == Ok::<Option<u16>, ErrorView>(Some(port)),
        user.len() == 0 || user.last() == '@',
        !before.contains('@') && !before.contains(':') && !after.contains('@'),
        before.len() == 0 || before[0] != '[',
        number::read_u16(after) is Err,
    ensures
        remote_authority(user + before + ":"@ + after, ssh_args) == Ok::<Seq<char>, ErrorView>(
            user + "["@ + (before + ":"@ + after) + "]:"@ + number::decimal_text(port as nat),
        ),
{
    reveal_strlit(":");
    assert(":"@ == seq![':']);
    let address = before + ":"@ + after;
    let colon = before.len() as int;
    assert(address[colon] == ':');
    assert forall|i: int| 0 <= i < address.len() implies address[i] != '@' by {
        if i < colon {
            assert(address[i] == before[i]);
        } else if i > colon {
            assert(address[i] == after[i - colon - 1]);
        }
    }
    assert forall|i: int| 0 <= i < colon implies address[i] != ':' by {
        assert(address[i] == before[i]);
    }
    text::lemma_first_of_is(address, ':', colon);
    assert(address.skip(colon + 1) == after);
    assert(colon > 0 ==> address[0] == before[0]);
    assert(bare_host(address) == address);
    assert(bracketed(address) == "["@ + address + "]"@);
    lemma_host_start(user, address);
    assert(user + before + ":"@ + after == user + address);
    lemma_bracketed_target(user, address, port);
}

proof fn lemma_bracketed_target(user: Seq<char>, address: Seq<char>, port: u16)
    requires
        host_start(user + address) == user.len(),
        bare_host(address) == address,
        bracketed(address) == "["@ + address + "]"@,
    ensures
        with_port(user + address, port) == user + "["@ + address + "]:"@ + number::decimal_text(
            port as nat,
        ),
{
    reveal_strlit(":");
    reveal_strlit("]");
    reveal_strlit("]:");
    assert("]:"@ == "]"@ + ":"@);
    assert((user + address).take(user.len() as int) == user);
    assert((user + address).skip(user.len() as int) == address);
    assert(user + ("["@ + address + "]"@) + ":"@ == user + "["@ + address + "]:"@);
}

/// A host in brackets keeps them, and the port takes the place of whatever
/// follows them.
#[verifier::rlimit(30)]
pub proof fn law_brackets_are_kept(
    user: Seq<char>,
    inside: Seq<char>,
    after: Seq<char>,
    ssh_args: Seq<Seq<char>>,
    port: u16,
)
    requires
        named_ssh_port(ssh_args) == Ok::<Option<u16>, ErrorView>(Some(port)),
        user.len() == 0 || user.last() == '@',
        !inside.contains('@') && !inside.contains(']') && !after.contains('@'),
    ensures
        remote_authority(user + "["@ + inside + "]"@ + after, ssh_args) == Ok::<
            Seq<char>,
            ErrorView,
        >(user + "["@ + inside + "]:"@ + number::decimal_text(port as nat)),
{
    reveal_strlit("[");
    reveal_strlit(":");
    reveal_strlit("]");
    reveal_strlit("]:");
    assert("["@ == seq!['['] && "]"@ == seq![']'] && ":"@ == seq![':']);
    assert("]:"@ == "]"@ + ":"@);
    let host = "["@ + inside + "]"@ + after;
    let shown = "["@ + inside + "]"@;
    assert(user + "["@ + inside + "]"@ + after == user + host);
    assert forall|i: int| 0 <= i < host.len() implies host[i] != '@' by {
        if 0 < i <= inside.len() {
            assert(host[i] == inside[i - 1]);
        } else if i > inside.len() + 1 {
            assert(host[i] == after[i - inside.len() - 2]);
        }
    }
    lemma_host_start(user, host);
    assert((user + host).take(user.len() as int) == user);
    assert((user + host).skip(user.len() as int) == host);
    let tail = host.skip(1);
    let end = inside.len() as int;
    assert forall|i: int| 0 <= i < end implies tail[i] != ']' by {
        assert(tail[i] == inside[i]);
    }
    assert(tail[end] == ']');
    text::lemma_first_of_is(tail, ']', end);
    assert(host[0] == '[');
    assert(host.take(end + 2) == shown);
    assert(bare_host(host) == shown);
    assert(shown[0] == '[');
    assert(bracketed(shown) == shown);
    assert(user + "["@ + inside + "]:"@ + number::decimal_text(port as nat) == user + shown + ":"@
        + number::decimal_text(port as nat));
}

} // verus!
