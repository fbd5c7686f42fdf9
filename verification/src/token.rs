//! What a session draws at random: the token that requests must carry and the
//! remote port.

use rand::RngCore;
use vstd::prelude::*;

verus! {

/// The ports that a session without a fixed remote port chooses from.
pub const RANDOM_REMOTE_PORT_START: u16 = 40000;

pub const RANDOM_REMOTE_PORT_END: u16 = 60999;

/// `OsRng.fill_bytes` from the `rand` crate overwrites each byte of a buffer
/// with one from the operating system, and keeps its length. Nothing is
/// stated of the bytes: they are random. The call panics where the operating
/// system has none to give.
#[verifier::external_body]
fn fill_with_random_bytes(buffer: &mut Vec<u8>)
    ensures
        final(buffer)@.len() == old(buffer)@.len(),
{
    rand::rngs::OsRng.fill_bytes(buffer);
}

/// `OsRng.next_u32` from the `rand` crate gives a number drawn from the
/// operating system. Nothing is stated of it: it is random. The call panics
/// where the operating system has none to give.
#[verifier::external_body]
fn os_random_u32() -> (r: u32) {
    rand::rngs::OsRng.next_u32()
}

/// The hexadecimal digit, in lower case, that stands for `d`.
pub open spec fn hex_digit(d: int) -> char {
    if d < 10 {
        ('0' as int + d) as char
    } else {
        ('a' as int + d - 10) as char
    }
}

/// Each byte as two hexadecimal digits.
pub open spec fn hex_text(bytes: Seq<u8>) -> Seq<char>
    decreases bytes.len(),
{
    if bytes.len() == 0 {
        Seq::empty()
    } else {
        hex_text(bytes.drop_last()).push(hex_digit(bytes.last() as int / 16)).push(
            hex_digit(bytes.last() as int % 16),
        )
    }
}

/// Whether `s` has the form of a token: 64 hexadecimal digits in lower case.
pub open spec fn is_token(s: Seq<char>) -> bool {
    s.len() == 64 && forall|i: int|
        0 <= i < s.len() ==> ('0' <= #[trigger] s[i] <= '9' || 'a' <= s[i] <= 'f')
}

fn hex_char(d: u8) -> (r: char)
    requires
        d < 16,
    ensures
        r == hex_digit(d as int),
{
    if d < 10 {
        (48u8 + d) as char
    } else {
        (87u8 + d) as char
    }
}

/// Writes bytes in hexadecimal.
pub fn encode_token(bytes: &[u8]) -> (r: String)
    ensures
        r@ == hex_text(bytes@),
{
    let mut r = String::new();
    let mut i: usize = 0;
    while i < bytes.len()
        invariant
            i <= bytes@.len(),
            r@ == hex_text(bytes@.take(i as int)),
        decreases bytes@.len() - i,
    {
        let ghost upto = bytes@.take(i + 1);
        assert(upto.drop_last() == bytes@.take(i as int));
        r.push(hex_char(bytes[i] / 16));
        r.push(hex_char(bytes[i] % 16));
        i += 1;
    }
    assert(bytes@.take(i as int) == bytes@);
    r
}

/// Draws a token: 32 random bytes in hexadecimal.
pub fn generate_token() -> (r: String)
    ensures
        is_token(r@),
        exists|bytes: Seq<u8>| bytes.len() == 32 && r@ == #[trigger] hex_text(bytes),
{
    let mut bytes: Vec<u8> = vec![0; 32];
    fill_with_random_bytes(&mut bytes);
    proof {
        lemma_hex_text(bytes@);
    }
    encode_token(&bytes)
}

/// The remote port that the number `draw` selects.
pub fn remote_port_for(draw: u32) -> (r: u16)
    ensures
        r == RANDOM_REMOTE_PORT_START + draw as int % (RANDOM_REMOTE_PORT_END
            - RANDOM_REMOTE_PORT_START + 1),
        RANDOM_REMOTE_PORT_START <= r <= RANDOM_REMOTE_PORT_END,
        r == 40000 + draw as int % 21000,
{
    let span: u32 = (RANDOM_REMOTE_PORT_END - RANDOM_REMOTE_PORT_START + 1) as u32;
    RANDOM_REMOTE_PORT_START + (draw % span) as u16
}

/// Draws a remote port.
pub fn random_remote_port() -> (r: u16)
    ensures
        RANDOM_REMOTE_PORT_START <= r <= RANDOM_REMOTE_PORT_END,
        40000 <= r <= 60999,
{
    remote_port_for(os_random_u32())
}

proof fn lemma_hex_text(bytes: Seq<u8>)
    ensures
        hex_text(bytes).len() == 2 * bytes.len(),
        forall|i: int|
            0 <= i < hex_text(bytes).len() ==> ('0' <= #[trigger] hex_text(bytes)[i] <= '9' || 'a'
                <= hex_text(bytes)[i] <= 'f'),
    decreases bytes.len(),
{
    if bytes.len() > 0 {
        lemma_hex_text(bytes.drop_last());
    }
}

/// Different bytes make different tokens.
pub proof fn law_tokens_differ(a: Seq<u8>, b: Seq<u8>)
    ensures
        hex_text(a) == hex_text(b) ==> a == b,
    decreases a.len(),
{
    lemma_hex_text(a);
    lemma_hex_text(b);
    if hex_text(a) == hex_text(b) {
        if a.len() == 0 {
            assert(a == b);
        } else {
            let s = hex_text(a);
            let init_a = hex_text(a.drop_last());
            let init_b = hex_text(b.drop_last());
            lemma_hex_text(a.drop_last());
            lemma_hex_text(b.drop_last());
            assert(init_a == s.take(s.len() - 2));
            assert(init_b == s.take(s.len() - 2));
            law_tokens_differ(a.drop_last(), b.drop_last());
            assert(s[s.len() - 1] == hex_digit(a.last() as int % 16));
            assert(s[s.len() - 1] == hex_digit(b.last() as int % 16));
            assert(s[s.len() - 2] == hex_digit(a.last() as int / 16));
            assert(s[s.len() - 2] == hex_digit(b.last() as int / 16));
            assert(a.last() == b.last());
            assert(a.drop_last().push(a.last()) == a);
            assert(b.drop_last().push(b.last()) == b);
        }
    }
}

/// A token has two digits for each byte, in the order of the bytes: those of
/// its upper and of its lower half.
pub proof fn law_token_digits(bytes: Seq<u8>, i: int)
    requires
        0 <= i < bytes.len(),
    ensures
        hex_text(bytes).len() == 2 * bytes.len(),
        hex_text(bytes)[2 * i] == "0123456789abcdef"@[bytes[i] as int / 16],
        hex_text(bytes)[2 * i + 1] == "0123456789abcdef"@[bytes[i] as int % 16],
    decreases bytes.len(),
{
    lemma_hex_text(bytes);
    let init = bytes.drop_last();
    lemma_hex_text(init);
    reveal_strlit("0123456789abcdef");
    if i < bytes.len() - 1 {
        law_token_digits(init, i);
        assert(hex_text(bytes)[2 * i] == hex_text(init)[2 * i]);
        assert(hex_text(bytes)[2 * i + 1] == hex_text(init)[2 * i + 1]);
    } else {
        lemma_hex_digit(bytes[i] as int / 16);
        lemma_hex_digit(bytes[i] as int % 16);
    }
}

proof fn lemma_hex_digit(d: int)
    requires
        0 <= d < 16,
    ensures
        hex_digit(d) == "0123456789abcdef"@[d],
{
    reveal_strlit("0123456789abcdef");
}

} // verus!
