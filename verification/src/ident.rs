use vstd::prelude::*;
use rand::RngCore;

use crate::text::{ascii_only, string_from_ascii};

verus! {

/// A lower-case hexadecimal digit character.
pub open spec fn is_hex_char(c: char) -> bool {
    ('0' <= c && c <= '9') || ('a' <= c && c <= 'f')
}

/// A non-empty identifier made of lower-case hexadecimal digits. Such an
/// identifier is plain ASCII and can never contain a delimiter byte.
pub open spec fn valid_id(s: Seq<char>) -> bool {
    &&& s.len() > 0
    &&& forall|i: int| 0 <= i < s.len() ==> is_hex_char(s[i])
}

/// Hexadecimal identifiers are ASCII and free of the delimiter character.
pub proof fn lemma_valid_id_ascii(s: Seq<char>)
    requires
        valid_id(s),
    ensures
        vstd::utf8::is_ascii_chars(s),
        forall|i: int| 0 <= i < s.len() ==> s[i] != '!',
{
    assert forall|i: int| 0 <= i < s.len() implies '\0' <= #[trigger] s[i] <= '\u{7f}' && s[i]
        != '!' by {
        assert(is_hex_char(s[i]));
    }
}

/// The ASCII byte of one hexadecimal digit, for a nibble below 16.
pub open spec fn hex_digit_byte(n: u8) -> u8 {
    if n < 10 {
        (48 + n) as u8
    } else {
        (87 + n) as u8
    }
}

/// The ASCII bytes of the hexadecimal rendering, two digits per byte.
pub open spec fn hex_bytes(bs: Seq<u8>) -> Seq<u8>
    decreases bs.len(),
{
    if bs.len() == 0 {
        Seq::empty()
    } else {
        seq![hex_digit_byte(bs[0] / 16), hex_digit_byte(bs[0] % 16)] + hex_bytes(bs.drop_first())
    }
}

/// The hexadecimal rendering as characters.
pub open spec fn hex_chars(bs: Seq<u8>) -> Seq<char> {
    Seq::new(hex_bytes(bs).len(), |i: int| hex_bytes(bs)[i] as char)
}

/// The hexadecimal rendering is twice as long as its input, and is made of
/// lower-case hexadecimal digit bytes only.
pub proof fn lemma_hex_bytes_props(bs: Seq<u8>)
    ensures
        hex_bytes(bs).len() == 2 * bs.len(),
        forall|i: int| 0 <= i < hex_bytes(bs).len() ==> 48 <= #[trigger] hex_bytes(bs)[i] <= 102,
    decreases bs.len(),
{
    if bs.len() > 0 {
        lemma_hex_bytes_props(bs.drop_first());
    }
}

/// A hexadecimal rendering of anything non-empty is a valid identifier.
pub proof fn lemma_hex_chars_valid(bs: Seq<u8>)
    requires
        bs.len() > 0,
    ensures
        valid_id(hex_chars(bs)),
        hex_chars(bs).len() == 2 * bs.len(),
    decreases bs.len(),
{
    lemma_hex_bytes_props(bs);
    assert forall|i: int| 0 <= i < hex_chars(bs).len() implies is_hex_char(hex_chars(bs)[i]) by {
        let b = hex_bytes(bs)[i];
        lemma_hex_byte_is_digit(bs, i);
    }
}

/// Every byte of a hexadecimal rendering is the byte of one digit.
pub(crate) proof fn lemma_hex_byte_is_digit(bs: Seq<u8>, i: int)
    requires
        0 <= i < hex_bytes(bs).len(),
    ensures
        exists|n: u8| n < 16 && hex_bytes(bs)[i] == hex_digit_byte(n),
    decreases bs.len(),
{
    if bs.len() > 0 {
        if i == 0 {
            assert(hex_bytes(bs)[0] == hex_digit_byte(bs[0] / 16));
            assert(bs[0] / 16 < 16);
        } else if i == 1 {
            assert(hex_bytes(bs)[1] == hex_digit_byte(bs[0] % 16));
            assert(bs[0] % 16 < 16);
        } else {
            lemma_hex_byte_is_digit(bs.drop_first(), i - 2);
            assert(hex_bytes(bs)[i] == hex_bytes(bs.drop_first())[i - 2]);
        }
    }
}

/// Extending the input by one byte appends one digit pair.
pub(crate) proof fn lemma_hex_bytes_snoc(bs: Seq<u8>, x: u8)
    ensures
        hex_bytes(bs.push(x)) =~= hex_bytes(bs) + seq![
            hex_digit_byte(x / 16),
            hex_digit_byte(x % 16),
        ],
    decreases bs.len(),
{
    if bs.len() == 0 {
        assert(bs.push(x).drop_first() =~= Seq::<u8>::empty());
        assert(bs.push(x)[0] == x);
        assert(hex_bytes(bs.push(x)) =~= seq![
            hex_digit_byte(x / 16),
            hex_digit_byte(x % 16),
        ] + hex_bytes(Seq::<u8>::empty()));
        assert(hex_bytes(bs) =~= Seq::<u8>::empty());
    } else {
        assert(bs.push(x).drop_first() =~= bs.drop_first().push(x));
        assert(bs.push(x)[0] == bs[0]);
        lemma_hex_bytes_snoc(bs.drop_first(), x);
        assert(hex_bytes(bs.push(x)) =~= seq![
            hex_digit_byte(bs[0] / 16),
            hex_digit_byte(bs[0] % 16),
        ] + (hex_bytes(bs.drop_first()) + seq![hex_digit_byte(x / 16), hex_digit_byte(x % 16)]));
        assert(hex_bytes(bs) == seq![
            hex_digit_byte(bs[0] / 16),
            hex_digit_byte(bs[0] % 16),
        ] + hex_bytes(bs.drop_first()));
    }
}

/// Render bytes as their lower-case hexadecimal text.
pub fn hex_encode(bytes: &Vec<u8>) -> (r: String)
    ensures
        r@ == hex_chars(bytes@),
{
    let n = bytes.len();
    let mut out: Vec<u8> = Vec::new();
    let mut i: usize = 0;
    while i < n
        invariant
            n == bytes@.len(),
            i <= n,
            out@ == hex_bytes(bytes@.take(i as int)),
        decreases n - i,
    {
        let b = bytes[i];
        let hi = b / 16;
        let lo = b % 16;
        let hi_d = if hi < 10 {
            48 + hi
        } else {
            87 + hi
        };
        let lo_d = if lo < 10 {
            48 + lo
        } else {
            87 + lo
        };
        out.push(hi_d);
        out.push(lo_d);
        proof {
            assert(bytes@.take(i + 1) =~= bytes@.take(i as int).push(bytes@[i as int]));
            lemma_hex_bytes_snoc(bytes@.take(i as int), bytes@[i as int]);
        }
        i = i + 1;
    }
    proof {
        assert(bytes@.take(n as int) =~= bytes@);
        lemma_hex_bytes_props(bytes@);
        assert(ascii_only(out@));
    }
    let r = string_from_ascii(out);
    proof {
        assert(r@ =~= hex_chars(bytes@));
    }
    r
}

/// Relies on rand::rngs::OsRng (RngCore::fill_bytes): fills the buffer in
/// place from the operating system's secure random source. Nothing is
/// promised of the values drawn.
#[verifier::external_body]
fn fill_random(buf: &mut Vec<u8>)
    ensures
        final(buf)@.len() == old(buf)@.len(),
{
    rand::rngs::OsRng.fill_bytes(buf.as_mut_slice());
}

/// A buffer of the given length drawn from the secure random source.
pub fn random_bytes(len: usize) -> (r: Vec<u8>)
    ensures
        r@.len() == len,
{
    let mut buf: Vec<u8> = vec![0u8; len];
    fill_random(&mut buf);
    buf
}

/// A fresh identifier: 16 random bytes rendered as 32 hexadecimal digits.
/// Collisions are never produced in practice, but the store still refuses
/// to overwrite a different record under a colliding identifier.
pub fn generate_uuid() -> (r: String)
    ensures
        valid_id(r@),
        r@.len() == 32,
{
    let buf = random_bytes(16);
    let r = hex_encode(&buf);
    proof {
        lemma_hex_chars_valid(buf@);
    }
    r
}

} // verus!
