use vstd::prelude::*;
use vstd::string::StrSliceExecFns;

verus! {

broadcast use vstd::string::is_ascii_spec_bytes;

/// The bytes of an ASCII character sequence, one byte per character.
pub open spec fn ascii_bytes(s: Seq<char>) -> Seq<u8> {
    Seq::new(s.len(), |i: int| s[i] as u8)
}

/// All bytes of the sequence are plain ASCII.
pub open spec fn ascii_only(b: Seq<u8>) -> bool {
    forall|i: int| 0 <= i < b.len() ==> b[i] < 128
}

/// Turning ASCII bytes into characters and back is the identity.
pub proof fn lemma_ascii_bytes_of_chars(b: Seq<u8>)
    requires
        ascii_only(b),
    ensures
        ascii_bytes(Seq::new(b.len(), |i: int| b[i] as char)) =~= b,
        vstd::utf8::is_ascii_chars(Seq::new(b.len(), |i: int| b[i] as char)),
{
    let s = Seq::new(b.len(), |i: int| b[i] as char);
    assert forall|i: int| 0 <= i < s.len() implies ascii_bytes(s)[i] == b[i] by {
        assert(b[i] < 128);
    }
    assert forall|i: int| 0 <= i < s.len() implies '\0' <= #[trigger] s[i] <= '\u{7f}' by {
        assert(b[i] < 128);
    }
}

/// Two ASCII character sequences with equal bytes are equal.
pub proof fn lemma_ascii_bytes_injective(s1: Seq<char>, s2: Seq<char>)
    requires
        vstd::utf8::is_ascii_chars(s1),
        vstd::utf8::is_ascii_chars(s2),
        ascii_bytes(s1) == ascii_bytes(s2),
    ensures
        s1 =~= s2,
{
    assert(ascii_bytes(s1).len() == s1.len());
    assert(ascii_bytes(s2).len() == s2.len());
    assert forall|i: int| 0 <= i < s1.len() implies s1[i] == s2[i] by {
        assert(ascii_bytes(s1)[i] == s1[i] as u8);
        assert(ascii_bytes(s2)[i] == s2[i] as u8);
        assert('\0' <= s1[i] <= '\u{7f}');
        assert('\0' <= s2[i] <= '\u{7f}');
        assert(s1[i] as u8 == s2[i] as u8);
    }
}

/// Relies on String::from_utf8: ASCII bytes convert to a string of exactly
/// those characters, one per byte.
#[verifier::external_body]
pub(crate) fn string_from_ascii(v: Vec<u8>) -> (r: String)
    requires
        ascii_only(v@),
    ensures
        r@ == Seq::new(v@.len(), |i: int| v@[i] as char),
{
    match String::from_utf8(v) {
        Ok(s) => s,
        Err(_) => String::new(),
    }
}

/// The bytes of an ASCII string, as a fresh vector.
pub fn ascii_bytes_vec(s: &str) -> (r: Vec<u8>)
    requires
        s.is_ascii(),
    ensures
        r@ == ascii_bytes(s@),
        ascii_only(r@),
{
    let r = s.as_bytes_vec();
    proof {
        assert(r@ =~= ascii_bytes(s@));
        assert forall|i: int| 0 <= i < r@.len() implies r@[i] < 128 by {
            assert(r@[i] == s@[i] as u8);
            assert('\0' <= s@[i] <= '\u{7f}');
        }
    }
    r
}

/// Whether two strings hold the same characters.
pub fn str_eq(a: &str, b: &str) -> (r: bool)
    ensures
        r == (a@ == b@),
{
    let na = a.unicode_len();
    let nb = b.unicode_len();
    if na != nb {
        return false;
    }
    let mut i: usize = 0;
    while i < na
        invariant
            na == a@.len(),
            na == b@.len(),
            i <= na,
            forall|k: int| 0 <= k < i ==> a@[k] == b@[k],
        decreases na - i,
    {
        if a.get_char(i) != b.get_char(i) {
            return false;
        }
        i = i + 1;
    }
    proof {
        assert(a@ =~= b@);
    }
    true
}

} // verus!
