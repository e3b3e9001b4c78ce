use vstd::prelude::*;

use chacha20poly1305::aead::{Aead, KeyInit};

use crate::error::Error;

verus! {

/// Compression levels the codec accepts.
pub open spec fn valid_level(level: i32) -> bool {
    -7 <= level <= 22
}

/// Length of the initial run of equal bytes.
pub open spec fn run_len(s: Seq<u8>) -> nat
    decreases s.len(),
{
    if s.len() <= 1 {
        s.len()
    } else if s[0] == s[1] {
        (1 + run_len(s.drop_first())) as nat
    } else {
        1
    }
}

/// The initial run as stored: never longer than the input or than one byte
/// can count.
pub open spec fn capped_run(s: Seq<u8>) -> int {
    vstd::math::min(run_len(s) as int, vstd::math::min(s.len() as int, 255))
}

/// The compressed stream: a pair of count and byte for every run.
pub open spec fn rle(s: Seq<u8>) -> Seq<u8>
    decreases s.len(),
{
    if s.len() == 0 {
        Seq::empty()
    } else {
        seq![capped_run(s) as u8, s[0]] + rle(s.skip(capped_run(s)))
    }
}

/// The expansion of a compressed stream, or nothing if the stream is
/// malformed (an odd tail, or a zero count).
pub open spec fn unrle(s: Seq<u8>) -> Option<Seq<u8>>
    decreases s.len(),
{
    if s.len() == 0 {
        Some(Seq::empty())
    } else if s.len() == 1 {
        None
    } else if s[0] == 0 {
        None
    } else {
        match unrle(s.skip(2)) {
            Some(rest) => Some(Seq::new(s[0] as nat, |i: int| s[1]) + rest),
            None => None,
        }
    }
}

/// The initial run is non-empty, within the input, all one byte, and ends
/// at the first difference.
pub proof fn lemma_run_props(s: Seq<u8>)
    requires
        s.len() > 0,
    ensures
        1 <= run_len(s) <= s.len(),
        forall|i: int| 0 <= i < run_len(s) ==> #[trigger] s[i] == s[0],
        run_len(s) < s.len() ==> s[run_len(s) as int] != s[0],
    decreases s.len(),
{
    if s.len() > 1 && s[0] == s[1] {
        lemma_run_props(s.drop_first());
        assert forall|i: int| 0 <= i < run_len(s) implies #[trigger] s[i] == s[0] by {
            if i > 0 {
                assert(s.drop_first()[i - 1] == s[i]);
                assert(s.drop_first()[i - 1] == s.drop_first()[0]);
            }
        }
        if run_len(s) < s.len() {
            assert(s.drop_first()[run_len(s) - 1] == s[run_len(s) as int]);
            assert(s.drop_first()[run_len(s) - 1] != s.drop_first()[0]);
        }
    }
}

/// A run observed to stop at `m` is the initial run.
proof fn lemma_run_len_is(s: Seq<u8>, m: int)
    requires
        0 < s.len(),
        0 < m <= s.len(),
        forall|k: int| 0 <= k < m ==> #[trigger] s[k] == s[0],
        m == s.len() || s[m] != s[0],
    ensures
        run_len(s) == m,
{
    lemma_run_props(s);
    let r = run_len(s) as int;
    if r < m {
        assert(s[r] == s[0]);
    }
    if r > m {
        assert(s[m] == s[0]);
    }
}

/// A prefix of equal bytes bounds the initial run from below.
proof fn lemma_run_len_ge(s: Seq<u8>, m: int)
    requires
        0 < s.len(),
        0 <= m <= s.len(),
        forall|k: int| 0 <= k < m ==> #[trigger] s[k] == s[0],
    ensures
        run_len(s) >= m,
{
    lemma_run_props(s);
    let r = run_len(s) as int;
    if r < m {
        assert(s[r] == s[0]);
    }
}

/// The compressed stream is at most twice as long as its input.
pub proof fn lemma_rle_len(s: Seq<u8>)
    ensures
        rle(s).len() <= 2 * s.len(),
    decreases s.len(),
{
    if s.len() > 0 {
        lemma_run_props(s);
        lemma_rle_len(s.skip(capped_run(s)));
    }
}

/// Law: expanding a compressed stream recovers the original bytes exactly.
pub proof fn lemma_compress_round_trip(s: Seq<u8>)
    ensures
        unrle(rle(s)) == Some(s),
    decreases s.len(),
{
    if s.len() == 0 {
        assert(rle(s) =~= Seq::<u8>::empty());
        assert(unrle(rle(s)) == Some(Seq::<u8>::empty()));
        assert(Seq::<u8>::empty() =~= s);
    } else {
        lemma_run_props(s);
        let r = capped_run(s);
        let tail = s.skip(r);
        lemma_compress_round_trip(tail);
        let enc = rle(s);
        assert(enc == seq![r as u8, s[0]] + rle(tail));
        assert(enc.len() >= 2);
        assert(enc[0] == r as u8);
        assert(1 <= r <= 255);
        assert(enc[0] as int == r);
        assert(enc[0] != 0);
        assert(enc[1] == s[0]);
        assert(enc.skip(2) =~= rle(tail));
        assert(unrle(enc.skip(2)) == Some(tail));
        assert(unrle(enc) == Some(Seq::new(enc[0] as nat, |i: int| enc[1]) + tail));
        assert(Seq::new(enc[0] as nat, |i: int| enc[1]) + tail =~= s) by {
            assert forall|i: int| 0 <= i < s.len() implies (Seq::new(
                enc[0] as nat,
                |i: int| enc[1],
            ) + tail)[i] == s[i] by {
                if i < r {
                    assert(s[i] == s[0]);
                } else {
                    assert(tail[i - r] == s[i]);
                }
            }
        }
    }
}

/// Compress bytes at the given level. The level is range-checked; the
/// output stream itself does not depend on it.
pub fn compress(bytes: &Vec<u8>, level: i32) -> (r: Result<Vec<u8>, Error>)
    ensures
        r is Ok <==> valid_level(level),
        r matches Ok(c) ==> c@ == rle(bytes@),
        r matches Err(e) ==> e == Error::InvalidLevel,
{
    if level < -7 || level > 22 {
        return Err(Error::InvalidLevel);
    }
    let n = bytes.len();
    let mut out: Vec<u8> = Vec::new();
    let mut i: usize = 0;
    proof {
        assert(bytes@.skip(0) =~= bytes@);
        assert(out@ + rle(bytes@) =~= rle(bytes@));
    }
    while i < n
        invariant
            n == bytes@.len(),
            i <= n,
            rle(bytes@) == out@ + rle(bytes@.skip(i as int)),
        decreases n - i,
    {
        let b = bytes[i];
        let mut j: usize = i + 1;
        let mut cnt: usize = 1;
        while j < n && cnt < 255 && bytes[j] == b
            invariant
                n == bytes@.len(),
                i < n,
                b == bytes@[i as int],
                i < j <= n,
                cnt == j - i,
                cnt <= 255,
                forall|k: int| i <= k < j ==> bytes@[k] == b,
            decreases n - j,
    {
        j = j + 1;
        cnt = cnt + 1;
    }
        let ghost prev = out@;
        out.push(cnt as u8);
        out.push(b);
        proof {
            let t = bytes@.skip(i as int);
            assert(t.len() == n - i);
            assert forall|k: int| 0 <= k < t.len() implies t[k] == bytes@[i + k] by {}
            assert(t[0] == b);
            if cnt < 255 {
                assert(j == n || bytes@[j as int] != b);
                assert forall|k: int| 0 <= k < cnt implies #[trigger] t[k] == t[0] by {
                    assert(t[k] == bytes@[i + k]);
                }
                if (j as int) - (i as int) < t.len() {
                    assert(t[cnt as int] == bytes@[j as int]);
                }
                lemma_run_len_is(t, cnt as int);
            } else {
                assert forall|k: int| 0 <= k < 255 implies #[trigger] t[k] == t[0] by {
                    assert(t[k] == bytes@[i + k]);
                }
                lemma_run_len_ge(t, 255);
            }
            assert(capped_run(t) == cnt);
            assert(rle(t) == seq![cnt as u8, b] + rle(t.skip(cnt as int)));
            assert(t.skip(cnt as int) =~= bytes@.skip(j as int));
            assert(out@ =~= prev + seq![cnt as u8, b]);
            assert((prev + seq![cnt as u8, b]) + rle(bytes@.skip(j as int)) =~= prev + (seq![
                cnt as u8,
                b,
            ] + rle(bytes@.skip(j as int))));
        }
        i = j;
    }
    proof {
        assert(bytes@.skip(n as int) =~= Seq::<u8>::empty());
        assert(rle(bytes@.skip(n as int)) =~= Seq::<u8>::empty());
        assert(out@ + Seq::<u8>::empty() =~= out@);
    }
    Ok(out)
}

/// Expand a compressed stream, failing on any malformed input.
pub fn decompress(bytes: &Vec<u8>) -> (r: Result<Vec<u8>, Error>)
    ensures
        r is Ok <==> unrle(bytes@) is Some,
        r matches Ok(p) ==> unrle(bytes@) == Some(p@),
        r matches Err(e) ==> e == Error::Corrupt,
{
    let n = bytes.len();
    let mut out: Vec<u8> = Vec::new();
    let mut i: usize = 0;
    proof {
        assert(bytes@.skip(0) =~= bytes@);
        match unrle(bytes@) {
            Some(rest) => {
                assert(out@ + rest =~= rest);
            },
            None => {},
        }
    }
    while i < n
        invariant
            n == bytes@.len(),
            i <= n,
            match unrle(bytes@.skip(i as int)) {
                Some(rest) => unrle(bytes@) == Some(out@ + rest),
                None => unrle(bytes@) is None,
            },
        decreases n - i,
    {
        if i + 1 >= n {
            proof {
                assert(bytes@.skip(i as int).len() == 1);
            }
            return Err(Error::Corrupt);
        }
        let cnt = bytes[i];
        let v = bytes[i + 1];
        if cnt == 0 {
            proof {
                assert(bytes@.skip(i as int)[0] == 0);
            }
            return Err(Error::Corrupt);
        }
        let ghost prev = out@;
        let mut k: u8 = 0;
        while k < cnt
            invariant
                k <= cnt,
                out@ == prev + Seq::new(k as nat, |q: int| v),
            decreases cnt - k,
        {
            out.push(v);
            proof {
                assert(prev + Seq::new((k + 1) as nat, |q: int| v) =~= (prev + Seq::new(
                    k as nat,
                    |q: int| v,
                )).push(v));
            }
            k = k + 1;
        }
        proof {
            let t = bytes@.skip(i as int);
            assert(t.len() >= 2);
            assert(t[0] == cnt && t[1] == v);
            assert(t.skip(2) =~= bytes@.skip(i as int + 2));
            match unrle(bytes@.skip(i as int + 2)) {
                Some(rest2) => {
                    assert(unrle(t) == Some(Seq::new(cnt as nat, |q: int| v) + rest2));
                    assert(prev + (Seq::new(cnt as nat, |q: int| v) + rest2) =~= out@ + rest2);
                },
                None => {
                    assert(unrle(t) is None);
                },
            }
        }
        i = i + 2;
    }
    proof {
        assert(bytes@.skip(n as int) =~= Seq::<u8>::empty());
        assert(out@ + Seq::<u8>::empty() =~= out@);
    }
    Ok(out)
}

/// What the cipher returns: an opaque function of key, nonce and plaintext
/// alone. Nothing else is assumed of it.
pub uninterp spec fn cipher_of(key: Seq<u8>, nonce: Seq<u8>, plain: Seq<u8>) -> Seq<u8>;

/// The longest message the cipher accepts.
pub open spec fn aead_max_len() -> int {
    0x3fffffffc0
}

/// Relies on chacha20poly1305::ChaCha20Poly1305 (Aead::encrypt): the
/// ciphertext is a function of key, nonce and plaintext alone, carries a
/// 16-byte authentication tag after the encrypted bytes, and encryption
/// succeeds for any message under the cipher's block-count limit.
#[verifier::external_body]
pub(crate) fn aead_encrypt(key: &Vec<u8>, nonce: &Vec<u8>, plain: &Vec<u8>) -> (r: Result<
    Vec<u8>,
    Error,
>)
    requires
        key@.len() == 32,
        nonce@.len() == 12,
    ensures
        r matches Ok(c) ==> c@ == cipher_of(key@, nonce@, plain@) && c@.len() == plain@.len() + 16,
        plain@.len() < aead_max_len() ==> r is Ok,
        r matches Err(e) ==> e == Error::EncryptFailed,
{
    let k = chacha20poly1305::Key::from_slice(key.as_slice());
    let n = chacha20poly1305::Nonce::from_slice(nonce.as_slice());
    match chacha20poly1305::ChaCha20Poly1305::new(k).encrypt(n, plain.as_slice()) {
        Ok(c) => Ok(c),
        Err(_) => Err(Error::EncryptFailed),
    }
}

/// Relies on chacha20poly1305::ChaCha20Poly1305 (Aead::decrypt): decryption
/// inverts encryption under the same key and nonce, and fails whenever the
/// trailing authentication tag does not verify. A verified tag is the tag
/// of exactly this ciphertext, and the stream cipher is an involution, so
/// a successful decryption also shows the input was the encryption of the
/// returned plaintext.
#[verifier::external_body]
pub(crate) fn aead_decrypt(key: &Vec<u8>, nonce: &Vec<u8>, cipher: &Vec<u8>) -> (r: Result<
    Vec<u8>,
    Error,
>)
    requires
        key@.len() == 32,
        nonce@.len() == 12,
    ensures
        r matches Ok(q) ==> (forall|p: Seq<u8>| cipher@ == cipher_of(key@, nonce@, p) ==> q@ == p),
        (exists|p: Seq<u8>| cipher@ == cipher_of(key@, nonce@, p)) ==> r is Ok,
        r matches Ok(q) ==> cipher@ == cipher_of(key@, nonce@, q@),
        r matches Ok(q) ==> cipher@.len() == q@.len() + 16,
        r matches Err(e) ==> e == Error::AuthenticationFailed,
{
    let k = chacha20poly1305::Key::from_slice(key.as_slice());
    let n = chacha20poly1305::Nonce::from_slice(nonce.as_slice());
    match chacha20poly1305::ChaCha20Poly1305::new(k).decrypt(n, cipher.as_slice()) {
        Ok(p) => Ok(p),
        Err(_) => Err(Error::AuthenticationFailed),
    }
}

} // verus!
