use vstd::prelude::*;
use vstd::string::StrSliceExecFns;

use crate::error::Error;
use crate::text::{ascii_bytes, ascii_only, lemma_ascii_bytes_of_chars, string_from_ascii};

verus! {

/// The byte of which the header delimiter is made: `!`, three times over.
pub const DELIM_BYTE: u8 = 33;

/// The fixed three-byte constant separating the identifier from the
/// ciphertext in a tagged artifact.
pub open spec fn spec_delim() -> Seq<u8> {
    seq![33u8, 33u8, 33u8]
}

/// A full tagged artifact: identifier bytes, then the delimiter, then the
/// ciphertext.
pub open spec fn tagged_bytes(id: Seq<char>, cipher: Seq<u8>) -> Seq<u8> {
    ascii_bytes(id) + spec_delim() + cipher
}

/// The delimiter occurs in `b` at position `i`.
pub open spec fn delim_at(b: Seq<u8>, i: int) -> bool {
    &&& 0 <= i
    &&& i + 3 <= b.len()
    &&& b[i] == 33u8
    &&& b[i + 1] == 33u8
    &&& b[i + 2] == 33u8
}

/// The delimiter occurs nowhere before position `i`.
pub open spec fn no_delim_before(b: Seq<u8>, i: int) -> bool {
    forall|j: int| 0 <= j < i ==> !delim_at(b, j)
}

/// The header parses at `i`: the first delimiter stands at `i`, and every
/// identifier byte before it is plain ASCII.
pub open spec fn parse_ok_at(b: Seq<u8>, i: int) -> bool {
    &&& delim_at(b, i)
    &&& no_delim_before(b, i)
    &&& ascii_only(b.take(i))
}

/// The artifact has a well-formed header.
pub open spec fn parses(b: Seq<u8>) -> bool {
    exists|i: int| parse_ok_at(b, i)
}

/// The header parses at no more than one position.
pub proof fn lemma_parse_position_unique(b: Seq<u8>, i: int, j: int)
    requires
        delim_at(b, i),
        no_delim_before(b, i),
        delim_at(b, j),
        no_delim_before(b, j),
    ensures
        i == j,
{
    if i < j {
        assert(!delim_at(b, i));
    }
    if j < i {
        assert(!delim_at(b, j));
    }
}

/// Prefix the encrypted contents with the identifier and the delimiter,
/// draining the contents vector as the original buffer is consumed.
pub fn prepend_uuid(uuid: &String, encrypted_contents: &mut Vec<u8>) -> (r: Vec<u8>)
    requires
        vstd::utf8::is_ascii_chars(uuid@),
    ensures
        r@ == tagged_bytes(uuid@, old(encrypted_contents)@),
        final(encrypted_contents)@.len() == 0,
{
    let mut out: Vec<u8> = crate::text::ascii_bytes_vec(uuid.as_str());
    out.push(DELIM_BYTE);
    out.push(DELIM_BYTE);
    out.push(DELIM_BYTE);
    out.append(encrypted_contents);
    proof {
        assert(out@ =~= tagged_bytes(uuid@, old(encrypted_contents)@));
    }
    out
}

/// Split a tagged artifact at the first delimiter, recovering the embedded
/// identifier and the ciphertext that follows. Fails with `Error::Format`
/// when no delimiter occurs, or when the identifier part is not plain text.
pub fn get_uuid(contents: &Vec<u8>) -> (r: Result<(String, Vec<u8>), Error>)
    ensures
        r is Ok <==> parses(contents@),
        r matches Ok(p) ==> ({
            &&& parse_ok_at(contents@, p.0@.len() as int)
            &&& vstd::utf8::is_ascii_chars(p.0@)
            &&& ascii_bytes(p.0@) == contents@.take(p.0@.len() as int)
            &&& p.1@ == contents@.skip(p.0@.len() as int + 3)
        }),
        r matches Err(e) ==> e == Error::Format,
{
    let n = contents.len();
    if n < 3 {
        proof {
            assert forall|i: int| !parse_ok_at(contents@, i) by {
                if delim_at(contents@, i) {
                    assert(i + 3 <= n);
                }
            }
        }
        return Err(Error::Format);
    }
    let mut i: usize = 0;
    let mut pos: usize = n;
    while i < n - 2
        invariant
            3 <= n,
            n == contents@.len(),
            i <= n - 2,
            pos == n || (pos < n - 2 && delim_at(contents@, pos as int) && no_delim_before(
                contents@,
                pos as int,
            )),
            pos == n ==> no_delim_before(contents@, i as int),
        decreases n - i,
    {
        if pos == n && contents[i] == DELIM_BYTE && contents[i + 1] == DELIM_BYTE && contents[i + 2]
            == DELIM_BYTE {
            pos = i;
        }
        i = i + 1;
    }
    if pos == n {
        proof {
            assert forall|k: int| !parse_ok_at(contents@, k) by {
                if delim_at(contents@, k) {
                    assert(k + 3 <= n);
                    assert(k < n - 2);
                    assert(!delim_at(contents@, k));
                }
            }
        }
        return Err(Error::Format);
    }
    // The first delimiter stands at `pos`; check the identifier bytes.
    let mut j: usize = 0;
    while j < pos
        invariant
            pos < n - 2,
            n == contents@.len(),
            j <= pos,
            delim_at(contents@, pos as int),
            no_delim_before(contents@, pos as int),
            forall|k: int| 0 <= k < j ==> contents@[k] < 128,
        decreases pos - j,
    {
        if contents[j] >= 128 {
            proof {
                assert(contents@.take(pos as int)[j as int] == contents@[j as int]);
                assert(contents@.take(pos as int)[j as int] >= 128);
                assert(!ascii_only(contents@.take(pos as int)));
                assert forall|k: int| !parse_ok_at(contents@, k) by {
                    if delim_at(contents@, k) && no_delim_before(contents@, k) {
                        lemma_parse_position_unique(contents@, k, pos as int);
                    }
                }
            }
            return Err(Error::Format);
        }
        j = j + 1;
    }
    let id_bytes: Vec<u8> = vstd::slice::slice_to_vec(
        vstd::slice::slice_subrange(contents.as_slice(), 0, pos),
    );
    let rest: Vec<u8> = vstd::slice::slice_to_vec(
        vstd::slice::slice_subrange(contents.as_slice(), pos + 3, n),
    );
    proof {
        assert(id_bytes@ =~= contents@.take(pos as int));
        assert(ascii_only(id_bytes@));
        assert(rest@ =~= contents@.skip(pos as int + 3));
        lemma_ascii_bytes_of_chars(id_bytes@);
    }
    let uuid = string_from_ascii(id_bytes);
    proof {
        assert(uuid@.len() == pos);
        assert(ascii_bytes(uuid@) =~= contents@.take(pos as int));
        assert(parse_ok_at(contents@, pos as int));
    }
    Ok((uuid, rest))
}

/// Law: an artifact built from a delimiter-free ASCII identifier parses back
/// to exactly that identifier and ciphertext.
pub proof fn lemma_tag_round_trip(id: Seq<char>, cipher: Seq<u8>)
    requires
        vstd::utf8::is_ascii_chars(id),
        forall|i: int| 0 <= i < id.len() ==> id[i] != '!',
    ensures
        parse_ok_at(tagged_bytes(id, cipher), id.len() as int),
        tagged_bytes(id, cipher).take(id.len() as int) =~= ascii_bytes(id),
        tagged_bytes(id, cipher).skip(id.len() as int + 3) =~= cipher,
        parses(tagged_bytes(id, cipher)),
{
    let b = tagged_bytes(id, cipher);
    let m = id.len() as int;
    assert forall|j: int| 0 <= j < m implies b[j] == id[j] as u8 && b[j] != 33u8 && b[j] < 128 by {
        assert(b[j] == ascii_bytes(id)[j]);
        assert('\0' <= id[j] <= '\u{7f}');
        assert(id[j] != '!');
        if id[j] as u8 == 33u8 {
            assert(id[j] == '!');
        }
    }
    assert(b[m] == 33u8 && b[m + 1] == 33u8 && b[m + 2] == 33u8);
    assert(delim_at(b, m));
    assert forall|j: int| 0 <= j < m implies !delim_at(b, j) by {
        assert(b[j] != 33u8);
    }
    assert(ascii_only(b.take(m)));
    assert(parse_ok_at(b, m));
}

} // verus!
