use vstd::prelude::*;
use vstd::string::StrSliceExecFns;

use crate::encryption::FileCrypt;
use crate::error::Error;
use crate::ident::{
    hex_bytes, hex_chars, hex_encode, lemma_hex_bytes_props, lemma_hex_bytes_snoc,
    lemma_hex_chars_valid, lemma_valid_id_ascii,
};
use crate::keeper::Keeper;
use crate::text::{ascii_bytes, lemma_ascii_bytes_of_chars, string_from_ascii};

verus! {

/// Text that survives the tabular format unescaped: plain ASCII without
/// the column or row separators.
pub open spec fn field_plain(s: Seq<char>) -> bool {
    &&& vstd::utf8::is_ascii_chars(s)
    &&& forall|i: int| 0 <= i < s.len() ==> s[i] != ',' && s[i] != '\n'
}

/// A record the tabular format can carry. The identifier is hexadecimal by
/// well-formedness and needs no check of its own.
pub open spec fn exportable(rec: FileCrypt) -> bool {
    &&& field_plain(rec.filename@)
    &&& field_plain(rec.ext@)
    &&& field_plain(rec.full_path@)
    &&& field_plain(rec.drive_id@)
}

/// One row of the export: the stable column order is identifier, name,
/// extension, path, key, nonce, remote identifier; key material travels as
/// hexadecimal text.
pub open spec fn encode_line(rec: FileCrypt) -> Seq<u8> {
    ascii_bytes(rec.uuid@) + seq![44u8] + ascii_bytes(rec.filename@) + seq![44u8] + ascii_bytes(
        rec.ext@,
    ) + seq![44u8] + ascii_bytes(rec.full_path@) + seq![44u8] + hex_bytes(rec.key@) + seq![44u8]
        + hex_bytes(rec.nonce@) + seq![44u8] + ascii_bytes(rec.drive_id@)
}

/// The whole export: one row per record, in the order given.
pub open spec fn encode_records(rs: Seq<FileCrypt>) -> Seq<u8>
    decreases rs.len(),
{
    if rs.len() == 0 {
        Seq::empty()
    } else {
        encode_line(rs[0]) + seq![10u8] + encode_records(rs.drop_first())
    }
}

/// Appending one record appends its row.
proof fn lemma_encode_records_snoc(rs: Seq<FileCrypt>, rec: FileCrypt)
    ensures
        encode_records(rs.push(rec)) =~= encode_records(rs) + encode_line(rec) + seq![10u8],
    decreases rs.len(),
{
    if rs.len() == 0 {
        assert(rs.push(rec).drop_first() =~= Seq::<FileCrypt>::empty());
        assert(rs.push(rec)[0] == rec);
        assert(encode_records(Seq::<FileCrypt>::empty()) =~= Seq::<u8>::empty());
    } else {
        assert(rs.push(rec).drop_first() =~= rs.drop_first().push(rec));
        assert(rs.push(rec)[0] == rs[0]);
        lemma_encode_records_snoc(rs.drop_first(), rec);
    }
}


/// The positions of the six separators inside one record's row.
pub open spec fn sep0(fc: FileCrypt) -> int {
    fc.uuid@.len() as int
}

pub open spec fn sep1(fc: FileCrypt) -> int {
    sep0(fc) + 1 + fc.filename@.len()
}

pub open spec fn sep2(fc: FileCrypt) -> int {
    sep1(fc) + 1 + fc.ext@.len()
}

pub open spec fn sep3(fc: FileCrypt) -> int {
    sep2(fc) + 1 + fc.full_path@.len()
}

pub open spec fn sep4(fc: FileCrypt) -> int {
    sep3(fc) + 1 + hex_bytes(fc.key@).len()
}

pub open spec fn sep5(fc: FileCrypt) -> int {
    sep4(fc) + 1 + hex_bytes(fc.nonce@).len()
}

/// Whether `i` is one of the six separator positions of the row.
pub open spec fn is_sep(fc: FileCrypt, i: int) -> bool {
    i == sep0(fc) || i == sep1(fc) || i == sep2(fc) || i == sep3(fc) || i == sep4(fc) || i
        == sep5(fc)
}

/// The shape of one record's row: plain bytes throughout, the separator
/// byte at exactly the six boundaries, and each column's bytes between
/// them.
#[verifier::rlimit(100)]
pub proof fn lemma_encode_line_shape(fc: FileCrypt)
    requires
        fc.wf(),
        exportable(fc),
    ensures
        encode_line(fc).len() == sep5(fc) + 1 + fc.drive_id@.len(),
        forall|i: int|
            0 <= i < encode_line(fc).len() ==> #[trigger] encode_line(fc)[i] < 128
                && encode_line(fc)[i] != 10,
        forall|i: int|
            0 <= i < encode_line(fc).len() ==> (encode_line(fc)[i] == 44 <==> is_sep(fc, i)),
        encode_line(fc).subrange(0, sep0(fc)) == ascii_bytes(fc.uuid@),
        encode_line(fc).subrange(sep0(fc) + 1, sep1(fc)) == ascii_bytes(fc.filename@),
        encode_line(fc).subrange(sep1(fc) + 1, sep2(fc)) == ascii_bytes(fc.ext@),
        encode_line(fc).subrange(sep2(fc) + 1, sep3(fc)) == ascii_bytes(fc.full_path@),
        encode_line(fc).subrange(sep3(fc) + 1, sep4(fc)) == hex_bytes(fc.key@),
        encode_line(fc).subrange(sep4(fc) + 1, sep5(fc)) == hex_bytes(fc.nonce@),
        encode_line(fc).subrange(sep5(fc) + 1, encode_line(fc).len() as int) == ascii_bytes(
            fc.drive_id@,
        ),
{
    let b = encode_line(fc);
    lemma_hex_bytes_props(fc.key@);
    lemma_hex_bytes_props(fc.nonce@);
    crate::ident::lemma_valid_id_ascii(fc.uuid@);
    assert forall|i: int| 0 <= i < b.len() implies #[trigger] b[i] < 128 && b[i] != 10 && (b[i]
        == 44 <==> is_sep(fc, i)) by {
        if i < sep0(fc) {
            assert(b[i] == ascii_bytes(fc.uuid@)[i]);
            assert(crate::ident::is_hex_char(fc.uuid@[i]));
        } else if i == sep0(fc) {
        } else if i < sep1(fc) {
            let k = i - sep0(fc) - 1;
            assert(b[i] == ascii_bytes(fc.filename@)[k]);
            assert(fc.filename@[k] != ',' && fc.filename@[k] != '\n' && '\0' <= fc.filename@[k]
                <= '\u{7f}');
        } else if i == sep1(fc) {
        } else if i < sep2(fc) {
            let k = i - sep1(fc) - 1;
            assert(b[i] == ascii_bytes(fc.ext@)[k]);
            assert(fc.ext@[k] != ',' && fc.ext@[k] != '\n' && '\0' <= fc.ext@[k] <= '\u{7f}');
        } else if i == sep2(fc) {
        } else if i < sep3(fc) {
            let k = i - sep2(fc) - 1;
            assert(b[i] == ascii_bytes(fc.full_path@)[k]);
            assert(fc.full_path@[k] != ',' && fc.full_path@[k] != '\n' && '\0'
                <= fc.full_path@[k] <= '\u{7f}');
        } else if i == sep3(fc) {
        } else if i < sep4(fc) {
            let k = i - sep3(fc) - 1;
            assert(b[i] == hex_bytes(fc.key@)[k]);
            assert(48 <= hex_bytes(fc.key@)[k] <= 102);
        } else if i == sep4(fc) {
        } else if i < sep5(fc) {
            let k = i - sep4(fc) - 1;
            assert(b[i] == hex_bytes(fc.nonce@)[k]);
            assert(48 <= hex_bytes(fc.nonce@)[k] <= 102);
        } else if i == sep5(fc) {
        } else {
            let k = i - sep5(fc) - 1;
            assert(b[i] == ascii_bytes(fc.drive_id@)[k]);
            assert(fc.drive_id@[k] != ',' && fc.drive_id@[k] != '\n' && '\0'
                <= fc.drive_id@[k] <= '\u{7f}');
        }
    }
    assert(b.subrange(0, sep0(fc)) =~= ascii_bytes(fc.uuid@));
    assert(b.subrange(sep0(fc) + 1, sep1(fc)) =~= ascii_bytes(fc.filename@));
    assert(b.subrange(sep1(fc) + 1, sep2(fc)) =~= ascii_bytes(fc.ext@));
    assert(b.subrange(sep2(fc) + 1, sep3(fc)) =~= ascii_bytes(fc.full_path@));
    assert(b.subrange(sep3(fc) + 1, sep4(fc)) =~= hex_bytes(fc.key@));
    assert(b.subrange(sep4(fc) + 1, sep5(fc)) =~= hex_bytes(fc.nonce@));
    assert(b.subrange(sep5(fc) + 1, b.len() as int) =~= ascii_bytes(fc.drive_id@));
}

/// Two well-formed records whose rows coincide carry the same identifier.
pub proof fn lemma_same_row_same_uuid(a: FileCrypt, b: FileCrypt)
    requires
        a.wf(),
        exportable(a),
        b.wf(),
        exportable(b),
        encode_line(a) == encode_line(b),
    ensures
        a.uuid@ == b.uuid@,
{
    lemma_encode_line_shape(a);
    lemma_encode_line_shape(b);
    let l = encode_line(a);
    // The first separator byte of the shared row stands at both records'
    // identifier lengths, so the lengths agree.
    if sep0(a) < sep0(b) {
        assert(l[sep0(a)] == 44);
        assert(is_sep(b, sep0(a)));
        assert(sep0(a) >= sep0(b));
    }
    if sep0(b) < sep0(a) {
        assert(l[sep0(b)] == 44);
        assert(is_sep(a, sep0(b)));
        assert(sep0(b) >= sep0(a));
    }
    assert(ascii_bytes(a.uuid@) == ascii_bytes(b.uuid@));
    crate::ident::lemma_valid_id_ascii(a.uuid@);
    crate::ident::lemma_valid_id_ascii(b.uuid@);
    crate::text::lemma_ascii_bytes_injective(a.uuid@, b.uuid@);
}

/// The bytes of one record's hexadecimal key material.
fn hex_field(bytes: &Vec<u8>) -> (r: Vec<u8>)
    requires
        bytes@.len() > 0,
    ensures
        r@ == hex_bytes(bytes@),
{
    let s = hex_encode(bytes);
    proof {
        lemma_hex_chars_valid(bytes@);
        lemma_valid_id_ascii(hex_chars(bytes@));
        lemma_hex_bytes_props(bytes@);
        lemma_ascii_bytes_of_chars(hex_bytes(bytes@));
    }
    let r = crate::text::ascii_bytes_vec(s.as_str());
    proof {
        assert(r@ =~= hex_bytes(bytes@));
    }
    r
}

/// Serialize records to the portable tabular format, one row each.
#[verifier::rlimit(100)]
pub fn export_records(records: &Vec<FileCrypt>) -> (r: Vec<u8>)
    requires
        forall|i: int| 0 <= i < records@.len() ==> (#[trigger] records@[i]).wf(),
        forall|i: int| 0 <= i < records@.len() ==> exportable(#[trigger] records@[i]),
    ensures
        r@ == encode_records(records@),
{
    let n = records.len();
    let mut out: Vec<u8> = Vec::new();
    let mut i: usize = 0;
    proof {
        assert(records@.take(0) =~= Seq::<FileCrypt>::empty());
        assert(encode_records(records@.take(0)) =~= Seq::<u8>::empty());
    }
    while i < n
        invariant
            n == records@.len(),
            i <= n,
            forall|k: int| 0 <= k < n ==> (#[trigger] records@[k]).wf(),
            forall|k: int| 0 <= k < n ==> exportable(#[trigger] records@[k]),
            out@ == encode_records(records@.take(i as int)),
        decreases n - i,
    {
        let rec = &records[i];
        let ghost prev = out@;
        proof {
            lemma_valid_id_ascii(rec.uuid@);
        }
        let mut piece = crate::text::ascii_bytes_vec(rec.uuid.as_str());
        out.append(&mut piece);
        out.push(44);
        let mut piece = crate::text::ascii_bytes_vec(rec.filename.as_str());
        out.append(&mut piece);
        out.push(44);
        let mut piece = crate::text::ascii_bytes_vec(rec.ext.as_str());
        out.append(&mut piece);
        out.push(44);
        let mut piece = crate::text::ascii_bytes_vec(rec.full_path.as_str());
        out.append(&mut piece);
        out.push(44);
        let mut piece = hex_field(&rec.key);
        out.append(&mut piece);
        out.push(44);
        let mut piece = hex_field(&rec.nonce);
        out.append(&mut piece);
        out.push(44);
        let mut piece = crate::text::ascii_bytes_vec(rec.drive_id.as_str());
        out.append(&mut piece);
        out.push(10);
        proof {
            assert(out@ =~= prev + encode_line(records@[i as int]) + seq![10u8]);
            assert(records@.take(i + 1) =~= records@.take(i as int).push(records@[i as int]));
            lemma_encode_records_snoc(records@.take(i as int), records@[i as int]);
        }
        i = i + 1;
    }
    proof {
        assert(records@.take(n as int) =~= records@);
    }
    out
}

/// The value of one hexadecimal digit byte, if it is one.
fn hex_digit_value(b: u8) -> (r: Option<u8>)
    ensures
        r matches Some(v) ==> v < 16 && crate::ident::hex_digit_byte(v) == b,
        r is None ==> forall|v: u8| v < 16 ==> crate::ident::hex_digit_byte(v) != b,
{
    if 48 <= b && b <= 57 {
        Some(b - 48)
    } else if 97 <= b && b <= 102 {
        Some(b - 87)
    } else {
        proof {
            assert forall|v: u8| v < 16 implies crate::ident::hex_digit_byte(v) != b by {
                if v < 10 {
                    assert(crate::ident::hex_digit_byte(v) == 48 + v);
                } else {
                    assert(crate::ident::hex_digit_byte(v) == 87 + v);
                }
            }
        }
        None
    }
}

/// Every byte of a hexadecimal rendering is some digit's byte, and the
/// rendering is even in length.
proof fn lemma_hex_image(v: Seq<u8>)
    ensures
        hex_bytes(v).len() % 2 == 0,
        forall|i: int|
            0 <= i < hex_bytes(v).len() ==> exists|d: u8|
                d < 16 && #[trigger] hex_bytes(v)[i] == crate::ident::hex_digit_byte(d),
{
    lemma_hex_bytes_props(v);
    assert forall|i: int| 0 <= i < hex_bytes(v).len() implies exists|d: u8|
        d < 16 && #[trigger] hex_bytes(v)[i] == crate::ident::hex_digit_byte(d) by {
        crate::ident::lemma_hex_byte_is_digit(v, i);
    }
}

/// Read hexadecimal text back into bytes; the result re-renders to
/// exactly the input, and only text outside every rendering is refused.
fn hex_decode(b: &Vec<u8>) -> (r: Result<Vec<u8>, Error>)
    ensures
        r matches Ok(v) ==> hex_bytes(v@) == b@,
        r matches Err(e) ==> e == Error::Format,
        r is Err ==> (b@.len() % 2 != 0 || exists|i: int|
            0 <= i < b@.len() && (forall|d: u8|
                d < 16 ==> crate::ident::hex_digit_byte(d) != #[trigger] b@[i])),
{
    let n = b.len();
    if n % 2 != 0 {
        return Err(Error::Format);
    }
    let mut out: Vec<u8> = Vec::new();
    let mut i: usize = 0;
    proof {
        assert(b@.take(0) =~= Seq::<u8>::empty());
        assert(hex_bytes(out@) =~= b@.take(0));
    }
    while i < n
        invariant
            n == b@.len(),
            i <= n,
            i % 2 == 0,
            n % 2 == 0,
            hex_bytes(out@) == b@.take(i as int),
        decreases n - i,
    {
        let hi = match hex_digit_value(b[i]) {
            Some(v) => v,
            None => {
                proof {
                    assert(forall|d: u8|
                        d < 16 ==> crate::ident::hex_digit_byte(d) != b@[i as int]);
                }
                return Err(Error::Format);
            },
        };
        let lo = match hex_digit_value(b[i + 1]) {
            Some(v) => v,
            None => {
                proof {
                    assert(forall|d: u8|
                        d < 16 ==> crate::ident::hex_digit_byte(d) != b@[i + 1]);
                }
                return Err(Error::Format);
            },
        };
        let byte = hi * 16 + lo;
        let ghost prev = out@;
        out.push(byte);
        proof {
            assert(byte / 16 == hi && byte % 16 == lo);
            lemma_hex_bytes_snoc(prev, byte);
            assert(b@.take(i + 2) =~= b@.take(i as int) + seq![b@[i as int], b@[i + 1]]);
            assert(hex_bytes(out@) =~= b@.take(i + 2));
        }
        i = i + 2;
    }
    proof {
        assert(b@.take(n as int) =~= b@);
    }
    Ok(out)
}

/// The record a row carries, if any: the row of some well-formed,
/// carryable record.
pub open spec fn row_well_formed(l: Seq<u8>) -> bool {
    exists|fc: FileCrypt| fc.wf() && exportable(fc) && #[trigger] encode_line(fc) == l
}

/// The position of the next separator at or after `from`, if any.
fn next_sep(line: &Vec<u8>, from: usize) -> (r: Option<usize>)
    requires
        from <= line@.len(),
    ensures
        r matches Some(p) ==> from <= p < line@.len() && line@[p as int] == 44 && (forall|k: int|
            from <= k < p ==> line@[k] != 44),
        r is None ==> forall|k: int| from <= k < line@.len() ==> line@[k] != 44,
{
    let n = line.len();
    let mut i: usize = from;
    while i < n
        invariant
            n == line@.len(),
            from <= i <= n,
            forall|k: int| from <= k < i ==> line@[k] != 44,
        decreases n - i,
    {
        if line[i] == 44 {
            return Some(i);
        }
        i = i + 1;
    }
    None
}

/// Whether every byte of one column is plain: ASCII and no row separator.
fn field_bytes_plain(v: &Vec<u8>) -> (r: bool)
    ensures
        r == (forall|k: int| 0 <= k < v@.len() ==> #[trigger] v@[k] < 128 && v@[k] != 10),
{
    let n = v.len();
    let mut i: usize = 0;
    while i < n
        invariant
            n == v@.len(),
            i <= n,
            forall|k: int| 0 <= k < i ==> #[trigger] v@[k] < 128 && v@[k] != 10,
        decreases n - i,
    {
        if v[i] >= 128 || v[i] == 10 {
            return false;
        }
        i = i + 1;
    }
    true
}

/// Split one row at its separators and rebuild the record it carries. The
/// rebuilt record re-encodes to exactly the row that was read, and every
/// row that is some record's encoding is accepted.
#[verifier::rlimit(100)]
pub fn decode_record(line: &Vec<u8>) -> (r: Result<FileCrypt, Error>)
    ensures
        r matches Ok(fc) ==> fc.wf() && exportable(fc) && encode_line(fc) == line@,
        r matches Err(e) ==> e == Error::Format,
        r is Ok <==> row_well_formed(line@),
{
    let n = line.len();
    let ghost wit: Option<FileCrypt> = if row_well_formed(line@) {
        Some(
            choose|fc: FileCrypt| fc.wf() && exportable(fc) && #[trigger] encode_line(fc)
                == line@,
        )
    } else {
        Option::None
    };
    proof {
        match wit {
            Some(fc) => {
                lemma_encode_line_shape(fc);
            },
            Option::None => {},
        }
    }
    let c0 = match next_sep(line, 0) {
        Some(p) => p,
        None => {
            proof {
                match wit {
                    Some(fc) => {
                        assert(line@[sep0(fc)] == 44);
                    },
                    Option::None => {},
                }
            }
            return Err(Error::Format);
        },
    };
    proof {
        match wit {
            Some(fc) => {
                assert(line@[sep0(fc)] == 44);
                assert(c0 <= sep0(fc));
                assert(is_sep(fc, c0 as int));
                assert(c0 as int == sep0(fc));
            },
            Option::None => {},
        }
    }
    let c1 = match next_sep(line, c0 + 1) {
        Some(p) => p,
        None => {
            proof {
                match wit {
                    Some(fc) => {
                        assert(line@[sep1(fc)] == 44);
                    },
                    Option::None => {},
                }
            }
            return Err(Error::Format);
        },
    };
    proof {
        match wit {
            Some(fc) => {
                assert(line@[sep1(fc)] == 44);
                assert(c1 <= sep1(fc));
                assert(is_sep(fc, c1 as int));
                assert(c1 as int == sep1(fc));
            },
            Option::None => {},
        }
    }
    let c2 = match next_sep(line, c1 + 1) {
        Some(p) => p,
        None => {
            proof {
                match wit {
                    Some(fc) => {
                        assert(line@[sep2(fc)] == 44);
                    },
                    Option::None => {},
                }
            }
            return Err(Error::Format);
        },
    };
    proof {
        match wit {
            Some(fc) => {
                assert(line@[sep2(fc)] == 44);
                assert(c2 <= sep2(fc));
                assert(is_sep(fc, c2 as int));
                assert(c2 as int == sep2(fc));
            },
            Option::None => {},
        }
    }
    let c3 = match next_sep(line, c2 + 1) {
        Some(p) => p,
        None => {
            proof {
                match wit {
                    Some(fc) => {
                        assert(line@[sep3(fc)] == 44);
                    },
                    Option::None => {},
                }
            }
            return Err(Error::Format);
        },
    };
    proof {
        match wit {
            Some(fc) => {
                assert(line@[sep3(fc)] == 44);
                assert(c3 <= sep3(fc));
                assert(is_sep(fc, c3 as int));
                assert(c3 as int == sep3(fc));
            },
            Option::None => {},
        }
    }
    let c4 = match next_sep(line, c3 + 1) {
        Some(p) => p,
        None => {
            proof {
                match wit {
                    Some(fc) => {
                        assert(line@[sep4(fc)] == 44);
                    },
                    Option::None => {},
                }
            }
            return Err(Error::Format);
        },
    };
    proof {
        match wit {
            Some(fc) => {
                assert(line@[sep4(fc)] == 44);
                assert(c4 <= sep4(fc));
                assert(is_sep(fc, c4 as int));
                assert(c4 as int == sep4(fc));
            },
            Option::None => {},
        }
    }
    let c5 = match next_sep(line, c4 + 1) {
        Some(p) => p,
        None => {
            proof {
                match wit {
                    Some(fc) => {
                        assert(line@[sep5(fc)] == 44);
                    },
                    Option::None => {},
                }
            }
            return Err(Error::Format);
        },
    };
    proof {
        match wit {
            Some(fc) => {
                assert(line@[sep5(fc)] == 44);
                assert(c5 <= sep5(fc));
                assert(is_sep(fc, c5 as int));
                assert(c5 as int == sep5(fc));
            },
            Option::None => {},
        }
    }
    let spare = next_sep(line, c5 + 1);
    match spare {
        Some(p) => {
            proof {
                match wit {
                    Some(fc) => {
                        assert(line@[p as int] == 44);
                        assert(is_sep(fc, p as int));
                    },
                    Option::None => {},
                }
            }
            return Err(Error::Format);
        },
        None => {},
    }
    let f0 = field_vec(line, 0, c0);
    let f1 = field_vec(line, c0 + 1, c1);
    let f2 = field_vec(line, c1 + 1, c2);
    let f3 = field_vec(line, c2 + 1, c3);
    let f4 = field_vec(line, c3 + 1, c4);
    let f5 = field_vec(line, c4 + 1, c5);
    let f6 = field_vec(line, c5 + 1, n);
    if !(field_bytes_plain(&f0) && field_bytes_plain(&f1) && field_bytes_plain(&f2)
        && field_bytes_plain(&f3) && field_bytes_plain(&f6)) {
        proof {
            match wit {
                Some(fc) => {
                    assert(forall|i: int|
                        0 <= i < line@.len() ==> #[trigger] line@[i] < 128 && line@[i] != 10);
                },
                Option::None => {},
            }
        }
        return Err(Error::Format);
    }
    proof {
        lemma_ascii_bytes_of_chars(f0@);
        lemma_ascii_bytes_of_chars(f1@);
        lemma_ascii_bytes_of_chars(f2@);
        lemma_ascii_bytes_of_chars(f3@);
        lemma_ascii_bytes_of_chars(f6@);
    }
    let key = match hex_decode(&f4) {
        Ok(v) => v,
        Err(_) => {
            proof {
                match wit {
                    Some(fc) => {
                        assert(f4@ == hex_bytes(fc.key@));
                        lemma_hex_image(fc.key@);
                    },
                    Option::None => {},
                }
            }
            return Err(Error::Format);
        },
    };
    let nonce = match hex_decode(&f5) {
        Ok(v) => v,
        Err(_) => {
            proof {
                match wit {
                    Some(fc) => {
                        assert(f5@ == hex_bytes(fc.nonce@));
                        lemma_hex_image(fc.nonce@);
                    },
                    Option::None => {},
                }
            }
            return Err(Error::Format);
        },
    };
    let uuid = string_from_ascii(f0);
    let filename = string_from_ascii(f1);
    let ext = string_from_ascii(f2);
    let full_path = string_from_ascii(f3);
    let drive_id = string_from_ascii(f6);
    match FileCrypt::from_parts(uuid, filename, ext, full_path, key, nonce, drive_id) {
        Ok(fc) => {
            proof {
                assert(encode_line(fc) =~= line@);
            }
            Ok(fc)
        },
        Err(_) => {
            proof {
                match wit {
                    Some(w) => {
                        assert(f0@ == ascii_bytes(w.uuid@));
                        crate::ident::lemma_valid_id_ascii(w.uuid@);
                        lemma_ascii_bytes_of_chars(f0@);
                        crate::text::lemma_ascii_bytes_injective(
                            Seq::new(f0@.len(), |i: int| f0@[i] as char),
                            w.uuid@,
                        );
                        assert(f4@ == hex_bytes(w.key@));
                        lemma_hex_bytes_props(w.key@);
                        lemma_hex_bytes_props(key@);
                        assert(key@.len() == w.key@.len());
                        assert(f5@ == hex_bytes(w.nonce@));
                        lemma_hex_bytes_props(w.nonce@);
                        lemma_hex_bytes_props(nonce@);
                        assert(nonce@.len() == w.nonce@.len());
                    },
                    Option::None => {},
                }
            }
            Err(Error::Format)
        },
    }
}

/// One column of a row, as its raw bytes.
fn field_vec(line: &Vec<u8>, from: usize, to: usize) -> (r: Vec<u8>)
    requires
        from <= to <= line@.len(),
    ensures
        r@ == line@.subrange(from as int, to as int),
{
    vstd::slice::slice_to_vec(vstd::slice::slice_subrange(line.as_slice(), from, to))
}


/// Whether a string survives the tabular format unescaped.
pub fn str_field_plain(s: &String) -> (r: bool)
    ensures
        r == field_plain(s@),
{
    let n = s.as_str().unicode_len();
    let mut i: usize = 0;
    while i < n
        invariant
            n == s@.len(),
            i <= n,
            forall|k: int|
                0 <= k < i ==> '\0' <= #[trigger] s@[k] <= '\u{7f}' && s@[k] != ',' && s@[k]
                    != '\n',
        decreases n - i,
    {
        let c = s.as_str().get_char(i);
        if c > '\u{7f}' || c == ',' || c == '\n' {
            return false;
        }
        i = i + 1;
    }
    true
}

/// Whether the tabular format can carry this record unescaped.
pub fn record_exportable(rec: &FileCrypt) -> (r: bool)
    ensures
        r == exportable(*rec),
{
    str_field_plain(&rec.filename) && str_field_plain(&rec.ext) && str_field_plain(&rec.full_path)
        && str_field_plain(&rec.drive_id)
}

/// Upsert the record one row carries: the store gains exactly the record
/// whose row this is; a malformed row is refused and changes nothing.
pub fn import_line(keeper: &mut Keeper, line: &Vec<u8>) -> (r: Result<(), Error>)
    requires
        old(keeper).wf(),
    ensures
        final(keeper).wf(),
        r is Ok <==> row_well_formed(line@),
        r is Ok ==> exists|fc: FileCrypt|
            #[trigger] encode_line(fc) == line@ && fc.wf() && exportable(fc) && final(keeper)@
                == old(keeper)@.insert(fc.uuid@, fc),
        r matches Err(e) ==> e == Error::Format && final(keeper)@ == old(keeper)@,
{
    match decode_record(line) {
        Ok(fc) => {
            let ghost gfc = fc;
            keeper.insert_or_update(fc);
            proof {
                assert(encode_line(gfc) == line@);
            }
            Ok(())
        },
        Err(e) => Err(e),
    }
}

/// Import rows into the keeper: every row that is some record's encoding
/// is upserted by its identifier — so importing the same rows again
/// leaves the store as one import does — and exactly the malformed rows
/// are reported by index. Records the store held stay, only overwritten
/// by a row carrying their identifier; everything it holds afterwards is
/// an old record or the record of one of the rows.
#[verifier::rlimit(100)]
pub fn import_rows(keeper: &mut Keeper, rows: &Vec<Vec<u8>>) -> (failures: Vec<(usize, Error)>)
    requires
        old(keeper).wf(),
    ensures
        final(keeper).wf(),
        forall|j: int|
            0 <= j < failures@.len() ==> (#[trigger] failures@[j]).1 == Error::Format && (
            failures@[j]).0 < rows@.len(),
        forall|k: int|
            #![trigger rows@[k]]
            0 <= k < rows@.len() ==> (row_well_formed(rows@[k]@) <==> !(exists|j: int|
                0 <= j < failures@.len() && (#[trigger] failures@[j]).0 == k)),
        forall|id: Seq<char>|
            #![trigger old(keeper)@.contains_key(id)]
            old(keeper)@.contains_key(id) ==> final(keeper)@.contains_key(id),
        forall|k: int, fc: FileCrypt|
            #![trigger encode_line(fc), rows@[k]]
            0 <= k < rows@.len() && fc.wf() && exportable(fc) && encode_line(fc)
                == rows@[k]@ ==> final(keeper)@.contains_key(fc.uuid@),
        forall|id: Seq<char>|
            #![trigger final(keeper)@.contains_key(id)]
            final(keeper)@.contains_key(id) ==> ((old(keeper)@.contains_key(id) && final(keeper)@[id] == old(keeper)@[id]) || (exists|k: int|
                0 <= k < rows@.len() && final(keeper)@[id].wf() && exportable(
                    final(keeper)@[id],
                ) && #[trigger] encode_line(final(keeper)@[id]) == rows@[k]@ && final(keeper)@[id].uuid@ == id)),
{
    let n = rows.len();
    let mut failures: Vec<(usize, Error)> = Vec::new();
    let mut i: usize = 0;
    while i < n
        invariant
            keeper.wf(),
            n == rows@.len(),
            i <= n,
            forall|j: int|
                0 <= j < failures@.len() ==> (#[trigger] failures@[j]).1 == Error::Format && (
                failures@[j]).0 < i,
            forall|k: int|
                #![trigger rows@[k]]
                0 <= k < i ==> (row_well_formed(rows@[k]@) <==> !(exists|j: int|
                    0 <= j < failures@.len() && (#[trigger] failures@[j]).0 == k)),
            forall|id: Seq<char>|
                #![trigger old(keeper)@.contains_key(id)]
                old(keeper)@.contains_key(id) ==> keeper@.contains_key(id),
            forall|k: int, fc: FileCrypt|
                #![trigger encode_line(fc), rows@[k]]
                0 <= k < i && fc.wf() && exportable(fc) && encode_line(fc)
                    == rows@[k]@ ==> keeper@.contains_key(fc.uuid@),
            forall|id: Seq<char>|
                #![trigger keeper@.contains_key(id)]
                keeper@.contains_key(id) ==> ((old(keeper)@.contains_key(id) && keeper@[id]
                    == old(keeper)@[id]) || (exists|k: int|
                    0 <= k < i && keeper@[id].wf() && exportable(keeper@[id])
                        && #[trigger] encode_line(keeper@[id]) == rows@[k]@ && keeper@[id].uuid@
                        == id)),
        decreases n - i,
    {
        let row = &rows[i];
        let ghost pre = keeper@;
        let ghost prev_failures = failures@;
        match import_line(keeper, row) {
            Ok(_) => {
                proof {
                    let fcw = choose|fc: FileCrypt|
                        #[trigger] encode_line(fc) == row@ && fc.wf() && exportable(fc)
                            && keeper@ == pre.insert(fc.uuid@, fc);
                    assert(keeper@ == pre.insert(fcw.uuid@, fcw));
                    assert forall|k: int, fc: FileCrypt|
                        #![trigger encode_line(fc), rows@[k]]
                        0 <= k < i + 1 && fc.wf() && exportable(fc) && encode_line(fc)
                            == rows@[k]@ implies keeper@.contains_key(fc.uuid@) by {
                        if k < i {
                            assert(pre.contains_key(fc.uuid@));
                        } else {
                            lemma_same_row_same_uuid(fc, fcw);
                        }
                    }
                    assert forall|id: Seq<char>|
                        #![trigger keeper@.contains_key(id)]
                        keeper@.contains_key(id) implies ((old(keeper)@.contains_key(id)
                        && keeper@[id] == old(keeper)@[id]) || (exists|k: int|
                        0 <= k < i + 1 && keeper@[id].wf() && exportable(keeper@[id])
                            && #[trigger] encode_line(keeper@[id]) == rows@[k]@
                            && keeper@[id].uuid@ == id)) by {
                        if id == fcw.uuid@ {
                            assert(keeper@[id] == fcw);
                            assert(encode_line(keeper@[id]) == rows@[i as int]@);
                        } else {
                            assert(pre.contains_key(id) && keeper@[id] == pre[id]);
                        }
                    }
                }
            },
            Err(e) => {
                failures.push((i, e));
                proof {
                    assert forall|k: int|
                        #![trigger rows@[k]]
                        0 <= k < i + 1 implies (row_well_formed(rows@[k]@) <==> !(exists|j: int|
                        0 <= j < failures@.len() && (#[trigger] failures@[j]).0 == k)) by {
                        if k < i {
                            if row_well_formed(rows@[k]@) {
                                if exists|j: int|
                                    0 <= j < failures@.len() && (#[trigger] failures@[j]).0
                                        == k {
                                    let j = choose|j: int|
                                        0 <= j < failures@.len() && (#[trigger] failures@[j]).0
                                            == k;
                                    assert(j < prev_failures.len());
                                    assert(prev_failures[j] == failures@[j]);
                                }
                            } else {
                                let j = choose|j: int|
                                    0 <= j < prev_failures.len() && (
                                    #[trigger] prev_failures[j]).0 == k;
                                assert(failures@[j] == prev_failures[j]);
                            }
                        } else {
                            assert(failures@[failures@.len() - 1].0 == i);
                        }
                    }
                }
            },
        }
        i = i + 1;
    }
    failures
}

/// The bytes of one row, at the head of the data: its length up to the
/// first row separator.
pub open spec fn row_break(s: Seq<u8>) -> nat
    decreases s.len(),
{
    if s.len() == 0 {
        0
    } else if s[0] == 10 {
        0
    } else {
        (1 + row_break(s.drop_first())) as nat
    }
}

/// The rows of a tabular file: the maximal separator-free non-empty
/// chunks, in order.
pub open spec fn spec_rows(s: Seq<u8>) -> Seq<Seq<u8>>
    decreases s.len(),
{
    if s.len() == 0 {
        Seq::empty()
    } else if s[0] == 10 {
        spec_rows(s.drop_first())
    } else {
        seq![s.take(vstd::math::min(row_break(s) as int, s.len() as int))] + spec_rows(
            s.skip(vstd::math::min(row_break(s) as int, s.len() as int)),
        )
    }
}

/// The head row runs to the first separator, or to the end.
proof fn lemma_row_break_is(s: Seq<u8>, m: int)
    requires
        0 <= m <= s.len(),
        forall|k: int| 0 <= k < m ==> s[k] != 10,
        m == s.len() || s[m] == 10,
    ensures
        row_break(s) == m,
    decreases s.len(),
{
    if s.len() > 0 && s[0] != 10 {
        assert forall|k: int| 0 <= k < m - 1 implies s.drop_first()[k] != 10 by {
            assert(s.drop_first()[k] == s[k + 1]);
        }
        if m - 1 < s.drop_first().len() {
            assert(s.drop_first()[m - 1] == s[m]);
        }
        lemma_row_break_is(s.drop_first(), m - 1);
    }
}

/// Split a tabular file into its rows.
fn split_rows(data: &Vec<u8>) -> (r: Vec<Vec<u8>>)
    ensures
        r@.len() == spec_rows(data@).len(),
        forall|k: int| 0 <= k < r@.len() ==> (#[trigger] r@[k])@ == spec_rows(data@)[k],
{
    let n = data.len();
    let mut out: Vec<Vec<u8>> = Vec::new();
    let mut start: usize = 0;
    let mut i: usize = 0;
    proof {
        assert(data@.skip(0) =~= data@);
    }
    while i < n
        invariant
            n == data@.len(),
            start <= i <= n,
            forall|k: int| start <= k < i ==> data@[k] != 10,
            spec_rows(data@) =~= out@.map_values(|v: Vec<u8>| v@) + spec_rows(
                data@.skip(start as int),
            ),
            start < i ==> data@[start as int] != 10,
        decreases n - i,
    {
        if data[i] == 10 {
            let ghost prev = out@;
            if i > start {
                let row = field_vec(data, start, i);
                out.push(row);
                proof {
                    let t = data@.skip(start as int);
                    assert forall|k: int| 0 <= k < i - start implies t[k] != 10 by {
                        assert(t[k] == data@[start + k]);
                    }
                    assert(t[(i - start) as int] == data@[i as int]);
                    lemma_row_break_is(t, i - start);
                    assert(vstd::math::min(row_break(t) as int, t.len() as int) == i - start);
                    assert(t.take(i - start) =~= data@.subrange(start as int, i as int));
                    assert(t.skip(i - start) =~= data@.skip(i as int));
                    assert(t[0] != 10);
                    assert(spec_rows(t) =~= seq![t.take(i - start)] + spec_rows(
                        t.skip(i - start),
                    ));
                    assert(out@.map_values(|v: Vec<u8>| v@) =~= prev.map_values(
                        |v: Vec<u8>| v@,
                    ).push(data@.subrange(start as int, i as int)));
                    assert(data@.skip(i as int)[0] == 10);
                    assert(data@.skip(i as int).drop_first() =~= data@.skip(i + 1));
                    assert(spec_rows(data@.skip(i as int)) =~= spec_rows(data@.skip(i + 1)));
                    assert(spec_rows(data@) =~= out@.map_values(|v: Vec<u8>| v@) + spec_rows(
                        data@.skip(i + 1),
                    ));
                }
            } else {
                proof {
                    assert(data@.skip(start as int)[0] == 10);
                    assert(spec_rows(data@.skip(start as int)) =~= spec_rows(
                        data@.skip(start as int).drop_first(),
                    ));
                }
            }
            proof {
                assert(data@.skip(i as int).drop_first() =~= data@.skip(i + 1));
            }
            start = i + 1;
        }
        i = i + 1;
    }
    if start < n {
        let ghost prev = out@;
        let row = field_vec(data, start, n);
        out.push(row);
        proof {
            let t = data@.skip(start as int);
            assert forall|k: int| 0 <= k < n - start implies t[k] != 10 by {
                assert(t[k] == data@[start + k]);
            }
            lemma_row_break_is(t, n - start);
            assert(vstd::math::min(row_break(t) as int, t.len() as int) == n - start);
            assert(t.take(n - start) =~= data@.subrange(start as int, n as int));
            assert(t.skip(n - start) =~= Seq::<u8>::empty());
            assert(t[0] != 10);
            assert(spec_rows(Seq::<u8>::empty()) =~= Seq::<Seq<u8>>::empty());
            assert(spec_rows(t) =~= seq![t.take(n - start)]);
            assert(out@.map_values(|v: Vec<u8>| v@) =~= prev.map_values(|v: Vec<u8>| v@).push(
                data@.subrange(start as int, n as int),
            ));
        }
    } else {
        proof {
            assert(data@.skip(start as int).len() == n - start);
            assert(spec_rows(data@.skip(start as int)) =~= Seq::<Seq<u8>>::empty());
        }
    }
    proof {
        assert(spec_rows(data@) =~= out@.map_values(|v: Vec<u8>| v@));
        assert forall|k: int|
            0 <= k < out@.len() implies (#[trigger] out@[k])@ == spec_rows(data@)[k] by {
            assert(out@.map_values(|v: Vec<u8>| v@)[k] == out@[k]@);
        }
    }
    out
}

/// Import a whole tabular file: split it into rows and upsert each row's
/// record, reporting exactly the malformed rows by index.
pub fn import_records(keeper: &mut Keeper, data: &Vec<u8>) -> (failures: Vec<(usize, Error)>)
    requires
        old(keeper).wf(),
    ensures
        final(keeper).wf(),
        forall|j: int|
            0 <= j < failures@.len() ==> (#[trigger] failures@[j]).1 == Error::Format && (
            failures@[j]).0 < spec_rows(data@).len(),
        forall|k: int|
            #![trigger spec_rows(data@)[k]]
            0 <= k < spec_rows(data@).len() ==> (row_well_formed(spec_rows(data@)[k])
                <==> !(exists|j: int|
                0 <= j < failures@.len() && (#[trigger] failures@[j]).0 == k)),
        forall|id: Seq<char>|
            #![trigger old(keeper)@.contains_key(id)]
            old(keeper)@.contains_key(id) ==> final(keeper)@.contains_key(id),
        forall|k: int, fc: FileCrypt|
            #![trigger encode_line(fc), spec_rows(data@)[k]]
            0 <= k < spec_rows(data@).len() && fc.wf() && exportable(fc) && encode_line(fc)
                == spec_rows(data@)[k] ==> final(keeper)@.contains_key(fc.uuid@),
        forall|id: Seq<char>|
            #![trigger final(keeper)@.contains_key(id)]
            final(keeper)@.contains_key(id) ==> ((old(keeper)@.contains_key(id) && final(keeper)@[id] == old(keeper)@[id]) || (exists|k: int|
                0 <= k < spec_rows(data@).len() && final(keeper)@[id].wf() && exportable(
                    final(keeper)@[id],
                ) && #[trigger] encode_line(final(keeper)@[id]) == spec_rows(data@)[k] && final(keeper)@[id].uuid@ == id)),
{
    let rows = split_rows(data);
    let failures = import_rows(keeper, &rows);
    proof {
        assert forall|k: int|
            #![trigger spec_rows(data@)[k]]
            0 <= k < rows@.len() implies rows@[k]@ == spec_rows(data@)[k] by {}
        assert forall|k: int|
            #![trigger rows@[k]]
            0 <= k < rows@.len() implies rows@[k]@ == spec_rows(data@)[k] by {}
    }
    failures
}

} // verus!
