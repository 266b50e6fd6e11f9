//! Wire primitives of the binary cache: little-endian integers, signed
//! values as sign byte plus magnitude, booleans, and length-prefixed
//! UTF-8 strings, each with an exact decoding inverse.

use vstd::prelude::*;
use vstd::utf8::{decode_utf8, encode_utf8, encode_utf8_decode_utf8, encode_utf8_valid_utf8, valid_utf8};
use crate::error::DataError;
use crate::text::string_from_utf8;

verus! {

/// The eight little-endian bytes of a machine word.
#[verifier::opaque]
pub open spec fn enc_u64(v: u64) -> Seq<u8> {
    seq![
        (v & 0xFF) as u8,
        ((v >> 8) & 0xFF) as u8,
        ((v >> 16) & 0xFF) as u8,
        ((v >> 24) & 0xFF) as u8,
        ((v >> 32) & 0xFF) as u8,
        ((v >> 40) & 0xFF) as u8,
        ((v >> 48) & 0xFF) as u8,
        ((v >> 56) & 0xFF) as u8,
    ]
}

/// The machine word eight little-endian bytes hold.
#[verifier::opaque]
pub open spec fn u64_of_le(
    b0: u8,
    b1: u8,
    b2: u8,
    b3: u8,
    b4: u8,
    b5: u8,
    b6: u8,
    b7: u8,
) -> u64 {
    (b0 as u64) | (b1 as u64) << 8 | (b2 as u64) << 16 | (b3 as u64) << 24 | (b4 as u64) << 32 | (
    b5 as u64) << 40 | (b6 as u64) << 48 | (b7 as u64) << 56
}

/// Recombining the eight little-endian bytes of a word gives the word
/// back.
pub proof fn lemma_u64_le_round_trip(v: u64)
    ensures
        u64_of_le(
            (v & 0xFF) as u8,
            ((v >> 8) & 0xFF) as u8,
            ((v >> 16) & 0xFF) as u8,
            ((v >> 24) & 0xFF) as u8,
            ((v >> 32) & 0xFF) as u8,
            ((v >> 40) & 0xFF) as u8,
            ((v >> 48) & 0xFF) as u8,
            ((v >> 56) & 0xFF) as u8,
        ) == v,
{
    reveal(u64_of_le);
    assert(((v & 0xFF) as u8 as u64) | (((v >> 8) & 0xFF) as u8 as u64) << 8 | (((v >> 16)
        & 0xFF) as u8 as u64) << 16 | (((v >> 24) & 0xFF) as u8 as u64) << 24 | (((v >> 32)
        & 0xFF) as u8 as u64) << 32 | (((v >> 40) & 0xFF) as u8 as u64) << 40 | (((v >> 48)
        & 0xFF) as u8 as u64) << 48 | (((v >> 56) & 0xFF) as u8 as u64) << 56 == v) by (bit_vector);
}

/// A word encoding is eight bytes long.
pub broadcast proof fn lemma_enc_u64_len(v: u64)
    ensures
        (#[trigger] enc_u64(v)).len() == 8,
{
    reveal(enc_u64);
}

/// Decoded value and next cursor position, or `None` when the bytes do
/// not fit the layout.
#[verifier::opaque]
pub open spec fn dec_u64(b: Seq<u8>, i: int) -> Option<(u64, int)> {
    if 0 <= i && i + 8 <= b.len() {
        Some(
            (
                u64_of_le(b[i], b[i + 1], b[i + 2], b[i + 3], b[i + 4], b[i + 5], b[i + 6], b[i + 7]),
                i + 8,
            ),
        )
    } else {
        None
    }
}

/// A word decodes from wherever its encoding lies.
pub proof fn lemma_dec_enc_u64(v: u64, pre: Seq<u8>, suf: Seq<u8>)
    ensures
        dec_u64(pre + enc_u64(v) + suf, pre.len() as int) == Some(
            (v, pre.len() + 8 as int),
        ),
{
    reveal(enc_u64);
    reveal(dec_u64);
    let b = pre + enc_u64(v) + suf;
    let i = pre.len() as int;
    assert forall|k: int| 0 <= k < 8 implies b[i + k] == enc_u64(v)[k] by {
    }
    lemma_u64_le_round_trip(v);
}

/// A signed value on the wire: a sign byte, then the magnitude.
pub open spec fn enc_i64(v: i64) -> Seq<u8> {
    if v >= 0 {
        seq![0u8] + enc_u64(v as u64)
    } else {
        seq![1u8] + enc_u64((-(v as int)) as u64)
    }
}

/// Decoded signed value: sign byte 0 carries magnitudes up to
/// `i64::MAX`, sign byte 1 strictly positive magnitudes up to `2^63`;
/// anything else does not fit the layout.
pub open spec fn dec_i64(b: Seq<u8>, i: int) -> Option<(i64, int)> {
    if 0 <= i && i + 1 <= b.len() {
        match dec_u64(b, i + 1) {
            Some((m, j)) => {
                if b[i] == 0 && m <= i64::MAX as u64 {
                    Some((m as i64, j))
                } else if b[i] == 1 && 1 <= m <= 0x8000_0000_0000_0000u64 {
                    Some(((-(m as int)) as i64, j))
                } else {
                    None
                }
            },
            None => None,
        }
    } else {
        None
    }
}

/// A signed value decodes from wherever its encoding lies.
pub proof fn lemma_dec_enc_i64(v: i64, pre: Seq<u8>, suf: Seq<u8>)
    ensures
        dec_i64(pre + enc_i64(v) + suf, pre.len() as int) == Some(
            (v, pre.len() + 9 as int),
        ),
{
    let b = pre + enc_i64(v) + suf;
    let i = pre.len() as int;
    if v >= 0 {
        assert((pre + seq![0u8]) + enc_u64(v as u64) + suf =~= b);
        lemma_dec_enc_u64(v as u64, pre + seq![0u8], suf);
        assert(b[i] == 0);
    } else {
        let m = (-(v as int)) as u64;
        assert((pre + seq![1u8]) + enc_u64(m) + suf =~= b);
        lemma_dec_enc_u64(m, pre + seq![1u8], suf);
        assert(b[i] == 1);
    }
}

/// A boolean on the wire: one byte, zero or one.
pub open spec fn enc_bool(v: bool) -> Seq<u8> {
    if v {
        seq![1u8]
    } else {
        seq![0u8]
    }
}

/// Decoded boolean; any other byte does not fit the layout.
pub open spec fn dec_bool(b: Seq<u8>, i: int) -> Option<(bool, int)> {
    if 0 <= i && i + 1 <= b.len() {
        if b[i] == 0 {
            Some((false, i + 1))
        } else if b[i] == 1 {
            Some((true, i + 1))
        } else {
            None
        }
    } else {
        None
    }
}

/// A boolean decodes from wherever its encoding lies.
pub proof fn lemma_dec_enc_bool(v: bool, pre: Seq<u8>, suf: Seq<u8>)
    ensures
        dec_bool(pre + enc_bool(v) + suf, pre.len() as int) == Some(
            (v, pre.len() + 1 as int),
        ),
{
}

/// A text on the wire: the byte length of its UTF-8 form, then the
/// bytes themselves.
pub open spec fn enc_str(s: Seq<char>) -> Seq<u8> {
    enc_u64(encode_utf8(s).len() as u64) + encode_utf8(s)
}

/// The UTF-8 form of a text fits under the length prefix.
pub open spec fn str_encodable(s: Seq<char>) -> bool {
    encode_utf8(s).len() < 0x1_0000_0000_0000_0000
}

/// Decoded text: the prefixed run of bytes must lie within the buffer
/// and be valid UTF-8.
pub open spec fn dec_str(b: Seq<u8>, i: int) -> Option<(Seq<char>, int)> {
    match dec_u64(b, i) {
        Some((n, j)) => {
            if j + n <= b.len() && valid_utf8(b.subrange(j, j + n)) {
                Some((decode_utf8(b.subrange(j, j + n)), j + n))
            } else {
                None
            }
        },
        None => None,
    }
}

/// A text decodes from wherever its encoding lies.
pub proof fn lemma_dec_enc_str(s: Seq<char>, pre: Seq<u8>, suf: Seq<u8>)
    requires
        str_encodable(s),
    ensures
        dec_str(pre + enc_str(s) + suf, pre.len() as int) == Some(
            (s, pre.len() + enc_str(s).len() as int),
        ),
{
    broadcast use lemma_enc_u64_len;

    let bytes = encode_utf8(s);
    let n = bytes.len() as u64;
    let b = pre + enc_str(s) + suf;
    let i = pre.len() as int;
    assert(pre + enc_u64(n) + (bytes + suf) =~= b);
    lemma_dec_enc_u64(n, pre, bytes + suf);
    let j = i + 8;
    assert(b.subrange(j, j + n as int) =~= bytes);
    encode_utf8_valid_utf8(s);
    encode_utf8_decode_utf8(s);
}

/// An optional text on the wire: a presence byte, then the text.
pub open spec fn enc_opt_str(s: Option<Seq<char>>) -> Seq<u8> {
    match s {
        Some(t) => seq![1u8] + enc_str(t),
        None => seq![0u8],
    }
}

/// The optional text fits under its length prefix.
pub open spec fn opt_str_encodable(s: Option<Seq<char>>) -> bool {
    match s {
        Some(t) => str_encodable(t),
        None => true,
    }
}

/// Decoded optional text.
pub open spec fn dec_opt_str(b: Seq<u8>, i: int) -> Option<(Option<Seq<char>>, int)> {
    if 0 <= i && i + 1 <= b.len() {
        if b[i] == 0 {
            Some((None, i + 1))
        } else if b[i] == 1 {
            match dec_str(b, i + 1) {
                Some((s, j)) => Some((Some(s), j)),
                None => None,
            }
        } else {
            None
        }
    } else {
        None
    }
}

/// An optional text decodes from wherever its encoding lies.
pub proof fn lemma_dec_enc_opt_str(s: Option<Seq<char>>, pre: Seq<u8>, suf: Seq<u8>)
    requires
        opt_str_encodable(s),
    ensures
        dec_opt_str(pre + enc_opt_str(s) + suf, pre.len() as int) == Some(
            (s, pre.len() + enc_opt_str(s).len() as int),
        ),
{
    broadcast use lemma_enc_u64_len;

    let b = pre + enc_opt_str(s) + suf;
    match s {
        Some(t) => {
            assert((pre + seq![1u8]) + enc_str(t) + suf =~= b);
            lemma_dec_enc_str(t, pre + seq![1u8], suf);
        },
        None => {
        },
    }
}

/// Appends the little-endian bytes of a word.
pub fn push_u64(out: &mut Vec<u8>, v: u64)
    ensures
        final(out)@ == old(out)@ + enc_u64(v),
{
    out.push((v & 0xFF) as u8);
    out.push(((v >> 8) & 0xFF) as u8);
    out.push(((v >> 16) & 0xFF) as u8);
    out.push(((v >> 24) & 0xFF) as u8);
    out.push(((v >> 32) & 0xFF) as u8);
    out.push(((v >> 40) & 0xFF) as u8);
    out.push(((v >> 48) & 0xFF) as u8);
    out.push(((v >> 56) & 0xFF) as u8);
    proof {
        reveal(enc_u64);
        assert(out@ =~= old(out)@ + enc_u64(v));
    }
}

/// Appends a signed value: a sign byte, then the magnitude.
pub fn push_i64(out: &mut Vec<u8>, v: i64)
    ensures
        final(out)@ == old(out)@ + enc_i64(v),
{
    if v >= 0 {
        out.push(0);
        push_u64(out, v as u64);
    } else {
        out.push(1);
        let m = (-(v as i128)) as u64;
        push_u64(out, m);
    }
    proof {
        assert(out@ =~= old(out)@ + enc_i64(v));
    }
}

/// Appends a boolean byte.
pub fn push_bool(out: &mut Vec<u8>, v: bool)
    ensures
        final(out)@ == old(out)@ + enc_bool(v),
{
    out.push(if v {
        1
    } else {
        0
    });
    proof {
        assert(out@ =~= old(out)@ + enc_bool(v));
    }
}

/// Appends a text: its UTF-8 byte length, then the bytes. Any text
/// that exists in memory fits its length prefix.
pub fn push_str(out: &mut Vec<u8>, s: &str)
    ensures
        final(out)@ == old(out)@ + enc_str(s@),
        str_encodable(s@),
{
    let bytes = s.as_bytes();
    push_u64(out, bytes.len() as u64);
    let ghost mid = out@;
    let n = bytes.len();
    let mut k: usize = 0;
    while k < n
        invariant
            k <= n,
            n == bytes@.len(),
            out@ =~= mid + bytes@.take(k as int),
        decreases n - k,
    {
        out.push(bytes[k]);
        proof {
            assert(bytes@.take(k + 1 as int) =~= bytes@.take(k as int).push(bytes@[k as int]));
        }
        k = k + 1;
    }
    proof {
        assert(bytes@.take(n as int) =~= bytes@);
        assert(out@ =~= old(out)@ + enc_str(s@));
    }
}

/// Appends an optional text: a presence byte, then the text.
pub fn push_opt_str(out: &mut Vec<u8>, s: &Option<String>)
    ensures
        final(out)@ == old(out)@ + enc_opt_str(crate::parcels::opt_view(*s)),
        opt_str_encodable(crate::parcels::opt_view(*s)),
{
    match s {
        Some(t) => {
            out.push(1);
            push_str(out, t.as_str());
        },
        None => {
            out.push(0);
        },
    }
    proof {
        assert(out@ =~= old(out)@ + enc_opt_str(crate::parcels::opt_view(*s)));
    }
}

/// Reads a word from the cursor position.
pub fn read_u64(b: &Vec<u8>, i: usize) -> (r: Result<(u64, usize), DataError>)
    ensures
        match r {
            Ok(p) => dec_u64(b@, i as int) == Some((p.0, p.1 as int)) && p.1 == i + 8 && p.1
                <= b@.len(),
            Err(e) => dec_u64(b@, i as int) is None && e == DataError::Decode,
        },
{
    if b.len() < 8 || i > b.len() - 8 {
        proof {
            reveal(dec_u64);
        }
        return Err(DataError::Decode);
    }
    let v = (b[i] as u64) | (b[i + 1] as u64) << 8 | (b[i + 2] as u64) << 16 | (b[i + 3] as u64)
        << 24 | (b[i + 4] as u64) << 32 | (b[i + 5] as u64) << 40 | (b[i + 6] as u64) << 48 | (b[i
        + 7] as u64) << 56;
    proof {
        reveal(dec_u64);
        reveal(u64_of_le);
    }
    Ok((v, i + 8))
}

/// Reads a signed value from the cursor position.
pub fn read_i64(b: &Vec<u8>, i: usize) -> (r: Result<(i64, usize), DataError>)
    ensures
        match r {
            Ok(p) => dec_i64(b@, i as int) == Some((p.0, p.1 as int)),
            Err(e) => dec_i64(b@, i as int) is None && e == DataError::Decode,
        },
{
    if i >= b.len() {
        return Err(DataError::Decode);
    }
    let tag = b[i];
    let (m, j) = read_u64(b, i + 1)?;
    if tag == 0 && m <= i64::MAX as u64 {
        Ok((m as i64, j))
    } else if tag == 1 && 1 <= m && m <= 0x8000_0000_0000_0000u64 {
        let v = (-(m as i128)) as i64;
        Ok((v, j))
    } else {
        Err(DataError::Decode)
    }
}

/// Reads a boolean byte from the cursor position.
pub fn read_bool(b: &Vec<u8>, i: usize) -> (r: Result<(bool, usize), DataError>)
    ensures
        match r {
            Ok(p) => dec_bool(b@, i as int) == Some((p.0, p.1 as int)),
            Err(e) => dec_bool(b@, i as int) is None && e == DataError::Decode,
        },
{
    if i >= b.len() {
        return Err(DataError::Decode);
    }
    if b[i] == 0 {
        Ok((false, i + 1))
    } else if b[i] == 1 {
        Ok((true, i + 1))
    } else {
        Err(DataError::Decode)
    }
}

/// Reads a length-prefixed text from the cursor position.
pub fn read_str(b: &Vec<u8>, i: usize) -> (r: Result<(String, usize), DataError>)
    ensures
        match r {
            Ok(p) => dec_str(b@, i as int) matches Some(q) && q.0 == p.0@ && q.1 == p.1 as int,
            Err(e) => dec_str(b@, i as int) is None && e == DataError::Decode,
        },
{
    let (n, j) = read_u64(b, i)?;
    if n > (b.len() - j) as u64 {
        return Err(DataError::Decode);
    }
    let len = n as usize;
    let mut bytes: Vec<u8> = Vec::new();
    let mut k: usize = 0;
    while k < len
        invariant
            k <= len,
            j + len <= b@.len(),
            j + len <= usize::MAX,
            bytes@ =~= b@.subrange(j as int, j + k as int),
        decreases len - k,
    {
        bytes.push(b[j + k]);
        proof {
            assert(b@.subrange(j as int, j + k + 1 as int) =~= b@.subrange(
                j as int,
                j + k as int,
            ).push(b@[j + k]));
        }
        k = k + 1;
    }
    match string_from_utf8(bytes) {
        Some(s) => Ok((s, j + len)),
        None => Err(DataError::Decode),
    }
}

/// Reads an optional text from the cursor position.
pub fn read_opt_str(b: &Vec<u8>, i: usize) -> (r: Result<(Option<String>, usize), DataError>)
    ensures
        match r {
            Ok(p) => dec_opt_str(b@, i as int) matches Some(q) && q.0 == crate::parcels::opt_view(
                p.0,
            ) && q.1 == p.1 as int,
            Err(e) => dec_opt_str(b@, i as int) is None && e == DataError::Decode,
        },
{
    if i >= b.len() {
        return Err(DataError::Decode);
    }
    if b[i] == 0 {
        Ok((None, i + 1))
    } else if b[i] == 1 {
        let (s, j) = read_str(b, i + 1)?;
        Ok((Some(s), j))
    } else {
        Err(DataError::Decode)
    }
}

} // verus!
