//! Text helpers: exact string comparison, byte-level substring search,
//! Unicode case folding through the standard library, and decimal
//! rendering of numbers.

use vstd::prelude::*;
use vstd::utf8::{
    decode_utf8, encode_utf8_decode_utf8, is_leading_byte_width_1, pop_first_scalar, valid_utf8,
};

verus! {

/// Compares two byte runs for equality.
pub fn bytes_eq(a: &[u8], b: &[u8]) -> (r: bool)
    ensures
        r == (a@ == b@),
{
    if a.len() != b.len() {
        return false;
    }
    let n = a.len();
    let mut i: usize = 0;
    while i < n
        invariant
            i <= n,
            n == a@.len(),
            n == b@.len(),
            forall|k: int| 0 <= k < i ==> a@[k] == b@[k],
        decreases n - i,
    {
        if a[i] != b[i] {
            return false;
        }
        i = i + 1;
    }
    proof {
        assert(a@ =~= b@);
    }
    true
}

/// The needle occurs as a contiguous run somewhere in the haystack.
pub open spec fn contains_bytes(hay: Seq<u8>, needle: Seq<u8>) -> bool {
    exists|i: int|
        0 <= i && i + needle.len() <= hay.len() && #[trigger] hay.subrange(i, i + needle.len())
            == needle
}

/// Decides whether `needle` starts at position `at` of `hay`.
fn starts_at(hay: &[u8], needle: &[u8], at: usize) -> (r: bool)
    requires
        at + needle@.len() <= hay@.len(),
    ensures
        r == (hay@.subrange(at as int, at + needle@.len()) == needle@),
{
    let m = needle.len();
    let hn = hay.len();
    let mut k: usize = 0;
    while k < m
        invariant
            k <= m,
            m == needle@.len(),
            at + m <= hn,
            hn == hay@.len(),
            forall|j: int| 0 <= j < k ==> hay@[at + j] == needle@[j],
        decreases m - k,
    {
        if hay[at + k] != needle[k] {
            proof {
                assert(hay@.subrange(at as int, at + needle@.len())[k as int] != needle@[k as int]);
            }
            return false;
        }
        k = k + 1;
    }
    proof {
        assert(hay@.subrange(at as int, at + needle@.len()) =~= needle@);
    }
    true
}

/// Decides whether `needle` occurs anywhere in `hay`.
pub fn bytes_contain(hay: &[u8], needle: &[u8]) -> (r: bool)
    ensures
        r == contains_bytes(hay@, needle@),
{
    let n = hay.len();
    let m = needle.len();
    if m > n {
        return false;
    }
    if m == 0 {
        proof {
            assert(hay@.subrange(0, 0 + needle@.len() as int) =~= needle@);
        }
        return true;
    }
    let mut i: usize = 0;
    while i <= n - m
        invariant
            1 <= m <= n,
            n == hay@.len(),
            m == needle@.len(),
            i <= n - m + 1,
            forall|j: int|
                0 <= j < i ==> #[trigger] hay@.subrange(j, j + needle@.len()) != needle@,
        decreases n + 1 - i,
    {
        if starts_at(hay, needle, i) {
            return true;
        }
        i = i + 1;
    }
    false
}

/// The lower-case form of a text, as the standard library's Unicode
/// case mapping produces it. The mapping depends on the characters
/// alone; what it is on given characters is not stated here.
pub uninterp spec fn lower_of(s: Seq<char>) -> Seq<char>;

/// Relies on str::to_lowercase: the Unicode lowercase mapping of the
/// text, a function of its characters alone.
#[verifier::external_body]
pub(crate) fn to_lowercase(s: &str) -> (r: String)
    ensures
        r@ == lower_of(s@),
{
    s.to_lowercase()
}

/// Relies on `String::from_utf8`: it succeeds exactly on valid UTF-8
/// input and keeps the bytes as the string's UTF-8 form.
#[verifier::external_body]
pub(crate) fn string_from_utf8(v: Vec<u8>) -> (r: Option<String>)
    ensures
        match r {
            Some(s) => valid_utf8(v@) && s@ == decode_utf8(v@),
            None => !valid_utf8(v@),
        },
{
    match String::from_utf8(v) {
        Ok(s) => Some(s),
        Err(_) => None,
    }
}

/// The decimal digits of a non-negative number, most significant
/// first.
pub open spec fn dec_digits(n: int) -> Seq<u8>
    decreases n,
{
    if n < 10 {
        seq![(48 + if n >= 0 {
            n
        } else {
            0
        }) as u8]
    } else {
        dec_digits(n / 10).push((48 + n % 10) as u8)
    }
}

/// The decimal text of a signed number: a minus sign, then the digits
/// of its magnitude.
pub open spec fn dec_text(n: int) -> Seq<u8> {
    if n < 0 {
        seq![45u8] + dec_digits(-n)
    } else {
        dec_digits(n)
    }
}

/// Appends the decimal digits of a non-negative number.
fn push_digits(out: &mut Vec<u8>, n: u32)
    ensures
        final(out)@ == old(out)@ + dec_digits(n as int),
    decreases n,
{
    if n < 10 {
        out.push(48 + n as u8);
        proof {
            assert(out@ =~= old(out)@ + dec_digits(n as int));
        }
    } else {
        push_digits(out, n / 10);
        out.push(48 + (n % 10) as u8);
        proof {
            assert(out@ =~= old(out)@ + dec_digits(n as int));
        }
    }
}

/// The decimal text of a signed number, as characters.
pub open spec fn dec_chars(n: int) -> Seq<char> {
    dec_text(n).map_values(|b: u8| b as char)
}

/// Every byte of a decimal digit run is printable ASCII.
proof fn lemma_dec_digits_ascii(n: int)
    ensures
        forall|i: int| 0 <= i < dec_digits(n).len() ==> 45 <= #[trigger] dec_digits(n)[i] < 128,
    decreases n,
{
    if n < 10 {
        assert(dec_digits(n) == seq![(48 + if n >= 0 {
            n
        } else {
            0
        }) as u8]);
        assert(45 <= dec_digits(n)[0] < 128);
    } else {
        lemma_dec_digits_ascii(n / 10);
        let prefix = dec_digits(n / 10);
        assert(dec_digits(n) == prefix.push((48 + n % 10) as u8));
        assert forall|i: int| 0 <= i < dec_digits(n).len() implies 45 <= #[trigger] dec_digits(
            n,
        )[i] < 128 by {
            if i < prefix.len() {
                assert(dec_digits(n)[i] == prefix[i]);
            } else {
                assert(dec_digits(n)[i] == (48 + n % 10) as u8);
            }
        }
    }
}

/// Every byte of a decimal text is printable ASCII.
proof fn lemma_dec_text_ascii(n: int)
    ensures
        forall|i: int| 0 <= i < dec_text(n).len() ==> 45 <= #[trigger] dec_text(n)[i] < 128,
{
    if n < 0 {
        lemma_dec_digits_ascii(-n);
    } else {
        lemma_dec_digits_ascii(n);
    }
}

/// A run of ASCII bytes is valid UTF-8 and decodes byte for byte.
proof fn lemma_ascii_decode(bytes: Seq<u8>)
    requires
        forall|i: int| 0 <= i < bytes.len() ==> #[trigger] bytes[i] < 128,
    ensures
        valid_utf8(bytes),
        decode_utf8(bytes) == bytes.map_values(|b: u8| b as char),
    decreases bytes.len(),
{
    if bytes.len() == 0 {
        assert(decode_utf8(bytes) =~= bytes.map_values(|b: u8| b as char));
    } else {
        let b0 = bytes[0];
        assert(is_leading_byte_width_1(b0));
        assert(vstd::utf8::valid_first_scalar(bytes));
        assert(vstd::utf8::length_of_first_scalar(bytes) == 1);
        assert(pop_first_scalar(bytes) =~= bytes.drop_first());
        lemma_ascii_decode(bytes.drop_first());
        assert(valid_utf8(pop_first_scalar(bytes)));
        assert(valid_utf8(bytes));
        assert(b0 & 0x7F == b0) by (bit_vector)
            requires
                b0 < 128,
        ;
        assert(vstd::utf8::decode_first_scalar(bytes) == b0 as u32);
        assert((b0 as u32) as char == b0 as char);
        assert(decode_utf8(bytes) =~= bytes.map_values(|b: u8| b as char));
    }
}

/// Renders a signed number as decimal text.
pub fn decimal_string(n: i32) -> (r: String)
    ensures
        r@ == dec_chars(n as int),
{
    let bytes = render_decimal(n);
    proof {
        lemma_dec_text_ascii(n as int);
        lemma_ascii_decode(bytes@);
    }
    match string_from_utf8(bytes) {
        Some(s) => s,
        None => {
            proof {
                assert(false);
            }
            String::new()
        },
    }
}

/// Renders a signed number as decimal text bytes.
pub fn render_decimal(n: i32) -> (r: Vec<u8>)
    ensures
        r@ == dec_text(n as int),
{
    let mut out: Vec<u8> = Vec::new();
    if n < 0 {
        out.push(45);
        let m = (-(n as i64)) as u32;
        push_digits(&mut out, m);
        proof {
            assert(out@ =~= dec_text(n as int));
        }
    } else {
        push_digits(&mut out, n as u32);
    }
    out
}

/// Compares two texts for character-for-character equality, by way of
/// their UTF-8 bytes: the encoding is injective, so the bytes agree
/// exactly when the characters do.
pub fn str_eq(a: &str, b: &str) -> (r: bool)
    ensures
        r == (a@ == b@),
{
    let r = bytes_eq(a.as_bytes(), b.as_bytes());
    proof {
        encode_utf8_decode_utf8(a@);
        encode_utf8_decode_utf8(b@);
    }
    r
}

} // verus!
