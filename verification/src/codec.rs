//! The binary cache: an exact byte layout for converted collections,
//! with encoders, decoders, and the round-trip laws that make the
//! cache a bit-exact reconstruction.
//!
//! Layout: a kind byte and a version byte, then the record count, then
//! the records. Integers travel as sign byte plus little-endian
//! magnitude, texts as length-prefixed UTF-8, sequences as count plus
//! items. A buffer that does not fit the layout decodes to an error,
//! never to a wrong value.

use vstd::prelude::*;
use crate::addresses::{Address, AddressPoint, AddressPointV, AddressPoints, AddressV, Addresses};
use crate::error::DataError;
use crate::geometry::{ClosedContour, MultiPolygon, Point, Polygon, PolygonV, Rect};
use crate::parcels::{opt_view, Owner, OwnerV, Parcel, ParcelV, Parcels};
use crate::wire::{
    dec_bool, dec_i64, dec_opt_str, dec_str, dec_u64, enc_bool, enc_i64, enc_opt_str, enc_str,
    enc_u64, lemma_dec_enc_bool, lemma_dec_enc_i64, lemma_dec_enc_opt_str, lemma_dec_enc_str,
    lemma_dec_enc_u64, opt_str_encodable, push_bool, push_i64, push_opt_str, push_str, push_u64,
    read_bool, read_i64, read_opt_str, read_str, read_u64, str_encodable,
};

verus! {

broadcast use crate::wire::lemma_enc_u64_len;

/// The count limit of every length prefix on the wire.
pub open spec fn fits_u64(n: nat) -> bool {
    n < 0x1_0000_0000_0000_0000
}

/// Items of a run, one encoding after the other.
pub open spec fn enc_list<T>(s: Seq<T>, f: spec_fn(T) -> Seq<u8>) -> Seq<u8>
    decreases s.len(),
{
    if s.len() == 0 {
        Seq::empty()
    } else {
        f(s[0]) + enc_list(s.drop_first(), f)
    }
}

/// Decodes `n` items one after the other.
pub open spec fn dec_list<T>(
    b: Seq<u8>,
    i: int,
    n: nat,
    g: spec_fn(Seq<u8>, int) -> Option<(T, int)>,
) -> Option<(Seq<T>, int)>
    decreases n,
{
    if n == 0 {
        Some((Seq::empty(), i))
    } else {
        match g(b, i) {
            Some(p) => match dec_list(b, p.1, (n - 1) as nat, g) {
                Some(q) => Some((seq![p.0] + q.0, q.1)),
                None => None,
            },
            None => None,
        }
    }
}

/// Encoding one more item appends its bytes.
pub proof fn lemma_enc_list_snoc<T>(s: Seq<T>, k: int, f: spec_fn(T) -> Seq<u8>)
    requires
        0 <= k < s.len(),
    ensures
        enc_list(s.take(k + 1), f) == enc_list(s.take(k), f) + f(s[k]),
    decreases k,
{
    if k == 0 {
        assert(s.take(1)[0] == s[0]);
        assert(s.take(1).drop_first() =~= s.take(0));
        assert(enc_list(s.take(k + 1), f) =~= enc_list(s.take(k), f) + f(s[k]));
    } else {
        lemma_enc_list_snoc(s.drop_first(), k - 1, f);
        assert(s.take(k + 1).drop_first() =~= s.drop_first().take(k));
        assert(s.take(k).drop_first() =~= s.drop_first().take(k - 1));
        assert(s.take(k + 1)[0] == s[0]);
        assert(s.take(k)[0] == s[0]);
        assert(s.drop_first()[k - 1] == s[k]);
        assert(enc_list(s.take(k + 1), f) =~= enc_list(s.take(k), f) + f(s[k]));
    }
}

/// A run of items decodes from wherever its encoding lies, given that
/// each item does.
pub proof fn lemma_dec_enc_list<T>(
    s: Seq<T>,
    pre: Seq<u8>,
    suf: Seq<u8>,
    f: spec_fn(T) -> Seq<u8>,
    g: spec_fn(Seq<u8>, int) -> Option<(T, int)>,
)
    requires
        forall|v: T, p2: Seq<u8>, s2: Seq<u8>|
            s.contains(v) ==> #[trigger] g(p2 + f(v) + s2, p2.len() as int) == Some(
                (v, (p2.len() + f(v).len()) as int),
            ),
    ensures
        dec_list(pre + enc_list(s, f) + suf, pre.len() as int, s.len(), g) == Some(
            (s, (pre.len() + enc_list(s, f).len()) as int),
        ),
    decreases s.len(),
{
    let b = pre + enc_list(s, f) + suf;
    if s.len() == 0 {
        assert(enc_list(s, f) =~= Seq::<u8>::empty());
        assert(Seq::<T>::empty() =~= s);
    } else {
        let v0 = s[0];
        let rest = s.drop_first();
        assert(0 <= 0 < s.len() && s[0] == v0);
        assert(s.contains(v0));
        assert(b =~= pre + f(v0) + (enc_list(rest, f) + suf));
        assert(g(pre + f(v0) + (enc_list(rest, f) + suf), pre.len() as int) == Some(
            (v0, (pre.len() + f(v0).len()) as int),
        ));
        assert forall|v: T, p2: Seq<u8>, s2: Seq<u8>| rest.contains(v) implies #[trigger] g(
            p2 + f(v) + s2,
            p2.len() as int,
        ) == Some((v, (p2.len() + f(v).len()) as int)) by {
            let idx = choose|idx: int| 0 <= idx < rest.len() && rest[idx] == v;
            assert(s[idx + 1] == v);
            assert(s.contains(v));
        }
        lemma_dec_enc_list(rest, pre + f(v0), suf, f, g);
        assert((pre + f(v0)) + enc_list(rest, f) + suf =~= b);
        assert(seq![v0] + rest =~= s);
    }
}

/// A point on the wire: its two coordinates.
pub open spec fn enc_point(p: Point) -> Seq<u8> {
    enc_i64(p.x) + enc_i64(p.y)
}

/// Decoded point.
pub open spec fn dec_point(b: Seq<u8>, i: int) -> Option<(Point, int)> {
    match dec_i64(b, i) {
        Some((x, j)) => match dec_i64(b, j) {
            Some((y, k)) => Some((Point { x, y }, k)),
            None => None,
        },
        None => None,
    }
}

/// A point decodes from wherever its encoding lies.
pub proof fn lemma_dec_enc_point(p: Point, pre: Seq<u8>, suf: Seq<u8>)
    ensures
        dec_point(pre + enc_point(p) + suf, pre.len() as int) == Some(
            (p, (pre.len() + enc_point(p).len()) as int),
        ),
{
    let b = pre + enc_point(p) + suf;
    assert(b =~= pre + enc_i64(p.x) + (enc_i64(p.y) + suf));
    lemma_dec_enc_i64(p.x, pre, enc_i64(p.y) + suf);
    assert(b =~= (pre + enc_i64(p.x)) + enc_i64(p.y) + suf);
    lemma_dec_enc_i64(p.y, pre + enc_i64(p.x), suf);
}

/// A rectangle on the wire: its four sides.
pub open spec fn enc_rect(r: Rect) -> Seq<u8> {
    enc_i64(r.x_min) + enc_i64(r.y_min) + enc_i64(r.x_max) + enc_i64(r.y_max)
}

/// Decoded rectangle.
pub open spec fn dec_rect(b: Seq<u8>, i: int) -> Option<(Rect, int)> {
    match dec_i64(b, i) {
        Some((x_min, j1)) => match dec_i64(b, j1) {
            Some((y_min, j2)) => match dec_i64(b, j2) {
                Some((x_max, j3)) => match dec_i64(b, j3) {
                    Some((y_max, j4)) => Some((Rect { x_min, y_min, x_max, y_max }, j4)),
                    None => None,
                },
                None => None,
            },
            None => None,
        },
        None => None,
    }
}

/// A rectangle decodes from wherever its encoding lies.
#[verifier::rlimit(60)]
pub proof fn lemma_dec_enc_rect(r: Rect, pre: Seq<u8>, suf: Seq<u8>)
    ensures
        dec_rect(pre + enc_rect(r) + suf, pre.len() as int) == Some(
            (r, (pre.len() + enc_rect(r).len()) as int),
        ),
{
    let b = pre + enc_rect(r) + suf;
    let e1 = enc_i64(r.x_min);
    let e2 = enc_i64(r.y_min);
    let e3 = enc_i64(r.x_max);
    let e4 = enc_i64(r.y_max);
    assert(b =~= pre + e1 + (e2 + e3 + e4 + suf));
    lemma_dec_enc_i64(r.x_min, pre, e2 + e3 + e4 + suf);
    assert(b =~= (pre + e1) + e2 + (e3 + e4 + suf));
    lemma_dec_enc_i64(r.y_min, pre + e1, e3 + e4 + suf);
    assert(b =~= (pre + e1 + e2) + e3 + (e4 + suf));
    lemma_dec_enc_i64(r.x_max, pre + e1 + e2, e4 + suf);
    assert(b =~= (pre + e1 + e2 + e3) + e4 + suf);
    lemma_dec_enc_i64(r.y_max, pre + e1 + e2 + e3, suf);
}

/// A contour on the wire: its point count, then its points in order.
pub open spec fn enc_contour(ring: Seq<Point>) -> Seq<u8> {
    enc_u64(ring.len() as u64) + enc_list(ring, |p: Point| enc_point(p))
}

/// Decoded contour.
pub open spec fn dec_contour(b: Seq<u8>, i: int) -> Option<(Seq<Point>, int)> {
    match dec_u64(b, i) {
        Some((n, j)) => dec_list(b, j, n as nat, |b2: Seq<u8>, i2: int| dec_point(b2, i2)),
        None => None,
    }
}

/// A contour whose point count fits its length prefix decodes from
/// wherever its encoding lies.
pub proof fn lemma_dec_enc_contour(ring: Seq<Point>, pre: Seq<u8>, suf: Seq<u8>)
    requires
        fits_u64(ring.len()),
    ensures
        dec_contour(pre + enc_contour(ring) + suf, pre.len() as int) == Some(
            (ring, (pre.len() + enc_contour(ring).len()) as int),
        ),
{
    let f = |p: Point| enc_point(p);
    let g = |b2: Seq<u8>, i2: int| dec_point(b2, i2);
    let b = pre + enc_contour(ring) + suf;
    let n = ring.len() as u64;
    assert(b =~= pre + enc_u64(n) + (enc_list(ring, f) + suf));
    lemma_dec_enc_u64(n, pre, enc_list(ring, f) + suf);
    assert forall|v: Point, p2: Seq<u8>, s2: Seq<u8>| ring.contains(v) implies #[trigger] g(
        p2 + f(v) + s2,
        p2.len() as int,
    ) == Some((v, (p2.len() + f(v).len()) as int)) by {
        lemma_dec_enc_point(v, p2, s2);
    }
    lemma_dec_enc_list(ring, pre + enc_u64(n), suf, f, g);
    assert((pre + enc_u64(n)) + enc_list(ring, f) + suf =~= b);
}

/// A polygon on the wire: its outer contour, then its inner-contour
/// count and the inner contours in order.
pub open spec fn enc_polygon(p: PolygonV) -> Seq<u8> {
    enc_contour(p.outer) + enc_u64(p.inners.len() as u64) + enc_list(
        p.inners,
        |r: Seq<Point>| enc_contour(r),
    )
}

/// Decoded polygon.
pub open spec fn dec_polygon(b: Seq<u8>, i: int) -> Option<(PolygonV, int)> {
    match dec_contour(b, i) {
        Some((outer, j)) => match dec_u64(b, j) {
            Some((n, j2)) => match dec_list(
                b,
                j2,
                n as nat,
                |b2: Seq<u8>, i2: int| dec_contour(b2, i2),
            ) {
                Some((inners, k)) => Some((PolygonV { outer, inners }, k)),
                None => None,
            },
            None => None,
        },
        None => None,
    }
}

/// Every count of a polygon fits its length prefix.
pub open spec fn polygon_encodable(p: PolygonV) -> bool {
    &&& fits_u64(p.outer.len())
    &&& fits_u64(p.inners.len())
    &&& forall|j: int| 0 <= j < p.inners.len() ==> fits_u64((#[trigger] p.inners[j]).len())
}

/// An encodable polygon decodes from wherever its encoding lies.
#[verifier::rlimit(60)]
pub proof fn lemma_dec_enc_polygon(p: PolygonV, pre: Seq<u8>, suf: Seq<u8>)
    requires
        polygon_encodable(p),
    ensures
        dec_polygon(pre + enc_polygon(p) + suf, pre.len() as int) == Some(
            (p, (pre.len() + enc_polygon(p).len()) as int),
        ),
{
    let f = |r: Seq<Point>| enc_contour(r);
    let g = |b2: Seq<u8>, i2: int| dec_contour(b2, i2);
    let b = pre + enc_polygon(p) + suf;
    let n = p.inners.len() as u64;
    assert(b =~= pre + enc_contour(p.outer) + (enc_u64(n) + enc_list(p.inners, f) + suf));
    lemma_dec_enc_contour(p.outer, pre, enc_u64(n) + enc_list(p.inners, f) + suf);
    let pre2 = pre + enc_contour(p.outer);
    assert(b =~= pre2 + enc_u64(n) + (enc_list(p.inners, f) + suf));
    lemma_dec_enc_u64(n, pre2, enc_list(p.inners, f) + suf);
    assert forall|v: Seq<Point>, p2: Seq<u8>, s2: Seq<u8>| p.inners.contains(v) implies #[trigger] g(
        p2 + f(v) + s2,
        p2.len() as int,
    ) == Some((v, (p2.len() + f(v).len()) as int)) by {
        let idx = choose|idx: int| 0 <= idx < p.inners.len() && p.inners[idx] == v;
        assert(fits_u64(p.inners[idx].len()));
        lemma_dec_enc_contour(v, p2, s2);
    }
    lemma_dec_enc_list(p.inners, pre2 + enc_u64(n), suf, f, g);
    assert((pre2 + enc_u64(n)) + enc_list(p.inners, f) + suf =~= b);
}

/// A multipolygon on the wire: its part count, then its parts in order.
pub open spec fn enc_multipolygon(mp: Seq<PolygonV>) -> Seq<u8> {
    enc_u64(mp.len() as u64) + enc_list(mp, |p: PolygonV| enc_polygon(p))
}

/// Decoded multipolygon.
pub open spec fn dec_multipolygon(b: Seq<u8>, i: int) -> Option<(Seq<PolygonV>, int)> {
    match dec_u64(b, i) {
        Some((n, j)) => dec_list(b, j, n as nat, |b2: Seq<u8>, i2: int| dec_polygon(b2, i2)),
        None => None,
    }
}

/// Every count of a multipolygon fits its length prefix.
pub open spec fn multipolygon_encodable(mp: Seq<PolygonV>) -> bool {
    &&& fits_u64(mp.len())
    &&& forall|i: int| 0 <= i < mp.len() ==> polygon_encodable(#[trigger] mp[i])
}

/// An encodable multipolygon decodes from wherever its encoding lies.
#[verifier::rlimit(60)]
pub proof fn lemma_dec_enc_multipolygon(mp: Seq<PolygonV>, pre: Seq<u8>, suf: Seq<u8>)
    requires
        multipolygon_encodable(mp),
    ensures
        dec_multipolygon(pre + enc_multipolygon(mp) + suf, pre.len() as int) == Some(
            (mp, (pre.len() + enc_multipolygon(mp).len()) as int),
        ),
{
    let f = |p: PolygonV| enc_polygon(p);
    let g = |b2: Seq<u8>, i2: int| dec_polygon(b2, i2);
    let b = pre + enc_multipolygon(mp) + suf;
    let n = mp.len() as u64;
    assert(b =~= pre + enc_u64(n) + (enc_list(mp, f) + suf));
    lemma_dec_enc_u64(n, pre, enc_list(mp, f) + suf);
    assert forall|v: PolygonV, p2: Seq<u8>, s2: Seq<u8>| mp.contains(v) implies #[trigger] g(
        p2 + f(v) + s2,
        p2.len() as int,
    ) == Some((v, (p2.len() + f(v).len()) as int)) by {
        let idx = choose|idx: int| 0 <= idx < mp.len() && mp[idx] == v;
        assert(polygon_encodable(mp[idx]));
        lemma_dec_enc_polygon(v, p2, s2);
    }
    lemma_dec_enc_list(mp, pre + enc_u64(n), suf, f, g);
    assert((pre + enc_u64(n)) + enc_list(mp, f) + suf =~= b);
}

/// Appends a point.
fn push_point(out: &mut Vec<u8>, p: &Point)
    ensures
        final(out)@ == old(out)@ + enc_point(*p),
{
    push_i64(out, p.x);
    push_i64(out, p.y);
    proof {
        assert(out@ =~= old(out)@ + enc_point(*p));
    }
}

/// Appends a rectangle.
fn push_rect(out: &mut Vec<u8>, r: &Rect)
    ensures
        final(out)@ == old(out)@ + enc_rect(*r),
{
    push_i64(out, r.x_min);
    push_i64(out, r.y_min);
    push_i64(out, r.x_max);
    push_i64(out, r.y_max);
    proof {
        assert(out@ =~= old(out)@ + enc_rect(*r));
    }
}

/// Appends a contour: point count, then the points. Any contour that
/// exists in memory fits its length prefix.
fn push_contour(out: &mut Vec<u8>, c: &ClosedContour)
    ensures
        final(out)@ == old(out)@ + enc_contour(c@),
        fits_u64(c@.len()),
{
    let ghost f = |p: Point| enc_point(p);
    push_u64(out, c.points.len() as u64);
    let ghost mid = out@;
    let n = c.points.len();
    let mut k: usize = 0;
    while k < n
        invariant
            k <= n,
            n == c.points@.len(),
            f == (|p: Point| enc_point(p)),
            out@ =~= mid + enc_list(c.points@.take(k as int), f),
        decreases n - k,
    {
        push_point(out, &c.points[k]);
        proof {
            lemma_enc_list_snoc(c.points@, k as int, f);
        }
        k = k + 1;
    }
    proof {
        assert(c.points@.take(n as int) =~= c.points@);
        assert(out@ =~= old(out)@ + enc_contour(c@));
    }
}

/// Appends a polygon: the outer contour, then the inner contours. Any
/// polygon that exists in memory fits its length prefixes.
fn push_polygon(out: &mut Vec<u8>, p: &Polygon)
    ensures
        final(out)@ == old(out)@ + enc_polygon(p@),
        polygon_encodable(p@),
{
    let ghost f = |r: Seq<Point>| enc_contour(r);
    push_contour(out, &p.outer_contour);
    push_u64(out, p.inner_contours.len() as u64);
    let ghost mid = out@;
    let n = p.inner_contours.len();
    let mut k: usize = 0;
    while k < n
        invariant
            k <= n,
            n == p.inner_contours@.len(),
            f == (|r: Seq<Point>| enc_contour(r)),
            out@ =~= mid + enc_list(p@.inners.take(k as int), f),
            forall|j: int| 0 <= j < k ==> fits_u64((#[trigger] p@.inners[j]).len()),
        decreases n - k,
    {
        push_contour(out, &p.inner_contours[k]);
        proof {
            assert(p.inner_contours@[k as int]@ == p@.inners[k as int]);
            lemma_enc_list_snoc(p@.inners, k as int, f);
        }
        k = k + 1;
    }
    proof {
        assert(p@.inners.take(n as int) =~= p@.inners);
        assert(out@ =~= old(out)@ + enc_polygon(p@));
    }
}

/// Appends a multipolygon: part count, then the parts. Any
/// multipolygon that exists in memory fits its length prefixes.
fn push_multipolygon(out: &mut Vec<u8>, mp: &MultiPolygon)
    ensures
        final(out)@ == old(out)@ + enc_multipolygon(mp@),
        multipolygon_encodable(mp@),
{
    let ghost f = |p: PolygonV| enc_polygon(p);
    push_u64(out, mp.parts.len() as u64);
    let ghost mid = out@;
    let n = mp.parts.len();
    let mut k: usize = 0;
    while k < n
        invariant
            k <= n,
            n == mp.parts@.len(),
            f == (|p: PolygonV| enc_polygon(p)),
            out@ =~= mid + enc_list(mp@.take(k as int), f),
            forall|j: int| 0 <= j < k ==> polygon_encodable(#[trigger] mp@[j]),
        decreases n - k,
    {
        push_polygon(out, &mp.parts[k]);
        proof {
            assert(mp.parts@[k as int]@ == mp@[k as int]);
            lemma_enc_list_snoc(mp@, k as int, f);
        }
        k = k + 1;
    }
    proof {
        assert(mp@.take(n as int) =~= mp@);
        assert(out@ =~= old(out)@ + enc_multipolygon(mp@));
    }
}

/// Reads a point from the cursor position.
fn read_point(b: &Vec<u8>, i: usize) -> (r: Result<(Point, usize), DataError>)
    ensures
        match r {
            Ok(p) => dec_point(b@, i as int) == Some((p.0, p.1 as int)),
            Err(e) => dec_point(b@, i as int) is None && e == DataError::Decode,
        },
{
    let (x, j) = read_i64(b, i)?;
    let (y, k) = read_i64(b, j)?;
    Ok((Point { x, y }, k))
}

/// Reads a rectangle from the cursor position.
fn read_rect(b: &Vec<u8>, i: usize) -> (r: Result<(Rect, usize), DataError>)
    ensures
        match r {
            Ok(p) => dec_rect(b@, i as int) == Some((p.0, p.1 as int)),
            Err(e) => dec_rect(b@, i as int) is None && e == DataError::Decode,
        },
{
    let (x_min, j1) = read_i64(b, i)?;
    let (y_min, j2) = read_i64(b, j1)?;
    let (x_max, j3) = read_i64(b, j2)?;
    let (y_max, j4) = read_i64(b, j3)?;
    Ok((Rect { x_min, y_min, x_max, y_max }, j4))
}

/// Reads a contour from the cursor position.
fn read_contour(b: &Vec<u8>, i: usize) -> (r: Result<(ClosedContour, usize), DataError>)
    ensures
        match r {
            Ok(p) => dec_contour(b@, i as int) matches Some(q) && q.0 == p.0@ && q.1 == p.1 as int,
            Err(e) => dec_contour(b@, i as int) is None && e == DataError::Decode,
        },
{
    let ghost g = |b2: Seq<u8>, i2: int| dec_point(b2, i2);
    let (n, start) = read_u64(b, i)?;
    let mut points: Vec<Point> = Vec::new();
    let mut cur: usize = start;
    let mut rem: u64 = n;
    while rem > 0
        invariant
            g == (|b2: Seq<u8>, i2: int| dec_point(b2, i2)),
            dec_u64(b@, i as int) == Some((n, start as int)),
            match dec_list(b@, cur as int, rem as nat, g) {
                Some(q) => dec_list(b@, start as int, n as nat, g) == Some(
                    (points@ + q.0, q.1),
                ),
                None => dec_list(b@, start as int, n as nat, g) is None,
            },
        decreases rem,
    {
        match read_point(b, cur) {
            Ok((p, j)) => {
                proof {
                    assert(g(b@, cur as int) == Some((p, j as int)));
                    match dec_list(b@, j as int, (rem - 1) as nat, g) {
                        Some(q) => {
                            assert(points@ + (seq![p] + q.0) =~= (points@ + seq![p]) + q.0);
                        },
                        None => {},
                    }
                    assert(points@.push(p) =~= points@ + seq![p]);
                }
                points.push(p);
                cur = j;
                rem = rem - 1;
            },
            Err(e) => {
                proof {
                    assert(g(b@, cur as int) is None);
                }
                return Err(e);
            },
        }
    }
    proof {
        assert(points@ + Seq::<Point>::empty() =~= points@);
    }
    Ok((ClosedContour { points }, cur))
}

/// Reads a polygon from the cursor position.
fn read_polygon(b: &Vec<u8>, i: usize) -> (r: Result<(Polygon, usize), DataError>)
    ensures
        match r {
            Ok(p) => dec_polygon(b@, i as int) matches Some(q) && q.0 == p.0@ && q.1 == p.1 as int,
            Err(e) => dec_polygon(b@, i as int) is None && e == DataError::Decode,
        },
{
    let ghost g = |b2: Seq<u8>, i2: int| dec_contour(b2, i2);
    let (outer_contour, after_outer) = read_contour(b, i)?;
    let (n, start) = read_u64(b, after_outer)?;
    let mut inner_contours: Vec<ClosedContour> = Vec::new();
    let mut cur: usize = start;
    let mut rem: u64 = n;
    while rem > 0
        invariant
            g == (|b2: Seq<u8>, i2: int| dec_contour(b2, i2)),
            dec_contour(b@, i as int) matches Some(oc) && oc.0 == outer_contour@ && oc.1
                == after_outer as int,
            dec_u64(b@, after_outer as int) == Some((n, start as int)),
            match dec_list(b@, cur as int, rem as nat, g) {
                Some(q) => dec_list(b@, start as int, n as nat, g) == Some(
                    (inner_contours@.map_values(|c: ClosedContour| c@) + q.0, q.1),
                ),
                None => dec_list(b@, start as int, n as nat, g) is None,
            },
        decreases rem,
    {
        match read_contour(b, cur) {
            Ok((c, j)) => {
                proof {
                    assert(g(b@, cur as int) == Some((c@, j as int)));
                    let iv = inner_contours@.map_values(|c2: ClosedContour| c2@);
                    match dec_list(b@, j as int, (rem - 1) as nat, g) {
                        Some(q) => {
                            assert(iv + (seq![c@] + q.0) =~= (iv + seq![c@]) + q.0);
                        },
                        None => {},
                    }
                    assert(inner_contours@.push(c).map_values(|c2: ClosedContour| c2@) =~= iv
                        + seq![c@]);
                }
                inner_contours.push(c);
                cur = j;
                rem = rem - 1;
            },
            Err(e) => {
                proof {
                    assert(g(b@, cur as int) is None);
                }
                return Err(e);
            },
        }
    }
    let poly = Polygon { outer_contour, inner_contours };
    proof {
        assert(inner_contours@.map_values(|c: ClosedContour| c@) + Seq::<Seq<Point>>::empty() =~=
        poly@.inners);
    }
    Ok((poly, cur))
}

/// Reads a multipolygon from the cursor position.
fn read_multipolygon(b: &Vec<u8>, i: usize) -> (r: Result<(MultiPolygon, usize), DataError>)
    ensures
        match r {
            Ok(p) => dec_multipolygon(b@, i as int) matches Some(q) && q.0 == p.0@ && q.1
                == p.1 as int,
            Err(e) => dec_multipolygon(b@, i as int) is None && e == DataError::Decode,
        },
{
    let ghost g = |b2: Seq<u8>, i2: int| dec_polygon(b2, i2);
    let (n, start) = read_u64(b, i)?;
    let mut parts: Vec<Polygon> = Vec::new();
    let mut cur: usize = start;
    let mut rem: u64 = n;
    while rem > 0
        invariant
            g == (|b2: Seq<u8>, i2: int| dec_polygon(b2, i2)),
            dec_u64(b@, i as int) == Some((n, start as int)),
            match dec_list(b@, cur as int, rem as nat, g) {
                Some(q) => dec_list(b@, start as int, n as nat, g) == Some(
                    (parts@.map_values(|p: Polygon| p@) + q.0, q.1),
                ),
                None => dec_list(b@, start as int, n as nat, g) is None,
            },
        decreases rem,
    {
        match read_polygon(b, cur) {
            Ok((p, j)) => {
                proof {
                    assert(g(b@, cur as int) == Some((p@, j as int)));
                    let pv = parts@.map_values(|p2: Polygon| p2@);
                    match dec_list(b@, j as int, (rem - 1) as nat, g) {
                        Some(q) => {
                            assert(pv + (seq![p@] + q.0) =~= (pv + seq![p@]) + q.0);
                        },
                        None => {},
                    }
                    assert(parts@.push(p).map_values(|p2: Polygon| p2@) =~= pv + seq![p@]);
                }
                parts.push(p);
                cur = j;
                rem = rem - 1;
            },
            Err(e) => {
                proof {
                    assert(g(b@, cur as int) is None);
                }
                return Err(e);
            },
        }
    }
    let mp = MultiPolygon { parts };
    proof {
        assert(parts@.map_values(|p: Polygon| p@) + Seq::<PolygonV>::empty() =~= mp@);
    }
    Ok((mp, cur))
}

/// An address on the wire: label, status, then the four coordinates.
pub open spec fn enc_address(a: AddressV) -> Seq<u8> {
    enc_str(a.label) + enc_str(a.status) + enc_i64(a.lat) + enc_i64(a.lon) + enc_i64(a.x)
        + enc_i64(a.y)
}

/// Decoded address.
pub open spec fn dec_address(b: Seq<u8>, i: int) -> Option<(AddressV, int)> {
    match dec_str(b, i) {
        Some((label, j1)) => match dec_str(b, j1) {
            Some((status, j2)) => match dec_i64(b, j2) {
                Some((lat, j3)) => match dec_i64(b, j3) {
                    Some((lon, j4)) => match dec_i64(b, j4) {
                        Some((x, j5)) => match dec_i64(b, j5) {
                            Some((y, j6)) => Some(
                                (AddressV { label, status, lat, lon, x, y }, j6),
                            ),
                            None => None,
                        },
                        None => None,
                    },
                    None => None,
                },
                None => None,
            },
            None => None,
        },
        None => None,
    }
}

/// The texts of an address fit their length prefixes.
pub open spec fn address_encodable(a: AddressV) -> bool {
    str_encodable(a.label) && str_encodable(a.status)
}

/// An encodable address decodes from wherever its encoding lies.
#[verifier::rlimit(100)]
#[verifier::spinoff_prover]
pub proof fn lemma_dec_enc_address(a: AddressV, pre: Seq<u8>, suf: Seq<u8>)
    requires
        address_encodable(a),
    ensures
        dec_address(pre + enc_address(a) + suf, pre.len() as int) == Some(
            (a, (pre.len() + enc_address(a).len()) as int),
        ),
{
    let b = pre + enc_address(a) + suf;
    let e1 = enc_str(a.label);
    let e2 = enc_str(a.status);
    let e3 = enc_i64(a.lat);
    let e4 = enc_i64(a.lon);
    let e5 = enc_i64(a.x);
    let e6 = enc_i64(a.y);
    let i0 = pre.len() as int;
    let i1 = i0 + e1.len() as int;
    let i2 = i1 + e2.len() as int;
    let i3 = i2 + e3.len() as int;
    let i4 = i3 + e4.len() as int;
    let i5 = i4 + e5.len() as int;
    let i6 = i5 + e6.len() as int;
    assert(dec_str(b, i0) == Some((a.label, i1))) by {
        assert(b =~= pre + e1 + (e2 + e3 + e4 + e5 + e6 + suf));
        lemma_dec_enc_str(a.label, pre, e2 + e3 + e4 + e5 + e6 + suf);
    }
    assert(dec_str(b, i1) == Some((a.status, i2))) by {
        assert(b =~= (pre + e1) + e2 + (e3 + e4 + e5 + e6 + suf));
        lemma_dec_enc_str(a.status, pre + e1, e3 + e4 + e5 + e6 + suf);
    }
    assert(dec_i64(b, i2) == Some((a.lat, i3))) by {
        assert(b =~= (pre + e1 + e2) + e3 + (e4 + e5 + e6 + suf));
        lemma_dec_enc_i64(a.lat, pre + e1 + e2, e4 + e5 + e6 + suf);
    }
    assert(dec_i64(b, i3) == Some((a.lon, i4))) by {
        assert(b =~= (pre + e1 + e2 + e3) + e4 + (e5 + e6 + suf));
        lemma_dec_enc_i64(a.lon, pre + e1 + e2 + e3, e5 + e6 + suf);
    }
    assert(dec_i64(b, i4) == Some((a.x, i5))) by {
        assert(b =~= (pre + e1 + e2 + e3 + e4) + e5 + (e6 + suf));
        lemma_dec_enc_i64(a.x, pre + e1 + e2 + e3 + e4, e6 + suf);
    }
    assert(dec_i64(b, i5) == Some((a.y, i6))) by {
        assert(b =~= (pre + e1 + e2 + e3 + e4 + e5) + e6 + suf);
        lemma_dec_enc_i64(a.y, pre + e1 + e2 + e3 + e4 + e5, suf);
    }
    assert((pre.len() + enc_address(a).len()) as int == i6);
}

/// An address point on the wire: the address, the point, the bounds,
/// the selection flag.
pub open spec fn enc_address_point(p: AddressPointV) -> Seq<u8> {
    enc_address(p.address) + enc_point(p.geometry) + enc_rect(p.bounds) + enc_bool(p.selected)
}

/// Decoded address point.
pub open spec fn dec_address_point(b: Seq<u8>, i: int) -> Option<(AddressPointV, int)> {
    match dec_address(b, i) {
        Some((address, j1)) => match dec_point(b, j1) {
            Some((geometry, j2)) => match dec_rect(b, j2) {
                Some((bounds, j3)) => match dec_bool(b, j3) {
                    Some((selected, j4)) => Some(
                        (AddressPointV { address, geometry, bounds, selected }, j4),
                    ),
                    None => None,
                },
                None => None,
            },
            None => None,
        },
        None => None,
    }
}

/// The texts of an address point fit their length prefixes.
pub open spec fn address_point_encodable(p: AddressPointV) -> bool {
    address_encodable(p.address)
}

/// An encodable address point decodes from wherever its encoding lies.
#[verifier::rlimit(100)]
#[verifier::spinoff_prover]
pub proof fn lemma_dec_enc_address_point(p: AddressPointV, pre: Seq<u8>, suf: Seq<u8>)
    requires
        address_point_encodable(p),
    ensures
        dec_address_point(pre + enc_address_point(p) + suf, pre.len() as int) == Some(
            (p, (pre.len() + enc_address_point(p).len()) as int),
        ),
{
    let b = pre + enc_address_point(p) + suf;
    let e1 = enc_address(p.address);
    let e2 = enc_point(p.geometry);
    let e3 = enc_rect(p.bounds);
    let e4 = enc_bool(p.selected);
    let i0 = pre.len() as int;
    let i1 = i0 + e1.len() as int;
    let i2 = i1 + e2.len() as int;
    let i3 = i2 + e3.len() as int;
    let i4 = i3 + e4.len() as int;
    assert(dec_address(b, i0) == Some((p.address, i1))) by {
        assert(b =~= pre + e1 + (e2 + e3 + e4 + suf));
        lemma_dec_enc_address(p.address, pre, e2 + e3 + e4 + suf);
    }
    assert(dec_point(b, i1) == Some((p.geometry, i2))) by {
        assert(b =~= (pre + e1) + e2 + (e3 + e4 + suf));
        lemma_dec_enc_point(p.geometry, pre + e1, e3 + e4 + suf);
    }
    assert(dec_rect(b, i2) == Some((p.bounds, i3))) by {
        assert(b =~= (pre + e1 + e2) + e3 + (e4 + suf));
        lemma_dec_enc_rect(p.bounds, pre + e1 + e2, e4 + suf);
    }
    assert(dec_bool(b, i3) == Some((p.selected, i4))) by {
        assert(b =~= (pre + e1 + e2 + e3) + e4 + suf);
        lemma_dec_enc_bool(p.selected, pre + e1 + e2 + e3, suf);
    }
    assert((pre.len() + enc_address_point(p).len()) as int == i4);
}

/// An owner on the wire: the optional name, then the identifier.
pub open spec fn enc_owner(o: OwnerV) -> Seq<u8> {
    enc_opt_str(o.name) + enc_str(o.id)
}

/// Decoded owner.
pub open spec fn dec_owner(b: Seq<u8>, i: int) -> Option<(OwnerV, int)> {
    match dec_opt_str(b, i) {
        Some((name, j1)) => match dec_str(b, j1) {
            Some((id, j2)) => Some((OwnerV { name, id }, j2)),
            None => None,
        },
        None => None,
    }
}

/// The texts of an owner fit their length prefixes.
pub open spec fn owner_encodable(o: OwnerV) -> bool {
    opt_str_encodable(o.name) && str_encodable(o.id)
}

/// An encodable owner decodes from wherever its encoding lies.
pub proof fn lemma_dec_enc_owner(o: OwnerV, pre: Seq<u8>, suf: Seq<u8>)
    requires
        owner_encodable(o),
    ensures
        dec_owner(pre + enc_owner(o) + suf, pre.len() as int) == Some(
            (o, (pre.len() + enc_owner(o).len()) as int),
        ),
{
    let b = pre + enc_owner(o) + suf;
    assert(b =~= pre + enc_opt_str(o.name) + (enc_str(o.id) + suf));
    lemma_dec_enc_opt_str(o.name, pre, enc_str(o.id) + suf);
    assert(b =~= (pre + enc_opt_str(o.name)) + enc_str(o.id) + suf);
    lemma_dec_enc_str(o.id, pre + enc_opt_str(o.name), suf);
}

/// A parcel on the wire: the owner, the multipolygon, the bounds, the
/// selection flag.
pub open spec fn enc_parcel(p: ParcelV) -> Seq<u8> {
    enc_owner(p.owner) + enc_multipolygon(p.geometry) + enc_rect(p.bounds) + enc_bool(p.selected)
}

/// Decoded parcel.
pub open spec fn dec_parcel(b: Seq<u8>, i: int) -> Option<(ParcelV, int)> {
    match dec_owner(b, i) {
        Some((owner, j1)) => match dec_multipolygon(b, j1) {
            Some((geometry, j2)) => match dec_rect(b, j2) {
                Some((bounds, j3)) => match dec_bool(b, j3) {
                    Some((selected, j4)) => Some(
                        (ParcelV { owner, geometry, bounds, selected }, j4),
                    ),
                    None => None,
                },
                None => None,
            },
            None => None,
        },
        None => None,
    }
}

/// Every text and count of a parcel fits its length prefix.
pub open spec fn parcel_encodable(p: ParcelV) -> bool {
    owner_encodable(p.owner) && multipolygon_encodable(p.geometry)
}

/// An encodable parcel decodes from wherever its encoding lies.
#[verifier::rlimit(100)]
#[verifier::spinoff_prover]
pub proof fn lemma_dec_enc_parcel(p: ParcelV, pre: Seq<u8>, suf: Seq<u8>)
    requires
        parcel_encodable(p),
    ensures
        dec_parcel(pre + enc_parcel(p) + suf, pre.len() as int) == Some(
            (p, (pre.len() + enc_parcel(p).len()) as int),
        ),
{
    let b = pre + enc_parcel(p) + suf;
    let e1 = enc_owner(p.owner);
    let e2 = enc_multipolygon(p.geometry);
    let e3 = enc_rect(p.bounds);
    let e4 = enc_bool(p.selected);
    let i0 = pre.len() as int;
    let i1 = i0 + e1.len() as int;
    let i2 = i1 + e2.len() as int;
    let i3 = i2 + e3.len() as int;
    let i4 = i3 + e4.len() as int;
    assert(dec_owner(b, i0) == Some((p.owner, i1))) by {
        assert(b =~= pre + e1 + (e2 + e3 + e4 + suf));
        lemma_dec_enc_owner(p.owner, pre, e2 + e3 + e4 + suf);
    }
    assert(dec_multipolygon(b, i1) == Some((p.geometry, i2))) by {
        assert(b =~= (pre + e1) + e2 + (e3 + e4 + suf));
        lemma_dec_enc_multipolygon(p.geometry, pre + e1, e3 + e4 + suf);
    }
    assert(dec_rect(b, i2) == Some((p.bounds, i3))) by {
        assert(b =~= (pre + e1 + e2) + e3 + (e4 + suf));
        lemma_dec_enc_rect(p.bounds, pre + e1 + e2, e4 + suf);
    }
    assert(dec_bool(b, i3) == Some((p.selected, i4))) by {
        assert(b =~= (pre + e1 + e2 + e3) + e4 + suf);
        lemma_dec_enc_bool(p.selected, pre + e1 + e2 + e3, suf);
    }
    assert((pre.len() + enc_parcel(p).len()) as int == i4);
}

/// Appends an address. Any address that exists in memory fits its
/// length prefixes.
fn push_address(out: &mut Vec<u8>, a: &Address)
    ensures
        final(out)@ == old(out)@ + enc_address(a@),
        address_encodable(a@),
{
    push_str(out, a.label.as_str());
    push_str(out, a.status.as_str());
    push_i64(out, a.lat);
    push_i64(out, a.lon);
    push_i64(out, a.x);
    push_i64(out, a.y);
    proof {
        assert(out@ =~= old(out)@ + enc_address(a@));
    }
}

/// Appends an address point. Any address point that exists in memory
/// fits its length prefixes.
fn push_address_point(out: &mut Vec<u8>, p: &AddressPoint)
    ensures
        final(out)@ == old(out)@ + enc_address_point(p@),
        address_point_encodable(p@),
{
    push_address(out, &p.address);
    push_point(out, &p.geometry);
    push_rect(out, &p.bounds);
    push_bool(out, p.selected);
    proof {
        assert(out@ =~= old(out)@ + enc_address_point(p@));
    }
}

/// Appends an owner. Any owner that exists in memory fits its length
/// prefixes.
fn push_owner(out: &mut Vec<u8>, o: &Owner)
    ensures
        final(out)@ == old(out)@ + enc_owner(o@),
        owner_encodable(o@),
{
    push_opt_str(out, &o.name);
    push_str(out, o.id.as_str());
    proof {
        assert(out@ =~= old(out)@ + enc_owner(o@));
    }
}

/// Appends a parcel. Any parcel that exists in memory fits its length
/// prefixes.
fn push_parcel(out: &mut Vec<u8>, p: &Parcel)
    ensures
        final(out)@ == old(out)@ + enc_parcel(p@),
        parcel_encodable(p@),
{
    push_owner(out, &p.owner);
    push_multipolygon(out, &p.geometry);
    push_rect(out, &p.bounds);
    push_bool(out, p.selected);
    proof {
        assert(out@ =~= old(out)@ + enc_parcel(p@));
    }
}

/// Reads an address from the cursor position.
fn read_address(b: &Vec<u8>, i: usize) -> (r: Result<(Address, usize), DataError>)
    ensures
        match r {
            Ok(p) => dec_address(b@, i as int) matches Some(q) && q.0 == p.0@ && q.1 == p.1 as int,
            Err(e) => dec_address(b@, i as int) is None && e == DataError::Decode,
        },
{
    let (label, j1) = read_str(b, i)?;
    let (status, j2) = read_str(b, j1)?;
    let (lat, j3) = read_i64(b, j2)?;
    let (lon, j4) = read_i64(b, j3)?;
    let (x, j5) = read_i64(b, j4)?;
    let (y, j6) = read_i64(b, j5)?;
    let a = Address { label, status, lat, lon, x, y };
    proof {
        assert(dec_address(b@, i as int) matches Some(q) && q.0 =~= a@);
    }
    Ok((a, j6))
}

/// Reads an address point from the cursor position.
fn read_address_point(b: &Vec<u8>, i: usize) -> (r: Result<(AddressPoint, usize), DataError>)
    ensures
        match r {
            Ok(p) => dec_address_point(b@, i as int) matches Some(q) && q.0 == p.0@ && q.1
                == p.1 as int,
            Err(e) => dec_address_point(b@, i as int) is None && e == DataError::Decode,
        },
{
    let (address, j1) = read_address(b, i)?;
    let (geometry, j2) = read_point(b, j1)?;
    let (bounds, j3) = read_rect(b, j2)?;
    let (selected, j4) = read_bool(b, j3)?;
    let p = AddressPoint { address, geometry, bounds, selected };
    proof {
        assert(dec_address_point(b@, i as int) matches Some(q) && q.0 =~= p@);
    }
    Ok((p, j4))
}

/// Reads an owner from the cursor position.
fn read_owner(b: &Vec<u8>, i: usize) -> (r: Result<(Owner, usize), DataError>)
    ensures
        match r {
            Ok(p) => dec_owner(b@, i as int) matches Some(q) && q.0 == p.0@ && q.1 == p.1 as int,
            Err(e) => dec_owner(b@, i as int) is None && e == DataError::Decode,
        },
{
    let (name, j1) = read_opt_str(b, i)?;
    let (id, j2) = read_str(b, j1)?;
    let o = Owner { name, id };
    proof {
        assert(dec_owner(b@, i as int) matches Some(q) && q.0 =~= o@);
    }
    Ok((o, j2))
}

/// Reads a parcel from the cursor position.
fn read_parcel(b: &Vec<u8>, i: usize) -> (r: Result<(Parcel, usize), DataError>)
    ensures
        match r {
            Ok(p) => dec_parcel(b@, i as int) matches Some(q) && q.0 == p.0@ && q.1 == p.1 as int,
            Err(e) => dec_parcel(b@, i as int) is None && e == DataError::Decode,
        },
{
    let (owner, j1) = read_owner(b, i)?;
    let (geometry, j2) = read_multipolygon(b, j1)?;
    let (bounds, j3) = read_rect(b, j2)?;
    let (selected, j4) = read_bool(b, j3)?;
    let p = Parcel { owner, geometry, bounds, selected };
    proof {
        assert(dec_parcel(b@, i as int) matches Some(q) && q.0 =~= p@);
    }
    Ok((p, j4))
}

/// The kind byte of an address-roll cache.
pub const ADDRESSES_KIND: u8 = 1;

/// The kind byte of an address-point cache.
pub const ADDRESS_POINTS_KIND: u8 = 2;

/// The kind byte of a parcel cache.
pub const PARCELS_KIND: u8 = 3;

/// The layout version byte; any structural change to the record types
/// invalidates existing caches.
pub const CACHE_VERSION: u8 = 1;

/// A cached address collection: kind and version bytes, the record
/// count, then the records.
pub open spec fn enc_addresses(c: Seq<AddressV>) -> Seq<u8> {
    seq![ADDRESSES_KIND, CACHE_VERSION] + enc_u64(c.len() as u64) + enc_list(
        c,
        |a: AddressV| enc_address(a),
    )
}

/// The collection an address cache buffer holds: `None` unless the
/// whole buffer is one well-formed cache of the right kind and version.
pub open spec fn addresses_load_spec(b: Seq<u8>) -> Option<Seq<AddressV>> {
    if b.len() >= 2 && b[0] == ADDRESSES_KIND && b[1] == CACHE_VERSION {
        match dec_u64(b, 2) {
            Some((n, j)) => match dec_list(
                b,
                j,
                n as nat,
                |b2: Seq<u8>, i2: int| dec_address(b2, i2),
            ) {
                Some((recs, k)) => if k == b.len() {
                    Some(recs)
                } else {
                    None
                },
                None => None,
            },
            None => None,
        }
    } else {
        None
    }
}

/// A cached address-point collection.
pub open spec fn enc_address_points(c: Seq<AddressPointV>) -> Seq<u8> {
    seq![ADDRESS_POINTS_KIND, CACHE_VERSION] + enc_u64(c.len() as u64) + enc_list(
        c,
        |p: AddressPointV| enc_address_point(p),
    )
}

/// The collection an address-point cache buffer holds.
pub open spec fn address_points_load_spec(b: Seq<u8>) -> Option<Seq<AddressPointV>> {
    if b.len() >= 2 && b[0] == ADDRESS_POINTS_KIND && b[1] == CACHE_VERSION {
        match dec_u64(b, 2) {
            Some((n, j)) => match dec_list(
                b,
                j,
                n as nat,
                |b2: Seq<u8>, i2: int| dec_address_point(b2, i2),
            ) {
                Some((recs, k)) => if k == b.len() {
                    Some(recs)
                } else {
                    None
                },
                None => None,
            },
            None => None,
        }
    } else {
        None
    }
}

/// A cached parcel collection.
pub open spec fn enc_parcels(c: Seq<ParcelV>) -> Seq<u8> {
    seq![PARCELS_KIND, CACHE_VERSION] + enc_u64(c.len() as u64) + enc_list(
        c,
        |p: ParcelV| enc_parcel(p),
    )
}

/// The collection a parcel cache buffer holds.
pub open spec fn parcels_load_spec(b: Seq<u8>) -> Option<Seq<ParcelV>> {
    if b.len() >= 2 && b[0] == PARCELS_KIND && b[1] == CACHE_VERSION {
        match dec_u64(b, 2) {
            Some((n, j)) => match dec_list(
                b,
                j,
                n as nat,
                |b2: Seq<u8>, i2: int| dec_parcel(b2, i2),
            ) {
                Some((recs, k)) => if k == b.len() {
                    Some(recs)
                } else {
                    None
                },
                None => None,
            },
            None => None,
        }
    } else {
        None
    }
}

impl Addresses {
    /// Serializes the collection to a contiguous cache buffer. The
    /// buffer always loads back to a structurally equal collection.
    pub fn save(&self) -> (out: Vec<u8>)
        ensures
            out@ == enc_addresses(self@),
            addresses_load_spec(out@) == Some(self@),
    {
        let ghost f = |a: AddressV| enc_address(a);
        let mut out: Vec<u8> = Vec::new();
        out.push(1);
        out.push(CACHE_VERSION);
        push_u64(&mut out, self.records.len() as u64);
        let ghost mid = out@;
        let n = self.records.len();
        let mut k: usize = 0;
        while k < n
            invariant
                k <= n,
                n == self.records@.len(),
                f == (|a: AddressV| enc_address(a)),
                out@ =~= mid + enc_list(self@.take(k as int), f),
                forall|j: int| 0 <= j < k ==> address_encodable(#[trigger] self@[j]),
            decreases n - k,
        {
            push_address(&mut out, &self.records[k]);
            proof {
                assert(self.records@[k as int]@ == self@[k as int]);
                lemma_enc_list_snoc(self@, k as int, f);
            }
            k = k + 1;
        }
        proof {
            assert(self@.take(n as int) =~= self@);
            assert(out@ =~= enc_addresses(self@));
            lemma_addresses_round_trip(self@);
        }
        out
    }

    /// Deserializes a cache buffer back into the collection; any buffer
    /// that does not match the expected layout is a recoverable decode
    /// failure.
    pub fn load(b: &Vec<u8>) -> (r: Result<Addresses, DataError>)
        ensures
            match r {
                Ok(c) => addresses_load_spec(b@) == Some(c@),
                Err(e) => addresses_load_spec(b@) is None && e == DataError::Decode,
            },
    {
        let ghost g = |b2: Seq<u8>, i2: int| dec_address(b2, i2);
        if b.len() < 2 || b[0] != 1 || b[1] != CACHE_VERSION {
            return Err(DataError::Decode);
        }
        let (n, start) = read_u64(b, 2)?;
        let mut records: Vec<Address> = Vec::new();
        let mut cur: usize = start;
        let mut rem: u64 = n;
        while rem > 0
            invariant
                g == (|b2: Seq<u8>, i2: int| dec_address(b2, i2)),
                b@.len() >= 2 && b@[0] == ADDRESSES_KIND && b@[1] == CACHE_VERSION,
                dec_u64(b@, 2) == Some((n, start as int)),
                match dec_list(b@, cur as int, rem as nat, g) {
                    Some(q) => dec_list(b@, start as int, n as nat, g) == Some(
                        (records@.map_values(|a: Address| a@) + q.0, q.1),
                    ),
                    None => dec_list(b@, start as int, n as nat, g) is None,
                },
            decreases rem,
        {
            match read_address(b, cur) {
                Ok((a, j)) => {
                    proof {
                        assert(g(b@, cur as int) matches Some(q2) && q2.0 == a@ && q2.1
                            == j as int);
                        let rv = records@.map_values(|a2: Address| a2@);
                        match dec_list(b@, j as int, (rem - 1) as nat, g) {
                            Some(q) => {
                                assert(rv + (seq![a@] + q.0) =~= (rv + seq![a@]) + q.0);
                            },
                            None => {},
                        }
                        assert(records@.push(a).map_values(|a2: Address| a2@) =~= rv + seq![a@]);
                    }
                    records.push(a);
                    cur = j;
                    rem = rem - 1;
                },
                Err(e) => {
                    proof {
                        assert(g(b@, cur as int) is None);
                    }
                    return Err(e);
                },
            }
        }
        if cur != b.len() {
            proof {
                assert(records@.map_values(|a: Address| a@) + Seq::<AddressV>::empty() =~=
                records@.map_values(|a: Address| a@));
            }
            return Err(DataError::Decode);
        }
        let c = Addresses { records };
        proof {
            assert(records@.map_values(|a: Address| a@) + Seq::<AddressV>::empty() =~= c@);
        }
        Ok(c)
    }
}

impl AddressPoints {
    /// Serializes the collection to a contiguous cache buffer. The
    /// buffer always loads back to a structurally equal collection.
    pub fn save(&self) -> (out: Vec<u8>)
        ensures
            out@ == enc_address_points(self@),
            address_points_load_spec(out@) == Some(self@),
    {
        let ghost f = |p: AddressPointV| enc_address_point(p);
        let mut out: Vec<u8> = Vec::new();
        out.push(2);
        out.push(CACHE_VERSION);
        push_u64(&mut out, self.records.len() as u64);
        let ghost mid = out@;
        let n = self.records.len();
        let mut k: usize = 0;
        while k < n
            invariant
                k <= n,
                n == self.records@.len(),
                f == (|p: AddressPointV| enc_address_point(p)),
                out@ =~= mid + enc_list(self@.take(k as int), f),
                forall|j: int| 0 <= j < k ==> address_point_encodable(#[trigger] self@[j]),
            decreases n - k,
        {
            push_address_point(&mut out, &self.records[k]);
            proof {
                assert(self.records@[k as int]@ == self@[k as int]);
                lemma_enc_list_snoc(self@, k as int, f);
            }
            k = k + 1;
        }
        proof {
            assert(self@.take(n as int) =~= self@);
            assert(out@ =~= enc_address_points(self@));
            lemma_address_points_round_trip(self@);
        }
        out
    }

    /// Deserializes a cache buffer back into the collection.
    pub fn load(b: &Vec<u8>) -> (r: Result<AddressPoints, DataError>)
        ensures
            match r {
                Ok(c) => address_points_load_spec(b@) == Some(c@),
                Err(e) => address_points_load_spec(b@) is None && e == DataError::Decode,
            },
    {
        let ghost g = |b2: Seq<u8>, i2: int| dec_address_point(b2, i2);
        if b.len() < 2 || b[0] != 2 || b[1] != CACHE_VERSION {
            return Err(DataError::Decode);
        }
        let (n, start) = read_u64(b, 2)?;
        let mut records: Vec<AddressPoint> = Vec::new();
        let mut cur: usize = start;
        let mut rem: u64 = n;
        while rem > 0
            invariant
                g == (|b2: Seq<u8>, i2: int| dec_address_point(b2, i2)),
                b@.len() >= 2 && b@[0] == ADDRESS_POINTS_KIND && b@[1] == CACHE_VERSION,
                dec_u64(b@, 2) == Some((n, start as int)),
                match dec_list(b@, cur as int, rem as nat, g) {
                    Some(q) => dec_list(b@, start as int, n as nat, g) == Some(
                        (records@.map_values(|p: AddressPoint| p@) + q.0, q.1),
                    ),
                    None => dec_list(b@, start as int, n as nat, g) is None,
                },
            decreases rem,
        {
            match read_address_point(b, cur) {
                Ok((p, j)) => {
                    proof {
                        assert(g(b@, cur as int) matches Some(q2) && q2.0 == p@ && q2.1
                            == j as int);
                        let rv = records@.map_values(|p2: AddressPoint| p2@);
                        match dec_list(b@, j as int, (rem - 1) as nat, g) {
                            Some(q) => {
                                assert(rv + (seq![p@] + q.0) =~= (rv + seq![p@]) + q.0);
                            },
                            None => {},
                        }
                        assert(records@.push(p).map_values(|p2: AddressPoint| p2@) =~= rv
                            + seq![p@]);
                    }
                    records.push(p);
                    cur = j;
                    rem = rem - 1;
                },
                Err(e) => {
                    proof {
                        assert(g(b@, cur as int) is None);
                    }
                    return Err(e);
                },
            }
        }
        if cur != b.len() {
            return Err(DataError::Decode);
        }
        let c = AddressPoints { records };
        proof {
            assert(records@.map_values(|p: AddressPoint| p@) + Seq::<AddressPointV>::empty() =~=
            c@);
        }
        Ok(c)
    }
}

impl Parcels {
    /// Serializes the collection to a contiguous cache buffer. The
    /// buffer always loads back to a structurally equal collection.
    pub fn save(&self) -> (out: Vec<u8>)
        ensures
            out@ == enc_parcels(self@),
            parcels_load_spec(out@) == Some(self@),
    {
        let ghost f = |p: ParcelV| enc_parcel(p);
        let mut out: Vec<u8> = Vec::new();
        out.push(3);
        out.push(CACHE_VERSION);
        push_u64(&mut out, self.records.len() as u64);
        let ghost mid = out@;
        let n = self.records.len();
        let mut k: usize = 0;
        while k < n
            invariant
                k <= n,
                n == self.records@.len(),
                f == (|p: ParcelV| enc_parcel(p)),
                out@ =~= mid + enc_list(self@.take(k as int), f),
                forall|j: int| 0 <= j < k ==> parcel_encodable(#[trigger] self@[j]),
            decreases n - k,
        {
            push_parcel(&mut out, &self.records[k]);
            proof {
                assert(self.records@[k as int]@ == self@[k as int]);
                lemma_enc_list_snoc(self@, k as int, f);
            }
            k = k + 1;
        }
        proof {
            assert(self@.take(n as int) =~= self@);
            assert(out@ =~= enc_parcels(self@));
            lemma_parcels_round_trip(self@);
        }
        out
    }

    /// Deserializes a cache buffer back into the collection.
    pub fn load(b: &Vec<u8>) -> (r: Result<Parcels, DataError>)
        ensures
            match r {
                Ok(c) => parcels_load_spec(b@) == Some(c@),
                Err(e) => parcels_load_spec(b@) is None && e == DataError::Decode,
            },
    {
        let ghost g = |b2: Seq<u8>, i2: int| dec_parcel(b2, i2);
        if b.len() < 2 || b[0] != 3 || b[1] != CACHE_VERSION {
            return Err(DataError::Decode);
        }
        let (n, start) = read_u64(b, 2)?;
        let mut records: Vec<Parcel> = Vec::new();
        let mut cur: usize = start;
        let mut rem: u64 = n;
        while rem > 0
            invariant
                g == (|b2: Seq<u8>, i2: int| dec_parcel(b2, i2)),
                b@.len() >= 2 && b@[0] == PARCELS_KIND && b@[1] == CACHE_VERSION,
                dec_u64(b@, 2) == Some((n, start as int)),
                match dec_list(b@, cur as int, rem as nat, g) {
                    Some(q) => dec_list(b@, start as int, n as nat, g) == Some(
                        (records@.map_values(|p: Parcel| p@) + q.0, q.1),
                    ),
                    None => dec_list(b@, start as int, n as nat, g) is None,
                },
            decreases rem,
        {
            match read_parcel(b, cur) {
                Ok((p, j)) => {
                    proof {
                        assert(g(b@, cur as int) matches Some(q2) && q2.0 == p@ && q2.1
                            == j as int);
                        let rv = records@.map_values(|p2: Parcel| p2@);
                        match dec_list(b@, j as int, (rem - 1) as nat, g) {
                            Some(q) => {
                                assert(rv + (seq![p@] + q.0) =~= (rv + seq![p@]) + q.0);
                            },
                            None => {},
                        }
                        assert(records@.push(p).map_values(|p2: Parcel| p2@) =~= rv + seq![p@]);
                    }
                    records.push(p);
                    cur = j;
                    rem = rem - 1;
                },
                Err(e) => {
                    proof {
                        assert(g(b@, cur as int) is None);
                    }
                    return Err(e);
                },
            }
        }
        if cur != b.len() {
            return Err(DataError::Decode);
        }
        let c = Parcels { records };
        proof {
            assert(records@.map_values(|p: Parcel| p@) + Seq::<ParcelV>::empty() =~= c@);
        }
        Ok(c)
    }
}

/// Round trip of the address cache: loading a saved collection gives
/// back a structurally equal collection, record for record.
#[verifier::rlimit(100)]
#[verifier::spinoff_prover]
pub proof fn lemma_addresses_round_trip(c: Seq<AddressV>)
    requires
        fits_u64(c.len()),
        forall|i: int| 0 <= i < c.len() ==> address_encodable(#[trigger] c[i]),
    ensures
        addresses_load_spec(enc_addresses(c)) == Some(c),
{
    let f = |a: AddressV| enc_address(a);
    let g = |b2: Seq<u8>, i2: int| dec_address(b2, i2);
    let hdr = seq![ADDRESSES_KIND, CACHE_VERSION];
    let n = c.len() as u64;
    let b = enc_addresses(c);
    assert(b =~= hdr + enc_u64(n) + enc_list(c, f));
    lemma_dec_enc_u64(n, hdr, enc_list(c, f));
    assert forall|v: AddressV, p2: Seq<u8>, s2: Seq<u8>| c.contains(v) implies #[trigger] g(
        p2 + f(v) + s2,
        p2.len() as int,
    ) == Some((v, (p2.len() + f(v).len()) as int)) by {
        let idx = choose|idx: int| 0 <= idx < c.len() && c[idx] == v;
        assert(address_encodable(c[idx]));
        lemma_dec_enc_address(v, p2, s2);
    }
    lemma_dec_enc_list(c, hdr + enc_u64(n), Seq::<u8>::empty(), f, g);
    assert((hdr + enc_u64(n)) + enc_list(c, f) + Seq::<u8>::empty() =~= b);
}

/// Round trip of the address-point cache.
#[verifier::rlimit(100)]
#[verifier::spinoff_prover]
pub proof fn lemma_address_points_round_trip(c: Seq<AddressPointV>)
    requires
        fits_u64(c.len()),
        forall|i: int| 0 <= i < c.len() ==> address_point_encodable(#[trigger] c[i]),
    ensures
        address_points_load_spec(enc_address_points(c)) == Some(c),
{
    let f = |p: AddressPointV| enc_address_point(p);
    let g = |b2: Seq<u8>, i2: int| dec_address_point(b2, i2);
    let hdr = seq![ADDRESS_POINTS_KIND, CACHE_VERSION];
    let n = c.len() as u64;
    let b = enc_address_points(c);
    assert(b =~= hdr + enc_u64(n) + enc_list(c, f));
    lemma_dec_enc_u64(n, hdr, enc_list(c, f));
    assert forall|v: AddressPointV, p2: Seq<u8>, s2: Seq<u8>| c.contains(v) implies #[trigger] g(
        p2 + f(v) + s2,
        p2.len() as int,
    ) == Some((v, (p2.len() + f(v).len()) as int)) by {
        let idx = choose|idx: int| 0 <= idx < c.len() && c[idx] == v;
        assert(address_point_encodable(c[idx]));
        lemma_dec_enc_address_point(v, p2, s2);
    }
    lemma_dec_enc_list(c, hdr + enc_u64(n), Seq::<u8>::empty(), f, g);
    assert((hdr + enc_u64(n)) + enc_list(c, f) + Seq::<u8>::empty() =~= b);
}

/// Round trip of the parcel cache.
#[verifier::rlimit(100)]
#[verifier::spinoff_prover]
pub proof fn lemma_parcels_round_trip(c: Seq<ParcelV>)
    requires
        fits_u64(c.len()),
        forall|i: int| 0 <= i < c.len() ==> parcel_encodable(#[trigger] c[i]),
    ensures
        parcels_load_spec(enc_parcels(c)) == Some(c),
{
    let f = |p: ParcelV| enc_parcel(p);
    let g = |b2: Seq<u8>, i2: int| dec_parcel(b2, i2);
    let hdr = seq![PARCELS_KIND, CACHE_VERSION];
    let n = c.len() as u64;
    let b = enc_parcels(c);
    assert(b =~= hdr + enc_u64(n) + enc_list(c, f));
    lemma_dec_enc_u64(n, hdr, enc_list(c, f));
    assert forall|v: ParcelV, p2: Seq<u8>, s2: Seq<u8>| c.contains(v) implies #[trigger] g(
        p2 + f(v) + s2,
        p2.len() as int,
    ) == Some((v, (p2.len() + f(v).len()) as int)) by {
        let idx = choose|idx: int| 0 <= idx < c.len() && c[idx] == v;
        assert(parcel_encodable(c[idx]));
        lemma_dec_enc_parcel(v, p2, s2);
    }
    lemma_dec_enc_list(c, hdr + enc_u64(n), Seq::<u8>::empty(), f, g);
    assert((hdr + enc_u64(n)) + enc_list(c, f) + Seq::<u8>::empty() =~= b);
}


} // verus!
