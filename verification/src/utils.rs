//! Bounding-rectangle arithmetic: proximity boxes around points and
//! aggregation of many rectangles into one covering rectangle.

use vstd::prelude::*;
use crate::error::DataError;
use crate::geometry::{sat_add, sat_sub, saturating_add, saturating_sub, Point, Rect};

verus! {

/// One data row of a delimited-text table; `None` when the row failed
/// row-level reading (bad quoting, wrong field count, invalid text)
/// and is to be dropped.
#[derive(Debug, PartialEq)]
pub struct CsvRow {
    pub fields: Option<Vec<String>>,
}

impl View for CsvRow {
    type V = Option<Seq<Seq<char>>>;

    open spec fn view(&self) -> Option<Seq<Seq<char>>> {
        match self.fields {
            Some(fields) => Some(fields@.map_values(|f: String| f@)),
            None => None,
        }
    }
}

/// Mathematical model of a delimited-text table.
#[verifier::ext_equal]
pub struct CsvTableV {
    pub headers: Seq<Seq<char>>,
    pub rows: Seq<Option<Seq<Seq<char>>>>,
}

/// A delimited-text table: the header row and the data rows, in file
/// order.
#[derive(Debug, PartialEq)]
pub struct CsvTable {
    pub headers: Vec<String>,
    pub rows: Vec<CsvRow>,
}

impl View for CsvTable {
    type V = CsvTableV;

    open spec fn view(&self) -> CsvTableV {
        CsvTableV {
            headers: self.headers@.map_values(|f: String| f@),
            rows: self.rows@.map_values(|r: CsvRow| r@),
        }
    }
}

/// The table that delimited-text reading yields on a byte input:
/// `None` when the header itself cannot be read, and inside the table
/// one entry per data row, `None` for a row that fails row-level
/// reading.
pub uninterp spec fn csv_table_of(b: Seq<u8>) -> Option<CsvTableV>;

/// Relies on `csv::Reader`: splits the byte input into a header row
/// and data rows. A data row that fails row-level reading comes back
/// as `None`; an unreadable header fails the whole call.
#[verifier::external_body]
fn read_csv_bytes(bytes: &Vec<u8>) -> (r: Option<CsvTable>)
    ensures
        r matches Some(t) ==> csv_table_of(bytes@) == Some(t@),
        r is None ==> csv_table_of(bytes@) is None,
{
    let mut rdr = csv::Reader::from_reader(bytes.as_slice());
    let headers = match rdr.headers() {
        Ok(h) => h.iter().map(|f| f.to_string()).collect(),
        Err(_) => return None,
    };
    let mut rows = Vec::new();
    for rec in rdr.records() {
        rows.push(CsvRow { fields: rec.ok().map(|x| x.iter().map(|f| f.to_string()).collect()) });
    }
    Some(CsvTable { headers, rows })
}

/// Reads a delimited-text table from raw bytes. An unreadable header
/// is fatal for the whole call; a bad data row only marks its own
/// entry.
pub fn from_csv(bytes: &Vec<u8>) -> (r: Result<CsvTable, DataError>)
    ensures
        r matches Ok(t) ==> csv_table_of(bytes@) == Some(t@),
        r is Err ==> r == Err::<CsvTable, DataError>(DataError::Csv) && csv_table_of(bytes@)
            is None,
{
    match read_csv_bytes(bytes) {
        Some(t) => Ok(t),
        None => Err(DataError::Csv),
    }
}

/// The box `[x-buffer, x+buffer] x [y-buffer, y+buffer]` around a
/// point, clamped at the representable coordinate range. A negative
/// buffer yields an inverted rectangle that contains nothing.
pub open spec fn point_bounds_spec(point: Point, buffer: i64) -> Rect {
    Rect {
        x_min: sat_sub(point.x, buffer),
        y_min: sat_sub(point.y, buffer),
        x_max: sat_add(point.x, buffer),
        y_max: sat_add(point.y, buffer),
    }
}

/// Expands `point` by `buffer` on all four sides.
pub fn point_bounds(point: &Point, buffer: i64) -> (r: Rect)
    ensures
        r == point_bounds_spec(*point, buffer),
{
    let x_min = saturating_sub(point.x, buffer);
    let x_max = saturating_add(point.x, buffer);
    let y_min = saturating_sub(point.y, buffer);
    let y_max = saturating_add(point.y, buffer);
    Rect::new(x_min, y_min, x_max, y_max)
}

/// A proximity box with a non-negative buffer contains its center.
pub proof fn lemma_point_bounds_contain(point: Point, buffer: i64)
    requires
        buffer >= 0,
    ensures
        point_bounds_spec(point, buffer).contains_spec(point),
{
}

/// The neutral element of bounds aggregation: a fully inverted
/// rectangle that contains nothing, meaning "no bounds yet".
pub open spec fn empty_bounds() -> Rect {
    Rect { x_min: i64::MAX, y_min: i64::MAX, x_max: i64::MIN, y_max: i64::MIN }
}

/// Extends an accumulated rectangle so that it also covers `r`.
pub open spec fn merge_bounds(acc: Rect, r: Rect) -> Rect {
    Rect {
        x_min: if r.x_min < acc.x_min {
            r.x_min
        } else {
            acc.x_min
        },
        y_min: if r.y_min < acc.y_min {
            r.y_min
        } else {
            acc.y_min
        },
        x_max: if r.x_max > acc.x_max {
            r.x_max
        } else {
            acc.x_max
        },
        y_max: if r.y_max > acc.y_max {
            r.y_max
        } else {
            acc.y_max
        },
    }
}

/// Fold of `merge_bounds` over a sequence of rectangles, starting from
/// the inverted empty rectangle: an empty input yields a degenerate
/// rectangle with `x_min > x_max`, which callers must read as "no
/// bounds" rather than a usable rectangle.
pub open spec fn aggregate_bounds_spec(rects: Seq<Rect>) -> Rect
    decreases rects.len(),
{
    if rects.len() == 0 {
        empty_bounds()
    } else {
        merge_bounds(aggregate_bounds_spec(rects.drop_last()), rects.last())
    }
}

/// Folds the minimum of all minimums and the maximum of all maximums
/// per axis over `rects`.
pub fn aggregate_bounds(rects: &Vec<Rect>) -> (r: Rect)
    ensures
        r == aggregate_bounds_spec(rects@),
{
    let mut x_min = i64::MAX;
    let mut y_min = i64::MAX;
    let mut x_max = i64::MIN;
    let mut y_max = i64::MIN;
    let n = rects.len();
    let mut i: usize = 0;
    while i < n
        invariant
            i <= n,
            n == rects@.len(),
            (Rect { x_min, y_min, x_max, y_max }) == aggregate_bounds_spec(rects@.take(i as int)),
        decreases n - i,
    {
        let rect = rects[i];
        if rect.x_min < x_min {
            x_min = rect.x_min;
        }
        if rect.y_min < y_min {
            y_min = rect.y_min;
        }
        if rect.x_max > x_max {
            x_max = rect.x_max;
        }
        if rect.y_max > y_max {
            y_max = rect.y_max;
        }
        proof {
            assert(rects@.take(i + 1 as int).drop_last() =~= rects@.take(i as int));
            assert(rects@.take(i + 1 as int).last() == rects@[i as int]);
        }
        i = i + 1;
    }
    proof {
        assert(rects@.take(n as int) =~= rects@);
    }
    Rect::new(x_min, y_min, x_max, y_max)
}

/// Aggregating more rectangles only grows the covering rectangle.
pub proof fn lemma_aggregate_append(s: Seq<Rect>, t: Seq<Rect>)
    ensures
        aggregate_bounds_spec(s + t).covers(aggregate_bounds_spec(s)),
    decreases t.len(),
{
    if t.len() == 0 {
        assert(s + t =~= s);
    } else {
        assert((s + t).drop_last() =~= s + t.drop_last());
        assert((s + t).last() == t.last());
        lemma_aggregate_append(s, t.drop_last());
    }
}

/// The aggregated rectangle covers every rectangle that went into it.
pub proof fn lemma_aggregate_covers(rects: Seq<Rect>, i: int)
    requires
        0 <= i < rects.len(),
    ensures
        aggregate_bounds_spec(rects).covers(rects[i]),
    decreases rects.len(),
{
    if i == rects.len() - 1 {
    } else {
        lemma_aggregate_covers(rects.drop_last(), i);
    }
}

} // verus!
