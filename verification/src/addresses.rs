//! Address records: rows of an address roll, their derived point
//! geometry with a fixed proximity box, and batch ingestion from
//! delimited text with per-row drop accounting.

use vstd::prelude::*;
use crate::decimal::{fixed_of, lemma_fixed_of_range};
use crate::error::DataError;
use crate::geometry::{coord_ok, Point, Rect};
use crate::text::str_eq;
use crate::utils::{csv_table_of, from_csv, point_bounds, point_bounds_spec, CsvTable};

verus! {

/// The proximity buffer around an address point: five hundredths of a
/// map unit, in fixed-point coordinate steps.
pub const ADDRESS_BUFFER: i64 = 50_000;

/// Mathematical model of an address row.
#[verifier::ext_equal]
pub struct AddressV {
    pub label: Seq<char>,
    pub status: Seq<char>,
    pub lat: i64,
    pub lon: i64,
    pub x: i64,
    pub y: i64,
}

/// One source address record: display label, status, geographic
/// latitude/longitude and projected planar coordinates, all fixed
/// point. Built once by ingestion and never mutated.
#[derive(Debug, PartialEq)]
pub struct Address {
    pub label: String,
    pub status: String,
    pub lat: i64,
    pub lon: i64,
    pub x: i64,
    pub y: i64,
}

impl View for Address {
    type V = AddressV;

    open spec fn view(&self) -> AddressV {
        AddressV {
            label: self.label@,
            status: self.status@,
            lat: self.lat,
            lon: self.lon,
            x: self.x,
            y: self.y,
        }
    }
}

impl Clone for Address {
    /// Clones the record, keeping every field.
    fn clone(&self) -> (r: Self)
        ensures
            r@ == self@,
    {
        let r = Address {
            label: self.label.clone(),
            status: self.status.clone(),
            lat: self.lat,
            lon: self.lon,
            x: self.x,
            y: self.y,
        };
        proof {
            assert(r@ =~= self@);
        }
        r
    }
}

impl Address {
    /// All four coordinates lie in the engine's working range.
    pub open spec fn wf(self) -> bool {
        coord_ok(self.lat) && coord_ok(self.lon) && coord_ok(self.x) && coord_ok(self.y)
    }
}

/// Index of the first header equal to `name` at or after `i`.
pub open spec fn col_index(headers: Seq<Seq<char>>, name: Seq<char>, i: int) -> Option<int>
    decreases headers.len() - i,
{
    if i < 0 || i >= headers.len() {
        None
    } else if headers[i] == name {
        Some(i)
    } else {
        col_index(headers, name, i + 1)
    }
}

/// The column scan lands on the first match.
proof fn lemma_col_index_at(headers: Seq<Seq<char>>, name: Seq<char>, i: int, m: int)
    requires
        0 <= i <= m <= headers.len(),
        forall|k: int| i <= k < m ==> headers[k] != name,
        m == headers.len() || headers[m] == name,
    ensures
        col_index(headers, name, i) == if m == headers.len() {
            None::<int>
        } else {
            Some(m)
        },
    decreases m - i,
{
    if i < m {
        lemma_col_index_at(headers, name, i + 1, m);
    }
}

/// Finds the first column whose header equals `name`.
pub fn find_column(headers: &Vec<String>, name: &str) -> (r: Option<usize>)
    ensures
        match r {
            Some(i) => col_index(headers@.map_values(|f: String| f@), name@, 0) == Some(i as int),
            None => col_index(headers@.map_values(|f: String| f@), name@, 0) is None,
        },
{
    let ghost hv = headers@.map_values(|f: String| f@);
    let n = headers.len();
    let mut i: usize = 0;
    while i < n
        invariant
            i <= n,
            n == headers@.len(),
            hv == headers@.map_values(|f: String| f@),
            forall|k: int| 0 <= k < i ==> hv[k] != name@,
        decreases n - i,
    {
        if str_eq(headers[i].as_str(), name) {
            proof {
                lemma_col_index_at(hv, name@, 0, i as int);
            }
            return Some(i);
        }
        i = i + 1;
    }
    proof {
        lemma_col_index_at(hv, name@, 0, n as int);
    }
    None
}

/// The address a data row carries, under the header-driven column
/// mapping: `None` when a mandatory column is missing from the header,
/// the row is too short, or a coordinate field does not parse.
pub open spec fn row_address(headers: Seq<Seq<char>>, fields: Seq<Seq<char>>) -> Option<AddressV> {
    let cols = (
        col_index(headers, "FULLADDRES"@, 0),
        col_index(headers, "STATUS"@, 0),
        col_index(headers, "wgs84_y"@, 0),
        col_index(headers, "wgs84_x"@, 0),
        col_index(headers, "espg3857_x"@, 0),
        col_index(headers, "espg3857_y"@, 0),
    );
    match cols {
        (Some(l), Some(st), Some(la), Some(lo), Some(xc), Some(yc)) => {
            if l < fields.len() && st < fields.len() && la < fields.len() && lo < fields.len()
                && xc < fields.len() && yc < fields.len() {
                match (fixed_of(fields[la]), fixed_of(fields[lo]), fixed_of(fields[xc]), fixed_of(
                    fields[yc],
                )) {
                    (Some(lat), Some(lon), Some(x), Some(y)) => Some(
                        AddressV { label: fields[l], status: fields[st], lat, lon, x, y },
                    ),
                    _ => None,
                }
            } else {
                None
            }
        },
        _ => None,
    }
}

/// The addresses of a table's data rows, in row order: rows that fail
/// row-level reading or the typed mapping are dropped.
pub open spec fn addresses_of(headers: Seq<Seq<char>>, rows: Seq<Option<Seq<Seq<char>>>>) -> Seq<
    AddressV,
>
    decreases rows.len(),
{
    if rows.len() == 0 {
        Seq::empty()
    } else {
        addresses_of(headers, rows.drop_last()) + match rows.last() {
            Some(fields) => match row_address(headers, fields) {
                Some(a) => seq![a],
                None => Seq::<AddressV>::empty(),
            },
            None => Seq::<AddressV>::empty(),
        }
    }
}

/// An ordered collection of address records, in source row order.
#[derive(Debug, PartialEq)]
pub struct Addresses {
    pub records: Vec<Address>,
}

impl View for Addresses {
    type V = Seq<AddressV>;

    open spec fn view(&self) -> Seq<AddressV> {
        self.records@.map_values(|a: Address| a@)
    }
}

impl Addresses {
    /// Maps every data row of a table into an address under the
    /// header-driven column mapping; a row that fails is dropped and
    /// counted, and the second result is the exact count of drops.
    pub fn from_rows(table: &CsvTable) -> (r: (Addresses, usize))
        ensures
            r.0@ == addresses_of(table@.headers, table@.rows),
            r.1 + r.0@.len() == table@.rows.len(),
            forall|i: int| 0 <= i < r.0.records@.len() ==> (#[trigger] r.0.records@[i]).wf(),
    {
        let ghost hv = table@.headers;
        let ghost rv = table@.rows;
        let li = find_column(&table.headers, "FULLADDRES");
        let si = find_column(&table.headers, "STATUS");
        let lati = find_column(&table.headers, "wgs84_y");
        let loni = find_column(&table.headers, "wgs84_x");
        let xi = find_column(&table.headers, "espg3857_x");
        let yi = find_column(&table.headers, "espg3857_y");
        let mut records: Vec<Address> = Vec::new();
        let mut dropped: usize = 0;
        let n = table.rows.len();
        let mut i: usize = 0;
        while i < n
            invariant
                i <= n,
                n == table.rows@.len(),
                hv == table@.headers,
                rv == table@.rows,
                match li {
                    Some(c) => col_index(hv, "FULLADDRES"@, 0) == Some(c as int),
                    None => col_index(hv, "FULLADDRES"@, 0) is None,
                },
                match si {
                    Some(c) => col_index(hv, "STATUS"@, 0) == Some(c as int),
                    None => col_index(hv, "STATUS"@, 0) is None,
                },
                match lati {
                    Some(c) => col_index(hv, "wgs84_y"@, 0) == Some(c as int),
                    None => col_index(hv, "wgs84_y"@, 0) is None,
                },
                match loni {
                    Some(c) => col_index(hv, "wgs84_x"@, 0) == Some(c as int),
                    None => col_index(hv, "wgs84_x"@, 0) is None,
                },
                match xi {
                    Some(c) => col_index(hv, "espg3857_x"@, 0) == Some(c as int),
                    None => col_index(hv, "espg3857_x"@, 0) is None,
                },
                match yi {
                    Some(c) => col_index(hv, "espg3857_y"@, 0) == Some(c as int),
                    None => col_index(hv, "espg3857_y"@, 0) is None,
                },
                records@.map_values(|a: Address| a@) =~= addresses_of(hv, rv.take(i as int)),
                dropped + records@.len() == i,
                forall|k: int| 0 <= k < records@.len() ==> (#[trigger] records@[k]).wf(),
            decreases n - i,
        {
            proof {
                assert(rv.take(i + 1 as int).drop_last() =~= rv.take(i as int));
                assert(rv.take(i + 1 as int).last() == rv[i as int]);
                assert(rv[i as int] == table.rows@[i as int]@);
            }
            let parsed: Option<Address> = match &table.rows[i].fields {
                Some(fields) => {
                    proof {
                        assert(rv[i as int] == Some(fields@.map_values(|f: String| f@)));
                    }
                    Self::parse_row(fields, li, si, lati, loni, xi, yi, Ghost(hv))
                },
                None => None,
            };
            match parsed {
                Some(address) => {
                    records.push(address);
                },
                None => {
                    proof {
                        assert(dropped < n);
                    }
                    dropped = dropped + 1;
                },
            }
            i = i + 1;
        }
        proof {
            assert(rv.take(n as int) =~= rv);
        }
        (Addresses { records }, dropped)
    }

    /// Maps one data row into an address, if the header carries all six
    /// mandatory columns, the row is long enough, and every coordinate
    /// field parses.
    fn parse_row(
        fields: &Vec<String>,
        li: Option<usize>,
        si: Option<usize>,
        lati: Option<usize>,
        loni: Option<usize>,
        xi: Option<usize>,
        yi: Option<usize>,
        Ghost(hv): Ghost<Seq<Seq<char>>>,
    ) -> (r: Option<Address>)
        requires
            match li {
                Some(c) => col_index(hv, "FULLADDRES"@, 0) == Some(c as int),
                None => col_index(hv, "FULLADDRES"@, 0) is None,
            },
            match si {
                Some(c) => col_index(hv, "STATUS"@, 0) == Some(c as int),
                None => col_index(hv, "STATUS"@, 0) is None,
            },
            match lati {
                Some(c) => col_index(hv, "wgs84_y"@, 0) == Some(c as int),
                None => col_index(hv, "wgs84_y"@, 0) is None,
            },
            match loni {
                Some(c) => col_index(hv, "wgs84_x"@, 0) == Some(c as int),
                None => col_index(hv, "wgs84_x"@, 0) is None,
            },
            match xi {
                Some(c) => col_index(hv, "espg3857_x"@, 0) == Some(c as int),
                None => col_index(hv, "espg3857_x"@, 0) is None,
            },
            match yi {
                Some(c) => col_index(hv, "espg3857_y"@, 0) == Some(c as int),
                None => col_index(hv, "espg3857_y"@, 0) is None,
            },
        ensures
            match r {
                Some(a) => row_address(hv, fields@.map_values(|f: String| f@)) == Some(a@) && a.wf(),
                None => row_address(hv, fields@.map_values(|f: String| f@)) is None,
            },
    {
        let ghost fv = fields@.map_values(|f: String| f@);
        if let (Some(l), Some(st), Some(la), Some(lo), Some(xc), Some(yc)) = (
            li,
            si,
            lati,
            loni,
            xi,
            yi,
        ) {
            let len = fields.len();
            if l < len && st < len && la < len && lo < len && xc < len && yc < len {
                let lat = crate::decimal::parse_fixed(fields[la].as_str());
                let lon = crate::decimal::parse_fixed(fields[lo].as_str());
                let x = crate::decimal::parse_fixed(fields[xc].as_str());
                let y = crate::decimal::parse_fixed(fields[yc].as_str());
                if let (Some(lat), Some(lon), Some(x), Some(y)) = (lat, lon, x, y) {
                    proof {
                        lemma_fixed_of_range(fv[la as int]);
                        lemma_fixed_of_range(fv[lo as int]);
                        lemma_fixed_of_range(fv[xc as int]);
                        lemma_fixed_of_range(fv[yc as int]);
                    }
                    let a = Address {
                        label: fields[l].clone(),
                        status: fields[st].clone(),
                        lat,
                        lon,
                        x,
                        y,
                    };
                    proof {
                        assert(a@ =~= row_address(hv, fv)->0);
                    }
                    Some(a)
                } else {
                    None
                }
            } else {
                None
            }
        } else {
            None
        }
    }

    /// Reads an address collection from the raw bytes of a delimited
    /// text file: an unreadable header is fatal, a bad row is dropped
    /// and counted.
    pub fn from_csv(bytes: &Vec<u8>) -> (r: Result<(Addresses, usize), DataError>)
        ensures
            csv_table_of(bytes@) matches Some(t) ==> (r matches Ok(pair) && pair.0@
                == addresses_of(t.headers, t.rows) && pair.1 + pair.0@.len() == t.rows.len()),
            csv_table_of(bytes@) is None ==> r == Err::<(Addresses, usize), DataError>(
                DataError::Csv,
            ),
    {
        let table = from_csv(bytes)?;
        Ok(Self::from_rows(&table))
    }
}

/// Mathematical model of a derived address point.
#[verifier::ext_equal]
pub struct AddressPointV {
    pub address: AddressV,
    pub geometry: Point,
    pub bounds: Rect,
    pub selected: bool,
}

/// The address point an address converts to: its projected planar
/// coordinates as a point, expanded by the fixed proximity buffer.
pub open spec fn address_point_of(a: AddressV) -> AddressPointV {
    AddressPointV {
        address: a,
        geometry: Point { x: a.x, y: a.y },
        bounds: point_bounds_spec(Point { x: a.x, y: a.y }, ADDRESS_BUFFER),
        selected: false,
    }
}

/// A derived address point: the source record, its planar point
/// geometry, the proximity box around it, and a selection flag owned
/// by the display layer.
#[derive(Debug, Clone, PartialEq)]
pub struct AddressPoint {
    pub address: Address,
    pub geometry: Point,
    pub bounds: Rect,
    pub selected: bool,
}

impl View for AddressPoint {
    type V = AddressPointV;

    open spec fn view(&self) -> AddressPointV {
        AddressPointV {
            address: self.address@,
            geometry: self.geometry,
            bounds: self.bounds,
            selected: self.selected,
        }
    }
}

impl AddressPoint {
    /// Derives an address point: the geometry is the projected planar
    /// point, the bounds expand it by the fixed buffer on all sides,
    /// and the point starts unselected. The bounds always contain the
    /// geometry.
    pub fn from(address: Address) -> (r: AddressPoint)
        ensures
            r@ == address_point_of(address@),
            r.address == address,
            r.bounds.contains_spec(r.geometry),
    {
        let geometry = Point::new(address.x, address.y);
        let bounds = point_bounds(&geometry, ADDRESS_BUFFER);
        proof {
            crate::utils::lemma_point_bounds_contain(geometry, ADDRESS_BUFFER);
        }
        let r = AddressPoint { address, geometry, bounds, selected: false };
        proof {
            assert(r@ =~= address_point_of(r.address@));
        }
        r
    }

    /// Decides whether `point` lies within `tolerance` of the address
    /// point: first the inclusive bounding-rectangle test, and only
    /// when that passes the exact squared-distance test.
    pub fn is_point_inside(&self, point: &Point, tolerance: i64) -> (r: bool)
        requires
            self.geometry.wf(),
            point.wf(),
        ensures
            r == (self.bounds.contains_spec(*point) && self.geometry.within_tolerance(
                *point,
                tolerance,
            )),
            self.bounds == point_bounds_spec(self.geometry, ADDRESS_BUFFER) && -ADDRESS_BUFFER
                <= tolerance <= ADDRESS_BUFFER ==> r == self.geometry.within_tolerance(
                *point,
                tolerance,
            ),
    {
        proof {
            if self.bounds == point_bounds_spec(self.geometry, ADDRESS_BUFFER) && -ADDRESS_BUFFER
                <= tolerance <= ADDRESS_BUFFER {
                lemma_address_point_pruning(*self, *point, tolerance);
            }
        }
        if !self.bounds.contains(point) {
            return false;
        }
        self.geometry.is_point_inside(point, tolerance)
    }

    /// The precomputed bounding rectangle of the address point.
    pub fn bounding_rectangle(&self) -> (r: Option<Rect>)
        ensures
            r == Some(self.bounds),
    {
        Some(self.bounds)
    }
}

/// Pruning equivalence for address points: as long as the tolerance
/// does not exceed the proximity buffer in magnitude, the two-step
/// query (bounding rectangle first, then the exact distance test)
/// answers exactly as the exact test alone.
pub proof fn lemma_address_point_pruning(ap: AddressPoint, point: Point, tolerance: i64)
    requires
        ap.bounds == point_bounds_spec(ap.geometry, ADDRESS_BUFFER),
        -ADDRESS_BUFFER <= tolerance <= ADDRESS_BUFFER,
    ensures
        (ap.bounds.contains_spec(point) && ap.geometry.within_tolerance(point, tolerance))
            == ap.geometry.within_tolerance(point, tolerance),
{
    if ap.geometry.within_tolerance(point, tolerance) {
        let g = ap.geometry;
        assert(g.x - ADDRESS_BUFFER < point.x < g.x + ADDRESS_BUFFER && g.y - ADDRESS_BUFFER
            < point.y < g.y + ADDRESS_BUFFER) by (nonlinear_arith)
            requires
                (g.x - point.x) * (g.x - point.x) + (g.y - point.y) * (g.y - point.y) < tolerance
                    * tolerance,
                -ADDRESS_BUFFER <= tolerance <= ADDRESS_BUFFER,
                ADDRESS_BUFFER == 50_000,
        ;
    }
}

/// An ordered collection of derived address points, in source row
/// order.
#[derive(Debug, Clone, PartialEq)]
pub struct AddressPoints {
    pub records: Vec<AddressPoint>,
}

impl View for AddressPoints {
    type V = Seq<AddressPointV>;

    open spec fn view(&self) -> Seq<AddressPointV> {
        self.records@.map_values(|p: AddressPoint| p@)
    }
}

impl AddressPoints {
    /// Derives one address point per address, in order.
    pub fn from(addresses: Addresses) -> (r: AddressPoints)
        ensures
            r@ == addresses@.map_values(|a: AddressV| address_point_of(a)),
    {
        let ghost av = addresses@;
        let mut records: Vec<AddressPoint> = Vec::new();
        let n = addresses.records.len();
        let mut i: usize = 0;
        while i < n
            invariant
                i <= n,
                n == addresses.records@.len(),
                av == addresses@,
                records@.map_values(|p: AddressPoint| p@) =~= av.take(i as int).map_values(
                    |a: AddressV| address_point_of(a),
                ),
            decreases n - i,
        {
            let address = addresses.records[i].clone();
            proof {
                assert(address@ == av[i as int]);
                assert(av.take(i + 1 as int).drop_last() =~= av.take(i as int));
                assert(av.take(i + 1 as int).last() == av[i as int]);
                assert(av.take(i + 1 as int).map_values(|a: AddressV| address_point_of(a)) =~=
                av.take(i as int).map_values(|a: AddressV| address_point_of(a)).push(
                    address_point_of(av[i as int]),
                ));
            }
            records.push(AddressPoint::from(address));
            i = i + 1;
        }
        proof {
            assert(av.take(n as int) =~= av);
        }
        AddressPoints { records }
    }
}

} // verus!
