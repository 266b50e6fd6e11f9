//! Tabular presentation contract: a record type names its columns and
//! renders one row of string cells per record. The display layer only
//! reads the headers and the cells.

use vstd::prelude::*;
use crate::parcels::Owner;

verus! {

/// A record that can stand in a table: its column headers and, per
/// record, the stringified cells in header order.
pub trait Columnar {
    /// The column headers, in display order.
    fn headers() -> Vec<String>;

    /// The cells of this record, in header order.
    fn values(&self) -> Vec<String>;
}

impl Columnar for Owner {
    /// The two columns of an ownership record.
    fn headers() -> (r: Vec<String>)
        ensures
            r@.len() == 2,
    {
        let mut out: Vec<String> = Vec::new();
        out.push("Owner".to_owned());
        out.push("Map #".to_owned());
        out
    }

    /// The owner's name, or a placeholder where it is absent, and the
    /// map identifier.
    fn values(&self) -> (r: Vec<String>)
        ensures
            r@.len() == 2,
            r@[0]@ == match crate::parcels::opt_view(self.name) {
                Some(n) => n,
                None => "None"@,
            },
            r@[1]@ == self.id@,
    {
        let mut out: Vec<String> = Vec::new();
        match &self.name {
            Some(name) => {
                out.push(name.clone());
            },
            None => {
                out.push("None".to_owned());
            },
        }
        out.push(self.id.clone());
        out
    }
}

} // verus!
