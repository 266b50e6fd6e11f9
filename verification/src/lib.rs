//! A small geospatial engine: ingestion of address rolls and parcel
//! polygons, conversion into a cartesian contour/polygon representation
//! with precomputed bounding rectangles, bounding-box accelerated
//! point queries, and a binary cache for converted collections.
//!
//! Coordinates are fixed-point integers: one map unit is `COORD_SCALE`
//! coordinate steps, so fractional map positions are exact values.

pub mod addresses;
pub mod codec;
pub mod controls;
pub mod convert;
pub mod decimal;
pub mod error;
pub mod geometry;
pub mod panel;
pub mod parcels;
pub mod table;
pub mod text;
pub mod utils;
pub mod winding;
pub mod wire;
