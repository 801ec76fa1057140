//! Verified core of a vector-tile server for point datasets.
//!
//! The library covers the tile-generation pipeline: converting a slippy-map
//! tile address into a geographic bounding box, selecting the points of a
//! dataset that fall inside that box, projecting them into tile-local integer
//! coordinates, and serializing them as a Mapbox-vector-tile payload.
//! Coordinates are carried as fixed-point degrees (units of 1e-7 degree), so
//! every step is exact integer arithmetic with proved bounds; the process
//! boundary (HTTP, parquet scans, configuration files) converts to and from
//! this representation.

pub mod config;
pub mod geometry;
pub mod mvt;
pub mod registry;
pub mod service;
pub mod varint;
