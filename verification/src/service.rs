//! The tile service: the decision and encoding path of one tile request.
//!
//! The embedding program resolves the dataset name against the registry,
//! runs the dataset scan (file enumeration and column reads, which are
//! I/O), and hands the outcome to `tile_payload`, which owns the response
//! policy: an unknown dataset and a failed scan both degrade to an empty
//! payload rather than an error, and otherwise the scanned points are
//! filtered by the tile's bounding box, projected, and encoded.

use vstd::prelude::*;

verus! {

use vstd::utf8::encode_utf8;
use crate::geometry::TileAddress;
use crate::geometry::GeoPoint;
use crate::geometry::BoundingBox;
use crate::geometry::spec_bounds;
use crate::geometry::bounds_of;
use crate::geometry::points_in_bbox;
use crate::geometry::project_all;
use crate::geometry::filter_points;
use crate::geometry::project_points;
use crate::geometry::pts_model;
use crate::geometry::TILE_EXTENT;
use crate::mvt::tile_enc;
use crate::mvt::encode_tile;
use crate::registry::ParquetDataset;

/// What the dataset scan handed back: every point read from the dataset's
/// files, or the fact that a file could not be read.
pub enum ScanOutcome {
    Points(Vec<GeoPoint>),
    Failed,
}

/// The tile a request is answered with, as a byte sequence: one layer
/// under the dataset's name at the conventional extent, holding the
/// scanned points that lie in the tile's bounding box, projected into tile
/// space, in scan order.
pub open spec fn tile_spec(name: Seq<char>, addr: TileAddress, ps: Seq<GeoPoint>) -> Seq<u8> {
    tile_enc(
        encode_utf8(name),
        4096,
        project_all(points_in_bbox(ps, spec_bounds(addr)), spec_bounds(addr), 4096),
    )
}

/// Answers one tile request from the resolved dataset and the scan
/// outcome. An unknown dataset or a failed scan yields the empty payload,
/// never an error; otherwise the payload is exactly the encoded tile of
/// the in-bounds points.
pub fn tile_payload(dataset: Option<&ParquetDataset>, addr: &TileAddress, scan: ScanOutcome) -> (r:
    Vec<u8>)
    requires
        addr.wf(),
    ensures
        dataset is None ==> r@ == Seq::<u8>::empty(),
        dataset is Some && scan is Failed ==> r@ == Seq::<u8>::empty(),
        dataset matches Some(d) ==> (scan matches ScanOutcome::Points(ps) ==> r@ == tile_spec(
            d.name@,
            *addr,
            ps@,
        )),
{
    match dataset {
        None => Vec::new(),
        Some(d) => match scan {
            ScanOutcome::Failed => Vec::new(),
            ScanOutcome::Points(ps) => {
                let bbox: BoundingBox = bounds_of(addr);
                let kept: Vec<GeoPoint> = filter_points(&ps, &bbox);
                let proj: Vec<(i32, i32)> = project_points(&kept, &bbox, TILE_EXTENT);
                let name_bytes: Vec<u8> = vstd::slice::slice_to_vec(d.name.as_str().as_bytes());
                encode_tile(&name_bytes, TILE_EXTENT, &proj)
            },
        },
    }
}

} // verus!
