use mvt_tiles::geometry::{GeoPoint, TileAddress};
use mvt_tiles::mvt::decode_tile;
use mvt_tiles::registry::{find_dataset, ParquetDataset};
use mvt_tiles::service::{tile_payload, ScanOutcome};

fn dataset(name: &str) -> ParquetDataset {
    ParquetDataset {
        name: name.to_string(),
        directory: format!("/data/{name}"),
        lat_col: "lat".to_string(),
        lon_col: "lon".to_string(),
    }
}

#[test]
fn registry_finds_by_name() {
    let datasets = vec![dataset("roads"), dataset("poi")];
    let found = find_dataset(&datasets, &"poi".to_string()).expect("a known dataset");
    assert_eq!(found.name, "poi");
    assert_eq!(found.directory, "/data/poi");
}

#[test]
fn registry_unknown_name_is_none() {
    let datasets = vec![dataset("roads"), dataset("poi")];
    assert!(find_dataset(&datasets, &"nonexistent".to_string()).is_none());
    assert!(find_dataset(&Vec::new(), &"poi".to_string()).is_none());
}

#[test]
fn registry_first_match_wins() {
    let mut first = dataset("poi");
    first.directory = "/data/first".to_string();
    let mut second = dataset("poi");
    second.directory = "/data/second".to_string();
    let datasets = vec![dataset("roads"), first, second];
    let found = find_dataset(&datasets, &"poi".to_string()).expect("a known dataset");
    assert_eq!(found.directory, "/data/first");
}

#[test]
fn unknown_dataset_yields_empty_payload() {
    // an unknown dataset is "no data", not an error, at any address
    let datasets = vec![dataset("roads")];
    for &(z, x, y) in &[(0u32, 0u32, 0u32), (3, 1, 2), (11, 1024, 998)] {
        let addr = TileAddress { z, x, y };
        let found = find_dataset(&datasets, &"nonexistent".to_string());
        let body = tile_payload(found, &addr, ScanOutcome::Points(Vec::new()));
        assert!(body.is_empty());
    }
}

#[test]
fn failed_scan_degrades_to_empty_payload() {
    let ds = dataset("poi");
    let addr = TileAddress { z: 2, x: 2, y: 1 };
    let body = tile_payload(Some(&ds), &addr, ScanOutcome::Failed);
    assert!(body.is_empty());
}

#[test]
fn empty_scan_yields_a_valid_empty_tile() {
    let ds = dataset("poi");
    let addr = TileAddress { z: 2, x: 2, y: 1 };
    let body = tile_payload(Some(&ds), &addr, ScanOutcome::Points(Vec::new()));
    let (name, extent, pts) = decode_tile(&body).expect("a well-formed tile");
    assert_eq!(name, b"poi".to_vec());
    assert_eq!(extent, 4096);
    assert!(pts.is_empty());
}

#[test]
fn one_file_two_points_one_in_tile() {
    // the dataset holds (10.0, 45.0) and (170.0, -80.0); the tile covering
    // only the first point yields exactly one feature, near its relative
    // position in the tile
    let ds = dataset("poi");
    let addr = TileAddress { z: 2, x: 2, y: 1 };
    let scanned = vec![
        GeoPoint { lon_e7: 100_000_000, lat_e7: 450_000_000 },
        GeoPoint { lon_e7: 1_700_000_000, lat_e7: -800_000_000 },
    ];
    let body = tile_payload(Some(&ds), &addr, ScanOutcome::Points(scanned));
    let (name, extent, pts) = decode_tile(&body).expect("a well-formed tile");
    assert_eq!(name, b"poi".to_vec());
    assert_eq!(extent, 4096);
    assert_eq!(pts, vec![(455, 1324)]);
}

#[test]
fn both_points_in_world_tile() {
    let ds = dataset("poi");
    let addr = TileAddress { z: 0, x: 0, y: 0 };
    let scanned = vec![
        GeoPoint { lon_e7: 100_000_000, lat_e7: 450_000_000 },
        GeoPoint { lon_e7: 1_700_000_000, lat_e7: -800_000_000 },
    ];
    let body = tile_payload(Some(&ds), &addr, ScanOutcome::Points(scanned));
    let (_, _, pts) = decode_tile(&body).expect("a well-formed tile");
    assert_eq!(pts.len(), 2);
}
