use elevation_map::codec::convert_sample;
use elevation_map::elevation_grid::ElevationGrid;
use elevation_map::{ElevationMap, Tile};

fn crc32(data: &[u8]) -> u32 {
    let mut crc: u32 = 0xFFFF_FFFF;
    for &b in data {
        crc ^= b as u32;
        for _ in 0..8 {
            if crc & 1 != 0 {
                crc = (crc >> 1) ^ 0xEDB8_8320;
            } else {
                crc >>= 1;
            }
        }
    }
    !crc
}

/// A gzip stream holding `data` in a single stored DEFLATE block.
fn gzip_bytes(data: &[u8]) -> Vec<u8> {
    assert!(data.len() < 0x10000);
    let mut out: Vec<u8> = vec![0x1f, 0x8b, 0x08, 0x00, 0, 0, 0, 0, 0x00, 0xff];
    let len = data.len() as u16;
    out.push(0x01);
    out.extend_from_slice(&len.to_le_bytes());
    out.extend_from_slice(&(!len).to_le_bytes());
    out.extend_from_slice(data);
    out.extend_from_slice(&crc32(data).to_le_bytes());
    out.extend_from_slice(&(data.len() as u32).to_le_bytes());
    out
}

fn samples_le(samples: &[i16]) -> Vec<u8> {
    let mut out = Vec::new();
    for s in samples {
        out.extend_from_slice(&s.to_le_bytes());
    }
    out
}

fn header_bytes(
    lat_min: i16,
    lat_max: i16,
    lon_min: i16,
    lon_max: i16,
    step_lat: u8,
    step_lon: u8,
    resolution: f32,
) -> Vec<u8> {
    let mut out = Vec::new();
    out.extend_from_slice(&lat_min.to_le_bytes());
    out.extend_from_slice(&lat_max.to_le_bytes());
    out.extend_from_slice(&lon_min.to_le_bytes());
    out.extend_from_slice(&lon_max.to_le_bytes());
    out.push(step_lat);
    out.push(step_lon);
    out.extend_from_slice(&resolution.to_bits().to_le_bytes());
    out
}

fn tile_record(rows: u16, columns: u16, sw_lat: i8, sw_lon: i16, payload: &[u8]) -> Vec<u8> {
    let mut out = Vec::new();
    out.extend_from_slice(&rows.to_le_bytes());
    out.extend_from_slice(&columns.to_le_bytes());
    out.push(sw_lat as u8);
    out.extend_from_slice(&sw_lon.to_le_bytes());
    out.extend_from_slice(&(payload.len() as u32).to_le_bytes());
    out.extend_from_slice(payload);
    out
}

/// One tile, `rows=2, columns=2`, southwest corner `(10, 20)`, angular steps
/// `(1, 1)`, meter samples row-major `[[0, -1], [50, 100]]`.
fn scenario_map() -> ElevationMap {
    let mut bytes = header_bytes(10, 11, 20, 21, 1, 1, 30.0);
    let payload = gzip_bytes(&samples_le(&[0, -1, 50, 100]));
    bytes.extend_from_slice(&tile_record(2, 2, 10, 20, &payload));
    ElevationMap::from_bytes(bytes).unwrap()
}

const MICRO: i64 = 1_000_000;

#[test]
fn parses_header_fields() {
    let bytes = header_bytes(-56, 60, -180, 180, 1, 2, 30.0);
    let map = ElevationMap::from_bytes(bytes).unwrap();
    assert_eq!(map.latitude_min, -56);
    assert_eq!(map.latitude_max, 60);
    assert_eq!(map.longitude_min, -180);
    assert_eq!(map.longitude_max, 180);
    assert_eq!(map.angular_steps_latitude, 1);
    assert_eq!(map.angular_steps_longitude, 2);
    assert_eq!(f32::from_bits(map.horizontal_resolution), 30.0);
    assert_eq!(map.tiles.len(), 0);
}

#[test]
fn rejects_truncated_header() {
    let bytes = vec![0u8; 13];
    assert!(ElevationMap::from_bytes(bytes).is_err());
}

#[test]
fn rejects_truncated_tile_record() {
    let mut bytes = header_bytes(0, 1, 0, 1, 1, 1, 30.0);
    bytes.extend_from_slice(&[1, 0, 1, 0, 0]);
    assert!(ElevationMap::from_bytes(bytes).is_err());
}

#[test]
fn rejects_truncated_payload() {
    let mut bytes = header_bytes(0, 1, 0, 1, 1, 1, 30.0);
    let mut record = tile_record(1, 1, 0, 0, &[0xAA, 0xBB, 0xCC]);
    // claim a longer payload than the buffer holds
    record[7] = 10;
    bytes.extend_from_slice(&record);
    assert!(ElevationMap::from_bytes(bytes).is_err());
}

#[test]
fn tile_from_bytes_reads_record_fields() {
    let record = tile_record(3, 4, -5, -300, &[9, 9]);
    let tile = Tile::from_bytes(&record, 0).unwrap();
    assert_eq!(tile.rows, 3);
    assert_eq!(tile.columns, 4);
    assert_eq!(tile.southwest_latitude, -5);
    assert_eq!(tile.southwest_longitude, -300);
    assert_eq!(tile.size, 2);
    assert_eq!(tile.data_offset, 11);
}

#[test]
fn scenario_queries() {
    let map = scenario_map();
    // (10.9, 20.1): row 0 (northernmost), column 0 -> stored 0 -> 0 feet
    assert_eq!(map.get_elevation_at(10_900_000, 20_100_000), Ok(0));
    // (10.1, 20.9): row 1, column 1 -> stored 100 m -> 328 feet
    assert_eq!(map.get_elevation_at(10_100_000, 20_900_000), Ok(328));
    // (11.0, 20.5): outside [10, 11) latitude -> no data
    assert_eq!(map.get_elevation_at(11 * MICRO, 20_500_000), Ok(-1));
}

#[test]
fn sentinel_sample_stays_no_data() {
    let map = scenario_map();
    // (10.9, 20.9): row 0, column 1 -> stored -1 stays -1
    assert_eq!(map.get_elevation_at(10_900_000, 20_900_000), Ok(-1));
}

#[test]
fn conversion_exactness() {
    assert_eq!(convert_sample(100), 328);
    assert_eq!(convert_sample(0), 0);
    assert_eq!(convert_sample(50), 164);
    assert_eq!(convert_sample(-1), -1);
    assert_eq!(convert_sample(-2), -7);
    assert_eq!(convert_sample(8849), 29032);
}

#[test]
fn boundary_semantics() {
    let map = scenario_map();
    // the southwest corner is included: row 1, column 0 -> 50 m -> 164 feet
    assert_eq!(map.get_elevation_at(10 * MICRO, 20 * MICRO), Ok(164));
    // the northeast corner is excluded
    assert_eq!(map.get_elevation_at(11 * MICRO, 21 * MICRO), Ok(-1));
    // just inside the northeast corner is included: row 0, column 1 -> -1
    assert_eq!(map.get_elevation_at(10_999_999, 20_999_999), Ok(-1));
}

#[test]
fn no_match_returns_sentinel() {
    let map = scenario_map();
    assert_eq!(map.get_elevation_at(50 * MICRO, 120 * MICRO), Ok(-1));
    assert_eq!(map.get_elevation_at(-10 * MICRO, 20_500_000), Ok(-1));
}

#[test]
fn raster_round_trip() {
    let meters: [i16; 6] = [0, -1, 50, 100, -3, 8849];
    let feet: [i16; 6] = [0, -1, 164, 328, -10, 29032];
    let mut bytes = header_bytes(0, 2, 0, 3, 2, 3, 30.0);
    let payload = gzip_bytes(&samples_le(&meters));
    bytes.extend_from_slice(&tile_record(2, 3, 0, 0, &payload));
    let map = ElevationMap::from_bytes(bytes).unwrap();
    assert_eq!(map.tiles.len(), 1);
    let grid = map.tiles[0]
        .load_elevation_grid(&map.buffer, map.angular_steps_latitude, map.angular_steps_longitude)
        .unwrap();
    assert_eq!(grid.rows, 2);
    assert_eq!(grid.columns, 3);
    assert_eq!(grid.elevation_map, feet.to_vec());
    assert_eq!(grid.southwest_latitude, 0);
    assert_eq!(grid.northeast_latitude, 2 * MICRO);
    assert_eq!(grid.southwest_longitude, 0);
    assert_eq!(grid.northeast_longitude, 3 * MICRO);
}

#[test]
fn corrupt_payload_is_decompression_error() {
    let mut bytes = header_bytes(0, 1, 0, 1, 1, 1, 30.0);
    bytes.extend_from_slice(&tile_record(1, 1, 0, 0, &[0xDE, 0xAD, 0xBE, 0xEF]));
    let map = ElevationMap::from_bytes(bytes).unwrap();
    assert!(map.get_elevation_at(500_000, 500_000).is_err());
}

#[test]
fn bad_checksum_is_decompression_error() {
    let mut payload = gzip_bytes(&samples_le(&[7]));
    let n = payload.len();
    payload[n - 5] ^= 0xFF; // corrupt the stored CRC32
    let mut bytes = header_bytes(0, 1, 0, 1, 1, 1, 30.0);
    bytes.extend_from_slice(&tile_record(1, 1, 0, 0, &payload));
    let map = ElevationMap::from_bytes(bytes).unwrap();
    assert!(map.get_elevation_at(500_000, 500_000).is_err());
}

#[test]
fn wrong_decompressed_length_is_decompression_error() {
    // a 2x2 tile whose payload holds only one sample
    let mut bytes = header_bytes(0, 1, 0, 1, 1, 1, 30.0);
    let payload = gzip_bytes(&samples_le(&[7]));
    bytes.extend_from_slice(&tile_record(2, 2, 0, 0, &payload));
    let map = ElevationMap::from_bytes(bytes).unwrap();
    assert!(map.get_elevation_at(500_000, 500_000).is_err());
}

#[test]
fn first_matching_tile_wins() {
    let mut bytes = header_bytes(0, 1, 0, 1, 1, 1, 30.0);
    let first = gzip_bytes(&samples_le(&[100]));
    let second = gzip_bytes(&samples_le(&[50]));
    bytes.extend_from_slice(&tile_record(1, 1, 0, 0, &first));
    bytes.extend_from_slice(&tile_record(1, 1, 0, 0, &second));
    let map = ElevationMap::from_bytes(bytes).unwrap();
    assert_eq!(map.tiles.len(), 2);
    assert_eq!(map.get_elevation_at(500_000, 500_000), Ok(328));
}

#[test]
fn multi_tile_map_selects_by_box() {
    let mut bytes = header_bytes(10, 12, 20, 21, 1, 1, 30.0);
    let south = gzip_bytes(&samples_le(&[100]));
    let north = gzip_bytes(&samples_le(&[50]));
    bytes.extend_from_slice(&tile_record(1, 1, 10, 20, &south));
    bytes.extend_from_slice(&tile_record(1, 1, 11, 20, &north));
    let map = ElevationMap::from_bytes(bytes).unwrap();
    assert_eq!(map.get_elevation_at(10_500_000, 20_500_000), Ok(328));
    assert_eq!(map.get_elevation_at(11_500_000, 20_500_000), Ok(164));
}

#[test]
fn world_to_grid_indices_is_north_up() {
    let grid = ElevationGrid::new(10 * MICRO, 20 * MICRO, 11 * MICRO, 21 * MICRO, 2, 2);
    assert_eq!(grid.world_to_grid_indices(10_900_000, 20_100_000), (0, 0));
    assert_eq!(grid.world_to_grid_indices(10_100_000, 20_900_000), (1, 1));
    assert_eq!(grid.world_to_grid_indices(10 * MICRO, 20 * MICRO), (1, 0));
}

#[test]
fn new_grid_is_zero_filled() {
    let grid = ElevationGrid::new(0, 0, MICRO, MICRO, 3, 4);
    assert_eq!(grid.rows, 3);
    assert_eq!(grid.columns, 4);
    assert_eq!(grid.elevation_map, vec![0i16; 12]);
}
