pub mod codec;
pub mod elevation_grid;
pub mod inflate;

use vstd::prelude::*;

use crate::codec::{
    converted_samples, le16, le32, read_i16_le, read_i8, read_u16_le, read_u32_le, convert_sample,
    sample_at, signed16, signed8, to_feet,
};
use crate::elevation_grid::{column_of, row_of, ElevationGrid};
use crate::inflate::{decompress_gzip, gunzip};
use vstd::slice::slice_subrange;

verus! {

/// The buffer is truncated or malformed: a header or tile-record read would
/// run past its end. Surfaced at construction time.
#[derive(Clone, Copy, Debug, PartialEq, Eq)]
pub struct FormatError;

/// A tile payload failed to decompress, or decompressed to an unexpected
/// byte count. Surfaced at query time for the tile being loaded.
#[derive(Clone, Copy, Debug, PartialEq, Eq)]
pub struct DecompressionError;

/// Whole degrees in micro-degree fixed point.
pub open spec fn micro(degrees: int) -> int {
    degrees * 1_000_000
}

/// Metadata for one rectangular patch of samples: its southwest corner in
/// whole degrees, its raster dimensions, and the offset and length of its
/// compressed payload inside the buffer its map owns.
#[derive(Clone, Copy)]
pub struct Tile {
    pub rows: u16,
    pub columns: u16,
    pub southwest_latitude: i8,
    pub southwest_longitude: i16,
    pub size: u32,
    pub data_offset: usize,
}

/// The tile whose 11-byte record starts at byte offset `off`:
/// `rows:u16, columns:u16, southwest_latitude:i8, southwest_longitude:i16,
/// payload_size:u32`, all little-endian, followed by the payload itself.
pub open spec fn spec_tile(b: Seq<u8>, off: int) -> Tile {
    Tile {
        rows: le16(b, off) as u16,
        columns: le16(b, off + 2) as u16,
        southwest_latitude: signed8(b[off + 4] as int) as i8,
        southwest_longitude: signed16(le16(b, off + 5)) as i16,
        size: le32(b, off + 7) as u32,
        data_offset: (off + 11) as usize,
    }
}

/// The tiles whose records fill the buffer from `off` to its end, each
/// record followed immediately by the next; `None` when the remaining bytes
/// do not form a whole number of complete records.
pub open spec fn spec_tiles(b: Seq<u8>, off: int) -> Option<Seq<Tile>>
    decreases b.len() - off,
{
    if off == b.len() {
        Some(Seq::empty())
    } else if off + 11 > b.len() {
        None
    } else {
        let t = spec_tile(b, off);
        if off + 11 + t.size > b.len() {
            None
        } else {
            match spec_tiles(b, off + 11 + t.size) {
                Some(rest) => Some(seq![t] + rest),
                None => None,
            }
        }
    }
}

impl Tile {
    /// The tile's compressed payload: the byte range it references.
    pub open spec fn payload(self, b: Seq<u8>) -> Seq<u8> {
        b.subrange(self.data_offset as int, self.data_offset + self.size)
    }

    /// Whether the payload range lies inside the buffer.
    pub open spec fn in_buffer(self, b: Seq<u8>) -> bool {
        self.data_offset + self.size <= b.len()
    }

    /// Half-open containment: the point lies in
    /// `[southwest, southwest + step)` on both axes, in micro-degrees.
    pub open spec fn contains(self, step_lat: u8, step_lon: u8, lat: int, lon: int) -> bool {
        &&& micro(self.southwest_latitude as int) <= lat < micro(
            self.southwest_latitude + step_lat,
        )
        &&& micro(self.southwest_longitude as int) <= lon < micro(
            self.southwest_longitude + step_lon,
        )
    }

    /// Whether `g` is the grid this tile decompresses to, under the given
    /// angular steps: corners at the tile's box in micro-degrees, and the
    /// payload's samples converted from meters to feet, row-major.
    pub open spec fn is_grid_of(self, g: ElevationGrid, b: Seq<u8>, step_lat: u8, step_lon: u8) -> bool {
        &&& gunzip(self.payload(b)) is Some
        &&& gunzip(self.payload(b)).unwrap().len() == self.rows * self.columns * 2
        &&& g.southwest_latitude == micro(self.southwest_latitude as int)
        &&& g.southwest_longitude == micro(self.southwest_longitude as int)
        &&& g.northeast_latitude == micro(self.southwest_latitude + step_lat)
        &&& g.northeast_longitude == micro(self.southwest_longitude + step_lon)
        &&& g.rows == self.rows
        &&& g.columns == self.columns
        &&& g.elevation_map@ == converted_samples(
            gunzip(self.payload(b)).unwrap(),
            self.rows * self.columns,
        )
    }

    /// Decodes the 11-byte tile record at `start_offset`, checking that the
    /// record and its payload lie inside the buffer.
    pub fn from_bytes(bytes: &Vec<u8>, start_offset: usize) -> (r: Result<Tile, FormatError>)
        ensures
            match r {
                Ok(t) => {
                    &&& start_offset + 11 <= bytes@.len()
                    &&& t == spec_tile(bytes@, start_offset as int)
                    &&& t.in_buffer(bytes@)
                },
                Err(_) => start_offset + 11 > bytes@.len() || start_offset + 11 + spec_tile(
                    bytes@,
                    start_offset as int,
                ).size > bytes@.len(),
            },
    {
        let n: usize = bytes.len();
        if start_offset > n || n - start_offset < 11 {
            return Err(FormatError);
        }
        let rows = read_u16_le(bytes, start_offset);
        let columns = read_u16_le(bytes, start_offset + 2);
        let southwest_latitude = read_i8(bytes, start_offset + 4);
        let southwest_longitude = read_i16_le(bytes, start_offset + 5);
        let size = read_u32_le(bytes, start_offset + 7);
        let data_offset = start_offset + 11;
        if (size as u64) > (n - data_offset) as u64 {
            return Err(FormatError);
        }
        Ok(Tile { rows, columns, southwest_latitude, southwest_longitude, size, data_offset })
    }

    /// Decompresses the tile's payload into a fresh grid: `rows * columns`
    /// signed little-endian 16-bit meter samples, row-major, each converted
    /// to feet (the `-1` sentinel unchanged). The owning map's angular steps
    /// are passed in explicitly; they give the grid's northeast corner.
    /// Fails when the payload is corrupt or decompresses to a byte count
    /// other than `rows * columns * 2`.
    pub fn load_elevation_grid(
        &self,
        buffer: &Vec<u8>,
        angular_steps_latitude: u8,
        angular_steps_longitude: u8,
    ) -> (r: Result<ElevationGrid, DecompressionError>)
        requires
            self.in_buffer(buffer@),
        ensures
            match r {
                Ok(g) => self.is_grid_of(
                    g,
                    buffer@,
                    angular_steps_latitude,
                    angular_steps_longitude,
                ),
                Err(_) => gunzip(self.payload(buffer@)) is None || gunzip(
                    self.payload(buffer@),
                ).unwrap().len() != self.rows * self.columns * 2,
            },
    {
        let buffer_len: usize = buffer.len();
        assert(self.data_offset + self.size <= buffer_len);
        let payload: &[u8] = slice_subrange(
            buffer.as_slice(),
            self.data_offset,
            self.data_offset + self.size as usize,
        );
        let decompressed: Vec<u8> = match decompress_gzip(payload) {
            Some(d) => d,
            None => {
                return Err(DecompressionError);
            },
        };
        proof {
            vstd::arithmetic::mul::lemma_mul_upper_bound(
                self.rows as int,
                0xffff,
                self.columns as int,
                0xffff,
            );
        }
        let expected: u64 = (self.rows as u64) * (self.columns as u64) * 2;
        if (decompressed.len() as u64) != expected {
            return Err(DecompressionError);
        }
        let n: usize = decompressed.len() / 2;
        proof {
            assert(self.rows as int * self.columns as int * 2 / 2 == self.rows as int
                * self.columns as int) by (nonlinear_arith);
            assert(n == self.rows * self.columns);
        }
        let mut samples: Vec<i16> = Vec::new();
        let mut k: usize = 0;
        while k < n
            invariant
                k <= n,
                n <= usize::MAX / 2,
                samples@.len() == k,
                2 * n == decompressed@.len(),
                forall|j: int|
                    0 <= j < k ==> samples@[j] == to_feet(sample_at(decompressed@, j)) as i16,
            decreases n - k,
        {
            let s = read_i16_le(&decompressed, 2 * k);
            let f = convert_sample(s);
            samples.push(f);
            k = k + 1;
        }
        let sw_lat: i64 = (self.southwest_latitude as i64) * 1_000_000;
        let sw_lon: i64 = (self.southwest_longitude as i64) * 1_000_000;
        let ne_lat: i64 = ((self.southwest_latitude as i64) + (angular_steps_latitude as i64))
            * 1_000_000;
        let ne_lon: i64 = ((self.southwest_longitude as i64) + (angular_steps_longitude as i64))
            * 1_000_000;
        let g = ElevationGrid {
            southwest_latitude: sw_lat,
            southwest_longitude: sw_lon,
            northeast_latitude: ne_lat,
            northeast_longitude: ne_lon,
            rows: self.rows as usize,
            columns: self.columns as usize,
            elevation_map: samples,
        };
        proof {
            assert(g.elevation_map@ =~= converted_samples(
                gunzip(self.payload(buffer@)).unwrap(),
                self.rows * self.columns,
            ));
        }
        Ok(g)
    }
}

/// The position of the first tile whose half-open box contains the point,
/// in storage order; `None` when no tile's box does.
pub open spec fn first_containing(
    tiles: Seq<Tile>,
    step_lat: u8,
    step_lon: u8,
    lat: int,
    lon: int,
) -> Option<int>
    decreases tiles.len(),
{
    if tiles.len() == 0 {
        None
    } else if tiles[0].contains(step_lat, step_lon, lat, lon) {
        Some(0)
    } else {
        match first_containing(tiles.drop_first(), step_lat, step_lon, lat, lon) {
            Some(i) => Some(i + 1),
            None => None,
        }
    }
}

/// When no tile before position `k` contains the point, the selection is
/// decided at or after `k`: it is `None` when `k` is the end, and `Some(k)`
/// when tile `k` contains the point.
pub proof fn lemma_first_containing_from_prefix(
    tiles: Seq<Tile>,
    step_lat: u8,
    step_lon: u8,
    lat: int,
    lon: int,
    k: int,
)
    requires
        0 <= k <= tiles.len(),
        forall|j: int| 0 <= j < k ==> !(#[trigger] tiles[j]).contains(step_lat, step_lon, lat, lon),
    ensures
        k == tiles.len() ==> first_containing(tiles, step_lat, step_lon, lat, lon) is None,
        k < tiles.len() && tiles[k].contains(step_lat, step_lon, lat, lon)
            ==> first_containing(tiles, step_lat, step_lon, lat, lon) == Some(k),
    decreases tiles.len(),
{
    if tiles.len() == 0 {
    } else if tiles[0].contains(step_lat, step_lon, lat, lon) {
        assert(k == 0);
    } else {
        let rest = tiles.drop_first();
        if k >= 1 {
            assert(forall|j: int|
                0 <= j < k - 1 ==> !(#[trigger] rest[j]).contains(step_lat, step_lon, lat, lon))
                by {
                assert(forall|j: int| 0 <= j < k - 1 ==> rest[j] == tiles[j + 1]);
            }
            lemma_first_containing_from_prefix(rest, step_lat, step_lon, lat, lon, k - 1);
        } else {
            lemma_first_containing_from_prefix(rest, step_lat, step_lon, lat, lon, 0);
        }
    }
}

/// A point that no tile's box contains selects no tile.
pub proof fn lemma_no_tile_selected(
    tiles: Seq<Tile>,
    step_lat: u8,
    step_lon: u8,
    lat: int,
    lon: int,
)
    requires
        forall|j: int|
            0 <= j < tiles.len() ==> !(#[trigger] tiles[j]).contains(step_lat, step_lon, lat, lon),
    ensures
        first_containing(tiles, step_lat, step_lon, lat, lon) is None,
{
    lemma_first_containing_from_prefix(tiles, step_lat, step_lon, lat, lon, tiles.len() as int);
}

/// Half-open boundary semantics: a tile's box includes its southwest corner
/// and excludes its northeast corner.
pub proof fn lemma_box_half_open(t: Tile, step_lat: u8, step_lon: u8)
    requires
        1 <= step_lat,
        1 <= step_lon,
    ensures
        t.contains(
            step_lat,
            step_lon,
            micro(t.southwest_latitude as int),
            micro(t.southwest_longitude as int),
        ),
        !t.contains(
            step_lat,
            step_lon,
            micro(t.southwest_latitude + step_lat),
            micro(t.southwest_longitude + step_lon),
        ),
{
}

/// For a point inside the half-open box of the first tile that contains it,
/// a query's outcome is exactly what direct computation gives: the sample of
/// that tile's decompressed grid at the row-major index that
/// `world_to_grid_indices` selects.
pub proof fn lemma_query_matches_grid_lookup(
    m: ElevationMap,
    i: int,
    g: ElevationGrid,
    lat: int,
    lon: int,
)
    requires
        0 <= i < m.tiles@.len(),
        forall|j: int|
            0 <= j < i ==> !(#[trigger] m.tiles@[j]).contains(
                m.angular_steps_latitude,
                m.angular_steps_longitude,
                lat,
                lon,
            ),
        m.tiles@[i].contains(m.angular_steps_latitude, m.angular_steps_longitude, lat, lon),
        m.tiles@[i].rows >= 1,
        m.tiles@[i].columns >= 1,
        m.tiles@[i].is_grid_of(g, m.buffer@, m.angular_steps_latitude, m.angular_steps_longitude),
    ensures
        first_containing(m.tiles@, m.angular_steps_latitude, m.angular_steps_longitude, lat, lon)
            == Some(i),
        m.query_outcome(m.tiles@[i], lat, lon) == Ok::<i16, DecompressionError>(
            g.sample_for(lat, lon),
        ),
{
    lemma_first_containing_from_prefix(
        m.tiles@,
        m.angular_steps_latitude,
        m.angular_steps_longitude,
        lat,
        lon,
        i,
    );
    let t = m.tiles@[i];
    let sw_lat = micro(t.southwest_latitude as int);
    let ne_lat = micro(t.southwest_latitude + m.angular_steps_latitude);
    let sw_lon = micro(t.southwest_longitude as int);
    let ne_lon = micro(t.southwest_longitude + m.angular_steps_longitude);
    elevation_grid::lemma_row_of_bounds(lat, sw_lat, ne_lat, t.rows as int);
    elevation_grid::lemma_column_of_bounds(lon, sw_lon, ne_lon, t.columns as int);
    let row = row_of(lat, sw_lat, ne_lat, t.rows as int);
    let column = column_of(lon, sw_lon, ne_lon, t.columns as int);
    vstd::arithmetic::mul::lemma_mul_inequality(row, t.rows as int - 1, t.columns as int);
    assert((t.rows as int - 1) * t.columns as int + t.columns as int == t.rows as int
        * t.columns as int) by (nonlinear_arith);
    assert(0 <= row * t.columns + column < t.rows * t.columns);
}

/// A tiled elevation map: the header fields of the binary format, the tiles
/// in storage order, and the byte buffer their payload ranges point into.
#[derive(Clone)]
pub struct ElevationMap {
    pub latitude_min: i16,
    pub latitude_max: i16,
    pub longitude_min: i16,
    pub longitude_max: i16,
    pub angular_steps_latitude: u8,
    pub angular_steps_longitude: u8,
    /// The IEEE-754 bit pattern of the header's float32 meters-per-sample
    /// field, which is informational only.
    pub horizontal_resolution: u32,
    pub tiles: Vec<Tile>,
    pub buffer: Vec<u8>,
}

impl ElevationMap {
    /// Well-formed: every tile's payload range lies inside the owned buffer.
    pub open spec fn wf(self) -> bool {
        forall|i: int| 0 <= i < self.tiles@.len() ==> (#[trigger] self.tiles@[i]).in_buffer(
            self.buffer@,
        )
    }

    /// The outcome a query owes once a tile is selected: the sample at the
    /// point's row and column of the tile's decompressed grid, converted to
    /// feet; a decompression error when the payload is corrupt, yields a
    /// byte count other than `rows * columns * 2`, or backs an empty raster
    /// that no lookup can read.
    pub open spec fn query_outcome(self, t: Tile, lat: int, lon: int) -> Result<
        i16,
        DecompressionError,
    > {
        if t.rows == 0 || t.columns == 0 {
            Err(DecompressionError)
        } else {
            match gunzip(t.payload(self.buffer@)) {
                None => Err(DecompressionError),
                Some(d) => {
                    if d.len() != t.rows * t.columns * 2 {
                        Err(DecompressionError)
                    } else {
                        Ok(
                            to_feet(
                                sample_at(
                                    d,
                                    row_of(
                                        lat,
                                        micro(t.southwest_latitude as int),
                                        micro(t.southwest_latitude + self.angular_steps_latitude),
                                        t.rows as int,
                                    ) * t.columns + column_of(
                                        lon,
                                        micro(t.southwest_longitude as int),
                                        micro(t.southwest_longitude + self.angular_steps_longitude),
                                        t.columns as int,
                                    ),
                                ),
                            ) as i16,
                        )
                    }
                },
            }
        }
    }

    /// Parses a map from a byte buffer: the fixed 14-byte little-endian
    /// header — `latitude_min:i16, latitude_max:i16, longitude_min:i16,
    /// longitude_max:i16, angular_steps_latitude:u8,
    /// angular_steps_longitude:u8, horizontal_resolution:float32` — then
    /// tile records back to back until the buffer is exhausted. Fails when
    /// the buffer is shorter than the header or its tail is not a whole
    /// number of complete records.
    pub fn from_bytes(bytes: Vec<u8>) -> (r: Result<ElevationMap, FormatError>)
        ensures
            match r {
                Ok(m) => {
                    &&& bytes@.len() >= 14
                    &&& m.latitude_min == signed16(le16(bytes@, 0))
                    &&& m.latitude_max == signed16(le16(bytes@, 2))
                    &&& m.longitude_min == signed16(le16(bytes@, 4))
                    &&& m.longitude_max == signed16(le16(bytes@, 6))
                    &&& m.angular_steps_latitude == bytes@[8]
                    &&& m.angular_steps_longitude == bytes@[9]
                    &&& m.horizontal_resolution == le32(bytes@, 10)
                    &&& Some(m.tiles@) == spec_tiles(bytes@, 14)
                    &&& m.buffer@ == bytes@
                    &&& m.wf()
                },
                Err(_) => bytes@.len() < 14 || spec_tiles(bytes@, 14) is None,
            },
    {
        let n: usize = bytes.len();
        if n < 14 {
            return Err(FormatError);
        }
        let latitude_min = read_i16_le(&bytes, 0);
        let latitude_max = read_i16_le(&bytes, 2);
        let longitude_min = read_i16_le(&bytes, 4);
        let longitude_max = read_i16_le(&bytes, 6);
        let angular_steps_latitude = bytes[8];
        let angular_steps_longitude = bytes[9];
        let horizontal_resolution = read_u32_le(&bytes, 10);
        let mut tiles: Vec<Tile> = Vec::new();
        let mut offset: usize = 14;
        while offset < n
            invariant
                14 <= offset <= n,
                n == bytes@.len(),
                forall|i: int| 0 <= i < tiles@.len() ==> (#[trigger] tiles@[i]).in_buffer(bytes@),
                match spec_tiles(bytes@, offset as int) {
                    Some(rest) => spec_tiles(bytes@, 14) == Some(tiles@ + rest),
                    None => spec_tiles(bytes@, 14) is None,
                },
            decreases n - offset,
        {
            let tile = match Tile::from_bytes(&bytes, offset) {
                Ok(t) => t,
                Err(_) => {
                    return Err(FormatError);
                },
            };
            proof {
                let rest = spec_tiles(bytes@, tile.data_offset + tile.size);
                if rest is Some {
                    assert(spec_tiles(bytes@, offset as int) == Some(
                        seq![tile] + rest.unwrap(),
                    ));
                    assert(tiles@ + (seq![tile] + rest.unwrap()) =~= (tiles@ + seq![tile])
                        + rest.unwrap());
                }
            }
            let next: usize = tile.data_offset + (tile.size as usize);
            tiles.push(tile);
            offset = next;
        }
        proof {
            assert(spec_tiles(bytes@, offset as int) == Some(Seq::<Tile>::empty()));
            assert(tiles@ + Seq::<Tile>::empty() =~= tiles@);
        }
        Ok(
            ElevationMap {
                latitude_min,
                latitude_max,
                longitude_min,
                longitude_max,
                angular_steps_latitude,
                angular_steps_longitude,
                horizontal_resolution,
                tiles,
                buffer: bytes,
            },
        )
    }

    /// Answers a point query: scans the tiles in storage order, selects the
    /// first whose half-open box contains the point, decompresses it fresh,
    /// and reads the one sample at the point's row and column. A point
    /// outside every tile's box yields the no-data sentinel `-1` — a normal
    /// outcome, not an error.
    pub fn get_elevation_at(&self, latitude: i64, longitude: i64) -> (r: Result<
        i16,
        DecompressionError,
    >)
        requires
            self.wf(),
        ensures
            match first_containing(
                self.tiles@,
                self.angular_steps_latitude,
                self.angular_steps_longitude,
                latitude as int,
                longitude as int,
            ) {
                None => r == Ok::<i16, DecompressionError>(-1i16),
                Some(i) => r == self.query_outcome(
                    self.tiles@[i],
                    latitude as int,
                    longitude as int,
                ),
            },
    {
        let step_lat = self.angular_steps_latitude;
        let step_lon = self.angular_steps_longitude;
        let n: usize = self.tiles.len();
        let mut idx: usize = 0;
        while idx < n
            invariant
                idx <= n,
                n == self.tiles@.len(),
                self.wf(),
                step_lat == self.angular_steps_latitude,
                step_lon == self.angular_steps_longitude,
                forall|j: int|
                    0 <= j < idx ==> !(#[trigger] self.tiles@[j]).contains(
                        step_lat,
                        step_lon,
                        latitude as int,
                        longitude as int,
                    ),
            decreases n - idx,
        {
            let t = self.tiles[idx];
            let sw_lat: i64 = (t.southwest_latitude as i64) * 1_000_000;
            let ne_lat: i64 = ((t.southwest_latitude as i64) + (step_lat as i64)) * 1_000_000;
            let sw_lon: i64 = (t.southwest_longitude as i64) * 1_000_000;
            let ne_lon: i64 = ((t.southwest_longitude as i64) + (step_lon as i64)) * 1_000_000;
            if latitude >= sw_lat && latitude < ne_lat && longitude >= sw_lon && longitude < ne_lon {
                proof {
                    lemma_first_containing_from_prefix(
                        self.tiles@,
                        step_lat,
                        step_lon,
                        latitude as int,
                        longitude as int,
                        idx as int,
                    );
                }
                if t.rows == 0 || t.columns == 0 {
                    return Err(DecompressionError);
                }
                let grid = match t.load_elevation_grid(&self.buffer, step_lat, step_lon) {
                    Ok(g) => g,
                    Err(e) => {
                        return Err(e);
                    },
                };
                let (row, column) = grid.world_to_grid_indices(latitude, longitude);
                let map_len: usize = grid.elevation_map.len();
                proof {
                    vstd::arithmetic::mul::lemma_mul_inequality(
                        row as int,
                        grid.rows as int - 1,
                        grid.columns as int,
                    );
                    assert((grid.rows as int - 1) * grid.columns as int + grid.columns as int
                        == grid.rows as int * grid.columns as int) by (nonlinear_arith);
                    assert(row as int * grid.columns as int + column < map_len);
                }
                let sample = grid.elevation_map[row * grid.columns + column];
                return Ok(sample);
            }
            idx = idx + 1;
        }
        proof {
            lemma_first_containing_from_prefix(
                self.tiles@,
                step_lat,
                step_lon,
                latitude as int,
                longitude as int,
                n as int,
            );
        }
        Ok(-1)
    }
}

} // verus!
