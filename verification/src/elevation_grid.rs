use vstd::prelude::*;
use vstd::arithmetic::div_mod::{lemma_div_pos_is_pos, lemma_multiply_divide_lt};
use vstd::arithmetic::mul::{lemma_mul_strict_inequality, lemma_mul_upper_bound};

verus! {

/// One degree, in the micro-degree fixed-point units that all coordinates
/// use: a millionth of a degree per unit.
pub const MICRO_PER_DEGREE: i64 = 1_000_000;

/// The widest box span a well-formed grid may have: 360 degrees.
pub const MAX_SPAN_MICRO: i64 = 360_000_000;

/// An in-memory decompressed raster for one tile. Corners are in
/// micro-degrees; `elevation_map` holds `rows * columns` samples in feet,
/// row-major under a north-up convention (row 0 is the northernmost), with
/// `-1` as the no-data sentinel.
pub struct ElevationGrid {
    pub southwest_latitude: i64,
    pub southwest_longitude: i64,
    pub northeast_latitude: i64,
    pub northeast_longitude: i64,
    pub rows: usize,
    pub columns: usize,
    pub elevation_map: Vec<i16>,
}

/// Row index of a latitude, north-up:
/// `min(rows - floor(latDelta / latRange * rows), rows) - 1`.
pub open spec fn row_of(lat: int, sw_lat: int, ne_lat: int, rows: int) -> int {
    let f = (lat - sw_lat) * rows / (ne_lat - sw_lat);
    (if rows - f <= rows {
        rows - f
    } else {
        rows
    }) - 1
}

/// Column index of a longitude:
/// `min(floor(longDelta / longRange * columns), columns - 1)`.
pub open spec fn column_of(lon: int, sw_lon: int, ne_lon: int, columns: int) -> int {
    let f = (lon - sw_lon) * columns / (ne_lon - sw_lon);
    if f <= columns - 1 {
        f
    } else {
        columns - 1
    }
}

/// For a latitude inside the half-open range, the row index is in bounds.
pub proof fn lemma_row_of_bounds(lat: int, sw_lat: int, ne_lat: int, rows: int)
    requires
        sw_lat <= lat < ne_lat,
        rows >= 1,
    ensures
        0 <= row_of(lat, sw_lat, ne_lat, rows) < rows,
        row_of(lat, sw_lat, ne_lat, rows) == rows - 1 - (lat - sw_lat) * rows / (ne_lat - sw_lat),
{
    let delta = lat - sw_lat;
    let range = ne_lat - sw_lat;
    lemma_div_pos_is_pos(delta * rows, range);
    lemma_mul_strict_inequality(delta, range, rows);
    lemma_multiply_divide_lt(delta * rows, range, rows);
}

/// For a longitude inside the half-open range, the column index is in bounds.
pub proof fn lemma_column_of_bounds(lon: int, sw_lon: int, ne_lon: int, columns: int)
    requires
        sw_lon <= lon < ne_lon,
        columns >= 1,
    ensures
        0 <= column_of(lon, sw_lon, ne_lon, columns) < columns,
        column_of(lon, sw_lon, ne_lon, columns) == (lon - sw_lon) * columns / (ne_lon - sw_lon),
{
    let delta = lon - sw_lon;
    let range = ne_lon - sw_lon;
    lemma_div_pos_is_pos(delta * columns, range);
    lemma_mul_strict_inequality(delta, range, columns);
    lemma_multiply_divide_lt(delta * columns, range, columns);
}

impl ElevationGrid {
    /// Well-formed: a nonempty box of bounded span and a nonempty raster of
    /// exactly `rows * columns` samples.
    pub open spec fn wf(self) -> bool {
        &&& self.southwest_latitude < self.northeast_latitude
        &&& self.northeast_latitude - self.southwest_latitude <= MAX_SPAN_MICRO
        &&& self.southwest_longitude < self.northeast_longitude
        &&& self.northeast_longitude - self.southwest_longitude <= MAX_SPAN_MICRO
        &&& 1 <= self.rows <= 0xffff
        &&& 1 <= self.columns <= 0xffff
        &&& self.elevation_map@.len() == self.rows * self.columns
    }

    /// Whether a point lies in the grid's half-open box.
    pub open spec fn in_box(self, lat: int, lon: int) -> bool {
        &&& self.southwest_latitude <= lat < self.northeast_latitude
        &&& self.southwest_longitude <= lon < self.northeast_longitude
    }

    /// The sample selected for a point by direct index computation:
    /// row-major lookup at the point's row and column.
    pub open spec fn sample_for(self, lat: int, lon: int) -> i16 {
        self.elevation_map@[row_of(lat, self.southwest_latitude as int, self.northeast_latitude as int, self.rows as int)
            * self.columns + column_of(
            lon,
            self.southwest_longitude as int,
            self.northeast_longitude as int,
            self.columns as int,
        )]
    }

    /// Builds a zero-filled grid with the given corners and dimensions.
    pub fn new(
        southwest_latitude: i64,
        southwest_longitude: i64,
        northeast_latitude: i64,
        northeast_longitude: i64,
        rows: usize,
        columns: usize,
    ) -> (g: ElevationGrid)
        requires
            rows * columns <= usize::MAX,
        ensures
            g.southwest_latitude == southwest_latitude,
            g.southwest_longitude == southwest_longitude,
            g.northeast_latitude == northeast_latitude,
            g.northeast_longitude == northeast_longitude,
            g.rows == rows,
            g.columns == columns,
            g.elevation_map@.len() == rows * columns,
            forall|k: int| 0 <= k < g.elevation_map@.len() ==> g.elevation_map@[k] == 0i16,
    {
        let n: usize = rows * columns;
        let mut elevation_map: Vec<i16> = Vec::new();
        let mut k: usize = 0;
        while k < n
            invariant
                k <= n,
                elevation_map@.len() == k,
                forall|j: int| 0 <= j < k ==> elevation_map@[j] == 0i16,
            decreases n - k,
        {
            elevation_map.push(0);
            k = k + 1;
        }
        ElevationGrid {
            southwest_latitude,
            southwest_longitude,
            northeast_latitude,
            northeast_longitude,
            rows,
            columns,
            elevation_map,
        }
    }

    /// Maps a point inside the grid's half-open box to `(row, column)`
    /// indices in the row-major sample array, north-up (row 0 is the
    /// northernmost row).
    pub fn world_to_grid_indices(&self, latitude: i64, longitude: i64) -> (rc: (usize, usize))
        requires
            self.wf(),
            self.in_box(latitude as int, longitude as int),
        ensures
            rc.0 == row_of(
                latitude as int,
                self.southwest_latitude as int,
                self.northeast_latitude as int,
                self.rows as int,
            ),
            rc.1 == column_of(
                longitude as int,
                self.southwest_longitude as int,
                self.northeast_longitude as int,
                self.columns as int,
            ),
            rc.0 < self.rows,
            rc.1 < self.columns,
    {
        proof {
            lemma_row_of_bounds(
                latitude as int,
                self.southwest_latitude as int,
                self.northeast_latitude as int,
                self.rows as int,
            );
            lemma_column_of_bounds(
                longitude as int,
                self.southwest_longitude as int,
                self.northeast_longitude as int,
                self.columns as int,
            );
        }
        let lat_delta: i64 = latitude - self.southwest_latitude;
        let lat_range: i64 = self.northeast_latitude - self.southwest_latitude;
        proof {
            lemma_mul_upper_bound(lat_delta as int, MAX_SPAN_MICRO as int, self.rows as int, 0xffff);
        }
        let row_floor: u64 = (lat_delta as u64) * (self.rows as u64) / (lat_range as u64);
        let row: usize = self.rows - 1 - (row_floor as usize);

        let long_delta: i64 = longitude - self.southwest_longitude;
        let long_range: i64 = self.northeast_longitude - self.southwest_longitude;
        proof {
            lemma_mul_upper_bound(long_delta as int, MAX_SPAN_MICRO as int, self.columns as int, 0xffff);
        }
        let column_floor: u64 = (long_delta as u64) * (self.columns as u64) / (long_range as u64);
        let column: usize = column_floor as usize;

        (row, column)
    }
}

} // verus!
