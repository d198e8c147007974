use geobits::geohash::{Direction, GeoBits, GeohashError};

const LAT_MIN: f32 = -90f32;
const LAT_MAX: f32 = 90f32;
const LNG_MIN: f32 = -180f32;
const LNG_MAX: f32 = 180f32;

/// The fixed-point conversion of the float encoding path: normalize each
/// axis to [0, 1) and truncate toward zero at `precision` bits.
fn cells_of(latitude: f32, longitude: f32, precision: u8) -> (u32, u32) {
    let lat = (latitude - LAT_MIN) / (LAT_MAX - LAT_MIN);
    let lng = (longitude - LNG_MIN) / (LNG_MAX - LNG_MIN);
    let lat = (lat as f64) * ((1u64 << precision) as f64);
    let lng = (lng as f64) * ((1u64 << precision) as f64);
    (lat as u32, lng as u32)
}

#[test]
fn encode() {
    let (lat_cell, lng_cell) = cells_of(25.006, 121.46, 15);
    let hash = GeoBits::from_cells(lat_cell, lng_cell, 15).unwrap();
    assert_eq!(hash.bits, 0b111001100010110101100011101010);
    assert_eq!(hash.precision, 15);
}

#[test]
fn decode() {
    let hash = GeoBits {
        bits: 0b111001100010110101100011101010,
        precision: 15,
    };
    let (lng_cell, lat_cell) = hash.cells();
    let scale = (1u64 << hash.precision) as f32;
    let lat_start = LAT_MIN + (lat_cell as f32 / scale) * 180f32;
    let lat_end = LAT_MIN + ((lat_cell + 1) as f32 / scale) * 180f32;
    let lng_start = LNG_MIN + (lng_cell as f32 / scale) * 360f32;
    let lng_end = LNG_MIN + ((lng_cell + 1) as f32 / scale) * 360f32;
    assert!(lat_start <= 25.006 && 25.006 < lat_end && lng_start <= 121.46 && 121.46 < lng_end);
}

#[test]
fn next() {
    let hash = GeoBits {
        bits: 0b111001100010110101100011101010,
        precision: 15,
    };
    assert_eq!(
        hash.next_leftbottom(),
        GeoBits {
            bits: 0b11100110001011010110001110101000,
            precision: 16,
        }
    );
    assert_eq!(
        hash.next_lefttop(),
        GeoBits {
            bits: 0b11100110001011010110001110101001,
            precision: 16,
        }
    );
    assert_eq!(
        hash.next_rightbottom(),
        GeoBits {
            bits: 0b11100110001011010110001110101010,
            precision: 16,
        }
    );
    assert_eq!(
        hash.next_righttop(),
        GeoBits {
            bits: 0b11100110001011010110001110101011,
            precision: 16,
        }
    );
}

#[test]
fn neighbor() {
    let hash = GeoBits {
        bits: 0b111001100010110101100011101010,
        precision: 15,
    };
    let neighbors = hash.get_neighbors();
    assert_eq!(neighbors.north, hash.get_neighbor(Direction::North));
    assert_eq!(neighbors.east, hash.get_neighbor(Direction::East));
    assert_eq!(neighbors.south, hash.get_neighbor(Direction::South));
    assert_eq!(neighbors.west, hash.get_neighbor(Direction::West));
    assert_eq!(neighbors.north_east, hash.get_neighbor(Direction::NorthEast));
    assert_eq!(neighbors.south_east, hash.get_neighbor(Direction::SouthEast));
    assert_eq!(neighbors.south_west, hash.get_neighbor(Direction::SouthWest));
    assert_eq!(neighbors.north_west, hash.get_neighbor(Direction::NorthWest));
    assert_eq!(
        neighbors.east,
        GeoBits {
            bits: 0b111001100010110101101001000000,
            precision: 15,
        }
    );
    assert_eq!(
        neighbors.west,
        GeoBits {
            bits: 0b111001100010110101100011101000,
            precision: 15,
        }
    );
    assert_eq!(
        neighbors.north,
        GeoBits {
            bits: 0b111001100010110101100011101011,
            precision: 15,
        }
    );
    assert_eq!(
        neighbors.south,
        GeoBits {
            bits: 0b111001100010110101100010111111,
            precision: 15,
        }
    );
    assert_eq!(
        neighbors.north_east,
        GeoBits {
            bits: 0b111001100010110101101001000001,
            precision: 15,
        }
    );
}

#[test]
fn neighbor_inverse_interior() {
    let hash = GeoBits {
        bits: 0b111001100010110101100011101010,
        precision: 15,
    };
    assert_eq!(hash.get_neighbor(Direction::East).get_neighbor(Direction::West), hash);
    assert_eq!(hash.get_neighbor(Direction::North).get_neighbor(Direction::South), hash);
}

#[test]
fn neighbor_wraps_within_active_bits() {
    // Moving West from the westmost cell wraps to the eastmost cell at the
    // same precision, not across the real-world antimeridian.
    let hash = GeoBits::from_cells(0, 0, 1).unwrap();
    assert_eq!(
        hash.get_neighbor(Direction::West),
        GeoBits { bits: 0b10, precision: 1 }
    );
    assert_eq!(
        hash.get_neighbor(Direction::South),
        GeoBits { bits: 0b01, precision: 1 }
    );
}

#[test]
fn encode_rejects_bad_precision() {
    assert_eq!(
        GeoBits::from_cells(0, 0, 0),
        Err(GeohashError::InvalidPrecision)
    );
    assert_eq!(
        GeoBits::from_cells(0, 0, 33),
        Err(GeohashError::InvalidPrecision)
    );
}

#[test]
fn encode_rejects_out_of_range_cells() {
    // Latitude 90 and longitude 180 normalize to cell index 2^precision,
    // one past the last valid cell.
    let (lat_cell, lng_cell) = cells_of(90.0, 180.0, 15);
    assert_eq!(lat_cell, 1 << 15);
    assert_eq!(lng_cell, 1 << 15);
    assert_eq!(
        GeoBits::from_cells(lat_cell, 0, 15),
        Err(GeohashError::InvalidCoordinate)
    );
    assert_eq!(
        GeoBits::from_cells(0, lng_cell, 15),
        Err(GeohashError::InvalidCoordinate)
    );
}

#[test]
fn encode_decode_round_trip_contains() {
    let coords: Vec<(f32, f32)> = vec![
        (25.006, 121.46),
        (0.0, 0.0),
        (-89.9, -179.9),
        (89.9, 179.9),
        (-45.5, 100.25),
    ];
    // The cell indices always round-trip exactly; the containment check in
    // degrees is meaningful up to the resolution of an f32 coordinate
    // (a 24-bit significand), so it stops at precision 23.
    for precision in [1u8, 2, 7, 15, 20, 23, 32] {
        for &(latitude, longitude) in &coords {
            let (lat_cell, lng_cell) = cells_of(latitude, longitude, precision);
            let hash = GeoBits::from_cells(lat_cell, lng_cell, precision).unwrap();
            let (lng_back, lat_back) = hash.cells();
            assert_eq!((lat_back, lng_back), (lat_cell, lng_cell));
            if precision > 23 {
                continue;
            }
            let scale = (1u64 << precision) as f64;
            let lat_start = -90f64 + (lat_back as f64 / scale) * 180f64;
            let lat_end = -90f64 + ((lat_back + 1) as f64 / scale) * 180f64;
            let lng_start = -180f64 + (lng_back as f64 / scale) * 360f64;
            let lng_end = -180f64 + ((lng_back + 1) as f64 / scale) * 360f64;
            assert!(lat_start <= latitude as f64 && (latitude as f64) < lat_end);
            assert!(lng_start <= longitude as f64 && (longitude as f64) < lng_end);
        }
    }
}

#[test]
fn subdivision_from_encoded_parent() {
    let hash = GeoBits::from_cells(20936, 27439, 15).unwrap();
    let parent_bits = hash.bits;
    assert_eq!(hash.next_leftbottom().bits, parent_bits << 2);
    assert_eq!(hash.next_lefttop().bits, (parent_bits << 2) | 1);
    assert_eq!(hash.next_rightbottom().bits, (parent_bits << 2) | 2);
    assert_eq!(hash.next_righttop().bits, (parent_bits << 2) | 3);
    assert_eq!(hash.next_leftbottom().precision, 16);
}

#[test]
fn subdivision_halves_cells() {
    let hash = GeoBits::from_cells(3, 5, 4).unwrap();
    let child = hash.next_righttop();
    let (lng, lat) = child.cells();
    assert_eq!(lat, 2 * 3 + 1);
    assert_eq!(lng, 2 * 5 + 1);
}

#[test]
fn validity() {
    assert!(GeoBits { bits: 0b11, precision: 1 }.is_valid());
    assert!(!GeoBits { bits: 0b100, precision: 1 }.is_valid());
    assert!(!GeoBits { bits: 0, precision: 0 }.is_valid());
    assert!(!GeoBits { bits: 0, precision: 33 }.is_valid());
    assert!(GeoBits { bits: u64::MAX, precision: 32 }.is_valid());
}

/// The decoded lower bound of a latitude cell in degrees scaled by 2^32,
/// an exact integer for every precision up to 32.
fn lat_lo(cell: i128, precision: u8) -> i128 {
    (180 * cell - 90 * (1i128 << precision)) * (1i128 << (32 - precision))
}

fn lng_lo(cell: i128, precision: u8) -> i128 {
    (360 * cell - 180 * (1i128 << precision)) * (1i128 << (32 - precision))
}

#[test]
fn subdivision_partitions_parent() {
    let parent = GeoBits::from_cells(20936, 27439, 15).unwrap();
    let (lng, lat) = parent.cells();
    let (lat, lng) = (lat as i128, lng as i128);
    let child = parent.next_leftbottom();
    let (clng, clat) = child.cells();
    assert_eq!((clat as i128, clng as i128), (2 * lat, 2 * lng));
    // The bottom/left children start at the parent's bounds, the top/right
    // children end at them, and the two meet at a shared bound: no gap, no
    // overlap.
    assert_eq!(lat_lo(2 * lat, 16), lat_lo(lat, 15));
    assert_eq!(lat_lo(2 * lat + 2, 16), lat_lo(lat + 1, 15));
    assert!(lat_lo(2 * lat, 16) < lat_lo(2 * lat + 1, 16));
    assert!(lat_lo(2 * lat + 1, 16) < lat_lo(2 * lat + 2, 16));
    assert_eq!(lng_lo(2 * lng, 16), lng_lo(lng, 15));
    assert_eq!(lng_lo(2 * lng + 2, 16), lng_lo(lng + 1, 15));
    assert!(lng_lo(2 * lng, 16) < lng_lo(2 * lng + 1, 16));
    assert!(lng_lo(2 * lng + 1, 16) < lng_lo(2 * lng + 2, 16));
}

#[test]
fn cell_width_halves_each_precision() {
    for precision in [1u8, 7, 15, 31] {
        let parent_width = lat_lo(1, precision) - lat_lo(0, precision);
        let child_width = lat_lo(1, precision + 1) - lat_lo(0, precision + 1);
        assert_eq!(parent_width, 2 * child_width);
        let parent_width = lng_lo(6, precision) - lng_lo(5, precision);
        let child_width = lng_lo(11, precision + 1) - lng_lo(10, precision + 1);
        assert_eq!(parent_width, 2 * child_width);
    }
}
