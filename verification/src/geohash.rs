//! Geographic bit addresses: encode, decode, neighbor lookup and quadtree
//! subdivision over Morton-interleaved cell indices.

use vstd::prelude::*;

verus! {

use crate::bits::{interleave_spec, squash_spec};
use vstd::wrapping::u64_specs;
use vstd::arithmetic::div_mod::{lemma_mod_multiples_vanish, lemma_small_mod};
use vstd::arithmetic::power2::{lemma_pow2_pos, lemma_pow2_unfold, pow2};

/// The eight compass directions that parameterize neighbor lookup.
#[derive(Clone, Copy, Debug, PartialEq, Eq, Hash, Structural)]
pub enum Direction {
    North,
    East,
    South,
    West,
    NorthEast,
    SouthEast,
    SouthWest,
    NorthWest,
}

/// Why a value was rejected at a construction boundary.
#[derive(Clone, Copy, Debug, PartialEq, Eq, Structural)]
pub enum GeohashError {
    /// A latitude or longitude (equivalently, a per-axis cell index) outside
    /// its declared half-open range.
    InvalidCoordinate,
    /// A precision outside `1..=32`.
    InvalidPrecision,
}

/// An interleaved bit address plus a precision (bits per axis).
///
/// Only the low `2 * precision` bits of `bits` are meaningful; all higher
/// bits are zero (see `wf`).  Longitude occupies the odd bit positions and
/// latitude the even ones, so that numeric comparison of two `bits` values
/// of equal precision approximates spatial locality.
#[derive(Clone, Copy, Debug, PartialEq, Eq, Structural)]
pub struct GeoBits {
    pub bits: u64,
    pub precision: u8,
}

const LAT_BITS: u64 = 0x5555555555555555;
const LNG_BITS: u64 = 0xAAAAAAAAAAAAAAAA;

/// The mask of the meaningful (low `2 * precision`) bits of a code.
pub open spec fn active_mask(precision: u8) -> u64 {
    (!0u64) >> ((64 - 2 * (precision as u64)) as u64)
}

impl GeoBits {
    /// The invariant every `GeoBits` operation establishes and preserves:
    /// precision within `1..=32`, and no bits set above the active range.
    pub open spec fn wf(self) -> bool {
        &&& 1 <= self.precision <= 32
        &&& self.bits & active_mask(self.precision) == self.bits
    }

    /// The latitude cell index: the even bits of the code.
    pub open spec fn lat_cell(self) -> u32 {
        crate::bits::squash_spec(self.bits)
    }

    /// The longitude cell index: the odd bits of the code.
    pub open spec fn lng_cell(self) -> u32 {
        crate::bits::squash_spec(self.bits >> 1)
    }

    /// How many cells each axis is divided into at this precision.
    pub open spec fn cells_per_axis(self) -> u64 {
        1u64 << (self.precision as u64)
    }

    /// The neighboring code in a given compass direction: one cell step
    /// along one or both axes, each wrapping within the active bit width
    /// of its own sub-field.  North/South step the latitude cell up/down,
    /// East/West the longitude cell, diagonals both.
    pub open spec fn neighbor_spec(self, direction: Direction) -> GeoBits {
        let n: int = self.cells_per_axis() as int;
        let up: int = 1;
        let down: int = n - 1;
        let dlat: int = match direction {
            Direction::North => up,
            Direction::East => 0,
            Direction::South => down,
            Direction::West => 0,
            Direction::NorthEast => up,
            Direction::SouthEast => down,
            Direction::SouthWest => down,
            Direction::NorthWest => up,
        };
        let dlng: int = match direction {
            Direction::North => 0,
            Direction::East => up,
            Direction::South => 0,
            Direction::West => down,
            Direction::NorthEast => up,
            Direction::SouthEast => up,
            Direction::SouthWest => down,
            Direction::NorthWest => down,
        };
        GeoBits {
            bits: interleave_spec(
                (((self.lat_cell() + dlat) % n) as u32),
                (((self.lng_cell() + dlng) % n) as u32),
            ),
            precision: self.precision,
        }
    }
}

/// The eight same-precision neighbors of a code, one per compass
/// direction.
#[derive(Clone, Copy, Debug, PartialEq, Eq, Structural)]
pub struct Neighbors {
    pub north: GeoBits,
    pub east: GeoBits,
    pub south: GeoBits,
    pub west: GeoBits,
    pub north_east: GeoBits,
    pub south_east: GeoBits,
    pub south_west: GeoBits,
    pub north_west: GeoBits,
}

/// How many high bits of a code lie above the active range.
spec fn unused_bits(precision: u8) -> u64 {
    (64 - 2 * (precision as u64)) as u64
}

/// The code after one longitude step: the longitude sub-field is isolated,
/// the latitude positions are pre-filled before a subtraction (so that a
/// borrow never crosses into them), one unit of the lowest active longitude
/// bit is added or removed, and the result is re-masked to the active
/// range.  The latitude bits pass through untouched.
spec fn moved_x_bits(b: u64, precision: u8, left: bool) -> u64 {
    let lng: u64 = b & LNG_BITS;
    let lat: u64 = b & LAT_BITS;
    let tmp: u64 = LAT_BITS >> unused_bits(precision);
    let raw: u64 = if left {
        u64_specs::wrapping_sub(lng | tmp, (tmp + 1) as u64)
    } else {
        u64_specs::wrapping_add(lng, (tmp + 1) as u64)
    };
    (raw & (LNG_BITS >> unused_bits(precision))) | lat
}

/// The code after one latitude step, mirroring `moved_x_bits`.
spec fn moved_y_bits(b: u64, precision: u8, bottom: bool) -> u64 {
    let lng: u64 = b & LNG_BITS;
    let lat: u64 = b & LAT_BITS;
    let tmp: u64 = LNG_BITS >> unused_bits(precision);
    let raw: u64 = if bottom {
        u64_specs::wrapping_sub(lat | tmp, (tmp + 1) as u64)
    } else {
        u64_specs::wrapping_add(lat, (tmp + 1) as u64)
    };
    (raw & (LAT_BITS >> unused_bits(precision))) | lng
}

/// The bit arithmetic of a longitude step acts on the cell indices as a
/// `+1` or `-1` modulo the number of cells per axis, and leaves the
/// latitude cell unchanged.
#[verifier::rlimit(100)]
#[verifier::spinoff_prover]
proof fn lemma_move_x(b: u64, precision: u8, left: bool)
    by (bit_vector)
    requires
        1 <= precision <= 32,
        b & active_mask(precision) == b,
    ensures
        moved_x_bits(b, precision, left) & active_mask(precision) == moved_x_bits(
            b,
            precision,
            left,
        ),
        squash_spec(moved_x_bits(b, precision, left)) == squash_spec(b),
        left ==> (squash_spec(moved_x_bits(b, precision, left) >> 1) as u64) == ((
        squash_spec(b >> 1) as u64 + (1u64 << (precision as u64)) - 1) as u64) % (1u64 << (
        precision as u64)),
        !left ==> (squash_spec(moved_x_bits(b, precision, left) >> 1) as u64) == ((squash_spec(
        b >> 1) as u64 + 1) as u64) % (1u64 << (precision as u64)),
{
}

/// The bit arithmetic of a latitude step acts on the cell indices as a
/// `+1` or `-1` modulo the number of cells per axis, and leaves the
/// longitude cell unchanged.
#[verifier::rlimit(100)]
#[verifier::spinoff_prover]
proof fn lemma_move_y(b: u64, precision: u8, bottom: bool)
    by (bit_vector)
    requires
        1 <= precision <= 32,
        b & active_mask(precision) == b,
    ensures
        moved_y_bits(b, precision, bottom) & active_mask(precision) == moved_y_bits(
            b,
            precision,
            bottom,
        ),
        squash_spec(moved_y_bits(b, precision, bottom) >> 1) == squash_spec(b >> 1),
        bottom ==> (squash_spec(moved_y_bits(b, precision, bottom)) as u64) == ((squash_spec(
        b) as u64 + (1u64 << (precision as u64)) - 1) as u64) % (1u64 << (precision as u64)),
        !bottom ==> (squash_spec(moved_y_bits(b, precision, bottom)) as u64) == ((squash_spec(
        b) as u64 + 1) as u64) % (1u64 << (precision as u64)),
{
}

/// An interleaving of two in-range cell indices stays within the active
/// bit range of its precision.
#[verifier::spinoff_prover]
proof fn lemma_interleave_in_range(lat_cell: u32, lng_cell: u32, precision: u8)
    by (bit_vector)
    requires
        1 <= precision <= 32,
        (lat_cell as u64) < (1u64 << (precision as u64)),
        (lng_cell as u64) < (1u64 << (precision as u64)),
    ensures
        interleave_spec(lat_cell, lng_cell) & active_mask(precision) == interleave_spec(
            lat_cell,
            lng_cell,
        ),
{
}

/// A code within the active bit range of its precision has both cell
/// indices below the number of cells per axis.
#[verifier::spinoff_prover]
proof fn lemma_cells_in_range(b: u64, precision: u8)
    by (bit_vector)
    requires
        1 <= precision <= 32,
        b & active_mask(precision) == b,
    ensures
        (squash_spec(b) as u64) < (1u64 << (precision as u64)),
        (squash_spec(b >> 1) as u64) < (1u64 << (precision as u64)),
{
}

/// Appending a two-bit quadrant selector doubles each cell index and adds
/// the selector's bit for that axis: the low selector bit is a latitude
/// bit, the high one a longitude bit.
#[verifier::spinoff_prover]
proof fn lemma_subdivide(b: u64, precision: u8, sel: u64)
    by (bit_vector)
    requires
        1 <= precision < 32,
        b & active_mask(precision) == b,
        sel < 4,
    ensures
        b * 4 + sel <= 0xFFFFFFFFFFFFFFFF,
        (b << 2) == ((b * 4) as u64),
        ((b << 2) | sel) == ((b * 4 + sel) as u64),
        ((b << 2) | sel) & active_mask((precision + 1) as u8) == ((b << 2) | sel),
        (squash_spec((b << 2) | sel) as u64) == (squash_spec(b) as u64) * 2 + (sel as int % 2),
        (squash_spec(((b << 2) | sel) >> 1) as u64) == (squash_spec(b >> 1) as u64) * 2 + (
        sel as int / 2),
{
}

impl GeoBits {
    /// One cell step along the longitude axis: westward when `left`, else
    /// eastward, wrapping within the active bit width.
    fn move_x(self, left: bool) -> (r: GeoBits)
        requires
            self.wf(),
        ensures
            r.precision == self.precision,
            r.wf(),
            r.lat_cell() == self.lat_cell(),
            r.lng_cell() == if left {
                (self.lng_cell() + self.cells_per_axis() - 1) % (self.cells_per_axis() as int)
            } else {
                (self.lng_cell() + 1) % (self.cells_per_axis() as int)
            },
    {
        let num_unused_bits: u64 = 64 - 2 * (self.precision as u64);
        let lng: u64 = self.bits & LNG_BITS;
        let lat: u64 = self.bits & LAT_BITS;
        let tmp: u64 = LAT_BITS >> num_unused_bits;
        proof {
            assert(LAT_BITS >> num_unused_bits <= 0x5555555555555555u64) by (bit_vector);
        }
        let unit: u64 = tmp + 1;
        let raw: u64 = if left {
            (lng | tmp).wrapping_sub(unit)
        } else {
            lng.wrapping_add(unit)
        };
        let r = GeoBits { bits: (raw & (LNG_BITS >> num_unused_bits)) | lat, precision: self.precision };
        proof {
            let p: u8 = self.precision;
            assert(1u64 <= (1u64 << (p as u64)) <= 0x100000000u64) by (bit_vector)
                requires
                    1 <= p <= 32,
            ;
            lemma_move_x(self.bits, self.precision, left);
            assert(r.bits == moved_x_bits(self.bits, self.precision, left));
        }
        r
    }

    /// One cell step along the latitude axis: southward when `bottom`, else
    /// northward, wrapping within the active bit width.
    fn move_y(self, bottom: bool) -> (r: GeoBits)
        requires
            self.wf(),
        ensures
            r.precision == self.precision,
            r.wf(),
            r.lng_cell() == self.lng_cell(),
            r.lat_cell() == if bottom {
                (self.lat_cell() + self.cells_per_axis() - 1) % (self.cells_per_axis() as int)
            } else {
                (self.lat_cell() + 1) % (self.cells_per_axis() as int)
            },
    {
        let num_unused_bits: u64 = 64 - 2 * (self.precision as u64);
        let lng: u64 = self.bits & LNG_BITS;
        let lat: u64 = self.bits & LAT_BITS;
        let tmp: u64 = LNG_BITS >> num_unused_bits;
        proof {
            assert(LNG_BITS >> num_unused_bits <= 0xAAAAAAAAAAAAAAAAu64) by (bit_vector);
        }
        let unit: u64 = tmp + 1;
        let raw: u64 = if bottom {
            (lat | tmp).wrapping_sub(unit)
        } else {
            lat.wrapping_add(unit)
        };
        let r = GeoBits { bits: (raw & (LAT_BITS >> num_unused_bits)) | lng, precision: self.precision };
        proof {
            let p: u8 = self.precision;
            assert(1u64 <= (1u64 << (p as u64)) <= 0x100000000u64) by (bit_vector)
                requires
                    1 <= p <= 32,
            ;
            lemma_move_y(self.bits, self.precision, bottom);
            assert(r.bits == moved_y_bits(self.bits, self.precision, bottom));
        }
        r
    }

    /// Builds a code from per-axis cell indices at a chosen precision.
    ///
    /// Rejects a precision outside `1..=32` and a cell index at or above
    /// the number of cells per axis; otherwise returns exactly the
    /// interleaving of the two indices at that precision.
    pub fn from_cells(lat_cell: u32, lng_cell: u32, precision: u8) -> (r: Result<
        GeoBits,
        GeohashError,
    >)
        ensures
            (precision == 0 || precision > 32) ==> r == Err::<GeoBits, GeohashError>(
                GeohashError::InvalidPrecision,
            ),
            1 <= precision <= 32 && ((lat_cell as u64) >= (1u64 << (precision as u64)) || (
            lng_cell as u64) >= (1u64 << (precision as u64))) ==> r == Err::<GeoBits, GeohashError>(
                GeohashError::InvalidCoordinate,
            ),
            1 <= precision <= 32 && (lat_cell as u64) < (1u64 << (precision as u64)) && (
            lng_cell as u64) < (1u64 << (precision as u64)) ==> r == Ok::<GeoBits, GeohashError>(
                (GeoBits { bits: interleave_spec(lat_cell, lng_cell), precision }),
            ) && r.unwrap().wf() && r.unwrap().lat_cell() == lat_cell && r.unwrap().lng_cell()
                == lng_cell,
    {
        if precision == 0 || precision > 32 {
            return Err(GeohashError::InvalidPrecision);
        }
        let limit: u64 = 1u64 << (precision as u64);
        if (lat_cell as u64) >= limit || (lng_cell as u64) >= limit {
            return Err(GeohashError::InvalidCoordinate);
        }
        let bits: u64 = crate::bits::interleave64(lat_cell, lng_cell);
        proof {
            crate::bits::lemma_interleave_round_trip(lat_cell, lng_cell);
            lemma_interleave_in_range(lat_cell, lng_cell, precision);
        }
        Ok(GeoBits { bits, precision })
    }

    /// Recovers the per-axis cell indices of the code, returned as
    /// `(lng, lat)`: the odd bits first, the even bits second.  The result
    /// is exact: re-interleaving it gives back `bits`.
    pub fn cells(&self) -> (r: (u32, u32))
        requires
            self.wf(),
        ensures
            r.0 == self.lng_cell(),
            r.1 == self.lat_cell(),
            interleave_spec(r.1, r.0) == self.bits,
            (r.0 as u64) < self.cells_per_axis(),
            (r.1 as u64) < self.cells_per_axis(),
    {
        proof {
            lemma_cells_in_range(self.bits, self.precision);
        }
        crate::bits::deinterleave64(self.bits)
    }

    /// Whether the pair of fields satisfies the `GeoBits` invariant; true
    /// for every value this library constructs.
    pub fn is_valid(&self) -> (r: bool)
        ensures
            r == self.wf(),
    {
        if self.precision < 1 || self.precision > 32 {
            return false;
        }
        let mask: u64 = (!0u64) >> (64 - 2 * (self.precision as u64));
        self.bits & mask == self.bits
    }

    /// The same-precision neighbor in the given compass direction.
    ///
    /// Each axis steps by one cell and wraps within the currently active
    /// bit field (not across the real-world pole or antimeridian
    /// boundary); diagonal directions compose one latitude step and one
    /// longitude step, which commute because the two sub-fields are
    /// disjoint.
    pub fn get_neighbor(&self, direction: Direction) -> (r: GeoBits)
        requires
            self.wf(),
        ensures
            r == self.neighbor_spec(direction),
            r.wf(),
    {
        let r = match direction {
            Direction::North => self.move_y(false),
            Direction::East => self.move_x(false),
            Direction::South => self.move_y(true),
            Direction::West => self.move_x(true),
            Direction::NorthEast => self.move_y(false).move_x(false),
            Direction::SouthEast => self.move_y(true).move_x(false),
            Direction::SouthWest => self.move_y(true).move_x(true),
            Direction::NorthWest => self.move_y(false).move_x(true),
        };
        proof {
            let p: u8 = self.precision;
            assert(1u64 <= (1u64 << (p as u64)) <= 0x100000000u64) by (bit_vector)
                requires
                    1 <= p <= 32,
            ;
            crate::bits::lemma_interleave_reconstruct(r.bits);
            lemma_cells_in_range(self.bits, self.precision);
            lemma_small_mod(self.lat_cell() as nat, self.cells_per_axis() as nat);
            lemma_small_mod(self.lng_cell() as nat, self.cells_per_axis() as nat);
        }
        r
    }

    /// All eight same-precision neighbors, one field per compass
    /// direction.
    pub fn get_neighbors(&self) -> (r: Neighbors)
        requires
            self.wf(),
        ensures
            r.north == self.neighbor_spec(Direction::North),
            r.east == self.neighbor_spec(Direction::East),
            r.south == self.neighbor_spec(Direction::South),
            r.west == self.neighbor_spec(Direction::West),
            r.north_east == self.neighbor_spec(Direction::NorthEast),
            r.south_east == self.neighbor_spec(Direction::SouthEast),
            r.south_west == self.neighbor_spec(Direction::SouthWest),
            r.north_west == self.neighbor_spec(Direction::NorthWest),
            r.north.wf() && r.east.wf() && r.south.wf() && r.west.wf(),
            r.north_east.wf() && r.south_east.wf() && r.south_west.wf() && r.north_west.wf(),
    {
        Neighbors {
            north: self.get_neighbor(Direction::North),
            east: self.get_neighbor(Direction::East),
            south: self.get_neighbor(Direction::South),
            west: self.get_neighbor(Direction::West),
            north_east: self.get_neighbor(Direction::NorthEast),
            south_east: self.get_neighbor(Direction::SouthEast),
            south_west: self.get_neighbor(Direction::SouthWest),
            north_west: self.get_neighbor(Direction::NorthWest),
        }
    }

    /// The left-bottom child one precision deeper: quadrant selector `00`.
    pub fn next_leftbottom(&self) -> (r: GeoBits)
        requires
            self.wf(),
            self.precision < 32,
        ensures
            r.precision == self.precision + 1,
            r.wf(),
            r.bits == self.bits << 2,
            r.lat_cell() == 2 * self.lat_cell(),
            r.lng_cell() == 2 * self.lng_cell(),
    {
        proof {
            lemma_subdivide(self.bits, self.precision, 0);
        }
        GeoBits { bits: self.bits << 2, precision: self.precision + 1 }
    }

    /// The left-top child one precision deeper: quadrant selector `01`
    /// (the latitude bit of the selector).
    pub fn next_lefttop(&self) -> (r: GeoBits)
        requires
            self.wf(),
            self.precision < 32,
        ensures
            r.precision == self.precision + 1,
            r.wf(),
            r.bits == (self.bits << 2) + 1,
            r.lat_cell() == 2 * self.lat_cell() + 1,
            r.lng_cell() == 2 * self.lng_cell(),
    {
        proof {
            lemma_subdivide(self.bits, self.precision, 1);
        }
        GeoBits { bits: (self.bits << 2) + 1, precision: self.precision + 1 }
    }

    /// The right-bottom child one precision deeper: quadrant selector `10`
    /// (the longitude bit of the selector).
    pub fn next_rightbottom(&self) -> (r: GeoBits)
        requires
            self.wf(),
            self.precision < 32,
        ensures
            r.precision == self.precision + 1,
            r.wf(),
            r.bits == (self.bits << 2) + 2,
            r.lat_cell() == 2 * self.lat_cell(),
            r.lng_cell() == 2 * self.lng_cell() + 1,
    {
        proof {
            lemma_subdivide(self.bits, self.precision, 2);
        }
        GeoBits { bits: (self.bits << 2) + 2, precision: self.precision + 1 }
    }

    /// The right-top child one precision deeper: quadrant selector `11`.
    pub fn next_righttop(&self) -> (r: GeoBits)
        requires
            self.wf(),
            self.precision < 32,
        ensures
            r.precision == self.precision + 1,
            r.wf(),
            r.bits == (self.bits << 2) + 3,
            r.lat_cell() == 2 * self.lat_cell() + 1,
            r.lng_cell() == 2 * self.lng_cell() + 1,
    {
        proof {
            lemma_subdivide(self.bits, self.precision, 3);
        }
        GeoBits { bits: (self.bits << 2) + 3, precision: self.precision + 1 }
    }
}

/// The decoded lower latitude bound of a cell, in degrees scaled by
/// `2^32`: the cell's value is `-90 + cell * 180 / 2^precision` degrees,
/// and multiplying by `2^32` makes that an exact integer for every
/// precision up to 32.  The cell's half-open interval runs from this bound
/// to the bound of `cell + 1`.
pub open spec fn lat_lo_scaled(cell: int, precision: nat) -> int
    recommends
        precision <= 32,
{
    (180 * cell - 90 * pow2(precision)) * pow2((32 - precision) as nat)
}

/// The decoded lower longitude bound of a cell, in degrees scaled by
/// `2^32`: the cell's value is `-180 + cell * 360 / 2^precision` degrees.
pub open spec fn lng_lo_scaled(cell: int, precision: nat) -> int
    recommends
        precision <= 32,
{
    (360 * cell - 180 * pow2(precision)) * pow2((32 - precision) as nat)
}

/// Every cell at a given precision decodes to an interval of the same
/// exact width: `180 / 2^precision` degrees of latitude and
/// `360 / 2^precision` degrees of longitude (here scaled by `2^32`).
pub proof fn lemma_cell_width(cell: int, precision: nat)
    requires
        precision <= 32,
    ensures
        lat_lo_scaled(cell + 1, precision) - lat_lo_scaled(cell, precision) == 180 * pow2(
            (32 - precision) as nat,
        ),
        lng_lo_scaled(cell + 1, precision) - lng_lo_scaled(cell, precision) == 360 * pow2(
            (32 - precision) as nat,
        ),
{
    let w = pow2((32 - precision) as nat);
    let q = pow2(precision);
    assert((180 * (cell + 1) - 90 * q) * w - (180 * cell - 90 * q) * w == 180 * w)
        by (nonlinear_arith);
    assert((360 * (cell + 1) - 180 * q) * w - (360 * cell - 180 * q) * w == 360 * w)
        by (nonlinear_arith);
}

/// Decoded bounds grow strictly with the cell index, so the half-open
/// intervals of consecutive cells are adjacent and disjoint.
pub proof fn lemma_bounds_increase(cell: int, precision: nat)
    requires
        precision <= 32,
    ensures
        lat_lo_scaled(cell, precision) < lat_lo_scaled(cell + 1, precision),
        lng_lo_scaled(cell, precision) < lng_lo_scaled(cell + 1, precision),
{
    lemma_cell_width(cell, precision);
    lemma_pow2_pos((32 - precision) as nat);
}

/// Cell shrink law: each axis interval at precision `p + 1` is exactly
/// half as wide as at precision `p`, whatever the two cell indices are.
pub proof fn lemma_cell_shrink(cell: int, child_cell: int, precision: nat)
    requires
        precision < 32,
    ensures
        lat_lo_scaled(cell + 1, precision) - lat_lo_scaled(cell, precision) == 2 * (
        lat_lo_scaled(child_cell + 1, precision + 1) - lat_lo_scaled(child_cell, precision + 1)),
        lng_lo_scaled(cell + 1, precision) - lng_lo_scaled(cell, precision) == 2 * (
        lng_lo_scaled(child_cell + 1, precision + 1) - lng_lo_scaled(child_cell, precision + 1)),
{
    lemma_cell_width(cell, precision);
    lemma_cell_width(child_cell, precision + 1);
    lemma_pow2_unfold((32 - precision) as nat);
}

/// Halving a cell keeps its lower bound: cell `2 * cell` at precision
/// `p + 1` starts exactly where `cell` starts at precision `p`.
pub proof fn lemma_child_lower_bound(cell: int, precision: nat)
    requires
        precision < 32,
    ensures
        lat_lo_scaled(2 * cell, precision + 1) == lat_lo_scaled(cell, precision),
        lng_lo_scaled(2 * cell, precision + 1) == lng_lo_scaled(cell, precision),
{
    let w = pow2((31 - precision) as nat);
    let q = pow2(precision);
    lemma_pow2_unfold(precision + 1);
    lemma_pow2_unfold((32 - precision) as nat);
    assert((180 * (2 * cell) - 90 * (2 * q)) * w == (180 * cell - 90 * q) * (2 * w))
        by (nonlinear_arith);
    assert((360 * (2 * cell) - 180 * (2 * q)) * w == (360 * cell - 180 * q) * (2 * w))
        by (nonlinear_arith);
}

/// Partition law: the four subdivision children of a code tile its
/// decoded rectangle exactly.
///
/// On each axis the parent cell `c` decodes to the half-open interval
/// from `lo(c)` to `lo(c + 1)`, and its two child cells `2 * c` and
/// `2 * c + 1` at the next precision decode to adjacent half-open
/// intervals whose union is that interval: the first child starts at the
/// parent's lower bound, the second child ends at the parent's upper
/// bound, the two meet at the shared bound `lo(2 * c + 1)`, and bounds
/// strictly increase (so there is no gap and no overlap).  Combined over
/// both axes this tiles the parent's rectangle with the rectangles of
/// `next_leftbottom`, `next_lefttop`, `next_rightbottom` and
/// `next_righttop`, whose cell indices those functions' contracts give.
pub proof fn lemma_subdivision_partitions(g: GeoBits)
    requires
        g.wf(),
        g.precision < 32,
    ensures
        lat_lo_scaled(2 * g.lat_cell(), g.precision as nat + 1) == lat_lo_scaled(
            g.lat_cell() as int,
            g.precision as nat,
        ),
        lat_lo_scaled(2 * g.lat_cell() + 2, g.precision as nat + 1) == lat_lo_scaled(
            g.lat_cell() + 1,
            g.precision as nat,
        ),
        lng_lo_scaled(2 * g.lng_cell(), g.precision as nat + 1) == lng_lo_scaled(
            g.lng_cell() as int,
            g.precision as nat,
        ),
        lng_lo_scaled(2 * g.lng_cell() + 2, g.precision as nat + 1) == lng_lo_scaled(
            g.lng_cell() + 1,
            g.precision as nat,
        ),
        lat_lo_scaled(2 * g.lat_cell(), g.precision as nat + 1) < lat_lo_scaled(
            2 * g.lat_cell() + 1,
            g.precision as nat + 1,
        ) < lat_lo_scaled(2 * g.lat_cell() + 2, g.precision as nat + 1),
        lng_lo_scaled(2 * g.lng_cell(), g.precision as nat + 1) < lng_lo_scaled(
            2 * g.lng_cell() + 1,
            g.precision as nat + 1,
        ) < lng_lo_scaled(2 * g.lng_cell() + 2, g.precision as nat + 1),
{
    lemma_child_lower_bound(g.lat_cell() as int, g.precision as nat);
    lemma_child_lower_bound(g.lat_cell() + 1, g.precision as nat);
    lemma_child_lower_bound(g.lng_cell() as int, g.precision as nat);
    lemma_child_lower_bound(g.lng_cell() + 1, g.precision as nat);
    lemma_bounds_increase(2 * g.lat_cell(), g.precision as nat + 1);
    lemma_bounds_increase(2 * g.lat_cell() + 1, g.precision as nat + 1);
    lemma_bounds_increase(2 * g.lng_cell(), g.precision as nat + 1);
    lemma_bounds_increase(2 * g.lng_cell() + 1, g.precision as nat + 1);
}

/// Local neighbor inverse, longitude axis: for a code whose longitude
/// cell is not at the eastern wrap edge, stepping East and then West
/// returns the original code.
pub proof fn lemma_neighbor_east_west_inverse(g: GeoBits)
    requires
        g.wf(),
        g.lng_cell() + 1 < g.cells_per_axis(),
    ensures
        g.neighbor_spec(Direction::East).neighbor_spec(Direction::West) == g,
{
    let p: u8 = g.precision;
    assert(1u64 <= (1u64 << (p as u64)) <= 0x100000000u64) by (bit_vector)
        requires
            1 <= p <= 32,
    ;
    let n: int = g.cells_per_axis() as int;
    lemma_cells_in_range(g.bits, g.precision);
    lemma_small_mod(g.lat_cell() as nat, g.cells_per_axis() as nat);
    lemma_small_mod(g.lng_cell() as nat, g.cells_per_axis() as nat);
    lemma_small_mod((g.lng_cell() + 1) as nat, g.cells_per_axis() as nat);
    let e = g.neighbor_spec(Direction::East);
    crate::bits::lemma_interleave_round_trip(g.lat_cell(), (g.lng_cell() + 1) as u32);
    assert(e.lat_cell() == g.lat_cell());
    assert(e.lng_cell() == g.lng_cell() + 1);
    lemma_mod_multiples_vanish(1, g.lng_cell() as int, n);
    crate::bits::lemma_interleave_reconstruct(g.bits);
}

/// Local neighbor inverse, latitude axis: for a code whose latitude cell
/// is not at the northern wrap edge, stepping North and then South
/// returns the original code.
pub proof fn lemma_neighbor_north_south_inverse(g: GeoBits)
    requires
        g.wf(),
        g.lat_cell() + 1 < g.cells_per_axis(),
    ensures
        g.neighbor_spec(Direction::North).neighbor_spec(Direction::South) == g,
{
    let p: u8 = g.precision;
    assert(1u64 <= (1u64 << (p as u64)) <= 0x100000000u64) by (bit_vector)
        requires
            1 <= p <= 32,
    ;
    let n: int = g.cells_per_axis() as int;
    lemma_cells_in_range(g.bits, g.precision);
    lemma_small_mod(g.lat_cell() as nat, g.cells_per_axis() as nat);
    lemma_small_mod(g.lng_cell() as nat, g.cells_per_axis() as nat);
    lemma_small_mod((g.lat_cell() + 1) as nat, g.cells_per_axis() as nat);
    let nb = g.neighbor_spec(Direction::North);
    crate::bits::lemma_interleave_round_trip((g.lat_cell() + 1) as u32, g.lng_cell());
    assert(nb.lat_cell() == g.lat_cell() + 1);
    assert(nb.lng_cell() == g.lng_cell());
    lemma_mod_multiples_vanish(1, g.lat_cell() as int, n);
    crate::bits::lemma_interleave_reconstruct(g.bits);
}

} // verus!
