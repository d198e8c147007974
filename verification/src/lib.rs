pub mod bits;
pub mod geohash;
