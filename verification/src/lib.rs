//! Tools for modeling and querying vector tile sources.
//!
//! Given a TileMill source description (such as OpenMapTiles data), this
//! library compiles the per-layer geometry templates into a single prepared
//! statement that renders a Mapbox Vector Tile for a slippy-map tile.
//! The compilation pipeline — buffer-size deduplication, parameter slot
//! assignment, and placeholder substitution — is specified and verified here;
//! the surrounding application supplies parsing of the source file and the
//! database round trip.

pub mod error;
pub mod grid;
pub mod slots;
pub mod text;
pub mod tm2;
