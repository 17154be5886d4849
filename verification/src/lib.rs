//! A static world map of the relays of a public relay network, and the
//! address tables of the same census.
//!
//! The map is a vector drawing on a canvas of 1200 by 600 units: country
//! boundaries under an equirectangular projection, one dot per relay in the
//! colour of its role, a legend with counts, and a ranking of countries by
//! their number of relays. Everything is computed in whole numbers: angles in
//! millionths of a degree, canvas positions in units of which 300 000 make a
//! pixel.
//!
//! - [`projection`]: angles, canvas positions, the projection, decimals.
//! - [`geometry`]: boundary geometry and its closed paths.
//! - [`relay`]: relays, their flags and roles.
//! - [`tally`]: relay counts per country, ranked.
//! - [`svg`]: the map document.
//! - [`export`]: relay addresses and the address tables.
//! - [`text`]: the text primitives the others share.

pub mod text;
pub mod projection;
pub mod geometry;
pub mod relay;
pub mod tally;
pub mod svg;
pub mod export;
