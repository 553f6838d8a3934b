//! A map-tile engine for a pan/zoom slippy-map viewer.
//!
//! The engine converts between three coordinate spaces — Web Mercator
//! positions, slippy-map tile indices, and camera/world pixel offsets — and
//! keeps a spatial index of the tiles that are currently loaded, so that a
//! frame can cheaply ask which tiles overlap the visible viewport.
//!
//! All geometry is held in fixed-point integers: Mercator positions in
//! millimetres, longitudes in microdegrees, camera offsets in whole pixels.
//! The one conversion with no fixed-point form — latitude in degrees to its
//! Mercator projection, which is transcendental — is the caller's, at the
//! boundary where positions enter the engine.

pub mod coords;
pub mod index;
pub mod intmath;
pub mod proj;
pub mod render;
pub mod viewport;
