//! A two-dimensional particle fluid simulation in fixed-point arithmetic:
//! a spatial grid of chunks, a neighbour query over it, a short-range
//! dispersion force, elastic collisions, boundary reflection and the
//! per-frame driver that ties them together over a double-buffered grid.
pub mod geometry;
pub mod config;
pub mod particle;
pub mod chunk_map;
pub mod neighbors;
pub mod force;
pub mod collision;
pub mod boundary;
pub mod frame;
pub mod setup;
pub mod density;
pub mod article;
