//! The verified core of a small racing game: OpenStreetMap data becomes roads and
//! buildings, roads become a track, and the track is driven.
//!
//! Numbers with a fraction are held as IEEE 754 bit patterns. What only compares,
//! selects, negates or moves them is decided here; what rounds is computed by the caller
//! and handed in.
pub mod audio;
pub mod cli;
pub mod drive;
pub mod editor;
pub mod fetch;
pub mod geojson_text;
pub mod geometry;
pub mod mesh;
pub mod osm;
pub mod single;
pub mod text;
pub mod track;
pub mod world;
pub mod world_map;
pub mod xml;
