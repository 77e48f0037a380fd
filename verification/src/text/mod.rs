//! Text subsystem: the glyph atlas, the raster cache, and what a glyph run
//! asks of them.

pub mod atlas;
pub mod cache;
pub mod engine;
pub mod laws;
