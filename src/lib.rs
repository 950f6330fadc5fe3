//! A toroidal Game of Life engine where every live cell carries an age,
//! and an exporter that turns recorded generations into an animated GIF.

pub mod app;
pub mod export;
pub mod grid;
pub mod laws;
pub mod palette;
