//! Wave function collapse on a square grid of tiles.
//!
//! A catalog of weighted tile definitions is laid out on a grid so that
//! tiles that lie side by side show each other edges with one label. A cell
//! of the grid starts with every tile of the catalog as a candidate.
//! Collapsing a cell draws one of its candidates, by weight, and shows the
//! new tile's edges to the four neighbours, which drop the candidates that
//! do not fit. A strategy decides which cell is collapsed next. A cell that
//! loses all its candidates stays empty: nothing is taken back.
//!
//! The modules, from the ground up:
//!
//! - [`direction`], [`grid`]: the four directions and the numbering of cells;
//! - [`tile_data`], [`tile`], [`scene`]: the catalog's tiles, the cells, and
//!   the record of what was placed;
//! - [`random`]: the random source and the two draws made from it;
//! - [`model`]: a run as a function of what is drawn;
//! - [`wave_function_collapse`]: the solver and its four strategies;
//! - [`progress`], [`consistency`], [`completion`], [`ordered_coverage`]:
//!   what holds of every run;
//! - [`text`], [`config`]: reading the run configuration and the catalog;
//! - [`controls`], [`raster`]: the bindings of keys and mouse buttons, and
//!   the texel grid of a texture.

pub mod completion;
pub mod config;
pub mod consistency;
pub mod controls;
pub mod direction;
pub mod grid;
pub mod iteration;
pub mod model;
pub mod ordered_coverage;
pub mod progress;
pub mod random;
pub mod raster;
pub mod scene;
pub mod text;
pub mod tile;
pub mod tile_data;
pub mod wave_function_collapse;
