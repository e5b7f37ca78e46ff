//! Streaming of map tiles for a pannable, zoomable map.
//!
//! - [`tile`]: tile indices and the world square of the projection;
//! - [`local`]: between the world square and the display;
//! - [`display`]: the arithmetic of the display, exact in whole numbers;
//! - [`source`]: the tile sources, of which one is enabled;
//! - [`fetch`]: the protocol of a fetch, the cache layout and the URLs;
//! - [`decode`] and [`vector`]: raster and vector tiles decoded;
//! - [`raster`]: the drawing plan of a vector tile;
//! - [`chunk`] and [`queue`]: the chunks on display and the queue on which
//!   their tiles come in;
//! - [`resources`]: the viewer as a whole, with its zoom level and the place
//!   at which it looks;
//! - [`camera`], [`errors`] and [`text`]: settings, errors and helpers.
//!
//! The library decides and computes; reading files, talking to servers,
//! sleeping, painting and everything in floating point is left to the host.

pub mod camera;
pub mod chunk;
pub mod decode;
pub mod display;
pub mod errors;
pub mod fetch;
pub mod local;
pub mod queue;
pub mod raster;
pub mod resources;
pub mod source;
pub mod text;
pub mod tile;
pub mod vector;
