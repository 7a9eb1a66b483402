//! Draws a bitmap on a shared remote canvas by probing IPv6 addresses.
//!
//! Every visible pixel of an image is packed, together with its position on
//! the canvas, into the low half of a destination address. Sending a probe to
//! that address draws the pixel. The crate holds the address layout, the
//! scaling of a decoded image to a pixel grid, the sampling of the grid into
//! work units, and the state machine that paces each worker; files, sockets,
//! threads and clocks live with the caller.

pub mod address;
pub mod dispatch;
pub mod filter;
pub mod grid;
pub mod raster;
pub mod sampler;
pub mod units;
