//! A verified decoder and spatial-query engine for the BSP30 level format.
//!
//! The library parses the binary level file (and its companion WAD texture
//! archives) from in-memory byte buffers into navigable record arrays, and
//! answers point-location and visibility queries against the decoded tree.
//! All file reading, float-valued geometry and rendering stay outside the
//! library; the wire values of floating-point fields are carried through as
//! their raw IEEE-754 bit patterns.

pub mod codec;
pub mod bsp30;
pub mod image;
pub mod entity;
pub mod mathutil;
pub mod wad;
pub mod atlas;
pub mod vis;
pub mod bsp;
