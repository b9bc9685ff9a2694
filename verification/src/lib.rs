//! Converter core for "PT" rhythm-game resource packs.
//!
//! The library turns a pack manifest (raw asset names mapped to URLs) and the
//! fetched asset bytes into the target engine's layout: renamed files, two
//! image transforms (hit-effect re-tiling and vertical hold compositing), and
//! a generated descriptor document.  All decisions and transformations are
//! verified; downloading and writing files is left to the surrounding program.

pub mod codec;
pub mod descriptor;
pub mod pack;
pub mod raster;
pub mod roles;
pub mod transform;
