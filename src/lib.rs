//! Decoding of the map archives of an isometric game world and the
//! scene structures that turn decoded sprite placements into a depth-ordered,
//! viewport-culled set of drawables.

pub mod color;
pub mod cull;
pub mod decode;
pub mod map;
pub mod names;
pub mod scene;
pub mod sprite;
pub mod tgam;
pub mod timer;
