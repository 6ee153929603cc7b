//! Decoders for the palette-indexed animation and image assets of a handheld
//! game: container decompression, palette colors, the per-frame animation
//! codec, the overlay compositor, still images, line tables and flat
//! archives. Every function works on bytes already in memory.
pub mod anim;
pub mod anm;
pub mod archive;
pub mod error;
pub mod image;
pub mod overlay;
pub mod palette;
pub mod text;
pub mod util;
