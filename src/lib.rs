//! Decoders for legacy big-endian asset formats: the relocatable segment
//! container, disk fonts and interleaved bitmap images, and the conversion of
//! planar pixel data into packed RGBA buffers.
pub mod error;
pub mod byteops;
pub mod colors;
pub mod bitmap;
pub mod hunk;
pub mod iff_image;
pub mod font;
pub mod font_dir;
pub mod cycle;
pub mod placard;
pub mod cursor;
pub mod game_clock;
