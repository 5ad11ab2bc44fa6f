//! Mouse cursors: a bitmap and the pixel that points.
use vstd::prelude::*;

use crate::bitmap::BitMap;

verus! {

/// The pixel of a cursor image that points.
#[derive(Debug, Clone, Copy)]
pub struct Hotspot {
    pub x: usize,
    pub y: usize,
}

/// A cursor image and its hotspot.
#[derive(Debug)]
pub struct CursorAsset {
    pub hotspot: Hotspot,
    pub bitmap: BitMap,
}

} // verus!
