//! Record layout of the COCO-style annotation export.
//!
//! The dataset can in principle be exported to the COCO JSON layout;
//! these are the flat records of that format. No exporter is wired up:
//! the types document the target layout and hold plain values only.

use vstd::prelude::*;

verus! {

/// One image entry of a COCO export.
#[derive(Clone, PartialEq, Eq, Debug)]
pub struct CocoImage {
    pub id: u32,
    pub width: u32,
    pub height: u32,
    pub file_name: Vec<u8>,
}

/// One bounding-box annotation of a COCO export; `bbox` is pixel
/// `x, y, width, height`.
#[derive(Clone, Copy, PartialEq, Eq, Debug)]
pub struct CocoAnnotation {
    pub id: u32,
    pub image_id: u32,
    pub category_id: u32,
    pub bbox: [u32; 4],
}

/// One category entry of a COCO export.
#[derive(Clone, PartialEq, Eq, Debug)]
pub struct CocoCategory {
    pub id: u32,
    pub name: Vec<u8>,
}

} // verus!
