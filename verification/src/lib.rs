//! Core of a YOLO-style bounding-box annotation tool: the project model
//! (images, labels, per-image region lists), the fixed-point coordinate
//! mapping between screen space and stored fractional coordinates, the
//! tool-mode state machine for stamping, dragging and editing regions,
//! and the sidecar label-file codec.

use vstd::prelude::*;

pub mod coco;
pub mod colors;
pub mod descriptor;
pub mod digits;
pub mod errors;
pub mod fixed;
pub mod geom;
pub mod mapper;
pub mod paths;
pub mod project;
pub mod yolo;

verus! {

} // verus!
