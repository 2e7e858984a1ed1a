//! Error types surfaced by loading, saving and label management.

use vstd::prelude::*;

verus! {

/// Why a dataset could not be assembled from its descriptor and sidecars.
#[derive(Clone, Debug)]
pub enum LoadError {
    /// The descriptor text is not a well-formed document; carries the
    /// parser's message.
    DescriptorUnparsable(Vec<u8>),
    /// The descriptor lacks the required `train` entry.
    MissingTrain,
    /// The descriptor lacks the required `val` entry.
    MissingVal,
    /// The descriptor lacks a `names` mapping.
    MissingNames,
    /// A `names` entry has a non-integer or oversized ID, or a
    /// non-string name.
    BadNamesEntry,
    /// A sidecar line is not `label_id cx cy w h`.
    MalformedSidecarLine,
}

/// Why the in-memory project could not be serialized.
#[derive(Clone, Debug)]
pub enum SaveError {
    /// The descriptor document could not be re-serialized; carries the
    /// serializer's message.
    Descriptor(Vec<u8>),
}

/// Reported when a label is added under an ID that is already taken;
/// the registry is left unchanged.
#[derive(Clone, Copy, PartialEq, Eq, Structural, Debug)]
pub struct LabelConflict;

} // verus!
