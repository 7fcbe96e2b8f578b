//! The boundary to one discovery backend: the loader that materializes a
//! renderable face from a descriptor. Each adapter over an underlying
//! discovery library implements this once; the registry never calls the
//! library itself.

use vstd::prelude::*;
use crate::font_info::FontInfo;
use crate::font_info::LoadError;

verus! {

/// One backend's face loader. A load may fail with a [`LoadError`] when the
/// descriptor's path is unreadable or the backend's parser rejects the
/// file; nothing is assumed of the outcome — the registry states what holds
/// whatever comes back.
pub trait FontSource {
    /// The backend-specific handle of a loaded face.
    type Face;

    /// Materialize the face a descriptor points at.
    fn load_face(&mut self, info: &FontInfo) -> Result<Self::Face, LoadError>;
}

} // verus!
