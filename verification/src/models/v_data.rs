//! The rendered outcome: exactly one of a still image or a video, never both.

use vstd::prelude::*;

verus! {

/// A finished render. The tagged union makes "both populated" unrepresentable.
#[derive(Debug)]
pub enum VData {
    Image(Vec<u8>),
    Video(Vec<u8>),
}

impl VData {
    /// The payload bytes, whichever variant holds them.
    pub fn bytes(&self) -> (r: &Vec<u8>)
        ensures
            self is Image ==> r == self->Image_0,
            self is Video ==> r == self->Video_0,
    {
        match self {
            VData::Image(b) => b,
            VData::Video(b) => b,
        }
    }
}

/// Every value of the result type is exactly one of the two variants:
/// a render can never carry both an image and a video.
pub proof fn lemma_vdata_exclusive(v: VData)
    ensures
        (v is Image) != (v is Video),
{
}

} // verus!
