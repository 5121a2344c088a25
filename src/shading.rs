use vstd::prelude::*;

verus! {

/// How radiance is turned into 8-bit channel values.
#[derive(Clone, Copy)]
pub enum ToneMapping {
    /// Each channel clamped to [0, 1] and scaled to [0, 255].
    Linear,
}

/// The sky: a vertical gradient from white to light blue, by the ray's
/// direction.
pub struct Background {}

impl Background {
    pub fn new() -> (r: Self)
        ensures
            r == (Background {}),
    {
        Background {}
    }
}

} // verus!
