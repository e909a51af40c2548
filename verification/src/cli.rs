use vstd::prelude::*;

verus! {

/// The render parameters a front end hands the library: image size in
/// pixels, samples per pixel, and the bounce depth limit.
#[derive(Clone, Copy, Debug, PartialEq, Eq, Structural)]
pub struct Cli {
    pub width: u32,
    pub height: u32,
    pub samples: u32,
    pub depth: u32,
}

impl Default for Cli {
    /// The stock configuration: a 256 by 128 image, 500 samples per pixel,
    /// 50 bounces.
    fn default() -> (r: Cli)
        ensures
            r == (Cli { width: 256u32, height: 128u32, samples: 500u32, depth: 50u32 }),
    {
        Cli { width: 256, height: 128, samples: 500, depth: 50 }
    }
}

} // verus!
