use vstd::prelude::*;

verus! {

/// A decoded texture: `width × height` pixels, four bytes (red, green,
/// blue, alpha) each, row by row.
pub struct DecodedImage {
    pub width: u32,
    pub height: u32,
    pub rgba: Vec<u8>,
}

impl DecodedImage {
    /// The pixel buffer holds exactly four bytes per pixel.
    pub open spec fn wf(&self) -> bool {
        self.rgba@.len() == 4 * self.width * self.height
    }
}

} // verus!
