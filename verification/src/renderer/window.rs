//! The window's drawable surface size.

use vstd::prelude::*;

verus! {

/// A window's drawable size in pixels.
#[derive(Clone, Copy, Debug, PartialEq, Eq, Structural)]
pub struct WindowSize {
    pub width: u32,
    pub height: u32,
}

impl WindowSize {
    /// A size with the given dimensions.
    pub fn new(width: u32, height: u32) -> (r: Self)
        ensures
            r.width == width,
            r.height == height,
    {
        WindowSize { width, height }
    }

    /// The fixed-point aspect ratio, width over height, or `None` for a
    /// degenerate surface of zero height.
    pub fn aspect_fx(&self) -> (r: Option<i64>)
        ensures
            self.height == 0 ==> r is None,
            self.height != 0 ==> r == Some(
                crate::tdiv(self.width as int * 65536, self.height as int) as i64,
            ),
    {
        if self.height == 0 {
            None
        } else {
            let w = (self.width as i64) * 65536;
            Some(crate::div_trunc(w, self.height as i64))
        }
    }
}

} // verus!
