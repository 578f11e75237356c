use vstd::prelude::*;

verus! {

/// An axis-aligned rectangle given by its side lengths.
pub struct Rect {
    pub width: u32,
    pub height: u32,
}

impl Rect {
    /// The area, width times height.
    pub fn area(&self) -> (r: u32)
        requires
            self.width * self.height <= u32::MAX,
        ensures
            r == self.width * self.height,
    {
        self.width * self.height
    }
}

} // verus!
