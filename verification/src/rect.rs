use vstd::prelude::*;

verus! {

/// An axis-aligned rectangle in screen units, used to draw the preview of a piece.
pub struct Rect {
    position: (u32, u32),
    size: (u32, u32),
}

impl Rect {
    /// Left edge, top edge, width and height.
    pub closed spec fn data(self) -> (u32, u32, u32, u32) {
        (self.position.0, self.position.1, self.size.0, self.size.1)
    }

    /// A rectangle whose top left corner is at (`x`, `y`), `w` wide and `h` high.
    pub fn new(x: u32, y: u32, w: u32, h: u32) -> (rect: Self)
        ensures
            rect.data() == (x, y, w, h),
    {
        Self { position: (x, y), size: (w, h) }
    }

    /// Left edge, top edge, width and height, in that order.
    pub fn get_data(&self) -> (data: (u32, u32, u32, u32))
        ensures
            data == self.data(),
    {
        (self.position.0, self.position.1, self.size.0, self.size.1)
    }
}

} // verus!
