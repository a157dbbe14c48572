use vstd::prelude::*;

verus! {

/// One cell of the grid, named by its column and its row.
#[derive(Clone, Copy, Debug)]
pub struct Block {
    pub location: (i32, i32),
}

impl Block {
    /// The cell as a pair of mathematical integers: column, then row.
    pub open spec fn cell(self) -> (int, int) {
        (self.location.0 as int, self.location.1 as int)
    }

    /// A cell at `location`.
    pub fn new(location: (i32, i32)) -> (block: Self)
        ensures
            block.location == location,
    {
        Block { location }
    }
}

/// The cells of a list of blocks, in order.
pub open spec fn block_cells(blocks: Seq<Block>) -> Seq<(int, int)> {
    Seq::new(blocks.len(), |i: int| blocks[i].cell())
}

} // verus!
