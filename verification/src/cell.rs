use vstd::prelude::*;

verus! {

/// One grid position's binary state. No third state ever occurs, and a
/// cell occupies a single byte, so a run of cells can serve as a raw
/// byte buffer (`Dead` as 0, `Alive` as 1).
#[derive(Clone, Copy, Debug, PartialEq, Eq, Structural)]
pub enum Cell {
    Dead,
    Alive,
}

/// The opposite state: `Dead` for `Alive` and `Alive` for `Dead`.
pub open spec fn flipped(c: Cell) -> Cell {
    match c {
        Cell::Dead => Cell::Alive,
        Cell::Alive => Cell::Dead,
    }
}

impl Cell {
    /// Flip this cell between `Alive` and `Dead`.
    pub fn toggle(&mut self)
        ensures
            *final(self) == flipped(*old(self)),
    {
        *self = match *self {
            Cell::Dead => Cell::Alive,
            Cell::Alive => Cell::Dead,
        };
    }
}

} // verus!
