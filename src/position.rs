use vstd::prelude::*;

verus! {

/// Which way a search runs.
#[derive(PartialEq, Eq, Structural, Clone, Copy, Debug)]
pub enum SearchDirection {
    Forward,
    Backward,
}

/// A cursor place: row `y`, cursor stop `x_word_index` in that row, and `x`,
/// the display column of that stop.
#[derive(PartialEq, Eq, Structural, Clone, Copy, Debug)]
pub struct Position {
    pub x: usize,
    pub x_word_index: usize,
    pub y: usize,
}

impl Position {
    pub open spec fn default_spec() -> Position {
        Position { x: 0, x_word_index: 0, y: 0 }
    }
}

impl Default for Position {
    fn default() -> (r: Position)
        ensures
            r == (Position { x: 0, x_word_index: 0, y: 0 }),
    {
        Position { x: 0, x_word_index: 0, y: 0 }
    }
}

/// `(y1, x1)` comes before `(y2, x2)` in reading order.
pub open spec fn before(y1: int, x1: int, y2: int, x2: int) -> bool {
    y1 < y2 || (y1 == y2 && x1 < x2)
}

} // verus!
