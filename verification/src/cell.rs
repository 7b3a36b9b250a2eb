//! The minimal state unit of the automaton: a liveness flag together with the
//! generation at which the cell last became alive.

use vstd::prelude::*;

verus! {

/// Binary cell state: a cell is either alive or dead.
#[derive(Clone, Copy, PartialEq, Eq, Structural, Debug)]
pub enum Live {
    Alive,
    Dead,
}

/// One cell of a grid: its liveness and the generation at which it last
/// transitioned to alive (0 at genesis).
#[derive(Clone, Copy, PartialEq, Eq, Structural, Debug)]
pub struct Cell {
    pub live: Live,
    pub birth_day: u64,
}

impl Cell {
    /// A fresh cell: alive at genesis, born on generation 0.
    pub fn new() -> (c: Cell)
        ensures
            c.live == Live::Alive,
            c.birth_day == 0,
    {
        Cell { live: Live::Alive, birth_day: 0 }
    }

    /// Whether the cell is alive.
    pub fn live(&self) -> (r: bool)
        ensures
            r == (self.live == Live::Alive),
    {
        match self.live {
            Live::Alive => true,
            Live::Dead => false,
        }
    }

    /// The generation at which the cell last became alive.
    pub fn birth_day(&self) -> (r: u64)
        ensures
            r == self.birth_day,
    {
        self.birth_day
    }

    /// Flips the cell's liveness, leaving its birth generation untouched.
    pub fn toggle(&mut self)
        ensures
            final(self).live == (match old(self).live {
                Live::Alive => Live::Dead,
                Live::Dead => Live::Alive,
            }),
            final(self).birth_day == old(self).birth_day,
    {
        match self.live {
            Live::Alive => self.live = Live::Dead,
            Live::Dead => self.live = Live::Alive,
        }
    }
}

} // verus!
