use vstd::prelude::*;
use crate::grid::Grid;

verus! {

/// The side of the square board that the application shows.
pub const GRID_SIZE: usize = 16;

/// The application's whole state: the board on show.
pub struct ConwayApp {
    grid: Grid<GRID_SIZE, GRID_SIZE>,
}

impl Default for ConwayApp {
    /// An application showing an empty board.
    fn default() -> (r: Self)
        ensures
            r.board().wf(),
            forall|y: int, x: int| !#[trigger] r.board().cell(y, x),
    {
        ConwayApp { grid: Grid::empty() }
    }
}

impl ConwayApp {
    /// The board on show.
    pub closed spec fn board(&self) -> Grid<GRID_SIZE, GRID_SIZE> {
        self.grid
    }

    /// Restores the application from the cells it saved, if any; where
    /// there are none, or they do not decode, the board starts empty.
    pub fn restore(saved: Option<&[bool]>) -> (r: Self)
        ensures
            r.board().wf(),
            match saved {
                Some(v) => match Grid::<GRID_SIZE, GRID_SIZE>::decoded(v@) {
                    Ok(cells) => r.board()@ == cells,
                    Err(_) => forall|y: int, x: int| !#[trigger] r.board().cell(y, x),
                },
                None => forall|y: int, x: int| !#[trigger] r.board().cell(y, x),
            },
    {
        match saved {
            Some(v) => match Grid::deserialize(v) {
                Ok(grid) => ConwayApp { grid },
                Err(_) => ConwayApp::default(),
            },
            None => ConwayApp::default(),
        }
    }

    /// The cells to save, row-major.
    pub fn saved(&self) -> (r: Vec<bool>)
        ensures
            r@ == self.board()@,
    {
        self.grid.serialize()
    }

    /// Replaces the board with one drawn at random.
    pub fn randomize(&mut self)
        ensures
            final(self).board().wf(),
    {
        self.grid = Grid::random();
    }

    /// Replaces the board with its next generation.
    pub fn next(&mut self)
        ensures
            final(self).board().wf(),
            final(self).board()@ == old(self).board().next_gen(),
    {
        let mut generations = self.grid.clone().into_iter();
        let g = generations.next();
        if let Some(grid) = g {
            self.grid = grid;
        }
    }

    /// The board drawn as text.
    pub fn display(&self) -> (r: String)
        ensures
            r@ == self.board().display(),
    {
        self.grid.to_display_string()
    }
}

} // verus!
