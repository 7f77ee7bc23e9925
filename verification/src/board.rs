use vstd::prelude::*;

verus! {

use crate::plants::{PlantInstance, PlantSpecies, inst_fresh, inst_growing_wf};

/// One board cell.  A cell placed this round stays `JustPlaced` until
/// the next round tick, so the player sees it before growth starts;
/// only `Growing` cells age.
#[derive(Debug, Clone, Copy, PartialEq, Eq, Structural)]
pub enum Tile {
    Empty,
    JustPlaced(PlantInstance),
    Growing(PlantInstance),
}

/// Errors of placement.  Normal flow prevents both by checking
/// `can_place` first; a caller that bypasses the check is refused
/// instead of corrupting the board.
#[derive(Debug, Clone, Copy, PartialEq, Eq, Structural)]
pub enum PlaceError {
    OutOfBounds,
    CellOccupied,
}

/// Row-major index of the cell at `(x, y)`.
pub fn xy_idx(x: usize, y: usize, width: usize) -> (idx: usize)
    requires
        y * width + x <= usize::MAX,
    ensures
        idx == y * width + x,
{
    y * width + x
}

/// An occupied cell's instance is consistent with its stage: a
/// just-placed plant is fresh, a growing one is within its species'
/// lifetime with exactly its age worth of growth.
pub open spec fn tile_wf(t: Tile, cat: Seq<PlantSpecies>) -> bool {
    match t {
        Tile::Empty => true,
        Tile::JustPlaced(p) => inst_fresh(p, cat),
        Tile::Growing(p) => inst_growing_wf(p, cat),
    }
}

/// Fixed-size grid of cells, row-major, indexed by `(x, y)` with
/// `0 <= x < width`, `0 <= y < height`.
#[derive(Debug)]
pub struct Board {
    pub width: usize,
    pub height: usize,
    pub tiles: Vec<Tile>,
}

impl Board {
    /// The grid has positive sides and exactly one cell per position.
    pub open spec fn dims_wf(self) -> bool {
        &&& 1 <= self.width
        &&& 1 <= self.height
        &&& self.width * self.height <= usize::MAX
        &&& self.tiles@.len() == self.width * self.height
    }

    /// Every cell's instance is consistent with the catalog.
    pub open spec fn wf(self, cat: Seq<PlantSpecies>) -> bool {
        &&& self.dims_wf()
        &&& forall|i: int| 0 <= i < self.tiles@.len() ==> tile_wf(#[trigger] self.tiles@[i], cat)
    }

    pub open spec fn in_bounds(self, x: int, y: int) -> bool {
        0 <= x < self.width && 0 <= y < self.height
    }

    pub open spec fn idx_of(self, x: int, y: int) -> int {
        y * self.width + x
    }

    pub open spec fn tile_at(self, x: int, y: int) -> Tile {
        self.tiles@[self.idx_of(x, y)]
    }

    /// A plant may go at `(x, y)` exactly when that cell exists and is
    /// empty.
    pub open spec fn can_place_at(self, x: int, y: int) -> bool {
        self.in_bounds(x, y) && self.tile_at(x, y) is Empty
    }

    /// An in-bounds position indexes an existing cell.
    pub proof fn lemma_idx_in_range(self, x: int, y: int)
        requires
            self.dims_wf(),
            self.in_bounds(x, y),
        ensures
            0 <= self.idx_of(x, y) < self.tiles@.len(),
    {
        assert(y * self.width + x < self.width * self.height) by (nonlinear_arith)
            requires
                0 <= x < self.width,
                0 <= y < self.height,
        ;
    }

    /// An all-empty board of the given dimensions.
    pub fn new(width: usize, height: usize) -> (b: Board)
        requires
            1 <= width,
            1 <= height,
            width * height <= usize::MAX,
        ensures
            b.width == width,
            b.height == height,
            b.dims_wf(),
            forall|i: int| 0 <= i < b.tiles@.len() ==> b.tiles@[i] == Tile::Empty,
    {
        let n = width * height;
        let mut tiles: Vec<Tile> = Vec::new();
        let mut i: usize = 0;
        while i < n
            invariant
                i <= n,
                tiles@.len() == i,
                forall|k: int| 0 <= k < i ==> tiles@[k] == Tile::Empty,
            decreases n - i,
        {
            tiles.push(Tile::Empty);
            i = i + 1;
        }
        Board { width, height, tiles }
    }

    /// True exactly when the cell at `(x, y)` exists and is empty.
    pub fn can_place(&self, x: usize, y: usize) -> (r: bool)
        requires
            self.dims_wf(),
        ensures
            r == self.can_place_at(x as int, y as int),
    {
        if x >= self.width || y >= self.height {
            return false;
        }
        proof {
            self.lemma_idx_in_range(x as int, y as int);
        }
        let idx = xy_idx(x, y, self.width);
        match self.tiles[idx] {
            Tile::Empty => true,
            _ => false,
        }
    }

    /// Puts `p` at `(x, y)` as a just-placed cell.  Fails with
    /// `OutOfBounds` exactly when the position does not exist, and with
    /// `CellOccupied` exactly when the cell holds a plant; on failure
    /// the board is unchanged.
    pub fn place(&mut self, x: usize, y: usize, p: PlantInstance) -> (r: Result<(), PlaceError>)
        requires
            old(self).dims_wf(),
        ensures
            final(self).width == old(self).width,
            final(self).height == old(self).height,
            !old(self).in_bounds(x as int, y as int) ==> r
                == Result::<(), PlaceError>::Err(PlaceError::OutOfBounds) && *final(self) == *old(
                self,
            ),
            old(self).in_bounds(x as int, y as int) && !(old(self).tile_at(x as int, y as int)
                is Empty) ==> r == Result::<(), PlaceError>::Err(PlaceError::CellOccupied)
                && *final(self) == *old(self),
            old(self).can_place_at(x as int, y as int) ==> r is Ok && final(self).tiles@ == old(
                self,
            ).tiles@.update(old(self).idx_of(x as int, y as int), Tile::JustPlaced(p)),
    {
        if x >= self.width || y >= self.height {
            return Err(PlaceError::OutOfBounds);
        }
        proof {
            self.lemma_idx_in_range(x as int, y as int);
        }
        let idx = xy_idx(x, y, self.width);
        match self.tiles[idx] {
            Tile::Empty => {},
            _ => {
                return Err(PlaceError::CellOccupied);
            },
        }
        self.tiles[idx] = Tile::JustPlaced(p);
        Ok(())
    }

    /// Empties the cell at `(x, y)` and hands back the instance it
    /// held, if any.  A position outside the board holds nothing and
    /// changes nothing.
    pub fn clear(&mut self, x: usize, y: usize) -> (r: Option<PlantInstance>)
        requires
            old(self).dims_wf(),
        ensures
            final(self).width == old(self).width,
            final(self).height == old(self).height,
            !old(self).in_bounds(x as int, y as int) ==> r is None && *final(self) == *old(self),
            old(self).in_bounds(x as int, y as int) ==> final(self).tiles@ == old(
                self,
            ).tiles@.update(old(self).idx_of(x as int, y as int), Tile::Empty) && r == (match old(
                self,
            ).tile_at(x as int, y as int) {
                Tile::Empty => None::<PlantInstance>,
                Tile::JustPlaced(p) => Some(p),
                Tile::Growing(p) => Some(p),
            }),
    {
        if x >= self.width || y >= self.height {
            return None;
        }
        proof {
            self.lemma_idx_in_range(x as int, y as int);
        }
        let idx = xy_idx(x, y, self.width);
        let prev = self.tiles[idx];
        self.tiles[idx] = Tile::Empty;
        match prev {
            Tile::Empty => None,
            Tile::JustPlaced(p) => Some(p),
            Tile::Growing(p) => Some(p),
        }
    }
}

} // verus!
