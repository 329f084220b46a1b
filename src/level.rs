use vstd::prelude::*;

use crate::action::{dir_delta, Dir};

verus! {

/// Opaque identifier of a game entity (the engine's entity handle as bits).
#[derive(Clone, Copy, Debug, PartialEq, Eq, Structural, Hash)]
pub struct EntityId(pub u64);

/// A cell address: `x` grows to the east, `y` grows to the south, `z` is the layer.
#[derive(Clone, Copy, Debug, PartialEq, Eq, Structural, Default)]
pub struct Pos {
    pub x: i32,
    pub y: i32,
    pub z: i32,
}

impl Pos {
    /// Can `step` be taken from this position in any direction without leaving `i32`?
    pub open spec fn steppable(self) -> bool {
        i32::MIN < self.x < i32::MAX && i32::MIN < self.y < i32::MAX
    }

    pub open spec fn spec_step(self, dir: Dir) -> Pos {
        Pos {
            x: (self.x + dir_delta(dir).0) as i32,
            y: (self.y + dir_delta(dir).1) as i32,
            z: self.z,
        }
    }

    /// The neighbouring position one unit in direction `dir`, on the same layer.
    pub fn step(&self, dir: Dir) -> (r: Pos)
        requires
            self.steppable(),
        ensures
            r == self.spec_step(dir),
            r.x == self.x + dir_delta(dir).0,
            r.y == self.y + dir_delta(dir).1,
            r.z == self.z,
    {
        match dir {
            Dir::North => Pos { y: self.y - 1, ..*self },
            Dir::Northeast => Pos { y: self.y - 1, x: self.x + 1, ..*self },
            Dir::East => Pos { x: self.x + 1, ..*self },
            Dir::Southeast => Pos { y: self.y + 1, x: self.x + 1, ..*self },
            Dir::South => Pos { y: self.y + 1, ..*self },
            Dir::Southwest => Pos { y: self.y + 1, x: self.x - 1, ..*self },
            Dir::West => Pos { x: self.x - 1, ..*self },
            Dir::Northwest => Pos { y: self.y - 1, x: self.x - 1, ..*self },
        }
    }
}

/// What occupies one cell of the grid.
#[derive(Clone, Copy, Debug, PartialEq, Eq, Structural)]
pub enum PosState {
    Empty,
    Solid,
    Floorless,
    Entity(EntityId),
    /// A hazard; the damage is carried as the bit pattern of an IEEE single.
    Damaging(u32),
}

impl PosState {
    pub open spec fn spec_is_blocking(self) -> bool {
        !(self is Empty || self is Damaging)
    }

    /// `Empty` and `Damaging` can be walked into; everything else blocks.
    pub fn is_blocking(&self) -> (r: bool)
        ensures
            r == self.spec_is_blocking(),
    {
        match self {
            PosState::Empty | PosState::Damaging(_) => false,
            _ => true,
        }
    }
}

impl Default for PosState {
    fn default() -> (r: PosState)
        ensures
            r == PosState::Empty,
    {
        PosState::Empty
    }
}

/// Is `p` an addressable cell of the layered array `g`?
pub open spec fn in_bounds(g: Seq<Seq<Seq<PosState>>>, p: Pos) -> bool {
    &&& 0 <= p.x && 0 <= p.y && 0 <= p.z
    &&& p.z < g.len()
    &&& p.y < g[p.z as int].len()
    &&& p.x < g[p.z as int][p.y as int].len()
}

/// The state of cell `p`; cells outside the array read as `Empty`.
pub open spec fn cell(g: Seq<Seq<Seq<PosState>>>, p: Pos) -> PosState {
    if in_bounds(g, p) {
        g[p.z as int][p.y as int][p.x as int]
    } else {
        PosState::Empty
    }
}

/// `g` with cell `p` replaced by `s`; unchanged when `p` is outside the array.
pub open spec fn with_cell(g: Seq<Seq<Seq<PosState>>>, p: Pos, s: PosState) -> Seq<Seq<Seq<PosState>>> {
    if in_bounds(g, p) {
        let (x, y, z) = (p.x as int, p.y as int, p.z as int);
        g.update(z, g[z].update(y, g[z][y].update(x, s)))
    } else {
        g
    }
}

/// Writing a cell inside the array changes that cell only, and keeps the array's shape.
pub proof fn lemma_with_cell(g: Seq<Seq<Seq<PosState>>>, p: Pos, s: PosState, q: Pos)
    ensures
        in_bounds(with_cell(g, p, s), q) == in_bounds(g, q),
        cell(with_cell(g, p, s), q) == if q == p && in_bounds(g, p) { s } else { cell(g, q) },
{
}

/// Every layer has `height` rows of `width` empty cells.
pub open spec fn is_blank(g: Seq<Seq<Seq<PosState>>>, width: nat, height: nat, layers: nat) -> bool {
    &&& g.len() == layers
    &&& forall|z: int| 0 <= z < layers ==> #[trigger] g[z].len() == height
    &&& forall|z: int, y: int|
        0 <= z < layers && 0 <= y < height ==> #[trigger] g[z][y].len() == width
    &&& forall|z: int, y: int, x: int|
        0 <= z < layers && 0 <= y < height && 0 <= x < width ==> #[trigger] g[z][y][x]
            == PosState::Empty
}

/// A layered occupancy grid, indexed `[layer][row][column]`.
pub struct Grid(pub Vec<Vec<Vec<PosState>>>);

impl View for Grid {
    type V = Seq<Seq<Seq<PosState>>>;

    closed spec fn view(&self) -> Seq<Seq<Seq<PosState>>> {
        Seq::new(self.0@.len(), |z: int| Seq::new(self.0@[z]@.len(), |y: int| self.0@[z]@[y]@))
    }
}

fn blank_row(width: usize) -> (r: Vec<PosState>)
    ensures
        r@.len() == width,
        forall|x: int| 0 <= x < width ==> #[trigger] r@[x] == PosState::Empty,
{
    let mut row: Vec<PosState> = Vec::new();
    while row.len() < width
        invariant
            row@.len() <= width,
            forall|x: int| 0 <= x < row@.len() ==> #[trigger] row@[x] == PosState::Empty,
        decreases width - row@.len(),
    {
        row.push(PosState::Empty);
    }
    row
}

fn blank_layer(width: usize, height: usize) -> (r: Vec<Vec<PosState>>)
    ensures
        r@.len() == height,
        forall|y: int| 0 <= y < height ==> (#[trigger] r@[y])@.len() == width,
        forall|y: int, x: int| 0 <= y < height && 0 <= x < width ==> #[trigger] r@[y]@[x] == PosState::Empty,
{
    let mut layer: Vec<Vec<PosState>> = Vec::new();
    while layer.len() < height
        invariant
            layer@.len() <= height,
            forall|y: int| 0 <= y < layer@.len() ==> (#[trigger] layer@[y])@.len() == width,
            forall|y: int, x: int| 0 <= y < layer@.len() && 0 <= x < width ==> #[trigger] layer@[y]@[x] == PosState::Empty,
        decreases height - layer@.len(),
    {
        layer.push(blank_row(width));
    }
    layer
}

impl Grid {
    /// A grid of `layers` layers, each `height` rows of `width` empty cells.
    pub fn new(width: usize, height: usize, layers: usize) -> (g: Grid)
        ensures
            is_blank(g@, width as nat, height as nat, layers as nat),
    {
        let mut cells: Vec<Vec<Vec<PosState>>> = Vec::new();
        while cells.len() < layers
            invariant
                cells@.len() <= layers,
                forall|z: int| 0 <= z < cells@.len() ==> (#[trigger] cells@[z])@.len() == height,
                forall|z: int, y: int|
                    0 <= z < cells@.len() && 0 <= y < height ==> (#[trigger] cells@[z]@[y])@.len() == width,
                forall|z: int, y: int, x: int|
                    0 <= z < cells@.len() && 0 <= y < height && 0 <= x < width ==> #[trigger] cells@[z]@[y]@[x]
                        == PosState::Empty,
            decreases layers - cells@.len(),
        {
            cells.push(blank_layer(width, height));
        }
        let g = Grid(cells);
        assert(is_blank(g@, width as nat, height as nat, layers as nat));
        g
    }

    /// The state of the cell at `pos`. Total: positions with a negative coordinate or
    /// beyond the grid read as `PosState::Empty`.
    pub fn get(&self, pos: &Pos) -> (r: PosState)
        ensures
            r == cell(self@, *pos),
            !in_bounds(self@, *pos) ==> r == PosState::Empty,
    {
        if pos.x < 0 || pos.y < 0 || pos.z < 0 {
            return PosState::Empty;
        }
        let (x, y, z) = (pos.x as usize, pos.y as usize, pos.z as usize);
        if z < self.0.len() && y < self.0[z].len() && x < self.0[z][y].len() {
            self.0[z][y][x]
        } else {
            PosState::Empty
        }
    }

    /// Writes `state` into the cell at `pos`; a position outside the grid (including any
    /// negative coordinate) leaves the grid unchanged.
    pub fn set(&mut self, pos: &Pos, state: PosState)
        ensures
            final(self)@ == with_cell(old(self)@, *pos, state),
    {
        if pos.x < 0 || pos.y < 0 || pos.z < 0 {
            return;
        }
        let (x, y, z) = (pos.x as usize, pos.y as usize, pos.z as usize);
        if z < self.0.len() && y < self.0[z].len() && x < self.0[z][y].len() {
            let ghost before = self@;
            self.0[z][y][x] = state;
            let ghost after = with_cell(before, *pos, state);
            assert forall|k: int| 0 <= k < self@.len() implies self@[k] =~= after[k] by {
                if k == z as int {
                    assert forall|j: int| 0 <= j < self@[k].len() implies self@[k][j] =~= after[k][j] by {}
                }
            }
            assert(self@ =~= after);
        }
    }
}

} // verus!
