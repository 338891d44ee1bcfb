//! Cells of the grid.

use vstd::prelude::*;

verus! {

/// The address of a cell.
#[derive(Clone, Copy, Debug, PartialEq, Eq, Structural)]
pub struct Cell {
    pub x: i32,
    pub y: i32,
    pub z: i32,
}

impl Cell {
    /// The cell at the given address.
    pub fn new(x: i32, y: i32, z: i32) -> (cell: Cell)
        ensures
            cell == (Cell { x, y, z }),
    {
        Cell { x, y, z }
    }

    /// The sum of two addresses can be written down.
    pub open spec fn can_add(self, other: Cell) -> bool {
        &&& i32::MIN <= self.x + other.x <= i32::MAX
        &&& i32::MIN <= self.y + other.y <= i32::MAX
        &&& i32::MIN <= self.z + other.z <= i32::MAX
    }

    /// The sum of two addresses.
    pub open spec fn sum(self, other: Cell) -> Cell {
        Cell {
            x: (self.x + other.x) as i32,
            y: (self.y + other.y) as i32,
            z: (self.z + other.z) as i32,
        }
    }

    /// The address `other` away from this one.
    pub fn plus(&self, other: Cell) -> (cell: Cell)
        requires
            self.can_add(other),
        ensures
            cell == self.sum(other),
    {
        Cell { x: self.x + other.x, y: self.y + other.y, z: self.z + other.z }
    }

    /// The difference of two addresses can be written down.
    pub open spec fn can_subtract(self, other: Cell) -> bool {
        &&& i32::MIN <= self.x - other.x <= i32::MAX
        &&& i32::MIN <= self.y - other.y <= i32::MAX
        &&& i32::MIN <= self.z - other.z <= i32::MAX
    }

    /// The difference of two addresses.
    pub open spec fn difference(self, other: Cell) -> Cell {
        Cell {
            x: (self.x - other.x) as i32,
            y: (self.y - other.y) as i32,
            z: (self.z - other.z) as i32,
        }
    }

    /// The way from `other` to this address.
    pub fn minus(&self, other: Cell) -> (cell: Cell)
        requires
            self.can_subtract(other),
        ensures
            cell == self.difference(other),
    {
        Cell { x: self.x - other.x, y: self.y - other.y, z: self.z - other.z }
    }

    /// The cell lies in the volume from `min` to `max`, both of them in it.
    pub open spec fn is_inside(self, min: Cell, max: Cell) -> bool {
        &&& min.x <= self.x <= max.x
        &&& min.y <= self.y <= max.y
        &&& min.z <= self.z <= max.z
    }

    /// The cell kept inside the volume from `min` to `max`: along each axis it
    /// stops at the face it would have gone through.
    pub fn kept_inside(&self, min: Cell, max: Cell) -> (cell: Cell)
        ensures
            cell == (Cell {
                x: nearest(self.x, min.x, max.x),
                y: nearest(self.y, min.y, max.y),
                z: nearest(self.z, min.z, max.z),
            }),
    {
        Cell {
            x: clamped(self.x, min.x, max.x),
            y: clamped(self.y, min.y, max.y),
            z: clamped(self.z, min.z, max.z),
        }
    }
}

/// The number of the range from `min` to `max` that is nearest to `n`.
pub open spec fn nearest(n: i32, min: i32, max: i32) -> i32 {
    if n < min {
        min
    } else if n > max {
        max
    } else {
        n
    }
}

fn clamped(n: i32, min: i32, max: i32) -> (res: i32)
    ensures
        res == nearest(n, min, max),
{
    if n < min {
        min
    } else if n > max {
        max
    } else {
        n
    }
}

/// A cell that is kept inside a volume lies in it, and one that lies in it stays
/// where it is.
pub proof fn law_kept_inside(cell: Cell, min: Cell, max: Cell)
    requires
        min.x <= max.x,
        min.y <= max.y,
        min.z <= max.z,
    ensures
        ({
            let kept = Cell {
                x: nearest(cell.x, min.x, max.x),
                y: nearest(cell.y, min.y, max.y),
                z: nearest(cell.z, min.z, max.z),
            };
            kept.is_inside(min, max) && (cell.is_inside(min, max) ==> kept == cell)
        }),
{
}

/// What a cell of a node is for.
#[derive(Clone, Copy, Debug, PartialEq, Eq, Structural)]
pub enum CellRole {
    /// Part of the node's body.
    Body,
    /// Part of the name written along the node.
    Name,
    /// The space below an arm of a Match, where the next one would go.
    Gap,
    /// A row of an anchor.
    Anchor,
}

/// Where a node stands in its scope, and which cells it claims, each by the way
/// to it from where the node stands.
pub struct Placement {
    pub pos: Cell,
    pub cells: Vec<(Cell, CellRole)>,
}

impl Placement {
    /// The role of the first cell of the list that lies `local` from where the
    /// node stands.
    pub open spec fn role_of(self, local: Cell) -> Option<CellRole> {
        role_in(self.cells@, local)
    }

    /// What the cell at `local` is for, if it is one of the node's.
    pub fn role_at(&self, local: Cell) -> (role: Option<CellRole>)
        ensures
            role == self.role_of(local),
    {
        let mut i: usize = self.cells.len();
        let mut role: Option<CellRole> = None;
        while i > 0
            invariant
                i <= self.cells.len(),
                role == role_in(self.cells@.skip(i as int), local),
            decreases i,
        {
            i = i - 1;
            assert(self.cells@.skip(i as int).drop_first() == self.cells@.skip(i + 1));
            if self.cells[i].0 == local {
                role = Some(self.cells[i].1);
            }
        }
        assert(self.cells@.skip(0) == self.cells@);
        role
    }
}

/// The role of the first entry of `cells` at `local`.
pub open spec fn role_in(cells: Seq<(Cell, CellRole)>, local: Cell) -> Option<CellRole>
    decreases cells.len(),
{
    if cells.len() == 0 {
        None
    } else if cells[0].0 == local {
        Some(cells[0].1)
    } else {
        role_in(cells.drop_first(), local)
    }
}

/// Going somewhere and asking the way back gives the way that was gone.
pub proof fn law_there_and_back(from: Cell, way: Cell)
    requires
        from.can_add(way),
    ensures
        from.sum(way).difference(from) == way,
        from.sum(way).difference(way) == from,
        way.can_add(from),
        from.sum(way) == way.sum(from),
        from.sum(way).x == from.x + way.x,
        from.sum(way).y == from.y + way.y,
        from.sum(way).z == from.z + way.z,
{
}

/// How far two numbers are apart.
pub open spec fn apart(a: i32, b: i32) -> int {
    if a < b {
        b - a
    } else {
        a - b
    }
}

/// The nearest number of a range is in it, and none in it is nearer.
pub proof fn law_none_is_nearer(n: i32, min: i32, max: i32, other: i32)
    requires
        min <= other <= max,
    ensures
        min <= nearest(n, min, max) <= max,
        apart(n, nearest(n, min, max)) <= apart(n, other),
{
}

/// The role of a cell is that of the first entry that names it, and a cell that no
/// entry names has none.
pub proof fn law_the_first_entry_counts(cells: Seq<(Cell, CellRole)>, local: Cell)
    ensures
        role_in(cells, local) matches Some(role) ==> exists|i: int|
            {
                &&& 0 <= i < cells.len()
                &&& (#[trigger] cells[i]).0 == local
                &&& cells[i].1 == role
                &&& forall|j: int| 0 <= j < i ==> (#[trigger] cells[j]).0 != local
            },
        role_in(cells, local) is None <==> forall|i: int|
            0 <= i < cells.len() ==> (#[trigger] cells[i]).0 != local,
    decreases cells.len(),
{
    if cells.len() > 0 && cells[0].0 != local {
        let rest = cells.drop_first();
        law_the_first_entry_counts(rest, local);
        assert forall|i: int| 0 <= i < rest.len() implies cells[i + 1] == #[trigger] rest[i] by {}
        if let Some(role) = role_in(cells, local) {
            let at = choose|at: int|
                {
                    &&& 0 <= at < rest.len()
                    &&& (#[trigger] rest[at]).0 == local
                    &&& rest[at].1 == role
                    &&& forall|j: int| 0 <= j < at ==> (#[trigger] rest[j]).0 != local
                };
            assert(cells[at + 1] == rest[at]);
            assert forall|j: int| 0 <= j < at + 1 implies (#[trigger] cells[j]).0 != local by {
                if j > 0 {
                    assert(cells[j] == rest[j - 1]);
                }
            }
        } else {
            assert forall|i: int| 0 <= i < cells.len() implies (#[trigger] cells[i]).0 != local by {
                if i > 0 {
                    assert(cells[i] == rest[i - 1]);
                }
            }
        }
    } else if cells.len() > 0 {
        assert(cells[0].0 == local);
    }
}

} // verus!
