use vstd::prelude::*;

verus! {

/// A room: the cells strictly between the columns `x1` and `x2` and
/// strictly between the rows `y1` and `y2`. The cells on those four lines
/// are its walls.
#[derive(Clone, Copy, Debug, PartialEq, Eq, Structural)]
pub struct Rect {
    pub x1: i32,
    pub y1: i32,
    pub x2: i32,
    pub y2: i32,
}

/// Half of `n`, rounded towards zero.
pub open spec fn half(n: int) -> int {
    if n >= 0 {
        n / 2
    } else {
        -((-n) / 2)
    }
}

impl Rect {
    /// The cell `(x, y)` lies inside the room, walls excluded.
    pub open spec fn contains(self, x: int, y: int) -> bool {
        self.x1 < x < self.x2 && self.y1 < y < self.y2
    }

    /// The middle of the room.
    pub open spec fn spec_center(self) -> (int, int) {
        (half(self.x1 + self.x2), half(self.y1 + self.y2))
    }

    /// The two rooms, walls included, have a cell in common.
    pub open spec fn touches(self, other: Rect) -> bool {
        &&& self.x1 <= other.x2
        &&& self.x2 >= other.x1
        &&& self.y1 <= other.y2
        &&& self.y2 >= other.y1
    }

    /// The room with its top-left wall corner at `(x, y)` that spans `w`
    /// columns and `h` rows beyond it.
    pub fn new(x: i32, y: i32, w: i32, h: i32) -> (room: Rect)
        requires
            i32::MIN <= x + w <= i32::MAX,
            i32::MIN <= y + h <= i32::MAX,
        ensures
            room == (Rect { x1: x, y1: y, x2: (x + w) as i32, y2: (y + h) as i32 }),
    {
        Rect { x1: x, y1: y, x2: x + w, y2: y + h }
    }

    /// The middle of the room.
    pub fn center(&self) -> (c: (i32, i32))
        ensures
            (c.0 as int, c.1 as int) == self.spec_center(),
    {
        let center_x: i64 = (self.x1 as i64 + self.x2 as i64) / 2;
        let center_y: i64 = (self.y1 as i64 + self.y2 as i64) / 2;
        (center_x as i32, center_y as i32)
    }

    /// Whether the two rooms, walls included, have a cell in common. Rooms
    /// for which this is false are separated by at least one cell that
    /// belongs to neither.
    pub fn intersects_with(&self, other: &Rect) -> (b: bool)
        ensures
            b == self.touches(*other),
    {
        (self.x1 <= other.x2) && (self.x2 >= other.x1) && (self.y1 <= other.y2) && (self.y2
            >= other.y1)
    }
}

/// A room of at least two columns and two rows holds its own middle.
pub proof fn lemma_center_inside(room: Rect)
    requires
        room.x1 + 2 <= room.x2,
        room.y1 + 2 <= room.y2,
    ensures
        room.contains(room.spec_center().0, room.spec_center().1),
{
}

} // verus!
