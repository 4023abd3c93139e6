use vstd::prelude::*;

verus! {

/// Which cells the player sees at the moment: one flag per cell, stored
/// column by column like the dungeon grid. It is a snapshot that whoever
/// computes the field of view fills in and the game only reads.
pub struct FovSnapshot {
    pub visible: Vec<Vec<bool>>,
}

impl View for FovSnapshot {
    type V = Seq<Seq<bool>>;

    open spec fn view(&self) -> Seq<Seq<bool>> {
        self.visible@.map_values(|column: Vec<bool>| column@)
    }
}

/// The position lies within the snapshot.
pub open spec fn covers(fov: Seq<Seq<bool>>, x: int, y: int) -> bool {
    0 <= x < fov.len() && 0 <= y < fov[x].len()
}

impl FovSnapshot {
    /// A snapshot of the given size in which no cell is visible.
    pub fn new(width: usize, height: usize) -> (fov: FovSnapshot)
        ensures
            fov@.len() == width,
            forall|x: int| 0 <= x < width ==> (#[trigger] fov@[x]).len() == height,
            forall|x: int, y: int| 0 <= x < width && 0 <= y < height ==> !(#[trigger] fov@[x][y]),
    {
        let mut visible: Vec<Vec<bool>> = Vec::new();
        let mut x: usize = 0;
        while x < width
            invariant
                x <= width,
                visible.len() == x,
                forall|i: int| 0 <= i < x ==> (#[trigger] visible[i]).len() == height,
                forall|i: int, j: int| 0 <= i < x && 0 <= j < height ==> !(#[trigger] visible[i][j]),
            decreases width - x,
        {
            let mut column: Vec<bool> = Vec::new();
            let mut y: usize = 0;
            while y < height
                invariant
                    y <= height,
                    column.len() == y,
                    forall|j: int| 0 <= j < y ==> !(#[trigger] column[j]),
                decreases height - y,
            {
                column.push(false);
                y += 1;
            }
            visible.push(column);
            x += 1;
        }
        FovSnapshot { visible }
    }

    /// Records whether the cell `(x, y)` is visible.
    pub fn set(&mut self, x: i32, y: i32, visible: bool)
        requires
            covers(old(self)@, x as int, y as int),
        ensures
            final(self)@ == old(self)@.update(
                x as int,
                old(self)@[x as int].update(y as int, visible),
            ),
    {
        self.visible[x as usize][y as usize] = visible;
        assert(self@ =~= old(self)@.update(
            x as int,
            old(self)@[x as int].update(y as int, visible),
        ));
    }

    /// Whether the cell `(x, y)` is visible.
    pub fn is_in_fov(&self, x: i32, y: i32) -> (visible: bool)
        requires
            covers(self@, x as int, y as int),
        ensures
            visible == self@[x as int][y as int],
    {
        self.visible[x as usize][y as usize]
    }
}

} // verus!
