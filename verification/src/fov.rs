//! The visibility grid that the field-of-view collaborator fills in: which
//! cells the player sees this turn.

use vstd::prelude::*;

verus! {

/// One flag per cell, stored column by column. A cell outside the stored
/// columns is not visible.
#[derive(Debug)]
pub struct FovMap {
    cells: Vec<Vec<bool>>,
}

impl View for FovMap {
    type V = Seq<Seq<bool>>;

    closed spec fn view(&self) -> Seq<Seq<bool>> {
        Seq::new(self.cells@.len(), |x: int| self.cells@[x]@)
    }
}

/// Whether the flags `v` hold a set flag at `(x, y)`.
pub open spec fn seen(v: Seq<Seq<bool>>, x: int, y: int) -> bool {
    0 <= x < v.len() && 0 <= y < v[x].len() && v[x][y]
}

impl FovMap {
    /// Whether the cell `(x, y)` is in view.
    pub open spec fn sees(&self, x: int, y: int) -> bool {
        seen(self@, x, y)
    }

    /// A grid of `width` by `height` cells with nothing in view; a negative
    /// dimension counts as zero.
    pub fn new(width: i32, height: i32) -> (m: FovMap)
        ensures
            m@.len() == (if width > 0 { width as int } else { 0 }),
            forall|x: int| 0 <= x < m@.len() ==> (#[trigger] m@[x]).len() == (if height > 0 { height as int } else { 0 }),
            forall|x: int, y: int| !m.sees(x, y),
    {
        let w: i32 = if width > 0 { width } else { 0 };
        let h: i32 = if height > 0 { height } else { 0 };
        let mut cells: Vec<Vec<bool>> = Vec::new();
        let mut x: i32 = 0;
        while x < w
            invariant
                0 <= x <= w,
                0 <= h,
                cells@.len() == x,
                forall|i: int| 0 <= i < x ==> (#[trigger] cells@[i])@.len() == h,
                forall|i: int, j: int| 0 <= i < x && 0 <= j < h ==> !(#[trigger] cells@[i]@[j]),
            decreases w - x,
        {
            let mut column: Vec<bool> = Vec::new();
            let mut y: i32 = 0;
            while y < h
                invariant
                    0 <= y <= h,
                    column@.len() == y,
                    forall|j: int| 0 <= j < y ==> !(#[trigger] column@[j]),
                decreases h - y,
            {
                column.push(false);
                y = y + 1;
            }
            cells.push(column);
            x = x + 1;
        }
        FovMap { cells }
    }

    /// Whether the cell `(x, y)` is in view.
    pub fn is_in_fov(&self, x: i32, y: i32) -> (r: bool)
        ensures
            r == self.sees(x as int, y as int),
    {
        if x < 0 || y < 0 {
            return false;
        }
        if (x as usize) >= self.cells.len() {
            return false;
        }
        let column = &self.cells[x as usize];
        if (y as usize) >= column.len() {
            return false;
        }
        column[y as usize]
    }

    /// Records whether the cell `(x, y)` is in view. A cell outside the
    /// grid is left alone.
    pub fn set(&mut self, x: i32, y: i32, visible: bool)
        ensures
            final(self)@.len() == old(self)@.len(),
            forall|i: int| 0 <= i < old(self)@.len() ==> (#[trigger] final(self)@[i]).len() == old(self)@[i].len(),
            forall|i: int, j: int|
                #[trigger] final(self).sees(i, j) == (if i == x && j == y
                    && 0 <= i < old(self)@.len() && 0 <= j < old(self)@[i].len() {
                    visible
                } else {
                    old(self).sees(i, j)
                }),
    {
        if x < 0 || y < 0 {
            return ;
        }
        if (x as usize) >= self.cells.len() {
            return ;
        }
        if (y as usize) >= self.cells[x as usize].len() {
            return ;
        }
        self.cells[x as usize][y as usize] = visible;
    }
}

} // verus!
