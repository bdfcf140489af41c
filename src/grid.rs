//! A fixed block of values stored column by column.
use vstd::prelude::*;

verus! {

/// A `cols` by `rows` block of values, stored column by column: the value of
/// column `col`, row `row` sits at `col * rows + row`.
#[derive(Debug, Clone)]
pub struct Grid<T> {
    pub internal: Vec<T>,
    pub rows: usize,
    pub cols: usize,
}

pub open spec fn flat_index(rows: nat, col: nat, row: nat) -> int {
    (col * rows + row) as int
}

pub proof fn lemma_flat_index_bound(rows: nat, cols: nat, col: nat, row: nat)
    requires
        col < cols,
        row < rows,
    ensures
        0 <= flat_index(rows, col, row) < cols * rows,
        col * rows <= col * rows + row,
{
    assert(col * rows + row < cols * rows) by (nonlinear_arith)
        requires
            col < cols,
            row < rows,
    ;
}

impl<T> View for Grid<T> {
    type V = Seq<T>;

    open spec fn view(&self) -> Seq<T> {
        self.internal@
    }
}

impl<T> Grid<T> {
    /// The stored values match the dimensions.
    pub open spec fn wf(&self) -> bool {
        self@.len() == self.cols * self.rows
    }

    /// A grid over `internal`, which holds the values column by column.
    pub fn new(rows: usize, cols: usize, internal: Vec<T>) -> (r: Self)
        ensures
            r@ == internal@,
            r.rows == rows,
            r.cols == cols,
    {
        Grid { rows, cols, internal }
    }

    pub fn get(&self, col: usize, row: usize) -> (r: &T)
        requires
            self.wf(),
            col < self.cols,
            row < self.rows,
        ensures
            *r == self@[flat_index(self.rows as nat, col as nat, row as nat)],
    {
        proof {
            lemma_flat_index_bound(self.rows as nat, self.cols as nat, col as nat, row as nat);
        }
        let _n = self.internal.len();
        &self.internal[col * self.rows + row]
    }

    /// Puts `value` at `(col, row)` and hands back what stood there.
    pub fn replace(&mut self, col: usize, row: usize, value: T) -> (r: T)
        requires
            old(self).wf(),
            col < old(self).cols,
            row < old(self).rows,
        ensures
            final(self).rows == old(self).rows,
            final(self).cols == old(self).cols,
            r == old(self)@[flat_index(old(self).rows as nat, col as nat, row as nat)],
            final(self)@ == old(self)@.update(flat_index(old(self).rows as nat, col as nat, row as nat), value),
    {
        proof {
            lemma_flat_index_bound(self.rows as nat, self.cols as nat, col as nat, row as nat);
        }
        let _n = self.internal.len();
        let mut v = value;
        let i = col * self.rows + row;
        self.internal.set_and_swap(i, &mut v);
        v
    }
}

} // verus!
