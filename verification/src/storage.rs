//! Type-erased column storage: one `RawTable` per registered component type.
//!
//! A `RawTable` holds one column per archetype that includes its component
//! type; a column is a growable list of cells, and every cell is the raw
//! byte image of one component value, always exactly `cell_size` bytes.
//! The capability surface — push an empty column, move one cell to a sibling
//! column, drop one cell in place — is everything the archetype table needs
//! to migrate rows without knowing the component's real type.

use vstd::prelude::*;

verus! {

/// What `Vec::swap_remove` leaves behind: the last element moves into the
/// hole and the sequence shrinks by one.
pub open spec fn swap_removed<T>(s: Seq<T>, i: int) -> Seq<T> {
    s.update(i, s.last()).drop_last()
}

/// No element appears twice.
pub open spec fn seq_unique<T>(s: Seq<T>) -> bool {
    forall|i: int, j: int|
        0 <= i < s.len() && 0 <= j < s.len() && #[trigger] s[i] == #[trigger] s[j] ==> i == j
}

/// How swap-remove moves the surviving elements: everything keeps its index,
/// except the old last element, which lands in the hole.
pub proof fn lemma_swap_removed_tracking<T>(s: Seq<T>, row: int, x: T)
    requires
        seq_unique(s),
        0 <= row < s.len(),
        s.contains(x),
        x != s[row],
    ensures
        swap_removed(s, row).contains(x),
        s.index_of(x) == s.len() - 1 ==> swap_removed(s, row).index_of(x) == row,
        s.index_of(x) != s.len() - 1 ==> swap_removed(s, row).index_of(x) == s.index_of(x),
{
    let s2 = swap_removed(s, row);
    let j0 = s.index_of(x);
    assert(s[j0] == x);
    assert(j0 != row);
    let j1: int = if j0 == s.len() - 1 {
        row
    } else {
        j0
    };
    assert(s2[j1] == x);
    assert(s2.contains(x));
    let j2 = s2.index_of(x);
    assert(s2[j2] == x);
    if j2 != j1 {
        if j2 == row {
            assert(s2[j2] == s[s.len() - 1]);
            assert(s[s.len() - 1] == s[j0]);
        } else {
            assert(s2[j2] == s[j2]);
            assert(s[j2] == s[j0]);
        }
    }
}

/// Swap-remove keeps the list duplicate-free, and the survivors are exactly
/// the old elements other than the removed one.
pub proof fn lemma_swap_removed_unique<T>(s: Seq<T>, row: int)
    requires
        seq_unique(s),
        0 <= row < s.len(),
    ensures
        seq_unique(swap_removed(s, row)),
        forall|x: T|
            #[trigger] swap_removed(s, row).contains(x) <==> (s.contains(x) && x != s[row]),
{
    let s2 = swap_removed(s, row);
    assert forall|i: int, j: int|
        0 <= i < s2.len() && 0 <= j < s2.len() && #[trigger] s2[i] == #[trigger] s2[j] implies i
        == j by {
        let oi: int = if i == row {
            s.len() - 1
        } else {
            i
        };
        let oj: int = if j == row {
            s.len() - 1
        } else {
            j
        };
        assert(s2[i] == s[oi]);
        assert(s2[j] == s[oj]);
    }
    assert forall|x: T| #[trigger] s2.contains(x) implies (s.contains(x) && x != s[row]) by {
        let i = choose|i: int| 0 <= i < s2.len() && s2[i] == x;
        let oi: int = if i == row {
            s.len() - 1
        } else {
            i
        };
        assert(s[oi] == x);
        if x == s[row] {
            assert(oi == row);
        }
    }
    assert forall|x: T| s.contains(x) && x != s[row] implies #[trigger] s2.contains(x) by {
        lemma_swap_removed_tracking(s, row, x);
    }
}

/// Appending a fresh element keeps the list duplicate-free and moves no
/// existing element.
pub proof fn lemma_push_tracking<T>(s: Seq<T>, x: T)
    requires
        seq_unique(s),
        !s.contains(x),
    ensures
        seq_unique(s.push(x)),
        s.push(x).index_of(x) == s.len(),
        s.push(x).contains(x),
        forall|y: T| #[trigger] s.contains(y) ==> s.push(x).contains(y) && s.push(x).index_of(y)
            == s.index_of(y),
        forall|y: T| #[trigger] s.push(x).contains(y) ==> s.contains(y) || y == x,
{
    let s2 = s.push(x);
    assert forall|i: int, j: int|
        0 <= i < s2.len() && 0 <= j < s2.len() && #[trigger] s2[i] == #[trigger] s2[j] implies i
        == j by {
        if i < s.len() && j < s.len() {
            assert(s[i] == s[j]);
        } else if i < s.len() && j == s.len() {
            assert(s[i] == x);
            assert(s.contains(s[i]));
        } else if j < s.len() && i == s.len() {
            assert(s[j] == x);
            assert(s.contains(s[j]));
        }
    }
    assert(s2[s.len() as int] == x);
    assert(s2.contains(x));
    let jx = s2.index_of(x);
    assert(s2[jx] == x);
    if jx != s.len() {
        assert(s[jx] == x);
        assert(s.contains(s[jx]));
    }
    assert forall|y: T| #[trigger] s.contains(y) implies s2.contains(y) && s2.index_of(y)
        == s.index_of(y) by {
        let j0 = s.index_of(y);
        assert(s[j0] == y);
        assert(s2[j0] == y);
        assert(s2.contains(y));
        let j1 = s2.index_of(y);
        assert(s2[j1] == y);
        if j1 != j0 {
            if j1 == s.len() {
                assert(y == x);
            } else {
                assert(s[j1] == s[j0]);
            }
        }
    }
    assert forall|y: T| #[trigger] s2.contains(y) implies s.contains(y) || y == x by {
        let j = choose|j: int| 0 <= j < s2.len() && s2[j] == y;
        if j < s.len() {
            assert(s[j] == y);
        }
    }
}

/// The raw storage behind one component type's handle: a family of columns,
/// one per archetype that carries the type.
pub struct RawTable {
    pub cell_size: usize,
    pub cols: Vec<Vec<Vec<u8>>>,
}

impl RawTable {
    /// The bytes of one cell.
    pub open spec fn spec_cell(self, c: int, r: int) -> Seq<u8> {
        self.cols@[c]@[r]@
    }

    /// One whole column, as a sequence of cell byte images.
    pub open spec fn spec_col(self, c: int) -> Seq<Seq<u8>> {
        Seq::new(self.cols@[c]@.len(), |r: int| self.cols@[c]@[r]@)
    }

    pub open spec fn n_cols(self) -> nat {
        self.cols@.len()
    }

    pub open spec fn col_len(self, c: int) -> nat {
        self.cols@[c]@.len()
    }

    /// Every cell holds exactly `cell_size` bytes, and a cell is never empty.
    pub open spec fn wf(self) -> bool {
        &&& self.cell_size >= 1
        &&& forall|c: int, r: int|
            0 <= c < self.cols@.len() && 0 <= r < self.cols@[c]@.len()
                ==> (#[trigger] self.cols@[c]@[r]@).len() == self.cell_size
    }

    pub fn new(cell_size: usize) -> (r: Self)
        requires
            cell_size >= 1,
        ensures
            r.wf(),
            r.cell_size == cell_size,
            r.n_cols() == 0,
    {
        RawTable { cell_size, cols: Vec::new() }
    }

    /// Appends one empty column and returns its index.
    pub fn push_empty_column(&mut self) -> (c: usize)
        ensures
            c == old(self).n_cols(),
            final(self).cell_size == old(self).cell_size,
            final(self).n_cols() == old(self).n_cols() + 1,
            final(self).col_len(c as int) == 0,
            forall|c2: int|
                0 <= c2 < old(self).n_cols() ==> final(self).cols@[c2] == old(self).cols@[c2],
            old(self).wf() ==> final(self).wf(),
    {
        let c = self.cols.len();
        self.cols.push(Vec::new());
        c
    }

    /// Appends one cell to a column.
    pub fn push_cell(&mut self, c: usize, cell: Vec<u8>)
        requires
            c < old(self).n_cols(),
            cell@.len() == old(self).cell_size,
        ensures
            final(self).cell_size == old(self).cell_size,
            final(self).n_cols() == old(self).n_cols(),
            final(self).cols@[c as int]@ == old(self).cols@[c as int]@.push(cell),
            final(self).col_len(c as int) == old(self).col_len(c as int) + 1,
            forall|c2: int|
                0 <= c2 < old(self).n_cols() && c2 != c ==> final(self).cols@[c2] == old(self).cols@[c2],
            old(self).wf() ==> final(self).wf(),
    {
        let col = &mut self.cols[c];
        col.push(cell);
    }

    /// Reads one cell.
    pub fn cell(&self, c: usize, r: usize) -> (b: &Vec<u8>)
        requires
            c < self.n_cols(),
            r < self.col_len(c as int),
        ensures
            b@ == self.spec_cell(c as int, r as int),
    {
        &self.cols[c][r]
    }

    /// Copies one cell out.
    pub fn cell_cloned(&self, c: usize, r: usize) -> (b: Vec<u8>)
        requires
            c < self.n_cols(),
            r < self.col_len(c as int),
        ensures
            b@ == self.spec_cell(c as int, r as int),
    {
        let cell = &self.cols[c][r];
        let b = cell.clone();
        proof {
            assert(b@ =~= cell@);
        }
        b
    }

    /// Overwrites one cell and hands back the bytes it held before.
    pub fn replace_cell(&mut self, c: usize, r: usize, cell: Vec<u8>) -> (prev: Vec<u8>)
        requires
            c < old(self).n_cols(),
            r < old(self).col_len(c as int),
            cell@.len() == old(self).cell_size,
        ensures
            prev@ == old(self).spec_cell(c as int, r as int),
            final(self).cell_size == old(self).cell_size,
            final(self).n_cols() == old(self).n_cols(),
            final(self).cols@[c as int]@ == old(self).cols@[c as int]@.update(r as int, cell),
            forall|c2: int|
                0 <= c2 < old(self).n_cols() && c2 != c ==> final(self).cols@[c2] == old(self).cols@[c2],
            old(self).wf() ==> final(self).wf(),
    {
        let mut cell = cell;
        let slot = &mut self.cols[c][r];
        core::mem::swap(slot, &mut cell);
        cell
    }

    /// Removes the cell of row `r` from column `c` by swap-remove and hands
    /// it back: the last cell moves into the hole.
    pub fn swap_remove_cell(&mut self, c: usize, r: usize) -> (cell: Vec<u8>)
        requires
            c < old(self).n_cols(),
            r < old(self).col_len(c as int),
        ensures
            cell == old(self).cols@[c as int]@[r as int],
            cell@ == old(self).spec_cell(c as int, r as int),
            final(self).cell_size == old(self).cell_size,
            final(self).n_cols() == old(self).n_cols(),
            final(self).cols@[c as int]@ == swap_removed(old(self).cols@[c as int]@, r as int),
            final(self).col_len(c as int) == old(self).col_len(c as int) - 1,
            forall|c2: int|
                0 <= c2 < old(self).n_cols() && c2 != c ==> final(self).cols@[c2] == old(self).cols@[c2],
            old(self).wf() ==> final(self).wf(),
    {
        let col = &mut self.cols[c];
        col.swap_remove(r)
    }

    /// Moves the cell of row `r` from one column to the end of a sibling
    /// column of the same family (the row migration primitive).
    pub fn swap_remove_to(&mut self, old_col: usize, new_col: usize, r: usize)
        requires
            old_col < old(self).n_cols(),
            new_col < old(self).n_cols(),
            old_col != new_col,
            r < old(self).col_len(old_col as int),
        ensures
            final(self).cell_size == old(self).cell_size,
            final(self).n_cols() == old(self).n_cols(),
            final(self).cols@[old_col as int]@ == swap_removed(
                old(self).cols@[old_col as int]@,
                r as int,
            ),
            final(self).cols@[new_col as int]@ == old(self).cols@[new_col as int]@.push(
                old(self).cols@[old_col as int]@[r as int],
            ),
            forall|c2: int|
                0 <= c2 < old(self).n_cols() && c2 != old_col && c2 != new_col ==> final(self).cols@[c2] == old(self).cols@[c2],
            old(self).wf() ==> final(self).wf(),
    {
        let cell = self.swap_remove_cell(old_col, r);
        let dst = &mut self.cols[new_col];
        dst.push(cell);
    }

    /// Removes the cell of row `r` from column `c` and drops it.
    pub fn swap_remove_drop(&mut self, c: usize, r: usize)
        requires
            c < old(self).n_cols(),
            r < old(self).col_len(c as int),
        ensures
            final(self).cell_size == old(self).cell_size,
            final(self).n_cols() == old(self).n_cols(),
            final(self).cols@[c as int]@ == swap_removed(old(self).cols@[c as int]@, r as int),
            forall|c2: int|
                0 <= c2 < old(self).n_cols() && c2 != c ==> final(self).cols@[c2] == old(self).cols@[c2],
            old(self).wf() ==> final(self).wf(),
    {
        let _ = self.swap_remove_cell(c, r);
    }
}

} // verus!
