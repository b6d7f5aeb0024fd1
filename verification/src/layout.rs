//! The layouter: allocates rows to regions and holds the assignment grid.
//!
//! Regions are requested in sequence; each receives the next unused
//! contiguous block of absolute rows, sized to whatever the region consumed,
//! so no two regions ever share a row. Cell assignment, selector activation
//! and copy constraints all go through an open region, which translates the
//! region's 0-based relative rows to absolute grid rows.

use vstd::prelude::*;
use crate::copy::CopyConstraintSet;
use crate::field::Felt;
use crate::system::{ColKind, Column, ConstraintSystem, Expression, Selector};
use crate::system::expr_rot_in_range;
use crate::Error;

verus! {

/// What one grid cell holds.
#[derive(Clone, Copy, Debug, PartialEq, Eq)]
pub enum CellState {
    /// Never assigned.
    Unassigned,
    /// Assigned, but with a value not known in this run.
    Unknown,
    /// Assigned a known field element.
    Known(Felt),
}

/// A cell of the absolute grid.
#[derive(Clone, Copy, Debug, PartialEq, Eq, Structural)]
pub struct Cell {
    pub column: Column,
    pub row: usize,
}

/// A cell together with the value assigned to it, if known.
#[derive(Clone, Copy, Debug, PartialEq, Eq)]
pub struct AssignedCell {
    pub cell: Cell,
    pub value: Option<Felt>,
}

impl AssignedCell {
    /// The cell this assignment landed in.
    pub fn cell(&self) -> (c: Cell)
        ensures
            c == self.cell,
    {
        self.cell
    }

    /// The assigned value, if known in this run.
    pub fn value(&self) -> (v: Option<Felt>)
        ensures
            v == self.value,
    {
        self.value
    }
}

/// An open region: a block of rows starting at `start`, grown to `rows` rows
/// by the operations performed in it.
#[derive(Clone, Copy, Debug, PartialEq, Eq, Structural)]
pub struct Region {
    pub start: usize,
    pub rows: usize,
}

/// A cell is well formed: a known value is in canonical form.
pub open spec fn state_wf(s: CellState) -> bool {
    match s {
        CellState::Known(v) => v.wf(),
        _ => true,
    }
}

/// The assignment grid of one synthesis run, plus the selector activations,
/// the copy constraints, and the row-allocation cursor.
pub struct Layouter {
    pub cs: ConstraintSystem,
    pub num_rows: usize,
    pub advice: Vec<CellState>,
    pub fixed: Vec<CellState>,
    pub selectors: Vec<bool>,
    pub copies: CopyConstraintSet,
    pub cursor: usize,
    pub region_active: bool,
}

impl Layouter {
    /// The state of an advice cell.
    pub open spec fn advice_at(self, c: int, r: int) -> CellState {
        self.advice@[c * (self.num_rows as int) + r]
    }

    /// The state of a fixed cell.
    pub open spec fn fixed_at(self, c: int, r: int) -> CellState {
        self.fixed@[c * (self.num_rows as int) + r]
    }

    /// Whether a selector is on at a row.
    pub open spec fn sel_at(self, s: int, r: int) -> bool {
        self.selectors@[s * (self.num_rows as int) + r]
    }

    /// The flat id of a cell, advice columns first.
    pub open spec fn cell_index(self, cell: Cell) -> int {
        match cell.column.kind {
            ColKind::Advice => cell.column.index * (self.num_rows as int) + cell.row,
            ColKind::Fixed => (self.cs.num_advice + cell.column.index) * (self.num_rows as int)
                + cell.row,
        }
    }

    /// The cell addresses a registered column and a grid row.
    pub open spec fn cell_in_grid(self, cell: Cell) -> bool {
        &&& cell.row < self.num_rows
        &&& match cell.column.kind {
            ColKind::Advice => cell.column.index < self.cs.num_advice,
            ColKind::Fixed => cell.column.index < self.cs.num_fixed,
        }
    }

    /// Whether two cells have been constrained equal (directly or through a
    /// chain of constraints).
    pub open spec fn same_cells(self, a: Cell, b: Cell) -> bool {
        self.copies.same_class(self.cell_index(a), self.cell_index(b))
    }

    /// Every query of every gate stays on the grid at every row where the
    /// gate's selector is on.
    pub open spec fn gate_row_in_range(self, g: int, r: int) -> bool {
        forall|j: int|
            0 <= j < self.cs.gates@[g].exprs@.len() ==> expr_rot_in_range(
                #[trigger] self.cs.gates@[g].exprs@[j],
                r,
                self.num_rows as int,
            )
    }

    /// The boundary policy: a selector is only ever enabled at rows where
    /// every gate it controls queries inside the grid.
    pub open spec fn boundary_ok(self) -> bool {
        forall|g: int, r: int|
            0 <= g < self.cs.gates@.len() && 0 <= r < self.num_rows && #[trigger] self.sel_at(
                self.cs.gates@[g].selector.index as int,
                r,
            ) ==> self.gate_row_in_range(g, r)
    }

    /// Structural validity of the whole synthesis state.
    pub open spec fn wf(self) -> bool {
        &&& self.cs.wf()
        &&& self.cs.frozen
        &&& 1 <= self.num_rows
        &&& self.advice@.len() == self.cs.num_advice * (self.num_rows as int)
        &&& self.fixed@.len() == self.cs.num_fixed * (self.num_rows as int)
        &&& self.selectors@.len() == self.cs.num_selectors * (self.num_rows as int)
        &&& self.copies.wf()
        &&& self.copies.len() == (self.cs.num_advice + self.cs.num_fixed) * (self.num_rows as int)
        &&& (self.cs.num_advice + self.cs.num_fixed) * (self.num_rows as int) <= usize::MAX
        &&& self.cs.num_selectors * (self.num_rows as int) <= usize::MAX
        &&& self.cursor <= self.num_rows
        &&& forall|i: int| 0 <= i < self.advice@.len() ==> state_wf(#[trigger] self.advice@[i])
        &&& forall|i: int|
            0 <= i < self.fixed@.len() ==> state_wf(#[trigger] self.fixed@[i]) && !(
            self.fixed@[i] is Unknown)
        &&& self.boundary_ok()
    }

    /// A fresh layouter over a frozen constraint system: an empty grid of
    /// `num_rows` rows, every selector off, every cell alone in its copy
    /// class, the cursor at row 0.
    #[verifier::loop_isolation(false)]
    pub fn new(cs: ConstraintSystem, num_rows: usize) -> (r: Layouter)
        requires
            cs.wf(),
            cs.frozen,
            1 <= num_rows,
            (cs.num_advice + cs.num_fixed) * (num_rows as int) <= usize::MAX,
            cs.num_selectors * (num_rows as int) <= usize::MAX,
        ensures
            r.wf(),
            r.cs == cs,
            r.num_rows == num_rows,
            r.cursor == 0,
            !r.region_active,
            forall|c: int, row: int|
                0 <= c < cs.num_advice && 0 <= row < num_rows ==> #[trigger] r.advice_at(c, row)
                    is Unassigned,
            forall|c: int, row: int|
                0 <= c < cs.num_fixed && 0 <= row < num_rows ==> #[trigger] r.fixed_at(c, row)
                    is Unassigned,
            forall|s: int, row: int|
                0 <= s < cs.num_selectors && 0 <= row < num_rows ==> !(#[trigger] r.sel_at(s, row)),
            forall|i: int| 0 <= i < r.copies.len() ==> #[trigger] r.copies.repr(i) == i,
    {
        proof {
            lemma_mul_le(cs.num_advice as int, cs.num_advice as int + cs.num_fixed as int,
                num_rows as int);
            lemma_mul_le(cs.num_fixed as int, cs.num_advice as int + cs.num_fixed as int,
                num_rows as int);
            assert(cs.num_advice as int + cs.num_fixed as int <= (cs.num_advice as int
                + cs.num_fixed as int) * (num_rows as int)) by (nonlinear_arith)
                requires
                    1 <= num_rows,
                    0 <= cs.num_advice as int + cs.num_fixed as int,
            ;
        }
        let advice = filled_states(cs.num_advice * num_rows);
        let fixed = filled_states(cs.num_fixed * num_rows);
        let selectors = filled_bools(cs.num_selectors * num_rows);
        let copies = CopyConstraintSet::new((cs.num_advice + cs.num_fixed) * num_rows);
        let r = Layouter {
            cs,
            num_rows,
            advice,
            fixed,
            selectors,
            copies,
            cursor: 0,
            region_active: false,
        };
        proof {
            assert forall|c: int, row: int|
                0 <= c < cs.num_advice && 0 <= row < num_rows implies #[trigger] r.advice_at(
                c,
                row,
            ) is Unassigned by {
                lemma_grid_bound(c, row, cs.num_advice as int, num_rows as int);
            }
            assert forall|c: int, row: int|
                0 <= c < cs.num_fixed && 0 <= row < num_rows implies #[trigger] r.fixed_at(
                c,
                row,
            ) is Unassigned by {
                lemma_grid_bound(c, row, cs.num_fixed as int, num_rows as int);
            }
            assert forall|s: int, row: int|
                0 <= s < cs.num_selectors && 0 <= row < num_rows implies !(#[trigger] r.sel_at(
                s,
                row,
            )) by {
                lemma_grid_bound(s, row, cs.num_selectors as int, num_rows as int);
            }
        }
        r
    }

    /// Reads the state of an advice cell.
    pub fn advice_state(&self, c: usize, r: usize) -> (s: CellState)
        requires
            self.wf(),
            c < self.cs.num_advice,
            r < self.num_rows,
        ensures
            s == self.advice_at(c as int, r as int),
            state_wf(s),
    {
        proof {
            lemma_grid_bound(c as int, r as int, self.cs.num_advice as int, self.num_rows as int);
            lemma_mul_le(self.cs.num_advice as int, self.cs.num_advice as int
                + self.cs.num_fixed as int, self.num_rows as int);
        }
        self.advice[c * self.num_rows + r]
    }

    /// Reads the state of a fixed cell.
    pub fn fixed_state(&self, c: usize, r: usize) -> (s: CellState)
        requires
            self.wf(),
            c < self.cs.num_fixed,
            r < self.num_rows,
        ensures
            s == self.fixed_at(c as int, r as int),
            state_wf(s),
            !(s is Unknown),
    {
        proof {
            lemma_grid_bound(c as int, r as int, self.cs.num_fixed as int, self.num_rows as int);
            lemma_mul_le(self.cs.num_fixed as int, self.cs.num_advice as int
                + self.cs.num_fixed as int, self.num_rows as int);
        }
        self.fixed[c * self.num_rows + r]
    }

    /// Reads a selector flag.
    pub fn selector_state(&self, s: usize, r: usize) -> (on: bool)
        requires
            self.wf(),
            s < self.cs.num_selectors,
            r < self.num_rows,
        ensures
            on == self.sel_at(s as int, r as int),
    {
        proof {
            lemma_grid_bound(s as int, r as int, self.cs.num_selectors as int,
                self.num_rows as int);
        }
        self.selectors[s * self.num_rows + r]
    }

    /// Opens the next region, at the first row no earlier region used.
    pub fn begin_region(&mut self) -> (r: Region)
        requires
            old(self).wf(),
            !old(self).region_active,
        ensures
            final(self).wf(),
            *final(self) == (Layouter { region_active: true, ..*old(self) }),
            r.start == old(self).cursor,
            r.rows == 0,
    {
        self.region_active = true;
        proof {
            lemma_wf_same_tables(*old(self), *self);
        }
        Region { start: self.cursor, rows: 0 }
    }

    /// Closes a region: the rows it consumed are now permanently reserved,
    /// and the next region starts after them.
    pub fn commit_region(&mut self, r: Region)
        requires
            old(self).wf(),
            old(self).region_active,
            r.start == old(self).cursor,
            r.start + r.rows <= old(self).num_rows,
        ensures
            final(self).wf(),
            *final(self) == (Layouter {
                region_active: false,
                cursor: (r.start + r.rows) as usize,
                ..*old(self)
            }),
    {
        self.region_active = false;
        self.cursor = r.start + r.rows;
        proof {
            lemma_wf_same_tables(*old(self), *self);
        }
    }
}

/// Validity only reads the tables, the system and the cursor: a layouter
/// with the same selectors, tables of the same shape with valid states, and
/// a cursor on the grid is as valid as the one it came from.
pub proof fn lemma_wf_same_tables(a: Layouter, b: Layouter)
    requires
        a.wf(),
        b.cs == a.cs,
        b.num_rows == a.num_rows,
        b.advice@.len() == a.advice@.len(),
        forall|i: int| 0 <= i < b.advice@.len() ==> state_wf(#[trigger] b.advice@[i]),
        b.fixed@.len() == a.fixed@.len(),
        forall|i: int|
            0 <= i < b.fixed@.len() ==> state_wf(#[trigger] b.fixed@[i]) && !(
            b.fixed@[i] is Unknown),
        b.selectors == a.selectors,
        b.copies.wf(),
        b.copies.len() == a.copies.len(),
        b.cursor <= b.num_rows,
    ensures
        b.wf(),
{
    assert forall|g: int, r: int|
        0 <= g < b.cs.gates@.len() && 0 <= r < b.num_rows && #[trigger] b.sel_at(
        b.cs.gates@[g].selector.index as int,
        r,
    ) implies b.gate_row_in_range(g, r) by {
        assert(a.sel_at(a.cs.gates@[g].selector.index as int, r));
        assert(a.gate_row_in_range(g, r));
        assert forall|j: int| 0 <= j < b.cs.gates@[g].exprs@.len() implies expr_rot_in_range(
            #[trigger] b.cs.gates@[g].exprs@[j],
            r,
            b.num_rows as int,
        ) by {
            assert(expr_rot_in_range(a.cs.gates@[g].exprs@[j], r, a.num_rows as int));
        }
    }
}

/// A vector of `n` unassigned cells.
#[verifier::loop_isolation(false)]
fn filled_states(n: usize) -> (v: Vec<CellState>)
    ensures
        v@.len() == n,
        forall|i: int| 0 <= i < n ==> #[trigger] v@[i] is Unassigned,
{
    let mut v: Vec<CellState> = Vec::new();
    let mut i: usize = 0;
    while i < n
        invariant
            i <= n,
            v@.len() == i,
            forall|j: int| 0 <= j < i ==> #[trigger] v@[j] is Unassigned,
        decreases n - i,
    {
        v.push(CellState::Unassigned);
        i = i + 1;
    }
    v
}

/// A vector of `n` cleared flags.
#[verifier::loop_isolation(false)]
fn filled_bools(n: usize) -> (v: Vec<bool>)
    ensures
        v@.len() == n,
        forall|i: int| 0 <= i < n ==> !(#[trigger] v@[i]),
{
    let mut v: Vec<bool> = Vec::new();
    let mut i: usize = 0;
    while i < n
        invariant
            i <= n,
            v@.len() == i,
            forall|j: int| 0 <= j < i ==> !(#[trigger] v@[j]),
        decreases n - i,
    {
        v.push(false);
        i = i + 1;
    }
    v
}

/// A cell of a grid with `nc` columns and `nr` rows has a flat id below
/// `nc * nr`.
pub proof fn lemma_grid_bound(c: int, r: int, nc: int, nr: int)
    requires
        0 <= c < nc,
        0 <= r < nr,
    ensures
        0 <= c * nr + r < nc * nr,
{
    assert(0 <= c * nr + r < nc * nr) by (nonlinear_arith)
        requires
            0 <= c < nc,
            0 <= r < nr,
    ;
}

/// Flat grid ids are unique per (column, row) pair.
pub proof fn lemma_grid_inj(c1: int, r1: int, c2: int, r2: int, nr: int)
    requires
        0 <= r1 < nr,
        0 <= r2 < nr,
        0 <= c1,
        0 <= c2,
        c1 * nr + r1 == c2 * nr + r2,
    ensures
        c1 == c2,
        r1 == r2,
{
    assert(c1 == c2 && r1 == r2) by (nonlinear_arith)
        requires
            0 <= r1 < nr,
            0 <= r2 < nr,
            0 <= c1,
            0 <= c2,
            c1 * nr + r1 == c2 * nr + r2,
    ;
}

/// Multiplication keeps order on the left with a non-negative right factor.
proof fn lemma_mul_le(a: int, b: int, m: int)
    requires
        0 <= a <= b,
        0 <= m,
    ensures
        a * m <= b * m,
{
    assert(a * m <= b * m) by (nonlinear_arith)
        requires
            0 <= a <= b,
            0 <= m,
    ;
}

impl Region {
    /// Assigns a witness value to an advice cell of the region, at a 0-based
    /// relative row. Fails when the region would outgrow the grid, or when
    /// the cell already holds an assignment.
    #[verifier::loop_isolation(false)]
    pub fn assign_advice(&mut self, lay: &mut Layouter, col: Column, offset: usize, value: Option<
        Felt,
    >) -> (r: Result<AssignedCell, Error>)
        requires
            old(lay).wf(),
            old(lay).region_active,
            old(self).start == old(lay).cursor,
            old(self).start + old(self).rows <= old(lay).num_rows,
            col.kind == ColKind::Advice,
            col.index < old(lay).cs.num_advice,
            value matches Some(v) ==> v.wf(),
        ensures
            final(lay).wf(),
            final(lay).cs == old(lay).cs,
            final(lay).num_rows == old(lay).num_rows,
            final(lay).fixed == old(lay).fixed,
            final(lay).selectors == old(lay).selectors,
            final(lay).copies == old(lay).copies,
            final(lay).cursor == old(lay).cursor,
            final(lay).region_active == old(lay).region_active,
            final(self).start == old(self).start,
            r is Err ==> *final(lay) == *old(lay) && *final(self) == *old(self),
            old(self).start + offset >= old(lay).num_rows ==> r == Result::<
                AssignedCell,
                Error,
            >::Err(Error::NotEnoughRows),
            old(self).start + offset < old(lay).num_rows && !(old(lay).advice_at(
                col.index as int,
                old(self).start + offset,
            ) is Unassigned) ==> r == Result::<AssignedCell, Error>::Err(Error::DoubleAssignment),
            old(self).start + offset < old(lay).num_rows && old(lay).advice_at(
                col.index as int,
                old(self).start + offset,
            ) is Unassigned ==> {
                &&& r == Result::<AssignedCell, Error>::Ok(
                    AssignedCell {
                        cell: Cell { column: col, row: (old(self).start + offset) as usize },
                        value,
                    },
                )
                &&& final(lay).advice_at(col.index as int, old(self).start + offset) == (match value {
                    Option::Some(v) => CellState::Known(v),
                    Option::None => CellState::Unknown,
                })
                &&& forall|c2: int, r2: int|
                    0 <= c2 < old(lay).cs.num_advice && 0 <= r2 < old(lay).num_rows && !(c2
                        == col.index && r2 == old(self).start + offset) ==> final(lay).advice_at(
                        c2,
                        r2,
                    ) == old(lay).advice_at(c2, r2)
                &&& final(self).rows == (if offset + 1 > old(self).rows {
                    offset + 1
                } else {
                    old(self).rows as int
                })
                &&& final(self).start + final(self).rows <= final(lay).num_rows
            },
    {
        if offset >= lay.num_rows - self.start {
            return Err(Error::NotEnoughRows);
        }
        let abs = self.start + offset;
        proof {
            lemma_grid_bound(col.index as int, abs as int, lay.cs.num_advice as int,
                lay.num_rows as int);
            lemma_mul_le(lay.cs.num_advice as int, lay.cs.num_advice as int
                + lay.cs.num_fixed as int, lay.num_rows as int);
        }
        let id = col.index * lay.num_rows + abs;
        let already = match lay.advice[id] {
            CellState::Unassigned => false,
            _ => true,
        };
        if already {
            return Err(Error::DoubleAssignment);
        }
        let st = match value {
            Option::Some(v) => CellState::Known(v),
            Option::None => CellState::Unknown,
        };
        lay.advice.set(id, st);
        if offset + 1 > self.rows {
            self.rows = offset + 1;
        }
        proof {
            assert forall|c2: int, r2: int|
                0 <= c2 < lay.cs.num_advice && 0 <= r2 < lay.num_rows && !(c2 == col.index && r2
                    == abs) implies lay.advice_at(c2, r2) == old(lay).advice_at(c2, r2) by {
                lemma_grid_bound(c2, r2, lay.cs.num_advice as int, lay.num_rows as int);
                if c2 * (lay.num_rows as int) + r2 == id {
                    lemma_grid_inj(c2, r2, col.index as int, abs as int, lay.num_rows as int);
                }
            }
            lemma_wf_same_tables(*old(lay), *lay);
        }
        Ok(AssignedCell { cell: Cell { column: col, row: abs }, value })
    }

    /// Assigns a known constant to a fixed cell of the region, at a 0-based
    /// relative row, under the same rules as advice assignment.
    #[verifier::loop_isolation(false)]
    pub fn assign_fixed(&mut self, lay: &mut Layouter, col: Column, offset: usize, value: Felt) -> (
    r: Result<AssignedCell, Error>)
        requires
            old(lay).wf(),
            old(lay).region_active,
            old(self).start == old(lay).cursor,
            old(self).start + old(self).rows <= old(lay).num_rows,
            col.kind == ColKind::Fixed,
            col.index < old(lay).cs.num_fixed,
            value.wf(),
        ensures
            final(lay).wf(),
            final(lay).cs == old(lay).cs,
            final(lay).num_rows == old(lay).num_rows,
            final(lay).advice == old(lay).advice,
            final(lay).selectors == old(lay).selectors,
            final(lay).copies == old(lay).copies,
            final(lay).cursor == old(lay).cursor,
            final(lay).region_active == old(lay).region_active,
            final(self).start == old(self).start,
            r is Err ==> *final(lay) == *old(lay) && *final(self) == *old(self),
            old(self).start + offset >= old(lay).num_rows ==> r == Result::<
                AssignedCell,
                Error,
            >::Err(Error::NotEnoughRows),
            old(self).start + offset < old(lay).num_rows && !(old(lay).fixed_at(
                col.index as int,
                old(self).start + offset,
            ) is Unassigned) ==> r == Result::<AssignedCell, Error>::Err(Error::DoubleAssignment),
            old(self).start + offset < old(lay).num_rows && old(lay).fixed_at(
                col.index as int,
                old(self).start + offset,
            ) is Unassigned ==> {
                &&& r == Result::<AssignedCell, Error>::Ok(
                    AssignedCell {
                        cell: Cell { column: col, row: (old(self).start + offset) as usize },
                        value: Option::Some(value),
                    },
                )
                &&& final(lay).fixed_at(col.index as int, old(self).start + offset)
                    == CellState::Known(value)
                &&& forall|c2: int, r2: int|
                    0 <= c2 < old(lay).cs.num_fixed && 0 <= r2 < old(lay).num_rows && !(c2
                        == col.index && r2 == old(self).start + offset) ==> final(lay).fixed_at(
                        c2,
                        r2,
                    ) == old(lay).fixed_at(c2, r2)
                &&& final(self).rows == (if offset + 1 > old(self).rows {
                    offset + 1
                } else {
                    old(self).rows as int
                })
                &&& final(self).start + final(self).rows <= final(lay).num_rows
            },
    {
        if offset >= lay.num_rows - self.start {
            return Err(Error::NotEnoughRows);
        }
        let abs = self.start + offset;
        proof {
            lemma_grid_bound(col.index as int, abs as int, lay.cs.num_fixed as int,
                lay.num_rows as int);
            lemma_mul_le(lay.cs.num_fixed as int, lay.cs.num_advice as int
                + lay.cs.num_fixed as int, lay.num_rows as int);
        }
        let id = col.index * lay.num_rows + abs;
        let already = match lay.fixed[id] {
            CellState::Unassigned => false,
            _ => true,
        };
        if already {
            return Err(Error::DoubleAssignment);
        }
        lay.fixed.set(id, CellState::Known(value));
        if offset + 1 > self.rows {
            self.rows = offset + 1;
        }
        proof {
            assert forall|c2: int, r2: int|
                0 <= c2 < lay.cs.num_fixed && 0 <= r2 < lay.num_rows && !(c2 == col.index && r2
                    == abs) implies lay.fixed_at(c2, r2) == old(lay).fixed_at(c2, r2) by {
                lemma_grid_bound(c2, r2, lay.cs.num_fixed as int, lay.num_rows as int);
                if c2 * (lay.num_rows as int) + r2 == id {
                    lemma_grid_inj(c2, r2, col.index as int, abs as int, lay.num_rows as int);
                }
            }
            lemma_wf_same_tables(*old(lay), *lay);
        }
        Ok(AssignedCell { cell: Cell { column: col, row: abs }, value: Option::Some(value) })
    }

    /// Declares that two cells must hold equal values, merging their copy
    /// classes at once; values may still be unknown, the equality is checked
    /// against the final assignment. Fails unless both columns have equality
    /// enabled.
    pub fn constrain_equal(&self, lay: &mut Layouter, a: Cell, b: Cell) -> (r: Result<(), Error>)
        requires
            old(lay).wf(),
            old(lay).region_active,
            old(lay).cell_in_grid(a),
            old(lay).cell_in_grid(b),
        ensures
            final(lay).wf(),
            final(lay).cs == old(lay).cs,
            final(lay).num_rows == old(lay).num_rows,
            final(lay).advice == old(lay).advice,
            final(lay).fixed == old(lay).fixed,
            final(lay).selectors == old(lay).selectors,
            final(lay).cursor == old(lay).cursor,
            final(lay).region_active == old(lay).region_active,
            final(lay).copies.len() == old(lay).copies.len(),
            r is Ok <==> old(lay).cs.equality_enabled(a.column) && old(lay).cs.equality_enabled(
                b.column,
            ),
            r is Err ==> r == Result::<(), Error>::Err(Error::EqualityNotEnabled) && *final(lay)
                == *old(lay),
            r is Ok ==> forall|x: int, y: int|
                0 <= x < old(lay).copies.len() && 0 <= y < old(lay).copies.len()
                    ==> (#[trigger] final(lay).copies.same_class(x, y) <==> (old(
                    lay,
                ).copies.same_class(x, y) || (old(lay).copies.same_class(x, old(lay).cell_index(a))
                    && old(lay).copies.same_class(y, old(lay).cell_index(b))) || (old(
                    lay,
                ).copies.same_class(x, old(lay).cell_index(b)) && old(lay).copies.same_class(
                    y,
                    old(lay).cell_index(a),
                )))),
            r is Ok ==> forall|x: int|
                0 <= x < old(lay).copies.len() ==> #[trigger] final(lay).copies.repr(x)
                    == crate::copy::repr_after(
                    old(lay).copies,
                    old(lay).cell_index(a),
                    old(lay).cell_index(b),
                    x,
                ),
    {
        let a_ok = match a.column.kind {
            ColKind::Advice => lay.cs.equality_advice[a.column.index],
            ColKind::Fixed => lay.cs.equality_fixed[a.column.index],
        };
        let b_ok = match b.column.kind {
            ColKind::Advice => lay.cs.equality_advice[b.column.index],
            ColKind::Fixed => lay.cs.equality_fixed[b.column.index],
        };
        if !(a_ok && b_ok) {
            return Err(Error::EqualityNotEnabled);
        }
        let ia = cell_id(lay, a);
        let ib = cell_id(lay, b);
        lay.copies.union(ia, ib);
        proof {
            lemma_wf_same_tables(*old(lay), *lay);
        }
        Ok(())
    }
}

impl Selector {
    /// Turns this selector on at a relative row of the region. Before the
    /// flag is set, every gate the selector controls is checked against the
    /// boundary policy at the translated absolute row: a query that would
    /// leave the grid is a configuration fault and fails synthesis, rather
    /// than wrapping around or reading a default.
    #[verifier::loop_isolation(false)]
    pub fn enable(&self, region: &mut Region, lay: &mut Layouter, offset: usize) -> (r: Result<
        (),
        Error,
    >)
        requires
            old(lay).wf(),
            old(lay).region_active,
            old(region).start == old(lay).cursor,
            old(region).start + old(region).rows <= old(lay).num_rows,
            self.index < old(lay).cs.num_selectors,
        ensures
            final(lay).wf(),
            final(lay).cs == old(lay).cs,
            final(lay).num_rows == old(lay).num_rows,
            final(lay).advice == old(lay).advice,
            final(lay).fixed == old(lay).fixed,
            final(lay).copies == old(lay).copies,
            final(lay).cursor == old(lay).cursor,
            final(lay).region_active == old(lay).region_active,
            final(region).start == old(region).start,
            r is Err ==> *final(lay) == *old(lay) && *final(region) == *old(region),
            old(region).start + offset >= old(lay).num_rows ==> r == Result::<(), Error>::Err(
                Error::NotEnoughRows,
            ),
            r is Ok <==> old(region).start + offset < old(lay).num_rows && !(exists|g: int|
                0 <= g < old(lay).cs.gates@.len() && (#[trigger] old(
                    lay,
                ).cs.gates@[g]).selector.index == self.index && !old(lay).gate_row_in_range(
                    g,
                    old(region).start + offset,
                )),
            old(region).start + offset < old(lay).num_rows ==> (r == Result::<(), Error>::Err(
                Error::OutOfRangeRotation,
            ) <==> exists|g: int|
                0 <= g < old(lay).cs.gates@.len() && (#[trigger] old(
                    lay,
                ).cs.gates@[g]).selector.index == self.index && !old(lay).gate_row_in_range(
                    g,
                    old(region).start + offset,
                )),
            r is Ok ==> {
                &&& final(lay).sel_at(self.index as int, old(region).start + offset)
                &&& forall|s2: int, r2: int|
                    0 <= s2 < old(lay).cs.num_selectors && 0 <= r2 < old(lay).num_rows && !(s2
                        == self.index && r2 == old(region).start + offset) ==> final(lay).sel_at(
                        s2,
                        r2,
                    ) == old(lay).sel_at(s2, r2)
                &&& final(region).rows == (if offset + 1 > old(region).rows {
                    offset + 1
                } else {
                    old(region).rows as int
                })
                &&& final(region).start + final(region).rows <= final(lay).num_rows
            },
    {
        if offset >= lay.num_rows - region.start {
            return Err(Error::NotEnoughRows);
        }
        let abs = region.start + offset;
        let mut g: usize = 0;
        while g < lay.cs.gates.len()
            invariant
                g <= lay.cs.gates@.len(),
                forall|g2: int|
                    0 <= g2 < g && (#[trigger] lay.cs.gates@[g2]).selector.index == self.index
                        ==> lay.gate_row_in_range(g2, abs as int),
            decreases lay.cs.gates@.len() - g,
        {
            if lay.cs.gates[g].selector.index == self.index {
                let exprs = &lay.cs.gates[g].exprs;
                let mut j: usize = 0;
                while j < exprs.len()
                    invariant
                        j <= exprs@.len(),
                        exprs == &lay.cs.gates@[g as int].exprs,
                        forall|j2: int|
                            0 <= j2 < j ==> expr_rot_in_range(
                                #[trigger] exprs@[j2],
                                abs as int,
                                lay.num_rows as int,
                            ),
                    decreases exprs@.len() - j,
                {
                    if !expr_rots_ok(&exprs[j], abs, lay.num_rows) {
                        proof {
                            assert(!lay.gate_row_in_range(g as int, abs as int));
                        }
                        return Err(Error::OutOfRangeRotation);
                    }
                    j = j + 1;
                }
            }
            g = g + 1;
        }
        proof {
            lemma_grid_bound(self.index as int, abs as int, lay.cs.num_selectors as int,
                lay.num_rows as int);
        }
        let id = self.index * lay.num_rows + abs;
        lay.selectors.set(id, true);
        if offset + 1 > region.rows {
            region.rows = offset + 1;
        }
        proof {
            assert forall|s2: int, r2: int|
                0 <= s2 < lay.cs.num_selectors && 0 <= r2 < lay.num_rows && !(s2 == self.index && r2
                    == abs) implies lay.sel_at(s2, r2) == old(lay).sel_at(s2, r2) by {
                lemma_grid_bound(s2, r2, lay.cs.num_selectors as int, lay.num_rows as int);
                if s2 * (lay.num_rows as int) + r2 == id {
                    lemma_grid_inj(s2, r2, self.index as int, abs as int, lay.num_rows as int);
                }
            }
            assert forall|g2: int, r2: int|
                0 <= g2 < lay.cs.gates@.len() && 0 <= r2 < lay.num_rows && #[trigger] lay.sel_at(
                lay.cs.gates@[g2].selector.index as int,
                r2,
            ) implies lay.gate_row_in_range(g2, r2) by {
                let s2 = lay.cs.gates@[g2].selector.index as int;
                if s2 == self.index && r2 == abs {
                } else {
                    assert(lay.sel_at(s2, r2) == old(lay).sel_at(s2, r2));
                    assert(old(lay).gate_row_in_range(g2, r2));
                    assert forall|j: int|
                        0 <= j < lay.cs.gates@[g2].exprs@.len() implies expr_rot_in_range(
                        #[trigger] lay.cs.gates@[g2].exprs@[j],
                        r2,
                        lay.num_rows as int,
                    ) by {
                        assert(expr_rot_in_range(old(lay).cs.gates@[g2].exprs@[j], r2,
                            old(lay).num_rows as int));
                    }
                }
            }
        }
        Ok(())
    }
}

impl AssignedCell {
    /// Assigns this cell's value to a fresh advice cell of the region and
    /// immediately constrains the two cells equal: the copy is provably
    /// equal, not merely coincidentally so. When the assignment succeeds but
    /// one of the columns lacks equality support, the assignment stands and
    /// the constraint fails.
    pub fn copy_advice(&self, region: &mut Region, lay: &mut Layouter, col: Column, offset: usize)
        -> (r: Result<AssignedCell, Error>)
        requires
            old(lay).wf(),
            old(lay).region_active,
            old(region).start == old(lay).cursor,
            old(region).start + old(region).rows <= old(lay).num_rows,
            col.kind == ColKind::Advice,
            col.index < old(lay).cs.num_advice,
            self.value matches Some(v) ==> v.wf(),
            old(lay).cell_in_grid(self.cell),
        ensures
            final(lay).wf(),
            final(lay).cs == old(lay).cs,
            final(lay).num_rows == old(lay).num_rows,
            final(lay).fixed == old(lay).fixed,
            final(lay).selectors == old(lay).selectors,
            final(lay).cursor == old(lay).cursor,
            final(lay).region_active == old(lay).region_active,
            final(lay).copies.len() == old(lay).copies.len(),
            final(region).start == old(region).start,
            old(region).start + offset >= old(lay).num_rows ==> r == Result::<
                AssignedCell,
                Error,
            >::Err(Error::NotEnoughRows) && *final(lay) == *old(lay) && *final(region) == *old(
                region,
            ),
            old(region).start + offset < old(lay).num_rows && !(old(lay).advice_at(
                col.index as int,
                old(region).start + offset,
            ) is Unassigned) ==> r == Result::<AssignedCell, Error>::Err(Error::DoubleAssignment)
                && *final(lay) == *old(lay) && *final(region) == *old(region),
            old(region).start + offset < old(lay).num_rows && old(lay).advice_at(
                col.index as int,
                old(region).start + offset,
            ) is Unassigned ==> {
                &&& final(lay).advice_at(col.index as int, old(region).start + offset) == (
                match self.value {
                    Option::Some(v) => CellState::Known(v),
                    Option::None => CellState::Unknown,
                })
                &&& forall|c2: int, r2: int|
                    0 <= c2 < old(lay).cs.num_advice && 0 <= r2 < old(lay).num_rows && !(c2
                        == col.index && r2 == old(region).start + offset) ==> final(lay).advice_at(
                        c2,
                        r2,
                    ) == old(lay).advice_at(c2, r2)
                &&& final(region).rows == (if offset + 1 > old(region).rows {
                    offset + 1
                } else {
                    old(region).rows as int
                })
                &&& (r is Ok <==> old(lay).cs.equality_enabled(self.cell.column) && old(
                    lay,
                ).cs.equality_enabled(col))
                &&& r is Err ==> r == Result::<AssignedCell, Error>::Err(Error::EqualityNotEnabled)
                    && final(lay).copies == old(lay).copies
                &&& r is Ok ==> r == Result::<AssignedCell, Error>::Ok(
                    AssignedCell {
                        cell: Cell { column: col, row: (old(region).start + offset) as usize },
                        value: self.value,
                    },
                ) && (forall|x: int, y: int|
                    0 <= x < old(lay).copies.len() && 0 <= y < old(lay).copies.len()
                        ==> (#[trigger] final(lay).copies.same_class(x, y) <==> (old(
                        lay,
                    ).copies.same_class(x, y) || (old(lay).copies.same_class(
                        x,
                        old(lay).cell_index(self.cell),
                    ) && old(lay).copies.same_class(
                        y,
                        old(lay).cell_index(
                            Cell { column: col, row: (old(region).start + offset) as usize },
                        ),
                    )) || (old(lay).copies.same_class(
                        x,
                        old(lay).cell_index(
                            Cell { column: col, row: (old(region).start + offset) as usize },
                        ),
                    ) && old(lay).copies.same_class(y, old(lay).cell_index(self.cell)))))) && (
                forall|x: int|
                    0 <= x < old(lay).copies.len() ==> #[trigger] final(lay).copies.repr(x)
                        == crate::copy::repr_after(
                        old(lay).copies,
                        old(lay).cell_index(self.cell),
                        old(lay).cell_index(
                            Cell { column: col, row: (old(region).start + offset) as usize },
                        ),
                        x,
                    ))
            },
    {
        let assigned = match region.assign_advice(lay, col, offset, self.value) {
            Ok(c) => c,
            Err(e) => {
                return Err(e);
            },
        };
        match region.constrain_equal(lay, self.cell, assigned.cell) {
            Ok(()) => Ok(assigned),
            Err(e) => Err(e),
        }
    }
}

/// The flat copy-class id of a cell, advice columns first, fixed columns
/// after them.
fn cell_id(lay: &Layouter, cell: Cell) -> (id: usize)
    requires
        lay.wf(),
        lay.cell_in_grid(cell),
    ensures
        id == lay.cell_index(cell),
        0 <= id < lay.copies.len(),
{
    proof {
        assert(lay.cs.num_advice + lay.cs.num_fixed <= (lay.cs.num_advice as int
            + lay.cs.num_fixed as int) * (lay.num_rows as int)) by (nonlinear_arith)
            requires
                1 <= lay.num_rows,
                0 <= lay.cs.num_advice as int + lay.cs.num_fixed as int,
        ;
    }
    match cell.column.kind {
        ColKind::Advice => {
            proof {
                lemma_grid_bound(cell.column.index as int, cell.row as int,
                    (lay.cs.num_advice + lay.cs.num_fixed) as int, lay.num_rows as int);
            }
            cell.column.index * lay.num_rows + cell.row
        },
        ColKind::Fixed => {
            proof {
                lemma_grid_bound((lay.cs.num_advice + cell.column.index) as int, cell.row as int,
                    (lay.cs.num_advice + lay.cs.num_fixed) as int, lay.num_rows as int);
            }
            (lay.cs.num_advice + cell.column.index) * lay.num_rows + cell.row
        },
    }
}

/// Whether every query of the expression stays on the grid when evaluated at
/// the given row.
fn expr_rots_ok(e: &Expression, row: usize, num_rows: usize) -> (r: bool)
    requires
        row < num_rows,
    ensures
        r == expr_rot_in_range(*e, row as int, num_rows as int),
    decreases *e,
{
    match e {
        Expression::Constant(_) => true,
        Expression::Query(_c, rot) => {
            if *rot >= 0 {
                (*rot as usize) < num_rows - row
            } else {
                let back = (-(*rot as i64)) as usize;
                row >= back
            }
        },
        Expression::Sum(a, b) => {
            let ra = expr_rots_ok(a, row, num_rows);
            let rb = expr_rots_ok(b, row, num_rows);
            ra && rb
        },
        Expression::Product(a, b) => {
            let ra = expr_rots_ok(a, row, num_rows);
            let rb = expr_rots_ok(b, row, num_rows);
            ra && rb
        },
        Expression::Negate(a) => expr_rots_ok(a, row, num_rows),
    }
}

/// A cell of the grid has a copy id among the tracked ids.
pub proof fn lemma_cell_index_bound(l: Layouter, cell: Cell)
    requires
        l.wf(),
        l.cell_in_grid(cell),
    ensures
        0 <= l.cell_index(cell) < l.copies.len(),
{
    match cell.column.kind {
        ColKind::Advice => {
            lemma_grid_bound(cell.column.index as int, cell.row as int, l.cs.num_advice as int,
                l.num_rows as int);
            lemma_mul_le(l.cs.num_advice as int, l.cs.num_advice as int + l.cs.num_fixed as int,
                l.num_rows as int);
        },
        ColKind::Fixed => {
            lemma_grid_bound(l.cs.num_advice as int + cell.column.index as int, cell.row as int,
                l.cs.num_advice as int + l.cs.num_fixed as int, l.num_rows as int);
        },
    }
}

/// Region packing: the rows of a region that ends no later than another
/// region starts never meet the rows of that other region. Together with the
/// cursor discipline of `begin_region` and `commit_region` this says that no
/// two regions ever receive the same absolute row.
pub proof fn lemma_regions_disjoint(r1: Region, r2: Region, o1: int, o2: int)
    requires
        r1.start + r1.rows <= r2.start,
        0 <= o1 < r1.rows,
        0 <= o2 < r2.rows,
    ensures
        r1.start + o1 != r2.start + o2,
{
}

} // verus!
