//! The demo circuits: a chain of verified multiplications and additions,
//! checked against a baked-in constant, and a deliberately under-constrained
//! variant.
//!
//! The gadgets here are the circuit-author side of the engine: each one
//! opens a region, lays its operands and result out vertically on the one
//! advice column, turns its gate's selector on, and records the copy
//! constraints that tie the region's inputs to previously assigned cells.

use vstd::prelude::*;
use vstd::arithmetic::div_mod::{lemma_small_mod, lemma_mod_self_0, lemma_mod_sub_multiples_vanish};
use crate::field::{Felt, modulus};
use crate::layout::{AssignedCell, Cell, CellState, Layouter};
use crate::prover::{MockProver, Report, advice_val, gate_exprs_failures, eval_expr_spec};
use crate::system::{ColKind, Column, ConstraintSystem, Expression, Gate, Selector};
use crate::Error;

verus! {

/// The handles a configured multiplication circuit works with: three
/// selector-gated gates over one advice and one fixed column.
#[derive(Clone, Copy, Debug, PartialEq, Eq, Structural)]
pub struct MulConfig {
    pub q_mul_enable: Selector,
    pub q_add_enable: Selector,
    pub q_fixed_enable: Selector,
    pub advice: Column,
    pub fixed: Column,
}

/// The polynomial of a vertical multiplication gate: the advice value two
/// rows down must equal the product of the values at the row and one below,
/// written w0 * w1 - w2.
pub open spec fn is_vertical_mul_expr(e: Expression, col: Column) -> bool {
    match e {
        Expression::Sum(l, r) => match (*l, *r) {
            (Expression::Product(a, b), Expression::Negate(c)) => {
                &&& *a == Expression::Query(col, 0)
                &&& *b == Expression::Query(col, 1)
                &&& *c == Expression::Query(col, 2)
            },
            _ => false,
        },
        _ => false,
    }
}

/// The polynomial of a vertical addition gate: w0 + w1 - w2.
pub open spec fn is_vertical_add_expr(e: Expression, col: Column) -> bool {
    match e {
        Expression::Sum(l, r) => match (*l, *r) {
            (Expression::Sum(a, b), Expression::Negate(c)) => {
                &&& *a == Expression::Query(col, 0)
                &&& *b == Expression::Query(col, 1)
                &&& *c == Expression::Query(col, 2)
            },
            _ => false,
        },
        _ => false,
    }
}

/// The polynomial of the fixed-constant check: w0 - c0, the advice value
/// minus the fixed value on the same row.
pub open spec fn is_fixed_check_expr(e: Expression, advice: Column, fixed: Column) -> bool {
    match e {
        Expression::Sum(l, r) => match (*l, *r) {
            (Expression::Query(a, ra), Expression::Negate(c)) => {
                &&& a == advice && ra == 0
                &&& *c == Expression::Query(fixed, 0)
            },
            _ => false,
        },
        _ => false,
    }
}

/// The difference of two reduced field values vanishes modulo the modulus
/// exactly when they are equal.
proof fn lemma_field_sub_zero(x: int, y: int, p: int)
    requires
        0 <= x < p,
        0 <= y < p,
    ensures
        (x + (p - y) % p) % p == 0 <==> x == y,
{
    lemma_mod_self_0(p);
    if y == 0 {
        lemma_small_mod(x as nat, p as nat);
    } else {
        lemma_small_mod((p - y) as nat, p as nat);
        let s = x + p - y;
        if x == y {
        } else if x < y {
            lemma_small_mod(s as nat, p as nat);
        } else {
            lemma_mod_sub_multiples_vanish(s, p);
            lemma_small_mod((s - p) as nat, p as nat);
        }
    }
}

/// A multiplication gate is violation-free at a row exactly when the
/// claimed output equals the field product of its operands; any other
/// output yields exactly one failure at that row, carrying that gate's name
/// and the nonzero difference.
pub proof fn lemma_mul_gate_iff(l: Layouter, g: int, col: Column, row: int, a: int, b: int, c: int)
    requires
        l.wf(),
        0 <= g < l.cs.gates@.len(),
        l.cs.gates@[g].exprs@.len() == 1,
        is_vertical_mul_expr(l.cs.gates@[g].exprs@[0], col),
        col.kind == ColKind::Advice,
        col.index < l.cs.num_advice,
        0 <= row,
        row + 2 < l.num_rows,
        advice_val(l, col.index as int, row) == Some(a),
        advice_val(l, col.index as int, row + 1) == Some(b),
        advice_val(l, col.index as int, row + 2) == Some(c),
        0 <= a < modulus(),
        0 <= b < modulus(),
        0 <= c < modulus(),
    ensures
        gate_exprs_failures(l, g, row, 1).len() == 0 <==> c == (a * b) % (modulus() as int),
        c != (a * b) % (modulus() as int) ==> gate_exprs_failures(l, g, row, 1) == seq![
            (
                l.cs.gates@[g].name@,
                row,
                ((a * b) % (modulus() as int) + (modulus() - c) % (modulus() as int)) % (
                modulus() as int),
            ),
        ],
{
    let p = modulus() as int;
    let e = l.cs.gates@[g].exprs@[0];
    let x = (a * b) % p;
    assert(0 <= x < p) by (nonlinear_arith)
        requires
            p > 0,
            x == (a * b) % p,
    ;
    reveal_with_fuel(eval_expr_spec, 4);
    assert(eval_expr_spec(e, l, row) == Some((x + (p - c) % p) % p));
    lemma_field_sub_zero(x, c, p);
    assert(gate_exprs_failures(l, g, row, 0) == Seq::<(Seq<char>, int, int)>::empty());
}

/// An addition gate is violation-free at a row exactly when the claimed
/// output equals the field sum of its operands.
pub proof fn lemma_add_gate_iff(l: Layouter, g: int, col: Column, row: int, a: int, b: int, c: int)
    requires
        l.wf(),
        0 <= g < l.cs.gates@.len(),
        l.cs.gates@[g].exprs@.len() == 1,
        is_vertical_add_expr(l.cs.gates@[g].exprs@[0], col),
        col.kind == ColKind::Advice,
        col.index < l.cs.num_advice,
        0 <= row,
        row + 2 < l.num_rows,
        advice_val(l, col.index as int, row) == Some(a),
        advice_val(l, col.index as int, row + 1) == Some(b),
        advice_val(l, col.index as int, row + 2) == Some(c),
        0 <= a < modulus(),
        0 <= b < modulus(),
        0 <= c < modulus(),
    ensures
        gate_exprs_failures(l, g, row, 1).len() == 0 <==> c == (a + b) % (modulus() as int),
        c != (a + b) % (modulus() as int) ==> gate_exprs_failures(l, g, row, 1) == seq![
            (
                l.cs.gates@[g].name@,
                row,
                ((a + b) % (modulus() as int) + (modulus() - c) % (modulus() as int)) % (
                modulus() as int),
            ),
        ],
{
    let p = modulus() as int;
    let e = l.cs.gates@[g].exprs@[0];
    let x = (a + b) % p;
    assert(0 <= x < p) by (nonlinear_arith)
        requires
            p > 0,
            x == (a + b) % p,
    ;
    reveal_with_fuel(eval_expr_spec, 4);
    assert(eval_expr_spec(e, l, row) == Some((x + (p - c) % p) % p));
    lemma_field_sub_zero(x, c, p);
    assert(gate_exprs_failures(l, g, row, 0) == Seq::<(Seq<char>, int, int)>::empty());
}

/// The cell state an assignment with this value produces.
pub open spec fn value_state(v: Option<Felt>) -> CellState {
    match v {
        Some(x) => CellState::Known(x),
        None => CellState::Unknown,
    }
}

/// Every rotation of every expression of a gate lies within the bounds.
pub open spec fn gate_rots_within(g: Gate, lo: int, hi: int) -> bool {
    forall|j: int|
        0 <= j < g.exprs@.len() ==> crate::system::expr_rots_within(#[trigger] g.exprs@[j], lo, hi)
}

/// The configuration handles fit the constraint system, equality is on for
/// both columns, and the gates behind the three selectors only query rows
/// their regions provide: the multiplication and addition gates look at most
/// two rows down, the fixed check stays on its row.
pub open spec fn mul_setup(c: MulConfig, cs: ConstraintSystem) -> bool {
    &&& c.advice.kind == ColKind::Advice
    &&& c.advice.index < cs.num_advice
    &&& c.fixed.kind == ColKind::Fixed
    &&& c.fixed.index < cs.num_fixed
    &&& c.q_mul_enable.index < cs.num_selectors
    &&& c.q_add_enable.index < cs.num_selectors
    &&& c.q_fixed_enable.index < cs.num_selectors
    &&& cs.equality_enabled(c.advice)
    &&& cs.equality_enabled(c.fixed)
    &&& forall|g: int|
        0 <= g < cs.gates@.len() && (#[trigger] cs.gates@[g]).selector.index
            == c.q_mul_enable.index ==> gate_rots_within(cs.gates@[g], 0, 2)
    &&& forall|g: int|
        0 <= g < cs.gates@.len() && (#[trigger] cs.gates@[g]).selector.index
            == c.q_add_enable.index ==> gate_rots_within(cs.gates@[g], 0, 2)
    &&& forall|g: int|
        0 <= g < cs.gates@.len() && (#[trigger] cs.gates@[g]).selector.index
            == c.q_fixed_enable.index ==> gate_rots_within(cs.gates@[g], 0, 0)
}

/// The grid is ready for a three-row gadget at the cursor: the rows exist
/// and their advice cells are untouched.
pub open spec fn rows3_ready(c: MulConfig, l: Layouter) -> bool {
    &&& l.cursor + 3 <= l.num_rows
    &&& l.advice_at(c.advice.index as int, l.cursor as int) is Unassigned
    &&& l.advice_at(c.advice.index as int, l.cursor + 1) is Unassigned
    &&& l.advice_at(c.advice.index as int, l.cursor + 2) is Unassigned
}

/// A selector's gates all stay on the grid at the given row, given their
/// rotations are bounded by `hi` and the row leaves `hi` rows below.
proof fn lemma_selector_rows_ok(c: MulConfig, l: Layouter, s: Selector, hi: int, row: int)
    requires
        l.wf(),
        forall|g: int|
            0 <= g < l.cs.gates@.len() && (#[trigger] l.cs.gates@[g]).selector.index == s.index
                ==> gate_rots_within(l.cs.gates@[g], 0, hi),
        0 <= row,
        row + hi < l.num_rows,
    ensures
        !(exists|g: int|
            0 <= g < l.cs.gates@.len() && (#[trigger] l.cs.gates@[g]).selector.index == s.index
                && !l.gate_row_in_range(g, row)),
{
    assert forall|g: int|
        0 <= g < l.cs.gates@.len() && (#[trigger] l.cs.gates@[g]).selector.index
            == s.index implies l.gate_row_in_range(g, row) by {
        assert(gate_rots_within(l.cs.gates@[g], 0, hi));
        assert forall|j: int|
            0 <= j < l.cs.gates@[g].exprs@.len() implies crate::system::expr_rot_in_range(
            #[trigger] l.cs.gates@[g].exprs@[j],
            row,
            l.num_rows as int,
        ) by {
            crate::system::lemma_rots_within_in_range(l.cs.gates@[g].exprs@[j], 0, hi, row,
                l.num_rows as int);
        }
    }
}

/// The circuit under test: a secret input squared, cubed and raised to the
/// fifth power by chained multiplication gates, summed by addition gates,
/// and finally compared against a baked-in constant.
pub struct MulCircuit {
    pub secret: Option<Felt>,
}

/// A circuit that multiplies two free inputs without ever binding them to
/// verified values: every gate passes, and only the copy-constraint layer
/// can tell the result was never tied to anything.
pub struct MaliciousCircuit {
    pub value1: Option<Felt>,
    pub value2: Option<Felt>,
}

impl MulCircuit {
    /// A three-row region computing a product: the operands are copied to
    /// the first two rows, their product goes to the third, the
    /// multiplication gate is enabled on the first row, and the operand
    /// cells are constrained equal to the cells they came from.
    pub fn mul(config: &MulConfig, lay: &mut Layouter, lhs: AssignedCell, rhs: AssignedCell) -> (r:
        Result<AssignedCell, Error>)
        requires
            old(lay).wf(),
            !old(lay).region_active,
            config.advice.kind == ColKind::Advice,
            config.advice.index < old(lay).cs.num_advice,
            config.q_mul_enable.index < old(lay).cs.num_selectors,
            old(lay).cell_in_grid(lhs.cell),
            old(lay).cell_in_grid(rhs.cell),
        ensures
            final(lay).wf(),
            final(lay).cs == old(lay).cs,
            final(lay).num_rows == old(lay).num_rows,
            final(lay).fixed == old(lay).fixed,
            final(lay).cursor >= old(lay).cursor,
            r is Ok ==> !final(lay).region_active,
            r is Err ==> (r == Result::<AssignedCell, Error>::Err(Error::NotEnoughRows) || r
                == Result::<AssignedCell, Error>::Err(Error::DoubleAssignment) || r == Result::<
                AssignedCell,
                Error,
            >::Err(Error::OutOfRangeRotation) || r == Result::<AssignedCell, Error>::Err(
                Error::EqualityNotEnabled,
            )),
            r matches Ok(out) ==> final(lay).cell_in_grid(out.cell) && out.cell.column
                == config.advice,
            (mul_setup(*config, old(lay).cs) && rows3_ready(*config, *old(lay)) && old(
                lay,
            ).cs.equality_enabled(lhs.cell.column) && old(lay).cs.equality_enabled(
                rhs.cell.column,
            )) ==> ({
                &&& r is Ok
                &&& !final(lay).region_active
                &&& final(lay).cursor == old(lay).cursor + 3
                &&& (r matches Ok(out) && out.cell == (Cell {
                    column: config.advice,
                    row: (old(lay).cursor + 2) as usize,
                }))
                &&& (match (lhs.value, rhs.value) {
                    (Some(x), Some(y)) => r matches Ok(out) && out.value matches Some(v)
                        && v.val() == (x.val() * y.val()) % modulus(),
                    _ => r matches Ok(out) && out.value is None,
                })
                &&& final(lay).advice_at(config.advice.index as int, old(lay).cursor as int)
                    == value_state(lhs.value)
                &&& final(lay).advice_at(config.advice.index as int, old(lay).cursor + 1)
                    == value_state(rhs.value)
                &&& (match (lhs.value, rhs.value) {
                    (Some(x), Some(y)) => final(lay).advice_at(
                        config.advice.index as int,
                        old(lay).cursor + 2,
                    ) matches CellState::Known(v) && v.val() == (x.val() * y.val()) % modulus(),
                    _ => final(lay).advice_at(config.advice.index as int, old(lay).cursor + 2)
                        is Unknown,
                })
                &&& (forall|c2: int, r2: int|
                    0 <= c2 < old(lay).cs.num_advice && 0 <= r2 < old(lay).num_rows && !(c2
                        == config.advice.index && old(lay).cursor <= r2 < old(lay).cursor + 3)
                        ==> final(lay).advice_at(c2, r2) == old(lay).advice_at(c2, r2))
                &&& final(lay).sel_at(
                    config.q_mul_enable.index as int,
                    old(lay).cursor as int,
                )
                &&& (forall|s2: int, r2: int|
                    0 <= s2 < old(lay).cs.num_selectors && 0 <= r2 < old(lay).num_rows && !(s2
                        == config.q_mul_enable.index && r2 == old(lay).cursor)
                        ==> final(lay).sel_at(s2, r2) == old(lay).sel_at(s2, r2))
                &&& final(lay).copies.len() == old(lay).copies.len()
                &&& (forall|x: int, y: int|
                    0 <= x < old(lay).copies.len() && 0 <= y < old(lay).copies.len() ==> (
                    #[trigger] final(lay).copies.same_class(x, y) <==> crate::copy::linked2(
                        old(lay).copies,
                        old(lay).cell_index(
                            Cell { column: config.advice, row: old(lay).cursor as usize },
                        ),
                        old(lay).cell_index(lhs.cell),
                        old(lay).cell_index(
                            Cell { column: config.advice, row: (old(lay).cursor + 1) as usize },
                        ),
                        old(lay).cell_index(rhs.cell),
                        x,
                        y,
                    )))
                &&& (forall|x: int|
                    0 <= x < old(lay).copies.len() ==> #[trigger] final(lay).copies.repr(x)
                        == crate::copy::repr_after2(
                        old(lay).copies,
                        old(lay).cell_index(
                            Cell { column: config.advice, row: old(lay).cursor as usize },
                        ),
                        old(lay).cell_index(lhs.cell),
                        old(lay).cell_index(
                            Cell { column: config.advice, row: (old(lay).cursor + 1) as usize },
                        ),
                        old(lay).cell_index(rhs.cell),
                        x,
                    ))
                &&& final(lay).same_cells(
                    Cell { column: config.advice, row: old(lay).cursor as usize },
                    lhs.cell,
                )
                &&& final(lay).same_cells(
                    Cell { column: config.advice, row: (old(lay).cursor + 1) as usize },
                    rhs.cell,
                )
            }),
    {
        let ghost ready = mul_setup(*config, old(lay).cs) && rows3_ready(*config, *old(lay))
            && old(lay).cs.equality_enabled(lhs.cell.column) && old(lay).cs.equality_enabled(
            rhs.cell.column,
        );
        let v0 = lhs.value();
        let v1 = rhs.value();
        proof {
            match v0 {
                Some(x) => use_type_invariant(x),
                None => {},
            }
            match v1 {
                Some(y) => use_type_invariant(y),
                None => {},
            }
        }
        let v2 = match (v0, v1) {
            (Some(x), Some(y)) => Some(crate::field::felt_mul(&x, &y)),
            _ => None,
        };
        let mut region = lay.begin_region();
        let ghost l0 = *lay;
        let ghost cur = old(lay).cursor as int;
        let ghost adv = config.advice.index as int;
        let w0 = match region.assign_advice(lay, config.advice, 0, v0) {
            Ok(c) => c,
            Err(e) => {
                return Err(e);
            },
        };
        let ghost l1 = *lay;
        let w1 = match region.assign_advice(lay, config.advice, 1, v1) {
            Ok(c) => c,
            Err(e) => {
                proof {
                    if ready {
                        assert(l1.advice_at(adv, cur + 1) is Unassigned);
                    }
                }
                return Err(e);
            },
        };
        let ghost l2 = *lay;
        let w2 = match region.assign_advice(lay, config.advice, 2, v2) {
            Ok(c) => c,
            Err(e) => {
                proof {
                    if ready {
                        assert(l1.advice_at(adv, cur + 2) == l0.advice_at(adv, cur + 2));
                        assert(l2.advice_at(adv, cur + 2) is Unassigned);
                    }
                }
                return Err(e);
            },
        };
        let ghost l3 = *lay;
        match config.q_mul_enable.enable(&mut region, lay, 0) {
            Ok(()) => {},
            Err(e) => {
                proof {
                    if ready {
                        lemma_selector_rows_ok(*config, *lay, config.q_mul_enable, 2, cur);
                        assert(false);
                    }
                }
                return Err(e);
            },
        }
        let ghost l3e = *lay;
        match region.constrain_equal(lay, w0.cell(), lhs.cell()) {
            Ok(()) => {},
            Err(e) => {
                return Err(e);
            },
        }
        let ghost l4 = *lay;
        match region.constrain_equal(lay, w1.cell(), rhs.cell()) {
            Ok(()) => {},
            Err(e) => {
                return Err(e);
            },
        }
        lay.commit_region(region);
        proof {
            if ready {
                assert forall|c2: int, r2: int|
                    0 <= c2 < old(lay).cs.num_advice && 0 <= r2 < old(lay).num_rows && !(c2 == adv
                        && cur <= r2 < cur + 3) implies lay.advice_at(c2, r2) == old(
                    lay,
                ).advice_at(c2, r2) by {
                    assert(l1.advice_at(c2, r2) == l0.advice_at(c2, r2));
                    assert(l2.advice_at(c2, r2) == l1.advice_at(c2, r2));
                    assert(l3.advice_at(c2, r2) == l2.advice_at(c2, r2));
                }
                assert(l2.advice_at(adv, cur) == l1.advice_at(adv, cur));
                assert(l3.advice_at(adv, cur) == l2.advice_at(adv, cur));
                assert(l3.advice_at(adv, cur + 1) == l2.advice_at(adv, cur + 1));
                assert(lay.advice_at(adv, cur) == value_state(lhs.value));
                assert(lay.advice_at(adv, cur + 1) == value_state(rhs.value));
                crate::layout::lemma_cell_index_bound(*lay, Cell {
                    column: config.advice,
                    row: cur as usize,
                });
                crate::layout::lemma_cell_index_bound(*lay, Cell {
                    column: config.advice,
                    row: (cur + 1) as usize,
                });
                crate::layout::lemma_cell_index_bound(*lay, lhs.cell);
                crate::layout::lemma_cell_index_bound(*lay, rhs.cell);
                assert(l4.same_cells(Cell { column: config.advice, row: cur as usize }, lhs.cell));
                assert(lay.same_cells(
                    Cell { column: config.advice, row: cur as usize },
                    lhs.cell,
                ));
                assert(lay.same_cells(
                    Cell { column: config.advice, row: (cur + 1) as usize },
                    rhs.cell,
                ));
                assert forall|s2: int, r2: int|
                    0 <= s2 < old(lay).cs.num_selectors && 0 <= r2 < old(lay).num_rows && !(s2
                        == config.q_mul_enable.index && r2 == cur) implies lay.sel_at(s2, r2)
                    == old(lay).sel_at(s2, r2) by {
                    assert(l3e.sel_at(s2, r2) == l3.sel_at(s2, r2));
                }
                crate::layout::lemma_cell_index_bound(*old(lay), Cell {
                    column: config.advice,
                    row: cur as usize,
                });
                crate::layout::lemma_cell_index_bound(*old(lay), Cell {
                    column: config.advice,
                    row: (cur + 1) as usize,
                });
                crate::layout::lemma_cell_index_bound(*old(lay), lhs.cell);
                crate::layout::lemma_cell_index_bound(*old(lay), rhs.cell);
                let ia = old(lay).cell_index(Cell { column: config.advice, row: cur as usize });
                let ib = old(lay).cell_index(lhs.cell);
                let ic = old(lay).cell_index(
                    Cell { column: config.advice, row: (cur + 1) as usize },
                );
                let id = old(lay).cell_index(rhs.cell);
                assert forall|x: int, y: int|
                    0 <= x < old(lay).copies.len() && 0 <= y < old(
                    lay,
                ).copies.len() implies (#[trigger] lay.copies.same_class(x, y)
                    <==> crate::copy::linked2(old(lay).copies, ia, ib, ic, id, x, y)) by {
                    assert(l4.copies.same_class(x, y) <==> crate::copy::linked(
                        old(lay).copies,
                        ia,
                        ib,
                        x,
                        y,
                    ));
                    assert(l4.copies.same_class(x, ic) <==> crate::copy::linked(
                        old(lay).copies,
                        ia,
                        ib,
                        x,
                        ic,
                    ));
                    assert(l4.copies.same_class(y, id) <==> crate::copy::linked(
                        old(lay).copies,
                        ia,
                        ib,
                        y,
                        id,
                    ));
                    assert(l4.copies.same_class(x, id) <==> crate::copy::linked(
                        old(lay).copies,
                        ia,
                        ib,
                        x,
                        id,
                    ));
                    assert(l4.copies.same_class(y, ic) <==> crate::copy::linked(
                        old(lay).copies,
                        ia,
                        ib,
                        y,
                        ic,
                    ));
                }
                assert forall|x: int|
                    0 <= x < old(lay).copies.len() implies #[trigger] lay.copies.repr(x)
                    == crate::copy::repr_after2(old(lay).copies, ia, ib, ic, id, x) by {
                    assert(l4.copies.repr(x) == crate::copy::repr_after(
                        old(lay).copies,
                        ia,
                        ib,
                        x,
                    ));
                    assert(l4.copies.repr(ic) == crate::copy::repr_after(
                        old(lay).copies,
                        ia,
                        ib,
                        ic,
                    ));
                    assert(l4.copies.same_class(x, id) <==> crate::copy::linked(
                        old(lay).copies,
                        ia,
                        ib,
                        x,
                        id,
                    ));
                }
            }
        }
        Ok(w2)
    }
}

/// The grid is untouched: no cell assigned, the cursor at the top.
pub open spec fn fresh_grid(l: Layouter) -> bool {
    &&& l.cursor == 0
    &&& forall|c2: int, r2: int|
        0 <= c2 < l.cs.num_advice && 0 <= r2 < l.num_rows ==> #[trigger] l.advice_at(c2, r2)
            is Unassigned
    &&& forall|c2: int, r2: int|
        0 <= c2 < l.cs.num_fixed && 0 <= r2 < l.num_rows ==> #[trigger] l.fixed_at(c2, r2)
            is Unassigned
}

impl MulCircuit {
    /// A three-row region computing a sum: like the multiplication gadget,
    /// with the addition gate and no copy constraints back to the operands.
    pub fn add(config: &MulConfig, lay: &mut Layouter, lhs: AssignedCell, rhs: AssignedCell) -> (r:
        Result<AssignedCell, Error>)
        requires
            old(lay).wf(),
            !old(lay).region_active,
            config.advice.kind == ColKind::Advice,
            config.advice.index < old(lay).cs.num_advice,
            config.q_add_enable.index < old(lay).cs.num_selectors,
        ensures
            final(lay).wf(),
            final(lay).cs == old(lay).cs,
            final(lay).num_rows == old(lay).num_rows,
            final(lay).fixed == old(lay).fixed,
            final(lay).copies == old(lay).copies,
            final(lay).cursor >= old(lay).cursor,
            r is Ok ==> !final(lay).region_active,
            r is Err ==> (r == Result::<AssignedCell, Error>::Err(Error::NotEnoughRows) || r
                == Result::<AssignedCell, Error>::Err(Error::DoubleAssignment) || r == Result::<
                AssignedCell,
                Error,
            >::Err(Error::OutOfRangeRotation) || r == Result::<AssignedCell, Error>::Err(
                Error::EqualityNotEnabled,
            )),
            r matches Ok(out) ==> final(lay).cell_in_grid(out.cell) && out.cell.column
                == config.advice,
            (mul_setup(*config, old(lay).cs) && rows3_ready(*config, *old(lay))) ==> ({
                &&& r is Ok
                &&& !final(lay).region_active
                &&& final(lay).cursor == old(lay).cursor + 3
                &&& (r matches Ok(out) && out.cell == (Cell {
                    column: config.advice,
                    row: (old(lay).cursor + 2) as usize,
                }))
                &&& (match (lhs.value, rhs.value) {
                    (Some(x), Some(y)) => r matches Ok(out) && out.value matches Some(v)
                        && v.val() == (x.val() + y.val()) % modulus(),
                    _ => r matches Ok(out) && out.value is None,
                })
                &&& final(lay).advice_at(config.advice.index as int, old(lay).cursor as int)
                    == value_state(lhs.value)
                &&& final(lay).advice_at(config.advice.index as int, old(lay).cursor + 1)
                    == value_state(rhs.value)
                &&& (match (lhs.value, rhs.value) {
                    (Some(x), Some(y)) => final(lay).advice_at(
                        config.advice.index as int,
                        old(lay).cursor + 2,
                    ) matches CellState::Known(v) && v.val() == (x.val() + y.val()) % modulus(),
                    _ => final(lay).advice_at(config.advice.index as int, old(lay).cursor + 2)
                        is Unknown,
                })
                &&& (forall|c2: int, r2: int|
                    0 <= c2 < old(lay).cs.num_advice && 0 <= r2 < old(lay).num_rows && !(c2
                        == config.advice.index && old(lay).cursor <= r2 < old(lay).cursor + 3)
                        ==> final(lay).advice_at(c2, r2) == old(lay).advice_at(c2, r2))
                &&& final(lay).sel_at(
                    config.q_add_enable.index as int,
                    old(lay).cursor as int,
                )
                &&& (forall|s2: int, r2: int|
                    0 <= s2 < old(lay).cs.num_selectors && 0 <= r2 < old(lay).num_rows && !(s2
                        == config.q_add_enable.index && r2 == old(lay).cursor)
                        ==> final(lay).sel_at(s2, r2) == old(lay).sel_at(s2, r2))
            }),
    {
        let ghost ready = mul_setup(*config, old(lay).cs) && rows3_ready(*config, *old(lay));
        let v0 = lhs.value();
        let v1 = rhs.value();
        proof {
            match v0 {
                Some(x) => use_type_invariant(x),
                None => {},
            }
            match v1 {
                Some(y) => use_type_invariant(y),
                None => {},
            }
        }
        let v2 = match (v0, v1) {
            (Some(x), Some(y)) => Some(crate::field::felt_add(&x, &y)),
            _ => None,
        };
        let mut region = lay.begin_region();
        let ghost l0 = *lay;
        let ghost cur = old(lay).cursor as int;
        let ghost adv = config.advice.index as int;
        let _z0 = match region.assign_advice(lay, config.advice, 0, v0) {
            Ok(c) => c,
            Err(e) => {
                return Err(e);
            },
        };
        let ghost l1 = *lay;
        let _z1 = match region.assign_advice(lay, config.advice, 1, v1) {
            Ok(c) => c,
            Err(e) => {
                proof {
                    if ready {
                        assert(l1.advice_at(adv, cur + 1) is Unassigned);
                    }
                }
                return Err(e);
            },
        };
        let ghost l2 = *lay;
        let z2 = match region.assign_advice(lay, config.advice, 2, v2) {
            Ok(c) => c,
            Err(e) => {
                proof {
                    if ready {
                        assert(l1.advice_at(adv, cur + 2) == l0.advice_at(adv, cur + 2));
                        assert(l2.advice_at(adv, cur + 2) is Unassigned);
                    }
                }
                return Err(e);
            },
        };
        let ghost l3 = *lay;
        match config.q_add_enable.enable(&mut region, lay, 0) {
            Ok(()) => {},
            Err(e) => {
                proof {
                    if ready {
                        lemma_selector_rows_ok(*config, *lay, config.q_add_enable, 2, cur);
                        assert(false);
                    }
                }
                return Err(e);
            },
        }
        let ghost l3e = *lay;
        lay.commit_region(region);
        proof {
            if ready {
                assert forall|s2: int, r2: int|
                    0 <= s2 < old(lay).cs.num_selectors && 0 <= r2 < old(lay).num_rows && !(s2
                        == config.q_add_enable.index && r2 == cur) implies lay.sel_at(s2, r2)
                    == old(lay).sel_at(s2, r2) by {
                    assert(l3e.sel_at(s2, r2) == l3.sel_at(s2, r2));
                }
                assert forall|c2: int, r2: int|
                    0 <= c2 < old(lay).cs.num_advice && 0 <= r2 < old(lay).num_rows && !(c2 == adv
                        && cur <= r2 < cur + 3) implies lay.advice_at(c2, r2) == old(
                    lay,
                ).advice_at(c2, r2) by {
                    assert(l1.advice_at(c2, r2) == l0.advice_at(c2, r2));
                    assert(l2.advice_at(c2, r2) == l1.advice_at(c2, r2));
                    assert(l3.advice_at(c2, r2) == l2.advice_at(c2, r2));
                }
                assert(l2.advice_at(adv, cur) == l1.advice_at(adv, cur));
                assert(l3.advice_at(adv, cur) == l2.advice_at(adv, cur));
                assert(l3.advice_at(adv, cur + 1) == l2.advice_at(adv, cur + 1));
                assert(lay.advice_at(adv, cur) == value_state(lhs.value));
                assert(lay.advice_at(adv, cur + 1) == value_state(rhs.value));
            }
        }
        Ok(z2)
    }

    /// The multiplication gadget written with `copy_advice`: assigning and
    /// constraining each operand in one step.
    pub fn mul_sugar(config: &MulConfig, lay: &mut Layouter, lhs: AssignedCell, rhs: AssignedCell)
        -> (r: Result<AssignedCell, Error>)
        requires
            old(lay).wf(),
            !old(lay).region_active,
            config.advice.kind == ColKind::Advice,
            config.advice.index < old(lay).cs.num_advice,
            config.q_mul_enable.index < old(lay).cs.num_selectors,
            old(lay).cell_in_grid(lhs.cell),
            old(lay).cell_in_grid(rhs.cell),
        ensures
            final(lay).wf(),
            final(lay).cs == old(lay).cs,
            final(lay).num_rows == old(lay).num_rows,
            final(lay).fixed == old(lay).fixed,
            final(lay).cursor >= old(lay).cursor,
            r is Ok ==> !final(lay).region_active,
            r is Err ==> (r == Result::<AssignedCell, Error>::Err(Error::NotEnoughRows) || r
                == Result::<AssignedCell, Error>::Err(Error::DoubleAssignment) || r == Result::<
                AssignedCell,
                Error,
            >::Err(Error::OutOfRangeRotation) || r == Result::<AssignedCell, Error>::Err(
                Error::EqualityNotEnabled,
            )),
            r matches Ok(out) ==> final(lay).cell_in_grid(out.cell) && out.cell.column
                == config.advice,
            (mul_setup(*config, old(lay).cs) && rows3_ready(*config, *old(lay)) && old(
                lay,
            ).cs.equality_enabled(lhs.cell.column) && old(lay).cs.equality_enabled(
                rhs.cell.column,
            )) ==> ({
                &&& r is Ok
                &&& !final(lay).region_active
                &&& final(lay).cursor == old(lay).cursor + 3
                &&& (r matches Ok(out) && out.cell == (Cell {
                    column: config.advice,
                    row: (old(lay).cursor + 2) as usize,
                }))
                &&& (match (lhs.value, rhs.value) {
                    (Some(x), Some(y)) => r matches Ok(out) && out.value matches Some(v)
                        && v.val() == (x.val() * y.val()) % modulus(),
                    _ => r matches Ok(out) && out.value is None,
                })
                &&& final(lay).advice_at(config.advice.index as int, old(lay).cursor as int)
                    == value_state(lhs.value)
                &&& final(lay).advice_at(config.advice.index as int, old(lay).cursor + 1)
                    == value_state(rhs.value)
                &&& (match (lhs.value, rhs.value) {
                    (Some(x), Some(y)) => final(lay).advice_at(
                        config.advice.index as int,
                        old(lay).cursor + 2,
                    ) matches CellState::Known(v) && v.val() == (x.val() * y.val()) % modulus(),
                    _ => final(lay).advice_at(config.advice.index as int, old(lay).cursor + 2)
                        is Unknown,
                })
                &&& (forall|c2: int, r2: int|
                    0 <= c2 < old(lay).cs.num_advice && 0 <= r2 < old(lay).num_rows && !(c2
                        == config.advice.index && old(lay).cursor <= r2 < old(lay).cursor + 3)
                        ==> final(lay).advice_at(c2, r2) == old(lay).advice_at(c2, r2))
                &&& final(lay).sel_at(
                    config.q_mul_enable.index as int,
                    old(lay).cursor as int,
                )
                &&& (forall|s2: int, r2: int|
                    0 <= s2 < old(lay).cs.num_selectors && 0 <= r2 < old(lay).num_rows && !(s2
                        == config.q_mul_enable.index && r2 == old(lay).cursor)
                        ==> final(lay).sel_at(s2, r2) == old(lay).sel_at(s2, r2))
                &&& final(lay).copies.len() == old(lay).copies.len()
                &&& (forall|x: int, y: int|
                    0 <= x < old(lay).copies.len() && 0 <= y < old(lay).copies.len() ==> (
                    #[trigger] final(lay).copies.same_class(x, y) <==> crate::copy::linked2(
                        old(lay).copies,
                        old(lay).cell_index(
                            Cell { column: config.advice, row: old(lay).cursor as usize },
                        ),
                        old(lay).cell_index(lhs.cell),
                        old(lay).cell_index(
                            Cell { column: config.advice, row: (old(lay).cursor + 1) as usize },
                        ),
                        old(lay).cell_index(rhs.cell),
                        x,
                        y,
                    )))
                &&& (forall|x: int|
                    0 <= x < old(lay).copies.len() ==> #[trigger] final(lay).copies.repr(x)
                        == crate::copy::repr_after2(
                        old(lay).copies,
                        old(lay).cell_index(lhs.cell),
                        old(lay).cell_index(
                            Cell { column: config.advice, row: old(lay).cursor as usize },
                        ),
                        old(lay).cell_index(rhs.cell),
                        old(lay).cell_index(
                            Cell { column: config.advice, row: (old(lay).cursor + 1) as usize },
                        ),
                        x,
                    ))
                &&& final(lay).same_cells(
                    Cell { column: config.advice, row: old(lay).cursor as usize },
                    lhs.cell,
                )
                &&& final(lay).same_cells(
                    Cell { column: config.advice, row: (old(lay).cursor + 1) as usize },
                    rhs.cell,
                )
            }),
    {
        let ghost ready = mul_setup(*config, old(lay).cs) && rows3_ready(*config, *old(lay))
            && old(lay).cs.equality_enabled(lhs.cell.column) && old(lay).cs.equality_enabled(
            rhs.cell.column,
        );
        let w0v = lhs.value();
        let w1v = rhs.value();
        proof {
            match w0v {
                Some(x) => use_type_invariant(x),
                None => {},
            }
            match w1v {
                Some(y) => use_type_invariant(y),
                None => {},
            }
        }
        let w2v = match (w0v, w1v) {
            (Some(x), Some(y)) => Some(crate::field::felt_mul(&x, &y)),
            _ => None,
        };
        let mut region = lay.begin_region();
        let ghost l0 = *lay;
        let ghost cur = old(lay).cursor as int;
        let ghost adv = config.advice.index as int;
        let _w0 = match lhs.copy_advice(&mut region, lay, config.advice, 0) {
            Ok(c) => c,
            Err(e) => {
                return Err(e);
            },
        };
        let ghost l1 = *lay;
        let _w1 = match rhs.copy_advice(&mut region, lay, config.advice, 1) {
            Ok(c) => c,
            Err(e) => {
                proof {
                    if ready {
                        assert(l1.advice_at(adv, cur + 1) is Unassigned);
                    }
                }
                return Err(e);
            },
        };
        let ghost l2 = *lay;
        let w2 = match region.assign_advice(lay, config.advice, 2, w2v) {
            Ok(c) => c,
            Err(e) => {
                proof {
                    if ready {
                        assert(l1.advice_at(adv, cur + 2) == l0.advice_at(adv, cur + 2));
                        assert(l2.advice_at(adv, cur + 2) is Unassigned);
                    }
                }
                return Err(e);
            },
        };
        let ghost l3 = *lay;
        match config.q_mul_enable.enable(&mut region, lay, 0) {
            Ok(()) => {},
            Err(e) => {
                proof {
                    if ready {
                        lemma_selector_rows_ok(*config, *lay, config.q_mul_enable, 2, cur);
                        assert(false);
                    }
                }
                return Err(e);
            },
        }
        let ghost l3e = *lay;
        lay.commit_region(region);
        proof {
            if ready {
                assert forall|c2: int, r2: int|
                    0 <= c2 < old(lay).cs.num_advice && 0 <= r2 < old(lay).num_rows && !(c2 == adv
                        && cur <= r2 < cur + 3) implies lay.advice_at(c2, r2) == old(
                    lay,
                ).advice_at(c2, r2) by {
                    assert(l1.advice_at(c2, r2) == l0.advice_at(c2, r2));
                    assert(l2.advice_at(c2, r2) == l1.advice_at(c2, r2));
                    assert(l3.advice_at(c2, r2) == l2.advice_at(c2, r2));
                }
                assert(l2.advice_at(adv, cur) == l1.advice_at(adv, cur));
                assert(l3.advice_at(adv, cur) == l2.advice_at(adv, cur));
                assert(l3.advice_at(adv, cur + 1) == l2.advice_at(adv, cur + 1));
                assert(lay.advice_at(adv, cur) == value_state(lhs.value));
                assert(lay.advice_at(adv, cur + 1) == value_state(rhs.value));
                assert forall|s2: int, r2: int|
                    0 <= s2 < old(lay).cs.num_selectors && 0 <= r2 < old(lay).num_rows && !(s2
                        == config.q_mul_enable.index && r2 == cur) implies lay.sel_at(s2, r2)
                    == old(lay).sel_at(s2, r2) by {
                    assert(l3e.sel_at(s2, r2) == l3.sel_at(s2, r2));
                }
                crate::layout::lemma_cell_index_bound(*old(lay), Cell {
                    column: config.advice,
                    row: cur as usize,
                });
                crate::layout::lemma_cell_index_bound(*old(lay), Cell {
                    column: config.advice,
                    row: (cur + 1) as usize,
                });
                crate::layout::lemma_cell_index_bound(*old(lay), lhs.cell);
                crate::layout::lemma_cell_index_bound(*old(lay), rhs.cell);
                let ia = old(lay).cell_index(Cell { column: config.advice, row: cur as usize });
                let ib = old(lay).cell_index(lhs.cell);
                let ic = old(lay).cell_index(
                    Cell { column: config.advice, row: (cur + 1) as usize },
                );
                let id = old(lay).cell_index(rhs.cell);
                assert forall|x: int, y: int|
                    0 <= x < old(lay).copies.len() && 0 <= y < old(
                    lay,
                ).copies.len() implies (#[trigger] lay.copies.same_class(x, y)
                    <==> crate::copy::linked2(old(lay).copies, ia, ib, ic, id, x, y)) by {
                    assert(l1.copies.same_class(x, y) <==> crate::copy::linked(
                        old(lay).copies,
                        ia,
                        ib,
                        x,
                        y,
                    ));
                    assert(l1.copies.same_class(x, ic) <==> crate::copy::linked(
                        old(lay).copies,
                        ia,
                        ib,
                        x,
                        ic,
                    ));
                    assert(l1.copies.same_class(y, id) <==> crate::copy::linked(
                        old(lay).copies,
                        ia,
                        ib,
                        y,
                        id,
                    ));
                    assert(l1.copies.same_class(x, id) <==> crate::copy::linked(
                        old(lay).copies,
                        ia,
                        ib,
                        x,
                        id,
                    ));
                    assert(l1.copies.same_class(y, ic) <==> crate::copy::linked(
                        old(lay).copies,
                        ia,
                        ib,
                        y,
                        ic,
                    ));
                }
                assert forall|x: int|
                    0 <= x < old(lay).copies.len() implies #[trigger] lay.copies.repr(x)
                    == crate::copy::repr_after2(old(lay).copies, ib, ia, id, ic, x) by {
                    assert(l1.copies.repr(x) == crate::copy::repr_after(
                        old(lay).copies,
                        ib,
                        ia,
                        x,
                    ));
                    assert(l1.copies.repr(id) == crate::copy::repr_after(
                        old(lay).copies,
                        ib,
                        ia,
                        id,
                    ));
                    assert(l1.copies.same_class(x, ic) <==> crate::copy::linked(
                        old(lay).copies,
                        ia,
                        ib,
                        x,
                        ic,
                    ));
                }
                assert(lay.same_cells(
                    Cell { column: config.advice, row: cur as usize },
                    lhs.cell,
                ));
                assert(lay.same_cells(
                    Cell { column: config.advice, row: (cur + 1) as usize },
                    rhs.cell,
                ));
            }
        }
        Ok(w2)
    }

    /// A one-row region binding an already assigned variable to a baked-in
    /// constant: the variable is copied onto the advice column, the constant
    /// goes into the fixed column of the same row, the fixed-check gate is
    /// enabled there, and the two cells are constrained equal.
    pub fn fixed(config: &MulConfig, lay: &mut Layouter, value: Felt, variable: AssignedCell) -> (r:
        Result<(), Error>)
        requires
            old(lay).wf(),
            !old(lay).region_active,
            config.advice.kind == ColKind::Advice,
            config.advice.index < old(lay).cs.num_advice,
            config.fixed.kind == ColKind::Fixed,
            config.fixed.index < old(lay).cs.num_fixed,
            config.q_fixed_enable.index < old(lay).cs.num_selectors,
            old(lay).cell_in_grid(variable.cell),
        ensures
            final(lay).wf(),
            final(lay).cs == old(lay).cs,
            final(lay).num_rows == old(lay).num_rows,
            final(lay).cursor >= old(lay).cursor,
            r is Ok ==> !final(lay).region_active,
            r is Err ==> (r == Result::<(), Error>::Err(Error::NotEnoughRows) || r == Result::<
                (),
                Error,
            >::Err(Error::DoubleAssignment) || r == Result::<(), Error>::Err(
                Error::OutOfRangeRotation,
            ) || r == Result::<(), Error>::Err(Error::EqualityNotEnabled)),
            (mul_setup(*config, old(lay).cs) && old(lay).cursor + 1 <= old(lay).num_rows && old(
                lay,
            ).advice_at(config.advice.index as int, old(lay).cursor as int) is Unassigned && old(
                lay,
            ).fixed_at(config.fixed.index as int, old(lay).cursor as int) is Unassigned && old(
                lay,
            ).cs.equality_enabled(variable.cell.column)) ==> ({
                &&& r is Ok
                &&& !final(lay).region_active
                &&& final(lay).cursor == old(lay).cursor + 1
                &&& final(lay).advice_at(config.advice.index as int, old(lay).cursor as int)
                    == value_state(variable.value)
                &&& final(lay).fixed_at(config.fixed.index as int, old(lay).cursor as int)
                    == CellState::Known(value)
                &&& final(lay).sel_at(
                    config.q_fixed_enable.index as int,
                    old(lay).cursor as int,
                )
                &&& (forall|c2: int, r2: int|
                    0 <= c2 < old(lay).cs.num_advice && 0 <= r2 < old(lay).num_rows && !(c2
                        == config.advice.index && r2 == old(lay).cursor)
                        ==> final(lay).advice_at(c2, r2) == old(lay).advice_at(c2, r2))
                &&& (forall|c2: int, r2: int|
                    0 <= c2 < old(lay).cs.num_fixed && 0 <= r2 < old(lay).num_rows && !(c2
                        == config.fixed.index && r2 == old(lay).cursor)
                        ==> final(lay).fixed_at(c2, r2) == old(lay).fixed_at(c2, r2))
                &&& (forall|s2: int, r2: int|
                    0 <= s2 < old(lay).cs.num_selectors && 0 <= r2 < old(lay).num_rows && !(s2
                        == config.q_fixed_enable.index && r2 == old(lay).cursor)
                        ==> final(lay).sel_at(s2, r2) == old(lay).sel_at(s2, r2))
                &&& final(lay).copies.len() == old(lay).copies.len()
                &&& (forall|x: int, y: int|
                    0 <= x < old(lay).copies.len() && 0 <= y < old(lay).copies.len() ==> (
                    #[trigger] final(lay).copies.same_class(x, y) <==> crate::copy::linked2(
                        old(lay).copies,
                        old(lay).cell_index(
                            Cell { column: config.advice, row: old(lay).cursor as usize },
                        ),
                        old(lay).cell_index(variable.cell),
                        old(lay).cell_index(variable.cell),
                        old(lay).cell_index(
                            Cell { column: config.fixed, row: old(lay).cursor as usize },
                        ),
                        x,
                        y,
                    )))
                &&& (forall|x: int|
                    0 <= x < old(lay).copies.len() ==> #[trigger] final(lay).copies.repr(x)
                        == crate::copy::repr_after2(
                        old(lay).copies,
                        old(lay).cell_index(variable.cell),
                        old(lay).cell_index(
                            Cell { column: config.advice, row: old(lay).cursor as usize },
                        ),
                        old(lay).cell_index(variable.cell),
                        old(lay).cell_index(
                            Cell { column: config.fixed, row: old(lay).cursor as usize },
                        ),
                        x,
                    ))
                &&& final(lay).same_cells(
                    Cell { column: config.advice, row: old(lay).cursor as usize },
                    variable.cell,
                )
                &&& final(lay).same_cells(variable.cell, Cell {
                    column: config.fixed,
                    row: old(lay).cursor as usize,
                })
            }),
    {
        let ghost ready = mul_setup(*config, old(lay).cs) && old(lay).cursor + 1 <= old(
            lay,
        ).num_rows && old(lay).advice_at(config.advice.index as int, old(lay).cursor as int)
            is Unassigned && old(lay).fixed_at(config.fixed.index as int, old(lay).cursor as int)
            is Unassigned && old(lay).cs.equality_enabled(variable.cell.column);
        proof {
            use_type_invariant(value);
            match variable.value {
                Some(x) => use_type_invariant(x),
                None => {},
            }
        }
        let mut region = lay.begin_region();
        let ghost l0 = *lay;
        let ghost cur = old(lay).cursor as int;
        let _copied = match variable.copy_advice(&mut region, lay, config.advice, 0) {
            Ok(c) => c,
            Err(e) => {
                return Err(e);
            },
        };
        let ghost l1 = *lay;
        let fixed_cell = match region.assign_fixed(lay, config.fixed, 0, value) {
            Ok(c) => c,
            Err(e) => {
                proof {
                    if ready {
                        assert(l1.fixed_at(config.fixed.index as int, cur) is Unassigned);
                    }
                }
                return Err(e);
            },
        };
        let ghost l2 = *lay;
        match config.q_fixed_enable.enable(&mut region, lay, 0) {
            Ok(()) => {},
            Err(e) => {
                proof {
                    if ready {
                        lemma_selector_rows_ok(*config, *lay, config.q_fixed_enable, 0, cur);
                        assert(false);
                    }
                }
                return Err(e);
            },
        }
        let ghost l3 = *lay;
        match region.constrain_equal(lay, variable.cell(), fixed_cell.cell()) {
            Ok(()) => {},
            Err(e) => {
                return Err(e);
            },
        }
        lay.commit_region(region);
        proof {
            if ready {
                assert(l2.advice_at(config.advice.index as int, cur) == l1.advice_at(
                    config.advice.index as int,
                    cur,
                ));
                assert(lay.advice_at(config.advice.index as int, cur) == value_state(
                    variable.value,
                ));
                assert forall|c2: int, r2: int|
                    0 <= c2 < old(lay).cs.num_advice && 0 <= r2 < old(lay).num_rows && !(c2
                        == config.advice.index && r2 == cur) implies lay.advice_at(c2, r2) == old(
                    lay,
                ).advice_at(c2, r2) by {
                    assert(l1.advice_at(c2, r2) == l0.advice_at(c2, r2));
                }
                assert forall|c2: int, r2: int|
                    0 <= c2 < old(lay).cs.num_fixed && 0 <= r2 < old(lay).num_rows && !(c2
                        == config.fixed.index && r2 == cur) implies lay.fixed_at(c2, r2) == old(
                    lay,
                ).fixed_at(c2, r2) by {
                    assert(l2.fixed_at(c2, r2) == l1.fixed_at(c2, r2));
                }
                assert forall|s2: int, r2: int|
                    0 <= s2 < old(lay).cs.num_selectors && 0 <= r2 < old(lay).num_rows && !(s2
                        == config.q_fixed_enable.index && r2 == cur) implies lay.sel_at(s2, r2)
                    == old(lay).sel_at(s2, r2) by {
                    assert(l3.sel_at(s2, r2) == l2.sel_at(s2, r2));
                }
                crate::layout::lemma_cell_index_bound(*old(lay), Cell {
                    column: config.advice,
                    row: cur as usize,
                });
                crate::layout::lemma_cell_index_bound(*old(lay), Cell {
                    column: config.fixed,
                    row: cur as usize,
                });
                crate::layout::lemma_cell_index_bound(*old(lay), variable.cell);
                let ia = old(lay).cell_index(Cell { column: config.advice, row: cur as usize });
                let ib = old(lay).cell_index(variable.cell);
                let id = old(lay).cell_index(Cell { column: config.fixed, row: cur as usize });
                assert forall|x: int, y: int|
                    0 <= x < old(lay).copies.len() && 0 <= y < old(
                    lay,
                ).copies.len() implies (#[trigger] lay.copies.same_class(x, y)
                    <==> crate::copy::linked2(old(lay).copies, ia, ib, ib, id, x, y)) by {
                    assert(l3.copies.same_class(x, y) <==> crate::copy::linked(
                        old(lay).copies,
                        ia,
                        ib,
                        x,
                        y,
                    ));
                    assert(l3.copies.same_class(x, ib) <==> crate::copy::linked(
                        old(lay).copies,
                        ia,
                        ib,
                        x,
                        ib,
                    ));
                    assert(l3.copies.same_class(y, id) <==> crate::copy::linked(
                        old(lay).copies,
                        ia,
                        ib,
                        y,
                        id,
                    ));
                    assert(l3.copies.same_class(x, id) <==> crate::copy::linked(
                        old(lay).copies,
                        ia,
                        ib,
                        x,
                        id,
                    ));
                    assert(l3.copies.same_class(y, ib) <==> crate::copy::linked(
                        old(lay).copies,
                        ia,
                        ib,
                        y,
                        ib,
                    ));
                }
                assert forall|x: int|
                    0 <= x < old(lay).copies.len() implies #[trigger] lay.copies.repr(x)
                    == crate::copy::repr_after2(old(lay).copies, ib, ia, ib, id, x) by {
                    assert(l3.copies.repr(x) == crate::copy::repr_after(
                        old(lay).copies,
                        ib,
                        ia,
                        x,
                    ));
                    assert(l3.copies.repr(ib) == crate::copy::repr_after(
                        old(lay).copies,
                        ib,
                        ia,
                        ib,
                    ));
                    assert(l3.copies.same_class(x, id) <==> crate::copy::linked(
                        old(lay).copies,
                        ia,
                        ib,
                        x,
                        id,
                    ));
                }
                assert(l1.same_cells(
                    Cell { column: config.advice, row: cur as usize },
                    variable.cell,
                ));
                assert(lay.same_cells(
                    Cell { column: config.advice, row: cur as usize },
                    variable.cell,
                ));
                assert(lay.same_cells(variable.cell, Cell {
                    column: config.fixed,
                    row: cur as usize,
                }));
            }
        }
        Ok(())
    }

    /// A one-row region that assigns a free variable: no gate is enabled and
    /// no constraint recorded; the cell only exists so later gadgets can
    /// bind to it.
    pub fn unconstrained(config: &MulConfig, lay: &mut Layouter, value: Option<Felt>) -> (r: Result<
        AssignedCell,
        Error,
    >)
        requires
            old(lay).wf(),
            !old(lay).region_active,
            config.advice.kind == ColKind::Advice,
            config.advice.index < old(lay).cs.num_advice,
        ensures
            final(lay).wf(),
            final(lay).cs == old(lay).cs,
            final(lay).num_rows == old(lay).num_rows,
            final(lay).fixed == old(lay).fixed,
            final(lay).copies == old(lay).copies,
            final(lay).selectors == old(lay).selectors,
            final(lay).cursor >= old(lay).cursor,
            r is Ok ==> !final(lay).region_active,
            r is Err ==> (r == Result::<AssignedCell, Error>::Err(Error::NotEnoughRows) || r
                == Result::<AssignedCell, Error>::Err(Error::DoubleAssignment) || r == Result::<
                AssignedCell,
                Error,
            >::Err(Error::OutOfRangeRotation) || r == Result::<AssignedCell, Error>::Err(
                Error::EqualityNotEnabled,
            )),
            r matches Ok(out) ==> final(lay).cell_in_grid(out.cell) && out.cell.column
                == config.advice,
            (old(lay).cursor + 1 <= old(lay).num_rows && old(lay).advice_at(
                config.advice.index as int,
                old(lay).cursor as int,
            ) is Unassigned) ==> ({
                &&& r is Ok
                &&& !final(lay).region_active
                &&& final(lay).cursor == old(lay).cursor + 1
                &&& (r matches Ok(out) && out.cell == (Cell {
                    column: config.advice,
                    row: old(lay).cursor as usize,
                }) && out.value == value)
                &&& final(lay).advice_at(config.advice.index as int, old(lay).cursor as int)
                    == value_state(value)
                &&& (forall|c2: int, r2: int|
                    0 <= c2 < old(lay).cs.num_advice && 0 <= r2 < old(lay).num_rows && !(c2
                        == config.advice.index && r2 == old(lay).cursor)
                        ==> final(lay).advice_at(c2, r2) == old(lay).advice_at(c2, r2))
            }),
    {
        proof {
            match value {
                Some(x) => use_type_invariant(x),
                None => {},
            }
        }
        let mut region = lay.begin_region();
        let ghost l0 = *lay;
        let ghost cur = old(lay).cursor as int;
        let cell = match region.assign_advice(lay, config.advice, 0, value) {
            Ok(c) => c,
            Err(e) => {
                return Err(e);
            },
        };
        let ghost l1 = *lay;
        lay.commit_region(region);
        proof {
            if old(lay).cursor + 1 <= old(lay).num_rows && old(lay).advice_at(
                config.advice.index as int,
                cur,
            ) is Unassigned {
                assert forall|c2: int, r2: int|
                    0 <= c2 < old(lay).cs.num_advice && 0 <= r2 < old(lay).num_rows && !(c2
                        == config.advice.index && r2 == cur) implies lay.advice_at(c2, r2) == old(
                    lay,
                ).advice_at(c2, r2) by {
                    assert(l1.advice_at(c2, r2) == l0.advice_at(c2, r2));
                }
            }
        }
        Ok(cell)
    }
}

impl MulCircuit {
    /// The circuit with its witness forgotten.
    pub fn without_witnesses(&self) -> (r: MulCircuit)
        ensures
            r.secret is None,
    {
        MulCircuit { secret: None }
    }

    /// Builds the constraint system of the circuit: three selectors, one
    /// advice and one fixed column with equality enabled on both, and the
    /// three gates — vertical multiplication, vertical addition, and the
    /// fixed-constant check.
    pub fn configure(cs: &mut ConstraintSystem) -> (r: Result<MulConfig, Error>)
        requires
            old(cs).wf(),
            !old(cs).frozen,
            old(cs).num_selectors + 3 <= usize::MAX,
            old(cs).num_advice < usize::MAX,
            old(cs).num_fixed < usize::MAX,
        ensures
            final(cs).wf(),
            !final(cs).frozen,
            r is Ok,
            r matches Ok(c) ==> ({
                &&& mul_setup(c, *final(cs))
                &&& c.q_mul_enable == (Selector { index: old(cs).num_selectors })
                &&& c.q_add_enable == (Selector { index: (old(cs).num_selectors + 1) as usize })
                &&& c.q_fixed_enable == (Selector { index: (old(cs).num_selectors + 2) as usize })
                &&& c.advice == (Column { kind: ColKind::Advice, index: old(cs).num_advice })
                &&& c.fixed == (Column { kind: ColKind::Fixed, index: old(cs).num_fixed })
                &&& final(cs).num_advice == old(cs).num_advice + 1
                &&& final(cs).num_fixed == old(cs).num_fixed + 1
                &&& final(cs).num_selectors == old(cs).num_selectors + 3
                &&& final(cs).gates@.len() == old(cs).gates@.len() + 3
                &&& final(cs).gates@[old(cs).gates@.len() as int].selector == c.q_mul_enable
                &&& final(cs).gates@[old(cs).gates@.len() as int].name@ == "vertical-mul"@
                &&& final(cs).gates@[old(cs).gates@.len() as int].exprs@.len() == 1
                &&& is_vertical_mul_expr(
                    final(cs).gates@[old(cs).gates@.len() as int].exprs@[0],
                    c.advice,
                )
                &&& final(cs).gates@[old(cs).gates@.len() as int + 1].selector == c.q_add_enable
                &&& final(cs).gates@[old(cs).gates@.len() as int + 1].name@ == "vertical-add"@
                &&& final(cs).gates@[old(cs).gates@.len() as int + 1].exprs@.len() == 1
                &&& is_vertical_add_expr(
                    final(cs).gates@[old(cs).gates@.len() as int + 1].exprs@[0],
                    c.advice,
                )
                &&& final(cs).gates@[old(cs).gates@.len() as int + 2].selector == c.q_fixed_enable
                &&& final(cs).gates@[old(cs).gates@.len() as int + 2].name@
                    == "fixed equal-constant check"@
                &&& final(cs).gates@[old(cs).gates@.len() as int + 2].exprs@.len() == 1
                &&& is_fixed_check_expr(
                    final(cs).gates@[old(cs).gates@.len() as int + 2].exprs@[0],
                    c.advice,
                    c.fixed,
                )
            }),
    {
        let q_mul_enable = cs.selector();
        let q_add_enable = cs.selector();
        let q_fixed_enable = cs.selector();
        let advice = cs.advice_column();
        let fixed = cs.fixed_column();
        proof {
            assert forall|i: int, j: int|
                0 <= i < cs.gates@.len() && 0 <= j
                    < cs.gates@[i].exprs@.len() implies !crate::system::expr_queries(
                #[trigger] cs.gates@[i].exprs@[j],
                advice,
            ) by {
                crate::system::lemma_wf_expr_no_new_query(cs.gates@[i].exprs@[j],
                    old(cs).num_advice as int, old(cs).num_fixed as int, advice);
            }
            assert forall|i: int, j: int|
                0 <= i < cs.gates@.len() && 0 <= j
                    < cs.gates@[i].exprs@.len() implies !crate::system::expr_queries(
                #[trigger] cs.gates@[i].exprs@[j],
                fixed,
            ) by {
                crate::system::lemma_wf_expr_no_new_query(cs.gates@[i].exprs@[j],
                    old(cs).num_advice as int, old(cs).num_fixed as int, fixed);
            }
        }
        match cs.enable_equality(advice) {
            Ok(()) => {},
            Err(e) => {
                return Err(e);
            },
        }
        match cs.enable_equality(fixed) {
            Ok(()) => {},
            Err(e) => {
                return Err(e);
            },
        }
        let mul_expr = Expression::Sum(
            Box::new(
                Expression::Product(
                    Box::new(Expression::Query(advice, 0)),
                    Box::new(Expression::Query(advice, 1)),
                ),
            ),
            Box::new(Expression::Negate(Box::new(Expression::Query(advice, 2)))),
        );
        let mut mul_exprs: Vec<Expression> = Vec::new();
        mul_exprs.push(mul_expr);
        proof {
            reveal_with_fuel(crate::system::expr_constants_wf, 5);
            assert(crate::system::expr_constants_wf(mul_exprs@[0]));
            reveal_with_fuel(crate::system::expr_wf, 5);
            assert(crate::system::expr_wf(mul_exprs@[0], cs.num_advice as int, cs.num_fixed as int));
        }
        match cs.create_gate("vertical-mul".to_owned(), q_mul_enable, mul_exprs) {
            Ok(()) => {},
            Err(e) => {
                return Err(e);
            },
        }
        let add_expr = Expression::Sum(
            Box::new(
                Expression::Sum(
                    Box::new(Expression::Query(advice, 0)),
                    Box::new(Expression::Query(advice, 1)),
                ),
            ),
            Box::new(Expression::Negate(Box::new(Expression::Query(advice, 2)))),
        );
        let mut add_exprs: Vec<Expression> = Vec::new();
        add_exprs.push(add_expr);
        proof {
            reveal_with_fuel(crate::system::expr_constants_wf, 5);
            assert(crate::system::expr_constants_wf(add_exprs@[0]));
            reveal_with_fuel(crate::system::expr_wf, 5);
            assert(crate::system::expr_wf(add_exprs@[0], cs.num_advice as int, cs.num_fixed as int));
        }
        match cs.create_gate("vertical-add".to_owned(), q_add_enable, add_exprs) {
            Ok(()) => {},
            Err(e) => {
                return Err(e);
            },
        }
        let fixed_expr = Expression::Sum(
            Box::new(Expression::Query(advice, 0)),
            Box::new(Expression::Negate(Box::new(Expression::Query(fixed, 0)))),
        );
        let mut fixed_exprs: Vec<Expression> = Vec::new();
        fixed_exprs.push(fixed_expr);
        proof {
            reveal_with_fuel(crate::system::expr_constants_wf, 5);
            assert(crate::system::expr_constants_wf(fixed_exprs@[0]));
            reveal_with_fuel(crate::system::expr_wf, 5);
            assert(crate::system::expr_wf(fixed_exprs@[0], cs.num_advice as int, cs.num_fixed as int));
        }
        match cs.create_gate("fixed equal-constant check".to_owned(), q_fixed_enable, fixed_exprs) {
            Ok(()) => {},
            Err(e) => {
                return Err(e);
            },
        }
        let config = MulConfig { q_mul_enable, q_add_enable, q_fixed_enable, advice, fixed };
        proof {
            let base = old(cs).gates@.len() as int;
            reveal_with_fuel(crate::system::expr_rots_within, 5);
            assert forall|g: int|
                0 <= g < cs.gates@.len() && (#[trigger] cs.gates@[g]).selector.index
                    == config.q_mul_enable.index implies gate_rots_within(cs.gates@[g], 0, 2) by {
                if g < base {
                    assert(crate::system::gate_wf(old(cs).gates@[g], old(cs).num_advice as int,
                        old(cs).num_fixed as int, old(cs).num_selectors as int));
                    assert(false);
                } else {
                    assert(g == base);
                    assert(crate::system::expr_rots_within(cs.gates@[g].exprs@[0], 0, 2));
                }
            }
            assert forall|g: int|
                0 <= g < cs.gates@.len() && (#[trigger] cs.gates@[g]).selector.index
                    == config.q_add_enable.index implies gate_rots_within(cs.gates@[g], 0, 2) by {
                if g < base {
                    assert(crate::system::gate_wf(old(cs).gates@[g], old(cs).num_advice as int,
                        old(cs).num_fixed as int, old(cs).num_selectors as int));
                    assert(false);
                } else {
                    assert(g == base + 1);
                    assert(crate::system::expr_rots_within(cs.gates@[g].exprs@[0], 0, 2));
                }
            }
            assert forall|g: int|
                0 <= g < cs.gates@.len() && (#[trigger] cs.gates@[g]).selector.index
                    == config.q_fixed_enable.index implies gate_rots_within(
                cs.gates@[g],
                0,
                0,
            ) by {
                if g < base {
                    assert(crate::system::gate_wf(old(cs).gates@[g], old(cs).num_advice as int,
                        old(cs).num_fixed as int, old(cs).num_selectors as int));
                    assert(false);
                } else {
                    assert(g == base + 2);
                    assert(crate::system::expr_rots_within(cs.gates@[g].exprs@[0], 0, 0));
                }
            }
        }
        Ok(config)
    }
}

/// The copy links the honest circuit records, in the order synthesis makes
/// them: each multiplication region ties its two operand rows back to the
/// cells they were copied from, and the constant check ties the chain's
/// result to the fixed cell.
pub open spec fn honest_link_pairs(c: MulConfig, l: Layouter) -> Seq<(int, int)> {
    seq![
        (
            l.cell_index(Cell { column: c.advice, row: 1 }),
            l.cell_index(Cell { column: c.advice, row: 0 }),
        ),
        (
            l.cell_index(Cell { column: c.advice, row: 2 }),
            l.cell_index(Cell { column: c.advice, row: 0 }),
        ),
        (
            l.cell_index(Cell { column: c.advice, row: 4 }),
            l.cell_index(Cell { column: c.advice, row: 3 }),
        ),
        (
            l.cell_index(Cell { column: c.advice, row: 5 }),
            l.cell_index(Cell { column: c.advice, row: 0 }),
        ),
        (
            l.cell_index(Cell { column: c.advice, row: 7 }),
            l.cell_index(Cell { column: c.advice, row: 6 }),
        ),
        (
            l.cell_index(Cell { column: c.advice, row: 8 }),
            l.cell_index(Cell { column: c.advice, row: 3 }),
        ),
        (
            l.cell_index(Cell { column: c.advice, row: 9 }),
            l.cell_index(Cell { column: c.advice, row: 19 }),
        ),
        (
            l.cell_index(Cell { column: c.advice, row: 9 }),
            l.cell_index(Cell { column: c.fixed, row: 19 }),
        ),
    ]
}

/// Two rows of the advice column sit in one copy class.
pub open spec fn same_on_advice(l: Layouter, c: MulConfig, r1: usize, r2: usize) -> bool {
    l.same_cells(Cell { column: c.advice, row: r1 }, Cell { column: c.advice, row: r2 })
}

/// Whether a cell state carries exactly the given known value, or is an
/// unknown assignment when no value is given.
pub open spec fn row_state_matches(st: CellState, v: Option<int>) -> bool {
    match v {
        Some(x) => st matches CellState::Known(w) && w.val() == x,
        None => st is Unknown,
    }
}

/// The value the honest circuit leaves in each advice row of its column:
/// the secret, the multiplication chain s, s^2, s^3, s^5 over rows 0..9,
/// the addition chain s, 2s, 3s, 5s over rows 10..18, and the fifth power
/// again on the constant-check row; every cell is an unknown assignment
/// when the witness is unknown.
pub open spec fn honest_row_value(secret: Option<Felt>, row: int) -> Option<int> {
    match secret {
        None => None,
        Some(s) => {
            let p = modulus() as int;
            let v = s.val() as int;
            let m2 = (v * v) % p;
            let m3 = (m2 * v) % p;
            let m5 = (m3 * m2) % p;
            let a2 = (v + v) % p;
            let a3 = (a2 + v) % p;
            let a5 = (a3 + a2) % p;
            if row == 3 || row == 4 || row == 8 {
                Some(m2)
            } else if row == 6 || row == 7 {
                Some(m3)
            } else if row == 9 || row == 19 {
                Some(m5)
            } else if row == 12 || row == 13 || row == 17 {
                Some(a2)
            } else if row == 15 || row == 16 {
                Some(a3)
            } else if row == 18 {
                Some(a5)
            } else {
                Some(v)
            }
        },
    }
}

impl MulCircuit {
    /// Whether the handles of the configuration address registered columns
    /// and selectors of this system.
    fn config_valid(config: &MulConfig, lay: &Layouter) -> (r: bool)
        ensures
            r == ({
                &&& config.advice.kind == ColKind::Advice
                &&& config.advice.index < lay.cs.num_advice
                &&& config.fixed.kind == ColKind::Fixed
                &&& config.fixed.index < lay.cs.num_fixed
                &&& config.q_mul_enable.index < lay.cs.num_selectors
                &&& config.q_add_enable.index < lay.cs.num_selectors
                &&& config.q_fixed_enable.index < lay.cs.num_selectors
            }),
    {
        let advice_ok = match config.advice.kind {
            ColKind::Advice => config.advice.index < lay.cs.num_advice,
            ColKind::Fixed => false,
        };
        let fixed_ok = match config.fixed.kind {
            ColKind::Advice => false,
            ColKind::Fixed => config.fixed.index < lay.cs.num_fixed,
        };
        advice_ok && fixed_ok && config.q_mul_enable.index < lay.cs.num_selectors
            && config.q_add_enable.index < lay.cs.num_selectors
            && config.q_fixed_enable.index < lay.cs.num_selectors
    }

    /// Lays the whole circuit out: the secret as a free variable, squared,
    /// cubed and raised to the fifth power through multiplication regions, a
    /// parallel chain of additions, and the fifth power bound to a baked-in
    /// constant. On a fresh grid of at least 20 rows under a matching
    /// configuration, synthesis succeeds, consumes exactly 20 rows, and
    /// leaves precisely the layout the ensures lists: the chain values of
    /// `honest_row_value` on the advice column, the constant in the fixed
    /// column, the three selectors on their region rows and nowhere else,
    /// and the copy links from each region's operands to their sources.
    #[verifier::rlimit(100)]
    #[verifier::spinoff_prover]
    pub fn synthesize(&self, config: &MulConfig, lay: &mut Layouter) -> (r: Result<(), Error>)
        requires
            old(lay).wf(),
            !old(lay).region_active,
        ensures
            final(lay).wf(),
            final(lay).cs == old(lay).cs,
            final(lay).num_rows == old(lay).num_rows,
            r is Err ==> (r == Result::<(), Error>::Err(Error::UnregisteredColumn) || r
                == Result::<(), Error>::Err(Error::NotEnoughRows) || r == Result::<(), Error>::Err(
                Error::DoubleAssignment,
            ) || r == Result::<(), Error>::Err(Error::OutOfRangeRotation) || r == Result::<
                (),
                Error,
            >::Err(Error::EqualityNotEnabled)),
            (mul_setup(*config, old(lay).cs) && fresh_grid(*old(lay)) && 20 <= old(
                lay,
            ).num_rows) ==> ({
                &&& r is Ok
                &&& final(lay).cursor == 20
                &&& !final(lay).region_active
                &&& (forall|row: int|
                    0 <= row < 20 ==> row_state_matches(
                        #[trigger] final(lay).advice_at(config.advice.index as int, row),
                        honest_row_value(self.secret, row),
                    ))
                &&& (final(lay).fixed_at(config.fixed.index as int, 19) matches CellState::Known(k)
                    && k.val() == 4272253717090457)
                &&& final(lay).sel_at(config.q_mul_enable.index as int, 1)
                &&& final(lay).sel_at(config.q_mul_enable.index as int, 4)
                &&& final(lay).sel_at(config.q_mul_enable.index as int, 7)
                &&& final(lay).sel_at(config.q_add_enable.index as int, 10)
                &&& final(lay).sel_at(config.q_add_enable.index as int, 13)
                &&& final(lay).sel_at(config.q_add_enable.index as int, 16)
                &&& final(lay).sel_at(config.q_fixed_enable.index as int, 19)
                &&& (forall|s2: int, r2: int|
                    0 <= s2 < old(lay).cs.num_selectors && 0 <= r2 < old(lay).num_rows && !((s2
                        == config.q_mul_enable.index && (r2 == 1 || r2 == 4 || r2 == 7)) || (s2
                        == config.q_add_enable.index && (r2 == 10 || r2 == 13 || r2 == 16)) || (s2
                        == config.q_fixed_enable.index && r2 == 19))
                        ==> final(lay).sel_at(s2, r2) == old(lay).sel_at(s2, r2))
                &&& (forall|c2: int, r2: int|
                    0 <= c2 < old(lay).cs.num_advice && 0 <= r2 < old(lay).num_rows && !(c2
                        == config.advice.index && r2 < 20)
                        ==> final(lay).advice_at(c2, r2) == old(lay).advice_at(c2, r2))
                &&& (forall|c2: int, r2: int|
                    0 <= c2 < old(lay).cs.num_fixed && 0 <= r2 < old(lay).num_rows && !(c2
                        == config.fixed.index && r2 == 19)
                        ==> final(lay).fixed_at(c2, r2) == old(lay).fixed_at(c2, r2))
                &&& final(lay).copies.len() == old(lay).copies.len()
                &&& (forall|x: int, y: int|
                    0 <= x < old(lay).copies.len() && 0 <= y < old(lay).copies.len() && old(
                        lay,
                    ).copies.same_class(x, y) ==> #[trigger] final(lay).copies.same_class(x, y))
                &&& (forall|x: int, y: int|
                    0 <= x < old(lay).copies.len() && 0 <= y < old(lay).copies.len() ==> (
                    #[trigger] final(lay).copies.same_class(x, y) <==> crate::copy::linked_chain(
                        old(lay).copies,
                        honest_link_pairs(*config, *old(lay)),
                        x,
                        y,
                    )))
                &&& (forall|x: int|
                    0 <= x < old(lay).copies.len() ==> #[trigger] final(lay).copies.repr(x)
                        == crate::copy::repr_chain(
                        old(lay).copies,
                        honest_link_pairs(*config, *old(lay)),
                        x,
                    ))
                &&& same_on_advice(*final(lay), *config, 1, 0)
                &&& same_on_advice(*final(lay), *config, 2, 0)
                &&& same_on_advice(*final(lay), *config, 4, 3)
                &&& same_on_advice(*final(lay), *config, 5, 0)
                &&& same_on_advice(*final(lay), *config, 7, 6)
                &&& same_on_advice(*final(lay), *config, 8, 3)
                &&& same_on_advice(*final(lay), *config, 19, 9)
                &&& final(lay).same_cells(
                    Cell { column: config.advice, row: 9 },
                    Cell { column: config.fixed, row: 19 },
                )
            }),
    {
        let ghost ready = mul_setup(*config, old(lay).cs) && fresh_grid(*old(lay)) && 20 <= old(
            lay,
        ).num_rows;
        if !MulCircuit::config_valid(config, lay) {
            return Err(Error::UnregisteredColumn);
        }
        let ghost adv = config.advice.index as int;
        let free_variable_1 = match MulCircuit::unconstrained(config, lay, self.secret) {
            Ok(c) => c,
            Err(e) => {
                return Err(e);
            },
        };
        let ghost s1 = *lay;
        proof {
            if ready {
                assert forall|c2: int, r2: int|
                    0 <= c2 < s1.cs.num_advice && 1 <= r2 < s1.num_rows implies #[trigger] s1
                    .advice_at(c2, r2) is Unassigned by {
                    assert(old(lay).advice_at(c2, r2) is Unassigned);
                }
            }
        }
        let free_variable_2 = match MulCircuit::mul(config, lay, free_variable_1,
            free_variable_1) {
            Ok(c) => c,
            Err(e) => {
                return Err(e);
            },
        };
        let ghost s2 = *lay;
        proof {
            if ready {
                assert forall|c2: int, r2: int|
                    0 <= c2 < s2.cs.num_advice && 4 <= r2 < s2.num_rows implies #[trigger] s2
                    .advice_at(c2, r2) is Unassigned by {
                    assert(s2.advice_at(c2, r2) == s1.advice_at(c2, r2));
                    assert(s1.advice_at(c2, r2) is Unassigned);
                }
            }
        }
        let free_variable_3 = match MulCircuit::mul(config, lay, free_variable_2,
            free_variable_1) {
            Ok(c) => c,
            Err(e) => {
                return Err(e);
            },
        };
        let ghost s3 = *lay;
        proof {
            if ready {
                assert forall|c2: int, r2: int|
                    0 <= c2 < s3.cs.num_advice && 7 <= r2 < s3.num_rows implies #[trigger] s3
                    .advice_at(c2, r2) is Unassigned by {
                    assert(s3.advice_at(c2, r2) == s2.advice_at(c2, r2));
                    assert(s2.advice_at(c2, r2) is Unassigned);
                }
            }
        }
        let free_variable_5 = match MulCircuit::mul(config, lay, free_variable_3,
            free_variable_2) {
            Ok(c) => c,
            Err(e) => {
                return Err(e);
            },
        };
        let ghost s4 = *lay;
        proof {
            if ready {
                assert forall|c2: int, r2: int|
                    0 <= c2 < s4.cs.num_advice && 10 <= r2 < s4.num_rows implies #[trigger] s4
                    .advice_at(c2, r2) is Unassigned by {
                    assert(s4.advice_at(c2, r2) == s3.advice_at(c2, r2));
                    assert(s3.advice_at(c2, r2) is Unassigned);
                }
            }
        }
        let free_add_var_2 = match MulCircuit::add(config, lay, free_variable_1, free_variable_1) {
            Ok(c) => c,
            Err(e) => {
                return Err(e);
            },
        };
        let ghost s5 = *lay;
        proof {
            if ready {
                assert forall|c2: int, r2: int|
                    0 <= c2 < s5.cs.num_advice && 13 <= r2 < s5.num_rows implies #[trigger] s5
                    .advice_at(c2, r2) is Unassigned by {
                    assert(s5.advice_at(c2, r2) == s4.advice_at(c2, r2));
                    assert(s4.advice_at(c2, r2) is Unassigned);
                }
            }
        }
        let free_add_var_3 = match MulCircuit::add(config, lay, free_add_var_2, free_variable_1) {
            Ok(c) => c,
            Err(e) => {
                return Err(e);
            },
        };
        let ghost s6 = *lay;
        proof {
            if ready {
                assert forall|c2: int, r2: int|
                    0 <= c2 < s6.cs.num_advice && 16 <= r2 < s6.num_rows implies #[trigger] s6
                    .advice_at(c2, r2) is Unassigned by {
                    assert(s6.advice_at(c2, r2) == s5.advice_at(c2, r2));
                    assert(s5.advice_at(c2, r2) is Unassigned);
                }
            }
        }
        let _free_add_var_5 = match MulCircuit::add(config, lay, free_add_var_3, free_add_var_2) {
            Ok(c) => c,
            Err(e) => {
                return Err(e);
            },
        };
        let ghost s7 = *lay;
        proof {
            if ready {
                assert forall|c2: int, r2: int|
                    0 <= c2 < s7.cs.num_advice && 19 <= r2 < s7.num_rows implies #[trigger] s7
                    .advice_at(c2, r2) is Unassigned by {
                    assert(s7.advice_at(c2, r2) == s6.advice_at(c2, r2));
                    assert(s6.advice_at(c2, r2) is Unassigned);
                }
                assert(s7.fixed_at(config.fixed.index as int, 19) == old(lay).fixed_at(
                    config.fixed.index as int,
                    19,
                ));
            }
        }
        match MulCircuit::fixed(config, lay, Felt::from_u128(4272253717090457), free_variable_5) {
            Ok(()) => {},
            Err(e) => {
                return Err(e);
            },
        }
        proof {
            if ready {
                let qm = config.q_mul_enable.index as int;
                let qa = config.q_add_enable.index as int;
                let qf = config.q_fixed_enable.index as int;
                assert forall|row: int| 0 <= row < 20 implies row_state_matches(
                    #[trigger] lay.advice_at(adv, row),
                    honest_row_value(self.secret, row),
                ) by {
                    if row < 1 {
                        assert(row_state_matches(s1.advice_at(adv, 0), honest_row_value(self.secret, 0)));
                        assert(s2.advice_at(adv, row) == s1.advice_at(adv, row));
                        assert(s3.advice_at(adv, row) == s2.advice_at(adv, row));
                        assert(s4.advice_at(adv, row) == s3.advice_at(adv, row));
                        assert(s5.advice_at(adv, row) == s4.advice_at(adv, row));
                        assert(s6.advice_at(adv, row) == s5.advice_at(adv, row));
                        assert(s7.advice_at(adv, row) == s6.advice_at(adv, row));
                        assert(lay.advice_at(adv, row) == s7.advice_at(adv, row));
                    } else if row < 4 {
                        assert(row_state_matches(s2.advice_at(adv, 1), honest_row_value(self.secret, 1)));
                        assert(row_state_matches(s2.advice_at(adv, 2), honest_row_value(self.secret, 2)));
                        assert(row_state_matches(s2.advice_at(adv, 3), honest_row_value(self.secret, 3)));
                        assert(s3.advice_at(adv, row) == s2.advice_at(adv, row));
                        assert(s4.advice_at(adv, row) == s3.advice_at(adv, row));
                        assert(s5.advice_at(adv, row) == s4.advice_at(adv, row));
                        assert(s6.advice_at(adv, row) == s5.advice_at(adv, row));
                        assert(s7.advice_at(adv, row) == s6.advice_at(adv, row));
                        assert(lay.advice_at(adv, row) == s7.advice_at(adv, row));
                    } else if row < 7 {
                        assert(row_state_matches(s3.advice_at(adv, 4), honest_row_value(self.secret, 4)));
                        assert(row_state_matches(s3.advice_at(adv, 5), honest_row_value(self.secret, 5)));
                        assert(row_state_matches(s3.advice_at(adv, 6), honest_row_value(self.secret, 6)));
                        assert(s4.advice_at(adv, row) == s3.advice_at(adv, row));
                        assert(s5.advice_at(adv, row) == s4.advice_at(adv, row));
                        assert(s6.advice_at(adv, row) == s5.advice_at(adv, row));
                        assert(s7.advice_at(adv, row) == s6.advice_at(adv, row));
                        assert(lay.advice_at(adv, row) == s7.advice_at(adv, row));
                    } else if row < 10 {
                        assert(row_state_matches(s4.advice_at(adv, 7), honest_row_value(self.secret, 7)));
                        assert(row_state_matches(s4.advice_at(adv, 8), honest_row_value(self.secret, 8)));
                        assert(row_state_matches(s4.advice_at(adv, 9), honest_row_value(self.secret, 9)));
                        assert(s5.advice_at(adv, row) == s4.advice_at(adv, row));
                        assert(s6.advice_at(adv, row) == s5.advice_at(adv, row));
                        assert(s7.advice_at(adv, row) == s6.advice_at(adv, row));
                        assert(lay.advice_at(adv, row) == s7.advice_at(adv, row));
                    } else if row < 13 {
                        assert(row_state_matches(s5.advice_at(adv, 10), honest_row_value(self.secret, 10)));
                        assert(row_state_matches(s5.advice_at(adv, 11), honest_row_value(self.secret, 11)));
                        assert(row_state_matches(s5.advice_at(adv, 12), honest_row_value(self.secret, 12)));
                        assert(s6.advice_at(adv, row) == s5.advice_at(adv, row));
                        assert(s7.advice_at(adv, row) == s6.advice_at(adv, row));
                        assert(lay.advice_at(adv, row) == s7.advice_at(adv, row));
                    } else if row < 16 {
                        assert(row_state_matches(s6.advice_at(adv, 13), honest_row_value(self.secret, 13)));
                        assert(row_state_matches(s6.advice_at(adv, 14), honest_row_value(self.secret, 14)));
                        assert(row_state_matches(s6.advice_at(adv, 15), honest_row_value(self.secret, 15)));
                        assert(s7.advice_at(adv, row) == s6.advice_at(adv, row));
                        assert(lay.advice_at(adv, row) == s7.advice_at(adv, row));
                    } else if row < 19 {
                        assert(row_state_matches(s7.advice_at(adv, 16), honest_row_value(self.secret, 16)));
                        assert(row_state_matches(s7.advice_at(adv, 17), honest_row_value(self.secret, 17)));
                        assert(row_state_matches(s7.advice_at(adv, 18), honest_row_value(self.secret, 18)));
                        assert(lay.advice_at(adv, row) == s7.advice_at(adv, row));
                    } else if true {
                        assert(row_state_matches(lay.advice_at(adv, 19), honest_row_value(self.secret, 19)));
                    }
                }
                assert(s3.sel_at(qm, 1) == s2.sel_at(qm, 1));
                assert(s4.sel_at(qm, 1) == s3.sel_at(qm, 1));
                assert(s5.sel_at(qm, 1) == s4.sel_at(qm, 1));
                assert(s6.sel_at(qm, 1) == s5.sel_at(qm, 1));
                assert(s7.sel_at(qm, 1) == s6.sel_at(qm, 1));
                assert(lay.sel_at(qm, 1) == s7.sel_at(qm, 1));
                assert(lay.sel_at(qm, 1));
                assert(s4.sel_at(qm, 4) == s3.sel_at(qm, 4));
                assert(s5.sel_at(qm, 4) == s4.sel_at(qm, 4));
                assert(s6.sel_at(qm, 4) == s5.sel_at(qm, 4));
                assert(s7.sel_at(qm, 4) == s6.sel_at(qm, 4));
                assert(lay.sel_at(qm, 4) == s7.sel_at(qm, 4));
                assert(lay.sel_at(qm, 4));
                assert(s5.sel_at(qm, 7) == s4.sel_at(qm, 7));
                assert(s6.sel_at(qm, 7) == s5.sel_at(qm, 7));
                assert(s7.sel_at(qm, 7) == s6.sel_at(qm, 7));
                assert(lay.sel_at(qm, 7) == s7.sel_at(qm, 7));
                assert(lay.sel_at(qm, 7));
                assert(s6.sel_at(qa, 10) == s5.sel_at(qa, 10));
                assert(s7.sel_at(qa, 10) == s6.sel_at(qa, 10));
                assert(lay.sel_at(qa, 10) == s7.sel_at(qa, 10));
                assert(lay.sel_at(qa, 10));
                assert(s7.sel_at(qa, 13) == s6.sel_at(qa, 13));
                assert(lay.sel_at(qa, 13) == s7.sel_at(qa, 13));
                assert(lay.sel_at(qa, 13));
                assert(lay.sel_at(qa, 16) == s7.sel_at(qa, 16));
                assert(lay.sel_at(qa, 16));
                assert(lay.sel_at(qf, 19));
                assert forall|s2v: int, r2: int|
                    0 <= s2v < old(lay).cs.num_selectors && 0 <= r2 < old(lay).num_rows && !((s2v
                        == qm && (r2 == 1 || r2 == 4 || r2 == 7)) || (s2v == qa && (r2 == 10 || r2
                        == 13 || r2 == 16)) || (s2v == qf && r2 == 19)) implies lay.sel_at(
                    s2v,
                    r2,
                ) == old(lay).sel_at(s2v, r2) by {
                    assert(s2.sel_at(s2v, r2) == s1.sel_at(s2v, r2));
                    assert(s3.sel_at(s2v, r2) == s2.sel_at(s2v, r2));
                    assert(s4.sel_at(s2v, r2) == s3.sel_at(s2v, r2));
                    assert(s5.sel_at(s2v, r2) == s4.sel_at(s2v, r2));
                    assert(s6.sel_at(s2v, r2) == s5.sel_at(s2v, r2));
                    assert(s7.sel_at(s2v, r2) == s6.sel_at(s2v, r2));
                    assert(lay.sel_at(s2v, r2) == s7.sel_at(s2v, r2));
                }
                assert forall|c2: int, r2: int|
                    0 <= c2 < old(lay).cs.num_advice && 0 <= r2 < old(lay).num_rows && !(c2 == adv
                        && r2 < 20) implies lay.advice_at(c2, r2) == old(lay).advice_at(
                    c2,
                    r2,
                ) by {
                    assert(s1.advice_at(c2, r2) == old(lay).advice_at(c2, r2));
                    assert(s2.advice_at(c2, r2) == s1.advice_at(c2, r2));
                    assert(s3.advice_at(c2, r2) == s2.advice_at(c2, r2));
                    assert(s4.advice_at(c2, r2) == s3.advice_at(c2, r2));
                    assert(s5.advice_at(c2, r2) == s4.advice_at(c2, r2));
                    assert(s6.advice_at(c2, r2) == s5.advice_at(c2, r2));
                    assert(s7.advice_at(c2, r2) == s6.advice_at(c2, r2));
                    assert(lay.advice_at(c2, r2) == s7.advice_at(c2, r2));
                }
                assert forall|c2: int, r2: int|
                    0 <= c2 < old(lay).cs.num_fixed && 0 <= r2 < old(lay).num_rows && !(c2
                        == config.fixed.index && r2 == 19) implies lay.fixed_at(c2, r2) == old(
                    lay,
                ).fixed_at(c2, r2) by {
                    assert(lay.fixed_at(c2, r2) == s7.fixed_at(c2, r2));
                }
                crate::layout::lemma_cell_index_bound(*lay, Cell { column: config.advice, row: 0 });
                crate::layout::lemma_cell_index_bound(*lay, Cell { column: config.advice, row: 1 });
                crate::layout::lemma_cell_index_bound(*lay, Cell { column: config.advice, row: 2 });
                crate::layout::lemma_cell_index_bound(*lay, Cell { column: config.advice, row: 3 });
                crate::layout::lemma_cell_index_bound(*lay, Cell { column: config.advice, row: 4 });
                crate::layout::lemma_cell_index_bound(*lay, Cell { column: config.advice, row: 5 });
                crate::layout::lemma_cell_index_bound(*lay, Cell { column: config.advice, row: 6 });
                crate::layout::lemma_cell_index_bound(*lay, Cell { column: config.advice, row: 7 });
                crate::layout::lemma_cell_index_bound(*lay, Cell { column: config.advice, row: 8 });
                crate::layout::lemma_cell_index_bound(*lay, Cell { column: config.advice, row: 9 });
                crate::layout::lemma_cell_index_bound(*lay, Cell { column: config.advice, row: 19 });
                crate::layout::lemma_cell_index_bound(*lay, Cell { column: config.fixed, row: 19 });
                assert forall|x: int, y: int|
                    0 <= x < old(lay).copies.len() && 0 <= y < old(lay).copies.len() && old(
                        lay,
                    ).copies.same_class(x, y) implies #[trigger] lay.copies.same_class(x, y) by {
                        assert(s2.copies.same_class(x, y));
                        assert(s3.copies.same_class(x, y));
                        assert(s4.copies.same_class(x, y));
                        assert(lay.copies.same_class(x, y));
                }
                reveal_with_fuel(crate::copy::linked_chain, 3);
                let ja0 = old(lay).cell_index(Cell { column: config.advice, row: 0 });
                let ja1 = old(lay).cell_index(Cell { column: config.advice, row: 1 });
                let ja2 = old(lay).cell_index(Cell { column: config.advice, row: 2 });
                let ja3 = old(lay).cell_index(Cell { column: config.advice, row: 3 });
                let ja4 = old(lay).cell_index(Cell { column: config.advice, row: 4 });
                let ja5 = old(lay).cell_index(Cell { column: config.advice, row: 5 });
                let ja6 = old(lay).cell_index(Cell { column: config.advice, row: 6 });
                let ja7 = old(lay).cell_index(Cell { column: config.advice, row: 7 });
                let ja8 = old(lay).cell_index(Cell { column: config.advice, row: 8 });
                let ja9 = old(lay).cell_index(Cell { column: config.advice, row: 9 });
                let ja19 = old(lay).cell_index(Cell { column: config.advice, row: 19 });
                let jf19 = old(lay).cell_index(Cell { column: config.fixed, row: 19 });
                let ps0 = Seq::<(int, int)>::empty();
                let ps1 = ps0.push((ja1, ja0));
                let ps2 = ps1.push((ja2, ja0));
                let ps3 = ps2.push((ja4, ja3));
                let ps4 = ps3.push((ja5, ja0));
                let ps5 = ps4.push((ja7, ja6));
                let ps6 = ps5.push((ja8, ja3));
                let ps7 = ps6.push((ja9, ja19));
                let ps8 = ps7.push((ja9, jf19));
                assert(ps1.drop_last() =~= ps0);
                assert(ps2.drop_last() =~= ps1);
                assert(ps3.drop_last() =~= ps2);
                assert(ps4.drop_last() =~= ps3);
                assert(ps5.drop_last() =~= ps4);
                assert(ps6.drop_last() =~= ps5);
                assert(ps7.drop_last() =~= ps6);
                assert(ps8.drop_last() =~= ps7);
                assert forall|x: int, y: int|
                    0 <= x < old(lay).copies.len() && 0 <= y < old(
                    lay,
                ).copies.len() implies (#[trigger] s2.copies.same_class(x, y)
                    <==> crate::copy::linked_chain(old(lay).copies, ps2, x, y)) by {
                }
                assert forall|x: int, y: int|
                    0 <= x < old(lay).copies.len() && 0 <= y < old(
                    lay,
                ).copies.len() implies (#[trigger] s3.copies.same_class(x, y)
                    <==> crate::copy::linked_chain(old(lay).copies, ps4, x, y)) by {
                    assert(0 <= x < old(lay).copies.len() && 0 <= y < old(lay).copies.len() ==> (s2.copies.same_class(x, y) <==> crate::copy::linked_chain(old(lay).copies, ps2, x, y)));
                    assert(0 <= x < old(lay).copies.len() && 0 <= ja5 < old(lay).copies.len() ==> (s2.copies.same_class(x, ja5) <==> crate::copy::linked_chain(old(lay).copies, ps2, x, ja5)));
                    assert(0 <= y < old(lay).copies.len() && 0 <= ja0 < old(lay).copies.len() ==> (s2.copies.same_class(y, ja0) <==> crate::copy::linked_chain(old(lay).copies, ps2, y, ja0)));
                    assert(0 <= x < old(lay).copies.len() && 0 <= ja0 < old(lay).copies.len() ==> (s2.copies.same_class(x, ja0) <==> crate::copy::linked_chain(old(lay).copies, ps2, x, ja0)));
                    assert(0 <= y < old(lay).copies.len() && 0 <= ja5 < old(lay).copies.len() ==> (s2.copies.same_class(y, ja5) <==> crate::copy::linked_chain(old(lay).copies, ps2, y, ja5)));
                    assert(0 <= x < old(lay).copies.len() && 0 <= ja4 < old(lay).copies.len() ==> (s2.copies.same_class(x, ja4) <==> crate::copy::linked_chain(old(lay).copies, ps2, x, ja4)));
                    assert(0 <= y < old(lay).copies.len() && 0 <= ja3 < old(lay).copies.len() ==> (s2.copies.same_class(y, ja3) <==> crate::copy::linked_chain(old(lay).copies, ps2, y, ja3)));
                    assert(0 <= x < old(lay).copies.len() && 0 <= ja3 < old(lay).copies.len() ==> (s2.copies.same_class(x, ja3) <==> crate::copy::linked_chain(old(lay).copies, ps2, x, ja3)));
                    assert(0 <= y < old(lay).copies.len() && 0 <= ja4 < old(lay).copies.len() ==> (s2.copies.same_class(y, ja4) <==> crate::copy::linked_chain(old(lay).copies, ps2, y, ja4)));
                    assert(0 <= ja5 < old(lay).copies.len() && 0 <= ja0 < old(lay).copies.len() ==> (s2.copies.same_class(ja5, ja0) <==> crate::copy::linked_chain(old(lay).copies, ps2, ja5, ja0)));
                    assert(0 <= ja4 < old(lay).copies.len() && 0 <= ja3 < old(lay).copies.len() ==> (s2.copies.same_class(ja4, ja3) <==> crate::copy::linked_chain(old(lay).copies, ps2, ja4, ja3)));
                    assert(0 <= ja5 < old(lay).copies.len() && 0 <= ja4 < old(lay).copies.len() ==> (s2.copies.same_class(ja5, ja4) <==> crate::copy::linked_chain(old(lay).copies, ps2, ja5, ja4)));
                    assert(0 <= ja5 < old(lay).copies.len() && 0 <= ja3 < old(lay).copies.len() ==> (s2.copies.same_class(ja5, ja3) <==> crate::copy::linked_chain(old(lay).copies, ps2, ja5, ja3)));
                    assert(0 <= ja0 < old(lay).copies.len() && 0 <= ja4 < old(lay).copies.len() ==> (s2.copies.same_class(ja0, ja4) <==> crate::copy::linked_chain(old(lay).copies, ps2, ja0, ja4)));
                    assert(0 <= ja0 < old(lay).copies.len() && 0 <= ja3 < old(lay).copies.len() ==> (s2.copies.same_class(ja0, ja3) <==> crate::copy::linked_chain(old(lay).copies, ps2, ja0, ja3)));
                }
                assert forall|x: int, y: int|
                    0 <= x < old(lay).copies.len() && 0 <= y < old(
                    lay,
                ).copies.len() implies (#[trigger] s4.copies.same_class(x, y)
                    <==> crate::copy::linked_chain(old(lay).copies, ps6, x, y)) by {
                    assert(0 <= x < old(lay).copies.len() && 0 <= y < old(lay).copies.len() ==> (s3.copies.same_class(x, y) <==> crate::copy::linked_chain(old(lay).copies, ps4, x, y)));
                    assert(0 <= x < old(lay).copies.len() && 0 <= ja8 < old(lay).copies.len() ==> (s3.copies.same_class(x, ja8) <==> crate::copy::linked_chain(old(lay).copies, ps4, x, ja8)));
                    assert(0 <= y < old(lay).copies.len() && 0 <= ja3 < old(lay).copies.len() ==> (s3.copies.same_class(y, ja3) <==> crate::copy::linked_chain(old(lay).copies, ps4, y, ja3)));
                    assert(0 <= x < old(lay).copies.len() && 0 <= ja3 < old(lay).copies.len() ==> (s3.copies.same_class(x, ja3) <==> crate::copy::linked_chain(old(lay).copies, ps4, x, ja3)));
                    assert(0 <= y < old(lay).copies.len() && 0 <= ja8 < old(lay).copies.len() ==> (s3.copies.same_class(y, ja8) <==> crate::copy::linked_chain(old(lay).copies, ps4, y, ja8)));
                    assert(0 <= x < old(lay).copies.len() && 0 <= ja7 < old(lay).copies.len() ==> (s3.copies.same_class(x, ja7) <==> crate::copy::linked_chain(old(lay).copies, ps4, x, ja7)));
                    assert(0 <= y < old(lay).copies.len() && 0 <= ja6 < old(lay).copies.len() ==> (s3.copies.same_class(y, ja6) <==> crate::copy::linked_chain(old(lay).copies, ps4, y, ja6)));
                    assert(0 <= x < old(lay).copies.len() && 0 <= ja6 < old(lay).copies.len() ==> (s3.copies.same_class(x, ja6) <==> crate::copy::linked_chain(old(lay).copies, ps4, x, ja6)));
                    assert(0 <= y < old(lay).copies.len() && 0 <= ja7 < old(lay).copies.len() ==> (s3.copies.same_class(y, ja7) <==> crate::copy::linked_chain(old(lay).copies, ps4, y, ja7)));
                    assert(0 <= ja8 < old(lay).copies.len() && 0 <= ja3 < old(lay).copies.len() ==> (s3.copies.same_class(ja8, ja3) <==> crate::copy::linked_chain(old(lay).copies, ps4, ja8, ja3)));
                    assert(0 <= ja7 < old(lay).copies.len() && 0 <= ja6 < old(lay).copies.len() ==> (s3.copies.same_class(ja7, ja6) <==> crate::copy::linked_chain(old(lay).copies, ps4, ja7, ja6)));
                    assert(0 <= ja8 < old(lay).copies.len() && 0 <= ja7 < old(lay).copies.len() ==> (s3.copies.same_class(ja8, ja7) <==> crate::copy::linked_chain(old(lay).copies, ps4, ja8, ja7)));
                    assert(0 <= ja8 < old(lay).copies.len() && 0 <= ja6 < old(lay).copies.len() ==> (s3.copies.same_class(ja8, ja6) <==> crate::copy::linked_chain(old(lay).copies, ps4, ja8, ja6)));
                    assert(0 <= ja3 < old(lay).copies.len() && 0 <= ja7 < old(lay).copies.len() ==> (s3.copies.same_class(ja3, ja7) <==> crate::copy::linked_chain(old(lay).copies, ps4, ja3, ja7)));
                    assert(0 <= ja3 < old(lay).copies.len() && 0 <= ja6 < old(lay).copies.len() ==> (s3.copies.same_class(ja3, ja6) <==> crate::copy::linked_chain(old(lay).copies, ps4, ja3, ja6)));
                }
                assert forall|x: int, y: int|
                    0 <= x < old(lay).copies.len() && 0 <= y < old(
                    lay,
                ).copies.len() implies (#[trigger] lay.copies.same_class(x, y)
                    <==> crate::copy::linked_chain(old(lay).copies, ps8, x, y)) by {
                    assert(0 <= x < old(lay).copies.len() && 0 <= y < old(lay).copies.len() ==> (s7.copies.same_class(x, y) <==> crate::copy::linked_chain(old(lay).copies, ps6, x, y)));
                    assert(0 <= x < old(lay).copies.len() && 0 <= ja9 < old(lay).copies.len() ==> (s7.copies.same_class(x, ja9) <==> crate::copy::linked_chain(old(lay).copies, ps6, x, ja9)));
                    assert(0 <= y < old(lay).copies.len() && 0 <= jf19 < old(lay).copies.len() ==> (s7.copies.same_class(y, jf19) <==> crate::copy::linked_chain(old(lay).copies, ps6, y, jf19)));
                    assert(0 <= x < old(lay).copies.len() && 0 <= jf19 < old(lay).copies.len() ==> (s7.copies.same_class(x, jf19) <==> crate::copy::linked_chain(old(lay).copies, ps6, x, jf19)));
                    assert(0 <= y < old(lay).copies.len() && 0 <= ja9 < old(lay).copies.len() ==> (s7.copies.same_class(y, ja9) <==> crate::copy::linked_chain(old(lay).copies, ps6, y, ja9)));
                    assert(0 <= x < old(lay).copies.len() && 0 <= ja19 < old(lay).copies.len() ==> (s7.copies.same_class(x, ja19) <==> crate::copy::linked_chain(old(lay).copies, ps6, x, ja19)));
                    assert(0 <= y < old(lay).copies.len() && 0 <= ja9 < old(lay).copies.len() ==> (s7.copies.same_class(y, ja9) <==> crate::copy::linked_chain(old(lay).copies, ps6, y, ja9)));
                    assert(0 <= x < old(lay).copies.len() && 0 <= ja9 < old(lay).copies.len() ==> (s7.copies.same_class(x, ja9) <==> crate::copy::linked_chain(old(lay).copies, ps6, x, ja9)));
                    assert(0 <= y < old(lay).copies.len() && 0 <= ja19 < old(lay).copies.len() ==> (s7.copies.same_class(y, ja19) <==> crate::copy::linked_chain(old(lay).copies, ps6, y, ja19)));
                    assert(0 <= ja9 < old(lay).copies.len() && 0 <= jf19 < old(lay).copies.len() ==> (s7.copies.same_class(ja9, jf19) <==> crate::copy::linked_chain(old(lay).copies, ps6, ja9, jf19)));
                    assert(0 <= ja19 < old(lay).copies.len() && 0 <= ja9 < old(lay).copies.len() ==> (s7.copies.same_class(ja19, ja9) <==> crate::copy::linked_chain(old(lay).copies, ps6, ja19, ja9)));
                    assert(0 <= ja9 < old(lay).copies.len() && 0 <= ja19 < old(lay).copies.len() ==> (s7.copies.same_class(ja9, ja19) <==> crate::copy::linked_chain(old(lay).copies, ps6, ja9, ja19)));
                    assert(0 <= ja9 < old(lay).copies.len() && 0 <= ja9 < old(lay).copies.len() ==> (s7.copies.same_class(ja9, ja9) <==> crate::copy::linked_chain(old(lay).copies, ps6, ja9, ja9)));
                    assert(0 <= jf19 < old(lay).copies.len() && 0 <= ja19 < old(lay).copies.len() ==> (s7.copies.same_class(jf19, ja19) <==> crate::copy::linked_chain(old(lay).copies, ps6, jf19, ja19)));
                    assert(0 <= jf19 < old(lay).copies.len() && 0 <= ja9 < old(lay).copies.len() ==> (s7.copies.same_class(jf19, ja9) <==> crate::copy::linked_chain(old(lay).copies, ps6, jf19, ja9)));
                }
                assert(honest_link_pairs(*config, *old(lay)) =~= ps8);
                reveal_with_fuel(crate::copy::repr_chain, 3);
                assert forall|x: int|
                    0 <= x < old(lay).copies.len() implies #[trigger] s2.copies.repr(x)
                    == crate::copy::repr_chain(old(lay).copies, ps2, x) by {
                }
                assert forall|x: int|
                    0 <= x < old(lay).copies.len() implies #[trigger] s3.copies.repr(x)
                    == crate::copy::repr_chain(old(lay).copies, ps4, x) by {
                    assert(0 <= x < old(lay).copies.len() ==> s2.copies.repr(x) == crate::copy::repr_chain(old(lay).copies, ps2, x));
                    assert(0 <= ja4 < old(lay).copies.len() ==> s2.copies.repr(ja4) == crate::copy::repr_chain(old(lay).copies, ps2, ja4));
                    assert(0 <= ja5 < old(lay).copies.len() ==> s2.copies.repr(ja5) == crate::copy::repr_chain(old(lay).copies, ps2, ja5));
                    assert(0 <= x < old(lay).copies.len() && 0 <= ja3 < old(lay).copies.len() ==> (s2.copies.same_class(x, ja3) <==> crate::copy::linked_chain(old(lay).copies, ps2, x, ja3)));
                    assert(0 <= x < old(lay).copies.len() && 0 <= ja0 < old(lay).copies.len() ==> (s2.copies.same_class(x, ja0) <==> crate::copy::linked_chain(old(lay).copies, ps2, x, ja0)));
                    assert(0 <= x < old(lay).copies.len() && 0 <= ja4 < old(lay).copies.len() ==> (s2.copies.same_class(x, ja4) <==> crate::copy::linked_chain(old(lay).copies, ps2, x, ja4)));
                    assert(0 <= ja5 < old(lay).copies.len() && 0 <= ja3 < old(lay).copies.len() ==> (s2.copies.same_class(ja5, ja3) <==> crate::copy::linked_chain(old(lay).copies, ps2, ja5, ja3)));
                    assert(0 <= ja5 < old(lay).copies.len() && 0 <= ja4 < old(lay).copies.len() ==> (s2.copies.same_class(ja5, ja4) <==> crate::copy::linked_chain(old(lay).copies, ps2, ja5, ja4)));
                    assert(0 <= ja0 < old(lay).copies.len() && 0 <= ja3 < old(lay).copies.len() ==> (s2.copies.same_class(ja0, ja3) <==> crate::copy::linked_chain(old(lay).copies, ps2, ja0, ja3)));
                    assert(0 <= ja0 < old(lay).copies.len() && 0 <= ja4 < old(lay).copies.len() ==> (s2.copies.same_class(ja0, ja4) <==> crate::copy::linked_chain(old(lay).copies, ps2, ja0, ja4)));
                    assert(0 <= x < old(lay).copies.len() && 0 <= ja5 < old(lay).copies.len() ==> (s2.copies.same_class(x, ja5) <==> crate::copy::linked_chain(old(lay).copies, ps2, x, ja5)));
                    assert(0 <= ja0 < old(lay).copies.len() && 0 <= x < old(lay).copies.len() ==> (s2.copies.same_class(ja0, x) <==> crate::copy::linked_chain(old(lay).copies, ps2, ja0, x)));
                    assert(0 <= ja5 < old(lay).copies.len() && 0 <= ja0 < old(lay).copies.len() ==> (s2.copies.same_class(ja5, ja0) <==> crate::copy::linked_chain(old(lay).copies, ps2, ja5, ja0)));
                }
                assert forall|x: int|
                    0 <= x < old(lay).copies.len() implies #[trigger] s4.copies.repr(x)
                    == crate::copy::repr_chain(old(lay).copies, ps6, x) by {
                    assert(0 <= x < old(lay).copies.len() ==> s3.copies.repr(x) == crate::copy::repr_chain(old(lay).copies, ps4, x));
                    assert(0 <= ja7 < old(lay).copies.len() ==> s3.copies.repr(ja7) == crate::copy::repr_chain(old(lay).copies, ps4, ja7));
                    assert(0 <= ja8 < old(lay).copies.len() ==> s3.copies.repr(ja8) == crate::copy::repr_chain(old(lay).copies, ps4, ja8));
                    assert(0 <= x < old(lay).copies.len() && 0 <= ja6 < old(lay).copies.len() ==> (s3.copies.same_class(x, ja6) <==> crate::copy::linked_chain(old(lay).copies, ps4, x, ja6)));
                    assert(0 <= x < old(lay).copies.len() && 0 <= ja3 < old(lay).copies.len() ==> (s3.copies.same_class(x, ja3) <==> crate::copy::linked_chain(old(lay).copies, ps4, x, ja3)));
                    assert(0 <= x < old(lay).copies.len() && 0 <= ja7 < old(lay).copies.len() ==> (s3.copies.same_class(x, ja7) <==> crate::copy::linked_chain(old(lay).copies, ps4, x, ja7)));
                    assert(0 <= ja8 < old(lay).copies.len() && 0 <= ja6 < old(lay).copies.len() ==> (s3.copies.same_class(ja8, ja6) <==> crate::copy::linked_chain(old(lay).copies, ps4, ja8, ja6)));
                    assert(0 <= ja8 < old(lay).copies.len() && 0 <= ja7 < old(lay).copies.len() ==> (s3.copies.same_class(ja8, ja7) <==> crate::copy::linked_chain(old(lay).copies, ps4, ja8, ja7)));
                    assert(0 <= ja3 < old(lay).copies.len() && 0 <= ja6 < old(lay).copies.len() ==> (s3.copies.same_class(ja3, ja6) <==> crate::copy::linked_chain(old(lay).copies, ps4, ja3, ja6)));
                    assert(0 <= ja3 < old(lay).copies.len() && 0 <= ja7 < old(lay).copies.len() ==> (s3.copies.same_class(ja3, ja7) <==> crate::copy::linked_chain(old(lay).copies, ps4, ja3, ja7)));
                    assert(0 <= x < old(lay).copies.len() && 0 <= ja8 < old(lay).copies.len() ==> (s3.copies.same_class(x, ja8) <==> crate::copy::linked_chain(old(lay).copies, ps4, x, ja8)));
                    assert(0 <= ja3 < old(lay).copies.len() && 0 <= x < old(lay).copies.len() ==> (s3.copies.same_class(ja3, x) <==> crate::copy::linked_chain(old(lay).copies, ps4, ja3, x)));
                    assert(0 <= ja8 < old(lay).copies.len() && 0 <= ja3 < old(lay).copies.len() ==> (s3.copies.same_class(ja8, ja3) <==> crate::copy::linked_chain(old(lay).copies, ps4, ja8, ja3)));
                }
                assert forall|x: int|
                    0 <= x < old(lay).copies.len() implies #[trigger] lay.copies.repr(x)
                    == crate::copy::repr_chain(old(lay).copies, ps8, x) by {
                    assert(0 <= x < old(lay).copies.len() ==> s7.copies.repr(x) == crate::copy::repr_chain(old(lay).copies, ps6, x));
                    assert(0 <= ja9 < old(lay).copies.len() ==> s7.copies.repr(ja9) == crate::copy::repr_chain(old(lay).copies, ps6, ja9));
                    assert(0 <= x < old(lay).copies.len() && 0 <= ja19 < old(lay).copies.len() ==> (s7.copies.same_class(x, ja19) <==> crate::copy::linked_chain(old(lay).copies, ps6, x, ja19)));
                    assert(0 <= x < old(lay).copies.len() && 0 <= jf19 < old(lay).copies.len() ==> (s7.copies.same_class(x, jf19) <==> crate::copy::linked_chain(old(lay).copies, ps6, x, jf19)));
                    assert(0 <= x < old(lay).copies.len() && 0 <= ja9 < old(lay).copies.len() ==> (s7.copies.same_class(x, ja9) <==> crate::copy::linked_chain(old(lay).copies, ps6, x, ja9)));
                    assert(0 <= ja9 < old(lay).copies.len() && 0 <= ja19 < old(lay).copies.len() ==> (s7.copies.same_class(ja9, ja19) <==> crate::copy::linked_chain(old(lay).copies, ps6, ja9, ja19)));
                    assert(0 <= ja9 < old(lay).copies.len() && 0 <= ja9 < old(lay).copies.len() ==> (s7.copies.same_class(ja9, ja9) <==> crate::copy::linked_chain(old(lay).copies, ps6, ja9, ja9)));
                    assert(0 <= jf19 < old(lay).copies.len() && 0 <= ja19 < old(lay).copies.len() ==> (s7.copies.same_class(jf19, ja19) <==> crate::copy::linked_chain(old(lay).copies, ps6, jf19, ja19)));
                    assert(0 <= jf19 < old(lay).copies.len() && 0 <= ja9 < old(lay).copies.len() ==> (s7.copies.same_class(jf19, ja9) <==> crate::copy::linked_chain(old(lay).copies, ps6, jf19, ja9)));
                    assert(0 <= x < old(lay).copies.len() && 0 <= ja9 < old(lay).copies.len() ==> (s7.copies.same_class(x, ja9) <==> crate::copy::linked_chain(old(lay).copies, ps6, x, ja9)));
                    assert(0 <= jf19 < old(lay).copies.len() && 0 <= x < old(lay).copies.len() ==> (s7.copies.same_class(jf19, x) <==> crate::copy::linked_chain(old(lay).copies, ps6, jf19, x)));
                    assert(0 <= ja9 < old(lay).copies.len() && 0 <= jf19 < old(lay).copies.len() ==> (s7.copies.same_class(ja9, jf19) <==> crate::copy::linked_chain(old(lay).copies, ps6, ja9, jf19)));
                }
                assert(s3.copies.same_class(lay.cell_index(Cell { column: config.advice, row: 1 }), lay.cell_index(Cell { column: config.advice, row: 0 })));
                assert(s4.copies.same_class(lay.cell_index(Cell { column: config.advice, row: 1 }), lay.cell_index(Cell { column: config.advice, row: 0 })));
                assert(lay.copies.same_class(lay.cell_index(Cell { column: config.advice, row: 1 }), lay.cell_index(Cell { column: config.advice, row: 0 })));
                assert(s3.copies.same_class(lay.cell_index(Cell { column: config.advice, row: 2 }), lay.cell_index(Cell { column: config.advice, row: 0 })));
                assert(s4.copies.same_class(lay.cell_index(Cell { column: config.advice, row: 2 }), lay.cell_index(Cell { column: config.advice, row: 0 })));
                assert(lay.copies.same_class(lay.cell_index(Cell { column: config.advice, row: 2 }), lay.cell_index(Cell { column: config.advice, row: 0 })));
                assert(s4.copies.same_class(lay.cell_index(Cell { column: config.advice, row: 4 }), lay.cell_index(Cell { column: config.advice, row: 3 })));
                assert(lay.copies.same_class(lay.cell_index(Cell { column: config.advice, row: 4 }), lay.cell_index(Cell { column: config.advice, row: 3 })));
                assert(s4.copies.same_class(lay.cell_index(Cell { column: config.advice, row: 5 }), lay.cell_index(Cell { column: config.advice, row: 0 })));
                assert(lay.copies.same_class(lay.cell_index(Cell { column: config.advice, row: 5 }), lay.cell_index(Cell { column: config.advice, row: 0 })));
                assert(lay.copies.same_class(lay.cell_index(Cell { column: config.advice, row: 7 }), lay.cell_index(Cell { column: config.advice, row: 6 })));
                assert(lay.copies.same_class(lay.cell_index(Cell { column: config.advice, row: 8 }), lay.cell_index(Cell { column: config.advice, row: 3 })));
                assert(lay.copies.same_class(lay.cell_index(Cell { column: config.advice, row: 19 }), lay.cell_index(Cell { column: config.advice, row: 9 })));
                assert(lay.copies.same_class(lay.cell_index(Cell { column: config.advice, row: 9 }), lay.cell_index(Cell { column: config.fixed, row: 19 })));
            }
        }
        Ok(())
    }
}

/// The value the under-constrained circuit leaves in each advice row: the
/// two free inputs, their copies inside the multiplication region, and the
/// product; a cell is an unknown assignment when its source value is.
pub open spec fn malicious_row_value(value1: Option<Felt>, value2: Option<Felt>, row: int) -> Option<
    int,
> {
    if row == 0 || row == 2 {
        match value1 {
            Some(x) => Some(x.val() as int),
            None => None,
        }
    } else if row == 1 || row == 3 {
        match value2 {
            Some(x) => Some(x.val() as int),
            None => None,
        }
    } else {
        match (value1, value2) {
            (Some(x), Some(y)) => Some(((x.val() as int) * (y.val() as int)) % (modulus() as int)),
            _ => None,
        }
    }
}

/// The copy links the under-constrained circuit records, in order: the
/// multiplication region ties its operand rows back to the two free cells.
pub open spec fn malicious_link_pairs(c: MulConfig, l: Layouter) -> Seq<(int, int)> {
    seq![
        (
            l.cell_index(Cell { column: c.advice, row: 2 }),
            l.cell_index(Cell { column: c.advice, row: 0 }),
        ),
        (
            l.cell_index(Cell { column: c.advice, row: 3 }),
            l.cell_index(Cell { column: c.advice, row: 1 }),
        ),
    ]
}

impl MaliciousCircuit {
    /// The circuit with its witness forgotten.
    pub fn without_witnesses(&self) -> (r: MaliciousCircuit)
        ensures
            r.value1 is None,
            r.value2 is None,
    {
        MaliciousCircuit { value1: None, value2: None }
    }

    /// The same constraint system as the honest circuit: the two circuit
    /// types share one circuit shape, so the ensures restates the registry
    /// `MulCircuit::configure` pins.
    pub fn configure(cs: &mut ConstraintSystem) -> (r: Result<MulConfig, Error>)
        requires
            old(cs).wf(),
            !old(cs).frozen,
            old(cs).num_selectors + 3 <= usize::MAX,
            old(cs).num_advice < usize::MAX,
            old(cs).num_fixed < usize::MAX,
        ensures
            final(cs).wf(),
            !final(cs).frozen,
            r is Ok,
            r matches Ok(c) ==> ({
                &&& mul_setup(c, *final(cs))
                &&& c.q_mul_enable == (Selector { index: old(cs).num_selectors })
                &&& c.q_add_enable == (Selector { index: (old(cs).num_selectors + 1) as usize })
                &&& c.q_fixed_enable == (Selector { index: (old(cs).num_selectors + 2) as usize })
                &&& c.advice == (Column { kind: ColKind::Advice, index: old(cs).num_advice })
                &&& c.fixed == (Column { kind: ColKind::Fixed, index: old(cs).num_fixed })
                &&& final(cs).num_advice == old(cs).num_advice + 1
                &&& final(cs).num_fixed == old(cs).num_fixed + 1
                &&& final(cs).num_selectors == old(cs).num_selectors + 3
                &&& final(cs).gates@.len() == old(cs).gates@.len() + 3
                &&& final(cs).gates@[old(cs).gates@.len() as int].selector == c.q_mul_enable
                &&& final(cs).gates@[old(cs).gates@.len() as int].name@ == "vertical-mul"@
                &&& final(cs).gates@[old(cs).gates@.len() as int].exprs@.len() == 1
                &&& is_vertical_mul_expr(
                    final(cs).gates@[old(cs).gates@.len() as int].exprs@[0],
                    c.advice,
                )
                &&& final(cs).gates@[old(cs).gates@.len() as int + 1].selector == c.q_add_enable
                &&& final(cs).gates@[old(cs).gates@.len() as int + 1].name@ == "vertical-add"@
                &&& final(cs).gates@[old(cs).gates@.len() as int + 1].exprs@.len() == 1
                &&& is_vertical_add_expr(
                    final(cs).gates@[old(cs).gates@.len() as int + 1].exprs@[0],
                    c.advice,
                )
                &&& final(cs).gates@[old(cs).gates@.len() as int + 2].selector == c.q_fixed_enable
                &&& final(cs).gates@[old(cs).gates@.len() as int + 2].name@
                    == "fixed equal-constant check"@
                &&& final(cs).gates@[old(cs).gates@.len() as int + 2].exprs@.len() == 1
                &&& is_fixed_check_expr(
                    final(cs).gates@[old(cs).gates@.len() as int + 2].exprs@[0],
                    c.advice,
                    c.fixed,
                )
            }),
    {
        MulCircuit::configure(cs)
    }

    /// Crafts the product of two free inputs without binding either of them
    /// to anything: both operands are fresh unconstrained cells, so only the
    /// copy constraints inside the multiplication region relate the inputs
    /// to the multiplication rows, and nothing relates them to each other.
    /// On a fresh grid of at least 5 rows the ensures pins the whole layout:
    /// the two inputs, their in-region copies and the product on the advice
    /// column, one selector row, and the two recorded copy links.
    pub fn synthesize(&self, config: &MulConfig, lay: &mut Layouter) -> (r: Result<(), Error>)
        requires
            old(lay).wf(),
            !old(lay).region_active,
        ensures
            final(lay).wf(),
            final(lay).cs == old(lay).cs,
            final(lay).num_rows == old(lay).num_rows,
            r is Err ==> (r == Result::<(), Error>::Err(Error::UnregisteredColumn) || r
                == Result::<(), Error>::Err(Error::NotEnoughRows) || r == Result::<(), Error>::Err(
                Error::DoubleAssignment,
            ) || r == Result::<(), Error>::Err(Error::OutOfRangeRotation) || r == Result::<
                (),
                Error,
            >::Err(Error::EqualityNotEnabled)),
            (mul_setup(*config, old(lay).cs) && fresh_grid(*old(lay)) && 5 <= old(
                lay,
            ).num_rows) ==> ({
                &&& r is Ok
                &&& final(lay).cursor == 5
                &&& !final(lay).region_active
                &&& (forall|row: int|
                    0 <= row < 5 ==> row_state_matches(
                        #[trigger] final(lay).advice_at(config.advice.index as int, row),
                        malicious_row_value(self.value1, self.value2, row),
                    ))
                &&& final(lay).fixed == old(lay).fixed
                &&& final(lay).sel_at(config.q_mul_enable.index as int, 2)
                &&& (forall|s2: int, r2: int|
                    0 <= s2 < old(lay).cs.num_selectors && 0 <= r2 < old(lay).num_rows && !(s2
                        == config.q_mul_enable.index && r2 == 2)
                        ==> final(lay).sel_at(s2, r2) == old(lay).sel_at(s2, r2))
                &&& (forall|c2: int, r2: int|
                    0 <= c2 < old(lay).cs.num_advice && 0 <= r2 < old(lay).num_rows && !(c2
                        == config.advice.index && r2 < 5)
                        ==> final(lay).advice_at(c2, r2) == old(lay).advice_at(c2, r2))
                &&& final(lay).copies.len() == old(lay).copies.len()
                &&& (forall|x: int, y: int|
                    0 <= x < old(lay).copies.len() && 0 <= y < old(lay).copies.len() && old(
                        lay,
                    ).copies.same_class(x, y) ==> #[trigger] final(lay).copies.same_class(x, y))
                &&& (forall|x: int, y: int|
                    0 <= x < old(lay).copies.len() && 0 <= y < old(lay).copies.len() ==> (
                    #[trigger] final(lay).copies.same_class(x, y) <==> crate::copy::linked_chain(
                        old(lay).copies,
                        malicious_link_pairs(*config, *old(lay)),
                        x,
                        y,
                    )))
                &&& (forall|x: int|
                    0 <= x < old(lay).copies.len() ==> #[trigger] final(lay).copies.repr(x)
                        == crate::copy::repr_chain(
                        old(lay).copies,
                        malicious_link_pairs(*config, *old(lay)),
                        x,
                    ))
                &&& same_on_advice(*final(lay), *config, 2, 0)
                &&& same_on_advice(*final(lay), *config, 3, 1)
            }),
    {
        let ghost ready = mul_setup(*config, old(lay).cs) && fresh_grid(*old(lay)) && 5 <= old(
            lay,
        ).num_rows;
        if !MulCircuit::config_valid(config, lay) {
            return Err(Error::UnregisteredColumn);
        }
        let ghost adv = config.advice.index as int;
        let mal_input_1 = match MulCircuit::unconstrained(config, lay, self.value1) {
            Ok(c) => c,
            Err(e) => {
                return Err(e);
            },
        };
        let ghost s1 = *lay;
        proof {
            if ready {
                assert forall|c2: int, r2: int|
                    0 <= c2 < s1.cs.num_advice && 1 <= r2 < s1.num_rows implies #[trigger] s1
                    .advice_at(c2, r2) is Unassigned by {
                    assert(old(lay).advice_at(c2, r2) is Unassigned);
                }
            }
        }
        let mal_input_2 = match MulCircuit::unconstrained(config, lay, self.value2) {
            Ok(c) => c,
            Err(e) => {
                return Err(e);
            },
        };
        let ghost s2 = *lay;
        proof {
            if ready {
                assert forall|c2: int, r2: int|
                    0 <= c2 < s2.cs.num_advice && 2 <= r2 < s2.num_rows implies #[trigger] s2
                    .advice_at(c2, r2) is Unassigned by {
                    assert(s2.advice_at(c2, r2) == s1.advice_at(c2, r2));
                    assert(s1.advice_at(c2, r2) is Unassigned);
                }
            }
        }
        let _mal_result = match MulCircuit::mul(config, lay, mal_input_1, mal_input_2) {
            Ok(c) => c,
            Err(e) => {
                return Err(e);
            },
        };
        proof {
            if ready {
                assert forall|row: int| 0 <= row < 5 implies row_state_matches(
                    #[trigger] lay.advice_at(adv, row),
                    malicious_row_value(self.value1, self.value2, row),
                ) by {
                    if row < 1 {
                        assert(row_state_matches(s1.advice_at(adv, 0), malicious_row_value(
                            self.value1, self.value2, 0)));
                        assert(s2.advice_at(adv, row) == s1.advice_at(adv, row));
                        assert(lay.advice_at(adv, row) == s2.advice_at(adv, row));
                    } else if row < 2 {
                        assert(row_state_matches(s2.advice_at(adv, 1), malicious_row_value(
                            self.value1, self.value2, 1)));
                        assert(lay.advice_at(adv, row) == s2.advice_at(adv, row));
                    } else {
                        assert(row_state_matches(lay.advice_at(adv, 2), malicious_row_value(
                            self.value1, self.value2, 2)));
                        assert(row_state_matches(lay.advice_at(adv, 3), malicious_row_value(
                            self.value1, self.value2, 3)));
                        assert(row_state_matches(lay.advice_at(adv, 4), malicious_row_value(
                            self.value1, self.value2, 4)));
                    }
                }
                crate::layout::lemma_cell_index_bound(*lay, Cell {
                    column: config.advice,
                    row: 0,
                });
                crate::layout::lemma_cell_index_bound(*lay, Cell {
                    column: config.advice,
                    row: 1,
                });
                crate::layout::lemma_cell_index_bound(*lay, Cell {
                    column: config.advice,
                    row: 2,
                });
                crate::layout::lemma_cell_index_bound(*lay, Cell {
                    column: config.advice,
                    row: 3,
                });
                assert forall|x: int, y: int|
                    0 <= x < old(lay).copies.len() && 0 <= y < old(lay).copies.len() && old(
                        lay,
                    ).copies.same_class(x, y) implies #[trigger] lay.copies.same_class(x, y) by {
                }
                reveal_with_fuel(crate::copy::linked_chain, 3);
                let ja0 = old(lay).cell_index(Cell { column: config.advice, row: 0 });
                let ja1 = old(lay).cell_index(Cell { column: config.advice, row: 1 });
                let ja2 = old(lay).cell_index(Cell { column: config.advice, row: 2 });
                let ja3 = old(lay).cell_index(Cell { column: config.advice, row: 3 });
                let ps0 = Seq::<(int, int)>::empty();
                let ps1 = ps0.push((ja2, ja0));
                let ps2 = ps1.push((ja3, ja1));
                assert(ps1.drop_last() =~= ps0);
                assert(ps2.drop_last() =~= ps1);
                assert forall|x: int, y: int|
                    0 <= x < old(lay).copies.len() && 0 <= y < old(
                    lay,
                ).copies.len() implies (#[trigger] lay.copies.same_class(x, y)
                    <==> crate::copy::linked_chain(old(lay).copies, ps2, x, y)) by {
                }
                assert(malicious_link_pairs(*config, *old(lay)) =~= ps2);
                reveal_with_fuel(crate::copy::repr_chain, 3);
                assert forall|x: int|
                    0 <= x < old(lay).copies.len() implies #[trigger] lay.copies.repr(x)
                    == crate::copy::repr_chain(old(lay).copies, ps2, x) by {
                }
                assert(lay.same_cells(
                    Cell { column: config.advice, row: 2 },
                    Cell { column: config.advice, row: 0 },
                ));
                assert(lay.same_cells(
                    Cell { column: config.advice, row: 3 },
                    Cell { column: config.advice, row: 1 },
                ));
            }
        }
        Ok(())
    }
}

/// A circuit definition: its configure phase builds the constraint system
/// once, its synthesize phase lays one witness out on the grid. The two
/// phase functions of a circuit are registered by implementing this trait;
/// the implementing type is the opaque handle the prover runs.
pub trait Circuit<Config>: Sized {
    /// The circuit with every witness value unknown.
    fn without_witnesses(&self) -> Self;

    /// Builds the constraint system; called once, on a fresh system.
    fn configure(cs: &mut ConstraintSystem) -> (r: Result<Config, Error>)
        requires
            old(cs).wf(),
            !old(cs).frozen,
            old(cs).num_advice == 0,
            old(cs).num_fixed == 0,
            old(cs).num_selectors == 0,
            old(cs).gates@.len() == 0,
        ensures
            final(cs).wf(),
            !final(cs).frozen,
    ;

    /// Populates the grid for one witness.
    fn synthesize(&self, config: &Config, lay: &mut Layouter) -> (r: Result<(), Error>)
        requires
            old(lay).wf(),
            !old(lay).region_active,
        ensures
            final(lay).wf(),
            final(lay).cs == old(lay).cs,
            final(lay).num_rows == old(lay).num_rows,
    ;
}

impl Circuit<MulConfig> for MulCircuit {
    fn without_witnesses(&self) -> Self {
        MulCircuit::without_witnesses(self)
    }

    fn configure(cs: &mut ConstraintSystem) -> (r: Result<MulConfig, Error>) {
        MulCircuit::configure(cs)
    }

    fn synthesize(&self, config: &MulConfig, lay: &mut Layouter) -> (r: Result<(), Error>) {
        MulCircuit::synthesize(self, config, lay)
    }
}

impl Circuit<MulConfig> for MaliciousCircuit {
    fn without_witnesses(&self) -> Self {
        MaliciousCircuit::without_witnesses(self)
    }

    fn configure(cs: &mut ConstraintSystem) -> (r: Result<MulConfig, Error>) {
        MaliciousCircuit::configure(cs)
    }

    fn synthesize(&self, config: &MulConfig, lay: &mut Layouter) -> (r: Result<(), Error>) {
        MaliciousCircuit::synthesize(self, config, lay)
    }
}

/// Configures the circuit once, synthesizes the witness against a fresh
/// grid of `num_rows` rows, and runs both verification passes. The model
/// declares no instance columns, so the public inputs are carried for
/// interface parity and constrain nothing. The exact content of the report
/// is fixed by the contracts of the phases and of `MockProver::evaluate`;
/// here the report's verdict is tied to its two failure lists.
pub fn run_mock_prover<Config, T: Circuit<Config>>(
    circuit: &T,
    num_rows: usize,
    public_inputs: Vec<Felt>,
) -> (r: Result<Report, Error>)
    ensures
        num_rows == 0 ==> r == Result::<Report, Error>::Err(Error::NotEnoughRows),
        r matches Ok(rep) ==> (rep.ok <==> rep.gate_failures@.len() == 0
            && rep.copy_failures@.len() == 0),
{
    let _ = public_inputs;
    if num_rows == 0 {
        return Err(Error::NotEnoughRows);
    }
    let mut cs = ConstraintSystem::new();
    let config = match T::configure(&mut cs) {
        Ok(c) => c,
        Err(e) => {
            return Err(e);
        },
    };
    cs.freeze();
    let total_cols = match cs.num_advice.checked_add(cs.num_fixed) {
        Some(t) => t,
        None => {
            return Err(Error::NotEnoughRows);
        },
    };
    match total_cols.checked_mul(num_rows) {
        Some(_) => {},
        None => {
            return Err(Error::NotEnoughRows);
        },
    }
    match cs.num_selectors.checked_mul(num_rows) {
        Some(_) => {},
        None => {
            return Err(Error::NotEnoughRows);
        },
    }
    let mut lay = Layouter::new(cs, num_rows);
    match circuit.synthesize(&config, &mut lay) {
        Ok(()) => {},
        Err(e) => {
            return Err(e);
        },
    }
    MockProver::evaluate(&lay)
}

} // verus!
