//! The mock prover: checks a concrete assignment against every gate and
//! every copy constraint, and reports every violation found.
//!
//! Verification has two independent passes. The first evaluates every
//! expression of every gate at every row where its selector is on,
//! substituting the assignment for each query; a nonzero result is recorded,
//! not thrown, since a failing constraint is the normal outcome of checking
//! an invalid witness. The copy pass checks that all known values within one
//! equivalence class of cells agree.

use vstd::prelude::*;
use crate::field::{Felt, felt_add, felt_mul, felt_neg, modulus};
use crate::layout::{Cell, CellState, Layouter};
use crate::system::{ColKind, Column, Expression, expr_rot_in_range, expr_wf};
use crate::Error;

verus! {

/// One gate violation: the named gate's expression evaluated to the given
/// nonzero value at the given row.
#[derive(Clone, Debug, PartialEq, Eq)]
pub struct GateFailure {
    pub gate_name: String,
    pub row: usize,
    pub value: Felt,
}

/// One copy violation: the cells of one equivalence class that hold known,
/// disagreeing values.
#[derive(Clone, Debug, PartialEq, Eq)]
pub struct CopyFailure {
    pub cells: Vec<Cell>,
}

/// The outcome of one verification run: `ok` exactly when both failure lists
/// are empty.
#[derive(Clone, Debug, PartialEq, Eq)]
pub struct Report {
    pub ok: bool,
    pub gate_failures: Vec<GateFailure>,
    pub copy_failures: Vec<CopyFailure>,
}

/// The content of a gate failure: gate name, row, and the value's integer.
pub open spec fn gate_failure_view(f: GateFailure) -> (Seq<char>, int, int) {
    (f.gate_name@, f.row as int, f.value.val() as int)
}

/// The content of a list of gate failures.
pub open spec fn gate_failures_view(s: Seq<GateFailure>) -> Seq<(Seq<char>, int, int)> {
    s.map_values(|f: GateFailure| gate_failure_view(f))
}

/// The content of a list of copy failures.
pub open spec fn copy_failures_view(s: Seq<CopyFailure>) -> Seq<Seq<Cell>> {
    s.map_values(|f: CopyFailure| f.cells@)
}

/// The content of a whole report.
pub open spec fn report_view(r: Report) -> (bool, Seq<(Seq<char>, int, int)>, Seq<Seq<Cell>>) {
    (r.ok, gate_failures_view(r.gate_failures@), copy_failures_view(r.copy_failures@))
}

/// The known value of an advice cell, if any.
pub open spec fn advice_val(l: Layouter, c: int, r: int) -> Option<int> {
    match l.advice_at(c, r) {
        CellState::Known(v) => Some(v.val() as int),
        _ => None,
    }
}

/// The value of a fixed cell: an unassigned fixed cell defaults to zero,
/// a constant baked in by nobody.
pub open spec fn fixed_val(l: Layouter, c: int, r: int) -> int {
    match l.fixed_at(c, r) {
        CellState::Known(v) => v.val() as int,
        _ => 0,
    }
}

/// The value of an expression at a row, by the recursive fold of the tree
/// against the assignment; `None` when a queried advice cell holds no known
/// value.
pub open spec fn eval_expr_spec(e: Expression, l: Layouter, row: int) -> Option<int>
    decreases e,
{
    match e {
        Expression::Constant(c) => Some(c.val() as int),
        Expression::Query(col, rot) => match col.kind {
            ColKind::Advice => advice_val(l, col.index as int, row + rot),
            ColKind::Fixed => Some(fixed_val(l, col.index as int, row + rot)),
        },
        Expression::Sum(a, b) => match (eval_expr_spec(*a, l, row), eval_expr_spec(*b, l, row)) {
            (Some(x), Some(y)) => Some((x + y) % (modulus() as int)),
            _ => None,
        },
        Expression::Product(a, b) => match (eval_expr_spec(*a, l, row), eval_expr_spec(
            *b,
            l,
            row,
        )) {
            (Some(x), Some(y)) => Some((x * y) % (modulus() as int)),
            _ => None,
        },
        Expression::Negate(a) => match eval_expr_spec(*a, l, row) {
            Some(x) => Some((modulus() - x) % (modulus() as int)),
            None => None,
        },
    }
}

/// Evaluates an expression at an absolute row against the assignment.
fn eval_expr(e: &Expression, lay: &Layouter, row: usize) -> (r: Result<Felt, Error>)
    requires
        lay.wf(),
        expr_wf(*e, lay.cs.num_advice as int, lay.cs.num_fixed as int),
        row < lay.num_rows,
        expr_rot_in_range(*e, row as int, lay.num_rows as int),
    ensures
        r is Ok <==> eval_expr_spec(*e, *lay, row as int) is Some,
        r matches Ok(v) ==> Some(v.val() as int) == eval_expr_spec(*e, *lay, row as int)
            && v.wf(),
        r is Err ==> r == Result::<Felt, Error>::Err(Error::MissingAssignment),
    decreases *e,
{
    match e {
        Expression::Constant(c) => Ok(*c),
        Expression::Query(col, rot) => {
            let abs = if *rot >= 0 {
                row + (*rot as usize)
            } else {
                row - ((-(*rot as i64)) as usize)
            };
            match col.kind {
                ColKind::Advice => {
                    match lay.advice_state(col.index, abs) {
                        CellState::Known(v) => Ok(v),
                        _ => Err(Error::MissingAssignment),
                    }
                },
                ColKind::Fixed => {
                    match lay.fixed_state(col.index, abs) {
                        CellState::Known(v) => Ok(v),
                        _ => Ok(Felt::zero()),
                    }
                },
            }
        },
        Expression::Sum(a, b) => {
            let va = match eval_expr(a, lay, row) {
                Ok(v) => v,
                Err(e) => {
                    return Err(e);
                },
            };
            let vb = match eval_expr(b, lay, row) {
                Ok(v) => v,
                Err(e) => {
                    return Err(e);
                },
            };
            Ok(felt_add(&va, &vb))
        },
        Expression::Product(a, b) => {
            let va = match eval_expr(a, lay, row) {
                Ok(v) => v,
                Err(e) => {
                    return Err(e);
                },
            };
            let vb = match eval_expr(b, lay, row) {
                Ok(v) => v,
                Err(e) => {
                    return Err(e);
                },
            };
            Ok(felt_mul(&va, &vb))
        },
        Expression::Negate(a) => {
            let va = match eval_expr(a, lay, row) {
                Ok(v) => v,
                Err(e) => {
                    return Err(e);
                },
            };
            Ok(felt_neg(&va))
        },
    }
}

/// The violations the first `j` expressions of gate `g` add at one row.
pub open spec fn gate_exprs_failures(l: Layouter, g: int, row: int, j: int) -> Seq<
    (Seq<char>, int, int),
>
    decreases j,
{
    if j <= 0 {
        Seq::empty()
    } else {
        gate_exprs_failures(l, g, row, j - 1) + match eval_expr_spec(
            l.cs.gates@[g].exprs@[j - 1],
            l,
            row,
        ) {
            Some(v) => if v != 0 {
                seq![(l.cs.gates@[g].name@, row, v)]
            } else {
                Seq::empty()
            },
            None => Seq::empty(),
        }
    }
}

/// The violations gate `g` adds over the first `row` rows.
pub open spec fn gate_rows_failures(l: Layouter, g: int, row: int) -> Seq<(Seq<char>, int, int)>
    decreases row,
{
    if row <= 0 {
        Seq::empty()
    } else {
        gate_rows_failures(l, g, row - 1) + if l.sel_at(
            l.cs.gates@[g].selector.index as int,
            row - 1,
        ) {
            gate_exprs_failures(l, g, row - 1, l.cs.gates@[g].exprs@.len() as int)
        } else {
            Seq::empty()
        }
    }
}

/// The violations the first `g` gates add, over all rows.
pub open spec fn gates_failures(l: Layouter, g: int) -> Seq<(Seq<char>, int, int)>
    decreases g,
{
    if g <= 0 {
        Seq::empty()
    } else {
        gates_failures(l, g - 1) + gate_rows_failures(l, g - 1, l.num_rows as int)
    }
}

/// Every gate failure of the assignment: gates in registration order, rows
/// ascending within a gate, expressions in gate order within a row.
pub open spec fn all_gate_failures(l: Layouter) -> Seq<(Seq<char>, int, int)> {
    gates_failures(l, l.cs.gates@.len() as int)
}

/// No queried advice cell of gate `g` lacks a known value at any row where
/// its selector is on.
pub open spec fn gate_no_missing(l: Layouter, g: int) -> bool {
    forall|row: int, j: int|
        0 <= row < l.num_rows && 0 <= j < l.cs.gates@[g].exprs@.len() && l.sel_at(
            l.cs.gates@[g].selector.index as int,
            row,
        ) ==> !(#[trigger] eval_expr_spec(l.cs.gates@[g].exprs@[j], l, row) is None)
}

/// Every gate finds every queried cell assigned wherever it is enabled.
pub open spec fn no_missing(l: Layouter) -> bool {
    forall|g: int| 0 <= g < l.cs.gates@.len() ==> #[trigger] gate_no_missing(l, g)
}

/// The first verification pass: every gate, every row where its selector is on, every
/// expression; a nonzero value is recorded as a failure, a missing advice
/// assignment aborts verification.
#[verifier::loop_isolation(false)]
fn gate_pass(lay: &Layouter) -> (r: Result<Vec<GateFailure>, Error>)
    requires
        lay.wf(),
    ensures
        r is Ok <==> no_missing(*lay),
        r matches Ok(v) ==> gate_failures_view(v@) == all_gate_failures(*lay),
        r is Err ==> r == Result::<Vec<GateFailure>, Error>::Err(Error::MissingAssignment),
{
    let mut failures: Vec<GateFailure> = Vec::new();
    let mut g: usize = 0;
    while g < lay.cs.gates.len()
        invariant
            g <= lay.cs.gates@.len(),
            gate_failures_view(failures@) == gates_failures(*lay, g as int),
            forall|g2: int| 0 <= g2 < g ==> #[trigger] gate_no_missing(*lay, g2),
        decreases lay.cs.gates@.len() - g,
    {
        let gate = &lay.cs.gates[g];
        let mut row: usize = 0;
        while row < lay.num_rows
            invariant
                row <= lay.num_rows,
                gate_failures_view(failures@) == gates_failures(*lay, g as int)
                    + gate_rows_failures(*lay, g as int, row as int),
                forall|r2: int, j2: int|
                    0 <= r2 < row && 0 <= j2 < gate.exprs@.len() && lay.sel_at(
                        gate.selector.index as int,
                        r2,
                    ) ==> !(#[trigger] eval_expr_spec(gate.exprs@[j2], *lay, r2) is None),
            decreases lay.num_rows - row,
        {
            let sel_on = lay.selector_state(gate.selector.index, row);
            if sel_on {
                let mut j: usize = 0;
                while j < gate.exprs.len()
                    invariant
                        j <= gate.exprs@.len(),
                        gate_failures_view(failures@) == gates_failures(*lay, g as int)
                            + gate_rows_failures(*lay, g as int, row as int)
                            + gate_exprs_failures(*lay, g as int, row as int, j as int),
                        forall|j2: int|
                            0 <= j2 < j ==> !(#[trigger] eval_expr_spec(
                                gate.exprs@[j2],
                                *lay,
                                row as int,
                            ) is None),
                    decreases gate.exprs@.len() - j,
                {
                    let value = match eval_expr(&gate.exprs[j], lay, row) {
                        Ok(v) => v,
                        Err(_) => {
                            proof {
                                assert(!gate_no_missing(*lay, g as int));
                            }
                            return Err(Error::MissingAssignment);
                        },
                    };
                    if !value.is_zero() {
                        let ghost prev = failures@;
                        let f = GateFailure { gate_name: gate.name.clone(), row, value };
                        failures.push(f);
                        proof {
                            assert(gate_failures_view(failures@) =~= gate_failures_view(
                                prev,
                            ).push(gate_failure_view(f)));
                        }
                    }
                    proof {
                        assert(gate_failures_view(failures@) =~= gates_failures(*lay, g as int)
                            + gate_rows_failures(*lay, g as int, row as int)
                            + gate_exprs_failures(*lay, g as int, row as int, j + 1));
                    }
                    j = j + 1;
                }
            }
            proof {
                assert(gate_failures_view(failures@) =~= gates_failures(*lay, g as int)
                    + gate_rows_failures(*lay, g as int, row + 1));
            }
            row = row + 1;
        }
        proof {
            assert(gate_failures_view(failures@) =~= gates_failures(*lay, g + 1));
            assert(gate_no_missing(*lay, g as int));
        }
        g = g + 1;
    }
    Ok(failures)
}

/// The state of the cell with a flat copy id: advice cells first, fixed
/// cells after them.
pub open spec fn id_state_spec(l: Layouter, id: int) -> CellState {
    if id < l.advice@.len() {
        l.advice@[id]
    } else {
        l.fixed@[id - l.advice@.len()]
    }
}

/// The known value of the cell with a flat copy id, if any. A fixed default
/// is not a known value here: an unassigned cell imposes no copy constraint.
pub open spec fn id_val(l: Layouter, id: int) -> Option<int> {
    match id_state_spec(l, id) {
        CellState::Known(v) => Some(v.val() as int),
        _ => None,
    }
}

/// The cell a flat copy id denotes.
pub open spec fn id_cell(l: Layouter, id: int) -> Cell {
    let c = id / (l.num_rows as int);
    let r = id % (l.num_rows as int);
    if c < l.cs.num_advice {
        Cell { column: Column { kind: ColKind::Advice, index: c as usize }, row: r as usize }
    } else {
        Cell {
            column: Column { kind: ColKind::Fixed, index: (c - l.cs.num_advice) as usize },
            row: r as usize,
        }
    }
}

/// A class is violated when two of its members hold known, different values.
pub open spec fn class_bad(l: Layouter, root: int) -> bool {
    exists|x: int, y: int|
        0 <= x < l.copies.len() && 0 <= y < l.copies.len() && l.copies.repr(x) == root
            && l.copies.repr(y) == root && #[trigger] id_val(l, x) is Some && #[trigger] id_val(
            l,
            y,
        ) is Some && id_val(l, x) != id_val(l, y)
}

/// The known-valued cells among the first `k` ids of one class, in id order.
pub open spec fn class_known_cells(l: Layouter, root: int, k: int) -> Seq<Cell>
    decreases k,
{
    if k <= 0 {
        Seq::empty()
    } else {
        class_known_cells(l, root, k - 1) + if l.copies.repr(k - 1) == root && id_val(l, k - 1)
            is Some {
            seq![id_cell(l, k - 1)]
        } else {
            Seq::empty()
        }
    }
}

/// The copy failures among the classes rooted at the first `k` ids: one per
/// violated class, naming its known-valued cells.
pub open spec fn copy_failures_upto(l: Layouter, k: int) -> Seq<Seq<Cell>>
    decreases k,
{
    if k <= 0 {
        Seq::empty()
    } else {
        copy_failures_upto(l, k - 1) + if l.copies.repr(k - 1) == k - 1 && class_bad(l, k - 1) {
            seq![class_known_cells(l, k - 1, l.copies.len())]
        } else {
            Seq::empty()
        }
    }
}

/// Every copy failure of the assignment, classes in order of their root id.
pub open spec fn all_copy_failures(l: Layouter) -> Seq<Seq<Cell>> {
    copy_failures_upto(l, l.copies.len())
}

/// Reads the cell state under a flat copy id.
fn id_state(lay: &Layouter, id: usize) -> (s: CellState)
    requires
        lay.wf(),
        id < lay.copies.len(),
    ensures
        s == id_state_spec(*lay, id as int),
{
    proof {
        assert((lay.cs.num_advice as int + lay.cs.num_fixed as int) * (lay.num_rows as int)
            == lay.cs.num_advice as int * (lay.num_rows as int) + lay.cs.num_fixed as int * (
        lay.num_rows as int)) by (nonlinear_arith);
    }
    if id < lay.advice.len() {
        lay.advice[id]
    } else {
        lay.fixed[id - lay.advice.len()]
    }
}

/// Turns a flat copy id back into the cell it denotes.
fn cell_of_id(lay: &Layouter, id: usize) -> (c: Cell)
    requires
        lay.wf(),
        id < lay.copies.len(),
    ensures
        c == id_cell(*lay, id as int),
{
    let col = id / lay.num_rows;
    let row = id % lay.num_rows;
    if col < lay.cs.num_advice {
        Cell { column: Column { kind: ColKind::Advice, index: col }, row }
    } else {
        Cell { column: Column { kind: ColKind::Fixed, index: col - lay.cs.num_advice }, row }
    }
}

/// The copy pass: for every equivalence class, the known values of its
/// members must agree; a violated class is reported with its known cells.
#[verifier::loop_isolation(false)]
fn copy_pass(lay: &Layouter) -> (r: Vec<CopyFailure>)
    requires
        lay.wf(),
    ensures
        copy_failures_view(r@) == all_copy_failures(*lay),
{
    let n = lay.copies.size();
    let mut failures: Vec<CopyFailure> = Vec::new();
    let mut root: usize = 0;
    while root < n
        invariant
            root <= n,
            n == lay.copies.len(),
            copy_failures_view(failures@) == copy_failures_upto(*lay, root as int),
        decreases n - root,
    {
        if lay.copies.find(root) == root {
            let mut bad = false;
            let mut first: Option<Felt> = None;
            let mut id: usize = 0;
            while id < n
                invariant
                    id <= n,
                    first is None ==> forall|x: int|
                        0 <= x < id && lay.copies.repr(x) == root ==> !(#[trigger] id_val(
                            *lay,
                            x,
                        ) is Some),
                    first matches Some(f) ==> exists|x: int|
                        0 <= x < id && lay.copies.repr(x) == root && #[trigger] id_val(*lay, x)
                            == Some(f.val() as int),
                    !bad ==> forall|x: int|
                        0 <= x < id && lay.copies.repr(x) == root && (#[trigger] id_val(
                            *lay,
                            x,
                        )) is Some ==> (first matches Some(f) && id_val(*lay, x) == Some(
                            f.val() as int,
                        )),
                    bad ==> class_bad(*lay, root as int),
                decreases n - id,
            {
                let st = id_state(lay, id);
                if lay.copies.find(id) == root {
                    match st {
                        CellState::Known(v) => {
                            match first {
                                None => {
                                    first = Some(v);
                                },
                                Some(f) => {
                                    if !v.equals(&f) {
                                        proof {
                                            let x0 = choose|x: int|
                                                0 <= x < id && lay.copies.repr(x) == root
                                                    && #[trigger] id_val(*lay, x) == Some(
                                                    f.val() as int,
                                                );
                                            assert(id_val(*lay, id as int) == Some(
                                                v.val() as int,
                                            ));
                                            assert(id_val(*lay, x0) is Some && id_val(
                                                *lay,
                                                id as int,
                                            ) is Some && id_val(*lay, x0) != id_val(
                                                *lay,
                                                id as int,
                                            ));
                                        }
                                        bad = true;
                                    }
                                },
                            }
                        },
                        _ => {},
                    }
                }
                id = id + 1;
            }
            if bad {
                let mut cells: Vec<Cell> = Vec::new();
                let mut id2: usize = 0;
                while id2 < n
                    invariant
                        id2 <= n,
                        cells@ == class_known_cells(*lay, root as int, id2 as int),
                    decreases n - id2,
                {
                    let st = id_state(lay, id2);
                    if lay.copies.find(id2) == root {
                        match st {
                            CellState::Known(_) => {
                                cells.push(cell_of_id(lay, id2));
                            },
                            _ => {},
                        }
                    }
                    proof {
                        assert(cells@ =~= class_known_cells(*lay, root as int, id2 + 1));
                    }
                    id2 = id2 + 1;
                }
                let ghost prevf = failures@;
                failures.push(CopyFailure { cells });
                proof {
                    assert(copy_failures_view(failures@) =~= copy_failures_view(prevf).push(
                        class_known_cells(*lay, root as int, n as int),
                    ));
                }
            } else {
                proof {
                    if class_bad(*lay, root as int) {
                        let (x, y) = choose|x: int, y: int|
                            0 <= x < lay.copies.len() && 0 <= y < lay.copies.len()
                                && lay.copies.repr(x) == root && lay.copies.repr(y) == root
                                && #[trigger] id_val(*lay, x) is Some && #[trigger] id_val(
                                *lay,
                                y,
                            ) is Some && id_val(*lay, x) != id_val(*lay, y);
                        assert(first is Some);
                        assert(false);
                    }
                }
            }
        }
        proof {
            assert(copy_failures_view(failures@) =~= copy_failures_upto(*lay, root + 1));
        }
        root = root + 1;
    }
    failures
}

/// A structured pass/fail verdict over one synthesis run: both verification
/// passes, all violations reported, `ok` exactly when there are none.
pub struct MockProver {
}

impl MockProver {
    /// Runs both verification passes over a completed synthesis state.
    /// Fails only on a missing assignment under an enabled gate; every
    /// constraint violation is reported as data.
    pub fn evaluate(lay: &Layouter) -> (r: Result<Report, Error>)
        requires
            lay.wf(),
        ensures
            r is Ok <==> no_missing(*lay),
            r matches Ok(rep) ==> report_view(rep) == (
                (
                    all_gate_failures(*lay).len() == 0 && all_copy_failures(*lay).len() == 0,
                    all_gate_failures(*lay),
                    all_copy_failures(*lay),
                )
            ),
            r is Err ==> r == Result::<Report, Error>::Err(Error::MissingAssignment),
    {
        let gate_failures = match gate_pass(lay) {
            Ok(v) => v,
            Err(e) => {
                return Err(e);
            },
        };
        let copy_failures = copy_pass(lay);
        let ok = gate_failures.len() == 0 && copy_failures.len() == 0;
        Ok(Report { ok, gate_failures, copy_failures })
    }
}

/// The expression at position `j` of gate `g` is satisfied at a row: it
/// evaluates to the field's zero, or cannot be evaluated at all.
pub open spec fn expr_ok(l: Layouter, g: int, row: int, j: int) -> bool {
    match eval_expr_spec(l.cs.gates@[g].exprs@[j], l, row) {
        Some(v) => v == 0,
        None => true,
    }
}

proof fn lemma_exprs_failures_empty(l: Layouter, g: int, row: int, j: int)
    requires
        j >= 0,
    ensures
        gate_exprs_failures(l, g, row, j).len() == 0 <==> (forall|j2: int|
            0 <= j2 < j ==> #[trigger] expr_ok(l, g, row, j2)),
    decreases j,
{
    if j > 0 {
        lemma_exprs_failures_empty(l, g, row, j - 1);
        assert((gate_exprs_failures(l, g, row, j).len() == 0) == (gate_exprs_failures(
            l,
            g,
            row,
            j - 1,
        ).len() == 0 && expr_ok(l, g, row, j - 1)));
    }
}

proof fn lemma_rows_failures_empty(l: Layouter, g: int, row: int)
    requires
        row >= 0,
    ensures
        gate_rows_failures(l, g, row).len() == 0 <==> (forall|r2: int, j2: int|
            0 <= r2 < row && 0 <= j2 < l.cs.gates@[g].exprs@.len() && l.sel_at(
                l.cs.gates@[g].selector.index as int,
                r2,
            ) ==> #[trigger] expr_ok(l, g, r2, j2)),
    decreases row,
{
    if row > 0 {
        lemma_rows_failures_empty(l, g, row - 1);
        lemma_exprs_failures_empty(l, g, row - 1, l.cs.gates@[g].exprs@.len() as int);
    }
}

proof fn lemma_gates_failures_empty(l: Layouter, g: int)
    requires
        g >= 0,
    ensures
        gates_failures(l, g).len() == 0 <==> (forall|g2: int, r2: int, j2: int|
            0 <= g2 < g && 0 <= r2 < l.num_rows && 0 <= j2 < l.cs.gates@[g2].exprs@.len()
                && l.sel_at(l.cs.gates@[g2].selector.index as int, r2) ==> #[trigger] expr_ok(
                l,
                g2,
                r2,
                j2,
            )),
    decreases g,
{
    if g > 0 {
        lemma_gates_failures_empty(l, g - 1);
        lemma_rows_failures_empty(l, g - 1, l.num_rows as int);
    }
}

/// A clean gate pass means exactly that every expression of every gate
/// evaluates to zero at every row where its selector is on.
pub proof fn lemma_gate_check_passes(l: Layouter)
    ensures
        all_gate_failures(l).len() == 0 <==> (forall|g: int, row: int, j: int|
            0 <= g < l.cs.gates@.len() && 0 <= row < l.num_rows && 0 <= j
                < l.cs.gates@[g].exprs@.len() && l.sel_at(
                l.cs.gates@[g].selector.index as int,
                row,
            ) ==> #[trigger] expr_ok(l, g, row, j)),
{
    lemma_gates_failures_empty(l, l.cs.gates@.len() as int);
}

proof fn lemma_copy_failures_upto_empty(l: Layouter, k: int)
    requires
        k >= 0,
    ensures
        copy_failures_upto(l, k).len() == 0 <==> (forall|r: int|
            0 <= r < k && #[trigger] l.copies.repr(r) == r ==> !class_bad(l, r)),
    decreases k,
{
    if k > 0 {
        lemma_copy_failures_upto_empty(l, k - 1);
    }
}

/// A clean copy pass means exactly that any two cells constrained equal and
/// holding known values hold the same value.
pub proof fn lemma_copy_check_passes(l: Layouter)
    requires
        l.copies.wf(),
    ensures
        all_copy_failures(l).len() == 0 <==> (forall|x: int, y: int|
            0 <= x < l.copies.len() && 0 <= y < l.copies.len() && l.copies.same_class(x, y)
                && #[trigger] id_val(l, x) is Some && #[trigger] id_val(l, y) is Some ==> id_val(
                l,
                x,
            ) == id_val(l, y)),
{
    l.copies.lemma_len_nonneg();
    lemma_copy_failures_upto_empty(l, l.copies.len());
    if all_copy_failures(l).len() == 0 {
        assert forall|x: int, y: int|
            0 <= x < l.copies.len() && 0 <= y < l.copies.len() && l.copies.same_class(x, y)
                && #[trigger] id_val(l, x) is Some && #[trigger] id_val(l, y)
                is Some implies id_val(l, x) == id_val(l, y) by {
            let r = l.copies.repr(x);
            assert(l.copies.repr(r) == r);
            if id_val(l, x) != id_val(l, y) {
                assert(class_bad(l, r));
            }
        }
    } else {
        let r = choose|r: int| 0 <= r < l.copies.len() && #[trigger] l.copies.repr(r) == r
            && class_bad(l, r);
        assert(class_bad(l, r));
    }
}

proof fn lemma_exprs_single(l: Layouter, g: int, row: int, j: int, j0: int, v0: int)
    requires
        0 <= j0,
        eval_expr_spec(l.cs.gates@[g].exprs@[j0], l, row) == Some(v0),
        v0 != 0,
        forall|j2: int| 0 <= j2 < j && j2 != j0 ==> #[trigger] expr_ok(l, g, row, j2),
    ensures
        gate_exprs_failures(l, g, row, j) == if j > j0 {
            seq![(l.cs.gates@[g].name@, row, v0)]
        } else {
            Seq::<(Seq<char>, int, int)>::empty()
        },
    decreases j,
{
    if j > 0 {
        lemma_exprs_single(l, g, row, j - 1, j0, v0);
        if j - 1 == j0 {
            lemma_exprs_failures_empty(l, g, row, j0);
            assert(gate_exprs_failures(l, g, row, j) =~= seq![(l.cs.gates@[g].name@, row, v0)]);
        } else if j > j0 {
            assert(expr_ok(l, g, row, j - 1));
            assert(gate_exprs_failures(l, g, row, j) =~= seq![(l.cs.gates@[g].name@, row, v0)]);
        } else {
            assert(expr_ok(l, g, row, j - 1));
            assert(gate_exprs_failures(l, g, row, j) =~= Seq::<(Seq<char>, int, int)>::empty());
        }
    }
}

proof fn lemma_rows_single(l: Layouter, g: int, row: int, row0: int, j0: int, v0: int)
    requires
        0 <= row0,
        0 <= j0 < l.cs.gates@[g].exprs@.len(),
        l.sel_at(l.cs.gates@[g].selector.index as int, row0),
        eval_expr_spec(l.cs.gates@[g].exprs@[j0], l, row0) == Some(v0),
        v0 != 0,
        forall|r2: int, j2: int|
            0 <= r2 < row && 0 <= j2 < l.cs.gates@[g].exprs@.len() && l.sel_at(
                l.cs.gates@[g].selector.index as int,
                r2,
            ) && !(r2 == row0 && j2 == j0) ==> #[trigger] expr_ok(l, g, r2, j2),
    ensures
        gate_rows_failures(l, g, row) == if row > row0 {
            seq![(l.cs.gates@[g].name@, row0, v0)]
        } else {
            Seq::<(Seq<char>, int, int)>::empty()
        },
    decreases row,
{
    if row > 0 {
        lemma_rows_single(l, g, row - 1, row0, j0, v0);
        if row - 1 == row0 {
            lemma_exprs_single(l, g, row0, l.cs.gates@[g].exprs@.len() as int, j0, v0);
            assert(gate_rows_failures(l, g, row) =~= seq![(l.cs.gates@[g].name@, row0, v0)]);
        } else {
            if l.sel_at(l.cs.gates@[g].selector.index as int, row - 1) {
                lemma_exprs_failures_empty(l, g, row - 1, l.cs.gates@[g].exprs@.len() as int);
                assert(gate_exprs_failures(l, g, row - 1, l.cs.gates@[g].exprs@.len() as int)
                    =~= Seq::<(Seq<char>, int, int)>::empty());
            }
            if row > row0 {
                assert(gate_rows_failures(l, g, row) =~= seq![(l.cs.gates@[g].name@, row0, v0)]);
            } else {
                assert(gate_rows_failures(l, g, row) =~= Seq::<(Seq<char>, int, int)>::empty());
            }
        }
    }
}

proof fn lemma_gates_single(l: Layouter, g: int, g0: int, row0: int, j0: int, v0: int)
    requires
        0 <= g0,
        0 <= row0 < l.num_rows,
        0 <= j0 < l.cs.gates@[g0].exprs@.len(),
        l.sel_at(l.cs.gates@[g0].selector.index as int, row0),
        eval_expr_spec(l.cs.gates@[g0].exprs@[j0], l, row0) == Some(v0),
        v0 != 0,
        forall|g2: int, r2: int, j2: int|
            0 <= g2 < l.cs.gates@.len() && 0 <= r2 < l.num_rows && 0 <= j2
                < l.cs.gates@[g2].exprs@.len() && l.sel_at(
                l.cs.gates@[g2].selector.index as int,
                r2,
            ) && !(g2 == g0 && r2 == row0 && j2 == j0) ==> #[trigger] expr_ok(l, g2, r2, j2),
        g <= l.cs.gates@.len(),
    ensures
        gates_failures(l, g) == if g > g0 {
            seq![(l.cs.gates@[g0].name@, row0, v0)]
        } else {
            Seq::<(Seq<char>, int, int)>::empty()
        },
    decreases g,
{
    if g > 0 {
        lemma_gates_single(l, g - 1, g0, row0, j0, v0);
        if g - 1 == g0 {
            lemma_rows_single(l, g0, l.num_rows as int, row0, j0, v0);
            assert(gates_failures(l, g) =~= seq![(l.cs.gates@[g0].name@, row0, v0)]);
        } else {
            lemma_rows_failures_empty(l, g - 1, l.num_rows as int);
            assert(gate_rows_failures(l, g - 1, l.num_rows as int) =~= Seq::<
                (Seq<char>, int, int),
            >::empty());
            if g > g0 {
                assert(gates_failures(l, g) =~= seq![(l.cs.gates@[g0].name@, row0, v0)]);
            } else {
                assert(gates_failures(l, g) =~= Seq::<(Seq<char>, int, int)>::empty());
            }
        }
    }
}

/// A grid with exactly one violating gate expression — one gate, one row
/// where its selector is on, one expression evaluating to a nonzero value —
/// yields exactly one gate failure: that gate's name, that row, that value.
/// Every violation is collected and nothing else is, so a single broken
/// step surfaces at its own row and at no other.
pub proof fn lemma_single_gate_violation(l: Layouter, g0: int, row0: int, j0: int, v0: int)
    requires
        0 <= g0 < l.cs.gates@.len(),
        0 <= row0 < l.num_rows,
        0 <= j0 < l.cs.gates@[g0].exprs@.len(),
        l.sel_at(l.cs.gates@[g0].selector.index as int, row0),
        eval_expr_spec(l.cs.gates@[g0].exprs@[j0], l, row0) == Some(v0),
        v0 != 0,
        forall|g2: int, r2: int, j2: int|
            0 <= g2 < l.cs.gates@.len() && 0 <= r2 < l.num_rows && 0 <= j2
                < l.cs.gates@[g2].exprs@.len() && l.sel_at(
                l.cs.gates@[g2].selector.index as int,
                r2,
            ) && !(g2 == g0 && r2 == row0 && j2 == j0) ==> #[trigger] expr_ok(l, g2, r2, j2),
    ensures
        all_gate_failures(l) == seq![(l.cs.gates@[g0].name@, row0, v0)],
{
    lemma_gates_single(l, l.cs.gates@.len() as int, g0, row0, j0, v0);
}

proof fn lemma_single_bad_class_upto(l: Layouter, r0: int, k: int)
    requires
        l.copies.wf(),
        0 <= r0 < l.copies.len(),
        l.copies.repr(r0) == r0,
        class_bad(l, r0),
        forall|r: int|
            0 <= r < l.copies.len() && #[trigger] l.copies.repr(r) == r && r != r0 ==> !class_bad(
                l,
                r,
            ),
        0 <= k <= l.copies.len(),
    ensures
        copy_failures_upto(l, k) == if k > r0 {
            seq![class_known_cells(l, r0, l.copies.len())]
        } else {
            Seq::<Seq<Cell>>::empty()
        },
    decreases k,
{
    if k > 0 {
        lemma_single_bad_class_upto(l, r0, k - 1);
    }
}

/// The copy pass on a grid with exactly one violated equivalence class
/// reports exactly one failure: the one naming that class's known cells,
/// whatever every other class holds.
pub proof fn lemma_single_bad_class(l: Layouter, r0: int)
    requires
        l.copies.wf(),
        0 <= r0 < l.copies.len(),
        l.copies.repr(r0) == r0,
        class_bad(l, r0),
        forall|r: int|
            0 <= r < l.copies.len() && #[trigger] l.copies.repr(r) == r && r != r0 ==> !class_bad(
                l,
                r,
            ),
    ensures
        all_copy_failures(l) == seq![class_known_cells(l, r0, l.copies.len())],
{
    lemma_single_bad_class_upto(l, r0, l.copies.len());
}

/// The observable synthesis state: everything verification reads. Two
/// layouters that agree on it are indistinguishable to both passes.
pub open spec fn same_observable_state(l1: Layouter, l2: Layouter) -> bool {
    &&& l1.cs == l2.cs
    &&& l1.num_rows == l2.num_rows
    &&& l1.advice@ == l2.advice@
    &&& l1.fixed@ == l2.fixed@
    &&& l1.selectors@ == l2.selectors@
    &&& l1.copies.len() == l2.copies.len()
    &&& forall|i: int|
        0 <= i < l1.copies.len() ==> #[trigger] l1.copies.repr(i) == l2.copies.repr(i)
}

proof fn lemma_eval_congruent(e: Expression, l1: Layouter, l2: Layouter, row: int)
    requires
        same_observable_state(l1, l2),
    ensures
        eval_expr_spec(e, l1, row) == eval_expr_spec(e, l2, row),
    decreases e,
{
    match e {
        Expression::Constant(_) => {},
        Expression::Query(_c, _rot) => {},
        Expression::Sum(a, b) => {
            lemma_eval_congruent(*a, l1, l2, row);
            lemma_eval_congruent(*b, l1, l2, row);
        },
        Expression::Product(a, b) => {
            lemma_eval_congruent(*a, l1, l2, row);
            lemma_eval_congruent(*b, l1, l2, row);
        },
        Expression::Negate(a) => {
            lemma_eval_congruent(*a, l1, l2, row);
        },
    }
}

proof fn lemma_exprs_failures_congruent(l1: Layouter, l2: Layouter, g: int, row: int, j: int)
    requires
        same_observable_state(l1, l2),
        j >= 0,
    ensures
        gate_exprs_failures(l1, g, row, j) == gate_exprs_failures(l2, g, row, j),
    decreases j,
{
    if j > 0 {
        lemma_exprs_failures_congruent(l1, l2, g, row, j - 1);
        lemma_eval_congruent(l1.cs.gates@[g].exprs@[j - 1], l1, l2, row);
    }
}

proof fn lemma_rows_failures_congruent(l1: Layouter, l2: Layouter, g: int, row: int)
    requires
        same_observable_state(l1, l2),
        row >= 0,
    ensures
        gate_rows_failures(l1, g, row) == gate_rows_failures(l2, g, row),
    decreases row,
{
    if row > 0 {
        lemma_rows_failures_congruent(l1, l2, g, row - 1);
        lemma_exprs_failures_congruent(l1, l2, g, row - 1, l1.cs.gates@[g].exprs@.len() as int);
    }
}

proof fn lemma_gates_failures_congruent(l1: Layouter, l2: Layouter, g: int)
    requires
        same_observable_state(l1, l2),
        g >= 0,
    ensures
        gates_failures(l1, g) == gates_failures(l2, g),
    decreases g,
{
    if g > 0 {
        lemma_gates_failures_congruent(l1, l2, g - 1);
        lemma_rows_failures_congruent(l1, l2, g - 1, l1.num_rows as int);
    }
}

proof fn lemma_class_bad_congruent(l1: Layouter, l2: Layouter, root: int)
    requires
        same_observable_state(l1, l2),
    ensures
        class_bad(l1, root) == class_bad(l2, root),
{
    if class_bad(l1, root) {
        let (x, y) = choose|x: int, y: int|
            0 <= x < l1.copies.len() && 0 <= y < l1.copies.len() && l1.copies.repr(x) == root
                && l1.copies.repr(y) == root && #[trigger] id_val(l1, x) is Some && #[trigger] id_val(
                l1,
                y,
            ) is Some && id_val(l1, x) != id_val(l1, y);
        assert(id_val(l2, x) is Some && id_val(l2, y) is Some && id_val(l2, x) != id_val(l2, y));
        assert(class_bad(l2, root));
    }
    if class_bad(l2, root) {
        let (x, y) = choose|x: int, y: int|
            0 <= x < l2.copies.len() && 0 <= y < l2.copies.len() && l2.copies.repr(x) == root
                && l2.copies.repr(y) == root && #[trigger] id_val(l2, x) is Some && #[trigger] id_val(
                l2,
                y,
            ) is Some && id_val(l2, x) != id_val(l2, y);
        assert(id_val(l1, x) is Some && id_val(l1, y) is Some && id_val(l1, x) != id_val(l1, y));
        assert(class_bad(l1, root));
    }
}

proof fn lemma_class_cells_congruent(l1: Layouter, l2: Layouter, root: int, k: int)
    requires
        same_observable_state(l1, l2),
        k >= 0,
        k <= l1.copies.len(),
    ensures
        class_known_cells(l1, root, k) == class_known_cells(l2, root, k),
    decreases k,
{
    if k > 0 {
        lemma_class_cells_congruent(l1, l2, root, k - 1);
    }
}

proof fn lemma_copy_failures_congruent(l1: Layouter, l2: Layouter, k: int)
    requires
        same_observable_state(l1, l2),
        k >= 0,
        k <= l1.copies.len(),
    ensures
        copy_failures_upto(l1, k) == copy_failures_upto(l2, k),
    decreases k,
{
    if k > 0 {
        lemma_copy_failures_congruent(l1, l2, k - 1);
        lemma_class_bad_congruent(l1, l2, k - 1);
        if l1.copies.repr(k - 1) == k - 1 && class_bad(l1, k - 1) {
            l1.copies.lemma_len_nonneg();
            lemma_class_cells_congruent(l1, l2, k - 1, l1.copies.len());
        }
    }
}

/// Verification reads nothing but the observable synthesis state: two
/// layouters that agree on the system, the grid, the selectors and the copy
/// classes are sent to identical verdicts — the missing-assignment test and
/// both failure lists coincide. Together with the pinned synthesis
/// contracts, two runs on identical circuit and witness produce reports of
/// identical content.
pub proof fn lemma_runs_agree(l1: Layouter, l2: Layouter)
    requires
        same_observable_state(l1, l2),
    ensures
        no_missing(l1) == no_missing(l2),
        all_gate_failures(l1) == all_gate_failures(l2),
        all_copy_failures(l1) == all_copy_failures(l2),
{
    lemma_gates_failures_congruent(l1, l2, l1.cs.gates@.len() as int);
    l1.copies.lemma_len_nonneg();
    lemma_copy_failures_congruent(l1, l2, l1.copies.len());
    assert forall|g: int|
        0 <= g < l1.cs.gates@.len() implies (gate_no_missing(l1, g) == gate_no_missing(
        l2,
        g,
    )) by {
        if gate_no_missing(l1, g) {
            assert forall|row: int, j: int|
                0 <= row < l2.num_rows && 0 <= j < l2.cs.gates@[g].exprs@.len() && l2.sel_at(
                    l2.cs.gates@[g].selector.index as int,
                    row,
                ) implies !(#[trigger] eval_expr_spec(l2.cs.gates@[g].exprs@[j], l2, row)
                is None) by {
                lemma_eval_congruent(l1.cs.gates@[g].exprs@[j], l1, l2, row);
                assert(!(eval_expr_spec(l1.cs.gates@[g].exprs@[j], l1, row) is None));
            }
        }
        if gate_no_missing(l2, g) {
            assert forall|row: int, j: int|
                0 <= row < l1.num_rows && 0 <= j < l1.cs.gates@[g].exprs@.len() && l1.sel_at(
                    l1.cs.gates@[g].selector.index as int,
                    row,
                ) implies !(#[trigger] eval_expr_spec(l1.cs.gates@[g].exprs@[j], l1, row)
                is None) by {
                lemma_eval_congruent(l1.cs.gates@[g].exprs@[j], l1, l2, row);
                assert(!(eval_expr_spec(l2.cs.gates@[g].exprs@[j], l2, row) is None));
            }
        }
    }
}

/// Verification is deterministic: two reports drawn from the same synthesis
/// state carry identical content — gate failures, copy failures and verdict.
pub proof fn lemma_report_deterministic(l: Layouter, r1: Report, r2: Report)
    requires
        report_view(r1) == (
            (
                all_gate_failures(l).len() == 0 && all_copy_failures(l).len() == 0,
                all_gate_failures(l),
                all_copy_failures(l),
            )
        ),
        report_view(r2) == (
            (
                all_gate_failures(l).len() == 0 && all_copy_failures(l).len() == 0,
                all_gate_failures(l),
                all_copy_failures(l),
            )
        ),
    ensures
        report_view(r1) == report_view(r2),
{
}

} // verus!
