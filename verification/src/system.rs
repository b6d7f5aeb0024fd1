//! The constraint system: columns, selectors, polynomial gates.
//!
//! A circuit definition registers its columns and selectors, then its gates,
//! and finally freezes the system; synthesis and verification read it after
//! that, never changing it again.

use vstd::prelude::*;
use crate::field::Felt;

verus! {

/// The kind of a grid column.
#[derive(Clone, Copy, Debug, PartialEq, Eq, Structural)]
pub enum ColKind {
    /// Witness values, supplied per proving run.
    Advice,
    /// Constants baked into the circuit definition.
    Fixed,
}

/// A grid column, identified by kind and index.
#[derive(Clone, Copy, Debug, PartialEq, Eq, Structural)]
pub struct Column {
    pub kind: ColKind,
    pub index: usize,
}

/// A per-row boolean flag that gates where a gate's constraints apply.
#[derive(Clone, Copy, Debug, PartialEq, Eq, Structural)]
pub struct Selector {
    pub index: usize,
}

/// A polynomial over cells of the grid, queried relative to an evaluation row.
#[derive(Debug, PartialEq, Eq)]
pub enum Expression {
    /// A constant field element.
    Constant(Felt),
    /// The value of a column at the evaluation row offset by a rotation.
    Query(Column, i32),
    /// The sum of two polynomials.
    Sum(Box<Expression>, Box<Expression>),
    /// The product of two polynomials.
    Product(Box<Expression>, Box<Expression>),
    /// The additive inverse of a polynomial.
    Negate(Box<Expression>),
}

/// Every constant of the expression is in canonical form and every query
/// addresses a registered column.
pub open spec fn expr_wf(e: Expression, num_advice: int, num_fixed: int) -> bool
    decreases e,
{
    match e {
        Expression::Constant(c) => c.wf(),
        Expression::Query(col, _rot) => match col.kind {
            ColKind::Advice => col.index < num_advice,
            ColKind::Fixed => col.index < num_fixed,
        },
        Expression::Sum(a, b) => expr_wf(*a, num_advice, num_fixed) && expr_wf(
            *b,
            num_advice,
            num_fixed,
        ),
        Expression::Product(a, b) => expr_wf(*a, num_advice, num_fixed) && expr_wf(
            *b,
            num_advice,
            num_fixed,
        ),
        Expression::Negate(a) => expr_wf(*a, num_advice, num_fixed),
    }
}

/// Whether the expression queries the given column anywhere.
pub open spec fn expr_queries(e: Expression, col: Column) -> bool
    decreases e,
{
    match e {
        Expression::Constant(_) => false,
        Expression::Query(c, _rot) => c == col,
        Expression::Sum(a, b) => expr_queries(*a, col) || expr_queries(*b, col),
        Expression::Product(a, b) => expr_queries(*a, col) || expr_queries(*b, col),
        Expression::Negate(a) => expr_queries(*a, col),
    }
}

/// Every query of the expression stays on the grid when evaluated at the
/// given row: a query at rotation d read from row r addresses row r + d.
pub open spec fn expr_rot_in_range(e: Expression, row: int, num_rows: int) -> bool
    decreases e,
{
    match e {
        Expression::Constant(_) => true,
        Expression::Query(_c, rot) => 0 <= row + rot < num_rows,
        Expression::Sum(a, b) => expr_rot_in_range(*a, row, num_rows) && expr_rot_in_range(
            *b,
            row,
            num_rows,
        ),
        Expression::Product(a, b) => expr_rot_in_range(*a, row, num_rows) && expr_rot_in_range(
            *b,
            row,
            num_rows,
        ),
        Expression::Negate(a) => expr_rot_in_range(*a, row, num_rows),
    }
}

/// A named, non-empty list of polynomials, each required to evaluate to zero
/// at every row where the controlling selector is on; the selector
/// multiplication is implicit, so a disabled gate constrains nothing.
#[derive(Debug, PartialEq, Eq)]
pub struct Gate {
    pub name: String,
    pub selector: Selector,
    pub exprs: Vec<Expression>,
}

/// A gate is well formed against the counts of registered columns and
/// selectors.
pub open spec fn gate_wf(g: Gate, num_advice: int, num_fixed: int, num_selectors: int) -> bool {
    &&& g.selector.index < num_selectors
    &&& g.exprs@.len() > 0
    &&& forall|j: int|
        0 <= j < g.exprs@.len() ==> expr_wf(#[trigger] g.exprs@[j], num_advice, num_fixed)
}

/// The registry of columns, selectors and gates of one circuit, built during
/// the configure phase and then frozen.
#[derive(Debug, PartialEq, Eq)]
pub struct ConstraintSystem {
    pub num_advice: usize,
    pub num_fixed: usize,
    pub num_selectors: usize,
    pub equality_advice: Vec<bool>,
    pub equality_fixed: Vec<bool>,
    pub gates: Vec<Gate>,
    pub frozen: bool,
}

impl ConstraintSystem {
    /// Structural validity: the equality flags cover the registered columns
    /// and every gate is well formed.
    pub open spec fn wf(self) -> bool {
        &&& self.equality_advice@.len() == self.num_advice
        &&& self.equality_fixed@.len() == self.num_fixed
        &&& forall|i: int|
            0 <= i < self.gates@.len() ==> gate_wf(
                #[trigger] self.gates@[i],
                self.num_advice as int,
                self.num_fixed as int,
                self.num_selectors as int,
            )
    }

    /// Whether the given column may take part in copy constraints.
    pub open spec fn equality_enabled(self, col: Column) -> bool {
        match col.kind {
            ColKind::Advice => col.index < self.equality_advice@.len()
                && self.equality_advice@[col.index as int],
            ColKind::Fixed => col.index < self.equality_fixed@.len()
                && self.equality_fixed@[col.index as int],
        }
    }

    /// An empty system, still building.
    pub fn new() -> (r: ConstraintSystem)
        ensures
            r.wf(),
            !r.frozen,
            r.num_advice == 0,
            r.num_fixed == 0,
            r.num_selectors == 0,
            r.gates@.len() == 0,
    {
        ConstraintSystem {
            num_advice: 0,
            num_fixed: 0,
            num_selectors: 0,
            equality_advice: Vec::new(),
            equality_fixed: Vec::new(),
            gates: Vec::new(),
            frozen: false,
        }
    }

    /// Registers a fresh advice column, with equality off.
    pub fn advice_column(&mut self) -> (col: Column)
        requires
            old(self).wf(),
            !old(self).frozen,
            old(self).num_advice < usize::MAX,
        ensures
            final(self).wf(),
            col == (Column { kind: ColKind::Advice, index: old(self).num_advice }),
            final(self).num_advice == old(self).num_advice + 1,
            final(self).equality_advice@ == old(self).equality_advice@.push(false),
            final(self).num_fixed == old(self).num_fixed,
            final(self).num_selectors == old(self).num_selectors,
            final(self).equality_fixed == old(self).equality_fixed,
            final(self).gates == old(self).gates,
            final(self).frozen == old(self).frozen,
    {
        let index = self.num_advice;
        self.num_advice = self.num_advice + 1;
        self.equality_advice.push(false);
        proof {
            lemma_gates_wf_mono(
                self.gates@,
                old(self).num_advice as int,
                old(self).num_fixed as int,
                self.num_selectors as int,
                self.num_advice as int,
                self.num_fixed as int,
            );
        }
        Column { kind: ColKind::Advice, index }
    }

    /// Registers a fresh fixed column, with equality off.
    pub fn fixed_column(&mut self) -> (col: Column)
        requires
            old(self).wf(),
            !old(self).frozen,
            old(self).num_fixed < usize::MAX,
        ensures
            final(self).wf(),
            col == (Column { kind: ColKind::Fixed, index: old(self).num_fixed }),
            final(self).num_fixed == old(self).num_fixed + 1,
            final(self).equality_fixed@ == old(self).equality_fixed@.push(false),
            final(self).num_advice == old(self).num_advice,
            final(self).num_selectors == old(self).num_selectors,
            final(self).equality_advice == old(self).equality_advice,
            final(self).gates == old(self).gates,
            final(self).frozen == old(self).frozen,
    {
        let index = self.num_fixed;
        self.num_fixed = self.num_fixed + 1;
        self.equality_fixed.push(false);
        proof {
            lemma_gates_wf_mono(
                self.gates@,
                old(self).num_advice as int,
                old(self).num_fixed as int,
                self.num_selectors as int,
                self.num_advice as int,
                self.num_fixed as int,
            );
        }
        Column { kind: ColKind::Fixed, index }
    }

    /// Registers a fresh selector, off at every row until synthesis turns it
    /// on.
    pub fn selector(&mut self) -> (s: Selector)
        requires
            old(self).wf(),
            !old(self).frozen,
            old(self).num_selectors < usize::MAX,
        ensures
            final(self).wf(),
            s == (Selector { index: old(self).num_selectors }),
            final(self).num_selectors == old(self).num_selectors + 1,
            final(self).num_advice == old(self).num_advice,
            final(self).num_fixed == old(self).num_fixed,
            final(self).equality_advice == old(self).equality_advice,
            final(self).equality_fixed == old(self).equality_fixed,
            final(self).gates == old(self).gates,
            final(self).frozen == old(self).frozen,
    {
        let index = self.num_selectors;
        self.num_selectors = self.num_selectors + 1;
        Selector { index }
    }

    /// Declares that cells of the column may take part in copy constraints.
    /// Equality support must be declared before any gate is registered against
    /// the column; declaring it later fails, since the registered gates
    /// already assumed the column uncopyable.
    #[verifier::loop_isolation(false)]
    pub fn enable_equality(&mut self, col: Column) -> (r: Result<(), crate::Error>)
        requires
            old(self).wf(),
            !old(self).frozen,
        ensures
            final(self).wf(),
            r is Ok <==> (!exists|i: int, j: int|
                0 <= i < old(self).gates@.len() && 0 <= j < old(self).gates@[i].exprs@.len()
                    && expr_queries(#[trigger] old(self).gates@[i].exprs@[j], col)) && match col.kind {
                ColKind::Advice => col.index < old(self).num_advice,
                ColKind::Fixed => col.index < old(self).num_fixed,
            },
            r is Err ==> *final(self) == *old(self),
            !(match col.kind {
                ColKind::Advice => col.index < old(self).num_advice,
                ColKind::Fixed => col.index < old(self).num_fixed,
            }) ==> r == Result::<(), crate::Error>::Err(crate::Error::UnregisteredColumn),
            (match col.kind {
                ColKind::Advice => col.index < old(self).num_advice,
                ColKind::Fixed => col.index < old(self).num_fixed,
            }) && (exists|i: int, j: int|
                0 <= i < old(self).gates@.len() && 0 <= j < old(self).gates@[i].exprs@.len()
                    && expr_queries(#[trigger] old(self).gates@[i].exprs@[j], col)) ==> r
                == Result::<(), crate::Error>::Err(crate::Error::EqualityAfterUse),
            r is Ok ==> match col.kind {
                ColKind::Advice => final(self).equality_advice@ == old(
                    self,
                ).equality_advice@.update(col.index as int, true) && final(self).equality_fixed
                    == old(self).equality_fixed,
                ColKind::Fixed => final(self).equality_fixed@ == old(self).equality_fixed@.update(
                    col.index as int,
                    true,
                ) && final(self).equality_advice == old(self).equality_advice,
            },
            final(self).num_advice == old(self).num_advice,
            final(self).num_fixed == old(self).num_fixed,
            final(self).num_selectors == old(self).num_selectors,
            final(self).gates == old(self).gates,
            final(self).frozen == old(self).frozen,
    {
        let registered = match col.kind {
            ColKind::Advice => col.index < self.num_advice,
            ColKind::Fixed => col.index < self.num_fixed,
        };
        if !registered {
            return Err(crate::Error::UnregisteredColumn);
        }
        let mut i: usize = 0;
        while i < self.gates.len()
            invariant
                i <= self.gates@.len(),
                forall|i2: int, j2: int|
                    0 <= i2 < i && 0 <= j2 < self.gates@[i2].exprs@.len() ==> !expr_queries(
                        #[trigger] self.gates@[i2].exprs@[j2],
                        col,
                    ),
            decreases self.gates@.len() - i,
        {
            let g = &self.gates[i];
            let mut j: usize = 0;
            while j < g.exprs.len()
                invariant
                    j <= g.exprs@.len(),
                    forall|j2: int|
                        0 <= j2 < j ==> !expr_queries(#[trigger] g.exprs@[j2], col),
                decreases g.exprs@.len() - j,
            {
                if expr_queries_col(&g.exprs[j], col) {
                    return Err(crate::Error::EqualityAfterUse);
                }
                j = j + 1;
            }
            i = i + 1;
        }
        match col.kind {
            ColKind::Advice => {
                self.equality_advice.set(col.index, true);
            },
            ColKind::Fixed => {
                self.equality_fixed.set(col.index, true);
            },
        }
        Ok(())
    }

    /// Registers a gate: at every row where the selector is on, every listed
    /// polynomial must evaluate to zero. Fails when some query addresses a
    /// column that was never registered.
    #[verifier::loop_isolation(false)]
    pub fn create_gate(&mut self, name: String, selector: Selector, exprs: Vec<Expression>) -> (r:
        Result<(), crate::Error>)
        requires
            old(self).wf(),
            !old(self).frozen,
            exprs@.len() > 0,
            forall|j: int| 0 <= j < exprs@.len() ==> expr_constants_wf(#[trigger] exprs@[j]),
        ensures
            final(self).wf(),
            r is Ok <==> selector.index < old(self).num_selectors && (forall|j: int|
                0 <= j < exprs@.len() ==> expr_wf(
                    #[trigger] exprs@[j],
                    old(self).num_advice as int,
                    old(self).num_fixed as int,
                )),
            r is Ok ==> final(self).gates@ == old(self).gates@.push(
                Gate { name, selector, exprs },
            ),
            r is Err ==> r == Result::<(), crate::Error>::Err(crate::Error::UnregisteredColumn)
                && final(self).gates == old(self).gates,
            final(self).num_advice == old(self).num_advice,
            final(self).num_fixed == old(self).num_fixed,
            final(self).num_selectors == old(self).num_selectors,
            final(self).equality_advice == old(self).equality_advice,
            final(self).equality_fixed == old(self).equality_fixed,
            final(self).frozen == old(self).frozen,
    {
        if selector.index >= self.num_selectors {
            return Err(crate::Error::UnregisteredColumn);
        }
        let mut j: usize = 0;
        while j < exprs.len()
            invariant
                j <= exprs@.len(),
                forall|j2: int|
                    0 <= j2 < j ==> expr_wf(
                        #[trigger] exprs@[j2],
                        self.num_advice as int,
                        self.num_fixed as int,
                    ),
                self.num_advice == old(self).num_advice,
                self.num_fixed == old(self).num_fixed,
            decreases exprs@.len() - j,
        {
            if !expr_registered(&exprs[j], self.num_advice, self.num_fixed) {
                return Err(crate::Error::UnregisteredColumn);
            }
            j = j + 1;
        }
        self.gates.push(Gate { name, selector, exprs });
        Ok(())
    }

    /// Ends the configure phase; the system never changes again.
    pub fn freeze(&mut self)
        requires
            old(self).wf(),
        ensures
            final(self).wf(),
            *final(self) == (ConstraintSystem { frozen: true, ..*old(self) }),
    {
        self.frozen = true;
    }
}

/// Well-formedness of an expression is kept when more columns are registered.
pub proof fn lemma_expr_wf_mono(e: Expression, na1: int, nf1: int, na2: int, nf2: int)
    requires
        expr_wf(e, na1, nf1),
        na1 <= na2,
        nf1 <= nf2,
    ensures
        expr_wf(e, na2, nf2),
    decreases e,
{
    match e {
        Expression::Constant(_) => {},
        Expression::Query(_c, _rot) => {},
        Expression::Sum(a, b) => {
            lemma_expr_wf_mono(*a, na1, nf1, na2, nf2);
            lemma_expr_wf_mono(*b, na1, nf1, na2, nf2);
        },
        Expression::Product(a, b) => {
            lemma_expr_wf_mono(*a, na1, nf1, na2, nf2);
            lemma_expr_wf_mono(*b, na1, nf1, na2, nf2);
        },
        Expression::Negate(a) => {
            lemma_expr_wf_mono(*a, na1, nf1, na2, nf2);
        },
    }
}

/// Every gate well formed for the old counts is well formed for larger ones.
proof fn lemma_gates_wf_mono(gates: Seq<Gate>, na1: int, nf1: int, ns: int, na2: int, nf2: int)
    requires
        forall|i: int| 0 <= i < gates.len() ==> gate_wf(#[trigger] gates[i], na1, nf1, ns),
        na1 <= na2,
        nf1 <= nf2,
    ensures
        forall|i: int| 0 <= i < gates.len() ==> gate_wf(#[trigger] gates[i], na2, nf2, ns),
{
    assert forall|i: int| 0 <= i < gates.len() implies gate_wf(#[trigger] gates[i], na2, nf2, ns) by {
        assert forall|j: int| 0 <= j < gates[i].exprs@.len() implies expr_wf(
            #[trigger] gates[i].exprs@[j],
            na2,
            nf2,
        ) by {
            lemma_expr_wf_mono(gates[i].exprs@[j], na1, nf1, na2, nf2);
        }
    }
}

/// Every rotation of the expression lies within the inclusive bounds.
pub open spec fn expr_rots_within(e: Expression, lo: int, hi: int) -> bool
    decreases e,
{
    match e {
        Expression::Constant(_) => true,
        Expression::Query(_c, rot) => lo <= rot <= hi,
        Expression::Sum(a, b) => expr_rots_within(*a, lo, hi) && expr_rots_within(*b, lo, hi),
        Expression::Product(a, b) => expr_rots_within(*a, lo, hi) && expr_rots_within(*b, lo, hi),
        Expression::Negate(a) => expr_rots_within(*a, lo, hi),
    }
}

/// Bounded rotations stay on the grid at any row that leaves them room.
pub proof fn lemma_rots_within_in_range(e: Expression, lo: int, hi: int, row: int, num_rows: int)
    requires
        expr_rots_within(e, lo, hi),
        0 <= row + lo,
        row + hi < num_rows,
    ensures
        expr_rot_in_range(e, row, num_rows),
    decreases e,
{
    match e {
        Expression::Constant(_) => {},
        Expression::Query(_c, _rot) => {},
        Expression::Sum(a, b) => {
            lemma_rots_within_in_range(*a, lo, hi, row, num_rows);
            lemma_rots_within_in_range(*b, lo, hi, row, num_rows);
        },
        Expression::Product(a, b) => {
            lemma_rots_within_in_range(*a, lo, hi, row, num_rows);
            lemma_rots_within_in_range(*b, lo, hi, row, num_rows);
        },
        Expression::Negate(a) => {
            lemma_rots_within_in_range(*a, lo, hi, row, num_rows);
        },
    }
}

/// A well-formed expression never queries a column that is not yet
/// registered.
pub proof fn lemma_wf_expr_no_new_query(e: Expression, na: int, nf: int, col: Column)
    requires
        expr_wf(e, na, nf),
        match col.kind {
            ColKind::Advice => col.index >= na,
            ColKind::Fixed => col.index >= nf,
        },
    ensures
        !expr_queries(e, col),
    decreases e,
{
    match e {
        Expression::Constant(_) => {},
        Expression::Query(_c, _rot) => {},
        Expression::Sum(a, b) => {
            lemma_wf_expr_no_new_query(*a, na, nf, col);
            lemma_wf_expr_no_new_query(*b, na, nf, col);
        },
        Expression::Product(a, b) => {
            lemma_wf_expr_no_new_query(*a, na, nf, col);
            lemma_wf_expr_no_new_query(*b, na, nf, col);
        },
        Expression::Negate(a) => {
            lemma_wf_expr_no_new_query(*a, na, nf, col);
        },
    }
}

/// The constants of the expression are all in canonical form.
pub open spec fn expr_constants_wf(e: Expression) -> bool
    decreases e,
{
    match e {
        Expression::Constant(c) => c.wf(),
        Expression::Query(_c, _rot) => true,
        Expression::Sum(a, b) => expr_constants_wf(*a) && expr_constants_wf(*b),
        Expression::Product(a, b) => expr_constants_wf(*a) && expr_constants_wf(*b),
        Expression::Negate(a) => expr_constants_wf(*a),
    }
}

/// Whether every query of the expression addresses a registered column.
fn expr_registered(e: &Expression, num_advice: usize, num_fixed: usize) -> (r: bool)
    requires
        expr_constants_wf(*e),
    ensures
        r == expr_wf(*e, num_advice as int, num_fixed as int),
    decreases *e,
{
    match e {
        Expression::Constant(_) => true,
        Expression::Query(col, _rot) => match col.kind {
            ColKind::Advice => col.index < num_advice,
            ColKind::Fixed => col.index < num_fixed,
        },
        Expression::Sum(a, b) => expr_registered(a, num_advice, num_fixed) && expr_registered(
            b,
            num_advice,
            num_fixed,
        ),
        Expression::Product(a, b) => expr_registered(a, num_advice, num_fixed) && expr_registered(
            b,
            num_advice,
            num_fixed,
        ),
        Expression::Negate(a) => expr_registered(a, num_advice, num_fixed),
    }
}

/// Whether the expression queries the given column anywhere.
fn expr_queries_col(e: &Expression, col: Column) -> (r: bool)
    ensures
        r == expr_queries(*e, col),
    decreases *e,
{
    match e {
        Expression::Constant(_) => false,
        Expression::Query(c, _rot) => c.kind == col.kind && c.index == col.index,
        Expression::Sum(a, b) => expr_queries_col(a, col) || expr_queries_col(b, col),
        Expression::Product(a, b) => expr_queries_col(a, col) || expr_queries_col(b, col),
        Expression::Negate(a) => expr_queries_col(a, col),
    }
}

} // verus!
