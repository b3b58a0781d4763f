//! Constraint groups, their divisors, and the table of periodic column values.
use crate::field::{
    add_mod, all_elems, exp_mod, fadd, fmul, fpow, fsub, is_elem, mul_mod, sub_mod,
};
use vstd::prelude::*;

verus! {

/// A vanishing polynomial `prod (x^d - c) / prod (x - e)`, held as its numerator terms
/// `(d, c)` and the points `e` it excludes.
pub struct ConstraintDivisor {
    pub numerator: Vec<(usize, u64)>,
    pub exclude: Vec<u64>,
}

impl ConstraintDivisor {
    /// The divisor shared by all transition constraints: `(x^n - 1) / (x - g^(n - 1))` for
    /// a trace of length `n` over a domain with generator `g`.
    pub fn from_transition(trace_length: usize, trace_generator: u64) -> (r: Self)
        requires
            trace_length > 0,
            is_elem(trace_generator),
        ensures
            r.numerator@ == seq![(trace_length, 1u64)],
            r.exclude@.len() == 1,
            r.exclude@[0] as int == fpow(trace_generator as int, (trace_length - 1) as nat),
    {
        let last = exp_mod(trace_generator, (trace_length - 1) as u64);
        let mut numerator: Vec<(usize, u64)> = Vec::new();
        numerator.push((trace_length, 1u64));
        let mut exclude: Vec<u64> = Vec::new();
        exclude.push(last);
        ConstraintDivisor { numerator, exclude }
    }

    /// The divisor `x - g^step` of an assertion placed at `step`.
    pub fn from_assertion(step: usize, trace_generator: u64) -> (r: Self)
        requires
            is_elem(trace_generator),
        ensures
            r.numerator@.len() == 1,
            r.numerator@[0].0 == 1,
            r.numerator@[0].1 as int == fpow(trace_generator as int, step as nat),
            r.exclude@.len() == 0,
    {
        let point = exp_mod(trace_generator, step as u64);
        let mut numerator: Vec<(usize, u64)> = Vec::new();
        numerator.push((1usize, point));
        ConstraintDivisor { numerator, exclude: Vec::new() }
    }

    pub fn copy(&self) -> (r: Self)
        ensures
            r.numerator@ == self.numerator@,
            r.exclude@ == self.exclude@,
    {
        let mut numerator: Vec<(usize, u64)> = Vec::new();
        let mut i: usize = 0;
        while i < self.numerator.len()
            invariant
                i <= self.numerator@.len(),
                numerator@ == self.numerator@.subrange(0, i as int),
            decreases self.numerator@.len() - i,
        {
            numerator.push(self.numerator[i]);
            i = i + 1;
            assert(numerator@ =~= self.numerator@.subrange(0, i as int));
        }
        let mut exclude: Vec<u64> = Vec::new();
        let mut k: usize = 0;
        while k < self.exclude.len()
            invariant
                k <= self.exclude@.len(),
                exclude@ == self.exclude@.subrange(0, k as int),
            decreases self.exclude@.len() - k,
        {
            exclude.push(self.exclude[k]);
            k = k + 1;
            assert(exclude@ =~= self.exclude@.subrange(0, k as int));
        }
        assert(numerator@ =~= self.numerator@);
        assert(exclude@ =~= self.exclude@);
        ConstraintDivisor { numerator, exclude }
    }
}

/// The factor `c0 + c1 * xp` by which a constraint evaluation is scaled before merging.
pub open spec fn adjusted_coefficient(c: (u64, u64), xp: int) -> int {
    fadd(c.0 as int, fmul(c.1 as int, xp))
}

pub open spec fn coefficients_wf(cs: Seq<(u64, u64)>) -> bool {
    forall|i: int| 0 <= i < cs.len() ==> is_elem(#[trigger] cs[i].0) && is_elem(cs[i].1)
}

/// Transition constraints that share a degree, with one random coefficient pair each.
pub struct TransitionConstraintGroup {
    pub degree: usize,
    pub degree_adjustment: u64,
    pub indexes: Vec<usize>,
    pub coefficients: Vec<(u64, u64)>,
}

impl TransitionConstraintGroup {
    pub open spec fn wf(&self, num_constraints: nat) -> bool {
        &&& self.indexes@.len() == self.coefficients@.len()
        &&& forall|k: int| 0 <= k < self.indexes@.len() ==> #[trigger] self.indexes@[k] < num_constraints
        &&& coefficients_wf(self.coefficients@)
    }

    /// Sum over the first `k` members of `evaluations[index] * (c0 + c1 * xp)`.
    pub open spec fn merge_prefix(&self, evaluations: Seq<u64>, xp: int, k: int) -> int
        decreases k,
    {
        if k <= 0 {
            0
        } else {
            fadd(
                self.merge_prefix(evaluations, xp, k - 1),
                fmul(
                    evaluations[self.indexes@[k - 1] as int] as int,
                    adjusted_coefficient(self.coefficients@[k - 1], xp),
                ),
            )
        }
    }

    /// The group's random linear combination of `evaluations` at the domain value `x`.
    pub open spec fn spec_merge(&self, evaluations: Seq<u64>, x: int) -> int {
        self.merge_prefix(
            evaluations,
            fpow(x, self.degree_adjustment as nat),
            self.indexes@.len() as int,
        )
    }

    /// Merges the evaluations of the group's constraints into one value.
    pub fn merge_evaluations(&self, evaluations: &Vec<u64>, x: u64) -> (r: u64)
        requires
            self.wf(evaluations@.len()),
            all_elems(evaluations@),
            is_elem(x),
        ensures
            r as int == self.spec_merge(evaluations@, x as int),
            is_elem(r),
    {
        let xp = exp_mod(x, self.degree_adjustment);
        let mut result: u64 = 0;
        let mut k: usize = 0;
        while k < self.indexes.len()
            invariant
                self.wf(evaluations@.len()),
                all_elems(evaluations@),
                xp as int == fpow(x as int, self.degree_adjustment as nat),
                is_elem(xp),
                k <= self.indexes@.len(),
                is_elem(result),
                result as int == self.merge_prefix(evaluations@, xp as int, k as int),
            decreases self.indexes@.len() - k,
        {
            let c = self.coefficients[k];
            let e = evaluations[self.indexes[k]];
            let factor = add_mod(c.0, mul_mod(c.1, xp));
            result = add_mod(result, mul_mod(e, factor));
            k = k + 1;
        }
        result
    }
}

/// An assertion that a trace column holds `value`, with its random coefficient pair.
pub struct BoundaryConstraint {
    pub column: usize,
    pub value: u64,
    pub coefficients: (u64, u64),
}

/// Boundary constraints that share one divisor and one degree adjustment.
pub struct BoundaryConstraintGroup {
    pub degree_adjustment: u64,
    pub divisor: ConstraintDivisor,
    pub constraints: Vec<BoundaryConstraint>,
}

impl BoundaryConstraintGroup {
    pub open spec fn wf(&self, width: nat) -> bool {
        forall|k: int|
            0 <= k < self.constraints@.len() ==> {
                &&& (#[trigger] self.constraints@[k]).column < width
                &&& is_elem(self.constraints@[k].value)
                &&& is_elem(self.constraints@[k].coefficients.0)
                &&& is_elem(self.constraints@[k].coefficients.1)
            }
    }

    /// Sum over the first `k` constraints of `(state[column] - value) * (c0 + c1 * xp)`.
    pub open spec fn evaluate_prefix(&self, state: Seq<u64>, xp: int, k: int) -> int
        decreases k,
    {
        if k <= 0 {
            0
        } else {
            let c = self.constraints@[k - 1];
            fadd(
                self.evaluate_prefix(state, xp, k - 1),
                fmul(
                    fsub(state[c.column as int] as int, c.value as int),
                    adjusted_coefficient(c.coefficients, xp),
                ),
            )
        }
    }

    /// The group's merged evaluation on `state`, given `xp = x^degree_adjustment`.
    pub open spec fn spec_evaluate(&self, state: Seq<u64>, xp: int) -> int {
        self.evaluate_prefix(state, xp, self.constraints@.len() as int)
    }

    /// Evaluates the group's assertions on a trace row and merges them; `xp` must be the
    /// domain value raised to the group's degree adjustment.
    pub fn evaluate(&self, state: &Vec<u64>, xp: u64) -> (r: u64)
        requires
            self.wf(state@.len()),
            all_elems(state@),
            is_elem(xp),
        ensures
            r as int == self.spec_evaluate(state@, xp as int),
            is_elem(r),
    {
        let mut result: u64 = 0;
        let mut k: usize = 0;
        while k < self.constraints.len()
            invariant
                self.wf(state@.len()),
                all_elems(state@),
                is_elem(xp),
                k <= self.constraints@.len(),
                is_elem(result),
                result as int == self.evaluate_prefix(state@, xp as int, k as int),
            decreases self.constraints@.len() - k,
        {
            let c = &self.constraints[k];
            let diff = sub_mod(state[c.column], c.value);
            let factor = add_mod(c.coefficients.0, mul_mod(c.coefficients.1, xp));
            result = add_mod(result, mul_mod(diff, factor));
            k = k + 1;
        }
        result
    }
}

/// The values of periodic columns, one row per phase of the longest cycle.
pub struct PeriodicValueTable {
    pub rows: Vec<Vec<u64>>,
}

/// Each cycle length divides every longer one, as powers of two do.
pub open spec fn cycles_nest(columns: Seq<Vec<u64>>) -> bool {
    &&& forall|j: int| 0 <= j < columns.len() ==> (#[trigger] columns[j])@.len() > 0
    &&& forall|j: int, k: int|
        0 <= j < columns.len() && 0 <= k < columns.len() && columns[j]@.len()
            <= columns[k]@.len() ==> (#[trigger] columns[k])@.len() % (#[trigger] columns[j])@.len()
            == 0
}

/// The periodic values at `step`: column `j` repeats its values every `len_j` steps.
pub open spec fn periodic_row(columns: Seq<Vec<u64>>, step: int) -> Seq<u64> {
    Seq::new(columns.len(), |j: int| columns[j]@[step % (columns[j]@.len() as int)])
}

impl PeriodicValueTable {
    pub open spec fn spec_get_row(&self, step: int) -> Seq<u64> {
        self.rows@[step % (self.rows@.len() as int)]@
    }

    /// The table holds the periodic values of `columns` at every step.
    pub open spec fn represents(&self, columns: Seq<Vec<u64>>) -> bool {
        &&& self.rows@.len() > 0
        &&& forall|step: int| step >= 0 ==> #[trigger] self.spec_get_row(step) == periodic_row(columns, step)
    }

    /// Builds the table: its length is the longest cycle, or one without periodic columns.
    pub fn new(columns: &Vec<Vec<u64>>) -> (r: Self)
        requires
            cycles_nest(columns@),
        ensures
            r.represents(columns@),
    {
        let ncols = columns.len();
        let mut len: usize = 1;
        let mut j: usize = 0;
        while j < ncols
            invariant
                ncols == columns@.len(),
                cycles_nest(columns@),
                j <= ncols,
                len >= 1,
                forall|i: int| 0 <= i < j ==> (len as nat) % (#[trigger] columns@[i])@.len() == 0,
                j == 0 ==> len == 1,
                j > 0 ==> exists|i: int| 0 <= i < j && len == (#[trigger] columns@[i])@.len(),
                j > 0 ==> forall|i: int| 0 <= i < j ==> (#[trigger] columns@[i])@.len() <= len,
            decreases ncols - j,
        {
            let l = columns[j].len();
            if j == 0 || l > len {
                proof {
                    assert forall|i: int| 0 <= i < j implies (l as nat) % (#[trigger] columns@[i])@.len() == 0 by {
                        assert(columns@[i]@.len() <= columns@[j as int]@.len());
                    }
                }
                len = l;
            } else {
                proof {
                    let i0 = choose|i: int| 0 <= i < j && len == (#[trigger] columns@[i])@.len();
                    assert(columns@[j as int]@.len() <= columns@[i0]@.len());
                }
            }
            j = j + 1;
        }
        let mut rows: Vec<Vec<u64>> = Vec::new();
        let mut s: usize = 0;
        while s < len
            invariant
                ncols == columns@.len(),
                cycles_nest(columns@),
                len >= 1,
                forall|i: int| 0 <= i < ncols ==> (len as nat) % (#[trigger] columns@[i])@.len() == 0,
                s <= len,
                rows@.len() == s,
                forall|t: int| 0 <= t < s ==> (#[trigger] rows@[t])@ == periodic_row(columns@, t),
            decreases len - s,
        {
            let mut row: Vec<u64> = Vec::new();
            let mut c: usize = 0;
            while c < ncols
                invariant
                    ncols == columns@.len(),
                    cycles_nest(columns@),
                    s < len,
                    c <= ncols,
                    row@.len() == c,
                    forall|i: int| 0 <= i < c ==> #[trigger] row@[i] == periodic_row(columns@, s as int)[i],
                decreases ncols - c,
            {
                let col = &columns[c];
                row.push(col[s % col.len()]);
                c = c + 1;
            }
            assert(row@ =~= periodic_row(columns@, s as int));
            rows.push(row);
            s = s + 1;
        }
        let r = PeriodicValueTable { rows };
        assert forall|step: int| step >= 0 implies #[trigger] r.spec_get_row(step) == periodic_row(columns@, step) by {
            let t = step % (len as int);
            assert forall|i: int| 0 <= i < ncols implies
                t % (columns@[i]@.len() as int) == step % (#[trigger] columns@[i]@.len() as int) by {
                let li = columns@[i]@.len() as int;
                let q = len as int / li;
                assert(len as int == li * q) by {
                    vstd::arithmetic::div_mod::lemma_fundamental_div_mod(len as int, li);
                }
                assert(q > 0) by (nonlinear_arith)
                    requires
                        len as int == li * q,
                        len >= 1,
                        li > 0,
                ;
                vstd::arithmetic::div_mod::lemma_mod_mod(step, li, q);
            }
            assert(r.spec_get_row(step) =~= periodic_row(columns@, step));
        }
        r
    }

    /// The periodic values at the evaluation step `step`.
    pub fn get_row(&self, step: usize) -> (r: &Vec<u64>)
        requires
            self.rows@.len() > 0,
        ensures
            r@ == self.spec_get_row(step as int),
    {
        &self.rows[step % self.rows.len()]
    }
}

} // verus!
