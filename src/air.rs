//! The description of a computation: transition constraints as sums of monomials over the
//! two rows of a frame and the periodic values, and assertions on single trace cells.
use crate::constraints::{
    coefficients_wf, cycles_nest, BoundaryConstraint, BoundaryConstraintGroup,
    ConstraintDivisor, TransitionConstraintGroup,
};
use crate::field::{add_mod, all_elems, fadd, fmul, fpow, is_elem, mul_mod};
use crate::trace::EvaluationFrame;
use vstd::prelude::*;

verus! {

/// A variable of a transition constraint.
#[derive(Clone, Copy)]
pub enum Var {
    /// A column of the current row.
    Current(usize),
    /// A column of the next row.
    Next(usize),
    /// A periodic column.
    Periodic(usize),
}

/// `coefficient * product of factors`.
pub struct Term {
    pub coefficient: u64,
    pub factors: Vec<Var>,
}

pub struct TransitionConstraint {
    pub terms: Vec<Term>,
    /// The declared degree of the constraint in the trace columns.
    pub degree: usize,
}

/// The assertion that `column` holds `value` at `step` of the trace.
pub struct Assertion {
    pub column: usize,
    pub step: usize,
    pub value: u64,
}

/// The random coefficient pairs drawn from the proof transcript: one stream for transition
/// constraints and one for assertions.
pub struct PublicCoin {
    pub transition_coefficients: Vec<(u64, u64)>,
    pub boundary_coefficients: Vec<(u64, u64)>,
}

pub struct Air {
    pub trace_width: usize,
    pub trace_length: usize,
    /// Generator of the trace domain.
    pub trace_generator: u64,
    /// The degree to which every constraint quotient is raised before merging.
    pub composition_degree: usize,
    pub transition_constraints: Vec<TransitionConstraint>,
    pub assertions: Vec<Assertion>,
    pub periodic_columns: Vec<Vec<u64>>,
}

pub open spec fn var_value(v: Var, current: Seq<u64>, next: Seq<u64>, periodic: Seq<u64>) -> int {
    match v {
        Var::Current(i) => current[i as int] as int,
        Var::Next(i) => next[i as int] as int,
        Var::Periodic(i) => periodic[i as int] as int,
    }
}

pub open spec fn term_prefix(
    t: &Term,
    current: Seq<u64>,
    next: Seq<u64>,
    periodic: Seq<u64>,
    k: int,
) -> int
    decreases k,
{
    if k <= 0 {
        t.coefficient as int
    } else {
        fmul(
            term_prefix(t, current, next, periodic, k - 1),
            var_value(t.factors@[k - 1], current, next, periodic),
        )
    }
}

pub open spec fn term_value(t: &Term, current: Seq<u64>, next: Seq<u64>, periodic: Seq<u64>) -> int {
    term_prefix(t, current, next, periodic, t.factors@.len() as int)
}

pub open spec fn constraint_prefix(
    c: &TransitionConstraint,
    current: Seq<u64>,
    next: Seq<u64>,
    periodic: Seq<u64>,
    k: int,
) -> int
    decreases k,
{
    if k <= 0 {
        0
    } else {
        fadd(
            constraint_prefix(c, current, next, periodic, k - 1),
            term_value(&c.terms@[k - 1], current, next, periodic),
        )
    }
}

/// The value of a transition constraint on a frame and the periodic values.
pub open spec fn constraint_value(
    c: &TransitionConstraint,
    current: Seq<u64>,
    next: Seq<u64>,
    periodic: Seq<u64>,
) -> int {
    constraint_prefix(c, current, next, periodic, c.terms@.len() as int)
}

pub open spec fn var_wf(v: Var, width: nat, num_periodic: nat) -> bool {
    match v {
        Var::Current(i) => i < width,
        Var::Next(i) => i < width,
        Var::Periodic(i) => i < num_periodic,
    }
}

pub open spec fn term_wf(t: &Term, width: nat, num_periodic: nat) -> bool {
    &&& is_elem(t.coefficient)
    &&& forall|k: int| 0 <= k < t.factors@.len() ==> var_wf(#[trigger] t.factors@[k], width, num_periodic)
}

pub open spec fn contains_degree(ds: Seq<usize>, d: usize) -> bool {
    exists|g: int| 0 <= g < ds.len() && #[trigger] ds[g] == d
}

/// Constraint `i` is a member of one of the groups.
pub open spec fn groups_cover(groups: Seq<TransitionConstraintGroup>, i: int) -> bool {
    exists|g: int| 0 <= g < groups.len() && #[trigger] index_listed(groups[g].indexes@, i)
}

pub open spec fn index_listed(s: Seq<usize>, i: int) -> bool {
    exists|k: int| 0 <= k < s.len() && #[trigger] s[k] == i
}

impl Air {
    pub open spec fn constraint_wf(&self, c: &TransitionConstraint) -> bool {
        &&& c.degree >= 1
        &&& c.degree * self.trace_length <= usize::MAX
        &&& (c.degree - 1) * (self.trace_length - 1) <= self.composition_degree
        &&& forall|k: int|
            0 <= k < c.terms@.len() ==> term_wf(
                #[trigger] &c.terms@[k],
                self.trace_width as nat,
                self.periodic_columns@.len(),
            )
    }

    pub open spec fn wf(&self) -> bool {
        &&& self.trace_width >= 1
        &&& self.trace_length >= 2
        &&& is_elem(self.trace_generator)
        &&& self.trace_length - 2 <= self.composition_degree
        &&& forall|i: int|
            0 <= i < self.transition_constraints@.len() ==> self.constraint_wf(
                #[trigger] &self.transition_constraints@[i],
            )
        &&& forall|i: int|
            0 <= i < self.assertions@.len() ==> {
                &&& (#[trigger] self.assertions@[i]).column < self.trace_width
                &&& self.assertions@[i].step < self.trace_length
                &&& is_elem(self.assertions@[i].value)
            }
        &&& cycles_nest(self.periodic_columns@)
        &&& forall|j: int|
            0 <= j < self.periodic_columns@.len() ==> all_elems(
                (#[trigger] self.periodic_columns@[j])@,
            )
    }

    /// The values of all transition constraints on a frame and the periodic values.
    pub open spec fn spec_transition_values(
        &self,
        current: Seq<u64>,
        next: Seq<u64>,
        periodic: Seq<u64>,
    ) -> Seq<u64> {
        Seq::new(
            self.transition_constraints@.len(),
            |i: int|
                constraint_value(&self.transition_constraints@[i], current, next, periodic) as u64,
        )
    }

    /// The degree adjustment of transition constraints of declared degree `d`: the quotient
    /// by the transition divisor has degree `(d - 1) * (n - 1)`.
    pub open spec fn transition_adjustment(&self, d: nat) -> int {
        self.composition_degree - (d - 1) * (self.trace_length - 1)
    }

    /// The degree adjustment of assertion groups: the quotient by `x - g^step` has degree
    /// `n - 2`.
    pub open spec fn boundary_adjustment(&self) -> int {
        self.composition_degree - (self.trace_length - 2)
    }

    pub fn num_transition_constraints(&self) -> (r: usize)
        ensures
            r == self.transition_constraints@.len(),
    {
        self.transition_constraints.len()
    }

    fn evaluate_term(t: &Term, frame: &EvaluationFrame, periodic: &Vec<u64>) -> (r: u64)
        requires
            term_wf(t, frame.current@.len(), periodic@.len()),
            frame.next@.len() == frame.current@.len(),
            all_elems(frame.current@),
            all_elems(frame.next@),
            all_elems(periodic@),
        ensures
            r as int == term_value(t, frame.current@, frame.next@, periodic@),
            is_elem(r),
    {
        let mut r: u64 = t.coefficient;
        let mut k: usize = 0;
        while k < t.factors.len()
            invariant
                term_wf(t, frame.current@.len(), periodic@.len()),
                frame.next@.len() == frame.current@.len(),
                all_elems(frame.current@),
                all_elems(frame.next@),
                all_elems(periodic@),
                k <= t.factors@.len(),
                is_elem(r),
                r as int == term_prefix(t, frame.current@, frame.next@, periodic@, k as int),
            decreases t.factors@.len() - k,
        {
            let v = match t.factors[k] {
                Var::Current(i) => frame.current[i],
                Var::Next(i) => frame.next[i],
                Var::Periodic(i) => periodic[i],
            };
            r = mul_mod(r, v);
            k = k + 1;
        }
        proof {
            if t.factors@.len() == 0 {
                vstd::arithmetic::div_mod::lemma_small_mod(r as nat, crate::field::modulus() as nat);
            }
        }
        r
    }

    /// Evaluates every transition constraint on `frame` and the periodic values, writing
    /// constraint `i`'s value into `result[i]`.
    pub fn evaluate_transition(
        &self,
        frame: &EvaluationFrame,
        periodic: &Vec<u64>,
        result: &mut Vec<u64>,
    )
        requires
            self.wf(),
            frame.current@.len() == self.trace_width,
            frame.next@.len() == self.trace_width,
            all_elems(frame.current@),
            all_elems(frame.next@),
            periodic@.len() == self.periodic_columns@.len(),
            all_elems(periodic@),
            old(result)@.len() == self.transition_constraints@.len(),
        ensures
            final(result)@ == self.spec_transition_values(frame.current@, frame.next@, periodic@),
            all_elems(final(result)@),
    {
        let n = self.transition_constraints.len();
        let mut i: usize = 0;
        while i < n
            invariant
                self.wf(),
                n == self.transition_constraints@.len(),
                frame.current@.len() == self.trace_width,
                frame.next@.len() == self.trace_width,
                all_elems(frame.current@),
                all_elems(frame.next@),
                periodic@.len() == self.periodic_columns@.len(),
                all_elems(periodic@),
                result@.len() == n,
                i <= n,
                forall|k: int| 0 <= k < i ==> #[trigger] result@[k] == self.spec_transition_values(
                    frame.current@, frame.next@, periodic@)[k],
                forall|k: int| 0 <= k < i ==> is_elem(#[trigger] result@[k]),
            decreases n - i,
        {
            let c = &self.transition_constraints[i];
            assert(self.constraint_wf(&self.transition_constraints@[i as int]));
            let mut v: u64 = 0;
            let mut k: usize = 0;
            while k < c.terms.len()
                invariant
                    self.constraint_wf(c),
                    frame.current@.len() == self.trace_width,
                    frame.next@.len() == self.trace_width,
                    all_elems(frame.current@),
                    all_elems(frame.next@),
                    periodic@.len() == self.periodic_columns@.len(),
                    all_elems(periodic@),
                    k <= c.terms@.len(),
                    is_elem(v),
                    v as int == constraint_prefix(c, frame.current@, frame.next@, periodic@, k as int),
                decreases c.terms@.len() - k,
            {
                assert(term_wf(&c.terms@[k as int], self.trace_width as nat, self.periodic_columns@.len()));
                let tv = Self::evaluate_term(&c.terms[k], frame, periodic);
                v = add_mod(v, tv);
                k = k + 1;
            }
            result.set(i, v);
            i = i + 1;
        }
        assert(result@ =~= self.spec_transition_values(frame.current@, frame.next@, periodic@));
    }

    /// The groups are well formed, hold each constraint with its own degree and coefficient
    /// pair, and carry the degree adjustment of their degree.
    pub open spec fn transition_groups_valid(&self, coefficients: Seq<(u64, u64)>, r: Seq<TransitionConstraintGroup>) -> bool {
        &&& forall|g: int|
                0 <= g < r.len() ==> {
                    &&& (#[trigger] r[g]).wf(self.transition_constraints@.len())
                    &&& r[g].degree_adjustment == self.transition_adjustment(r[g].degree as nat)
                    &&& forall|k: int|
                        0 <= k < r[g].indexes@.len() ==> {
                            &&& self.transition_constraints@[(#[trigger] r[g].indexes@[k]) as int].degree
                                == r[g].degree
                            &&& r[g].coefficients@[k] == coefficients[r[g].indexes@[k] as int]
                        }
                }
        &&& forall|i: int| 0 <= i < self.transition_constraints@.len() ==> #[trigger] groups_cover(r, i)
    }

    /// Groups the transition constraints by declared degree, in order of first appearance,
    /// giving constraint `i` the coefficient pair `coefficients[i]`.
    pub fn get_transition_constraints(&self, coefficients: &Vec<(u64, u64)>) -> (r: Vec<
        TransitionConstraintGroup,
    >)
        requires
            self.wf(),
            coefficients@.len() >= self.transition_constraints@.len(),
            coefficients_wf(coefficients@),
        ensures
            self.transition_groups_valid(coefficients@, r@),
    {
        let n = self.transition_constraints.len();
        let ghost tc = self.transition_constraints@;
        let mut degrees: Vec<usize> = Vec::new();
        let mut i: usize = 0;
        while i < n
            invariant
                self.wf(),
                n == tc.len(),
                tc == self.transition_constraints@,
                i <= n,
                forall|j: int| 0 <= j < i ==> contains_degree(degrees@, (#[trigger] tc[j]).degree),
                forall|g: int| 0 <= g < degrees@.len() ==> #[trigger] degrees@[g] >= 1 && (degrees@[g] - 1) * (
                    self.trace_length - 1) <= self.composition_degree,
            decreases n - i,
        {
            let d = self.transition_constraints[i].degree;
            assert(self.constraint_wf(&tc[i as int]));
            let mut found = false;
            let mut g: usize = 0;
            while g < degrees.len()
                invariant
                    g <= degrees@.len(),
                    found ==> exists|h: int| 0 <= h < degrees@.len() && #[trigger] degrees@[h] == d,
                decreases degrees@.len() - g,
            {
                if degrees[g] == d {
                    found = true;
                }
                g = g + 1;
            }
            let ghost before = degrees@;
            if !found {
                degrees.push(d);
                assert(degrees@[degrees@.len() - 1] == d);
            }
            proof {
                assert forall|j: int| 0 <= j <= i implies contains_degree(degrees@, (#[trigger] tc[j]).degree) by {
                    if j < i {
                        let h = choose|h: int| 0 <= h < before.len() && #[trigger] before[h] == tc[j].degree;
                        assert(degrees@[h] == before[h]);
                    }
                }
            }
            i = i + 1;
        }
        let mut groups: Vec<TransitionConstraintGroup> = Vec::new();
        let mut g: usize = 0;
        while g < degrees.len()
            invariant
                self.wf(),
                n == tc.len(),
                tc == self.transition_constraints@,
                coefficients@.len() >= n,
                coefficients_wf(coefficients@),
                g <= degrees@.len(),
                groups@.len() == g,
                forall|j: int| 0 <= j < n ==> contains_degree(degrees@, (#[trigger] tc[j]).degree),
                forall|h: int| 0 <= h < degrees@.len() ==> #[trigger] degrees@[h] >= 1 && (degrees@[h] - 1) * (
                    self.trace_length - 1) <= self.composition_degree,
                forall|h: int|
                    0 <= h < g ==> {
                        &&& (#[trigger] groups@[h]).wf(n as nat)
                        &&& groups@[h].degree == degrees@[h]
                        &&& groups@[h].degree_adjustment == self.transition_adjustment(groups@[h].degree as nat)
                        &&& forall|k: int|
                            0 <= k < groups@[h].indexes@.len() ==> {
                                &&& tc[(#[trigger] groups@[h].indexes@[k]) as int].degree == groups@[h].degree
                                &&& groups@[h].coefficients@[k] == coefficients@[groups@[h].indexes@[k] as int]
                            }
                        &&& forall|j: int|
                            0 <= j < n && tc[j].degree == groups@[h].degree ==> #[trigger] index_listed(
                                groups@[h].indexes@,
                                j,
                            )
                    },
            decreases degrees@.len() - g,
        {
            let d = degrees[g];
            let mut indexes: Vec<usize> = Vec::new();
            let mut coefs: Vec<(u64, u64)> = Vec::new();
            let mut j: usize = 0;
            while j < n
                invariant
                    n == tc.len(),
                    tc == self.transition_constraints@,
                    coefficients@.len() >= n,
                    coefficients_wf(coefficients@),
                    j <= n,
                    indexes@.len() == coefs@.len(),
                    forall|k: int| 0 <= k < indexes@.len() ==> {
                        &&& #[trigger] indexes@[k] < n
                        &&& tc[indexes@[k] as int].degree == d
                        &&& coefs@[k] == coefficients@[indexes@[k] as int]
                    },
                    forall|m: int| 0 <= m < j && tc[m].degree == d ==> #[trigger] index_listed(indexes@, m),
                decreases n - j,
            {
                let ghost before = indexes@;
                if self.transition_constraints[j].degree == d {
                    indexes.push(j);
                    coefs.push(coefficients[j]);
                    assert(indexes@[indexes@.len() - 1] == j);
                }
                proof {
                    assert forall|m: int| 0 <= m <= j && tc[m].degree == d implies #[trigger] index_listed(indexes@, m) by {
                        if m < j {
                            assert(index_listed(before, m));
                            let k = choose|k: int| 0 <= k < before.len() && #[trigger] before[k] == m;
                            assert(indexes@[k] == before[k]);
                        } else {
                            assert(indexes@[indexes@.len() - 1] == j);
                        }
                    }
                }
                j = j + 1;
            }
            let adjustment: usize = self.composition_degree - (d - 1) * (self.trace_length - 1);
            let group = TransitionConstraintGroup {
                degree: d,
                degree_adjustment: adjustment as u64,
                indexes,
                coefficients: coefs,
            };
            assert(coefficients_wf(group.coefficients@)) by {
                assert forall|k: int| 0 <= k < group.coefficients@.len() implies is_elem(
                    #[trigger] group.coefficients@[k].0) && is_elem(group.coefficients@[k].1) by {
                    let idx = group.indexes@[k] as int;
                    assert(group.indexes@[k] == indexes@[k]);
                    assert(idx < n);
                    assert(coefficients@[idx] == group.coefficients@[k]);
                    assert(is_elem(coefficients@[idx].0) && is_elem(coefficients@[idx].1));
                }
            }
            groups.push(group);
            g = g + 1;
        }
        assert forall|i: int| 0 <= i < n implies #[trigger] groups_cover(groups@, i) by {
            let h = choose|h: int| 0 <= h < degrees@.len() && #[trigger] degrees@[h] == tc[i].degree;
            assert(groups@[h].degree == tc[i].degree);
            assert(index_listed(groups@[h].indexes@, i));
        }
        groups
    }

    /// The boundary constraint made from assertion `i` with coefficient pair `c`.
    pub open spec fn boundary_constraint_of(&self, i: int, c: (u64, u64)) -> BoundaryConstraint {
        BoundaryConstraint {
            column: self.assertions@[i].column,
            value: self.assertions@[i].value,
            coefficients: c,
        }
    }

    /// `group` holds the constraint of assertion `i`, and its divisor vanishes at the
    /// assertion's step.
    pub open spec fn group_holds(
        &self,
        group: BoundaryConstraintGroup,
        coefficients: Seq<(u64, u64)>,
        i: int,
    ) -> bool {
        &&& group.divisor.numerator@[0].1 as int == fpow(
            self.trace_generator as int,
            self.assertions@[i].step as nat,
        )
        &&& exists|k: int|
            0 <= k < group.constraints@.len() && #[trigger] group.constraints@[k]
                == self.boundary_constraint_of(i, coefficients[i])
    }

    /// Assertion `i` is held by one of the groups.
    pub open spec fn assertion_grouped(
        &self,
        groups: Seq<BoundaryConstraintGroup>,
        coefficients: Seq<(u64, u64)>,
        i: int,
    ) -> bool {
        exists|g: int| 0 <= g < groups.len() && #[trigger] self.group_holds(groups[g], coefficients, i)
    }

    /// Constraint `c` of `group` comes from some assertion whose step the divisor vanishes at.
    pub open spec fn from_some_assertion(
        &self,
        group: BoundaryConstraintGroup,
        coefficients: Seq<(u64, u64)>,
        c: BoundaryConstraint,
    ) -> bool {
        exists|i: int|
            0 <= i < self.assertions@.len() && c == #[trigger] self.boundary_constraint_of(
                i,
                coefficients[i],
            ) && group.divisor.numerator@[0].1 as int == fpow(
                self.trace_generator as int,
                self.assertions@[i].step as nat,
            )
    }

    /// The groups are well formed, hold each assertion with its coefficient pair, and have
    /// the divisor `x - g^step` of their assertions' step.
    pub open spec fn boundary_groups_valid(&self, coefficients: Seq<(u64, u64)>, r: Seq<BoundaryConstraintGroup>) -> bool {
        &&& forall|g: int|
                0 <= g < r.len() ==> {
                    &&& (#[trigger] r[g]).wf(self.trace_width as nat)
                    &&& r[g].degree_adjustment == self.boundary_adjustment()
                    &&& r[g].divisor.numerator@.len() == 1
                    &&& r[g].divisor.numerator@[0].0 == 1
                    &&& r[g].divisor.exclude@.len() == 0
                    &&& forall|k: int|
                        0 <= k < r[g].constraints@.len() ==> self.from_some_assertion(
                            r[g],
                            coefficients,
                            #[trigger] r[g].constraints@[k],
                        )
                }
        &&& forall|i: int|
                0 <= i < self.assertions@.len() ==> #[trigger] self.assertion_grouped(r, coefficients, i)
    }

    /// Groups the assertions by step, in order of first appearance, giving assertion `i` the
    /// coefficient pair `coefficients[i]`; each group's divisor is `x - g^step`.
    pub fn get_boundary_constraints(&self, coefficients: &Vec<(u64, u64)>) -> (r: Vec<
        BoundaryConstraintGroup,
    >)
        requires
            self.wf(),
            coefficients@.len() >= self.assertions@.len(),
            coefficients_wf(coefficients@),
        ensures
            self.boundary_groups_valid(coefficients@, r@),
    {
        let n = self.assertions.len();
        let ghost asr = self.assertions@;
        let mut steps: Vec<usize> = Vec::new();
        let mut i: usize = 0;
        while i < n
            invariant
                n == asr.len(),
                asr == self.assertions@,
                i <= n,
                forall|j: int| 0 <= j < i ==> contains_degree(steps@, (#[trigger] asr[j]).step),
            decreases n - i,
        {
            let st = self.assertions[i].step;
            let mut found = false;
            let mut g: usize = 0;
            while g < steps.len()
                invariant
                    g <= steps@.len(),
                    found ==> contains_degree(steps@, st),
                decreases steps@.len() - g,
            {
                if steps[g] == st {
                    found = true;
                }
                g = g + 1;
            }
            let ghost before = steps@;
            if !found {
                steps.push(st);
                assert(steps@[steps@.len() - 1] == st);
            }
            proof {
                assert forall|j: int| 0 <= j <= i implies contains_degree(steps@, (#[trigger] asr[j]).step) by {
                    if j < i {
                        let h = choose|h: int| 0 <= h < before.len() && #[trigger] before[h] == asr[j].step;
                        assert(steps@[h] == before[h]);
                    }
                }
            }
            i = i + 1;
        }
        let adjustment: usize = self.composition_degree - (self.trace_length - 2);
        let mut groups: Vec<BoundaryConstraintGroup> = Vec::new();
        let mut g: usize = 0;
        while g < steps.len()
            invariant
                self.wf(),
                n == asr.len(),
                asr == self.assertions@,
                coefficients@.len() >= n,
                coefficients_wf(coefficients@),
                adjustment == self.boundary_adjustment(),
                g <= steps@.len(),
                groups@.len() == g,
                forall|j: int| 0 <= j < n ==> contains_degree(steps@, (#[trigger] asr[j]).step),
                forall|h: int|
                    0 <= h < g ==> {
                        &&& (#[trigger] groups@[h]).wf(self.trace_width as nat)
                        &&& groups@[h].degree_adjustment == self.boundary_adjustment()
                        &&& groups@[h].divisor.numerator@.len() == 1
                        &&& groups@[h].divisor.numerator@[0].0 == 1
                        &&& groups@[h].divisor.numerator@[0].1 as int == fpow(
                            self.trace_generator as int,
                            steps@[h] as nat,
                        )
                        &&& groups@[h].divisor.exclude@.len() == 0
                        &&& forall|k: int|
                            0 <= k < groups@[h].constraints@.len() ==> self.from_some_assertion(
                                groups@[h],
                                coefficients@,
                                #[trigger] groups@[h].constraints@[k],
                            )
                        &&& forall|j: int|
                            0 <= j < n && asr[j].step == steps@[h] ==> #[trigger] self.group_holds(
                                groups@[h],
                                coefficients@,
                                j,
                            )
                    },
            decreases steps@.len() - g,
        {
            let st = steps[g];
            let divisor = ConstraintDivisor::from_assertion(st, self.trace_generator);
            let mut members: Vec<BoundaryConstraint> = Vec::new();
            let mut j: usize = 0;
            while j < n
                invariant
                    self.wf(),
                    n == asr.len(),
                    asr == self.assertions@,
                    coefficients@.len() >= n,
                    coefficients_wf(coefficients@),
                    j <= n,
                    forall|k: int| 0 <= k < members@.len() ==> exists|m: int|
                        0 <= m < j && asr[m].step == st && #[trigger] members@[k]
                            == self.boundary_constraint_of(m, coefficients@[m]),
                    forall|m: int| 0 <= m < j && asr[m].step == st ==> exists|k: int|
                        0 <= k < members@.len() && #[trigger] members@[k]
                            == self.boundary_constraint_of(m, coefficients@[m]),
                decreases n - j,
            {
                let ghost before = members@;
                let a = &self.assertions[j];
                if a.step == st {
                    members.push(BoundaryConstraint {
                        column: a.column,
                        value: a.value,
                        coefficients: coefficients[j],
                    });
                }
                proof {
                    let last = members@.len() - 1;
                    assert forall|k: int| 0 <= k < members@.len() implies exists|m: int|
                        0 <= m <= j && asr[m].step == st && #[trigger] members@[k]
                            == self.boundary_constraint_of(m, coefficients@[m]) by {
                        if k < before.len() {
                            assert(members@[k] == before[k]);
                        } else {
                            assert(members@[k] == self.boundary_constraint_of(j as int, coefficients@[j as int]));
                        }
                    }
                    assert forall|m: int| 0 <= m <= j && asr[m].step == st implies exists|k: int|
                        0 <= k < members@.len() && #[trigger] members@[k]
                            == self.boundary_constraint_of(m, coefficients@[m]) by {
                        if m < j {
                            let k = choose|k: int| 0 <= k < before.len() && #[trigger] before[k]
                                == self.boundary_constraint_of(m, coefficients@[m]);
                            assert(members@[k] == before[k]);
                        } else {
                            assert(members@[last] == self.boundary_constraint_of(m, coefficients@[m]));
                        }
                    }
                }
                j = j + 1;
            }
            let group = BoundaryConstraintGroup {
                degree_adjustment: adjustment as u64,
                divisor,
                constraints: members,
            };
            proof {
                assert forall|k: int| 0 <= k < group.constraints@.len() implies {
                    &&& (#[trigger] group.constraints@[k]).column < self.trace_width
                    &&& is_elem(group.constraints@[k].value)
                    &&& is_elem(group.constraints@[k].coefficients.0)
                    &&& is_elem(group.constraints@[k].coefficients.1)
                } by {
                    let m = choose|m: int| 0 <= m < n && asr[m].step == st && #[trigger] group.constraints@[k]
                        == self.boundary_constraint_of(m, coefficients@[m]);
                    assert(is_elem(coefficients@[m].0));
                    assert(self.assertions@[m].column < self.trace_width);
                }
                assert forall|k: int| 0 <= k < group.constraints@.len() implies self.from_some_assertion(
                    group, coefficients@, #[trigger] group.constraints@[k]) by {
                    let m = choose|m: int| 0 <= m < n && asr[m].step == st && #[trigger] group.constraints@[k]
                        == self.boundary_constraint_of(m, coefficients@[m]);
                    assert(group.constraints@[k] == self.boundary_constraint_of(m, coefficients@[m]));
                }
                assert forall|m: int| 0 <= m < n && asr[m].step == st implies #[trigger] self.group_holds(
                    group, coefficients@, m) by {
                    let k = choose|k: int| 0 <= k < group.constraints@.len() && #[trigger] group.constraints@[k]
                        == self.boundary_constraint_of(m, coefficients@[m]);
                    assert(group.constraints@[k] == self.boundary_constraint_of(m, coefficients@[m]));
                }
            }
            groups.push(group);
            g = g + 1;
        }
        assert forall|i: int| 0 <= i < n implies #[trigger] self.assertion_grouped(groups@, coefficients@, i) by {
            let h = choose|h: int| 0 <= h < steps@.len() && #[trigger] steps@[h] == asr[i].step;
            assert(self.group_holds(groups@[h], coefficients@, i));
        }
        groups
    }
}

} // verus!
