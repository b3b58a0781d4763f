//! The constraint evaluator: builds constraint groups and divisors from an AIR and the
//! drawn coefficients, then evaluates and merges all constraints at every step of the
//! constraint evaluation domain.
use crate::air::{constraint_value, Air, PublicCoin};
use crate::constraints::{
    coefficients_wf, BoundaryConstraintGroup, ConstraintDivisor, PeriodicValueTable,
    TransitionConstraintGroup, periodic_row,
};
use crate::domain::StarkDomain;
use crate::field::{add_mod, all_elems, exp_mod, fadd, fpow, is_elem};
use crate::table::{
    fragment_end, fragment_start, lemma_fragments_partition, observed_degree, rows_shaped,
    ConstraintEvaluationTable, EvaluationError, Fragment,
};
use crate::trace::{EvaluationFrame, TraceTable};
use vstd::prelude::*;

verus! {

/// Below this many steps of the constraint evaluation domain, concurrent evaluation is
/// not worth its overhead.
pub const MIN_CONCURRENT_DOMAIN_SIZE: usize = 8192;

pub struct EvaluatorConfig {
    /// Record raw transition evaluations and check their degrees after evaluation.
    pub verify_degrees: bool,
    /// Split the table into fragments for concurrent filling.
    pub concurrent: bool,
    /// The smallest constraint evaluation domain that is filled concurrently.
    pub min_concurrent_domain_size: usize,
}

impl EvaluatorConfig {
    pub fn new(verify_degrees: bool, concurrent: bool) -> (r: Self)
        ensures
            r.verify_degrees == verify_degrees,
            r.concurrent == concurrent,
            r.min_concurrent_domain_size == MIN_CONCURRENT_DOMAIN_SIZE,
    {
        EvaluatorConfig { verify_degrees, concurrent, min_concurrent_domain_size: MIN_CONCURRENT_DOMAIN_SIZE }
    }
}

/// The divisors are the same polynomials, position by position.
pub open spec fn same_divisors(a: Seq<ConstraintDivisor>, b: Seq<ConstraintDivisor>) -> bool {
    &&& a.len() == b.len()
    &&& forall|k: int|
        0 <= k < a.len() ==> (#[trigger] a[k]).numerator@ == b[k].numerator@ && a[k].exclude@
            == b[k].exclude@
}

fn copy_divisors(divisors: &Vec<ConstraintDivisor>) -> (r: Vec<ConstraintDivisor>)
    ensures
        same_divisors(r@, divisors@),
{
    let mut r: Vec<ConstraintDivisor> = Vec::new();
    let mut k: usize = 0;
    while k < divisors.len()
        invariant
            k <= divisors@.len(),
            r@.len() == k,
            forall|i: int| 0 <= i < k ==> (#[trigger] r@[i]).numerator@ == divisors@[i].numerator@
                && r@[i].exclude@ == divisors@[i].exclude@,
        decreases divisors@.len() - k,
    {
        r.push(divisors[k].copy());
        k = k + 1;
    }
    r
}

/// Sum of the merged values of the first `k` groups.
pub open spec fn merge_groups(groups: Seq<TransitionConstraintGroup>, evaluations: Seq<u64>, x: int, k: int) -> int
    decreases k,
{
    if k <= 0 {
        0
    } else {
        fadd(merge_groups(groups, evaluations, x, k - 1), groups[k - 1].spec_merge(evaluations, x))
    }
}

pub open spec fn is_power_of_two(n: int) -> bool
    decreases n,
{
    if n <= 0 {
        false
    } else if n == 1 {
        true
    } else {
        n % 2 == 0 && is_power_of_two(n / 2)
    }
}

/// The smallest power of two that is at least `threads` (and at least one), unless that
/// does not fit in `usize`.
pub fn num_fragments(threads: usize) -> (r: usize)
    ensures
        r >= 1,
        is_power_of_two(r as int),
        r >= threads || r > usize::MAX / 2,
        r == 1 || r / 2 < threads,
{
    let mut p: usize = 1;
    while p < threads && p <= usize::MAX / 2
        invariant
            p >= 1,
            is_power_of_two(p as int),
            p == 1 || p / 2 < threads,
        decreases usize::MAX - p,
    {
        let ghost q = p as int;
        p = p * 2;
        assert((p as int) / 2 == q);
        assert((p as int) % 2 == 0);
        assert(is_power_of_two(p as int));
    }
    p
}

/// Relies on rayon::current_num_threads: the number of threads of the current thread pool,
/// which only sets how many fragments the table is split into.
#[verifier::external_body]
fn current_num_threads() -> (r: usize) {
    rayon::current_num_threads()
}

/// The number of fragments to split the table into: the number of threads of the current
/// thread pool, rounded up to a power of two.
pub fn concurrent_fragment_count() -> (r: usize)
    ensures
        r >= 1,
        is_power_of_two(r as int),
{
    num_fragments(current_num_threads())
}

pub struct ConstraintEvaluator {
    pub air: Air,
    pub boundary_constraints: Vec<BoundaryConstraintGroup>,
    pub transition_constraints: Vec<TransitionConstraintGroup>,
    pub periodic_values: PeriodicValueTable,
    pub divisors: Vec<ConstraintDivisor>,
    /// Expected degree of each transition constraint's evaluations; empty unless degrees
    /// are verified.
    pub transition_constraint_degrees: Vec<usize>,
    pub config: EvaluatorConfig,
}

impl ConstraintEvaluator {
    pub open spec fn wf(&self) -> bool {
        &&& self.air.wf()
        &&& forall|g: int|
            0 <= g < self.transition_constraints@.len() ==> (#[trigger] self.transition_constraints@[g]).wf(
                self.air.transition_constraints@.len(),
            )
        &&& forall|g: int|
            0 <= g < self.boundary_constraints@.len() ==> (#[trigger] self.boundary_constraints@[g]).wf(
                self.air.trace_width as nat,
            )
        &&& self.periodic_values.represents(self.air.periodic_columns@)
        &&& self.divisors@.len() == 1 + self.boundary_constraints@.len()
        &&& self.transition_constraint_degrees@.len() == self.spec_num_degrees()
        &&& forall|j: int|
            0 <= j < self.transition_constraint_degrees@.len() ==> #[trigger] self.transition_constraint_degrees@[j]
                == self.expected_degree(j)
    }

    pub open spec fn spec_num_degrees(&self) -> nat {
        if self.config.verify_degrees {
            self.air.transition_constraints@.len()
        } else {
            0
        }
    }

    /// The expected degree of constraint `j`'s evaluations over the evaluation domain.
    pub open spec fn expected_degree(&self, j: int) -> int {
        self.air.transition_constraints@[j].degree * (self.air.trace_length - 1)
    }

    /// The raw transition constraint values at the CE step `step`.
    #[verifier::opaque]
    pub open spec fn spec_t_values(&self, trace: &TraceTable, domain: &StarkDomain, step: int) -> Seq<u64> {
        let lde_step = domain.spec_lde_step(step);
        self.air.spec_transition_values(
            trace.row(lde_step),
            trace.row(trace.next_step(lde_step)),
            periodic_row(self.air.periodic_columns@, step),
        )
    }

    /// The merged transition value at `step`.
    pub open spec fn spec_transition_value(&self, trace: &TraceTable, domain: &StarkDomain, step: int) -> int {
        merge_groups(
            self.transition_constraints@,
            self.spec_t_values(trace, domain, step),
            domain.spec_x(step),
            self.transition_constraints@.len() as int,
        )
    }

    /// The merged value of boundary group `g` at `step`, with `x^degree_adjustment`
    /// computed for that group alone.
    pub open spec fn spec_boundary_value(&self, trace: &TraceTable, domain: &StarkDomain, step: int, g: int) -> int {
        let group = self.boundary_constraints@[g];
        group.spec_evaluate(
            trace.row(domain.spec_lde_step(step)),
            fpow(domain.spec_x(step), group.degree_adjustment as nat),
        )
    }

    /// The row of the evaluation table at `step`: the merged transition value, then one
    /// value per boundary group.
    #[verifier::opaque]
    pub open spec fn spec_row(&self, trace: &TraceTable, domain: &StarkDomain, step: int) -> Seq<u64> {
        Seq::new(
            1 + self.boundary_constraints@.len(),
            |c: int|
                if c == 0 {
                    self.spec_transition_value(trace, domain, step) as u64
                } else {
                    self.spec_boundary_value(trace, domain, step, c - 1) as u64
                },
        )
    }

    /// The trace and domain fit the evaluator and each other, lengths aside.
    pub open spec fn inputs_wf(&self, trace: &TraceTable, domain: &StarkDomain) -> bool {
        &&& trace.wf()
        &&& domain.wf()
        &&& trace.spec_width() == self.air.trace_width
    }

    /// Whether the table is split into fragments.
    pub fn uses_concurrency(&self, ce_domain_size: usize) -> (r: bool)
        ensures
            r == (self.config.concurrent && ce_domain_size >= self.config.min_concurrent_domain_size),
    {
        self.config.concurrent && ce_domain_size >= self.config.min_concurrent_domain_size
    }

    /// Evaluates all transition constraints on `frame` at the CE step `step`, leaves their
    /// raw values in `evaluations`, and returns their merged value at the domain value `x`.
    fn evaluate_transition_constraints(
        &self,
        frame: &EvaluationFrame,
        x: u64,
        step: usize,
        evaluations: &mut Vec<u64>,
    ) -> (r: u64)
        requires
            self.wf(),
            frame.current@.len() == self.air.trace_width,
            frame.next@.len() == self.air.trace_width,
            all_elems(frame.current@),
            all_elems(frame.next@),
            is_elem(x),
            old(evaluations)@.len() == self.air.transition_constraints@.len(),
        ensures
            final(evaluations)@ == self.air.spec_transition_values(
                frame.current@,
                frame.next@,
                periodic_row(self.air.periodic_columns@, step as int),
            ),
            all_elems(final(evaluations)@),
            r as int == merge_groups(
                self.transition_constraints@,
                final(evaluations)@,
                x as int,
                self.transition_constraints@.len() as int,
            ),
            is_elem(r),
    {
        let periodic = self.periodic_values.get_row(step);
        proof {
            assert(self.periodic_values.spec_get_row(step as int) == periodic_row(
                self.air.periodic_columns@,
                step as int,
            ));
            assert forall|j: int| 0 <= j < periodic@.len() implies is_elem(#[trigger] periodic@[j]) by {
                let col = self.air.periodic_columns@[j]@;
                assert(all_elems(col));
                assert(col.len() > 0);
                assert(0 <= (step as int) % (col.len() as int) < col.len());
            }
        }
        self.air.evaluate_transition(frame, periodic, evaluations);
        let mut result: u64 = 0;
        let mut g: usize = 0;
        while g < self.transition_constraints.len()
            invariant
                self.wf(),
                all_elems(evaluations@),
                evaluations@.len() == self.air.transition_constraints@.len(),
                is_elem(x),
                g <= self.transition_constraints@.len(),
                is_elem(result),
                result as int == merge_groups(self.transition_constraints@, evaluations@, x as int, g as int),
            decreases self.transition_constraints@.len() - g,
        {
            let v = self.transition_constraints[g].merge_evaluations(evaluations, x);
            result = add_mod(result, v);
            g = g + 1;
        }
        result
    }

    /// Evaluates every boundary group on the trace row `state` at the domain value `x`,
    /// writing group `g`'s value into `result[g + 1]`. `x^degree_adjustment` is computed
    /// again only where a group's adjustment differs from the previous group's; each value
    /// equals the one computed with the group's own power of `x`.
    fn evaluate_boundary_constraints(&self, state: &Vec<u64>, x: u64, result: &mut Vec<u64>)
        requires
            self.wf(),
            state@.len() == self.air.trace_width,
            all_elems(state@),
            is_elem(x),
            old(result)@.len() == 1 + self.boundary_constraints@.len(),
        ensures
            final(result)@.len() == old(result)@.len(),
            final(result)@[0] == old(result)@[0],
            forall|g: int|
                0 <= g < self.boundary_constraints@.len() ==> #[trigger] final(result)@[g + 1] as int
                    == self.boundary_constraints@[g].spec_evaluate(
                    state@,
                    fpow(x as int, self.boundary_constraints@[g].degree_adjustment as nat),
                ),
            forall|g: int| 0 <= g < final(result)@.len() ==> is_elem(#[trigger] final(result)@[g]) || g == 0,
    {
        let ghost r0 = result@;
        let mut degree_adjustment: u64 = 0;
        let mut xp: u64 = 1;
        let mut g: usize = 0;
        while g < self.boundary_constraints.len()
            invariant
                self.wf(),
                state@.len() == self.air.trace_width,
                all_elems(state@),
                is_elem(x),
                g <= self.boundary_constraints@.len(),
                result@.len() == r0.len(),
                r0.len() == 1 + self.boundary_constraints@.len(),
                result@[0] == r0[0],
                is_elem(xp),
                xp as int == fpow(x as int, degree_adjustment as nat),
                forall|h: int|
                    0 <= h < g ==> #[trigger] result@[h + 1] as int == self.boundary_constraints@[h].spec_evaluate(
                        state@,
                        fpow(x as int, self.boundary_constraints@[h].degree_adjustment as nat),
                    ),
                forall|h: int| 1 <= h < g + 1 ==> is_elem(#[trigger] result@[h]),
            decreases self.boundary_constraints@.len() - g,
        {
            let group = &self.boundary_constraints[g];
            if group.degree_adjustment != degree_adjustment {
                degree_adjustment = group.degree_adjustment;
                xp = exp_mod(x, degree_adjustment);
            }
            let v = group.evaluate(state, xp);
            result.set(g + 1, v);
            g = g + 1;
        }
    }

    /// Evaluates the row of CE step `step` into `evaluations`, leaving the raw transition
    /// values in `t_evaluations`; `frame` is reused as a buffer.
    fn evaluate_step(
        &self,
        trace: &TraceTable,
        domain: &StarkDomain,
        step: usize,
        frame: &mut EvaluationFrame,
        evaluations: &mut Vec<u64>,
        t_evaluations: &mut Vec<u64>,
    )
        requires
            self.wf(),
            self.inputs_wf(trace, domain),
            trace.spec_len() == domain.lde_domain_size,
            step < domain.ce_domain_size,
            old(frame).current@.len() == self.air.trace_width,
            old(frame).next@.len() == self.air.trace_width,
            old(evaluations)@.len() == self.divisors@.len(),
            old(t_evaluations)@.len() == self.air.transition_constraints@.len(),
        ensures
            final(frame).current@.len() == self.air.trace_width,
            final(frame).next@.len() == self.air.trace_width,
            final(evaluations)@ == self.spec_row(trace, domain, step as int),
            final(t_evaluations)@ == self.spec_t_values(trace, domain, step as int),
            final(evaluations)@.len() == self.divisors@.len(),
            final(t_evaluations)@.len() == self.air.transition_constraints@.len(),
    {
        reveal(ConstraintEvaluator::spec_row);
        reveal(ConstraintEvaluator::spec_t_values);
        let (lde_step, x) = domain.ce_step_to_lde_info(step);
        trace.read_frame_into(lde_step, frame);
        let t = self.evaluate_transition_constraints(frame, x, step, t_evaluations);
        evaluations.set(0, t);
        self.evaluate_boundary_constraints(&frame.current, x, evaluations);
        proof {
            let row = self.spec_row(trace, domain, step as int);
            assert(frame.current@ == trace.row(lde_step as int));
            assert(evaluations@[0] == row[0]);
            assert forall|c: int| 1 <= c < evaluations@.len() implies #[trigger] evaluations@[c] == row[c] by {
                let g = c - 1;
                let v = self.spec_boundary_value(trace, domain, step as int, g);
                assert(evaluations@[g + 1] as int == v);
            }
            assert(evaluations@ =~= row);
        }
    }

    /// Fills every row of `table` in one thread, in order of steps.
    pub fn evaluate_sequential(
        &self,
        trace: &TraceTable,
        domain: &StarkDomain,
        table: &mut ConstraintEvaluationTable,
    )
        requires
            self.wf(),
            self.inputs_wf(trace, domain),
            trace.spec_len() == domain.lde_domain_size,
            old(table).wf(),
            old(table).evaluations@.len() == domain.ce_domain_size,
            old(table).divisors@.len() == self.divisors@.len(),
            old(table).expected_degrees@.len() == self.spec_num_degrees(),
        ensures
            final(table).wf(),
            final(table).divisors@ == old(table).divisors@,
            final(table).expected_degrees@ == old(table).expected_degrees@,
            final(table).evaluations@.len() == old(table).evaluations@.len(),
            forall|step: int|
                0 <= step < domain.ce_domain_size ==> #[trigger] final(table).evaluations@[step]@
                    == self.spec_row(trace, domain, step),
            self.config.verify_degrees ==> forall|step: int|
                0 <= step < domain.ce_domain_size ==> #[trigger] final(table).t_evaluations@[step]@
                    == self.spec_t_values(trace, domain, step),
    {
        let mut frame = EvaluationFrame::new(trace.width());
        let mut evaluations: Vec<u64> = vec![0u64; table.num_columns()];
        let mut t_evaluations: Vec<u64> = vec![0u64; self.air.num_transition_constraints()];
        let n = table.num_rows();
        let mut step: usize = 0;
        while step < n
            invariant
                self.wf(),
                self.inputs_wf(trace, domain),
                trace.spec_len() == domain.lde_domain_size,
                n == domain.ce_domain_size,
                table.wf(),
                table.evaluations@.len() == n,
                table.divisors@ == old(table).divisors@,
                table.expected_degrees@ == old(table).expected_degrees@,
                table.divisors@.len() == self.divisors@.len(),
                table.expected_degrees@.len() == self.spec_num_degrees(),
                frame.current@.len() == self.air.trace_width,
                frame.next@.len() == self.air.trace_width,
                evaluations@.len() == self.divisors@.len(),
                t_evaluations@.len() == self.air.transition_constraints@.len(),
                step <= n,
                forall|s: int| 0 <= s < step ==> #[trigger] table.evaluations@[s]@ == self.spec_row(trace, domain, s),
                self.config.verify_degrees ==> forall|s: int|
                    0 <= s < step ==> #[trigger] table.t_evaluations@[s]@ == self.spec_t_values(trace, domain, s),
            decreases n - step,
        {
            self.evaluate_step(trace, domain, step, &mut frame, &mut evaluations, &mut t_evaluations);
            if self.config.verify_degrees {
                table.update_transition_evaluations(step, &t_evaluations);
            }
            table.update_row(step, &evaluations);
            step = step + 1;
        }
    }

    /// Fills the rows of one fragment: its row `i` is the table's row `offset + i`.
    pub fn evaluate_fragment(&self, trace: &TraceTable, domain: &StarkDomain, fragment: &mut Fragment)
        requires
            self.wf(),
            self.inputs_wf(trace, domain),
            trace.spec_len() == domain.lde_domain_size,
            old(fragment).offset + old(fragment).evaluations@.len() <= domain.ce_domain_size,
            rows_shaped(old(fragment).evaluations@, old(fragment).evaluations@.len(), self.divisors@.len()),
            rows_shaped(old(fragment).t_evaluations@, old(fragment).evaluations@.len(), self.spec_num_degrees()),
        ensures
            final(fragment).offset == old(fragment).offset,
            rows_shaped(final(fragment).evaluations@, old(fragment).evaluations@.len(), self.divisors@.len()),
            rows_shaped(final(fragment).t_evaluations@, old(fragment).evaluations@.len(), self.spec_num_degrees()),
            forall|i: int|
                0 <= i < old(fragment).evaluations@.len() ==> #[trigger] final(fragment).evaluations@[i]@
                    == self.spec_row(trace, domain, old(fragment).offset + i),
            self.config.verify_degrees ==> forall|i: int|
                0 <= i < old(fragment).evaluations@.len() ==> #[trigger] final(fragment).t_evaluations@[i]@
                    == self.spec_t_values(trace, domain, old(fragment).offset + i),
    {
        let mut frame = EvaluationFrame::new(trace.width());
        let mut evaluations: Vec<u64> = vec![0u64; self.divisors.len()];
        let mut t_evaluations: Vec<u64> = vec![0u64; self.air.num_transition_constraints()];
        let n = fragment.num_rows();
        let offset = fragment.offset();
        let ghost ndeg = self.spec_num_degrees();
        let mut i: usize = 0;
        while i < n
            invariant
                self.wf(),
                self.inputs_wf(trace, domain),
                trace.spec_len() == domain.lde_domain_size,
                offset == fragment.offset,
                offset + n <= domain.ce_domain_size,
                rows_shaped(fragment.evaluations@, n as nat, self.divisors@.len()),
                rows_shaped(fragment.t_evaluations@, n as nat, ndeg),
                ndeg == self.spec_num_degrees(),
                frame.current@.len() == self.air.trace_width,
                frame.next@.len() == self.air.trace_width,
                evaluations@.len() == self.divisors@.len(),
                t_evaluations@.len() == self.air.transition_constraints@.len(),
                i <= n,
                forall|k: int| 0 <= k < i ==> #[trigger] fragment.evaluations@[k]@ == self.spec_row(trace, domain, offset + k),
                self.config.verify_degrees ==> forall|k: int|
                    0 <= k < i ==> #[trigger] fragment.t_evaluations@[k]@ == self.spec_t_values(trace, domain, offset + k),
            decreases n - i,
        {
            let step = i + offset;
            self.evaluate_step(trace, domain, step, &mut frame, &mut evaluations, &mut t_evaluations);
            if self.config.verify_degrees {
                fragment.update_transition_evaluations(i, &t_evaluations);
            }
            fragment.update_row(i, &evaluations);
            i = i + 1;
        }
    }

    /// Builds the evaluator: groups the constraints with coefficients drawn from the coin's
    /// two streams, builds the periodic value table, and lists the divisors: the transition
    /// divisor first, then one per boundary group in group order.
    pub fn new(air: Air, coin: &PublicCoin, config: EvaluatorConfig) -> (r: Self)
        requires
            air.wf(),
            coin.transition_coefficients@.len() >= air.transition_constraints@.len(),
            coefficients_wf(coin.transition_coefficients@),
            coin.boundary_coefficients@.len() >= air.assertions@.len(),
            coefficients_wf(coin.boundary_coefficients@),
        ensures
            r.wf(),
            r.air == air,
            r.config == config,
            air.transition_groups_valid(coin.transition_coefficients@, r.transition_constraints@),
            air.boundary_groups_valid(coin.boundary_coefficients@, r.boundary_constraints@),
            r.divisors@[0].numerator@ == seq![(air.trace_length, 1u64)],
            r.divisors@[0].exclude@.len() == 1,
            r.divisors@[0].exclude@[0] as int == fpow(air.trace_generator as int, (air.trace_length - 1) as nat),
            forall|k: int|
                0 <= k < r.boundary_constraints@.len() ==> (#[trigger] r.divisors@[k + 1]).numerator@
                    == r.boundary_constraints@[k].divisor.numerator@ && r.divisors@[k + 1].exclude@
                    == r.boundary_constraints@[k].divisor.exclude@,
            forall|j: int|
                0 <= j < r.transition_constraint_degrees@.len() ==> #[trigger] r.transition_constraint_degrees@[j]
                    == r.expected_degree(j),
    {
        let n = air.transition_constraints.len();
        let mut degrees: Vec<usize> = Vec::new();
        if config.verify_degrees {
            let mut j: usize = 0;
            while j < n
                invariant
                    air.wf(),
                    n == air.transition_constraints@.len(),
                    j <= n,
                    degrees@.len() == j,
                    forall|i: int| 0 <= i < j ==> #[trigger] degrees@[i] == air.transition_constraints@[i].degree * (
                        air.trace_length - 1),
                decreases n - j,
            {
                let d = air.transition_constraints[j].degree;
                assert(air.constraint_wf(&air.transition_constraints@[j as int]));
                assert(d * (air.trace_length - 1) <= d * air.trace_length) by (nonlinear_arith);
                degrees.push(d * (air.trace_length - 1));
                j = j + 1;
            }
        }
        let transition_constraints = air.get_transition_constraints(&coin.transition_coefficients);
        let periodic_values = PeriodicValueTable::new(&air.periodic_columns);
        let mut divisors: Vec<ConstraintDivisor> = Vec::new();
        divisors.push(ConstraintDivisor::from_transition(air.trace_length, air.trace_generator));
        let boundary_constraints = air.get_boundary_constraints(&coin.boundary_coefficients);
        let mut k: usize = 0;
        while k < boundary_constraints.len()
            invariant
                k <= boundary_constraints@.len(),
                divisors@.len() == k + 1,
                divisors@[0].numerator@ == seq![(air.trace_length, 1u64)],
                divisors@[0].exclude@.len() == 1,
                divisors@[0].exclude@[0] as int == fpow(air.trace_generator as int, (air.trace_length - 1) as nat),
                forall|h: int|
                    0 <= h < k ==> (#[trigger] divisors@[h + 1]).numerator@ == boundary_constraints@[h].divisor.numerator@
                        && divisors@[h + 1].exclude@ == boundary_constraints@[h].divisor.exclude@,
            decreases boundary_constraints@.len() - k,
        {
            divisors.push(boundary_constraints[k].divisor.copy());
            k = k + 1;
        }
        ConstraintEvaluator {
            air,
            boundary_constraints,
            transition_constraints,
            periodic_values,
            divisors,
            transition_constraint_degrees: degrees,
            config,
        }
    }

    /// The inverse of the constraint evaluation domain's generator `g^(lde / ce)`.
    pub open spec fn ce_generator_inv(domain: &StarkDomain) -> int {
        fpow(
            domain.lde_generator as int,
            (domain.lde_domain_size - domain.lde_domain_size / domain.ce_domain_size) as nat,
        )
    }

    /// The values of transition constraint `j` over the whole evaluation domain.
    pub open spec fn spec_t_column(&self, trace: &TraceTable, domain: &StarkDomain, j: int) -> Seq<u64> {
        Seq::new(domain.ce_domain_size as nat, |s: int| self.spec_t_values(trace, domain, s)[j])
    }

    /// Each transition constraint's evaluations have their expected degree, or degrees are
    /// not checked.
    pub open spec fn degrees_match(&self, trace: &TraceTable, domain: &StarkDomain) -> bool {
        self.config.verify_degrees ==> forall|j: int|
            0 <= j < self.air.transition_constraints@.len() ==> #[trigger] self.expected_degree(j)
                == observed_degree(self.spec_t_column(trace, domain, j), Self::ce_generator_inv(domain))
    }

    pub proof fn lemma_t_values_elems(&self, trace: &TraceTable, domain: &StarkDomain, step: int)
        ensures
            all_elems(self.spec_t_values(trace, domain, step)),
    {
        reveal(ConstraintEvaluator::spec_t_values);
        let v = self.spec_t_values(trace, domain, step);
        assert forall|i: int| 0 <= i < v.len() implies is_elem(#[trigger] v[i]) by {
            let c = &self.air.transition_constraints@[i];
            let lde_step = domain.spec_lde_step(step);
            let cv = constraint_value(
                c,
                trace.row(lde_step),
                trace.row(trace.next_step(lde_step)),
                periodic_row(self.air.periodic_columns@, step),
            );
            assert(0 <= cv < crate::field::modulus());
        }
    }

    /// Fills `fragment` and writes it back into `table`.
    fn fill_fragment(
        &self,
        trace: &TraceTable,
        domain: &StarkDomain,
        table: &mut ConstraintEvaluationTable,
        fragment: Fragment,
    )
        requires
            self.wf(),
            self.inputs_wf(trace, domain),
            trace.spec_len() == domain.lde_domain_size,
            old(table).wf(),
            old(table).evaluations@.len() == domain.ce_domain_size,
            old(table).divisors@.len() == self.divisors@.len(),
            old(table).expected_degrees@.len() == self.spec_num_degrees(),
            fragment.offset + fragment.evaluations@.len() <= domain.ce_domain_size,
            rows_shaped(fragment.evaluations@, fragment.evaluations@.len(), self.divisors@.len()),
            rows_shaped(fragment.t_evaluations@, fragment.evaluations@.len(), self.spec_num_degrees()),
        ensures
            final(table).wf(),
            final(table).divisors@ == old(table).divisors@,
            final(table).expected_degrees@ == old(table).expected_degrees@,
            final(table).evaluations@.len() == old(table).evaluations@.len(),
            forall|s: int|
                0 <= s < domain.ce_domain_size ==> #[trigger] final(table).evaluations@[s]@ == if fragment.offset <= s
                    < fragment.offset + fragment.evaluations@.len() {
                    self.spec_row(trace, domain, s)
                } else {
                    old(table).evaluations@[s]@
                },
            self.config.verify_degrees ==> forall|s: int|
                0 <= s < domain.ce_domain_size ==> #[trigger] final(table).t_evaluations@[s]@ == if fragment.offset
                    <= s < fragment.offset + fragment.evaluations@.len() {
                    self.spec_t_values(trace, domain, s)
                } else {
                    old(table).t_evaluations@[s]@
                },
    {
        let mut fragment = fragment;
        let ghost offset = fragment.offset as int;
        let ghost len = fragment.evaluations@.len() as int;
        self.evaluate_fragment(trace, domain, &mut fragment);
        table.absorb(&fragment);
        proof {
            assert forall|s: int| 0 <= s < domain.ce_domain_size && offset <= s < offset + len implies
                #[trigger] table.evaluations@[s]@ == self.spec_row(trace, domain, s) by {
                assert(fragment.evaluations@[s - offset]@ == self.spec_row(trace, domain, offset + (s - offset)));
            }
            if self.config.verify_degrees {
                assert forall|s: int| 0 <= s < domain.ce_domain_size && offset <= s < offset + len implies
                    #[trigger] table.t_evaluations@[s]@ == self.spec_t_values(trace, domain, s) by {
                    assert(fragment.t_evaluations@[s - offset]@ == self.spec_t_values(trace, domain, offset + (s - offset)));
                }
            }
        }
    }

    /// Fills the table split into `nf` fragments, as that many concurrent workers would,
    /// each fragment with buffers of its own. The rows are the same for every `nf`.
    pub fn evaluate_in_fragments(
        &self,
        trace: &TraceTable,
        domain: &StarkDomain,
        table: &mut ConstraintEvaluationTable,
        nf: usize,
    )
        requires
            nf >= 1,
            self.wf(),
            self.inputs_wf(trace, domain),
            trace.spec_len() == domain.lde_domain_size,
            old(table).wf(),
            old(table).evaluations@.len() == domain.ce_domain_size,
            old(table).divisors@.len() == self.divisors@.len(),
            old(table).expected_degrees@.len() == self.spec_num_degrees(),
        ensures
            final(table).wf(),
            final(table).divisors@ == old(table).divisors@,
            final(table).expected_degrees@ == old(table).expected_degrees@,
            final(table).evaluations@.len() == old(table).evaluations@.len(),
            forall|step: int|
                0 <= step < domain.ce_domain_size ==> #[trigger] final(table).evaluations@[step]@
                    == self.spec_row(trace, domain, step),
            self.config.verify_degrees ==> forall|step: int|
                0 <= step < domain.ce_domain_size ==> #[trigger] final(table).t_evaluations@[step]@
                    == self.spec_t_values(trace, domain, step),
    {
        let ce = domain.ce_domain_size();
        let mut fragments = table.fragments(nf);
        let ghost all = fragments@;
        let ghost n = ce as nat;
        proof {
            lemma_fragments_partition(n, nf as nat);
            assert(fragment_start(n, nf as nat, nf as nat) == n);
        }
        let mut remaining: usize = nf;
        while remaining > 0
            invariant
                self.wf(),
                self.inputs_wf(trace, domain),
                trace.spec_len() == domain.lde_domain_size,
                n == ce,
                ce == domain.ce_domain_size,
                remaining <= nf,
                fragments@ == all.subrange(0, remaining as int),
                all.len() == nf,
                table.wf(),
                table.evaluations@.len() == ce,
                table.divisors@ == old(table).divisors@,
                table.divisors@.len() == self.divisors@.len(),
                table.expected_degrees@ == old(table).expected_degrees@,
                table.expected_degrees@.len() == self.spec_num_degrees(),
                forall|k: nat| k < nf ==> fragment_start(n, nf as nat, k) <= #[trigger] fragment_end(n, nf as nat, k),
                fragment_start(n, nf as nat, nf as nat) == n,
                fragment_start(n, nf as nat, 0) == 0,
                forall|k: nat| #[trigger] fragment_start(n, nf as nat, k) <= n,
                forall|k: int|
                    0 <= k < nf ==> {
                        let start = fragment_start(n, nf as nat, k as nat);
                        let end = fragment_end(n, nf as nat, k as nat);
                        &&& (#[trigger] all[k]).offset == start
                        &&& rows_shaped(all[k].evaluations@, (end - start) as nat, self.divisors@.len())
                        &&& rows_shaped(all[k].t_evaluations@, (end - start) as nat, self.spec_num_degrees())
                    },
                forall|s: int|
                    fragment_start(n, nf as nat, remaining as nat) <= s < ce ==> #[trigger] table.evaluations@[s]@
                        == self.spec_row(trace, domain, s),
                self.config.verify_degrees ==> forall|s: int|
                    fragment_start(n, nf as nat, remaining as nat) <= s < ce ==> #[trigger] table.t_evaluations@[s]@
                        == self.spec_t_values(trace, domain, s),
            decreases remaining,
        {
            let k = remaining - 1;
            let popped = fragments.pop();
            match popped {
                Some(fragment) => {
                    let ghost start = fragment_start(n, nf as nat, k as nat);
                    let ghost end = fragment_end(n, nf as nat, k as nat);
                    proof {
                        assert(fragment == all[k as int]);
                        assert(end == fragment_start(n, nf as nat, remaining as nat));
                        assert(end <= n);
                        assert(start <= end);
                        assert(fragment.offset == start);
                        assert(fragment.evaluations@.len() == end - start);
                    }
                    let ghost e_before = table.evaluations@;
                    let ghost t_before = table.t_evaluations@;
                    self.fill_fragment(trace, domain, table, fragment);
                    proof {
                        assert forall|s: int| start <= s < ce implies #[trigger] table.evaluations@[s]@
                            == self.spec_row(trace, domain, s) by {
                            if s >= end {
                                assert(e_before[s]@ == self.spec_row(trace, domain, s));
                            }
                        }
                        if self.config.verify_degrees {
                            assert forall|s: int| start <= s < ce implies #[trigger] table.t_evaluations@[s]@
                                == self.spec_t_values(trace, domain, s) by {
                                if s >= end {
                                    assert(t_before[s]@ == self.spec_t_values(trace, domain, s));
                                }
                            }
                        }
                    }
                    assert(fragments@ =~= all.subrange(0, k as int));
                },
                None => {},
            }
            remaining = k;
        }
    }

    /// Checks the degree of each transition constraint's recorded evaluations.
    pub fn check_degrees(&self, trace: &TraceTable, domain: &StarkDomain, table: &ConstraintEvaluationTable) -> (r: Result<(), EvaluationError>)
        requires
            self.wf(),
            self.config.verify_degrees,
            self.inputs_wf(trace, domain),
            table.wf(),
            table.evaluations@.len() == domain.ce_domain_size,
            table.expected_degrees@ == self.transition_constraint_degrees@,
            forall|step: int|
                0 <= step < domain.ce_domain_size ==> #[trigger] table.t_evaluations@[step]@
                    == self.spec_t_values(trace, domain, step),
        ensures
            r is Ok <==> self.degrees_match(trace, domain),
            r matches Err(e) ==> e is DegreeMismatch,
    {
        let lde_domain_size = domain.lde_domain_size();
        let ce = domain.ce_domain_size();
        let blowup: usize = lde_domain_size / ce;
        let inv = exp_mod(domain.lde_generator, (lde_domain_size - blowup) as u64);
        proof {
            assert forall|i: int| 0 <= i < table.t_evaluations@.len() implies all_elems(
                #[trigger] table.t_evaluations@[i]@) by {
                self.lemma_t_values_elems(trace, domain, i);
            }
            assert forall|j: int| 0 <= j < self.air.transition_constraints@.len() implies
                #[trigger] table.spec_transition_column(j) == self.spec_t_column(trace, domain, j) by {
                assert(table.spec_transition_column(j) =~= self.spec_t_column(trace, domain, j));
            }
        }
        let r = table.validate_transition_degrees(inv);
        proof {
            assert(inv as int == Self::ce_generator_inv(domain));
            if r is Ok {
                assert forall|j: int| 0 <= j < self.air.transition_constraints@.len() implies #[trigger] self.expected_degree(j)
                    == observed_degree(self.spec_t_column(trace, domain, j), Self::ce_generator_inv(domain)) by {
                    assert(table.spec_transition_column(j) == self.spec_t_column(trace, domain, j));
                    assert(table.expected_degrees@[j] == self.transition_constraint_degrees@[j]);
                    assert(table.expected_degrees@[j] == observed_degree(table.spec_transition_column(j), inv as int));
                }
            } else if self.degrees_match(trace, domain) {
                assert forall|j: int| 0 <= j < table.expected_degrees@.len() implies #[trigger] table.expected_degrees@[j]
                    == observed_degree(table.spec_transition_column(j), inv as int) by {
                    assert(table.spec_transition_column(j) == self.spec_t_column(trace, domain, j));
                    assert(table.expected_degrees@[j] == self.transition_constraint_degrees@[j]);
                    assert(self.expected_degree(j) == observed_degree(self.spec_t_column(trace, domain, j), Self::ce_generator_inv(domain)));
                }
            }
        }
        r
    }

    /// Evaluates all constraints over the constraint evaluation domain.
    ///
    /// Fails, before any row is written, when the trace is not as long as the LDE domain.
    /// Row `step` of the table is `spec_row(step)` whichever way the table is filled, in
    /// one thread or fragment by fragment. With degree checks on, fails when some transition
    /// constraint's evaluations have another degree than expected.
    pub fn evaluate(&self, trace: &TraceTable, domain: &StarkDomain) -> (r: Result<ConstraintEvaluationTable, EvaluationError>)
        requires
            self.wf(),
            self.inputs_wf(trace, domain),
        ensures
            trace.spec_len() != domain.lde_domain_size ==> r == Err::<ConstraintEvaluationTable, EvaluationError>(
                EvaluationError::TraceLengthMismatch {
                    trace_length: trace.spec_len() as usize,
                    lde_domain_size: domain.lde_domain_size,
                },
            ),
            trace.spec_len() == domain.lde_domain_size ==> (r is Ok <==> self.degrees_match(trace, domain)),
            r matches Ok(t) ==> {
                &&& t.wf()
                &&& same_divisors(t.divisors@, self.divisors@)
                &&& t.evaluations@.len() == domain.ce_domain_size
                &&& forall|step: int|
                    0 <= step < domain.ce_domain_size ==> #[trigger] t.evaluations@[step]@ == self.spec_row(
                        trace,
                        domain,
                        step,
                    )
            },
            r matches Err(e) ==> (trace.spec_len() == domain.lde_domain_size <==> e is DegreeMismatch),
    {
        let trace_length = trace.len();
        let lde_domain_size = domain.lde_domain_size();
        if trace_length != lde_domain_size {
            return Err(EvaluationError::TraceLengthMismatch { trace_length, lde_domain_size });
        }
        let ce = domain.ce_domain_size();
        let mut degrees: Vec<usize> = Vec::new();
        let mut j: usize = 0;
        while j < self.transition_constraint_degrees.len()
            invariant
                j <= self.transition_constraint_degrees@.len(),
                degrees@ == self.transition_constraint_degrees@.subrange(0, j as int),
            decreases self.transition_constraint_degrees@.len() - j,
        {
            degrees.push(self.transition_constraint_degrees[j]);
            j = j + 1;
        }
        assert(degrees@ =~= self.transition_constraint_degrees@);
        let mut table = ConstraintEvaluationTable::new(ce, copy_divisors(&self.divisors), degrees);
        if self.uses_concurrency(ce) {
            self.evaluate_in_fragments(trace, domain, &mut table, concurrent_fragment_count());
        } else {
            self.evaluate_sequential(trace, domain, &mut table);
        }
        if self.config.verify_degrees {
            let checked = self.check_degrees(trace, domain, &table);
            if let Err(e) = checked {
                return Err(e);
            }
        }
        Ok(table)
    }
}

/// The table does not depend on how it is filled: two evaluators built from the same AIR and
/// coefficients, whatever their configuration (sequential or concurrent, any threshold, any
/// number of fragments, degree checks on or off), give the same row at every step, since
/// `evaluate` returns `spec_row` in every case and `spec_row` does not read the
/// configuration.
pub proof fn lemma_rows_independent_of_config(
    a: &ConstraintEvaluator,
    b: &ConstraintEvaluator,
    trace: &TraceTable,
    domain: &StarkDomain,
    step: int,
)
    requires
        a.air == b.air,
        a.transition_constraints@ == b.transition_constraints@,
        a.boundary_constraints@ == b.boundary_constraints@,
    ensures
        a.spec_row(trace, domain, step) == b.spec_row(trace, domain, step),
        a.spec_t_values(trace, domain, step) == b.spec_t_values(trace, domain, step),
{
    reveal(ConstraintEvaluator::spec_row);
    reveal(ConstraintEvaluator::spec_t_values);
    assert(a.spec_row(trace, domain, step) =~= b.spec_row(trace, domain, step));
}

} // verus!
