//! The table of constraint evaluations: one row per step of the constraint evaluation
//! domain, one column per divisor. It splits into disjoint row ranges (fragments) that can
//! be filled independently and written back.
use crate::constraints::ConstraintDivisor;
use crate::field::{add_mod, all_elems, exp_mod, fadd, fmul, fpow, is_elem, mul_mod};
use vstd::prelude::*;

verus! {

/// Why an evaluation was refused or failed.
#[derive(Debug, PartialEq, Eq, Structural, Clone, Copy)]
pub enum EvaluationError {
    /// The extended trace does not have as many rows as the LDE domain.
    TraceLengthMismatch { trace_length: usize, lde_domain_size: usize },
    /// A transition constraint's evaluations have another degree than its declared one.
    DegreeMismatch { constraint: usize, expected: usize, actual: usize },
}

/// Rows per fragment when `n` rows are split into `nf` fragments.
pub open spec fn fragment_size(n: nat, nf: nat) -> nat {
    if nf == 0 {
        0
    } else if n % nf == 0 {
        n / nf
    } else {
        n / nf + 1
    }
}

#[verifier::opaque]
pub open spec fn fragment_start(n: nat, nf: nat, k: nat) -> nat {
    let s = k * fragment_size(n, nf);
    if s < n {
        s
    } else {
        n
    }
}

pub open spec fn fragment_end(n: nat, nf: nat, k: nat) -> nat {
    fragment_start(n, nf, k + 1)
}

/// Row `r` lies in one of the `nf` fragments.
pub open spec fn in_some_fragment(n: nat, nf: nat, r: nat) -> bool {
    exists|k: nat| k < nf && fragment_start(n, nf, k) <= r < #[trigger] fragment_end(n, nf, k)
}

/// Fragments partition the rows: for any number `nf >= 1` of fragments (a power of two in
/// particular), the ranges `[start, end)` follow one another from `0` to `n`, so every row
/// lies in exactly one of them.
pub proof fn lemma_fragments_partition(n: nat, nf: nat)
    requires
        nf >= 1,
    ensures
        fragment_start(n, nf, 0) == 0,
        fragment_end(n, nf, (nf - 1) as nat) == n,
        forall|k: nat| #[trigger] fragment_start(n, nf, k) <= n,
        forall|k: nat| k < nf ==> fragment_start(n, nf, k) <= #[trigger] fragment_end(n, nf, k),
        forall|k1: nat, k2: nat|
            k1 < k2 < nf ==> #[trigger] fragment_end(n, nf, k1) <= #[trigger] fragment_start(n, nf, k2),
        forall|r: nat| r < n ==> #[trigger] in_some_fragment(n, nf, r),
{
    reveal(fragment_start);
    let size = fragment_size(n, nf);
    assert(nf * size >= n) by {
        vstd::arithmetic::div_mod::lemma_fundamental_div_mod(n as int, nf as int);
        let q = n / nf;
        let m = n % nf;
        assert(nf * (q + 1) == nf * q + nf) by (nonlinear_arith);
    }
    assert(fragment_start(n, nf, 0) == 0);
    assert forall|k: nat| k < nf implies fragment_start(n, nf, k) <= #[trigger] fragment_end(n, nf, k) by {
        assert(k * size <= (k + 1) * size) by (nonlinear_arith);
    }
    assert forall|k1: nat, k2: nat| k1 < k2 < nf implies #[trigger] fragment_end(n, nf, k1)
        <= #[trigger] fragment_start(n, nf, k2) by {
        assert((k1 + 1) * size <= k2 * size) by (nonlinear_arith)
            requires
                k1 + 1 <= k2,
        ;
    }
    assert forall|r: nat| r < n implies #[trigger] in_some_fragment(n, nf, r) by {
        assert(size > 0) by (nonlinear_arith)
            requires
                nf * size >= n,
                r < n,
        ;
        let k = r / size;
        vstd::arithmetic::div_mod::lemma_fundamental_div_mod(r as int, size as int);
        assert(k * size <= r);
        let m = r % size;
        assert(r < (k + 1) * size) by (nonlinear_arith)
            requires
                r == size * k + m,
                m < size,
        ;
        assert(k < nf) by (nonlinear_arith)
            requires
                r < nf * size,
                k * size <= r,
                size > 0,
        ;
        assert(fragment_start(n, nf, k) <= r < fragment_end(n, nf, k));
    }
    assert(fragment_end(n, nf, (nf - 1) as nat) == n) by {
        assert(((nf - 1) as nat + 1) * size == nf * size);
    }
}

/// A contiguous range of rows of the table, filled on its own.
pub struct Fragment {
    pub offset: usize,
    pub evaluations: Vec<Vec<u64>>,
    pub t_evaluations: Vec<Vec<u64>>,
}

pub open spec fn rows_shaped(rows: Seq<Vec<u64>>, n: nat, width: nat) -> bool {
    &&& rows.len() == n
    &&& forall|i: int| 0 <= i < n ==> (#[trigger] rows[i])@.len() == width
}

/// `new` is `old` with row `i` replaced by `row`.
pub open spec fn rows_updated(new: Seq<Vec<u64>>, old: Seq<Vec<u64>>, i: int, row: Seq<u64>) -> bool {
    &&& new.len() == old.len()
    &&& new[i]@ == row
    &&& forall|k: int| 0 <= k < old.len() && k != i ==> #[trigger] new[k] == old[k]
}

fn zero_rows(n: usize, width: usize) -> (r: Vec<Vec<u64>>)
    ensures
        rows_shaped(r@, n as nat, width as nat),
        forall|i: int| 0 <= i < n ==> all_elems(#[trigger] r@[i]@),
{
    let mut rows: Vec<Vec<u64>> = Vec::new();
    let mut i: usize = 0;
    while i < n
        invariant
            i <= n,
            rows_shaped(rows@, i as nat, width as nat),
            forall|k: int| 0 <= k < i ==> all_elems(#[trigger] rows@[k]@),
        decreases n - i,
    {
        let mut row: Vec<u64> = Vec::new();
        let mut c: usize = 0;
        while c < width
            invariant
                c <= width,
                row@.len() == c,
                all_elems(row@),
            decreases width - c,
        {
            row.push(0);
            c = c + 1;
        }
        rows.push(row);
        i = i + 1;
    }
    rows
}

impl Fragment {
    pub fn offset(&self) -> (r: usize)
        ensures
            r == self.offset,
    {
        self.offset
    }

    pub fn num_rows(&self) -> (r: usize)
        ensures
            r == self.evaluations@.len(),
    {
        self.evaluations.len()
    }

    /// Writes `row` as the fragment's row `i`.
    pub fn update_row(&mut self, i: usize, row: &Vec<u64>)
        requires
            i < old(self).evaluations@.len(),
        ensures
            rows_updated(final(self).evaluations@, old(self).evaluations@, i as int, row@),
            final(self).t_evaluations@ == old(self).t_evaluations@,
            final(self).offset == old(self).offset,
    {
        self.evaluations.set(i, row.clone());
    }

    /// Records the raw transition constraint evaluations of the fragment's row `i`.
    pub fn update_transition_evaluations(&mut self, i: usize, evaluations: &Vec<u64>)
        requires
            i < old(self).t_evaluations@.len(),
        ensures
            rows_updated(final(self).t_evaluations@, old(self).t_evaluations@, i as int, evaluations@),
            final(self).evaluations@ == old(self).evaluations@,
            final(self).offset == old(self).offset,
    {
        self.t_evaluations.set(i, evaluations.clone());
    }
}

pub struct ConstraintEvaluationTable {
    /// One row per step, one column per divisor.
    pub evaluations: Vec<Vec<u64>>,
    /// The divisor of each column, in column order.
    pub divisors: Vec<ConstraintDivisor>,
    /// Raw transition constraint evaluations per step, kept for the degree check; rows are
    /// empty when no degrees are expected.
    pub t_evaluations: Vec<Vec<u64>>,
    /// The expected degree of each transition constraint's evaluations; empty when degrees
    /// are not checked.
    pub expected_degrees: Vec<usize>,
}

impl ConstraintEvaluationTable {
    pub open spec fn wf(&self) -> bool {
        &&& rows_shaped(self.evaluations@, self.evaluations@.len(), self.divisors@.len())
        &&& rows_shaped(self.t_evaluations@, self.evaluations@.len(), self.expected_degrees@.len())
    }

    /// A zeroed table of `num_rows` rows with one column per divisor.
    pub fn new(num_rows: usize, divisors: Vec<ConstraintDivisor>, expected_degrees: Vec<usize>) -> (r: Self)
        ensures
            r.wf(),
            r.evaluations@.len() == num_rows,
            r.divisors@ == divisors@,
            r.expected_degrees@ == expected_degrees@,
    {
        let evaluations = zero_rows(num_rows, divisors.len());
        let t_evaluations = zero_rows(num_rows, expected_degrees.len());
        ConstraintEvaluationTable { evaluations, divisors, t_evaluations, expected_degrees }
    }

    pub fn num_rows(&self) -> (r: usize)
        ensures
            r == self.evaluations@.len(),
    {
        self.evaluations.len()
    }

    pub fn num_columns(&self) -> (r: usize)
        ensures
            r == self.divisors@.len(),
    {
        self.divisors.len()
    }

    pub fn divisors(&self) -> (r: &Vec<ConstraintDivisor>)
        ensures
            r@ == self.divisors@,
    {
        &self.divisors
    }

    /// The value in column `col` of row `row`.
    pub fn get(&self, row: usize, col: usize) -> (r: u64)
        requires
            self.wf(),
            row < self.evaluations@.len(),
            col < self.divisors@.len(),
        ensures
            r == self.evaluations@[row as int]@[col as int],
    {
        self.evaluations[row][col]
    }

    /// Writes `row` as the table's row `step`.
    pub fn update_row(&mut self, step: usize, row: &Vec<u64>)
        requires
            step < old(self).evaluations@.len(),
        ensures
            rows_updated(final(self).evaluations@, old(self).evaluations@, step as int, row@),
            final(self).divisors@ == old(self).divisors@,
            final(self).t_evaluations@ == old(self).t_evaluations@,
            final(self).expected_degrees@ == old(self).expected_degrees@,
    {
        self.evaluations.set(step, row.clone());
    }

    /// Records the raw transition constraint evaluations at `step`.
    pub fn update_transition_evaluations(&mut self, step: usize, evaluations: &Vec<u64>)
        requires
            step < old(self).t_evaluations@.len(),
        ensures
            rows_updated(final(self).t_evaluations@, old(self).t_evaluations@, step as int, evaluations@),
            final(self).evaluations@ == old(self).evaluations@,
            final(self).divisors@ == old(self).divisors@,
            final(self).expected_degrees@ == old(self).expected_degrees@,
    {
        self.t_evaluations.set(step, evaluations.clone());
    }

    /// Splits the table into `num_fragments` zeroed fragments covering consecutive row
    /// ranges (see `lemma_fragments_partition`).
    pub fn fragments(&self, num_fragments: usize) -> (r: Vec<Fragment>)
        requires
            self.wf(),
            num_fragments >= 1,
        ensures
            r@.len() == num_fragments,
            forall|k: int|
                0 <= k < num_fragments ==> {
                    let n = self.evaluations@.len();
                    let start = fragment_start(n, num_fragments as nat, k as nat);
                    let end = fragment_end(n, num_fragments as nat, k as nat);
                    &&& (#[trigger] r@[k]).offset == start
                    &&& rows_shaped(r@[k].evaluations@, (end - start) as nat, self.divisors@.len())
                    &&& rows_shaped(r@[k].t_evaluations@, (end - start) as nat, self.expected_degrees@.len())
                },
    {
        reveal(fragment_start);
        let n = self.evaluations.len();
        let ghost nn = n as nat;
        let ghost nf = num_fragments as nat;
        let q: usize = n / num_fragments;
        proof {
            vstd::arithmetic::div_mod::lemma_fundamental_div_mod(n as int, num_fragments as int);
            if num_fragments == 1 {
                assert(n as int % 1 == 0);
            } else {
                let rem = n as int % num_fragments as int;
                assert(q < usize::MAX) by (nonlinear_arith)
                    requires
                        n == num_fragments * q + rem,
                        rem >= 0,
                        num_fragments >= 2,
                        n <= usize::MAX,
                ;
            }
        }
        let size: usize = if n % num_fragments == 0 {
            q
        } else {
            q + 1
        };
        proof {
            lemma_fragments_partition(nn, nf);
        }
        let mut result: Vec<Fragment> = Vec::new();
        let mut k: usize = 0;
        while k < num_fragments
            invariant
                self.wf(),
                n == self.evaluations@.len(),
                nn == n,
                nf == num_fragments,
                size == fragment_size(nn, nf),
                k <= num_fragments,
                result@.len() == k,
                forall|h: nat| h < nf ==> fragment_start(nn, nf, h) <= #[trigger] fragment_end(nn, nf, h),
                forall|h: int|
                    0 <= h < k ==> {
                        let start = fragment_start(nn, nf, h as nat);
                        let end = fragment_end(nn, nf, h as nat);
                        &&& (#[trigger] result@[h]).offset == start
                        &&& rows_shaped(result@[h].evaluations@, (end - start) as nat, self.divisors@.len())
                        &&& rows_shaped(result@[h].t_evaluations@, (end - start) as nat, self.expected_degrees@.len())
                    },
            decreases num_fragments - k,
        {
            proof {
                let kk = k as u128;
                let ss = size as u128;
                assert(kk * ss <= (kk + 1) * ss && (kk + 1) * ss < 0x1_0000_0000_0000_0000_0000_0000_0000_0000)
                    by (nonlinear_arith)
                    requires
                        kk < 0x1_0000_0000_0000_0000,
                        ss < 0x1_0000_0000_0000_0000,
                ;
            }
            reveal(fragment_start);
            let s0: u128 = (k as u128) * (size as u128);
            let start: usize = if s0 < n as u128 { s0 as usize } else { n };
            let s1: u128 = ((k + 1) as u128) * (size as u128);
            let end: usize = if s1 < n as u128 { s1 as usize } else { n };
            assert(start == fragment_start(nn, nf, k as nat));
            assert(end == fragment_end(nn, nf, k as nat));
            assert(start <= end);
            let evaluations = zero_rows(end - start, self.divisors.len());
            let t_evaluations = zero_rows(end - start, self.expected_degrees.len());
            result.push(Fragment { offset: start, evaluations, t_evaluations });
            k = k + 1;
        }
        result
    }

    /// Writes the rows of `fragment` back into the table at the fragment's offset.
    pub fn absorb(&mut self, fragment: &Fragment)
        requires
            old(self).wf(),
            fragment.offset + fragment.evaluations@.len() <= old(self).evaluations@.len(),
            rows_shaped(fragment.evaluations@, fragment.evaluations@.len(), old(self).divisors@.len()),
            rows_shaped(fragment.t_evaluations@, fragment.evaluations@.len(), old(self).expected_degrees@.len()),
        ensures
            final(self).wf(),
            final(self).divisors@ == old(self).divisors@,
            final(self).expected_degrees@ == old(self).expected_degrees@,
            final(self).evaluations@.len() == old(self).evaluations@.len(),
            forall|r: int|
                0 <= r < old(self).evaluations@.len() ==> #[trigger] final(self).evaluations@[r]@ == if fragment.offset
                    <= r < fragment.offset + fragment.evaluations@.len() {
                    fragment.evaluations@[r - fragment.offset]@
                } else {
                    old(self).evaluations@[r]@
                },
            forall|r: int|
                0 <= r < old(self).evaluations@.len() ==> #[trigger] final(self).t_evaluations@[r]@ == if fragment.offset
                    <= r < fragment.offset + fragment.evaluations@.len() {
                    fragment.t_evaluations@[r - fragment.offset]@
                } else {
                    old(self).t_evaluations@[r]@
                },
    {
        let len = fragment.evaluations.len();
        let total: usize = self.evaluations.len();
        let ghost n = self.evaluations@.len();
        let ghost e0 = self.evaluations@;
        let ghost t0 = self.t_evaluations@;
        let mut i: usize = 0;
        while i < len
            invariant
                self.wf(),
                self.divisors@ == old(self).divisors@,
                self.expected_degrees@ == old(self).expected_degrees@,
                self.evaluations@.len() == n,
                e0 == old(self).evaluations@,
                t0 == old(self).t_evaluations@,
                n == e0.len(),
                n == total,
                len == fragment.evaluations@.len(),
                fragment.offset + len <= n,
                rows_shaped(fragment.evaluations@, len as nat, self.divisors@.len()),
                rows_shaped(fragment.t_evaluations@, len as nat, self.expected_degrees@.len()),
                i <= len,
                forall|r: int|
                    0 <= r < n ==> #[trigger] self.evaluations@[r]@ == if fragment.offset <= r < fragment.offset + i {
                        fragment.evaluations@[r - fragment.offset]@
                    } else {
                        e0[r]@
                    },
                forall|r: int|
                    0 <= r < n ==> #[trigger] self.t_evaluations@[r]@ == if fragment.offset <= r < fragment.offset + i {
                        fragment.t_evaluations@[r - fragment.offset]@
                    } else {
                        t0[r]@
                    },
            decreases len - i,
        {
            let row = fragment.evaluations[i].clone();
            let t_row = fragment.t_evaluations[i].clone();
            assert(fragment.offset + i < n);
            self.evaluations.set(fragment.offset + i, row);
            self.t_evaluations.set(fragment.offset + i, t_row);
            i = i + 1;
        }
    }

    /// The values of transition constraint `j` over all steps.
    pub open spec fn spec_transition_column(&self, j: int) -> Seq<u64> {
        Seq::new(self.t_evaluations@.len(), |i: int| self.t_evaluations@[i]@[j])
    }

    pub open spec fn t_values_wf(&self) -> bool {
        forall|i: int| 0 <= i < self.t_evaluations@.len() ==> all_elems(#[trigger] self.t_evaluations@[i]@)
    }

    fn transition_column(&self, j: usize) -> (r: Vec<u64>)
        requires
            self.wf(),
            self.t_values_wf(),
            j < self.expected_degrees@.len(),
        ensures
            r@ == self.spec_transition_column(j as int),
            all_elems(r@),
    {
        let mut r: Vec<u64> = Vec::new();
        let mut i: usize = 0;
        while i < self.t_evaluations.len()
            invariant
                self.wf(),
                self.t_values_wf(),
                j < self.expected_degrees@.len(),
                i <= self.t_evaluations@.len(),
                r@ =~= self.spec_transition_column(j as int).subrange(0, i as int),
                all_elems(r@),
            decreases self.t_evaluations@.len() - i,
        {
            assert(all_elems(self.t_evaluations@[i as int]@));
            r.push(self.t_evaluations[i][j]);
            i = i + 1;
        }
        r
    }

    /// Checks that the evaluations of each transition constraint have its expected degree.
    /// `ce_generator_inv` is the inverse of the constraint evaluation domain's generator.
    pub fn validate_transition_degrees(&self, ce_generator_inv: u64) -> (r: Result<(), EvaluationError>)
        requires
            self.wf(),
            self.t_values_wf(),
            is_elem(ce_generator_inv),
        ensures
            r is Ok <==> forall|j: int|
                0 <= j < self.expected_degrees@.len() ==> #[trigger] self.expected_degrees@[j] == observed_degree(
                    self.spec_transition_column(j),
                    ce_generator_inv as int,
                ),
            r matches Err(e) ==> (e matches EvaluationError::DegreeMismatch { constraint, expected, actual }
                && constraint < self.expected_degrees@.len()
                && expected == self.expected_degrees@[constraint as int]
                && actual == observed_degree(self.spec_transition_column(constraint as int), ce_generator_inv as int)
                && expected != actual),
    {
        let mut j: usize = 0;
        while j < self.expected_degrees.len()
            invariant
                self.wf(),
                self.t_values_wf(),
                is_elem(ce_generator_inv),
                j <= self.expected_degrees@.len(),
                forall|k: int|
                    0 <= k < j ==> #[trigger] self.expected_degrees@[k] == observed_degree(
                        self.spec_transition_column(k),
                        ce_generator_inv as int,
                    ),
            decreases self.expected_degrees@.len() - j,
        {
            let column = self.transition_column(j);
            let actual = column_degree(&column, ce_generator_inv);
            let expected = self.expected_degrees[j];
            if actual != expected {
                return Err(EvaluationError::DegreeMismatch { constraint: j, expected, actual });
            }
            j = j + 1;
        }
        Ok(())
    }
}

/// `sum over i >= k of v[i] * y^(i - k)`, by Horner's rule.
pub open spec fn poly_eval_from(v: Seq<u64>, y: int, k: int) -> int
    decreases v.len() - k,
{
    if k >= v.len() || k < 0 {
        0
    } else {
        fadd(v[k] as int, fmul(y, poly_eval_from(v, y, k + 1)))
    }
}

/// `sum of v[i] * w^(i * j)`: up to the factor `m^-1 s^-j`, the `j`-th coefficient of the
/// polynomial taking the values `v` on a coset `s * <ω>` of size `m`, where `w = ω^-1`.
pub open spec fn dft_at(v: Seq<u64>, w: int, j: nat) -> int {
    poly_eval_from(v, fpow(w, j), 0)
}

/// The highest `j' < j` whose coefficient is nonzero, or zero when there is none.
pub open spec fn highest_nonzero(v: Seq<u64>, w: int, j: nat) -> nat
    decreases j,
{
    if j == 0 {
        0
    } else if dft_at(v, w, (j - 1) as nat) != 0 {
        (j - 1) as nat
    } else {
        highest_nonzero(v, w, (j - 1) as nat)
    }
}

/// The degree of the polynomial interpolating `v` over the domain whose generator has
/// inverse `w`.
pub open spec fn observed_degree(v: Seq<u64>, w: int) -> nat {
    highest_nonzero(v, w, v.len())
}

fn poly_eval(v: &Vec<u64>, y: u64) -> (r: u64)
    requires
        all_elems(v@),
        is_elem(y),
    ensures
        r as int == poly_eval_from(v@, y as int, 0),
        is_elem(r),
{
    let mut acc: u64 = 0;
    let mut i: usize = v.len();
    while i > 0
        invariant
            all_elems(v@),
            is_elem(y),
            i <= v@.len(),
            is_elem(acc),
            acc as int == poly_eval_from(v@, y as int, i as int),
        decreases i,
    {
        i = i - 1;
        acc = add_mod(v[i], mul_mod(y, acc));
    }
    acc
}

/// The degree of the polynomial interpolating `values` over the domain whose generator
/// has inverse `w`.
pub fn column_degree(values: &Vec<u64>, w: u64) -> (r: usize)
    requires
        all_elems(values@),
        is_elem(w),
    ensures
        r == observed_degree(values@, w as int),
{
    let mut j: usize = values.len();
    while j > 0
        invariant
            all_elems(values@),
            is_elem(w),
            j <= values@.len(),
            highest_nonzero(values@, w as int, values@.len()) == highest_nonzero(values@, w as int, j as nat),
        decreases j,
    {
        let y = exp_mod(w, (j - 1) as u64);
        if poly_eval(values, y) != 0 {
            return j - 1;
        }
        j = j - 1;
    }
    0
}

} // verus!
