//! The evaluation domains: the low-degree-extension (LDE) domain over which the trace is
//! extended, and the constraint evaluation (CE) domain, a subgroup coset whose steps map
//! onto every `lde / ce`-th step of the LDE domain.
use crate::field::{exp_mod, fmul, fpow, is_elem, mul_mod};
use vstd::prelude::*;

verus! {

pub struct StarkDomain {
    /// Length of the execution trace before extension.
    pub trace_length: usize,
    /// Size of the LDE domain; the extended trace has this many rows.
    pub lde_domain_size: usize,
    /// Size of the constraint evaluation domain.
    pub ce_domain_size: usize,
    /// Offset `s` of the domain coset.
    pub offset: u64,
    /// Generator `g` of the LDE domain.
    pub lde_generator: u64,
}

impl StarkDomain {
    pub open spec fn wf(&self) -> bool {
        &&& 0 < self.ce_domain_size <= self.lde_domain_size
        &&& self.lde_domain_size % self.ce_domain_size == 0
        &&& 0 < self.trace_length <= self.lde_domain_size
        &&& self.lde_domain_size % self.trace_length == 0
        &&& is_elem(self.offset)
        &&& is_elem(self.lde_generator)
    }

    /// Number of LDE steps between two consecutive CE steps.
    pub open spec fn ce_to_lde_blowup(&self) -> int {
        self.lde_domain_size as int / self.ce_domain_size as int
    }

    /// The LDE step matching the CE step `step`.
    pub open spec fn spec_lde_step(&self, step: int) -> int {
        step * self.ce_to_lde_blowup()
    }

    /// The domain value `x = s * g^lde_step` at the CE step `step`.
    pub open spec fn spec_x(&self, step: int) -> int {
        fmul(self.offset as int, fpow(self.lde_generator as int, self.spec_lde_step(step) as nat))
    }

    pub fn lde_domain_size(&self) -> (r: usize)
        ensures
            r == self.lde_domain_size,
    {
        self.lde_domain_size
    }

    pub fn ce_domain_size(&self) -> (r: usize)
        ensures
            r == self.ce_domain_size,
    {
        self.ce_domain_size
    }

    /// Translates a step of the CE domain into the matching LDE step and domain value.
    pub fn ce_step_to_lde_info(&self, step: usize) -> (r: (usize, u64))
        requires
            self.wf(),
            step < self.ce_domain_size,
        ensures
            r.0 as int == self.spec_lde_step(step as int),
            r.0 < self.lde_domain_size,
            r.1 as int == self.spec_x(step as int),
            is_elem(r.1),
    {
        let blowup: usize = self.lde_domain_size / self.ce_domain_size;
        proof {
            let ce = self.ce_domain_size as int;
            let lde = self.lde_domain_size as int;
            assert(lde == ce * (blowup as int)) by {
                vstd::arithmetic::div_mod::lemma_fundamental_div_mod(lde, ce);
            }
            assert((step as int) * (blowup as int) < lde) by (nonlinear_arith)
                requires
                    0 <= step < ce,
                    lde == ce * (blowup as int),
                    lde > 0,
            ;
        }
        let lde_step: usize = step * blowup;
        let x = mul_mod(self.offset, exp_mod(self.lde_generator, lde_step as u64));
        (lde_step, x)
    }
}

} // verus!
