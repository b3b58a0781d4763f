use prover::air::{Air, Assertion, PublicCoin, Term, TransitionConstraint, Var};
use prover::constraints::{BoundaryConstraint, BoundaryConstraintGroup, ConstraintDivisor, PeriodicValueTable};
use prover::domain::StarkDomain;
use prover::evaluator::{
    concurrent_fragment_count, num_fragments, ConstraintEvaluator, EvaluatorConfig,
    MIN_CONCURRENT_DOMAIN_SIZE,
};
use prover::field::{add_mod, exp_mod, mul_mod, sub_mod, MODULUS};
use prover::table::{column_degree, ConstraintEvaluationTable, EvaluationError};
use prover::trace::TraceTable;

/// An element of order exactly `n` (a power of two).
fn root_of_unity(n: u64) -> u64 {
    let g = exp_mod(7, (MODULUS - 1) / n);
    assert_eq!(exp_mod(g, n), 1);
    if n > 1 {
        assert_ne!(exp_mod(g, n / 2), 1);
    }
    g
}

/// `sum c_i x^i`.
fn poly(coeffs: &[u64], x: u64) -> u64 {
    let mut acc = 0u64;
    for c in coeffs.iter().rev() {
        acc = add_mod(mul_mod(acc, x), *c);
    }
    acc
}

fn square_constraint(degree: usize) -> TransitionConstraint {
    // next[0] - current[0]^2
    TransitionConstraint {
        terms: vec![
            Term { coefficient: 1, factors: vec![Var::Next(0)] },
            Term { coefficient: MODULUS - 1, factors: vec![Var::Current(0), Var::Current(0)] },
        ],
        degree,
    }
}

/// A domain for a trace of length `n` extended `blowup` times and evaluated on a CE domain of
/// size `ce`.
fn domain(n: usize, blowup: usize, ce: usize, offset: u64) -> StarkDomain {
    StarkDomain {
        trace_length: n,
        lde_domain_size: n * blowup,
        ce_domain_size: ce,
        offset,
        lde_generator: root_of_unity((n * blowup) as u64),
    }
}

/// A one-column trace holding `p(x)` at every point `x` of the LDE domain.
fn trace_of(d: &StarkDomain, coeffs: &[u64]) -> TraceTable {
    let mut col = Vec::new();
    for i in 0..d.lde_domain_size {
        let x = mul_mod(d.offset, exp_mod(d.lde_generator, i as u64));
        col.push(poly(coeffs, x));
    }
    TraceTable { columns: vec![col], blowup: d.lde_domain_size / d.trace_length }
}

fn air(n: usize, degree: usize, assertions: Vec<Assertion>, composition_degree: usize) -> Air {
    Air {
        trace_width: 1,
        trace_length: n,
        trace_generator: root_of_unity(n as u64),
        composition_degree,
        transition_constraints: vec![square_constraint(degree)],
        assertions,
        periodic_columns: vec![],
    }
}

fn coin() -> PublicCoin {
    PublicCoin {
        transition_coefficients: vec![(3, 5), (11, 13)],
        boundary_coefficients: vec![(17, 19), (23, 29), (31, 37)],
    }
}

fn rows(t: &ConstraintEvaluationTable) -> Vec<Vec<u64>> {
    let mut r = Vec::new();
    for i in 0..t.num_rows() {
        let mut row = Vec::new();
        for c in 0..t.num_columns() {
            row.push(t.get(i, c));
        }
        r.push(row);
    }
    r
}

#[test]
fn scenario_single_transition_and_assertion() {
    let d = domain(16, 4, 32, 1);
    let trace = trace_of(&d, &[2, 9, 4]);
    let a = air(16, 2, vec![Assertion { column: 0, step: 0, value: 7 }], 15);
    let ev = ConstraintEvaluator::new(a, &coin(), EvaluatorConfig::new(false, false));
    let table = ev.evaluate(&trace, &d).unwrap();
    assert_eq!(table.num_rows(), 32);
    assert_eq!(table.num_columns(), 2);

    // at step 0, x = offset * g^0 = 1, so every power of x is 1
    let cur = trace.columns[0][0];
    let next = trace.columns[0][4];
    let raw = sub_mod(next, mul_mod(cur, cur));
    assert_eq!(table.get(0, 0), mul_mod(raw, add_mod(3, 5)));
    let boundary = mul_mod(sub_mod(cur, 7), add_mod(17, 19));
    assert_eq!(table.get(0, 1), boundary);

    // the boundary divisor is x - g^0 = x - 1
    let div = &table.divisors()[1];
    assert_eq!(div.numerator, vec![(1usize, 1u64)]);
    assert!(div.exclude.is_empty());
}

#[test]
fn scenario_row_with_degree_adjustment() {
    let d = domain(16, 4, 32, 1);
    let trace = trace_of(&d, &[2, 9, 4]);
    let a = air(16, 2, vec![Assertion { column: 0, step: 0, value: 7 }], 15);
    let ev = ConstraintEvaluator::new(a, &coin(), EvaluatorConfig::new(false, false));
    let table = ev.evaluate(&trace, &d).unwrap();
    // step 3 reads LDE step 6 and its successor 6 + 4; x = g^6
    let x = exp_mod(d.lde_generator, 6);
    let cur = trace.columns[0][6];
    let next = trace.columns[0][10];
    let raw = sub_mod(next, mul_mod(cur, cur));
    // transition adjustment 15 - 15 = 0, boundary adjustment 15 - 14 = 1
    assert_eq!(table.get(3, 0), mul_mod(raw, add_mod(3, 5)));
    assert_eq!(table.get(3, 1), mul_mod(sub_mod(cur, 7), add_mod(17, mul_mod(19, x))));
}

#[test]
fn divisors_follow_columns() {
    let d = domain(8, 4, 16, 7);
    let trace = trace_of(&d, &[1, 2]);
    let a = air(
        8,
        2,
        vec![
            Assertion { column: 0, step: 3, value: 1 },
            Assertion { column: 0, step: 0, value: 2 },
            Assertion { column: 0, step: 3, value: 5 },
        ],
        14,
    );
    let g = a.trace_generator;
    let ev = ConstraintEvaluator::new(a, &coin(), EvaluatorConfig::new(false, false));
    assert_eq!(ev.boundary_constraints.len(), 2);
    assert_eq!(ev.boundary_constraints[0].constraints.len(), 2);
    let table = ev.evaluate(&trace, &d).unwrap();
    let divs = table.divisors();
    assert_eq!(divs.len(), 3);
    assert_eq!(divs[0].numerator, vec![(8usize, 1u64)]);
    assert_eq!(divs[0].exclude, vec![exp_mod(g, 7)]);
    assert_eq!(divs[1].numerator, vec![(1usize, exp_mod(g, 3))]);
    assert_eq!(divs[2].numerator, vec![(1usize, 1u64)]);
}

#[test]
fn trace_length_mismatch_is_refused() {
    let d = domain(16, 4, 32, 1);
    let short = domain(16, 2, 32, 1);
    let trace = trace_of(&short, &[2, 9, 4]);
    let a = air(16, 2, vec![Assertion { column: 0, step: 0, value: 7 }], 15);
    let ev = ConstraintEvaluator::new(a, &coin(), EvaluatorConfig::new(true, false));
    let r = ev.evaluate(&trace, &d);
    assert_eq!(
        r.err(),
        Some(EvaluationError::TraceLengthMismatch { trace_length: 32, lde_domain_size: 64 })
    );
}

#[test]
fn understated_degree_fails_verification() {
    let d = domain(8, 4, 16, 7);
    let trace = trace_of(&d, &[5, 3, 0, 0, 0, 0, 0, 1]);
    let a = air(8, 1, vec![], 14);
    let ev = ConstraintEvaluator::new(a, &coin(), EvaluatorConfig::new(true, false));
    let r = ev.evaluate(&trace, &d);
    assert_eq!(
        r.err(),
        Some(EvaluationError::DegreeMismatch { constraint: 0, expected: 7, actual: 14 })
    );
}

#[test]
fn declared_degree_passes_verification() {
    let d = domain(8, 4, 16, 7);
    let trace = trace_of(&d, &[5, 3, 0, 0, 0, 0, 0, 1]);
    let a = air(8, 2, vec![Assertion { column: 0, step: 2, value: 4 }], 14);
    let ev = ConstraintEvaluator::new(a, &coin(), EvaluatorConfig::new(true, false));
    assert!(ev.evaluate(&trace, &d).is_ok());
}

#[test]
fn understated_degree_fails_in_fragments_too() {
    let d = domain(8, 4, 16, 7);
    let trace = trace_of(&d, &[5, 3, 0, 0, 0, 0, 0, 1]);
    let a = air(8, 1, vec![], 14);
    let mut config = EvaluatorConfig::new(true, true);
    config.min_concurrent_domain_size = 1;
    let ev = ConstraintEvaluator::new(a, &coin(), config);
    let r = ev.evaluate(&trace, &d);
    assert_eq!(
        r.err(),
        Some(EvaluationError::DegreeMismatch { constraint: 0, expected: 7, actual: 14 })
    );
}

#[test]
fn fragments_match_sequential() {
    let d = domain(16, 4, 64, 7);
    let trace = trace_of(&d, &[2, 9, 4, 1]);
    let asserts = || vec![Assertion { column: 0, step: 0, value: 7 }, Assertion { column: 0, step: 5, value: 1 }];
    let seq = ConstraintEvaluator::new(air(16, 2, asserts(), 20), &coin(), EvaluatorConfig::new(false, false));
    let mut config = EvaluatorConfig::new(false, true);
    config.min_concurrent_domain_size = 1;
    let conc = ConstraintEvaluator::new(air(16, 2, asserts(), 20), &coin(), config);
    let a = seq.evaluate(&trace, &d).unwrap();
    let b = conc.evaluate(&trace, &d).unwrap();
    assert_eq!(rows(&a), rows(&b));

    for nf in [1usize, 2, 4, 8, 16, 128] {
        let mut table = ConstraintEvaluationTable::new(64, a.divisors().iter().map(|x| x.copy()).collect(), vec![]);
        let mut frags = table.fragments(nf);
        for f in frags.iter_mut() {
            conc.evaluate_fragment(&trace, &d, f);
        }
        for f in frags.iter() {
            table.absorb(f);
        }
        assert_eq!(rows(&table), rows(&a));

        let mut filled = ConstraintEvaluationTable::new(64, a.divisors().iter().map(|x| x.copy()).collect(), vec![]);
        conc.evaluate_in_fragments(&trace, &d, &mut filled, nf);
        assert_eq!(rows(&filled), rows(&a));
    }
}

#[test]
fn small_domain_falls_back_to_sequential() {
    let d = domain(16, 4, 32, 1);
    let trace = trace_of(&d, &[2, 9, 4]);
    let asserts = || vec![Assertion { column: 0, step: 0, value: 7 }];
    let seq = ConstraintEvaluator::new(air(16, 2, asserts(), 15), &coin(), EvaluatorConfig::new(false, false));
    let conc = ConstraintEvaluator::new(air(16, 2, asserts(), 15), &coin(), EvaluatorConfig::new(false, true));
    assert!(!conc.uses_concurrency(32));
    assert!(conc.uses_concurrency(MIN_CONCURRENT_DOMAIN_SIZE));
    assert_eq!(MIN_CONCURRENT_DOMAIN_SIZE, 8192);
    let a = seq.evaluate(&trace, &d).unwrap();
    let b = conc.evaluate(&trace, &d).unwrap();
    assert_eq!(rows(&a), rows(&b));
}

#[test]
fn fragments_cover_all_rows() {
    for n in [0usize, 1, 10, 16, 64] {
        let table = ConstraintEvaluationTable::new(n, vec![], vec![]);
        for nf in [1usize, 2, 4, 8, 32] {
            let frags = table.fragments(nf);
            assert_eq!(frags.len(), nf);
            let mut next = 0usize;
            for f in &frags {
                assert_eq!(f.offset(), next);
                next += f.num_rows();
            }
            assert_eq!(next, n);
        }
    }
}

#[test]
fn fragment_count_is_power_of_two() {
    assert_eq!(num_fragments(0), 1);
    assert_eq!(num_fragments(1), 1);
    assert_eq!(num_fragments(3), 4);
    assert_eq!(num_fragments(8), 8);
    assert_eq!(num_fragments(9), 16);
    let c = concurrent_fragment_count();
    assert!(c >= 1 && c.is_power_of_two());
}

#[test]
fn cached_adjustment_matches_recomputation() {
    let d = domain(8, 4, 16, 7);
    let trace = trace_of(&d, &[1, 2, 3]);
    let a = air(8, 2, vec![Assertion { column: 0, step: 0, value: 7 }], 14);
    let mut ev = ConstraintEvaluator::new(a, &coin(), EvaluatorConfig::new(false, false));
    let adjustments = [1u64, 1, 3, 3, 1, 0, 5];
    let mut groups = Vec::new();
    let mut divisors = vec![ev.divisors[0].copy()];
    for (k, adj) in adjustments.iter().enumerate() {
        groups.push(BoundaryConstraintGroup {
            degree_adjustment: *adj,
            divisor: ConstraintDivisor::from_assertion(k, ev.air.trace_generator),
            constraints: vec![BoundaryConstraint { column: 0, value: k as u64, coefficients: (2 + k as u64, 5) }],
        });
        divisors.push(ConstraintDivisor::from_assertion(k, ev.air.trace_generator));
    }
    ev.boundary_constraints = groups;
    ev.divisors = divisors;
    let table = ev.evaluate(&trace, &d).unwrap();
    for step in 0..16 {
        let lde_step = step * 2;
        let x = mul_mod(7, exp_mod(d.lde_generator, lde_step as u64));
        let cur = trace.columns[0][lde_step];
        for (k, adj) in adjustments.iter().enumerate() {
            let xp = exp_mod(x, *adj);
            let expected = mul_mod(sub_mod(cur, k as u64), add_mod(2 + k as u64, mul_mod(5, xp)));
            assert_eq!(table.get(step, k + 1), expected);
        }
    }
}

#[test]
fn periodic_values_repeat() {
    let t = PeriodicValueTable::new(&vec![vec![1, 2], vec![3, 4, 5, 6]]);
    assert_eq!(t.get_row(0), &vec![1, 3]);
    assert_eq!(t.get_row(1), &vec![2, 4]);
    assert_eq!(t.get_row(6), &vec![1, 5]);
    assert_eq!(t.get_row(7), &vec![2, 6]);
    let empty = PeriodicValueTable::new(&vec![]);
    assert_eq!(empty.get_row(5), &Vec::<u64>::new());
}

#[test]
fn periodic_column_enters_transition() {
    // current[0] * periodic[0], with the periodic column [1, 0]
    let d = domain(8, 4, 16, 7);
    let trace = trace_of(&d, &[1, 2, 3]);
    let mut a = air(8, 2, vec![], 14);
    a.transition_constraints = vec![TransitionConstraint {
        terms: vec![Term { coefficient: 1, factors: vec![Var::Current(0), Var::Periodic(0)] }],
        degree: 2,
    }];
    a.periodic_columns = vec![vec![1, 0]];
    let ev = ConstraintEvaluator::new(a, &coin(), EvaluatorConfig::new(false, false));
    let table = ev.evaluate(&trace, &d).unwrap();
    // transition adjustment 14 - 7 = 7
    let x1 = mul_mod(7, exp_mod(d.lde_generator, 2));
    assert_eq!(table.get(1, 0), 0);
    let x2 = mul_mod(7, exp_mod(d.lde_generator, 4));
    let cur = trace.columns[0][4];
    assert_eq!(table.get(2, 0), mul_mod(cur, add_mod(3, mul_mod(5, exp_mod(x2, 7)))));
    assert_ne!(x1, x2);
}

#[test]
fn transition_groups_by_degree() {
    let mut a = air(8, 2, vec![], 14);
    a.transition_constraints = vec![square_constraint(2), TransitionConstraint { terms: vec![], degree: 1 }, square_constraint(2)];
    let groups = a.get_transition_constraints(&vec![(1, 2), (3, 4), (5, 6)]);
    assert_eq!(groups.len(), 2);
    assert_eq!(groups[0].indexes, vec![0, 2]);
    assert_eq!(groups[0].coefficients, vec![(1, 2), (5, 6)]);
    assert_eq!(groups[0].degree_adjustment, 7);
    assert_eq!(groups[1].indexes, vec![1]);
    assert_eq!(groups[1].degree_adjustment, 14);
}

#[test]
fn field_operations() {
    assert_eq!(add_mod(MODULUS - 1, 2), 1);
    assert_eq!(sub_mod(0, 1), MODULUS - 1);
    assert_eq!(mul_mod(MODULUS - 1, MODULUS - 1), 1);
    assert_eq!(mul_mod(1 << 32, 1 << 32), (1u64 << 32) - 1);
    assert_eq!(exp_mod(3, 5), 243);
    assert_eq!(exp_mod(5, 0), 1);
    assert_eq!(exp_mod(2, 64), (1u64 << 32) - 1);
}

#[test]
fn column_degree_of_known_polynomials() {
    let n = 16u64;
    let w = root_of_unity(n);
    let w_inv = exp_mod(w, n - 1);
    for coeffs in [vec![0u64], vec![4], vec![1, 1], vec![0, 0, 0, 0, 0, 9], vec![3; 16]] {
        let values: Vec<u64> = (0..n).map(|i| poly(&coeffs, mul_mod(3, exp_mod(w, i)))).collect();
        let expected = coeffs.iter().rposition(|c| *c != 0).unwrap_or(0);
        assert_eq!(column_degree(&values, w_inv), expected);
    }
}
