use simplicity::expansion::terms;
use simplicity::grouping::{group_terms, term_sums};
use simplicity::symbolic::{reduce_sums, Determinant, EFactor, Pattern, Term, TermSum, ZeroDets};

fn det(rows: &[usize], cols: &[usize]) -> Determinant {
    Determinant::new(rows.to_vec(), cols.to_vec())
}

fn live_sums(dim: usize) -> (Vec<(EFactor, TermSum)>, ZeroDets) {
    let mut zero = ZeroDets::new();
    let mut live = Vec::new();
    for (e, sum) in term_sums(dim) {
        if let Some(sum) = sum.without_zero_dets(dim, &mut zero) {
            live.push((e, sum));
        }
    }
    (live, zero)
}

#[test]
fn efactor_digits() {
    assert_eq!(EFactor::new(2, &[]), EFactor(0));
    assert_eq!(EFactor::new(2, &[[0, 0]]), EFactor(3));
    assert_eq!(EFactor::new(2, &[[0, 1]]), EFactor(1));
    assert_eq!(EFactor::new(2, &[[1, 1], [1, 1]]), EFactor(18));
    assert_eq!(EFactor::new(2, &[[0, 0], [1, 1], [1, 1], [2, 1]]), EFactor(102));
    assert_eq!(EFactor::new(3, &[[3, 0]]), EFactor(3u64.pow(11)));
}

#[test]
fn first_term_is_the_unperturbed_determinant() {
    let ts = terms(2);
    assert_eq!(ts[0].0, EFactor(0));
    assert_eq!(ts[0].1, Term::new(1, None, det(&[0, 1, 2], &[0, 1, 2])));
}

#[test]
fn terms_in_enumeration_order() {
    let ts = terms(2);
    assert_eq!(ts.len(), 46);
    assert_eq!(ts[1], (EFactor(3), Term::new(1, None, det(&[1, 2], &[1, 2]))));
    assert_eq!(ts[2], (EFactor(1), Term::new(-1, None, det(&[1, 2], &[0, 2]))));
    assert_eq!(ts[3], (EFactor(3), Term::new(2, Some([0, 0]), det(&[1, 2], &[0, 1]))));
    assert_eq!(terms(1).len(), 9);
    assert_eq!(terms(3).len(), 343);
}

#[test]
fn terms_stay_below_the_largest_relevant_factor() {
    for (dim, bound) in [(1usize, 5u64), (2, 102), (3, 21231)] {
        for (e, t) in terms(dim) {
            assert!(e.0 <= bound);
            assert_eq!(t.det.rows.len(), t.det.cols.len());
            match t.var_mult {
                Some([r, c]) => {
                    assert!(c < dim && !t.det.rows.contains(&r));
                    assert_eq!(t.const_mult.abs(), 2);
                }
                None => assert_eq!(t.const_mult.abs(), 1),
            }
        }
    }
}

#[test]
fn sums_are_ordered_by_factor() {
    let sums = term_sums(2);
    assert_eq!(sums.len(), 30);
    assert_eq!(sums[0].0, EFactor(0));
    let firsts: Vec<(u64, usize)> = sums.iter().take(6).map(|(e, s)| (e.0, s.terms.len())).collect();
    assert_eq!(firsts, vec![(0, 1), (1, 2), (2, 1), (3, 2), (6, 1), (9, 2)]);
    for w in sums.windows(2) {
        assert!(w[0].0 < w[1].0);
    }
    assert_eq!(term_sums(3).len(), 223);
}

#[test]
fn grouping_keeps_order_within_a_factor() {
    let a = Term::new(1, None, det(&[0], &[0]));
    let b = Term::new(-1, None, det(&[1], &[0]));
    let c = Term::new(2, Some([0, 0]), det(&[1], &[1]));
    let grouped = group_terms(vec![(EFactor(7), a.clone()), (EFactor(2), b.clone()), (EFactor(7), c.clone())]);
    assert_eq!(grouped.len(), 2);
    assert_eq!(grouped[0].0, EFactor(2));
    assert_eq!(grouped[0].1.terms, vec![b]);
    assert_eq!(grouped[1].0, EFactor(7));
    assert_eq!(grouped[1].1.terms, vec![a, c]);
}

#[test]
fn nonzero_drops_known_zero_determinants() {
    let mut zero = ZeroDets::new();
    zero.insert(det(&[1], &[0]));
    assert!(zero.contains(&det(&[1], &[0])));
    assert!(!zero.contains(&det(&[1], &[1])));
    assert_eq!(det(&[1], &[0]).nonzero(&zero), None);
    assert_eq!(det(&[0], &[0]).nonzero(&zero), Some(det(&[0], &[0])));
    let t = Term::new(-2, Some([0, 1]), det(&[1], &[0]));
    assert_eq!(t.nonzero(&zero), None);
    let u = Term::new(1, None, det(&[0, 1], &[0, 1]));
    assert_eq!(u.clone().nonzero(&zero), Some(u));
}

#[test]
fn single_term_sum_is_recorded_as_zero() {
    let mut zero = ZeroDets::new();
    let mut sum = TermSum::new();
    sum.terms.push(Term::new(1, None, det(&[1, 2], &[0, 1])));
    let kept = sum.without_zero_dets(2, &mut zero).unwrap();
    assert_eq!(kept.terms.len(), 1);
    assert!(zero.contains(&det(&[1, 2], &[0, 1])));
    let mut again = TermSum::new();
    again.terms.push(Term::new(-1, None, det(&[1, 2], &[0, 1])));
    assert!(again.without_zero_dets(2, &mut zero).is_none());
}

#[test]
fn equal_coordinates_give_equal_magnitudes() {
    let mut zero = ZeroDets::new();
    let mut x = TermSum::new();
    x.terms.push(Term::new(1, None, det(&[1], &[0])));
    x.without_zero_dets(2, &mut zero);
    assert!(!zero.contains(&det(&[1], &[2])));
    let mut y = TermSum::new();
    y.terms.push(Term::new(1, None, det(&[1], &[1])));
    y.without_zero_dets(2, &mut zero);
    assert!(zero.contains(&det(&[1], &[2])));
}

#[test]
fn sum_with_a_variable_term_records_nothing() {
    let mut zero = ZeroDets::new();
    let mut sum = TermSum::new();
    sum.terms.push(Term::new(2, Some([0, 0]), det(&[1, 2], &[0, 1])));
    assert!(sum.without_zero_dets(2, &mut zero).is_some());
    assert!(!zero.contains(&det(&[1, 2], &[0, 1])));
}

#[test]
fn reachable_cases_of_the_cascades() {
    let (live2, zero2) = live_sums(2);
    assert_eq!(live2.len(), 19);
    assert_eq!(live2[0].1.terms, vec![Term::new(1, None, det(&[0, 1, 2], &[0, 1, 2]))]);
    assert_eq!(live2[2].1.terms, vec![Term::new(1, None, det(&[1, 2], &[0, 1]))]);
    assert!(zero2.contains(&det(&[1, 2], &[0, 1])));
    let (live3, _) = live_sums(3);
    assert_eq!(live3.len(), 74);
    let (live1, _) = live_sums(1);
    assert_eq!(live1.len(), 6);
}

fn sum_of(terms: Vec<Term>) -> TermSum {
    let mut sum = TermSum::new();
    sum.terms = terms;
    sum
}

#[test]
fn patterns_of_single_terms() {
    assert_eq!(sum_of(vec![Term::new(1, None, det(&[0, 1, 2], &[0, 1, 2]))]).pattern(2), Some(Pattern::Full));
    assert_eq!(sum_of(vec![Term::new(-1, None, det(&[1, 2], &[0, 2]))]).pattern(2), Some(Pattern::Lifted));
    assert_eq!(sum_of(vec![Term::new(1, None, det(&[2], &[1]))]).pattern(2), Some(Pattern::Coordinate { axis: 1 }));
    assert_eq!(sum_of(vec![Term::new(1, None, det(&[1, 2], &[0, 1]))]).pattern(2), Some(Pattern::Projection));
    assert_eq!(sum_of(vec![Term::new(1, None, det(&[], &[]))]).pattern(2), Some(Pattern::Projection));
    assert_eq!(sum_of(vec![Term::new(2, Some([0, 0]), det(&[1], &[1]))]).pattern(2), None);
}

#[test]
fn patterns_of_two_terms() {
    let lifted = Term::new(1, None, det(&[1, 2], &[0, 2]));
    let varied = Term::new(2, Some([0, 1]), det(&[1, 2], &[0, 1]));
    let other = Term::new(-2, Some([0, 0]), det(&[1, 2], &[0, 1]));
    assert_eq!(sum_of(vec![lifted.clone(), varied.clone()]).pattern(2), Some(Pattern::LiftedPlusCoordinate));
    assert_eq!(sum_of(vec![varied.clone(), other.clone()]).pattern(2), Some(Pattern::CoordinatePair));
    let elsewhere = Term::new(2, Some([0, 0]), det(&[1, 2], &[1, 2]));
    assert_eq!(sum_of(vec![varied.clone(), elsewhere]).pattern(2), None);
    assert_eq!(sum_of(vec![lifted.clone(), lifted.clone()]).pattern(2), None);
    assert_eq!(sum_of(vec![lifted, varied, other]).pattern(2), None);
}

fn pattern_counts(dim: usize) -> (usize, [usize; 6]) {
    let mut live = 0;
    let mut counts = [0; 6];
    for (_, sum) in reduce_sums(term_sums(dim), dim) {
        if let Some(sum) = sum {
            live += 1;
            let slot = match sum.pattern(dim).unwrap() {
                Pattern::Full => 0,
                Pattern::Lifted => 1,
                Pattern::Coordinate { .. } => 2,
                Pattern::Projection => 3,
                Pattern::LiftedPlusCoordinate => 4,
                Pattern::CoordinatePair => 5,
            };
            counts[slot] += 1;
        }
    }
    (live, counts)
}

#[test]
fn every_reachable_case_has_a_pattern() {
    assert_eq!(pattern_counts(1), (6, [1, 0, 1, 1, 2, 1]));
    assert_eq!(pattern_counts(2), (19, [1, 2, 4, 3, 5, 4]));
    assert_eq!(pattern_counts(3), (74, [1, 15, 8, 16, 18, 16]));
}

#[test]
fn reduction_threads_the_zero_determinants() {
    let reduced = reduce_sums(term_sums(2), 2);
    assert_eq!(reduced.len(), 30);
    assert_eq!(reduced[0].0, EFactor(0));
    assert_eq!(reduced[0].1.as_ref().unwrap().pattern(2), Some(Pattern::Full));
    let (live, _) = live_sums(2);
    let kept: Vec<EFactor> = reduced.iter().filter(|(_, s)| s.is_some()).map(|(e, _)| *e).collect();
    let expected: Vec<EFactor> = live.iter().map(|(e, _)| *e).collect();
    assert_eq!(kept, expected);
}

#[test]
fn reduction_drops_a_sum_whose_determinant_vanished_before() {
    let a = det(&[1], &[0]);
    let sums = vec![
        (EFactor(1), sum_of(vec![Term::new(1, None, a.clone())])),
        (EFactor(2), sum_of(vec![Term::new(-1, None, a.clone())])),
        (EFactor(3), sum_of(vec![Term::new(-1, None, a), Term::new(1, None, det(&[0], &[0]))])),
    ];
    let reduced = reduce_sums(sums, 1);
    assert!(reduced[0].1.is_some());
    assert!(reduced[1].1.is_none());
    assert_eq!(reduced[2].1.as_ref().unwrap().terms, vec![Term::new(1, None, det(&[0], &[0]))]);
}

#[test]
fn efactor_perturbations_read_back_the_digits() {
    assert_eq!(EFactor(102).perturbations(2, 4), vec![([0, 0], 1), ([1, 1], 2), ([2, 1], 1)]);
    assert_eq!(EFactor(0).perturbations(3, 5), vec![]);
    let e = EFactor::new(3, &[[0, 2], [1, 0], [1, 0]]);
    assert_eq!(e.perturbations(3, 5), vec![([0, 2], 1), ([1, 0], 2)]);
}
