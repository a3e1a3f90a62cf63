use segquery::docset::{DocSet, TERMINATED};
use segquery::scorer::{Scorer, VecScorer, ConstScorer};
use segquery::score_combiner::{ScoreCombiner, DoNothingCombiner, SumWithCoordsCombiner};
use segquery::union::scorer_union;
use segquery::intersection::intersect_scorers;
use segquery::exclude::exclude;
use segquery::required_optional::required_optional;
use segquery::twophase::TwoPhaseApproximation;

fn vs(docs: Vec<u32>, scores: Vec<u64>) -> VecScorer {
    VecScorer::new(docs, scores)
}

#[test]
fn union_merges_and_combines() {
    let a = vs(vec![1, 3, 5], vec![10, 10, 10]);
    let b = vs(vec![3, 4], vec![20, 20]);
    let u = scorer_union::<SumWithCoordsCombiner>(vec![a, b]);
    assert_eq!(u.docs, vec![1, 3, 4, 5]);
    // Sum of matching sub-scores, scaled by matched/total (2 inputs).
    assert_eq!(u.scores, vec![10 * 1 / 2, (10 + 20) * 2 / 2, 20 * 1 / 2, 10 * 1 / 2]);
}

#[test]
fn union_of_one_is_that_scorer_unchanged() {
    let a = vs(vec![2, 7], vec![5, 6]);
    let u = scorer_union::<SumWithCoordsCombiner>(vec![a]);
    assert_eq!(u.docs, vec![2, 7]);
    assert_eq!(u.scores, vec![5, 6]);
}

#[test]
fn union_do_nothing_combiner_scores_zero() {
    let a = vs(vec![1, 3], vec![10, 10]);
    let b = vs(vec![3, 4], vec![20, 20]);
    let u = scorer_union::<DoNothingCombiner>(vec![a, b]);
    assert_eq!(u.docs, vec![1, 3, 4]);
    assert_eq!(u.scores, vec![0, 0, 0]);
}

#[test]
fn intersection_is_exact_and_sums_scores() {
    let a = vs(vec![1, 3, 5], vec![1, 2, 3]);
    let b = vs(vec![3, 5, 9], vec![10, 20, 30]);
    let i = intersect_scorers(vec![a, b]);
    assert_eq!(i.docs, vec![3, 5]);
    assert_eq!(i.scores, vec![12, 23]);
}

#[test]
fn intersection_three_way() {
    let a = vs(vec![1, 2, 3, 4, 5], vec![1, 1, 1, 1, 1]);
    let b = vs(vec![2, 4, 6], vec![2, 2, 2]);
    let c = vs(vec![0, 2, 4], vec![3, 3, 3]);
    let i = intersect_scorers(vec![a, b, c]);
    assert_eq!(i.docs, vec![2, 4]);
    assert_eq!(i.scores, vec![6, 6]);
}

#[test]
fn intersection_of_one_is_that_scorer() {
    let a = vs(vec![4, 8], vec![1, 2]);
    let i = intersect_scorers(vec![a]);
    assert_eq!(i.docs, vec![4, 8]);
    assert_eq!(i.scores, vec![1, 2]);
}

#[test]
fn exclusion_removes_excluded_documents() {
    let positive = vs(vec![1, 2, 3, 4], vec![1, 2, 3, 4]);
    let excluded = vs(vec![2, 4, 7], vec![0, 0, 0]);
    let e = exclude(positive, excluded);
    assert_eq!(e.docs, vec![1, 3]);
    // Scores are always the positive scorer's own.
    assert_eq!(e.scores, vec![1, 3]);
}

#[test]
fn required_optional_keeps_required_docs_and_adds_bonus() {
    let required = vs(vec![2, 4], vec![5, 6]);
    let optional = vs(vec![4, 9], vec![7, 70]);
    let r = required_optional(required, optional);
    // Matching is governed solely by the required scorer.
    assert_eq!(r.docs, vec![2, 4]);
    // Equal score where the optional side misses, strictly greater where it
    // matches.
    assert_eq!(r.scores, vec![5, 13]);
    assert!(r.scores[0] >= 5 && r.scores[1] > 6);
}

#[test]
fn seek_lands_where_repeated_advance_would() {
    let mut s = vs(vec![2, 5, 9], vec![0, 0, 0]);
    let mut t = vs(vec![2, 5, 9], vec![0, 0, 0]);
    // seek(3) must land on the first document >= 3...
    let landed = s.seek(3);
    assert_eq!(landed, 5);
    assert!(landed >= 3);
    // ...which is exactly what repeated advance() reaches.
    let mut reached = t.doc();
    while reached != TERMINATED && reached < 3 {
        reached = t.advance();
    }
    assert_eq!(landed, reached);
    // Seeking to the already-current document is a no-op.
    assert_eq!(s.seek(5), 5);
    assert_eq!(s.doc(), 5);
    // Seeking past the end terminates, and the set stays terminated.
    assert_eq!(s.seek(100), TERMINATED);
    assert_eq!(s.advance(), TERMINATED);
    assert_eq!(s.advance(), TERMINATED);
}

#[test]
fn doc_and_size_hint_do_not_move_the_cursor() {
    let mut s = vs(vec![3, 6], vec![1, 2]);
    assert_eq!(s.doc(), 3);
    assert_eq!(s.doc(), 3);
    assert_eq!(s.size_hint(), 2);
    assert_eq!(s.size_hint(), 2);
    assert_eq!(s.doc(), 3);
    assert_eq!(s.score(), 1);
    assert_eq!(s.advance(), 6);
    assert_eq!(s.size_hint(), 1);
    assert_eq!(s.doc(), 6);
}

#[test]
fn empty_scorer_is_immediately_terminated() {
    let mut s = VecScorer::empty();
    assert_eq!(s.doc(), TERMINATED);
    assert_eq!(s.advance(), TERMINATED);
}

#[test]
fn sum_with_coords_combiner_formula() {
    assert_eq!(SumWithCoordsCombiner::combine(&vec![10, 20], 3), (10 + 20) * 2 / 3);
    assert_eq!(SumWithCoordsCombiner::combine(&vec![7], 1), 7);
    assert_eq!(DoNothingCombiner::combine(&vec![10, 20], 3), 0);
}

#[test]
fn const_scorer_reports_constant_score() {
    let inner = vs(vec![1, 4], vec![9, 9]);
    let mut c = ConstScorer::new(inner, 42);
    assert_eq!(c.doc(), 1);
    assert_eq!(c.score(), 42);
    assert_eq!(c.advance(), 4);
    assert_eq!(c.score(), 42);
    assert_eq!(c.advance(), TERMINATED);
}

#[test]
fn const_scorer_from_docset_scores_one() {
    let inner = vs(vec![2, 3], vec![8, 9]);
    let mut c = ConstScorer::from(inner);
    assert_eq!(c.doc(), 2);
    assert_eq!(c.score(), 1);
    assert_eq!(c.advance(), 3);
    assert_eq!(c.score(), 1);
}

#[test]
fn two_phase_approximation_delegates_and_unwraps() {
    let inner = vs(vec![5, 8], vec![1, 2]);
    let mut wrapped = TwoPhaseApproximation::new(inner);
    assert_eq!(wrapped.doc(), 5);
    assert_eq!(wrapped.advance(), 8);
    let back = wrapped.approximation();
    assert_eq!(back.doc(), 8);
}

#[test]
fn for_each_hands_over_every_pair() {
    let mut s = vs(vec![1, 3, 5], vec![10, 20, 30]);
    let mut seen: Vec<(u32, u64)> = Vec::new();
    s.for_each(&mut |d: u32, sc: u64| seen.push((d, sc)));
    assert_eq!(seen, vec![(1, 10), (3, 20), (5, 30)]);
    assert_eq!(s.doc(), TERMINATED);
}

#[test]
fn for_each_pruning_honors_dynamic_threshold() {
    let mut s = vs(vec![1, 2, 3, 4], vec![10, 5, 20, 15]);
    let mut seen: Vec<(u32, u64)> = Vec::new();
    // Each call raises the threshold to the score it saw.
    s.for_each_pruning(7, &mut |d: u32, sc: u64| {
        seen.push((d, sc));
        sc
    });
    // 10 > 7 (threshold becomes 10), 5 skipped, 20 > 10 (becomes 20),
    // 15 skipped.
    assert_eq!(seen, vec![(1, 10), (3, 20)]);
}
