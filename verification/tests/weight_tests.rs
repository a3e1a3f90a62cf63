use segquery::docset::{DocSet, TERMINATED};
use segquery::postings::{Term, SegmentPostings, FieldNormReader, SegmentReader};
use segquery::similarity::SimilarityWeight;
use segquery::phrase_weight::PhraseWeight;
use segquery::boolean_weight::BooleanWeight;
use segquery::weight::{Occur, SubWeight, Weight};
use segquery::twophase::TwoPhase;
use segquery::explanation::QueryError;

const TEXT_FIELD: u32 = 0;

fn term(token: u64) -> Term {
    Term::from_field_token(TEXT_FIELD, token)
}

/// The segment for the documents "a c", "a a b d a b c" and " a b"
/// (whitespace tokenization; tokens a=1, b=2, c=3, d=4).
fn abc_reader() -> SegmentReader {
    let postings = vec![
        (term(1), SegmentPostings::new(vec![0, 1, 2], vec![vec![0], vec![0, 1, 4], vec![0]])),
        (term(2), SegmentPostings::new(vec![1, 2], vec![vec![2, 5], vec![1]])),
        (term(3), SegmentPostings::new(vec![0, 1], vec![vec![1], vec![6]])),
        (term(4), SegmentPostings::new(vec![1], vec![vec![3]])),
    ];
    let fieldnorms = vec![(TEXT_FIELD, FieldNormReader::new(vec![2, 7, 2]))];
    SegmentReader::new(postings, fieldnorms, Vec::new())
}

#[test]
pub fn test_phrase_count() {
    let reader = abc_reader();
    let phrase_weight = PhraseWeight::new(
        vec![(0, term(1)), (1, term(2))],
        SimilarityWeight::new(1),
        true,
    );
    let mut phrase_scorer = phrase_weight.phrase_scorer(&reader, 1).unwrap().unwrap();
    assert_eq!(phrase_scorer.doc(), 1);
    assert!(phrase_scorer.matches());
    assert_eq!(phrase_scorer.phrase_count(), 2);
    assert_eq!(phrase_scorer.advance(), 2);
    assert_eq!(phrase_scorer.doc(), 2);
    assert!(phrase_scorer.matches());
    assert_eq!(phrase_scorer.phrase_count(), 1);
    assert_eq!(phrase_scorer.advance(), TERMINATED);
}

#[test]
fn phrase_scorer_rejects_candidate_without_adjacency() {
    // Phrase ["b", "a"]: both terms occur in documents 1 and 2, but "b a"
    // never appears in document 2 (" a b").
    let reader = abc_reader();
    let phrase_weight = PhraseWeight::new(
        vec![(0, term(2)), (1, term(1))],
        SimilarityWeight::new(1),
        true,
    );
    let mut ps = phrase_weight.phrase_scorer(&reader, 1).unwrap().unwrap();
    // The approximation lands on every document containing both terms.
    assert_eq!(ps.doc(), 1);
    // In "a a b d a b c" the b at 2 is followed by d and the b at 5 by c,
    // so "b a" never occurs there either.
    assert!(!ps.matches());
    assert_eq!(ps.advance(), 2);
    assert!(!ps.matches());
    assert!(ps.match_cost() >= 1);
}

#[test]
fn phrase_for_each_hands_over_only_verified_candidates() {
    let reader = abc_reader();
    // "a b" matches documents 1 and 2 with counts 2 and 1.
    let forward = PhraseWeight::new(
        vec![(0, term(1)), (1, term(2))],
        SimilarityWeight::new(1),
        true,
    );
    let mut ps = forward.phrase_scorer(&reader, 1).unwrap().unwrap();
    let mut seen: Vec<(u32, u64)> = Vec::new();
    ps.for_each(&mut |d: u32, s: u64| seen.push((d, s)));
    assert_eq!(seen, vec![(1, 2), (2, 1)]);
    // "b a" has the same candidates but no positional match: nothing is
    // handed over, whatever the candidates' scores.
    let reversed = PhraseWeight::new(
        vec![(0, term(2)), (1, term(1))],
        SimilarityWeight::new(1),
        true,
    );
    let mut ps = reversed.phrase_scorer(&reader, 1).unwrap().unwrap();
    let mut seen: Vec<(u32, u64)> = Vec::new();
    ps.for_each(&mut |d: u32, s: u64| seen.push((d, s)));
    assert_eq!(seen, vec![]);
}

#[test]
fn phrase_for_each_pruning_honors_threshold_and_two_phase() {
    let reader = abc_reader();
    let forward = PhraseWeight::new(
        vec![(0, term(1)), (1, term(2))],
        SimilarityWeight::new(1),
        true,
    );
    let mut ps = forward.phrase_scorer(&reader, 1).unwrap().unwrap();
    let mut seen: Vec<(u32, u64)> = Vec::new();
    // Scores are 2 (doc 1) and 1 (doc 2); with threshold 1 only doc 1
    // qualifies, and its callback raises the threshold past doc 2.
    ps.for_each_pruning(1, &mut |d: u32, s: u64| {
        seen.push((d, s));
        s
    });
    assert_eq!(seen, vec![(1, 2)]);
}

#[test]
fn phrase_weight_scorer_applies_two_phase_check() {
    let reader = abc_reader();
    let phrase_weight = PhraseWeight::new(
        vec![(0, term(1)), (1, term(2))],
        SimilarityWeight::new(3),
        true,
    );
    let scorer = phrase_weight.scorer(&reader, 2).unwrap();
    // Documents 1 and 2 contain "a b" (counts 2 and 1); document 0 has no
    // "b" at all. Score = boosted similarity * phrase count.
    assert_eq!(scorer.docs, vec![1, 2]);
    assert_eq!(scorer.scores, vec![3 * 2 * 2, 3 * 2 * 1]);
}

#[test]
fn phrase_weight_missing_term_gives_empty_scorer() {
    let reader = abc_reader();
    let phrase_weight = PhraseWeight::new(
        vec![(0, term(1)), (1, term(99))],
        SimilarityWeight::new(1),
        true,
    );
    let mut scorer = phrase_weight.scorer(&reader, 1).unwrap();
    assert_eq!(scorer.advance(), TERMINATED);
}

#[test]
fn deleted_documents_never_surface() {
    let postings = vec![
        (term(1), SegmentPostings::new(vec![0, 1, 2], vec![vec![0], vec![0, 1, 4], vec![0]])),
        (term(2), SegmentPostings::new(vec![1, 2], vec![vec![2, 5], vec![1]])),
    ];
    let fieldnorms = vec![(TEXT_FIELD, FieldNormReader::new(vec![2, 7, 2]))];
    let reader = SegmentReader::new(postings, fieldnorms, vec![1]);
    let phrase_weight = PhraseWeight::new(
        vec![(0, term(1)), (1, term(2))],
        SimilarityWeight::new(1),
        true,
    );
    let scorer = phrase_weight.scorer(&reader, 1).unwrap();
    assert_eq!(scorer.docs, vec![2]);
}

fn single_term_clause(token: u64, score_needed: bool) -> SubWeight {
    SubWeight::Phrase(PhraseWeight::new(
        vec![(0, term(token))],
        SimilarityWeight::new(1),
        score_needed,
    ))
}

/// The segment for the documents "x", "x y", "x y z" and "y"
/// (tokens x=1, y=2, z=3).
fn xyz_reader() -> SegmentReader {
    let postings = vec![
        (term(1), SegmentPostings::new(vec![0, 1, 2], vec![vec![0], vec![0], vec![0]])),
        (term(2), SegmentPostings::new(vec![1, 2, 3], vec![vec![1], vec![1], vec![0]])),
        (term(3), SegmentPostings::new(vec![2], vec![vec![2]])),
    ];
    let fieldnorms = vec![(TEXT_FIELD, FieldNormReader::new(vec![1, 2, 3, 1]))];
    SegmentReader::new(postings, fieldnorms, Vec::new())
}

#[test]
fn boolean_weight_zero_clauses_is_empty() {
    let reader = xyz_reader();
    let bw = BooleanWeight::new(Vec::new(), true);
    let mut scorer = bw.scorer(&reader, 1).unwrap();
    assert_eq!(scorer.doc(), TERMINATED);
    assert_eq!(scorer.advance(), TERMINATED);
}

#[test]
fn boolean_weight_single_must_not_is_empty() {
    let reader = xyz_reader();
    let bw = BooleanWeight::new(vec![(Occur::MustNot, single_term_clause(1, true))], true);
    let mut scorer = bw.scorer(&reader, 1).unwrap();
    assert_eq!(scorer.advance(), TERMINATED);
}

#[test]
fn boolean_weight_single_clause_equals_clause_alone() {
    let reader = xyz_reader();
    let clause = single_term_clause(2, true);
    let alone = clause.scorer(&reader, 1).unwrap();
    let bw = BooleanWeight::new(vec![(Occur::Should, single_term_clause(2, true))], true);
    let wrapped = bw.scorer(&reader, 1).unwrap();
    assert_eq!(alone.docs, wrapped.docs);
    assert_eq!(alone.scores, wrapped.scores);
}

#[test]
fn boolean_weight_assembles_must_should_mustnot() {
    let reader = xyz_reader();
    let bw = BooleanWeight::new(
        vec![
            (Occur::Must, single_term_clause(1, true)),
            (Occur::Should, single_term_clause(2, true)),
            (Occur::MustNot, single_term_clause(3, true)),
        ],
        true,
    );
    let scorer = bw.scorer(&reader, 1).unwrap();
    // x matches {0,1,2}; z excludes 2; y raises the score of 1.
    assert_eq!(scorer.docs, vec![0, 1]);
    // Document 0: must side alone scores 1. Document 1: must sum 1 plus the
    // should bonus (1 * 1 / 1) = 2.
    assert_eq!(scorer.scores, vec![1, 2]);
}

#[test]
fn boolean_weight_scoring_disabled_keeps_matching() {
    let reader = xyz_reader();
    let bw = BooleanWeight::new(
        vec![
            (Occur::Must, single_term_clause(1, true)),
            (Occur::Should, single_term_clause(2, true)),
            (Occur::MustNot, single_term_clause(3, true)),
        ],
        false,
    );
    let scorer = bw.scorer(&reader, 1).unwrap();
    // The Should clause only affects scoring, so matching is unchanged.
    assert_eq!(scorer.docs, vec![0, 1]);
    // Without scoring, the positive side is the must bucket alone.
    assert_eq!(scorer.scores, vec![1, 1]);
}

#[test]
fn boolean_weight_should_clauses_coordination() {
    let reader = xyz_reader();
    let bw = BooleanWeight::new(
        vec![
            (Occur::Should, single_term_clause(1, true)),
            (Occur::Should, single_term_clause(2, true)),
        ],
        true,
    );
    let scorer = bw.scorer(&reader, 1).unwrap();
    assert_eq!(scorer.docs, vec![0, 1, 2, 3]);
    // One clause matching: 1 * 1 / 2 = 0; both matching: 2 * 2 / 2 = 2. A
    // document matching both Should clauses outscores one matching only
    // one.
    assert_eq!(scorer.scores, vec![0, 2, 2, 0]);
}

#[test]
fn boolean_weight_lone_should_with_exclusion_keeps_raw_scores() {
    let reader = xyz_reader();
    let bw = BooleanWeight::new(
        vec![
            (Occur::Should, single_term_clause(2, true)),
            (Occur::MustNot, single_term_clause(3, true)),
        ],
        false,
    );
    let scorer = bw.scorer(&reader, 1).unwrap();
    // y matches {1,2,3}; z excludes 2. A bucket of one scorer is returned
    // unwrapped, so its own scores survive even without scoring.
    assert_eq!(scorer.docs, vec![1, 3]);
    assert_eq!(scorer.scores, vec![1, 1]);
}

#[test]
fn explain_reports_does_not_match() {
    let reader = xyz_reader();
    let bw = BooleanWeight::new(
        vec![
            (Occur::Must, single_term_clause(1, true)),
            (Occur::MustNot, single_term_clause(3, true)),
        ],
        true,
    );
    // Document 3 has no x, document 2 is excluded by z.
    assert!(matches!(bw.explain(&reader, 3), Err(QueryError::DoesNotMatch(3))));
    assert!(matches!(bw.explain(&reader, 2), Err(QueryError::DoesNotMatch(2))));
    let ok = bw.explain(&reader, 1).unwrap();
    assert_eq!(ok.value, 1);
    // One matching positive clause is itemized; the MustNot clause never is.
    assert_eq!(ok.details.len(), 1);
    assert_eq!(ok.details[0].value, 1);
}

#[test]
fn explain_without_scoring_reports_fixed_value() {
    let reader = xyz_reader();
    let bw = BooleanWeight::new(
        vec![
            (Occur::Must, single_term_clause(1, true)),
            (Occur::Must, single_term_clause(2, true)),
        ],
        false,
    );
    let ok = bw.explain(&reader, 1).unwrap();
    assert_eq!(ok.value, 1);
    // The no-scoring explanation is fixed and non-decomposed.
    assert_eq!(ok.details.len(), 0);
    assert!(matches!(bw.explain(&reader, 0), Err(QueryError::DoesNotMatch(0))));
}

#[test]
fn phrase_explain_matches_and_fails() {
    let reader = abc_reader();
    let phrase_weight = PhraseWeight::new(
        vec![(0, term(1)), (1, term(2))],
        SimilarityWeight::new(1),
        true,
    );
    // Document 0 does not contain the phrase.
    assert!(matches!(phrase_weight.explain(&reader, 0), Err(QueryError::DoesNotMatch(0))));
    let ok = phrase_weight.explain(&reader, 1).unwrap();
    // Two occurrences of "a b" at similarity boost 1.
    assert_eq!(ok.value, 2);
    assert_eq!(ok.details.len(), 1);
    assert_eq!(ok.details[0].value, 2);
}

#[test]
fn nested_boolean_weights_compose() {
    let reader = xyz_reader();
    let inner = BooleanWeight::new(
        vec![
            (Occur::Should, single_term_clause(1, true)),
            (Occur::Should, single_term_clause(3, true)),
        ],
        true,
    );
    let bw = BooleanWeight::new(
        vec![
            (Occur::Must, SubWeight::Boolean(Box::new(inner))),
            (Occur::Must, single_term_clause(2, true)),
        ],
        true,
    );
    let scorer = bw.scorer(&reader, 1).unwrap();
    // (x OR z) AND y: {0,1,2} ∪ {2} = {0,1,2}; ∩ {1,2,3} = {1,2}.
    assert_eq!(scorer.docs, vec![1, 2]);
}
