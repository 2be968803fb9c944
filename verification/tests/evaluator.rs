use std::sync::Arc;

use handel::contribution::{Contribution, LevelUpdate, SIGNATURE_SIZE};
use handel::evaluator::{
    check_update, score, score_on_level, Evaluator, VerificationError, WeightedVote,
    COMPLETES_LEVEL_BASE_SCORE, COMPLETES_LEVEL_LEVEL_PENALTY, IMPROVEMENT_ADDED_SIG_BONUS,
    IMPROVEMENT_BASE_SCORE, IMPROVEMENT_LEVEL_PENALTY,
};
use handel::identity::Identity;
use handel::partitioner::BinomialPartitioner;
use handel::registry::Registry;
use handel::store::{LevelState, ReplaceStore};

fn set_of(members: &[usize]) -> Identity {
    let mut id = Identity::new();
    for m in members {
        id.insert(*m);
    }
    id
}

fn contribution(members: &[usize]) -> Contribution {
    Contribution::new(set_of(members), [7u8; SIGNATURE_SIZE])
}

fn uniform(n: usize) -> Registry {
    Registry::new(vec![Some(1); n]).unwrap()
}

struct Fixture {
    store: ReplaceStore,
    registry: Registry,
    partitioner: BinomialPartitioner,
}

fn fixture(node: usize, n: usize) -> Fixture {
    let partitioner = BinomialPartitioner::new(node, n).unwrap();
    Fixture { store: ReplaceStore::new(&partitioner), registry: uniform(n), partitioner }
}

fn eval(f: &Fixture, members: &[usize], level: usize) -> usize {
    score(&f.store, &f.registry, &f.partitioner, &contribution(members), level)
}

#[test]
fn score_constants_are_as_specified() {
    assert_eq!(COMPLETES_LEVEL_BASE_SCORE, 1_000_000);
    assert_eq!(COMPLETES_LEVEL_LEVEL_PENALTY, 10);
    assert_eq!(IMPROVEMENT_BASE_SCORE, 100_000);
    assert_eq!(IMPROVEMENT_LEVEL_PENALTY, 100);
    assert_eq!(IMPROVEMENT_ADDED_SIG_BONUS, 10);
}

#[test]
fn final_level_scores_max() {
    let f = fixture(0, 4);
    assert_eq!(eval(&f, &[0, 1, 2, 3], 3), usize::MAX);
    assert_eq!(eval(&f, &[], 3), usize::MAX);
}

#[test]
fn levels_outside_the_partition_score_zero() {
    let f = fixture(0, 4);
    assert_eq!(eval(&f, &[1], 0), 0);
    assert_eq!(eval(&f, &[1], 4), 0);
    assert_eq!(eval(&f, &[1], usize::MAX), 0);
}

#[test]
fn empty_contribution_scores_zero() {
    let f = fixture(0, 8);
    assert_eq!(eval(&f, &[], 2), 0);
}

#[test]
fn unknown_signers_are_projected_away() {
    let partitioner = BinomialPartitioner::new(0, 8).unwrap();
    let f = Fixture {
        store: ReplaceStore::new(&partitioner),
        registry: Registry::new(vec![Some(1), Some(1), None, Some(1)]).unwrap(),
        partitioner,
    };
    // Signer 2 is unknown: nothing is left of the contribution.
    assert_eq!(eval(&f, &[2], 2), 0);
    // Signers 2 and 3: 3 is left, one of two on level two.
    assert_eq!(eval(&f, &[2, 3], 2), 100_000 - 200 + 10);
}

#[test]
fn a_contribution_that_completes_its_level_scores_highest() {
    let f = fixture(0, 8);
    // Level three of node 0 holds 4, 5, 6, 7.
    assert_eq!(eval(&f, &[4, 5, 6, 7], 3), 1_000_000 - 30);
    assert_eq!(eval(&f, &[2, 3], 2), 1_000_000 - 20);
    assert_eq!(eval(&f, &[1], 1), 1_000_000 - 10);
}

#[test]
fn an_improvement_scores_by_what_it_adds() {
    let f = fixture(0, 8);
    assert_eq!(eval(&f, &[4, 5], 3), 100_000 - 300 + 20);
    assert_eq!(eval(&f, &[4, 5, 6], 3), 100_000 - 300 + 30);
    assert_eq!(eval(&f, &[4], 3), 100_000 - 300 + 10);
}

#[test]
fn individuals_fill_in_and_count_against_the_score() {
    let mut f = fixture(0, 8);
    assert!(f.store.put_individual(3, contribution(&[6])));
    assert!(f.store.put_individual(3, contribution(&[7])));
    // No best yet: 4 and 5 come with the individuals 6 and 7 to all four.
    assert_eq!(eval(&f, &[4, 5], 3), 1_000_000 - 30 - 2);
    // 4 alone comes with them to three of four.
    assert_eq!(eval(&f, &[4], 3), 100_000 - 300 + 30 - 2);
}

#[test]
fn a_disjoint_best_is_merged_in() {
    let mut f = fixture(0, 8);
    assert!(f.store.put_best(3, contribution(&[4])));
    // 5 joins the best 4: two of four, one added, nothing filled in.
    assert_eq!(eval(&f, &[5], 3), 100_000 - 300 + 10);
    // 5, 6 and 7 join the best 4: the level is complete.
    assert_eq!(eval(&f, &[5, 6, 7], 3), 1_000_000 - 30);
    assert!(f.store.put_individual(3, contribution(&[7])));
    // 5 joins the best 4 and the individual 7: two added, one filled in.
    assert_eq!(eval(&f, &[5], 3), 100_000 - 300 + 20 - 1);
}

#[test]
fn an_overlapping_best_cannot_be_merged() {
    let mut f = fixture(0, 8);
    assert!(f.store.put_best(3, contribution(&[4, 5])));
    // 5 and 6 overlap the best: nothing added, and not an individual.
    assert_eq!(eval(&f, &[5, 6], 3), 0);
    // 5, 6 and 7 overlap the best but hold one more than it.
    assert_eq!(eval(&f, &[5, 6, 7], 3), 100_000 - 300 + 10);
}

#[test]
fn overlap_rejection_counts_verified_individuals() {
    // Best at level two has contributors {0, 1}; the incoming aggregate has
    // {1, 2}. The two overlap, so only individuals can be merged in.
    let mut state = LevelState::new(2, set_of(&[0, 1, 2, 3]));
    assert!(state.put_best(contribution(&[0, 1])));
    let identity = set_of(&[1, 2]);
    assert_eq!(score_on_level(&state, &identity, 2, 4, Some(2)), 0);
    assert!(state.put_individual(contribution(&[3])));
    // With the individual 3 there are three signers, one more than the best.
    assert_eq!(score_on_level(&state, &identity, 2, 4, Some(2)), 100_000 - 200 + 10 - 1);
}

#[test]
fn duplicate_individual_scores_zero_the_second_time() {
    let mut f = fixture(0, 4);
    let first = eval(&f, &[1], 1);
    assert_eq!(first, 1_000_000 - 10);
    assert!(f.store.put_individual(1, contribution(&[1])));
    assert_eq!(eval(&f, &[1], 1), 0);
}

#[test]
fn a_contribution_the_best_covers_scores_zero() {
    let mut f = fixture(0, 8);
    assert!(f.store.put_best(3, contribution(&[4, 5, 6])));
    assert_eq!(eval(&f, &[4, 5], 3), 0);
    assert_eq!(eval(&f, &[4, 5, 6], 3), 0);
    assert_eq!(eval(&f, &[6], 3), 0);
    assert!(eval(&f, &[7], 3) > 0);
}

#[test]
fn a_complete_level_scores_everything_zero() {
    let mut f = fixture(0, 4);
    assert!(f.store.put_best(1, contribution(&[1])));
    assert_eq!(eval(&f, &[1], 1), 0);
    assert_eq!(eval(&f, &[2], 1), 0);
    assert_eq!(eval(&f, &[2, 3], 1), 0);
    // Level two is not complete and still scores.
    assert_eq!(eval(&f, &[2, 3], 2), 1_000_000 - 20);
}

#[test]
fn a_new_individual_always_scores() {
    let mut f = fixture(0, 8);
    assert!(f.store.put_best(3, contribution(&[4, 5])));
    assert!(f.store.put_individual(3, contribution(&[4])));
    assert!(eval(&f, &[6], 3) > 0);
    assert!(eval(&f, &[7], 3) > 0);
}

fn update(aggregate: &[usize], individual: Option<&[usize]>, level: u8, origin: u16) -> LevelUpdate {
    LevelUpdate::new(contribution(aggregate), individual.map(contribution), level, origin)
}

#[test]
fn verifier_rejects_level_zero_and_short_full_aggregates() {
    let f = fixture(0, 4);
    match check_update(&f.registry, &f.partitioner, &update(&[1], None, 0, 1)) {
        Err(VerificationError::InvalidLevel { level, num_levels }) => {
            assert_eq!(level, 0);
            assert_eq!(num_levels, 3);
        }
        other => panic!("unexpected: {:?}", other),
    }
    match check_update(&f.registry, &f.partitioner, &update(&[0, 1, 2], None, 3, 1)) {
        Err(VerificationError::InvalidFullAggregate { weight, expected_weight }) => {
            assert_eq!(weight, 3);
            assert_eq!(expected_weight, 4);
        }
        other => panic!("unexpected: {:?}", other),
    }
}

#[test]
fn verifier_rejects_levels_beyond_the_top() {
    let f = fixture(0, 4);
    match check_update(&f.registry, &f.partitioner, &update(&[1], None, 4, 1)) {
        Err(VerificationError::InvalidLevel { level, num_levels }) => {
            assert_eq!(level, 4);
            assert_eq!(num_levels, 3);
        }
        other => panic!("unexpected: {:?}", other),
    }
}

#[test]
fn verifier_accepts_a_full_aggregate_on_the_top_level() {
    let f = fixture(0, 4);
    assert!(check_update(&f.registry, &f.partitioner, &update(&[0, 1, 2, 3], None, 3, 2)).is_ok());
}

#[test]
fn verifier_rejects_an_origin_that_is_not_on_the_level() {
    let f = fixture(0, 4);
    match check_update(&f.registry, &f.partitioner, &update(&[2], None, 2, 1)) {
        Err(VerificationError::InvalidOrigin { origin, allowed_contributors }) => {
            assert_eq!(origin, 1);
            assert_eq!(allowed_contributors.to_vec(), vec![2, 3]);
        }
        other => panic!("unexpected: {:?}", other),
    }
}

#[test]
fn verifier_rejects_an_individual_that_is_not_the_origins() {
    let f = fixture(0, 4);
    match check_update(&f.registry, &f.partitioner, &update(&[2], Some(&[3]), 2, 2)) {
        Err(VerificationError::InvalidIndividualContribution { num_contributors, contains_origin }) => {
            assert_eq!(num_contributors, 1);
            assert!(!contains_origin);
        }
        other => panic!("unexpected: {:?}", other),
    }
    match check_update(&f.registry, &f.partitioner, &update(&[2], Some(&[2, 3]), 2, 2)) {
        Err(VerificationError::InvalidIndividualContribution { num_contributors, contains_origin }) => {
            assert_eq!(num_contributors, 2);
            assert!(contains_origin);
        }
        other => panic!("unexpected: {:?}", other),
    }
}

#[test]
fn verifier_rejects_contributors_outside_the_level() {
    let f = fixture(0, 4);
    match check_update(&f.registry, &f.partitioner, &update(&[1, 2], Some(&[2]), 2, 2)) {
        Err(VerificationError::InvalidContributors { contributors, allowed_contributors }) => {
            assert_eq!(contributors.to_vec(), vec![1, 2]);
            assert_eq!(allowed_contributors.to_vec(), vec![2, 3]);
        }
        other => panic!("unexpected: {:?}", other),
    }
}

#[test]
fn verifier_accepts_a_well_formed_update() {
    let f = fixture(0, 4);
    assert!(check_update(&f.registry, &f.partitioner, &update(&[2, 3], Some(&[2]), 2, 2)).is_ok());
    assert!(check_update(&f.registry, &f.partitioner, &update(&[3], None, 2, 3)).is_ok());
    assert!(check_update(&f.registry, &f.partitioner, &update(&[1], Some(&[1]), 1, 1)).is_ok());
}

#[test]
fn weighted_vote_scores_against_the_shared_store() {
    let partitioner = BinomialPartitioner::new(0, 4).unwrap();
    let store = Arc::new(parking_lot::RwLock::new(ReplaceStore::new(&partitioner)));
    let vote = WeightedVote::new(store.clone(), Arc::new(uniform(4)), Arc::new(partitioner));
    assert_eq!(vote.evaluate(&contribution(&[2]), 2, 7u64), 100_000 - 200 + 10);
    assert!(store.write().put_best(2, contribution(&[2])));
    // The evaluator sees what was written through the lock.
    assert_eq!(vote.evaluate(&contribution(&[2]), 2, 7u64), 0);
    assert_eq!(vote.evaluate(&contribution(&[3]), 2, 7u64), 1_000_000 - 20);
    assert_eq!(vote.evaluate(&contribution(&[3]), 3, "id"), usize::MAX);
}

#[test]
fn weighted_vote_verifies_updates() {
    let partitioner = BinomialPartitioner::new(0, 4).unwrap();
    let store = Arc::new(parking_lot::RwLock::new(ReplaceStore::new(&partitioner)));
    let vote = WeightedVote::new(store, Arc::new(uniform(4)), Arc::new(partitioner));
    assert!(vote.verify(&update(&[2, 3], Some(&[2]), 2, 2)).is_ok());
    assert!(matches!(
        vote.verify(&update(&[2, 3], Some(&[2]), 0, 2)),
        Err(VerificationError::InvalidLevel { level: 0, num_levels: 3 })
    ));
}
