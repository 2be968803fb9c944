use handel::contribution::{Contribution, SIGNATURE_SIZE};
use handel::identity::{Identity, CAPACITY};
use handel::partitioner::BinomialPartitioner;
use handel::registry::Registry;

fn members(p: &BinomialPartitioner, level: usize) -> Option<Vec<usize>> {
    p.identities_on(level).map(|id| id.to_vec())
}

fn contribution(members: &[usize]) -> Contribution {
    let mut id = Identity::new();
    for m in members {
        id.insert(*m);
    }
    Contribution::new(id, [0u8; SIGNATURE_SIZE])
}

#[test]
fn four_validators_have_three_levels() {
    let p = BinomialPartitioner::new(0, 4).unwrap();
    assert_eq!(p.levels(), 3);
    assert_eq!(p.size(), 4);
    assert_eq!(p.node_id(), 0);
    assert_eq!(members(&p, 0), Some(vec![0]));
    assert_eq!(members(&p, 1), Some(vec![1]));
    assert_eq!(members(&p, 2), Some(vec![2, 3]));
    assert_eq!(members(&p, 3), Some(vec![0, 1, 2, 3]));
    assert_eq!(members(&p, 4), None);
}

#[test]
fn level_sizes_are_the_sizes_of_the_level_sets() {
    let p = BinomialPartitioner::new(0, 4).unwrap();
    assert_eq!(p.level_size(0), 1);
    assert_eq!(p.level_size(1), 1);
    assert_eq!(p.level_size(2), 2);
    assert_eq!(p.level_size(3), 4);
    assert_eq!(p.level_size(4), 0);
}

#[test]
fn the_other_half_is_taken_on_each_level() {
    let p = BinomialPartitioner::new(5, 8).unwrap();
    assert_eq!(p.levels(), 4);
    assert_eq!(members(&p, 1), Some(vec![4]));
    assert_eq!(members(&p, 2), Some(vec![6, 7]));
    assert_eq!(members(&p, 3), Some(vec![0, 1, 2, 3]));
    assert_eq!(members(&p, 4), Some(vec![0, 1, 2, 3, 4, 5, 6, 7]));
}

#[test]
fn levels_past_the_last_validator_are_empty() {
    let p = BinomialPartitioner::new(4, 5).unwrap();
    assert_eq!(p.levels(), 4);
    assert_eq!(members(&p, 1), Some(vec![]));
    assert_eq!(members(&p, 2), Some(vec![]));
    assert_eq!(members(&p, 3), Some(vec![0, 1, 2, 3]));
    assert_eq!(p.level_size(1), 0);
    assert_eq!(p.level_size(2), 0);
    assert_eq!(p.level_size(3), 4);
    assert_eq!(p.level_size(4), 5);
}

#[test]
fn a_level_is_cut_at_the_last_validator() {
    let p = BinomialPartitioner::new(0, 3).unwrap();
    assert_eq!(p.levels(), 3);
    assert_eq!(members(&p, 2), Some(vec![2]));
    assert_eq!(p.level_size(2), 1);
}

#[test]
fn one_validator_has_one_level() {
    let p = BinomialPartitioner::new(0, 1).unwrap();
    assert_eq!(p.levels(), 1);
    assert_eq!(members(&p, 1), Some(vec![0]));
}

#[test]
fn level_counts_follow_the_number_of_validators() {
    assert_eq!(BinomialPartitioner::new(0, 2).unwrap().levels(), 2);
    assert_eq!(BinomialPartitioner::new(0, 5).unwrap().levels(), 4);
    assert_eq!(BinomialPartitioner::new(0, 8).unwrap().levels(), 4);
    assert_eq!(BinomialPartitioner::new(0, 9).unwrap().levels(), 5);
    assert_eq!(BinomialPartitioner::new(0, CAPACITY).unwrap().levels(), 17);
}

#[test]
fn partitioner_refuses_what_is_not_a_node_of_the_set() {
    assert!(BinomialPartitioner::new(0, 0).is_none());
    assert!(BinomialPartitioner::new(4, 4).is_none());
    assert!(BinomialPartitioner::new(0, CAPACITY + 1).is_none());
    assert!(BinomialPartitioner::new(CAPACITY - 1, CAPACITY).is_some());
}

#[test]
fn levels_of_a_node_are_disjoint_and_cover_all() {
    for n in 1..20usize {
        for node in 0..n {
            let p = BinomialPartitioner::new(node, n).unwrap();
            let mut seen = vec![0u32; n];
            for level in 0..p.levels() {
                for m in members(&p, level).unwrap() {
                    seen[m] += 1;
                }
            }
            assert_eq!(seen, vec![1u32; n]);
        }
    }
}

#[test]
fn registry_projects_on_known_validators() {
    let r = Registry::new(vec![Some(1), None, Some(3)]).unwrap();
    let mut id = Identity::new();
    id.insert(0);
    id.insert(1);
    id.insert(2);
    id.insert(7);
    assert_eq!(r.signers_identity(&id).to_vec(), vec![0, 2]);
    assert_eq!(r.weight(0), Some(1));
    assert_eq!(r.weight(1), None);
    assert_eq!(r.weight(2), Some(3));
    assert_eq!(r.weight(3), None);
}

#[test]
fn signature_weight_sums_the_weights_of_the_signers() {
    let r = Registry::new(vec![Some(1), Some(10), Some(100), Some(1000)]).unwrap();
    assert_eq!(r.signature_weight(&contribution(&[0, 2, 3])), Some(1101));
    assert_eq!(r.signature_weight(&contribution(&[])), Some(0));
    assert_eq!(r.signature_weight(&contribution(&[1])), Some(10));
}

#[test]
fn signature_weight_is_none_for_an_unknown_signer() {
    let r = Registry::new(vec![Some(1), None, Some(3)]).unwrap();
    assert_eq!(r.signature_weight(&contribution(&[0, 1])), None);
    assert_eq!(r.signature_weight(&contribution(&[0, 5])), None);
    assert_eq!(r.signature_weight(&contribution(&[0, 2])), Some(4));
}

#[test]
fn registry_refuses_weights_that_overflow() {
    assert!(Registry::new(vec![Some(usize::MAX), Some(1)]).is_none());
    assert!(Registry::new(vec![Some(usize::MAX), Some(0), None]).is_some());
    assert!(Registry::new(vec![None; CAPACITY + 1]).is_none());
    assert!(Registry::new(vec![]).is_some());
}
