use std::collections::BTreeSet;

use handel::identity::{Identity, CAPACITY, MAX_WORDS};

fn set_of(members: &[usize]) -> Identity {
    let mut id = Identity::new();
    for m in members {
        id.insert(*m);
    }
    id
}

#[test]
fn single_holds_its_member_only() {
    let id = Identity::single(5);
    assert!(id.contains(5));
    assert!(!id.contains(4));
    assert_eq!(id.len(), 1);
    assert_eq!(id.as_single(), Some(5));
}

#[test]
fn empty_set_has_no_member() {
    let id = Identity::new();
    assert!(id.is_empty());
    assert_eq!(id.len(), 0);
    assert_eq!(id.min(), None);
    assert_eq!(id.as_single(), None);
    assert_eq!(id.nth(0), None);
    assert!(!id.contains(0));
    assert_eq!(id.to_vec(), Vec::<usize>::new());
}

#[test]
fn len_counts_members_across_words() {
    let id = set_of(&[0, 1, 63, 64, 65, 127, 128, 4000, 65535]);
    assert_eq!(id.len(), 9);
    assert_eq!(id.to_vec(), vec![0, 1, 63, 64, 65, 127, 128, 4000, 65535]);
    assert!(!id.is_empty());
}

#[test]
fn insert_twice_is_insert_once() {
    let mut id = Identity::single(70);
    id.insert(70);
    assert_eq!(id.len(), 1);
    assert_eq!(id.to_vec(), vec![70]);
}

#[test]
fn largest_index_is_held() {
    let id = Identity::single(CAPACITY - 1);
    assert!(id.contains(CAPACITY - 1));
    assert_eq!(id.to_words().len(), MAX_WORDS);
    assert_eq!(id.min(), Some(CAPACITY - 1));
}

#[test]
fn contains_beyond_the_words_is_false() {
    let id = Identity::single(3);
    assert!(!id.contains(64));
    assert!(!id.contains(usize::MAX));
}

#[test]
fn range_holds_lo_up_to_hi() {
    let id = Identity::range(62, 67);
    assert_eq!(id.to_vec(), vec![62, 63, 64, 65, 66]);
    assert_eq!(Identity::range(5, 5).len(), 0);
    assert_eq!(Identity::range(9, 4).len(), 0);
}

#[test]
fn superset_is_told_across_lengths() {
    let big = set_of(&[1, 2, 3, 100]);
    let small = set_of(&[2, 100]);
    let other = set_of(&[2, 200]);
    assert!(big.is_superset_of(&small));
    assert!(!small.is_superset_of(&big));
    assert!(!big.is_superset_of(&other));
    assert!(big.is_superset_of(&big));
    assert!(big.is_superset_of(&Identity::new()));
    assert!(Identity::new().is_superset_of(&Identity::new()));
}

#[test]
fn intersection_size_counts_shared_members() {
    let a = set_of(&[0, 1, 2, 64, 300]);
    let b = set_of(&[1, 2, 3, 64]);
    assert_eq!(a.intersection_size(&b), 3);
    assert_eq!(b.intersection_size(&a), 3);
    assert_eq!(a.intersection_size(&Identity::new()), 0);
    assert_eq!(a.intersection(&b).to_vec(), vec![1, 2, 64]);
}

#[test]
fn combine_with_overlap_is_union() {
    let mut a = set_of(&[0, 1]);
    let b = set_of(&[1, 2, 130]);
    a.combine(&b, true);
    assert_eq!(a.to_vec(), vec![0, 1, 2, 130]);
}

#[test]
fn combine_of_disjoint_sets_is_union() {
    let mut a = set_of(&[0, 1]);
    let b = set_of(&[2, 3]);
    a.combine(&b, false);
    assert_eq!(a.to_vec(), vec![0, 1, 2, 3]);
    assert_eq!(a.len(), 4);
}

#[test]
fn symmetric_difference_holds_members_of_exactly_one() {
    let a = set_of(&[0, 1, 2, 70]);
    let b = set_of(&[1, 2, 3]);
    assert_eq!(a.symmetric_difference(&b).to_vec(), vec![0, 3, 70]);
    assert_eq!(a.symmetric_difference(&a).len(), 0);
}

#[test]
fn min_and_nth_follow_rising_order() {
    let id = set_of(&[9, 64, 200]);
    assert_eq!(id.min(), Some(9));
    assert_eq!(id.nth(0), Some(9));
    assert_eq!(id.nth(1), Some(64));
    assert_eq!(id.nth(2), Some(200));
    assert_eq!(id.nth(3), None);
}

#[test]
fn as_single_is_none_for_two_members() {
    assert_eq!(set_of(&[1, 2]).as_single(), None);
}

#[test]
fn words_round_trip() {
    let id = set_of(&[0, 2, 64]);
    assert_eq!(id.to_words(), vec![5u64, 1u64]);
    let back = Identity::from_words(vec![5, 1]).unwrap();
    assert_eq!(back.to_vec(), vec![0, 2, 64]);
}

#[test]
fn from_words_refuses_too_many_words() {
    assert!(Identity::from_words(vec![0u64; MAX_WORDS]).is_some());
    assert!(Identity::from_words(vec![0u64; MAX_WORDS + 1]).is_none());
}

#[test]
fn clone_is_the_same_set() {
    let id = set_of(&[4, 99]);
    let copy = id.clone();
    assert_eq!(copy.to_vec(), id.to_vec());
}

/// A small generator of numbers that repeats itself run after run.
struct Numbers(u64);

impl Numbers {
    fn next(&mut self) -> u64 {
        self.0 = self.0.wrapping_mul(6364136223846793005).wrapping_add(1442695040888963407);
        self.0 >> 33
    }
}

#[test]
fn operations_agree_with_sets_of_the_standard_library() {
    let mut numbers = Numbers(7);
    for round in 0..200 {
        let universe = [1usize, 10, 64, 65, 200, 1000][round % 6];
        let mut a = BTreeSet::new();
        let mut b = BTreeSet::new();
        for _ in 0..(numbers.next() % 40) {
            a.insert(numbers.next() as usize % universe);
        }
        for _ in 0..(numbers.next() % 40) {
            b.insert(numbers.next() as usize % universe);
        }
        let ia = set_of(&a.iter().copied().collect::<Vec<_>>());
        let ib = set_of(&b.iter().copied().collect::<Vec<_>>());
        assert_eq!(ia.len(), a.len());
        assert_eq!(ia.is_empty(), a.is_empty());
        assert_eq!(ia.to_vec(), a.iter().copied().collect::<Vec<_>>());
        assert_eq!(ia.min(), a.iter().next().copied());
        assert_eq!(ia.intersection_size(&ib), a.intersection(&b).count());
        assert_eq!(ia.is_superset_of(&ib), a.is_superset(&b));
        assert_eq!(
            ia.intersection(&ib).to_vec(),
            a.intersection(&b).copied().collect::<Vec<_>>()
        );
        assert_eq!(
            ia.symmetric_difference(&ib).to_vec(),
            a.symmetric_difference(&b).copied().collect::<Vec<_>>()
        );
        let mut union = ia.clone();
        union.combine(&ib, true);
        assert_eq!(union.to_vec(), a.union(&b).copied().collect::<Vec<_>>());
        for (k, member) in a.iter().enumerate() {
            assert_eq!(ia.nth(k), Some(*member));
        }
        assert_eq!(ia.nth(a.len()), None);
        for x in 0..universe + 3 {
            assert_eq!(ia.contains(x), a.contains(&x));
        }
    }
}
