use handel::aggregation::{
    collect, make_update, merge_verified, open_next_level, plan_final, plan_send, receive, start,
    AggregationError, Merged, Receipt, VerifyQueue,
};
use handel::contribution::{Contribution, LevelUpdate, SIGNATURE_SIZE};
use handel::evaluator::{check_update, score, VerificationError};
use handel::identity::Identity;
use handel::partitioner::BinomialPartitioner;
use handel::registry::Registry;
use handel::store::ReplaceStore;

fn set_of(members: &[usize]) -> Identity {
    let mut id = Identity::new();
    for m in members {
        id.insert(*m);
    }
    id
}

fn contribution(members: &[usize]) -> Contribution {
    Contribution::new(set_of(members), [3u8; SIGNATURE_SIZE])
}

fn update(aggregate: &[usize], individual: Option<&[usize]>, level: u8, origin: u16) -> LevelUpdate {
    LevelUpdate::new(contribution(aggregate), individual.map(contribution), level, origin)
}

fn tagged(origin: u16) -> LevelUpdate {
    update(&[origin as usize], None, 1, origin)
}

#[test]
fn queue_pops_highest_score_first_and_oldest_among_equals() {
    let mut q = VerifyQueue::new(10);
    assert!(q.is_empty());
    for (origin, score) in [(1u16, 5usize), (2, 9), (3, 9), (4, 1), (5, 9)] {
        assert!(q.push(tagged(origin), score).is_none());
    }
    assert_eq!(q.len(), 5);
    let order: Vec<(u16, usize)> =
        std::iter::from_fn(|| q.pop()).map(|p| (p.update.origin, p.score)).collect();
    assert_eq!(order, vec![(2, 9), (3, 9), (5, 9), (1, 5), (4, 1)]);
    assert!(q.pop().is_none());
    assert!(q.is_empty());
}

#[test]
fn a_full_queue_drops_the_lowest_score_oldest_first() {
    let mut q = VerifyQueue::new(3);
    assert!(q.push(tagged(1), 5).is_none());
    assert!(q.push(tagged(2), 2).is_none());
    assert!(q.push(tagged(3), 2).is_none());
    // The queue is full: the oldest of the two lowest goes.
    let evicted = q.push(tagged(4), 7).unwrap();
    assert_eq!((evicted.update.origin, evicted.score), (2, 2));
    // One that scores lowest itself is the one to go.
    let evicted = q.push(tagged(5), 1).unwrap();
    assert_eq!((evicted.update.origin, evicted.score), (5, 1));
    // One that ties with the lowest pushes the older one out.
    let evicted = q.push(tagged(6), 2).unwrap();
    assert_eq!((evicted.update.origin, evicted.score), (3, 2));
    assert_eq!(q.len(), 3);
    let order: Vec<u16> = std::iter::from_fn(|| q.pop()).map(|p| p.update.origin).collect();
    assert_eq!(order, vec![4, 1, 6]);
}

#[test]
fn a_queue_without_room_keeps_nothing() {
    let mut q = VerifyQueue::new(0);
    let evicted = q.push(tagged(1), 5).unwrap();
    assert_eq!(evicted.update.origin, 1);
    assert!(q.is_empty());
}

struct Node {
    partitioner: BinomialPartitioner,
    registry: Registry,
    store: ReplaceStore,
    queue: VerifyQueue,
    own: Contribution,
    current: usize,
}

fn node(id: usize, n: usize) -> Node {
    let partitioner = BinomialPartitioner::new(id, n).unwrap();
    let mut store = ReplaceStore::new(&partitioner);
    start(&mut store);
    Node {
        registry: Registry::new(vec![Some(1); n]).unwrap(),
        store,
        queue: VerifyQueue::new(16),
        own: contribution(&[id]),
        current: 1,
        partitioner,
    }
}

impl Node {
    fn receive(&mut self, update: LevelUpdate) -> Receipt {
        receive(&self.store, &self.registry, &self.partitioner, &mut self.queue, update)
    }

    /// Takes every queued update and merges it, all signatures holding.
    fn work(&mut self) {
        while let Some(pending) = self.queue.pop() {
            merge_verified(&mut self.store, pending.update, true, true).unwrap();
        }
        loop {
            let next = open_next_level(&mut self.store, self.current, false);
            if next == self.current {
                break;
            }
            self.current = next;
        }
    }

    fn send(&mut self, level: usize) -> Option<(usize, LevelUpdate)> {
        let plan = plan_send(&mut self.store, &self.own, level)?;
        let id = self.partitioner.node_id() as u16;
        Some((
            plan.peer,
            make_update(
                plan.offer.contributors,
                [3u8; SIGNATURE_SIZE],
                Some(self.own.clone()),
                level as u8,
                id,
            ),
        ))
    }

    fn best(&self, level: usize) -> Option<Vec<usize>> {
        self.store.best(level).map(|c| c.contributors().to_vec())
    }
}

#[test]
fn receive_drops_what_is_not_well_formed() {
    let mut n = node(0, 4);
    match n.receive(update(&[1], None, 0, 1)) {
        Receipt::Invalid(VerificationError::InvalidLevel { level: 0, num_levels: 3 }) => {}
        other => panic!("unexpected: {:?}", other),
    }
    match n.receive(update(&[0], None, 1, 1)) {
        Receipt::Invalid(VerificationError::InvalidContributors { .. }) => {}
        other => panic!("unexpected: {:?}", other),
    }
    assert!(n.queue.is_empty());
}

#[test]
fn receive_drops_what_is_of_no_use() {
    let mut n = node(0, 4);
    assert!(n.store.put_best(2, contribution(&[2, 3])));
    assert!(matches!(n.receive(update(&[2], Some(&[2]), 2, 2)), Receipt::Useless));
    assert!(n.queue.is_empty());
}

#[test]
fn receive_queues_what_scores() {
    let mut n = node(0, 4);
    match n.receive(update(&[2], Some(&[2]), 2, 2)) {
        Receipt::Queued { score, evicted } => {
            assert_eq!(score, 100_000 - 200 + 10);
            assert!(evicted.is_none());
        }
        other => panic!("unexpected: {:?}", other),
    }
    match n.receive(update(&[2, 3], Some(&[3]), 2, 3)) {
        Receipt::Queued { score, .. } => assert_eq!(score, 1_000_000 - 20),
        other => panic!("unexpected: {:?}", other),
    }
    assert_eq!(n.queue.len(), 2);
    // The one that completes the level is taken first.
    assert_eq!(n.queue.pop().unwrap().update.origin, 3);
}

#[test]
fn merge_needs_a_valid_aggregate_signature() {
    let mut n = node(0, 4);
    assert_eq!(
        merge_verified(&mut n.store, update(&[2], Some(&[2]), 2, 2), false, true),
        Err(AggregationError::CryptoVerifyFailed)
    );
    assert_eq!(n.best(2), None);
    assert!(n.store.individual_verified(2).is_empty());
}

#[test]
fn merge_stores_best_and_individual() {
    let mut n = node(0, 4);
    assert_eq!(
        merge_verified(&mut n.store, update(&[2, 3], Some(&[2]), 2, 2), true, true),
        Ok(Merged { best_replaced: true, individual_stored: true })
    );
    assert_eq!(n.best(2), Some(vec![2, 3]));
    assert_eq!(n.store.individual_verified(2).to_vec(), vec![2]);
    // The same again changes nothing.
    assert_eq!(
        merge_verified(&mut n.store, update(&[2, 3], Some(&[2]), 2, 2), true, true),
        Ok(Merged { best_replaced: false, individual_stored: false })
    );
}

#[test]
fn merge_leaves_out_an_individual_that_does_not_verify() {
    let mut n = node(0, 4);
    assert_eq!(
        merge_verified(&mut n.store, update(&[2, 3], Some(&[2]), 2, 2), true, false),
        Ok(Merged { best_replaced: true, individual_stored: false })
    );
    assert!(n.store.individual_verified(2).is_empty());
    // An attached contribution of two signers is no individual.
    assert_eq!(
        merge_verified(&mut n.store, update(&[2, 3], Some(&[2, 3]), 2, 2), true, true),
        Ok(Merged { best_replaced: false, individual_stored: false })
    );
}

#[test]
fn levels_open_on_completion_or_timeout() {
    let mut n = node(0, 8);
    assert!(n.store.state(1).unwrap().send_started);
    assert!(!n.store.state(2).unwrap().send_started);
    // Level one is neither complete nor timed out.
    assert_eq!(open_next_level(&mut n.store, 1, false), 1);
    // Its time is up.
    assert_eq!(open_next_level(&mut n.store, 1, true), 2);
    assert!(n.store.state(2).unwrap().send_started);
    assert!(n.store.state(2).unwrap().receive_started);
    // Level two completes.
    assert!(n.store.put_best(2, contribution(&[2, 3])));
    assert_eq!(open_next_level(&mut n.store, 2, false), 3);
    // Level three is the last regular level: the top level is not opened.
    assert!(n.store.put_best(3, contribution(&[4, 5, 6, 7])));
    assert_eq!(open_next_level(&mut n.store, 3, true), 3);
    assert!(!n.store.state(4).unwrap().send_started);
    assert_eq!(open_next_level(&mut n.store, 0, true), 0);
    assert_eq!(open_next_level(&mut n.store, 9, true), 9);
}

#[test]
fn sends_go_round_and_offer_what_lies_below() {
    let mut n = node(0, 8);
    assert!(n.store.put_best(1, contribution(&[1])));
    assert!(n.store.put_best(2, contribution(&[3])));
    // Level three is not open yet.
    assert!(plan_send(&mut n.store, &n.own, 3).is_none());
    assert!(n.store.activate(3));
    let peers: Vec<usize> = (0..5)
        .map(|_| {
            let plan = plan_send(&mut n.store, &n.own, 3).unwrap();
            assert_eq!(plan.level, 3);
            assert_eq!(plan.offer.contributors.to_vec(), vec![0, 1, 3]);
            assert_eq!(plan.offer.parts.len(), 3);
            assert_eq!(plan.offer.parts[0].contributors().to_vec(), vec![0]);
            assert_eq!(plan.offer.parts[1].contributors().to_vec(), vec![1]);
            assert_eq!(plan.offer.parts[2].contributors().to_vec(), vec![3]);
            plan.peer
        })
        .collect();
    assert_eq!(peers, vec![4, 5, 6, 7, 4]);
    // On level one there is the node's own contribution to offer.
    let plan = plan_send(&mut n.store, &n.own, 1).unwrap();
    assert_eq!(plan.peer, 1);
    assert_eq!(plan.offer.contributors.to_vec(), vec![0]);
    // Nothing is sent on the top level or beyond.
    assert!(plan_send(&mut n.store, &n.own, 4).is_none());
    assert!(plan_send(&mut n.store, &n.own, 0).is_none());
}

#[test]
fn collect_skips_levels_without_a_best() {
    let mut n = node(0, 8);
    assert!(n.store.put_best(2, contribution(&[2, 3])));
    let offer = collect(&n.store, &n.own, 3);
    assert_eq!(offer.contributors.to_vec(), vec![0, 2, 3]);
    assert_eq!(offer.parts.len(), 2);
    assert_eq!(collect(&n.store, &n.own, 0).contributors.to_vec(), vec![0]);
    assert_eq!(collect(&n.store, &n.own, 100).contributors.to_vec(), vec![0, 2, 3]);
}

#[test]
fn the_aggregation_is_done_when_every_validator_is_in() {
    let mut n = node(0, 4);
    assert!(plan_final(&n.store, &n.own, 4).is_none());
    assert!(n.store.put_best(1, contribution(&[1])));
    assert!(n.store.put_best(2, contribution(&[2])));
    assert!(plan_final(&n.store, &n.own, 4).is_none());
    assert!(n.store.put_best(2, contribution(&[2, 3])));
    let parts = plan_final(&n.store, &n.own, 4).unwrap();
    assert_eq!(parts.contributors.to_vec(), vec![0, 1, 2, 3]);
    assert_eq!(parts.parts.len(), 3);
}

#[test]
fn four_validators_reach_a_full_aggregate() {
    let mut nodes: Vec<Node> = (0..4).map(|id| node(id, 4)).collect();
    // Level one: 0 and 1, and 2 and 3, exchange their own contributions.
    for from in 0..4 {
        let (peer, update) = nodes[from].send(1).unwrap();
        assert_eq!(peer, from ^ 1);
        assert_eq!(update.aggregate.contributors.to_vec(), vec![from]);
        match nodes[peer].receive(update) {
            Receipt::Queued { score, .. } => assert_eq!(score, 1_000_000 - 10),
            other => panic!("unexpected: {:?}", other),
        }
    }
    for n in nodes.iter_mut() {
        n.work();
        assert_eq!(n.current, 2);
    }
    assert_eq!(nodes[0].best(1), Some(vec![1]));
    assert_eq!(nodes[3].best(1), Some(vec![2]));
    // Level two: each half offers itself to the other, one peer after another.
    for round in 0..2 {
        for from in 0..4 {
            let (peer, update) = nodes[from].send(2).unwrap();
            assert_eq!(peer, ((from / 2) ^ 1) * 2 + round);
            assert_eq!(update.level, 2);
            assert_eq!(update.aggregate.contributors.len(), 2);
            nodes[peer].receive(update);
        }
    }
    for (id, n) in nodes.iter_mut().enumerate() {
        n.work();
        let other_half: Vec<usize> = if id < 2 { vec![2, 3] } else { vec![0, 1] };
        assert_eq!(n.best(2), Some(other_half));
        // Every validator is in: the final aggregate goes out on level three.
        let parts = plan_final(&n.store, &n.own, n.partitioner.size()).unwrap();
        assert_eq!(parts.contributors.to_vec(), vec![0, 1, 2, 3]);
        let last = make_update(parts.contributors, [3u8; SIGNATURE_SIZE], None, 3, id as u16);
        assert_eq!(last.level, 3);
        assert!(check_update(&n.registry, &n.partitioner, &last).is_ok());
        assert_eq!(score(&n.store, &n.registry, &n.partitioner, &last.aggregate, 3), usize::MAX);
        assert_eq!(
            merge_verified(&mut n.store, last, true, true),
            Ok(Merged { best_replaced: true, individual_stored: false })
        );
        assert_eq!(n.best(3).unwrap().len(), 4);
        assert!(n.store.state(3).unwrap().is_complete());
    }
}

#[test]
fn a_complete_level_scores_further_updates_zero() {
    let mut n = node(0, 4);
    n.receive(update(&[1], Some(&[1]), 1, 1));
    n.work();
    assert!(n.store.state(1).unwrap().is_complete());
    assert!(matches!(n.receive(update(&[1], Some(&[1]), 1, 1)), Receipt::Useless));
    assert_eq!(score(&n.store, &n.registry, &n.partitioner, &contribution(&[2]), 1), 0);
    assert_eq!(score(&n.store, &n.registry, &n.partitioner, &contribution(&[2, 3]), 1), 0);
    // The same signers still score on the level they belong to.
    assert_eq!(score(&n.store, &n.registry, &n.partitioner, &contribution(&[2, 3]), 2), 1_000_000 - 20);
}

#[test]
fn an_aggregation_takes_its_turns() {
    let partitioner = BinomialPartitioner::new(0, 4).unwrap();
    let mut store = ReplaceStore::new(&partitioner);
    start(&mut store);
    let mut aggregation = handel::aggregation::Aggregation::new(
        std::sync::Arc::new(Registry::new(vec![Some(1); 4]).unwrap()),
        std::sync::Arc::new(partitioner),
        contribution(&[0]),
        2,
    );
    assert_eq!(aggregation.current_level(), 1);
    assert!(aggregation.next_pending().is_none());
    assert!(aggregation.finished(&store).is_none());
    // Level two is not open yet: nothing is sent there.
    assert!(aggregation.next_send(&mut store, 2).is_none());
    assert_eq!(aggregation.next_send(&mut store, 1).unwrap().peer, 1);

    assert!(matches!(aggregation.on_update(&store, update(&[1], Some(&[1]), 1, 1)), Receipt::Queued { .. }));
    assert!(matches!(aggregation.on_update(&store, update(&[1], None, 0, 1)), Receipt::Invalid(_)));
    let pending = aggregation.next_pending().unwrap();
    assert_eq!(pending.score, 1_000_000 - 10);
    // A signature that does not hold leaves everything as it is.
    assert_eq!(
        aggregation.on_verified(&mut store, update(&[1], Some(&[1]), 1, 1), false, false),
        Err(AggregationError::CryptoVerifyFailed)
    );
    assert_eq!(aggregation.current_level(), 1);
    // One that holds is merged, and the complete level opens the next.
    assert_eq!(
        aggregation.on_verified(&mut store, pending.update, true, true),
        Ok(Merged { best_replaced: true, individual_stored: true })
    );
    assert_eq!(aggregation.current_level(), 2);
    assert!(store.state(2).unwrap().send_started);
    let plan = aggregation.next_send(&mut store, 2).unwrap();
    assert_eq!(plan.peer, 2);
    assert_eq!(plan.offer.contributors.to_vec(), vec![0, 1]);
    // There is no regular level after the second: a timeout opens nothing.
    aggregation.on_level_timeout(&mut store);
    assert_eq!(aggregation.current_level(), 2);
    assert_eq!(
        aggregation.on_verified(&mut store, update(&[2, 3], None, 2, 2), true, true),
        Ok(Merged { best_replaced: true, individual_stored: false })
    );
    assert_eq!(aggregation.finished(&store).unwrap().contributors.to_vec(), vec![0, 1, 2, 3]);
}

#[test]
fn a_timeout_opens_the_next_level() {
    let partitioner = BinomialPartitioner::new(0, 8).unwrap();
    let mut store = ReplaceStore::new(&partitioner);
    start(&mut store);
    let mut aggregation = handel::aggregation::Aggregation::new(
        std::sync::Arc::new(Registry::new(vec![Some(1); 8]).unwrap()),
        std::sync::Arc::new(partitioner),
        contribution(&[0]),
        2,
    );
    aggregation.on_level_timeout(&mut store);
    assert_eq!(aggregation.current_level(), 2);
    aggregation.on_level_timeout(&mut store);
    assert_eq!(aggregation.current_level(), 3);
    aggregation.on_level_timeout(&mut store);
    assert_eq!(aggregation.current_level(), 3);
    assert!(store.state(3).unwrap().send_started);
    assert!(!store.state(4).unwrap().send_started);
}
