use reactor_core::{
    Filter, Firing, OpState, Operation, OperationStore, PendingToken, QueueHandle, ReadySignal,
    RegisterError, Registration, Rejection, MAX_SLOTS,
};

fn readable() -> ReadySignal {
    ReadySignal { readable: true, hang_up: false, error: false }
}

fn hung_up() -> ReadySignal {
    ReadySignal { readable: true, hang_up: true, error: false }
}

fn event(request: &Registration, signal: ReadySignal) -> Firing {
    Firing { token: request.raw_token(), signal }
}

#[test]
fn new_store_holds_nothing() {
    let store = OperationStore::new();
    assert_eq!(store.outstanding(), 0);
}

#[test]
fn register_issues_the_first_token_of_the_first_slot() {
    let queue = QueueHandle::create(9).unwrap();
    let mut store = OperationStore::new();
    let request = store.register(&queue, Operation::listening(3)).unwrap();
    assert_eq!(
        request,
        Registration {
            queue: 9,
            descriptor: 3,
            filter: Filter::Read,
            one_shot: true,
            token: PendingToken { index: 0, generation: 0 },
        }
    );
    assert_eq!(request.raw_token(), 0);
    assert_eq!(store.outstanding(), 1);
}

#[test]
fn every_registration_is_one_shot_and_for_reading() {
    let queue = QueueHandle::create(9).unwrap();
    let mut store = OperationStore::new();
    let states = [OpState::Listening, OpState::Reading, OpState::Writing];
    for (at, state) in states.iter().enumerate() {
        let request = store.register(&queue, Operation { descriptor: at as i32, state: *state }).unwrap();
        assert!(request.one_shot);
        assert_eq!(request.filter, Filter::Read);
        assert_eq!(request.queue, 9);
        assert_eq!(request.descriptor, at as i32);
    }
}

#[test]
fn a_store_takes_as_many_operations_as_tokens_can_name_by_default() {
    assert_eq!(MAX_SLOTS, 4_294_967_295);
    assert_eq!(OperationStore::new().capacity(), 4_294_967_295);
    assert_eq!(OperationStore::with_capacity(3).capacity(), 3);
}

#[test]
fn a_full_store_is_exhausted_until_something_is_handed_back() {
    let queue = QueueHandle::create(9).unwrap();
    let mut store = OperationStore::with_capacity(2);
    let first = store.register(&queue, Operation::reading(3)).unwrap();
    let second = store.register(&queue, Operation::reading(4)).unwrap();
    assert_eq!(store.register(&queue, Operation::reading(5)), Err(RegisterError::Exhausted));
    assert_eq!(store.register(&queue, Operation::reading(5)), Err(RegisterError::Exhausted));
    assert_eq!(store.outstanding(), 2);
    assert_eq!(store.reclaim(first.token), Some(Operation::reading(3)));
    let third = store.register(&queue, Operation::reading(5)).unwrap();
    assert_eq!(third.token, PendingToken { index: 0, generation: 1 });
    assert_eq!(store.register(&queue, Operation::reading(6)), Err(RegisterError::Exhausted));
    assert_eq!(store.reclaim(second.token), Some(Operation::reading(4)));
    assert_eq!(store.reclaim(third.token), Some(Operation::reading(5)));
    assert_eq!(store.outstanding(), 0);
}

#[test]
fn a_store_without_capacity_takes_nothing() {
    let queue = QueueHandle::create(9).unwrap();
    let mut store = OperationStore::with_capacity(0);
    assert_eq!(store.register(&queue, Operation::reading(3)), Err(RegisterError::Exhausted));
    assert_eq!(store.outstanding(), 0);
}

#[test]
fn a_closed_queue_is_reported_before_a_full_store() {
    let mut queue = QueueHandle::create(9).unwrap();
    let mut store = OperationStore::with_capacity(0);
    queue.teardown();
    assert_eq!(store.register(&queue, Operation::reading(3)), Err(RegisterError::QueueClosed));
}

#[test]
fn register_gives_each_operation_its_own_token() {
    let queue = QueueHandle::create(9).unwrap();
    let mut store = OperationStore::new();
    let first = store.register(&queue, Operation::listening(3)).unwrap();
    let second = store.register(&queue, Operation::reading(4)).unwrap();
    let third = store.register(&queue, Operation::reading(5)).unwrap();
    assert_eq!(first.token, PendingToken { index: 0, generation: 0 });
    assert_eq!(second.token, PendingToken { index: 1, generation: 0 });
    assert_eq!(third.token, PendingToken { index: 2, generation: 0 });
    assert_eq!(second.descriptor, 4);
    assert_eq!(store.outstanding(), 3);
}

#[test]
fn register_fails_on_a_queue_that_was_torn_down() {
    let mut queue = QueueHandle::create(9).unwrap();
    let mut store = OperationStore::new();
    queue.teardown();
    assert_eq!(
        store.register(&queue, Operation::listening(3)),
        Err(RegisterError::QueueClosed)
    );
    assert_eq!(store.outstanding(), 0);
}

#[test]
fn reclaim_hands_back_the_operation_once() {
    let queue = QueueHandle::create(9).unwrap();
    let mut store = OperationStore::new();
    let request = store.register(&queue, Operation::reading(4)).unwrap();
    assert_eq!(store.reclaim(request.token), Some(Operation::reading(4)));
    assert_eq!(store.outstanding(), 0);
    assert_eq!(store.reclaim(request.token), None);
    assert_eq!(store.outstanding(), 0);
}

#[test]
fn reclaim_knows_no_token_that_was_never_issued() {
    let queue = QueueHandle::create(9).unwrap();
    let mut store = OperationStore::new();
    store.register(&queue, Operation::reading(4)).unwrap();
    assert_eq!(store.reclaim(PendingToken { index: 1, generation: 0 }), None);
    assert_eq!(store.reclaim(PendingToken { index: 0, generation: 1 }), None);
    assert_eq!(store.reclaim(PendingToken { index: 0, generation: u32::MAX }), None);
    assert_eq!(store.reclaim(PendingToken { index: u32::MAX, generation: 0 }), None);
    assert_eq!(store.outstanding(), 1);
}

#[test]
fn a_slot_is_used_again_under_a_new_generation() {
    let queue = QueueHandle::create(9).unwrap();
    let mut store = OperationStore::new();
    let first = store.register(&queue, Operation::reading(4)).unwrap();
    store.reclaim(first.token);
    let second = store.register(&queue, Operation::reading(5)).unwrap();
    assert_eq!(second.token, PendingToken { index: 0, generation: 1 });
    assert_eq!(second.raw_token(), 4_294_967_296);
    assert_eq!(store.reclaim(first.token), None);
    assert_eq!(store.outstanding(), 1);
    assert_eq!(store.reclaim(second.token), Some(Operation::reading(5)));
}

#[test]
fn the_slot_freed_last_is_used_first() {
    let queue = QueueHandle::create(9).unwrap();
    let mut store = OperationStore::new();
    let a = store.register(&queue, Operation::reading(10)).unwrap();
    let b = store.register(&queue, Operation::reading(11)).unwrap();
    let c = store.register(&queue, Operation::reading(12)).unwrap();
    store.reclaim(a.token);
    store.reclaim(c.token);
    let d = store.register(&queue, Operation::reading(13)).unwrap();
    let e = store.register(&queue, Operation::reading(14)).unwrap();
    let f = store.register(&queue, Operation::reading(15)).unwrap();
    assert_eq!(d.token, PendingToken { index: 2, generation: 1 });
    assert_eq!(e.token, PendingToken { index: 0, generation: 1 });
    assert_eq!(f.token, PendingToken { index: 3, generation: 0 });
    assert_eq!(store.reclaim(b.token), Some(Operation::reading(11)));
    assert_eq!(store.outstanding(), 3);
}

#[test]
fn settle_accepts_a_registration_the_kernel_took() {
    let queue = QueueHandle::create(9).unwrap();
    let mut store = OperationStore::new();
    let request = store.register(&queue, Operation::reading(4)).unwrap();
    assert_eq!(store.settle(request.token, 0, 0), Ok(()));
    assert_eq!(store.settle(request.token, 1, 22), Ok(()));
    assert_eq!(store.outstanding(), 1);
}

#[test]
fn settle_hands_back_what_the_kernel_refused() {
    let queue = QueueHandle::create(9).unwrap();
    let mut store = OperationStore::new();
    let kept = store.register(&queue, Operation::listening(3)).unwrap();
    let refused = store.register(&queue, Operation::reading(4)).unwrap();
    assert_eq!(
        store.settle(refused.token, -1, 9),
        Err(Rejection {
            error: RegisterError::Rejected(9),
            op: Some(Operation { descriptor: 4, state: OpState::Reading }),
        })
    );
    assert_eq!(store.outstanding(), 1);
    assert_eq!(store.reclaim(refused.token), None);
    assert_eq!(store.reclaim(kept.token), Some(Operation::listening(3)));
}

#[test]
fn settle_of_an_unknown_token_hands_back_nothing() {
    let mut store = OperationStore::new();
    assert_eq!(
        store.settle(PendingToken { index: 4, generation: 0 }, -1, 2),
        Err(Rejection { error: RegisterError::Rejected(2), op: None })
    );
    assert_eq!(store.outstanding(), 0);
}

#[test]
fn poll_hands_back_what_fired_in_the_order_of_the_events() {
    let queue = QueueHandle::create(9).unwrap();
    let mut store = OperationStore::new();
    let a = store.register(&queue, Operation::listening(3)).unwrap();
    let b = store.register(&queue, Operation::reading(4)).unwrap();
    let c = store.register(&queue, Operation::reading(5)).unwrap();
    let events = vec![event(&c, hung_up()), event(&a, readable())];
    let batch = store.poll(&queue, 2, &events, 16);
    assert_eq!(
        batch,
        vec![(Operation::reading(5), hung_up()), (Operation::listening(3), readable())]
    );
    assert_eq!(store.outstanding(), 1);
    assert_eq!(store.reclaim(b.token), Some(Operation::reading(4)));
}

#[test]
fn poll_takes_no_more_than_the_kernel_reported() {
    let queue = QueueHandle::create(9).unwrap();
    let mut store = OperationStore::new();
    let a = store.register(&queue, Operation::reading(3)).unwrap();
    let b = store.register(&queue, Operation::reading(4)).unwrap();
    let events = vec![event(&a, readable()), event(&b, readable())];
    let batch = store.poll(&queue, 1, &events, 16);
    assert_eq!(batch, vec![(Operation::reading(3), readable())]);
    assert_eq!(store.outstanding(), 1);
}

#[test]
fn poll_takes_no_more_than_the_batch_allows() {
    let queue = QueueHandle::create(9).unwrap();
    let mut store = OperationStore::new();
    let a = store.register(&queue, Operation::reading(3)).unwrap();
    let b = store.register(&queue, Operation::reading(4)).unwrap();
    let c = store.register(&queue, Operation::reading(5)).unwrap();
    let events = vec![event(&a, readable()), event(&b, readable()), event(&c, readable())];
    let batch = store.poll(&queue, 3, &events, 2);
    assert_eq!(
        batch,
        vec![(Operation::reading(3), readable()), (Operation::reading(4), readable())]
    );
    assert_eq!(store.outstanding(), 1);
    assert_eq!(store.poll(&queue, 3, &events, 0), vec![]);
    assert_eq!(store.outstanding(), 1);
}

#[test]
fn poll_takes_no_more_than_the_buffer_holds() {
    let queue = QueueHandle::create(9).unwrap();
    let mut store = OperationStore::new();
    let a = store.register(&queue, Operation::reading(3)).unwrap();
    let events = vec![event(&a, readable())];
    let batch = store.poll(&queue, 5, &events, 16);
    assert_eq!(batch, vec![(Operation::reading(3), readable())]);
}

#[test]
fn poll_is_empty_when_the_wait_failed_or_found_nothing() {
    let queue = QueueHandle::create(9).unwrap();
    let mut store = OperationStore::new();
    let a = store.register(&queue, Operation::reading(3)).unwrap();
    let events = vec![event(&a, readable())];
    assert_eq!(store.poll(&queue, 0, &events, 16), vec![]);
    assert_eq!(store.poll(&queue, -1, &events, 16), vec![]);
    assert_eq!(store.poll(&queue, 1, &vec![], 16), vec![]);
    assert_eq!(store.outstanding(), 1);
}

#[test]
fn poll_is_empty_on_a_queue_that_was_torn_down() {
    let mut queue = QueueHandle::create(9).unwrap();
    let mut store = OperationStore::new();
    let a = store.register(&queue, Operation::reading(3)).unwrap();
    queue.teardown();
    let events = vec![event(&a, readable())];
    assert_eq!(store.poll(&queue, 1, &events, 16), vec![]);
    assert_eq!(store.outstanding(), 1);
}

#[test]
fn poll_resolves_no_token_twice() {
    let queue = QueueHandle::create(9).unwrap();
    let mut store = OperationStore::new();
    let a = store.register(&queue, Operation::reading(3)).unwrap();
    let events = vec![event(&a, readable()), event(&a, hung_up())];
    assert_eq!(store.poll(&queue, 2, &events, 16), vec![(Operation::reading(3), readable())]);
    assert_eq!(store.poll(&queue, 2, &events, 16), vec![]);
    assert_eq!(store.outstanding(), 0);
}

#[test]
fn poll_passes_over_stale_and_unknown_tokens() {
    let queue = QueueHandle::create(9).unwrap();
    let mut store = OperationStore::new();
    let old = store.register(&queue, Operation::reading(3)).unwrap();
    store.reclaim(old.token);
    let new = store.register(&queue, Operation::reading(4)).unwrap();
    let events = vec![
        event(&old, readable()),
        Firing { token: u64::MAX, signal: readable() },
        Firing { token: 77, signal: readable() },
        event(&new, readable()),
    ];
    assert_eq!(store.poll(&queue, 4, &events, 16), vec![(Operation::reading(4), readable())]);
    assert_eq!(store.outstanding(), 0);
}

#[test]
fn a_cancelled_registration_that_still_fires_hands_back_nothing() {
    let queue = QueueHandle::create(9).unwrap();
    let mut store = OperationStore::new();
    let request = store.register(&queue, Operation::reading(3)).unwrap();
    assert_eq!(store.reclaim(request.token), Some(Operation::reading(3)));
    let reused = store.register(&queue, Operation::reading(8)).unwrap();
    let late = vec![event(&request, readable())];
    assert_eq!(store.poll(&queue, 1, &late, 16), vec![]);
    assert_eq!(store.reclaim(reused.token), Some(Operation::reading(8)));
}

#[test]
fn outstanding_is_submitted_less_reclaimed_all_along() {
    let queue = QueueHandle::create(9).unwrap();
    let mut store = OperationStore::new();
    let mut held: Vec<Registration> = Vec::new();
    let mut issued: Vec<u64> = Vec::new();
    let mut submitted: usize = 0;
    let mut reclaimed: usize = 0;
    let mut seed: u64 = 0x2545_f491_4f6c_dd1d;
    for round in 0..2000 {
        seed = seed.wrapping_mul(6364136223846793005).wrapping_add(1442695040888963407);
        let choice = (seed >> 33) % 3;
        if choice < 2 || held.is_empty() {
            let op = Operation::reading(round);
            let request = store.register(&queue, op).unwrap();
            assert!(!issued.contains(&request.raw_token()));
            issued.push(request.raw_token());
            held.push(request);
            submitted += 1;
        } else {
            let at = ((seed >> 17) as usize) % held.len();
            let request = held.swap_remove(at);
            let op = store.reclaim(request.token).unwrap();
            assert_eq!(op.descriptor, request.descriptor);
            assert_eq!(store.reclaim(request.token), None);
            reclaimed += 1;
        }
        assert_eq!(store.outstanding(), submitted - reclaimed);
        assert_eq!(store.outstanding(), held.len());
    }
    let events: Vec<Firing> = held.iter().map(|request| event(request, readable())).collect();
    let mut drained = 0;
    for chunk in events.chunks(16) {
        let batch = store.poll(&queue, chunk.len() as i32, &chunk.to_vec(), 16);
        assert_eq!(batch.len(), chunk.len());
        drained += batch.len();
    }
    assert_eq!(drained, submitted - reclaimed);
    assert_eq!(store.outstanding(), 0);
}
