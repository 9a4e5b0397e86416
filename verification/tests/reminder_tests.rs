use drink_reminder::scheduler::{
    apply_dispatch_outcome, plan_tick, should_reschedule, transition, DeliveryError,
    SchedulerState, StorageError, TickAction, WaitEvent,
};
use drink_reminder::store::{SubscriptionStore, MILLIS_PER_MINUTE};

const T: i64 = 1_700_000_000_000;

fn minutes(m: i64) -> i64 {
    m * MILLIS_PER_MINUTE
}

#[test]
fn register_creates_on_absence() {
    let mut store = SubscriptionStore::new();
    assert_eq!(store.count(), 0);
    let created = store.register_reminder(42, 20, T);
    assert!(created);
    assert_eq!(store.count(), 1);
    assert_eq!(store.get(42), Some((20, T + minutes(20))));
}

#[test]
fn register_twice_keeps_one_record() {
    let mut store = SubscriptionStore::new();
    assert!(store.register_reminder(42, 20, T));
    let created_again = store.register_reminder(42, 30, T + 1000);
    assert!(!created_again);
    assert_eq!(store.count(), 1);
    assert_eq!(store.get(42), Some((30, T + 1000 + minutes(30))));
}

#[test]
fn register_distinct_chats_keeps_both() {
    let mut store = SubscriptionStore::new();
    assert!(store.register_reminder(1, 5, T));
    assert!(store.register_reminder(2, 10, T));
    assert_eq!(store.count(), 2);
    assert_eq!(store.get(1), Some((5, T + minutes(5))));
    assert_eq!(store.get(2), Some((10, T + minutes(10))));
}

#[test]
fn list_due_returns_exactly_the_due() {
    let mut store = SubscriptionStore::new();
    store.register_reminder(1, 5, T);
    store.register_reminder(2, 10, T);
    store.register_reminder(3, 60, T);
    let mut due = store.list_due(T + minutes(10));
    due.sort();
    assert_eq!(due, vec![(1, 5), (2, 10)]);
}

#[test]
fn list_due_excludes_one_past_the_instant() {
    let mut store = SubscriptionStore::new();
    store.register_reminder(7, 1, T);
    let next = T + minutes(1);
    assert!(store.list_due(next - 1).is_empty());
    assert_eq!(store.list_due(next), vec![(7, 1)]);
}

#[test]
fn list_due_on_empty_store_is_empty() {
    let store = SubscriptionStore::new();
    assert!(store.list_due(i64::MAX).is_empty());
}

#[test]
fn reschedule_overwrites_only_the_instant() {
    let mut store = SubscriptionStore::new();
    store.register_reminder(42, 20, T);
    let found = store.reschedule(42, T + minutes(45));
    assert!(found);
    assert_eq!(store.get(42), Some((20, T + minutes(45))));
}

#[test]
fn reschedule_of_absent_chat_changes_nothing() {
    let mut store = SubscriptionStore::new();
    store.register_reminder(42, 20, T);
    let found = store.reschedule(99, T);
    assert!(!found);
    assert_eq!(store.count(), 1);
    assert_eq!(store.get(42), Some((20, T + minutes(20))));
    assert_eq!(store.get(99), None);
}

#[test]
fn dispatch_success_moves_next_fire_one_interval_after_now() {
    // The worked scenario: chat 42 registers a 20-minute reminder at T, is
    // due at T+25m, delivery succeeds, and the next poll finds nothing due.
    let mut store = SubscriptionStore::new();
    store.register_reminder(42, 20, T);
    assert_eq!(store.get(42), Some((20, T + minutes(20))));
    let now = T + minutes(25);
    let due = store.list_due(now);
    assert_eq!(due, vec![(42, 20)]);
    let old_next = store.get(42).unwrap().1;
    apply_dispatch_outcome(&mut store, 42, 20, now, &Ok(()));
    let new_next = store.get(42).unwrap().1;
    assert_eq!(new_next, T + minutes(45));
    assert!(new_next > old_next);
    assert!(store.list_due(T + minutes(30)).is_empty());
}

#[test]
fn dispatch_failure_leaves_subscription_due() {
    let mut store = SubscriptionStore::new();
    store.register_reminder(42, 20, T);
    let now = T + minutes(25);
    assert_eq!(store.list_due(now), vec![(42, 20)]);
    apply_dispatch_outcome(&mut store, 42, 20, now, &Err(DeliveryError::Failed));
    assert_eq!(store.get(42), Some((20, T + minutes(20))));
    assert_eq!(store.list_due(T + minutes(30)), vec![(42, 20)]);
    assert_eq!(store.list_due(T + minutes(90)), vec![(42, 20)]);
}

#[test]
fn dispatch_outcome_for_unknown_chat_changes_nothing() {
    let mut store = SubscriptionStore::new();
    store.register_reminder(42, 20, T);
    apply_dispatch_outcome(&mut store, 99, 20, T + minutes(25), &Ok(()));
    assert_eq!(store.count(), 1);
    assert_eq!(store.get(42), Some((20, T + minutes(20))));
}

#[test]
fn upsert_replaces_in_place() {
    let mut store = SubscriptionStore::new();
    assert!(store.upsert(5, 15, T));
    assert!(!store.upsert(5, 25, T + 7));
    assert_eq!(store.count(), 1);
    assert_eq!(store.get(5), Some((25, T + 7)));
}

#[test]
fn register_at_writes_exactly_on_representable_instants() {
    let mut store = SubscriptionStore::new();
    let r = store.register_at(42, 20, T);
    assert_eq!(r, Some(true));
    assert_eq!(store.get(42), Some((20, T + minutes(20))));
    let r2 = store.register_at(42, 20, T + 1);
    assert_eq!(r2, Some(false));
    assert_eq!(store.count(), 1);
}

#[test]
fn register_at_declines_a_pre_epoch_instant() {
    let mut store = SubscriptionStore::new();
    assert_eq!(store.register_at(42, 20, -1), None);
    assert_eq!(store.count(), 0);
}

#[test]
fn register_at_declines_an_instant_too_near_the_maximum() {
    let mut store = SubscriptionStore::new();
    let last_good = i64::MAX - minutes(20);
    assert_eq!(store.register_at(42, 20, last_good + 1), None);
    assert_eq!(store.count(), 0);
    assert_eq!(store.register_at(42, 20, last_good), Some(true));
    assert_eq!(store.get(42), Some((20, i64::MAX)));
}

#[test]
fn register_reminder_accepts_pre_epoch_instants() {
    let mut store = SubscriptionStore::new();
    let created = store.register_reminder(8, 1, -minutes(2));
    assert!(created);
    assert_eq!(store.get(8), Some((1, -minutes(1))));
    assert!(store.list_due(-minutes(1) - 1).is_empty());
    assert_eq!(store.list_due(-minutes(1)), vec![(8, 1)]);
}

#[test]
fn register_with_current_clock_reads_a_consistent_instant() {
    let mut store = SubscriptionStore::new();
    let r = store.register_reminder_now(42, 20);
    let (now, created) = r.expect("one interval past the current instant fits in an i64");
    assert!(created);
    assert!(now >= 0);
    assert_eq!(store.get(42), Some((20, now + minutes(20))));
}

#[test]
fn plan_tick_uses_the_listing() {
    let due = plan_tick(Ok(vec![(1, 5), (2, 10)]));
    assert_eq!(due, vec![(1, 5), (2, 10)]);
}

#[test]
fn plan_tick_skips_the_cycle_on_storage_errors() {
    assert!(plan_tick(Err(StorageError::Unreachable)).is_empty());
    assert!(plan_tick(Err(StorageError::WriteRejected)).is_empty());
}

#[test]
fn should_reschedule_only_on_success() {
    assert!(should_reschedule(&Ok(())));
    assert!(!should_reschedule(&Err(DeliveryError::Failed)));
}

#[test]
fn polling_loop_polls_until_shutdown() {
    assert_eq!(
        transition(SchedulerState::Polling, WaitEvent::TickElapsed),
        (SchedulerState::Polling, TickAction::Poll)
    );
    assert_eq!(
        transition(SchedulerState::Polling, WaitEvent::ShutdownRequested),
        (SchedulerState::Stopped, TickAction::Exit)
    );
}

#[test]
fn stopped_loop_never_works_again() {
    assert_eq!(
        transition(SchedulerState::Stopped, WaitEvent::TickElapsed),
        (SchedulerState::Stopped, TickAction::Exit)
    );
    assert_eq!(
        transition(SchedulerState::Stopped, WaitEvent::ShutdownRequested),
        (SchedulerState::Stopped, TickAction::Exit)
    );
}
