//! The scheduler's per-tick decisions: a background loop wakes on a fixed
//! cadence, asks the store for due subscriptions, attempts delivery for each
//! and reschedules on success — unless a shutdown signal has arrived, in
//! which case it stops and performs no further work.
//!
//! The waiting, the store queries and the deliveries happen outside this
//! crate; the decisions they feed are verified here.

use vstd::prelude::*;

use crate::store::MILLIS_PER_MINUTE;
use crate::store::SubscriptionStore;

verus! {

/// The store could not be read or written: the poll cycle that saw it ends
/// early, and a reschedule that saw it is retried on later ticks.
#[derive(Clone, Copy, Debug, PartialEq, Eq, Structural)]
pub enum StorageError {
    Unreachable,
    WriteRejected,
}

/// The notifier failed to deliver a reminder; the subscription is left due
/// and retried on the next tick.
#[derive(Clone, Copy, Debug, PartialEq, Eq, Structural)]
pub enum DeliveryError {
    Failed,
}

/// The loop's only two states: polling on the tick cadence, or stopped for
/// good after a shutdown signal.
#[derive(Clone, Copy, Debug, PartialEq, Eq, Structural)]
pub enum SchedulerState {
    Polling,
    Stopped,
}

/// What ended a wait at the loop's boundary: the tick timer elapsed, or the
/// shutdown signal arrived first.
#[derive(Clone, Copy, Debug, PartialEq, Eq, Structural)]
pub enum WaitEvent {
    TickElapsed,
    ShutdownRequested,
}

/// What the loop does next: run one poll cycle, or exit.
#[derive(Clone, Copy, Debug, PartialEq, Eq, Structural)]
pub enum TickAction {
    Poll,
    Exit,
}

/// The transition taken at a wait boundary: a shutdown signal stops the loop
/// whatever its state, a stopped loop never polls again, and otherwise an
/// elapsed tick triggers one poll cycle.
pub open spec fn spec_transition(state: SchedulerState, event: WaitEvent) -> (
    SchedulerState,
    TickAction,
) {
    match event {
        WaitEvent::ShutdownRequested => (SchedulerState::Stopped, TickAction::Exit),
        WaitEvent::TickElapsed => match state {
            SchedulerState::Polling => (SchedulerState::Polling, TickAction::Poll),
            SchedulerState::Stopped => (SchedulerState::Stopped, TickAction::Exit),
        },
    }
}

/// Decides the loop's next state and action at a wait boundary.
pub fn transition(state: SchedulerState, event: WaitEvent) -> (r: (SchedulerState, TickAction))
    ensures
        r == spec_transition(state, event),
{
    match event {
        WaitEvent::ShutdownRequested => (SchedulerState::Stopped, TickAction::Exit),
        WaitEvent::TickElapsed => match state {
            SchedulerState::Polling => (SchedulerState::Polling, TickAction::Poll),
            SchedulerState::Stopped => (SchedulerState::Stopped, TickAction::Exit),
        },
    }
}

/// Once the shutdown signal has been seen the loop is stopped, and from the
/// stopped state every later event keeps it stopped and exits: no further
/// poll cycle — hence no store query, delivery or reschedule — is started.
pub proof fn lemma_shutdown_halts(state: SchedulerState, event: WaitEvent)
    ensures
        spec_transition(state, WaitEvent::ShutdownRequested).0 == SchedulerState::Stopped,
        spec_transition(SchedulerState::Stopped, event).0 == SchedulerState::Stopped,
        spec_transition(SchedulerState::Stopped, event).1 == TickAction::Exit,
{
}

/// Decides what one poll cycle works on: the due subscriptions the store
/// listed, or nothing at all when the listing failed — a bad poll ends the
/// tick early and never aborts the loop.
pub fn plan_tick(list_result: Result<Vec<(i64, i64)>, StorageError>) -> (due: Vec<(i64, i64)>)
    ensures
        list_result matches Ok(v) ==> due@ == v@,
        list_result is Err ==> due@ == Seq::<(i64, i64)>::empty(),
{
    match list_result {
        Ok(v) => v,
        Err(_) => Vec::new(),
    }
}

/// Decides the loop's per-subscription rule after one delivery attempt:
/// reschedule exactly when the delivery succeeded.
pub fn should_reschedule(delivery: &Result<(), DeliveryError>) -> (r: bool)
    ensures
        r == (*delivery is Ok),
{
    match delivery {
        Ok(_) => true,
        Err(_) => false,
    }
}

/// The instant a subscription next becomes due after a dispatch or a
/// registration at instant `now`: exactly one interval later, measured from
/// `now` rather than from the previous due instant, so missed ticks never
/// cause a burst of catch-up deliveries.
pub fn next_fire_after(now: i64, interval_minutes: i64) -> (r: i64)
    requires
        0 < interval_minutes,
        interval_minutes * MILLIS_PER_MINUTE <= i64::MAX,
        now + interval_minutes * MILLIS_PER_MINUTE <= i64::MAX,
    ensures
        r == now + interval_minutes * MILLIS_PER_MINUTE,
        now < r,
{
    now + interval_minutes * MILLIS_PER_MINUTE
}

/// Applies one delivery attempt's outcome to the store at instant `now`: on
/// success the subscription is rescheduled one interval after `now` (its
/// stored interval is untouched); on failure the store is left exactly as it
/// was, so the subscription stays due and is retried on the next tick.
pub fn apply_dispatch_outcome(
    store: &mut SubscriptionStore,
    chat_id: i64,
    interval_minutes: i64,
    now: i64,
    delivery: &Result<(), DeliveryError>,
)
    requires
        old(store).wf(),
        0 < interval_minutes,
        interval_minutes * MILLIS_PER_MINUTE <= i64::MAX,
        now + interval_minutes * MILLIS_PER_MINUTE <= i64::MAX,
    ensures
        final(store).wf(),
        *delivery is Ok && old(store)@.dom().contains(chat_id) ==> final(store)@ == old(
            store,
        )@.insert(chat_id, (old(store)@[chat_id].0, ((now + interval_minutes * MILLIS_PER_MINUTE) as i64))),
        *delivery is Ok && !old(store)@.dom().contains(chat_id) ==> final(store)@ == old(store)@,
        !(*delivery is Ok) ==> final(store)@ == old(store)@,
{
    if should_reschedule(delivery) {
        let next_fire_at = now + interval_minutes * MILLIS_PER_MINUTE;
        let found = store.reschedule(chat_id, next_fire_at);
        proof {
            assert(found == old(store)@.dom().contains(chat_id));
        }
    }
}

/// After a successful dispatch at instant `now` of a subscription that was
/// due — its recorded `next_fire_at` had passed — the rescheduled instant,
/// one interval after `now`, strictly exceeds the old one.
pub proof fn lemma_reschedule_monotonic(next_fire_at: i64, now: i64, interval_minutes: i64)
    requires
        next_fire_at <= now,
        0 < interval_minutes,
    ensures
        next_fire_at < now + interval_minutes * MILLIS_PER_MINUTE,
{
}

} // verus!
