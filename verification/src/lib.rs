//! A recurring-reminder scheduler: each chat owns at most one subscription
//! (an interval in minutes and the instant it next becomes due). The store
//! registers subscriptions with upsert semantics; the scheduler decides, tick
//! by tick, which subscriptions are due, whether to reschedule after a
//! delivery attempt, and when to stop on a shutdown signal.

pub mod clock;
pub mod scheduler;
pub mod store;
