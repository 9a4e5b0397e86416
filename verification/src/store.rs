//! The subscription store: one recurring-reminder record per chat, with
//! upsert registration, due-subscription selection and rescheduling.
//!
//! The store is modelled as a map from `chat_id` to the pair
//! `(interval_minutes, next_fire_at)`; every operation's contract is stated
//! over that map.

use vstd::prelude::*;

verus! {

/// Milliseconds in one minute: intervals are configured in minutes while
/// instants are absolute milliseconds since the epoch.
pub const MILLIS_PER_MINUTE: i64 = 60000;

/// One recurring reminder subscription. At most one exists per `chat_id`;
/// `interval_minutes` is always positive, and `next_fire_at` is the absolute
/// instant (milliseconds) at which the subscription next becomes due.
pub struct ReminderSubscription {
    pub chat_id: i64,
    pub interval_minutes: i64,
    pub next_fire_at: i64,
}

/// The abstract value of one record as the view stores it.
pub open spec fn record_value(r: ReminderSubscription) -> (i64, i64) {
    (r.interval_minutes, r.next_fire_at)
}

/// The map a sequence of records denotes: later records win, though under
/// `wf_records` every `chat_id` occurs at most once.
pub open spec fn map_of(s: Seq<ReminderSubscription>) -> Map<i64, (i64, i64)>
    decreases s.len(),
{
    if s.len() == 0 {
        Map::empty()
    } else {
        map_of(s.drop_last()).insert(s.last().chat_id, record_value(s.last()))
    }
}

/// Well-formed record sequences: chat ids are unique and intervals positive.
pub open spec fn wf_records(s: Seq<ReminderSubscription>) -> bool {
    &&& forall|i: int, j: int|
        0 <= i < j < s.len() ==> (#[trigger] s[i]).chat_id != (#[trigger] s[j]).chat_id
    &&& forall|i: int| 0 <= i < s.len() ==> (#[trigger] s[i]).interval_minutes > 0
}

/// Whether the subscription of `chat_id` exists and has become due at `t`.
pub open spec fn is_due(m: Map<i64, (i64, i64)>, chat_id: i64, t: i64) -> bool {
    m.dom().contains(chat_id) && m[chat_id].1 <= t
}

/// A key is in the denoted map exactly when some record carries it.
proof fn lemma_map_of_dom(s: Seq<ReminderSubscription>, chat_id: i64)
    ensures
        map_of(s).dom().contains(chat_id) <==> (exists|i: int|
            0 <= i < s.len() && (#[trigger] s[i]).chat_id == chat_id),
    decreases s.len(),
{
    if s.len() > 0 {
        lemma_map_of_dom(s.drop_last(), chat_id);
        if map_of(s).dom().contains(chat_id) {
            if s.last().chat_id == chat_id {
                assert(s[s.len() - 1].chat_id == chat_id);
            } else {
                let i = choose|i: int|
                    0 <= i < s.drop_last().len() && (#[trigger] s.drop_last()[i]).chat_id
                        == chat_id;
                assert(s[i].chat_id == chat_id);
            }
        }
        if exists|i: int| 0 <= i < s.len() && (#[trigger] s[i]).chat_id == chat_id {
            let i = choose|i: int| 0 <= i < s.len() && (#[trigger] s[i]).chat_id == chat_id;
            if i < s.len() - 1 {
                assert(s.drop_last()[i].chat_id == chat_id);
            }
        }
    }
}

/// Under well-formedness, each record's key maps to that record's value.
proof fn lemma_map_of_at(s: Seq<ReminderSubscription>, i: int)
    requires
        wf_records(s),
        0 <= i < s.len(),
    ensures
        map_of(s).dom().contains(s[i].chat_id),
        map_of(s)[s[i].chat_id] == record_value(s[i]),
    decreases s.len(),
{
    if i == s.len() - 1 {
        assert(s.last() == s[i]);
    } else {
        assert(wf_records(s.drop_last())) by {
            assert(forall|k: int|
                0 <= k < s.drop_last().len() ==> s.drop_last()[k] == s[k]);
        }
        assert(s.drop_last()[i] == s[i]);
        lemma_map_of_at(s.drop_last(), i);
        assert(s.last().chat_id != s[i].chat_id);
    }
}

/// Replacing the record of a key rewrites exactly that key's entry.
proof fn lemma_map_of_update(s: Seq<ReminderSubscription>, i: int, r: ReminderSubscription)
    requires
        wf_records(s),
        0 <= i < s.len(),
        r.chat_id == s[i].chat_id,
    ensures
        map_of(s.update(i, r)) == map_of(s).insert(r.chat_id, record_value(r)),
    decreases s.len(),
{
    let t = s.update(i, r);
    if i == s.len() - 1 {
        assert(t.drop_last() =~= s.drop_last());
        assert(t.last() == r);
        assert(map_of(t) =~= map_of(s).insert(r.chat_id, record_value(r)));
    } else {
        assert(wf_records(s.drop_last())) by {
            assert(forall|k: int|
                0 <= k < s.drop_last().len() ==> s.drop_last()[k] == s[k]);
        }
        assert(s.drop_last()[i] == s[i]);
        lemma_map_of_update(s.drop_last(), i, r);
        assert(t.drop_last() =~= s.drop_last().update(i, r));
        assert(t.last() == s.last());
        assert(s.last().chat_id != r.chat_id);
        assert(map_of(t) =~= map_of(s).insert(r.chat_id, record_value(r)));
    }
}

/// The denoted map's domain is finite, with one key per record.
proof fn lemma_map_of_len(s: Seq<ReminderSubscription>)
    requires
        wf_records(s),
    ensures
        map_of(s).dom().finite(),
        map_of(s).dom().len() == s.len(),
    decreases s.len(),
{
    if s.len() > 0 {
        assert(wf_records(s.drop_last())) by {
            assert(forall|k: int|
                0 <= k < s.drop_last().len() ==> s.drop_last()[k] == s[k]);
        }
        lemma_map_of_len(s.drop_last());
        lemma_map_of_dom(s.drop_last(), s.last().chat_id);
        assert(forall|k: int|
            0 <= k < s.drop_last().len() ==> s.drop_last()[k] == s[k]);
        assert(!map_of(s.drop_last()).dom().contains(s.last().chat_id));
        vstd::set::axiom_set_insert_len(map_of(s.drop_last()).dom(), s.last().chat_id);
        assert(map_of(s).dom() =~= map_of(s.drop_last()).dom().insert(s.last().chat_id));
    }
}

/// Replacing a record with one of the same key and a positive interval
/// keeps the sequence well-formed.
proof fn lemma_wf_update(s: Seq<ReminderSubscription>, i: int, r: ReminderSubscription)
    requires
        wf_records(s),
        0 <= i < s.len(),
        r.chat_id == s[i].chat_id,
        r.interval_minutes > 0,
    ensures
        wf_records(s.update(i, r)),
{
    let t = s.update(i, r);
    assert(forall|k: int| 0 <= k < t.len() ==> (#[trigger] t[k]).chat_id == s[k].chat_id);
    assert(forall|k: int|
        0 <= k < t.len() ==> (#[trigger] t[k]).interval_minutes > 0);
}

/// Appending a record with an unseen key and a positive interval keeps the
/// sequence well-formed.
proof fn lemma_wf_push(s: Seq<ReminderSubscription>, r: ReminderSubscription)
    requires
        wf_records(s),
        forall|k: int| 0 <= k < s.len() ==> (#[trigger] s[k]).chat_id != r.chat_id,
        r.interval_minutes > 0,
    ensures
        wf_records(s.push(r)),
{
    let t = s.push(r);
    assert(forall|k: int| 0 <= k < s.len() ==> t[k] == s[k]);
    assert(t[s.len() as int] == r);
}

/// The durable set of subscriptions, keyed by `chat_id`.
pub struct SubscriptionStore {
    records: Vec<ReminderSubscription>,
}

impl View for SubscriptionStore {
    type V = Map<i64, (i64, i64)>;

    closed spec fn view(&self) -> Map<i64, (i64, i64)> {
        map_of(self.records@)
    }
}

impl SubscriptionStore {
    /// The store's internal invariant: unique chat ids, positive intervals.
    pub closed spec fn wf(&self) -> bool {
        wf_records(self.records@)
    }

    /// An empty store.
    pub fn new() -> (s: SubscriptionStore)
        ensures
            s.wf(),
            s@ == Map::<i64, (i64, i64)>::empty(),
    {
        SubscriptionStore { records: Vec::new() }
    }

    /// Registers or replaces the subscription of `chat_id`: the record is
    /// updated in place when present and inserted when absent, so two
    /// registrations for one chat never yield two records. Returns whether a
    /// new record was created.
    pub fn upsert(&mut self, chat_id: i64, interval_minutes: i64, next_fire_at: i64) -> (created:
        bool)
        requires
            old(self).wf(),
            interval_minutes > 0,
        ensures
            final(self).wf(),
            final(self)@ == old(self)@.insert(chat_id, (interval_minutes, next_fire_at)),
            created == !old(self)@.dom().contains(chat_id),
    {
        let r = ReminderSubscription { chat_id, interval_minutes, next_fire_at };
        let n = self.records.len();
        let mut i: usize = 0;
        while i < n
            invariant
                *self == *old(self),
                old(self).wf(),
                interval_minutes > 0,
                n == self.records@.len(),
                i <= n,
                r.chat_id == chat_id,
                r.interval_minutes == interval_minutes,
                r.next_fire_at == next_fire_at,
                forall|j: int| 0 <= j < i ==> (#[trigger] self.records@[j]).chat_id != chat_id,
            decreases n - i,
        {
            if self.records[i].chat_id == chat_id {
                proof {
                    lemma_map_of_dom(self.records@, chat_id);
                    lemma_map_of_update(self.records@, i as int, r);
                    lemma_wf_update(self.records@, i as int, r);
                }
                self.records[i] = r;
                return false;
            }
            i += 1;
        }
        proof {
            lemma_map_of_dom(self.records@, chat_id);
            lemma_wf_push(self.records@, r);
        }
        self.records.push(r);
        proof {
            assert(self.records@.drop_last() =~= old(self).records@);
        }
        true
    }

    /// Registers the subscription of `chat_id` as the original registration
    /// entry does: the next due instant is one interval after `now`, and an
    /// existing record for the chat is replaced rather than duplicated.
    /// Returns whether the subscription is new.
    pub fn register_reminder(&mut self, chat_id: i64, interval_minutes: i64, now: i64) -> (created:
        bool)
        requires
            old(self).wf(),
            0 < interval_minutes,
            interval_minutes * MILLIS_PER_MINUTE <= i64::MAX,
            now + interval_minutes * MILLIS_PER_MINUTE <= i64::MAX,
        ensures
            final(self).wf(),
            final(self)@ == old(self)@.insert(
                chat_id,
                (interval_minutes, ((now + interval_minutes * MILLIS_PER_MINUTE) as i64)),
            ),
            created == !old(self)@.dom().contains(chat_id),
            created ==> final(self)@.dom().len() == old(self)@.dom().len() + 1,
            !created ==> final(self)@.dom() == old(self)@.dom(),
    {
        let next_fire_at = now + interval_minutes * MILLIS_PER_MINUTE;
        let created = self.upsert(chat_id, interval_minutes, next_fire_at);
        proof {
            lemma_map_of_len(old(self).records@);
            if created {
                assert(self@.dom() =~= old(self)@.dom().insert(chat_id));
                vstd::set::axiom_set_insert_len(old(self)@.dom(), chat_id);
            } else {
                assert(self@.dom() =~= old(self)@.dom());
            }
        }
        created
    }

    /// Registers the subscription of `chat_id` at the given instant, total in
    /// `now`: registration succeeds exactly when `now` is a non-negative
    /// instant one interval past which still fits in an `i64`; on any other
    /// instant the store is left untouched and `None` says so.
    pub fn register_at(&mut self, chat_id: i64, interval_minutes: i64, now: i64) -> (r: Option<
        bool,
    >)
        requires
            old(self).wf(),
            0 < interval_minutes,
        ensures
            final(self).wf(),
            (0 <= now && now + interval_minutes * MILLIS_PER_MINUTE <= i64::MAX) ==> {
                &&& r matches Some(created) && created == !old(self)@.dom().contains(chat_id)
                &&& final(self)@ == old(self)@.insert(
                    chat_id,
                    (interval_minutes, ((now + interval_minutes * MILLIS_PER_MINUTE) as i64)),
                )
            },
            !(0 <= now && now + interval_minutes * MILLIS_PER_MINUTE <= i64::MAX) ==> {
                &&& r is None
                &&& final(self)@ == old(self)@
            },
    {
        if now >= 0 && interval_minutes <= i64::MAX / MILLIS_PER_MINUTE && now <= i64::MAX
            - interval_minutes * MILLIS_PER_MINUTE {
            let created = self.register_reminder(chat_id, interval_minutes, now);
            Some(created)
        } else {
            proof {
                if 0 <= now && now + interval_minutes * MILLIS_PER_MINUTE <= i64::MAX {
                    assert(interval_minutes <= i64::MAX / MILLIS_PER_MINUTE) by (nonlinear_arith)
                        requires
                            0 < interval_minutes,
                            0 <= now,
                            now + interval_minutes * MILLIS_PER_MINUTE <= i64::MAX,
                            MILLIS_PER_MINUTE == 60000,
                    ;
                }
            }
            None
        }
    }

    /// Registers the subscription of `chat_id` with the current wall-clock
    /// instant as `now`. Returns the instant read and whether the
    /// subscription is new, or `None` — with the store untouched — when no
    /// usable instant was read or one interval past it does not fit in an
    /// `i64`.
    pub fn register_reminder_now(&mut self, chat_id: i64, interval_minutes: i64) -> (r: Option<
        (i64, bool),
    >)
        requires
            old(self).wf(),
            0 < interval_minutes,
        ensures
            final(self).wf(),
            r matches Some(p) ==> {
                &&& 0 <= p.0
                &&& p.0 + interval_minutes * MILLIS_PER_MINUTE <= i64::MAX
                &&& final(self)@ == old(self)@.insert(
                    chat_id,
                    (interval_minutes, ((p.0 + interval_minutes * MILLIS_PER_MINUTE) as i64)),
                )
                &&& p.1 == !old(self)@.dom().contains(chat_id)
            },
            r is None ==> final(self)@ == old(self)@,
    {
        match crate::clock::now_millis() {
            Some(now) => match self.register_at(chat_id, interval_minutes, now) {
                Some(created) => Some((now, created)),
                None => None,
            },
            None => None,
        }
    }

    /// Unconditionally overwrites the next due instant of `chat_id`, leaving
    /// its interval as it was; a chat without a subscription is left alone.
    /// Returns whether the subscription was found.
    pub fn reschedule(&mut self, chat_id: i64, next_fire_at: i64) -> (found: bool)
        requires
            old(self).wf(),
        ensures
            final(self).wf(),
            found == old(self)@.dom().contains(chat_id),
            found ==> final(self)@ == old(self)@.insert(
                chat_id,
                (old(self)@[chat_id].0, next_fire_at),
            ),
            !found ==> final(self)@ == old(self)@,
    {
        let n = self.records.len();
        let mut i: usize = 0;
        while i < n
            invariant
                *self == *old(self),
                old(self).wf(),
                n == self.records@.len(),
                i <= n,
                forall|j: int| 0 <= j < i ==> (#[trigger] self.records@[j]).chat_id != chat_id,
            decreases n - i,
        {
            if self.records[i].chat_id == chat_id {
                let r = ReminderSubscription {
                    chat_id,
                    interval_minutes: self.records[i].interval_minutes,
                    next_fire_at,
                };
                proof {
                    assert(self.records@[i as int].interval_minutes > 0);
                    lemma_map_of_dom(self.records@, chat_id);
                    lemma_map_of_at(self.records@, i as int);
                    lemma_map_of_update(self.records@, i as int, r);
                    lemma_wf_update(self.records@, i as int, r);
                }
                self.records[i] = r;
                return true;
            }
            i += 1;
        }
        proof {
            lemma_map_of_dom(self.records@, chat_id);
        }
        false
    }

    /// Every subscription whose next due instant has passed at `now`, and no
    /// other: each returned pair is the chat id and interval of one due
    /// subscription, every due subscription appears, and no chat twice.
    pub fn list_due(&self, now: i64) -> (due: Vec<(i64, i64)>)
        requires
            self.wf(),
        ensures
            forall|j: int|
                0 <= j < due@.len() ==> is_due(self@, (#[trigger] due@[j]).0, now) && due@[j].1
                    == self@[due@[j].0].0,
            forall|c: i64| #[trigger]
                is_due(self@, c, now) ==> exists|j: int|
                    0 <= j < due@.len() && (#[trigger] due@[j]).0 == c,
            forall|j1: int, j2: int|
                0 <= j1 < j2 < due@.len() ==> due@[j1].0 != due@[j2].0,
    {
        let mut due: Vec<(i64, i64)> = Vec::new();
        let n = self.records.len();
        let mut i: usize = 0;
        while i < n
            invariant
                self.wf(),
                n == self.records@.len(),
                i <= n,
                forall|j: int|
                    0 <= j < due@.len() ==> is_due(self@, (#[trigger] due@[j]).0, now) && due@[j].1
                        == self@[due@[j].0].0,
                forall|k: int|
                    0 <= k < i && (#[trigger] self.records@[k]).next_fire_at <= now
                        ==> exists|j: int|
                        0 <= j < due@.len() && (#[trigger] due@[j]).0 == self.records@[k].chat_id,
                forall|j1: int, j2: int|
                    0 <= j1 < j2 < due@.len() ==> due@[j1].0 != due@[j2].0,
                forall|j: int, k: int|
                    #![trigger due@[j], self.records@[k]]
                    0 <= j < due@.len() && i <= k < n ==> due@[j].0 != self.records@[k].chat_id,
            decreases n - i,
        {
            let next_fire_at = self.records[i].next_fire_at;
            if next_fire_at <= now {
                let p = (self.records[i].chat_id, self.records[i].interval_minutes);
                let ghost pre = due@;
                proof {
                    lemma_map_of_at(self.records@, i as int);
                }
                due.push(p);
                proof {
                    assert(due@ == pre.push(p));
                    assert(due@[pre.len() as int] == p);
                    assert forall|k: int|
                        0 <= k < i + 1 && (#[trigger] self.records@[k]).next_fire_at
                            <= now implies exists|j: int|
                        0 <= j < due@.len() && (#[trigger] due@[j]).0
                            == self.records@[k].chat_id by {
                        if k < i {
                            let j0 = choose|j: int|
                                0 <= j < pre.len() && (#[trigger] pre[j]).0
                                    == self.records@[k].chat_id;
                            assert(due@[j0] == pre[j0]);
                        } else {
                            assert(due@[pre.len() as int].0 == self.records@[k].chat_id);
                        }
                    }
                }
            }
            i += 1;
        }
        proof {
            let s = self.records@;
            assert forall|c: i64| #[trigger]
                is_due(self@, c, now) implies exists|j: int|
                0 <= j < due@.len() && (#[trigger] due@[j]).0 == c by {
                lemma_map_of_dom(s, c);
                let k = choose|k: int| 0 <= k < s.len() && (#[trigger] s[k]).chat_id == c;
                lemma_map_of_at(s, k);
                assert(s[k].next_fire_at <= now);
            }
        }
        due
    }

    /// The stored interval and next due instant of `chat_id`, when present.
    pub fn get(&self, chat_id: i64) -> (r: Option<(i64, i64)>)
        requires
            self.wf(),
        ensures
            self@.dom().contains(chat_id) ==> r == Some(self@[chat_id]),
            !self@.dom().contains(chat_id) ==> r is None,
    {
        let n = self.records.len();
        let mut i: usize = 0;
        while i < n
            invariant
                self.wf(),
                n == self.records@.len(),
                i <= n,
                forall|j: int| 0 <= j < i ==> (#[trigger] self.records@[j]).chat_id != chat_id,
            decreases n - i,
        {
            if self.records[i].chat_id == chat_id {
                proof {
                    lemma_map_of_dom(self.records@, chat_id);
                    lemma_map_of_at(self.records@, i as int);
                }
                return Some((self.records[i].interval_minutes, self.records[i].next_fire_at));
            }
            i += 1;
        }
        proof {
            lemma_map_of_dom(self.records@, chat_id);
        }
        None
    }

    /// How many subscriptions the store holds: one per registered chat.
    pub fn count(&self) -> (n: usize)
        requires
            self.wf(),
        ensures
            n == self@.dom().len(),
    {
        proof {
            lemma_map_of_len(self.records@);
        }
        self.records.len()
    }
}

/// Registering the same chat twice never yields two records: the second
/// registration replaces the first in place, so the store holds exactly what
/// it would hold after the second registration alone.
pub proof fn lemma_register_idempotent(
    m: Map<i64, (i64, i64)>,
    chat_id: i64,
    first: (i64, i64),
    second: (i64, i64),
)
    ensures
        m.insert(chat_id, first).insert(chat_id, second) == m.insert(chat_id, second),
{
    assert(m.insert(chat_id, first).insert(chat_id, second) =~= m.insert(chat_id, second));
}

/// A subscription that is due and then left unchanged — as after a failed
/// delivery, which never touches the store — is still due at every later
/// tick.
pub proof fn lemma_unchanged_still_due(m: Map<i64, (i64, i64)>, chat_id: i64, t1: i64, t2: i64)
    requires
        is_due(m, chat_id, t1),
        t1 <= t2,
    ensures
        is_due(m, chat_id, t2),
{
}

} // verus!
