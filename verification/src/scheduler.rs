//! The reminder scheduler's state machine: the wake flag, the per-day
//! duplicate-suppression cache, and one evaluation pass over the due
//! topics.
//!
//! The background loop itself — a worker thread blocking on a condition
//! variable with a bounded timeout — lives outside the library.  It calls
//! [`ReminderScheduler::take_wake`] to decide whether to run a pass, fetches
//! the due topics from the storage engine, and hands them to
//! [`ReminderScheduler::evaluate`]; every notification decision in a pass is
//! made and verified here.

use vstd::prelude::*;
use crate::clock::local_day_minute;
use crate::models::{NotificationModel, NotificationPayload, Topic, TopicModel, clone_opt_string};
use crate::text::str_eq;

verus! {

/// Ghost model of a [`DispatchRecord`].
#[verifier::ext_equal]
pub ghost struct DispatchModel {
    pub topic_id: Seq<char>,
    pub minute: u16,
}

/// One duplicate-suppression record: a topic and the time slot for which a
/// notification already went out today.
pub struct DispatchRecord {
    pub topic_id: String,
    pub minute: u16,
}

impl View for DispatchRecord {
    type V = DispatchModel;

    open spec fn view(&self) -> DispatchModel {
        DispatchModel { topic_id: self.topic_id@, minute: self.minute }
    }
}

impl DeepView for DispatchRecord {
    type V = DispatchModel;

    open spec fn deep_view(&self) -> DispatchModel {
        self.view()
    }
}

/// Ghost model of a [`Cache`].
#[verifier::ext_equal]
pub ghost struct CacheModel {
    pub day: Option<i32>,
    pub dispatched: Seq<DispatchModel>,
}

/// The duplicate-suppression cache: the calendar day it belongs to and the
/// slots already notified on that day.
pub struct Cache {
    pub day: Option<i32>,
    pub dispatched: Vec<DispatchRecord>,
}

impl View for Cache {
    type V = CacheModel;

    open spec fn view(&self) -> CacheModel {
        CacheModel { day: self.day, dispatched: self.dispatched.deep_view() }
    }
}

/// A notification for this topic and slot already went out.
pub open spec fn cache_has(dispatched: Seq<DispatchModel>, id: Seq<char>, minute: u16) -> bool {
    exists|i: int|
        0 <= i < dispatched.len() && (#[trigger] dispatched[i]).topic_id == id
            && dispatched[i].minute == minute
}

/// The notification event a due topic produces.
pub open spec fn notification_of(t: TopicModel) -> NotificationModel {
    NotificationModel {
        topic_id: t.id,
        title: t.title,
        category_label: t.category_label,
        reminder_time: t.reminder_time,
    }
}

/// The topic is notified in this pass: its reminder matches the current
/// minute and no notification for this slot went out today.
pub open spec fn should_notify(
    dispatched: Seq<DispatchModel>,
    t: TopicModel,
    minute: u16,
) -> bool {
    t.reminder_time == Some(minute) && !cache_has(dispatched, t.id, minute)
}

/// What one evaluation pass does to the cache and emits, walking the due
/// topics in order: each topic whose reminder matches the current minute
/// and whose slot is not yet recorded is recorded and notified once.
pub open spec fn process_spec(
    dispatched: Seq<DispatchModel>,
    due: Seq<TopicModel>,
    minute: u16,
) -> (Seq<DispatchModel>, Seq<NotificationModel>)
    decreases due.len(),
{
    if due.len() == 0 {
        (dispatched, Seq::<NotificationModel>::empty())
    } else {
        let t = due[0];
        if should_notify(dispatched, t, minute) {
            let d1 = dispatched.push(DispatchModel { topic_id: t.id, minute });
            let (d2, out) = process_spec(d1, due.drop_first(), minute);
            (d2, seq![notification_of(t)] + out)
        } else {
            process_spec(dispatched, due.drop_first(), minute)
        }
    }
}

/// Whether the cache already holds a record for this topic and slot.
fn cache_contains(dispatched: &Vec<DispatchRecord>, id: &str, minute: u16) -> (r: bool)
    ensures
        r == cache_has(dispatched.deep_view(), id@, minute),
{
    let mut i: usize = 0;
    while i < dispatched.len()
        invariant
            i <= dispatched@.len(),
            dispatched.deep_view().len() == dispatched@.len(),
            forall|k: int|
                0 <= k < i ==> !((#[trigger] dispatched.deep_view()[k]).topic_id == id@
                    && dispatched.deep_view()[k].minute == minute),
        decreases dispatched@.len() - i,
    {
        if dispatched[i].minute == minute && str_eq(dispatched[i].topic_id.as_str(), id) {
            proof {
                assert(dispatched.deep_view()[i as int].topic_id == id@);
            }
            return true;
        }
        i += 1;
    }
    false
}

/// The scheduler's shared state: the wake flag set by [`refresh`] and the
/// duplicate-suppression cache.  The background loop owns it behind its own
/// lock, distinct from the storage engine's.
///
/// [`refresh`]: ReminderScheduler::refresh
pub struct ReminderScheduler {
    pub wake: bool,
    pub cache: Cache,
}

impl ReminderScheduler {
    /// A scheduler that will run an evaluation pass immediately.
    pub fn new() -> (s: Self)
        ensures
            s.wake,
            s.cache@.day is None,
            s.cache@.dispatched.len() == 0,
    {
        let s = ReminderScheduler { wake: true, cache: Cache { day: None, dispatched: Vec::new() } };
        proof {
            assert(s.cache@.dispatched =~= Seq::<DispatchModel>::empty());
        }
        s
    }

    /// Requests a prompt re-evaluation: sets the wake flag (idempotently)
    /// and leaves the cache alone.  The loop around the scheduler signals
    /// its condition variable right after.
    pub fn refresh(&mut self)
        ensures
            final(self).wake,
            final(self).cache == old(self).cache,
    {
        self.wake = true;
    }

    /// Starts a pass: clears the wake flag and reports whether it was set.
    pub fn take_wake(&mut self) -> (was: bool)
        ensures
            !final(self).wake,
            was == old(self).wake,
            final(self).cache == old(self).cache,
    {
        let was = self.wake;
        self.wake = false;
        was
    }

    /// One evaluation pass at a known local day and minute: resets the
    /// cache when the day changed, then notifies each due topic whose
    /// reminder matches the minute at most once per slot per day.
    pub fn process_at(&mut self, today: i32, minute: u16, due: &Vec<Topic>) -> (out: Vec<
        NotificationPayload,
    >)
        ensures
            ({
                let start = if old(self).cache@.day == Some(today) {
                    old(self).cache@.dispatched
                } else {
                    Seq::<DispatchModel>::empty()
                };
                &&& final(self).cache@.day == Some(today)
                &&& final(self).cache@.dispatched == process_spec(start, due.deep_view(), minute).0
                &&& out.deep_view() == process_spec(start, due.deep_view(), minute).1
                &&& final(self).wake == old(self).wake
            }),
    {
        let same_day = match self.cache.day {
            Some(d) => d == today,
            None => false,
        };
        if !same_day {
            self.cache.day = Some(today);
            self.cache.dispatched = Vec::new();
            proof {
                assert(self.cache@.dispatched =~= Seq::<DispatchModel>::empty());
            }
        }
        let ghost start = self.cache@.dispatched;
        let ghost all = due.deep_view();
        let ghost wake0 = self.wake;
        let mut out: Vec<NotificationPayload> = Vec::new();
        proof {
            assert(all.skip(0) =~= all);
            assert(out.deep_view() =~= Seq::<NotificationModel>::empty());
            assert(Seq::<NotificationModel>::empty() + process_spec(start, all, minute).1
                =~= process_spec(start, all, minute).1);
        }
        let mut i: usize = 0;
        while i < due.len()
            invariant
                i <= due@.len(),
                all == due.deep_view(),
                all.len() == due@.len(),
                self.cache@.day == Some(today),
                self.wake == wake0,
                process_spec(start, all, minute).0 == process_spec(
                    self.cache@.dispatched,
                    all.skip(i as int),
                    minute,
                ).0,
                process_spec(start, all, minute).1 == out.deep_view() + process_spec(
                    self.cache@.dispatched,
                    all.skip(i as int),
                    minute,
                ).1,
            decreases due@.len() - i,
        {
            let ghost rem = all.skip(i as int);
            let ghost cur = self.cache@.dispatched;
            proof {
                assert(rem[0] == all[i as int]);
                assert(rem.drop_first() =~= all.skip(i + 1));
            }
            let t = &due[i];
            let slot_matches = match t.reminder_time {
                Some(m) => m == minute,
                None => false,
            };
            if slot_matches && !cache_contains(&self.cache.dispatched, t.id.as_str(), minute) {
                proof {
                    assert(should_notify(cur, all[i as int], minute));
                }
                let ghost pre_d = self.cache@.dispatched;
                let ghost pre_o = out.deep_view();
                let rec = DispatchRecord { topic_id: t.id.clone(), minute };
                self.cache.dispatched.push(rec);
                out.push(
                    NotificationPayload {
                        topic_id: t.id.clone(),
                        title: t.title.clone(),
                        category_label: clone_opt_string(&t.category_label),
                        reminder_time: t.reminder_time,
                    },
                );
                proof {
                    assert(self.cache@.dispatched =~= pre_d.push(
                        DispatchModel { topic_id: all[i as int].id, minute },
                    ));
                    assert(out.deep_view() =~= pre_o.push(notification_of(all[i as int])));
                    let d1 = pre_d.push(DispatchModel { topic_id: all[i as int].id, minute });
                    assert(process_spec(cur, rem, minute).0 == process_spec(
                        d1,
                        rem.drop_first(),
                        minute,
                    ).0);
                    assert(process_spec(cur, rem, minute).1 == seq![
                        notification_of(all[i as int]),
                    ] + process_spec(d1, rem.drop_first(), minute).1);
                    assert(pre_o + process_spec(cur, rem, minute).1 =~= out.deep_view()
                        + process_spec(d1, rem.drop_first(), minute).1);
                }
            } else {
                proof {
                    assert(!should_notify(cur, all[i as int], minute));
                    assert(process_spec(cur, rem, minute) == process_spec(
                        cur,
                        rem.drop_first(),
                        minute,
                    ));
                }
            }
            i += 1;
        }
        proof {
            assert(all.skip(all.len() as int).len() == 0);
            assert(process_spec(self.cache@.dispatched, all.skip(all.len() as int), minute).0
                == self.cache@.dispatched);
            assert(out.deep_view() + Seq::<NotificationModel>::empty() =~= out.deep_view());
        }
        out
    }

    /// One evaluation pass at the wall clock's local day and minute.  The
    /// day, the minute and therefore the exact output depend on the clock;
    /// what holds of every outcome is that the pass behaved as
    /// [`process_at`] for some day and some minute of that day.
    ///
    /// [`process_at`]: ReminderScheduler::process_at
    pub fn evaluate(&mut self, due: &Vec<Topic>) -> (out: Vec<NotificationPayload>)
        ensures
            final(self).wake == old(self).wake,
            exists|day: i32, minute: u16|
                #[trigger] evaluated_at(old(self).cache@, final(self).cache@, due.deep_view(), out.deep_view(), day, minute),
    {
        let (day, minute) = local_day_minute();
        let out = self.process_at(day, minute, due);
        proof {
            assert(evaluated_at(
                old(self).cache@,
                self.cache@,
                due.deep_view(),
                out.deep_view(),
                day,
                minute,
            ));
        }
        out
    }
}

/// The relation [`ReminderScheduler::evaluate`] guarantees between the
/// cache before and after a pass and what the pass emitted, for the local
/// day and minute the clock reported.
pub open spec fn evaluated_at(
    before: CacheModel,
    after: CacheModel,
    due: Seq<TopicModel>,
    out: Seq<NotificationModel>,
    day: i32,
    minute: u16,
) -> bool {
    let start = if before.day == Some(day) {
        before.dispatched
    } else {
        Seq::<DispatchModel>::empty()
    };
    &&& minute < 1440
    &&& after.day == Some(day)
    &&& after.dispatched == process_spec(start, due, minute).0
    &&& out == process_spec(start, due, minute).1
}

/// A recorded slot stays recorded: an evaluation pass never removes cache
/// entries.
proof fn lemma_process_preserves(
    dispatched: Seq<DispatchModel>,
    due: Seq<TopicModel>,
    minute: u16,
    id: Seq<char>,
    m: u16,
)
    requires
        cache_has(dispatched, id, m),
    ensures
        cache_has(process_spec(dispatched, due, minute).0, id, m),
    decreases due.len(),
{
    if due.len() == 0 {
    } else {
        let t = due[0];
        if should_notify(dispatched, t, minute) {
            let d1 = dispatched.push(DispatchModel { topic_id: t.id, minute });
            assert(cache_has(d1, id, m)) by {
                let k = choose|k: int|
                    0 <= k < dispatched.len() && (#[trigger] dispatched[k]).topic_id == id
                        && dispatched[k].minute == m;
                assert(d1[k].topic_id == id && d1[k].minute == m);
            }
            lemma_process_preserves(d1, due.drop_first(), minute, id, m);
        } else {
            lemma_process_preserves(dispatched, due.drop_first(), minute, id, m);
        }
    }
}

/// After a pass, every due topic whose reminder matched the minute is
/// recorded for that slot.
proof fn lemma_process_records(dispatched: Seq<DispatchModel>, due: Seq<TopicModel>, minute: u16)
    ensures
        forall|j: int|
            0 <= j < due.len() && (#[trigger] due[j]).reminder_time == Some(minute) ==> cache_has(
                process_spec(dispatched, due, minute).0,
                due[j].id,
                minute,
            ),
    decreases due.len(),
{
    if due.len() == 0 {
    } else {
        let t = due[0];
        if should_notify(dispatched, t, minute) {
            let d1 = dispatched.push(DispatchModel { topic_id: t.id, minute });
            lemma_process_records(d1, due.drop_first(), minute);
            assert forall|j: int|
                0 <= j < due.len() && (#[trigger] due[j]).reminder_time == Some(minute) implies
                cache_has(process_spec(dispatched, due, minute).0, due[j].id, minute) by {
                if j == 0 {
                    assert(cache_has(d1, t.id, minute)) by {
                        assert(d1[d1.len() - 1].topic_id == t.id);
                    }
                    lemma_process_preserves(d1, due.drop_first(), minute, t.id, minute);
                } else {
                    assert(due.drop_first()[j - 1] == due[j]);
                }
            }
        } else {
            lemma_process_records(dispatched, due.drop_first(), minute);
            assert forall|j: int|
                0 <= j < due.len() && (#[trigger] due[j]).reminder_time == Some(minute) implies
                cache_has(process_spec(dispatched, due, minute).0, due[j].id, minute) by {
                if j == 0 {
                    assert(cache_has(dispatched, t.id, minute));
                    lemma_process_preserves(dispatched, due.drop_first(), minute, t.id, minute);
                } else {
                    assert(due.drop_first()[j - 1] == due[j]);
                }
            }
        }
    }
}

/// When every matching slot is already recorded, a pass emits nothing.
proof fn lemma_process_quiet(dispatched: Seq<DispatchModel>, due: Seq<TopicModel>, minute: u16)
    requires
        forall|j: int|
            0 <= j < due.len() && (#[trigger] due[j]).reminder_time == Some(minute) ==> cache_has(
                dispatched,
                due[j].id,
                minute,
            ),
    ensures
        process_spec(dispatched, due, minute).1 == Seq::<NotificationModel>::empty(),
    decreases due.len(),
{
    if due.len() == 0 {
    } else {
        let t = due[0];
        assert(!should_notify(dispatched, t, minute));
        assert(forall|j: int|
            0 <= j < due.drop_first().len() && (#[trigger] due.drop_first()[j]).reminder_time
                == Some(minute) ==> cache_has(dispatched, due.drop_first()[j].id, minute)) by {
            assert(forall|j: int|
                0 <= j < due.drop_first().len() ==> due.drop_first()[j] == due[j + 1]);
        }
        lemma_process_quiet(dispatched, due.drop_first(), minute);
    }
}

/// Within one time slot, a second evaluation emits nothing: the first pass
/// records every slot it notifies, so running the same due list again in
/// the same minute of the same day produces no further notification — each
/// topic is notified at most once per slot per day.  (On the next calendar
/// day the cache is reset by the day check, and the same topic and time can
/// notify again.)
pub proof fn lemma_process_dedup(
    dispatched: Seq<DispatchModel>,
    due: Seq<TopicModel>,
    minute: u16,
)
    ensures
        process_spec(process_spec(dispatched, due, minute).0, due, minute).1 == Seq::<
            NotificationModel,
        >::empty(),
{
    lemma_process_records(dispatched, due, minute);
    lemma_process_quiet(process_spec(dispatched, due, minute).0, due, minute);
}

} // verus!
