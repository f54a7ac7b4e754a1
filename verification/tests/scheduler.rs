use spacedrep::clock::{current_time, local_day_minute};
use spacedrep::models::TopicPayload;
use spacedrep::scheduler::ReminderScheduler;
use spacedrep::store::{Storage, StoragePaths};

const NOW: i64 = 1_700_000_000;

fn store_with_due_topic(reminder_minute: u16) -> Storage {
    let paths = StoragePaths {
        data_dir: String::from("/tmp/data"),
        db_path: String::from("/tmp/data/data.json"),
        backups_dir: String::from("/tmp/data/Backups"),
        portable: false,
    };
    let mut s = Storage::load(None, paths, NOW);
    s.create_topic(
        Some(String::from("t1")),
        &TopicPayload {
            title: String::from("Calc"),
            notes: String::new(),
            category_id: None,
            icon: String::from("Book"),
            color: String::from("#123456"),
            reminder_time: Some(reminder_minute),
            intervals: vec![1],
        },
        NOW,
    );
    s
}

#[test]
fn scheduler_starts_awake_and_refresh_is_idempotent() {
    let mut sched = ReminderScheduler::new();
    assert!(sched.take_wake());
    assert!(!sched.take_wake());
    sched.refresh();
    sched.refresh();
    assert!(sched.take_wake());
    assert!(!sched.take_wake());
}

#[test]
fn matching_due_topic_notifies_once_per_slot() {
    let slot: u16 = 9 * 60;
    let s = store_with_due_topic(slot);
    let due = s.due_topics(NOW + 2 * 86400);
    assert_eq!(due.len(), 1);

    let mut sched = ReminderScheduler::new();
    let out = sched.process_at(100, slot, &due);
    assert_eq!(out.len(), 1);
    assert_eq!(out[0].topic_id, "t1");
    assert_eq!(out[0].title, "Calc");
    assert_eq!(out[0].reminder_time, Some(slot));

    // A second pass in the same minute of the same day stays silent.
    let again = sched.process_at(100, slot, &due);
    assert_eq!(again.len(), 0);

    // On the next calendar day the same topic and time notify again.
    let tomorrow = sched.process_at(101, slot, &due);
    assert_eq!(tomorrow.len(), 1);
}

#[test]
fn non_matching_minute_never_notifies() {
    let slot: u16 = 9 * 60;
    let s = store_with_due_topic(slot);
    let due = s.due_topics(NOW + 2 * 86400);
    let mut sched = ReminderScheduler::new();
    let out = sched.process_at(100, slot + 1, &due);
    assert_eq!(out.len(), 0);
    // The slot was not consumed: the right minute still notifies.
    let hit = sched.process_at(100, slot, &due);
    assert_eq!(hit.len(), 1);
}

#[test]
fn reminder_change_within_a_day_notifies_in_the_new_slot() {
    let s = store_with_due_topic(9 * 60);
    let due = s.due_topics(NOW + 2 * 86400);
    let mut sched = ReminderScheduler::new();
    assert_eq!(sched.process_at(100, 9 * 60, &due).len(), 1);
    let moved = store_with_due_topic(9 * 60 + 5);
    let due2 = moved.due_topics(NOW + 2 * 86400);
    assert_eq!(sched.process_at(100, 9 * 60 + 5, &due2).len(), 1);
}

#[test]
fn evaluate_runs_against_the_wall_clock() {
    let s = store_with_due_topic(0);
    let due = s.due_topics(current_time());
    let mut sched = ReminderScheduler::new();
    // Whatever the clock says, a pass returns at most one notification per
    // due topic and leaves the scheduler usable.
    let out = sched.evaluate(&due);
    assert!(out.len() <= due.len());
    let again = sched.evaluate(&due);
    assert!(again.len() <= due.len());
}

#[test]
fn clock_readings_are_in_range() {
    let t = current_time();
    assert!(t >= 0);
    let (_day, minute) = local_day_minute();
    assert!(minute < 1440);
}
