use spacedrep::models::{CategoryPayload, TopicPayload};
use spacedrep::store::{
    backups_to_remove, resolve_category_label, resolve_storage_paths, Storage, StoragePaths,
    StoreError,
};

const DAY: i64 = 86400;
const NOW: i64 = 1_700_000_000;

fn fresh_paths() -> StoragePaths {
    StoragePaths {
        data_dir: String::from("/tmp/data"),
        db_path: String::from("/tmp/data/data.json"),
        backups_dir: String::from("/tmp/data/Backups"),
        portable: false,
    }
}

fn fresh_store() -> Storage {
    Storage::load(None, fresh_paths(), NOW)
}

fn topic_payload(title: &str, category_id: Option<String>, intervals: Vec<i64>) -> TopicPayload {
    TopicPayload {
        title: String::from(title),
        notes: String::from("some notes"),
        category_id,
        icon: String::from("Book"),
        color: String::from("#123456"),
        reminder_time: Some(9 * 60),
        intervals,
    }
}

#[test]
fn fresh_database_seeds_general_category() {
    let s = fresh_store();
    let snap = s.snapshot();
    assert_eq!(snap.schema_version, 1);
    assert_eq!(snap.topics.len(), 0);
    assert_eq!(snap.categories.len(), 1);
    assert_eq!(snap.categories[0].id, "general");
    assert_eq!(snap.categories[0].label, "General");
}

#[test]
fn create_category_trims_label_and_stamps_times() {
    let mut s = fresh_store();
    let payload = CategoryPayload {
        label: String::from("  Math  "),
        color: Some(String::from("#fff")),
        icon: None,
    };
    let cat = s.create_category(&payload, NOW).unwrap();
    assert_eq!(cat.label, "Math");
    assert_eq!(cat.color.as_deref(), Some("#fff"));
    assert_eq!(cat.created_at, NOW);
    assert_eq!(cat.updated_at, NOW);
    assert!(!cat.id.is_empty());
    assert_eq!(s.snapshot().categories.len(), 2);
}

#[test]
fn create_category_rejects_blank_label() {
    let mut s = fresh_store();
    let payload = CategoryPayload { label: String::from("   "), color: None, icon: None };
    assert!(matches!(s.create_category(&payload, NOW), Err(StoreError::Validation)));
    assert_eq!(s.snapshot().categories.len(), 1);
}

#[test]
fn create_category_rejects_case_insensitive_duplicate() {
    let mut s = fresh_store();
    let payload = CategoryPayload { label: String::from("gENERAL"), color: None, icon: None };
    assert!(matches!(s.create_category(&payload, NOW), Err(StoreError::Conflict)));
}

#[test]
fn generated_ids_differ_between_calls() {
    let mut s = fresh_store();
    let a = s.create_topic(None, &topic_payload("A", None, vec![1]), NOW);
    let b = s.create_topic(None, &topic_payload("B", None, vec![1]), NOW);
    assert!(!a.id.is_empty());
    assert_ne!(a.id, b.id);
}

#[test]
fn create_topic_normalizes_ladder_and_schedules_first_review() {
    let mut s = fresh_store();
    let t = s.create_topic(
        Some(String::from("t1")),
        &topic_payload("  Calc  ", None, vec![7, 3, 3, -2, 1]),
        NOW,
    );
    assert_eq!(t.id, "t1");
    assert_eq!(t.title, "Calc");
    assert_eq!(t.intervals, vec![1, 3, 7]);
    assert_eq!(t.interval_index, 0);
    assert_eq!(t.next_review_date, NOW + DAY);
    assert_eq!(t.last_reviewed_at, None);
    assert_eq!(t.created_at, NOW);
    assert_eq!(t.snoozed_until, None);
}

#[test]
fn create_topic_resolves_category_label() {
    let mut s = fresh_store();
    let cat = s
        .create_category(
            &CategoryPayload { label: String::from("Math"), color: None, icon: None },
            NOW,
        )
        .unwrap();
    let t = s.create_topic(None, &topic_payload("Calc", Some(cat.id.clone()), vec![1]), NOW);
    assert_eq!(t.category_id.as_deref(), Some(cat.id.as_str()));
    assert_eq!(t.category_label.as_deref(), Some("Math"));
    let unknown = s.create_topic(
        None,
        &topic_payload("Loose", Some(String::from("no-such-id")), vec![1]),
        NOW,
    );
    assert_eq!(unknown.category_id.as_deref(), Some("no-such-id"));
    assert_eq!(unknown.category_label, None);
}

#[test]
fn mark_reviewed_advances_and_saturates() {
    let mut s = fresh_store();
    s.create_topic(Some(String::from("t1")), &topic_payload("T", None, vec![1, 3, 7]), NOW);
    let r1 = s.mark_reviewed("t1", NOW + 10).unwrap();
    assert_eq!(r1.interval_index, 1);
    assert_eq!(r1.last_reviewed_at, Some(NOW + 10));
    assert_eq!(r1.next_review_date, NOW + 10 + 3 * DAY);
    let r2 = s.mark_reviewed("t1", NOW + 20).unwrap();
    assert_eq!(r2.interval_index, 2);
    assert_eq!(r2.next_review_date, NOW + 20 + 7 * DAY);
    // Beyond the ladder's end the position no longer moves.
    let r3 = s.mark_reviewed("t1", NOW + 30).unwrap();
    assert_eq!(r3.interval_index, 2);
    assert_eq!(r3.next_review_date, NOW + 30 + 7 * DAY);
}

#[test]
fn mark_reviewed_clears_snooze() {
    let mut s = fresh_store();
    s.create_topic(Some(String::from("t1")), &topic_payload("T", None, vec![1]), NOW);
    s.snooze_topic("t1", 3600, NOW).unwrap();
    let r = s.mark_reviewed("t1", NOW + 5).unwrap();
    assert_eq!(r.snoozed_until, None);
}

#[test]
fn mark_reviewed_missing_topic_is_not_found() {
    let mut s = fresh_store();
    assert!(matches!(s.mark_reviewed("nope", NOW), Err(StoreError::NotFound)));
}

#[test]
fn update_topic_keeps_progress_and_reanchors() {
    let mut s = fresh_store();
    s.create_topic(Some(String::from("t1")), &topic_payload("T", None, vec![1, 3, 7]), NOW);
    s.mark_reviewed("t1", NOW + 100).unwrap();
    let updated = s
        .update_topic("t1", &topic_payload("T2", None, vec![2, 5]), NOW + 200)
        .unwrap();
    // Editing does not advance progress: the index stays (clamped), and the
    // date re-anchors on the recorded review time with the new ladder.
    assert_eq!(updated.title, "T2");
    assert_eq!(updated.intervals, vec![2, 5]);
    assert_eq!(updated.interval_index, 1);
    assert_eq!(updated.last_reviewed_at, Some(NOW + 100));
    assert_eq!(updated.next_review_date, NOW + 100 + 5 * DAY);
    assert_eq!(updated.updated_at, NOW + 200);
}

#[test]
fn update_topic_clamps_index_into_shrunk_ladder() {
    let mut s = fresh_store();
    s.create_topic(Some(String::from("t1")), &topic_payload("T", None, vec![1, 3, 7]), NOW);
    s.mark_reviewed("t1", NOW + 1).unwrap();
    s.mark_reviewed("t1", NOW + 2).unwrap();
    let updated = s.update_topic("t1", &topic_payload("T", None, vec![4]), NOW + 3).unwrap();
    assert_eq!(updated.interval_index, 0);
    assert_eq!(updated.intervals, vec![4]);
}

#[test]
fn update_topic_missing_is_not_found() {
    let mut s = fresh_store();
    assert!(matches!(
        s.update_topic("nope", &topic_payload("T", None, vec![1]), NOW),
        Err(StoreError::NotFound)
    ));
}

#[test]
fn delete_topic_is_idempotent() {
    let mut s = fresh_store();
    s.create_topic(Some(String::from("t1")), &topic_payload("T", None, vec![1]), NOW);
    s.delete_topic("t1");
    assert_eq!(s.snapshot().topics.len(), 0);
    // Deleting an absent id succeeds and changes nothing.
    s.delete_topic("t1");
    assert_eq!(s.snapshot().topics.len(), 0);
    assert_eq!(s.snapshot().categories.len(), 1);
}

#[test]
fn delete_category_is_idempotent() {
    let mut s = fresh_store();
    s.delete_category("no-such-category", NOW);
    let snap = s.snapshot();
    assert_eq!(snap.categories.len(), 1);
    assert_eq!(snap.categories[0].id, "general");
}

#[test]
fn delete_category_cascades_to_topics() {
    let mut s = fresh_store();
    let cat = s
        .create_category(
            &CategoryPayload { label: String::from("Math"), color: None, icon: None },
            NOW,
        )
        .unwrap();
    let t = s.create_topic(None, &topic_payload("Calc", Some(cat.id.clone()), vec![1]), NOW);
    s.delete_category(cat.id.as_str(), NOW + 50);
    let snap = s.snapshot();
    assert_eq!(snap.categories.len(), 1);
    assert_eq!(snap.topics.len(), 1);
    let survivor = &snap.topics[0];
    assert_eq!(survivor.id, t.id);
    assert_eq!(survivor.category_id, None);
    assert_eq!(survivor.category_label, None);
    assert_eq!(survivor.updated_at, NOW + 50);
}

#[test]
fn due_topics_matches_snooze_and_review_date() {
    let mut s = fresh_store();
    s.create_topic(Some(String::from("due")), &topic_payload("Due", None, vec![1]), NOW);
    s.create_topic(
        Some(String::from("silent")),
        &TopicPayload { reminder_time: None, ..topic_payload("Silent", None, vec![1]) },
        NOW,
    );
    let later = NOW + 2 * DAY;
    // Past review date, reminder set, no snooze: due.
    let due = s.due_topics(later);
    assert_eq!(due.len(), 1);
    assert_eq!(due[0].id, "due");
    // Not yet due right after creation.
    assert_eq!(s.due_topics(NOW).len(), 0);
    // An active snooze excludes the topic; an expired one does not.
    s.snooze_topic("due", 3600, later).unwrap();
    assert_eq!(s.due_topics(later).len(), 0);
    assert_eq!(s.due_topics(later + 3600).len(), 1);
    // Clearing the snooze brings it back at once.
    s.snooze_topic("due", 3600, later).unwrap();
    s.clear_snooze("due", later).unwrap();
    assert_eq!(s.due_topics(later).len(), 1);
}

#[test]
fn snooze_missing_topic_is_not_found() {
    let mut s = fresh_store();
    assert_eq!(s.snooze_topic("nope", 3600, NOW), Err(StoreError::NotFound));
    assert_eq!(s.clear_snooze("nope", NOW), Err(StoreError::NotFound));
}

#[test]
fn export_import_round_trip_reproduces_state() {
    let mut s = fresh_store();
    let cat = s
        .create_category(
            &CategoryPayload { label: String::from("Math"), color: None, icon: None },
            NOW,
        )
        .unwrap();
    s.create_topic(Some(String::from("t1")), &topic_payload("Calc", Some(cat.id), vec![1, 3]), NOW);
    s.mark_reviewed("t1", NOW + 9).unwrap();
    let before = s.snapshot();
    let envelope = s.export_envelope("1.2.3", NOW + 10);
    assert_eq!(envelope.version, "1.2.3");
    assert_eq!(envelope.exported_at, NOW + 10);

    let mut other = fresh_store();
    let returned = other.apply_envelope(envelope);
    assert_eq!(returned.schema_version, before.schema_version);
    let after = other.snapshot();
    assert_eq!(after.schema_version, before.schema_version);
    assert_eq!(after.categories.len(), before.categories.len());
    assert_eq!(after.topics.len(), before.topics.len());
    for (x, y) in after.topics.iter().zip(before.topics.iter()) {
        assert_eq!(x.id, y.id);
        assert_eq!(x.title, y.title);
        assert_eq!(x.intervals, y.intervals);
        assert_eq!(x.interval_index, y.interval_index);
        assert_eq!(x.next_review_date, y.next_review_date);
        assert_eq!(x.last_reviewed_at, y.last_reviewed_at);
        assert_eq!(x.category_id, y.category_id);
        assert_eq!(x.category_label, y.category_label);
    }
    for (x, y) in after.categories.iter().zip(before.categories.iter()) {
        assert_eq!(x.id, y.id);
        assert_eq!(x.label, y.label);
    }
}

#[test]
fn two_serialized_creates_keep_both_topics() {
    let mut s = fresh_store();
    let a = s.create_topic(None, &topic_payload("First", None, vec![1]), NOW);
    let b = s.create_topic(None, &topic_payload("Second", None, vec![1]), NOW);
    let snap = s.snapshot();
    assert_eq!(snap.topics.len(), 2);
    assert!(snap.topics.iter().any(|t| t.id == a.id));
    assert!(snap.topics.iter().any(|t| t.id == b.id));
}

#[test]
fn full_scenario_create_review_delete() {
    let mut s = fresh_store();
    let cat = s
        .create_category(
            &CategoryPayload { label: String::from("Math"), color: None, icon: None },
            NOW,
        )
        .unwrap();
    assert!(!cat.id.is_empty());
    assert_eq!(cat.label, "Math");

    let t = s.create_topic(
        None,
        &topic_payload("Calc", Some(cat.id.clone()), vec![1, 3, 7]),
        NOW,
    );
    assert_eq!(t.interval_index, 0);
    assert_eq!(t.next_review_date, NOW + DAY);
    assert_eq!(t.category_label.as_deref(), Some("Math"));

    let reviewed = s.mark_reviewed(t.id.as_str(), NOW).unwrap();
    assert_eq!(reviewed.interval_index, 1);
    assert_eq!(reviewed.next_review_date, NOW + 3 * DAY);

    s.delete_category(cat.id.as_str(), NOW);
    let snap = s.snapshot();
    assert_eq!(snap.topics.len(), 1);
    assert_eq!(snap.topics[0].category_id, None);
    assert_eq!(snap.topics[0].category_label, None);
}

#[test]
fn load_keeps_saved_state_and_bumps_version() {
    let mut s = fresh_store();
    s.create_topic(Some(String::from("t1")), &topic_payload("T", None, vec![2]), NOW);
    let mut saved = s.persisted_state();
    assert_eq!(saved.version, 1);
    saved.version = 0;
    let reloaded = Storage::load(Some(saved), fresh_paths(), NOW + 5);
    assert_eq!(reloaded.schema_version(), 1);
    let snap = reloaded.snapshot();
    assert_eq!(snap.topics.len(), 1);
    assert_eq!(snap.topics[0].id, "t1");
    assert_eq!(snap.topics[0].intervals, vec![2]);
}

#[test]
fn persisted_state_always_carries_schema_version() {
    let mut s = fresh_store();
    let envelope = s.export_envelope("1.0.0", NOW);
    let mut altered = envelope;
    altered.snapshot.schema_version = 9;
    s.apply_envelope(altered);
    // The in-memory state takes the imported version, but what is written
    // back to disk is stamped with the engine's own schema version.
    assert_eq!(s.schema_version(), 9);
    assert_eq!(s.persisted_state().version, 1);
}

#[test]
fn ensure_persisted_reports_missing_file() {
    let s = fresh_store();
    assert!(s.ensure_persisted(false));
    assert!(!s.ensure_persisted(true));
}

#[test]
fn backup_retention_drops_oldest_beyond_seven() {
    let names: Vec<String> = (1..=9).map(|i| format!("daily-2024-01-0{i}.json")).collect();
    let excess = backups_to_remove(&names);
    assert_eq!(excess, vec![
        String::from("daily-2024-01-01.json"),
        String::from("daily-2024-01-02.json"),
    ]);
    let few: Vec<String> = (1..=3).map(|i| format!("daily-2024-01-0{i}.json")).collect();
    assert_eq!(backups_to_remove(&few).len(), 0);
}

#[test]
fn resolve_label_finds_first_match() {
    let s = fresh_store();
    let cats = s.snapshot().categories;
    assert_eq!(
        resolve_category_label(&cats, "general").as_deref(),
        Some("General")
    );
    assert_eq!(resolve_category_label(&cats, "nope"), None);
}

#[test]
fn error_messages_describe_each_kind() {
    assert_eq!(StoreError::Validation.message(), "Category label cannot be empty");
    assert_eq!(StoreError::Conflict.message(), "Category with that name already exists");
    assert_eq!(StoreError::NotFound.message(), "Topic not found");
    assert!(!StoreError::Io.message().is_empty());
    assert!(!StoreError::Serialization.message().is_empty());
}

#[test]
fn storage_paths_prefer_the_portable_directory() {
    let portable = resolve_storage_paths("/opt/app", true, Some(String::from("/home/u/.local/share/spacedrep"))).unwrap();
    assert!(portable.portable);
    assert_eq!(portable.data_dir, "/opt/app/data");
    assert_eq!(portable.db_path, "/opt/app/data/data.json");
    assert_eq!(portable.backups_dir, "/opt/app/data/Backups");

    let standard = resolve_storage_paths("/opt/app", false, Some(String::from("/home/u/.local/share/spacedrep"))).unwrap();
    assert!(!standard.portable);
    assert_eq!(standard.data_dir, "/home/u/.local/share/spacedrep");

    assert!(matches!(resolve_storage_paths("/opt/app", false, None), Err(StoreError::Io)));
}
