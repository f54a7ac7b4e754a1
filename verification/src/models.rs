//! Data model: categories, topics, the payloads used to create and edit
//! them, full-database snapshots and the export envelope.
//!
//! Each executable record has a ghost model holding its fields as sequences
//! and plain values; contracts throughout the crate speak of those models.
//! Timestamps are seconds since the Unix epoch; a reminder time-of-day is
//! minutes after local midnight.

use vstd::prelude::*;
use crate::intervals::{intervals_bounded, strictly_increasing, valid_time};

verus! {

/// Ghost model of a [`Category`].
#[verifier::ext_equal]
pub ghost struct CategoryModel {
    pub id: Seq<char>,
    pub label: Seq<char>,
    pub color: Option<Seq<char>>,
    pub icon: Option<Seq<char>>,
    pub created_at: i64,
    pub updated_at: i64,
}

/// A named tag a topic may belong to.
pub struct Category {
    pub id: String,
    pub label: String,
    pub color: Option<String>,
    pub icon: Option<String>,
    pub created_at: i64,
    pub updated_at: i64,
}

/// The character sequences of an optional string.
pub open spec fn opt_view(o: Option<String>) -> Option<Seq<char>> {
    match o {
        Some(s) => Some(s@),
        None => None,
    }
}

impl View for Category {
    type V = CategoryModel;

    open spec fn view(&self) -> CategoryModel {
        CategoryModel {
            id: self.id@,
            label: self.label@,
            color: opt_view(self.color),
            icon: opt_view(self.icon),
            created_at: self.created_at,
            updated_at: self.updated_at,
        }
    }
}

impl DeepView for Category {
    type V = CategoryModel;

    open spec fn deep_view(&self) -> CategoryModel {
        self.view()
    }
}

/// Clones an optional string; the copy has the same character sequences.
pub fn clone_opt_string(o: &Option<String>) -> (r: Option<String>)
    ensures
        opt_view(r) == opt_view(*o),
{
    match o {
        Some(s) => Some(s.clone()),
        None => None,
    }
}

impl Clone for Category {
    fn clone(&self) -> (r: Self)
        ensures
            r@ == self@,
    {
        Category {
            id: self.id.clone(),
            label: self.label.clone(),
            color: clone_opt_string(&self.color),
            icon: clone_opt_string(&self.icon),
            created_at: self.created_at,
            updated_at: self.updated_at,
        }
    }
}

/// Ghost model of a [`Topic`].
#[verifier::ext_equal]
pub ghost struct TopicModel {
    pub id: Seq<char>,
    pub title: Seq<char>,
    pub notes: Seq<char>,
    pub category_id: Option<Seq<char>>,
    pub category_label: Option<Seq<char>>,
    pub icon: Seq<char>,
    pub color: Seq<char>,
    pub reminder_time: Option<u16>,
    pub intervals: Seq<i64>,
    pub interval_index: i64,
    pub next_review_date: i64,
    pub last_reviewed_at: Option<i64>,
    pub created_at: i64,
    pub updated_at: i64,
    pub snoozed_until: Option<i64>,
}

impl TopicModel {
    /// The ladder invariants every stored topic satisfies: a non-empty,
    /// strictly increasing, bounded interval ladder; a valid position in it;
    /// and a representable last-review time.
    pub open spec fn wf(self) -> bool {
        &&& self.intervals.len() >= 1
        &&& strictly_increasing(self.intervals)
        &&& intervals_bounded(self.intervals)
        &&& 0 <= self.interval_index < self.intervals.len()
        &&& match self.last_reviewed_at {
            Some(t) => valid_time(t),
            None => true,
        }
    }
}

/// A trackable review item with its own spaced-repetition schedule.
pub struct Topic {
    pub id: String,
    pub title: String,
    pub notes: String,
    pub category_id: Option<String>,
    pub category_label: Option<String>,
    pub icon: String,
    pub color: String,
    pub reminder_time: Option<u16>,
    pub intervals: Vec<i64>,
    pub interval_index: i64,
    pub next_review_date: i64,
    pub last_reviewed_at: Option<i64>,
    pub created_at: i64,
    pub updated_at: i64,
    pub snoozed_until: Option<i64>,
}

impl View for Topic {
    type V = TopicModel;

    open spec fn view(&self) -> TopicModel {
        TopicModel {
            id: self.id@,
            title: self.title@,
            notes: self.notes@,
            category_id: opt_view(self.category_id),
            category_label: opt_view(self.category_label),
            icon: self.icon@,
            color: self.color@,
            reminder_time: self.reminder_time,
            intervals: self.intervals@,
            interval_index: self.interval_index,
            next_review_date: self.next_review_date,
            last_reviewed_at: self.last_reviewed_at,
            created_at: self.created_at,
            updated_at: self.updated_at,
            snoozed_until: self.snoozed_until,
        }
    }
}

impl DeepView for Topic {
    type V = TopicModel;

    open spec fn deep_view(&self) -> TopicModel {
        self.view()
    }
}

impl Clone for Topic {
    fn clone(&self) -> (r: Self)
        ensures
            r@ == self@,
    {
        let r = Topic {
            id: self.id.clone(),
            title: self.title.clone(),
            notes: self.notes.clone(),
            category_id: clone_opt_string(&self.category_id),
            category_label: clone_opt_string(&self.category_label),
            icon: self.icon.clone(),
            color: self.color.clone(),
            reminder_time: self.reminder_time,
            intervals: self.intervals.clone(),
            interval_index: self.interval_index,
            next_review_date: self.next_review_date,
            last_reviewed_at: self.last_reviewed_at,
            created_at: self.created_at,
            updated_at: self.updated_at,
            snoozed_until: self.snoozed_until,
        };
        proof {
            assert(r.intervals@ =~= self.intervals@);
            assert(r@ =~= self@);
        }
        r
    }
}

/// Ghost model of a [`TopicPayload`].
#[verifier::ext_equal]
pub ghost struct TopicPayloadModel {
    pub title: Seq<char>,
    pub notes: Seq<char>,
    pub category_id: Option<Seq<char>>,
    pub icon: Seq<char>,
    pub color: Seq<char>,
    pub reminder_time: Option<u16>,
    pub intervals: Seq<i64>,
}

/// The caller-supplied fields for creating or editing a topic.
pub struct TopicPayload {
    pub title: String,
    pub notes: String,
    pub category_id: Option<String>,
    pub icon: String,
    pub color: String,
    pub reminder_time: Option<u16>,
    pub intervals: Vec<i64>,
}

impl View for TopicPayload {
    type V = TopicPayloadModel;

    open spec fn view(&self) -> TopicPayloadModel {
        TopicPayloadModel {
            title: self.title@,
            notes: self.notes@,
            category_id: opt_view(self.category_id),
            icon: self.icon@,
            color: self.color@,
            reminder_time: self.reminder_time,
            intervals: self.intervals@,
        }
    }
}

/// Ghost model of a [`CategoryPayload`].
#[verifier::ext_equal]
pub ghost struct CategoryPayloadModel {
    pub label: Seq<char>,
    pub color: Option<Seq<char>>,
    pub icon: Option<Seq<char>>,
}

/// The caller-supplied fields for creating a category.
pub struct CategoryPayload {
    pub label: String,
    pub color: Option<String>,
    pub icon: Option<String>,
}

impl View for CategoryPayload {
    type V = CategoryPayloadModel;

    open spec fn view(&self) -> CategoryPayloadModel {
        CategoryPayloadModel {
            label: self.label@,
            color: opt_view(self.color),
            icon: opt_view(self.icon),
        }
    }
}

/// Ghost model of a [`DbSnapshot`].
#[verifier::ext_equal]
pub ghost struct DbSnapshotModel {
    pub topics: Seq<TopicModel>,
    pub categories: Seq<CategoryModel>,
    pub schema_version: i64,
}

/// A full, consistent copy of all topics and categories.
pub struct DbSnapshot {
    pub topics: Vec<Topic>,
    pub categories: Vec<Category>,
    pub schema_version: i64,
}

impl View for DbSnapshot {
    type V = DbSnapshotModel;

    open spec fn view(&self) -> DbSnapshotModel {
        DbSnapshotModel {
            topics: self.topics.deep_view(),
            categories: self.categories.deep_view(),
            schema_version: self.schema_version,
        }
    }
}

/// Ghost model of an [`ExportEnvelope`].
#[verifier::ext_equal]
pub ghost struct ExportEnvelopeModel {
    pub version: Seq<char>,
    pub exported_at: i64,
    pub snapshot: DbSnapshotModel,
}

/// A versioned wrapper around a snapshot, used for export/import
/// interchange.
pub struct ExportEnvelope {
    pub version: String,
    pub exported_at: i64,
    pub snapshot: DbSnapshot,
}

impl View for ExportEnvelope {
    type V = ExportEnvelopeModel;

    open spec fn view(&self) -> ExportEnvelopeModel {
        ExportEnvelopeModel {
            version: self.version@,
            exported_at: self.exported_at,
            snapshot: self.snapshot@,
        }
    }
}

/// Ghost model of a [`NotificationPayload`].
#[verifier::ext_equal]
pub ghost struct NotificationModel {
    pub topic_id: Seq<char>,
    pub title: Seq<char>,
    pub category_label: Option<Seq<char>>,
    pub reminder_time: Option<u16>,
}

/// The event emitted for a due topic: enough to present one reminder.
pub struct NotificationPayload {
    pub topic_id: String,
    pub title: String,
    pub category_label: Option<String>,
    pub reminder_time: Option<u16>,
}

impl View for NotificationPayload {
    type V = NotificationModel;

    open spec fn view(&self) -> NotificationModel {
        NotificationModel {
            topic_id: self.topic_id@,
            title: self.title@,
            category_label: opt_view(self.category_label),
            reminder_time: self.reminder_time,
        }
    }
}

impl DeepView for NotificationPayload {
    type V = NotificationModel;

    open spec fn deep_view(&self) -> NotificationModel {
        self.view()
    }
}

/// Clones a vector of topics; the copy has the same models.
pub fn clone_topics(v: &Vec<Topic>) -> (r: Vec<Topic>)
    ensures
        r.deep_view() == v.deep_view(),
{
    let r = v.clone();
    proof {
        assert forall|i: int| 0 <= i < v@.len() implies r.deep_view()[i] == v.deep_view()[i] by {
            assert(cloned::<Topic>(v@[i], r@[i]));
        }
        assert(r.deep_view() =~= v.deep_view());
    }
    r
}

/// Clones a vector of categories; the copy has the same models.
pub fn clone_categories(v: &Vec<Category>) -> (r: Vec<Category>)
    ensures
        r.deep_view() == v.deep_view(),
{
    let r = v.clone();
    proof {
        assert forall|i: int| 0 <= i < v@.len() implies r.deep_view()[i] == v.deep_view()[i] by {
            assert(cloned::<Category>(v@[i], r@[i]));
        }
        assert(r.deep_view() =~= v.deep_view());
    }
    r
}

} // verus!
