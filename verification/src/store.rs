//! The storage engine: the in-memory database of topics and categories and
//! every operation on it.
//!
//! The engine is a pure state machine: each operation takes the values it
//! needs (the current time, a parsed saved state) as plain arguments and
//! describes its whole effect in its contract.  Locking, file persistence
//! and backup copying happen outside the library; after every mutating
//! operation the caller is expected to write [`Storage::persisted_state`]
//! back to disk.

use vstd::prelude::*;
use crate::intervals::{
    advance_index, clamp_index, compute_next_review_date, intervals_bounded, is_normalization,
    lemma_normalization_unique, next_review_at, normalize_intervals, strictly_increasing,
    valid_time, MAX_INTERVAL_DAYS, MAX_TIMESTAMP,
};
use crate::models::{
    clone_categories, clone_opt_string, clone_topics, Category, CategoryModel, CategoryPayload,
    DbSnapshot, ExportEnvelope, Topic, TopicModel, TopicPayload,
    TopicPayloadModel, opt_view,
};
use crate::text::{hex_string, spec_hex, str_eq, str_eq_ignore_case, trim, trim_spec, eq_ignore_case};

verus! {

/// Version tag written into every persisted document.
pub const SCHEMA_VERSION: u32 = 1;

/// Number of daily backup files kept by the rotation.
pub const BACKUP_KEEP: usize = 7;

/// Longest snooze duration accepted, in seconds (one year).
pub const MAX_SNOOZE_SECONDS: i64 = 31_536_000;

/// The error kinds the engine and its callers distinguish.  `Io` and
/// `Serialization` are produced by the persistence layer around the engine;
/// the engine itself only ever returns the first three.
#[derive(Clone, Copy, Debug, PartialEq, Eq, Structural)]
pub enum StoreError {
    /// Empty or invalid input, such as a blank category label.
    Validation,
    /// A case-insensitive duplicate of an existing category label.
    Conflict,
    /// The operation targets a missing topic or category id.
    NotFound,
    /// A filesystem read, write, rename or sync failed.
    Io,
    /// A persisted or imported document does not match the expected shape.
    Serialization,
}

impl StoreError {
    /// A short description of the error.
    pub fn message(&self) -> &'static str {
        match self {
            StoreError::Validation => "Category label cannot be empty",
            StoreError::Conflict => "Category with that name already exists",
            StoreError::NotFound => "Topic not found",
            StoreError::Io => "Unable to read or write the data file",
            StoreError::Serialization => "Backup file is not a valid export",
        }
    }
}

/// Where the engine's data lives on disk.  The engine never touches these
/// paths itself; they are resolved once at startup and carried here for the
/// persistence layer.
pub struct StoragePaths {
    pub data_dir: String,
    pub db_path: String,
    pub backups_dir: String,
    pub portable: bool,
}

impl Clone for StoragePaths {
    fn clone(&self) -> (r: Self)
        ensures
            r.data_dir@ == self.data_dir@,
            r.db_path@ == self.db_path@,
            r.backups_dir@ == self.backups_dir@,
            r.portable == self.portable,
    {
        StoragePaths {
            data_dir: self.data_dir.clone(),
            db_path: self.db_path.clone(),
            backups_dir: self.backups_dir.clone(),
            portable: self.portable,
        }
    }
}

/// Decides where the engine's data lives.  Portable mode: when a `data`
/// directory exists next to the running executable it is used; otherwise
/// the platform's per-user application-data directory is, and its absence
/// is an error.  The caller reports what it found on disk and performs the
/// directory creation; this decision is made once at startup.
pub fn resolve_storage_paths(
    exe_dir: &str,
    portable_dir_exists: bool,
    app_data_dir: Option<String>,
) -> (r: Result<StoragePaths, StoreError>)
    ensures
        r is Ok <==> (portable_dir_exists || app_data_dir is Some),
        !portable_dir_exists && app_data_dir is None ==> r == Err::<StoragePaths, StoreError>(
            StoreError::Io,
        ),
        r is Ok ==> ({
            let p = r->Ok_0;
            &&& p.portable == portable_dir_exists
            &&& p.data_dir@ == if portable_dir_exists {
                exe_dir@ + "/data"@
            } else {
                app_data_dir->0@
            }
            &&& p.db_path@ == p.data_dir@ + "/data.json"@
            &&& p.backups_dir@ == p.data_dir@ + "/Backups"@
        }),
{
    let data_dir: String = if portable_dir_exists {
        let mut d = exe_dir.to_owned();
        d.append("/data");
        d
    } else {
        match app_data_dir {
            Some(d) => d,
            None => {
                return Err(StoreError::Io);
            },
        }
    };
    let mut db_path = data_dir.clone();
    db_path.append("/data.json");
    let mut backups_dir = data_dir.clone();
    backups_dir.append("/Backups");
    Ok(StoragePaths { data_dir, db_path, backups_dir, portable: portable_dir_exists })
}

/// Ghost model of a [`PersistedState`].
#[verifier::ext_equal]
pub ghost struct PersistedStateModel {
    pub version: u32,
    pub topics: Seq<TopicModel>,
    pub categories: Seq<CategoryModel>,
}

/// Every stored topic satisfies the ladder invariants.
pub open spec fn topics_wf(topics: Seq<TopicModel>) -> bool {
    forall|i: int| 0 <= i < topics.len() ==> (#[trigger] topics[i]).wf()
}

/// The entire durable database: a version tag plus all topics and
/// categories.
pub struct PersistedState {
    pub version: u32,
    pub topics: Vec<Topic>,
    pub categories: Vec<Category>,
}

impl View for PersistedState {
    type V = PersistedStateModel;

    open spec fn view(&self) -> PersistedStateModel {
        PersistedStateModel {
            version: self.version,
            topics: self.topics.deep_view(),
            categories: self.categories.deep_view(),
        }
    }
}

impl PersistedStateModel {
    /// The state invariant: all topics satisfy the ladder invariants.
    pub open spec fn wf(self) -> bool {
        topics_wf(self.topics)
    }
}

/// There is a topic with the given id.
pub open spec fn has_topic(topics: Seq<TopicModel>, id: Seq<char>) -> bool {
    exists|i: int| 0 <= i < topics.len() && (#[trigger] topics[i]).id == id
}

/// `i` is the position of the first topic with the given id.
pub open spec fn is_first_topic_match(topics: Seq<TopicModel>, id: Seq<char>, i: int) -> bool {
    &&& 0 <= i < topics.len()
    &&& topics[i].id == id
    &&& forall|k: int| 0 <= k < i ==> (#[trigger] topics[k]).id != id
}

/// The position of the first topic with the given id, when one exists.
pub open spec fn first_topic_match(topics: Seq<TopicModel>, id: Seq<char>) -> int {
    choose|i: int| is_first_topic_match(topics, id, i)
}

/// When some topic carries the id, a first match exists, and
/// `first_topic_match` denotes it.
pub proof fn lemma_first_topic_match(topics: Seq<TopicModel>, id: Seq<char>)
    requires
        has_topic(topics, id),
    ensures
        is_first_topic_match(topics, id, first_topic_match(topics, id)),
{
    let j = choose|j: int| 0 <= j < topics.len() && (#[trigger] topics[j]).id == id;
    lemma_first_topic_match_below(topics, id, j);
}

proof fn lemma_first_topic_match_below(topics: Seq<TopicModel>, id: Seq<char>, j: int)
    requires
        0 <= j < topics.len(),
        topics[j].id == id,
    ensures
        is_first_topic_match(topics, id, first_topic_match(topics, id)),
    decreases j,
{
    if forall|k: int| 0 <= k < j ==> (#[trigger] topics[k]).id != id {
        assert(is_first_topic_match(topics, id, j));
    } else {
        let j2 = choose|k: int| 0 <= k < j && (#[trigger] topics[k]).id == id;
        lemma_first_topic_match_below(topics, id, j2);
    }
}

/// The label of the category with the given id, if any (first match).
pub open spec fn spec_resolve_category_label(
    categories: Seq<CategoryModel>,
    id: Seq<char>,
) -> Option<Seq<char>>
    decreases categories.len(),
{
    if categories.len() == 0 {
        None
    } else if categories[0].id == id {
        Some(categories[0].label)
    } else {
        spec_resolve_category_label(categories.drop_first(), id)
    }
}

/// The label snapshot a topic gets for an optional category reference.
pub open spec fn spec_resolve_opt_label(
    categories: Seq<CategoryModel>,
    id: Option<Seq<char>>,
) -> Option<Seq<char>> {
    match id {
        Some(cid) => spec_resolve_category_label(categories, cid),
        None => None,
    }
}

/// Looks up the label of the category with the given id.
pub fn resolve_category_label(categories: &Vec<Category>, id: &str) -> (r: Option<String>)
    ensures
        opt_view(r) == spec_resolve_category_label(categories.deep_view(), id@),
{
    let ghost all = categories.deep_view();
    proof {
        assert(all.skip(0) =~= all);
    }
    let mut i: usize = 0;
    while i < categories.len()
        invariant
            i <= categories@.len(),
            all == categories.deep_view(),
            all.len() == categories@.len(),
            spec_resolve_category_label(all, id@) == spec_resolve_category_label(
                all.skip(i as int),
                id@,
            ),
        decreases categories@.len() - i,
    {
        proof {
            assert(all.skip(i as int)[0] == all[i as int]);
        }
        if str_eq(categories[i].id.as_str(), id) {
            return Some(categories[i].label.clone());
        }
        proof {
            assert(all.skip(i as int).drop_first() =~= all.skip(i + 1));
        }
        i += 1;
    }
    proof {
        assert(all.skip(i as int).len() == 0);
    }
    None
}

/// Some category label matches the given one, up to ASCII case.
pub open spec fn label_taken(categories: Seq<CategoryModel>, label: Seq<char>) -> bool {
    exists|i: int| 0 <= i < categories.len() && eq_ignore_case(
        (#[trigger] categories[i]).label,
        label,
    )
}

/// Finds the position of the first topic with the given id.
fn find_topic_index(topics: &Vec<Topic>, id: &str) -> (r: Option<usize>)
    ensures
        match r {
            Some(i) => is_first_topic_match(topics.deep_view(), id@, i as int),
            None => !has_topic(topics.deep_view(), id@),
        },
{
    let mut i: usize = 0;
    while i < topics.len()
        invariant
            i <= topics@.len(),
            topics.deep_view().len() == topics@.len(),
            forall|k: int| 0 <= k < i ==> (#[trigger] topics.deep_view()[k]).id != id@,
        decreases topics@.len() - i,
    {
        if str_eq(topics[i].id.as_str(), id) {
            return Some(i);
        }
        i += 1;
    }
    None
}

/// Whether some category already carries this label, up to ASCII case.
fn category_label_taken(categories: &Vec<Category>, label: &str) -> (r: bool)
    ensures
        r == label_taken(categories.deep_view(), label@),
{
    let mut i: usize = 0;
    while i < categories.len()
        invariant
            i <= categories@.len(),
            categories.deep_view().len() == categories@.len(),
            forall|k: int|
                0 <= k < i ==> !eq_ignore_case((#[trigger] categories.deep_view()[k]).label, label@),
        decreases categories@.len() - i,
    {
        if str_eq_ignore_case(categories[i].label.as_str(), label) {
            proof {
                assert(eq_ignore_case(categories.deep_view()[i as int].label, label@));
            }
            return true;
        }
        i += 1;
    }
    false
}

/// The categories left after removing the one with the given id.
pub open spec fn without_category(categories: Seq<CategoryModel>, id: Seq<char>) -> Seq<
    CategoryModel,
> {
    categories.filter(|c: CategoryModel| c.id != id)
}

/// The topics left after removing those with the given id.
pub open spec fn without_topic(topics: Seq<TopicModel>, id: Seq<char>) -> Seq<TopicModel> {
    topics.filter(|t: TopicModel| t.id != id)
}

/// The topic with its category reference cleared, as the cascade of a
/// category deletion leaves it.
pub open spec fn cleared_topic(t: TopicModel, now: i64) -> TopicModel {
    TopicModel { category_id: None, category_label: None, updated_at: now, ..t }
}

/// The topic references the category with the given id.
pub open spec fn references_category(t: TopicModel, id: Seq<char>) -> bool {
    t.category_id == Some(id)
}

/// Deleting a category id that no category carries leaves the category list
/// unchanged: the removal is idempotent.
pub proof fn lemma_delete_category_idempotent(categories: Seq<CategoryModel>, id: Seq<char>)
    requires
        forall|i: int| 0 <= i < categories.len() ==> (#[trigger] categories[i]).id != id,
    ensures
        without_category(categories, id) == categories,
    decreases categories.len(),
{
    reveal(Seq::filter);
    if categories.len() == 0 {
        assert(without_category(categories, id) =~= categories);
    } else {
        assert(forall|i: int|
            0 <= i < categories.len() - 1 ==> categories.drop_last()[i] == categories[i]);
        lemma_delete_category_idempotent(categories.drop_last(), id);
        assert(categories.last().id != id);
        assert(without_category(categories, id) =~= categories.drop_last().push(
            categories.last(),
        ));
        assert(categories.drop_last().push(categories.last()) =~= categories);
    }
}

/// Deleting a topic id that no topic carries leaves the topic list
/// unchanged: the removal is idempotent.
pub proof fn lemma_delete_topic_idempotent(topics: Seq<TopicModel>, id: Seq<char>)
    requires
        !has_topic(topics, id),
    ensures
        without_topic(topics, id) == topics,
    decreases topics.len(),
{
    reveal(Seq::filter);
    if topics.len() == 0 {
        assert(without_topic(topics, id) =~= topics);
    } else {
        assert(forall|i: int| 0 <= i < topics.len() - 1 ==> topics.drop_last()[i] == topics[i]);
        assert(!has_topic(topics.drop_last(), id));
        lemma_delete_topic_idempotent(topics.drop_last(), id);
        assert(topics.last().id != id) by {
            if topics.last().id == id {
                assert(topics[topics.len() - 1].id == id);
            }
        }
        assert(without_topic(topics, id) =~= topics.drop_last().push(topics.last()));
        assert(topics.drop_last().push(topics.last()) =~= topics);
    }
}

/// Removing topics keeps the remaining ones well formed.
proof fn lemma_without_topic_wf(topics: Seq<TopicModel>, id: Seq<char>)
    requires
        topics_wf(topics),
    ensures
        topics_wf(without_topic(topics, id)),
    decreases topics.len(),
{
    reveal(Seq::filter);
    if topics.len() == 0 {
    } else {
        assert(forall|i: int| 0 <= i < topics.len() - 1 ==> topics.drop_last()[i] == topics[i]);
        lemma_without_topic_wf(topics.drop_last(), id);
        let w = without_topic(topics, id);
        let w0 = without_topic(topics.drop_last(), id);
        if topics.last().id != id {
            assert(w == w0.push(topics.last()));
            assert(topics.last().wf()) by {
                assert(topics[topics.len() - 1].wf());
            }
            assert forall|i: int| 0 <= i < w.len() implies (#[trigger] w[i]).wf() by {
                if i < w0.len() {
                    assert(w[i] == w0[i]);
                } else {
                    assert(w[i] == topics.last());
                }
            }
        } else {
            assert(w == w0);
        }
    }
}

/// Two creations applied one after the other both stand in the final topic
/// list: an append never loses an earlier append, so once the caller's lock
/// has serialized two concurrent creations, both topics are present in the
/// state that gets persisted.
pub proof fn lemma_serialized_creates(topics: Seq<TopicModel>, a: TopicModel, b: TopicModel)
    ensures
        topics.push(a).push(b).contains(a),
        topics.push(a).push(b).contains(b),
        topics.push(a).push(b).len() == topics.len() + 2,
{
    assert(topics.push(a).push(b)[topics.len() as int] == a);
    assert(topics.push(a).push(b)[topics.len() as int + 1] == b);
}

/// Every interval a payload carries is small enough for date arithmetic.
pub open spec fn payload_intervals_ok(p: TopicPayloadModel) -> bool {
    forall|i: int| 0 <= i < p.intervals.len() ==> #[trigger] p.intervals[i] <= MAX_INTERVAL_DAYS
}

/// A normalization of a ladder whose values are in bounds is itself
/// bounded.
proof fn lemma_normalization_bounded(input: Seq<i64>, out: Seq<i64>)
    requires
        is_normalization(input, out),
        forall|i: int| 0 <= i < input.len() ==> #[trigger] input[i] <= MAX_INTERVAL_DAYS,
    ensures
        intervals_bounded(out),
{
    assert forall|k: int| 0 <= k < out.len() implies 0 < #[trigger] out[k]
        <= MAX_INTERVAL_DAYS by {
        assert(out[k] > 0);
        if exists|i: int| 0 <= i < input.len() && #[trigger] input[i] > 0 {
            assert(out.contains(out[k]));
            assert(input.contains(out[k]));
            let j = choose|j: int| 0 <= j < input.len() && input[j] == out[k];
            assert(input[j] <= MAX_INTERVAL_DAYS);
        } else {
            assert(out =~= seq![1i64]);
        }
    }
}

/// A strictly increasing ladder of bounded positive values has at most
/// `MAX_INTERVAL_DAYS` entries.
proof fn lemma_ladder_len_bounded(s: Seq<i64>)
    requires
        strictly_increasing(s),
        intervals_bounded(s),
    ensures
        s.len() <= MAX_INTERVAL_DAYS,
{
    if s.len() > MAX_INTERVAL_DAYS {
        lemma_ladder_min_value(s, s.len() - 1);
    }
}

/// In a strictly increasing ladder of positive values, the entry at
/// position `i` is at least `i + 1`.
proof fn lemma_ladder_min_value(s: Seq<i64>, i: int)
    requires
        strictly_increasing(s),
        intervals_bounded(s),
        0 <= i < s.len(),
    ensures
        s[i] >= i + 1,
    decreases i,
{
    if i > 0 {
        lemma_ladder_min_value(s, i - 1);
        assert(s[i - 1] < s[i]);
    }
}

/// The topic is due: a reminder time is set, its next review time has
/// passed, and no snooze is still active.
pub open spec fn due_at(t: TopicModel, now: i64) -> bool {
    &&& t.reminder_time is Some
    &&& t.next_review_date <= now
    &&& match t.snoozed_until {
        Some(s) => s <= now,
        None => true,
    }
}

/// The topics due at the given time, in stored order.
pub open spec fn due_filter(topics: Seq<TopicModel>, now: i64) -> Seq<TopicModel> {
    topics.filter(|t: TopicModel| due_at(t, now))
}

/// The storage engine: the current in-memory state, the resolved storage
/// paths, and the counter feeding generated identifiers.
pub struct Storage {
    pub state: PersistedState,
    pub paths: StoragePaths,
    pub id_counter: u64,
}

impl Storage {
    /// The engine's invariant: the state satisfies the ladder invariants.
    pub open spec fn wf(self) -> bool {
        self.state@.wf()
    }

    /// A copy of the full state, as handed to callers.
    pub fn snapshot(&self) -> (r: DbSnapshot)
        ensures
            r@.topics == self.state@.topics,
            r@.categories == self.state@.categories,
            r@.schema_version == self.state@.version as i64,
    {
        DbSnapshot {
            topics: clone_topics(&self.state.topics),
            categories: clone_categories(&self.state.categories),
            schema_version: self.state.version as i64,
        }
    }

    /// The schema version of the in-memory state.
    pub fn schema_version(&self) -> (r: i64)
        ensures
            r == self.state@.version as i64,
    {
        self.state.version as i64
    }

    /// The document the persistence layer must write after a mutation: the
    /// current state, stamped with the engine's own schema version.
    pub fn persisted_state(&self) -> (r: PersistedState)
        ensures
            r@.topics == self.state@.topics,
            r@.categories == self.state@.categories,
            r@.version == SCHEMA_VERSION,
    {
        PersistedState {
            version: SCHEMA_VERSION,
            topics: clone_topics(&self.state.topics),
            categories: clone_categories(&self.state.categories),
        }
    }

    /// Whether the database file must first be written before it can be
    /// copied: true exactly when no file exists yet.  The engine does no
    /// I/O itself; the caller passes in what it found and performs the
    /// write.
    pub fn ensure_persisted(&self, db_file_exists: bool) -> (write_needed: bool)
        ensures
            write_needed == !db_file_exists,
    {
        !db_file_exists
    }

    /// Builds the engine from the state read off disk, or from the default
    /// state when no database file existed yet.  Saved records are brought
    /// back under the ladder invariants; a version tag older than
    /// [`SCHEMA_VERSION`] is bumped to it.
    pub fn load(saved: Option<PersistedState>, paths: StoragePaths, now: i64) -> (s: Storage)
        requires
            valid_time(now),
        ensures
            s.wf(),
            s.paths == paths,
            s.id_counter == 0,
            match saved {
                Some(st) => {
                    &&& s.state@.version == if st@.version < SCHEMA_VERSION {
                        SCHEMA_VERSION
                    } else {
                        st@.version
                    }
                    &&& s.state@.categories == st@.categories
                    &&& s.state@.topics.len() == st@.topics.len()
                    &&& forall|i: int|
                        0 <= i < st@.topics.len() ==> sanitize_rel(
                            st@.topics[i],
                            #[trigger] s.state@.topics[i],
                        )
                },
                None => {
                    &&& s.state@.version == SCHEMA_VERSION
                    &&& s.state@.topics.len() == 0
                    &&& s.state@.categories == seq![general_category(now)]
                },
            },
    {
        match saved {
            Some(st) => {
                let topics = sanitize_topics(&st.topics);
                let version = if st.version < SCHEMA_VERSION {
                    SCHEMA_VERSION
                } else {
                    st.version
                };
                Storage {
                    state: PersistedState { version, topics, categories: st.categories },
                    paths,
                    id_counter: 0,
                }
            },
            None => Storage { state: default_state(now), paths, id_counter: 0 },
        }
    }

    /// Replaces the entire in-memory state with the snapshot carried by an
    /// import envelope — a full overwrite, never a merge — and returns that
    /// snapshot.  The schema version is taken from the imported snapshot;
    /// incoming records are brought under the ladder invariants.
    pub fn apply_envelope(&mut self, envelope: ExportEnvelope) -> (r: DbSnapshot)
        ensures
            final(self).wf(),
            r@ == envelope.snapshot@,
            final(self).paths == old(self).paths,
            final(self).id_counter == old(self).id_counter,
            final(self).state@.version == envelope.snapshot@.schema_version as u32,
            final(self).state@.categories == envelope.snapshot@.categories,
            final(self).state@.topics.len() == envelope.snapshot@.topics.len(),
            forall|i: int|
                0 <= i < envelope.snapshot@.topics.len() ==> sanitize_rel(
                    envelope.snapshot@.topics[i],
                    #[trigger] final(self).state@.topics[i],
                ),
    {
        let topics = sanitize_topics(&envelope.snapshot.topics);
        let categories = clone_categories(&envelope.snapshot.categories);
        let version = #[verifier::truncate] (envelope.snapshot.schema_version as u32);
        self.state = PersistedState { version, topics, categories };
        envelope.snapshot
    }

    /// Wraps the current state in a versioned export envelope, stamped with
    /// the exporting application's version and the export time.
    pub fn export_envelope(&self, version: &str, now: i64) -> (r: ExportEnvelope)
        ensures
            r@.version == version@,
            r@.exported_at == now,
            r@.snapshot.topics == self.state@.topics,
            r@.snapshot.categories == self.state@.categories,
            r@.snapshot.schema_version == self.state@.version as i64,
    {
        ExportEnvelope { version: version.to_owned(), exported_at: now, snapshot: self.snapshot() }
    }

    /// Generates a fresh identifier from the current time and the engine's
    /// counter, and advances the counter.
    fn generate_id(&mut self, now: i64) -> (r: String)
        requires
            valid_time(now),
        ensures
            r@ == spec_hex(now as nat) + spec_hex(old(self).id_counter as nat),
            final(self).state == old(self).state,
            final(self).paths == old(self).paths,
            final(self).id_counter == if old(self).id_counter == u64::MAX {
                0u64
            } else {
                (old(self).id_counter + 1) as u64
            },
    {
        let mut s = hex_string(now as u64);
        let c = hex_string(self.id_counter);
        s.append(c.as_str());
        if self.id_counter == u64::MAX {
            self.id_counter = 0;
        } else {
            self.id_counter = self.id_counter + 1;
        }
        s
    }

    /// Creates a category.  The label is trimmed; an empty result is a
    /// validation error, and a case-insensitive duplicate of an existing
    /// label a conflict.  On success the new category — fresh id, stamped
    /// with the current time — is appended and returned.
    pub fn create_category(&mut self, payload: &CategoryPayload, now: i64) -> (r: Result<
        Category,
        StoreError,
    >)
        requires
            valid_time(now),
        ensures
            ({
                let label = trim_spec(payload@.label);
                let cats = old(self).state@.categories;
                &&& (label.len() == 0 ==> r == Err::<Category, StoreError>(StoreError::Validation)
                    && *final(self) == *old(self))
                &&& (label.len() > 0 && label_taken(cats, label) ==> r == Err::<
                    Category,
                    StoreError,
                >(StoreError::Conflict) && *final(self) == *old(self))
                &&& (label.len() > 0 && !label_taken(cats, label) ==> {
                    &&& r is Ok
                    &&& r->Ok_0@.label == label
                    &&& r->Ok_0@.color == payload@.color
                    &&& r->Ok_0@.icon == payload@.icon
                    &&& r->Ok_0@.created_at == now
                    &&& r->Ok_0@.updated_at == now
                    &&& r->Ok_0@.id == spec_hex(now as nat) + spec_hex(
                        old(self).id_counter as nat,
                    )
                    &&& final(self).state@.categories == cats.push(r->Ok_0@)
                    &&& final(self).state@.topics == old(self).state@.topics
                    &&& final(self).state@.version == old(self).state@.version
                    &&& final(self).paths == old(self).paths
                    &&& final(self).id_counter == if old(self).id_counter == u64::MAX {
                        0u64
                    } else {
                        (old(self).id_counter + 1) as u64
                    }
                })
                &&& (old(self).wf() ==> final(self).wf())
            }),
    {
        let label = trim(payload.label.as_str());
        if label.as_str().is_empty() {
            return Err(StoreError::Validation);
        }
        if category_label_taken(&self.state.categories, label.as_str()) {
            return Err(StoreError::Conflict);
        }
        let id = self.generate_id(now);
        let category = Category {
            id,
            label,
            color: clone_opt_string(&payload.color),
            icon: clone_opt_string(&payload.icon),
            created_at: now,
            updated_at: now,
        };
        let result = category.clone();
        let ghost pre = self.state.categories.deep_view();
        self.state.categories.push(category);
        proof {
            assert(self.state.categories.deep_view() =~= pre.push(result@));
        }
        Ok(result)
    }

    /// Deletes the category with the given id, if any — removing an absent
    /// id is a no-op — and cascades: every topic referencing it has its
    /// category reference cleared (the topic itself stays).
    pub fn delete_category(&mut self, id: &str, now: i64)
        ensures
            final(self).state@.categories == without_category(old(self).state@.categories, id@),
            final(self).state@.topics.len() == old(self).state@.topics.len(),
            forall|i: int|
                0 <= i < old(self).state@.topics.len() ==> #[trigger] final(self).state@.topics[i]
                    == if references_category(old(self).state@.topics[i], id@) {
                    cleared_topic(old(self).state@.topics[i], now)
                } else {
                    old(self).state@.topics[i]
                },
            final(self).state@.version == old(self).state@.version,
            final(self).paths == old(self).paths,
            final(self).id_counter == old(self).id_counter,
            old(self).wf() ==> final(self).wf(),
    {
        let ghost old_cats = self.state.categories.deep_view();
        let mut kept: Vec<Category> = Vec::new();
        proof {
            reveal(Seq::filter);
            assert(old_cats.take(0) =~= Seq::<CategoryModel>::empty());
            assert(kept.deep_view() =~= without_category(old_cats.take(0), id@));
        }
        let mut i: usize = 0;
        while i < self.state.categories.len()
            invariant
                i <= self.state.categories@.len(),
                old_cats == self.state.categories.deep_view(),
                old_cats.len() == self.state.categories@.len(),
                kept.deep_view() == without_category(old_cats.take(i as int), id@),
            decreases self.state.categories@.len() - i,
        {
            let ghost pre = kept.deep_view();
            if !str_eq(self.state.categories[i].id.as_str(), id) {
                kept.push(self.state.categories[i].clone());
                proof {
                    assert(kept.deep_view() =~= pre.push(old_cats[i as int]));
                }
            }
            proof {
                reveal(Seq::filter);
                let sub1 = old_cats.take(i + 1);
                assert(sub1.drop_last() =~= old_cats.take(i as int));
                assert(sub1.last() == old_cats[i as int]);
                assert(kept.deep_view() == without_category(sub1, id@));
            }
            i += 1;
        }
        proof {
            assert(old_cats.take(old_cats.len() as int) =~= old_cats);
        }
        self.state.categories = kept;
        let ghost old_topics = self.state.topics.deep_view();
        let ghost mid = *self;
        let mut j: usize = 0;
        while j < self.state.topics.len()
            invariant
                j <= self.state.topics@.len(),
                self.state.topics.deep_view().len() == old_topics.len(),
                self.state.topics@.len() == old_topics.len(),
                self.state.categories == mid.state.categories,
                self.state.version == mid.state.version,
                self.paths == mid.paths,
                self.id_counter == mid.id_counter,
                forall|k: int|
                    j <= k < old_topics.len() ==> #[trigger] self.state.topics.deep_view()[k]
                        == old_topics[k],
                forall|k: int|
                    0 <= k < j ==> #[trigger] self.state.topics.deep_view()[k]
                        == if references_category(old_topics[k], id@) {
                        cleared_topic(old_topics[k], now)
                    } else {
                        old_topics[k]
                    },
            decreases self.state.topics@.len() - j,
        {
            proof {
                assert(self.state.topics.deep_view()[j as int] == old_topics[j as int]);
            }
            let referenced = match &self.state.topics[j].category_id {
                Some(cid) => str_eq(cid.as_str(), id),
                None => false,
            };
            if referenced {
                let mut t = self.state.topics[j].clone();
                t.category_id = None;
                t.category_label = None;
                t.updated_at = now;
                proof {
                    assert(t@ =~= cleared_topic(old_topics[j as int], now));
                }
                let ghost pre = self.state.topics.deep_view();
                self.state.topics.set(j, t);
                proof {
                    assert(self.state.topics.deep_view() =~= pre.update(
                        j as int,
                        cleared_topic(old_topics[j as int], now),
                    ));
                }
            }
            j += 1;
        }
        proof {
            if old(self).wf() {
                assert forall|k: int|
                    0 <= k < self.state.topics.deep_view().len() implies (
                #[trigger] self.state.topics.deep_view()[k]).wf() by {
                    assert(old_topics[k].wf());
                }
            }
        }
    }

    /// Creates a topic from a payload: the title is trimmed, the interval
    /// ladder normalized, the category label resolved from the referenced
    /// category (absent when the category is unknown), and the first review
    /// scheduled one ladder step after the current time.  A supplied id is
    /// used as-is; otherwise one is generated.
    pub fn create_topic(&mut self, id: Option<String>, payload: &TopicPayload, now: i64) -> (r:
        Topic)
        requires
            old(self).wf(),
            valid_time(now),
            payload_intervals_ok(payload@),
        ensures
            final(self).wf(),
            final(self).state@.topics == old(self).state@.topics.push(r@),
            final(self).state@.categories == old(self).state@.categories,
            final(self).state@.version == old(self).state@.version,
            final(self).paths == old(self).paths,
            r@.title == trim_spec(payload@.title),
            r@.notes == payload@.notes,
            r@.category_id == payload@.category_id,
            r@.category_label == spec_resolve_opt_label(
                old(self).state@.categories,
                payload@.category_id,
            ),
            r@.icon == payload@.icon,
            r@.color == payload@.color,
            r@.reminder_time == payload@.reminder_time,
            is_normalization(payload@.intervals, r@.intervals),
            r@.interval_index == 0,
            r@.next_review_date == next_review_at(now as int, r@.intervals, 0),
            r@.last_reviewed_at is None,
            r@.created_at == now,
            r@.updated_at == now,
            r@.snoozed_until is None,
            match id {
                Some(s) => r@.id == s@ && final(self).id_counter == old(self).id_counter,
                None => r@.id == spec_hex(now as nat) + spec_hex(old(self).id_counter as nat)
                    && final(self).id_counter == if old(self).id_counter == u64::MAX {
                    0u64
                } else {
                    (old(self).id_counter + 1) as u64
                },
            },
    {
        let ivs = normalize_intervals(&payload.intervals);
        proof {
            assert(payload@.intervals == payload.intervals@);
            lemma_normalization_bounded(payload.intervals@, ivs@);
        }
        let next = compute_next_review_date(None, &ivs, 0, now);
        let category_label = match &payload.category_id {
            Some(cid) => resolve_category_label(&self.state.categories, cid.as_str()),
            None => None,
        };
        let topic_id = match id {
            Some(s) => s,
            None => self.generate_id(now),
        };
        let topic = Topic {
            id: topic_id,
            title: trim(payload.title.as_str()),
            notes: payload.notes.clone(),
            category_id: clone_opt_string(&payload.category_id),
            category_label,
            icon: payload.icon.clone(),
            color: payload.color.clone(),
            reminder_time: payload.reminder_time,
            intervals: ivs,
            interval_index: 0,
            next_review_date: next,
            last_reviewed_at: None,
            created_at: now,
            updated_at: now,
            snoozed_until: None,
        };
        let result = topic.clone();
        let ghost pre = self.state.topics.deep_view();
        self.state.topics.push(topic);
        proof {
            assert(self.state.topics.deep_view() =~= pre.push(result@));
            assert forall|k: int|
                0 <= k < self.state.topics.deep_view().len() implies (
            #[trigger] self.state.topics.deep_view()[k]).wf() by {
                if k < pre.len() {
                    assert(old(self).state@.topics[k].wf());
                }
            }
        }
        result
    }

    /// Edits the topic with the given id: the payload fields replace the
    /// stored ones, the ladder is re-normalized, the position in it is kept
    /// (clamped into the new ladder) and the next review re-anchored on the
    /// existing last review (or on the current time when none is recorded).
    /// Editing never advances review progress.
    pub fn update_topic(&mut self, id: &str, payload: &TopicPayload, now: i64) -> (r: Result<
        Topic,
        StoreError,
    >)
        requires
            old(self).wf(),
            valid_time(now),
            payload_intervals_ok(payload@),
        ensures
            final(self).wf(),
            !has_topic(old(self).state@.topics, id@) ==> r == Err::<Topic, StoreError>(
                StoreError::NotFound,
            ) && *final(self) == *old(self),
            has_topic(old(self).state@.topics, id@) ==> ({
                let i = first_topic_match(old(self).state@.topics, id@);
                let t = old(self).state@.topics[i];
                &&& r is Ok
                &&& ({
                    let u = r->Ok_0@;
                    &&& u.id == t.id
                    &&& u.title == trim_spec(payload@.title)
                    &&& u.notes == payload@.notes
                    &&& u.category_id == payload@.category_id
                    &&& u.category_label == spec_resolve_opt_label(
                        old(self).state@.categories,
                        payload@.category_id,
                    )
                    &&& u.icon == payload@.icon
                    &&& u.color == payload@.color
                    &&& u.reminder_time == payload@.reminder_time
                    &&& is_normalization(payload@.intervals, u.intervals)
                    &&& u.interval_index == clamp_index(
                        t.interval_index as int,
                        u.intervals.len() as int,
                    )
                    &&& u.next_review_date == next_review_at(
                        match t.last_reviewed_at {
                            Some(x) => x as int,
                            None => now as int,
                        },
                        u.intervals,
                        t.interval_index as int,
                    )
                    &&& u.last_reviewed_at == t.last_reviewed_at
                    &&& u.created_at == t.created_at
                    &&& u.snoozed_until == t.snoozed_until
                    &&& u.updated_at == now
                    &&& final(self).state@.topics == old(self).state@.topics.update(i, u)
                })
                &&& final(self).state@.categories == old(self).state@.categories
                &&& final(self).state@.version == old(self).state@.version
                &&& final(self).paths == old(self).paths
                &&& final(self).id_counter == old(self).id_counter
            }),
    {
        let idx = match find_topic_index(&self.state.topics, id) {
            Some(i) => i,
            None => {
                return Err(StoreError::NotFound);
            },
        };
        let ghost old_topics = old(self).state@.topics;
        proof {
            assert(has_topic(old_topics, id@));
            lemma_first_topic_match(old_topics, id@);
            assert(first_topic_match(old_topics, id@) == idx as int);
            assert(old_topics[idx as int].wf());
        }
        let ivs = normalize_intervals(&payload.intervals);
        proof {
            assert(payload@.intervals == payload.intervals@);
            lemma_normalization_bounded(payload.intervals@, ivs@);
            lemma_ladder_len_bounded(ivs@);
        }
        let cur_index = self.state.topics[idx].interval_index;
        let last = self.state.topics[idx].last_reviewed_at;
        let next = compute_next_review_date(last, &ivs, cur_index, now);
        let len = ivs.len();
        let new_index: i64 = if cur_index <= 0 {
            0
        } else if (cur_index as u64) < (len as u64) {
            cur_index
        } else {
            (len - 1) as i64
        };
        let category_label = match &payload.category_id {
            Some(cid) => resolve_category_label(&self.state.categories, cid.as_str()),
            None => None,
        };
        let mut u = self.state.topics[idx].clone();
        u.title = trim(payload.title.as_str());
        u.notes = payload.notes.clone();
        u.category_id = clone_opt_string(&payload.category_id);
        u.category_label = category_label;
        u.icon = payload.icon.clone();
        u.color = payload.color.clone();
        u.reminder_time = payload.reminder_time;
        u.intervals = ivs;
        u.interval_index = new_index;
        u.next_review_date = next;
        u.updated_at = now;
        let result = u.clone();
        let ghost pre = self.state.topics.deep_view();
        self.state.topics.set(idx, u);
        proof {
            assert(self.state.topics.deep_view() =~= pre.update(idx as int, result@));
            assert forall|k: int|
                0 <= k < self.state.topics.deep_view().len() implies (
            #[trigger] self.state.topics.deep_view()[k]).wf() by {
                if k != idx as int {
                    assert(old_topics[k].wf());
                }
            }
        }
        Ok(result)
    }

    /// Marks the topic reviewed now: advances the ladder position by one,
    /// saturating at the last entry; stamps the review time; schedules the
    /// next review one (new) ladder step after now; and clears any snooze.
    pub fn mark_reviewed(&mut self, id: &str, now: i64) -> (r: Result<Topic, StoreError>)
        requires
            old(self).wf(),
            valid_time(now),
        ensures
            final(self).wf(),
            !has_topic(old(self).state@.topics, id@) ==> r == Err::<Topic, StoreError>(
                StoreError::NotFound,
            ) && *final(self) == *old(self),
            has_topic(old(self).state@.topics, id@) ==> ({
                let i = first_topic_match(old(self).state@.topics, id@);
                let t = old(self).state@.topics[i];
                let adv = advance_index(t.interval_index as int, t.intervals.len() as int);
                &&& r is Ok
                &&& ({
                    let u = r->Ok_0@;
                    &&& u.interval_index == adv
                    &&& u.last_reviewed_at == Some(now)
                    &&& u.next_review_date == next_review_at(now as int, t.intervals, adv)
                    &&& u.updated_at == now
                    &&& u.snoozed_until is None
                    &&& u.intervals == t.intervals
                    &&& u.id == t.id
                    &&& u.title == t.title
                    &&& u.notes == t.notes
                    &&& u.category_id == t.category_id
                    &&& u.category_label == t.category_label
                    &&& u.icon == t.icon
                    &&& u.color == t.color
                    &&& u.reminder_time == t.reminder_time
                    &&& u.created_at == t.created_at
                    &&& final(self).state@.topics == old(self).state@.topics.update(i, u)
                })
                &&& final(self).state@.categories == old(self).state@.categories
                &&& final(self).state@.version == old(self).state@.version
                &&& final(self).paths == old(self).paths
                &&& final(self).id_counter == old(self).id_counter
            }),
    {
        let idx = match find_topic_index(&self.state.topics, id) {
            Some(i) => i,
            None => {
                return Err(StoreError::NotFound);
            },
        };
        let ghost old_topics = old(self).state@.topics;
        proof {
            assert(has_topic(old_topics, id@));
            lemma_first_topic_match(old_topics, id@);
            assert(first_topic_match(old_topics, id@) == idx as int);
            assert(old_topics[idx as int].wf());
            lemma_ladder_len_bounded(old_topics[idx as int].intervals);
        }
        let len = self.state.topics[idx].intervals.len();
        let cur = self.state.topics[idx].interval_index;
        let new_index: i64 = if cur + 1 < len as i64 {
            cur + 1
        } else {
            (len - 1) as i64
        };
        let next = compute_next_review_date(
            Some(now),
            &self.state.topics[idx].intervals,
            new_index,
            now,
        );
        let mut u = self.state.topics[idx].clone();
        u.interval_index = new_index;
        u.last_reviewed_at = Some(now);
        u.next_review_date = next;
        u.updated_at = now;
        u.snoozed_until = None;
        let result = u.clone();
        let ghost pre = self.state.topics.deep_view();
        self.state.topics.set(idx, u);
        proof {
            assert(self.state.topics.deep_view() =~= pre.update(idx as int, result@));
            assert forall|k: int|
                0 <= k < self.state.topics.deep_view().len() implies (
            #[trigger] self.state.topics.deep_view()[k]).wf() by {
                if k != idx as int {
                    assert(old_topics[k].wf());
                }
            }
        }
        Ok(result)
    }

    /// Snoozes the topic until the given duration after now.
    pub fn snooze_topic(&mut self, id: &str, duration_seconds: i64, now: i64) -> (r: Result<
        (),
        StoreError,
    >)
        requires
            valid_time(now),
            0 <= duration_seconds <= MAX_SNOOZE_SECONDS,
        ensures
            !has_topic(old(self).state@.topics, id@) ==> r == Err::<(), StoreError>(
                StoreError::NotFound,
            ) && *final(self) == *old(self),
            has_topic(old(self).state@.topics, id@) ==> ({
                let i = first_topic_match(old(self).state@.topics, id@);
                let t = old(self).state@.topics[i];
                &&& r is Ok
                &&& final(self).state@.topics == old(self).state@.topics.update(
                    i,
                    (TopicModel {
                        snoozed_until: Some((now + duration_seconds) as i64),
                        updated_at: now,
                        ..t
                    }),
                )
                &&& final(self).state@.categories == old(self).state@.categories
                &&& final(self).state@.version == old(self).state@.version
                &&& final(self).paths == old(self).paths
                &&& final(self).id_counter == old(self).id_counter
            }),
            old(self).wf() ==> final(self).wf(),
    {
        let idx = match find_topic_index(&self.state.topics, id) {
            Some(i) => i,
            None => {
                return Err(StoreError::NotFound);
            },
        };
        let ghost old_topics = old(self).state@.topics;
        proof {
            assert(has_topic(old_topics, id@));
            lemma_first_topic_match(old_topics, id@);
            assert(first_topic_match(old_topics, id@) == idx as int);
        }
        let until = now + duration_seconds;
        let mut u = self.state.topics[idx].clone();
        u.snoozed_until = Some(until);
        u.updated_at = now;
        let ghost pre = self.state.topics.deep_view();
        self.state.topics.set(idx, u);
        proof {
            assert(self.state.topics.deep_view() =~= pre.update(
                idx as int,
                (TopicModel {
                    snoozed_until: Some((now + duration_seconds) as i64),
                    updated_at: now,
                    ..old_topics[idx as int]
                }),
            ));
            if old(self).wf() {
                assert forall|k: int|
                    0 <= k < self.state.topics.deep_view().len() implies (
                #[trigger] self.state.topics.deep_view()[k]).wf() by {
                    assert(old_topics[k].wf());
                }
            }
        }
        Ok(())
    }

    /// Clears any snooze on the topic.
    pub fn clear_snooze(&mut self, id: &str, now: i64) -> (r: Result<(), StoreError>)
        requires
            valid_time(now),
        ensures
            !has_topic(old(self).state@.topics, id@) ==> r == Err::<(), StoreError>(
                StoreError::NotFound,
            ) && *final(self) == *old(self),
            has_topic(old(self).state@.topics, id@) ==> ({
                let i = first_topic_match(old(self).state@.topics, id@);
                let t = old(self).state@.topics[i];
                &&& r is Ok
                &&& final(self).state@.topics == old(self).state@.topics.update(
                    i,
                    (TopicModel { snoozed_until: None, updated_at: now, ..t }),
                )
                &&& final(self).state@.categories == old(self).state@.categories
                &&& final(self).state@.version == old(self).state@.version
                &&& final(self).paths == old(self).paths
                &&& final(self).id_counter == old(self).id_counter
            }),
            old(self).wf() ==> final(self).wf(),
    {
        let idx = match find_topic_index(&self.state.topics, id) {
            Some(i) => i,
            None => {
                return Err(StoreError::NotFound);
            },
        };
        let ghost old_topics = old(self).state@.topics;
        proof {
            assert(has_topic(old_topics, id@));
            lemma_first_topic_match(old_topics, id@);
            assert(first_topic_match(old_topics, id@) == idx as int);
        }
        let mut u = self.state.topics[idx].clone();
        u.snoozed_until = None;
        u.updated_at = now;
        let ghost pre = self.state.topics.deep_view();
        self.state.topics.set(idx, u);
        proof {
            assert(self.state.topics.deep_view() =~= pre.update(
                idx as int,
                (TopicModel { snoozed_until: None, updated_at: now, ..old_topics[idx as int] }),
            ));
            if old(self).wf() {
                assert forall|k: int|
                    0 <= k < self.state.topics.deep_view().len() implies (
                #[trigger] self.state.topics.deep_view()[k]).wf() by {
                    assert(old_topics[k].wf());
                }
            }
        }
        Ok(())
    }

    /// The topics due at the given time: reminder set, next review time
    /// passed, and no snooze still active.  Read-only.
    pub fn due_topics(&self, now: i64) -> (r: Vec<Topic>)
        ensures
            r.deep_view() == due_filter(self.state@.topics, now),
    {
        let ghost all = self.state.topics.deep_view();
        let mut due: Vec<Topic> = Vec::new();
        proof {
            reveal(Seq::filter);
            assert(all.take(0) =~= Seq::<TopicModel>::empty());
            assert(due.deep_view() =~= due_filter(all.take(0), now));
        }
        let mut i: usize = 0;
        while i < self.state.topics.len()
            invariant
                i <= self.state.topics@.len(),
                all == self.state.topics.deep_view(),
                all.len() == self.state.topics@.len(),
                due.deep_view() == due_filter(all.take(i as int), now),
            decreases self.state.topics@.len() - i,
        {
            let t = &self.state.topics[i];
            let is_due = t.reminder_time.is_some() && t.next_review_date <= now && match
                &t.snoozed_until {
                Some(s) => *s <= now,
                None => true,
            };
            let ghost pre = due.deep_view();
            if is_due {
                due.push(t.clone());
                proof {
                    assert(due.deep_view() =~= pre.push(all[i as int]));
                }
            }
            proof {
                reveal(Seq::filter);
                let sub1 = all.take(i + 1);
                assert(sub1.drop_last() =~= all.take(i as int));
                assert(sub1.last() == all[i as int]);
                assert(due.deep_view() == due_filter(sub1, now));
            }
            i += 1;
        }
        proof {
            assert(all.take(all.len() as int) =~= all);
        }
        due
    }

    /// Deletes every topic with the given id; removing an absent id is a
    /// no-op.
    pub fn delete_topic(&mut self, id: &str)
        ensures
            final(self).state@.topics == without_topic(old(self).state@.topics, id@),
            final(self).state@.categories == old(self).state@.categories,
            final(self).state@.version == old(self).state@.version,
            final(self).paths == old(self).paths,
            final(self).id_counter == old(self).id_counter,
            old(self).wf() ==> final(self).wf(),
    {
        let ghost old_topics = self.state.topics.deep_view();
        let mut kept: Vec<Topic> = Vec::new();
        proof {
            reveal(Seq::filter);
            assert(old_topics.take(0) =~= Seq::<TopicModel>::empty());
            assert(kept.deep_view() =~= without_topic(old_topics.take(0), id@));
        }
        let mut i: usize = 0;
        while i < self.state.topics.len()
            invariant
                i <= self.state.topics@.len(),
                old_topics == self.state.topics.deep_view(),
                old_topics.len() == self.state.topics@.len(),
                kept.deep_view() == without_topic(old_topics.take(i as int), id@),
            decreases self.state.topics@.len() - i,
        {
            let ghost pre = kept.deep_view();
            if !str_eq(self.state.topics[i].id.as_str(), id) {
                kept.push(self.state.topics[i].clone());
                proof {
                    assert(kept.deep_view() =~= pre.push(old_topics[i as int]));
                }
            }
            proof {
                reveal(Seq::filter);
                let sub1 = old_topics.take(i + 1);
                assert(sub1.drop_last() =~= old_topics.take(i as int));
                assert(sub1.last() == old_topics[i as int]);
                assert(kept.deep_view() == without_topic(sub1, id@));
            }
            i += 1;
        }
        proof {
            assert(old_topics.take(old_topics.len() as int) =~= old_topics);
        }
        self.state.topics = kept;
        proof {
            if old(self).wf() {
                lemma_without_topic_wf(old_topics, id@);
            }
        }
    }
}

/// The interval values small enough for date arithmetic.
pub open spec fn bounded_intervals(s: Seq<i64>) -> Seq<i64> {
    s.filter(|v: i64| v <= MAX_INTERVAL_DAYS)
}

/// `u` is the stored form of the incoming topic record `t`: the interval
/// ladder is normalized (oversized entries dropped first), the ladder
/// position clamped and an unrepresentable last-review time discarded;
/// every other field is carried over unchanged.
pub open spec fn sanitize_rel(t: TopicModel, u: TopicModel) -> bool {
    &&& is_normalization(bounded_intervals(t.intervals), u.intervals)
    &&& u.interval_index == clamp_index(t.interval_index as int, u.intervals.len() as int)
    &&& u.last_reviewed_at == match t.last_reviewed_at {
        Some(x) => if valid_time(x) {
            Some(x)
        } else {
            None::<i64>
        },
        None => None::<i64>,
    }
    &&& u.id == t.id
    &&& u.title == t.title
    &&& u.notes == t.notes
    &&& u.category_id == t.category_id
    &&& u.category_label == t.category_label
    &&& u.icon == t.icon
    &&& u.color == t.color
    &&& u.reminder_time == t.reminder_time
    &&& u.next_review_date == t.next_review_date
    &&& u.created_at == t.created_at
    &&& u.updated_at == t.updated_at
    &&& u.snoozed_until == t.snoozed_until
}

/// Keeps the interval values that are small enough for date arithmetic.
fn keep_bounded(values: &Vec<i64>) -> (r: Vec<i64>)
    ensures
        r@ == bounded_intervals(values@),
{
    let mut r: Vec<i64> = Vec::new();
    proof {
        reveal(Seq::filter);
        assert(values@.take(0) =~= Seq::<i64>::empty());
        assert(r@ =~= bounded_intervals(values@.take(0)));
    }
    let mut i: usize = 0;
    while i < values.len()
        invariant
            i <= values@.len(),
            r@ == bounded_intervals(values@.take(i as int)),
        decreases values@.len() - i,
    {
        let ghost pre = r@;
        let v = values[i];
        if v <= MAX_INTERVAL_DAYS {
            r.push(v);
        }
        proof {
            reveal(Seq::filter);
            let sub1 = values@.take(i + 1);
            assert(sub1.drop_last() =~= values@.take(i as int));
            assert(sub1.last() == values@[i as int]);
            assert(r@ == bounded_intervals(sub1));
        }
        i += 1;
    }
    proof {
        assert(values@.take(values@.len() as int) =~= values@);
    }
    r
}

/// Brings one incoming topic record into the stored form.
fn sanitize_topic(t: &Topic) -> (r: Topic)
    ensures
        sanitize_rel(t@, r@),
        r@.wf(),
{
    let kept = keep_bounded(&t.intervals);
    let ivs = normalize_intervals(&kept);
    let len = ivs.len();
    let idx: i64 = if t.interval_index <= 0 {
        0
    } else if (t.interval_index as u64) < (len as u64) {
        t.interval_index
    } else {
        (len - 1) as i64
    };
    let last = match t.last_reviewed_at {
        Some(x) => if 0 <= x && x <= MAX_TIMESTAMP {
            Some(x)
        } else {
            None
        },
        None => None,
    };
    let r = Topic {
        id: t.id.clone(),
        title: t.title.clone(),
        notes: t.notes.clone(),
        category_id: clone_opt_string(&t.category_id),
        category_label: clone_opt_string(&t.category_label),
        icon: t.icon.clone(),
        color: t.color.clone(),
        reminder_time: t.reminder_time,
        intervals: ivs,
        interval_index: idx,
        next_review_date: t.next_review_date,
        last_reviewed_at: last,
        created_at: t.created_at,
        updated_at: t.updated_at,
        snoozed_until: t.snoozed_until,
    };
    proof {
        lemma_normalization_of_bounded_is_bounded(t.intervals@, r@.intervals);
    }
    r
}

/// A normalization of the bounded values of a ladder is itself bounded.
proof fn lemma_normalization_of_bounded_is_bounded(input: Seq<i64>, out: Seq<i64>)
    requires
        is_normalization(bounded_intervals(input), out),
    ensures
        intervals_bounded(out),
{
    let kept = bounded_intervals(input);
    assert forall|k: int| 0 <= k < out.len() implies 0 < #[trigger] out[k]
        <= MAX_INTERVAL_DAYS by {
        assert(out[k] > 0);
        if exists|i: int| 0 <= i < kept.len() && #[trigger] kept[i] > 0 {
            assert(out.contains(out[k]));
            assert(kept.contains(out[k]));
            let j = choose|j: int| 0 <= j < kept.len() && kept[j] == out[k];
            input.lemma_filter_pred(|v: i64| v <= MAX_INTERVAL_DAYS, j);
        } else {
            assert(out =~= seq![1i64]);
        }
    }
}

/// Brings every incoming topic record into the stored form.
fn sanitize_topics(topics: &Vec<Topic>) -> (r: Vec<Topic>)
    ensures
        r.deep_view().len() == topics.deep_view().len(),
        forall|i: int|
            0 <= i < topics.deep_view().len() ==> sanitize_rel(
                topics.deep_view()[i],
                #[trigger] r.deep_view()[i],
            ),
        topics_wf(r.deep_view()),
{
    let mut r: Vec<Topic> = Vec::new();
    let mut i: usize = 0;
    while i < topics.len()
        invariant
            i <= topics@.len(),
            r.deep_view().len() == i,
            forall|k: int|
                0 <= k < i ==> sanitize_rel(topics.deep_view()[k], #[trigger] r.deep_view()[k]),
            forall|k: int| 0 <= k < i ==> (#[trigger] r.deep_view()[k]).wf(),
        decreases topics@.len() - i,
    {
        let s = sanitize_topic(&topics[i]);
        let ghost pre = r.deep_view();
        r.push(s);
        proof {
            assert(r.deep_view() =~= pre.push(s@));
        }
        i += 1;
    }
    r
}

/// On a well-formed topic, the stored form is the topic itself.
pub proof fn lemma_sanitize_identity(t: TopicModel, u: TopicModel)
    requires
        t.wf(),
        sanitize_rel(t, u),
    ensures
        u == t,
{
    lemma_bounded_filter_identity(t.intervals);
    assert(is_normalization(t.intervals, t.intervals)) by {
        assert(t.intervals[0] > 0);
        assert forall|v: i64| #[trigger] t.intervals.contains(v) implies v > 0 by {
            let k = choose|k: int| 0 <= k < t.intervals.len() && t.intervals[k] == v;
            assert(t.intervals[k] > 0);
        }
    }
    lemma_normalization_unique(t.intervals, u.intervals, t.intervals);
    assert(u.interval_index == t.interval_index);
    assert(u =~= t);
}

/// Filtering a ladder whose values are all in bounds changes nothing.
proof fn lemma_bounded_filter_identity(s: Seq<i64>)
    requires
        intervals_bounded(s),
    ensures
        bounded_intervals(s) == s,
    decreases s.len(),
{
    reveal(Seq::filter);
    if s.len() == 0 {
        assert(bounded_intervals(s) =~= s);
    } else {
        assert(intervals_bounded(s.drop_last())) by {
            assert(forall|i: int| 0 <= i < s.len() - 1 ==> s.drop_last()[i] == s[i]);
        }
        lemma_bounded_filter_identity(s.drop_last());
        assert(s[s.len() - 1] <= MAX_INTERVAL_DAYS);
        assert(bounded_intervals(s) =~= s.drop_last().push(s.last()));
        assert(s.drop_last().push(s.last()) =~= s);
    }
}

/// Importing what export produced reproduces the same topics: sanitation is
/// the identity on a well-formed database, so an export → import round trip
/// yields an equivalent topic set (same ids, fields and ladder state), while
/// `apply_envelope`'s contract carries categories and schema version over
/// unchanged.
pub proof fn lemma_export_import_round_trip(topics: Seq<TopicModel>, imported: Seq<TopicModel>)
    requires
        topics_wf(topics),
        imported.len() == topics.len(),
        forall|i: int|
            0 <= i < topics.len() ==> sanitize_rel(topics[i], #[trigger] imported[i]),
    ensures
        imported == topics,
{
    assert forall|i: int| 0 <= i < topics.len() implies imported[i] == topics[i] by {
        lemma_sanitize_identity(topics[i], imported[i]);
    }
    assert(imported =~= topics);
}

/// The ghost model of the category every fresh database starts with.
pub open spec fn general_category(now: i64) -> CategoryModel {
    CategoryModel {
        id: "general"@,
        label: "General"@,
        color: Some("#38bdf8"@),
        icon: Some("Sparkles"@),
        created_at: now,
        updated_at: now,
    }
}

/// The state a fresh database starts from: no topics, one seeded category.
pub fn default_state(now: i64) -> (r: PersistedState)
    ensures
        r@.version == SCHEMA_VERSION,
        r@.topics.len() == 0,
        r@.categories == seq![general_category(now)],
{
    let cat = Category {
        id: "general".to_owned(),
        label: "General".to_owned(),
        color: Some("#38bdf8".to_owned()),
        icon: Some("Sparkles".to_owned()),
        created_at: now,
        updated_at: now,
    };
    let mut categories: Vec<Category> = Vec::new();
    categories.push(cat);
    let r = PersistedState { version: SCHEMA_VERSION, topics: Vec::new(), categories };
    proof {
        assert(r@.categories =~= seq![general_category(now)]);
        assert(r@.topics =~= Seq::<TopicModel>::empty());
    }
    r
}

/// Which backup files the retention policy removes: given the backup file
/// names in ascending lexicographic order (names embed a sortable date), all
/// but the newest [`BACKUP_KEEP`] are dropped.
pub fn backups_to_remove(sorted_names: &Vec<String>) -> (r: Vec<String>)
    ensures
        sorted_names@.len() > BACKUP_KEEP ==> r.deep_view() == sorted_names.deep_view().take(
            sorted_names@.len() - BACKUP_KEEP,
        ),
        sorted_names@.len() <= BACKUP_KEEP ==> r@.len() == 0,
{
    let mut r: Vec<String> = Vec::new();
    if sorted_names.len() <= BACKUP_KEEP {
        return r;
    }
    let excess = sorted_names.len() - BACKUP_KEEP;
    let mut i: usize = 0;
    while i < excess
        invariant
            i <= excess,
            excess == sorted_names@.len() - BACKUP_KEEP,
            sorted_names@.len() > BACKUP_KEEP,
            r.deep_view() == sorted_names.deep_view().take(i as int),
        decreases excess - i,
    {
        let ghost pre = r.deep_view();
        r.push(sorted_names[i].clone());
        proof {
            assert(r.deep_view() =~= pre.push(sorted_names.deep_view()[i as int]));
            assert(r.deep_view() =~= sorted_names.deep_view().take(i + 1));
        }
        i += 1;
    }
    r
}

} // verus!
