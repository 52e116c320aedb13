//! The versioned item store: CRUD over the primary rows, snapshot-before-
//! write version history, and a full-text index kept in step with every
//! mutation.
//!
//! The store is built for one writer. Its invariant ties the three pieces
//! together: rows carry unique identifiers and unique names; for a row at
//! version `v` the snapshots of its identifier hold exactly versions
//! `1..v`, in that order; and the index holds one entry per row, derived
//! from the row's current fields.

use vstd::prelude::*;

use crate::category::Category;
use crate::clock::now_seconds;
use crate::item::{opt_view, Item, ItemView, StoreError};
use crate::search::{
    matches_query, score_query, spec_doc_tokens, spec_matches, spec_score, spec_tokens, tokenize,
    IndexEntry,
};
use crate::sort::{
    keyed_views, lex_le, sort_keyed, sort_tags, tag_views, tags_sorted, Keyed, Ranked, TagCount,
    TagCountView,
};
use crate::tags::{count_token, lemma_count_token_nonneg, lemma_count_token_positive, tag_tokens};
use crate::text::{chars_eq, chars_of, contains_sub, is_substring, lower_chars, lower_seq, string_of};

verus! {

/// One immutable history record: the full prior state of an item, and when
/// it was superseded.
pub struct Snapshot {
    /// The item's fields exactly as they stood before the update, version
    /// and identifier included.
    pub item: Item,
    /// When this snapshot was written (seconds since the epoch).
    pub at: u64,
}

#[verifier::ext_equal]
pub ghost struct SnapshotView {
    pub item: ItemView,
    pub at: u64,
}

impl View for Snapshot {
    type V = SnapshotView;

    open spec fn view(&self) -> SnapshotView {
        SnapshotView { item: self.item@, at: self.at }
    }
}

/// One line of the version-history list: a version number, when it was
/// written, and whether it is the live row.
#[derive(Debug, Clone, Copy, PartialEq, Eq, Structural)]
pub struct ItemVersion {
    pub version: u64,
    pub created_at: u64,
    pub is_current: bool,
}

/// Whether some row carries identifier `id`.
pub open spec fn contains_id(rows: Seq<ItemView>, id: i64) -> bool {
    exists|i: int| 0 <= i < rows.len() && rows[i].id == Some(id)
}

/// Whether some row carries the name `name`.
pub open spec fn contains_name(rows: Seq<ItemView>, name: Seq<char>) -> bool {
    exists|i: int| 0 <= i < rows.len() && (#[trigger] rows[i]).name == name
}

/// The position of the row with identifier `id`; meaningful only when
/// `contains_id` holds (identifiers are unique).
pub open spec fn idx_of(rows: Seq<ItemView>, id: i64) -> int {
    choose|i: int| 0 <= i < rows.len() && rows[i].id == Some(id)
}

/// The row with identifier `id`.
pub open spec fn row_of(rows: Seq<ItemView>, id: i64) -> ItemView {
    rows[idx_of(rows, id)]
}

/// Every row has an assigned identifier below `next_id`, a version of at
/// least 1, both timestamps, and identifiers and names are unique.
pub open spec fn rows_wf(rows: Seq<ItemView>, next_id: i64) -> bool {
    &&& forall|i: int|
        0 <= i < rows.len() ==> {
            &&& (#[trigger] rows[i]).id is Some
            &&& 1 <= rows[i].id.unwrap() < next_id
            &&& rows[i].version >= 1
            &&& rows[i].created_at is Some
            &&& rows[i].updated_at is Some
        }
    &&& forall|i: int, j: int|
        0 <= i < rows.len() && 0 <= j < rows.len() && i != j ==> (#[trigger] rows[i]).id != (
        #[trigger] rows[j]).id
    &&& forall|i: int, j: int|
        0 <= i < rows.len() && 0 <= j < rows.len() && i != j ==> (#[trigger] rows[i]).name != (
        #[trigger] rows[j]).name
}

/// The snapshots that belong to item `id`, in storage order.
pub open spec fn snaps_for(snaps: Seq<SnapshotView>, id: i64) -> Seq<SnapshotView>
    decreases snaps.len(),
{
    if snaps.len() == 0 {
        Seq::empty()
    } else {
        let rest = snaps_for(snaps.drop_last(), id);
        if snaps.last().item.id == Some(id) {
            rest.push(snaps.last())
        } else {
            rest
        }
    }
}

/// The snapshots that do not belong to item `id`, in storage order.
pub open spec fn snaps_without(snaps: Seq<SnapshotView>, id: i64) -> Seq<SnapshotView>
    decreases snaps.len(),
{
    if snaps.len() == 0 {
        Seq::empty()
    } else {
        let rest = snaps_without(snaps.drop_last(), id);
        if snaps.last().item.id != Some(id) {
            rest.push(snaps.last())
        } else {
            rest
        }
    }
}

/// The history of each row is dense: a row at version `v` owns snapshots
/// at exactly the versions `1..v`, stored in ascending order, and every
/// snapshot belongs to a live row.
pub open spec fn snaps_wf(rows: Seq<ItemView>, snaps: Seq<SnapshotView>) -> bool {
    &&& forall|i: int|
        0 <= i < rows.len() ==> {
            let s = snaps_for(snaps, (#[trigger] rows[i]).id.unwrap());
            &&& s.len() == rows[i].version - 1
            &&& forall|k: int| 0 <= k < s.len() ==> (#[trigger] s[k]).item.version == k + 1
        }
    &&& forall|k: int|
        0 <= k < snaps.len() ==> (#[trigger] snaps[k]).item.id is Some && contains_id(
            rows,
            snaps[k].item.id.unwrap(),
        )
}

/// The versioned item store.
pub struct ItemStore {
    items: Vec<Item>,
    snapshots: Vec<Snapshot>,
    index: Vec<IndexEntry>,
    next_id: i64,
}

impl ItemStore {
    /// The current rows, as mathematical values.
    pub closed spec fn rows(&self) -> Seq<ItemView> {
        Seq::new(self.items@.len(), |i: int| self.items@[i]@)
    }

    /// The history records, as mathematical values.
    pub closed spec fn snaps(&self) -> Seq<SnapshotView> {
        Seq::new(self.snapshots@.len(), |i: int| self.snapshots@[i]@)
    }

    /// The identifier the next insertion will receive.
    pub closed spec fn spec_next_id(&self) -> i64 {
        self.next_id
    }

    /// The store's invariant.
    pub closed spec fn wf(&self) -> bool {
        &&& rows_wf(self.rows(), self.next_id)
        &&& snaps_wf(self.rows(), self.snaps())
        &&& self.index@.len() == self.items@.len()
        &&& forall|i: int|
            0 <= i < self.index@.len() ==> {
                &&& (#[trigger] self.index@[i]).id == self.rows()[i].id.unwrap()
                &&& self.index@[i].tokens.deep_view() == spec_doc_tokens(self.rows()[i])
            }
        &&& 1 <= self.next_id
    }

    /// A well-formed store satisfies the row and history disciplines; this
    /// makes the content of the invariant available to callers.
    pub proof fn lemma_wf_facts(&self)
        requires
            self.wf(),
        ensures
            rows_wf(self.rows(), self.spec_next_id()),
            snaps_wf(self.rows(), self.snaps()),
            1 <= self.spec_next_id(),
    {
    }

    /// An empty store; the schema of a fresh backing file.
    pub fn new() -> (s: ItemStore)
        ensures
            s.wf(),
            s.rows() == Seq::<ItemView>::empty(),
            s.snaps() == Seq::<SnapshotView>::empty(),
            s.spec_next_id() == 1,
    {
        let s = ItemStore {
            items: Vec::new(),
            snapshots: Vec::new(),
            index: Vec::new(),
            next_id: 1,
        };
        proof {
            assert(s.rows() =~= Seq::<ItemView>::empty());
            assert(s.snaps() =~= Seq::<SnapshotView>::empty());
        }
        s
    }

    /// The position of the row with identifier `id`, if any.
    fn find_index(&self, id: i64) -> (r: Option<usize>)
        requires
            self.wf(),
        ensures
            match r {
                Some(i) => i < self.rows().len() && self.rows()[i as int].id == Some(id)
                    && contains_id(self.rows(), id) && i == idx_of(self.rows(), id),
                None => !contains_id(self.rows(), id),
            },
    {
        let mut i: usize = 0;
        while i < self.items.len()
            invariant
                self.wf(),
                i <= self.rows().len(),
                self.rows().len() == self.items@.len(),
                forall|j: int| 0 <= j < i ==> (#[trigger] self.rows()[j]).id != Some(id),
            decreases self.items@.len() - i,
        {
            if let Some(this_id) = self.items[i].id {
                if this_id == id {
                    proof {
                        assert(self.rows()[i as int].id == Some(id));
                        assert(contains_id(self.rows(), id));
                        let w = idx_of(self.rows(), id);
                        assert(0 <= w < self.rows().len() && self.rows()[w].id == Some(id));
                        if w != i as int {
                            assert(self.rows()[w].id != self.rows()[i as int].id);
                            assert(false);
                        }
                    }
                    return Some(i);
                }
            }
            i += 1;
        }
        None
    }

    /// Whether any row already carries `name`; if so, which one.
    fn find_name(&self, name: &String) -> (r: Option<usize>)
        requires
            self.wf(),
        ensures
            match r {
                Some(i) => i < self.rows().len() && self.rows()[i as int].name == name@
                    && contains_name(self.rows(), name@),
                None => !contains_name(self.rows(), name@),
            },
    {
        let mut i: usize = 0;
        while i < self.items.len()
            invariant
                self.wf(),
                i <= self.rows().len(),
                self.rows().len() == self.items@.len(),
                forall|j: int| 0 <= j < i ==> (#[trigger] self.rows()[j]).name != name@,
            decreases self.items@.len() - i,
        {
            if self.items[i].name == *name {
                return Some(i);
            }
            i += 1;
        }
        None
    }

    /// The identifier the next insertion will receive; lets a caller test
    /// for identifier exhaustion before asking for an insert.
    pub fn next_id(&self) -> (r: i64)
        ensures
            r == self.spec_next_id(),
    {
        self.next_id
    }

    /// The current row under `id`, or `None`; never touches the history.
    pub fn get(&self, id: i64) -> (r: Option<Item>)
        requires
            self.wf(),
        ensures
            match r {
                Some(item) => contains_id(self.rows(), id) && item@ == row_of(self.rows(), id),
                None => !contains_id(self.rows(), id),
            },
    {
        match self.find_index(id) {
            Some(i) => Some(self.items[i].duplicate()),
            None => None,
        }
    }

    /// The row an insertion at time `now` writes for `item` under `id`.
    pub open spec fn inserted_row(v: ItemView, id: i64, now: u64) -> ItemView {
        ItemView {
            id: Some(id),
            created_at: Some(now),
            updated_at: Some(now),
            version: 1u64,
            ..v
        }
    }

    /// Insert a validated item at time `now`: it receives the next
    /// identifier, version 1, both timestamps set to `now`, and an index
    /// entry. Rejected with `Validation` if a required field is blank and
    /// with `Conflict` if the name is already taken; a failed insertion
    /// leaves the store unchanged.
    pub fn insert_at(&mut self, item: &Item, now: u64) -> (r: Result<i64, StoreError>)
        requires
            old(self).wf(),
            old(self).spec_next_id() < i64::MAX,
        ensures
            final (self).wf(),
            match r {
                Ok(id) => {
                    &&& item@.valid()
                    &&& !contains_name(old(self).rows(), item@.name)
                    &&& id == old(self).spec_next_id()
                    &&& final (self).rows() == old(self).rows().push(
                        Self::inserted_row(item@, id, now),
                    )
                    &&& final (self).snaps() == old(self).snaps()
                    &&& final (self).spec_next_id() == id + 1
                },
                Err(e) => {
                    &&& final (self).rows() == old(self).rows()
                    &&& final (self).snaps() == old(self).snaps()
                    &&& final (self).spec_next_id() == old(self).spec_next_id()
                    &&& (e == StoreError::Validation <==> !item@.valid())
                    &&& e != StoreError::Validation ==> e == StoreError::Conflict
                        && contains_name(old(self).rows(), item@.name)
                },
            },
    {
        if item.validate().is_err() {
            return Err(StoreError::Validation);
        }
        if self.find_name(&item.name).is_some() {
            return Err(StoreError::Conflict);
        }
        let id = self.next_id;
        let mut row = item.duplicate();
        row.id = Some(id);
        row.version = 1;
        row.created_at = Some(now);
        row.updated_at = Some(now);
        proof {
            assert(row@ =~= Self::inserted_row(item@, id, now));
        }
        let entry = IndexEntry::build(id, &row);
        let ghost old_rows = self.rows();
        let ghost old_snaps = self.snaps();
        self.items.push(row);
        self.index.push(entry);
        self.next_id = id + 1;
        proof {
            let rows = self.rows();
            let new_row = Self::inserted_row(item@, id, now);
            assert(rows =~= old_rows.push(new_row));
            assert(self.snaps() =~= old_snaps);
            // identifiers stay unique: the new row's is larger than all old ones
            assert forall|i: int, j: int|
                0 <= i < rows.len() && 0 <= j < rows.len() && i != j implies (
            #[trigger] rows[i]).id != (#[trigger] rows[j]).id by {
                if i < old_rows.len() && j < old_rows.len() {
                    assert(rows[i] == old_rows[i] && rows[j] == old_rows[j]);
                } else if i < old_rows.len() {
                    assert(old_rows[i].id.unwrap() < id);
                } else {
                    assert(old_rows[j].id.unwrap() < id);
                }
            }
            // names stay unique: no old row carried the inserted name
            assert forall|i: int, j: int|
                0 <= i < rows.len() && 0 <= j < rows.len() && i != j implies (
            #[trigger] rows[i]).name != (#[trigger] rows[j]).name by {
                if i < old_rows.len() && j < old_rows.len() {
                    assert(rows[i] == old_rows[i] && rows[j] == old_rows[j]);
                }
            }
            // every snapshot's owner is still present, and no snapshot can
            // carry the fresh identifier
            assert forall|k: int| 0 <= k < old_snaps.len() implies (#[trigger] old_snaps[k]).item.id
                != Some(id) && contains_id(rows, old_snaps[k].item.id.unwrap()) by {
                let owner = old_snaps[k].item.id.unwrap();
                assert(contains_id(old_rows, owner));
                let w = choose|i: int| 0 <= i < old_rows.len() && old_rows[i].id == Some(owner);
                assert(rows[w].id == Some(owner));
                assert(old_rows[w].id.unwrap() < id);
            }
            assert forall|i: int| 0 <= i < rows.len() implies {
                let s = snaps_for(self.snaps(), (#[trigger] rows[i]).id.unwrap());
                &&& s.len() == rows[i].version - 1
                &&& forall|k: int| 0 <= k < s.len() ==> (#[trigger] s[k]).item.version == k + 1
            } by {
                if i < old_rows.len() {
                    assert(old_rows[i] == rows[i]);
                } else {
                    assert(rows[i] == new_row);
                    lemma_snaps_for_no_id(self.snaps(), rows, id);
                    assert(snaps_for(self.snaps(), id).len() == 0);
                }
            }
        }
        Ok(id)
    }

    /// Insert a validated item under a caller-chosen identifier at or past
    /// the assignment counter: the reload path, with which a persistence
    /// layer replays a stored catalog, identifiers and all, through the
    /// same checked write path as a fresh insertion.
    pub fn insert_with_id_at(&mut self, item: &Item, id: i64, now: u64) -> (r: Result<
        i64,
        StoreError,
    >)
        requires
            old(self).wf(),
            old(self).spec_next_id() <= id < i64::MAX,
        ensures
            final (self).wf(),
            match r {
                Ok(got) => {
                    &&& item@.valid()
                    &&& !contains_name(old(self).rows(), item@.name)
                    &&& got == id
                    &&& final (self).rows() == old(self).rows().push(
                        Self::inserted_row(item@, id, now),
                    )
                    &&& final (self).snaps() == old(self).snaps()
                    &&& final (self).spec_next_id() == id + 1
                },
                Err(e) => {
                    &&& final (self).rows() == old(self).rows()
                    &&& final (self).snaps() == old(self).snaps()
                    &&& final (self).spec_next_id() == old(self).spec_next_id()
                    &&& (e == StoreError::Validation <==> !item@.valid())
                    &&& e != StoreError::Validation ==> e == StoreError::Conflict
                        && contains_name(old(self).rows(), item@.name)
                },
            },
    {
        if item.validate().is_err() {
            return Err(StoreError::Validation);
        }
        if self.find_name(&item.name).is_some() {
            return Err(StoreError::Conflict);
        }
        let mut row = item.duplicate();
        row.id = Some(id);
        row.version = 1;
        row.created_at = Some(now);
        row.updated_at = Some(now);
        proof {
            assert(row@ =~= Self::inserted_row(item@, id, now));
        }
        let entry = IndexEntry::build(id, &row);
        let ghost old_rows = self.rows();
        let ghost old_snaps = self.snaps();
        self.items.push(row);
        self.index.push(entry);
        self.next_id = id + 1;
        proof {
            let rows = self.rows();
            let new_row = Self::inserted_row(item@, id, now);
            assert(rows =~= old_rows.push(new_row));
            assert(self.snaps() =~= old_snaps);
            assert forall|i: int, j: int|
                0 <= i < rows.len() && 0 <= j < rows.len() && i != j implies (
            #[trigger] rows[i]).id != (#[trigger] rows[j]).id by {
                if i < old_rows.len() && j < old_rows.len() {
                    assert(rows[i] == old_rows[i] && rows[j] == old_rows[j]);
                } else if i < old_rows.len() {
                    assert(old_rows[i].id.unwrap() < id);
                } else {
                    assert(old_rows[j].id.unwrap() < id);
                }
            }
            assert forall|i: int, j: int|
                0 <= i < rows.len() && 0 <= j < rows.len() && i != j implies (
            #[trigger] rows[i]).name != (#[trigger] rows[j]).name by {
                if i < old_rows.len() && j < old_rows.len() {
                    assert(rows[i] == old_rows[i] && rows[j] == old_rows[j]);
                }
            }
            assert forall|k: int| 0 <= k < old_snaps.len() implies (#[trigger] old_snaps[k]).item.id
                != Some(id) && contains_id(rows, old_snaps[k].item.id.unwrap()) by {
                let owner = old_snaps[k].item.id.unwrap();
                assert(contains_id(old_rows, owner));
                let w = choose|i: int| 0 <= i < old_rows.len() && old_rows[i].id == Some(owner);
                assert(rows[w].id == Some(owner));
                assert(old_rows[w].id.unwrap() < id);
            }
            assert forall|i: int| 0 <= i < rows.len() implies {
                let s = snaps_for(self.snaps(), (#[trigger] rows[i]).id.unwrap());
                &&& s.len() == rows[i].version - 1
                &&& forall|k: int| 0 <= k < s.len() ==> (#[trigger] s[k]).item.version == k + 1
            } by {
                if i < old_rows.len() {
                    assert(old_rows[i] == rows[i]);
                } else {
                    assert(rows[i] == new_row);
                    lemma_snaps_for_no_id(self.snaps(), rows, id);
                    assert(snaps_for(self.snaps(), id).len() == 0);
                }
            }
        }
        Ok(id)
    }

    /// Insert stamped with the wall clock.
    pub fn insert(&mut self, item: &Item) -> (r: Result<i64, StoreError>)
        requires
            old(self).wf(),
            old(self).spec_next_id() < i64::MAX,
        ensures
            final (self).wf(),
            match r {
                Ok(id) => {
                    &&& item@.valid()
                    &&& !contains_name(old(self).rows(), item@.name)
                    &&& id == old(self).spec_next_id()
                    &&& exists|now: u64|
                        final (self).rows() == old(self).rows().push(
                            Self::inserted_row(item@, id, now),
                        )
                    &&& final (self).snaps() == old(self).snaps()
                    &&& final (self).spec_next_id() == id + 1
                },
                Err(e) => {
                    &&& final (self).rows() == old(self).rows()
                    &&& final (self).snaps() == old(self).snaps()
                    &&& final (self).spec_next_id() == old(self).spec_next_id()
                    &&& (e == StoreError::Validation <==> !item@.valid())
                    &&& e != StoreError::Validation ==> e == StoreError::Conflict
                        && contains_name(old(self).rows(), item@.name)
                },
            },
    {
        let now = now_seconds();
        self.insert_at(item, now)
    }
}

impl ItemStore {
    /// The row an update at time `now` writes over `old_row` with the
    /// caller's fields `v`: same identifier, version one higher, creation
    /// time kept, update time refreshed.
    pub open spec fn updated_row(v: ItemView, old_row: ItemView, now: u64) -> ItemView {
        ItemView {
            id: old_row.id,
            created_at: old_row.created_at,
            updated_at: Some(now),
            version: (old_row.version + 1) as u64,
            ..v
        }
    }

    /// Overwrite an existing item at time `now`. The persisted state —
    /// not the caller's copy — is first captured as a snapshot at the
    /// current version; then the caller's fields are written with the
    /// version incremented by exactly one and `updated_at` refreshed, and
    /// the index entry is replaced. Fails with `NotFound` when the item
    /// has no identifier or the identifier matches no row, and with
    /// `Conflict` when the new name belongs to a different item; a failed
    /// update leaves the store unchanged.
    pub fn update_at(&mut self, item: &Item, now: u64) -> (r: Result<(), StoreError>)
        requires
            old(self).wf(),
            match item@.id {
                Some(id) => contains_id(old(self).rows(), id) ==> row_of(
                    old(self).rows(),
                    id,
                ).version < u64::MAX,
                None => true,
            },
        ensures
            final (self).wf(),
            final (self).spec_next_id() == old(self).spec_next_id(),
            match r {
                Ok(()) => {
                    let id = item@.id.unwrap();
                    let prior = row_of(old(self).rows(), id);
                    &&& item@.id is Some
                    &&& contains_id(old(self).rows(), id)
                    &&& forall|i: int|
                        0 <= i < old(self).rows().len() && (#[trigger] old(
                            self,
                        ).rows()[i]).name == item@.name ==> old(self).rows()[i].id == Some(id)
                    &&& final (self).rows() == old(self).rows().update(
                        idx_of(old(self).rows(), id),
                        Self::updated_row(item@, prior, now),
                    )
                    &&& final (self).snaps() == old(self).snaps().push(
                        SnapshotView { item: prior, at: now },
                    )
                },
                Err(e) => {
                    &&& final (self).rows() == old(self).rows()
                    &&& final (self).snaps() == old(self).snaps()
                    &&& (e == StoreError::NotFound <==> (item@.id is None || !contains_id(
                        old(self).rows(),
                        item@.id.unwrap(),
                    )))
                    &&& e != StoreError::NotFound ==> e == StoreError::Conflict && (exists|i: int|
                        0 <= i < old(self).rows().len() && (#[trigger] old(
                            self,
                        ).rows()[i]).name == item@.name && old(self).rows()[i].id != item@.id)
                },
            },
    {
        let id = match item.id {
            Some(id) => id,
            None => {
                return Err(StoreError::NotFound);
            },
        };
        let i = match self.find_index(id) {
            Some(i) => i,
            None => {
                return Err(StoreError::NotFound);
            },
        };
        if let Some(j) = self.find_name(&item.name) {
            if j != i {
                proof {
                    assert(self.rows()[j as int].id != self.rows()[i as int].id);
                }
                return Err(StoreError::Conflict);
            }
        }
        let ghost old_rows = self.rows();
        let ghost old_snaps = self.snaps();
        let ghost prior = self.rows()[i as int];
        proof {
            assert(idx_of(old_rows, id) == i);
            assert(row_of(old_rows, id) == prior);
        }
        // capture the persisted state before touching the row
        let current = self.items[i].duplicate();
        let new_version = current.version + 1;
        let created = current.created_at;
        self.snapshots.push(Snapshot { item: current, at: now });
        // write the new field values over the row
        let mut row = item.duplicate();
        row.id = Some(id);
        row.version = new_version;
        row.created_at = created;
        row.updated_at = Some(now);
        proof {
            assert(row@ =~= Self::updated_row(item@, prior, now));
        }
        // the stale index entry leaves before the new one is added
        let entry = IndexEntry::build(id, &row);
        self.items.set(i, row);
        self.index.remove(i);
        self.index.insert(i, entry);
        proof {
            let rows = self.rows();
            let new_row = Self::updated_row(item@, prior, now);
            let snap = SnapshotView { item: prior, at: now };
            assert(rows =~= old_rows.update(i as int, new_row));
            assert(self.snaps() =~= old_snaps.push(snap));
            assert(self.index@ =~= old(self).index@.remove(i as int).insert(i as int, entry));
            assert forall|a: int, b: int|
                0 <= a < rows.len() && 0 <= b < rows.len() && a != b implies (
            #[trigger] rows[a]).id != (#[trigger] rows[b]).id by {
                assert(old_rows[a].id != old_rows[b].id);
                assert(rows[a].id == old_rows[a].id && rows[b].id == old_rows[b].id);
            }
            assert forall|a: int, b: int|
                0 <= a < rows.len() && 0 <= b < rows.len() && a != b implies (
            #[trigger] rows[a]).name != (#[trigger] rows[b]).name by {
                if a != i as int && b != i as int {
                    assert(rows[a] == old_rows[a] && rows[b] == old_rows[b]);
                } else if a == i as int {
                    assert(rows[b] == old_rows[b]);
                    assert(old_rows[b].name != item@.name);
                } else {
                    assert(rows[a] == old_rows[a]);
                    assert(old_rows[a].name != item@.name);
                }
            }
            assert forall|k: int| 0 <= k < self.snaps().len() implies (#[trigger] self.snaps()[k]).item.id is Some
                && contains_id(rows, self.snaps()[k].item.id.unwrap()) by {
                if k < old_snaps.len() {
                    let owner = old_snaps[k].item.id.unwrap();
                    assert(contains_id(old_rows, owner));
                    let w = choose|x: int| 0 <= x < old_rows.len() && old_rows[x].id == Some(owner);
                    assert(rows[w].id == Some(owner));
                } else {
                    assert(self.snaps()[k] == snap);
                    assert(rows[i as int].id == Some(id));
                }
            }
            assert forall|x: int| 0 <= x < rows.len() implies {
                let s = snaps_for(self.snaps(), (#[trigger] rows[x]).id.unwrap());
                &&& s.len() == rows[x].version - 1
                &&& forall|k: int| 0 <= k < s.len() ==> (#[trigger] s[k]).item.version == k + 1
            } by {
                let xid = rows[x].id.unwrap();
                lemma_snaps_for_push(old_snaps, snap, xid);
                if x == i as int {
                    assert(xid == id);
                    assert(snaps_for(self.snaps(), id) =~= snaps_for(old_snaps, id).push(snap));
                    assert(old_rows[x].id.unwrap() == id);
                    assert(snaps_for(old_snaps, id).len() == prior.version - 1);
                } else {
                    assert(rows[x] == old_rows[x]);
                    assert(xid != id);
                    assert(snaps_for(self.snaps(), xid) == snaps_for(old_snaps, xid));
                }
            }
        }
        Ok(())
    }

    /// Update stamped with the wall clock.
    pub fn update(&mut self, item: &Item) -> (r: Result<(), StoreError>)
        requires
            old(self).wf(),
            match item@.id {
                Some(id) => contains_id(old(self).rows(), id) ==> row_of(
                    old(self).rows(),
                    id,
                ).version < u64::MAX,
                None => true,
            },
        ensures
            final (self).wf(),
            final (self).spec_next_id() == old(self).spec_next_id(),
            match r {
                Ok(()) => {
                    let id = item@.id.unwrap();
                    let prior = row_of(old(self).rows(), id);
                    &&& item@.id is Some
                    &&& contains_id(old(self).rows(), id)
                    &&& exists|now: u64|
                        final (self).rows() == old(self).rows().update(
                            idx_of(old(self).rows(), id),
                            Self::updated_row(item@, prior, now),
                        ) && final (self).snaps() == old(self).snaps().push(
                            SnapshotView { item: prior, at: now },
                        )
                },
                Err(e) => {
                    &&& final (self).rows() == old(self).rows()
                    &&& final (self).snaps() == old(self).snaps()
                    &&& (e == StoreError::NotFound <==> (item@.id is None || !contains_id(
                        old(self).rows(),
                        item@.id.unwrap(),
                    )))
                    &&& e != StoreError::NotFound ==> e == StoreError::Conflict && (exists|i: int|
                        0 <= i < old(self).rows().len() && (#[trigger] old(
                            self,
                        ).rows()[i]).name == item@.name && old(self).rows()[i].id != item@.id)
                },
            },
    {
        let now = now_seconds();
        self.update_at(item, now)
    }

    /// Remove the row under `id`, its whole snapshot history, and its
    /// index entry. Deliberately a no-op — not an error — when no such
    /// row exists.
    pub fn delete(&mut self, id: i64) -> (r: Result<(), StoreError>)
        requires
            old(self).wf(),
        ensures
            final (self).wf(),
            final (self).spec_next_id() == old(self).spec_next_id(),
            r is Ok,
            !contains_id(old(self).rows(), id) ==> final (self).rows() == old(self).rows()
                && final (self).snaps() == old(self).snaps(),
            contains_id(old(self).rows(), id) ==> final (self).rows() == old(self).rows().remove(
                idx_of(old(self).rows(), id),
            ) && final (self).snaps() == snaps_without(old(self).snaps(), id),
    {
        let i = match self.find_index(id) {
            Some(i) => i,
            None => {
                return Ok(());
            },
        };
        let ghost old_rows = self.rows();
        let ghost old_snaps = self.snaps();
        let ghost old_items = self.items@;
        self.items.remove(i);
        self.index.remove(i);
        proof {
            old_items.remove_ensures(i as int);
            old_rows.remove_ensures(i as int);
            assert forall|j: int| 0 <= j < self.rows().len() implies self.rows()[j]
                == old_rows.remove(i as int)[j] by {
                if j < i as int {
                    assert(self.items@[j] == old_items[j]);
                } else {
                    assert(self.items@[j] == old_items[j + 1]);
                }
            }
            assert(self.rows() =~= old_rows.remove(i as int));
        }
        // cascade: drop every snapshot that belonged to the row
        let ghost items_after = self.items@;
        let ghost index_after = self.index@;
        let ghost next_after = self.next_id;
        let mut k: usize = 0;
        let ghost mut m: int = 0;
        while k < self.snapshots.len()
            invariant
                0 <= m <= old_snaps.len(),
                k == snaps_without(old_snaps.take(m), id).len(),
                k <= self.snaps().len(),
                self.snaps() =~= snaps_without(old_snaps.take(m), id) + old_snaps.skip(m),
                self.items@ == items_after,
                self.index@ == index_after,
                self.next_id == next_after,
            decreases old_snaps.len() - m,
        {
            let ghost pre_snaps = self.snaps();
            let ghost pre_vec = self.snapshots@;
            let ghost kept = snaps_without(old_snaps.take(m), id);
            proof {
                assert(old_snaps.take(m + 1).drop_last() =~= old_snaps.take(m));
                assert(old_snaps.take(m + 1).last() == old_snaps[m]);
                assert(old_snaps.skip(m).drop_first() =~= old_snaps.skip(m + 1));
                assert(pre_snaps[k as int] == old_snaps.skip(m)[0]);
                assert(pre_snaps[k as int] == old_snaps[m]);
            }
            if matches_owner(&self.snapshots[k], id) {
                self.snapshots.remove(k);
                proof {
                    pre_vec.remove_ensures(k as int);
                    pre_snaps.remove_ensures(k as int);
                    assert forall|j: int| 0 <= j < self.snaps().len() implies self.snaps()[j]
                        == pre_snaps.remove(k as int)[j] by {
                        if j < k as int {
                            assert(self.snapshots@[j] == pre_vec[j]);
                        } else {
                            assert(self.snapshots@[j] == pre_vec[j + 1]);
                        }
                    }
                    assert(self.snaps() =~= pre_snaps.remove(k as int));
                    assert(snaps_without(old_snaps.take(m + 1), id) == kept);
                    assert(pre_snaps.remove(k as int) =~= kept + old_snaps.skip(m + 1));
                    assert(self.snaps() =~= snaps_without(old_snaps.take(m + 1), id)
                        + old_snaps.skip(m + 1));
                }
            } else {
                k += 1;
                proof {
                    assert(snaps_without(old_snaps.take(m + 1), id) =~= kept.push(old_snaps[m]));
                    assert(kept.push(old_snaps[m]) + old_snaps.skip(m + 1) =~= kept
                        + old_snaps.skip(m));
                    assert(self.snaps() =~= snaps_without(old_snaps.take(m + 1), id)
                        + old_snaps.skip(m + 1));
                }
            }
            proof {
                m = m + 1;
            }
        }
        proof {
            assert(old_snaps.take(old_snaps.len() as int) =~= old_snaps);
            assert(old_snaps.skip(old_snaps.len() as int) =~= Seq::<SnapshotView>::empty());
            assert(snaps_without(old_snaps, id) + Seq::<SnapshotView>::empty() =~= snaps_without(
                old_snaps,
                id,
            ));
            assert(self.snaps() =~= snaps_without(old_snaps, id));
            let rows = self.rows();
            assert(rows =~= old_rows.remove(i as int));
            old_rows.remove_ensures(i as int);
            assert forall|x: int| 0 <= x < rows.len() implies {
                let s = snaps_for(self.snaps(), (#[trigger] rows[x]).id.unwrap());
                &&& s.len() == rows[x].version - 1
                &&& forall|k2: int| 0 <= k2 < s.len() ==> (#[trigger] s[k2]).item.version == k2 + 1
            } by {
                let xid = rows[x].id.unwrap();
                let xold: int = if x < i as int {
                    x
                } else {
                    x + 1
                };
                assert(rows[x] == old_rows[xold]);
                assert(old_rows[xold].id != old_rows[i as int].id);
                lemma_snaps_for_of_without(old_snaps, id, xid);
                assert(snaps_for(self.snaps(), xid) == snaps_for(old_snaps, xid));
            }
            assert forall|k2: int| 0 <= k2 < self.snaps().len() implies (#[trigger] self.snaps()[k2]).item.id is Some
                && contains_id(rows, self.snaps()[k2].item.id.unwrap()) by {
                lemma_snaps_without_sub(old_snaps, id, self.snaps()[k2]);
                let owner = self.snaps()[k2].item.id.unwrap();
                assert(owner != id);
                let w = choose|y: int| 0 <= y < old_rows.len() && old_rows[y].id == Some(owner);
                if w < i as int {
                    assert(rows[w].id == Some(owner));
                } else {
                    assert(old_rows[i as int].id == Some(id));
                    assert(w != i as int);
                    assert(rows[w - 1].id == Some(owner));
                }
            }
        }
        Ok(())
    }
}

impl ItemStore {
    /// The item value a stored snapshot stands for: its captured fields,
    /// with both timestamps set to the snapshot time.
    pub open spec fn snapshot_item(s: SnapshotView) -> ItemView {
        ItemView { created_at: Some(s.at), updated_at: Some(s.at), ..s.item }
    }

    /// The fields a restore of `version` writes back: the live row when
    /// `version` is current, else the stored snapshot's item value.
    pub open spec fn restore_source(
        rows: Seq<ItemView>,
        snaps: Seq<SnapshotView>,
        item_id: i64,
        version: u64,
    ) -> ItemView {
        if version == row_of(rows, item_id).version {
            row_of(rows, item_id)
        } else {
            Self::snapshot_item(snaps_for(snaps, item_id)[version - 1])
        }
    }

    /// The history line for the live row.
    pub open spec fn current_entry(row: ItemView) -> ItemVersion {
        ItemVersion { version: row.version, created_at: row.updated_at.unwrap(), is_current: true }
    }

    /// All versions of an item: the current one first, then the snapshots
    /// in descending version order. An unknown identifier yields an empty
    /// list, not an error.
    pub fn list_versions(&self, item_id: i64) -> (r: Vec<ItemVersion>)
        requires
            self.wf(),
        ensures
            !contains_id(self.rows(), item_id) ==> r@ == Seq::<ItemVersion>::empty(),
            contains_id(self.rows(), item_id) ==> ({
                let row = row_of(self.rows(), item_id);
                let s = snaps_for(self.snaps(), item_id);
                &&& r@.len() == row.version
                &&& r@[0] == Self::current_entry(row)
                &&& forall|k: int|
                    1 <= k < r@.len() ==> r@[k] == (ItemVersion {
                        version: (row.version - k) as u64,
                        created_at: s[row.version - 1 - k].at,
                        is_current: false,
                    })
            }),
    {
        let i = match self.find_index(item_id) {
            Some(i) => i,
            None => {
                let r: Vec<ItemVersion> = Vec::new();
                proof {
                    assert(r@ =~= Seq::<ItemVersion>::empty());
                }
                return r;
            },
        };
        let ghost s = snaps_for(self.snaps(), item_id);
        // gather the item's history lines in storage (ascending) order
        let mut hist: Vec<ItemVersion> = Vec::new();
        let mut k: usize = 0;
        let ghost mut m: int = 0;
        while k < self.snapshots.len()
            invariant
                self.wf(),
                0 <= m <= self.snaps().len(),
                k == m,
                s == snaps_for(self.snaps(), item_id),
                hist@.len() == snaps_for(self.snaps().take(m), item_id).len(),
                forall|w: int|
                    0 <= w < hist@.len() ==> hist@[w] == (ItemVersion {
                        version: snaps_for(self.snaps().take(m), item_id)[w].item.version,
                        created_at: snaps_for(self.snaps().take(m), item_id)[w].at,
                        is_current: false,
                    }),
            decreases self.snaps().len() - m,
        {
            proof {
                assert(self.snaps().take(m + 1).drop_last() =~= self.snaps().take(m));
                assert(self.snaps().take(m + 1).last() == self.snaps()[m]);
            }
            let sn = &self.snapshots[k];
            if matches_owner(sn, item_id) {
                hist.push(ItemVersion { version: sn.item.version, created_at: sn.at, is_current: false });
            }
            k += 1;
            proof {
                m = m + 1;
            }
        }
        proof {
            assert(self.snaps().take(self.snaps().len() as int) =~= self.snaps());
            assert(idx_of(self.rows(), item_id) == i);
        }
        let current = &self.items[i];
        let mut r: Vec<ItemVersion> = Vec::new();
        r.push(ItemVersion {
            version: current.version,
            created_at: match current.updated_at {
                Some(t) => t,
                None => 0,
            },
            is_current: true,
        });
        // snapshots come out newest first
        let mut j: usize = hist.len();
        while j > 0
            invariant
                j <= hist@.len(),
                hist@.len() == s.len(),
                forall|w: int|
                    0 <= w < hist@.len() ==> hist@[w] == (ItemVersion {
                        version: s[w].item.version,
                        created_at: s[w].at,
                        is_current: false,
                    }),
                r@.len() == 1 + (hist@.len() - j),
                r@[0] == (ItemVersion {
                    version: row_of(self.rows(), item_id).version,
                    created_at: row_of(self.rows(), item_id).updated_at.unwrap(),
                    is_current: true,
                }),
                forall|w: int| 1 <= w < r@.len() ==> r@[w] == hist@[hist@.len() - w],
            decreases j,
        {
            j -= 1;
            r.push(hist[j]);
        }
        proof {
            let row = row_of(self.rows(), item_id);
            assert(s.len() == row.version - 1);
        }
        r
    }

    /// The item as it stood at `version`: the live row if `version` is
    /// current, else the stored snapshot, with the snapshot time as both
    /// timestamps. `None` when the identifier or the version does not
    /// exist.
    pub fn get_version(&self, item_id: i64, version: u64) -> (r: Option<Item>)
        requires
            self.wf(),
        ensures
            ({
                let rows = self.rows();
                if contains_id(rows, item_id) {
                    let row = row_of(rows, item_id);
                    if version == row.version {
                        r matches Some(it) && it@ == row
                    } else if 1 <= version < row.version {
                        r matches Some(it) && it@ == Self::snapshot_item(
                            snaps_for(self.snaps(), item_id)[version - 1],
                        )
                    } else {
                        r is None
                    }
                } else {
                    r is None
                }
            }),
    {
        let i = match self.find_index(item_id) {
            Some(i) => i,
            None => {
                return None;
            },
        };
        proof {
            assert(idx_of(self.rows(), item_id) == i);
        }
        if self.items[i].version == version {
            return Some(self.items[i].duplicate());
        }
        let ghost s = snaps_for(self.snaps(), item_id);
        proof {
            lemma_snaps_for_elements(self.snaps(), item_id);
        }
        let mut k: usize = 0;
        while k < self.snapshots.len()
            invariant
                self.wf(),
                k <= self.snaps().len(),
                s == snaps_for(self.snaps(), item_id),
                forall|w: int|
                    0 <= w < k ==> !((#[trigger] self.snaps()[w]).item.id == Some(item_id)
                        && self.snaps()[w].item.version == version),
            decreases self.snaps().len() - k,
        {
            let sn = &self.snapshots[k];
            if matches_owner(sn, item_id) && sn.item.version == version {
                proof {
                    lemma_snaps_for_membership(self.snaps(), item_id, k as int);
                    let w = choose|w: int| 0 <= w < s.len() && s[w] == self.snaps()[k as int];
                    assert(s[w].item.version == w + 1);
                    assert(w == version - 1);
                }
                let mut it = sn.item.duplicate();
                it.created_at = Some(sn.at);
                it.updated_at = Some(sn.at);
                proof {
                    assert(it@ =~= Self::snapshot_item(s[version - 1]));
                }
                return Some(it);
            }
            k += 1;
        }
        proof {
            let row = row_of(self.rows(), item_id);
            if 1 <= version < row.version {
                let sv = s[version - 1];
                assert(sv.item.version == version);
                assert(sv.item.id == Some(item_id));
                assert(self.snaps().contains(sv));
                let w = choose|w: int| 0 <= w < self.snaps().len() && self.snaps()[w] == sv;
                assert(false);
            }
        }
        None
    }

    /// Restore the fields of `version` by performing a full update with
    /// them: history is append-only, so this creates a new, higher version
    /// rather than rolling the counter back. Fails with `NotFound` when
    /// the identifier or the version does not exist.
    pub fn restore_version_at(&mut self, item_id: i64, version: u64, now: u64) -> (r: Result<
        (),
        StoreError,
    >)
        requires
            old(self).wf(),
            contains_id(old(self).rows(), item_id) ==> row_of(
                old(self).rows(),
                item_id,
            ).version < u64::MAX,
        ensures
            final (self).wf(),
            final (self).spec_next_id() == old(self).spec_next_id(),
            ({
                let rows = old(self).rows();
                let row = row_of(rows, item_id);
                let source = Self::restore_source(rows, old(self).snaps(), item_id, version);
                match r {
                    Ok(()) => {
                        &&& contains_id(rows, item_id)
                        &&& 1 <= version <= row.version
                        &&& final (self).rows() == rows.update(
                            idx_of(rows, item_id),
                            Self::updated_row(source, row, now),
                        )
                        &&& final (self).snaps() == old(self).snaps().push(
                            SnapshotView { item: row, at: now },
                        )
                    },
                    Err(e) => {
                        &&& final (self).rows() == rows
                        &&& final (self).snaps() == old(self).snaps()
                        &&& (e == StoreError::NotFound <==> (!contains_id(rows, item_id) || !(1
                            <= version <= row.version)))
                        &&& e != StoreError::NotFound ==> e == StoreError::Conflict && (exists|
                            i: int,
                        |
                            0 <= i < rows.len() && (#[trigger] rows[i]).name == source.name
                                && rows[i].id != Some(item_id))
                    },
                }
            }),
    {
        let target = match self.get_version(item_id, version) {
            Some(it) => it,
            None => {
                return Err(StoreError::NotFound);
            },
        };
        proof {
            assert(contains_id(self.rows(), item_id));
            let idx = idx_of(self.rows(), item_id);
            assert(0 <= idx < self.rows().len() && self.rows()[idx].id == Some(item_id));
            lemma_snaps_for_elements(self.snaps(), item_id);
            assert(target@.id == Some(item_id));
        }
        let r = self.update_at(&target, now);
        proof {
            if r is Err {
                assert(contains_id(old(self).rows(), item_id));
            }
        }
        r
    }

    /// Restore stamped with the wall clock.
    pub fn restore_version(&mut self, item_id: i64, version: u64) -> (r: Result<(), StoreError>)
        requires
            old(self).wf(),
            contains_id(old(self).rows(), item_id) ==> row_of(
                old(self).rows(),
                item_id,
            ).version < u64::MAX,
        ensures
            final (self).wf(),
            final (self).spec_next_id() == old(self).spec_next_id(),
            r is Ok ==> contains_id(old(self).rows(), item_id),
            r is Ok ==> 1 <= version <= row_of(old(self).rows(), item_id).version,
            r is Ok ==> ({
                let rows = old(self).rows();
                let row = row_of(rows, item_id);
                let source = Self::restore_source(rows, old(self).snaps(), item_id, version);
                exists|now: u64|
                    final (self).rows() == rows.update(
                        idx_of(rows, item_id),
                        Self::updated_row(source, row, now),
                    ) && final (self).snaps() == old(self).snaps().push(
                        SnapshotView { item: row, at: now },
                    )
            }),
            r matches Err(e) ==> final (self).rows() == old(self).rows() && final (self).snaps()
                == old(self).snaps() && (e == StoreError::NotFound <==> (!contains_id(
                old(self).rows(),
                item_id,
            ) || !(1 <= version <= row_of(old(self).rows(), item_id).version))),
            r matches Err(e) ==> (e != StoreError::NotFound ==> e == StoreError::Conflict && (
            exists|i: int|
                0 <= i < old(self).rows().len() && (#[trigger] old(self).rows()[i]).name
                    == Self::restore_source(
                    old(self).rows(),
                    old(self).snaps(),
                    item_id,
                    version,
                ).name && old(self).rows()[i].id != Some(item_id))),
    {
        let now = now_seconds();
        let r = self.restore_version_at(item_id, version, now);
        proof {
            if r is Ok {
                let rows = old(self).rows();
                let row = row_of(rows, item_id);
                let source = Self::restore_source(rows, old(self).snaps(), item_id, version);
                assert(self.rows() == rows.update(
                    idx_of(rows, item_id),
                    Self::updated_row(source, row, now),
                ) && self.snaps() == old(self).snaps().push(SnapshotView { item: row, at: now }));
                assert(exists|n: u64|
                    self.rows() == rows.update(
                        idx_of(rows, item_id),
                        Self::updated_row(source, row, n),
                    ) && self.snaps() == old(self).snaps().push(SnapshotView { item: row, at: n }));
            }
        }
        r
    }
}

/// The recency sort key of a row: newest update first, identifier as the
/// deterministic tie-breaker.
pub open spec fn recency_keyed(row: ItemView) -> Keyed {
    Keyed { k1: row.updated_at.unwrap(), k2: row.id.unwrap() as u64, v: row }
}

/// Rows paired with their recency keys.
pub open spec fn keyed_by_recency(rows: Seq<ItemView>) -> Seq<Keyed> {
    Seq::new(rows.len(), |i: int| recency_keyed(rows[i]))
}

/// The search sort key of a row against query tokens `q`: best score
/// first, identifier as the deterministic tie-breaker. A score counts
/// index tokens, so it is at most the index size and the cast is
/// value-preserving for every realizable row.
pub open spec fn search_keyed_row(row: ItemView, q: Seq<Seq<char>>) -> Keyed {
    Keyed {
        k1: spec_score(spec_doc_tokens(row), q) as u64,
        k2: row.id.unwrap() as u64,
        v: row,
    }
}

/// Rows paired with their search keys.
pub open spec fn search_keyed(rows: Seq<ItemView>, q: Seq<Seq<char>>) -> Seq<Keyed> {
    Seq::new(rows.len(), |i: int| search_keyed_row(rows[i], q))
}

/// Recency keys distribute over appending one row.
proof fn lemma_recency_map_push(rows: Seq<ItemView>, x: ItemView)
    ensures
        keyed_by_recency(rows.push(x)) == keyed_by_recency(rows).push(recency_keyed(x)),
{
    assert forall|k: int| 0 <= k < rows.len() + 1 implies keyed_by_recency(rows.push(x))[k]
        == keyed_by_recency(rows).push(recency_keyed(x))[k] by {
        if k < rows.len() {
            assert(rows.push(x)[k] == rows[k]);
        } else {
            assert(rows.push(x)[k] == x);
        }
    }
    assert(keyed_by_recency(rows.push(x)) =~= keyed_by_recency(rows).push(recency_keyed(x)));
}

/// Search keys distribute over appending one row.
proof fn lemma_search_map_push(rows: Seq<ItemView>, x: ItemView, q: Seq<Seq<char>>)
    ensures
        search_keyed(rows.push(x), q) == search_keyed(rows, q).push(search_keyed_row(x, q)),
{
    assert forall|k: int| 0 <= k < rows.len() + 1 implies search_keyed(rows.push(x), q)[k]
        == search_keyed(rows, q).push(search_keyed_row(x, q))[k] by {
        if k < rows.len() {
            assert(rows.push(x)[k] == rows[k]);
        } else {
            assert(rows.push(x)[k] == x);
        }
    }
    assert(search_keyed(rows.push(x), q) =~= search_keyed(rows, q).push(search_keyed_row(x, q)));
}

/// The views of an item vector's elements.
pub open spec fn item_views(items: Seq<Item>) -> Seq<ItemView> {
    Seq::new(items.len(), |i: int| items[i]@)
}

/// The rows carried by a keyed sequence.
pub open spec fn values_of(ks: Seq<Keyed>) -> Seq<ItemView> {
    Seq::new(ks.len(), |i: int| ks[i].v)
}

/// The rows of category `c`, in storage order.
pub open spec fn rows_with_category(rows: Seq<ItemView>, c: Category) -> Seq<ItemView>
    decreases rows.len(),
{
    if rows.len() == 0 {
        Seq::empty()
    } else {
        let rest = rows_with_category(rows.drop_last(), c);
        if rows.last().category == c {
            rest.push(rows.last())
        } else {
            rest
        }
    }
}

/// Whether `tag` occurs, case-insensitively, inside a row's raw tag string.
pub open spec fn row_has_tag(row: ItemView, tag: Seq<char>) -> bool {
    match row.tags {
        Option::None => false,
        Option::Some(t) => is_substring(lower_seq(t), lower_seq(tag)),
    }
}

/// The rows whose tag string contains `tag`, in storage order.
pub open spec fn rows_with_tag(rows: Seq<ItemView>, tag: Seq<char>) -> Seq<ItemView>
    decreases rows.len(),
{
    if rows.len() == 0 {
        Seq::empty()
    } else {
        let rest = rows_with_tag(rows.drop_last(), tag);
        if row_has_tag(rows.last(), tag) {
            rest.push(rows.last())
        } else {
            rest
        }
    }
}

/// The rows whose index tokens satisfy every token of `q`, in storage
/// order.
pub open spec fn rows_matching(rows: Seq<ItemView>, q: Seq<Seq<char>>) -> Seq<ItemView>
    decreases rows.len(),
{
    if rows.len() == 0 {
        Seq::empty()
    } else {
        let rest = rows_matching(rows.drop_last(), q);
        if spec_matches(spec_doc_tokens(rows.last()), q) {
            rest.push(rows.last())
        } else {
            rest
        }
    }
}

/// How many rows carry category `c`.
pub open spec fn count_category(rows: Seq<ItemView>, c: Category) -> int
    decreases rows.len(),
{
    if rows.len() == 0 {
        0
    } else {
        count_category(rows.drop_last(), c) + if rows.last().category == c {
            1int
        } else {
            0int
        }
    }
}

impl ItemStore {
    /// A ranked entry for a row, keyed by recency.
    fn recency_entry(item: &Item) -> (r: Ranked)
        requires
            item@.id is Some,
            item@.id.unwrap() >= 1,
            item@.updated_at is Some,
        ensures
            r@ == recency_keyed(item@),
    {
        let primary: u64 = match item.updated_at {
            Some(t) => t,
            None => 0,
        };
        let tie: u64 = match item.id {
            Some(v) => v as u64,
            None => 0,
        };
        Ranked { primary, tie, item: item.duplicate() }
    }

    /// The items of a ranked vector, in order.
    fn ranked_items(rs: &Vec<Ranked>) -> (r: Vec<Item>)
        ensures
            item_views(r@) == values_of(keyed_views(rs@)),
    {
        let mut r: Vec<Item> = Vec::new();
        let mut i: usize = 0;
        while i < rs.len()
            invariant
                i <= rs@.len(),
                r@.len() == i,
                forall|k: int| 0 <= k < i ==> (#[trigger] r@[k])@ == rs@[k]@.v,
            decreases rs@.len() - i,
        {
            r.push(rs[i].item.duplicate());
            i += 1;
        }
        proof {
            assert(item_views(r@) =~= values_of(keyed_views(rs@)));
        }
        r
    }

    /// All items, newest update first, at most `limit` of them.
    pub fn list_recent(&self, limit: usize) -> (r: Vec<Item>)
        requires
            self.wf(),
        ensures
            ({
                let sorted = values_of(sort_keyed(keyed_by_recency(self.rows())));
                item_views(r@) == if sorted.len() <= limit {
                    sorted
                } else {
                    sorted.take(limit as int)
                }
            }),
    {
        let mut sel: Vec<Ranked> = Vec::new();
        let mut i: usize = 0;
        while i < self.items.len()
            invariant
                self.wf(),
                i <= self.items@.len(),
                keyed_views(sel@) == keyed_by_recency(self.rows().take(i as int)),
            decreases self.items@.len() - i,
        {
            proof {
                assert(self.rows()[i as int] == self.items@[i as int]@);
                assert(self.rows()[i as int].id is Some);
                assert(self.rows()[i as int].id.unwrap() >= 1);
                assert(self.rows()[i as int].updated_at is Some);
            }
            let ghost pre_sel = sel@;
            let e = Self::recency_entry(&self.items[i]);
            sel.push(e);
            proof {
                assert(e@ == recency_keyed(self.rows()[i as int]));
                assert(self.rows().take(i + 1) =~= self.rows().take(i as int).push(
                    self.rows()[i as int],
                ));
                lemma_recency_map_push(self.rows().take(i as int), self.rows()[i as int]);
                crate::sort::lemma_keyed_views_push(pre_sel, sel@, e);
            }
            i += 1;
        }
        proof {
            assert(self.rows().take(self.rows().len() as int) =~= self.rows());
        }
        let sorted = crate::sort::sort_ranked(&sel);
        let n = if sorted.len() <= limit {
            sorted.len()
        } else {
            limit
        };
        let mut r: Vec<Item> = Vec::new();
        let mut k: usize = 0;
        while k < n
            invariant
                k <= n <= sorted@.len(),
                r@.len() == k,
                forall|w: int| 0 <= w < k ==> (#[trigger] r@[w])@ == sorted@[w]@.v,
            decreases n - k,
        {
            r.push(sorted[k].item.duplicate());
            k += 1;
        }
        proof {
            let full = values_of(sort_keyed(keyed_by_recency(self.rows())));
            if full.len() <= limit {
                assert(item_views(r@) =~= full);
            } else {
                assert(item_views(r@) =~= full.take(limit as int));
            }
        }
        r
    }

    /// The items of category `c`, newest update first.
    pub fn list_by_category(&self, category: Category) -> (r: Vec<Item>)
        requires
            self.wf(),
        ensures
            item_views(r@) == values_of(
                sort_keyed(keyed_by_recency(rows_with_category(self.rows(), category))),
            ),
    {
        let mut sel: Vec<Ranked> = Vec::new();
        let mut i: usize = 0;
        while i < self.items.len()
            invariant
                self.wf(),
                i <= self.items@.len(),
                keyed_views(sel@) == keyed_by_recency(
                    rows_with_category(self.rows().take(i as int), category),
                ),
            decreases self.items@.len() - i,
        {
            proof {
                assert(self.rows().take(i + 1).drop_last() =~= self.rows().take(i as int));
                assert(self.rows().take(i + 1).last() == self.rows()[i as int]);
                assert(self.rows()[i as int] == self.items@[i as int]@);
                assert(self.rows()[i as int].id is Some);
                assert(self.rows()[i as int].id.unwrap() >= 1);
                assert(self.rows()[i as int].updated_at is Some);
            }
            let ghost prev_filter = rows_with_category(self.rows().take(i as int), category);
            if self.items[i].category == category {
                let ghost pre_sel = sel@;
                let e = Self::recency_entry(&self.items[i]);
                sel.push(e);
                proof {
                    assert(e@ == recency_keyed(self.rows()[i as int]));
                    assert(rows_with_category(self.rows().take(i + 1), category)
                        == prev_filter.push(self.rows()[i as int]));
                    lemma_recency_map_push(prev_filter, self.rows()[i as int]);
                    crate::sort::lemma_keyed_views_push(pre_sel, sel@, e);
                }
            } else {
                proof {
                    assert(rows_with_category(self.rows().take(i + 1), category) == prev_filter);
                }
            }
            i += 1;
        }
        proof {
            assert(self.rows().take(self.rows().len() as int) =~= self.rows());
        }
        let sorted = crate::sort::sort_ranked(&sel);
        Self::ranked_items(&sorted)
    }

    /// The items whose raw tag string contains `tag` (case-insensitive
    /// substring match, so one tag can over-match inside another), newest
    /// update first.
    pub fn list_by_tag(&self, tag: &str) -> (r: Vec<Item>)
        requires
            self.wf(),
        ensures
            item_views(r@) == values_of(
                sort_keyed(keyed_by_recency(rows_with_tag(self.rows(), tag@))),
            ),
    {
        let needle = lower_chars(&chars_of(tag));
        let mut sel: Vec<Ranked> = Vec::new();
        let mut i: usize = 0;
        while i < self.items.len()
            invariant
                self.wf(),
                i <= self.items@.len(),
                needle@ == lower_seq(tag@),
                keyed_views(sel@) == keyed_by_recency(
                    rows_with_tag(self.rows().take(i as int), tag@),
                ),
            decreases self.items@.len() - i,
        {
            proof {
                assert(self.rows().take(i + 1).drop_last() =~= self.rows().take(i as int));
                assert(self.rows().take(i + 1).last() == self.rows()[i as int]);
                assert(self.rows()[i as int] == self.items@[i as int]@);
                assert(self.rows()[i as int].id is Some);
                assert(self.rows()[i as int].id.unwrap() >= 1);
                assert(self.rows()[i as int].updated_at is Some);
            }
            let hit = match &self.items[i].tags {
                Some(t) => contains_sub(&lower_chars(&chars_of(t.as_str())), &needle),
                None => false,
            };
            proof {
                assert(hit == row_has_tag(self.rows()[i as int], tag@));
            }
            let ghost prev_filter = rows_with_tag(self.rows().take(i as int), tag@);
            if hit {
                let ghost pre_sel = sel@;
                let e = Self::recency_entry(&self.items[i]);
                sel.push(e);
                proof {
                    assert(e@ == recency_keyed(self.rows()[i as int]));
                    assert(rows_with_tag(self.rows().take(i + 1), tag@) == prev_filter.push(
                        self.rows()[i as int],
                    ));
                    lemma_recency_map_push(prev_filter, self.rows()[i as int]);
                    crate::sort::lemma_keyed_views_push(pre_sel, sel@, e);
                }
            } else {
                proof {
                    assert(rows_with_tag(self.rows().take(i + 1), tag@) == prev_filter);
                }
            }
            i += 1;
        }
        proof {
            assert(self.rows().take(self.rows().len() as int) =~= self.rows());
        }
        let sorted = crate::sort::sort_ranked(&sel);
        Self::ranked_items(&sorted)
    }

    /// Free-text search over the index: items whose indexed fields hold
    /// every token of the query, ranked by how often the query's tokens
    /// occur in them. A query without tokens yields no results rather than
    /// a query of the index.
    pub fn search(&self, query: &str) -> (r: Vec<Item>)
        requires
            self.wf(),
        ensures
            spec_tokens(query@).len() == 0 ==> item_views(r@) == Seq::<ItemView>::empty(),
            spec_tokens(query@).len() > 0 ==> item_views(r@) == values_of(
                sort_keyed(
                    search_keyed(
                        rows_matching(self.rows(), spec_tokens(query@)),
                        spec_tokens(query@),
                    ),
                ),
            ),
    {
        let q = tokenize(&chars_of(query));
        if q.len() == 0 {
            let r: Vec<Item> = Vec::new();
            proof {
                assert(item_views(r@) =~= Seq::<ItemView>::empty());
            }
            return r;
        }
        let ghost qs = spec_tokens(query@);
        let mut sel: Vec<Ranked> = Vec::new();
        let mut i: usize = 0;
        while i < self.items.len()
            invariant
                self.wf(),
                i <= self.items@.len(),
                self.items@.len() == self.index@.len(),
                q.deep_view() == qs,
                qs.len() > 0,
                keyed_views(sel@) == search_keyed(rows_matching(self.rows().take(i as int), qs), qs),
            decreases self.items@.len() - i,
        {
            proof {
                assert(self.rows().take(i + 1).drop_last() =~= self.rows().take(i as int));
                assert(self.rows().take(i + 1).last() == self.rows()[i as int]);
                assert(self.rows()[i as int] == self.items@[i as int]@);
                assert(self.rows()[i as int].id is Some);
                assert(self.rows()[i as int].id.unwrap() >= 1);
                assert(self.index@[i as int].tokens.deep_view() == spec_doc_tokens(
                    self.rows()[i as int],
                ));
            }
            let ghost prev_filter = rows_matching(self.rows().take(i as int), qs);
            if matches_query(&self.index[i].tokens, &q) {
                let score = score_query(&self.index[i].tokens, &q);
                let tie: u64 = match self.items[i].id {
                    Some(v) => v as u64,
                    None => 0,
                };
                let ghost pre_sel = sel@;
                let e = Ranked { primary: score as u64, tie, item: self.items[i].duplicate() };
                sel.push(e);
                proof {
                    assert(e@ == search_keyed_row(self.rows()[i as int], qs));
                    assert(rows_matching(self.rows().take(i + 1), qs) == prev_filter.push(
                        self.rows()[i as int],
                    ));
                    lemma_search_map_push(prev_filter, self.rows()[i as int], qs);
                    crate::sort::lemma_keyed_views_push(pre_sel, sel@, e);
                }
            } else {
                proof {
                    assert(rows_matching(self.rows().take(i + 1), qs) == prev_filter);
                }
            }
            i += 1;
        }
        proof {
            assert(self.rows().take(self.rows().len() as int) =~= self.rows());
        }
        let sorted = crate::sort::sort_ranked(&sel);
        Self::ranked_items(&sorted)
    }

    /// One pair per category that has items, with its item count, in the
    /// fixed category order; empty categories are absent.
    pub fn count_by_category(&self) -> (r: Vec<(Category, usize)>)
        requires
            self.wf(),
        ensures
            ({
                let rows = self.rows();
                let cp = count_category(rows, Category::Prompt);
                let ca = count_category(rows, Category::Agent);
                let cs = count_category(rows, Category::Skill);
                let cc = count_category(rows, Category::Command);
                r@ == (if cp > 0 {
                    seq![(Category::Prompt, cp as usize)]
                } else {
                    Seq::empty()
                }) + (if ca > 0 {
                    seq![(Category::Agent, ca as usize)]
                } else {
                    Seq::empty()
                }) + (if cs > 0 {
                    seq![(Category::Skill, cs as usize)]
                } else {
                    Seq::empty()
                }) + (if cc > 0 {
                    seq![(Category::Command, cc as usize)]
                } else {
                    Seq::empty()
                })
            }),
    {
        let mut cp: usize = 0;
        let mut ca: usize = 0;
        let mut cs: usize = 0;
        let mut cc: usize = 0;
        let mut i: usize = 0;
        while i < self.items.len()
            invariant
                self.wf(),
                i <= self.items@.len(),
                cp == count_category(self.rows().take(i as int), Category::Prompt),
                ca == count_category(self.rows().take(i as int), Category::Agent),
                cs == count_category(self.rows().take(i as int), Category::Skill),
                cc == count_category(self.rows().take(i as int), Category::Command),
                cp + ca + cs + cc <= i,
            decreases self.items@.len() - i,
        {
            proof {
                assert(self.rows().take(i + 1).drop_last() =~= self.rows().take(i as int));
                assert(self.rows().take(i + 1).last() == self.rows()[i as int]);
            }
            match self.items[i].category {
                Category::Prompt => {
                    cp += 1;
                },
                Category::Agent => {
                    ca += 1;
                },
                Category::Skill => {
                    cs += 1;
                },
                Category::Command => {
                    cc += 1;
                },
            }
            i += 1;
        }
        proof {
            assert(self.rows().take(self.rows().len() as int) =~= self.rows());
        }
        let mut r: Vec<(Category, usize)> = Vec::new();
        if cp > 0 {
            r.push((Category::Prompt, cp));
        }
        if ca > 0 {
            r.push((Category::Agent, ca));
        }
        if cs > 0 {
            r.push((Category::Skill, cs));
        }
        if cc > 0 {
            r.push((Category::Command, cc));
        }
        proof {
            let rows = self.rows();
            let sp = count_category(rows, Category::Prompt);
            let sa = count_category(rows, Category::Agent);
            let ss = count_category(rows, Category::Skill);
            let sc = count_category(rows, Category::Command);
            assert(r@ =~= (if sp > 0 {
                seq![(Category::Prompt, sp as usize)]
            } else {
                Seq::empty()
            }) + (if sa > 0 {
                seq![(Category::Agent, sa as usize)]
            } else {
                Seq::empty()
            }) + (if ss > 0 {
                seq![(Category::Skill, ss as usize)]
            } else {
                Seq::empty()
            }) + (if sc > 0 {
                seq![(Category::Command, sc as usize)]
            } else {
                Seq::empty()
            }));
        }
        r
    }
}

/// Every tag token of every row, in row order.
pub open spec fn all_tag_tokens(rows: Seq<ItemView>) -> Seq<Seq<char>>
    decreases rows.len(),
{
    if rows.len() == 0 {
        Seq::empty()
    } else {
        all_tag_tokens(rows.drop_last()) + rows.last().tag_tokens()
    }
}

/// The order of the tag frequency table: larger count first, then the
/// lexicographically smaller tag.
pub open spec fn tag_pair_le(a: (String, usize), b: (String, usize)) -> bool {
    a.1 > b.1 || (a.1 == b.1 && lex_le(a.0@, b.0@))
}

impl ItemStore {
    /// The tag frequency table, derived afresh from every row's tag
    /// string: each distinct normalized tag with how often it occurs,
    /// sorted by descending count and then ascending tag name.
    /// Normalization lower-cases ASCII letters only, so tags differing in
    /// non-ASCII case are counted separately.
    pub fn get_tags_with_counts(&self) -> (r: Vec<(String, usize)>)
        requires
            self.wf(),
        ensures
            ({
                let all = all_tag_tokens(self.rows());
                &&& forall|k: int|
                    0 <= k < r@.len() ==> 1 <= (#[trigger] r@[k]).1 && r@[k].1 == count_token(
                        all,
                        r@[k].0@,
                    )
                &&& forall|k1: int, k2: int|
                    0 <= k1 < r@.len() && 0 <= k2 < r@.len() && k1 != k2 ==> (
                    #[trigger] r@[k1]).0@ != (#[trigger] r@[k2]).0@
                &&& forall|w: int|
                    0 <= w < all.len() ==> exists|k: int|
                        0 <= k < r@.len() && (#[trigger] r@[k]).0@ == #[trigger] all[w]
                &&& forall|k1: int, k2: int|
                    0 <= k1 < k2 < r@.len() ==> tag_pair_le(#[trigger] r@[k1], #[trigger] r@[k2])
            }),
    {
        // 1. every token of every row, in one vector
        let mut all: Vec<Vec<char>> = Vec::new();
        let mut i: usize = 0;
        while i < self.items.len()
            invariant
                self.wf(),
                i <= self.items@.len(),
                all.deep_view() == all_tag_tokens(self.rows().take(i as int)),
            decreases self.items@.len() - i,
        {
            proof {
                assert(self.rows().take(i + 1).drop_last() =~= self.rows().take(i as int));
                assert(self.rows().take(i + 1).last() == self.rows()[i as int]);
                assert(self.rows()[i as int] == self.items@[i as int]@);
            }
            let ghost prev_deep = all.deep_view();
            match &self.items[i].tags {
                Some(t) => {
                    let mut tt = tag_tokens(&chars_of(t.as_str()));
                    all.append(&mut tt);
                    proof {
                        assert(all.deep_view() =~~= prev_deep + self.rows()[i as int].tag_tokens());
                    }
                },
                None => {
                    proof {
                        assert(self.rows()[i as int].tag_tokens() =~= Seq::<Seq<char>>::empty());
                        assert(all.deep_view() =~~= prev_deep + self.rows()[i as int].tag_tokens());
                    }
                },
            }
            i += 1;
        }
        proof {
            assert(self.rows().take(self.rows().len() as int) =~= self.rows());
        }
        let ghost whole = all.deep_view();
        let total = all.len();
        // 2. count each distinct token
        let mut acc: Vec<TagCount> = Vec::new();
        let mut w: usize = 0;
        while w < all.len()
            invariant
                w <= all@.len(),
                whole == all.deep_view(),
                total == all@.len(),
                forall|j: int|
                    0 <= j < acc@.len() ==> 1 <= (#[trigger] acc@[j]).count && acc@[j].count
                        == count_token(whole.take(w as int), acc@[j].name@),
                forall|j1: int, j2: int|
                    0 <= j1 < acc@.len() && 0 <= j2 < acc@.len() && j1 != j2 ==> (
                    #[trigger] acc@[j1]).name@ != (#[trigger] acc@[j2]).name@,
                forall|u: int|
                    0 <= u < w ==> exists|j: int|
                        0 <= j < acc@.len() && (#[trigger] acc@[j]).name@ == #[trigger] whole[u],
            decreases all@.len() - w,
        {
            proof {
                assert(whole.take(w + 1).drop_last() =~= whole.take(w as int));
                assert(whole.take(w + 1).last() == whole[w as int]);
                assert(all.deep_view()[w as int] =~= all@[w as int]@);
            }
            let token = &all[w];
            let mut p: usize = 0;
            while p < acc.len() && !chars_eq(&chars_of(acc[p].name.as_str()), token)
                invariant
                    p <= acc@.len(),
                    token@ == whole[w as int],
                    forall|j: int| 0 <= j < p ==> (#[trigger] acc@[j]).name@ != token@,
                decreases acc@.len() - p,
            {
                p += 1;
            }
            if p < acc.len() {
                // seen before: one more occurrence
                proof {
                    assert(acc@[p as int].name@ == token@);
                    assert(acc@[p as int].count == count_token(
                        whole.take(w as int),
                        acc@[p as int].name@,
                    ));
                    lemma_count_token_nonneg(whole.take(w as int), acc@[p as int].name@);
                }
                let ghost orig_acc = acc@;
                let mut ent = acc.remove(p);
                ent.count = ent.count + 1;
                acc.insert(p, ent);
                proof {
                    orig_acc.remove_ensures(p as int);
                    orig_acc.remove(p as int).insert_ensures(p as int, ent);
                    assert(acc@ =~= orig_acc.update(p as int, ent));
                    assert(ent.name@ == token@);
                    assert forall|j: int| 0 <= j < acc@.len() implies 1 <= (
                    #[trigger] acc@[j]).count && acc@[j].count == count_token(
                        whole.take(w + 1),
                        acc@[j].name@,
                    ) by {
                        if j == p as int {
                            assert(acc@[j] == ent);
                            assert(ent.name@ == token@);
                            assert(ent.count == orig_acc[p as int].count + 1);
                            assert(count_token(whole.take(w + 1), token@) == count_token(
                                whole.take(w as int),
                                token@,
                            ) + 1);
                            assert(acc@[j].count == count_token(
                                whole.take(w + 1),
                                acc@[j].name@,
                            ));
                        } else {
                            assert(acc@[j] == orig_acc[j]);
                            assert(orig_acc[j].name@ != orig_acc[p as int].name@);
                            assert(acc@[j].name@ != token@);
                            assert(count_token(whole.take(w + 1), acc@[j].name@) == count_token(
                                whole.take(w as int),
                                acc@[j].name@,
                            ));
                            assert(orig_acc[j].count == count_token(
                                whole.take(w as int),
                                orig_acc[j].name@,
                            ));
                            assert(acc@[j].count == count_token(
                                whole.take(w + 1),
                                acc@[j].name@,
                            ));
                        }
                    }
                    assert forall|j: int| 0 <= j < acc@.len() implies (#[trigger] acc@[j]).name@
                        == orig_acc[j].name@ by {
                        if j != p as int {
                            assert(acc@[j] == orig_acc[j]);
                        }
                    }
                    assert forall|u: int| 0 <= u < w + 1 implies exists|j: int|
                        0 <= j < acc@.len() && (#[trigger] acc@[j]).name@ == #[trigger] whole[u] by {
                        if u < w {
                            let j = choose|j: int|
                                0 <= j < orig_acc.len() && orig_acc[j].name@ == whole[u];
                            assert(acc@[j].name@ == whole[u]);
                        } else {
                            assert(acc@[p as int].name@ == whole[u]);
                        }
                    }
                }
            } else {
                // first occurrence
                proof {
                    lemma_count_token_positive(whole.take(w as int), token@);
                    if whole.take(w as int).contains(token@) {
                        let u = choose|u: int|
                            0 <= u < w && whole.take(w as int)[u] == token@;
                        assert(whole[u] == token@);
                        let j = choose|j: int|
                            0 <= j < acc@.len() && acc@[j].name@ == whole[u];
                        assert(false);
                    }
                }
                let ghost orig_acc = acc@;
                let ent = TagCount { name: string_of(token), count: 1 };
                acc.push(ent);
                proof {
                    lemma_count_token_nonneg(whole.take(w as int), token@);
                    assert(count_token(whole.take(w as int), token@) == 0);
                    assert(count_token(whole.take(w + 1), token@) == 1);
                    assert forall|j: int| 0 <= j < acc@.len() implies 1 <= (
                    #[trigger] acc@[j]).count && acc@[j].count == count_token(
                        whole.take(w + 1),
                        acc@[j].name@,
                    ) by {
                        if j < acc@.len() - 1 {
                            assert(acc@[j] == orig_acc[j]);
                            assert(acc@[j].name@ != token@);
                            assert(count_token(whole.take(w + 1), acc@[j].name@) == count_token(
                                whole.take(w as int),
                                acc@[j].name@,
                            ));
                            assert(orig_acc[j].count == count_token(
                                whole.take(w as int),
                                orig_acc[j].name@,
                            ));
                        } else {
                            assert(acc@[j] == ent);
                            assert(ent.name@ == token@);
                            assert(acc@[j].count == count_token(
                                whole.take(w + 1),
                                acc@[j].name@,
                            ));
                        }
                    }
                    assert forall|u: int| 0 <= u < w + 1 implies exists|j: int|
                        0 <= j < acc@.len() && (#[trigger] acc@[j]).name@ == #[trigger] whole[u] by {
                        if u < w {
                            let j = choose|j: int|
                                0 <= j < orig_acc.len() && orig_acc[j].name@ == whole[u];
                            assert(acc@[j] == orig_acc[j]);
                            assert(acc@[j].name@ == whole[u]);
                        } else {
                            assert(acc@[acc@.len() - 1].name@ == whole[u]);
                        }
                    }
                }
            }
            w += 1;
        }
        proof {
            assert(whole.take(whole.len() as int) =~= whole);
        }
        // 3. order the table
        let sorted = crate::sort::sort_tag_counts(&acc);
        proof {
            let iv = tag_views(acc@);
            let ov = tag_views(sorted@);
            crate::sort::lemma_sort_tags_multiset(iv);
            crate::sort::lemma_sort_tags_sorted(iv);
            assert forall|j1: int, j2: int|
                0 <= j1 < iv.len() && 0 <= j2 < iv.len() && j1 != j2 implies iv[j1] != iv[j2] by {
                assert(acc@[j1].name@ != acc@[j2].name@);
            }
            assert(iv.no_duplicates());
            iv.lemma_multiset_has_no_duplicates();
            ov.lemma_multiset_has_no_duplicates_conv();
            assert(ov.no_duplicates());
            // every line of the table is one of the accumulated counts
            assert forall|k: int| 0 <= k < ov.len() implies iv.contains(#[trigger] ov[k]) by {
                vstd::seq_lib::to_multiset_contains(ov, ov[k]);
                vstd::seq_lib::to_multiset_contains(iv, ov[k]);
            }
            assert forall|j: int| 0 <= j < iv.len() implies ov.contains(#[trigger] iv[j]) by {
                vstd::seq_lib::to_multiset_contains(iv, iv[j]);
                vstd::seq_lib::to_multiset_contains(ov, iv[j]);
            }
        }
        // 4. hand the table out as plain pairs
        let mut r: Vec<(String, usize)> = Vec::new();
        let mut k: usize = 0;
        while k < sorted.len()
            invariant
                k <= sorted@.len(),
                r@.len() == k,
                forall|u: int|
                    0 <= u < k ==> (#[trigger] r@[u]).0@ == tag_views(sorted@)[u].name && r@[u].1
                        == tag_views(sorted@)[u].count,
            decreases sorted@.len() - k,
        {
            r.push((sorted[k].name.clone(), sorted[k].count));
            k += 1;
        }
        proof {
            let all_t = all_tag_tokens(self.rows());
            let iv = tag_views(acc@);
            let ov = tag_views(sorted@);
            assert(whole == all_t);
            // counts and membership carry over from the accumulator
            assert forall|k2: int| 0 <= k2 < r@.len() implies 1 <= (#[trigger] r@[k2]).1
                && r@[k2].1 == count_token(all_t, r@[k2].0@) by {
                assert(ov[k2].name == r@[k2].0@ && ov[k2].count == r@[k2].1);
                assert(iv.contains(ov[k2]));
                let j = choose|j: int| 0 <= j < iv.len() && iv[j] == ov[k2];
                assert(acc@[j].name@ == ov[k2].name && acc@[j].count == ov[k2].count);
            }
            assert forall|k1: int, k2: int|
                0 <= k1 < r@.len() && 0 <= k2 < r@.len() && k1 != k2 implies (
            #[trigger] r@[k1]).0@ != (#[trigger] r@[k2]).0@ by {
                if r@[k1].0@ == r@[k2].0@ {
                    assert(r@[k1].1 == count_token(all_t, r@[k1].0@));
                    assert(r@[k2].1 == count_token(all_t, r@[k2].0@));
                    assert(ov[k1] =~= ov[k2]);
                    assert(ov[k1] == ov[k2]);
                    assert(false);
                }
            }
            assert forall|u: int| 0 <= u < all_t.len() implies exists|k2: int|
                0 <= k2 < r@.len() && (#[trigger] r@[k2]).0@ == #[trigger] all_t[u] by {
                let j = choose|j: int| 0 <= j < acc@.len() && acc@[j].name@ == all_t[u];
                assert(iv[j].name == all_t[u]);
                assert(ov.contains(iv[j]));
                let k2 = choose|k2: int| 0 <= k2 < ov.len() && ov[k2] == iv[j];
                assert(r@[k2].0@ == all_t[u]);
            }
            assert forall|k1: int, k2: int| 0 <= k1 < k2 < r@.len() implies tag_pair_le(
                #[trigger] r@[k1],
                #[trigger] r@[k2],
            ) by {
                assert(crate::sort::tag_le(ov[k1], ov[k2]));
            }
        }
        r
    }
}

/// Every snapshot of item `id` appears in its history run.
proof fn lemma_snaps_for_membership(s: Seq<SnapshotView>, id: i64, k: int)
    requires
        0 <= k < s.len(),
        s[k].item.id == Some(id),
    ensures
        snaps_for(s, id).contains(s[k]),
    decreases s.len(),
{
    if k == s.len() - 1 {
        let run = snaps_for(s, id);
        assert(run.last() == s[k]);
        assert(run[run.len() - 1] == s[k]);
    } else {
        lemma_snaps_for_membership(s.drop_last(), id, k);
        assert(s.drop_last()[k] == s[k]);
        let rest = snaps_for(s.drop_last(), id);
        let w = choose|w: int| 0 <= w < rest.len() && rest[w] == s[k];
        if s.last().item.id == Some(id) {
            assert(snaps_for(s, id)[w] == s[k]);
        } else {
            assert(snaps_for(s, id)[w] == s[k]);
        }
    }
}

/// Everything in an item's history run is one of the stored snapshots and
/// belongs to that item.
proof fn lemma_snaps_for_elements(s: Seq<SnapshotView>, id: i64)
    ensures
        forall|w: int|
            0 <= w < snaps_for(s, id).len() ==> (#[trigger] snaps_for(s, id)[w]).item.id == Some(
                id,
            ) && s.contains(snaps_for(s, id)[w]),
    decreases s.len(),
{
    if s.len() > 0 {
        lemma_snaps_for_elements(s.drop_last(), id);
        let rest = snaps_for(s.drop_last(), id);
        assert forall|w: int| 0 <= w < snaps_for(s, id).len() implies (#[trigger] snaps_for(
            s,
            id,
        )[w]).item.id == Some(id) && s.contains(snaps_for(s, id)[w]) by {
            if w < rest.len() {
                assert(snaps_for(s, id)[w] == rest[w]);
                let u = choose|u: int| 0 <= u < s.drop_last().len() && s.drop_last()[u] == rest[w];
                assert(s[u] == rest[w]);
            } else {
                assert(snaps_for(s, id)[w] == s.last());
                assert(s[s.len() - 1] == s.last());
            }
        }
    }
}

/// Whether this snapshot belongs to item `id`.
fn matches_owner(s: &Snapshot, id: i64) -> (r: bool)
    ensures
        r == (s@.item.id == Some(id)),
{
    match s.item.id {
        Some(x) => x == id,
        None => false,
    }
}

/// How `snaps_for` sees one more snapshot.
pub proof fn lemma_snaps_for_push(s: Seq<SnapshotView>, x: SnapshotView, id: i64)
    ensures
        snaps_for(s.push(x), id) == if x.item.id == Some(id) {
            snaps_for(s, id).push(x)
        } else {
            snaps_for(s, id)
        },
{
    assert(s.push(x).drop_last() =~= s);
    assert(s.push(x).last() == x);
}

/// Removing one item's history leaves every other item's history intact.
proof fn lemma_snaps_for_of_without(s: Seq<SnapshotView>, id: i64, other: i64)
    requires
        other != id,
    ensures
        snaps_for(snaps_without(s, id), other) == snaps_for(s, other),
    decreases s.len(),
{
    if s.len() > 0 {
        lemma_snaps_for_of_without(s.drop_last(), id, other);
        if s.last().item.id != Some(id) {
            lemma_snaps_for_push(snaps_without(s.drop_last(), id), s.last(), other);
        }
    }
}

/// Everything `snaps_without` keeps comes from `s` and does not belong to
/// `id`.
proof fn lemma_snaps_without_sub(s: Seq<SnapshotView>, id: i64, x: SnapshotView)
    requires
        snaps_without(s, id).contains(x),
    ensures
        s.contains(x),
        x.item.id != Some(id),
    decreases s.len(),
{
    if s.len() > 0 {
        let rest = snaps_without(s.drop_last(), id);
        if s.last().item.id != Some(id) && x == s.last() {
            assert(s.contains(x)) by {
                assert(s[s.len() - 1] == x);
            }
        } else {
            assert(rest.contains(x)) by {
                let w = choose|w: int| 0 <= w < snaps_without(s, id).len() && snaps_without(
                    s,
                    id,
                )[w] == x;
                if s.last().item.id != Some(id) {
                    assert(rest[w] == x);
                }
            }
            lemma_snaps_without_sub(s.drop_last(), id, x);
            let w2 = choose|w2: int| 0 <= w2 < s.drop_last().len() && s.drop_last()[w2] == x;
            assert(s[w2] == x);
        }
    }
}

/// If no row and no snapshot carries `id`, the snapshot run of `id` is
/// empty.
proof fn lemma_snaps_for_no_id(snaps: Seq<SnapshotView>, rows: Seq<ItemView>, id: i64)
    requires
        forall|k: int|
            0 <= k < snaps.len() ==> (#[trigger] snaps[k]).item.id is Some,
        forall|k: int| 0 <= k < snaps.len() ==> (#[trigger] snaps[k]).item.id != Some(id),
    ensures
        snaps_for(snaps, id) == Seq::<SnapshotView>::empty(),
    decreases snaps.len(),
{
    if snaps.len() > 0 {
        lemma_snaps_for_no_id(snaps.drop_last(), rows, id);
    }
}

} // verus!
