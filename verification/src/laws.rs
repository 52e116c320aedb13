//! The store's cross-operation guarantees, stated and proved once over the
//! specification functions that the operations' own contracts use.

use vstd::prelude::*;

use crate::item::ItemView;
use crate::search::{spec_doc_tokens, spec_matches};
use crate::sort::{lemma_sort_keyed_contains, sort_keyed};
use crate::store::{
    contains_id, idx_of, row_of, rows_matching, search_keyed, snaps_for, values_of, ItemStore,
    SnapshotView,
};

verus! {

/// Version monotonicity: in a well-formed store the history of an item at
/// version `v` holds exactly the versions `1..v`, in ascending order and
/// with no gaps — after `n` successful updates of a fresh item, its
/// version is `1 + n` and its history holds exactly `n` records.
pub proof fn lemma_version_history_dense(s: &ItemStore, id: i64)
    requires
        s.wf(),
        contains_id(s.rows(), id),
    ensures
        snaps_for(s.snaps(), id).len() == row_of(s.rows(), id).version - 1,
        forall|k: int|
            0 <= k < snaps_for(s.snaps(), id).len() ==> (#[trigger] snaps_for(
                s.snaps(),
                id,
            )[k]).item.version == k + 1,
{
    let i = idx_of(s.rows(), id);
    assert(0 <= i < s.rows().len() && s.rows()[i].id == Some(id));
    s.lemma_wf_facts();
    assert(s.rows()[i].id.unwrap() == id);
}

/// Snapshot-before-write: the state an update displaces is afterwards the
/// history record at the displaced version, holding exactly the prior
/// fields — never the new ones — so `get_version` at the old version
/// returns the pre-update values.
pub proof fn lemma_snapshot_before_write(
    pre: &ItemStore,
    post: &ItemStore,
    v: ItemView,
    id: i64,
    now: u64,
)
    requires
        pre.wf(),
        post.wf(),
        contains_id(pre.rows(), id),
        row_of(pre.rows(), id).version < u64::MAX,
        post.rows() == pre.rows().update(
            idx_of(pre.rows(), id),
            ItemStore::updated_row(v, row_of(pre.rows(), id), now),
        ),
        post.snaps() == pre.snaps().push(
            SnapshotView { item: row_of(pre.rows(), id), at: now },
        ),
    ensures
        contains_id(post.rows(), id),
        row_of(post.rows(), id) == ItemStore::updated_row(v, row_of(pre.rows(), id), now),
        row_of(post.rows(), id).version == row_of(pre.rows(), id).version + 1,
        snaps_for(post.snaps(), id)[row_of(pre.rows(), id).version - 1].item == row_of(
            pre.rows(),
            id,
        ),
{
    let i = idx_of(pre.rows(), id);
    assert(0 <= i < pre.rows().len() && pre.rows()[i].id == Some(id));
    pre.lemma_wf_facts();
    let prior = row_of(pre.rows(), id);
    let snap = SnapshotView { item: prior, at: now };
    assert(post.rows()[i].id == Some(id));
    assert(contains_id(post.rows(), id));
    let j = idx_of(post.rows(), id);
    assert(0 <= j < post.rows().len() && post.rows()[j].id == Some(id));
    if j != i {
        assert(post.rows()[j] == pre.rows()[j]);
        assert(pre.rows()[j].id != pre.rows()[i].id);
        assert(false);
    }
    crate::store::lemma_snaps_for_push(pre.snaps(), snap, id);
    assert(snaps_for(post.snaps(), id) == snaps_for(pre.snaps(), id).push(snap));
    assert(pre.rows()[i].id.unwrap() == id);
    assert(snaps_for(pre.snaps(), id).len() == prior.version - 1);
    assert(snaps_for(post.snaps(), id)[prior.version - 1] == snap);
}

/// Restore is additive: restoring any version performs a full update, so
/// the current version strictly exceeds every version that existed before
/// the restore, and the restored row carries the content captured at the
/// restored version.
pub proof fn lemma_restore_is_additive(
    pre: &ItemStore,
    post: &ItemStore,
    item_id: i64,
    version: u64,
    now: u64,
)
    requires
        pre.wf(),
        post.wf(),
        contains_id(pre.rows(), item_id),
        row_of(pre.rows(), item_id).version < u64::MAX,
        1 <= version <= row_of(pre.rows(), item_id).version,
        post.rows() == pre.rows().update(
            idx_of(pre.rows(), item_id),
            ItemStore::updated_row(
                ItemStore::restore_source(pre.rows(), pre.snaps(), item_id, version),
                row_of(pre.rows(), item_id),
                now,
            ),
        ),
        post.snaps() == pre.snaps().push(
            SnapshotView { item: row_of(pre.rows(), item_id), at: now },
        ),
    ensures
        contains_id(post.rows(), item_id),
        row_of(post.rows(), item_id).version > row_of(pre.rows(), item_id).version,
        forall|k: int|
            0 <= k < snaps_for(pre.snaps(), item_id).len() ==> row_of(
                post.rows(),
                item_id,
            ).version > (#[trigger] snaps_for(pre.snaps(), item_id)[k]).item.version,
        row_of(post.rows(), item_id).content == ItemStore::restore_source(
            pre.rows(),
            pre.snaps(),
            item_id,
            version,
        ).content,
{
    let source = ItemStore::restore_source(pre.rows(), pre.snaps(), item_id, version);
    lemma_snapshot_before_write(pre, post, source, item_id, now);
    lemma_version_history_dense(pre, item_id);
}

/// A row of the store stands among a query's matches exactly when its own
/// fields satisfy every token of the query.
pub proof fn lemma_matching_membership(rows: Seq<ItemView>, q: Seq<Seq<char>>, row: ItemView)
    requires
        rows.contains(row),
    ensures
        rows_matching(rows, q).contains(row) <==> spec_matches(spec_doc_tokens(row), q),
    decreases rows.len(),
{
    if rows.len() > 0 {
        let d = rows.drop_last();
        let rest = rows_matching(d, q);
        if row == rows.last() {
            if spec_matches(spec_doc_tokens(row), q) {
                let m = rows_matching(rows, q);
                assert(m[m.len() - 1] == row);
            } else {
                if rows_matching(rows, q).contains(row) {
                    lemma_matching_elements(rows, q);
                }
            }
        } else {
            let w = choose|w: int| 0 <= w < rows.len() && rows[w] == row;
            assert(d[w] == row);
            lemma_matching_membership(d, q, row);
            if spec_matches(spec_doc_tokens(row), q) {
                let u = choose|u: int| 0 <= u < rest.len() && rest[u] == row;
                if spec_matches(spec_doc_tokens(rows.last()), q) {
                    assert(rows_matching(rows, q)[u] == row);
                } else {
                    assert(rows_matching(rows, q)[u] == row);
                }
            } else {
                if rows_matching(rows, q).contains(row) {
                    lemma_matching_elements(rows, q);
                }
            }
        }
    }
}

/// Everything among the matches is a matching row.
proof fn lemma_matching_elements(rows: Seq<ItemView>, q: Seq<Seq<char>>)
    ensures
        forall|w: int|
            0 <= w < rows_matching(rows, q).len() ==> spec_matches(
                spec_doc_tokens(#[trigger] rows_matching(rows, q)[w]),
                q,
            ) && rows.contains(rows_matching(rows, q)[w]),
    decreases rows.len(),
{
    if rows.len() > 0 {
        let d = rows.drop_last();
        lemma_matching_elements(d, q);
        let rest = rows_matching(d, q);
        assert forall|w: int| 0 <= w < rows_matching(rows, q).len() implies spec_matches(
            spec_doc_tokens(#[trigger] rows_matching(rows, q)[w]),
            q,
        ) && rows.contains(rows_matching(rows, q)[w]) by {
            if w < rest.len() {
                assert(rows_matching(rows, q)[w] == rest[w]);
                let u = choose|u: int| 0 <= u < d.len() && d[u] == rest[w];
                assert(rows[u] == rest[w]);
            } else {
                assert(rows_matching(rows, q)[w] == rows.last());
                assert(rows[rows.len() - 1] == rows.last());
            }
        }
    }
}

/// Search consistency: a row of the store appears among the ranked search
/// results exactly when its current fields satisfy every token of the
/// query — so an update that removes a token removes the item from that
/// token's results, and one that adds a token adds it.
pub proof fn lemma_search_consistency(s: &ItemStore, q: Seq<Seq<char>>, row: ItemView)
    requires
        s.wf(),
        s.rows().contains(row),
        q.len() > 0,
    ensures
        values_of(sort_keyed(search_keyed(rows_matching(s.rows(), q), q))).contains(row)
            <==> spec_matches(spec_doc_tokens(row), q),
{
    let matches = rows_matching(s.rows(), q);
    let keyed = search_keyed(matches, q);
    let key = crate::store::search_keyed_row(row, q);
    lemma_matching_membership(s.rows(), q, row);
    lemma_sort_keyed_contains(keyed, key);
    let out = sort_keyed(keyed);
    if spec_matches(spec_doc_tokens(row), q) {
        let w = choose|w: int| 0 <= w < matches.len() && matches[w] == row;
        assert(keyed[w] == key);
        assert(keyed.contains(key));
        let u = choose|u: int| 0 <= u < out.len() && out[u] == key;
        assert(values_of(out)[u] == row);
        assert(values_of(out).contains(row));
    } else {
        if values_of(out).contains(row) {
            let u = choose|u: int| 0 <= u < values_of(out).len() && values_of(out)[u] == row;
            assert(out[u].v == row);
            assert(out.contains(out[u]));
            lemma_sort_keyed_contains(keyed, out[u]);
            assert(keyed.contains(out[u]));
            let w = choose|w: int| 0 <= w < keyed.len() && keyed[w] == out[u];
            assert(matches[w] == row);
            lemma_matching_elements(s.rows(), q);
            assert(false);
        }
    }
}

} // verus!
