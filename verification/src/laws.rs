//! What holds of the store across operations, stated over its model and
//! proved from the definitions of the operations.

use vstd::prelude::*;
use crate::invariants::{
    lemma_commit_numbered, lemma_commit_wf, lemma_delete_entry_wf, lemma_delete_stream_wf,
    lemma_entry_lookup, lemma_rekeyed_wf, lemma_version_lookup, lemma_versions_numbered,
};
use crate::models::{CreateEntryInputView, EntryVersionView, EntryView, PendingBlockView};
use crate::seqs::{lemma_filter_all, lemma_filter_contains, lemma_filter_none, lemma_filter_push};
use crate::store::{readable_version, StoreView};

verus! {

/// What one commit is given from outside: the identifier of the new version,
/// the message and the time.
pub struct CommitStamp {
    pub version_id: Seq<char>,
    pub message: Option<Seq<char>>,
    pub now: int,
}

/// The store after committing entry `entry_id` once for each stamp, in order.
pub open spec fn commit_all(db: StoreView, entry_id: Seq<char>, stamps: Seq<CommitStamp>)
    -> StoreView
    decreases stamps.len(),
{
    if stamps.len() == 0 {
        db
    } else {
        let s = stamps.last();
        commit_all(db, entry_id, stamps.drop_last()).commit(
            entry_id,
            s.version_id,
            s.message,
            s.now,
        )
    }
}

/// The identifiers of the stamps are new to the store and differ from each
/// other, as identifiers that are generated do.
pub open spec fn stamps_fresh(db: StoreView, stamps: Seq<CommitStamp>) -> bool {
    &&& forall|i: int| 0 <= i < stamps.len() ==> !db.has_version_id((#[trigger] stamps[i]).version_id)
    &&& forall|i: int, j: int|
        0 <= i < j < stamps.len() ==> (#[trigger] stamps[i]).version_id != (
        #[trigger] stamps[j]).version_id
}

/// Committing an entry N times in a row moves its head up by N, one step at a
/// time: the k-th commit makes the version whose number is the old head plus
/// k, and afterwards the versions of the entry are numbered 1, 2, ... up to
/// the new head without gap or repetition. For an entry that had no version
/// the versions are numbered exactly 1 to N and the head is N. This holds
/// whatever the versions are called; where their identifiers are new and
/// differ from each other, the store stays well-formed as a whole.
pub proof fn law_commits_number_versions(
    db: StoreView,
    entry_id: Seq<char>,
    stamps: Seq<CommitStamp>,
)
    requires
        db.numbered(),
        db.has_entry(entry_id),
    ensures
        ({
            let after = commit_all(db, entry_id, stamps);
            let head = db.entry(entry_id).version_head;
            &&& after.numbered()
            &&& after.has_entry(entry_id)
            &&& after.entry(entry_id).version_head == head + stamps.len()
            &&& after.versions_of(entry_id).len() == head + stamps.len()
            &&& forall|k: int|
                0 <= k < head + stamps.len() ==> (#[trigger] after.versions_of(
                    entry_id,
                )[k]).version_number == k + 1
            &&& forall|k: int|
                0 <= k < stamps.len() ==> #[trigger] after.has_version(entry_id, head + k + 1)
                    && after.version(entry_id, head + k + 1).id == stamps[k].version_id
            &&& after.versions.len() == db.versions.len() + stamps.len()
            &&& forall|i: int|
                0 <= i < db.versions.len() ==> (#[trigger] after.versions[i]) == db.versions[i]
            &&& forall|k: int|
                0 <= k < stamps.len() ==> (#[trigger] after.versions[db.versions.len() + k]).id
                    == stamps[k].version_id
            &&& db.wf() && stamps_fresh(db, stamps) ==> after.wf()
        }),
    decreases stamps.len(),
{
    let head = db.entry(entry_id).version_head;
    if stamps.len() > 0 {
        let earlier = stamps.drop_last();
        let s = stamps.last();
        law_commits_number_versions(db, entry_id, earlier);
        let before = commit_all(db, entry_id, earlier);
        let after = commit_all(db, entry_id, stamps);
        assert(after == before.commit(entry_id, s.version_id, s.message, s.now));
        lemma_commit_numbered(before, entry_id, s.version_id, s.message, s.now);
        if db.wf() && stamps_fresh(db, stamps) {
            assert(stamps_fresh(db, earlier)) by {
                assert forall|i: int| 0 <= i < earlier.len() implies !db.has_version_id(
                    (#[trigger] earlier[i]).version_id,
                ) by {
                    assert(earlier[i] == stamps[i]);
                }
                assert forall|i: int, j: int| 0 <= i < j < earlier.len() implies (
                #[trigger] earlier[i]).version_id != (#[trigger] earlier[j]).version_id by {
                    assert(earlier[i] == stamps[i] && earlier[j] == stamps[j]);
                }
            }
            assert(!before.has_version_id(s.version_id)) by {
                if before.has_version_id(s.version_id) {
                    let i = choose|i: int|
                        0 <= i < before.versions.len() && #[trigger] before.versions[i].id
                            == s.version_id;
                    if i < db.versions.len() {
                        assert(db.versions[i].id == s.version_id);
                        assert(stamps[stamps.len() - 1] == s);
                        assert(db.has_version_id(stamps[stamps.len() - 1].version_id));
                    } else {
                        let k = i - db.versions.len();
                        assert(before.versions[db.versions.len() + k].id == earlier[k].version_id);
                        assert(earlier[k] == stamps[k]);
                        assert(stamps[k].version_id != stamps[stamps.len() - 1].version_id);
                    }
                }
            }
            lemma_commit_wf(before, entry_id, s.version_id, s.message, s.now);
        }
        let e = after.entry_index(entry_id);
        lemma_entry_lookup(after, e);
        lemma_versions_numbered(after, e);
        let last = before.versions.len() as int;
        assert(after.versions[last] == before.next_version(
            entry_id,
            s.version_id,
            s.message,
            s.now,
        ));
        assert forall|k: int| 0 <= k < stamps.len() implies #[trigger] after.has_version(
            entry_id,
            head + k + 1,
        ) && after.version(entry_id, head + k + 1).id == stamps[k].version_id by {
            if k < stamps.len() - 1 {
                assert(before.has_version(entry_id, head + k + 1));
                let i = before.version_index(entry_id, head + k + 1);
                assert(before.is_version(i, entry_id, head + k + 1));
                assert(after.versions[i] == before.versions[i]);
                assert(after.is_version(i, entry_id, head + k + 1));
                lemma_version_lookup(after, i);
                assert(earlier[k] == stamps[k]);
            } else {
                assert(after.is_version(last, entry_id, head + k + 1));
                lemma_version_lookup(after, last);
            }
        }
        assert forall|i: int| 0 <= i < db.versions.len() implies (#[trigger] after.versions[i])
            == db.versions[i] by {
            assert(before.versions[i] == db.versions[i]);
        }
        assert forall|k: int|
            0 <= k < stamps.len() implies (#[trigger] after.versions[db.versions.len() + k]).id
            == stamps[k].version_id by {
            if k < stamps.len() - 1 {
                assert(before.versions[db.versions.len() + k].id == earlier[k].version_id);
                assert(earlier[k] == stamps[k]);
            }
        }
    } else {
        let e = db.entry_index(entry_id);
        lemma_entry_lookup(db, e);
        lemma_versions_numbered(db, e);
    }
}

/// What a caller sees of one commit: the version that is handed back has the
/// number after the head and the content of the entry as its snapshot, it is
/// from then on the latest version of the entry, the head, its number and the
/// count of the entry's versions are the same, and the pending blocks are
/// what they were, so that a commit consumes no export.
pub proof fn law_commit_makes_the_latest_version(
    db: StoreView,
    entry_id: Seq<char>,
    version_id: Seq<char>,
    message: Option<Seq<char>>,
    now: int,
)
    requires
        db.numbered(),
        db.has_entry(entry_id),
    ensures
        ({
            let after = db.commit(entry_id, version_id, message, now);
            let made = db.next_version(entry_id, version_id, message, now);
            &&& made.entry_id == entry_id
            &&& made.version_number == db.entry(entry_id).version_head + 1
            &&& made.content_snapshot == db.entry(entry_id).content
            &&& after.has_entry(entry_id)
            &&& after.entry(entry_id).version_head == made.version_number
            &&& after.has_version(entry_id, made.version_number)
            &&& after.version(entry_id, made.version_number) == made
            &&& after.is_latest_version(db.versions.len() as int, entry_id)
            &&& after.pending_blocks == db.pending_blocks
            &&& forall|i: int, stream_id: Seq<char>|
                db.is_latest_pending(i, stream_id) ==> #[trigger] after.is_latest_pending(
                    i,
                    stream_id,
                )
            &&& after.versions_of(entry_id).len() == made.version_number
            &&& db.committed(after, entry_id, readable_version(made))
        }),
{
    let after = db.commit(entry_id, version_id, message, now);
    let last = db.versions.len() as int;
    lemma_commit_numbered(db, entry_id, version_id, message, now);
    assert(after.is_version(last, entry_id, db.entry(entry_id).version_head + 1));
    lemma_version_lookup(after, last);
    let e = after.entry_index(entry_id);
    lemma_entry_lookup(after, e);
    lemma_versions_numbered(after, e);
    assert forall|j: int|
        0 <= j < after.versions.len() && (#[trigger] after.versions[j]).entry_id
            == entry_id implies after.versions[j].version_number
        <= after.versions[last].version_number by {
        assert(after.versions[j].entry_id == after.entries[e].id);
    }
}

/// A revert to version `number` makes the content of the entry equal to the
/// snapshot of that version and changes nothing of the history: the head is
/// what it was and the versions are what they were.
pub proof fn law_revert_restores_snapshot(
    db: StoreView,
    entry_id: Seq<char>,
    number: int,
    now: int,
)
    requires
        db.wf(),
        db.has_version(entry_id, number),
    ensures
        ({
            let after = db.revert(entry_id, number, now);
            &&& after.wf()
            &&& db.has_entry(entry_id)
            &&& after.has_entry(entry_id)
            &&& after.entry(entry_id).content == db.version(entry_id, number).content_snapshot
            &&& after.entry(entry_id).version_head == db.entry(entry_id).version_head
            &&& after.versions == db.versions
            &&& after.has_version(entry_id, number)
            &&& after.version(entry_id, number) == db.version(entry_id, number)
        }),
{
    let after = db.revert(entry_id, number, now);
    let v = db.version_index(entry_id, number);
    assert(db.is_version(v, entry_id, number));
    assert(db.has_entry(db.versions[v].entry_id));
    let e = db.entry_index(entry_id);
    assert(0 <= e < db.entries.len() && db.entries[e].id == entry_id);
    lemma_entry_lookup(db, e);
    lemma_rekeyed_wf(db, after);
    assert(after.entries[e].id == entry_id);
    lemma_entry_lookup(after, e);
    assert(after.entry(entry_id) == after.entries[e]);
    assert(after.entries[e].content == db.version(entry_id, number).content_snapshot);
    assert(after.entries[e].version_head == db.entries[e].version_head);
    assert(after.versions == db.versions);
    assert(after.is_version(v, entry_id, number));
}

/// Staging is idempotent: setting the mark of an entry twice to the same
/// value leaves the store, and with it every list of staged entries, as the
/// first setting left it.
pub proof fn law_set_staged_idempotent(
    db: StoreView,
    entry_id: Seq<char>,
    staged: bool,
    stream_id: Seq<char>,
)
    ensures
        db.set_staged(entry_id, staged).set_staged(entry_id, staged) == db.set_staged(
            entry_id,
            staged,
        ),
        db.set_staged(entry_id, staged).set_staged(entry_id, staged).staged_of(stream_id)
            == db.set_staged(entry_id, staged).staged_of(stream_id),
{
    let once = db.set_staged(entry_id, staged);
    let twice = once.set_staged(entry_id, staged);
    assert(twice.entries =~= once.entries);
    assert(twice =~= once);
}

/// Staging touches nothing but the mark: the record of an export that was
/// made before keeps its list of staged identifiers.
pub proof fn law_staging_leaves_pending_blocks(db: StoreView, entry_id: Seq<char>, staged: bool)
    ensures
        db.set_staged(entry_id, staged).pending_blocks == db.pending_blocks,
        db.set_staged(entry_id, staged).versions == db.versions,
        db.set_staged(entry_id, staged).streams == db.streams,
{
}

/// Clearing the staging of a stream leaves the stream without staged entries:
/// the mark of each of its entries is off, and the entries of other streams
/// are what they were.
pub proof fn law_clear_staged_empties(db: StoreView, stream_id: Seq<char>)
    ensures
        ({
            let after = db.clear_staged(stream_id);
            &&& after.staged_of(stream_id).len() == 0
            &&& after.entries.len() == db.entries.len()
            &&& forall|i: int|
                0 <= i < after.entries.len() && (#[trigger] after.entries[i]).stream_id
                    == stream_id ==> !after.entries[i].is_staged
            &&& forall|i: int|
                0 <= i < db.entries.len() && (#[trigger] db.entries[i]).stream_id != stream_id
                    ==> after.entries[i] == db.entries[i]
        }),
{
    let after = db.clear_staged(stream_id);
    let staged = |e: EntryView| e.stream_id == stream_id && e.is_staged;
    assert forall|i: int| 0 <= i < after.entries.len() implies !staged(
        #[trigger] after.entries[i],
    ) by {}
    lemma_filter_none(after.entries, staged);
}

/// A commit keeps an earlier version as it was: versions are immutable.
pub proof fn law_commit_keeps_versions(
    db: StoreView,
    entry_id: Seq<char>,
    version_id: Seq<char>,
    message: Option<Seq<char>>,
    now: int,
)
    ensures
        ({
            let after = db.commit(entry_id, version_id, message, now);
            &&& after.versions.len() == db.versions.len() + 1
            &&& forall|i: int|
                0 <= i < db.versions.len() ==> (#[trigger] after.versions[i]) == db.versions[i]
        }),
{
}

/// Two stores have the same entries with the same heads, row by row.
pub open spec fn same_heads(a: StoreView, b: StoreView) -> bool {
    &&& a.entries.len() == b.entries.len()
    &&& forall|i: int|
        0 <= i < a.entries.len() ==> (#[trigger] a.entries[i]).id == b.entries[i].id
            && a.entries[i].version_head == b.entries[i].version_head
}

/// Only a commit writes a head or makes a version: replacing content in
/// place, reverting, staging and clearing the staging leave every head and
/// every version as they were.
pub proof fn law_only_commit_moves_heads(
    db: StoreView,
    entry_id: Seq<char>,
    stream_id: Seq<char>,
    content: Seq<char>,
    number: int,
    staged: bool,
    now: int,
)
    ensures
        same_heads(db.set_content(entry_id, content, now), db),
        db.set_content(entry_id, content, now).versions == db.versions,
        same_heads(db.revert(entry_id, number, now), db),
        db.revert(entry_id, number, now).versions == db.versions,
        same_heads(db.set_staged(entry_id, staged), db),
        db.set_staged(entry_id, staged).versions == db.versions,
        same_heads(db.clear_staged(stream_id), db),
        db.clear_staged(stream_id).versions == db.versions,
{
}

/// Staging has no effect on order: every entry keeps its stream and its
/// sequence number, whatever is staged or cleared.
pub proof fn law_staging_keeps_order(
    db: StoreView,
    entry_id: Seq<char>,
    stream_id: Seq<char>,
    staged: bool,
)
    ensures
        db.set_staged(entry_id, staged).entries.len() == db.entries.len(),
        db.clear_staged(stream_id).entries.len() == db.entries.len(),
        forall|i: int|
            0 <= i < db.entries.len() ==> (#[trigger] db.set_staged(
                entry_id,
                staged,
            ).entries[i]).sequence_id == db.entries[i].sequence_id && db.set_staged(
                entry_id,
                staged,
            ).entries[i].stream_id == db.entries[i].stream_id,
        forall|i: int|
            0 <= i < db.entries.len() ==> (#[trigger] db.clear_staged(
                stream_id,
            ).entries[i]).sequence_id == db.entries[i].sequence_id && db.clear_staged(
                stream_id,
            ).entries[i].stream_id == db.entries[i].stream_id,
{
}

/// At most one pending block of a stream is the one that a response is
/// checked against.
pub proof fn law_latest_pending_block_is_one(db: StoreView, i: int, j: int, stream_id: Seq<char>)
    requires
        db.is_latest_pending(i, stream_id),
        db.is_latest_pending(j, stream_id),
    ensures
        i == j,
{
    assert(db.pending_blocks[i].stream_id == stream_id);
    assert(db.pending_blocks[j].stream_id == stream_id);
}

/// A pending block that is recorded no earlier than those that its stream
/// has is from then on the one that a response is checked against.
pub proof fn law_new_pending_block_is_latest(db: StoreView, p: PendingBlockView)
    requires
        db.none_pending_after(p.stream_id, p.created_at),
    ensures
        db.insert_pending_block(p).is_latest_pending(db.pending_blocks.len() as int, p.stream_id),
{
    let after = db.insert_pending_block(p);
    let i = db.pending_blocks.len() as int;
    assert(after.pending_blocks[i] == p);
    assert forall|j: int|
        0 <= j < after.pending_blocks.len() && (#[trigger] after.pending_blocks[j]).stream_id
            == p.stream_id implies after.pending_blocks[j].created_at
        < after.pending_blocks[i].created_at || (after.pending_blocks[j].created_at
        == after.pending_blocks[i].created_at && j <= i) by {
        if j < i {
            assert(after.pending_blocks[j] == db.pending_blocks[j]);
        }
    }
}

/// Deleting the pending block that was recorded last gives back the store
/// as it was before the block was recorded, and with it the block that a
/// response was checked against then.
pub proof fn law_delete_undoes_pending_block(db: StoreView, p: PendingBlockView)
    requires
        !db.has_pending_block(p.id),
    ensures
        db.insert_pending_block(p).delete_pending_block(p.id) == db,
{
    let keep = |q: PendingBlockView| q.id != p.id;
    assert forall|i: int| 0 <= i < db.pending_blocks.len() implies keep(
        #[trigger] db.pending_blocks[i],
    ) by {}
    lemma_filter_all(db.pending_blocks, keep);
    lemma_filter_push(db.pending_blocks, p, keep);
    assert(db.insert_pending_block(p).delete_pending_block(p.id) =~= db);
}

/// Deleting an entry takes its versions with it and nothing else: the
/// streams, the pending blocks and the other entries stay.
pub proof fn law_delete_entry_takes_versions(db: StoreView, entry_id: Seq<char>)
    requires
        db.wf(),
    ensures
        ({
            let after = db.delete_entry(entry_id);
            &&& after.wf()
            &&& !after.has_entry(entry_id)
            &&& !after.has_versions_of(entry_id)
            &&& after.streams == db.streams
            &&& after.pending_blocks == db.pending_blocks
            &&& forall|id: Seq<char>| id != entry_id ==> after.has_entry(id) == db.has_entry(id)
        }),
{
    let after = db.delete_entry(entry_id);
    lemma_delete_entry_wf(db, entry_id);
    lemma_filter_contains(db.versions, |v: EntryVersionView| v.entry_id != entry_id);
    lemma_filter_contains(db.entries, |e: EntryView| e.id != entry_id);
    if after.has_versions_of(entry_id) {
        let i = choose|i: int|
            0 <= i < after.versions.len() && (#[trigger] after.versions[i]).entry_id == entry_id;
        assert(after.versions.contains(after.versions[i]));
    }
    assert forall|id: Seq<char>| id != entry_id implies after.has_entry(id) == db.has_entry(
        id,
    ) by {
        if after.has_entry(id) {
            let i = choose|i: int| 0 <= i < after.entries.len() && #[trigger] after.entries[i].id == id;
            assert(after.entries.contains(after.entries[i]));
            let k = choose|k: int| 0 <= k < db.entries.len() && db.entries[k] == after.entries[i];
            assert(db.entries[k].id == id);
        }
        if db.has_entry(id) {
            let k = choose|k: int| 0 <= k < db.entries.len() && #[trigger] db.entries[k].id == id;
            assert(db.entries.contains(db.entries[k]));
            assert(after.entries.contains(db.entries[k]));
            let i = choose|i: int| 0 <= i < after.entries.len() && after.entries[i] == db.entries[k];
            assert(after.entries[i].id == id);
        }
    }
}

/// Deleting a stream takes its entries, their versions and its pending
/// blocks with it: nothing that belonged to the stream stays.
pub proof fn law_delete_stream_takes_all(db: StoreView, stream_id: Seq<char>)
    requires
        db.wf(),
    ensures
        ({
            let after = db.delete_stream(stream_id);
            &&& after.wf()
            &&& !after.has_stream(stream_id)
            &&& after.entries_of(stream_id).len() == 0
            &&& !after.has_pending_for(stream_id)
            &&& forall|i: int|
                0 <= i < after.versions.len() ==> !db.entry_in_stream(
                    (#[trigger] after.versions[i]).entry_id,
                    stream_id,
                )
        }),
{
    let after = db.delete_stream(stream_id);
    lemma_delete_stream_wf(db, stream_id);
    lemma_filter_contains(db.entries, |e: EntryView| e.stream_id != stream_id);
    lemma_filter_contains(db.pending_blocks, |p: PendingBlockView| p.stream_id != stream_id);
    lemma_filter_contains(
        db.versions,
        |v: EntryVersionView| !db.entry_in_stream(v.entry_id, stream_id),
    );
    assert forall|i: int| 0 <= i < after.entries.len() implies !(|e: EntryView|
        e.stream_id == stream_id)(#[trigger] after.entries[i]) by {
        assert(after.entries.contains(after.entries[i]));
    }
    lemma_filter_none(after.entries, |e: EntryView| e.stream_id == stream_id);
    if after.has_pending_for(stream_id) {
        let i = choose|i: int|
            0 <= i < after.pending_blocks.len() && (#[trigger] after.pending_blocks[i]).stream_id
                == stream_id;
        assert(after.pending_blocks.contains(after.pending_blocks[i]));
    }
    assert forall|i: int| 0 <= i < after.versions.len() implies !db.entry_in_stream(
        (#[trigger] after.versions[i]).entry_id,
        stream_id,
    ) by {
        assert(after.versions.contains(after.versions[i]));
    }
}

/// Two listings of the streams agree on their first `k` places.
proof fn lemma_listings_agree(db: StoreView, a: Seq<int>, b: Seq<int>, k: int)
    requires
        db.is_stream_listing(a),
        db.is_stream_listing(b),
        0 <= k <= a.len(),
    ensures
        forall|j: int| 0 <= j < k ==> a[j] == b[j],
    decreases k,
{
    if k > 0 {
        lemma_listings_agree(db, a, b, k - 1);
        let x = a[k - 1];
        let y = b[k - 1];
        if x != y {
            assert(a.contains(y));
            let p = choose|p: int| 0 <= p < a.len() && a[p] == y;
            if p < k - 1 {
                assert(db.listed_before(b[p], b[k - 1]));
            }
            assert(db.listed_before(a[k - 1], a[p]));
            assert(b.contains(x));
            let q = choose|q: int| 0 <= q < b.len() && b[q] == x;
            if q < k - 1 {
                assert(db.listed_before(a[q], a[k - 1]));
            }
            assert(db.listed_before(b[k - 1], b[q]));
        }
    }
}

/// The order in which the streams are listed is determined by the store:
/// two orders that both are a listing are the same.
pub proof fn law_stream_listing_is_one(db: StoreView, a: Seq<int>, b: Seq<int>)
    requires
        db.is_stream_listing(a),
        db.is_stream_listing(b),
    ensures
        a == b,
{
    lemma_listings_agree(db, a, b, a.len() as int);
    assert(a =~= b);
}

/// Two results of one search agree on their first `k` places.
proof fn lemma_search_results_agree(
    db: StoreView,
    query: Seq<char>,
    limit: int,
    a: Seq<int>,
    b: Seq<int>,
    k: int,
)
    requires
        db.is_search_result(a, query, limit),
        db.is_search_result(b, query, limit),
        0 <= k <= a.len(),
        k <= b.len(),
    ensures
        forall|j: int| 0 <= j < k ==> a[j] == b[j],
    decreases k,
{
    if k > 0 {
        lemma_search_results_agree(db, query, limit, a, b, k - 1);
        let x = a[k - 1];
        let y = b[k - 1];
        if x != y {
            assert(db.is_hit(y, query));
            if a.contains(y) {
                let p = choose|p: int| 0 <= p < a.len() && a[p] == y;
                if p < k - 1 {
                    assert(db.found_before(b[p], b[k - 1]));
                }
                assert(db.found_before(a[k - 1], a[p]));
            } else {
                assert(db.all_found_before(a, y));
                assert(db.found_before(a[k - 1], y));
            }
            assert(db.is_hit(x, query));
            if b.contains(x) {
                let q = choose|q: int| 0 <= q < b.len() && b[q] == x;
                if q < k - 1 {
                    assert(db.found_before(a[q], a[k - 1]));
                }
                assert(db.found_before(b[k - 1], b[q]));
            } else {
                assert(db.all_found_before(b, x));
                assert(db.found_before(b[k - 1], x));
            }
        }
    }
}

/// One result of a search is not longer than another.
proof fn lemma_search_result_length(
    db: StoreView,
    query: Seq<char>,
    limit: int,
    a: Seq<int>,
    b: Seq<int>,
)
    requires
        db.is_search_result(a, query, limit),
        db.is_search_result(b, query, limit),
    ensures
        b.len() <= a.len(),
{
    if a.len() < b.len() {
        lemma_search_results_agree(db, query, limit, a, b, a.len() as int);
        let y = b[a.len() as int];
        assert(db.is_hit(y, query));
        if a.contains(y) {
            let p = choose|p: int| 0 <= p < a.len() && a[p] == y;
            assert(db.found_before(b[p], b[a.len() as int]));
        }
    }
}

/// What a search finds is determined by the store, the query and the limit:
/// two orders that both are a result of the search are the same.
pub proof fn law_search_result_is_one(
    db: StoreView,
    query: Seq<char>,
    limit: int,
    a: Seq<int>,
    b: Seq<int>,
)
    requires
        db.is_search_result(a, query, limit),
        db.is_search_result(b, query, limit),
    ensures
        a == b,
{
    lemma_search_result_length(db, query, limit, a, b);
    lemma_search_result_length(db, query, limit, b, a);
    lemma_search_results_agree(db, query, limit, a, b, a.len() as int);
    assert(a =~= b);
}

/// A sequence number is given once. Deleting an entry does not lower what
/// its stream remembers, so the entry that is created next in the stream
/// takes a number beyond that of the deleted entry and beyond that of every
/// entry that is left.
pub proof fn law_sequence_numbers_are_given_once(
    db: StoreView,
    entry_id: Seq<char>,
    input: CreateEntryInputView,
    id: Seq<char>,
    now: int,
)
    requires
        db.wf(),
        db.has_entry(entry_id),
        db.entry(entry_id).stream_id == input.stream_id,
    ensures
        ({
            let after = db.delete_entry(entry_id);
            let next = after.new_entry(input, id, now);
            &&& after.wf()
            &&& after.has_stream(input.stream_id)
            &&& after.last_sequence(input.stream_id) == db.last_sequence(input.stream_id)
            &&& next.sequence_id == db.last_sequence(input.stream_id) + 1
            &&& next.sequence_id > db.entry(entry_id).sequence_id
            &&& forall|i: int|
                0 <= i < after.entries.len() && (#[trigger] after.entries[i]).stream_id
                    == input.stream_id ==> after.entries[i].sequence_id < next.sequence_id
        }),
{
    let after = db.delete_entry(entry_id);
    lemma_delete_entry_wf(db, entry_id);
    let e = db.entry_index(entry_id);
    assert(db.has_stream(db.entries[e].stream_id));
    let home = db.stream_index(input.stream_id);
    assert(db.entries[e].stream_id == db.streams[home].id);
    assert forall|i: int|
        0 <= i < after.entries.len() && (#[trigger] after.entries[i]).stream_id
            == input.stream_id implies after.entries[i].sequence_id
        <= after.streams[home].last_sequence_id by {
        assert(after.entries[i].stream_id == after.streams[home].id);
    }
}

/// A stream remembers the number of the entry that was added to it last.
pub proof fn law_stream_remembers_last_number(db: StoreView, e: EntryView, now: int)
    requires
        db.has_stream(e.stream_id),
    ensures
        db.insert_entry(e, now).has_stream(e.stream_id),
        db.insert_entry(e, now).last_sequence(e.stream_id) == e.sequence_id,
{
    let after = db.insert_entry(e, now);
    let home = db.stream_index(e.stream_id);
    assert(after.streams[home].id == e.stream_id);
    let found = after.stream_index(e.stream_id);
    assert(after.streams[found].id == e.stream_id);
    assert(db.streams[found].id == e.stream_id);
}

} // verus!
