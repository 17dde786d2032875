//! Proofs that the operations of the store keep it well-formed, and the facts
//! about lookups that those proofs and the executable store share.

use vstd::prelude::*;
use crate::models::{EntryVersionView, EntryView, PendingBlockView, StreamView};
use crate::seqs::{
    lemma_filter_contains, lemma_filter_none, lemma_filter_pairwise, lemma_growing_cover,
};
use crate::store::{record_entry, StoreView};

verus! {

/// In a table without repeated identifiers, looking a stream up by the
/// identifier of row `i` finds row `i`.
pub proof fn lemma_stream_lookup(db: StoreView, i: int)
    requires
        db.stream_ids_unique(),
        0 <= i < db.streams.len(),
    ensures
        db.has_stream(db.streams[i].id),
        db.stream_index(db.streams[i].id) == i,
        db.stream(db.streams[i].id) == db.streams[i],
{
    let id = db.streams[i].id;
    let j = db.stream_index(id);
    assert(0 <= j < db.streams.len() && db.streams[j].id == id);
    if j < i {
        assert(db.streams[j].id != db.streams[i].id);
    } else if i < j {
        assert(db.streams[i].id != db.streams[j].id);
    }
}

/// In a table without repeated identifiers, looking an entry up by the
/// identifier of row `i` finds row `i`.
pub proof fn lemma_entry_lookup(db: StoreView, i: int)
    requires
        db.entry_ids_unique(),
        0 <= i < db.entries.len(),
    ensures
        db.has_entry(db.entries[i].id),
        db.entry_index(db.entries[i].id) == i,
        db.entry(db.entries[i].id) == db.entries[i],
{
    let id = db.entries[i].id;
    let j = db.entry_index(id);
    assert(0 <= j < db.entries.len() && db.entries[j].id == id);
    if j < i {
        assert(db.entries[j].id != db.entries[i].id);
    } else if i < j {
        assert(db.entries[i].id != db.entries[j].id);
    }
}

/// In a table without repeated identifiers, no stream but row `i` bears the
/// identifier of row `i`.
pub proof fn lemma_stream_row_alone(db: StoreView, i: int)
    requires
        db.stream_ids_unique(),
        0 <= i < db.streams.len(),
    ensures
        forall|k: int|
            0 <= k < db.streams.len() && k != i ==> (#[trigger] db.streams[k]).id
                != db.streams[i].id,
{
    assert forall|k: int| 0 <= k < db.streams.len() && k != i implies (
    #[trigger] db.streams[k]).id != db.streams[i].id by {
        if k < i {
            assert(db.streams[k].id != db.streams[i].id);
        } else {
            assert(db.streams[i].id != db.streams[k].id);
        }
    }
}

/// In a table without repeated identifiers, no entry but row `i` bears the
/// identifier of row `i`.
pub proof fn lemma_entry_row_alone(db: StoreView, i: int)
    requires
        db.entry_ids_unique(),
        0 <= i < db.entries.len(),
    ensures
        forall|k: int|
            0 <= k < db.entries.len() && k != i ==> (#[trigger] db.entries[k]).id
                != db.entries[i].id,
{
    assert forall|k: int| 0 <= k < db.entries.len() && k != i implies (
    #[trigger] db.entries[k]).id != db.entries[i].id by {
        if k < i {
            assert(db.entries[k].id != db.entries[i].id);
        } else {
            assert(db.entries[i].id != db.entries[k].id);
        }
    }
}

/// In a well-formed store an entry has at most one version of a given number:
/// looking it up by the entry and number of row `i` finds row `i`.
pub proof fn lemma_version_lookup(db: StoreView, i: int)
    requires
        db.ledgers_contiguous(),
        0 <= i < db.versions.len(),
    ensures
        db.has_version(db.versions[i].entry_id, db.versions[i].version_number),
        db.version_index(db.versions[i].entry_id, db.versions[i].version_number) == i,
        db.version(db.versions[i].entry_id, db.versions[i].version_number) == db.versions[i],
{
    let e = db.versions[i].entry_id;
    let n = db.versions[i].version_number;
    assert(db.is_version(i, e, n));
    let j = db.version_index(e, n);
    assert(db.is_version(j, e, n));
    if j < i {
        assert(db.versions[j].version_number < db.versions[i].version_number);
    } else if i < j {
        assert(db.versions[i].version_number < db.versions[j].version_number);
    }
}

/// In a well-formed store the version of an entry with the greatest number
/// is the one that bears the number of the entry's head.
pub proof fn lemma_latest_is_head(db: StoreView, i: int, entry_id: Seq<char>)
    requires
        db.wf(),
        db.is_latest_version(i, entry_id),
    ensures
        db.has_entry(entry_id),
        db.entry(entry_id).version_head >= 1,
        db.versions[i].version_number == db.entry(entry_id).version_head,
        db.version(entry_id, db.entry(entry_id).version_head) == db.versions[i],
{
    assert(db.has_entry(db.versions[i].entry_id));
    let e = db.entry_index(entry_id);
    let head = db.entries[e].version_head;
    assert(1 <= db.versions[i].version_number <= head);
    assert(db.has_version(db.entries[e].id, head));
    let j = db.version_index(entry_id, head);
    assert(db.is_version(j, entry_id, head));
    assert(db.versions[j].version_number <= db.versions[i].version_number);
    lemma_version_lookup(db, i);
}

/// In a well-formed store an entry whose head is not 0 has a version.
pub proof fn lemma_head_has_version(db: StoreView, entry_id: Seq<char>)
    requires
        db.wf(),
        db.has_entry(entry_id),
        db.entry(entry_id).version_head >= 1,
    ensures
        db.has_versions_of(entry_id),
{
    let e = db.entry_index(entry_id);
    assert(db.has_version(db.entries[e].id, db.entries[e].version_head));
    let j = db.version_index(entry_id, db.entries[e].version_head);
    assert(db.is_version(j, entry_id, db.entries[e].version_head));
    assert(db.versions[j].entry_id == entry_id);
}

/// Two stream tables hold the same identifiers, row by row, and no stream of
/// the second remembers a lower sequence number than it does in the first.
pub open spec fn same_stream_keys(a: Seq<StreamView>, b: Seq<StreamView>) -> bool {
    &&& a.len() == b.len()
    &&& forall|i: int|
        0 <= i < a.len() ==> (#[trigger] a[i]).id == b[i].id && a[i].last_sequence_id
            <= b[i].last_sequence_id
}

/// Two entry tables agree, row by row, on everything that well-formedness
/// reads: identifier, stream, sequence number and head.
pub open spec fn same_entry_keys(a: Seq<EntryView>, b: Seq<EntryView>) -> bool {
    &&& a.len() == b.len()
    &&& forall|i: int|
        0 <= i < a.len() ==> (#[trigger] a[i]).id == b[i].id && a[i].stream_id == b[i].stream_id
            && a[i].sequence_id == b[i].sequence_id && a[i].version_head == b[i].version_head
}

/// Changing rows without touching what well-formedness reads keeps the store
/// well-formed.
pub proof fn lemma_rekeyed_wf(db: StoreView, after: StoreView)
    requires
        db.wf(),
        same_stream_keys(db.streams, after.streams),
        same_entry_keys(db.entries, after.entries),
        after.versions == db.versions,
        after.pending_blocks == db.pending_blocks,
    ensures
        after.wf(),
        forall|id: Seq<char>| db.has_stream(id) == after.has_stream(id),
        forall|id: Seq<char>| db.has_entry(id) == after.has_entry(id),
{
    assert forall|id: Seq<char>| db.has_stream(id) == after.has_stream(id) by {
        if db.has_stream(id) {
            let i = db.stream_index(id);
            assert(db.streams[i].id == id);
            assert(after.streams[i].id == id);
        }
        if after.has_stream(id) {
            let i = after.stream_index(id);
            assert(after.streams[i].id == id);
            assert(db.streams[i].id == id);
        }
    }
    assert forall|id: Seq<char>| db.has_entry(id) == after.has_entry(id) by {
        if db.has_entry(id) {
            let i = db.entry_index(id);
            assert(db.entries[i].id == id);
            assert(after.entries[i].id == id);
        }
        if after.has_entry(id) {
            let i = after.entry_index(id);
            assert(after.entries[i].id == id);
            assert(db.entries[i].id == id);
        }
    }
    assert(after.ids_unique()) by {
        assert forall|i: int, j: int| 0 <= i < j < after.streams.len() implies (
        #[trigger] after.streams[i]).id != (#[trigger] after.streams[j]).id by {
            assert(db.streams[i].id != db.streams[j].id);
        }
        assert forall|i: int, j: int| 0 <= i < j < after.entries.len() implies (
        #[trigger] after.entries[i]).id != (#[trigger] after.entries[j]).id by {
            assert(db.entries[i].id != db.entries[j].id);
        }
    }
    assert(after.references_hold()) by {
        assert forall|i: int| 0 <= i < after.entries.len() implies after.has_stream(
            (#[trigger] after.entries[i]).stream_id,
        ) by {
            assert(db.has_stream(db.entries[i].stream_id));
        }
        assert forall|i: int| 0 <= i < after.versions.len() implies after.has_entry(
            (#[trigger] after.versions[i]).entry_id,
        ) by {
            assert(db.has_entry(db.versions[i].entry_id));
        }
        assert forall|i: int| 0 <= i < after.pending_blocks.len() implies after.has_stream(
            (#[trigger] after.pending_blocks[i]).stream_id,
        ) by {
            assert(db.has_stream(db.pending_blocks[i].stream_id));
        }
    }
    assert(after.sequences_remembered()) by {
        assert forall|k: int| 0 <= k < after.streams.len() implies (
        #[trigger] after.streams[k]).last_sequence_id >= 0 by {
            assert(db.streams[k].last_sequence_id >= 0);
        }
        assert forall|e: int, k: int|
            0 <= e < after.entries.len() && 0 <= k < after.streams.len() && (
            #[trigger] after.entries[e]).stream_id == (#[trigger] after.streams[k]).id implies
            after.entries[e].sequence_id <= after.streams[k].last_sequence_id by {
            assert(db.entries[e].stream_id == db.streams[k].id);
        }
    }
    assert(after.sequences_ordered()) by {
        assert forall|i: int| 0 <= i < after.entries.len() implies (
        #[trigger] after.entries[i]).sequence_id >= 1 by {
            assert(db.entries[i].sequence_id >= 1);
        }
        assert forall|i: int, j: int|
            0 <= i < j < after.entries.len() && (#[trigger] after.entries[i]).stream_id == (
            #[trigger] after.entries[j]).stream_id implies after.entries[i].sequence_id
            < after.entries[j].sequence_id by {
            assert(db.entries[i].stream_id == db.entries[j].stream_id);
        }
    }
    assert(after.ledgers_contiguous()) by {
        assert forall|e: int| 0 <= e < after.entries.len() implies (
        #[trigger] after.entries[e]).version_head >= 0 by {
            assert(db.entries[e].version_head >= 0);
        }
        assert forall|i: int, e: int|
            0 <= i < after.versions.len() && 0 <= e < after.entries.len() && (
            #[trigger] after.versions[i]).entry_id == (#[trigger] after.entries[e]).id implies 1
            <= after.versions[i].version_number <= after.entries[e].version_head by {
            assert(db.versions[i].entry_id == db.entries[e].id);
        }
        assert forall|e: int, n: int|
            0 <= e < after.entries.len() && 1 <= n
                <= after.entries[e].version_head implies #[trigger] after.has_version(
            after.entries[e].id,
            n,
        ) by {
            assert(db.has_version(db.entries[e].id, n));
            let i = db.version_index(db.entries[e].id, n);
            assert(db.is_version(i, db.entries[e].id, n));
            assert(after.is_version(i, after.entries[e].id, n));
        }
    }
}

/// A new stream under an unused identifier keeps the store well-formed.
pub proof fn lemma_insert_stream_wf(db: StoreView, s: StreamView)
    requires
        db.wf(),
        !db.has_stream(s.id),
        s.last_sequence_id >= 0,
    ensures
        db.insert_stream(s).wf(),
{
    let after = db.insert_stream(s);
    assert(after.sequences_remembered()) by {
        assert forall|k: int| 0 <= k < after.streams.len() implies (
        #[trigger] after.streams[k]).last_sequence_id >= 0 by {
            if k < db.streams.len() {
                assert(db.streams[k].last_sequence_id >= 0);
            }
        }
        assert forall|e: int, k: int|
            0 <= e < after.entries.len() && 0 <= k < after.streams.len() && (
            #[trigger] after.entries[e]).stream_id == (#[trigger] after.streams[k]).id implies
            after.entries[e].sequence_id <= after.streams[k].last_sequence_id by {
            if k < db.streams.len() {
                assert(db.entries[e].stream_id == db.streams[k].id);
            } else {
                assert(db.has_stream(db.entries[e].stream_id));
            }
        }
    }
    assert forall|id: Seq<char>| db.has_stream(id) implies after.has_stream(id) by {
        let i = db.stream_index(id);
        assert(after.streams[i].id == id);
    }
    assert(after.ids_unique()) by {
        assert forall|i: int, j: int| 0 <= i < j < after.streams.len() implies (
        #[trigger] after.streams[i]).id != (#[trigger] after.streams[j]).id by {
            if j == db.streams.len() {
                assert(db.streams[i].id != s.id);
            } else {
                assert(db.streams[i].id != db.streams[j].id);
            }
        }
    }
    assert(after.references_hold()) by {
        assert forall|i: int| 0 <= i < after.entries.len() implies after.has_stream(
            (#[trigger] after.entries[i]).stream_id,
        ) by {
            assert(db.has_stream(db.entries[i].stream_id));
        }
        assert forall|i: int| 0 <= i < after.pending_blocks.len() implies after.has_stream(
            (#[trigger] after.pending_blocks[i]).stream_id,
        ) by {
            assert(db.has_stream(db.pending_blocks[i].stream_id));
        }
    }
    assert(after.ledgers_contiguous()) by {
        assert forall|e: int, n: int|
            0 <= e < after.entries.len() && 1 <= n
                <= after.entries[e].version_head implies #[trigger] after.has_version(
            after.entries[e].id,
            n,
        ) by {
            assert(db.has_version(db.entries[e].id, n));
            let i = db.version_index(db.entries[e].id, n);
            assert(db.is_version(i, db.entries[e].id, n));
            assert(after.is_version(i, after.entries[e].id, n));
        }
    }
}

/// A new pending block under an unused identifier, for a stream of the store,
/// keeps the store well-formed.
pub proof fn lemma_insert_pending_block_wf(db: StoreView, p: PendingBlockView)
    requires
        db.wf(),
        !db.has_pending_block(p.id),
        db.has_stream(p.stream_id),
    ensures
        db.insert_pending_block(p).wf(),
{
    let after = db.insert_pending_block(p);
    assert(after.ids_unique()) by {
        assert forall|i: int, j: int| 0 <= i < j < after.pending_blocks.len() implies (
        #[trigger] after.pending_blocks[i]).id != (#[trigger] after.pending_blocks[j]).id by {
            if j == db.pending_blocks.len() {
                assert(db.pending_blocks[i].id != p.id);
            } else {
                assert(db.pending_blocks[i].id != db.pending_blocks[j].id);
            }
        }
    }
    assert(after.references_hold()) by {
        assert forall|i: int| 0 <= i < after.pending_blocks.len() implies after.has_stream(
            (#[trigger] after.pending_blocks[i]).stream_id,
        ) by {
            if i < db.pending_blocks.len() {
                assert(db.has_stream(db.pending_blocks[i].stream_id));
            }
        }
    }
    assert(after.ledgers_contiguous()) by {
        assert forall|e: int, n: int|
            0 <= e < after.entries.len() && 1 <= n
                <= after.entries[e].version_head implies #[trigger] after.has_version(
            after.entries[e].id,
            n,
        ) by {
            assert(db.has_version(db.entries[e].id, n));
            let i = db.version_index(db.entries[e].id, n);
            assert(db.is_version(i, db.entries[e].id, n));
            assert(after.is_version(i, after.entries[e].id, n));
        }
    }
}

/// A new entry under an unused identifier, in a stream of the store, with the
/// stream's next sequence number and no version, keeps the store well-formed.
pub proof fn lemma_insert_entry_wf(db: StoreView, e: EntryView, now: int)
    requires
        db.wf(),
        !db.has_entry(e.id),
        db.has_stream(e.stream_id),
        e.sequence_id == db.last_sequence(e.stream_id) + 1,
        e.version_head == 0,
    ensures
        db.insert_entry(e, now).wf(),
{
    let mid = StoreView {
        streams: record_entry(db.streams, e.stream_id, e.sequence_id, now),
        ..db
    };
    let home = db.stream_index(e.stream_id);
    lemma_stream_lookup(db, home);
    assert(same_stream_keys(db.streams, mid.streams)) by {
        assert forall|i: int| 0 <= i < db.streams.len() implies (#[trigger] db.streams[i]).id
            == mid.streams[i].id && db.streams[i].last_sequence_id
            <= mid.streams[i].last_sequence_id by {
            if db.streams[i].id == e.stream_id {
                if i < home {
                    assert(db.streams[i].id != db.streams[home].id);
                } else if home < i {
                    assert(db.streams[home].id != db.streams[i].id);
                }
            }
        }
    }
    lemma_rekeyed_wf(db, mid);
    let after = db.insert_entry(e, now);
    assert(after.sequences_remembered()) by {
        assert forall|k: int| 0 <= k < after.streams.len() implies (
        #[trigger] after.streams[k]).last_sequence_id >= 0 by {
            assert(mid.streams[k].last_sequence_id >= 0);
        }
        assert forall|x: int, k: int|
            0 <= x < after.entries.len() && 0 <= k < after.streams.len() && (
            #[trigger] after.entries[x]).stream_id == (#[trigger] after.streams[k]).id implies
            after.entries[x].sequence_id <= after.streams[k].last_sequence_id by {
            if x < db.entries.len() {
                assert(mid.entries[x].stream_id == mid.streams[k].id);
            } else {
                assert(db.streams[k].id == e.stream_id);
            }
        }
    }
    assert(after.ids_unique()) by {
        assert forall|i: int, j: int| 0 <= i < j < after.entries.len() implies (
        #[trigger] after.entries[i]).id != (#[trigger] after.entries[j]).id by {
            if j == db.entries.len() {
                assert(db.entries[i].id != e.id);
            } else {
                assert(mid.entries[i].id != mid.entries[j].id);
            }
        }
    }
    assert(after.references_hold()) by {
        assert forall|i: int| 0 <= i < after.entries.len() implies after.has_stream(
            (#[trigger] after.entries[i]).stream_id,
        ) by {
            if i < db.entries.len() {
                assert(mid.has_stream(mid.entries[i].stream_id));
            } else {
                assert(mid.has_stream(e.stream_id));
            }
        }
        assert forall|i: int| 0 <= i < after.versions.len() implies after.has_entry(
            (#[trigger] after.versions[i]).entry_id,
        ) by {
            assert(db.has_entry(db.versions[i].entry_id));
            let k = db.entry_index(db.versions[i].entry_id);
            assert(after.entries[k].id == db.versions[i].entry_id);
        }
        assert forall|i: int| 0 <= i < after.pending_blocks.len() implies after.has_stream(
            (#[trigger] after.pending_blocks[i]).stream_id,
        ) by {
            assert(mid.has_stream(mid.pending_blocks[i].stream_id));
        }
    }
    assert(after.sequences_ordered()) by {
        assert forall|i: int| 0 <= i < after.entries.len() implies (
        #[trigger] after.entries[i]).sequence_id >= 1 by {
            if i < db.entries.len() {
                assert(db.entries[i].sequence_id >= 1);
            }
        }
        assert forall|i: int, j: int|
            0 <= i < j < after.entries.len() && (#[trigger] after.entries[i]).stream_id == (
            #[trigger] after.entries[j]).stream_id implies after.entries[i].sequence_id
            < after.entries[j].sequence_id by {
            if j == db.entries.len() {
                assert(db.entries[i].stream_id == db.streams[home].id);
                assert(db.entries[i].sequence_id <= db.streams[home].last_sequence_id);
            } else {
                assert(db.entries[i].stream_id == db.entries[j].stream_id);
            }
        }
    }
    assert(after.ledgers_contiguous()) by {
        assert forall|k: int| 0 <= k < after.entries.len() implies (
        #[trigger] after.entries[k]).version_head >= 0 by {
            if k < db.entries.len() {
                assert(db.entries[k].version_head >= 0);
            }
        }
        assert forall|i: int, k: int|
            0 <= i < after.versions.len() && 0 <= k < after.entries.len() && (
            #[trigger] after.versions[i]).entry_id == (#[trigger] after.entries[k]).id implies 1
            <= after.versions[i].version_number <= after.entries[k].version_head by {
            if k < db.entries.len() {
                assert(db.versions[i].entry_id == db.entries[k].id);
            } else {
                assert(db.has_entry(db.versions[i].entry_id));
            }
        }
        assert forall|k: int, n: int|
            0 <= k < after.entries.len() && 1 <= n
                <= after.entries[k].version_head implies #[trigger] after.has_version(
            after.entries[k].id,
            n,
        ) by {
            assert(k < db.entries.len());
            assert(db.has_version(db.entries[k].id, n));
            let i = db.version_index(db.entries[k].id, n);
            assert(db.is_version(i, db.entries[k].id, n));
            assert(after.is_version(i, after.entries[k].id, n));
        }
    }
}

/// A commit keeps what the numbering of versions rests on, whatever the new
/// version is called, and moves the head of the entry up by one.
pub proof fn lemma_commit_numbered(
    db: StoreView,
    entry_id: Seq<char>,
    version_id: Seq<char>,
    message: Option<Seq<char>>,
    now: int,
)
    requires
        db.numbered(),
        db.has_entry(entry_id),
    ensures
        db.commit(entry_id, version_id, message, now).numbered(),
        db.commit(entry_id, version_id, message, now).has_entry(entry_id),
        db.commit(entry_id, version_id, message, now).entry(entry_id).version_head == db.entry(
            entry_id,
        ).version_head + 1,
{
    let after = db.commit(entry_id, version_id, message, now);
    let x = db.entry_index(entry_id);
    lemma_entry_lookup(db, x);
    let v = db.next_version(entry_id, version_id, message, now);
    let head = db.entries[x].version_head;
    assert(v.version_number == head + 1);
    assert(after.entries[x].id == entry_id);
    assert(after.entries[x].version_head == head + 1);
    assert forall|id: Seq<char>| db.has_stream(id) implies after.has_stream(id) by {
        let i = db.stream_index(id);
        assert(after.streams[i].id == id);
    }
    assert forall|id: Seq<char>| db.has_entry(id) implies after.has_entry(id) by {
        let i = db.entry_index(id);
        assert(after.entries[i].id == id);
    }
    assert(after.stream_ids_unique() && after.entry_ids_unique()) by {
        assert forall|i: int, j: int| 0 <= i < j < after.streams.len() implies (
        #[trigger] after.streams[i]).id != (#[trigger] after.streams[j]).id by {
            assert(db.streams[i].id != db.streams[j].id);
        }
        assert forall|i: int, j: int| 0 <= i < j < after.entries.len() implies (
        #[trigger] after.entries[i]).id != (#[trigger] after.entries[j]).id by {
            assert(db.entries[i].id != db.entries[j].id);
        }
    }
    assert(after.references_hold()) by {
        assert forall|i: int| 0 <= i < after.entries.len() implies after.has_stream(
            (#[trigger] after.entries[i]).stream_id,
        ) by {
            assert(db.has_stream(db.entries[i].stream_id));
        }
        assert forall|i: int| 0 <= i < after.versions.len() implies after.has_entry(
            (#[trigger] after.versions[i]).entry_id,
        ) by {
            if i < db.versions.len() {
                assert(db.has_entry(db.versions[i].entry_id));
            }
        }
        assert forall|i: int| 0 <= i < after.pending_blocks.len() implies after.has_stream(
            (#[trigger] after.pending_blocks[i]).stream_id,
        ) by {
            assert(db.has_stream(db.pending_blocks[i].stream_id));
        }
    }
    assert(after.sequences_ordered()) by {
        assert forall|i: int| 0 <= i < after.entries.len() implies (
        #[trigger] after.entries[i]).sequence_id >= 1 by {
            assert(db.entries[i].sequence_id >= 1);
        }
        assert forall|i: int, j: int|
            0 <= i < j < after.entries.len() && (#[trigger] after.entries[i]).stream_id == (
            #[trigger] after.entries[j]).stream_id implies after.entries[i].sequence_id
            < after.entries[j].sequence_id by {
            assert(db.entries[i].stream_id == db.entries[j].stream_id);
        }
    }
    assert(after.ledgers_contiguous()) by {
        assert forall|e: int| 0 <= e < after.entries.len() implies (
        #[trigger] after.entries[e]).version_head >= 0 by {
            assert(db.entries[e].version_head >= 0);
        }
        assert forall|i: int, e: int|
            0 <= i < after.versions.len() && 0 <= e < after.entries.len() && (
            #[trigger] after.versions[i]).entry_id == (#[trigger] after.entries[e]).id implies 1
            <= after.versions[i].version_number <= after.entries[e].version_head by {
            if i < db.versions.len() {
                assert(db.versions[i].entry_id == db.entries[e].id);
            } else {
                if e != x {
                    if e < x {
                        assert(db.entries[e].id != db.entries[x].id);
                    } else {
                        assert(db.entries[x].id != db.entries[e].id);
                    }
                }
            }
        }
        assert forall|i: int, j: int|
            0 <= i < j < after.versions.len() && (#[trigger] after.versions[i]).entry_id == (
            #[trigger] after.versions[j]).entry_id implies after.versions[i].version_number
            < after.versions[j].version_number by {
            if j == db.versions.len() {
                assert(db.versions[i].entry_id == db.entries[x].id);
            } else {
                assert(db.versions[i].entry_id == db.versions[j].entry_id);
            }
        }
        assert forall|e: int, n: int|
            0 <= e < after.entries.len() && 1 <= n
                <= after.entries[e].version_head implies #[trigger] after.has_version(
            after.entries[e].id,
            n,
        ) by {
            if e == x && n == head + 1 {
                assert(after.is_version(db.versions.len() as int, entry_id, n));
            } else {
                assert(db.has_version(db.entries[e].id, n));
                let i = db.version_index(db.entries[e].id, n);
                assert(db.is_version(i, db.entries[e].id, n));
                assert(after.is_version(i, after.entries[e].id, n));
            }
        }
    }
    lemma_entry_lookup(after, x);
}

/// A commit under an unused version identifier keeps the store well-formed.
pub proof fn lemma_commit_wf(
    db: StoreView,
    entry_id: Seq<char>,
    version_id: Seq<char>,
    message: Option<Seq<char>>,
    now: int,
)
    requires
        db.wf(),
        db.has_entry(entry_id),
        !db.has_version_id(version_id),
    ensures
        db.commit(entry_id, version_id, message, now).wf(),
        db.commit(entry_id, version_id, message, now).has_entry(entry_id),
        db.commit(entry_id, version_id, message, now).entry(entry_id).version_head == db.entry(
            entry_id,
        ).version_head + 1,
{
    let after = db.commit(entry_id, version_id, message, now);
    lemma_commit_numbered(db, entry_id, version_id, message, now);
    assert(after.version_ids_unique()) by {
        assert forall|i: int, j: int| 0 <= i < j < after.versions.len() implies (
        #[trigger] after.versions[i]).id != (#[trigger] after.versions[j]).id by {
            if j == db.versions.len() {
                assert(db.versions[i].id != version_id);
            } else {
                assert(db.versions[i].id != db.versions[j].id);
            }
        }
    }
}

/// Deleting a pending block keeps the store well-formed.
pub proof fn lemma_delete_pending_block_wf(db: StoreView, id: Seq<char>)
    requires
        db.wf(),
    ensures
        db.delete_pending_block(id).wf(),
        !db.delete_pending_block(id).has_pending_block(id),
{
    let after = db.delete_pending_block(id);
    let keep = |p: PendingBlockView| p.id != id;
    lemma_filter_contains(db.pending_blocks, keep);
    lemma_filter_pairwise(
        db.pending_blocks,
        keep,
        |a: PendingBlockView, b: PendingBlockView| a.id != b.id,
    );
    assert(after.references_hold()) by {
        assert forall|i: int| 0 <= i < after.pending_blocks.len() implies after.has_stream(
            (#[trigger] after.pending_blocks[i]).stream_id,
        ) by {
            let row = after.pending_blocks[i];
            assert(after.pending_blocks.contains(row));
            assert(db.pending_blocks.contains(row));
            let k = choose|k: int| 0 <= k < db.pending_blocks.len() && db.pending_blocks[k] == row;
            assert(db.has_stream(db.pending_blocks[k].stream_id));
        }
    }
    assert(after.ledgers_contiguous()) by {
        assert forall|e: int, n: int|
            0 <= e < after.entries.len() && 1 <= n
                <= after.entries[e].version_head implies #[trigger] after.has_version(
            after.entries[e].id,
            n,
        ) by {
            assert(db.has_version(db.entries[e].id, n));
            let i = db.version_index(db.entries[e].id, n);
            assert(db.is_version(i, db.entries[e].id, n));
            assert(after.is_version(i, after.entries[e].id, n));
        }
    }
    if after.has_pending_block(id) {
        let i = choose|i: int|
            0 <= i < after.pending_blocks.len() && #[trigger] after.pending_blocks[i].id == id;
        assert(after.pending_blocks.contains(after.pending_blocks[i]));
    }
}

/// Deleting an entry, and its versions with it, keeps the store well-formed.
pub proof fn lemma_delete_entry_wf(db: StoreView, entry_id: Seq<char>)
    requires
        db.wf(),
    ensures
        db.delete_entry(entry_id).wf(),
        !db.delete_entry(entry_id).has_entry(entry_id),
{
    let after = db.delete_entry(entry_id);
    let keep_e = |e: EntryView| e.id != entry_id;
    let keep_v = |v: EntryVersionView| v.entry_id != entry_id;
    lemma_filter_contains(db.entries, keep_e);
    lemma_filter_contains(db.versions, keep_v);
    lemma_filter_pairwise(db.entries, keep_e, |a: EntryView, b: EntryView| a.id != b.id);
    lemma_filter_pairwise(
        db.entries,
        keep_e,
        |a: EntryView, b: EntryView| a.stream_id == b.stream_id ==> a.sequence_id < b.sequence_id,
    );
    lemma_filter_pairwise(
        db.versions,
        keep_v,
        |a: EntryVersionView, b: EntryVersionView| a.id != b.id,
    );
    lemma_filter_pairwise(
        db.versions,
        keep_v,
        |a: EntryVersionView, b: EntryVersionView|
            a.entry_id == b.entry_id ==> a.version_number < b.version_number,
    );
    assert forall|i: int| 0 <= i < after.entries.len() implies exists|k: int|
        0 <= k < db.entries.len() && db.entries[k] == #[trigger] after.entries[i] by {
        assert(after.entries.contains(after.entries[i]));
        assert(db.entries.contains(after.entries[i]));
    }
    assert forall|i: int| 0 <= i < after.versions.len() implies exists|k: int|
        0 <= k < db.versions.len() && db.versions[k] == #[trigger] after.versions[i] by {
        assert(after.versions.contains(after.versions[i]));
        assert(db.versions.contains(after.versions[i]));
    }
    assert(after.references_hold()) by {
        assert forall|i: int| 0 <= i < after.entries.len() implies after.has_stream(
            (#[trigger] after.entries[i]).stream_id,
        ) by {
            let k = choose|k: int| 0 <= k < db.entries.len() && db.entries[k] == after.entries[i];
            assert(db.has_stream(db.entries[k].stream_id));
        }
        assert forall|i: int| 0 <= i < after.versions.len() implies after.has_entry(
            (#[trigger] after.versions[i]).entry_id,
        ) by {
            let row = after.versions[i];
            assert(after.versions.contains(row));
            let k = choose|k: int| 0 <= k < db.versions.len() && db.versions[k] == row;
            assert(db.has_entry(db.versions[k].entry_id));
            let e = db.entry_index(row.entry_id);
            assert(db.entries[e].id == row.entry_id);
            assert(db.entries.contains(db.entries[e]));
            assert(after.entries.contains(db.entries[e]));
            let j = choose|j: int| 0 <= j < after.entries.len() && after.entries[j] == db.entries[e];
            assert(after.entries[j].id == row.entry_id);
        }
    }
    assert(after.sequences_ordered()) by {
        assert forall|i: int| 0 <= i < after.entries.len() implies (
        #[trigger] after.entries[i]).sequence_id >= 1 by {
            let k = choose|k: int| 0 <= k < db.entries.len() && db.entries[k] == after.entries[i];
            assert(db.entries[k].sequence_id >= 1);
        }
    }
    assert(after.ledgers_contiguous()) by {
        assert forall|e: int| 0 <= e < after.entries.len() implies (
        #[trigger] after.entries[e]).version_head >= 0 by {
            let k = choose|k: int| 0 <= k < db.entries.len() && db.entries[k] == after.entries[e];
            assert(db.entries[k].version_head >= 0);
        }
        assert forall|i: int, e: int|
            0 <= i < after.versions.len() && 0 <= e < after.entries.len() && (
            #[trigger] after.versions[i]).entry_id == (#[trigger] after.entries[e]).id implies 1
            <= after.versions[i].version_number <= after.entries[e].version_head by {
            let k = choose|k: int| 0 <= k < db.entries.len() && db.entries[k] == after.entries[e];
            let m = choose|m: int| 0 <= m < db.versions.len() && db.versions[m] == after.versions[i];
            assert(db.versions[m].entry_id == db.entries[k].id);
        }
        assert forall|e: int, n: int|
            0 <= e < after.entries.len() && 1 <= n
                <= after.entries[e].version_head implies #[trigger] after.has_version(
            after.entries[e].id,
            n,
        ) by {
            let row = after.entries[e];
            assert(after.entries.contains(row));
            let k = choose|k: int| 0 <= k < db.entries.len() && db.entries[k] == row;
            assert(db.has_version(db.entries[k].id, n));
            let i = db.version_index(row.id, n);
            assert(db.is_version(i, row.id, n));
            assert(db.versions.contains(db.versions[i]));
            assert(after.versions.contains(db.versions[i]));
            let j = choose|j: int|
                0 <= j < after.versions.len() && after.versions[j] == db.versions[i];
            assert(after.is_version(j, row.id, n));
        }
    }
    if after.has_entry(entry_id) {
        let i = choose|i: int| 0 <= i < after.entries.len() && #[trigger] after.entries[i].id == entry_id;
        assert(after.entries.contains(after.entries[i]));
    }
}

/// Deleting a stream, and with it its entries, their versions and its pending
/// blocks, keeps the store well-formed.
pub proof fn lemma_delete_stream_wf(db: StoreView, stream_id: Seq<char>)
    requires
        db.wf(),
    ensures
        db.delete_stream(stream_id).wf(),
        !db.delete_stream(stream_id).has_stream(stream_id),
{
    let after = db.delete_stream(stream_id);
    let keep_s = |s: StreamView| s.id != stream_id;
    let keep_e = |e: EntryView| e.stream_id != stream_id;
    let keep_v = |v: EntryVersionView| !db.entry_in_stream(v.entry_id, stream_id);
    let keep_p = |p: PendingBlockView| p.stream_id != stream_id;
    lemma_filter_contains(db.streams, keep_s);
    lemma_filter_contains(db.entries, keep_e);
    lemma_filter_contains(db.versions, keep_v);
    lemma_filter_contains(db.pending_blocks, keep_p);
    lemma_filter_pairwise(db.streams, keep_s, |a: StreamView, b: StreamView| a.id != b.id);
    lemma_filter_pairwise(db.entries, keep_e, |a: EntryView, b: EntryView| a.id != b.id);
    lemma_filter_pairwise(
        db.entries,
        keep_e,
        |a: EntryView, b: EntryView| a.stream_id == b.stream_id ==> a.sequence_id < b.sequence_id,
    );
    lemma_filter_pairwise(
        db.versions,
        keep_v,
        |a: EntryVersionView, b: EntryVersionView| a.id != b.id,
    );
    lemma_filter_pairwise(
        db.versions,
        keep_v,
        |a: EntryVersionView, b: EntryVersionView|
            a.entry_id == b.entry_id ==> a.version_number < b.version_number,
    );
    lemma_filter_pairwise(
        db.pending_blocks,
        keep_p,
        |a: PendingBlockView, b: PendingBlockView| a.id != b.id,
    );
    assert forall|i: int| 0 <= i < after.entries.len() implies exists|k: int|
        0 <= k < db.entries.len() && db.entries[k] == #[trigger] after.entries[i] by {
        assert(after.entries.contains(after.entries[i]));
        assert(db.entries.contains(after.entries[i]));
    }
    assert forall|i: int| 0 <= i < after.versions.len() implies exists|k: int|
        0 <= k < db.versions.len() && db.versions[k] == #[trigger] after.versions[i] by {
        assert(after.versions.contains(after.versions[i]));
        assert(db.versions.contains(after.versions[i]));
    }
    // a stream other than the deleted one stays
    assert forall|id: Seq<char>| id != stream_id && db.has_stream(id) implies after.has_stream(
        id,
    ) by {
        let k = db.stream_index(id);
        assert(db.streams[k].id == id);
        assert(db.streams.contains(db.streams[k]));
        assert(after.streams.contains(db.streams[k]));
        let j = choose|j: int| 0 <= j < after.streams.len() && after.streams[j] == db.streams[k];
        assert(after.streams[j].id == id);
    }
    assert(after.references_hold()) by {
        assert forall|i: int| 0 <= i < after.entries.len() implies after.has_stream(
            (#[trigger] after.entries[i]).stream_id,
        ) by {
            let row = after.entries[i];
            assert(after.entries.contains(row));
            let k = choose|k: int| 0 <= k < db.entries.len() && db.entries[k] == row;
            assert(db.has_stream(db.entries[k].stream_id));
        }
        assert forall|i: int| 0 <= i < after.pending_blocks.len() implies after.has_stream(
            (#[trigger] after.pending_blocks[i]).stream_id,
        ) by {
            let row = after.pending_blocks[i];
            assert(after.pending_blocks.contains(row));
            assert(db.pending_blocks.contains(row));
            let k = choose|k: int| 0 <= k < db.pending_blocks.len() && db.pending_blocks[k] == row;
            assert(db.has_stream(db.pending_blocks[k].stream_id));
        }
        assert forall|i: int| 0 <= i < after.versions.len() implies after.has_entry(
            (#[trigger] after.versions[i]).entry_id,
        ) by {
            let row = after.versions[i];
            assert(after.versions.contains(row));
            let k = choose|k: int| 0 <= k < db.versions.len() && db.versions[k] == row;
            assert(db.has_entry(db.versions[k].entry_id));
            let e = db.entry_index(row.entry_id);
            assert(db.entries[e].id == row.entry_id);
            assert(!db.entry_in_stream(row.entry_id, stream_id));
            assert(db.entries[e].stream_id != stream_id);
            assert(db.entries.contains(db.entries[e]));
            assert(after.entries.contains(db.entries[e]));
            let j = choose|j: int| 0 <= j < after.entries.len() && after.entries[j] == db.entries[e];
            assert(after.entries[j].id == row.entry_id);
        }
    }
    assert(after.sequences_remembered()) by {
        assert forall|k: int| 0 <= k < after.streams.len() implies (
        #[trigger] after.streams[k]).last_sequence_id >= 0 by {
            assert(after.streams.contains(after.streams[k]));
            let m = choose|m: int| 0 <= m < db.streams.len() && db.streams[m] == after.streams[k];
            assert(db.streams[m].last_sequence_id >= 0);
        }
        assert forall|e: int, k: int|
            0 <= e < after.entries.len() && 0 <= k < after.streams.len() && (
            #[trigger] after.entries[e]).stream_id == (#[trigger] after.streams[k]).id implies
            after.entries[e].sequence_id <= after.streams[k].last_sequence_id by {
            assert(after.streams.contains(after.streams[k]));
            assert(after.entries.contains(after.entries[e]));
            let m = choose|m: int| 0 <= m < db.streams.len() && db.streams[m] == after.streams[k];
            let x = choose|x: int| 0 <= x < db.entries.len() && db.entries[x] == after.entries[e];
            assert(db.entries[x].stream_id == db.streams[m].id);
        }
    }
    assert(after.sequences_ordered()) by {
        assert forall|i: int| 0 <= i < after.entries.len() implies (
        #[trigger] after.entries[i]).sequence_id >= 1 by {
            let k = choose|k: int| 0 <= k < db.entries.len() && db.entries[k] == after.entries[i];
            assert(db.entries[k].sequence_id >= 1);
        }
    }
    assert(after.ledgers_contiguous()) by {
        assert forall|e: int| 0 <= e < after.entries.len() implies (
        #[trigger] after.entries[e]).version_head >= 0 by {
            let k = choose|k: int| 0 <= k < db.entries.len() && db.entries[k] == after.entries[e];
            assert(db.entries[k].version_head >= 0);
        }
        assert forall|i: int, e: int|
            0 <= i < after.versions.len() && 0 <= e < after.entries.len() && (
            #[trigger] after.versions[i]).entry_id == (#[trigger] after.entries[e]).id implies 1
            <= after.versions[i].version_number <= after.entries[e].version_head by {
            let k = choose|k: int| 0 <= k < db.entries.len() && db.entries[k] == after.entries[e];
            let m = choose|m: int| 0 <= m < db.versions.len() && db.versions[m] == after.versions[i];
            assert(db.versions[m].entry_id == db.entries[k].id);
        }
        assert forall|e: int, n: int|
            0 <= e < after.entries.len() && 1 <= n
                <= after.entries[e].version_head implies #[trigger] after.has_version(
            after.entries[e].id,
            n,
        ) by {
            let row = after.entries[e];
            assert(after.entries.contains(row));
            let k = choose|k: int| 0 <= k < db.entries.len() && db.entries[k] == row;
            lemma_entry_lookup(db, k);
            assert(db.has_version(db.entries[k].id, n));
            let i = db.version_index(row.id, n);
            assert(db.is_version(i, row.id, n));
            assert(!db.entry_in_stream(row.id, stream_id)) by {
                if db.entry_in_stream(row.id, stream_id) {
                    let w = choose|w: int|
                        0 <= w < db.entries.len() && (#[trigger] db.entries[w]).id == row.id
                            && db.entries[w].stream_id == stream_id;
                    if w < k {
                        assert(db.entries[w].id != db.entries[k].id);
                    } else if k < w {
                        assert(db.entries[k].id != db.entries[w].id);
                    }
                }
            }
            assert(db.versions.contains(db.versions[i]));
            assert(after.versions.contains(db.versions[i]));
            let j = choose|j: int|
                0 <= j < after.versions.len() && after.versions[j] == db.versions[i];
            assert(after.is_version(j, row.id, n));
        }
    }
    if after.has_stream(stream_id) {
        let i = choose|i: int| 0 <= i < after.streams.len() && #[trigger] after.streams[i].id == stream_id;
        assert(after.streams.contains(after.streams[i]));
    }
}

/// In a well-formed store the versions of entry row `e`, in commit order, are
/// numbered 1, 2, ..., head.
pub proof fn lemma_versions_numbered(db: StoreView, e: int)
    requires
        db.ledgers_contiguous(),
        0 <= e < db.entries.len(),
    ensures
        db.versions_of(db.entries[e].id).len() == db.entries[e].version_head,
        forall|k: int|
            0 <= k < db.versions_of(db.entries[e].id).len() ==> (#[trigger] db.versions_of(
                db.entries[e].id,
            )[k]).version_number == k + 1,
{
    let id = db.entries[e].id;
    let head = db.entries[e].version_head;
    let mine = |v: EntryVersionView| v.entry_id == id;
    let vs = db.versions_of(id);
    lemma_filter_contains(db.versions, mine);
    lemma_filter_pairwise(
        db.versions,
        mine,
        |a: EntryVersionView, b: EntryVersionView|
            a.entry_id == b.entry_id ==> a.version_number < b.version_number,
    );
    let numbers = vs.map_values(|v: EntryVersionView| v.version_number);
    assert forall|i: int, j: int| 0 <= i < j < numbers.len() implies #[trigger] numbers[i]
        < #[trigger] numbers[j] by {
        assert(vs.contains(vs[i]) && vs.contains(vs[j]));
        assert(vs[i].entry_id == vs[j].entry_id);
    }
    assert forall|i: int| 0 <= i < numbers.len() implies 1 <= #[trigger] numbers[i] <= head by {
        assert(vs.contains(vs[i]));
        assert(db.versions.contains(vs[i]));
        let m = choose|m: int| 0 <= m < db.versions.len() && db.versions[m] == vs[i];
        assert(db.versions[m].entry_id == db.entries[e].id);
    }
    assert forall|n: int| 1 <= n <= head implies #[trigger] numbers.contains(n) by {
        assert(db.has_version(db.entries[e].id, n));
        let m = db.version_index(id, n);
        assert(db.is_version(m, id, n));
        assert(db.versions.contains(db.versions[m]));
        assert(vs.contains(db.versions[m]));
        let k = choose|k: int| 0 <= k < vs.len() && vs[k] == db.versions[m];
        assert(numbers[k] == n);
    }
    lemma_growing_cover(numbers, head);
    assert forall|k: int| 0 <= k < vs.len() implies (#[trigger] vs[k]).version_number == k + 1 by {
        assert(numbers[k] == k + 1);
    }
}

/// An entry that is not in the store has no versions.
pub proof fn lemma_no_versions_without_entry(db: StoreView, entry_id: Seq<char>)
    requires
        db.wf(),
        !db.has_entry(entry_id),
    ensures
        db.versions_of(entry_id).len() == 0,
{
    assert forall|i: int| 0 <= i < db.versions.len() implies !(|v: EntryVersionView|
        v.entry_id == entry_id)(#[trigger] db.versions[i]) by {
        assert(db.has_entry(db.versions[i].entry_id));
    }
    lemma_filter_none(db.versions, |v: EntryVersionView| v.entry_id == entry_id);
}

/// In a well-formed store the entries of a stream, and so its staged entries,
/// stand in ascending order of their sequence numbers.
pub proof fn lemma_entries_in_sequence(db: StoreView, stream_id: Seq<char>)
    requires
        db.wf(),
    ensures
        forall|i: int, j: int|
            0 <= i < j < db.entries_of(stream_id).len() ==> (#[trigger] db.entries_of(
                stream_id,
            )[i]).sequence_id < (#[trigger] db.entries_of(stream_id)[j]).sequence_id,
        forall|i: int, j: int|
            0 <= i < j < db.staged_of(stream_id).len() ==> (#[trigger] db.staged_of(
                stream_id,
            )[i]).sequence_id < (#[trigger] db.staged_of(stream_id)[j]).sequence_id,
{
    let of = |e: EntryView| e.stream_id == stream_id;
    let staged = |e: EntryView| e.stream_id == stream_id && e.is_staged;
    let r = |a: EntryView, b: EntryView| a.stream_id == b.stream_id ==> a.sequence_id < b.sequence_id;
    lemma_filter_pairwise(db.entries, of, r);
    lemma_filter_pairwise(db.entries, staged, r);
    lemma_filter_contains(db.entries, of);
    lemma_filter_contains(db.entries, staged);
    let a = db.entries_of(stream_id);
    let b = db.staged_of(stream_id);
    assert forall|i: int, j: int| 0 <= i < j < a.len() implies (#[trigger] a[i]).sequence_id < (
    #[trigger] a[j]).sequence_id by {
        assert(a.contains(a[i]) && a.contains(a[j]));
    }
    assert forall|i: int, j: int| 0 <= i < j < b.len() implies (#[trigger] b[i]).sequence_id < (
    #[trigger] b[j]).sequence_id by {
        assert(b.contains(b[i]) && b.contains(b[j]));
    }
}

} // verus!
