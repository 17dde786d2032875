//! The store itself: four tables in memory and the operations on them. Every
//! operation takes the identifiers and the time it needs as arguments, so that
//! its contract says exactly what becomes of the store.

use vstd::prelude::*;
use vstd::string::StringExecFns;
use crate::bridge::{chars_of, lower, lowered, to_lower};
use crate::codec::decode_document;
use crate::invariants::{
    lemma_commit_wf, lemma_delete_entry_wf, lemma_delete_pending_block_wf, lemma_delete_stream_wf,
    lemma_entries_in_sequence, lemma_entry_lookup, lemma_entry_row_alone, lemma_head_has_version,
    lemma_insert_entry_wf, lemma_insert_pending_block_wf, lemma_insert_stream_wf,
    lemma_latest_is_head, lemma_no_versions_without_entry, lemma_rekeyed_wf, lemma_stream_lookup,
    lemma_stream_row_alone, lemma_version_lookup, lemma_versions_numbered,
};
use crate::models::{
    clone_optional_string, clone_strings, CreateEntryInput, CreateStreamInput, Entry, EntryVersion,
    EntryVersionView, EntryView, PendingBlock, PendingBlockView, Stream, StreamMetadata, StreamView,
    StreamWithEntries,
};
use crate::laws::{law_commit_makes_the_latest_version, law_new_pending_block_is_latest};
use crate::seqs::lemma_filter_take_next;
use crate::stamps::{fresh_id, now_millis};
use crate::store::{
    contains_text, new_stream, occurs_at, readable_entries, readable_entry, readable_version,
    readable_versions, record_entry, touch_stream, StoreError, StoreView,
};
use crate::tutorial::{
    first_start_result, first_start_store, lemma_welcome_store_wf, welcome_store, EMPTY_DOCUMENT,
    WELCOME_DESCRIPTION, WELCOME_DOCUMENT, WELCOME_ROLE, WELCOME_TAG, WELCOME_TITLE,
};

verus! {

/// The store. Its tables are private: every value of this type that a caller
/// can hold was made by [`Database::new`] or [`Database::restore`] and changed
/// only by the operations below, and is therefore well-formed.
pub struct Database {
    streams: Vec<Stream>,
    entries: Vec<Entry>,
    versions: Vec<EntryVersion>,
    pending_blocks: Vec<PendingBlock>,
}

impl View for Database {
    type V = StoreView;

    closed spec fn view(&self) -> StoreView {
        StoreView {
            streams: self.streams.deep_view(),
            entries: self.entries.deep_view(),
            versions: self.versions.deep_view(),
            pending_blocks: self.pending_blocks.deep_view(),
        }
    }
}

/// The entries other than the one with identifier `id`, in order.
fn entries_without(rows: Vec<Entry>, id: &String) -> (kept: Vec<Entry>)
    ensures
        kept.deep_view() == rows.deep_view().filter(|e: EntryView| e.id != id@),
{
    let ghost all = rows.deep_view();
    let ghost keep = |e: EntryView| e.id != id@;
    let mut kept: Vec<Entry> = Vec::new();
    assert(kept.deep_view() =~= all.take(0).filter(keep)) by {
        reveal(Seq::filter);
    }
    for row in it: rows
        invariant
            it.seq().len() == all.len(),
            forall|e: EntryView| #[trigger] keep(e) == (e.id != id@),
            forall|k: int| 0 <= k < all.len() ==> (#[trigger] it.seq()[k])@ == all[k],
            kept.deep_view() == all.take(it.index() as int).filter(keep),
    {
        proof {
            lemma_filter_take_next(all, it.index() as int, keep);
        }
        let ghost before = kept.deep_view();
        if !(row.id == *id) {
            kept.push(row);
            assert(kept.deep_view() =~= before.push(row@));
        }
    }
    assert(all.take(all.len() as int) =~= all);
    kept
}

/// The entries outside stream `stream_id`, in order.
fn entries_outside(rows: Vec<Entry>, stream_id: &String) -> (kept: Vec<Entry>)
    ensures
        kept.deep_view() == rows.deep_view().filter(|e: EntryView| e.stream_id != stream_id@),
{
    let ghost all = rows.deep_view();
    let ghost keep = |e: EntryView| e.stream_id != stream_id@;
    let mut kept: Vec<Entry> = Vec::new();
    assert(kept.deep_view() =~= all.take(0).filter(keep)) by {
        reveal(Seq::filter);
    }
    for row in it: rows
        invariant
            it.seq().len() == all.len(),
            forall|e: EntryView| #[trigger] keep(e) == (e.stream_id != stream_id@),
            forall|k: int| 0 <= k < all.len() ==> (#[trigger] it.seq()[k])@ == all[k],
            kept.deep_view() == all.take(it.index() as int).filter(keep),
    {
        proof {
            lemma_filter_take_next(all, it.index() as int, keep);
        }
        let ghost before = kept.deep_view();
        if !(row.stream_id == *stream_id) {
            kept.push(row);
            assert(kept.deep_view() =~= before.push(row@));
        }
    }
    assert(all.take(all.len() as int) =~= all);
    kept
}

/// The streams other than the one with identifier `id`, in order.
fn streams_without(rows: Vec<Stream>, id: &String) -> (kept: Vec<Stream>)
    ensures
        kept.deep_view() == rows.deep_view().filter(|s: StreamView| s.id != id@),
{
    let ghost all = rows.deep_view();
    let ghost keep = |s: StreamView| s.id != id@;
    let mut kept: Vec<Stream> = Vec::new();
    assert(kept.deep_view() =~= all.take(0).filter(keep)) by {
        reveal(Seq::filter);
    }
    for row in it: rows
        invariant
            it.seq().len() == all.len(),
            forall|e: StreamView| #[trigger] keep(e) == (e.id != id@),
            forall|k: int| 0 <= k < all.len() ==> (#[trigger] it.seq()[k])@ == all[k],
            kept.deep_view() == all.take(it.index() as int).filter(keep),
    {
        proof {
            lemma_filter_take_next(all, it.index() as int, keep);
        }
        let ghost before = kept.deep_view();
        if !(row.id == *id) {
            kept.push(row);
            assert(kept.deep_view() =~= before.push(row@));
        }
    }
    assert(all.take(all.len() as int) =~= all);
    kept
}

/// The versions of entries other than `entry_id`, in order.
fn versions_without(rows: Vec<EntryVersion>, entry_id: &String) -> (kept: Vec<EntryVersion>)
    ensures
        kept.deep_view() == rows.deep_view().filter(
            |v: EntryVersionView| v.entry_id != entry_id@,
        ),
{
    let ghost all = rows.deep_view();
    let ghost keep = |v: EntryVersionView| v.entry_id != entry_id@;
    let mut kept: Vec<EntryVersion> = Vec::new();
    assert(kept.deep_view() =~= all.take(0).filter(keep)) by {
        reveal(Seq::filter);
    }
    for row in it: rows
        invariant
            it.seq().len() == all.len(),
            forall|e: EntryVersionView| #[trigger] keep(e) == (e.entry_id != entry_id@),
            forall|k: int| 0 <= k < all.len() ==> (#[trigger] it.seq()[k])@ == all[k],
            kept.deep_view() == all.take(it.index() as int).filter(keep),
    {
        proof {
            lemma_filter_take_next(all, it.index() as int, keep);
        }
        let ghost before = kept.deep_view();
        if !(row.entry_id == *entry_id) {
            kept.push(row);
            assert(kept.deep_view() =~= before.push(row@));
        }
    }
    assert(all.take(all.len() as int) =~= all);
    kept
}

/// Whether entry `entry_id` is among `entries` and belongs to `stream_id`.
fn in_stream(entries: &Vec<Entry>, entry_id: &String, stream_id: &String, Ghost(db): Ghost<
    StoreView,
>) -> (r: bool)
    requires
        db.entries == entries.deep_view(),
    ensures
        r == db.entry_in_stream(entry_id@, stream_id@),
{
    let mut i: usize = 0;
    while i < entries.len()
        invariant
            i <= entries.len(),
            db.entries == entries.deep_view(),
            forall|k: int|
                0 <= k < i ==> !((#[trigger] db.entries[k]).id == entry_id@
                    && db.entries[k].stream_id == stream_id@),
        decreases entries.len() - i,
    {
        if entries[i].id == *entry_id && entries[i].stream_id == *stream_id {
            assert(db.entries[i as int].id == entry_id@);
            return true;
        }
        assert(db.entries[i as int] == entries[i as int]@);
        i = i + 1;
    }
    false
}

/// The versions of entries outside stream `stream_id`, in order.
fn versions_outside(
    rows: Vec<EntryVersion>,
    entries: &Vec<Entry>,
    stream_id: &String,
    Ghost(db): Ghost<StoreView>,
) -> (kept: Vec<EntryVersion>)
    requires
        db.entries == entries.deep_view(),
    ensures
        kept.deep_view() == rows.deep_view().filter(
            |v: EntryVersionView| !db.entry_in_stream(v.entry_id, stream_id@),
        ),
{
    let ghost all = rows.deep_view();
    let ghost keep = |v: EntryVersionView| !db.entry_in_stream(v.entry_id, stream_id@);
    let mut kept: Vec<EntryVersion> = Vec::new();
    assert(kept.deep_view() =~= all.take(0).filter(keep)) by {
        reveal(Seq::filter);
    }
    for row in it: rows
        invariant
            db.entries == entries.deep_view(),
            it.seq().len() == all.len(),
            forall|e: EntryVersionView|
                #[trigger] keep(e) == !db.entry_in_stream(e.entry_id, stream_id@),
            forall|k: int| 0 <= k < all.len() ==> (#[trigger] it.seq()[k])@ == all[k],
            kept.deep_view() == all.take(it.index() as int).filter(keep),
    {
        proof {
            lemma_filter_take_next(all, it.index() as int, keep);
        }
        let ghost before = kept.deep_view();
        if !in_stream(entries, &row.entry_id, stream_id, Ghost(db)) {
            kept.push(row);
            assert(kept.deep_view() =~= before.push(row@));
        }
    }
    assert(all.take(all.len() as int) =~= all);
    kept
}

/// The pending blocks other than the one with identifier `id`, in order.
fn pending_without(rows: Vec<PendingBlock>, id: &String) -> (kept: Vec<PendingBlock>)
    ensures
        kept.deep_view() == rows.deep_view().filter(|p: PendingBlockView| p.id != id@),
{
    let ghost all = rows.deep_view();
    let ghost keep = |p: PendingBlockView| p.id != id@;
    let mut kept: Vec<PendingBlock> = Vec::new();
    assert(kept.deep_view() =~= all.take(0).filter(keep)) by {
        reveal(Seq::filter);
    }
    for row in it: rows
        invariant
            it.seq().len() == all.len(),
            forall|e: PendingBlockView| #[trigger] keep(e) == (e.id != id@),
            forall|k: int| 0 <= k < all.len() ==> (#[trigger] it.seq()[k])@ == all[k],
            kept.deep_view() == all.take(it.index() as int).filter(keep),
    {
        proof {
            lemma_filter_take_next(all, it.index() as int, keep);
        }
        let ghost before = kept.deep_view();
        if !(row.id == *id) {
            kept.push(row);
            assert(kept.deep_view() =~= before.push(row@));
        }
    }
    assert(all.take(all.len() as int) =~= all);
    kept
}

/// The pending blocks outside stream `stream_id`, in order.
fn pending_outside(rows: Vec<PendingBlock>, stream_id: &String) -> (kept: Vec<PendingBlock>)
    ensures
        kept.deep_view() == rows.deep_view().filter(
            |p: PendingBlockView| p.stream_id != stream_id@,
        ),
{
    let ghost all = rows.deep_view();
    let ghost keep = |p: PendingBlockView| p.stream_id != stream_id@;
    let mut kept: Vec<PendingBlock> = Vec::new();
    assert(kept.deep_view() =~= all.take(0).filter(keep)) by {
        reveal(Seq::filter);
    }
    for row in it: rows
        invariant
            it.seq().len() == all.len(),
            forall|e: PendingBlockView| #[trigger] keep(e) == (e.stream_id != stream_id@),
            forall|k: int| 0 <= k < all.len() ==> (#[trigger] it.seq()[k])@ == all[k],
            kept.deep_view() == all.take(it.index() as int).filter(keep),
    {
        proof {
            lemma_filter_take_next(all, it.index() as int, keep);
        }
        let ghost before = kept.deep_view();
        if !(row.stream_id == *stream_id) {
            kept.push(row);
            assert(kept.deep_view() =~= before.push(row@));
        }
    }
    assert(all.take(all.len() as int) =~= all);
    kept
}

/// The entry as a read hands it out: damaged content gives way to the
/// default document.
fn readable_entry_of(e: Entry) -> (r: Entry)
    ensures
        r@ == readable_entry(e@),
{
    Entry {
        id: e.id,
        stream_id: e.stream_id,
        role: e.role,
        content: decode_document(e.content),
        sequence_id: e.sequence_id,
        version_head: e.version_head,
        is_staged: e.is_staged,
        parent_context_ids: e.parent_context_ids,
        ai_metadata: e.ai_metadata,
        created_at: e.created_at,
        updated_at: e.updated_at,
    }
}

/// The version as a read hands it out: a damaged snapshot gives way to the
/// default document.
fn readable_version_of(v: EntryVersion) -> (r: EntryVersion)
    ensures
        r@ == readable_version(v@),
{
    EntryVersion {
        id: v.id,
        entry_id: v.entry_id,
        version_number: v.version_number,
        content_snapshot: decode_document(v.content_snapshot),
        commit_message: v.commit_message,
        committed_at: v.committed_at,
    }
}

/// The entries as a read hands them out, in order.
fn readable_entries_of(rows: Vec<Entry>) -> (r: Vec<Entry>)
    ensures
        r.deep_view() == readable_entries(rows.deep_view()),
        r.len() == rows.len(),
        forall|k: int| 0 <= k < r.len() ==> (#[trigger] r[k])@ == readable_entry(rows[k]@),
{
    let ghost all = rows.deep_view();
    let ghost given = rows@;
    let mut r: Vec<Entry> = Vec::new();
    for row in it: rows
        invariant
            it.seq() == given,
            all.len() == given.len(),
            forall|k: int| 0 <= k < all.len() ==> (#[trigger] given[k])@ == all[k],
            r.len() == it.index(),
            forall|k: int| 0 <= k < r.len() ==> (#[trigger] r[k])@ == readable_entry(given[k]@),
    {
        r.push(readable_entry_of(row));
    }
    assert(r.deep_view() =~= readable_entries(all));
    r
}

/// The versions as a read hands them out, in order.
fn readable_versions_of(rows: Vec<EntryVersion>) -> (r: Vec<EntryVersion>)
    ensures
        r.deep_view() == readable_versions(rows.deep_view()),
        r.len() == rows.len(),
        forall|k: int| 0 <= k < r.len() ==> (#[trigger] r[k])@ == readable_version(rows[k]@),
{
    let ghost all = rows.deep_view();
    let ghost given = rows@;
    let mut r: Vec<EntryVersion> = Vec::new();
    for row in it: rows
        invariant
            it.seq() == given,
            all.len() == given.len(),
            forall|k: int| 0 <= k < all.len() ==> (#[trigger] given[k])@ == all[k],
            r.len() == it.index(),
            forall|k: int| 0 <= k < r.len() ==> (#[trigger] r[k])@ == readable_version(given[k]@),
    {
        r.push(readable_version_of(row));
    }
    assert(r.deep_view() =~= readable_versions(all));
    r
}

impl Database {
    /// The store is well-formed.
    pub open spec fn wf(&self) -> bool {
        self@.wf()
    }

    /// An empty store.
    pub fn new() -> (db: Self)
        ensures
            db@ == StoreView::empty(),
            db.wf(),
    {
        let db = Database {
            streams: Vec::new(),
            entries: Vec::new(),
            versions: Vec::new(),
            pending_blocks: Vec::new(),
        };
        assert(db@ =~= StoreView::empty());
        db
    }

    /// The row of the stream with identifier `id`, the first if there are
    /// several.
    fn find_stream(&self, id: &String) -> (r: Option<usize>)
        ensures
            match r {
                Some(i) => i < self.streams.len() && self.streams[i as int].id@ == id@ && forall|
                    k: int,
                | 0 <= k < i ==> (#[trigger] self.streams[k]).id@ != id@,
                None => !self@.has_stream(id@),
            },
    {
        let mut i: usize = 0;
        while i < self.streams.len()
            invariant
                i <= self.streams.len(),
                forall|k: int| 0 <= k < i ==> self.streams[k].id@ != id@,
            decreases self.streams.len() - i,
        {
            if self.streams[i].id == *id {
                return Some(i);
            }
            i = i + 1;
        }
        assert forall|k: int| 0 <= k < self@.streams.len() implies #[trigger] self@.streams[k].id
            != id@ by {
            assert(self.streams[k].id@ != id@);
        }
        None
    }

    /// The row of the entry with identifier `id`, the first if there are
    /// several.
    fn find_entry(&self, id: &String) -> (r: Option<usize>)
        ensures
            match r {
                Some(i) => i < self.entries.len() && self.entries[i as int].id@ == id@ && forall|
                    k: int,
                | 0 <= k < i ==> (#[trigger] self.entries[k]).id@ != id@,
                None => !self@.has_entry(id@),
            },
    {
        let mut i: usize = 0;
        while i < self.entries.len()
            invariant
                i <= self.entries.len(),
                forall|k: int| 0 <= k < i ==> self.entries[k].id@ != id@,
            decreases self.entries.len() - i,
        {
            if self.entries[i].id == *id {
                return Some(i);
            }
            i = i + 1;
        }
        assert forall|k: int| 0 <= k < self@.entries.len() implies #[trigger] self@.entries[k].id
            != id@ by {
            assert(self.entries[k].id@ != id@);
        }
        None
    }

    /// Marks every stream with identifier `id` as modified at `now`.
    fn touch(&mut self, id: &String, now: i64)
        ensures
            final(self)@ == (StoreView {
                streams: touch_stream(old(self)@.streams, id@, now as int),
                ..old(self)@
            }),
    {
        let mut i: usize = 0;
        while i < self.streams.len()
            invariant
                i <= self.streams.len(),
                self.streams.len() == old(self).streams.len(),
                self.entries == old(self).entries,
                self.versions == old(self).versions,
                self.pending_blocks == old(self).pending_blocks,
                forall|k: int|
                    0 <= k < i ==> (#[trigger] self.streams[k])@ == touch_stream(
                        old(self)@.streams,
                        id@,
                        now as int,
                    )[k],
                forall|k: int| i <= k < self.streams.len() ==> self.streams[k] == old(self).streams[k],
            decreases self.streams.len() - i,
        {
            if self.streams[i].id == *id {
                self.streams[i].updated_at = now;
            }
            i = i + 1;
        }
        assert(self@.streams =~= touch_stream(old(self)@.streams, id@, now as int));
    }

    /// Marks every stream with identifier `id` as modified at `now` and lets
    /// it remember `sequence_id` as the last number that it gave.
    fn record(&mut self, id: &String, sequence_id: i32, now: i64)
        ensures
            final(self)@ == (StoreView {
                streams: record_entry(old(self)@.streams, id@, sequence_id as int, now as int),
                ..old(self)@
            }),
    {
        let mut i: usize = 0;
        while i < self.streams.len()
            invariant
                i <= self.streams.len(),
                self.streams.len() == old(self).streams.len(),
                self.entries == old(self).entries,
                self.versions == old(self).versions,
                self.pending_blocks == old(self).pending_blocks,
                forall|k: int|
                    0 <= k < i ==> (#[trigger] self.streams[k])@ == record_entry(
                        old(self)@.streams,
                        id@,
                        sequence_id as int,
                        now as int,
                    )[k],
                forall|k: int|
                    i <= k < self.streams.len() ==> self.streams[k] == old(self).streams[k],
            decreases self.streams.len() - i,
        {
            if self.streams[i].id == *id {
                self.streams[i].updated_at = now;
                self.streams[i].last_sequence_id = sequence_id;
            }
            i = i + 1;
        }
        assert(self@.streams =~= record_entry(
            old(self)@.streams,
            id@,
            sequence_id as int,
            now as int,
        ));
    }

    // ----- streams ------------------------------------------------------

    /// Creates a stream under identifier `id` at time `now`.
    ///
    /// Fails with `DuplicateId`, leaving the store as it was, exactly when a
    /// stream with that identifier exists.
    pub fn create_stream(&mut self, input: CreateStreamInput, id: String, now: i64) -> (r: Result<
        Stream,
        StoreError,
    >)
        requires
            old(self).wf(),
        ensures
            final(self).wf(),
            match r {
                Ok(s) => !old(self)@.has_stream(id@) && s@ == new_stream(input@, id@, now as int)
                    && final(self)@ == old(self)@.insert_stream(s@),
                Err(e) => e == StoreError::DuplicateId && old(self)@.has_stream(id@)
                    && final(self)@ == old(self)@,
            },
    {
        if let Some(i) = self.find_stream(&id) {
            assert(self@.streams[i as int].id == id@);
            return Err(StoreError::DuplicateId);
        }
        let tags = match input.tags {
            Some(tags) => tags,
            None => Vec::new(),
        };
        let stream = Stream {
            id,
            title: input.title,
            description: input.description,
            tags,
            color: input.color,
            pinned: false,
            last_sequence_id: 0,
            created_at: now,
            updated_at: now,
        };
        assert(stream@.tags =~= new_stream(input@, id@, now as int).tags);
        let copy = stream.clone();
        self.streams.push(stream);
        proof {
            lemma_insert_stream_wf(old(self)@, copy@);
            assert(self@.streams =~= old(self)@.streams.push(copy@));
        }
        Ok(copy)
    }

    /// Deletes the stream `stream_id` with its entries, their versions and its
    /// pending blocks.
    ///
    /// Fails with `NotFound`, leaving the store as it was, exactly when the
    /// stream does not exist.
    pub fn delete_stream(&mut self, stream_id: &String) -> (r: Result<(), StoreError>)
        requires
            old(self).wf(),
        ensures
            final(self).wf(),
            match r {
                Ok(_) => {
                    &&& old(self)@.has_stream(stream_id@)
                    &&& final(self)@ == old(self)@.delete_stream(stream_id@)
                    &&& !final(self)@.has_stream(stream_id@)
                },
                Err(e) => {
                    &&& e == StoreError::NotFound
                    &&& !old(self)@.has_stream(stream_id@)
                    &&& final(self)@ == old(self)@
                },
            },
    {
        match self.find_stream(stream_id) {
            None => {
                return Err(StoreError::NotFound);
            },
            Some(k) => {
                assert(self@.streams[k as int].id == stream_id@);
            },
        }
        let mut streams: Vec<Stream> = Vec::new();
        let mut entries: Vec<Entry> = Vec::new();
        let mut versions: Vec<EntryVersion> = Vec::new();
        let mut pending_blocks: Vec<PendingBlock> = Vec::new();
        std::mem::swap(&mut streams, &mut self.streams);
        std::mem::swap(&mut entries, &mut self.entries);
        std::mem::swap(&mut versions, &mut self.versions);
        std::mem::swap(&mut pending_blocks, &mut self.pending_blocks);
        self.versions = versions_outside(versions, &entries, stream_id, Ghost(old(self)@));
        self.streams = streams_without(streams, stream_id);
        self.entries = entries_outside(entries, stream_id);
        self.pending_blocks = pending_outside(pending_blocks, stream_id);
        proof {
            lemma_delete_stream_wf(old(self)@, stream_id@);
        }
        Ok(())
    }

    /// Deletes the entry `entry_id` with its versions. The sequence number
    /// that it had is not given again.
    ///
    /// Fails with `NotFound`, leaving the store as it was, exactly when the
    /// entry does not exist.
    pub fn delete_entry(&mut self, entry_id: &String) -> (r: Result<(), StoreError>)
        requires
            old(self).wf(),
        ensures
            final(self).wf(),
            match r {
                Ok(_) => {
                    &&& old(self)@.has_entry(entry_id@)
                    &&& final(self)@ == old(self)@.delete_entry(entry_id@)
                    &&& !final(self)@.has_entry(entry_id@)
                },
                Err(e) => {
                    &&& e == StoreError::NotFound
                    &&& !old(self)@.has_entry(entry_id@)
                    &&& final(self)@ == old(self)@
                },
            },
    {
        match self.find_entry(entry_id) {
            None => {
                return Err(StoreError::NotFound);
            },
            Some(k) => {
                assert(self@.entries[k as int].id == entry_id@);
            },
        }
        let mut entries: Vec<Entry> = Vec::new();
        let mut versions: Vec<EntryVersion> = Vec::new();
        std::mem::swap(&mut entries, &mut self.entries);
        std::mem::swap(&mut versions, &mut self.versions);
        self.entries = entries_without(entries, entry_id);
        self.versions = versions_without(versions, entry_id);
        proof {
            lemma_delete_entry_wf(old(self)@, entry_id@);
        }
        Ok(())
    }

    /// Deletes the pending block `id`, consumed or abandoned. Entries are not
    /// touched.
    ///
    /// Fails with `NotFound`, leaving the store as it was, exactly when no
    /// pending block has that identifier.
    pub fn delete_pending_block(&mut self, id: &String) -> (r: Result<(), StoreError>)
        requires
            old(self).wf(),
        ensures
            final(self).wf(),
            match r {
                Ok(_) => {
                    &&& old(self)@.has_pending_block(id@)
                    &&& final(self)@ == old(self)@.delete_pending_block(id@)
                    &&& !final(self)@.has_pending_block(id@)
                },
                Err(e) => {
                    &&& e == StoreError::NotFound
                    &&& !old(self)@.has_pending_block(id@)
                    &&& final(self)@ == old(self)@
                },
            },
    {
        match self.find_pending_block(id) {
            None => {
                return Err(StoreError::NotFound);
            },
            Some(k) => {
                assert(self@.pending_blocks[k as int].id == id@);
            },
        }
        let mut pending_blocks: Vec<PendingBlock> = Vec::new();
        std::mem::swap(&mut pending_blocks, &mut self.pending_blocks);
        self.pending_blocks = pending_without(pending_blocks, id);
        proof {
            lemma_delete_pending_block_wf(old(self)@, id@);
        }
        Ok(())
    }
}

impl Database {
    // ----- entries ------------------------------------------------------

    /// Creates an entry under identifier `id` at time `now`, at the end of its
    /// stream, and marks the stream as modified. The entry takes the number
    /// after the last that the stream gave, which the stream then remembers:
    /// a number is given once, also after the entry that had it is deleted.
    ///
    /// Fails, leaving the store as it was, with `NotFound` exactly when the
    /// stream does not exist, and otherwise with `DuplicateId` exactly when an
    /// entry with that identifier exists. The next sequence number must fit.
    pub fn create_entry(&mut self, input: CreateEntryInput, id: String, now: i64) -> (r: Result<
        Entry,
        StoreError,
    >)
        requires
            old(self).wf(),
            old(self)@.has_stream(input.stream_id@) ==> old(self)@.last_sequence(input.stream_id@)
                < i32::MAX,
        ensures
            final(self).wf(),
            match r {
                Ok(e) => {
                    &&& !old(self)@.has_entry(id@)
                    &&& old(self)@.has_stream(input.stream_id@)
                    &&& e@ == old(self)@.new_entry(input@, id@, now as int)
                    &&& final(self)@ == old(self)@.insert_entry(e@, now as int)
                },
                Err(e) => final(self)@ == old(self)@ && if old(self)@.has_stream(
                    input.stream_id@,
                ) {
                    e == StoreError::DuplicateId && old(self)@.has_entry(id@)
                } else {
                    e == StoreError::NotFound
                },
            },
    {
        let home = match self.find_stream(&input.stream_id) {
            None => {
                return Err(StoreError::NotFound);
            },
            Some(k) => k,
        };
        assert(self@.streams[home as int].id == input.stream_id@);
        if let Some(i) = self.find_entry(&id) {
            assert(self@.entries[i as int].id == id@);
            return Err(StoreError::DuplicateId);
        }
        proof {
            assert(self@.streams[home as int] == self.streams[home as int]@);
            lemma_stream_lookup(self@, home as int);
        }
        let sequence_id = self.streams[home].last_sequence_id + 1;
        let stream_id = input.stream_id.clone();
        let entry = Entry {
            id,
            stream_id: input.stream_id,
            role: input.role,
            content: input.content,
            sequence_id,
            version_head: 0,
            is_staged: false,
            parent_context_ids: input.parent_context_ids,
            ai_metadata: input.ai_metadata,
            created_at: now,
            updated_at: now,
        };
        let copy = entry.clone();
        self.entries.push(entry);
        assert(self@.entries =~= old(self)@.entries.push(copy@));
        self.record(&stream_id, sequence_id, now);
        proof {
            lemma_insert_entry_wf(old(self)@, copy@, now as int);
        }
        Ok(copy)
    }

    /// Replaces the content of entry `entry_id` in place and marks the entry
    /// and its stream as modified at `now`. No version is made and the head
    /// stays.
    ///
    /// Fails with `NotFound`, leaving the store as it was, exactly when the
    /// entry does not exist.
    pub fn set_content(&mut self, entry_id: &String, content: String, now: i64) -> (r: Result<
        (),
        StoreError,
    >)
        requires
            old(self).wf(),
        ensures
            final(self).wf(),
            match r {
                Ok(_) => {
                    &&& old(self)@.has_entry(entry_id@)
                    &&& final(self)@ == old(self)@.set_content(entry_id@, content@, now as int)
                },
                Err(e) => {
                    &&& e == StoreError::NotFound
                    &&& !old(self)@.has_entry(entry_id@)
                    &&& final(self)@ == old(self)@
                },
            },
    {
        let ghost target = old(self)@.set_content(entry_id@, content@, now as int);
        match self.find_entry(entry_id) {
            Some(i) => {
                proof {
                    lemma_entry_lookup(old(self)@, i as int);
                    assert(old(self)@.entries[i as int].id == entry_id@);
                    lemma_entry_row_alone(old(self)@, i as int);
                }
                let stream_id = self.entries[i].stream_id.clone();
                self.entries[i].content = content;
                self.entries[i].updated_at = now;
                assert(self@.entries =~= target.entries);
                self.touch(&stream_id, now);
                assert(self@ =~= target);
            },
            None => {
                return Err(StoreError::NotFound);
            },
        }
        proof {
            lemma_rekeyed_wf(old(self)@, self@);
        }
        Ok(())
    }

    // ----- staging ------------------------------------------------------

    /// Sets the staging mark of entry `entry_id`. Setting the mark it already
    /// has changes nothing and is no error.
    ///
    /// Fails with `NotFound`, leaving the store as it was, exactly when the
    /// entry does not exist.
    pub fn set_staged(&mut self, entry_id: &String, staged: bool) -> (r: Result<(), StoreError>)
        requires
            old(self).wf(),
        ensures
            final(self).wf(),
            match r {
                Ok(_) => {
                    &&& old(self)@.has_entry(entry_id@)
                    &&& final(self)@ == old(self)@.set_staged(entry_id@, staged)
                },
                Err(e) => {
                    &&& e == StoreError::NotFound
                    &&& !old(self)@.has_entry(entry_id@)
                    &&& final(self)@ == old(self)@
                },
            },
    {
        let ghost target = old(self)@.set_staged(entry_id@, staged);
        match self.find_entry(entry_id) {
            Some(i) => {
                proof {
                    assert(old(self)@.entries[i as int].id == entry_id@);
                    lemma_entry_row_alone(old(self)@, i as int);
                }
                self.entries[i].is_staged = staged;
                assert(self@.entries =~= target.entries);
            },
            None => {
                return Err(StoreError::NotFound);
            },
        }
        assert(self@ =~= target);
        proof {
            lemma_rekeyed_wf(old(self)@, self@);
        }
        Ok(())
    }

    /// Removes the staging mark from every entry of stream `stream_id`, in
    /// one step.
    ///
    /// Fails with `NotFound`, leaving the store as it was, exactly when the
    /// stream does not exist.
    pub fn clear_staged(&mut self, stream_id: &String) -> (r: Result<(), StoreError>)
        requires
            old(self).wf(),
        ensures
            final(self).wf(),
            match r {
                Ok(_) => {
                    &&& old(self)@.has_stream(stream_id@)
                    &&& final(self)@ == old(self)@.clear_staged(stream_id@)
                },
                Err(e) => {
                    &&& e == StoreError::NotFound
                    &&& !old(self)@.has_stream(stream_id@)
                    &&& final(self)@ == old(self)@
                },
            },
    {
        match self.find_stream(stream_id) {
            None => {
                return Err(StoreError::NotFound);
            },
            Some(k) => {
                assert(self@.streams[k as int].id == stream_id@);
            },
        }
        let ghost target = old(self)@.clear_staged(stream_id@);
        let mut i: usize = 0;
        while i < self.entries.len()
            invariant
                i <= self.entries.len(),
                self.entries.len() == old(self).entries.len(),
                self.streams == old(self).streams,
                self.versions == old(self).versions,
                self.pending_blocks == old(self).pending_blocks,
                target == old(self)@.clear_staged(stream_id@),
                forall|k: int| 0 <= k < i ==> (#[trigger] self.entries[k])@ == target.entries[k],
                forall|k: int| i <= k < self.entries.len() ==> self.entries[k] == old(self).entries[k],
            decreases self.entries.len() - i,
        {
            if self.entries[i].stream_id == *stream_id {
                self.entries[i].is_staged = false;
            }
            i = i + 1;
        }
        assert(self@.entries =~= target.entries);
        assert(self@ =~= target);
        proof {
            lemma_rekeyed_wf(old(self)@, self@);
        }
        Ok(())
    }

    /// The staged entries of stream `stream_id`, in ascending order of their
    /// sequence numbers. An entry whose stored content is damaged is listed
    /// with the default document; the read does not fail.
    pub fn list_staged(&self, stream_id: &String) -> (listed: Vec<Entry>)
        requires
            self.wf(),
        ensures
            listed.deep_view() == readable_entries(self@.staged_of(stream_id@)),
            forall|i: int, j: int|
                0 <= i < j < listed.len() ==> (#[trigger] listed[i]).sequence_id < (
                #[trigger] listed[j]).sequence_id,
    {
        let ghost all = self@.entries;
        let ghost keep = |e: EntryView| e.stream_id == stream_id@ && e.is_staged;
        let mut staged: Vec<Entry> = Vec::new();
        assert(staged.deep_view() =~= all.take(0).filter(keep)) by {
            reveal(Seq::filter);
        }
        let mut i: usize = 0;
        while i < self.entries.len()
            invariant
                i <= self.entries.len(),
                all == self@.entries,
                forall|e: EntryView| #[trigger] keep(e) == (e.stream_id == stream_id@ && e.is_staged),
                staged.deep_view() == all.take(i as int).filter(keep),
            decreases self.entries.len() - i,
        {
            proof {
                lemma_filter_take_next(all, i as int, keep);
            }
            let ghost before = staged.deep_view();
            if self.entries[i].stream_id == *stream_id && self.entries[i].is_staged {
                staged.push(self.entries[i].clone());
                assert(staged.deep_view() =~= before.push(all[i as int]));
            }
            i = i + 1;
        }
        assert(all.take(all.len() as int) =~= all);
        proof {
            lemma_entries_in_sequence(self@, stream_id@);
            let f = self@.staged_of(stream_id@);
            assert forall|i: int, j: int| 0 <= i < j < staged.len() implies (
            #[trigger] staged[i]).sequence_id < (#[trigger] staged[j]).sequence_id by {
                assert(staged[i]@ == f[i] && staged[j]@ == f[j]);
            }
        }
        let ghost raw = staged@;
        let listed = readable_entries_of(staged);
        proof {
            assert forall|i: int, j: int| 0 <= i < j < listed.len() implies (
            #[trigger] listed[i]).sequence_id < (#[trigger] listed[j]).sequence_id by {
                assert(listed[i]@ == readable_entry(raw[i]@));
                assert(listed[j]@ == readable_entry(raw[j]@));
                assert(raw[i].sequence_id < raw[j].sequence_id);
            }
        }
        listed
    }
}

impl Database {
    // ----- versions -----------------------------------------------------

    /// The row of the version with identifier `id`, the first if there are
    /// several.
    fn find_version_id(&self, id: &String) -> (r: Option<usize>)
        ensures
            match r {
                Some(i) => i < self.versions.len() && self.versions[i as int].id@ == id@ && forall|
                    k: int,
                | 0 <= k < i ==> (#[trigger] self.versions[k]).id@ != id@,
                None => !self@.has_version_id(id@),
            },
    {
        let mut i: usize = 0;
        while i < self.versions.len()
            invariant
                i <= self.versions.len(),
                forall|k: int| 0 <= k < i ==> self.versions[k].id@ != id@,
            decreases self.versions.len() - i,
        {
            if self.versions[i].id == *id {
                return Some(i);
            }
            i = i + 1;
        }
        assert forall|k: int| 0 <= k < self@.versions.len() implies #[trigger] self@.versions[k].id
            != id@ by {
            assert(self.versions[k].id@ != id@);
        }
        None
    }

    /// The row of version `number` of entry `entry_id`, the first if there are
    /// several.
    fn find_version(&self, entry_id: &String, number: i32) -> (r: Option<usize>)
        ensures
            match r {
                Some(i) => self@.is_version(i as int, entry_id@, number as int),
                None => !self@.has_version(entry_id@, number as int),
            },
    {
        let mut i: usize = 0;
        while i < self.versions.len()
            invariant
                i <= self.versions.len(),
                forall|k: int| 0 <= k < i ==> !self@.is_version(k, entry_id@, number as int),
            decreases self.versions.len() - i,
        {
            if self.versions[i].entry_id == *entry_id && self.versions[i].version_number == number {
                return Some(i);
            }
            i = i + 1;
        }
        None
    }

    /// Commits the current content of entry `entry_id` as its next version,
    /// under identifier `version_id` at time `now`: the version takes the number
    /// after the entry's head, the head moves to that number, which is then
    /// also the count of the entry's versions, and the owning stream is marked
    /// as modified. The version is handed back as a read would hand it out, and
    /// is from then on the latest of the entry. Pending blocks stay.
    ///
    /// Fails, leaving the store as it was, with `NotFound` exactly when the
    /// entry does not exist, and otherwise with `DuplicateId` exactly when a
    /// version with that identifier exists. The next number must fit.
    pub fn commit(
        &mut self,
        entry_id: &String,
        version_id: String,
        message: Option<String>,
        now: i64,
    ) -> (r: Result<EntryVersion, StoreError>)
        requires
            old(self).wf(),
            old(self)@.has_entry(entry_id@) ==> old(self)@.entry(entry_id@).version_head < i32::MAX,
        ensures
            final(self).wf(),
            match r {
                Ok(v) => {
                    &&& old(self)@.has_entry(entry_id@)
                    &&& !old(self)@.has_version_id(version_id@)
                    &&& v@ == readable_version(
                        old(self)@.next_version(
                            entry_id@,
                            version_id@,
                            message.deep_view(),
                            now as int,
                        ),
                    )
                    &&& final(self)@ == old(self)@.commit(
                        entry_id@,
                        version_id@,
                        message.deep_view(),
                        now as int,
                    )
                    &&& old(self)@.committed(final(self)@, entry_id@, v@)
                },
                Err(e) => final(self)@ == old(self)@ && if old(self)@.has_entry(entry_id@) {
                    e == StoreError::DuplicateId && old(self)@.has_version_id(version_id@)
                } else {
                    e == StoreError::NotFound
                },
            },
    {
        let i = match self.find_entry(entry_id) {
            None => {
                return Err(StoreError::NotFound);
            },
            Some(i) => i,
        };
        assert(self@.entries[i as int].id == entry_id@);
        if let Some(k) = self.find_version_id(&version_id) {
            assert(self@.versions[k as int].id == version_id@);
            return Err(StoreError::DuplicateId);
        }
        proof {
            lemma_entry_lookup(old(self)@, i as int);
            lemma_entry_row_alone(old(self)@, i as int);
        }
        let ghost target = old(self)@.commit(
            entry_id@,
            version_id@,
            message.deep_view(),
            now as int,
        );
        let number = self.entries[i].version_head + 1;
        let stream_id = self.entries[i].stream_id.clone();
        let version = EntryVersion {
            id: version_id,
            entry_id: entry_id.clone(),
            version_number: number,
            content_snapshot: self.entries[i].content.clone(),
            commit_message: message,
            committed_at: now,
        };
        let copy = version.clone();
        self.versions.push(version);
        self.entries[i].version_head = number;
        assert(self@.versions =~= target.versions);
        assert(self@.entries =~= target.entries);
        self.touch(&stream_id, now);
        assert(self@ =~= target);
        proof {
            lemma_commit_wf(old(self)@, entry_id@, version_id@, message.deep_view(), now as int);
            law_commit_makes_the_latest_version(
                old(self)@,
                entry_id@,
                version_id@,
                message.deep_view(),
                now as int,
            );
        }
        Ok(readable_version_of(copy))
    }

    /// Puts the snapshot of version `number` back as the content of entry
    /// `entry_id` and marks the entry as modified at `now`. No version is made,
    /// none is removed, and the head stays where it is.
    ///
    /// Fails with `NotFound`, leaving the store as it was, exactly when the
    /// entry has no version of that number.
    pub fn revert(&mut self, entry_id: &String, number: i32, now: i64) -> (r: Result<
        (),
        StoreError,
    >)
        requires
            old(self).wf(),
        ensures
            final(self).wf(),
            match r {
                Ok(_) => {
                    &&& old(self)@.has_version(entry_id@, number as int)
                    &&& final(self)@ == old(self)@.revert(entry_id@, number as int, now as int)
                },
                Err(e) => e == StoreError::NotFound && !old(self)@.has_version(
                    entry_id@,
                    number as int,
                ) && final(self)@ == old(self)@,
            },
    {
        let j = match self.find_version(entry_id, number) {
            None => {
                return Err(StoreError::NotFound);
            },
            Some(j) => j,
        };
        proof {
            lemma_version_lookup(old(self)@, j as int);
        }
        let ghost target = old(self)@.revert(entry_id@, number as int, now as int);
        let content = self.versions[j].content_snapshot.clone();
        match self.find_entry(entry_id) {
            Some(i) => {
                proof {
                    assert(old(self)@.entries[i as int].id == entry_id@);
                    lemma_entry_row_alone(old(self)@, i as int);
                }
                self.entries[i].content = content;
                self.entries[i].updated_at = now;
                assert(self@.entries =~= target.entries);
            },
            None => {
                assert(self@.entries =~= target.entries);
            },
        }
        assert(self@ =~= target);
        proof {
            lemma_rekeyed_wf(old(self)@, self@);
        }
        Ok(())
    }

    /// The versions of entry `entry_id`, newest first: their numbers run from
    /// the count of versions down to 1. Empty if nothing was committed. A
    /// version whose stored snapshot is damaged is listed with the default
    /// document.
    pub fn list_versions(&self, entry_id: &String) -> (listed: Vec<EntryVersion>)
        requires
            self.wf(),
        ensures
            listed.deep_view() == readable_versions(self@.versions_of(entry_id@).reverse()),
            forall|k: int|
                0 <= k < listed.len() ==> (#[trigger] listed[k]).version_number == listed.len()
                    - k,
            self@.has_entry(entry_id@) ==> listed.len() == self@.entry(entry_id@).version_head,
            !self@.has_entry(entry_id@) ==> listed.len() == 0,
    {
        let ghost all = self@.versions;
        let ghost keep = |v: EntryVersionView| v.entry_id == entry_id@;
        let mut oldest_first: Vec<EntryVersion> = Vec::new();
        assert(oldest_first.deep_view() =~= all.take(0).filter(keep)) by {
            reveal(Seq::filter);
        }
        let mut i: usize = 0;
        while i < self.versions.len()
            invariant
                i <= self.versions.len(),
                all == self@.versions,
                forall|v: EntryVersionView| #[trigger] keep(v) == (v.entry_id == entry_id@),
                oldest_first.deep_view() == all.take(i as int).filter(keep),
            decreases self.versions.len() - i,
        {
            proof {
                lemma_filter_take_next(all, i as int, keep);
            }
            let ghost before = oldest_first.deep_view();
            if self.versions[i].entry_id == *entry_id {
                oldest_first.push(self.versions[i].clone());
                assert(oldest_first.deep_view() =~= before.push(all[i as int]));
            }
            i = i + 1;
        }
        assert(all.take(all.len() as int) =~= all);
        let ghost mine = self@.versions_of(entry_id@);
        let ghost n = mine.len() as int;
        let mut versions: Vec<EntryVersion> = Vec::new();
        while oldest_first.len() > 0
            invariant
                mine.len() == n,
                oldest_first.len() + versions.len() == n,
                forall|k: int| 0 <= k < oldest_first.len() ==> (#[trigger] oldest_first[k])@ == mine[k],
                forall|k: int| 0 <= k < versions.len() ==> (#[trigger] versions[k])@ == mine[n - 1 - k],
            decreases oldest_first.len(),
        {
            let v = oldest_first.pop().unwrap();
            versions.push(v);
        }
        assert(versions.deep_view() =~= mine.reverse());
        proof {
            match self@.has_entry(entry_id@) {
                true => {
                    let e = self@.entry_index(entry_id@);
                    lemma_entry_lookup(self@, e);
                    lemma_versions_numbered(self@, e);
                },
                false => {
                    lemma_no_versions_without_entry(self@, entry_id@);
                },
            }
            assert forall|k: int| 0 <= k < versions.len() implies (
            #[trigger] versions[k]).version_number == versions.len() - k by {
                assert(versions[k]@ == mine[n - 1 - k]);
            }
        }
        let ghost raw = versions@;
        let listed = readable_versions_of(versions);
        proof {
            assert forall|k: int| 0 <= k < listed.len() implies (
            #[trigger] listed[k]).version_number == listed.len() - k by {
                assert(listed[k]@ == readable_version(raw[k]@));
                assert(raw[k].version_number == raw.len() - k);
            }
        }
        listed
    }

    /// The version of entry `entry_id` with the highest number, which is the
    /// number of the entry's head, with the default document in place of a
    /// damaged snapshot. Absent exactly when the entry does not exist or
    /// nothing was committed of it.
    pub fn latest_version(&self, entry_id: &String) -> (r: Option<EntryVersion>)
        requires
            self.wf(),
        ensures
            match r {
                Some(v) => {
                    &&& self@.has_entry(entry_id@)
                    &&& self@.entry(entry_id@).version_head >= 1
                    &&& v@ == readable_version(
                        self@.version(entry_id@, self@.entry(entry_id@).version_head),
                    )
                    &&& exists|i: int|
                        self@.is_latest_version(i, entry_id@) && v@ == readable_version(
                            #[trigger] self@.versions[i],
                        )
                },
                None => {
                    &&& !self@.has_versions_of(entry_id@)
                    &&& !self@.has_entry(entry_id@) || self@.entry(entry_id@).version_head == 0
                },
            },
    {
        let mut best: Option<usize> = None;
        let mut i: usize = 0;
        while i < self.versions.len()
            invariant
                i <= self.versions.len(),
                match best {
                    Some(b) => b < i && self@.versions[b as int].entry_id == entry_id@ && forall|
                        j: int,
                    |
                        0 <= j < i && (#[trigger] self@.versions[j]).entry_id == entry_id@
                            ==> self@.versions[j].version_number
                            <= self@.versions[b as int].version_number,
                    None => forall|j: int|
                        0 <= j < i ==> (#[trigger] self@.versions[j]).entry_id != entry_id@,
                },
            decreases self.versions.len() - i,
        {
            assert(self@.versions[i as int] == self.versions[i as int]@);
            if self.versions[i].entry_id == *entry_id {
                match best {
                    Some(b) => {
                        assert(self@.versions[b as int] == self.versions[b as int]@);
                        if self.versions[i].version_number > self.versions[b].version_number {
                            best = Some(i);
                        }
                    },
                    None => {
                        best = Some(i);
                    },
                }
            }
            i = i + 1;
        }
        match best {
            Some(b) => {
                assert(self@.is_latest_version(b as int, entry_id@));
                assert(self@.versions[b as int] == self.versions[b as int]@);
                proof {
                    lemma_latest_is_head(self@, b as int, entry_id@);
                }
                Some(readable_version_of(self.versions[b].clone()))
            },
            None => {
                proof {
                    if self@.has_entry(entry_id@) && self@.entry(entry_id@).version_head >= 1 {
                        lemma_head_has_version(self@, entry_id@);
                    }
                }
                None
            },
        }
    }

    /// Version `number` of entry `entry_id`, if the entry has one, with the
    /// default document in place of a damaged snapshot.
    pub fn get_version(&self, entry_id: &String, number: i32) -> (r: Option<EntryVersion>)
        requires
            self.wf(),
        ensures
            match r {
                Some(v) => self@.has_version(entry_id@, number as int) && v@ == readable_version(
                    self@.version(entry_id@, number as int),
                ),
                None => !self@.has_version(entry_id@, number as int),
            },
    {
        match self.find_version(entry_id, number) {
            Some(j) => {
                proof {
                    lemma_version_lookup(self@, j as int);
                }
                assert(self@.versions[j as int] == self.versions[j as int]@);
                Some(readable_version_of(self.versions[j].clone()))
            },
            None => None,
        }
    }
}

impl Database {
    // ----- pending blocks -----------------------------------------------

    /// The row of the pending block with identifier `id`, the first if there
    /// are several.
    fn find_pending_block(&self, id: &String) -> (r: Option<usize>)
        ensures
            match r {
                Some(i) => i < self.pending_blocks.len() && self.pending_blocks[i as int].id@
                    == id@ && forall|k: int|
                    0 <= k < i ==> (#[trigger] self.pending_blocks[k]).id@ != id@,
                None => !self@.has_pending_block(id@),
            },
    {
        let mut i: usize = 0;
        while i < self.pending_blocks.len()
            invariant
                i <= self.pending_blocks.len(),
                forall|k: int| 0 <= k < i ==> self.pending_blocks[k].id@ != id@,
            decreases self.pending_blocks.len() - i,
        {
            if self.pending_blocks[i].id == *id {
                return Some(i);
            }
            i = i + 1;
        }
        assert forall|k: int| 0 <= k < self@.pending_blocks.len() implies (
        #[trigger] self@.pending_blocks[k].id) != id@ by {
            assert(self.pending_blocks[k].id@ != id@);
        }
        None
    }

    /// Records an export of stream `stream_id` under identifier `id` at time
    /// `now`. The list of staged identifiers is kept exactly as handed in,
    /// whatever is staged later. A stream may have any number of pending
    /// blocks; where none of them was created after `now`, the new block is
    /// from then on the one that a pasted response is checked against.
    ///
    /// Fails, leaving the store as it was, with `NotFound` exactly when the
    /// stream does not exist, and otherwise with `DuplicateId` exactly when a
    /// pending block with that identifier exists.
    pub fn create_pending_block(
        &mut self,
        stream_id: String,
        bridge_key: String,
        staged_context_ids: Vec<String>,
        directive: String,
        id: String,
        now: i64,
    ) -> (r: Result<PendingBlock, StoreError>)
        requires
            old(self).wf(),
        ensures
            final(self).wf(),
            match r {
                Ok(p) => {
                    &&& !old(self)@.has_pending_block(id@)
                    &&& old(self)@.has_stream(stream_id@)
                    &&& p@ == StoreView::new_pending_block(
                        id@,
                        stream_id@,
                        bridge_key@,
                        staged_context_ids.deep_view(),
                        directive@,
                        now as int,
                    )
                    &&& final(self)@ == old(self)@.insert_pending_block(p@)
                    &&& old(self)@.none_pending_after(stream_id@, now as int) ==> final(self)@
                        .is_latest_pending(old(self)@.pending_blocks.len() as int, stream_id@)
                },
                Err(e) => final(self)@ == old(self)@ && if old(self)@.has_stream(stream_id@) {
                    e == StoreError::DuplicateId && old(self)@.has_pending_block(id@)
                } else {
                    e == StoreError::NotFound
                },
            },
    {
        match self.find_stream(&stream_id) {
            None => {
                return Err(StoreError::NotFound);
            },
            Some(k) => {
                assert(self@.streams[k as int].id == stream_id@);
            },
        }
        if let Some(i) = self.find_pending_block(&id) {
            assert(self@.pending_blocks[i as int].id == id@);
            return Err(StoreError::DuplicateId);
        }
        let block = PendingBlock {
            id,
            stream_id,
            bridge_key,
            staged_context_ids,
            directive,
            created_at: now,
        };
        let copy = block.clone();
        self.pending_blocks.push(block);
        assert(self@.pending_blocks =~= old(self)@.pending_blocks.push(copy@));
        proof {
            lemma_insert_pending_block_wf(old(self)@, copy@);
            if old(self)@.none_pending_after(stream_id@, now as int) {
                law_new_pending_block_is_latest(old(self)@, copy@);
            }
        }
        Ok(copy)
    }

    /// The pending block of stream `stream_id` that a pasted response is
    /// checked against: the one created at the latest time, and of several
    /// created at that time the one recorded last. Absent if the stream has
    /// none.
    pub fn latest_pending_block(&self, stream_id: &String) -> (r: Option<PendingBlock>)
        ensures
            match r {
                Some(p) => exists|i: int|
                    self@.is_latest_pending(i, stream_id@) && p@
                        == #[trigger] self@.pending_blocks[i],
                None => !self@.has_pending_for(stream_id@),
            },
    {
        let mut best: Option<usize> = None;
        let mut i: usize = 0;
        while i < self.pending_blocks.len()
            invariant
                i <= self.pending_blocks.len(),
                match best {
                    Some(b) => b < i && self@.pending_blocks[b as int].stream_id == stream_id@
                        && forall|j: int|
                        0 <= j < i && (#[trigger] self@.pending_blocks[j]).stream_id == stream_id@
                            ==> self@.pending_blocks[j].created_at
                            < self@.pending_blocks[b as int].created_at || (
                        self@.pending_blocks[j].created_at
                            == self@.pending_blocks[b as int].created_at && j <= b),
                    None => forall|j: int|
                        0 <= j < i ==> (#[trigger] self@.pending_blocks[j]).stream_id
                            != stream_id@,
                },
            decreases self.pending_blocks.len() - i,
        {
            assert(self@.pending_blocks[i as int] == self.pending_blocks[i as int]@);
            if self.pending_blocks[i].stream_id == *stream_id {
                match best {
                    Some(b) => {
                        assert(self@.pending_blocks[b as int] == self.pending_blocks[b as int]@);
                        if self.pending_blocks[i].created_at >= self.pending_blocks[b].created_at {
                            best = Some(i);
                        }
                    },
                    None => {
                        best = Some(i);
                    },
                }
            }
            i = i + 1;
        }
        match best {
            Some(b) => {
                assert(self@.is_latest_pending(b as int, stream_id@));
                assert(self@.pending_blocks[b as int] == self.pending_blocks[b as int]@);
                Some(self.pending_blocks[b].clone())
            },
            None => None,
        }
    }

    // ----- streams, continued -------------------------------------------

    /// Replaces the title, the description and the pin of stream `stream_id`
    /// where a replacement is offered, and marks the stream as modified at
    /// `now` if anything is replaced.
    ///
    /// Fails with `NotFound`, leaving the store as it was, exactly when the
    /// stream does not exist.
    pub fn update_stream(
        &mut self,
        stream_id: &String,
        title: Option<String>,
        description: Option<String>,
        pinned: Option<bool>,
        now: i64,
    ) -> (r: Result<(), StoreError>)
        requires
            old(self).wf(),
        ensures
            final(self).wf(),
            match r {
                Ok(_) => {
                    &&& old(self)@.has_stream(stream_id@)
                    &&& final(self)@ == old(self)@.update_stream(
                        stream_id@,
                        title.deep_view(),
                        description.deep_view(),
                        pinned,
                        now as int,
                    )
                },
                Err(e) => {
                    &&& e == StoreError::NotFound
                    &&& !old(self)@.has_stream(stream_id@)
                    &&& final(self)@ == old(self)@
                },
            },
    {
        let ghost target = old(self)@.update_stream(
            stream_id@,
            title.deep_view(),
            description.deep_view(),
            pinned,
            now as int,
        );
        match self.find_stream(stream_id) {
            Some(i) => {
                proof {
                    assert(old(self)@.streams[i as int].id == stream_id@);
                    lemma_stream_row_alone(old(self)@, i as int);
                }
                let touched = title.is_some() || description.is_some() || pinned.is_some();
                if let Some(t) = title {
                    self.streams[i].title = t;
                }
                if let Some(d) = description {
                    self.streams[i].description = Some(d);
                }
                if let Some(p) = pinned {
                    self.streams[i].pinned = p;
                }
                if touched {
                    self.streams[i].updated_at = now;
                }
                assert(old(self)@.streams[i as int].id == stream_id@);
                assert(self@.streams =~= target.streams);
            },
            None => {
                return Err(StoreError::NotFound);
            },
        }
        assert(self@ =~= target);
        proof {
            lemma_rekeyed_wf(old(self)@, self@);
        }
        Ok(())
    }

    /// Stream `stream_id` with its entries in ascending order of their
    /// sequence numbers. An entry whose stored content is damaged is shown
    /// with the default document; the read does not fail on its account.
    /// Fails with `NotFound` exactly when the stream does not exist.
    pub fn stream_details(&self, stream_id: &String) -> (r: Result<StreamWithEntries, StoreError>)
        requires
            self.wf(),
        ensures
            match r {
                Ok(d) => {
                    &&& self@.has_stream(stream_id@)
                    &&& d@.stream == self@.stream(stream_id@)
                    &&& d@.entries == readable_entries(self@.entries_of(stream_id@))
                    &&& forall|i: int, j: int|
                        0 <= i < j < d.entries.len() ==> (#[trigger] d.entries[i]).sequence_id < (
                        #[trigger] d.entries[j]).sequence_id
                },
                Err(e) => e == StoreError::NotFound && !self@.has_stream(stream_id@),
            },
    {
        let s = match self.find_stream(stream_id) {
            None => {
                return Err(StoreError::NotFound);
            },
            Some(s) => s,
        };
        proof {
            assert(self@.streams[s as int] == self.streams[s as int]@);
            lemma_stream_lookup(self@, s as int);
        }
        let ghost all = self@.entries;
        let ghost keep = |e: EntryView| e.stream_id == stream_id@;
        let mut entries: Vec<Entry> = Vec::new();
        assert(entries.deep_view() =~= all.take(0).filter(keep)) by {
            reveal(Seq::filter);
        }
        let mut i: usize = 0;
        while i < self.entries.len()
            invariant
                i <= self.entries.len(),
                all == self@.entries,
                forall|e: EntryView| #[trigger] keep(e) == (e.stream_id == stream_id@),
                entries.deep_view() == all.take(i as int).filter(keep),
            decreases self.entries.len() - i,
        {
            proof {
                lemma_filter_take_next(all, i as int, keep);
            }
            let ghost before = entries.deep_view();
            if self.entries[i].stream_id == *stream_id {
                entries.push(self.entries[i].clone());
                assert(entries.deep_view() =~= before.push(all[i as int]));
            }
            i = i + 1;
        }
        assert(all.take(all.len() as int) =~= all);
        proof {
            lemma_entries_in_sequence(self@, stream_id@);
            let f = self@.entries_of(stream_id@);
            assert forall|i: int, j: int| 0 <= i < j < entries.len() implies (
            #[trigger] entries[i]).sequence_id < (#[trigger] entries[j]).sequence_id by {
                assert(entries[i]@ == f[i] && entries[j]@ == f[j]);
            }
        }
        let ghost raw = entries@;
        let listed = readable_entries_of(entries);
        proof {
            assert forall|i: int, j: int| 0 <= i < j < listed.len() implies (
            #[trigger] listed[i]).sequence_id < (#[trigger] listed[j]).sequence_id by {
                assert(listed[i]@ == readable_entry(raw[i]@));
                assert(listed[j]@ == readable_entry(raw[j]@));
                assert(raw[i].sequence_id < raw[j].sequence_id);
            }
        }
        Ok(StreamWithEntries { stream: self.streams[s].clone(), entries: listed })
    }
}

impl Database {
    // ----- listing streams ----------------------------------------------

    /// Whether stream `a` is listed before stream `b`.
    fn listed_first(&self, a: usize, b: usize) -> (r: bool)
        requires
            a < self.streams.len(),
            b < self.streams.len(),
        ensures
            r == self@.listed_before(a as int, b as int),
    {
        assert(self@.streams[a as int] == self.streams[a as int]@);
        assert(self@.streams[b as int] == self.streams[b as int]@);
        let x = &self.streams[a];
        let y = &self.streams[b];
        (x.pinned && !y.pinned) || (x.pinned == y.pinned && x.updated_at > y.updated_at) || (
        x.pinned == y.pinned && x.updated_at == y.updated_at && a < b)
    }

    /// The rows of the stream table in the order in which they are listed.
    fn stream_order(&self) -> (order: Vec<usize>)
        ensures
            self@.is_stream_listing(order@.map_values(|i: usize| i as int)),
    {
        let n = self.streams.len();
        let mut order: Vec<usize> = Vec::new();
        let mut i: usize = 0;
        while i < n
            invariant
                n == self.streams.len(),
                i <= n,
                order.len() == i,
                forall|k: int| 0 <= k < order.len() ==> (#[trigger] order[k]) < i,
                forall|j: int| 0 <= j < i ==> #[trigger] names(order@, j),
                forall|k: int, l: int|
                    0 <= k < l < order.len() ==> self@.listed_before(
                        (#[trigger] order[k]) as int,
                        (#[trigger] order[l]) as int,
                    ),
            decreases n - i,
        {
            let mut p: usize = 0;
            while p < order.len() && !self.listed_first(i, order[p])
                invariant
                    n == self.streams.len(),
                    i < n,
                    p <= order.len(),
                    forall|k: int| 0 <= k < order.len() ==> (#[trigger] order[k]) < i,
                    forall|k: int|
                        0 <= k < p ==> self@.listed_before((#[trigger] order[k]) as int, i as int),
                decreases order.len() - p,
            {
                p = p + 1;
            }
            let ghost before = order@;
            order.insert(p, i);
            proof {
                assert forall|k: int| 0 <= k < order.len() implies (#[trigger] order[k]) < i + 1 by {
                    if k < p {
                        assert(order[k] == before[k]);
                    } else if k > p {
                        assert(order[k] == before[k - 1]);
                    }
                }
                assert forall|k: int, l: int| 0 <= k < l < order.len() implies self@.listed_before(
                    (#[trigger] order[k]) as int,
                    (#[trigger] order[l]) as int,
                ) by {
                    if l < p {
                        assert(order[k] == before[k] && order[l] == before[l]);
                    } else if l == p {
                        assert(order[k] == before[k]);
                    } else if k < p {
                        assert(order[k] == before[k] && order[l] == before[l - 1]);
                    } else if k == p {
                        assert(order[l] == before[l - 1]);
                        assert(self@.listed_before(i as int, before[p as int] as int));
                        if l - 1 > p {
                            assert(self@.listed_before(
                                before[p as int] as int,
                                before[l - 1] as int,
                            ));
                        }
                    } else {
                        assert(order[k] == before[k - 1] && order[l] == before[l - 1]);
                    }
                }
                assert forall|j: int| 0 <= j < i + 1 implies #[trigger] names(order@, j) by {
                    if j < i {
                        assert(names(before, j));
                        let k = choose|k: int|
                            0 <= k < before.len() && (#[trigger] before[k]) as int == j;
                        if k < p {
                            assert(order[k] == before[k]);
                        } else {
                            assert(order[k + 1] == before[k]);
                        }
                    } else {
                        assert(order[p as int] == i);
                    }
                }
            }
            i = i + 1;
        }
        proof {
            let listing = order@.map_values(|i: usize| i as int);
            assert forall|k: int, l: int| 0 <= k < l < listing.len() implies self@.listed_before(
                #[trigger] listing[k],
                #[trigger] listing[l],
            ) by {
                assert(listing[k] == order[k] as int && listing[l] == order[l] as int);
            }
            assert forall|j: int| 0 <= j < self@.streams.len() implies #[trigger] listing.contains(
                j,
            ) by {
                assert(names(order@, j));
                let k = choose|k: int| 0 <= k < order.len() && (#[trigger] order@[k]) as int == j;
                assert(listing[k] == j);
            }
        }
        order
    }

    /// The number of entries of stream `stream_id`.
    fn count_entries(&self, stream_id: &String) -> (count: i64)
        requires
            self@.entries.len() <= i64::MAX,
        ensures
            count == self@.entries_of(stream_id@).len(),
    {
        let ghost all = self@.entries;
        let ghost of = |e: EntryView| e.stream_id == stream_id@;
        let mut count: i64 = 0;
        assert(all.take(0).filter(of).len() == 0) by {
            reveal(Seq::filter);
        }
        let mut i: usize = 0;
        while i < self.entries.len()
            invariant
                i <= self.entries.len(),
                all == self@.entries,
                all.len() <= i64::MAX,
                forall|e: EntryView| #[trigger] of(e) == (e.stream_id == stream_id@),
                count == all.take(i as int).filter(of).len(),
                count <= i,
            decreases self.entries.len() - i,
        {
            proof {
                lemma_filter_take_next(all, i as int, of);
            }
            if self.entries[i].stream_id == *stream_id {
                count = count + 1;
            }
            i = i + 1;
        }
        assert(all.take(all.len() as int) =~= all);
        count
    }

    /// The summaries of all streams: pinned streams first, then the more
    /// recently modified, and of streams modified at the same time the one
    /// created earlier. Each summary counts the entries of its stream. The
    /// number of entries must fit the count.
    pub fn list_streams(&self) -> (summaries: Vec<StreamMetadata>)
        requires
            self@.entries.len() <= i64::MAX,
        ensures
            summaries.len() == self@.streams.len(),
            exists|order: Seq<int>| #[trigger]
                self@.is_stream_listing(order) && summaries.deep_view() == order.map_values(
                    |i: int| self@.stream_summary(i),
                ),
    {
        let order = self.stream_order();
        let ghost listing = order@.map_values(|i: usize| i as int);
        let mut summaries: Vec<StreamMetadata> = Vec::new();
        let mut k: usize = 0;
        while k < order.len()
            invariant
                k <= order.len(),
                self@.entries.len() <= i64::MAX,
                listing == order@.map_values(|i: usize| i as int),
                self@.is_stream_listing(listing),
                summaries.len() == k,
                forall|j: int|
                    0 <= j < k ==> (#[trigger] summaries[j])@ == self@.stream_summary(listing[j]),
            decreases order.len() - k,
        {
            let i = order[k];
            assert(listing[k as int] == i as int);
            assert(0 <= listing[k as int] < self@.streams.len());
            assert(self@.streams[i as int] == self.streams[i as int]@);
            let s = &self.streams[i];
            let summary = StreamMetadata {
                id: s.id.clone(),
                title: s.title.clone(),
                entry_count: self.count_entries(&s.id),
                last_updated: s.updated_at,
                pinned: s.pinned,
                color: clone_optional_string(&s.color),
                tags: clone_strings(&s.tags),
            };
            summaries.push(summary);
            k = k + 1;
        }
        assert(summaries.deep_view() =~= listing.map_values(|i: int| self@.stream_summary(i)));
        summaries
    }
}

/// At most this many entries are found by one search.
pub const SEARCH_LIMIT: usize = 50;

/// Whether `query` stands in `content` at position `k`, ASCII letters taken
/// without regard to their case.
fn occurs_here(content: &Vec<char>, query: &Vec<char>, k: usize) -> (r: bool)
    requires
        k + query.len() <= content.len(),
    ensures
        r == occurs_at(content@, query@, k as int),
{
    let ghost part = lowered(content@.subrange(k as int, k + query.len()));
    let mut j: usize = 0;
    while j < query.len()
        invariant
            j <= query.len(),
            k + query.len() <= content.len(),
            part == lowered(content@.subrange(k as int, k + query.len())),
            forall|m: int| 0 <= m < j ==> lower(content@[k + m]) == lower(#[trigger] query@[m]),
        decreases query.len() - j,
    {
        if to_lower(content[k + j]) != to_lower(query[j]) {
            proof {
                assert(part[j as int] == lower(content@[k + j]));
                assert(lowered(query@)[j as int] == lower(query@[j as int]));
            }
            return false;
        }
        j = j + 1;
    }
    proof {
        assert forall|m: int| 0 <= m < query.len() implies part[m] == lowered(query@)[m] by {
            assert(part[m] == lower(content@[k + m]));
        }
        assert(part =~= lowered(query@));
    }
    true
}

/// Whether `query` stands somewhere in `content`, ASCII letters taken without
/// regard to their case.
pub fn holds_text(content: &Vec<char>, query: &Vec<char>) -> (r: bool)
    ensures
        r == contains_text(content@, query@),
{
    if query.len() > content.len() {
        return false;
    }
    let last = content.len() - query.len();
    let mut k: usize = 0;
    while k < last
        invariant
            last == content.len() - query.len(),
            k <= last,
            forall|m: int| 0 <= m < k ==> !occurs_at(content@, query@, m),
        decreases last - k,
    {
        if occurs_here(content, query, k) {
            return true;
        }
        k = k + 1;
    }
    occurs_here(content, query, last)
}

/// Row `j` is among those that `order` names.
spec fn names(order: Seq<usize>, j: int) -> bool {
    exists|k: int| 0 <= k < order.len() && (#[trigger] order[k]) as int == j
}

/// Every entry that `order` names is found before entry `j`.
spec fn names_only_earlier(db: StoreView, order: Seq<usize>, j: int) -> bool {
    forall|k: int| 0 <= k < order.len() ==> db.found_before((#[trigger] order[k]) as int, j)
}

impl Database {
    // ----- search -------------------------------------------------------

    /// Whether entry `a` is found before entry `b`.
    fn found_first(&self, a: usize, b: usize) -> (r: bool)
        requires
            a < self.entries.len(),
            b < self.entries.len(),
        ensures
            r == self@.found_before(a as int, b as int),
    {
        assert(self@.entries[a as int] == self.entries[a as int]@);
        assert(self@.entries[b as int] == self.entries[b as int]@);
        self.entries[a].updated_at > self.entries[b].updated_at || (self.entries[a].updated_at
            == self.entries[b].updated_at && a < b)
    }

    /// The rows of the entries that a search for `query` finds, in order.
    fn search_order(&self, query: &Vec<char>) -> (order: Vec<usize>)
        ensures
            self@.is_search_result(
                order@.map_values(|i: usize| i as int),
                query@,
                SEARCH_LIMIT as int,
            ),
    {
        let n = self.entries.len();
        let mut order: Vec<usize> = Vec::new();
        let mut i: usize = 0;
        while i < n
            invariant
                n == self.entries.len(),
                i <= n,
                order.len() <= SEARCH_LIMIT,
                forall|k: int|
                    0 <= k < order.len() ==> (#[trigger] order[k]) < i && self@.is_hit(
                        order[k] as int,
                        query@,
                    ),
                forall|k: int, l: int|
                    0 <= k < l < order.len() ==> self@.found_before(
                        (#[trigger] order[k]) as int,
                        (#[trigger] order[l]) as int,
                    ),
                forall|j: int|
                    0 <= j < i && #[trigger] self@.is_hit(j, query@) ==> names(order@, j) || (
                    order.len() == SEARCH_LIMIT && names_only_earlier(self@, order@, j)),
            decreases n - i,
        {
            assert(self@.entries[i as int] == self.entries[i as int]@);
            let content = chars_of(self.entries[i].content.as_str());
            if holds_text(&content, query) {
                let mut p: usize = 0;
                while p < order.len() && !self.found_first(i, order[p])
                    invariant
                        n == self.entries.len(),
                        i < n,
                        p <= order.len(),
                        forall|k: int| 0 <= k < order.len() ==> (#[trigger] order[k]) < i,
                        forall|k: int|
                            0 <= k < p ==> self@.found_before(
                                (#[trigger] order[k]) as int,
                                i as int,
                            ),
                    decreases order.len() - p,
                {
                    p = p + 1;
                }
                let ghost before = order@;
                order.insert(p, i);
                let ghost grown = order@;
                proof {
                    assert forall|k: int| 0 <= k < grown.len() implies (#[trigger] grown[k]) < i
                        + 1 && self@.is_hit(grown[k] as int, query@) by {
                        if k < p {
                            assert(grown[k] == before[k]);
                        } else if k > p {
                            assert(grown[k] == before[k - 1]);
                        }
                    }
                    assert forall|k: int, l: int| 0 <= k < l < grown.len() implies self@.found_before(
                        (#[trigger] grown[k]) as int,
                        (#[trigger] grown[l]) as int,
                    ) by {
                        if l < p {
                            assert(grown[k] == before[k] && grown[l] == before[l]);
                        } else if l == p {
                            assert(grown[k] == before[k]);
                        } else if k < p {
                            assert(grown[k] == before[k] && grown[l] == before[l - 1]);
                        } else if k == p {
                            assert(grown[l] == before[l - 1]);
                            assert(self@.found_before(i as int, before[p as int] as int));
                            if l - 1 > p {
                                assert(self@.found_before(
                                    before[p as int] as int,
                                    before[l - 1] as int,
                                ));
                            }
                        } else {
                            assert(grown[k] == before[k - 1] && grown[l] == before[l - 1]);
                        }
                    }
                    // every row named before is still named
                    assert forall|j: int| names(before, j) implies names(grown, j) by {
                        let k = choose|k: int| 0 <= k < before.len() && (#[trigger] before[k]) as int == j;
                        if k < p {
                            assert(grown[k] == before[k]);
                        } else {
                            assert(grown[k + 1] == before[k]);
                        }
                    }
                    assert(grown[p as int] == i);
                    assert(names(grown, i as int));
                }
                if order.len() > SEARCH_LIMIT {
                    order.pop();
                    proof {
                        let kept = order@;
                        let dropped = grown[SEARCH_LIMIT as int];
                        assert(kept =~= grown.drop_last());
                        assert forall|k: int| 0 <= k < kept.len() implies self@.found_before(
                            (#[trigger] kept[k]) as int,
                            dropped as int,
                        ) by {
                            assert(kept[k] == grown[k]);
                        }
                        assert forall|j: int|
                            0 <= j < i + 1 && #[trigger] self@.is_hit(j, query@) implies names(
                            kept,
                            j,
                        ) || (kept.len() == SEARCH_LIMIT && names_only_earlier(self@, kept, j)) by {
                            if names(grown, j) {
                                let k = choose|k: int|
                                    0 <= k < grown.len() && (#[trigger] grown[k]) as int == j;
                                if k < kept.len() {
                                    assert(kept[k] == grown[k]);
                                } else {
                                    assert(j == dropped);
                                }
                            } else {
                                // it was left out before: all rows named before come first
                                assert(j < i);
                                assert(names_only_earlier(self@, before, j));
                                assert forall|k: int| 0 <= k < kept.len() implies self@.found_before(
                                    (#[trigger] kept[k]) as int,
                                    j,
                                ) by {
                                    assert(kept[k] == grown[k]);
                                    if k < p {
                                        assert(grown[k] == before[k]);
                                    } else if k == p {
                                        assert(self@.found_before(i as int, before[p as int] as int));
                                        assert(self@.found_before(before[p as int] as int, j));
                                    } else {
                                        assert(grown[k] == before[k - 1]);
                                    }
                                }
                            }
                        }
                    }
                } else {
                    proof {
                        assert forall|j: int|
                            0 <= j < i + 1 && #[trigger] self@.is_hit(j, query@) implies names(
                            grown,
                            j,
                        ) || (grown.len() == SEARCH_LIMIT && names_only_earlier(self@, grown, j)) by {
                            if j < i {
                                assert(names(before, j));
                            }
                        }
                    }
                }
            } else {
                assert(!self@.is_hit(i as int, query@));
            }
            i = i + 1;
        }
        proof {
            let listing = order@.map_values(|i: usize| i as int);
            assert forall|k: int| 0 <= k < listing.len() implies self@.is_hit(
                #[trigger] listing[k],
                query@,
            ) by {
                assert(listing[k] == order[k] as int);
            }
            assert forall|k: int, l: int| 0 <= k < l < listing.len() implies self@.found_before(
                #[trigger] listing[k],
                #[trigger] listing[l],
            ) by {
                assert(listing[k] == order[k] as int && listing[l] == order[l] as int);
            }
            assert forall|j: int| #[trigger] self@.is_hit(j, query@) implies listing.contains(j)
                || (listing.len() == SEARCH_LIMIT && self@.all_found_before(listing, j)) by {
                if names(order@, j) {
                    let k = choose|k: int| 0 <= k < order.len() && (#[trigger] order@[k]) as int == j;
                    assert(listing[k] == j);
                } else {
                    assert(names_only_earlier(self@, order@, j));
                    assert forall|k: int| 0 <= k < listing.len() implies self@.found_before(
                        #[trigger] listing[k],
                        j,
                    ) by {
                        assert(listing[k] == order[k] as int);
                    }
                }
            }
        }
        order
    }

    /// The entries whose stored content holds `query`, ASCII letters taken
    /// without regard to their case: the more recently modified first, of
    /// entries modified at the same time the one created earlier, and no more
    /// than [`SEARCH_LIMIT`] of them. The empty query finds every entry. The
    /// entries are handed out as any read hands them out.
    pub fn search(&self, query: &String) -> (listed: Vec<Entry>)
        ensures
            exists|order: Seq<int>| #[trigger]
                self@.is_search_result(order, query@, SEARCH_LIMIT as int) && listed.deep_view()
                    == readable_entries(order.map_values(|i: int| self@.entries[i])),
    {
        let q = chars_of(query.as_str());
        let order = self.search_order(&q);
        let ghost listing = order@.map_values(|i: usize| i as int);
        let mut found: Vec<Entry> = Vec::new();
        let mut k: usize = 0;
        while k < order.len()
            invariant
                k <= order.len(),
                listing == order@.map_values(|i: usize| i as int),
                self@.is_search_result(listing, query@, SEARCH_LIMIT as int),
                found.len() == k,
                forall|j: int| 0 <= j < k ==> (#[trigger] found[j])@ == self@.entries[listing[j]],
            decreases order.len() - k,
        {
            let i = order[k];
            assert(listing[k as int] == i as int);
            assert(self@.is_hit(listing[k as int], query@));
            assert(self@.entries[i as int] == self.entries[i as int]@);
            found.push(self.entries[i].clone());
            k = k + 1;
        }
        assert(found.deep_view() =~= listing.map_values(|i: int| self@.entries[i]));
        readable_entries_of(found)
    }
}

impl Database {
    // ----- taking tables in and handing them out ------------------------

    /// Whether no identifier occurs twice in a table.
    fn ids_are_unique(&self) -> (r: bool)
        ensures
            r == self@.ids_unique(),
    {
        let mut i: usize = 0;
        while i < self.streams.len()
            invariant
                i <= self.streams.len(),
                forall|a: int, b: int|
                    0 <= a < b < i ==> (#[trigger] self@.streams[a]).id != (
                    #[trigger] self@.streams[b]).id,
            decreases self.streams.len() - i,
        {
            match self.find_stream(&self.streams[i].id) {
                Some(j) => {
                    if j != i {
                        assert(self@.streams[j as int].id == self@.streams[i as int].id);
                        return false;
                    }
                    assert forall|a: int| 0 <= a < i implies (#[trigger] self@.streams[a]).id
                        != self@.streams[i as int].id by {
                        assert(self.streams[a].id@ != self.streams[i as int].id@);
                    }
                },
                None => {
                    assert(self@.streams[i as int].id == self.streams[i as int].id@);
                },
            }
            i = i + 1;
        }
        let mut i: usize = 0;
        while i < self.entries.len()
            invariant
                i <= self.entries.len(),
                forall|a: int, b: int|
                    0 <= a < b < self@.streams.len() ==> (#[trigger] self@.streams[a]).id != (
                    #[trigger] self@.streams[b]).id,
                forall|a: int, b: int|
                    0 <= a < b < i ==> (#[trigger] self@.entries[a]).id != (
                    #[trigger] self@.entries[b]).id,
            decreases self.entries.len() - i,
        {
            match self.find_entry(&self.entries[i].id) {
                Some(j) => {
                    if j != i {
                        assert(self@.entries[j as int].id == self@.entries[i as int].id);
                        return false;
                    }
                    assert forall|a: int| 0 <= a < i implies (#[trigger] self@.entries[a]).id
                        != self@.entries[i as int].id by {
                        assert(self.entries[a].id@ != self.entries[i as int].id@);
                    }
                },
                None => {
                    assert(self@.entries[i as int].id == self.entries[i as int].id@);
                },
            }
            i = i + 1;
        }
        let mut i: usize = 0;
        while i < self.versions.len()
            invariant
                i <= self.versions.len(),
                forall|a: int, b: int|
                    0 <= a < b < self@.streams.len() ==> (#[trigger] self@.streams[a]).id != (
                    #[trigger] self@.streams[b]).id,
                forall|a: int, b: int|
                    0 <= a < b < self@.entries.len() ==> (#[trigger] self@.entries[a]).id != (
                    #[trigger] self@.entries[b]).id,
                forall|a: int, b: int|
                    0 <= a < b < i ==> (#[trigger] self@.versions[a]).id != (
                    #[trigger] self@.versions[b]).id,
            decreases self.versions.len() - i,
        {
            match self.find_version_id(&self.versions[i].id) {
                Some(j) => {
                    if j != i {
                        assert(self@.versions[j as int].id == self@.versions[i as int].id);
                        return false;
                    }
                    assert forall|a: int| 0 <= a < i implies (#[trigger] self@.versions[a]).id
                        != self@.versions[i as int].id by {
                        assert(self.versions[a].id@ != self.versions[i as int].id@);
                    }
                },
                None => {
                    assert(self@.versions[i as int].id == self.versions[i as int].id@);
                },
            }
            i = i + 1;
        }
        let mut i: usize = 0;
        while i < self.pending_blocks.len()
            invariant
                i <= self.pending_blocks.len(),
                forall|a: int, b: int|
                    0 <= a < b < self@.streams.len() ==> (#[trigger] self@.streams[a]).id != (
                    #[trigger] self@.streams[b]).id,
                forall|a: int, b: int|
                    0 <= a < b < self@.entries.len() ==> (#[trigger] self@.entries[a]).id != (
                    #[trigger] self@.entries[b]).id,
                forall|a: int, b: int|
                    0 <= a < b < self@.versions.len() ==> (#[trigger] self@.versions[a]).id != (
                    #[trigger] self@.versions[b]).id,
                forall|a: int, b: int|
                    0 <= a < b < i ==> (#[trigger] self@.pending_blocks[a]).id != (
                    #[trigger] self@.pending_blocks[b]).id,
            decreases self.pending_blocks.len() - i,
        {
            match self.find_pending_block(&self.pending_blocks[i].id) {
                Some(j) => {
                    if j != i {
                        assert(self@.pending_blocks[j as int].id == self@.pending_blocks[i as int].id);
                        return false;
                    }
                    assert forall|a: int| 0 <= a < i implies (
                    #[trigger] self@.pending_blocks[a]).id != self@.pending_blocks[i as int].id by {
                        assert(self.pending_blocks[a].id@ != self.pending_blocks[i as int].id@);
                    }
                },
                None => {
                    assert(self@.pending_blocks[i as int].id == self.pending_blocks[i as int].id@);
                },
            }
            i = i + 1;
        }
        true
    }

    /// Whether every row belongs to a row of the store.
    fn references_are_held(&self) -> (r: bool)
        ensures
            r == self@.references_hold(),
    {
        let mut i: usize = 0;
        while i < self.entries.len()
            invariant
                i <= self.entries.len(),
                forall|k: int| 0 <= k < i ==> self@.has_stream((#[trigger] self@.entries[k]).stream_id),
            decreases self.entries.len() - i,
        {
            assert(self@.entries[i as int] == self.entries[i as int]@);
            match self.find_stream(&self.entries[i].stream_id) {
                None => {
                    return false;
                },
                Some(s) => {
                    assert(self@.streams[s as int].id == self.entries[i as int].stream_id@);
                },
            }
            i = i + 1;
        }
        let mut i: usize = 0;
        while i < self.versions.len()
            invariant
                i <= self.versions.len(),
                forall|k: int|
                    0 <= k < self@.entries.len() ==> self@.has_stream(
                        (#[trigger] self@.entries[k]).stream_id,
                    ),
                forall|k: int| 0 <= k < i ==> self@.has_entry((#[trigger] self@.versions[k]).entry_id),
            decreases self.versions.len() - i,
        {
            assert(self@.versions[i as int] == self.versions[i as int]@);
            match self.find_entry(&self.versions[i].entry_id) {
                None => {
                    return false;
                },
                Some(e) => {
                    assert(self@.entries[e as int].id == self.versions[i as int].entry_id@);
                },
            }
            i = i + 1;
        }
        let mut i: usize = 0;
        while i < self.pending_blocks.len()
            invariant
                i <= self.pending_blocks.len(),
                forall|k: int|
                    0 <= k < self@.entries.len() ==> self@.has_stream(
                        (#[trigger] self@.entries[k]).stream_id,
                    ),
                forall|k: int|
                    0 <= k < self@.versions.len() ==> self@.has_entry(
                        (#[trigger] self@.versions[k]).entry_id,
                    ),
                forall|k: int|
                    0 <= k < i ==> self@.has_stream((#[trigger] self@.pending_blocks[k]).stream_id),
            decreases self.pending_blocks.len() - i,
        {
            assert(self@.pending_blocks[i as int] == self.pending_blocks[i as int]@);
            match self.find_stream(&self.pending_blocks[i].stream_id) {
                None => {
                    return false;
                },
                Some(s) => {
                    assert(self@.streams[s as int].id == self.pending_blocks[i as int].stream_id@);
                },
            }
            i = i + 1;
        }
        true
    }

    /// Whether the sequence numbers start at 1 and grow within each stream.
    fn sequences_are_ordered(&self) -> (r: bool)
        ensures
            r == self@.sequences_ordered(),
    {
        let mut j: usize = 0;
        while j < self.entries.len()
            invariant
                j <= self.entries.len(),
                forall|k: int| 0 <= k < j ==> (#[trigger] self@.entries[k]).sequence_id >= 1,
                forall|a: int, b: int|
                    0 <= a < b < j && (#[trigger] self@.entries[a]).stream_id == (
                    #[trigger] self@.entries[b]).stream_id ==> self@.entries[a].sequence_id
                        < self@.entries[b].sequence_id,
            decreases self.entries.len() - j,
        {
            assert(self@.entries[j as int] == self.entries[j as int]@);
            if self.entries[j].sequence_id < 1 {
                return false;
            }
            let mut i: usize = 0;
            while i < j
                invariant
                    i <= j < self.entries.len(),
                    forall|a: int|
                        0 <= a < i && (#[trigger] self@.entries[a]).stream_id
                            == self@.entries[j as int].stream_id ==> self@.entries[a].sequence_id
                            < self@.entries[j as int].sequence_id,
                decreases j - i,
            {
                assert(self@.entries[i as int] == self.entries[i as int]@);
                assert(self@.entries[j as int] == self.entries[j as int]@);
                if self.entries[i].stream_id == self.entries[j].stream_id
                    && self.entries[i].sequence_id >= self.entries[j].sequence_id {
                    return false;
                }
                i = i + 1;
            }
            j = j + 1;
        }
        true
    }

    /// Whether no entry has a sequence number beyond the last that its
    /// stream remembers.
    fn sequences_are_remembered(&self) -> (r: bool)
        ensures
            r == self@.sequences_remembered(),
    {
        let mut s: usize = 0;
        while s < self.streams.len()
            invariant
                s <= self.streams.len(),
                forall|k: int| 0 <= k < s ==> (#[trigger] self@.streams[k]).last_sequence_id >= 0,
                forall|e: int, k: int|
                    0 <= e < self@.entries.len() && 0 <= k < s && (
                    #[trigger] self@.entries[e]).stream_id == (#[trigger] self@.streams[k]).id
                        ==> self@.entries[e].sequence_id <= self@.streams[k].last_sequence_id,
            decreases self.streams.len() - s,
        {
            assert(self@.streams[s as int] == self.streams[s as int]@);
            if self.streams[s].last_sequence_id < 0 {
                return false;
            }
            let mut e: usize = 0;
            while e < self.entries.len()
                invariant
                    e <= self.entries.len(),
                    s < self.streams.len(),
                    forall|x: int|
                        0 <= x < e && (#[trigger] self@.entries[x]).stream_id
                            == self@.streams[s as int].id ==> self@.entries[x].sequence_id
                            <= self@.streams[s as int].last_sequence_id,
                decreases self.entries.len() - e,
            {
                assert(self@.entries[e as int] == self.entries[e as int]@);
                assert(self@.streams[s as int] == self.streams[s as int]@);
                if self.entries[e].stream_id == self.streams[s].id && self.entries[e].sequence_id
                    > self.streams[s].last_sequence_id {
                    return false;
                }
                e = e + 1;
            }
            s = s + 1;
        }
        true
    }

    /// Whether the versions of each entry are numbered from 1 to its head.
    fn ledgers_are_contiguous(&self) -> (r: bool)
        ensures
            r == self@.ledgers_contiguous(),
    {
        let mut e: usize = 0;
        while e < self.entries.len()
            invariant
                e <= self.entries.len(),
                forall|k: int| 0 <= k < e ==> (#[trigger] self@.entries[k]).version_head >= 0,
                forall|k: int, n: int|
                    0 <= k < e && 1 <= n <= self@.entries[k].version_head
                        ==> #[trigger] self@.has_version(self@.entries[k].id, n),
                forall|i: int, k: int|
                    0 <= i < self@.versions.len() && 0 <= k < e && (
                    #[trigger] self@.versions[i]).entry_id == (#[trigger] self@.entries[k]).id ==> 1
                        <= self@.versions[i].version_number <= self@.entries[k].version_head,
            decreases self.entries.len() - e,
        {
            assert(self@.entries[e as int] == self.entries[e as int]@);
            let head = self.entries[e].version_head;
            if head < 0 {
                return false;
            }
            let mut n: i32 = 0;
            while n < head
                invariant
                    e < self.entries.len(),
                    0 <= n <= head,
                    head == self@.entries[e as int].version_head,
                    forall|m: int|
                        1 <= m <= n ==> #[trigger] self@.has_version(self@.entries[e as int].id, m),
                decreases head - n,
            {
                n = n + 1;
                assert(self@.entries[e as int] == self.entries[e as int]@);
                if self.find_version(&self.entries[e].id, n).is_none() {
                    assert(!self@.has_version(self@.entries[e as int].id, n as int));
                    return false;
                }
            }
            let mut i: usize = 0;
            while i < self.versions.len()
                invariant
                    e < self.entries.len(),
                    i <= self.versions.len(),
                    head == self@.entries[e as int].version_head,
                    forall|a: int|
                        0 <= a < i && (#[trigger] self@.versions[a]).entry_id
                            == self@.entries[e as int].id ==> 1 <= self@.versions[a].version_number
                            <= head,
                decreases self.versions.len() - i,
            {
                assert(self@.entries[e as int] == self.entries[e as int]@);
                assert(self@.versions[i as int] == self.versions[i as int]@);
                if self.versions[i].entry_id == self.entries[e].id && (
                self.versions[i].version_number < 1 || self.versions[i].version_number > head) {
                    return false;
                }
                i = i + 1;
            }
            e = e + 1;
        }
        let mut j: usize = 0;
        while j < self.versions.len()
            invariant
                j <= self.versions.len(),
                forall|k: int|
                    0 <= k < self@.entries.len() ==> (#[trigger] self@.entries[k]).version_head >= 0,
                forall|k: int, n: int|
                    0 <= k < self@.entries.len() && 1 <= n <= self@.entries[k].version_head
                        ==> #[trigger] self@.has_version(self@.entries[k].id, n),
                forall|i: int, k: int|
                    0 <= i < self@.versions.len() && 0 <= k < self@.entries.len() && (
                    #[trigger] self@.versions[i]).entry_id == (#[trigger] self@.entries[k]).id ==> 1
                        <= self@.versions[i].version_number <= self@.entries[k].version_head,
                forall|a: int, b: int|
                    0 <= a < b < j && (#[trigger] self@.versions[a]).entry_id == (
                    #[trigger] self@.versions[b]).entry_id ==> self@.versions[a].version_number
                        < self@.versions[b].version_number,
            decreases self.versions.len() - j,
        {
            let mut i: usize = 0;
            while i < j
                invariant
                    i <= j < self.versions.len(),
                    forall|a: int|
                        0 <= a < i && (#[trigger] self@.versions[a]).entry_id
                            == self@.versions[j as int].entry_id
                            ==> self@.versions[a].version_number
                            < self@.versions[j as int].version_number,
                decreases j - i,
            {
                assert(self@.versions[i as int] == self.versions[i as int]@);
                assert(self@.versions[j as int] == self.versions[j as int]@);
                if self.versions[i].entry_id == self.versions[j].entry_id
                    && self.versions[i].version_number >= self.versions[j].version_number {
                    return false;
                }
                i = i + 1;
            }
            j = j + 1;
        }
        true
    }

    /// A store that holds the given tables, each in the order in which its
    /// rows were created, if together they are well-formed; nothing
    /// otherwise.
    pub fn restore(
        streams: Vec<Stream>,
        entries: Vec<Entry>,
        versions: Vec<EntryVersion>,
        pending_blocks: Vec<PendingBlock>,
    ) -> (r: Option<Database>)
        ensures
            match r {
                Some(db) => db.wf() && db@ == (StoreView {
                    streams: streams.deep_view(),
                    entries: entries.deep_view(),
                    versions: versions.deep_view(),
                    pending_blocks: pending_blocks.deep_view(),
                }),
                None => !(StoreView {
                    streams: streams.deep_view(),
                    entries: entries.deep_view(),
                    versions: versions.deep_view(),
                    pending_blocks: pending_blocks.deep_view(),
                }).wf(),
            },
    {
        let db = Database { streams, entries, versions, pending_blocks };
        if db.ids_are_unique() && db.references_are_held() && db.sequences_are_ordered()
            && db.sequences_are_remembered() && db.ledgers_are_contiguous() {
            Some(db)
        } else {
            None
        }
    }

    /// The stream table, in creation order.
    pub fn streams(&self) -> (rows: &Vec<Stream>)
        ensures
            rows.deep_view() == self@.streams,
    {
        &self.streams
    }

    /// The entry table, in creation order.
    pub fn entries(&self) -> (rows: &Vec<Entry>)
        ensures
            rows.deep_view() == self@.entries,
    {
        &self.entries
    }

    /// The version table, in commit order.
    pub fn versions(&self) -> (rows: &Vec<EntryVersion>)
        ensures
            rows.deep_view() == self@.versions,
    {
        &self.versions
    }

    /// The table of pending blocks, in creation order.
    pub fn pending_blocks(&self) -> (rows: &Vec<PendingBlock>)
        ensures
            rows.deep_view() == self@.pending_blocks,
    {
        &self.pending_blocks
    }
}

impl Database {
    // ----- first start --------------------------------------------------

    /// Puts the welcome stream and its two entries into a store without
    /// streams, under the given identifiers at time `now`, and says whether it
    /// did. A store that has a stream stays as it is.
    ///
    /// Fails, leaving the store as it was, exactly when the store has no
    /// stream and cannot be started: with `TimeOutOfRange` when `now` is the
    /// last moment that the clock can tell, since the second entry is created
    /// one millisecond after `now`; otherwise with `DuplicateId` when the two
    /// entries are given the same identifier.
    pub fn seed_tutorial_stream(
        &mut self,
        stream_id: String,
        first_entry_id: String,
        second_entry_id: String,
        now: i64,
    ) -> (r: Result<bool, StoreError>)
        requires
            old(self).wf(),
        ensures
            final(self).wf(),
            r == first_start_result(old(self)@, first_entry_id@, second_entry_id@, now as int),
            final(self)@ == first_start_store(
                old(self)@,
                stream_id@,
                first_entry_id@,
                second_entry_id@,
                now as int,
            ),
    {
        if self.streams.len() != 0 {
            return Ok(false);
        }
        if now == i64::MAX {
            return Err(StoreError::TimeOutOfRange);
        }
        if first_entry_id == second_entry_id {
            return Err(StoreError::DuplicateId);
        }
        let ghost target = welcome_store(stream_id@, first_entry_id@, second_entry_id@, now as int);
        let mut tags: Vec<String> = Vec::new();
        tags.push(String::from_str(WELCOME_TAG));
        assert(tags.deep_view() =~= seq![WELCOME_TAG@]);
        let stream = Stream {
            id: stream_id.clone(),
            title: String::from_str(WELCOME_TITLE),
            description: Some(String::from_str(WELCOME_DESCRIPTION)),
            tags,
            color: None,
            pinned: true,
            last_sequence_id: 2,
            created_at: now,
            updated_at: now,
        };
        let first = Entry {
            id: first_entry_id,
            stream_id: stream_id.clone(),
            role: String::from_str(WELCOME_ROLE),
            content: String::from_str(WELCOME_DOCUMENT),
            sequence_id: 1,
            version_head: 0,
            is_staged: false,
            parent_context_ids: None,
            ai_metadata: None,
            created_at: now,
            updated_at: now,
        };
        let second = Entry {
            id: second_entry_id,
            stream_id,
            role: String::from_str(WELCOME_ROLE),
            content: String::from_str(EMPTY_DOCUMENT),
            sequence_id: 2,
            version_head: 0,
            is_staged: false,
            parent_context_ids: None,
            ai_metadata: None,
            created_at: now + 1,
            updated_at: now + 1,
        };
        let mut streams: Vec<Stream> = Vec::new();
        streams.push(stream);
        let mut entries: Vec<Entry> = Vec::new();
        entries.push(first);
        entries.push(second);
        assert(streams.deep_view() =~= target.streams);
        assert(entries.deep_view() =~= target.entries);
        self.streams = streams;
        self.entries = entries;
        self.versions = Vec::new();
        self.pending_blocks = Vec::new();
        proof {
            assert(self@ =~= target);
            lemma_welcome_store_wf(stream_id@, first_entry_id@, second_entry_id@, now as int);
        }
        Ok(true)
    }

    /// Puts the welcome stream and its two entries into a store without
    /// streams, under three fresh identifiers at the present time, and says
    /// whether it did: `Ok(false)` exactly when the store has a stream, and
    /// then the store stays as it is and neither the time nor an identifier
    /// is drawn.
    ///
    /// What comes of a store without streams is what
    /// [`Database::seed_tutorial_stream`] makes of the identifiers and the time
    /// that were drawn: the welcome store, or a failure that leaves the store
    /// as it was, with `TimeOutOfRange` or `DuplicateId`.
    ///
    /// On a store without streams the call panics where the clock of the
    /// machine stands before 1970 or the operating system hands out no random
    /// bytes; no argument decides either.
    pub fn create_tutorial_stream(&mut self) -> (r: Result<bool, StoreError>)
        requires
            old(self).wf(),
        ensures
            final(self).wf(),
            old(self)@.streams.len() == 0 ==> exists|
                stream_id: Seq<char>,
                first_entry_id: Seq<char>,
                second_entry_id: Seq<char>,
                now: int,
            |
                stream_id.len() == 36 && first_entry_id.len() == 36 && second_entry_id.len() == 36
                    && i64::MIN <= now <= i64::MAX && r == first_start_result(
                    old(self)@,
                    first_entry_id,
                    second_entry_id,
                    now,
                ) && final(self)@ == #[trigger] first_start_store(
                    old(self)@,
                    stream_id,
                    first_entry_id,
                    second_entry_id,
                    now,
                ),
            r == Ok::<bool, StoreError>(false) <==> old(self)@.streams.len() != 0,
            r is Err ==> final(self)@ == old(self)@,
            r == Ok::<bool, StoreError>(false) ==> final(self)@ == old(self)@,
    {
        if self.streams.len() != 0 {
            return Ok(false);
        }
        let now = now_millis();
        let stream_id = fresh_id();
        let first_entry_id = fresh_id();
        let second_entry_id = fresh_id();
        let ghost ids = (stream_id@, first_entry_id@, second_entry_id@);
        let r = self.seed_tutorial_stream(stream_id, first_entry_id, second_entry_id, now);
        proof {
            assert(self@ == first_start_store(old(self)@, ids.0, ids.1, ids.2, now as int));
        }
        r
    }
}

} // verus!
