//! The mathematical model of the store: four tables of records, the
//! well-formedness that every reachable store has, and what each operation
//! makes of a store.
//!
//! Rows of a table stand in the order in which they were created. An operation
//! that changes rows "where a column equals a value" is written as a map over
//! the whole table; one that deletes is written as a filter.

use vstd::prelude::*;
use vstd::string::StringExecFns;
use crate::bridge::lowered;
use crate::codec::document_or_default;
use crate::models::{
    AppError, CreateEntryInputView, CreateStreamInputView, EntryVersionView, EntryView,
    PendingBlockView, StreamMetadataView, StreamView,
};

verus! {

/// Why an operation of the store failed.
#[derive(Debug, Clone, Copy, PartialEq, Eq, Structural)]
pub enum StoreError {
    /// A stream, entry, version or pending block that the operation names does
    /// not exist.
    NotFound,
    /// The identifier offered for a new record is already taken in its table.
    DuplicateId,
    /// The time given for a new record is the last that the clock can tell,
    /// so that nothing can be dated after it.
    TimeOutOfRange,
}

/// The code of `NotFound`.
pub const NOT_FOUND_CODE: &'static str = "NOT_FOUND";

/// `NotFound` in words.
pub const NOT_FOUND_MESSAGE: &'static str = "the record does not exist";

/// The code of `DuplicateId`.
pub const DUPLICATE_ID_CODE: &'static str = "DUPLICATE_ID";

/// `DuplicateId` in words.
pub const DUPLICATE_ID_MESSAGE: &'static str = "the identifier is already taken";

/// The code of `TimeOutOfRange`.
pub const TIME_OUT_OF_RANGE_CODE: &'static str = "TIME_OUT_OF_RANGE";

/// `TimeOutOfRange` in words.
pub const TIME_OUT_OF_RANGE_MESSAGE: &'static str = "the clock stands at its last moment";

impl StoreError {
    /// The short code of the failure.
    pub open spec fn code_text(self) -> Seq<char> {
        match self {
            StoreError::NotFound => NOT_FOUND_CODE@,
            StoreError::DuplicateId => DUPLICATE_ID_CODE@,
            StoreError::TimeOutOfRange => TIME_OUT_OF_RANGE_CODE@,
        }
    }

    /// The failure in words.
    pub open spec fn message_text(self) -> Seq<char> {
        match self {
            StoreError::NotFound => NOT_FOUND_MESSAGE@,
            StoreError::DuplicateId => DUPLICATE_ID_MESSAGE@,
            StoreError::TimeOutOfRange => TIME_OUT_OF_RANGE_MESSAGE@,
        }
    }

    /// The failure in words, as it is shown to a caller.
    pub fn message(&self) -> (text: String)
        ensures
            text@ == self.message_text(),
    {
        match self {
            StoreError::NotFound => String::from_str(NOT_FOUND_MESSAGE),
            StoreError::DuplicateId => String::from_str(DUPLICATE_ID_MESSAGE),
            StoreError::TimeOutOfRange => String::from_str(TIME_OUT_OF_RANGE_MESSAGE),
        }
    }

    /// The failure as a report with code and message, without details.
    pub fn to_app_error(&self) -> (e: AppError)
        ensures
            e.code@ == self.code_text(),
            e.message@ == self.message_text(),
            e.details is None,
    {
        match self {
            StoreError::NotFound => AppError::new(NOT_FOUND_CODE, NOT_FOUND_MESSAGE),
            StoreError::DuplicateId => AppError::new(DUPLICATE_ID_CODE, DUPLICATE_ID_MESSAGE),
            StoreError::TimeOutOfRange => AppError::new(
                TIME_OUT_OF_RANGE_CODE,
                TIME_OUT_OF_RANGE_MESSAGE,
            ),
        }
    }
}

/// The four tables.
#[verifier::ext_equal]
pub struct StoreView {
    pub streams: Seq<StreamView>,
    pub entries: Seq<EntryView>,
    pub versions: Seq<EntryVersionView>,
    pub pending_blocks: Seq<PendingBlockView>,
}

/// `streams` with the modification time of stream `id` set to `now`.
pub open spec fn touch_stream(streams: Seq<StreamView>, id: Seq<char>, now: int) -> Seq<
    StreamView,
> {
    streams.map_values(
        |s: StreamView|
            if s.id == id {
                StreamView { updated_at: now, ..s }
            } else {
                s
            },
    )
}

/// `streams` after an entry with sequence number `sequence_id` was added to
/// stream `id` at `now`: the stream is marked as modified and remembers the
/// number as the last that it gave.
pub open spec fn record_entry(streams: Seq<StreamView>, id: Seq<char>, sequence_id: int, now: int)
    -> Seq<StreamView> {
    streams.map_values(
        |s: StreamView|
            if s.id == id {
                StreamView { updated_at: now, last_sequence_id: sequence_id, ..s }
            } else {
                s
            },
    )
}

/// `query` stands in `content` at position `k`, ASCII letters taken without
/// regard to their case.
pub open spec fn occurs_at(content: Seq<char>, query: Seq<char>, k: int) -> bool {
    &&& 0 <= k
    &&& k + query.len() <= content.len()
    &&& lowered(content.subrange(k, k + query.len())) == lowered(query)
}

/// `query` stands somewhere in `content`, ASCII letters taken without regard
/// to their case. The empty text stands in every text.
pub open spec fn contains_text(content: Seq<char>, query: Seq<char>) -> bool {
    exists|k: int| occurs_at(content, query, k)
}

/// An entry as a read hands it out: with its content as it is stored where
/// that is a JSON value, with the default document where it is damaged.
pub open spec fn readable_entry(e: EntryView) -> EntryView {
    EntryView { content: document_or_default(e.content), ..e }
}

/// A version as a read hands it out: with its snapshot as it is stored where
/// that is a JSON value, with the default document where it is damaged.
pub open spec fn readable_version(v: EntryVersionView) -> EntryVersionView {
    EntryVersionView { content_snapshot: document_or_default(v.content_snapshot), ..v }
}

/// Entries as a read hands them out, in order.
pub open spec fn readable_entries(entries: Seq<EntryView>) -> Seq<EntryView> {
    entries.map_values(|e: EntryView| readable_entry(e))
}

/// Versions as a read hands them out, in order.
pub open spec fn readable_versions(versions: Seq<EntryVersionView>) -> Seq<EntryVersionView> {
    versions.map_values(|v: EntryVersionView| readable_version(v))
}

/// The stream that `input` asks for, under identifier `id`, created at `now`.
pub open spec fn new_stream(input: CreateStreamInputView, id: Seq<char>, now: int) -> StreamView {
    StreamView {
        id,
        title: input.title,
        description: input.description,
        tags: match input.tags {
            Some(tags) => tags,
            None => Seq::empty(),
        },
        color: input.color,
        pinned: false,
        last_sequence_id: 0,
        created_at: now,
        updated_at: now,
    }
}

/// A stream with the given fields replaced where a replacement is offered.
/// The modification time moves to `now` only if something is replaced.
pub open spec fn patched_stream(
    s: StreamView,
    title: Option<Seq<char>>,
    description: Option<Seq<char>>,
    pinned: Option<bool>,
    now: int,
) -> StreamView {
    StreamView {
        title: match title {
            Some(t) => t,
            None => s.title,
        },
        description: match description {
            Some(d) => Some(d),
            None => s.description,
        },
        pinned: match pinned {
            Some(p) => p,
            None => s.pinned,
        },
        updated_at: if title is Some || description is Some || pinned is Some {
            now
        } else {
            s.updated_at
        },
        ..s
    }
}

impl StoreView {
    /// The store with no rows.
    pub open spec fn empty() -> StoreView {
        StoreView {
            streams: Seq::empty(),
            entries: Seq::empty(),
            versions: Seq::empty(),
            pending_blocks: Seq::empty(),
        }
    }

    // ----- lookups ------------------------------------------------------

    /// A stream with identifier `id` exists.
    pub open spec fn has_stream(self, id: Seq<char>) -> bool {
        exists|i: int| 0 <= i < self.streams.len() && #[trigger] self.streams[i].id == id
    }

    /// The row of the stream with identifier `id`; meaningful where `has_stream(id)`.
    pub open spec fn stream_index(self, id: Seq<char>) -> int {
        choose|i: int| 0 <= i < self.streams.len() && #[trigger] self.streams[i].id == id
    }

    /// The stream with identifier `id`; meaningful where `has_stream(id)`.
    pub open spec fn stream(self, id: Seq<char>) -> StreamView {
        self.streams[self.stream_index(id)]
    }

    /// An entry with identifier `id` exists.
    pub open spec fn has_entry(self, id: Seq<char>) -> bool {
        exists|i: int| 0 <= i < self.entries.len() && #[trigger] self.entries[i].id == id
    }

    /// The row of the entry with identifier `id`; meaningful where `has_entry(id)`.
    pub open spec fn entry_index(self, id: Seq<char>) -> int {
        choose|i: int| 0 <= i < self.entries.len() && #[trigger] self.entries[i].id == id
    }

    /// The entry with identifier `id`; meaningful where `has_entry(id)`.
    pub open spec fn entry(self, id: Seq<char>) -> EntryView {
        self.entries[self.entry_index(id)]
    }

    /// A version with identifier `id` exists.
    pub open spec fn has_version_id(self, id: Seq<char>) -> bool {
        exists|i: int| 0 <= i < self.versions.len() && #[trigger] self.versions[i].id == id
    }

    /// Version row `i` is version `number` of entry `entry_id`.
    pub open spec fn is_version(self, i: int, entry_id: Seq<char>, number: int) -> bool {
        &&& 0 <= i < self.versions.len()
        &&& self.versions[i].entry_id == entry_id
        &&& self.versions[i].version_number == number
    }

    /// Entry `entry_id` has a version `number`.
    pub open spec fn has_version(self, entry_id: Seq<char>, number: int) -> bool {
        exists|i: int| #[trigger] self.is_version(i, entry_id, number)
    }

    /// The row of version `number` of entry `entry_id`; meaningful where
    /// `has_version(entry_id, number)`.
    pub open spec fn version_index(self, entry_id: Seq<char>, number: int) -> int {
        choose|i: int| #[trigger] self.is_version(i, entry_id, number)
    }

    /// Version `number` of entry `entry_id`; meaningful where `has_version(entry_id, number)`.
    pub open spec fn version(self, entry_id: Seq<char>, number: int) -> EntryVersionView {
        self.versions[self.version_index(entry_id, number)]
    }

    /// A pending block with identifier `id` exists.
    pub open spec fn has_pending_block(self, id: Seq<char>) -> bool {
        exists|i: int|
            0 <= i < self.pending_blocks.len() && #[trigger] self.pending_blocks[i].id == id
    }

    /// Entry `entry_id` exists and belongs to stream `stream_id`.
    pub open spec fn entry_in_stream(self, entry_id: Seq<char>, stream_id: Seq<char>) -> bool {
        exists|i: int|
            0 <= i < self.entries.len() && (#[trigger] self.entries[i]).id == entry_id
                && self.entries[i].stream_id == stream_id
    }

    // ----- selections ---------------------------------------------------

    /// The entries of a stream, in creation order.
    pub open spec fn entries_of(self, stream_id: Seq<char>) -> Seq<EntryView> {
        self.entries.filter(|e: EntryView| e.stream_id == stream_id)
    }

    /// The staged entries of a stream, in creation order.
    pub open spec fn staged_of(self, stream_id: Seq<char>) -> Seq<EntryView> {
        self.entries.filter(|e: EntryView| e.stream_id == stream_id && e.is_staged)
    }

    /// The versions of an entry, in commit order.
    pub open spec fn versions_of(self, entry_id: Seq<char>) -> Seq<EntryVersionView> {
        self.versions.filter(|v: EntryVersionView| v.entry_id == entry_id)
    }

    /// The greatest sequence number that stream `stream_id` ever gave to an
    /// entry, 0 if it gave none; meaningful where `has_stream(stream_id)`.
    pub open spec fn last_sequence(self, stream_id: Seq<char>) -> int {
        self.stream(stream_id).last_sequence_id
    }

    /// Pending block `i` belongs to `stream_id`, none of that stream was created
    /// at a later time, and of those created at the same time it is the last.
    pub open spec fn is_latest_pending(self, i: int, stream_id: Seq<char>) -> bool {
        &&& 0 <= i < self.pending_blocks.len()
        &&& self.pending_blocks[i].stream_id == stream_id
        &&& forall|j: int|
            0 <= j < self.pending_blocks.len() && (#[trigger] self.pending_blocks[j]).stream_id
                == stream_id ==> self.pending_blocks[j].created_at
                < self.pending_blocks[i].created_at || (self.pending_blocks[j].created_at
                == self.pending_blocks[i].created_at && j <= i)
    }

    /// Version row `i` belongs to `entry_id` and no version of that entry has a
    /// greater number.
    pub open spec fn is_latest_version(self, i: int, entry_id: Seq<char>) -> bool {
        &&& 0 <= i < self.versions.len()
        &&& self.versions[i].entry_id == entry_id
        &&& forall|j: int|
            0 <= j < self.versions.len() && (#[trigger] self.versions[j]).entry_id == entry_id
                ==> self.versions[j].version_number <= self.versions[i].version_number
    }

    /// Entry `entry_id` has a version.
    pub open spec fn has_versions_of(self, entry_id: Seq<char>) -> bool {
        exists|i: int|
            0 <= i < self.versions.len() && (#[trigger] self.versions[i]).entry_id == entry_id
    }

    /// Stream `stream_id` has a pending block.
    pub open spec fn has_pending_for(self, stream_id: Seq<char>) -> bool {
        exists|i: int|
            0 <= i < self.pending_blocks.len() && (#[trigger] self.pending_blocks[i]).stream_id
                == stream_id
    }

    // ----- well-formedness ----------------------------------------------

    /// No two streams have the same identifier.
    pub open spec fn stream_ids_unique(self) -> bool {
        forall|i: int, j: int|
            0 <= i < j < self.streams.len() ==> (#[trigger] self.streams[i]).id != (
            #[trigger] self.streams[j]).id
    }

    /// No two entries have the same identifier.
    pub open spec fn entry_ids_unique(self) -> bool {
        forall|i: int, j: int|
            0 <= i < j < self.entries.len() ==> (#[trigger] self.entries[i]).id != (
            #[trigger] self.entries[j]).id
    }

    /// No two versions have the same identifier.
    pub open spec fn version_ids_unique(self) -> bool {
        forall|i: int, j: int|
            0 <= i < j < self.versions.len() ==> (#[trigger] self.versions[i]).id != (
            #[trigger] self.versions[j]).id
    }

    /// No two pending blocks have the same identifier.
    pub open spec fn pending_block_ids_unique(self) -> bool {
        forall|i: int, j: int|
            0 <= i < j < self.pending_blocks.len() ==> (#[trigger] self.pending_blocks[i]).id != (
            #[trigger] self.pending_blocks[j]).id
    }

    /// No identifier occurs twice in a table.
    pub open spec fn ids_unique(self) -> bool {
        &&& self.stream_ids_unique()
        &&& self.entry_ids_unique()
        &&& self.version_ids_unique()
        &&& self.pending_block_ids_unique()
    }

    /// Every entry and pending block belongs to a stream of the store, and
    /// every version to an entry of the store.
    pub open spec fn references_hold(self) -> bool {
        &&& forall|i: int|
            0 <= i < self.entries.len() ==> self.has_stream((#[trigger] self.entries[i]).stream_id)
        &&& forall|i: int|
            0 <= i < self.versions.len() ==> self.has_entry((#[trigger] self.versions[i]).entry_id)
        &&& forall|i: int|
            0 <= i < self.pending_blocks.len() ==> self.has_stream(
                (#[trigger] self.pending_blocks[i]).stream_id,
            )
    }

    /// Sequence numbers start at 1 and, within a stream, grow strictly in
    /// creation order.
    pub open spec fn sequences_ordered(self) -> bool {
        &&& forall|i: int|
            0 <= i < self.entries.len() ==> (#[trigger] self.entries[i]).sequence_id >= 1
        &&& forall|i: int, j: int|
            0 <= i < j < self.entries.len() && (#[trigger] self.entries[i]).stream_id == (
            #[trigger] self.entries[j]).stream_id ==> self.entries[i].sequence_id
                < self.entries[j].sequence_id
    }

    /// No entry has a sequence number beyond the last that its stream
    /// remembers to have given.
    pub open spec fn sequences_remembered(self) -> bool {
        &&& forall|s: int|
            0 <= s < self.streams.len() ==> (#[trigger] self.streams[s]).last_sequence_id >= 0
        &&& forall|e: int, s: int|
            0 <= e < self.entries.len() && 0 <= s < self.streams.len() && (
            #[trigger] self.entries[e]).stream_id == (#[trigger] self.streams[s]).id
                ==> self.entries[e].sequence_id <= self.streams[s].last_sequence_id
    }

    /// The versions of an entry are numbered 1, 2, ..., `version_head`, each
    /// number once, in commit order.
    pub open spec fn ledgers_contiguous(self) -> bool {
        &&& forall|e: int|
            0 <= e < self.entries.len() ==> (#[trigger] self.entries[e]).version_head >= 0
        &&& forall|i: int, e: int|
            0 <= i < self.versions.len() && 0 <= e < self.entries.len() && (
            #[trigger] self.versions[i]).entry_id == (#[trigger] self.entries[e]).id ==> 1
                <= self.versions[i].version_number <= self.entries[e].version_head
        &&& forall|i: int, j: int|
            0 <= i < j < self.versions.len() && (#[trigger] self.versions[i]).entry_id == (
            #[trigger] self.versions[j]).entry_id ==> self.versions[i].version_number
                < self.versions[j].version_number
        &&& forall|e: int, n: int|
            0 <= e < self.entries.len() && 1 <= n <= self.entries[e].version_head
                ==> #[trigger] self.has_version(self.entries[e].id, n)
    }

    /// All of well-formedness but that the versions have identifiers of their
    /// own: what the numbering of versions rests on, whatever the versions are
    /// called.
    pub open spec fn numbered(self) -> bool {
        &&& self.stream_ids_unique()
        &&& self.entry_ids_unique()
        &&& self.pending_block_ids_unique()
        &&& self.references_hold()
        &&& self.sequences_ordered()
        &&& self.sequences_remembered()
        &&& self.ledgers_contiguous()
    }

    /// What holds of every store that the operations below can reach.
    pub open spec fn wf(self) -> bool {
        &&& self.ids_unique()
        &&& self.references_hold()
        &&& self.sequences_ordered()
        &&& self.sequences_remembered()
        &&& self.ledgers_contiguous()
    }

    // ----- streams ------------------------------------------------------

    /// The store with stream `s` added as its newest.
    pub open spec fn insert_stream(self, s: StreamView) -> StoreView {
        StoreView { streams: self.streams.push(s), ..self }
    }

    /// Deleting a stream takes its entries, their versions and its pending
    /// blocks with it.
    pub open spec fn delete_stream(self, stream_id: Seq<char>) -> StoreView {
        StoreView {
            streams: self.streams.filter(|s: StreamView| s.id != stream_id),
            entries: self.entries.filter(|e: EntryView| e.stream_id != stream_id),
            versions: self.versions.filter(
                |v: EntryVersionView| !self.entry_in_stream(v.entry_id, stream_id),
            ),
            pending_blocks: self.pending_blocks.filter(
                |p: PendingBlockView| p.stream_id != stream_id,
            ),
        }
    }

    /// The store with stream `stream_id` patched.
    pub open spec fn update_stream(
        self,
        stream_id: Seq<char>,
        title: Option<Seq<char>>,
        description: Option<Seq<char>>,
        pinned: Option<bool>,
        now: int,
    ) -> StoreView {
        StoreView {
            streams: self.streams.map_values(
                |s: StreamView|
                    if s.id == stream_id {
                        patched_stream(s, title, description, pinned, now)
                    } else {
                        s
                    },
            ),
            ..self
        }
    }

    /// The summary of stream `i`: its listing fields and the number of its entries.
    pub open spec fn stream_summary(self, i: int) -> StreamMetadataView {
        let s = self.streams[i];
        StreamMetadataView {
            id: s.id,
            title: s.title,
            entry_count: self.entries_of(s.id).len() as int,
            last_updated: s.updated_at,
            pinned: s.pinned,
            color: s.color,
            tags: s.tags,
        }
    }

    /// Stream `a` is listed before stream `b`: pinned streams first, then the
    /// more recently modified, then the one created earlier.
    pub open spec fn listed_before(self, a: int, b: int) -> bool {
        let x = self.streams[a];
        let y = self.streams[b];
        ||| (x.pinned && !y.pinned)
        ||| (x.pinned == y.pinned && x.updated_at > y.updated_at)
        ||| (x.pinned == y.pinned && x.updated_at == y.updated_at && a < b)
    }

    /// `order` names every stream once, each before those it is listed before.
    pub open spec fn is_stream_listing(self, order: Seq<int>) -> bool {
        &&& order.len() == self.streams.len()
        &&& forall|k: int| 0 <= k < order.len() ==> 0 <= #[trigger] order[k] < self.streams.len()
        &&& forall|i: int| 0 <= i < self.streams.len() ==> #[trigger] order.contains(i)
        &&& forall|k: int, l: int|
            0 <= k < l < order.len() ==> self.listed_before(#[trigger] order[k], #[trigger] order[l])
    }

    // ----- search -------------------------------------------------------

    /// Entry `a` is found before entry `b`: the more recently modified first,
    /// and of entries modified at the same time the one created earlier.
    pub open spec fn found_before(self, a: int, b: int) -> bool {
        ||| self.entries[a].updated_at > self.entries[b].updated_at
        ||| (self.entries[a].updated_at == self.entries[b].updated_at && a < b)
    }

    /// Entry `j` holds `query` in its content.
    pub open spec fn is_hit(self, j: int, query: Seq<char>) -> bool {
        0 <= j < self.entries.len() && contains_text(self.entries[j].content, query)
    }

    /// Every entry that `order` names is found before entry `j`.
    pub open spec fn all_found_before(self, order: Seq<int>, j: int) -> bool {
        forall|k: int| 0 <= k < order.len() ==> self.found_before(#[trigger] order[k], j)
    }

    /// `order` names the first `limit` entries that hold `query`, or all of
    /// them if they are fewer, each before those it is found before.
    pub open spec fn is_search_result(self, order: Seq<int>, query: Seq<char>, limit: int) -> bool {
        &&& order.len() <= limit
        &&& forall|k: int| 0 <= k < order.len() ==> self.is_hit(#[trigger] order[k], query)
        &&& forall|k: int, l: int|
            0 <= k < l < order.len() ==> self.found_before(#[trigger] order[k], #[trigger] order[l])
        &&& forall|j: int| #[trigger]
            self.is_hit(j, query) ==> order.contains(j) || (order.len() == limit
                && self.all_found_before(order, j))
    }

    // ----- entries ------------------------------------------------------

    /// The entry that `input` asks for: it takes the number after the last
    /// that its stream gave, whether or not the entry that got that number
    /// still exists, has no version and is not staged.
    pub open spec fn new_entry(self, input: CreateEntryInputView, id: Seq<char>, now: int)
        -> EntryView {
        EntryView {
            id,
            stream_id: input.stream_id,
            role: input.role,
            content: input.content,
            sequence_id: self.last_sequence(input.stream_id) + 1,
            version_head: 0,
            is_staged: false,
            parent_context_ids: input.parent_context_ids,
            ai_metadata: input.ai_metadata,
            created_at: now,
            updated_at: now,
        }
    }

    /// Adding an entry also marks its stream as modified at `now` and lets
    /// the stream remember the entry's sequence number.
    pub open spec fn insert_entry(self, e: EntryView, now: int) -> StoreView {
        StoreView {
            streams: record_entry(self.streams, e.stream_id, e.sequence_id, now),
            entries: self.entries.push(e),
            ..self
        }
    }

    /// Replacing content in place touches no version bookkeeping. The entry
    /// and its stream are marked as modified at `now`.
    pub open spec fn set_content(self, entry_id: Seq<char>, content: Seq<char>, now: int)
        -> StoreView {
        StoreView {
            streams: if self.has_entry(entry_id) {
                touch_stream(self.streams, self.entry(entry_id).stream_id, now)
            } else {
                self.streams
            },
            entries: self.entries.map_values(
                |e: EntryView|
                    if e.id == entry_id {
                        EntryView { content, updated_at: now, ..e }
                    } else {
                        e
                    },
            ),
            ..self
        }
    }

    /// Deleting an entry takes its versions with it.
    pub open spec fn delete_entry(self, entry_id: Seq<char>) -> StoreView {
        StoreView {
            entries: self.entries.filter(|e: EntryView| e.id != entry_id),
            versions: self.versions.filter(|v: EntryVersionView| v.entry_id != entry_id),
            ..self
        }
    }

    // ----- staging ------------------------------------------------------

    /// The store with the staging mark of entry `entry_id` set to `staged`.
    pub open spec fn set_staged(self, entry_id: Seq<char>, staged: bool) -> StoreView {
        StoreView {
            entries: self.entries.map_values(
                |e: EntryView|
                    if e.id == entry_id {
                        EntryView { is_staged: staged, ..e }
                    } else {
                        e
                    },
            ),
            ..self
        }
    }

    /// The store with the staging mark of every entry of `stream_id` off.
    pub open spec fn clear_staged(self, stream_id: Seq<char>) -> StoreView {
        StoreView {
            entries: self.entries.map_values(
                |e: EntryView|
                    if e.stream_id == stream_id {
                        EntryView { is_staged: false, ..e }
                    } else {
                        e
                    },
            ),
            ..self
        }
    }

    // ----- versions -----------------------------------------------------

    /// The snapshot that a commit of `entry_id` creates: the next number after
    /// the entry's head, with the entry's content as it is now.
    pub open spec fn next_version(
        self,
        entry_id: Seq<char>,
        version_id: Seq<char>,
        message: Option<Seq<char>>,
        now: int,
    ) -> EntryVersionView {
        EntryVersionView {
            id: version_id,
            entry_id,
            version_number: self.entry(entry_id).version_head + 1,
            content_snapshot: self.entry(entry_id).content,
            commit_message: message,
            committed_at: now,
        }
    }

    /// A commit appends the snapshot, moves the entry's head to its number and
    /// marks the owning stream as modified at `now`.
    pub open spec fn commit(
        self,
        entry_id: Seq<char>,
        version_id: Seq<char>,
        message: Option<Seq<char>>,
        now: int,
    ) -> StoreView {
        StoreView {
            streams: touch_stream(self.streams, self.entry(entry_id).stream_id, now),
            entries: self.entries.map_values(
                |e: EntryView|
                    if e.id == entry_id {
                        EntryView { version_head: e.version_head + 1, ..e }
                    } else {
                        e
                    },
            ),
            versions: self.versions.push(self.next_version(entry_id, version_id, message, now)),
            ..self
        }
    }

    /// What a caller sees of a commit of entry `entry_id` that handed back
    /// version `v` and made `after` of this store: `v` has the number after
    /// the head and the readable content of the entry as its snapshot; the
    /// head of the entry, the number of `v` and the count of the entry's
    /// versions are then the same, the versions are numbered from 1 up to
    /// that count in commit order, and the last row of the version table is
    /// `v` and the latest version of the entry. Pending blocks are what they
    /// were: a commit consumes no export.
    pub open spec fn committed(
        self,
        after: StoreView,
        entry_id: Seq<char>,
        v: EntryVersionView,
    ) -> bool {
        &&& v.entry_id == entry_id
        &&& v.version_number == self.entry(entry_id).version_head + 1
        &&& v.content_snapshot == document_or_default(self.entry(entry_id).content)
        &&& after.has_entry(entry_id)
        &&& after.entry(entry_id).version_head == v.version_number
        &&& after.versions_of(entry_id).len() == v.version_number
        &&& forall|k: int|
            0 <= k < after.versions_of(entry_id).len() ==> (#[trigger] after.versions_of(
                entry_id,
            )[k]).version_number == k + 1
        &&& after.versions.len() == self.versions.len() + 1
        &&& readable_version(after.versions[self.versions.len() as int]) == v
        &&& after.is_latest_version(self.versions.len() as int, entry_id)
        &&& after.has_version(entry_id, v.version_number)
        &&& readable_version(after.version(entry_id, v.version_number)) == v
        &&& after.pending_blocks == self.pending_blocks
    }

    /// A revert puts the snapshot of version `number` back as the entry's
    /// content and marks the entry as modified at `now`. It adds no version and
    /// leaves the head where it is.
    pub open spec fn revert(self, entry_id: Seq<char>, number: int, now: int) -> StoreView {
        StoreView {
            entries: self.entries.map_values(
                |e: EntryView|
                    if e.id == entry_id {
                        EntryView {
                            content: self.version(entry_id, number).content_snapshot,
                            updated_at: now,
                            ..e
                        }
                    } else {
                        e
                    },
            ),
            ..self
        }
    }

    // ----- pending blocks -----------------------------------------------

    /// The pending block that records an export: the staged identifiers are
    /// kept as they were handed in.
    pub open spec fn new_pending_block(
        id: Seq<char>,
        stream_id: Seq<char>,
        bridge_key: Seq<char>,
        staged_context_ids: Seq<Seq<char>>,
        directive: Seq<char>,
        now: int,
    ) -> PendingBlockView {
        PendingBlockView { id, stream_id, bridge_key, staged_context_ids, directive, created_at: now }
    }

    /// No pending block of stream `stream_id` was created after time `at`.
    pub open spec fn none_pending_after(self, stream_id: Seq<char>, at: int) -> bool {
        forall|j: int|
            0 <= j < self.pending_blocks.len() && (#[trigger] self.pending_blocks[j]).stream_id
                == stream_id ==> self.pending_blocks[j].created_at <= at
    }

    /// The store with pending block `p` added as its newest.
    pub open spec fn insert_pending_block(self, p: PendingBlockView) -> StoreView {
        StoreView { pending_blocks: self.pending_blocks.push(p), ..self }
    }

    /// The store without pending block `id`.
    pub open spec fn delete_pending_block(self, id: Seq<char>) -> StoreView {
        StoreView {
            pending_blocks: self.pending_blocks.filter(|p: PendingBlockView| p.id != id),
            ..self
        }
    }
}

} // verus!
