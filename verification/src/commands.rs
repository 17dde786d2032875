//! The operations as a caller without a clock of its own invokes them: each
//! takes the time and the identifiers it needs from outside and hands the
//! rest to the store. The three operations on bridge keys are found here too.
//!
//! A fresh identifier has 36 characters and is drawn by chance, so nothing
//! rules out that it is already taken. An operation that draws one therefore
//! fails with `DuplicateId` only where its table holds an identifier of 36
//! characters, and succeeds wherever the table holds none.
//!
//! An operation that takes the time panics where the clock of the machine
//! stands before 1970, and one that draws an identifier panics where the
//! operating system hands out no random bytes. No argument decides either.

use vstd::prelude::*;
pub use crate::bridge::{extract_bridge_key, generate_bridge_key, validate_bridge_key};
use crate::database::{Database, SEARCH_LIMIT};
use crate::models::{
    CreateEntryInput, CreateStreamInput, Entry, EntryVersion, PendingBlock, Stream,
    StreamMetadata, StreamWithEntries,
};
use crate::stamps::{fresh_id, now_millis};
use crate::store::{
    new_stream, readable_entries, readable_version, readable_versions, StoreError, StoreView,
};

verus! {

/// Creates a stream under a fresh identifier, at the present time.
///
/// Fails with `DuplicateId`, leaving the store as it was, exactly when the
/// fresh identifier is already that of a stream: never on a store that has no
/// stream with an identifier of 36 characters.
///
/// Panics where the clock of the machine stands before 1970 or the operating
/// system hands out no random bytes.
pub fn create_stream(db: &mut Database, input: CreateStreamInput) -> (r: Result<
    Stream,
    StoreError,
>)
    requires
        old(db).wf(),
    ensures
        final(db).wf(),
        match r {
            Ok(s) => {
                &&& !old(db)@.has_stream(s@.id)
                &&& s@.id.len() == 36
                &&& s@ == new_stream(input@, s@.id, s@.created_at)
                &&& final(db)@ == old(db)@.insert_stream(s@)
            },
            Err(e) => {
                &&& e == StoreError::DuplicateId
                &&& final(db)@ == old(db)@
                &&& exists|taken: Seq<char>|
                    taken.len() == 36 && #[trigger] old(db)@.has_stream(taken)
            },
        },
{
    let now = now_millis();
    let id = fresh_id();
    let ghost before = db@;
    let ghost drawn = id@;
    let r = db.create_stream(input, id, now);
    proof {
        if r is Err {
            assert(drawn.len() == 36 && before.has_stream(drawn));
        }
    }
    r
}

/// Stream `stream_id` with its entries in ascending order of their sequence
/// numbers, damaged content shown as the default document. Fails with
/// `NotFound` exactly when the stream does not exist.
pub fn get_stream_details(db: &Database, stream_id: String) -> (r: Result<
    StreamWithEntries,
    StoreError,
>)
    requires
        db.wf(),
    ensures
        match r {
            Ok(d) => {
                &&& db@.has_stream(stream_id@)
                &&& d@.stream == db@.stream(stream_id@)
                &&& d@.entries == readable_entries(db@.entries_of(stream_id@))
                &&& forall|i: int, j: int|
                    0 <= i < j < d.entries.len() ==> (#[trigger] d.entries[i]).sequence_id < (
                    #[trigger] d.entries[j]).sequence_id
            },
            Err(e) => e == StoreError::NotFound && !db@.has_stream(stream_id@),
        },
{
    db.stream_details(&stream_id)
}

/// Deletes stream `stream_id` with its entries, their versions and its
/// pending blocks.
///
/// Fails with `NotFound`, leaving the store as it was, exactly when the stream
/// does not exist.
pub fn delete_stream(db: &mut Database, stream_id: String) -> (r: Result<(), StoreError>)
    requires
        old(db).wf(),
    ensures
        final(db).wf(),
        match r {
            Ok(_) => {
                &&& old(db)@.has_stream(stream_id@)
                &&& final(db)@ == old(db)@.delete_stream(stream_id@)
                &&& !final(db)@.has_stream(stream_id@)
            },
            Err(e) => {
                &&& e == StoreError::NotFound
                &&& !old(db)@.has_stream(stream_id@)
                &&& final(db)@ == old(db)@
            },
        },
{
    db.delete_stream(&stream_id)
}

/// Replaces the title, the description and the pin of stream `stream_id`
/// where a replacement is offered, at the present time.
///
/// Fails with `NotFound`, leaving the store as it was, exactly when the stream
/// does not exist.
///
/// Panics where the clock of the machine stands before 1970.
pub fn update_stream(
    db: &mut Database,
    stream_id: String,
    title: Option<String>,
    description: Option<String>,
    pinned: Option<bool>,
) -> (r: Result<(), StoreError>)
    requires
        old(db).wf(),
    ensures
        final(db).wf(),
        match r {
            Ok(_) => {
                &&& old(db)@.has_stream(stream_id@)
                &&& exists|now: int|
                    final(db)@ == #[trigger] old(db)@.update_stream(
                        stream_id@,
                        title.deep_view(),
                        description.deep_view(),
                        pinned,
                        now,
                    )
            },
            Err(e) => {
                &&& e == StoreError::NotFound
                &&& !old(db)@.has_stream(stream_id@)
                &&& final(db)@ == old(db)@
            },
        },
{
    let now = now_millis();
    let ghost before = db@;
    let ghost t = title.deep_view();
    let ghost d = description.deep_view();
    let r = db.update_stream(&stream_id, title, description, pinned, now);
    proof {
        if r is Ok {
            assert(db@ == before.update_stream(stream_id@, t, d, pinned, now as int));
        }
    }
    r
}

/// Creates an entry under a fresh identifier, at the present time, at the end
/// of its stream.
///
/// Fails, leaving the store as it was, with `NotFound` exactly when the stream
/// does not exist, and otherwise with `DuplicateId` exactly when the fresh
/// identifier is already that of an entry: never on a store that has no entry
/// with an identifier of 36 characters.
///
/// Panics where the clock of the machine stands before 1970 or the operating
/// system hands out no random bytes.
pub fn create_entry(db: &mut Database, input: CreateEntryInput) -> (r: Result<Entry, StoreError>)
    requires
        old(db).wf(),
        old(db)@.has_stream(input.stream_id@) ==> old(db)@.last_sequence(input.stream_id@)
            < i32::MAX,
    ensures
        final(db).wf(),
        match r {
            Ok(e) => {
                &&& !old(db)@.has_entry(e@.id)
                &&& e@.id.len() == 36
                &&& old(db)@.has_stream(input.stream_id@)
                &&& e@ == old(db)@.new_entry(input@, e@.id, e@.created_at)
                &&& final(db)@ == old(db)@.insert_entry(e@, e@.created_at)
            },
            Err(e) => {
                &&& final(db)@ == old(db)@
                &&& if old(db)@.has_stream(input.stream_id@) {
                    e == StoreError::DuplicateId && exists|taken: Seq<char>|
                        taken.len() == 36 && #[trigger] old(db)@.has_entry(taken)
                } else {
                    e == StoreError::NotFound
                }
            },
        },
{
    let now = now_millis();
    let id = fresh_id();
    let ghost before = db@;
    let ghost drawn = id@;
    let r = db.create_entry(input, id, now);
    proof {
        if r is Err && before.has_stream(input.stream_id@) {
            assert(drawn.len() == 36 && before.has_entry(drawn));
        }
    }
    r
}

/// Replaces the content of entry `entry_id` in place, at the present time.
/// No version is made.
///
/// Fails with `NotFound`, leaving the store as it was, exactly when the entry
/// does not exist.
///
/// Panics where the clock of the machine stands before 1970.
pub fn update_entry_content(db: &mut Database, entry_id: String, content: String) -> (r: Result<
    (),
    StoreError,
>)
    requires
        old(db).wf(),
    ensures
        final(db).wf(),
        match r {
            Ok(_) => {
                &&& old(db)@.has_entry(entry_id@)
                &&& exists|now: int|
                    final(db)@ == #[trigger] old(db)@.set_content(entry_id@, content@, now)
            },
            Err(e) => {
                &&& e == StoreError::NotFound
                &&& !old(db)@.has_entry(entry_id@)
                &&& final(db)@ == old(db)@
            },
        },
{
    let now = now_millis();
    let ghost before = db@;
    let ghost c = content@;
    let r = db.set_content(&entry_id, content, now);
    proof {
        if r is Ok {
            assert(db@ == before.set_content(entry_id@, c, now as int));
        }
    }
    r
}

/// Sets the staging mark of entry `entry_id`. Setting the mark it already has
/// is no error.
///
/// Fails with `NotFound`, leaving the store as it was, exactly when the entry
/// does not exist.
pub fn toggle_entry_staging(db: &mut Database, entry_id: String, is_staged: bool) -> (r: Result<
    (),
    StoreError,
>)
    requires
        old(db).wf(),
    ensures
        final(db).wf(),
        match r {
            Ok(_) => {
                &&& old(db)@.has_entry(entry_id@)
                &&& final(db)@ == old(db)@.set_staged(entry_id@, is_staged)
            },
            Err(e) => {
                &&& e == StoreError::NotFound
                &&& !old(db)@.has_entry(entry_id@)
                &&& final(db)@ == old(db)@
            },
        },
{
    db.set_staged(&entry_id, is_staged)
}

/// Deletes entry `entry_id` with its versions.
///
/// Fails with `NotFound`, leaving the store as it was, exactly when the entry
/// does not exist.
pub fn delete_entry(db: &mut Database, entry_id: String) -> (r: Result<(), StoreError>)
    requires
        old(db).wf(),
    ensures
        final(db).wf(),
        match r {
            Ok(_) => {
                &&& old(db)@.has_entry(entry_id@)
                &&& final(db)@ == old(db)@.delete_entry(entry_id@)
                &&& !final(db)@.has_entry(entry_id@)
            },
            Err(e) => {
                &&& e == StoreError::NotFound
                &&& !old(db)@.has_entry(entry_id@)
                &&& final(db)@ == old(db)@
            },
        },
{
    db.delete_entry(&entry_id)
}

/// The staged entries of stream `stream_id`, in ascending order of their
/// sequence numbers, damaged content shown as the default document.
pub fn get_staged_entries(db: &Database, stream_id: String) -> (staged: Vec<Entry>)
    requires
        db.wf(),
    ensures
        staged.deep_view() == readable_entries(db@.staged_of(stream_id@)),
        forall|i: int, j: int|
            0 <= i < j < staged.len() ==> (#[trigger] staged[i]).sequence_id < (
            #[trigger] staged[j]).sequence_id,
{
    db.list_staged(&stream_id)
}

/// Removes the staging mark from every entry of stream `stream_id`.
///
/// Fails with `NotFound`, leaving the store as it was, exactly when the stream
/// does not exist.
pub fn clear_all_staging(db: &mut Database, stream_id: String) -> (r: Result<(), StoreError>)
    requires
        old(db).wf(),
    ensures
        final(db).wf(),
        match r {
            Ok(_) => {
                &&& old(db)@.has_stream(stream_id@)
                &&& final(db)@ == old(db)@.clear_staged(stream_id@)
            },
            Err(e) => {
                &&& e == StoreError::NotFound
                &&& !old(db)@.has_stream(stream_id@)
                &&& final(db)@ == old(db)@
            },
        },
{
    db.clear_staged(&stream_id)
}

/// Commits the current content of entry `entry_id` as its next version, under
/// a fresh identifier, at the present time: the version takes the number after
/// the entry's head, the head moves to that number, which is then also the
/// count of the entry's versions, and the version is from then on the latest
/// of the entry. Pending blocks stay as they are.
///
/// Fails, leaving the store as it was, with `NotFound` exactly when the entry
/// does not exist, and otherwise with `DuplicateId` exactly when the fresh
/// identifier is already that of a version: never on a store that has no
/// version with an identifier of 36 characters. The next number must fit.
///
/// Panics where the clock of the machine stands before 1970 or the operating
/// system hands out no random bytes.
pub fn commit_entry_version(
    db: &mut Database,
    entry_id: String,
    commit_message: Option<String>,
) -> (r: Result<EntryVersion, StoreError>)
    requires
        old(db).wf(),
        old(db)@.has_entry(entry_id@) ==> old(db)@.entry(entry_id@).version_head < i32::MAX,
    ensures
        final(db).wf(),
        match r {
            Ok(v) => {
                &&& old(db)@.has_entry(entry_id@)
                &&& !old(db)@.has_version_id(v@.id)
                &&& v@.id.len() == 36
                &&& v@ == readable_version(
                    old(db)@.next_version(
                        entry_id@,
                        v@.id,
                        commit_message.deep_view(),
                        v@.committed_at,
                    ),
                )
                &&& final(db)@ == old(db)@.commit(
                    entry_id@,
                    v@.id,
                    commit_message.deep_view(),
                    v@.committed_at,
                )
                &&& old(db)@.committed(final(db)@, entry_id@, v@)
            },
            Err(e) => {
                &&& final(db)@ == old(db)@
                &&& if old(db)@.has_entry(entry_id@) {
                    e == StoreError::DuplicateId && exists|taken: Seq<char>|
                        taken.len() == 36 && #[trigger] old(db)@.has_version_id(taken)
                } else {
                    e == StoreError::NotFound
                }
            },
        },
{
    let now = now_millis();
    let version_id = fresh_id();
    let ghost before = db@;
    let ghost drawn = version_id@;
    let r = db.commit(&entry_id, version_id, commit_message, now);
    proof {
        if r is Err && before.has_entry(entry_id@) {
            assert(drawn.len() == 36 && before.has_version_id(drawn));
        }
    }
    r
}

/// The versions of entry `entry_id`, newest first, damaged snapshots shown as
/// the default document.
pub fn get_entry_versions(db: &Database, entry_id: String) -> (versions: Vec<EntryVersion>)
    requires
        db.wf(),
    ensures
        versions.deep_view() == readable_versions(db@.versions_of(entry_id@).reverse()),
        forall|k: int|
            0 <= k < versions.len() ==> (#[trigger] versions[k]).version_number == versions.len()
                - k,
        db@.has_entry(entry_id@) ==> versions.len() == db@.entry(entry_id@).version_head,
        !db@.has_entry(entry_id@) ==> versions.len() == 0,
{
    db.list_versions(&entry_id)
}

/// The version of entry `entry_id` with the highest number, which is the
/// number of the entry's head. Absent exactly when the entry does not exist or
/// nothing was committed of it.
pub fn get_latest_version(db: &Database, entry_id: String) -> (r: Option<EntryVersion>)
    requires
        db.wf(),
    ensures
        match r {
            Some(v) => {
                &&& db@.has_entry(entry_id@)
                &&& db@.entry(entry_id@).version_head >= 1
                &&& v@ == readable_version(
                    db@.version(entry_id@, db@.entry(entry_id@).version_head),
                )
                &&& exists|i: int|
                    db@.is_latest_version(i, entry_id@) && v@ == readable_version(
                        #[trigger] db@.versions[i],
                    )
            },
            None => {
                &&& !db@.has_versions_of(entry_id@)
                &&& !db@.has_entry(entry_id@) || db@.entry(entry_id@).version_head == 0
            },
        },
{
    db.latest_version(&entry_id)
}

/// Version `version_number` of entry `entry_id`, if the entry has one.
pub fn get_version_by_number(db: &Database, entry_id: String, version_number: i32) -> (r: Option<
    EntryVersion,
>)
    requires
        db.wf(),
    ensures
        match r {
            Some(v) => db@.has_version(entry_id@, version_number as int) && v@
                == readable_version(db@.version(entry_id@, version_number as int)),
            None => !db@.has_version(entry_id@, version_number as int),
        },
{
    db.get_version(&entry_id, version_number)
}

/// Puts the snapshot of version `version_number` back as the content of
/// entry `entry_id`, at the present time. The head stays where it is.
///
/// Fails with `NotFound`, leaving the store as it was, exactly when the entry
/// has no version of that number.
///
/// Panics where the clock of the machine stands before 1970.
pub fn revert_to_version(db: &mut Database, entry_id: String, version_number: i32) -> (r: Result<
    (),
    StoreError,
>)
    requires
        old(db).wf(),
    ensures
        final(db).wf(),
        match r {
            Ok(_) => old(db)@.has_version(entry_id@, version_number as int) && exists|now: int|
                final(db)@ == #[trigger] old(db)@.revert(entry_id@, version_number as int, now),
            Err(e) => e == StoreError::NotFound && !old(db)@.has_version(
                entry_id@,
                version_number as int,
            ) && final(db)@ == old(db)@,
        },
{
    let now = now_millis();
    let ghost before = db@;
    let r = db.revert(&entry_id, version_number, now);
    proof {
        if r is Ok {
            assert(db@ == before.revert(entry_id@, version_number as int, now as int));
        }
    }
    r
}

/// Records an export of stream `stream_id` under a fresh identifier, at the
/// present time, with the staged identifiers exactly as handed in. Where no
/// pending block of the stream was created at a later time, the new block is
/// from then on the one that a pasted response is checked against.
///
/// Fails, leaving the store as it was, with `NotFound` exactly when the stream
/// does not exist, and otherwise with `DuplicateId` exactly when the fresh
/// identifier is already that of a pending block: never on a store that has
/// no pending block with an identifier of 36 characters.
///
/// Panics where the clock of the machine stands before 1970 or the operating
/// system hands out no random bytes.
pub fn create_pending_block(
    db: &mut Database,
    stream_id: String,
    bridge_key: String,
    staged_context_ids: Vec<String>,
    directive: String,
) -> (r: Result<PendingBlock, StoreError>)
    requires
        old(db).wf(),
    ensures
        final(db).wf(),
        match r {
            Ok(p) => {
                &&& !old(db)@.has_pending_block(p@.id)
                &&& p@.id.len() == 36
                &&& old(db)@.has_stream(stream_id@)
                &&& p@ == StoreView::new_pending_block(
                    p@.id,
                    stream_id@,
                    bridge_key@,
                    staged_context_ids.deep_view(),
                    directive@,
                    p@.created_at,
                )
                &&& final(db)@ == old(db)@.insert_pending_block(p@)
                &&& old(db)@.none_pending_after(stream_id@, p@.created_at) ==> final(db)@
                    .is_latest_pending(old(db)@.pending_blocks.len() as int, stream_id@)
            },
            Err(e) => {
                &&& final(db)@ == old(db)@
                &&& if old(db)@.has_stream(stream_id@) {
                    e == StoreError::DuplicateId && exists|taken: Seq<char>|
                        taken.len() == 36 && #[trigger] old(db)@.has_pending_block(taken)
                } else {
                    e == StoreError::NotFound
                }
            },
        },
{
    let now = now_millis();
    let id = fresh_id();
    let ghost before = db@;
    let ghost drawn = id@;
    let r = db.create_pending_block(stream_id, bridge_key, staged_context_ids, directive, id, now);
    proof {
        if r is Err && before.has_stream(stream_id@) {
            assert(drawn.len() == 36 && before.has_pending_block(drawn));
        }
    }
    r
}

/// The pending block of stream `stream_id` that a pasted response is checked
/// against: the one created last. Absent if the stream has none.
pub fn get_pending_block(db: &Database, stream_id: String) -> (r: Option<PendingBlock>)
    ensures
        match r {
            Some(p) => exists|i: int|
                db@.is_latest_pending(i, stream_id@) && p@ == #[trigger] db@.pending_blocks[i],
            None => !db@.has_pending_for(stream_id@),
        },
{
    db.latest_pending_block(&stream_id)
}

/// Deletes the pending block `pending_block_id`, consumed or abandoned.
///
/// Fails with `NotFound`, leaving the store as it was, exactly when no pending
/// block has that identifier.
pub fn delete_pending_block(db: &mut Database, pending_block_id: String) -> (r: Result<
    (),
    StoreError,
>)
    requires
        old(db).wf(),
    ensures
        final(db).wf(),
        match r {
            Ok(_) => {
                &&& old(db)@.has_pending_block(pending_block_id@)
                &&& final(db)@ == old(db)@.delete_pending_block(pending_block_id@)
                &&& !final(db)@.has_pending_block(pending_block_id@)
            },
            Err(e) => {
                &&& e == StoreError::NotFound
                &&& !old(db)@.has_pending_block(pending_block_id@)
                &&& final(db)@ == old(db)@
            },
        },
{
    db.delete_pending_block(&pending_block_id)
}

/// The summaries of all streams: pinned streams first, then the more recently
/// modified, and of streams modified at the same time the one created
/// earlier. The number of entries must fit the count.
pub fn get_all_streams(db: &Database) -> (summaries: Vec<StreamMetadata>)
    requires
        db@.entries.len() <= i64::MAX,
    ensures
        summaries.len() == db@.streams.len(),
        exists|order: Seq<int>| #[trigger]
            db@.is_stream_listing(order) && summaries.deep_view() == order.map_values(
                |i: int| db@.stream_summary(i),
            ),
{
    db.list_streams()
}

/// The entries whose stored content holds `query`, ASCII letters taken without
/// regard to their case: the more recently modified first, and no more than
/// [`SEARCH_LIMIT`] of them.
pub fn search_entries(db: &Database, query: String) -> (found: Vec<Entry>)
    ensures
        exists|order: Seq<int>| #[trigger]
            db@.is_search_result(order, query@, SEARCH_LIMIT as int) && found.deep_view()
                == readable_entries(order.map_values(|i: int| db@.entries[i])),
{
    db.search(&query)
}

} // verus!
