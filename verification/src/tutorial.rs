//! What a store holds after its first start: a welcome stream with two
//! entries that show how the tool is used.

use vstd::prelude::*;
use crate::models::{EntryView, StreamView};
use crate::store::{StoreError, StoreView};

verus! {

/// The title of the welcome stream.
pub const WELCOME_TITLE: &'static str = "Welcome to Kolam Ikan";

/// The description of the welcome stream.
pub const WELCOME_DESCRIPTION: &'static str = "Your first stream - feel free to experiment here!";

/// The one tag of the welcome stream.
pub const WELCOME_TAG: &'static str = "tutorial";

/// The role of the welcome entries.
pub const WELCOME_ROLE: &'static str = "user";

/// The document of the first welcome entry: a heading, a paragraph and a list
/// of four steps, as encoded text.
pub const WELCOME_DOCUMENT: &'static str = r#"{"content":[{"attrs":{"level":1},"content":[{"text":"Welcome! ðŸ‘‹","type":"text"}],"type":"heading"},{"content":[{"text":"Kolam Ikan is your personal thinking space. Here's how it works:","type":"text"}],"type":"paragraph"},{"content":[{"content":[{"content":[{"marks":[{"type":"bold"}],"text":"Write freely","type":"text"},{"text":" - Just start typing your thoughts.","type":"text"}],"type":"paragraph"}],"type":"listItem"},{"content":[{"content":[{"marks":[{"type":"bold"}],"text":"Stage context","type":"text"},{"text":" - Check the boxes next to entries you want to send to AI.","type":"text"}],"type":"paragraph"}],"type":"listItem"},{"content":[{"content":[{"marks":[{"type":"bold"}],"text":"Choose a directive","type":"text"},{"text":" - DUMP (refactor), CRITIQUE (find gaps), or GENERATE (expand).","type":"text"}],"type":"paragraph"}],"type":"listItem"},{"content":[{"content":[{"marks":[{"type":"bold"}],"text":"Copy & paste","type":"text"},{"text":" - Use the bridge buttons to connect with ChatGPT or Gemini.","type":"text"}],"type":"paragraph"}],"type":"listItem"}],"type":"orderedList"}],"type":"doc"}"#;

/// The document of the second welcome entry: one empty paragraph.
pub const EMPTY_DOCUMENT: &'static str = r#"{"content":[{"content":[],"type":"paragraph"}],"type":"doc"}"#;

/// The welcome stream under identifier `id`, created at `now`: pinned, with
/// one tag, after it gave the sequence numbers 1 and 2.
pub open spec fn welcome_stream(id: Seq<char>, now: int) -> StreamView {
    StreamView {
        id,
        title: WELCOME_TITLE@,
        description: Some(WELCOME_DESCRIPTION@),
        tags: seq![WELCOME_TAG@],
        color: None,
        pinned: true,
        last_sequence_id: 2,
        created_at: now,
        updated_at: now,
    }
}

/// A welcome entry: written by the user, never committed, not staged.
pub open spec fn welcome_entry(
    id: Seq<char>,
    stream_id: Seq<char>,
    content: Seq<char>,
    sequence_id: int,
    at: int,
) -> EntryView {
    EntryView {
        id,
        stream_id,
        role: WELCOME_ROLE@,
        content,
        sequence_id,
        version_head: 0,
        is_staged: false,
        parent_context_ids: None,
        ai_metadata: None,
        created_at: at,
        updated_at: at,
    }
}

/// The store after its first start at `now`: the welcome stream and its two
/// entries, the second created one millisecond after the first.
pub open spec fn welcome_store(
    stream_id: Seq<char>,
    first_entry_id: Seq<char>,
    second_entry_id: Seq<char>,
    now: int,
) -> StoreView {
    StoreView {
        streams: seq![welcome_stream(stream_id, now)],
        entries: seq![
            welcome_entry(first_entry_id, stream_id, WELCOME_DOCUMENT@, 1, now),
            welcome_entry(second_entry_id, stream_id, EMPTY_DOCUMENT@, 2, now + 1),
        ],
        versions: Seq::empty(),
        pending_blocks: Seq::empty(),
    }
}

/// What a first start at `now` comes to. A store that has a stream is not
/// started again. A store without streams is started, unless `now` is the
/// last moment that the clock can tell, after which the second entry could
/// not be dated, or the two entries are given the same identifier.
pub open spec fn first_start_result(
    db: StoreView,
    first_entry_id: Seq<char>,
    second_entry_id: Seq<char>,
    now: int,
) -> Result<bool, StoreError> {
    if db.streams.len() != 0 {
        Ok(false)
    } else if now >= i64::MAX {
        Err(StoreError::TimeOutOfRange)
    } else if first_entry_id == second_entry_id {
        Err(StoreError::DuplicateId)
    } else {
        Ok(true)
    }
}

/// The store after a first start at `now`: the welcome store where it was
/// started, the store as it was where it was not.
pub open spec fn first_start_store(
    db: StoreView,
    stream_id: Seq<char>,
    first_entry_id: Seq<char>,
    second_entry_id: Seq<char>,
    now: int,
) -> StoreView {
    if first_start_result(db, first_entry_id, second_entry_id, now) == Ok::<bool, StoreError>(
        true,
    ) {
        welcome_store(stream_id, first_entry_id, second_entry_id, now)
    } else {
        db
    }
}

/// The store after its first start is well-formed, if its two entries have
/// different identifiers.
pub proof fn lemma_welcome_store_wf(
    stream_id: Seq<char>,
    first_entry_id: Seq<char>,
    second_entry_id: Seq<char>,
    now: int,
)
    requires
        first_entry_id != second_entry_id,
    ensures
        welcome_store(stream_id, first_entry_id, second_entry_id, now).wf(),
{
    let db = welcome_store(stream_id, first_entry_id, second_entry_id, now);
    assert(db.streams[0].id == stream_id);
    assert(db.has_stream(stream_id));
    assert(db.references_hold());
    assert(db.ids_unique());
    assert(db.sequences_ordered());
    assert(db.sequences_remembered());
    assert(db.ledgers_contiguous());
}

} // verus!
