//! Plain data carried between the store and its callers.
//!
//! Every record has a mathematical view (`@`): strings become `Seq<char>`,
//! lists become `Seq`, and machine integers become `int`. Contracts across the
//! crate speak of these views only.

use vstd::prelude::*;
use vstd::string::StringExecFns;

verus! {

/// A copy of a list of strings, element by element.
pub fn clone_strings(list: &Vec<String>) -> (copy: Vec<String>)
    ensures
        copy.deep_view() == list.deep_view(),
{
    let mut copy: Vec<String> = Vec::new();
    let mut i: usize = 0;
    while i < list.len()
        invariant
            i <= list.len(),
            copy.len() == i,
            forall|k: int| 0 <= k < i ==> copy[k]@ == list[k]@,
        decreases list.len() - i,
    {
        copy.push(list[i].clone());
        i = i + 1;
    }
    assert(copy.deep_view() =~= list.deep_view());
    copy
}

/// A copy of an optional string.
pub fn clone_optional_string(value: &Option<String>) -> (copy: Option<String>)
    ensures
        copy.deep_view() == value.deep_view(),
{
    match value {
        Some(s) => Some(s.clone()),
        None => None,
    }
}

/// A copy of an optional list of strings.
pub fn clone_optional_strings(value: &Option<Vec<String>>) -> (copy: Option<Vec<String>>)
    ensures
        copy.deep_view() == value.deep_view(),
{
    match value {
        Some(list) => Some(clone_strings(list)),
        None => None,
    }
}

/// Model of a [`Stream`].
pub struct StreamView {
    pub id: Seq<char>,
    pub title: Seq<char>,
    pub description: Option<Seq<char>>,
    pub tags: Seq<Seq<char>>,
    pub color: Option<Seq<char>>,
    pub pinned: bool,
    pub last_sequence_id: int,
    pub created_at: int,
    pub updated_at: int,
}

/// A named container that groups an ordered sequence of entries.
///
/// `last_sequence_id` is the greatest sequence number that was ever given to
/// an entry of the stream, 0 if none was. Deleting an entry does not lower
/// it, so that no number is given twice.
#[derive(Debug)]
pub struct Stream {
    pub id: String,
    pub title: String,
    pub description: Option<String>,
    pub tags: Vec<String>,
    pub color: Option<String>,
    pub pinned: bool,
    pub last_sequence_id: i32,
    pub created_at: i64,
    pub updated_at: i64,
}

impl View for Stream {
    type V = StreamView;

    open spec fn view(&self) -> StreamView {
        StreamView {
            id: self.id@,
            title: self.title@,
            description: self.description.deep_view(),
            tags: self.tags.deep_view(),
            color: self.color.deep_view(),
            pinned: self.pinned,
            last_sequence_id: self.last_sequence_id as int,
            created_at: self.created_at as int,
            updated_at: self.updated_at as int,
        }
    }
}

impl DeepView for Stream {
    type V = StreamView;

    open spec fn deep_view(&self) -> StreamView {
        self@
    }
}

impl Clone for Stream {
    fn clone(&self) -> (copy: Self)
        ensures
            copy@ == self@,
    {
        Stream {
            id: self.id.clone(),
            title: self.title.clone(),
            description: clone_optional_string(&self.description),
            tags: clone_strings(&self.tags),
            color: clone_optional_string(&self.color),
            pinned: self.pinned,
            last_sequence_id: self.last_sequence_id,
            created_at: self.created_at,
            updated_at: self.updated_at,
        }
    }
}

/// Model of a [`StreamMetadata`].
pub struct StreamMetadataView {
    pub id: Seq<char>,
    pub title: Seq<char>,
    pub entry_count: int,
    pub last_updated: int,
    pub pinned: bool,
    pub color: Option<Seq<char>>,
    pub tags: Seq<Seq<char>>,
}

/// The summary of a stream shown in listings.
#[derive(Debug)]
pub struct StreamMetadata {
    pub id: String,
    pub title: String,
    pub entry_count: i64,
    pub last_updated: i64,
    pub pinned: bool,
    pub color: Option<String>,
    pub tags: Vec<String>,
}

impl View for StreamMetadata {
    type V = StreamMetadataView;

    open spec fn view(&self) -> StreamMetadataView {
        StreamMetadataView {
            id: self.id@,
            title: self.title@,
            entry_count: self.entry_count as int,
            last_updated: self.last_updated as int,
            pinned: self.pinned,
            color: self.color.deep_view(),
            tags: self.tags.deep_view(),
        }
    }
}

impl DeepView for StreamMetadata {
    type V = StreamMetadataView;

    open spec fn deep_view(&self) -> StreamMetadataView {
        self@
    }
}

impl Clone for StreamMetadata {
    fn clone(&self) -> (copy: Self)
        ensures
            copy@ == self@,
    {
        StreamMetadata {
            id: self.id.clone(),
            title: self.title.clone(),
            entry_count: self.entry_count,
            last_updated: self.last_updated,
            pinned: self.pinned,
            color: clone_optional_string(&self.color),
            tags: clone_strings(&self.tags),
        }
    }
}

/// Model of an [`AiMetadata`].
pub struct AiMetadataView {
    pub model: Seq<char>,
    pub provider: Seq<char>,
    pub directive: Seq<char>,
    pub bridge_key: Seq<char>,
    pub summary: Option<Seq<char>>,
}

/// Where an entry written by an assistant came from.
#[derive(Debug)]
pub struct AiMetadata {
    pub model: String,
    pub provider: String,
    pub directive: String,
    pub bridge_key: String,
    pub summary: Option<String>,
}

impl View for AiMetadata {
    type V = AiMetadataView;

    open spec fn view(&self) -> AiMetadataView {
        AiMetadataView {
            model: self.model@,
            provider: self.provider@,
            directive: self.directive@,
            bridge_key: self.bridge_key@,
            summary: self.summary.deep_view(),
        }
    }
}

impl DeepView for AiMetadata {
    type V = AiMetadataView;

    open spec fn deep_view(&self) -> AiMetadataView {
        self@
    }
}

impl Clone for AiMetadata {
    fn clone(&self) -> (copy: Self)
        ensures
            copy@ == self@,
    {
        AiMetadata {
            model: self.model.clone(),
            provider: self.provider.clone(),
            directive: self.directive.clone(),
            bridge_key: self.bridge_key.clone(),
            summary: clone_optional_string(&self.summary),
        }
    }
}

/// A copy of optional assistant metadata.
pub fn clone_optional_ai_metadata(value: &Option<AiMetadata>) -> (copy: Option<AiMetadata>)
    ensures
        copy.deep_view() == value.deep_view(),
{
    match value {
        Some(m) => Some(m.clone()),
        None => None,
    }
}

/// Model of an [`Entry`].
pub struct EntryView {
    pub id: Seq<char>,
    pub stream_id: Seq<char>,
    pub role: Seq<char>,
    pub content: Seq<char>,
    pub sequence_id: int,
    pub version_head: int,
    pub is_staged: bool,
    pub parent_context_ids: Option<Seq<Seq<char>>>,
    pub ai_metadata: Option<AiMetadataView>,
    pub created_at: int,
    pub updated_at: int,
}

/// A unit of content with its own version history and staging mark.
///
/// `content` is the encoded text of a structured document; the store never
/// looks inside it.
#[derive(Debug)]
pub struct Entry {
    pub id: String,
    pub stream_id: String,
    pub role: String,
    pub content: String,
    pub sequence_id: i32,
    pub version_head: i32,
    pub is_staged: bool,
    pub parent_context_ids: Option<Vec<String>>,
    pub ai_metadata: Option<AiMetadata>,
    pub created_at: i64,
    pub updated_at: i64,
}

impl View for Entry {
    type V = EntryView;

    open spec fn view(&self) -> EntryView {
        EntryView {
            id: self.id@,
            stream_id: self.stream_id@,
            role: self.role@,
            content: self.content@,
            sequence_id: self.sequence_id as int,
            version_head: self.version_head as int,
            is_staged: self.is_staged,
            parent_context_ids: self.parent_context_ids.deep_view(),
            ai_metadata: self.ai_metadata.deep_view(),
            created_at: self.created_at as int,
            updated_at: self.updated_at as int,
        }
    }
}

impl DeepView for Entry {
    type V = EntryView;

    open spec fn deep_view(&self) -> EntryView {
        self@
    }
}

impl Clone for Entry {
    fn clone(&self) -> (copy: Self)
        ensures
            copy@ == self@,
    {
        Entry {
            id: self.id.clone(),
            stream_id: self.stream_id.clone(),
            role: self.role.clone(),
            content: self.content.clone(),
            sequence_id: self.sequence_id,
            version_head: self.version_head,
            is_staged: self.is_staged,
            parent_context_ids: clone_optional_strings(&self.parent_context_ids),
            ai_metadata: clone_optional_ai_metadata(&self.ai_metadata),
            created_at: self.created_at,
            updated_at: self.updated_at,
        }
    }
}

/// Model of an [`EntryVersion`].
pub struct EntryVersionView {
    pub id: Seq<char>,
    pub entry_id: Seq<char>,
    pub version_number: int,
    pub content_snapshot: Seq<char>,
    pub commit_message: Option<Seq<char>>,
    pub committed_at: int,
}

/// An immutable, numbered snapshot of an entry's content at commit time.
#[derive(Debug)]
pub struct EntryVersion {
    pub id: String,
    pub entry_id: String,
    pub version_number: i32,
    pub content_snapshot: String,
    pub commit_message: Option<String>,
    pub committed_at: i64,
}

impl View for EntryVersion {
    type V = EntryVersionView;

    open spec fn view(&self) -> EntryVersionView {
        EntryVersionView {
            id: self.id@,
            entry_id: self.entry_id@,
            version_number: self.version_number as int,
            content_snapshot: self.content_snapshot@,
            commit_message: self.commit_message.deep_view(),
            committed_at: self.committed_at as int,
        }
    }
}

impl DeepView for EntryVersion {
    type V = EntryVersionView;

    open spec fn deep_view(&self) -> EntryVersionView {
        self@
    }
}

impl Clone for EntryVersion {
    fn clone(&self) -> (copy: Self)
        ensures
            copy@ == self@,
    {
        EntryVersion {
            id: self.id.clone(),
            entry_id: self.entry_id.clone(),
            version_number: self.version_number,
            content_snapshot: self.content_snapshot.clone(),
            commit_message: clone_optional_string(&self.commit_message),
            committed_at: self.committed_at,
        }
    }
}

/// Model of a [`Spotlight`].
pub struct SpotlightView {
    pub id: Seq<char>,
    pub entry_id: Seq<char>,
    pub context_text: Seq<char>,
    pub highlighted_text: Seq<char>,
    pub start_offset: int,
    pub end_offset: int,
}

/// A selection inside an entry, kept with the text around it.
#[derive(Debug)]
pub struct Spotlight {
    pub id: String,
    pub entry_id: String,
    pub context_text: String,
    pub highlighted_text: String,
    pub start_offset: i32,
    pub end_offset: i32,
}

impl View for Spotlight {
    type V = SpotlightView;

    open spec fn view(&self) -> SpotlightView {
        SpotlightView {
            id: self.id@,
            entry_id: self.entry_id@,
            context_text: self.context_text@,
            highlighted_text: self.highlighted_text@,
            start_offset: self.start_offset as int,
            end_offset: self.end_offset as int,
        }
    }
}

impl Clone for Spotlight {
    fn clone(&self) -> (copy: Self)
        ensures
            copy@ == self@,
    {
        Spotlight {
            id: self.id.clone(),
            entry_id: self.entry_id.clone(),
            context_text: self.context_text.clone(),
            highlighted_text: self.highlighted_text.clone(),
            start_offset: self.start_offset,
            end_offset: self.end_offset,
        }
    }
}

/// Model of a [`PendingBlock`].
pub struct PendingBlockView {
    pub id: Seq<char>,
    pub stream_id: Seq<char>,
    pub bridge_key: Seq<char>,
    pub staged_context_ids: Seq<Seq<char>>,
    pub directive: Seq<char>,
    pub created_at: int,
}

/// A frozen record of an export request that awaits a pasted response.
#[derive(Debug)]
pub struct PendingBlock {
    pub id: String,
    pub stream_id: String,
    pub bridge_key: String,
    pub staged_context_ids: Vec<String>,
    pub directive: String,
    pub created_at: i64,
}

impl View for PendingBlock {
    type V = PendingBlockView;

    open spec fn view(&self) -> PendingBlockView {
        PendingBlockView {
            id: self.id@,
            stream_id: self.stream_id@,
            bridge_key: self.bridge_key@,
            staged_context_ids: self.staged_context_ids.deep_view(),
            directive: self.directive@,
            created_at: self.created_at as int,
        }
    }
}

impl DeepView for PendingBlock {
    type V = PendingBlockView;

    open spec fn deep_view(&self) -> PendingBlockView {
        self@
    }
}

impl Clone for PendingBlock {
    fn clone(&self) -> (copy: Self)
        ensures
            copy@ == self@,
    {
        PendingBlock {
            id: self.id.clone(),
            stream_id: self.stream_id.clone(),
            bridge_key: self.bridge_key.clone(),
            staged_context_ids: clone_strings(&self.staged_context_ids),
            directive: self.directive.clone(),
            created_at: self.created_at,
        }
    }
}

/// Model of a [`CreateStreamInput`].
pub struct CreateStreamInputView {
    pub title: Seq<char>,
    pub description: Option<Seq<char>>,
    pub tags: Option<Seq<Seq<char>>>,
    pub color: Option<Seq<char>>,
}

/// What a caller supplies to create a stream.
#[derive(Debug)]
pub struct CreateStreamInput {
    pub title: String,
    pub description: Option<String>,
    pub tags: Option<Vec<String>>,
    pub color: Option<String>,
}

impl View for CreateStreamInput {
    type V = CreateStreamInputView;

    open spec fn view(&self) -> CreateStreamInputView {
        CreateStreamInputView {
            title: self.title@,
            description: self.description.deep_view(),
            tags: self.tags.deep_view(),
            color: self.color.deep_view(),
        }
    }
}

/// Model of a [`CreateEntryInput`].
pub struct CreateEntryInputView {
    pub stream_id: Seq<char>,
    pub role: Seq<char>,
    pub content: Seq<char>,
    pub ai_metadata: Option<AiMetadataView>,
    pub parent_context_ids: Option<Seq<Seq<char>>>,
}

/// What a caller supplies to create an entry.
#[derive(Debug)]
pub struct CreateEntryInput {
    pub stream_id: String,
    pub role: String,
    pub content: String,
    pub ai_metadata: Option<AiMetadata>,
    pub parent_context_ids: Option<Vec<String>>,
}

impl View for CreateEntryInput {
    type V = CreateEntryInputView;

    open spec fn view(&self) -> CreateEntryInputView {
        CreateEntryInputView {
            stream_id: self.stream_id@,
            role: self.role@,
            content: self.content@,
            ai_metadata: self.ai_metadata.deep_view(),
            parent_context_ids: self.parent_context_ids.deep_view(),
        }
    }
}

/// Model of an [`UpdateEntryContentInput`].
pub struct UpdateEntryContentInputView {
    pub entry_id: Seq<char>,
    pub content: Seq<char>,
}

/// What a caller supplies to replace an entry's content in place.
#[derive(Debug)]
pub struct UpdateEntryContentInput {
    pub entry_id: String,
    pub content: String,
}

impl View for UpdateEntryContentInput {
    type V = UpdateEntryContentInputView;

    open spec fn view(&self) -> UpdateEntryContentInputView {
        UpdateEntryContentInputView { entry_id: self.entry_id@, content: self.content@ }
    }
}

/// Model of a [`StreamWithEntries`].
pub struct StreamWithEntriesView {
    pub stream: StreamView,
    pub entries: Seq<EntryView>,
}

/// A stream together with its entries in display order.
#[derive(Debug)]
pub struct StreamWithEntries {
    pub stream: Stream,
    pub entries: Vec<Entry>,
}

impl View for StreamWithEntries {
    type V = StreamWithEntriesView;

    open spec fn view(&self) -> StreamWithEntriesView {
        StreamWithEntriesView { stream: self.stream@, entries: self.entries.deep_view() }
    }
}

/// A failure reported to the caller: a short code, a message and optional detail.
#[derive(Debug)]
pub struct AppError {
    pub code: String,
    pub message: String,
    pub details: Option<String>,
}

impl AppError {
    /// An error without details.
    pub fn new(code: &str, message: &str) -> (e: Self)
        ensures
            e.code@ == code@,
            e.message@ == message@,
            e.details is None,
    {
        AppError { code: String::from_str(code), message: String::from_str(message), details: None }
    }

    /// An error that carries details.
    pub fn with_details(code: &str, message: &str, details: &str) -> (e: Self)
        ensures
            e.code@ == code@,
            e.message@ == message@,
            e.details matches Some(d) && d@ == details@,
    {
        AppError {
            code: String::from_str(code),
            message: String::from_str(message),
            details: Some(String::from_str(details)),
        }
    }
}

} // verus!
