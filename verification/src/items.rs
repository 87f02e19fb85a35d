//! The data model: history items, rollout journal records, and their
//! mathematical views.
//!
//! Textual payloads are held as byte vectors; their views are `Seq<u8>`.
//! Every executable type has a deep view onto a ghost mirror, so that
//! contracts can state deep structural equality.

use vstd::prelude::*;

verus! {

/// Role of a conversation message.
#[derive(Clone, Copy, PartialEq, Eq, Structural, Debug)]
pub enum Role {
    User,
    Developer,
    Assistant,
    System,
    Other,
}

/// One piece of a message's content.
#[derive(Clone, PartialEq, Eq, Debug)]
pub enum ContentItem {
    /// Plain input text.
    InputText { text: Vec<u8> },
    /// The resolved user/skill instructions for a working directory.
    UserInstructions { directory: Vec<u8>, text: Vec<u8> },
    /// Forward-compatible catch-all for content kinds this subsystem
    /// does not interpret.
    Other,
}

/// Ghost mirror of `ContentItem`.
pub enum ContentItemView {
    InputText { text: Seq<u8> },
    UserInstructions { directory: Seq<u8>, text: Seq<u8> },
    Other,
}

impl DeepView for ContentItem {
    type V = ContentItemView;

    open spec fn deep_view(&self) -> ContentItemView {
        match self {
            ContentItem::InputText { text } => ContentItemView::InputText { text: text@ },
            ContentItem::UserInstructions { directory, text } => (ContentItemView::UserInstructions {
                directory: directory@,
                text: text@,
            }),
            ContentItem::Other => ContentItemView::Other,
        }
    }
}

/// Textual payload of a function tool call's output.
#[derive(Clone, PartialEq, Eq, Debug)]
pub struct ToolCallOutput {
    pub content: Vec<u8>,
    pub success: Option<bool>,
}

/// Ghost mirror of `ToolCallOutput`.
pub struct ToolCallOutputView {
    pub content: Seq<u8>,
    pub success: Option<bool>,
}

impl DeepView for ToolCallOutput {
    type V = ToolCallOutputView;

    open spec fn deep_view(&self) -> ToolCallOutputView {
        ToolCallOutputView { content: self.content@, success: self.success }
    }
}

/// One item of a session's conversation history.
#[derive(Clone, PartialEq, Eq, Debug)]
pub enum HistoryItem {
    /// A conversation message.
    Message { id: Option<Vec<u8>>, role: Role, content: Vec<ContentItem> },
    /// Output of a function tool call.
    FunctionCallOutput { call_id: Vec<u8>, output: ToolCallOutput },
    /// Output of a custom tool call.
    CustomToolCallOutput { call_id: Vec<u8>, output: Vec<u8> },
    /// Internal model reasoning; never replayed.
    Reasoning {
        id: Vec<u8>,
        summary: Vec<Vec<u8>>,
        content: Option<Vec<u8>>,
        encrypted_content: Option<Vec<u8>>,
    },
    /// A restorable point-in-time state marker, exempt from summarization.
    GhostSnapshot { id: Vec<u8> },
    /// A marker left by an earlier compaction.
    CompactionMarker { message: Vec<u8> },
    /// Forward-compatible catch-all for item kinds this subsystem does not
    /// interpret.
    Other,
}

/// Ghost mirror of `HistoryItem`.
pub enum HistoryItemView {
    Message { id: Option<Seq<u8>>, role: Role, content: Seq<ContentItemView> },
    FunctionCallOutput { call_id: Seq<u8>, output: ToolCallOutputView },
    CustomToolCallOutput { call_id: Seq<u8>, output: Seq<u8> },
    Reasoning {
        id: Seq<u8>,
        summary: Seq<Seq<u8>>,
        content: Option<Seq<u8>>,
        encrypted_content: Option<Seq<u8>>,
    },
    GhostSnapshot { id: Seq<u8> },
    CompactionMarker { message: Seq<u8> },
    Other,
}

impl DeepView for HistoryItem {
    type V = HistoryItemView;

    open spec fn deep_view(&self) -> HistoryItemView {
        match self {
            HistoryItem::Message { id, role, content } => (HistoryItemView::Message {
                id: id.deep_view(),
                role: *role,
                content: content.deep_view(),
            }),
            HistoryItem::FunctionCallOutput { call_id, output } => (HistoryItemView::FunctionCallOutput {
                call_id: call_id@,
                output: output.deep_view(),
            }),
            HistoryItem::CustomToolCallOutput { call_id, output } => (HistoryItemView::CustomToolCallOutput {
                call_id: call_id@,
                output: output@,
            }),
            HistoryItem::Reasoning { id, summary, content, encrypted_content } => (HistoryItemView::Reasoning {
                id: id@,
                summary: summary.deep_view(),
                content: content.deep_view(),
                encrypted_content: encrypted_content.deep_view(),
            }),
            HistoryItem::GhostSnapshot { id } => HistoryItemView::GhostSnapshot { id: id@ },
            HistoryItem::CompactionMarker { message } => (HistoryItemView::CompactionMarker {
                message: message@,
            }),
            HistoryItem::Other => HistoryItemView::Other,
        }
    }
}

/// A session lifecycle event as mirrored into the rollout journal.
#[derive(Clone, PartialEq, Eq, Debug)]
pub enum EventMsg {
    /// Zero-payload compaction checkpoint: the compaction watermark.
    ContextCompacted,
    /// A turn began; carries the active model's context-window size.
    TurnStarted { model_context_window: Option<u64> },
    /// A terminal error with a human-readable description.
    Error { message: Vec<u8> },
    /// A best-effort, non-terminal notification, such as the downgrade to
    /// local compaction.
    Notice { message: Vec<u8> },
    /// Forward-compatible catch-all for event kinds this subsystem does not
    /// interpret.
    Other,
}

/// Ghost mirror of `EventMsg`.
pub enum EventMsgView {
    ContextCompacted,
    TurnStarted { model_context_window: Option<u64> },
    Error { message: Seq<u8> },
    Notice { message: Seq<u8> },
    Other,
}

impl DeepView for EventMsg {
    type V = EventMsgView;

    open spec fn deep_view(&self) -> EventMsgView {
        match self {
            EventMsg::ContextCompacted => EventMsgView::ContextCompacted,
            EventMsg::TurnStarted { model_context_window } => (EventMsgView::TurnStarted {
                model_context_window: *model_context_window,
            }),
            EventMsg::Error { message } => EventMsgView::Error { message: message@ },
            EventMsg::Notice { message } => EventMsgView::Notice { message: message@ },
            EventMsg::Other => EventMsgView::Other,
        }
    }
}

/// Audit record written once per successful compaction; carries the full
/// post-compaction history.
#[derive(Clone, PartialEq, Eq, Debug)]
pub struct CompactedItem {
    pub message: Vec<u8>,
    pub replacement_history: Option<Vec<HistoryItem>>,
}

/// Ghost mirror of `CompactedItem`.
pub struct CompactedItemView {
    pub message: Seq<u8>,
    pub replacement_history: Option<Seq<HistoryItemView>>,
}

impl DeepView for CompactedItem {
    type V = CompactedItemView;

    open spec fn deep_view(&self) -> CompactedItemView {
        CompactedItemView {
            message: self.message@,
            replacement_history: self.replacement_history.deep_view(),
        }
    }
}

/// The tagged union persisted in one journal record.
#[derive(Clone, PartialEq, Eq, Debug)]
pub enum RolloutItem {
    /// A conversation history item.
    ResponseItem(HistoryItem),
    /// A session lifecycle event.
    EventMsg(EventMsg),
    /// A compaction audit record.
    Compacted(CompactedItem),
    /// Forward-compatible catch-all for record tags this subsystem does not
    /// interpret.
    Other,
}

/// Ghost mirror of `RolloutItem`.
pub enum RolloutItemView {
    ResponseItem(HistoryItemView),
    EventMsg(EventMsgView),
    Compacted(CompactedItemView),
    Other,
}

impl DeepView for RolloutItem {
    type V = RolloutItemView;

    open spec fn deep_view(&self) -> RolloutItemView {
        match self {
            RolloutItem::ResponseItem(item) => RolloutItemView::ResponseItem(item.deep_view()),
            RolloutItem::EventMsg(event) => RolloutItemView::EventMsg(event.deep_view()),
            RolloutItem::Compacted(compacted) => RolloutItemView::Compacted(compacted.deep_view()),
            RolloutItem::Other => RolloutItemView::Other,
        }
    }
}

/// One persisted journal record: a timestamp and a tagged item.
#[derive(Clone, PartialEq, Eq, Debug)]
pub struct RolloutLine {
    pub timestamp: Vec<u8>,
    pub item: RolloutItem,
}

/// Ghost mirror of `RolloutLine`.
pub struct RolloutLineView {
    pub timestamp: Seq<u8>,
    pub item: RolloutItemView,
}

impl DeepView for RolloutLine {
    type V = RolloutLineView;

    open spec fn deep_view(&self) -> RolloutLineView {
        RolloutLineView { timestamp: self.timestamp@, item: self.item.deep_view() }
    }
}

/// Byte-for-byte copy with a known view; `Clone` on a `Vec` says nothing
/// usable about the copy's contents to the verifier.
pub fn copy_bytes(v: &Vec<u8>) -> (r: Vec<u8>)
    ensures
        r@ == v@,
{
    let mut r: Vec<u8> = Vec::new();
    let mut i: usize = 0;
    while i < v.len()
        invariant
            i <= v.len(),
            r@ == v@.take(i as int),
        decreases v.len() - i,
    {
        proof {
            assert(v@.take(i as int).push(v@[i as int]) =~= v@.take(i + 1 as int));
        }
        r.push(v[i]);
        i = i + 1;
    }
    proof {
        assert(v@.take(v@.len() as int) =~= v@);
    }
    r
}

/// Copy of an optional byte vector with a known view.
pub fn copy_opt_bytes(v: &Option<Vec<u8>>) -> (r: Option<Vec<u8>>)
    ensures
        r.deep_view() == v.deep_view(),
{
    match v {
        Option::None => Option::None,
        Option::Some(b) => Option::Some(copy_bytes(b)),
    }
}

/// Copy of a list of byte vectors with a known view.
pub fn copy_bytes_list(v: &Vec<Vec<u8>>) -> (r: Vec<Vec<u8>>)
    ensures
        r.deep_view() == v.deep_view(),
{
    let mut r: Vec<Vec<u8>> = Vec::new();
    let mut i: usize = 0;
    while i < v.len()
        invariant
            i <= v.len(),
            r.deep_view() == v.deep_view().take(i as int),
        decreases v.len() - i,
    {
        let b = copy_bytes(&v[i]);
        let ghost dv = b.deep_view();
        let ghost pre = r.deep_view();
        r.push(b);
        proof {
            assert(dv == v.deep_view()[i as int]);
            assert(r.deep_view() =~= pre.push(dv));
            assert(r.deep_view() =~= v.deep_view().take(i + 1 as int));
        }
        i = i + 1;
    }
    proof {
        assert(v.deep_view().take(v.deep_view().len() as int) =~= v.deep_view());
    }
    r
}

impl ContentItem {
    /// Copy with a known view.
    pub fn duplicate(&self) -> (r: ContentItem)
        ensures
            r.deep_view() == self.deep_view(),
    {
        match self {
            ContentItem::InputText { text } => ContentItem::InputText { text: copy_bytes(text) },
            ContentItem::UserInstructions { directory, text } => (ContentItem::UserInstructions {
                directory: copy_bytes(directory),
                text: copy_bytes(text),
            }),
            ContentItem::Other => ContentItem::Other,
        }
    }
}

/// Copy of a content list with a known view.
pub fn copy_content_items(v: &Vec<ContentItem>) -> (r: Vec<ContentItem>)
    ensures
        r.deep_view() == v.deep_view(),
{
    let mut r: Vec<ContentItem> = Vec::new();
    let mut i: usize = 0;
    while i < v.len()
        invariant
            i <= v.len(),
            r.deep_view() == v.deep_view().take(i as int),
        decreases v.len() - i,
    {
        let c = v[i].duplicate();
        let ghost dv = c.deep_view();
        let ghost pre = r.deep_view();
        r.push(c);
        proof {
            assert(dv == v.deep_view()[i as int]);
            assert(r.deep_view() =~= pre.push(dv));
            assert(r.deep_view() =~= v.deep_view().take(i + 1 as int));
        }
        i = i + 1;
    }
    proof {
        assert(v.deep_view().take(v.deep_view().len() as int) =~= v.deep_view());
    }
    r
}

impl ToolCallOutput {
    /// Copy with a known view.
    pub fn duplicate(&self) -> (r: ToolCallOutput)
        ensures
            r.deep_view() == self.deep_view(),
    {
        ToolCallOutput { content: copy_bytes(&self.content), success: self.success }
    }
}

impl HistoryItem {
    /// Copy with a known view.
    pub fn duplicate(&self) -> (r: HistoryItem)
        ensures
            r.deep_view() == self.deep_view(),
    {
        match self {
            HistoryItem::Message { id, role, content } => (HistoryItem::Message {
                id: copy_opt_bytes(id),
                role: *role,
                content: copy_content_items(content),
            }),
            HistoryItem::FunctionCallOutput { call_id, output } => (HistoryItem::FunctionCallOutput {
                call_id: copy_bytes(call_id),
                output: output.duplicate(),
            }),
            HistoryItem::CustomToolCallOutput { call_id, output } => (HistoryItem::CustomToolCallOutput {
                call_id: copy_bytes(call_id),
                output: copy_bytes(output),
            }),
            HistoryItem::Reasoning { id, summary, content, encrypted_content } => (HistoryItem::Reasoning {
                id: copy_bytes(id),
                summary: copy_bytes_list(summary),
                content: copy_opt_bytes(content),
                encrypted_content: copy_opt_bytes(encrypted_content),
            }),
            HistoryItem::GhostSnapshot { id } => HistoryItem::GhostSnapshot { id: copy_bytes(id) },
            HistoryItem::CompactionMarker { message } => (HistoryItem::CompactionMarker {
                message: copy_bytes(message),
            }),
            HistoryItem::Other => HistoryItem::Other,
        }
    }
}

/// Copy of a history slice with a known view.
pub fn copy_history_items(v: &Vec<HistoryItem>) -> (r: Vec<HistoryItem>)
    ensures
        r.deep_view() == v.deep_view(),
{
    let mut r: Vec<HistoryItem> = Vec::new();
    let mut i: usize = 0;
    while i < v.len()
        invariant
            i <= v.len(),
            r.deep_view() == v.deep_view().take(i as int),
        decreases v.len() - i,
    {
        let item = v[i].duplicate();
        let ghost dv = item.deep_view();
        let ghost pre = r.deep_view();
        r.push(item);
        proof {
            assert(dv == v.deep_view()[i as int]);
            assert(r.deep_view() =~= pre.push(dv));
            assert(r.deep_view() =~= v.deep_view().take(i + 1 as int));
        }
        i = i + 1;
    }
    proof {
        assert(v.deep_view().take(v.deep_view().len() as int) =~= v.deep_view());
    }
    r
}

impl EventMsg {
    /// Copy with a known view.
    pub fn duplicate(&self) -> (r: EventMsg)
        ensures
            r.deep_view() == self.deep_view(),
    {
        match self {
            EventMsg::ContextCompacted => EventMsg::ContextCompacted,
            EventMsg::TurnStarted { model_context_window } => (EventMsg::TurnStarted {
                model_context_window: *model_context_window,
            }),
            EventMsg::Error { message } => EventMsg::Error { message: copy_bytes(message) },
            EventMsg::Notice { message } => EventMsg::Notice { message: copy_bytes(message) },
            EventMsg::Other => EventMsg::Other,
        }
    }
}

impl CompactedItem {
    /// Copy with a known view.
    pub fn duplicate(&self) -> (r: CompactedItem)
        ensures
            r.deep_view() == self.deep_view(),
    {
        let replacement_history = match &self.replacement_history {
            Option::None => Option::None,
            Option::Some(items) => Option::Some(copy_history_items(items)),
        };
        CompactedItem { message: copy_bytes(&self.message), replacement_history }
    }
}

impl RolloutItem {
    /// Copy with a known view.
    pub fn duplicate(&self) -> (r: RolloutItem)
        ensures
            r.deep_view() == self.deep_view(),
    {
        match self {
            RolloutItem::ResponseItem(item) => RolloutItem::ResponseItem(item.duplicate()),
            RolloutItem::EventMsg(event) => RolloutItem::EventMsg(event.duplicate()),
            RolloutItem::Compacted(compacted) => RolloutItem::Compacted(compacted.duplicate()),
            RolloutItem::Other => RolloutItem::Other,
        }
    }
}

impl RolloutLine {
    /// Copy with a known view.
    pub fn duplicate(&self) -> (r: RolloutLine)
        ensures
            r.deep_view() == self.deep_view(),
    {
        RolloutLine { timestamp: copy_bytes(&self.timestamp), item: self.item.duplicate() }
    }
}

} // verus!
