//! Raw nodes: what was said and what tools returned, as it came.
use vstd::prelude::*;

use crate::float32::Float32;
use crate::ids;
use crate::ids::{LoopId, RawNodeId, SessionId};
use crate::json::JsonValue;
use crate::model::embedding;
use crate::model::embedding::EmbeddingRef;
use crate::model::runner::clone_texts;
use crate::text;
use crate::text::IntoText;
use crate::time::{Timestamp, MAX_SECONDS, NANOS_PER_SECOND};

verus! {

/// What a raw node records.
#[derive(Debug, Clone, Copy, PartialEq, Eq, Structural)]
pub enum RawNodeKind {
    UserUtterance,
    AssistantUtterance,
    ToolResult,
    Note,
    Event,
}

impl RawNodeKind {
    /// The name of the kind.
    pub open spec fn name(self) -> Seq<char> {
        match self {
            RawNodeKind::UserUtterance => "UserUtterance"@,
            RawNodeKind::AssistantUtterance => "AssistantUtterance"@,
            RawNodeKind::ToolResult => "ToolResult"@,
            RawNodeKind::Note => "Note"@,
            RawNodeKind::Event => "Event"@,
        }
    }

    /// The name of the kind.
    pub fn describe(&self) -> (text: &'static str)
        ensures
            text@ == self.name(),
    {
        match self {
            RawNodeKind::UserUtterance => "UserUtterance",
            RawNodeKind::AssistantUtterance => "AssistantUtterance",
            RawNodeKind::ToolResult => "ToolResult",
            RawNodeKind::Note => "Note",
            RawNodeKind::Event => "Event",
        }
    }
}

/// What a raw node holds.
#[derive(Debug, PartialEq, Eq)]
pub enum RawContent {
    Text(String),
    Json(JsonValue),
}

/// Content as a mathematical value.
pub enum Content {
    Text(Seq<char>),
    Json(Seq<char>),
}

impl View for RawContent {
    type V = Content;

    open spec fn view(&self) -> Content {
        match self {
            RawContent::Text(text) => Content::Text(text@),
            RawContent::Json(value) => Content::Json(value@),
        }
    }
}

impl Clone for RawContent {
    fn clone(&self) -> (result: Self)
        ensures
            result@ == self@,
    {
        match self {
            RawContent::Text(text) => RawContent::Text(text.clone()),
            RawContent::Json(value) => RawContent::Json(value.clone()),
        }
    }
}

impl Content {
    /// The content as one text.
    pub open spec fn text(self) -> Seq<char> {
        match self {
            Content::Text(text) => text,
            Content::Json(text) => text,
        }
    }
}

/// Who may see a node.
#[derive(Debug, Clone, Copy, PartialEq, Eq, Structural)]
pub enum Visibility {
    Normal,
    Hidden,
    Internal,
}

/// How far a node has been distilled.
#[derive(Debug, Clone, Copy, PartialEq, Eq, Structural)]
pub enum DistillationState {
    Undistilled,
    Distilled,
    PartiallyDistilled,
}

/// Whether a node fell out of the session window, and until when retrieval is
/// relaxed for it.
#[derive(Debug, Clone, Copy, PartialEq, Eq, Structural)]
pub struct OverflowPolicy {
    pub was_pushed_out_of_session: bool,
    pub relax_retrieval_until: Option<Timestamp>,
}

/// The policy of a node that never left the session window.
pub open spec fn no_overflow() -> OverflowPolicy {
    OverflowPolicy { was_pushed_out_of_session: false, relax_retrieval_until: None }
}

impl Default for OverflowPolicy {
    fn default() -> (policy: Self)
        ensures
            policy == no_overflow(),
    {
        OverflowPolicy { was_pushed_out_of_session: false, relax_retrieval_until: None }
    }
}

/// Bits of one half.
pub const HALF_BITS: u32 = 0x3f00_0000;

/// Where a raw node comes from and how much it matters.
#[derive(Debug, PartialEq, Eq)]
pub struct RawNodeMetadata {
    pub source: String,
    pub tags: Vec<String>,
    pub importance: Float32,
    pub visibility: Visibility,
}

impl Clone for RawNodeMetadata {
    fn clone(&self) -> (result: Self)
        ensures
            result.source == self.source,
            result.tags@ == self.tags@,
            result.importance == self.importance,
            result.visibility == self.visibility,
    {
        RawNodeMetadata {
            source: self.source.clone(),
            tags: clone_texts(self.tags.as_slice()),
            importance: self.importance,
            visibility: self.visibility,
        }
    }
}

impl Default for RawNodeMetadata {
    fn default() -> (metadata: Self)
        ensures
            metadata.source@ == "system"@,
            metadata.tags@.len() == 0,
            metadata.importance.bits == HALF_BITS,
            metadata.visibility == Visibility::Normal,
    {
        RawNodeMetadata {
            source: "system".to_string(),
            tags: Vec::new(),
            importance: Float32::from_bits(HALF_BITS),
            visibility: Visibility::Normal,
        }
    }
}

/// A record of one utterance, tool result, note or event.
#[derive(Debug, PartialEq, Eq)]
pub struct RawNode {
    pub id: RawNodeId,
    pub operation_key: Option<String>,
    pub session_id: Option<SessionId>,
    pub loop_id: Option<LoopId>,
    pub timestamp: Timestamp,
    pub kind: RawNodeKind,
    pub content: RawContent,
    pub embedding_ref: EmbeddingRef,
    pub metadata: RawNodeMetadata,
    pub distillation_state: DistillationState,
    pub overflow: OverflowPolicy,
}

/// A raw node as a mathematical value.
#[verifier::ext_equal]
pub struct Raw {
    pub id: RawNodeId,
    pub operation_key: Option<Seq<char>>,
    pub session_id: Option<SessionId>,
    pub loop_id: Option<LoopId>,
    pub timestamp: Timestamp,
    pub kind: RawNodeKind,
    pub content: Content,
    pub embedding_ref: Seq<char>,
    pub source: Seq<char>,
    pub tags: Seq<Seq<char>>,
    pub importance: Float32,
    pub visibility: Visibility,
    pub distillation_state: DistillationState,
    pub overflow: OverflowPolicy,
}

impl View for RawNode {
    type V = Raw;

    open spec fn view(&self) -> Raw {
        Raw {
            id: self.id,
            operation_key: text::opt_text(self.operation_key),
            session_id: self.session_id,
            loop_id: self.loop_id,
            timestamp: self.timestamp,
            kind: self.kind,
            content: self.content@,
            embedding_ref: self.embedding_ref.0@,
            source: self.metadata.source@,
            tags: text::texts(self.metadata.tags@),
            importance: self.metadata.importance,
            visibility: self.metadata.visibility,
            distillation_state: self.distillation_state,
            overflow: self.overflow,
        }
    }
}

impl Clone for RawNode {
    fn clone(&self) -> (result: Self)
        ensures
            result@ == self@,
    {
        RawNode {
            id: self.id,
            operation_key: self.operation_key.clone(),
            session_id: self.session_id,
            loop_id: self.loop_id,
            timestamp: self.timestamp,
            kind: self.kind,
            content: self.content.clone(),
            embedding_ref: self.embedding_ref.clone(),
            metadata: self.metadata.clone(),
            distillation_state: self.distillation_state,
            overflow: self.overflow,
        }
    }
}

impl Raw {
    /// A node as it is first recorded.
    pub open spec fn fresh(
        id: RawNodeId,
        timestamp: Timestamp,
        kind: RawNodeKind,
        session_id: Option<SessionId>,
        loop_id: Option<LoopId>,
        source: Seq<char>,
        content: Content,
        importance: Float32,
        tags: Seq<Seq<char>>,
    ) -> Raw {
        Raw {
            id,
            operation_key: None,
            session_id,
            loop_id,
            timestamp,
            kind,
            content,
            embedding_ref: embedding::embedding_ref_text("raw"@, ids::hyphenated(id.0.bits)),
            source,
            tags,
            importance,
            visibility: Visibility::Normal,
            distillation_state: DistillationState::Undistilled,
            overflow: no_overflow(),
        }
    }

    /// The node under an operation key.
    pub open spec fn keyed(self, key: Seq<char>) -> Raw {
        Raw { operation_key: Some(key), ..self }
    }

    /// How the node reads in a prompt.
    pub open spec fn context(self) -> Seq<char> {
        self.kind.name() + ": "@ + self.content.text()
    }
}

impl RawNode {
    /// A node with the given identifier, instant and content, as it is first
    /// recorded.
    pub fn recorded(
        id: RawNodeId,
        timestamp: Timestamp,
        kind: RawNodeKind,
        session_id: Option<SessionId>,
        loop_id: Option<LoopId>,
        source: String,
        content: RawContent,
        importance: Float32,
        tags: Vec<String>,
    ) -> (node: Self)
        ensures
            node@ == Raw::fresh(
                id,
                timestamp,
                kind,
                session_id,
                loop_id,
                source@,
                content@,
                importance,
                text::texts(tags@),
            ),
    {
        RawNode {
            id,
            operation_key: None,
            session_id,
            loop_id,
            timestamp,
            kind,
            content,
            embedding_ref: EmbeddingRef::for_node("raw", id.to_string()),
            metadata: RawNodeMetadata { source, tags, importance, visibility: Visibility::Normal },
            distillation_state: DistillationState::Undistilled,
            overflow: OverflowPolicy::default(),
        }
    }

    /// A node that holds a text, recorded now under a new identifier.
    pub fn text<S: IntoText, T: IntoText>(
        kind: RawNodeKind,
        session_id: Option<SessionId>,
        loop_id: Option<LoopId>,
        source: S,
        text: T,
        importance: Float32,
        tags: Vec<String>,
    ) -> (node: Self)
        ensures
            node@ == Raw::fresh(
                node.id,
                node.timestamp,
                kind,
                session_id,
                loop_id,
                source.chars(),
                Content::Text(text.chars()),
                importance,
                text::texts(tags@),
            ),
            0 <= node.timestamp.secs <= MAX_SECONDS,
            node.timestamp.nanos < NANOS_PER_SECOND,
    {
        RawNode::recorded(
            RawNodeId::new(),
            Timestamp::now(),
            kind,
            session_id,
            loop_id,
            source.into_text(),
            RawContent::Text(text.into_text()),
            importance,
            tags,
        )
    }

    /// A node that holds a JSON value, recorded now under a new identifier.
    pub fn json<S: IntoText>(
        kind: RawNodeKind,
        session_id: Option<SessionId>,
        loop_id: Option<LoopId>,
        source: S,
        value: JsonValue,
        importance: Float32,
        tags: Vec<String>,
    ) -> (node: Self)
        ensures
            node@ == Raw::fresh(
                node.id,
                node.timestamp,
                kind,
                session_id,
                loop_id,
                source.chars(),
                Content::Json(value@),
                importance,
                text::texts(tags@),
            ),
            0 <= node.timestamp.secs <= MAX_SECONDS,
            node.timestamp.nanos < NANOS_PER_SECOND,
    {
        RawNode::recorded(
            RawNodeId::new(),
            Timestamp::now(),
            kind,
            session_id,
            loop_id,
            source.into_text(),
            RawContent::Json(value),
            importance,
            tags,
        )
    }

    /// The content as one text.
    pub fn content_text(&self) -> (text: String)
        ensures
            text@ == self@.content.text(),
    {
        match &self.content {
            RawContent::Text(text) => text.clone(),
            RawContent::Json(value) => value.to_string(),
        }
    }

    /// The node under an operation key.
    pub fn with_operation_key<K: IntoText>(self, operation_key: K) -> (node: Self)
        ensures
            node@ == self@.keyed(operation_key.chars()),
    {
        let mut node = self;
        node.operation_key = Some(operation_key.into_text());
        node
    }

    /// How the node reads in a prompt.
    pub fn context_text(&self) -> (text: String)
        ensures
            text@ == self@.context(),
    {
        self.kind.describe().to_string().concat(": ").concat(self.content_text().as_str())
    }
}

/// The nodes as mathematical values, in order.
pub open spec fn raws(nodes: Seq<RawNode>) -> Seq<Raw> {
    nodes.map_values(|node: RawNode| node@)
}

/// Copies a list of raw nodes.
pub fn clone_raws(nodes: &[RawNode]) -> (result: Vec<RawNode>)
    ensures
        raws(result@) == raws(nodes@),
{
    let mut result: Vec<RawNode> = Vec::new();
    let mut index: usize = 0;
    while index < nodes.len()
        invariant
            index <= nodes.len(),
            raws(result@) == raws(nodes@.take(index as int)),
        decreases nodes.len() - index,
    {
        let ghost before = raws(result@);
        let copy = nodes[index].clone();
        result.push(copy);
        proof {
            assert(raws(result@) =~= before.push(copy@));
            assert(raws(nodes@.take(index + 1)) =~= before.push(nodes@[index as int]@));
        }
        index = index + 1;
    }
    assert(nodes@.take(nodes@.len() as int) =~= nodes@);
    result
}

/// A new node waits for distillation in its session, says what it was made of,
/// and has no operation key until it is given one, which changes nothing else.
pub proof fn new_nodes_wait_for_distillation(
    id: RawNodeId,
    timestamp: Timestamp,
    kind: RawNodeKind,
    session_id: Option<SessionId>,
    loop_id: Option<LoopId>,
    source: Seq<char>,
    content: Content,
    importance: Float32,
    tags: Seq<Seq<char>>,
    key: Seq<char>,
)
    ensures
        ({
            let node = Raw::fresh(
                id,
                timestamp,
                kind,
                session_id,
                loop_id,
                source,
                content,
                importance,
                tags,
            );
            &&& node.id == id && node.timestamp == timestamp && node.kind == kind
            &&& node.session_id == session_id && node.loop_id == loop_id
            &&& node.source == source && node.content == content
            &&& node.importance == importance && node.tags == tags
            &&& node.operation_key is None
            &&& node.visibility == Visibility::Normal
            &&& node.distillation_state == DistillationState::Undistilled
            &&& !node.overflow.was_pushed_out_of_session
            &&& node.overflow.relax_retrieval_until is None
            &&& node.embedding_ref == "raw:"@ + ids::hyphenated(id.0.bits)
            &&& node.keyed(key) == (Raw { operation_key: Some(key), ..node })
            &&& node.context() == node.kind.name() + ": "@ + (match content {
                Content::Text(text) => text,
                Content::Json(text) => text,
            })
        }),
{
    reveal_strlit("raw:");
    reveal_strlit("raw");
    reveal_strlit(":");
    let node = Raw::fresh(
        id,
        timestamp,
        kind,
        session_id,
        loop_id,
        source,
        content,
        importance,
        tags,
    );
    assert(node.embedding_ref =~= "raw:"@ + ids::hyphenated(id.0.bits));
}

/// A node's kind is told by its name.
pub proof fn kinds_are_told_by_name()
    ensures
        RawNodeKind::UserUtterance.name() == "UserUtterance"@,
        RawNodeKind::AssistantUtterance.name() == "AssistantUtterance"@,
        RawNodeKind::ToolResult.name() == "ToolResult"@,
        RawNodeKind::Note.name() == "Note"@,
        RawNodeKind::Event.name() == "Event"@,
{
}

/// Nodes that are the same as mathematical values are the same in all that they
/// hold.
pub proof fn raw_views_leave_nothing_out(left: RawNode, right: RawNode)
    requires
        left@ == right@,
    ensures
        left.id == right.id,
        text::opt_text(left.operation_key) == text::opt_text(right.operation_key),
        left.session_id == right.session_id,
        left.loop_id == right.loop_id,
        left.timestamp == right.timestamp,
        left.kind == right.kind,
        left.content@ == right.content@,
        left.embedding_ref.0@ == right.embedding_ref.0@,
        left.metadata.source@ == right.metadata.source@,
        text::texts(left.metadata.tags@) == text::texts(right.metadata.tags@),
        left.metadata.importance == right.metadata.importance,
        left.metadata.visibility == right.metadata.visibility,
        left.distillation_state == right.distillation_state,
        left.overflow == right.overflow,
{
}

} // verus!
