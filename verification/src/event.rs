//! The recorded event, and what a boundary declares of itself.

use vstd::prelude::*;
use crate::json::Json;
use crate::text::{opt_clone, opt_str, opt_text_eq};

verus! {

/// The version stamped on freshly recorded events.
pub const CURRENT_EVENT_SCHEMA_VERSION: u16 = 8;

/// How an event entered the artifact.
#[derive(Debug, Clone, Copy, PartialEq, Eq, Structural)]
pub enum Provenance {
    /// A primary capture, or a substituted lookup replay.
    Recorded,
    /// A capture from a replay that ran the real boundary.
    Shadow,
}

impl Default for Provenance {
    fn default() -> (r: Provenance)
        ensures
            r == Provenance::Recorded,
    {
        Provenance::Recorded
    }
}

/// How well a captured result can be rebuilt.
#[derive(Debug, Clone, Copy, PartialEq, Eq, Structural)]
pub enum Fidelity {
    /// Value for value.
    Lossless,
    /// By structure, but not losslessly.
    Structured,
    /// Not at all.
    Opaque,
}

impl Default for Fidelity {
    fn default() -> (r: Fidelity)
        ensures
            r == Fidelity::Lossless,
    {
        Fidelity::Lossless
    }
}

/// Whether it is safe to run a boundary again at replay. This is the whole
/// routing decision.
#[derive(Debug, Clone, Copy, PartialEq, Eq, Structural)]
pub enum ReplayStrategy {
    /// Run the real boundary again at replay.
    Execute,
    /// Serve the recorded result and never run again.
    Substitute,
}

impl Default for ReplayStrategy {
    fn default() -> (r: ReplayStrategy)
        ensures
            r == ReplayStrategy::Substitute,
    {
        ReplayStrategy::Substitute
    }
}

/// The effect domain of a declared boundary. Metadata only.
#[derive(Debug, Clone, Copy, PartialEq, Eq, Structural)]
pub enum EffectKind {
    Db,
    Redis,
    Http,
    Grpc,
    Entropy,
    Time,
    Function,
}

/// What a declared operation does to state.
#[derive(Debug, Clone, Copy, PartialEq, Eq, Structural)]
pub enum OperationKind {
    Read,
    Write,
    Touch,
    Create,
    Update,
    Delete,
    Upsert,
    CompareAndSet,
    IdempotentDelete,
    ExternalCall,
    Entropy,
    Clock,
}

/// The shape a declared boundary returns.
#[derive(Debug, Clone, Copy, PartialEq, Eq, Structural)]
pub enum ReturnSemantics {
    Nothing,
    Unit,
    Value,
    Optional,
    Rows,
    Count,
    Bool,
    PreImage,
    PostImage,
    UpdateReturning,
    DeleteReturning,
    Raw,
}

/// A reference to the codec a boundary declaration uses.
#[derive(Debug, PartialEq, Eq)]
pub struct CodecRef {
    pub id: String,
    pub version: Option<u32>,
}

impl CodecRef {
    pub fn new(id: &str) -> (r: CodecRef)
        ensures
            r.id@ == id@,
            r.version is None,
    {
        CodecRef { id: id.to_owned(), version: None }
    }

    pub fn versioned(id: &str, version: u32) -> (r: CodecRef)
        ensures
            r.id@ == id@,
            r.version == Some(version),
    {
        CodecRef { id: id.to_owned(), version: Some(version) }
    }
}

impl Clone for CodecRef {
    fn clone(&self) -> (r: CodecRef)
        ensures
            r == *self,
    {
        CodecRef { id: self.id.clone(), version: self.version }
    }
}

/// A reference to a canonical projection of state or reply.
#[derive(Debug, PartialEq, Eq)]
pub struct CanonRef {
    pub id: String,
    pub version: Option<u32>,
}

impl CanonRef {
    pub fn new(id: &str) -> (r: CanonRef)
        ensures
            r.id@ == id@,
            r.version is None,
    {
        CanonRef { id: id.to_owned(), version: None }
    }

    pub fn versioned(id: &str, version: u32) -> (r: CanonRef)
        ensures
            r.id@ == id@,
            r.version == Some(version),
    {
        CanonRef { id: id.to_owned(), version: Some(version) }
    }
}

impl Clone for CanonRef {
    fn clone(&self) -> (r: CanonRef)
        ensures
            r == *self,
    {
        CanonRef { id: self.id.clone(), version: self.version }
    }
}

/// Typed metadata a boundary declares of itself. Routing never reads it.
#[derive(Debug, PartialEq, Eq)]
pub struct BoundaryDeclaration {
    pub effect: Option<EffectKind>,
    pub op: Option<OperationKind>,
    pub return_shape: Option<ReturnSemantics>,
    pub codec: Option<CodecRef>,
    pub state_canon: Option<CanonRef>,
    pub reply_canon: Option<CanonRef>,
}

/// A declaration that declares nothing.
pub open spec fn blank_declaration(d: BoundaryDeclaration) -> bool {
    &&& d.effect is None
    &&& d.op is None
    &&& d.return_shape is None
    &&& d.codec is None
    &&& d.state_canon is None
    &&& d.reply_canon is None
}

impl Default for BoundaryDeclaration {
    fn default() -> (r: BoundaryDeclaration)
        ensures
            blank_declaration(r),
    {
        BoundaryDeclaration {
            effect: None,
            op: None,
            return_shape: None,
            codec: None,
            state_canon: None,
            reply_canon: None,
        }
    }
}

impl BoundaryDeclaration {
    pub fn effect(self, effect: EffectKind) -> (r: BoundaryDeclaration)
        ensures
            r == (BoundaryDeclaration { effect: Some(effect), ..self }),
    {
        BoundaryDeclaration { effect: Some(effect), ..self }
    }

    pub fn operation(self, op: OperationKind) -> (r: BoundaryDeclaration)
        ensures
            r == (BoundaryDeclaration { op: Some(op), ..self }),
    {
        BoundaryDeclaration { op: Some(op), ..self }
    }

    pub fn returning(self, return_shape: ReturnSemantics) -> (r: BoundaryDeclaration)
        ensures
            r == (BoundaryDeclaration { return_shape: Some(return_shape), ..self }),
    {
        BoundaryDeclaration { return_shape: Some(return_shape), ..self }
    }

    pub fn codec(self, codec: CodecRef) -> (r: BoundaryDeclaration)
        ensures
            r == (BoundaryDeclaration { codec: Some(codec), ..self }),
    {
        BoundaryDeclaration { codec: Some(codec), ..self }
    }

    pub fn state_canon(self, canon: CanonRef) -> (r: BoundaryDeclaration)
        ensures
            r == (BoundaryDeclaration { state_canon: Some(canon), ..self }),
    {
        BoundaryDeclaration { state_canon: Some(canon), ..self }
    }

    pub fn reply_canon(self, canon: CanonRef) -> (r: BoundaryDeclaration)
        ensures
            r == (BoundaryDeclaration { reply_canon: Some(canon), ..self }),
    {
        BoundaryDeclaration { reply_canon: Some(canon), ..self }
    }

    /// Whether nothing is declared.
    pub fn is_empty(&self) -> (r: bool)
        ensures
            r == blank_declaration(*self),
    {
        self.effect.is_none() && self.op.is_none() && self.return_shape.is_none()
            && self.codec.is_none() && self.state_canon.is_none() && self.reply_canon.is_none()
    }
}

impl Clone for BoundaryDeclaration {
    fn clone(&self) -> (r: BoundaryDeclaration)
        ensures
            r == *self,
    {
        BoundaryDeclaration {
            effect: self.effect,
            op: self.op,
            return_shape: self.return_shape,
            codec: match &self.codec {
                Some(c) => Some(c.clone()),
                None => None,
            },
            state_canon: match &self.state_canon {
                Some(c) => Some(c.clone()),
                None => None,
            },
            reply_canon: match &self.reply_canon {
                Some(c) => Some(c.clone()),
                None => None,
            },
        }
    }
}

/// What a process does at its boundaries.
#[derive(Debug, Clone, Copy, PartialEq, Eq, Structural)]
pub enum RuntimeMode {
    Record,
    Replay,
    Disabled,
}

impl RuntimeMode {
    pub fn is_record(self) -> (r: bool)
        ensures
            r == (self is Record),
    {
        matches!(self, RuntimeMode::Record)
    }

    pub fn is_replay(self) -> (r: bool)
        ensures
            r == (self is Replay),
    {
        matches!(self, RuntimeMode::Replay)
    }

    pub fn is_disabled(self) -> (r: bool)
        ensures
            r == (self is Disabled),
    {
        matches!(self, RuntimeMode::Disabled)
    }

    /// Whether a boundary's arguments are read in this mode.
    pub fn consumes_args(self) -> (r: bool)
        ensures
            r == (self is Record || self is Replay),
    {
        matches!(self, RuntimeMode::Record | RuntimeMode::Replay)
    }
}

/// What a boundary declares: the replay knob, a label, and typed metadata.
#[derive(Debug, PartialEq, Eq)]
pub struct BoundarySemantics {
    pub replay_strategy: ReplayStrategy,
    /// A descriptive label. It never routes.
    pub kind: Option<String>,
    pub declaration: Option<BoundaryDeclaration>,
}

/// The semantics of a boundary that declares nothing.
pub open spec fn undeclared_semantics() -> BoundarySemantics {
    BoundarySemantics {
        replay_strategy: ReplayStrategy::Substitute,
        kind: None,
        declaration: None,
    }
}

impl Default for BoundarySemantics {
    fn default() -> (r: BoundarySemantics)
        ensures
            r == undeclared_semantics(),
    {
        BoundarySemantics {
            replay_strategy: ReplayStrategy::Substitute,
            kind: None,
            declaration: None,
        }
    }
}

impl BoundarySemantics {
    /// The semantics of a boundary that declares nothing: it is never run again.
    pub fn undeclared() -> (r: BoundarySemantics)
        ensures
            r == undeclared_semantics(),
    {
        BoundarySemantics {
            replay_strategy: ReplayStrategy::Substitute,
            kind: None,
            declaration: None,
        }
    }

    /// Attaches a declaration; one that declares nothing is none.
    pub fn with_declaration(self, declaration: BoundaryDeclaration) -> (r: BoundarySemantics)
        ensures
            r == (BoundarySemantics {
                declaration: if blank_declaration(declaration) {
                    None
                } else {
                    Some(declaration)
                },
                ..self
            }),
    {
        if declaration.is_empty() {
            BoundarySemantics { declaration: None, ..self }
        } else {
            BoundarySemantics { declaration: Some(declaration), ..self }
        }
    }
}

impl Clone for BoundarySemantics {
    fn clone(&self) -> (r: BoundarySemantics)
        ensures
            r == *self,
    {
        BoundarySemantics {
            replay_strategy: self.replay_strategy,
            kind: opt_clone(&self.kind),
            declaration: match &self.declaration {
                Some(d) => Some(d.clone()),
                None => None,
            },
        }
    }
}

/// How a replay call is served.
#[derive(Debug, Clone, Copy, PartialEq, Eq, Structural)]
pub enum ExecuteMode {
    /// From the recorded table.
    Lookup,
    /// By the real boundary, whose result is shadow-recorded.
    Execute,
}

impl Default for ExecuteMode {
    fn default() -> (r: ExecuteMode)
        ensures
            r == ExecuteMode::Lookup,
    {
        ExecuteMode::Lookup
    }
}

/// How a call-site identity was derived.
#[derive(Debug, Clone, Copy, PartialEq, Eq, Hash, Structural)]
#[non_exhaustive]
pub enum CallsiteSource {
    /// An explicit annotation.
    Explicit,
    /// A hash of the surrounding syntax.
    SyntacticHash,
    /// A stable item path.
    LexicalPath,
    /// An occurrence index within a correlation.
    OperationOccurrence,
    /// File, line and column.
    LegacyLocation,
}

/// What identifies a call site when source lines shift.
#[derive(Debug)]
pub struct CallsiteIdentity {
    pub version: u16,
    pub source: CallsiteSource,
    pub id: Option<String>,
    pub scope: Option<String>,
    /// The occurrence index within `scope`.
    pub occurrence: u32,
    pub caller_function: Option<String>,
    pub lexical_path: Option<String>,
    pub syntax_hash: Option<u64>,
    /// The names of the spans the call fired within, root to leaf.
    pub span_path: Option<String>,
}

impl Clone for CallsiteIdentity {
    fn clone(&self) -> (r: CallsiteIdentity)
        ensures
            r == *self,
    {
        CallsiteIdentity {
            version: self.version,
            source: self.source,
            id: opt_clone(&self.id),
            scope: opt_clone(&self.scope),
            occurrence: self.occurrence,
            caller_function: opt_clone(&self.caller_function),
            lexical_path: opt_clone(&self.lexical_path),
            syntax_hash: self.syntax_hash,
            span_path: opt_clone(&self.span_path),
        }
    }
}

/// One operation captured at a boundary.
#[derive(Debug, Clone)]
pub struct BoundaryEvent {
    pub global_sequence: u64,
    pub request_sequence: u64,
    pub correlation_id: Option<String>,
    pub timestamp_ns: u64,
    pub recording_run_id: Option<String>,
    pub graph_node_id: Option<u64>,
    pub tracing_span_id: Option<u64>,
    pub task_id: Option<String>,
    pub parent_task_id: Option<String>,
    pub task_bucket: Option<String>,
    pub bucket_id: Option<String>,
    pub fork_seq: Option<u64>,
    pub boundary: String,
    pub trait_name: String,
    pub method_name: String,
    pub call_file: String,
    pub call_line: u32,
    pub call_column: u32,
    pub receiver: Option<Json>,
    pub request: Json,
    pub args: Json,
    pub response: Json,
    pub result: Json,
    pub is_error: bool,
    pub duration_us: u64,
    pub event_schema_version: u16,
    pub callsite_identity: Option<CallsiteIdentity>,
    pub provenance: Provenance,
    pub fidelity: Fidelity,
    pub result_image: Option<Json>,
    pub pre_image: Option<Json>,
    pub read_set: Vec<String>,
    pub write_set: Vec<String>,
    pub value_digest: Option<u64>,
    pub entropy_source: Option<String>,
    pub replay_strategy: ReplayStrategy,
    pub kind: Option<String>,
    pub declaration: Option<BoundaryDeclaration>,
    pub raw_draw: Option<Json>,
    pub end_timestamp_ns: Option<u64>,
}

/// Whether an event belongs to a correlation; none selects the events that
/// have none.
pub open spec fn in_correlation(event: BoundaryEvent, correlation_id: Option<Seq<char>>) -> bool {
    event.correlation_id.deep_view() == correlation_id
}

/// Whether an event belongs to a correlation; none selects the events that
/// have none.
pub fn correlation_matches(event: &BoundaryEvent, correlation_id: Option<&str>) -> (r: bool)
    ensures
        r == in_correlation(*event, correlation_id.deep_view()),
{
    opt_text_eq(opt_str(&event.correlation_id), correlation_id)
}

/// Whether a serialized result is that of a failed call: an object with a
/// member `Err`.
pub fn serialized_result_is_error(result: &Json) -> (r: bool)
    ensures
        r == (result@.member("Err"@) is Some),
{
    result.get("Err").is_some()
}

/// A boundary that declares nothing is substituted under replay, and a declaration
/// is blank only if it states nothing at all; an event belongs to the correlation
/// it names, and to none where it names none.
pub proof fn what_is_not_declared_is_substituted(
    d: BoundaryDeclaration,
    event: BoundaryEvent,
    correlation_id: Option<Seq<char>>,
)
    ensures
        undeclared_semantics().replay_strategy is Substitute,
        undeclared_semantics().kind is None,
        undeclared_semantics().declaration is None,
        blank_declaration(d) <==> d.effect is None && d.op is None && d.return_shape is None
            && d.codec is None && d.state_canon is None && d.reply_canon is None,
        in_correlation(event, correlation_id) <==> event.correlation_id.deep_view()
            == correlation_id,
{
}

} // verus!
