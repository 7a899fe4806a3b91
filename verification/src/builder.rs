//! Building an event: what is known before a boundary is crossed, and what is
//! added once it has answered.

use vstd::prelude::*;
use vstd::utf8::{decode_utf8, valid_utf8};
use crate::args_hash::{digest_of, value_digest_of};
use crate::event::{
    blank_declaration, undeclared_semantics, BoundaryDeclaration, BoundaryEvent, BoundarySemantics,
    CURRENT_EVENT_SCHEMA_VERSION, CallsiteIdentity, Fidelity, Provenance, ReplayStrategy,
};
use crate::identity::bytes_in;
use crate::json::{
    find, group_json_view, items_view, members_view, parse_json, parsed_json,
    the_first_member_is_found, with_member, Json, JsonView,
};
use crate::lineage::{current_task_metadata, stamped, TaskLineage};
use crate::text::{
    decimal, decimal_text, joined, numbers_are_read_back, opt_str, text_eq, text_of_bytes, texts,
};

verus! {

/// Where a call stands in the source.
#[derive(Debug, Clone, Copy)]
pub struct CallLocation {
    pub file: &'static str,
    pub line: u32,
    pub column: u32,
}

/// What is known of a boundary by its place in the program: what it matches by,
/// and what it declares.
#[derive(Debug)]
pub struct BoundarySpec {
    pub boundary: &'static str,
    pub trait_name: &'static str,
    pub method_name: &'static str,
    pub replay_strategy: ReplayStrategy,
    pub kind: Option<String>,
    pub declaration: Option<BoundaryDeclaration>,
}

impl BoundarySpec {
    /// What a boundary spec declares.
    pub open spec fn declared(self) -> BoundarySemantics {
        BoundarySemantics {
            replay_strategy: self.replay_strategy,
            kind: self.kind,
            declaration: self.declaration,
        }
    }

    /// A boundary that declares nothing: it is never run again.
    pub fn new(
        boundary: &'static str,
        trait_name: &'static str,
        method_name: &'static str,
    ) -> (r: BoundarySpec)
        ensures
            r.boundary == boundary,
            r.trait_name == trait_name,
            r.method_name == method_name,
            r.declared() == undeclared_semantics(),
    {
        BoundarySpec {
            boundary,
            trait_name,
            method_name,
            replay_strategy: ReplayStrategy::Substitute,
            kind: None,
            declaration: None,
        }
    }

    /// A boundary with what it declares.
    pub fn with_semantics(
        boundary: &'static str,
        trait_name: &'static str,
        method_name: &'static str,
        semantics: BoundarySemantics,
    ) -> (r: BoundarySpec)
        ensures
            r.boundary == boundary,
            r.trait_name == trait_name,
            r.method_name == method_name,
            r.declared() == semantics,
    {
        BoundarySpec {
            boundary,
            trait_name,
            method_name,
            replay_strategy: semantics.replay_strategy,
            kind: semantics.kind,
            declaration: semantics.declaration,
        }
    }

    /// What the boundary declares.
    pub fn semantics(&self) -> (r: BoundarySemantics)
        ensures
            r == self.declared(),
    {
        BoundarySemantics {
            replay_strategy: self.replay_strategy,
            kind: match &self.kind {
                Some(kind) => Some(kind.clone()),
                None => None,
            },
            declaration: match &self.declaration {
                Some(declaration) => Some(declaration.clone()),
                None => None,
            },
        }
    }
}

impl Clone for BoundarySpec {
    fn clone(&self) -> (r: BoundarySpec)
        ensures
            r == *self,
    {
        BoundarySpec::with_semantics(
            self.boundary,
            self.trait_name,
            self.method_name,
            self.semantics(),
        )
    }
}

/// A list of keys with one more, unless it is there.
pub open spec fn with_key(keys: Seq<Seq<char>>, key: Seq<char>) -> Seq<Seq<char>> {
    if keys.contains(key) {
        keys
    } else {
        keys.push(key)
    }
}

/// A list of keys with more behind it, each unless it is there.
pub open spec fn with_keys(keys: Seq<Seq<char>>, more: Seq<Seq<char>>) -> Seq<Seq<char>>
    decreases more.len(),
{
    if more.len() == 0 {
        keys
    } else {
        with_key(with_keys(keys, more.drop_last()), more.last())
    }
}

/// Adds a key to a list, unless it is there.
#[verifier::loop_isolation(false)]
pub fn push_state_key_once(keys: &mut Vec<String>, key: String)
    ensures
        texts(final(keys)@) == with_key(texts(old(keys)@), key@),
{
    let ghost was = keys@;
    let mut i: usize = 0;
    while i < keys.len()
        invariant
            0 <= i <= keys@.len(),
            keys@ == was,
            forall|j: int| 0 <= j < i ==> (#[trigger] texts(was)[j]) != key@,
        decreases keys@.len() - i,
    {
        if text_eq(keys[i].as_str(), key.as_str()) {
            proof {
                assert(texts(was)[i as int] == key@);
            }
            return;
        }
        i = i + 1;
    }
    keys.push(key);
    proof {
        assert(texts(keys@) =~= texts(was).push(key@));
    }
}

#[verifier::loop_isolation(false)]
fn push_state_keys(keys: &mut Vec<String>, more: Vec<String>)
    ensures
        texts(final(keys)@) == with_keys(texts(old(keys)@), texts(more@)),
{
    let ghost was = texts(keys@);
    let ghost all = texts(more@);
    let mut i: usize = 0;
    proof {
        assert(all.take(0) =~= Seq::<Seq<char>>::empty());
    }
    while i < more.len()
        invariant
            0 <= i <= more@.len(),
            texts(keys@) == with_keys(was, all.take(i as int)),
        decreases more@.len() - i,
    {
        proof {
            assert(all.take(i as int + 1).drop_last() =~= all.take(i as int));
        }
        push_state_key_once(keys, more[i].clone());
        i = i + 1;
    }
    proof {
        assert(all.take(all.len() as int) =~= all);
    }
}

fn one_key(key: &str) -> (r: Vec<String>)
    ensures
        texts(r@) == seq![key@],
{
    let mut out: Vec<String> = Vec::new();
    out.push(key.to_owned());
    proof {
        assert(texts(out@) =~= seq![key@]);
    }
    out
}

fn no_keys() -> (r: Vec<String>)
    ensures
        texts(r@) == Seq::<Seq<char>>::empty(),
        r@.len() == 0,
{
    let out: Vec<String> = Vec::new();
    proof {
        assert(texts(out@) =~= Seq::<Seq<char>>::empty());
    }
    out
}

/// What a boundary call gave, as it is recorded. Keys and images are only what
/// was stated; none is inferred.
#[derive(Debug, Clone, PartialEq)]
pub struct RecordedOutput {
    pub result: Json,
    pub is_error: bool,
    pub read_set: Vec<String>,
    pub write_set: Vec<String>,
    pub result_image: Option<Json>,
    pub pre_image: Option<Json>,
}

impl RecordedOutput {
    /// A result with nothing stated of state.
    pub fn new(result: Json, is_error: bool) -> (r: RecordedOutput)
        ensures
            r.result == result,
            r.is_error == is_error,
            r.read_set@.len() == 0,
            r.write_set@.len() == 0,
            r.result_image is None,
            r.pre_image is None,
    {
        RecordedOutput {
            result,
            is_error,
            read_set: Vec::new(),
            write_set: Vec::new(),
            result_image: None,
            pre_image: None,
        }
    }

    pub fn with_read_set(self, keys: Vec<String>) -> (r: RecordedOutput)
        ensures
            r == (RecordedOutput { read_set: keys, ..self }),
    {
        RecordedOutput { read_set: keys, ..self }
    }

    pub fn with_write_set(self, keys: Vec<String>) -> (r: RecordedOutput)
        ensures
            r == (RecordedOutput { write_set: keys, ..self }),
    {
        RecordedOutput { write_set: keys, ..self }
    }

    /// Adds a read key, unless it is there.
    pub fn with_read_key(self, key: &str) -> (r: RecordedOutput)
        ensures
            r == (RecordedOutput { read_set: r.read_set, ..self }),
            texts(r.read_set@) == with_key(texts(self.read_set@), key@),
    {
        let mut keys = self.read_set;
        push_state_key_once(&mut keys, key.to_owned());
        RecordedOutput { read_set: keys, ..self }
    }

    /// Adds a write key, unless it is there.
    pub fn with_write_key(self, key: &str) -> (r: RecordedOutput)
        ensures
            r == (RecordedOutput { write_set: r.write_set, ..self }),
            texts(r.write_set@) == with_key(texts(self.write_set@), key@),
    {
        let mut keys = self.write_set;
        push_state_key_once(&mut keys, key.to_owned());
        RecordedOutput { write_set: keys, ..self }
    }

    pub fn with_result_image(self, image: Json) -> (r: RecordedOutput)
        ensures
            r == (RecordedOutput { result_image: Some(image), ..self }),
    {
        RecordedOutput { result_image: Some(image), ..self }
    }

    pub fn with_pre_image(self, image: Json) -> (r: RecordedOutput)
        ensures
            r == (RecordedOutput { pre_image: Some(image), ..self }),
    {
        RecordedOutput { pre_image: Some(image), ..self }
    }
}

/// The numbers a hook gives an event.
#[derive(Debug, Clone, Copy)]
pub struct Sequences {
    pub global: u64,
    pub request: u64,
}

/// What surrounds a call when it starts.
#[derive(Debug)]
pub struct StartContext {
    /// The correlation the call runs in.
    pub correlation_id: Option<String>,
    pub graph_node_id: Option<u64>,
    pub tracing_span_id: Option<u64>,
    pub start_ns: u64,
}

/// What surrounds a call when it is finished.
#[derive(Debug)]
pub struct FinishContext {
    pub end_ns: u64,
    /// The run the hook says it records.
    pub hook_run_id: Option<String>,
    /// The run the process was started as.
    pub process_run_id: Option<String>,
    /// The lineage of the innermost entered span, or the root.
    pub lineage: TaskLineage,
}

/// An event under construction: the call as it was made, and what was stated
/// of it since.
pub struct EventBuilder {
    pub global_sequence: u64,
    pub request_sequence: u64,
    pub correlation_id: Option<String>,
    pub start_ns: u64,
    pub boundary: &'static str,
    pub trait_name: &'static str,
    pub method_name: &'static str,
    pub call_file: &'static str,
    pub call_line: u32,
    pub call_column: u32,
    pub graph_node_id: Option<u64>,
    pub tracing_span_id: Option<u64>,
    pub receiver: Option<Json>,
    pub args: Json,
    pub explicit_args: Option<Json>,
    pub explicit_read_set: Option<Vec<String>>,
    pub explicit_write_set: Option<Vec<String>>,
    pub explicit_output: Option<Json>,
    pub explicit_result_image: Option<Json>,
    pub explicit_pre_image: Option<Json>,
    pub callsite_identity: Option<CallsiteIdentity>,
    pub semantics: BoundarySemantics,
}

/// The keys in a set that may not have been stated.
pub open spec fn stated(keys: Option<Vec<String>>) -> Seq<Seq<char>> {
    match keys {
        Some(v) => texts(v@),
        None => Seq::empty(),
    }
}

fn keys_or_none(keys: Option<Vec<String>>) -> (r: Vec<String>)
    ensures
        texts(r@) == stated(keys),
{
    match keys {
        Some(v) => v,
        None => no_keys(),
    }
}

fn or_no_keys(keys: Option<Vec<String>>) -> (r: Option<Vec<String>>)
    ensures
        r is Some,
        stated(r) == stated(keys),
        keys is Some ==> r == keys,
{
    match keys {
        Some(v) => Some(v),
        None => Some(no_keys()),
    }
}

/// The label of what an event drew: boundaries that draw ids and times.
pub open spec fn entropy_label(boundary: Seq<char>) -> Option<Seq<char>> {
    if boundary == "id"@ {
        Some("id"@)
    } else if boundary == "time"@ {
        Some("time"@)
    } else {
        None
    }
}

fn entropy_source(boundary: &str) -> (r: Option<String>)
    ensures
        r.deep_view() == entropy_label(boundary@),
{
    if text_eq(boundary, "id") {
        Some("id".to_owned())
    } else if text_eq(boundary, "time") {
        Some("time".to_owned())
    } else {
        None
    }
}

impl EventBuilder {
    /// Starts an event with nothing but the call.
    pub fn start(
        numbers: Sequences,
        context: StartContext,
        boundary: &'static str,
        trait_name: &'static str,
        method_name: &'static str,
        caller: CallLocation,
        args: Json,
    ) -> (r: EventBuilder)
        ensures
            r.starts(numbers, context, boundary, trait_name, method_name, caller, args),
            r.receiver is None,
            r.correlation_id == context.correlation_id,
    {
        EventBuilder::start_with_receiver(
            numbers,
            context,
            boundary,
            trait_name,
            method_name,
            caller,
            None,
            args,
        )
    }

    /// Starts an event with a correlation of its own; none falls back to the
    /// one around the call.
    pub fn start_with_correlation_id(
        numbers: Sequences,
        context: StartContext,
        boundary: &'static str,
        trait_name: &'static str,
        method_name: &'static str,
        caller: CallLocation,
        correlation_id: Option<String>,
        args: Json,
    ) -> (r: EventBuilder)
        ensures
            r.starts(numbers, context, boundary, trait_name, method_name, caller, args),
            r.receiver is None,
            r.correlation_id == (if correlation_id is Some {
                correlation_id
            } else {
                context.correlation_id
            }),
    {
        EventBuilder::start_with_receiver_and_correlation_id(
            numbers,
            context,
            boundary,
            trait_name,
            method_name,
            caller,
            None,
            correlation_id,
            args,
        )
    }

    /// Starts an event with the receiver of the call.
    pub fn start_with_receiver(
        numbers: Sequences,
        context: StartContext,
        boundary: &'static str,
        trait_name: &'static str,
        method_name: &'static str,
        caller: CallLocation,
        receiver: Option<Json>,
        args: Json,
    ) -> (r: EventBuilder)
        ensures
            r.starts(numbers, context, boundary, trait_name, method_name, caller, args),
            r.receiver == receiver,
            r.correlation_id == context.correlation_id,
    {
        EventBuilder::start_with_receiver_and_correlation_id(
            numbers,
            context,
            boundary,
            trait_name,
            method_name,
            caller,
            receiver,
            None,
            args,
        )
    }

    /// Starts an event with the receiver of the call and a correlation of its
    /// own; none falls back to the one around the call.
    pub fn start_with_receiver_and_correlation_id(
        numbers: Sequences,
        context: StartContext,
        boundary: &'static str,
        trait_name: &'static str,
        method_name: &'static str,
        caller: CallLocation,
        receiver: Option<Json>,
        explicit_correlation_id: Option<String>,
        args: Json,
    ) -> (r: EventBuilder)
        ensures
            r.starts(numbers, context, boundary, trait_name, method_name, caller, args),
            r.receiver == receiver,
            r.correlation_id == (if explicit_correlation_id is Some {
                explicit_correlation_id
            } else {
                context.correlation_id
            }),
    {
        EventBuilder {
            global_sequence: numbers.global,
            request_sequence: numbers.request,
            correlation_id: match explicit_correlation_id {
                Some(id) => Some(id),
                None => context.correlation_id,
            },
            start_ns: context.start_ns,
            boundary,
            trait_name,
            method_name,
            call_file: caller.file,
            call_line: caller.line,
            call_column: caller.column,
            graph_node_id: context.graph_node_id,
            tracing_span_id: context.tracing_span_id,
            receiver,
            args,
            explicit_args: None,
            explicit_read_set: None,
            explicit_write_set: None,
            explicit_output: None,
            explicit_result_image: None,
            explicit_pre_image: None,
            callsite_identity: None,
            semantics: BoundarySemantics::undeclared(),
        }
    }

    /// Whether a builder holds a call as it was made, with nothing stated of
    /// it since.
    pub open spec fn starts(
        self,
        numbers: Sequences,
        context: StartContext,
        boundary: &'static str,
        trait_name: &'static str,
        method_name: &'static str,
        caller: CallLocation,
        args: Json,
    ) -> bool {
        &&& self.global_sequence == numbers.global
        &&& self.request_sequence == numbers.request
        &&& self.start_ns == context.start_ns
        &&& self.graph_node_id == context.graph_node_id
        &&& self.tracing_span_id == context.tracing_span_id
        &&& self.boundary == boundary
        &&& self.trait_name == trait_name
        &&& self.method_name == method_name
        &&& self.call_file == caller.file
        &&& self.call_line == caller.line
        &&& self.call_column == caller.column
        &&& self.args == args
        &&& self.explicit_args is None
        &&& self.explicit_read_set is None
        &&& self.explicit_write_set is None
        &&& self.explicit_output is None
        &&& self.explicit_result_image is None
        &&& self.explicit_pre_image is None
        &&& self.callsite_identity is None
        &&& self.semantics == undeclared_semantics()
    }

    pub fn with_callsite_identity(self, identity: CallsiteIdentity) -> (r: EventBuilder)
        ensures
            r == (EventBuilder { callsite_identity: Some(identity), ..self }),
    {
        EventBuilder { callsite_identity: Some(identity), ..self }
    }

    pub fn with_semantics(self, semantics: BoundarySemantics) -> (r: EventBuilder)
        ensures
            r == (EventBuilder { semantics, ..self }),
    {
        EventBuilder { semantics, ..self }
    }

    /// Records other arguments than the call's. No key is read from them.
    pub fn record_call_to(self, args: Json) -> (r: EventBuilder)
        ensures
            r == (EventBuilder { explicit_args: Some(args), ..self }),
    {
        EventBuilder { explicit_args: Some(args), ..self }
    }

    /// States that the call reads one key, and writes none unless stated.
    pub fn state_read_to(self, key: &str) -> (r: EventBuilder)
        ensures
            r == (EventBuilder {
                explicit_read_set: r.explicit_read_set,
                explicit_write_set: r.explicit_write_set,
                ..self
            }),
            r.explicit_read_set is Some,
            stated(r.explicit_read_set) == seq![key@],
            r.explicit_write_set is Some,
            stated(r.explicit_write_set) == stated(self.explicit_write_set),
            self.explicit_write_set is Some ==> r.explicit_write_set == self.explicit_write_set,
    {
        EventBuilder {
            explicit_read_set: Some(one_key(key)),
            explicit_write_set: or_no_keys(self.explicit_write_set),
            ..self
        }
    }

    /// States that the call writes one key, and reads none unless stated.
    pub fn state_write_to(self, key: &str) -> (r: EventBuilder)
        ensures
            r == (EventBuilder {
                explicit_read_set: r.explicit_read_set,
                explicit_write_set: r.explicit_write_set,
                ..self
            }),
            r.explicit_read_set is Some,
            stated(r.explicit_read_set) == stated(self.explicit_read_set),
            self.explicit_read_set is Some ==> r.explicit_read_set == self.explicit_read_set,
            r.explicit_write_set is Some,
            stated(r.explicit_write_set) == seq![key@],
    {
        EventBuilder {
            explicit_read_set: or_no_keys(self.explicit_read_set),
            explicit_write_set: Some(one_key(key)),
            ..self
        }
    }

    /// States that the call reads and writes one key.
    pub fn state_touch_to(self, key: &str) -> (r: EventBuilder)
        ensures
            r == (EventBuilder {
                explicit_read_set: r.explicit_read_set,
                explicit_write_set: r.explicit_write_set,
                ..self
            }),
            r.explicit_read_set is Some,
            stated(r.explicit_read_set) == seq![key@],
            r.explicit_write_set is Some,
            stated(r.explicit_write_set) == seq![key@],
    {
        EventBuilder {
            explicit_read_set: Some(one_key(key)),
            explicit_write_set: Some(one_key(key)),
            ..self
        }
    }

    /// States what the call reads; it writes nothing unless stated.
    pub fn with_read_set(self, keys: Vec<String>) -> (r: EventBuilder)
        ensures
            r == (EventBuilder {
                explicit_read_set: Some(keys),
                explicit_write_set: r.explicit_write_set,
                ..self
            }),
            r.explicit_write_set is Some,
            stated(r.explicit_write_set) == stated(self.explicit_write_set),
            self.explicit_write_set is Some ==> r.explicit_write_set == self.explicit_write_set,
    {
        EventBuilder {
            explicit_read_set: Some(keys),
            explicit_write_set: or_no_keys(self.explicit_write_set),
            ..self
        }
    }

    /// States what the call writes; it reads nothing unless stated.
    pub fn with_write_set(self, keys: Vec<String>) -> (r: EventBuilder)
        ensures
            r == (EventBuilder {
                explicit_read_set: r.explicit_read_set,
                explicit_write_set: Some(keys),
                ..self
            }),
            r.explicit_read_set is Some,
            stated(r.explicit_read_set) == stated(self.explicit_read_set),
            self.explicit_read_set is Some ==> r.explicit_read_set == self.explicit_read_set,
    {
        EventBuilder {
            explicit_read_set: or_no_keys(self.explicit_read_set),
            explicit_write_set: Some(keys),
            ..self
        }
    }

    /// Records another output than the call's.
    pub fn with_output(self, output: Json) -> (r: EventBuilder)
        ensures
            r == (EventBuilder { explicit_output: Some(output), ..self }),
    {
        EventBuilder { explicit_output: Some(output), ..self }
    }

    pub fn with_result_image(self, image: Json) -> (r: EventBuilder)
        ensures
            r == (EventBuilder { explicit_result_image: Some(image), ..self }),
    {
        EventBuilder { explicit_result_image: Some(image), ..self }
    }

    pub fn with_pre_image(self, image: Json) -> (r: EventBuilder)
        ensures
            r == (EventBuilder { explicit_pre_image: Some(image), ..self }),
    {
        EventBuilder { explicit_pre_image: Some(image), ..self }
    }

    /// The builder with what an output states added: keys behind those already
    /// stated, each once, and images over those already stated.
    pub open spec fn takes(self, output: RecordedOutput, r: EventBuilder) -> bool {
        &&& r == (EventBuilder {
            explicit_read_set: r.explicit_read_set,
            explicit_write_set: r.explicit_write_set,
            explicit_result_image: if output.result_image is Some {
                output.result_image
            } else {
                self.explicit_result_image
            },
            explicit_pre_image: if output.pre_image is Some {
                output.pre_image
            } else {
                self.explicit_pre_image
            },
            ..self
        })
        &&& stated(r.explicit_read_set) == with_keys(
            stated(self.explicit_read_set),
            texts(output.read_set@),
        )
        &&& stated(r.explicit_write_set) == with_keys(
            stated(self.explicit_write_set),
            texts(output.write_set@),
        )
    }

    /// The event of a call whose output states keys and images of its own.
    pub fn finish_recorded(self, context: FinishContext, output: RecordedOutput) -> (r:
        BoundaryEvent)
        ensures
            exists|b: EventBuilder| #[trigger]
                self.takes(output, b) && b.finishes(context, output.result, output.is_error, r),
    {
        let RecordedOutput { result, is_error, read_set, write_set, result_image, pre_image } =
            output;
        let mut reads = keys_or_none(self.explicit_read_set);
        push_state_keys(&mut reads, read_set);
        let mut writes = keys_or_none(self.explicit_write_set);
        push_state_keys(&mut writes, write_set);
        let builder = EventBuilder {
            explicit_read_set: Some(reads),
            explicit_write_set: Some(writes),
            explicit_result_image: match result_image {
                Some(image) => Some(image),
                None => self.explicit_result_image,
            },
            explicit_pre_image: match pre_image {
                Some(image) => Some(image),
                None => self.explicit_pre_image,
            },
            ..self
        };
        proof {
            assert(self.takes(output, builder));
        }
        builder.finish(context, result, is_error)
    }

    /// Whether an event is the one this builder finishes as: the call as it was
    /// made, what was stated of it in place of what the call gave, and nothing
    /// inferred.
    pub open spec fn finishes(
        self,
        context: FinishContext,
        result: Json,
        is_error: bool,
        e: BoundaryEvent,
    ) -> bool {
        let args = match self.explicit_args {
            Some(v) => v@,
            None => self.args@,
        };
        let output = match self.explicit_output {
            Some(v) => v@,
            None => result@,
        };
        let lineage = stamped(context.lineage@);
        &&& e.global_sequence == self.global_sequence
        &&& e.request_sequence == self.request_sequence
        &&& e.correlation_id == self.correlation_id
        &&& e.timestamp_ns == self.start_ns
        &&& e.recording_run_id.deep_view() == (if context.hook_run_id is Some {
            context.hook_run_id.deep_view()
        } else {
            context.process_run_id.deep_view()
        })
        &&& e.graph_node_id == self.graph_node_id
        &&& e.tracing_span_id == self.tracing_span_id
        &&& e.task_id.deep_view() == lineage.task_id
        &&& e.parent_task_id.deep_view() == lineage.parent_task_id
        &&& e.task_bucket.deep_view() == lineage.task_bucket
        &&& e.bucket_id.deep_view() == lineage.bucket_id
        &&& e.fork_seq == lineage.fork_seq
        &&& e.boundary@ == self.boundary@
        &&& e.trait_name@ == self.trait_name@
        &&& e.method_name@ == self.method_name@
        &&& e.call_file@ == self.call_file@
        &&& e.call_line == self.call_line
        &&& e.call_column == self.call_column
        &&& e.receiver == self.receiver
        &&& e.request@ == args
        &&& e.args@ == args
        &&& e.response@ == output
        &&& e.result@ == output
        &&& e.is_error == is_error
        &&& e.duration_us == (if context.end_ns >= self.start_ns {
            (context.end_ns - self.start_ns) / 1_000
        } else {
            0
        })
        &&& e.event_schema_version == CURRENT_EVENT_SCHEMA_VERSION
        &&& e.callsite_identity == self.callsite_identity
        &&& e.provenance == Provenance::Recorded
        &&& e.fidelity == Fidelity::Lossless
        &&& e.result_image == self.explicit_result_image
        &&& e.pre_image == self.explicit_pre_image
        &&& texts(e.read_set@) == stated(self.explicit_read_set)
        &&& texts(e.write_set@) == stated(self.explicit_write_set)
        &&& e.value_digest == Some(digest_of(args, output))
        &&& e.entropy_source.deep_view() == entropy_label(self.boundary@)
        &&& e.replay_strategy == self.semantics.replay_strategy
        &&& e.kind == self.semantics.kind
        &&& e.declaration == (match self.semantics.declaration {
            Some(d) => if blank_declaration(d) {
                None
            } else {
                Some(d)
            },
            None => None,
        })
        &&& e.raw_draw is None
        &&& e.end_timestamp_ns == Some(context.end_ns)
    }

    /// The event of a call that gave `result`.
    pub fn finish(self, context: FinishContext, result: Json, is_error: bool) -> (r: BoundaryEvent)
        ensures
            self.finishes(context, result, is_error, r),
    {
        let duration_us: u64 = context.end_ns.saturating_sub(self.start_ns) / 1_000;
        let recording_run_id = match context.hook_run_id {
            Some(id) => Some(id),
            None => context.process_run_id,
        };
        let args = match self.explicit_args {
            Some(v) => v,
            None => self.args,
        };
        let result = match self.explicit_output {
            Some(v) => v,
            None => result,
        };
        let read_set = keys_or_none(self.explicit_read_set);
        let write_set = keys_or_none(self.explicit_write_set);
        let value_digest = Some(value_digest_of(&args, &result));
        let lineage = current_task_metadata(context.lineage);
        let declaration = match self.semantics.declaration {
            Some(d) => if d.is_empty() {
                None
            } else {
                Some(d)
            },
            None => None,
        };
        BoundaryEvent {
            global_sequence: self.global_sequence,
            request_sequence: self.request_sequence,
            correlation_id: self.correlation_id,
            timestamp_ns: self.start_ns,
            recording_run_id,
            graph_node_id: self.graph_node_id,
            tracing_span_id: self.tracing_span_id,
            task_id: lineage.task_id,
            parent_task_id: lineage.parent_task_id,
            task_bucket: lineage.task_bucket,
            bucket_id: lineage.bucket_id,
            fork_seq: lineage.fork_seq,
            boundary: self.boundary.to_owned(),
            trait_name: self.trait_name.to_owned(),
            method_name: self.method_name.to_owned(),
            call_file: self.call_file.to_owned(),
            call_line: self.call_line,
            call_column: self.call_column,
            receiver: self.receiver,
            request: args.clone(),
            args,
            response: result.clone(),
            result,
            is_error,
            duration_us,
            event_schema_version: CURRENT_EVENT_SCHEMA_VERSION,
            callsite_identity: self.callsite_identity,
            provenance: Provenance::Recorded,
            fidelity: Fidelity::Lossless,
            result_image: self.explicit_result_image,
            pre_image: self.explicit_pre_image,
            read_set,
            write_set,
            value_digest,
            entropy_source: entropy_source(self.boundary),
            replay_strategy: self.semantics.replay_strategy,
            kind: self.semantics.kind,
            declaration,
            raw_draw: None,
            end_timestamp_ns: Some(context.end_ns),
        }
    }
}

/// What a boundary states of the state it touched.
#[derive(Debug, Clone, PartialEq)]
pub struct StateCapture {
    pub read_set: Vec<String>,
    pub write_set: Vec<String>,
    pub result_image: Option<Json>,
    pub pre_image: Option<Json>,
}

impl Default for StateCapture {
    fn default() -> (r: StateCapture)
        ensures
            r.states_nothing(),
    {
        StateCapture::empty()
    }
}

impl StateCapture {
    pub open spec fn states_nothing(self) -> bool {
        &&& self.read_set@.len() == 0
        &&& self.write_set@.len() == 0
        &&& self.result_image is None
        &&& self.pre_image is None
    }

    /// A capture that states nothing.
    pub fn empty() -> (r: StateCapture)
        ensures
            r.states_nothing(),
    {
        StateCapture {
            read_set: Vec::new(),
            write_set: Vec::new(),
            result_image: None,
            pre_image: None,
        }
    }

    pub fn with_read_set(self, keys: Vec<String>) -> (r: StateCapture)
        ensures
            r == (StateCapture { read_set: keys, ..self }),
    {
        StateCapture { read_set: keys, ..self }
    }

    pub fn with_write_set(self, keys: Vec<String>) -> (r: StateCapture)
        ensures
            r == (StateCapture { write_set: keys, ..self }),
    {
        StateCapture { write_set: keys, ..self }
    }

    pub fn with_result_image(self, image: Json) -> (r: StateCapture)
        ensures
            r == (StateCapture { result_image: Some(image), ..self }),
    {
        StateCapture { result_image: Some(image), ..self }
    }

    pub fn with_pre_image(self, image: Json) -> (r: StateCapture)
        ensures
            r == (StateCapture { pre_image: Some(image), ..self }),
    {
        StateCapture { pre_image: Some(image), ..self }
    }

    /// One key read, and none written.
    pub fn state_read_to(self, key: &str) -> (r: StateCapture)
        ensures
            r == (StateCapture { read_set: r.read_set, write_set: r.write_set, ..self }),
            texts(r.read_set@) == seq![key@],
            r.write_set@.len() == 0,
    {
        StateCapture { read_set: one_key(key), write_set: Vec::new(), ..self }
    }

    /// One key written, and none read.
    pub fn state_write_to(self, key: &str) -> (r: StateCapture)
        ensures
            r == (StateCapture { read_set: r.read_set, write_set: r.write_set, ..self }),
            r.read_set@.len() == 0,
            texts(r.write_set@) == seq![key@],
    {
        StateCapture { read_set: Vec::new(), write_set: one_key(key), ..self }
    }

    /// One key read and written.
    pub fn state_touch_to(self, key: &str) -> (r: StateCapture)
        ensures
            r == (StateCapture { read_set: r.read_set, write_set: r.write_set, ..self }),
            texts(r.read_set@) == seq![key@],
            texts(r.write_set@) == seq![key@],
    {
        StateCapture { read_set: one_key(key), write_set: one_key(key), ..self }
    }

    /// States the capture of an event: its keys are the event's keys, and its
    /// images stand over those already stated.
    pub fn apply_to(self, event: EventBuilder) -> (r: EventBuilder)
        ensures
            r == (EventBuilder {
                explicit_read_set: Some(self.read_set),
                explicit_write_set: Some(self.write_set),
                explicit_result_image: if self.result_image is Some {
                    self.result_image
                } else {
                    event.explicit_result_image
                },
                explicit_pre_image: if self.pre_image is Some {
                    self.pre_image
                } else {
                    event.explicit_pre_image
                },
                ..event
            }),
    {
        let mut out = event.with_read_set(self.read_set).with_write_set(self.write_set);
        if let Some(image) = self.result_image {
            out = out.with_result_image(image);
        }
        if let Some(image) = self.pre_image {
            out = out.with_pre_image(image);
        }
        out
    }
}

/// Bytes as a JSON array of numbers.
pub open spec fn byte_numbers(bytes: Seq<u8>) -> Seq<JsonView> {
    bytes.map_values(|b: u8| JsonView::Number(decimal(b as nat)))
}

/// How a body is recorded: that there was none, or its length, its text where
/// it has one, its document where the text is one, and its bytes.
pub open spec fn body_image(
    bytes: Seq<u8>,
    text: Option<Seq<char>>,
    parsed: Option<JsonView>,
) -> JsonView {
    if bytes.len() == 0 {
        JsonView::Object(
            seq![
                ("captured"@, JsonView::Bool(false)),
                ("reason"@, JsonView::String("empty body or stream incomplete"@)),
            ],
        )
    } else {
        JsonView::Object(
            seq![
                ("captured"@, JsonView::Bool(true)),
                ("bytes_len"@, JsonView::Number(decimal(bytes.len()))),
                ("utf8"@, JsonView::Bool(text is Some)),
                (
                    "text"@,
                    match text {
                        Some(t) => JsonView::String(t),
                        None => JsonView::Null,
                    },
                ),
                (
                    "json"@,
                    match parsed {
                        Some(v) => v,
                        None => JsonView::Null,
                    },
                ),
                ("raw_bytes"@, JsonView::Array(byte_numbers(bytes))),
            ],
        )
    }
}

#[verifier::loop_isolation(false)]
fn byte_items(bytes: &Vec<u8>) -> (r: Vec<Json>)
    ensures
        items_view(r@) == byte_numbers(bytes@),
{
    let mut out: Vec<Json> = Vec::new();
    let mut i: usize = 0;
    while i < bytes.len()
        invariant
            0 <= i <= bytes@.len(),
            items_view(out@) == byte_numbers(bytes@).take(i as int),
        decreases bytes@.len() - i,
    {
        let ghost was = out@;
        let one = Json::from_u64(bytes[i] as u64);
        out.push(one);
        proof {
            assert(items_view(out@) =~= items_view(was).push(one@));
            assert(items_view(out@) =~= byte_numbers(bytes@).take(i as int + 1));
        }
        i = i + 1;
    }
    proof {
        assert(byte_numbers(bytes@).take(i as int) =~= byte_numbers(bytes@));
    }
    out
}

/// How a body is recorded, given its text and the document in it.
pub fn body_json(bytes: &Vec<u8>, text: Option<String>, parsed: Option<Json>) -> (r: Json)
    ensures
        r@ == body_image(bytes@, text.deep_view(), parsed.deep_view()),
{
    broadcast use group_json_view;

    let mut members: Vec<(String, Json)> = Vec::new();
    if bytes.len() == 0 {
        members.push(("captured".to_owned(), Json::Bool(false)));
        members.push(("reason".to_owned(), Json::text("empty body or stream incomplete")));
    } else {
        let items = byte_items(bytes);
        members.push(("captured".to_owned(), Json::Bool(true)));
        members.push(("bytes_len".to_owned(), Json::from_u64(bytes.len() as u64)));
        members.push(("utf8".to_owned(), Json::Bool(text.is_some())));
        members.push(
            (
                "text".to_owned(),
                match text {
                    Some(t) => Json::String(t),
                    None => Json::Null,
                },
            ),
        );
        members.push(
            (
                "json".to_owned(),
                match parsed {
                    Some(v) => v,
                    None => Json::Null,
                },
            ),
        );
        members.push(("raw_bytes".to_owned(), Json::Array(items)));
    }
    let out = Json::Object(members);
    proof {
        assert(members_view(members@) =~= body_image(
            bytes@,
            text.deep_view(),
            parsed.deep_view(),
        )->Object_0);
    }
    out
}

/// The text of bytes, where they are UTF-8.
pub open spec fn utf8_text(bytes: Seq<u8>) -> Option<Seq<char>> {
    if valid_utf8(bytes) {
        Some(decode_utf8(bytes))
    } else {
        None
    }
}

/// The document in a text, where it is one.
pub open spec fn text_document(text: Option<Seq<char>>) -> Option<JsonView> {
    match text {
        Some(t) => parsed_json(t),
        None => None,
    }
}

fn copied(bytes: &Vec<u8>) -> (r: Vec<u8>)
    ensures
        r@ == bytes@,
{
    let mut out: Vec<u8> = Vec::new();
    out.extend_from_slice(bytes.as_slice());
    proof {
        assert(out@ =~= bytes@);
    }
    out
}

/// Puts a captured body into a result under `response_body`. A result that is
/// no object stays as it is.
pub fn inject_body_json(result: &mut Json, bytes: Vec<u8>)
    ensures
        final(result)@ == with_member(
            old(result)@,
            "response_body"@,
            body_image(bytes@, utf8_text(bytes@), text_document(utf8_text(bytes@))),
        ),
{
    let text = text_of_bytes(copied(&bytes));
    let parsed = match &text {
        Some(t) => parse_json(t.as_str()),
        None => None,
    };
    let ghost t = text.deep_view();
    let ghost d = parsed.deep_view();
    proof {
        assert(t == utf8_text(bytes@));
        assert(d == text_document(t));
    }
    let body = body_json(&bytes, text, parsed);
    result.insert("response_body".to_owned(), body);
}

/// An event whose result is not known until a body has streamed through.
pub struct LazyEventFinalizer {
    pub builder: EventBuilder,
    pub partial_result: Json,
    pub is_error: bool,
    /// The bytes captured so far.
    pub body: Vec<u8>,
}

impl LazyEventFinalizer {
    /// A finalizer with what is known before the body.
    pub fn new(builder: EventBuilder, partial_result: Json, is_error: bool) -> (r:
        LazyEventFinalizer)
        ensures
            r.builder == builder,
            r.partial_result == partial_result,
            r.is_error == is_error,
            r.body@ == Seq::<u8>::empty(),
    {
        LazyEventFinalizer { builder, partial_result, is_error, body: Vec::new() }
    }

    /// Appends a chunk of the body.
    pub fn capture_chunk(&mut self, chunk: &[u8])
        ensures
            final(self).body@ == old(self).body@ + chunk@,
            final(self).builder == old(self).builder,
            final(self).partial_result == old(self).partial_result,
            final(self).is_error == old(self).is_error,
    {
        let ghost was = self.body@;
        self.body.extend_from_slice(chunk);
        proof {
            assert(self.body@ =~= was + chunk@);
        }
    }

    /// The correlation the event will carry.
    pub fn correlation_id(&self) -> (r: Option<&str>)
        ensures
            r.deep_view() == self.builder.correlation_id.deep_view(),
    {
        opt_str(&self.builder.correlation_id)
    }

    /// The event with the whole body in its result.
    pub fn finalize(self, context: FinishContext) -> (r: BoundaryEvent)
        ensures
            exists|result: Json|
                result@ == with_member(
                    self.partial_result@,
                    "response_body"@,
                    body_image(
                        self.body@,
                        utf8_text(self.body@),
                        text_document(utf8_text(self.body@)),
                    ),
                ) && #[trigger] self.builder.finishes(context, result, self.is_error, r),
    {
        let mut result = self.partial_result;
        inject_body_json(&mut result, self.body);
        self.builder.finish(context, result, self.is_error)
    }
}

/// A run id that says something.
pub open spec fn said(id: Option<Seq<char>>) -> bool {
    id matches Some(t) && t.len() > 0
}

/// The run id a process was started with: none where it is empty.
pub fn current_recording_run_id(variable: Option<String>) -> (r: Option<String>)
    ensures
        r.deep_view() == (if said(variable.deep_view()) {
            variable.deep_view()
        } else {
            None
        }),
{
    match variable {
        Some(id) => if id.as_str().is_empty() {
            None
        } else {
            Some(id)
        },
        None => None,
    }
}

/// The id of a recording run: the one given for recordings, else the one given
/// for runs, else one made from the time.
pub fn resolve_recording_run_id(
    recording: Option<String>,
    run: Option<String>,
    now: u64,
) -> (r: String)
    ensures
        r@ == (if said(recording.deep_view()) {
            recording.deep_view()->0
        } else if said(run.deep_view()) {
            run.deep_view()->0
        } else {
            "run-"@ + decimal(now as nat)
        }),
{
    match current_recording_run_id(recording) {
        Some(id) => id,
        None => match current_recording_run_id(run) {
            Some(id) => id,
            None => joined("run-", decimal_text(now).as_str()),
        },
    }
}

/// Keys are added behind those already there, in their order and each once: none
/// that was there or was added is missing, none stands twice that did not before,
/// and nothing else is there.
pub proof fn keys_are_added_once_each(keys: Seq<Seq<char>>, more: Seq<Seq<char>>)
    ensures
        keys.is_prefix_of(with_keys(keys, more)),
        forall|k: Seq<char>| #[trigger]
            with_keys(keys, more).contains(k) <==> keys.contains(k) || more.contains(k),
        keys.no_duplicates() ==> with_keys(keys, more).no_duplicates(),
    decreases more.len(),
{
    if more.len() == 0 {
        assert(keys =~= keys.subrange(0, keys.len() as int));
    } else {
        let fewer = more.drop_last();
        let last = more.last();
        keys_are_added_once_each(keys, fewer);
        let before = with_keys(keys, fewer);
        let now = with_keys(keys, more);
        assert(now == with_key(before, last));
        assert(keys =~= now.subrange(0, keys.len() as int)) by {
            assert(keys =~= before.subrange(0, keys.len() as int));
            assert forall|i: int| 0 <= i < keys.len() implies keys[i] == now[i] by {
                assert(keys[i] == before[i]);
            }
        }
        assert forall|k: Seq<char>| #[trigger]
            now.contains(k) <==> keys.contains(k) || more.contains(k) by {
            assert(before.contains(k) <==> keys.contains(k) || fewer.contains(k));
            assert(more.contains(k) <==> fewer.contains(k) || k == last) by {
                if fewer.contains(k) {
                    let i = choose|i: int| 0 <= i < fewer.len() && fewer[i] == k;
                    assert(more[i] == k);
                }
                if k == last {
                    assert(more[more.len() - 1] == k);
                }
                if more.contains(k) && k != last {
                    let i = choose|i: int| 0 <= i < more.len() && more[i] == k;
                    assert(fewer[i] == k);
                }
            }
            if before.contains(k) {
                let i = choose|i: int| 0 <= i < before.len() && before[i] == k;
                assert(now[i] == k);
            }
            if k == last && !before.contains(last) {
                assert(now[now.len() - 1] == k);
            }
            if now.contains(k) && k != last {
                let i = choose|i: int| 0 <= i < now.len() && now[i] == k;
                assert(before[i] == k);
            }
        }
    }
}

/// A finished event says the call as it was made and what it gave, or what was
/// stated in place of either, as an error exactly where it was one; it carries the
/// numbers, the times, the site and the lineage of the call, the run of the hook or
/// else of the process, and what its boundary declares.
pub proof fn finished_events_say_the_call(
    b: EventBuilder,
    context: FinishContext,
    result: Json,
    is_error: bool,
    e: BoundaryEvent,
)
    requires
        b.finishes(context, result, is_error, e),
    ensures
        e.global_sequence == b.global_sequence,
        e.request_sequence == b.request_sequence,
        e.correlation_id.deep_view() == b.correlation_id.deep_view(),
        e.timestamp_ns == b.start_ns,
        e.end_timestamp_ns == Some(context.end_ns),
        context.end_ns >= b.start_ns ==> e.duration_us * 1_000 <= context.end_ns - b.start_ns < (
        e.duration_us + 1) * 1_000,
        context.end_ns < b.start_ns ==> e.duration_us == 0,
        context.hook_run_id is Some ==> e.recording_run_id.deep_view()
            == context.hook_run_id.deep_view(),
        context.hook_run_id is None ==> e.recording_run_id.deep_view()
            == context.process_run_id.deep_view(),
        e.graph_node_id == b.graph_node_id,
        e.tracing_span_id == b.tracing_span_id,
        e.task_id.deep_view() == Some(context.lineage.task_id@),
        e.parent_task_id.deep_view() == context.lineage.parent_task_id.deep_view(),
        e.task_bucket.deep_view() == Some(context.lineage.bucket_id@),
        e.bucket_id.deep_view() == Some(context.lineage.bucket_id@),
        e.fork_seq == Some(context.lineage.fork_seq),
        e.boundary@ == b.boundary@,
        e.trait_name@ == b.trait_name@,
        e.method_name@ == b.method_name@,
        e.call_file@ == b.call_file@,
        e.call_line == b.call_line,
        e.call_column == b.call_column,
        e.receiver == b.receiver,
        b.explicit_args is None ==> e.args@ == b.args@,
        b.explicit_args matches Some(v) ==> e.args@ == v@,
        e.request@ == e.args@,
        b.explicit_output is None ==> e.result@ == result@,
        b.explicit_output matches Some(v) ==> e.result@ == v@,
        e.response@ == e.result@,
        e.is_error == is_error,
        e.callsite_identity == b.callsite_identity,
        e.result_image == b.explicit_result_image,
        e.pre_image == b.explicit_pre_image,
        b.explicit_read_set matches Some(keys) ==> texts(e.read_set@) == texts(keys@),
        b.explicit_read_set is None ==> e.read_set@.len() == 0,
        b.explicit_write_set matches Some(keys) ==> texts(e.write_set@) == texts(keys@),
        b.explicit_write_set is None ==> e.write_set@.len() == 0,
        e.value_digest == Some(digest_of(e.args@, e.result@)),
        e.replay_strategy == b.semantics.replay_strategy,
        e.kind == b.semantics.kind,
        e.declaration is Some ==> e.declaration == b.semantics.declaration,
        b.semantics.declaration matches Some(d) ==> (d.effect is Some || d.op is Some
            || d.return_shape is Some || d.codec is Some || d.state_canon is Some
            || d.reply_canon is Some ==> e.declaration is Some),
        e.boundary@ == "id"@ || e.boundary@ == "time"@ ==> e.entropy_source.deep_view() == Some(
            e.boundary@,
        ),
        e.boundary@ != "id"@ && e.boundary@ != "time"@ ==> e.entropy_source is None,
        e.provenance is Recorded,
        e.fidelity is Lossless,
        e.raw_draw is None,
{
    assert(texts(e.read_set@).len() == e.read_set@.len());
    assert(texts(e.write_set@).len() == e.write_set@.len());
    if context.end_ns >= b.start_ns {
        let n = context.end_ns - b.start_ns;
        assert(e.duration_us == n / 1_000);
    }
}

/// The bytes of a body are recorded whole and are read back as they were, and so
/// is its text; a body that was not captured is recorded as that.
pub proof fn bodies_are_recorded_whole(
    bytes: Seq<u8>,
    text: Option<Seq<char>>,
    parsed: Option<JsonView>,
)
    ensures
        bytes_in(byte_numbers(bytes)) == Some(bytes),
        ({
            let image = body_image(bytes, text, parsed);
            &&& image.member("captured"@) == Some(JsonView::Bool(bytes.len() > 0))
            &&& bytes.len() > 0 ==> {
                &&& image.member("bytes_len"@) == Some(JsonView::Number(decimal(bytes.len())))
                &&& image.member("utf8"@) == Some(JsonView::Bool(text is Some))
                &&& text matches Some(t) ==> image.member("text"@) == Some(JsonView::String(t))
                &&& text is None ==> image.member("text"@) == Some(JsonView::Null)
                &&& parsed matches Some(v) ==> image.member("json"@) == Some(v)
                &&& parsed is None ==> image.member("json"@) == Some(JsonView::Null)
                &&& image.member("raw_bytes"@) == Some(JsonView::Array(byte_numbers(bytes)))
            }
        }),
{
    bytes_are_read_back(bytes);
    reveal_strlit("captured");
    reveal_strlit("bytes_len");
    reveal_strlit("utf8");
    reveal_strlit("text");
    reveal_strlit("json");
    reveal_strlit("raw_bytes");
    assert("captured"@.len() == 8);
    assert("bytes_len"@.len() == 9 && "bytes_len"@[0] == 'b');
    assert("utf8"@.len() == 4 && "utf8"@[0] == 'u');
    assert("text"@.len() == 4 && "text"@[0] == 't');
    assert("json"@.len() == 4 && "json"@[0] == 'j');
    assert("raw_bytes"@.len() == 9 && "raw_bytes"@[0] == 'r');
    let s = body_image(bytes, text, parsed)->Object_0;
    if bytes.len() > 0 {
        found_at(s, 1);
        found_at(s, 2);
        found_at(s, 3);
        found_at(s, 4);
        found_at(s, 5);
    }
    found_at(s, 0);
}

proof fn found_at(s: Seq<(Seq<char>, JsonView)>, i: int)
    requires
        0 <= i < s.len(),
        forall|j: int| 0 <= j < i ==> (#[trigger] s[j]).0 != s[i].0,
    ensures
        find(s, s[i].0) == Some(s[i].1),
{
    the_first_member_is_found(s, s[i].0);
}

proof fn bytes_are_read_back(bytes: Seq<u8>)
    ensures
        bytes_in(byte_numbers(bytes)) == Some(bytes),
    decreases bytes.len(),
{
    if bytes.len() == 0 {
        assert(bytes_in(byte_numbers(bytes))->0 =~= bytes);
    } else {
        let fewer = bytes.drop_last();
        let last = bytes.last();
        bytes_are_read_back(fewer);
        assert(byte_numbers(bytes).drop_last() =~= byte_numbers(fewer));
        assert(byte_numbers(bytes).last() == JsonView::Number(decimal(last as nat)));
        numbers_are_read_back(last as u64, last as u64, decimal(last as nat));
        assert(fewer.push(last) =~= bytes);
    }
}

/// A run id says something only if it is there and not empty. A body has a text
/// only if its bytes are UTF-8, and a document only if that text is one. A capture
/// states nothing only if it has no key and no image.
pub proof fn what_is_empty_says_nothing(
    id: Option<Seq<char>>,
    bytes: Seq<u8>,
    text: Option<Seq<char>>,
    capture: StateCapture,
)
    ensures
        said(id) <==> id is Some && id->0.len() > 0,
        valid_utf8(bytes) ==> utf8_text(bytes) == Some(decode_utf8(bytes)),
        !valid_utf8(bytes) ==> utf8_text(bytes) is None,
        text matches Some(t) ==> text_document(text) == parsed_json(t),
        text is None ==> text_document(text) is None,
        capture.states_nothing() <==> capture.read_set@.len() == 0 && capture.write_set@.len() == 0
            && capture.result_image is None && capture.pre_image is None,
{
}

/// A builder begins with the call as it was made: its numbers, its times and its
/// place, its names and its arguments, and nothing stated of it; a boundary that
/// declares nothing is answered from the recording.
pub proof fn builders_begin_with_the_call(
    b: EventBuilder,
    numbers: Sequences,
    context: StartContext,
    boundary: &'static str,
    trait_name: &'static str,
    method_name: &'static str,
    caller: CallLocation,
    args: Json,
)
    requires
        b.starts(numbers, context, boundary, trait_name, method_name, caller, args),
    ensures
        b.global_sequence == numbers.global && b.request_sequence == numbers.request,
        b.start_ns == context.start_ns,
        b.graph_node_id == context.graph_node_id && b.tracing_span_id == context.tracing_span_id,
        b.boundary == boundary && b.trait_name == trait_name && b.method_name == method_name,
        b.call_file == caller.file && b.call_line == caller.line && b.call_column == caller.column,
        b.args == args,
        b.explicit_args is None && b.explicit_output is None,
        b.explicit_read_set is None && b.explicit_write_set is None,
        b.explicit_result_image is None && b.explicit_pre_image is None,
        b.callsite_identity is None,
        b.semantics.replay_strategy is Substitute && b.semantics.kind is None
            && b.semantics.declaration is None,
{
}

} // verus!
