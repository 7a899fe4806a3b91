//! Correlations, paths and lineages along spans.

use deja_runtime::ambient::RecordDecision;
use deja_runtime::lineage::{
    clear_fork_counter, current_task_lineage, current_task_metadata, next_fork_seq, ForkCounters,
    TaskLineage, ROOT_TASK_ID,
};
use deja_runtime::spans::{
    current_span_lineage, current_span_path, CorrelationVisitor, DejaCorrelationLayer, ForkVisitor,
    SpanContext, ThreadSpans, CORRELATION_FIELD, FORK_FIELD,
};

/// One thread, and the spans that were opened on it.
struct Thread {
    spans: ThreadSpans,
    counters: ForkCounters,
    opened: Vec<SpanContext>,
    entered: Vec<usize>,
}

impl Thread {
    fn new() -> Thread {
        Thread {
            spans: ThreadSpans::new(),
            counters: ForkCounters::new(),
            opened: Vec::new(),
            entered: Vec::new(),
        }
    }

    /// Opens a span under the innermost entered one.
    fn open_with(
        &mut self,
        name: &str,
        correlation: Option<&str>,
        is_fork: bool,
        decision: Option<RecordDecision>,
    ) -> usize {
        let parent = self.entered.last().map(|i| &self.opened[*i]);
        let context = DejaCorrelationLayer::new().on_new_span(
            name,
            correlation.map(str::to_owned),
            is_fork,
            parent,
            decision,
            &mut self.counters,
        );
        self.opened.push(context);
        self.opened.len() - 1
    }

    fn open(&mut self, name: &str) -> usize {
        self.open_with(name, None, false, None)
    }

    fn request(&mut self, correlation: &str) -> usize {
        self.open_with("deja::http_incoming", Some(correlation), false, None)
    }

    fn fork(&mut self) -> usize {
        self.open_with("deja::fork", None, true, None)
    }

    fn enter(&mut self, span: usize) {
        DejaCorrelationLayer::new().on_enter(&mut self.spans, span as u64, &self.opened[span]);
        self.entered.push(span);
    }

    fn exit(&mut self, span: usize) {
        DejaCorrelationLayer::new().on_exit(&mut self.spans, span as u64);
        let at = self.entered.iter().rposition(|s| *s == span).expect("an entered span");
        self.entered.remove(at);
    }

    fn correlation(&self) -> Option<&str> {
        self.spans.correlation.current.as_deref()
    }

    fn path(&self) -> Option<String> {
        current_span_path(&self.spans.entered)
    }

    fn lineage(&self) -> Option<TaskLineage> {
        current_span_lineage(&self.spans.entered)
    }

    fn bucket(&self) -> String {
        self.lineage().expect("a span is entered").bucket_id
    }

    /// The path and the bucket, as a call would be stamped with them.
    fn cursors(&self) -> (Option<String>, Option<String>) {
        (self.path(), self.lineage().map(|lineage| lineage.bucket_id))
    }
}

#[test]
fn enters_and_restores_correlation_around_a_span() {
    let mut thread = Thread::new();
    assert_eq!(thread.correlation(), None);
    let span = thread.request("req-42");
    thread.enter(span);
    assert_eq!(thread.correlation(), Some("req-42"));
    thread.exit(span);
    assert_eq!(thread.correlation(), None);
}

#[test]
fn child_span_inherits_root_correlation() {
    let mut thread = Thread::new();
    let root = thread.request("req-7");
    thread.enter(root);
    let child = thread.open("child");
    thread.enter(child);
    assert_eq!(thread.correlation(), Some("req-7"));
}

#[test]
fn nested_spans_restore_lifo() {
    let mut thread = Thread::new();
    let outer = thread.request("outer");
    thread.enter(outer);
    assert_eq!(thread.correlation(), Some("outer"));
    let inner = thread.open("inner");
    thread.enter(inner);
    assert_eq!(thread.correlation(), Some("outer"));
    thread.exit(inner);
    assert_eq!(thread.correlation(), Some("outer"));
}

#[test]
fn logical_span_path_is_root_to_leaf_and_restores() {
    let mut thread = Thread::new();
    assert_eq!(thread.path(), None);
    let root = thread.open("payments_core");
    thread.enter(root);
    assert_eq!(thread.path().as_deref(), Some("payments_core"));
    let leaf = thread.open("update_trackers");
    thread.enter(leaf);
    assert_eq!(thread.path().as_deref(), Some("payments_core>update_trackers"));
    thread.exit(leaf);
    assert_eq!(thread.path().as_deref(), Some("payments_core"));
    thread.exit(root);
    assert_eq!(thread.path(), None);
}

#[test]
fn sibling_spans_yield_distinct_paths() {
    let mut thread = Thread::new();
    let root = thread.open("payments_core");
    thread.enter(root);
    let a = thread.open("update_payment_attempt");
    thread.enter(a);
    let path_a = thread.path();
    thread.exit(a);
    let b = thread.open("update_payment_intent");
    thread.enter(b);
    let path_b = thread.path();
    thread.exit(b);
    assert_eq!(path_a.as_deref(), Some("payments_core>update_payment_attempt"));
    assert_eq!(path_b.as_deref(), Some("payments_core>update_payment_intent"));
    assert_ne!(path_a, path_b);
}

#[test]
fn skip_decision_leaves_correlation_disengaged() {
    let mut thread = Thread::new();
    let span = thread.open_with(
        "deja::http_incoming",
        Some("req-skip-disengage"),
        false,
        Some(RecordDecision::Skip),
    );
    thread.enter(span);
    assert_eq!(thread.correlation(), None, "a skipped request has no correlation");
}

#[test]
fn spawned_child_entered_without_parent_reverts_every_cursor() {
    let mut thread = Thread::new();
    let root = thread.request("req-spawn");
    thread.enter(root);
    let child = thread.open("spawned_work");
    thread.exit(root);
    assert_eq!(thread.correlation(), None);
    assert_eq!(thread.path(), None);
    assert!(thread.lineage().is_none());

    thread.enter(child);
    assert_eq!(thread.correlation(), Some("req-spawn"));
    assert_eq!(thread.path().as_deref(), Some("deja::http_incoming>spawned_work"));
    assert!(thread.lineage().is_some(), "an entered span always has a lineage");
    thread.exit(child);

    assert_eq!(thread.correlation(), None);
    assert_eq!(thread.path(), None);
    assert!(thread.lineage().is_none());
}

#[test]
fn fork_span_opens_a_new_lineage_bucket() {
    let mut thread = Thread::new();
    let root = thread.request("req-fork");
    thread.enter(root);
    let base = thread.lineage().expect("a span is entered");
    assert_eq!(base.bucket_id, ROOT_TASK_ID);
    assert_eq!(base.fork_seq, 0);

    let fork = thread.fork();
    thread.enter(fork);
    let forked = thread.lineage().expect("a span is entered");
    assert!(forked.bucket_id.contains("::fork-"), "got {:?}", forked.bucket_id);
    assert_eq!(forked.fork_seq, 1, "first fork sequence is deterministic");
    assert_eq!(forked.parent_task_id.as_deref(), Some(ROOT_TASK_ID));

    let child = thread.open("inside_fork");
    thread.enter(child);
    assert_eq!(thread.bucket(), forked.bucket_id);
    thread.exit(child);
    thread.exit(fork);

    assert_eq!(thread.bucket(), ROOT_TASK_ID);
}

#[test]
fn an_entered_span_still_resolves_its_own_path_and_lineage() {
    let mut thread = Thread::new();
    let root = thread.request("req-live");
    thread.enter(root);
    let detached = thread.open("spawned_work");
    let inner = thread.open("update_trackers");
    thread.enter(inner);
    let (path, bucket) = thread.cursors();
    assert_eq!(path.as_deref(), Some("deja::http_incoming>update_trackers"));
    assert_eq!(bucket.as_deref(), Some(ROOT_TASK_ID));
    thread.exit(inner);
    thread.exit(root);

    thread.enter(detached);
    let (path, bucket) = thread.cursors();
    assert_eq!(path.as_deref(), Some("deja::http_incoming>spawned_work"));
    assert_eq!(bucket.as_deref(), Some(ROOT_TASK_ID));
}

#[test]
fn a_thread_that_served_a_request_resolves_neither_afterwards() {
    let mut thread = Thread::new();
    let first = thread.request("req-earlier");
    thread.enter(first);
    let spawned = thread.open("payments_core");
    thread.exit(first);
    thread.enter(spawned);
    assert_eq!(thread.path().as_deref(), Some("deja::http_incoming>payments_core"));
    thread.exit(spawned);
    assert_eq!(thread.cursors(), (None, None));
}

#[test]
fn a_finished_fork_leaves_no_bucket_for_the_next_boundary_to_borrow() {
    let mut thread = Thread::new();
    let root = thread.request("req-borrow");
    thread.enter(root);
    let fork = thread.fork();
    thread.enter(fork);
    let forked_bucket = thread.bucket();
    assert!(forked_bucket.contains("::fork-"));
    let inside_fork = thread.open("inside_fork");
    thread.exit(fork);
    thread.exit(root);

    thread.enter(inside_fork);
    assert_eq!(thread.bucket(), forked_bucket);
    thread.exit(inside_fork);

    let stamped = current_task_metadata(current_task_lineage(thread.lineage()));
    assert_ne!(stamped.bucket_id.as_deref(), Some(forked_bucket.as_str()));
    assert_eq!(stamped.bucket_id.as_deref(), Some(ROOT_TASK_ID));
    assert_eq!(stamped.task_bucket, stamped.bucket_id, "the two agree");
}

#[test]
fn a_balanced_enter_and_exit_leaves_the_cursors_as_it_found_them() {
    let mut thread = Thread::new();
    let root = thread.request("req-balance");

    let before = thread.cursors();
    thread.enter(root);
    let detached = thread.open("spawned_work");
    thread.exit(root);
    assert_eq!(thread.cursors(), before, "root span");

    let before = thread.cursors();
    thread.enter(detached);
    thread.exit(detached);
    assert_eq!(thread.cursors(), before, "child entered without its parent");

    thread.enter(root);
    let before = thread.cursors();
    assert!(before.0.is_some());
    let inner = thread.open("payments_core");
    thread.enter(inner);
    thread.exit(inner);
    assert_eq!(thread.cursors(), before, "nested child");
    let fork = thread.fork();
    thread.enter(fork);
    thread.exit(fork);
    assert_eq!(thread.cursors(), before, "fork boundary");
}

#[test]
fn a_guard_dropped_out_of_order_removes_its_own_frame() {
    let mut thread = Thread::new();
    let root = thread.request("req-order");
    thread.enter(root);
    let outer = thread.open("outer");
    thread.enter(outer);
    let inner = thread.open("inner");
    thread.enter(inner);
    assert_eq!(thread.path().as_deref(), Some("deja::http_incoming>outer>inner"));

    thread.exit(outer);
    assert_eq!(thread.path().as_deref(), Some("deja::http_incoming>outer>inner"));

    thread.exit(inner);
    assert_eq!(thread.path().as_deref(), Some("deja::http_incoming"));
}

/// Forks of one bucket are numbered from one on; forgetting a bucket's count
/// begins again, and other buckets keep theirs.
#[test]
fn forks_are_numbered_per_correlation_and_bucket() {
    let mut counters = ForkCounters::new();
    assert_eq!(next_fork_seq(&mut counters, Some("c1"), "root"), 1);
    assert_eq!(next_fork_seq(&mut counters, Some("c1"), "root"), 2);
    assert_eq!(next_fork_seq(&mut counters, Some("c2"), "root"), 1);
    clear_fork_counter(&mut counters, Some("c1"), "root");
    assert_eq!(next_fork_seq(&mut counters, Some("c1"), "root"), 1);
    assert_eq!(next_fork_seq(&mut counters, Some("c2"), "root"), 2);

    let child = TaskLineage::forked_child_of(TaskLineage::root(), &mut counters, Some("c3"));
    assert_eq!(child.task_id, "root::fork-1");
    assert_eq!(child.bucket_id, "root::fork-1");
    assert_eq!(child.parent_task_id.as_deref(), Some("root"));
}

#[test]
fn the_first_correlation_field_stands() {
    let mut visitor = CorrelationVisitor { found: None };
    visitor.record_str("other", "x");
    assert_eq!(visitor.found, None);
    visitor.record_str(CORRELATION_FIELD, "req-1");
    assert_eq!(visitor.found.as_deref(), Some("req-1"));

    let mut fork = ForkVisitor { found: false };
    fork.record_bool("other", true);
    assert!(!fork.found);
    fork.record_bool(FORK_FIELD, true);
    assert!(fork.found);
}
