//! What a thread knows from the spans it has entered: the path, the lineage and
//! the correlation of the innermost one.

use vstd::prelude::*;
use crate::ambient::RecordDecision;
use crate::lineage::{
    forked, forks_are_told_apart, root_lineage, ForkCounters, LineageView, TaskLineage,
};
use crate::text::{joined, opt_clone, opt_str, opt_text_eq, text_eq};

verus! {

/// The span field that carries the correlation of a request.
pub const CORRELATION_FIELD: &'static str = "request_id";

/// The span field that marks the start of a spawned task.
pub const FORK_FIELD: &'static str = "deja.fork";

/// The correlation among the fields of a span. A text stands over whatever was
/// written otherwise.
#[derive(Debug)]
pub struct CorrelationVisitor {
    pub found: Option<String>,
}

impl CorrelationVisitor {
    /// Takes a field that is a text.
    pub fn record_str(&mut self, field: &str, value: &str)
        ensures
            final(self).found.deep_view() == (if field@ == CORRELATION_FIELD@ {
                Some(value@)
            } else {
                old(self).found.deep_view()
            }),
    {
        if text_eq(field, CORRELATION_FIELD) {
            self.found = Some(value.to_owned());
        }
    }

    /// Takes a field that was written as a text.
    pub fn record_debug(&mut self, field: &str, written: String)
        ensures
            final(self).found.deep_view() == (if old(self).found is None && field@
                == CORRELATION_FIELD@ {
                Some(written@)
            } else {
                old(self).found.deep_view()
            }),
    {
        if self.found.is_none() && text_eq(field, CORRELATION_FIELD) {
            self.found = Some(written);
        }
    }
}

/// Whether the fields of a span mark the start of a spawned task.
#[derive(Debug)]
pub struct ForkVisitor {
    pub found: bool,
}

impl ForkVisitor {
    /// Takes a field that is true or false.
    pub fn record_bool(&mut self, field: &str, value: bool)
        ensures
            final(self).found == (old(self).found || (value && field@ == FORK_FIELD@)),
    {
        if text_eq(field, FORK_FIELD) {
            self.found = self.found || value;
        }
    }
}

/// What is known of a span.
#[derive(Debug)]
pub struct SpanContext {
    /// The names of the spans from the root to this one.
    pub path: String,
    pub correlation: Option<String>,
    pub lineage: TaskLineage,
    /// Whether the correlation takes effect while the span is entered.
    pub observe: bool,
}

/// What the context of a span says.
pub struct SpanContextView {
    pub path: Seq<char>,
    pub correlation: Option<Seq<char>>,
    pub lineage: LineageView,
    pub observe: bool,
}

impl View for SpanContext {
    type V = SpanContextView;

    open spec fn view(&self) -> SpanContextView {
        SpanContextView {
            path: self.path@,
            correlation: self.correlation.deep_view(),
            lineage: self.lineage@,
            observe: self.observe,
        }
    }
}

impl DeepView for SpanContext {
    type V = SpanContextView;

    open spec fn deep_view(&self) -> SpanContextView {
        self@
    }
}

/// The correlation of a span: its own, or its parent's.
pub open spec fn span_correlation(
    own: Option<Seq<char>>,
    parent: Option<SpanContextView>,
) -> Option<Seq<char>> {
    if own is Some {
        own
    } else {
        match parent {
            Some(p) => p.correlation,
            None => None,
        }
    }
}

/// The lineage of a span's parent, or the root's.
pub open spec fn parent_lineage(parent: Option<SpanContextView>) -> LineageView {
    match parent {
        Some(p) => p.lineage,
        None => root_lineage(),
    }
}

/// The context of a span: its name behind its parent's path, its own
/// correlation or its parent's, a bucket of its own where it starts a task, and
/// whether its correlation takes effect. A span with a correlation of its own
/// goes by what was decided for it, any other by its parent.
pub open spec fn span_context(
    name: Seq<char>,
    own_correlation: Option<Seq<char>>,
    fork: Option<u64>,
    parent: Option<SpanContextView>,
    decision: Option<RecordDecision>,
) -> SpanContextView {
    SpanContextView {
        path: match parent {
            Some(p) => p.path + ">"@ + name,
            None => name,
        },
        correlation: span_correlation(own_correlation, parent),
        lineage: match fork {
            Some(seq) => forked(parent_lineage(parent), seq),
            None => parent_lineage(parent),
        },
        observe: if own_correlation is Some {
            decision != Some(RecordDecision::Skip)
        } else {
            parent matches Some(p) && p.observe
        },
    }
}

/// A parent that may be missing, by what it says.
pub open spec fn parent_view(parent: Option<&SpanContext>) -> Option<SpanContextView> {
    match parent {
        Some(p) => Some(p@),
        None => None,
    }
}

/// A span that a thread has entered, with what it knows from it.
#[derive(Debug)]
pub struct SpanCursor {
    /// The span whose entering put this here, and whose leaving takes it away.
    pub span_id: u64,
    pub path: String,
    pub lineage: TaskLineage,
}

/// What an entered span says.
pub struct CursorView {
    pub span_id: u64,
    pub path: Seq<char>,
    pub lineage: LineageView,
}

impl View for SpanCursor {
    type V = CursorView;

    open spec fn view(&self) -> CursorView {
        CursorView { span_id: self.span_id, path: self.path@, lineage: self.lineage@ }
    }
}

/// What the entered spans say.
pub open spec fn cursor_views(s: Seq<SpanCursor>) -> Seq<CursorView> {
    s.map_values(|c: SpanCursor| c@)
}

/// The innermost place of a span among the entered ones.
pub open spec fn innermost(s: Seq<CursorView>, span_id: u64) -> Option<int>
    decreases s.len(),
{
    if s.len() == 0 {
        None
    } else if s.last().span_id == span_id {
        Some(s.len() - 1)
    } else {
        innermost(s.drop_last(), span_id)
    }
}

/// The entered spans without the innermost one of this name; the same where
/// there is none.
pub open spec fn without(s: Seq<CursorView>, span_id: u64) -> Seq<CursorView> {
    match innermost(s, span_id) {
        Some(i) => s.remove(i),
        None => s,
    }
}

/// The spans a thread has entered, the innermost last.
pub struct EnteredSpans {
    stack: Vec<SpanCursor>,
}

impl EnteredSpans {
    /// The spans, the innermost last.
    pub closed spec fn spans(self) -> Seq<CursorView> {
        cursor_views(self.stack@)
    }

    /// No span entered.
    pub fn new() -> (r: EnteredSpans)
        ensures
            r.spans() == Seq::<CursorView>::empty(),
    {
        let spans = EnteredSpans { stack: Vec::new() };
        proof {
            assert(spans.spans() =~= Seq::<CursorView>::empty());
        }
        spans
    }
}

/// What a thread knows from a span it enters.
pub open spec fn cursor_of(span_id: u64, cx: SpanContextView) -> CursorView {
    CursorView { span_id, path: cx.path, lineage: cx.lineage }
}

/// Enters a span.
pub fn push_span_cursor(spans: &mut EnteredSpans, span_id: u64, cx: &SpanContext)
    ensures
        final(spans).spans() == old(spans).spans().push(cursor_of(span_id, cx@)),
{
    let ghost was = spans.stack@;
    let cursor = SpanCursor { span_id, path: cx.path.clone(), lineage: cx.lineage.clone() };
    spans.stack.push(cursor);
    proof {
        assert(cursor_views(spans.stack@) =~= cursor_views(was).push(cursor@));
    }
}

proof fn innermost_of_the_rest(s: Seq<CursorView>, span_id: u64, n: int)
    requires
        0 <= n <= s.len(),
        forall|j: int| n <= j < s.len() ==> (#[trigger] s[j]).span_id != span_id,
    ensures
        innermost(s, span_id) == innermost(s.take(n), span_id),
    decreases s.len() - n,
{
    if n < s.len() {
        assert(s.last() == s[s.len() - 1]);
        assert(s.drop_last().take(n) =~= s.take(n));
        let fewer = s.drop_last();
        assert forall|j: int| n <= j < fewer.len() implies (#[trigger] fewer[j]).span_id
            != span_id by {
            assert(s[j].span_id != span_id);
        }
        innermost_of_the_rest(fewer, span_id, n);
    } else {
        assert(s.take(n) =~= s);
    }
}

/// Leaves a span: takes away what entering it put there. Where a span is left
/// out of turn, the others stay.
#[verifier::loop_isolation(false)]
pub fn pop_span_cursor(spans: &mut EnteredSpans, span_id: u64)
    ensures
        final(spans).spans() == without(old(spans).spans(), span_id),
{
    let ghost all = cursor_views(spans.stack@);
    let mut n: usize = spans.stack.len();
    while n > 0 && spans.stack[n - 1].span_id != span_id
        invariant
            0 <= n <= spans.stack@.len(),
            cursor_views(spans.stack@) == all,
            forall|j: int| n <= j < all.len() ==> (#[trigger] all[j]).span_id != span_id,
        decreases n,
    {
        proof {
            assert(all[n as int - 1] == spans.stack@[n as int - 1]@);
        }
        n = n - 1;
    }
    proof {
        innermost_of_the_rest(all, span_id, n as int);
        if n > 0 {
            assert(all[n as int - 1] == spans.stack@[n as int - 1]@);
            assert(all.take(n as int).last() == all[n as int - 1]);
        }
    }
    if n > 0 {
        let ghost was = spans.stack@;
        spans.stack.remove(n - 1);
        proof {
            assert(cursor_views(spans.stack@) =~= all.remove(n as int - 1));
        }
    }
}

/// What a thread knows from its innermost span. Where no span is entered there
/// is nothing to know.
pub fn with_current_cursor(spans: &EnteredSpans) -> (r: Option<&SpanCursor>)
    ensures
        match r {
            Some(c) => spans.spans().len() > 0 && c@ == spans.spans().last(),
            None => spans.spans().len() == 0,
        },
{
    let n = spans.stack.len();
    if n == 0 {
        None
    } else {
        proof {
            assert(cursor_views(spans.stack@).last() == spans.stack@[n as int - 1]@);
        }
        Some(&spans.stack[n - 1])
    }
}

/// The path of the innermost span.
pub fn current_span_path(spans: &EnteredSpans) -> (r: Option<String>)
    ensures
        r.deep_view() == (if spans.spans().len() == 0 {
            None
        } else {
            Some(spans.spans().last().path)
        }),
{
    match with_current_cursor(spans) {
        Some(cursor) => Some(cursor.path.clone()),
        None => None,
    }
}

/// The lineage of the innermost span. That no span is entered is not the same
/// as standing at the root.
pub fn current_span_lineage(spans: &EnteredSpans) -> (r: Option<TaskLineage>)
    ensures
        match r {
            Some(lineage) => spans.spans().len() > 0 && lineage@ == spans.spans().last().lineage,
            None => spans.spans().len() == 0,
        },
{
    match with_current_cursor(spans) {
        Some(cursor) => Some(cursor.lineage.clone()),
        None => None,
    }
}

/// The correlation of a thread, and what it was before each change.
#[derive(Debug)]
pub struct ThreadCorrelation {
    pub current: Option<String>,
    /// What the correlation was, and the span whose entering changed it.
    pub restore: Vec<(u64, Option<String>)>,
}

/// What the correlation of a thread says.
pub struct ThreadCorrelationView {
    pub current: Option<Seq<char>>,
    pub restore: Seq<(u64, Option<Seq<char>>)>,
}

/// What the saved correlations say.
pub open spec fn saved_views(s: Seq<(u64, Option<String>)>) -> Seq<(u64, Option<Seq<char>>)> {
    s.map_values(|f: (u64, Option<String>)| (f.0, f.1.deep_view()))
}

impl View for ThreadCorrelation {
    type V = ThreadCorrelationView;

    open spec fn view(&self) -> ThreadCorrelationView {
        ThreadCorrelationView {
            current: self.current.deep_view(),
            restore: saved_views(self.restore@),
        }
    }
}

/// A thread once a span has set its correlation: only a change is noted.
pub open spec fn engaged(
    t: ThreadCorrelationView,
    span_id: u64,
    target: Option<Seq<char>>,
) -> ThreadCorrelationView {
    if t.current == target {
        t
    } else {
        ThreadCorrelationView { current: target, restore: t.restore.push((span_id, t.current)) }
    }
}

/// A thread once the change that a span made last was taken back.
pub open spec fn restored(t: ThreadCorrelationView, span_id: u64) -> ThreadCorrelationView {
    if t.restore.len() > 0 && t.restore.last().0 == span_id {
        ThreadCorrelationView { current: t.restore.last().1, restore: t.restore.drop_last() }
    } else {
        t
    }
}

impl ThreadCorrelation {
    /// No correlation.
    pub fn new() -> (r: ThreadCorrelation)
        ensures
            r@.current is None,
            r@.restore.len() == 0,
    {
        ThreadCorrelation { current: None, restore: Vec::new() }
    }
}

/// Sets the correlation of a thread. Gives whether it changed.
pub fn engage_correlation(
    thread: &mut ThreadCorrelation,
    span_id: u64,
    target: Option<String>,
) -> (r: bool)
    ensures
        final(thread)@ == engaged(old(thread)@, span_id, target.deep_view()),
        r == (old(thread)@.current != target.deep_view()),
{
    if opt_text_eq(opt_str(&thread.current), opt_str(&target)) {
        return false;
    }
    let ghost was = thread.restore@;
    let previous = opt_clone(&thread.current);
    thread.restore.push((span_id, previous));
    thread.current = target;
    proof {
        assert(saved_views(thread.restore@) =~= saved_views(was).push(
            (span_id, previous.deep_view()),
        ));
    }
    true
}

/// Takes back the change a span made. Gives whether there was one.
pub fn restore_correlation(thread: &mut ThreadCorrelation, span_id: u64) -> (r: bool)
    ensures
        final(thread)@ == restored(old(thread)@, span_id),
        r == (old(thread)@.restore.len() > 0 && old(thread)@.restore.last().0 == span_id),
{
    let n = thread.restore.len();
    let ghost was = thread.restore@;
    proof {
        if n > 0 {
            assert(saved_views(was).last() == (was[n as int - 1].0, was[n as int - 1].1.deep_view()));
        }
    }
    if n == 0 || thread.restore[n - 1].0 != span_id {
        return false;
    }
    if let Some((_, previous)) = thread.restore.pop() {
        thread.current = previous;
    }
    proof {
        assert(saved_views(thread.restore@) =~= saved_views(was).drop_last());
    }
    true
}

/// What a thread knows from its spans.
pub struct ThreadSpans {
    pub entered: EnteredSpans,
    pub correlation: ThreadCorrelation,
}

/// The correlation a span sets while it is entered.
pub open spec fn engaged_by(cx: SpanContextView) -> Option<Seq<char>> {
    if cx.observe {
        cx.correlation
    } else {
        None
    }
}

impl ThreadSpans {
    pub fn new() -> (r: ThreadSpans)
        ensures
            r.entered.spans().len() == 0,
            r.correlation@.current is None,
            r.correlation@.restore.len() == 0,
    {
        ThreadSpans { entered: EnteredSpans::new(), correlation: ThreadCorrelation::new() }
    }
}

/// Carries the correlation of a request into the spans and the tasks under it.
#[derive(Debug, Clone, Copy)]
pub struct DejaCorrelationLayer;

impl Default for DejaCorrelationLayer {
    fn default() -> (r: DejaCorrelationLayer)
        ensures
            r == DejaCorrelationLayer,
    {
        DejaCorrelationLayer
    }
}

impl DejaCorrelationLayer {
    pub fn new() -> (r: DejaCorrelationLayer)
        ensures
            r == DejaCorrelationLayer,
    {
        DejaCorrelationLayer
    }

    /// Settles the context of a span that opens. `decision` is what was decided for
    /// the span's own correlation.
    pub fn on_new_span(
        &self,
        name: &str,
        own_correlation: Option<String>,
        is_fork: bool,
        parent: Option<&SpanContext>,
        decision: Option<RecordDecision>,
        counters: &mut ForkCounters,
    ) -> (r: SpanContext)
        requires
            is_fork ==> old(counters).upcoming(
                span_correlation(own_correlation.deep_view(), parent_view(parent)),
                parent_lineage(parent_view(parent)).bucket_id,
            ) < u64::MAX,
        ensures
            ({
                let c = span_correlation(own_correlation.deep_view(), parent_view(parent));
                let bucket = parent_lineage(parent_view(parent)).bucket_id;
                &&& r@ == span_context(
                    name@,
                    own_correlation.deep_view(),
                    if is_fork {
                        Some(old(counters).upcoming(c, bucket))
                    } else {
                        None
                    },
                    parent_view(parent),
                    decision,
                )
                &&& forall|x: Option<Seq<char>>, b: Seq<char>| #[trigger]
                    final(counters).upcoming(x, b) == old(counters).upcoming(x, b) + (if is_fork && x
                        == c && b == bucket {
                        1int
                    } else {
                        0int
                    })
            }),
    {
        let has_own = own_correlation.is_some();
        let correlation = match own_correlation {
            Some(id) => Some(id),
            None => match parent {
                Some(p) => opt_clone(&p.correlation),
                None => None,
            },
        };
        let path = match parent {
            Some(p) => joined(joined(p.path.as_str(), ">").as_str(), name),
            None => name.to_owned(),
        };
        let base = match parent {
            Some(p) => p.lineage.clone(),
            None => TaskLineage::root(),
        };
        let lineage = if is_fork {
            TaskLineage::forked_child_of(base, counters, opt_str(&correlation))
        } else {
            base
        };
        let observe = if has_own {
            !matches!(decision, Some(RecordDecision::Skip))
        } else {
            match parent {
                Some(p) => p.observe,
                None => false,
            }
        };
        SpanContext { path, correlation, lineage, observe }
    }

    /// Enters a span. Gives whether the correlation changed.
    pub fn on_enter(&self, thread: &mut ThreadSpans, span_id: u64, cx: &SpanContext) -> (r: bool)
        ensures
            final(thread).entered.spans() == old(thread).entered.spans().push(
                cursor_of(span_id, cx@),
            ),
            final(thread).correlation@ == engaged(
                old(thread).correlation@,
                span_id,
                engaged_by(cx@),
            ),
            r == (old(thread).correlation@.current != engaged_by(cx@)),
    {
        push_span_cursor(&mut thread.entered, span_id, cx);
        let target = if cx.observe {
            opt_clone(&cx.correlation)
        } else {
            None
        };
        engage_correlation(&mut thread.correlation, span_id, target)
    }

    /// Leaves a span. Gives whether the correlation changed back.
    pub fn on_exit(&self, thread: &mut ThreadSpans, span_id: u64) -> (r: bool)
        ensures
            final(thread).entered.spans() == without(old(thread).entered.spans(), span_id),
            final(thread).correlation@ == restored(old(thread).correlation@, span_id),
            r == (old(thread).correlation@.restore.len() > 0 && old(
                thread,
            ).correlation@.restore.last().0 == span_id),
    {
        pop_span_cursor(&mut thread.entered, span_id);
        restore_correlation(&mut thread.correlation, span_id)
    }
}

/// Leaving a span that was just entered gives the thread back the spans it had:
/// a thread that had entered none has none.
pub proof fn leaving_undoes_entering(spans: Seq<CursorView>, span_id: u64, cx: SpanContextView)
    ensures
        without(spans.push(cursor_of(span_id, cx)), span_id) == spans,
{
    let entered = spans.push(cursor_of(span_id, cx));
    assert(entered.remove(spans.len() as int) =~= spans);
}

/// Leaving a span that was just entered gives the thread back the correlation it
/// had, unless the thread was inside that very span already and its correlation
/// was set there.
pub proof fn leaving_restores_the_correlation(
    t: ThreadCorrelationView,
    span_id: u64,
    target: Option<Seq<char>>,
)
    requires
        t.current == target ==> t.restore.len() == 0 || t.restore.last().0 != span_id,
    ensures
        restored(engaged(t, span_id, target), span_id) == t,
{
    if t.current != target {
        assert(t.restore.push((span_id, t.current)).drop_last() =~= t.restore);
    }
}

/// The entered spans of other names.
pub open spec fn others(s: Seq<CursorView>, span_id: u64) -> Seq<CursorView>
    decreases s.len(),
{
    if s.len() == 0 {
        Seq::empty()
    } else {
        let before = others(s.drop_last(), span_id);
        if s.last().span_id == span_id {
            before
        } else {
            before.push(s.last())
        }
    }
}

/// Leaving a span, in turn or not, leaves all other entered spans in place.
pub proof fn leaving_takes_only_its_own(s: Seq<CursorView>, span_id: u64)
    ensures
        others(without(s, span_id), span_id) == others(s, span_id),
    decreases s.len(),
{
    if s.len() > 0 {
        if s.last().span_id == span_id {
            assert(s.remove(s.len() - 1) =~= s.drop_last());
        } else {
            let fewer = s.drop_last();
            leaving_takes_only_its_own(fewer, span_id);
            innermost_is_in_range(fewer, span_id);
            if innermost(fewer, span_id) is Some {
                let i = innermost(fewer, span_id)->0;
                let w = s.remove(i);
                assert(w.drop_last() =~= fewer.remove(i));
                assert(w.last() == s.last());
            }
        }
    }
}

proof fn innermost_is_in_range(s: Seq<CursorView>, span_id: u64)
    ensures
        innermost(s, span_id) matches Some(i) ==> 0 <= i < s.len() && s[i].span_id == span_id,
    decreases s.len(),
{
    if s.len() > 0 {
        innermost_is_in_range(s.drop_last(), span_id);
    }
}

/// Spans that are not tasks of their own stand in their parent's bucket, and a
/// task stands in one that differs from its parent's.
pub proof fn only_tasks_open_buckets(
    name: Seq<char>,
    own_correlation: Option<Seq<char>>,
    fork: Option<u64>,
    parent: Option<SpanContextView>,
    decision: Option<RecordDecision>,
)
    ensures
        ({
            let cx = span_context(name, own_correlation, fork, parent, decision);
            (fork is None) == (cx.lineage.bucket_id == parent_lineage(parent).bucket_id)
        }),
{
    if fork is Some {
        forks_are_told_apart(parent_lineage(parent).bucket_id, fork->0, fork->0);
    }
}

/// The context of a span: its name behind its parent's path; the correlation it
/// names, else its parent's, else none; its parent's lineage, or a fork of it; and
/// its correlation takes effect unless it was decided against or, where the span
/// names none, unless its parent's does not.
pub proof fn spans_take_after_their_parents(
    name: Seq<char>,
    own: Option<Seq<char>>,
    fork: Option<u64>,
    parent: Option<SpanContextView>,
    decision: Option<RecordDecision>,
)
    ensures
        ({
            let cx = span_context(name, own, fork, parent, decision);
            &&& parent matches Some(p) ==> cx.path == p.path + ">"@ + name
            &&& parent is None ==> cx.path == name
            &&& own is Some ==> cx.correlation == own
            &&& own is None && parent is Some ==> cx.correlation == parent->0.correlation
            &&& own is None && parent is None ==> cx.correlation is None
            &&& own is Some ==> (cx.observe <==> !(decision is Some && decision->0 is Skip))
            &&& own is None && parent is Some ==> cx.observe == parent->0.observe
            &&& own is None && parent is None ==> !cx.observe
            &&& fork is None && parent is Some ==> cx.lineage == parent->0.lineage
            &&& fork is None && parent is None ==> cx.lineage == root_lineage()
            &&& fork is Some && parent is Some ==> cx.lineage == forked(
                parent->0.lineage,
                fork->0,
            )
            &&& fork is Some && parent is None ==> cx.lineage == forked(root_lineage(), fork->0)
        }),
{
}

/// Entering a span sets the correlation the span carries, where it takes effect,
/// and none where it does not; a change, and only a change, notes what the
/// correlation was and for which span.
pub proof fn entering_sets_the_correlation(
    t: ThreadCorrelationView,
    span_id: u64,
    cx: SpanContextView,
)
    ensures
        ({
            let after = engaged(t, span_id, engaged_by(cx));
            &&& cx.observe ==> after.current == cx.correlation
            &&& !cx.observe ==> after.current is None
            &&& after.current == t.current ==> after == t
            &&& after.current != t.current ==> after.restore.len() == t.restore.len() + 1
                && after.restore.last() == (span_id, t.current) && after.restore.drop_last()
                == t.restore
            &&& cursor_of(span_id, cx).path == cx.path
            &&& cursor_of(span_id, cx).lineage == cx.lineage
            &&& cursor_of(span_id, cx).span_id == span_id
        }),
{
    let after = engaged(t, span_id, engaged_by(cx));
    if after.current != t.current {
        assert(after.restore.drop_last() =~= t.restore);
    }
}

/// Leaving a span takes its innermost entry away, and nothing where it was not
/// entered: the spans before that entry and those behind it stay as they stand.
pub proof fn leaving_takes_the_innermost(s: Seq<CursorView>, span_id: u64)
    ensures
        (forall|j: int| 0 <= j < s.len() ==> (#[trigger] s[j]).span_id != span_id) ==> without(
            s,
            span_id,
        ) == s,
        forall|i: int|
            0 <= i < s.len() && (#[trigger] s[i]).span_id == span_id && (forall|j: int|
                i < j < s.len() ==> (#[trigger] s[j]).span_id != span_id) ==> without(s, span_id)
                == s.take(i) + s.skip(i + 1),
{
    innermost_is_in_range(s, span_id);
    if forall|j: int| 0 <= j < s.len() ==> (#[trigger] s[j]).span_id != span_id {
        if innermost(s, span_id) is Some {
            assert(s[innermost(s, span_id)->0].span_id == span_id);
        }
    }
    assert forall|i: int|
        0 <= i < s.len() && (#[trigger] s[i]).span_id == span_id && (forall|j: int|
            i < j < s.len() ==> (#[trigger] s[j]).span_id != span_id) implies without(s, span_id)
        == s.take(i) + s.skip(i + 1) by {
        innermost_of_the_rest(s, span_id, i + 1);
        assert(s.take(i + 1).last() == s[i]);
        assert(innermost(s, span_id) == Some(i));
        assert(s.remove(i) =~= s.take(i) + s.skip(i + 1));
    }
}

} // verus!
