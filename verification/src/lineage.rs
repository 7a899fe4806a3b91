//! The lineage of tasks: every spawned task opens a bucket of its own under
//! the bucket of the task that spawned it.

use vstd::prelude::*;
use crate::table::{BucketKey, Table};
use crate::text::{decimal, decimal_round_trips, decimal_text, joined, opt_clone, opt_string};

verus! {

/// The task and the bucket of work that was not spawned.
pub const ROOT_TASK_ID: &'static str = "root";

/// Where a piece of work stands among the tasks of its request.
#[derive(Debug, PartialEq, Eq)]
pub struct TaskLineage {
    pub task_id: String,
    pub parent_task_id: Option<String>,
    pub bucket_id: String,
    /// The number of the fork that opened the bucket; 0 for the root.
    pub fork_seq: u64,
}

/// What a lineage says.
pub struct LineageView {
    pub task_id: Seq<char>,
    pub parent_task_id: Option<Seq<char>>,
    pub bucket_id: Seq<char>,
    pub fork_seq: u64,
}

impl View for TaskLineage {
    type V = LineageView;

    open spec fn view(&self) -> LineageView {
        LineageView {
            task_id: self.task_id@,
            parent_task_id: self.parent_task_id.deep_view(),
            bucket_id: self.bucket_id@,
            fork_seq: self.fork_seq,
        }
    }
}

impl DeepView for TaskLineage {
    type V = LineageView;

    open spec fn deep_view(&self) -> LineageView {
        self@
    }
}

/// The lineage of work that was not spawned.
pub open spec fn root_lineage() -> LineageView {
    LineageView {
        task_id: ROOT_TASK_ID@,
        parent_task_id: None,
        bucket_id: ROOT_TASK_ID@,
        fork_seq: 0,
    }
}

/// The name of the `seq`th fork of a task or a bucket.
pub open spec fn fork_name(parent: Seq<char>, seq: u64) -> Seq<char> {
    parent + "::fork-"@ + decimal(seq as nat)
}

/// The lineage of the `seq`th fork.
pub open spec fn forked(parent: LineageView, seq: u64) -> LineageView {
    LineageView {
        task_id: fork_name(parent.task_id, seq),
        parent_task_id: Some(parent.task_id),
        bucket_id: fork_name(parent.bucket_id, seq),
        fork_seq: seq,
    }
}

fn fork_text(parent: &str, seq: u64) -> (r: String)
    ensures
        r@ == fork_name(parent@, seq),
{
    let marked = joined(parent, "::fork-");
    let number = decimal_text(seq);
    joined(marked.as_str(), number.as_str())
}

/// Two forks with different numbers have different names, and no fork has the
/// name of its parent.
pub proof fn forks_are_told_apart(parent: Seq<char>, a: u64, b: u64)
    ensures
        fork_name(parent, a) == fork_name(parent, b) ==> a == b,
        fork_name(parent, a) != parent,
{
    reveal_strlit("::fork-");
    decimal_round_trips(a as nat);
    decimal_round_trips(b as nat);
    let n = parent.len() + "::fork-"@.len();
    let x = fork_name(parent, a);
    let y = fork_name(parent, b);
    assert(x.subrange(n as int, x.len() as int) =~= decimal(a as nat));
    assert(y.subrange(n as int, y.len() as int) =~= decimal(b as nat));
    assert(x.len() > parent.len());
}

/// The fork counters, one for each bucket of each correlation.
pub struct ForkCounters {
    counters: Table<BucketKey, u64>,
}

impl ForkCounters {
    /// The number the next fork of a bucket gets; the first gets 1.
    pub closed spec fn upcoming(
        self,
        correlation_id: Option<Seq<char>>,
        bucket_id: Seq<char>,
    ) -> u64 {
        self.counters.upcoming((correlation_id, bucket_id), 1)
    }

    /// Counters of which none has counted.
    pub fn new() -> (r: ForkCounters)
        ensures
            forall|c: Option<Seq<char>>, b: Seq<char>| #[trigger] r.upcoming(c, b) == 1,
    {
        ForkCounters { counters: Table::new() }
    }
}

/// Gives the next fork of a bucket its number.
pub fn next_fork_seq(
    counters: &mut ForkCounters,
    correlation_id: Option<&str>,
    parent_bucket_id: &str,
) -> (r: u64)
    requires
        old(counters).upcoming(correlation_id.deep_view(), parent_bucket_id@) < u64::MAX,
    ensures
        r == old(counters).upcoming(correlation_id.deep_view(), parent_bucket_id@),
        forall|c: Option<Seq<char>>, b: Seq<char>| #[trigger]
            final(counters).upcoming(c, b) == (if c == correlation_id.deep_view() && b
                == parent_bucket_id@ {
                (r + 1) as u64
            } else {
                old(counters).upcoming(c, b)
            }),
{
    counters.counters.take_number(
        BucketKey {
            correlation_id: opt_string(correlation_id),
            bucket_id: parent_bucket_id.to_owned(),
        },
        1,
    )
}

/// Forgets how often a bucket forked, so its next fork is the first again.
pub fn clear_fork_counter(
    counters: &mut ForkCounters,
    correlation_id: Option<&str>,
    parent_bucket_id: &str,
)
    ensures
        forall|c: Option<Seq<char>>, b: Seq<char>| #[trigger]
            final(counters).upcoming(c, b) == (if c == correlation_id.deep_view() && b
                == parent_bucket_id@ {
                1
            } else {
                old(counters).upcoming(c, b)
            }),
{
    counters.counters.remove(
        &BucketKey {
            correlation_id: opt_string(correlation_id),
            bucket_id: parent_bucket_id.to_owned(),
        },
    );
}

impl TaskLineage {
    /// The lineage of work that was not spawned.
    pub fn root() -> (r: TaskLineage)
        ensures
            r@ == root_lineage(),
    {
        TaskLineage {
            task_id: ROOT_TASK_ID.to_owned(),
            parent_task_id: None,
            bucket_id: ROOT_TASK_ID.to_owned(),
            fork_seq: 0,
        }
    }

    /// The lineage of a spawned task: a fresh bucket under the parent's.
    pub fn forked_child_of(
        parent: TaskLineage,
        counters: &mut ForkCounters,
        correlation_id: Option<&str>,
    ) -> (r: TaskLineage)
        requires
            old(counters).upcoming(correlation_id.deep_view(), parent@.bucket_id) < u64::MAX,
        ensures
            r@ == forked(
                parent@,
                old(counters).upcoming(correlation_id.deep_view(), parent@.bucket_id),
            ),
            forall|c: Option<Seq<char>>, b: Seq<char>| #[trigger]
                final(counters).upcoming(c, b) == (if c == correlation_id.deep_view() && b
                    == parent@.bucket_id {
                    (r.fork_seq + 1) as u64
                } else {
                    old(counters).upcoming(c, b)
                }),
    {
        let seq: u64 = next_fork_seq(counters, correlation_id, parent.bucket_id.as_str());
        let task_id = fork_text(parent.task_id.as_str(), seq);
        let bucket_id = fork_text(parent.bucket_id.as_str(), seq);
        TaskLineage { task_id, parent_task_id: Some(parent.task_id), bucket_id, fork_seq: seq }
    }
}

impl Clone for TaskLineage {
    fn clone(&self) -> (r: TaskLineage)
        ensures
            r == *self,
    {
        TaskLineage {
            task_id: self.task_id.clone(),
            parent_task_id: opt_clone(&self.parent_task_id),
            bucket_id: self.bucket_id.clone(),
            fork_seq: self.fork_seq,
        }
    }
}

/// The lineage a boundary is stamped with: that of the innermost entered span,
/// or the root where no span is entered.
pub fn current_task_lineage(entered: Option<TaskLineage>) -> (r: TaskLineage)
    ensures
        r@ == (match entered {
            Some(lineage) => lineage@,
            None => root_lineage(),
        }),
{
    match entered {
        Some(lineage) => lineage,
        None => TaskLineage::root(),
    }
}

/// The lineage facts stamped on an event. `task_bucket` and `bucket_id` carry
/// one bucket under two names.
#[derive(Debug)]
pub struct TaskMetadata {
    pub task_id: Option<String>,
    pub parent_task_id: Option<String>,
    pub task_bucket: Option<String>,
    pub bucket_id: Option<String>,
    pub fork_seq: Option<u64>,
}

/// What the lineage facts say.
pub struct TaskMetadataView {
    pub task_id: Option<Seq<char>>,
    pub parent_task_id: Option<Seq<char>>,
    pub task_bucket: Option<Seq<char>>,
    pub bucket_id: Option<Seq<char>>,
    pub fork_seq: Option<u64>,
}

impl View for TaskMetadata {
    type V = TaskMetadataView;

    open spec fn view(&self) -> TaskMetadataView {
        TaskMetadataView {
            task_id: self.task_id.deep_view(),
            parent_task_id: self.parent_task_id.deep_view(),
            task_bucket: self.task_bucket.deep_view(),
            bucket_id: self.bucket_id.deep_view(),
            fork_seq: self.fork_seq,
        }
    }
}

/// The lineage facts of a lineage.
pub open spec fn stamped(lineage: LineageView) -> TaskMetadataView {
    TaskMetadataView {
        task_id: Some(lineage.task_id),
        parent_task_id: lineage.parent_task_id,
        task_bucket: Some(lineage.bucket_id),
        bucket_id: Some(lineage.bucket_id),
        fork_seq: Some(lineage.fork_seq),
    }
}

/// The lineage facts stamped on an event.
pub fn current_task_metadata(lineage: TaskLineage) -> (r: TaskMetadata)
    ensures
        r@ == stamped(lineage@),
{
    let bucket = lineage.bucket_id.clone();
    TaskMetadata {
        task_id: Some(lineage.task_id),
        parent_task_id: lineage.parent_task_id,
        task_bucket: Some(bucket),
        bucket_id: Some(lineage.bucket_id),
        fork_seq: Some(lineage.fork_seq),
    }
}

/// A spawned task names the task that spawned it as its parent, carries the number
/// of its fork, and has names of its own that start with its parent's; tasks
/// forked from one parent under different numbers share neither task nor bucket.
/// Work that was not spawned has no parent and stands in the root.
pub proof fn forks_stand_under_their_parents(parent: LineageView, a: u64, b: u64)
    ensures
        forked(parent, a).parent_task_id == Some(parent.task_id),
        forked(parent, a).fork_seq == a,
        forked(parent, a).task_id == parent.task_id + "::fork-"@ + decimal(a as nat),
        forked(parent, a).bucket_id == parent.bucket_id + "::fork-"@ + decimal(a as nat),
        parent.task_id.is_prefix_of(forked(parent, a).task_id),
        parent.bucket_id.is_prefix_of(forked(parent, a).bucket_id),
        forked(parent, a).bucket_id != parent.bucket_id,
        a != b ==> forked(parent, a).bucket_id != forked(parent, b).bucket_id && forked(
            parent,
            a,
        ).task_id != forked(parent, b).task_id,
        root_lineage().parent_task_id is None,
        root_lineage().task_id == "root"@,
        root_lineage().bucket_id == "root"@,
        root_lineage().fork_seq == 0,
{
    forks_are_told_apart(parent.bucket_id, a, b);
    forks_are_told_apart(parent.task_id, a, b);
    assert(parent.task_id =~= forked(parent, a).task_id.subrange(
        0,
        parent.task_id.len() as int,
    ));
    assert(parent.bucket_id =~= forked(parent, a).bucket_id.subrange(
        0,
        parent.bucket_id.len() as int,
    ));
}

/// What is stamped on an event is its lineage, whole: nothing of it is lost, and
/// the bucket stands under both of its names.
pub proof fn lineages_are_stamped_whole(lineage: LineageView, other: LineageView)
    ensures
        stamped(lineage).task_id == Some(lineage.task_id),
        stamped(lineage).parent_task_id == lineage.parent_task_id,
        stamped(lineage).task_bucket == Some(lineage.bucket_id),
        stamped(lineage).bucket_id == Some(lineage.bucket_id),
        stamped(lineage).fork_seq == Some(lineage.fork_seq),
        stamped(lineage) == stamped(other) ==> lineage == other,
{
}

} // verus!
