//! The batched synchronization engine, and the last-sync record.
//!
//! This engine drives the same job list as [`crate::sync`], but hands the
//! caller bounded batches of jobs that are safe to run concurrently: a batch
//! never contains a job together with one of its path ancestors, so a file
//! copy cannot race the creation of a directory above it.  Before a run
//! starts, a record of the moment, the sources and the target is produced for
//! persistence in the target directory.

use vstd::prelude::*;
use crate::fs_tree::{EntryKind, FsNode};
use crate::jobs::{initial_job, resolve_all, Job, JobView};
use crate::paths::{is_ancestor_or_self, path_display, SyncPath};
use crate::sync::{first_violation, sources_valid_upto};

pub use crate::sync::InvalidSyncerParameters;
pub use crate::sync::valid_syncer_parameters;

verus! {

/// A progress snapshot: the batch just finished, the total number of jobs of
/// the run, and how many are done.
pub struct State {
    current_work: Vec<SyncPath>,
    total: usize,
    done: usize,
}

/// The mathematical value of a progress snapshot.
pub struct BatchStateView {
    pub current_work: Seq<Seq<Seq<char>>>,
    pub total: int,
    pub done: int,
}

impl View for State {
    type V = BatchStateView;

    closed spec fn view(&self) -> BatchStateView {
        BatchStateView {
            current_work: self.current_work.deep_view(),
            total: self.total as int,
            done: self.done as int,
        }
    }
}

impl State {
    /// The source paths of the batch this snapshot reports on.
    pub fn current_work(&self) -> (r: &Vec<SyncPath>)
        ensures
            r.deep_view() == self@.current_work,
    {
        &self.current_work
    }

    /// The total number of jobs of the run.
    pub fn total(&self) -> (r: usize)
        ensures
            r == self@.total,
    {
        self.total
    }

    /// The number of jobs completed so far.
    pub fn done(&self) -> (r: usize)
        ensures
            r == self@.done,
    {
        self.done
    }
}

/// The engine's state: the target root, the pending jobs (popped from the
/// end) and the completed jobs (append-only).
pub struct Syncer {
    target_root: SyncPath,
    jobs_todo: Vec<Job>,
    jobs_done: Vec<Job>,
}

/// How many pending jobs the next batch takes, counting from the end of the
/// pending list, having already accepted `n`: it stops at the width, at the
/// end of the list, or at the first job whose source lies at or below the
/// previously accepted job's source.
pub open spec fn batch_len(todo: Seq<JobView>, width: int, n: int) -> int
    decreases width - n,
{
    if n >= width || n >= todo.len() {
        n
    } else if n > 0 && is_ancestor_or_self(
        todo[todo.len() - n].source,
        todo[todo.len() - 1 - n].source,
    ) {
        n
    } else {
        batch_len(todo, width, n + 1)
    }
}

/// The batch counter never passes the width or the end of the list.
pub proof fn lemma_batch_len_bounds(todo: Seq<JobView>, width: int, n: int)
    requires
        0 <= n <= todo.len(),
        n <= width,
    ensures
        n <= batch_len(todo, width, n),
        batch_len(todo, width, n) <= todo.len(),
        batch_len(todo, width, n) <= width,
    decreases width - n,
{
    if n >= width || n >= todo.len() {
    } else if n > 0 && is_ancestor_or_self(
        todo[todo.len() - n].source,
        todo[todo.len() - 1 - n].source,
    ) {
    } else {
        lemma_batch_len_bounds(todo, width, n + 1);
    }
}

/// A nonempty pending list always yields a batch of at least one job.
pub proof fn lemma_batch_len_first(todo: Seq<JobView>, width: int)
    requires
        width >= 1,
        todo.len() >= 1,
    ensures
        1 <= batch_len(todo, width, 0),
        batch_len(todo, width, 0) <= todo.len(),
        batch_len(todo, width, 0) <= width,
{
    assert(batch_len(todo, width, 0) == batch_len(todo, width, 1));
    lemma_batch_len_bounds(todo, width, 1);
}

/// Every job the batch counter accepts after the first passed the conflict
/// check against the job accepted just before it.
pub proof fn lemma_batch_len_accepts(todo: Seq<JobView>, width: int, k: int, m: int)
    requires
        0 <= k <= m,
        0 < m,
        m < batch_len(todo, width, k),
    ensures
        !is_ancestor_or_self(todo[todo.len() - m].source, todo[todo.len() - 1 - m].source),
    decreases m - k,
{
    if k >= width || k >= todo.len() {
        assert(false);
    } else if k > 0 && is_ancestor_or_self(
        todo[todo.len() - k].source,
        todo[todo.len() - 1 - k].source,
    ) {
        assert(false);
    } else {
        if k < m {
            lemma_batch_len_accepts(todo, width, k + 1, m);
        }
    }
}

/// Law: while the pending list is a tail, in pop order, of a parents-first,
/// subtree-contiguous resolution — which `resolve` produces and every batch
/// preserves — the jobs of one batch are pairwise independent: no two lie on
/// one filesystem path.  The caller awaits the whole batch before taking the
/// next, so a directory's creation job is complete before any job below that
/// directory is dispatched.
pub proof fn lemma_batch_hierarchy(r: Seq<JobView>, todo: Seq<JobView>, width: int)
    requires
        crate::jobs::parents_first(r),
        crate::jobs::subtrees_contiguous(r),
        todo.len() <= r.len(),
        todo == r.reverse().take(todo.len() as int),
        width >= 1,
        todo.len() > 0,
    ensures
        ({
            let n = batch_len(todo, width, 0);
            forall|x: int, y: int|
                0 <= x < y < n ==> !is_ancestor_or_self(
                    todo[todo.len() - 1 - x].source,
                    #[trigger] todo[todo.len() - 1 - y].source,
                ) && !is_ancestor_or_self(
                    todo[todo.len() - 1 - y].source,
                    #[trigger] todo[todo.len() - 1 - x].source,
                )
        }),
{
    let len = todo.len() as int;
    let d = r.len() - todo.len();
    lemma_batch_len_first(todo, width);
    let n = batch_len(todo, width, 0);
    assert forall|m: int| 0 <= m < len implies todo[len - 1 - m] == #[trigger] r[d + m] by {
        assert(todo[len - 1 - m] == r.reverse()[len - 1 - m]);
    }
    assert forall|m: int| d <= m < d + n - 1 implies !is_ancestor_or_self(
        (#[trigger] r[m]).source,
        r[m + 1].source,
    ) by {
        let q = m - d + 1;
        lemma_batch_len_accepts(todo, width, 0, q);
        assert(todo[len - q] == r[d + q - 1]);
        assert(todo[len - 1 - q] == r[d + q]);
    }
    crate::jobs::lemma_batch_independent(r, d, d + n);
    assert forall|x: int, y: int| 0 <= x < y < n implies !is_ancestor_or_self(
        todo[len - 1 - x].source,
        #[trigger] todo[len - 1 - y].source,
    ) && !is_ancestor_or_self(
        todo[len - 1 - y].source,
        #[trigger] todo[len - 1 - x].source,
    ) by {
        assert(todo[len - 1 - x] == r[d + x]);
        assert(todo[len - 1 - y] == r[d + y]);
        assert(!is_ancestor_or_self(r[d + x].source, r[d + y].source));
    }
}

/// Law: taking a batch of `n` jobs from a pending list that is a tail, in
/// pop order, of a fixed resolution leaves a pending list that is again such
/// a tail — so `lemma_batch_hierarchy` applies to every batch of a run, not
/// only the first.
pub proof fn lemma_pending_stays_a_tail(r: Seq<JobView>, t: int, n: int)
    requires
        0 <= n <= t <= r.len(),
    ensures
        r.reverse().take(t).take(t - n) == r.reverse().take(t - n),
{
    assert(r.reverse().take(t).take(t - n) =~= r.reverse().take(t - n));
}

/// The progress states of a whole batched run from `todo` pending jobs and
/// `done` completed ones: one state per batch, in the order the batches are
/// taken.
pub open spec fn batch_run_states(todo: Seq<JobView>, done: int, width: int) -> Seq<BatchStateView>
    decreases todo.len(),
{
    if todo.len() == 0 || width < 1 {
        Seq::empty()
    } else {
        proof {
            lemma_batch_len_first(todo, width);
        }
        let n = batch_len(todo, width, 0);
        seq![
            BatchStateView {
                current_work: Seq::new(n as nat, |m: int| todo[todo.len() - 1 - m].source),
                total: todo.len() + done,
                done: done + n,
            },
        ] + batch_run_states(todo.take(todo.len() - n), done + n, width)
    }
}

/// Law: across the states of one batched run, `done` strictly increases,
/// `total` stays constant at the run's total job count, and the final state
/// reports `done` equal to `total`.
pub proof fn lemma_batch_run_progress(todo: Seq<JobView>, done: int, width: int)
    requires
        width >= 1,
        done >= 0,
    ensures
        forall|i: int|
            0 <= i < batch_run_states(todo, done, width).len() ==> (#[trigger] batch_run_states(
                todo,
                done,
                width,
            )[i]).total == todo.len() + done,
        forall|i: int|
            0 <= i < batch_run_states(todo, done, width).len() ==> done < (
            #[trigger] batch_run_states(todo, done, width)[i]).done <= todo.len() + done,
        forall|i: int, j: int|
            0 <= i < j < batch_run_states(todo, done, width).len() ==> (#[trigger] batch_run_states(
                todo,
                done,
                width,
            )[i]).done < (#[trigger] batch_run_states(todo, done, width)[j]).done,
        todo.len() == 0 ==> batch_run_states(todo, done, width).len() == 0,
        todo.len() > 0 ==> batch_run_states(todo, done, width).len() > 0 && batch_run_states(
            todo,
            done,
            width,
        ).last().done == batch_run_states(todo, done, width).last().total,
    decreases todo.len(),
{
    if todo.len() > 0 {
        lemma_batch_len_first(todo, width);
        let n = batch_len(todo, width, 0);
        let states = batch_run_states(todo, done, width);
        let rest_todo = todo.take(todo.len() - n);
        let rest = batch_run_states(rest_todo, done + n, width);
        lemma_batch_run_progress(rest_todo, done + n, width);
        assert forall|i: int| 0 <= i < states.len() implies (#[trigger] states[i]).total
            == todo.len() + done && done < states[i].done <= todo.len() + done by {
            if i > 0 {
                assert(states[i] == rest[i - 1]);
            }
        }
        assert forall|i: int, j: int| 0 <= i < j < states.len() implies (
        #[trigger] states[i]).done < (#[trigger] states[j]).done by {
            assert(states[j] == rest[j - 1]);
            if i > 0 {
                assert(states[i] == rest[i - 1]);
            }
        }
        if rest_todo.len() == 0 {
            assert(states.last() == states[0]);
        } else {
            assert(states.last() == rest.last());
        }
    }
}

/// Law: one driving cycle — take the next batch, record each of its jobs as
/// done, emit progress — produces exactly the first state of the batched-run
/// model: the batch's sources in pop order, the constant total, and the done
/// count grown by the batch's length.
pub proof fn lemma_batch_cycle_state(todo: Seq<JobView>, done: Seq<JobView>, width: int)
    requires
        width >= 1,
        todo.len() > 0,
    ensures
        ({
            let n = batch_len(todo, width, 0);
            let st = batch_run_states(todo, done.len() as int, width)[0];
            &&& st.total == todo.len() + done.len()
            &&& st.done == done.len() + n
            &&& st.current_work == Seq::new(n as nat, |m: int| todo[todo.len() - 1 - m].source)
        }),
{
    lemma_batch_len_first(todo, width);
}

impl Syncer {
    /// The pending jobs; the next to run is the last.
    pub closed spec fn todo(&self) -> Seq<JobView> {
        self.jobs_todo.deep_view()
    }

    /// The completed jobs, in completion order.
    pub closed spec fn done(&self) -> Seq<JobView> {
        self.jobs_done.deep_view()
    }

    /// The target directory the run mirrors into.
    pub closed spec fn target_root(&self) -> Seq<Seq<char>> {
        self.target_root@
    }

    /// The job counts stay countable: their sum fits the machine.
    pub open spec fn wf(&self) -> bool {
        self.todo().len() + self.done().len() <= usize::MAX
    }

    /// Validates the parameters and, on success, creates one pending job per
    /// source, in input order, targeted below the target directory.
    pub fn new(sources: Vec<SyncPath>, kinds: &Vec<EntryKind>, target: SyncPath) -> (r: Result<
        Syncer,
        InvalidSyncerParameters,
    >)
        requires
            kinds@.len() == sources@.len(),
        ensures
            match r {
                Ok(s) => {
                    &&& sources_valid_upto(sources@, kinds@, target@, sources@.len() as int)
                    &&& s.done() == Seq::<JobView>::empty()
                    &&& s.todo().len() == sources@.len()
                    &&& forall|i: int|
                        0 <= i < sources@.len() ==> #[trigger] s.todo()[i] == initial_job(
                            sources@[i]@,
                            target@,
                        )
                    &&& s.target_root() == target@
                    &&& s.wf()
                },
                Err(e) => first_violation(sources@, kinds@, target@, e),
            },
    {
        match crate::sync::valid_syncer_parameters(&sources, kinds, &target) {
            Err(e) => Err(e),
            Ok(_) => {
                proof {
                    assert forall|i: int| 0 <= i < sources@.len() implies (
                    #[trigger] sources@[i])@.len() > 0 by {
                        assert(crate::sync::source_valid(sources@[i]@, kinds@[i], target@));
                        if sources@[i]@.len() == 0 {
                            assert(sources@[i]@.is_prefix_of(target@));
                        }
                    }
                }
                let jobs_todo = crate::jobs::initial_jobs(&sources, &target);
                let n = jobs_todo.len();
                let s = Syncer { target_root: target, jobs_todo, jobs_done: Vec::new() };
                proof {
                    assert(s.done() =~= Seq::<JobView>::empty());
                    assert(s.todo().len() == n as nat);
                }
                Ok(s)
            },
        }
    }

    /// Expands every pending top-level job against the caller's snapshot of
    /// its source tree.  Afterwards the pending list holds, in pop order, a
    /// directory's own job before every job of its descendants.
    pub fn resolve(&mut self, trees: &Vec<FsNode>)
        requires
            trees@.len() == old(self).todo().len(),
            old(self).done().len() == 0,
        ensures
            final(self).todo() == resolve_all(old(self).todo(), trees@).reverse(),
            final(self).done() == old(self).done(),
            final(self).target_root() == old(self).target_root(),
            final(self).wf(),
    {
        let jobs = self.jobs_todo.clone();
        proof {
            broadcast use vstd::std_specs::vec::vec_clone_deep_view_proof;

            assert(jobs.deep_view() =~= self.jobs_todo.deep_view());
        }
        self.jobs_todo = crate::jobs::resolve_jobs(jobs, trees);
        let n = self.jobs_todo.len();
        proof {
            assert(self.todo().len() == n as nat);
        }
    }

    /// The number of pending jobs.
    pub fn pending_count(&self) -> (n: usize)
        ensures
            n == self.todo().len(),
    {
        self.jobs_todo.len()
    }

    /// The number of completed jobs.
    pub fn done_count(&self) -> (n: usize)
        ensures
            n == self.done().len(),
    {
        self.jobs_done.len()
    }

    /// Takes the next batch of pending jobs, in pop order, up to `width`
    /// jobs.  A job whose source lies at or below the source of the job
    /// accepted just before it is left pending, and the batch ends there: the
    /// batch never holds a job together with a descendant of that job.
    /// `None` once nothing is pending.  The caller performs the batch's
    /// filesystem work — concurrently, if it likes — then records each
    /// finished job with `record_done`.
    pub fn next_batch(&mut self, width: usize) -> (r: Option<Vec<Job>>)
        requires
            width >= 1,
        ensures
            match r {
                None => {
                    &&& old(self).todo().len() == 0
                    &&& final(self).todo() == old(self).todo()
                    &&& final(self).done() == old(self).done()
                    &&& final(self).target_root() == old(self).target_root()
                },
                Some(batch) => {
                    &&& old(self).todo().len() > 0
                    &&& batch.deep_view().len() == batch_len(old(self).todo(), width as int, 0)
                    &&& forall|m: int|
                        0 <= m < batch.deep_view().len() ==> #[trigger] batch.deep_view()[m]
                            == old(self).todo()[old(self).todo().len() - 1 - m]
                    &&& final(self).todo() == old(self).todo().take(
                        old(self).todo().len() - batch.deep_view().len(),
                    )
                    &&& final(self).done() == old(self).done()
                    &&& final(self).target_root() == old(self).target_root()
                },
            },
    {
        if self.jobs_todo.len() == 0 {
            proof {
                assert(self.todo() =~= old(self).todo());
            }
            return None;
        }
        let ghost todo0 = self.todo();
        let ghost len0 = todo0.len() as int;
        let ghost w = width as int;
        let mut batch: Vec<Job> = Vec::new();
        let mut stop = false;
        #[verifier::loop_isolation(false)]
        while !stop && batch.len() < width
            invariant
                batch.deep_view().len() <= w,
                batch.deep_view().len() <= len0,
                self.todo() == todo0.take(len0 - batch.deep_view().len()),
                self.done() == old(self).done(),
                self.target_root() == old(self).target_root(),
                forall|m: int|
                    0 <= m < batch.deep_view().len() ==> #[trigger] batch.deep_view()[m] == todo0[
                        len0 - 1 - m
                    ],
                !stop ==> batch_len(todo0, w, batch.deep_view().len() as int) == batch_len(
                    todo0,
                    w,
                    0,
                ),
                stop ==> batch.deep_view().len() == batch_len(todo0, w, 0),
            decreases w - batch.deep_view().len() + (if stop {
                0int
            } else {
                1int
            }),
        {
            let ghost k = batch.deep_view().len() as int;
            let ghost pre_todo = self.todo();
            let ghost pre_at = self.jobs_todo@;
            match self.jobs_todo.pop() {
                None => {
                    proof {
                        assert(self.todo().len() == 0);
                        assert(k == len0);
                        assert(batch_len(todo0, w, k) == k);
                        assert(self.todo() =~= todo0.take(len0 - k));
                    }
                    stop = true;
                },
                Some(job) => {
                    proof {
                        assert(self.todo() =~= todo0.take(len0 - k - 1));
                        assert(job == pre_at[len0 - 1 - k]);
                        assert(pre_todo[len0 - 1 - k] == pre_at[len0 - 1 - k].deep_view());
                        assert(job@ == todo0[len0 - 1 - k]);
                    }
                    let mut conflict = false;
                    if batch.len() > 0 {
                        let prev = &batch[batch.len() - 1];
                        proof {
                            assert(prev@ == batch.deep_view()[k - 1]);
                            assert(prev@ == todo0[len0 - k]);
                        }
                        conflict = job.source.starts_with(&prev.source);
                    }
                    if conflict {
                        let ghost jv = job@;
                        self.jobs_todo.push(job);
                        proof {
                            assert(batch_len(todo0, w, k) == k);
                            assert(self.todo() =~= todo0.take(len0 - k));
                        }
                        stop = true;
                    } else {
                        let ghost pre = batch.deep_view();
                        let ghost jv = job@;
                        batch.push(job);
                        proof {
                            assert(batch.deep_view() =~= pre.push(jv));
                            assert(batch_len(todo0, w, k) == batch_len(todo0, w, k + 1));
                        }
                    }
                },
            }
        }
        proof {
            if !stop {
                assert(batch.deep_view().len() == w);
                assert(batch_len(todo0, w, w) == w);
            }
        }
        Some(batch)
    }

    /// Records one finished job as done.
    pub fn record_done(&mut self, job: Job)
        ensures
            final(self).done() == old(self).done().push(job@),
            final(self).todo() == old(self).todo(),
            final(self).target_root() == old(self).target_root(),
    {
        let ghost jv = job@;
        let ghost pre = self.done();
        self.jobs_done.push(job);
        proof {
            assert(self.done() =~= pre.push(jv));
        }
    }

    /// The progress snapshot to emit after a batch: the batch's source paths,
    /// the run's total job count, and the completed count.
    pub fn progress(&self, current_work: Vec<SyncPath>) -> (st: State)
        requires
            self.wf(),
        ensures
            st@.current_work == current_work.deep_view(),
            st@.total == self.todo().len() + self.done().len(),
            st@.done == self.done().len(),
    {
        State {
            current_work,
            total: self.jobs_todo.len() + self.jobs_done.len(),
            done: self.jobs_done.len(),
        }
    }

    /// The record of this run for persistence: the given moment, the pending
    /// top-level sources in order, and the target root.  Meant to be written
    /// before resolution expands the job list.
    pub fn last_sync_record_at(&self, timestamp: i64) -> (r: LastSync)
        ensures
            r@.timestamp == timestamp as int,
            r@.sources.len() == self.todo().len(),
            forall|i: int|
                0 <= i < self.todo().len() ==> #[trigger] r@.sources[i] == path_display(
                    self.todo()[i].source,
                ),
            r@.target == path_display(self.target_root()),
    {
        let mut sources: Vec<SyncPath> = Vec::new();
        let mut i: usize = 0;
        while i < self.jobs_todo.len()
            invariant
                i <= self.todo().len(),
                sources.deep_view().len() == i,
                forall|k: int|
                    0 <= k < i ==> #[trigger] sources.deep_view()[k] == self.todo()[k].source,
            decreases self.todo().len() - i,
        {
            let ghost pre = sources.deep_view();
            let p = self.jobs_todo[i].source.clone();
            let ghost pv = p@;
            sources.push(p);
            proof {
                assert forall|k: int|
                    0 <= k < i + 1 implies #[trigger] sources.deep_view()[k] == self.todo()[
                    k
                ].source by {
                    if k < i {
                        assert(sources.deep_view()[k] == pre[k]);
                    } else {
                        assert(sources.deep_view()[k] == pv);
                    }
                }
            }
            i = i + 1;
        }
        LastSync::new(timestamp, sources, self.target_root.clone())
    }

    /// The record of this run, stamped with the clock's current moment.
    /// Nothing is promised of the moment itself.
    pub fn last_sync_record(&self) -> (r: LastSync)
        ensures
            r@.sources.len() == self.todo().len(),
            forall|i: int|
                0 <= i < self.todo().len() ==> #[trigger] r@.sources[i] == path_display(
                    self.todo()[i].source,
                ),
            r@.target == path_display(self.target_root()),
    {
        let timestamp = now_timestamp();
        self.last_sync_record_at(timestamp)
    }
}

/// Relies on chrono's `Utc::now` for the current moment as Unix seconds; the
/// clock may return anything, so nothing is promised of the value.
#[verifier::external_body]
fn now_timestamp() -> i64 {
    chrono::offset::Utc::now().timestamp()
}

/// The persisted description of a sync run: when it started, which sources
/// it copied, into which target — paths as display strings.
pub struct LastSync {
    timestamp: i64,
    sources: Vec<String>,
    target: String,
}

/// The mathematical value of a last-sync record.
pub struct LastSyncView {
    pub timestamp: int,
    pub sources: Seq<Seq<char>>,
    pub target: Seq<char>,
}

impl View for LastSync {
    type V = LastSyncView;

    closed spec fn view(&self) -> LastSyncView {
        LastSyncView {
            timestamp: self.timestamp as int,
            sources: self.sources.deep_view(),
            target: self.target@,
        }
    }
}

impl LastSync {
    /// Builds the record from the given moment, source paths and target path.
    pub fn new(timestamp: i64, sources: Vec<SyncPath>, target: SyncPath) -> (r: LastSync)
        ensures
            r@.timestamp == timestamp as int,
            r@.sources.len() == sources.deep_view().len(),
            forall|i: int|
                0 <= i < sources.deep_view().len() ==> #[trigger] r@.sources[i] == path_display(
                    sources.deep_view()[i],
                ),
            r@.target == path_display(target@),
    {
        let mut rendered: Vec<String> = Vec::new();
        let mut i: usize = 0;
        while i < sources.len()
            invariant
                i <= sources@.len(),
                rendered.deep_view().len() == i,
                forall|k: int|
                    0 <= k < i ==> #[trigger] rendered.deep_view()[k] == path_display(
                        sources.deep_view()[k],
                    ),
            decreases sources@.len() - i,
        {
            let ghost pre = rendered.deep_view();
            let s = sources[i].to_display_string();
            let ghost sv = s@;
            rendered.push(s);
            proof {
                assert forall|k: int|
                    0 <= k < i + 1 implies #[trigger] rendered.deep_view()[k] == path_display(
                    sources.deep_view()[k],
                ) by {
                    if k < i {
                        assert(rendered.deep_view()[k] == pre[k]);
                    } else {
                        assert(rendered.deep_view()[k] == sv);
                    }
                }
            }
            i = i + 1;
        }
        LastSync { timestamp, sources: rendered, target: target.to_display_string() }
    }

    /// The moment of the run, as Unix seconds.
    pub fn timestamp(&self) -> (r: i64)
        ensures
            r as int == self@.timestamp,
    {
        self.timestamp
    }

    /// The source paths of the run, as display strings.
    pub fn sources(&self) -> (r: &Vec<String>)
        ensures
            r.deep_view() == self@.sources,
    {
        &self.sources
    }

    /// The target path of the run, as a display string.
    pub fn target(&self) -> (r: &String)
        ensures
            r@ == self@.target,
    {
        &self.target
    }
}

} // verus!
