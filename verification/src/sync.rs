//! The sequential synchronization engine.
//!
//! A `Syncer` is built from validated sources and a target, resolved once
//! against a snapshot of the source trees, and then driven one job at a time:
//! each `next` call hands the caller the job to perform and the progress
//! state to report.

use vstd::prelude::*;
use crate::fs_tree::{EntryKind, FsNode};
use crate::jobs::{initial_job, initial_jobs, resolve_all, Job, JobView};
use crate::paths::{is_ancestor_or_self, SyncPath};

verus! {

/// A progress snapshot: the file being worked on, the total number of jobs of
/// the run, and how many are done.
pub struct State {
    current_file: SyncPath,
    total: usize,
    done: usize,
}

/// The mathematical value of a progress snapshot.
pub struct StateView {
    pub current_file: Seq<Seq<char>>,
    pub total: int,
    pub done: int,
}

impl View for State {
    type V = StateView;

    closed spec fn view(&self) -> StateView {
        StateView {
            current_file: self.current_file@,
            total: self.total as int,
            done: self.done as int,
        }
    }
}

impl State {
    /// The source path of the job this snapshot reports on.
    pub fn current_file(&self) -> (r: &SyncPath)
        ensures
            r@ == self@.current_file,
    {
        &self.current_file
    }

    /// The total number of jobs of the run.
    pub fn total(&self) -> (r: usize)
        ensures
            r == self@.total,
    {
        self.total
    }

    /// The number of jobs completed so far.
    pub fn done(&self) -> (r: usize)
        ensures
            r == self@.done,
    {
        self.done
    }
}

/// Why a source/target combination is rejected before any work begins.
#[derive(Debug)]
pub enum InvalidSyncerParameters {
    /// The named source is not an existing file or directory.
    SourceDoesNotExist(SyncPath),
    /// The target lies at or below the named source.
    TargetInSource(SyncPath),
    /// The named source lies at or below the target.
    SourceInTarget(SyncPath),
}

/// A single source passes all three checks against the target.
pub open spec fn source_valid(source: Seq<Seq<char>>, kind: EntryKind, target: Seq<Seq<char>>) -> bool {
    &&& kind != EntryKind::Missing
    &&& !is_ancestor_or_self(target, source)
    &&& !is_ancestor_or_self(source, target)
}

/// The first `n` sources all pass validation.
pub open spec fn sources_valid_upto(
    sources: Seq<SyncPath>,
    kinds: Seq<EntryKind>,
    target: Seq<Seq<char>>,
    n: int,
) -> bool {
    forall|j: int| 0 <= j < n ==> source_valid(#[trigger] sources[j]@, kinds[j], target)
}

/// The error `e` names this source and is exactly the first check, in order,
/// that the source fails.
pub open spec fn violation_at(
    source: Seq<Seq<char>>,
    kind: EntryKind,
    target: Seq<Seq<char>>,
    e: InvalidSyncerParameters,
) -> bool {
    match e {
        InvalidSyncerParameters::SourceDoesNotExist(p) => p@ == source && kind
            == EntryKind::Missing,
        InvalidSyncerParameters::SourceInTarget(p) => p@ == source && kind != EntryKind::Missing
            && is_ancestor_or_self(target, source),
        InvalidSyncerParameters::TargetInSource(p) => p@ == source && kind != EntryKind::Missing
            && !is_ancestor_or_self(target, source) && is_ancestor_or_self(source, target),
    }
}

/// The error returned for some source list: the first source to fail a check,
/// with all sources before it valid.
pub open spec fn first_violation(
    sources: Seq<SyncPath>,
    kinds: Seq<EntryKind>,
    target: Seq<Seq<char>>,
    e: InvalidSyncerParameters,
) -> bool {
    exists|i: int|
        0 <= i < sources.len() && sources_valid_upto(sources, kinds, target, i) && violation_at(
            #[trigger] sources[i]@,
            kinds[i],
            target,
            e,
        )
}

/// Checks each source, in input order, against the target: it must exist
/// (`kinds` reports what the caller found on disk), must not lie inside the
/// target, and must not contain the target.  Fails fast on the first
/// violation; performs no filesystem work itself.
pub fn valid_syncer_parameters(
    sources: &Vec<SyncPath>,
    kinds: &Vec<EntryKind>,
    target: &SyncPath,
) -> (r: Result<(), InvalidSyncerParameters>)
    requires
        kinds@.len() == sources@.len(),
    ensures
        match r {
            Ok(_) => sources_valid_upto(sources@, kinds@, target@, sources@.len() as int),
            Err(e) => first_violation(sources@, kinds@, target@, e),
        },
{
    let mut i: usize = 0;
    while i < sources.len()
        invariant
            i <= sources@.len(),
            kinds@.len() == sources@.len(),
            sources_valid_upto(sources@, kinds@, target@, i as int),
        decreases sources@.len() - i,
    {
        let source = &sources[i];
        if kinds[i] == EntryKind::Missing {
            let e = InvalidSyncerParameters::SourceDoesNotExist(source.clone());
            proof {
                assert(violation_at(sources@[i as int]@, kinds@[i as int], target@, e));
            }
            return Err(e);
        } else if source.starts_with(target) {
            let e = InvalidSyncerParameters::SourceInTarget(source.clone());
            proof {
                assert(violation_at(sources@[i as int]@, kinds@[i as int], target@, e));
            }
            return Err(e);
        } else if target.starts_with(source) {
            let e = InvalidSyncerParameters::TargetInSource(source.clone());
            proof {
                assert(violation_at(sources@[i as int]@, kinds@[i as int], target@, e));
            }
            return Err(e);
        }
        i = i + 1;
    }
    Ok(())
}

/// The engine's state: the pending jobs (popped from the end) and the
/// completed jobs (append-only).
pub struct Syncer {
    jobs_todo: Vec<Job>,
    jobs_done: Vec<Job>,
}

impl Syncer {
    /// The pending jobs; the next to run is the last.
    pub closed spec fn todo(&self) -> Seq<JobView> {
        self.jobs_todo.deep_view()
    }

    /// The completed jobs, in completion order.
    pub closed spec fn done(&self) -> Seq<JobView> {
        self.jobs_done.deep_view()
    }

    /// The job counts stay countable: their sum fits the machine.
    pub open spec fn wf(&self) -> bool {
        self.todo().len() + self.done().len() <= usize::MAX
    }

    /// Validates the parameters and, on success, creates one pending job per
    /// source, in input order, targeted below the target directory.
    pub fn new(sources: Vec<SyncPath>, kinds: &Vec<EntryKind>, target: SyncPath) -> (r: Result<
        Syncer,
        InvalidSyncerParameters,
    >)
        requires
            kinds@.len() == sources@.len(),
        ensures
            match r {
                Ok(s) => {
                    &&& sources_valid_upto(sources@, kinds@, target@, sources@.len() as int)
                    &&& s.done() == Seq::<JobView>::empty()
                    &&& s.todo().len() == sources@.len()
                    &&& forall|i: int|
                        0 <= i < sources@.len() ==> #[trigger] s.todo()[i] == initial_job(
                            sources@[i]@,
                            target@,
                        )
                    &&& s.wf()
                },
                Err(e) => first_violation(sources@, kinds@, target@, e),
            },
    {
        match valid_syncer_parameters(&sources, kinds, &target) {
            Err(e) => Err(e),
            Ok(_) => {
                proof {
                    assert forall|i: int| 0 <= i < sources@.len() implies (
                    #[trigger] sources@[i])@.len() > 0 by {
                        assert(source_valid(sources@[i]@, kinds@[i], target@));
                        if sources@[i]@.len() == 0 {
                            assert(sources@[i]@.is_prefix_of(target@));
                        }
                    }
                }
                let jobs_todo = initial_jobs(&sources, &target);
                let n = jobs_todo.len();
                let s = Syncer { jobs_todo, jobs_done: Vec::new() };
                proof {
                    assert(s.done() =~= Seq::<JobView>::empty());
                    assert(s.todo().len() == n as nat);
                }
                Ok(s)
            },
        }
    }

    /// Expands every pending top-level job against the caller's snapshot of
    /// its source tree.  Afterwards the pending list holds, in pop order, a
    /// directory's own job before every job of its descendants.
    pub fn resolve(&mut self, trees: &Vec<FsNode>)
        requires
            trees@.len() == old(self).todo().len(),
            old(self).done().len() == 0,
        ensures
            final(self).todo() == resolve_all(old(self).todo(), trees@).reverse(),
            final(self).done() == old(self).done(),
            final(self).wf(),
    {
        let jobs = self.jobs_todo.clone();
        proof {
            broadcast use vstd::std_specs::vec::vec_clone_deep_view_proof;

            assert(jobs.deep_view() =~= self.jobs_todo.deep_view());
        }
        self.jobs_todo = crate::jobs::resolve_jobs(jobs, trees);
        let n = self.jobs_todo.len();
        proof {
            assert(self.todo().len() == n as nat);
        }
    }

    /// Pops the next pending job, records it as done, and returns it together
    /// with the progress state to report; `None` once nothing is pending.
    /// The caller performs the returned job's filesystem work.
    pub fn next(&mut self) -> (r: Option<(Job, State)>)
        requires
            old(self).wf(),
        ensures
            match r {
                None => {
                    &&& old(self).todo().len() == 0
                    &&& final(self).todo() == old(self).todo()
                    &&& final(self).done() == old(self).done()
                },
                Some((job, state)) => {
                    &&& old(self).todo().len() > 0
                    &&& job@ == old(self).todo().last()
                    &&& final(self).todo() == old(self).todo().drop_last()
                    &&& final(self).done() == old(self).done().push(job@)
                    &&& state@ == run_states(old(self).todo(), old(self).done()).first()
                    &&& state@.current_file == job@.source
                    &&& state@.total == old(self).todo().len() + old(self).done().len()
                    &&& state@.done == old(self).done().len() + 1
                    &&& final(self).wf()
                },
            },
    {
        let job = match self.jobs_todo.pop() {
            Some(j) => j,
            None => {
                proof {
                    assert(self.todo() =~= old(self).todo());
                }
                return None;
            },
        };
        proof {
            assert(self.todo() =~= old(self).todo().drop_last());
            assert(job@ == old(self).todo().last());
        }
        let ghost pre_done = self.done();
        self.jobs_done.push(job.clone());
        proof {
            assert(self.done() =~= pre_done.push(job@));
        }
        let state = State {
            current_file: job.source.clone(),
            total: self.jobs_todo.len() + self.jobs_done.len(),
            done: self.jobs_done.len(),
        };
        Some((job, state))
    }
}

/// The progress states of a whole run from the given pending and completed
/// job lists: one state per pending job, in pop order.
pub open spec fn run_states(todo: Seq<JobView>, done: Seq<JobView>) -> Seq<StateView>
    decreases todo.len(),
{
    if todo.len() == 0 {
        Seq::empty()
    } else {
        let j = todo.last();
        seq![
            StateView {
                current_file: j.source,
                total: (todo.len() + done.len()) as int,
                done: (done.len() + 1) as int,
            },
        ] + run_states(todo.drop_last(), done.push(j))
    }
}

/// Law: within one run, `done` strictly increases by one with each emitted
/// state, `total` stays constant, and the final state reports `done` equal to
/// `total`.
pub proof fn lemma_run_states_progress(todo: Seq<JobView>, done: Seq<JobView>)
    ensures
        run_states(todo, done).len() == todo.len(),
        forall|i: int|
            0 <= i < todo.len() ==> (#[trigger] run_states(todo, done)[i]).total == todo.len()
                + done.len(),
        forall|i: int|
            0 <= i < todo.len() ==> (#[trigger] run_states(todo, done)[i]).done == done.len() + i
                + 1,
        todo.len() > 0 ==> run_states(todo, done).last().done == run_states(todo, done).last().total,
    decreases todo.len(),
{
    if todo.len() > 0 {
        let j = todo.last();
        lemma_run_states_progress(todo.drop_last(), done.push(j));
        let states = run_states(todo, done);
        let rest = run_states(todo.drop_last(), done.push(j));
        assert forall|i: int| 0 <= i < todo.len() implies (#[trigger] states[i]).total == todo.len()
            + done.len() && states[i].done == done.len() + i + 1 by {
            if i > 0 {
                assert(states[i] == rest[i - 1]);
            }
        }
        assert(states.last() == states[todo.len() - 1]);
    }
}

} // verus!
