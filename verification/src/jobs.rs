//! Jobs: the unit of work of a sync run, and the rules that produce them.
//!
//! Resolution expands each source into the exact ordered job list that mirrors
//! it below the target: a directory's own job comes before every job of its
//! descendants.  `resolve_node` is the mathematical statement of that order;
//! the executable resolver in the engine modules is proved equal to it.

use vstd::prelude::*;
use crate::fs_tree::{DirEntry, FsNode};
use crate::paths::{
    is_ancestor_or_self,
    lemma_ancestor_comparable,
    lemma_ancestor_index,
    lemma_ancestor_transitive,
    SyncPath,
};

verus! {

/// An atomic unit of work: mirror the entry at `source` to `target`.
pub struct Job {
    pub source: SyncPath,
    pub target: SyncPath,
}

/// The mathematical value of a job: its two paths as component sequences.
pub struct JobView {
    pub source: Seq<Seq<char>>,
    pub target: Seq<Seq<char>>,
}

impl View for Job {
    type V = JobView;

    open spec fn view(&self) -> JobView {
        JobView { source: self.source@, target: self.target@ }
    }
}

impl DeepView for Job {
    type V = JobView;

    open spec fn deep_view(&self) -> JobView {
        self@
    }
}

impl Clone for Job {
    fn clone(&self) -> (r: Self)
        ensures
            r@ == self@,
    {
        Job { source: self.source.clone(), target: self.target.clone() }
    }
}

/// The ordered jobs that mirror the tree `node`, rooted at `source`, into
/// `target`: the root's own job first, then, for a directory, the jobs of its
/// entries in listing order.
pub open spec fn resolve_node(
    source: Seq<Seq<char>>,
    target: Seq<Seq<char>>,
    node: FsNode,
) -> Seq<JobView>
    decreases node, 1int,
{
    match node {
        FsNode::File => seq![JobView { source, target }],
        FsNode::Dir(entries) => seq![JobView { source, target }] + resolve_entries(
            source,
            target,
            entries@,
        ),
    }
}

/// The ordered jobs of a directory's entries, each child rooted one component
/// below `source` and `target`.
pub open spec fn resolve_entries(
    source: Seq<Seq<char>>,
    target: Seq<Seq<char>>,
    entries: Seq<DirEntry>,
) -> Seq<JobView>
    decreases entries, 0int,
{
    if entries.len() == 0 {
        Seq::empty()
    } else {
        resolve_node(
            source.push(entries[0].name@),
            target.push(entries[0].name@),
            entries[0].node,
        ) + resolve_entries(source, target, entries.drop_first())
    }
}

/// The full resolution of a job list: each job expanded against its tree, in
/// order.
pub open spec fn resolve_all(jobs: Seq<JobView>, trees: Seq<FsNode>) -> Seq<JobView>
    decreases jobs.len(),
{
    if jobs.len() == 0 {
        Seq::empty()
    } else {
        resolve_node(jobs[0].source, jobs[0].target, trees[0]) + resolve_all(
            jobs.drop_first(),
            trees.drop_first(),
        )
    }
}

/// Appending one entry to a directory listing appends exactly that entry's
/// resolution.
pub proof fn lemma_resolve_entries_snoc(
    source: Seq<Seq<char>>,
    target: Seq<Seq<char>>,
    entries: Seq<DirEntry>,
    e: DirEntry,
)
    ensures
        resolve_entries(source, target, entries.push(e)) == resolve_entries(source, target, entries)
            + resolve_node(source.push(e.name@), target.push(e.name@), e.node),
    decreases entries.len(),
{
    let all = entries.push(e);
    let child = resolve_node(source.push(e.name@), target.push(e.name@), e.node);
    if entries.len() == 0 {
        assert(all[0] == e);
        assert(all.drop_first() =~= Seq::<DirEntry>::empty());
        assert(resolve_entries(source, target, all) == child + resolve_entries(
            source,
            target,
            all.drop_first(),
        ));
        assert(child + Seq::<JobView>::empty() =~= resolve_entries(source, target, entries)
            + child);
    } else {
        assert(all[0] == entries[0]);
        let head = resolve_node(
            source.push(entries[0].name@),
            target.push(entries[0].name@),
            entries[0].node,
        );
        let mid = resolve_entries(source, target, entries.drop_first());
        assert(all.drop_first() =~= entries.drop_first().push(e));
        lemma_resolve_entries_snoc(source, target, entries.drop_first(), e);
        assert(resolve_entries(source, target, all) == head + resolve_entries(
            source,
            target,
            all.drop_first(),
        ));
        assert(resolve_entries(source, target, all.drop_first()) == mid + child);
        assert(resolve_entries(source, target, entries) == head + mid);
        assert(head + (mid + child) =~= (head + mid) + child);
    }
}

/// Appending one job to a job list appends exactly that job's resolution.
pub proof fn lemma_resolve_all_snoc(jobs: Seq<JobView>, trees: Seq<FsNode>, j: JobView, t: FsNode)
    requires
        jobs.len() == trees.len(),
    ensures
        resolve_all(jobs.push(j), trees.push(t)) == resolve_all(jobs, trees) + resolve_node(
            j.source,
            j.target,
            t,
        ),
    decreases jobs.len(),
{
    let all_jobs = jobs.push(j);
    let all_trees = trees.push(t);
    let last = resolve_node(j.source, j.target, t);
    if jobs.len() == 0 {
        assert(all_jobs[0] == j);
        assert(all_trees[0] == t);
        assert(all_jobs.drop_first() =~= Seq::<JobView>::empty());
        assert(resolve_all(all_jobs, all_trees) == last + resolve_all(
            all_jobs.drop_first(),
            all_trees.drop_first(),
        ));
        assert(last + Seq::<JobView>::empty() =~= resolve_all(jobs, trees) + last);
    } else {
        assert(all_jobs[0] == jobs[0]);
        assert(all_trees[0] == trees[0]);
        let head = resolve_node(jobs[0].source, jobs[0].target, trees[0]);
        let mid = resolve_all(jobs.drop_first(), trees.drop_first());
        assert(all_jobs.drop_first() =~= jobs.drop_first().push(j));
        assert(all_trees.drop_first() =~= trees.drop_first().push(t));
        lemma_resolve_all_snoc(jobs.drop_first(), trees.drop_first(), j, t);
        assert(resolve_all(all_jobs, all_trees) == head + resolve_all(
            all_jobs.drop_first(),
            all_trees.drop_first(),
        ));
        assert(resolve_all(all_jobs.drop_first(), all_trees.drop_first()) == mid + last);
        assert(resolve_all(jobs, trees) == head + mid);
        assert(head + (mid + last) =~= (head + mid) + last);
    }
}

/// The job a top-level source starts from: the source itself, targeted at
/// the target directory plus the source's last component.
pub open spec fn initial_job(source: Seq<Seq<char>>, target: Seq<Seq<char>>) -> JobView {
    JobView { source, target: target.push(source.last()) }
}

/// Builds the initial pending list: one job per source, in input order, each
/// targeted below the target directory under the source's own name.
pub fn initial_jobs(sources: &Vec<SyncPath>, target: &SyncPath) -> (r: Vec<Job>)
    requires
        forall|i: int| 0 <= i < sources@.len() ==> (#[trigger] sources@[i])@.len() > 0,
    ensures
        r.deep_view().len() == sources@.len(),
        forall|i: int|
            0 <= i < sources@.len() ==> #[trigger] r.deep_view()[i] == initial_job(
                sources@[i]@,
                target@,
            ),
{
    let mut jobs: Vec<Job> = Vec::new();
    let mut i: usize = 0;
    while i < sources.len()
        invariant
            i <= sources@.len(),
            forall|k: int| 0 <= k < sources@.len() ==> (#[trigger] sources@[k])@.len() > 0,
            jobs.deep_view().len() == i,
            forall|k: int|
                0 <= k < i ==> #[trigger] jobs.deep_view()[k] == initial_job(
                    sources@[k]@,
                    target@,
                ),
        decreases sources@.len() - i,
    {
        let source = &sources[i];
        let name = match source.file_name() {
            Some(n) => n,
            None => unreached(),
        };
        let ghost pre = jobs.deep_view();
        let job = Job { source: source.clone(), target: target.join(name) };
        proof {
            assert(job@ == initial_job(sources@[i as int]@, target@));
        }
        let ghost jv = job@;
        jobs.push(job);
        proof {
            assert forall|k: int| 0 <= k < i + 1 implies #[trigger] jobs.deep_view()[k]
                == initial_job(sources@[k]@, target@) by {
                if k < i {
                    assert(jobs.deep_view()[k] == pre[k]);
                } else {
                    assert(jobs.deep_view()[k] == jv);
                }
            }
        }
        i = i + 1;
    }
    jobs
}

/// A directory listing is well formed: entry names are distinct within each
/// directory, all the way down.  True of any listing a filesystem returns.
pub open spec fn tree_wf(node: FsNode) -> bool
    decreases node, 1int,
{
    match node {
        FsNode::File => true,
        FsNode::Dir(entries) => entries_wf(entries@),
    }
}

/// Well-formedness of one directory's entries.
pub open spec fn entries_wf(entries: Seq<DirEntry>) -> bool
    decreases entries, 0int,
{
    &&& forall|i: int, j: int|
        0 <= i < j < entries.len() ==> (#[trigger] entries[i]).name@ != (
        #[trigger] entries[j]).name@
    &&& forall|i: int| 0 <= i < entries.len() ==> tree_wf((#[trigger] entries[i]).node)
}

/// Every job's source lies at or below `root`.
pub open spec fn all_within(s: Seq<JobView>, root: Seq<Seq<char>>) -> bool {
    forall|k: int| 0 <= k < s.len() ==> is_ancestor_or_self(root, (#[trigger] s[k]).source)
}

/// No job's source lies at or below a later job's source: a directory's job
/// always precedes its descendants' jobs, and no source repeats.
pub open spec fn parents_first(s: Seq<JobView>) -> bool {
    forall|i: int, j: int|
        0 <= i < j < s.len() ==> !is_ancestor_or_self((#[trigger] s[j]).source, (
        #[trigger] s[i]).source)
}

/// The jobs at or below any one job's source form one contiguous run.
pub open spec fn subtrees_contiguous(s: Seq<JobView>) -> bool {
    forall|i: int, j: int, k: int|
        #![trigger s[i], s[j], s[k]]
        0 <= i <= j <= k < s.len() && is_ancestor_or_self(s[i].source, s[k].source)
            ==> is_ancestor_or_self(s[i].source, s[j].source)
}

/// The resolution of a well-formed tree lists the root's job first, stays
/// inside the root's subtree, puts every directory's job before its
/// descendants' jobs, and keeps each subtree's jobs contiguous.
pub proof fn lemma_resolve_node_order(
    source: Seq<Seq<char>>,
    target: Seq<Seq<char>>,
    node: FsNode,
)
    requires
        tree_wf(node),
    ensures
        ({
            let s = resolve_node(source, target, node);
            &&& s.len() > 0
            &&& s[0] == JobView { source, target }
            &&& all_within(s, source)
            &&& forall|k: int| 1 <= k < s.len() ==> (#[trigger] s[k]).source.len() > source.len()
            &&& parents_first(s)
            &&& subtrees_contiguous(s)
        }),
    decreases node, 1int,
{
    let s = resolve_node(source, target, node);
    assert(is_ancestor_or_self(source, source)) by {
        assert(source =~= source.subrange(0, source.len() as int));
    }
    match node {
        FsNode::File => {
            assert(s =~= seq![JobView { source, target }]);
        },
        FsNode::Dir(entries) => {
            let es = resolve_entries(source, target, entries@);
            lemma_resolve_entries_order(source, target, entries@);
            assert(s == seq![JobView { source, target }] + es);
            assert(s[0] == JobView { source, target });
            assert forall|k: int| 1 <= k < s.len() implies is_ancestor_or_self(
                source,
                (#[trigger] s[k]).source,
            ) && s[k].source.len() > source.len() by {
                assert(s[k] == es[k - 1]);
            }
            assert forall|i: int, j: int| 0 <= i < j < s.len() implies !is_ancestor_or_self(
                (#[trigger] s[j]).source,
                (#[trigger] s[i]).source,
            ) by {
                assert(s[j] == es[j - 1]);
                if i == 0 {
                    assert(s[j].source.len() > source.len());
                } else {
                    assert(s[i] == es[i - 1]);
                }
            }
            assert forall|i: int, j: int, k: int|
                #![trigger s[i], s[j], s[k]]
                0 <= i <= j <= k < s.len() && is_ancestor_or_self(
                    s[i].source,
                    s[k].source,
                ) implies is_ancestor_or_self(s[i].source, s[j].source) by {
                if i == 0 {
                    if j > 0 {
                        assert(s[j] == es[j - 1]);
                    }
                } else {
                    assert(s[i] == es[i - 1]);
                    assert(s[j] == es[j - 1]);
                    assert(s[k] == es[k - 1]);
                }
            }
        },
    }
}

/// The resolution of one directory's well-formed entries: every job lies
/// strictly below `source`, within the subtree of one of the entries;
/// parents precede descendants; subtrees stay contiguous.
pub proof fn lemma_resolve_entries_order(
    source: Seq<Seq<char>>,
    target: Seq<Seq<char>>,
    entries: Seq<DirEntry>,
)
    requires
        entries_wf(entries),
    ensures
        ({
            let s = resolve_entries(source, target, entries);
            &&& forall|k: int|
                0 <= k < s.len() ==> exists|i: int|
                    0 <= i < entries.len() && is_ancestor_or_self(
                        source.push(entries[i].name@),
                        (#[trigger] s[k]).source,
                    )
            &&& all_within(s, source)
            &&& forall|k: int| 0 <= k < s.len() ==> (#[trigger] s[k]).source.len() > source.len()
            &&& parents_first(s)
            &&& subtrees_contiguous(s)
        }),
    decreases entries, 0int,
{
    let s = resolve_entries(source, target, entries);
    if entries.len() == 0 {
    } else {
        let e0 = entries[0];
        let child_src = source.push(e0.name@);
        let child_tgt = target.push(e0.name@);
        let a = resolve_node(child_src, child_tgt, e0.node);
        let rest = entries.drop_first();
        let b = resolve_entries(source, target, rest);
        assert(s == a + b);
        assert(tree_wf(e0.node));
        lemma_resolve_node_order(child_src, child_tgt, e0.node);
        assert(entries_wf(rest)) by {
            assert forall|i: int, j: int| 0 <= i < j < rest.len() implies (
            #[trigger] rest[i]).name@ != (#[trigger] rest[j]).name@ by {
                assert(rest[i] == entries[i + 1]);
                assert(rest[j] == entries[j + 1]);
            }
            assert forall|i: int| 0 <= i < rest.len() implies tree_wf(
                (#[trigger] rest[i]).node,
            ) by {
                assert(rest[i] == entries[i + 1]);
            }
        }
        lemma_resolve_entries_order(source, target, rest);
        assert(is_ancestor_or_self(source, child_src)) by {
            assert(source =~= child_src.subrange(0, source.len() as int));
        }
        // which entry's subtree each job lies in, and the two basic bounds
        assert forall|k: int| 0 <= k < s.len() implies (exists|i: int|
            0 <= i < entries.len() && is_ancestor_or_self(
                source.push(entries[i].name@),
                (#[trigger] s[k]).source,
            )) && is_ancestor_or_self(source, s[k].source) && s[k].source.len()
            > source.len() by {
            if k < a.len() {
                assert(s[k] == a[k]);
                assert(is_ancestor_or_self(child_src, s[k].source));
                lemma_ancestor_transitive(source, child_src, s[k].source);
                assert(s[k].source.len() >= child_src.len());
                assert(0 < entries.len() && is_ancestor_or_self(
                    source.push(entries[0].name@),
                    s[k].source,
                ));
            } else {
                assert(s[k] == b[k - a.len()]);
                let i0 = choose|i: int|
                    0 <= i < rest.len() && is_ancestor_or_self(
                        source.push(rest[i].name@),
                        b[k - a.len()].source,
                    );
                assert(rest[i0] == entries[i0 + 1]);
                assert(0 <= i0 + 1 < entries.len() && is_ancestor_or_self(
                    source.push(entries[i0 + 1].name@),
                    s[k].source,
                ));
            }
        }
        // a job of the first entry's subtree and a job of a later entry's
        // subtree never lie on one path: their sources differ right after
        // `source`
        assert forall|x: int, y: int|
            0 <= x < a.len() && a.len() <= y < s.len() implies !is_ancestor_or_self(
            s[y].source,
            s[x].source,
        ) && !is_ancestor_or_self(s[x].source, s[y].source) by {
            assert(s[x] == a[x]);
            assert(s[y] == b[y - a.len()]);
            let i0 = choose|i: int|
                0 <= i < rest.len() && is_ancestor_or_self(
                    source.push(rest[i].name@),
                    b[y - a.len()].source,
                );
            let yroot = source.push(rest[i0].name@);
            assert(rest[i0] == entries[i0 + 1]);
            assert(entries[i0 + 1].name@ != e0.name@);
            assert(is_ancestor_or_self(child_src, s[x].source));
            assert(is_ancestor_or_self(yroot, s[y].source));
            let m = source.len() as int;
            lemma_ancestor_index(child_src, s[x].source, m);
            lemma_ancestor_index(yroot, s[y].source, m);
            assert(s[x].source[m] == e0.name@);
            assert(s[y].source[m] == rest[i0].name@);
            if is_ancestor_or_self(s[y].source, s[x].source) {
                lemma_ancestor_index(s[y].source, s[x].source, m);
            }
            if is_ancestor_or_self(s[x].source, s[y].source) {
                lemma_ancestor_index(s[x].source, s[y].source, m);
            }
        }
        assert forall|i: int, j: int| 0 <= i < j < s.len() implies !is_ancestor_or_self(
            (#[trigger] s[j]).source,
            (#[trigger] s[i]).source,
        ) by {
            if j < a.len() {
                assert(s[i] == a[i]);
                assert(s[j] == a[j]);
            } else if i >= a.len() {
                assert(s[i] == b[i - a.len()]);
                assert(s[j] == b[j - a.len()]);
            } else {
                assert(!is_ancestor_or_self(s[j].source, s[i].source));
            }
        }
        assert forall|i: int, j: int, k: int|
            #![trigger s[i], s[j], s[k]]
            0 <= i <= j <= k < s.len() && is_ancestor_or_self(
                s[i].source,
                s[k].source,
            ) implies is_ancestor_or_self(s[i].source, s[j].source) by {
            if k < a.len() {
                assert(s[i] == a[i]);
                assert(s[j] == a[j]);
                assert(s[k] == a[k]);
            } else if i >= a.len() {
                assert(s[i] == b[i - a.len()]);
                assert(s[j] == b[j - a.len()]);
                assert(s[k] == b[k - a.len()]);
            } else {
                // the hypothesis contradicts the divergence right after
                // `source`, so this case cannot arise
                assert(!is_ancestor_or_self(s[i].source, s[k].source));
            }
        }
    }
}

/// The full resolution of top-level jobs whose sources are pairwise
/// independent (none lies at or below another, as sources kept by the
/// application are): parents precede descendants, subtrees stay contiguous,
/// and every job lies in some top-level source's subtree.
pub proof fn lemma_resolve_all_order(jobs: Seq<JobView>, trees: Seq<FsNode>)
    requires
        jobs.len() == trees.len(),
        forall|i: int| 0 <= i < trees.len() ==> tree_wf(#[trigger] trees[i]),
        forall|i: int, j: int|
            0 <= i < j < jobs.len() ==> !is_ancestor_or_self(
                (#[trigger] jobs[i]).source,
                (#[trigger] jobs[j]).source,
            ) && !is_ancestor_or_self(jobs[j].source, jobs[i].source),
    ensures
        ({
            let s = resolve_all(jobs, trees);
            &&& forall|k: int|
                0 <= k < s.len() ==> exists|i: int|
                    0 <= i < jobs.len() && is_ancestor_or_self(
                        jobs[i].source,
                        (#[trigger] s[k]).source,
                    )
            &&& parents_first(s)
            &&& subtrees_contiguous(s)
        }),
    decreases jobs.len(),
{
    let s = resolve_all(jobs, trees);
    if jobs.len() == 0 {
    } else {
        let a = resolve_node(jobs[0].source, jobs[0].target, trees[0]);
        let rest_jobs = jobs.drop_first();
        let rest_trees = trees.drop_first();
        let b = resolve_all(rest_jobs, rest_trees);
        assert(s == a + b);
        lemma_resolve_node_order(jobs[0].source, jobs[0].target, trees[0]);
        assert forall|i: int| 0 <= i < rest_trees.len() implies tree_wf(
            #[trigger] rest_trees[i],
        ) by {
            assert(rest_trees[i] == trees[i + 1]);
        }
        assert forall|i: int, j: int| 0 <= i < j < rest_jobs.len() implies !is_ancestor_or_self(
            (#[trigger] rest_jobs[i]).source,
            (#[trigger] rest_jobs[j]).source,
        ) && !is_ancestor_or_self(rest_jobs[j].source, rest_jobs[i].source) by {
            assert(rest_jobs[i] == jobs[i + 1]);
            assert(rest_jobs[j] == jobs[j + 1]);
        }
        lemma_resolve_all_order(rest_jobs, rest_trees);
        // attribution of each job to a top-level source
        assert forall|k: int| 0 <= k < s.len() implies exists|i: int|
            0 <= i < jobs.len() && is_ancestor_or_self(
                jobs[i].source,
                (#[trigger] s[k]).source,
            ) by {
            if k < a.len() {
                assert(s[k] == a[k]);
                assert(is_ancestor_or_self(jobs[0].source, s[k].source));
            } else {
                assert(s[k] == b[k - a.len()]);
                let i0 = choose|i: int|
                    0 <= i < rest_jobs.len() && is_ancestor_or_self(
                        rest_jobs[i].source,
                        b[k - a.len()].source,
                    );
                assert(rest_jobs[i0] == jobs[i0 + 1]);
                assert(0 <= i0 + 1 < jobs.len() && is_ancestor_or_self(
                    jobs[i0 + 1].source,
                    s[k].source,
                ));
            }
        }
        // jobs of distinct top-level sources never lie on one path
        assert forall|x: int, y: int|
            0 <= x < a.len() && a.len() <= y < s.len() implies !is_ancestor_or_self(
            s[y].source,
            s[x].source,
        ) && !is_ancestor_or_self(s[x].source, s[y].source) by {
            assert(s[x] == a[x]);
            assert(s[y] == b[y - a.len()]);
            let i0 = choose|i: int|
                0 <= i < rest_jobs.len() && is_ancestor_or_self(
                    rest_jobs[i].source,
                    b[y - a.len()].source,
                );
            assert(rest_jobs[i0] == jobs[i0 + 1]);
            assert(is_ancestor_or_self(jobs[0].source, s[x].source));
            assert(is_ancestor_or_self(jobs[i0 + 1].source, s[y].source));
            if is_ancestor_or_self(s[y].source, s[x].source) {
                lemma_ancestor_transitive(jobs[i0 + 1].source, s[y].source, s[x].source);
                lemma_ancestor_comparable(jobs[0].source, jobs[i0 + 1].source, s[x].source);
            }
            if is_ancestor_or_self(s[x].source, s[y].source) {
                lemma_ancestor_transitive(jobs[0].source, s[x].source, s[y].source);
                lemma_ancestor_comparable(jobs[0].source, jobs[i0 + 1].source, s[y].source);
            }
        }
        assert forall|i: int, j: int| 0 <= i < j < s.len() implies !is_ancestor_or_self(
            (#[trigger] s[j]).source,
            (#[trigger] s[i]).source,
        ) by {
            if j < a.len() {
                assert(s[i] == a[i]);
                assert(s[j] == a[j]);
            } else if i >= a.len() {
                assert(s[i] == b[i - a.len()]);
                assert(s[j] == b[j - a.len()]);
            } else {
                assert(!is_ancestor_or_self(s[j].source, s[i].source));
            }
        }
        assert forall|i: int, j: int, k: int|
            #![trigger s[i], s[j], s[k]]
            0 <= i <= j <= k < s.len() && is_ancestor_or_self(
                s[i].source,
                s[k].source,
            ) implies is_ancestor_or_self(s[i].source, s[j].source) by {
            if k < a.len() {
                assert(s[i] == a[i]);
                assert(s[j] == a[j]);
                assert(s[k] == a[k]);
            } else if i >= a.len() {
                assert(s[i] == b[i - a.len()]);
                assert(s[j] == b[j - a.len()]);
                assert(s[k] == b[k - a.len()]);
            } else {
                assert(!is_ancestor_or_self(s[i].source, s[k].source));
            }
        }
    }
}

/// Law: a parents-first job list never repeats a job — two equal jobs would
/// trivially lie on one path.  The engine only moves jobs from the pending
/// list to the done list, so once the pending list is some tail of such a
/// resolution, no completed job is ever also pending.
pub proof fn lemma_no_job_repeats(s: Seq<JobView>)
    requires
        parents_first(s),
    ensures
        forall|i: int, j: int| 0 <= i < j < s.len() ==> (#[trigger] s[i]) != (#[trigger] s[j]),
{
    assert forall|i: int, j: int| 0 <= i < j < s.len() implies (#[trigger] s[i]) != (
    #[trigger] s[j]) by {
        if s[i] == s[j] {
            assert(s[j].source =~= s[i].source.subrange(0, s[j].source.len() as int));
            assert(is_ancestor_or_self(s[j].source, s[i].source));
        }
    }
}

/// The relative paths — component lists below the root — of every file in a
/// tree, in listing order.
pub open spec fn tree_files(node: FsNode) -> Seq<Seq<Seq<char>>>
    decreases node, 1int,
{
    match node {
        FsNode::File => seq![Seq::empty()],
        FsNode::Dir(entries) => entries_files(entries@),
    }
}

/// The relative paths of every file below one directory's entries.
pub open spec fn entries_files(entries: Seq<DirEntry>) -> Seq<Seq<Seq<char>>>
    decreases entries, 0int,
{
    if entries.len() == 0 {
        Seq::empty()
    } else {
        tree_files(entries[0].node).map_values(
            |rel: Seq<Seq<char>>| seq![entries[0].name@] + rel,
        ) + entries_files(entries.drop_first())
    }
}

/// The job list `s` holds, for every relative path in `files`, a job from
/// the source plus that path to the target plus that path.
pub open spec fn covers(
    s: Seq<JobView>,
    source: Seq<Seq<char>>,
    target: Seq<Seq<char>>,
    files: Seq<Seq<Seq<char>>>,
) -> bool {
    forall|f: int|
        0 <= f < files.len() ==> s.contains(
            JobView { source: source + #[trigger] files[f], target: target + files[f] },
        )
}

/// Law: resolution misses nothing.  For every file below the source — at any
/// relative path `rel` in the tree — the resolution holds a job whose source
/// is the source plus `rel` and whose target is the target plus `rel`: after
/// a successful run every file under every source has been mirrored to the
/// matching path under the target.
pub proof fn lemma_resolve_covers_files(
    source: Seq<Seq<char>>,
    target: Seq<Seq<char>>,
    node: FsNode,
)
    ensures
        covers(resolve_node(source, target, node), source, target, tree_files(node)),
    decreases node, 1int,
{
    let s = resolve_node(source, target, node);
    let files = tree_files(node);
    match node {
        FsNode::File => {
            assert forall|f: int| 0 <= f < files.len() implies s.contains(
                JobView { source: source + #[trigger] files[f], target: target + files[f] },
            ) by {
                assert(source + files[0] =~= source);
                assert(target + files[0] =~= target);
                assert(s[0] == (JobView {
                    source: source + files[f],
                    target: target + files[f],
                }));
            }
            assert(covers(s, source, target, files));
        },
        FsNode::Dir(entries) => {
            lemma_entries_cover_files(source, target, entries@);
            let es = resolve_entries(source, target, entries@);
            assert forall|f: int| 0 <= f < files.len() implies s.contains(
                JobView { source: source + #[trigger] files[f], target: target + files[f] },
            ) by {
                assert(files[f] == entries_files(entries@)[f]);
                let x = JobView { source: source + files[f], target: target + files[f] };
                assert(es.contains(x));
                let k0 = choose|k: int| 0 <= k < es.len() && es[k] == x;
                assert(s[k0 + 1] == es[k0]);
            }
            assert(covers(s, source, target, files));
        },
    }
}

/// Law: the resolution of one directory's entries holds a job for every file
/// below them, at the matching relative path.
pub proof fn lemma_entries_cover_files(
    source: Seq<Seq<char>>,
    target: Seq<Seq<char>>,
    entries: Seq<DirEntry>,
)
    ensures
        covers(resolve_entries(source, target, entries), source, target, entries_files(entries)),
    decreases entries, 0int,
{
    let s = resolve_entries(source, target, entries);
    let files = entries_files(entries);
    if entries.len() == 0 {
    } else {
        let e0 = entries[0];
        let child_src = source.push(e0.name@);
        let child_tgt = target.push(e0.name@);
        let a = resolve_node(child_src, child_tgt, e0.node);
        let af = tree_files(e0.node).map_values(|rel: Seq<Seq<char>>| seq![e0.name@] + rel);
        let rest = entries.drop_first();
        let b = resolve_entries(source, target, rest);
        let bf = entries_files(rest);
        assert(s == a + b);
        assert(files == af + bf);
        lemma_resolve_covers_files(child_src, child_tgt, e0.node);
        lemma_entries_cover_files(source, target, rest);
        assert forall|f: int| 0 <= f < files.len() implies s.contains(
            JobView { source: source + #[trigger] files[f], target: target + files[f] },
        ) by {
            if f < af.len() {
                let rel = tree_files(e0.node)[f];
                assert(af[f] == seq![e0.name@] + rel);
                let xa = JobView { source: child_src + rel, target: child_tgt + rel };
                assert(a.contains(xa));
                let k0 = choose|k: int| 0 <= k < a.len() && a[k] == xa;
                assert(child_src + rel =~= source + (seq![e0.name@] + rel));
                assert(child_tgt + rel =~= target + (seq![e0.name@] + rel));
                assert(s[k0] == a[k0]);
                assert(s[k0] == (JobView {
                    source: source + files[f],
                    target: target + files[f],
                }));
            } else {
                assert(files[f] == bf[f - af.len()]);
                let x = JobView { source: source + files[f], target: target + files[f] };
                assert(b.contains(x));
                let k0 = choose|k: int| 0 <= k < b.len() && b[k] == x;
                assert(s[a.len() + k0] == b[k0]);
            }
        }
        assert(covers(s, source, target, files));
    }
}

/// Law: in a contiguous, parents-first resolution, a consecutive run of jobs
/// whose neighbors pass the conflict check — no job's source at or below the
/// job before it — is pairwise independent: no two of its jobs lie on one
/// path, so none of them writes below a directory another is creating.
pub proof fn lemma_batch_independent(s: Seq<JobView>, lo: int, hi: int)
    requires
        subtrees_contiguous(s),
        parents_first(s),
        0 <= lo <= hi <= s.len(),
        forall|m: int|
            lo <= m < hi - 1 ==> !is_ancestor_or_self((#[trigger] s[m]).source, s[m + 1].source),
    ensures
        forall|x: int, y: int|
            lo <= x < y < hi ==> !is_ancestor_or_self(
                (#[trigger] s[x]).source,
                (#[trigger] s[y]).source,
            ) && !is_ancestor_or_self(s[y].source, s[x].source),
{
    assert forall|x: int, y: int| lo <= x < y < hi implies !is_ancestor_or_self(
        (#[trigger] s[x]).source,
        (#[trigger] s[y]).source,
    ) && !is_ancestor_or_self(s[y].source, s[x].source) by {
        if is_ancestor_or_self(s[x].source, s[y].source) {
            assert(s[x + 1] == s[x + 1]);
            assert(is_ancestor_or_self(s[x].source, s[x + 1].source));
        }
        assert(!is_ancestor_or_self(s[y].source, s[x].source));
    }
}

/// Appends to `todo` the resolution of `job` against the tree `node`: the
/// job itself first, then, for a directory, the jobs of every entry below it.
fn resolve_tree_into(todo: &mut Vec<Job>, job: &Job, node: &FsNode)
    ensures
        final(todo).deep_view() == old(todo).deep_view() + resolve_node(
            job@.source,
            job@.target,
            *node,
        ),
    decreases *node, 1int,
{
    match node {
        FsNode::File => {
            todo.push(job.clone());
            proof {
                assert(final(todo).deep_view() =~= old(todo).deep_view() + resolve_node(
                    job@.source,
                    job@.target,
                    *node,
                ));
            }
        },
        FsNode::Dir(entries) => {
            resolve_dir_into(todo, job, entries);
        },
    }
}

/// Appends to `todo` the job for the directory `job` itself, then the
/// resolution of each of its `entries` in listing order.
fn resolve_dir_into(todo: &mut Vec<Job>, job: &Job, entries: &Vec<DirEntry>)
    ensures
        final(todo).deep_view() == old(todo).deep_view() + seq![job@] + resolve_entries(
            job@.source,
            job@.target,
            entries@,
        ),
    decreases entries@, 0int,
{
    todo.push(job.clone());
    let ghost base = old(todo).deep_view() + seq![job@];
    proof {
        assert(todo.deep_view() =~= base);
    }
    let mut i: usize = 0;
    while i < entries.len()
        invariant
            i <= entries@.len(),
            todo.deep_view() == base + resolve_entries(job@.source, job@.target, entries@.take(
                i as int,
            )),
        decreases entries@.len() - i,
    {
        let entry = &entries[i];
        let child = Job {
            source: job.source.join(&entry.name),
            target: job.target.join(&entry.name),
        };
        proof {
            assert(child@.source == job@.source.push(entry.name@));
            assert(child@.target == job@.target.push(entry.name@));
        }
        resolve_tree_into(todo, &child, &entry.node);
        proof {
            lemma_resolve_entries_snoc(
                job@.source,
                job@.target,
                entries@.take(i as int),
                entries@[i as int],
            );
            assert(entries@.take(i + 1) =~= entries@.take(i as int).push(entries@[i as int]));
            assert(todo.deep_view() =~= base + resolve_entries(
                job@.source,
                job@.target,
                entries@.take(i + 1),
            ));
        }
        i = i + 1;
    }
    proof {
        assert(entries@.take(entries@.len() as int) =~= entries@);
    }
}

/// Expands every initial job against its tree, in order, and returns the full
/// job list reversed, ready for pop-from-the-end scheduling.
pub fn resolve_jobs(initial: Vec<Job>, trees: &Vec<FsNode>) -> (r: Vec<Job>)
    requires
        trees@.len() == initial@.len(),
    ensures
        r.deep_view() == resolve_all(initial.deep_view(), trees@).reverse(),
{
    let mut expanded: Vec<Job> = Vec::new();
    let mut i: usize = 0;
    while i < initial.len()
        invariant
            i <= initial@.len(),
            trees@.len() == initial@.len(),
            expanded.deep_view() == resolve_all(
                initial.deep_view().take(i as int),
                trees@.take(i as int),
            ),
        decreases initial@.len() - i,
    {
        resolve_tree_into(&mut expanded, &initial[i], &trees[i]);
        proof {
            lemma_resolve_all_snoc(
                initial.deep_view().take(i as int),
                trees@.take(i as int),
                initial@[i as int]@,
                trees@[i as int],
            );
            assert(initial.deep_view().take(i + 1) =~= initial.deep_view().take(i as int).push(
                initial@[i as int]@,
            ));
            assert(trees@.take(i + 1) =~= trees@.take(i as int).push(trees@[i as int]));
        }
        i = i + 1;
    }
    proof {
        assert(initial.deep_view().take(initial@.len() as int) =~= initial.deep_view());
        assert(trees@.take(trees@.len() as int) =~= trees@);
    }
    reversed_jobs(expanded)
}

/// Reverses a job list.
fn reversed_jobs(v: Vec<Job>) -> (r: Vec<Job>)
    ensures
        r.deep_view() == v.deep_view().reverse(),
{
    let ghost orig = v@;
    let mut rest = v;
    let mut r: Vec<Job> = Vec::new();
    loop
        invariant
            rest@ == orig.take(rest@.len() as int),
            r@.len() + rest@.len() == orig.len(),
            forall|k: int| 0 <= k < r@.len() ==> r@[k] == orig[orig.len() - 1 - k],
        ensures
            rest@.len() == 0,
        decreases rest@.len(),
    {
        let ghost n = rest@.len() as int;
        match rest.pop() {
            Some(job) => {
                proof {
                    assert(rest@ =~= orig.take(n - 1));
                    assert(job == orig[n - 1]);
                }
                r.push(job);
            },
            None => {
                break ;
            },
        }
    }
    proof {
        assert forall|k: int| 0 <= k < r@.len() implies r.deep_view()[k] == v.deep_view().reverse()[
            k
        ] by {
            assert(r@[k] == orig[orig.len() - 1 - k]);
        }
        assert(r.deep_view() =~= v.deep_view().reverse());
    }
    r
}

} // verus!
