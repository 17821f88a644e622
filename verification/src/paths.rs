//! Absolute filesystem paths, modeled as a sequence of path components.
//!
//! The engine never parses or prints operating-system path syntax; a path is a
//! list of component strings (for `/a/b.txt`, the components `a` and `b.txt`).
//! The view of a path is the sequence of its components' character sequences,
//! so that prefix ("is inside") relationships and child paths have exact
//! specifications.

use vstd::prelude::*;
use vstd::string::StringExecFns;

verus! {

/// An absolute path, stored as its list of components from the root.
#[derive(Debug)]
pub struct SyncPath {
    components: Vec<String>,
}

impl View for SyncPath {
    type V = Seq<Seq<char>>;

    closed spec fn view(&self) -> Seq<Seq<char>> {
        self.components.deep_view()
    }
}

impl DeepView for SyncPath {
    type V = Seq<Seq<char>>;

    open spec fn deep_view(&self) -> Seq<Seq<char>> {
        self@
    }
}

/// Holds when `anc` is `p` itself or an ancestor of `p`: every component of
/// `anc` is matched, in order, at the start of `p`.
pub open spec fn is_ancestor_or_self(anc: Seq<Seq<char>>, p: Seq<Seq<char>>) -> bool {
    anc.is_prefix_of(p)
}

impl SyncPath {
    /// Builds a path from its components, root first.
    pub fn new(components: Vec<String>) -> (p: SyncPath)
        ensures
            p@ == components.deep_view(),
    {
        SyncPath { components }
    }

    /// The last component, if any: the file or directory name the path ends in.
    pub fn file_name(&self) -> (r: Option<&String>)
        ensures
            match r {
                Some(name) => self@.len() > 0 && name@ == self@.last(),
                None => self@.len() == 0,
            },
    {
        if self.components.len() == 0 {
            None
        } else {
            Some(&self.components[self.components.len() - 1])
        }
    }

    /// The child path reached by appending one component.
    pub fn join(&self, name: &String) -> (p: SyncPath)
        ensures
            p@ == self@.push(name@),
    {
        let mut components = self.components.clone();
        components.push(name.clone());
        let p = SyncPath { components };
        proof {
            assert(p@ =~= self@.push(name@));
        }
        p
    }

    /// Whether `other` is this path or one of its ancestors.
    pub fn starts_with(&self, other: &SyncPath) -> (r: bool)
        ensures
            r == is_ancestor_or_self(other@, self@),
    {
        if other.components.len() > self.components.len() {
            return false;
        }
        let mut i: usize = 0;
        while i < other.components.len()
            invariant
                i <= other.components.len() <= self.components.len(),
                forall|j: int| 0 <= j < i ==> self@[j] == other@[j],
            decreases other.components.len() - i,
        {
            if !string_eq(&self.components[i], &other.components[i]) {
                proof {
                    assert(!other@.is_prefix_of(self@)) by {
                        assert(self@[i as int] != other@[i as int]);
                    }
                }
                return false;
            }
            i = i + 1;
        }
        proof {
            assert(other@ =~= self@.subrange(0, other@.len() as int));
        }
        true
    }
}

/// An ancestor path agrees with its descendant on every component it has.
pub proof fn lemma_ancestor_index(p: Seq<Seq<char>>, q: Seq<Seq<char>>, m: int)
    requires
        is_ancestor_or_self(p, q),
        0 <= m < p.len(),
    ensures
        p[m] == q[m],
{
    assert(p =~= q.subrange(0, p.len() as int));
}

/// The ancestor relation is transitive.
pub proof fn lemma_ancestor_transitive(a: Seq<Seq<char>>, b: Seq<Seq<char>>, c: Seq<Seq<char>>)
    requires
        is_ancestor_or_self(a, b),
        is_ancestor_or_self(b, c),
    ensures
        is_ancestor_or_self(a, c),
{
    assert forall|m: int| 0 <= m < a.len() implies a[m] == c.subrange(0, a.len() as int)[m] by {
        lemma_ancestor_index(a, b, m);
        lemma_ancestor_index(b, c, m);
    }
    assert(a =~= c.subrange(0, a.len() as int));
}

/// Two ancestors of one path are comparable: one lies at or above the other.
pub proof fn lemma_ancestor_comparable(p: Seq<Seq<char>>, q: Seq<Seq<char>>, r: Seq<Seq<char>>)
    requires
        is_ancestor_or_self(p, r),
        is_ancestor_or_self(q, r),
    ensures
        is_ancestor_or_self(p, q) || is_ancestor_or_self(q, p),
{
    if p.len() <= q.len() {
        assert forall|m: int| 0 <= m < p.len() implies p[m] == q.subrange(0, p.len() as int)[m] by {
            lemma_ancestor_index(p, r, m);
            lemma_ancestor_index(q, r, m);
        }
        assert(p =~= q.subrange(0, p.len() as int));
    } else {
        assert forall|m: int| 0 <= m < q.len() implies q[m] == p.subrange(0, q.len() as int)[m] by {
            lemma_ancestor_index(p, r, m);
            lemma_ancestor_index(q, r, m);
        }
        assert(q =~= p.subrange(0, q.len() as int));
    }
}

/// The display form of an absolute path: a separator before each component,
/// root first (`/a/b.txt` for the components `a` and `b.txt`).
pub open spec fn path_display(p: Seq<Seq<char>>) -> Seq<char>
    decreases p.len(),
{
    if p.len() == 0 {
        Seq::empty()
    } else {
        path_display(p.drop_last()) + seq!['/'] + p.last()
    }
}

impl SyncPath {
    /// Renders the path in its display form.
    pub fn to_display_string(&self) -> (r: String)
        ensures
            r@ == path_display(self@),
    {
        let mut s = String::new();
        let mut i: usize = 0;
        while i < self.components.len()
            invariant
                i <= self@.len(),
                s@ == path_display(self@.take(i as int)),
            decreases self@.len() - i,
        {
            s.append("/");
            proof {
                reveal_strlit("/");
                assert(("/")@ =~= seq!['/']);
            }
            s.append(self.components[i].as_str());
            proof {
                assert(self@.take(i + 1).drop_last() =~= self@.take(i as int));
                assert(self@.take(i + 1).last() == self@[i as int]);
                assert(s@ =~= path_display(self@.take(i + 1)));
            }
            i = i + 1;
        }
        proof {
            assert(self@.take(self@.len() as int) =~= self@);
        }
        s
    }
}

impl Clone for SyncPath {
    fn clone(&self) -> (r: Self)
        ensures
            r@ == self@,
    {
        broadcast use vstd::std_specs::vec::vec_clone_deep_view_proof;

        SyncPath { components: self.components.clone() }
    }
}

impl PartialEq for SyncPath {
    fn eq(&self, other: &SyncPath) -> (r: bool) {
        let forward = self.starts_with(other);
        let backward = other.starts_with(self);
        proof {
            if forward && backward {
                assert(self@ =~= other@);
            }
        }
        forward && backward
    }
}

impl vstd::std_specs::cmp::PartialEqSpecImpl for SyncPath {
    open spec fn obeys_eq_spec() -> bool {
        true
    }

    open spec fn eq_spec(&self, other: &SyncPath) -> bool {
        self@ == other@
    }
}

/// Component-wise string equality, with the exact meaning exposed.
fn string_eq(a: &String, b: &String) -> (r: bool)
    ensures
        r == (a@ == b@),
{
    a.eq(b)
}

} // verus!
