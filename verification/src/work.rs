//! Decisions for carrying out a single job.
//!
//! The caller probes the disk (does the target exist, what are the
//! permissions and lengths, what bytes do the files hold) and asks the engine
//! what to do; the engine answers with an exact plan.  Content is rewritten
//! only when it differs, so an unchanged tree incurs no content write.

use vstd::prelude::*;

verus! {

/// What to do for a job whose source is a directory.
#[derive(Debug, Clone, Copy, PartialEq, Eq, Structural)]
pub enum DirAction {
    /// The target directory is missing: create it.
    CreateDir,
    /// The target directory already exists: nothing to do.
    KeepDir,
}

/// The steps to apply to an existing target file, in order: make it
/// writable, fix its permissions, fix its length, and finally rewrite its
/// content — each only when needed.
pub struct FileWorkPlan {
    pub make_writable: bool,
    pub set_permissions: bool,
    pub set_length: bool,
    pub write_content: bool,
}

/// Plans the work for a directory job: create the target directory exactly
/// when it does not already exist.
pub fn plan_dir_work(target_is_dir: bool) -> (a: DirAction)
    ensures
        a == (if target_is_dir {
            DirAction::KeepDir
        } else {
            DirAction::CreateDir
        }),
{
    if target_is_dir {
        DirAction::KeepDir
    } else {
        DirAction::CreateDir
    }
}

/// Plans the update of an existing target file from its source.  The caller
/// reports what it observed: whether the target is read-only, whether the two
/// permission sets are equal, both byte lengths, and both contents as read.
/// Content is rewritten exactly when the bytes differ.
pub fn plan_file_work(
    target_readonly: bool,
    permissions_equal: bool,
    source_len: u64,
    target_len: u64,
    source_content: &Vec<u8>,
    target_content: &Vec<u8>,
) -> (p: FileWorkPlan)
    ensures
        p.make_writable == target_readonly,
        p.set_permissions == !permissions_equal,
        p.set_length == (source_len != target_len),
        p.write_content == (source_content@ != target_content@),
        // a target already identical to its source is left entirely alone
        !target_readonly && permissions_equal && source_len == target_len && source_content@
            == target_content@ ==> !p.make_writable && !p.set_permissions && !p.set_length
            && !p.write_content,
{
    FileWorkPlan {
        make_writable: target_readonly,
        set_permissions: !permissions_equal,
        set_length: source_len != target_len,
        write_content: !files_are_equal(source_content, target_content),
    }
}

/// Law: carrying a file plan out leaves the target's bytes equal to the
/// source's.  The plan rewrites the content exactly when the bytes differ,
/// so what the target holds afterwards — the source's bytes if written, its
/// own old bytes otherwise — is the source's content either way.
pub proof fn lemma_plan_reaches_source_content(
    p: FileWorkPlan,
    source_content: Seq<u8>,
    target_content: Seq<u8>,
)
    requires
        p.write_content == (source_content != target_content),
    ensures
        (if p.write_content {
            source_content
        } else {
            target_content
        }) == source_content,
{
}

/// Byte-for-byte equality of two file contents.
pub fn files_are_equal(source_file: &Vec<u8>, target_file: &Vec<u8>) -> (r: bool)
    ensures
        r == (source_file@ == target_file@),
{
    if source_file.len() != target_file.len() {
        return false;
    }
    let mut i: usize = 0;
    while i < source_file.len()
        invariant
            i <= source_file@.len(),
            source_file@.len() == target_file@.len(),
            forall|j: int| 0 <= j < i ==> source_file@[j] == target_file@[j],
        decreases source_file@.len() - i,
    {
        if source_file[i] != target_file[i] {
            return false;
        }
        i = i + 1;
    }
    proof {
        assert(source_file@ =~= target_file@);
    }
    true
}

} // verus!
