//! A project with changes: a repository root and the files its diff touches.

use vstd::prelude::*;

use std::path::PathBuf;

use crate::diffmodel::{
    file_stats, files_view, hunks_count, lemma_hunks_count_bound, total_lines, FileDiff,
    FileDiffV, LineKind,
};

verus! {

/// `std::path::PathBuf`, held opaque: a project's root is carried along and only ever
/// compared with another root.
#[verifier::external_type_specification]
#[verifier::external_body]
pub struct ExPathBuf(PathBuf);

/// Whether two roots are the same path, as `PathBuf`'s `==` compares them (component by
/// component).
pub uninterp spec fn same_root(a: PathBuf, b: PathBuf) -> bool;

/// `PathBuf`'s `==`: whether two paths are the same, component by component; its answer
/// is named `same_root`.
#[verifier::external_body]
pub(crate) fn same_path(a: &PathBuf, b: &PathBuf) -> (r: bool)
    ensures
        r == same_root(*a, *b),
{
    a == b
}

pub struct Project {
    pub name: String,
    pub root: PathBuf,
    pub files: Vec<FileDiff>,
}

/// The project named `name` at `root` with the files of its diff; `None` when the diff
/// has no files, as there is nothing to show then.
pub fn project_from_files(name: String, root: PathBuf, files: Vec<FileDiff>) -> (p: Option<
    Project,
>)
    ensures
        p is None <==> files@.len() == 0,
        p matches Some(pr) ==> pr.name == name && pr.root == root && pr.files == files,
{
    if files.len() == 0 {
        return None;
    }
    Some(Project { name, root, files })
}


/// The lines over all of `fs`.
pub open spec fn files_total_lines(fs: Seq<FileDiffV>) -> nat
    decreases fs.len(),
{
    if fs.len() == 0 {
        0
    } else {
        files_total_lines(fs.drop_last()) + total_lines(fs.last().hunks)
    }
}

/// The lines of kind `k` over all of `fs`.
pub open spec fn files_count(fs: Seq<FileDiffV>, k: LineKind) -> nat
    decreases fs.len(),
{
    if fs.len() == 0 {
        0
    } else {
        files_count(fs.drop_last(), k) + hunks_count(fs.last().hunks, k)
    }
}

proof fn lemma_files_prefix(fs: Seq<FileDiffV>, i: int)
    requires
        0 <= i <= fs.len(),
    ensures
        files_total_lines(fs.take(i)) <= files_total_lines(fs),
        i < fs.len() ==> files_total_lines(fs.take(i)) + total_lines(fs[i].hunks)
            <= files_total_lines(fs),
    decreases fs.len(),
{
    if i < fs.len() {
        assert(fs.drop_last().take(i) == fs.take(i));
        if i < fs.len() - 1 {
            lemma_files_prefix(fs.drop_last(), i);
            assert(fs.drop_last()[i] == fs[i]);
        } else {
            assert(fs.drop_last() == fs.take(i));
        }
    } else {
        assert(fs.take(i) == fs);
    }
}

proof fn lemma_files_count_bound(fs: Seq<FileDiffV>, k: LineKind)
    ensures
        files_count(fs, k) <= files_total_lines(fs),
    decreases fs.len(),
{
    if fs.len() > 0 {
        lemma_files_count_bound(fs.drop_last(), k);
        lemma_hunks_count_bound(fs.last().hunks, k);
    }
}

/// A project's `(files, added, removed)` counts: how many files its diff touches, and
/// how many lines it adds and removes over all of them.
pub fn project_stats(p: &Project) -> (r: (usize, usize, usize))
    requires
        files_total_lines(files_view(p.files@)) <= usize::MAX,
    ensures
        r.0 == p.files@.len(),
        r.1 == files_count(files_view(p.files@), LineKind::Added),
        r.2 == files_count(files_view(p.files@), LineKind::Removed),
{
    let ghost fs = files_view(p.files@);
    let mut added: usize = 0;
    let mut removed: usize = 0;
    let mut i: usize = 0;
    while i < p.files.len()
        invariant
            fs == files_view(p.files@),
            files_total_lines(fs) <= usize::MAX,
            i <= fs.len(),
            added == files_count(fs.take(i as int), LineKind::Added),
            removed == files_count(fs.take(i as int), LineKind::Removed),
        decreases fs.len() - i,
    {
        proof {
            assert(fs.take(i + 1).drop_last() == fs.take(i as int));
            assert(fs.take(i + 1).last() == fs[i as int]);
            lemma_files_prefix(fs, i as int);
            lemma_files_prefix(fs, i + 1);
            lemma_files_count_bound(fs.take(i + 1), LineKind::Added);
            lemma_files_count_bound(fs.take(i + 1), LineKind::Removed);
            assert(fs[i as int] == p.files@[i as int]@);
        }
        let (a, r) = file_stats(&p.files[i]);
        added = added + a;
        removed = removed + r;
        i = i + 1;
    }
    assert(fs.take(i as int) == fs);
    (p.files.len(), added, removed)
}

} // verus!
