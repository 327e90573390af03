//! The file collector: which files under a root are scannable.
//!
//! The rules run over a model of the directory tree.  Any entry below the
//! root whose name starts with a dot or matches the fixed exclusion set is
//! skipped, subtrees included; the root itself is always traversed, whatever
//! its name.  Only regular files of at least 64 bytes are collected.

use vstd::prelude::*;
use crate::text::str_is;

verus! {

/// A directory tree as the scanner sees it: regular files with their full
/// path and size, and directories with their entries.  Symlinks and special
/// files are not represented.
pub enum FsTree {
    File { name: String, path: String, size: u64 },
    Dir { name: String, entries: Vec<FsTree> },
}

/// The name of a tree node.
pub open spec fn node_name(t: FsTree) -> Seq<char> {
    match t {
        FsTree::File { name, .. } => name@,
        FsTree::Dir { name, .. } => name@,
    }
}

/// Names that are never descended into below the root: hidden entries and
/// the fixed set of version-control, dependency-cache and virtual-environment
/// directories.
pub open spec fn excluded_name(name: Seq<char>) -> bool {
    ||| (name.len() > 0 && name[0] == '.')
    ||| name == ".git"@
    ||| name == "node_modules"@
    ||| name == "__pycache__"@
    ||| name == ".cache"@
    ||| name == ".venv"@
    ||| name == "venv"@
}

/// Whether a directory-entry name is excluded from traversal.
pub fn is_excluded_name(name: &String) -> (r: bool)
    ensures
        r == excluded_name(name@),
{
    let dotted: bool = name.as_str().unicode_len() > 0 && name.as_str().get_char(0) == '.';
    dotted || str_is(name, ".git") || str_is(name, "node_modules") || str_is(
        name,
        "__pycache__",
    ) || str_is(name, ".cache") || str_is(name, ".venv") || str_is(name, "venv")
}

/// The files collected from one node.  `inside` is false only for the root,
/// whose own name is never tested.
pub open spec fn collect_spec(t: FsTree, inside: bool) -> Seq<(Seq<char>, u64)>
    decreases t,
{
    match t {
        FsTree::File { name, path, size } => {
            if (inside && excluded_name(name@)) || size < 64 {
                Seq::empty()
            } else {
                seq![(path@, size)]
            }
        },
        FsTree::Dir { name, entries } => {
            if inside && excluded_name(name@) {
                Seq::empty()
            } else {
                collect_entries(entries@, true)
            }
        },
    }
}

/// The files collected from a directory's entries, in order.
pub open spec fn collect_entries(es: Seq<FsTree>, inside: bool) -> Seq<(Seq<char>, u64)>
    decreases es,
{
    if es.len() == 0 {
        Seq::empty()
    } else {
        collect_entries(es.drop_last(), inside) + collect_spec(es.last(), inside)
    }
}

/// One collected file.
pub struct FileEntry {
    pub path: String,
    pub size: u64,
}

/// The (path, size) pairs of a list of collected files.
pub open spec fn files_view(s: Seq<FileEntry>) -> Seq<(Seq<char>, u64)>
    decreases s.len(),
{
    if s.len() == 0 {
        Seq::empty()
    } else {
        files_view(s.drop_last()) + seq![(s.last().path@, s.last().size)]
    }
}

fn collect_into(t: &FsTree, inside: bool, out: &mut Vec<FileEntry>)
    ensures
        files_view(final(out)@) == files_view(old(out)@) + collect_spec(*t, inside),
    decreases *t,
{
    match t {
        FsTree::File { name, path, size } => {
            let skip: bool = (inside && is_excluded_name(name)) || *size < 64;
            if !skip {
                let entry = FileEntry { path: path.clone(), size: *size };
                proof {
                    assert(out@.push(entry).drop_last() =~= out@);
                }
                out.push(entry);
                proof {
                    assert(files_view(out@) =~= files_view(old(out)@) + collect_spec(
                        *t,
                        inside,
                    ));
                }
            } else {
                proof {
                    assert(files_view(out@) =~= files_view(old(out)@) + collect_spec(
                        *t,
                        inside,
                    ));
                }
            }
        },
        FsTree::Dir { name, entries } => {
            if inside && is_excluded_name(name) {
                proof {
                    assert(files_view(out@) =~= files_view(old(out)@) + collect_spec(
                        *t,
                        inside,
                    ));
                }
            } else {
                let m: usize = entries.len();
                let mut j: usize = 0;
                while j < m
                    invariant
                        j <= m,
                        m == entries@.len(),
                        *t == (FsTree::Dir { name: *name, entries: *entries }),
                        files_view(out@) == files_view(old(out)@) + collect_entries(
                            entries@.take(j as int),
                            true,
                        ),
                    decreases m - j,
                {
                    proof {
                        broadcast use vstd::std_specs::vec::group_vec_axioms;

                        assert(entries@.take((j + 1) as int).drop_last() =~= entries@.take(
                            j as int,
                        ));
                        assert(entries@.take((j + 1) as int).last() == entries@[j as int]);
                        assert(decreases_to!(*t => t->entries));
                        assert(decreases_to!(t->entries => t->entries@));
                        assert(decreases_to!(t->entries@ => t->entries@[j as int]));
                        assert(decreases_to!(*t => entries@[j as int]));
                    }
                    collect_into(&entries[j], true, out);
                    j = j + 1;
                }
                proof {
                    assert(entries@.take(m as int) =~= entries@);
                    assert(files_view(out@) =~= files_view(old(out)@) + collect_spec(
                        *t,
                        inside,
                    ));
                }
            }
        },
    }
}

/// Collect the scannable files under `tree`: walk the whole tree, skip
/// excluded entries below the root along with their subtrees, and keep the
/// regular files of at least 64 bytes, with their paths and sizes.
pub fn collect_files(tree: &FsTree) -> (r: Vec<FileEntry>)
    ensures
        files_view(r@) == collect_spec(*tree, false),
{
    let mut out: Vec<FileEntry> = Vec::new();
    proof {
        assert(files_view(out@) =~= Seq::<(Seq<char>, u64)>::empty());
    }
    collect_into(tree, false, &mut out);
    out
}

/// Below the root, an excluded entry contributes nothing at all: no file of
/// its subtree is ever collected.
pub proof fn lemma_excluded_subtree_empty(t: FsTree)
    requires
        excluded_name(node_name(t)),
    ensures
        collect_spec(t, true) == Seq::<(Seq<char>, u64)>::empty(),
{
}

/// Removing an excluded-named child from a directory's entries leaves the
/// collection unchanged: nothing under such an entry is in the output set.
pub proof fn lemma_collect_skips_excluded(es: Seq<FsTree>, j: int)
    requires
        0 <= j < es.len(),
        excluded_name(node_name(es[j])),
    ensures
        collect_entries(es, true) == collect_entries(es.remove(j), true),
    decreases es.len(),
{
    if j == es.len() - 1 {
        assert(es.remove(j) =~= es.drop_last());
        lemma_excluded_subtree_empty(es.last());
        assert(collect_entries(es, true) =~= collect_entries(es.drop_last(), true));
    } else {
        assert(es.remove(j).drop_last() =~= es.drop_last().remove(j));
        assert(es.remove(j).last() == es.last());
        assert(es.drop_last()[j] == es[j]);
        lemma_collect_skips_excluded(es.drop_last(), j);
    }
}

/// The root is always traversed, whatever its own name: a root directory's
/// collection does not depend on the name.
pub proof fn lemma_root_dir_name_ignored(n1: String, n2: String, entries: Vec<FsTree>)
    ensures
        collect_spec(FsTree::Dir { name: n1, entries }, false) == collect_spec(
            FsTree::Dir { name: n2, entries },
            false,
        ),
{
}

/// A root that is itself a file is collected whenever it is large enough,
/// even under an excluded name.
pub proof fn lemma_root_file_name_ignored(name: String, path: String, size: u64)
    ensures
        collect_spec(FsTree::File { name, path, size }, false) == if size < 64 {
            Seq::<(Seq<char>, u64)>::empty()
        } else {
            seq![(path@, size)]
        },
{
}

} // verus!
