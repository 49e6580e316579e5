//! Assembly of a file tree from the raw rows of a directory walk.
//! The shell only visits paths and reads listings; everything the
//! walk decides — that the root is listed as a directory whatever it
//! is, that a failed directory read yields an empty child list, that
//! a directory gets exactly one child per entry in listing order —
//! is taken here, and `tree_matches` states it.

use crate::paths::{file_name, file_name_spec, join_path, join_spec};
use crate::tree::FileNode;
use vstd::prelude::*;

verus! {

/// One row of a raw walk: the path visited, whether the filesystem
/// reported a directory, and for a readable directory the entry
/// names in the order read (`None`: not a directory, or the read
/// failed).
pub struct RawListing {
    pub path: String,
    pub is_dir: bool,
    pub entries: Option<Vec<String>>,
}

/// The first row recorded for `path`, if any.
pub open spec fn find_row(rows: Seq<RawListing>, path: Seq<char>) -> Option<RawListing>
    decreases rows.len(),
{
    if rows.len() == 0 {
        None
    } else if rows.first().path@ == path {
        Some(rows.first())
    } else {
        find_row(rows.drop_first(), path)
    }
}

/// The entry names the walk read at `path`: `None` when the path was
/// not visited, is no directory, or its read failed.
pub open spec fn listed_entries(rows: Seq<RawListing>, path: Seq<char>) -> Option<Vec<String>> {
    match find_row(rows, path) {
        Some(r) => r.entries,
        None => None,
    }
}

/// Whether the walk recorded `path` as a directory.
pub open spec fn listed_as_dir(rows: Seq<RawListing>, path: Seq<char>) -> bool {
    match find_row(rows, path) {
        Some(r) => r.is_dir,
        None => false,
    }
}

/// A row read from a real directory listing never holds an empty
/// entry name.
pub open spec fn listing_wf(r: RawListing) -> bool {
    match r.entries {
        Some(es) => forall|m: int| 0 <= m < es@.len() ==> (#[trigger] es@[m])@.len() > 0,
        None => true,
    }
}

/// Every row of the snapshot is a well-formed listing.
pub open spec fn rows_wf(rows: Seq<RawListing>) -> bool {
    forall|k: int| 0 <= k < rows.len() ==> listing_wf(#[trigger] rows[k])
}

/// The node's subtree renders the snapshot: a directory node whose
/// path has a row with readable entries carries exactly one child
/// per entry name, in listing order; any other node carries none.
pub open spec fn tree_matches(n: FileNode, rows: Seq<RawListing>) -> bool
    decreases n, 2int, 0int,
{
    match listed_entries(rows, n.path@) {
        Some(names) => {
            if n.is_dir {
                n.children@.len() == names@.len() && tree_children_match_from(n, names, rows, 0)
            } else {
                n.children@.len() == 0
            }
        },
        None => n.children@.len() == 0,
    }
}

/// Every child of `n` at position `i` or later renders its entry.
pub open spec fn tree_children_match_from(
    n: FileNode,
    names: Vec<String>,
    rows: Seq<RawListing>,
    i: int,
) -> bool
    decreases n, 0int, n.children@.len() - i,
{
    if 0 <= i < n.children@.len() {
        &&& (i < names@.len() ==> entry_child_ok(n.children@[i], n.path@, names@[i], rows))
        &&& tree_children_match_from(n, names, rows, i + 1)
    } else {
        true
    }
}

/// The child standing for entry `name` of the directory at
/// `dir_path`: named after the entry, at the joined path, a
/// directory exactly as its own row says, and itself rendering the
/// snapshot.
pub open spec fn entry_child_ok(
    c: FileNode,
    dir_path: Seq<char>,
    name: String,
    rows: Seq<RawListing>,
) -> bool
    decreases c, 3int, 0int,
{
    &&& c.name@ == name@
    &&& c.path@ == join_spec(dir_path, name@)
    &&& c.is_dir == listed_as_dir(rows, c.path@)
    &&& tree_matches(c, rows)
}

/// How many rows record a path of at least `n` characters; the walk
/// recurses only into strictly longer paths, so this bounds it.
spec fn rows_at_least(rows: Seq<RawListing>, n: nat) -> nat
    decreases rows.len(),
{
    if rows.len() == 0 {
        0
    } else {
        rows_at_least(rows.drop_last(), n) + if rows.last().path@.len() >= n {
            1nat
        } else {
            0nat
        }
    }
}

proof fn lemma_rows_at_least_mono(rows: Seq<RawListing>, a: nat, b: nat)
    requires
        a <= b,
    ensures
        rows_at_least(rows, b) <= rows_at_least(rows, a),
    decreases rows.len(),
{
    if rows.len() > 0 {
        lemma_rows_at_least_mono(rows.drop_last(), a, b);
    }
}

proof fn lemma_rows_at_least_strict(rows: Seq<RawListing>, k: int, b: nat)
    requires
        0 <= k < rows.len(),
        rows[k].path@.len() < b,
    ensures
        rows_at_least(rows, b) < rows_at_least(rows, rows[k].path@.len() as nat),
    decreases rows.len(),
{
    let a = rows[k].path@.len() as nat;
    if k == rows.len() - 1 {
        lemma_rows_at_least_mono(rows.drop_last(), a, b);
    } else {
        lemma_rows_at_least_strict(rows.drop_last(), k, b);
    }
}

proof fn lemma_entry_nonempty(r: RawListing, names: Vec<String>, m: int)
    requires
        listing_wf(r),
        r.entries == Some(names),
        0 <= m < names@.len(),
    ensures
        names@[m]@.len() > 0,
{
    match r.entries {
        Some(es) => {
            assert(es == names);
            assert(es@[m]@.len() > 0);
        },
        None => {},
    }
}

proof fn lemma_find_row_skip(rows: Seq<RawListing>, path: Seq<char>, i: int)
    requires
        0 <= i <= rows.len(),
        forall|j: int| 0 <= j < i ==> rows[j].path@ != path,
    ensures
        find_row(rows, path) == find_row(rows.skip(i), path),
    decreases i,
{
    if i == 0 {
        assert(rows.skip(0) =~= rows);
    } else {
        lemma_find_row_skip(rows, path, i - 1);
        assert(rows.skip(i - 1).first() == rows[i - 1]);
        assert(rows.skip(i - 1).drop_first() =~= rows.skip(i));
    }
}

/// The index of the first row recorded for `path`, if any.
fn find_row_index(rows: &Vec<RawListing>, path: &String) -> (r: Option<usize>)
    ensures
        r is None ==> find_row(rows@, path@) is None,
        r matches Some(k) ==> k < rows@.len() && rows@[k as int].path@ == path@ && find_row(
            rows@,
            path@,
        ) == Some(rows@[k as int]),
{
    let mut i: usize = 0;
    while i < rows.len()
        invariant
            i <= rows@.len(),
            forall|j: int| 0 <= j < i ==> rows@[j].path@ != path@,
        decreases rows@.len() - i,
    {
        if rows[i].path == *path {
            proof {
                lemma_find_row_skip(rows@, path@, i as int);
                assert(rows@.skip(i as int).first() == rows@[i as int]);
            }
            return Some(i);
        }
        i += 1;
    }
    proof {
        lemma_find_row_skip(rows@, path@, rows@.len() as int);
        assert(rows@.skip(rows@.len() as int) =~= Seq::<RawListing>::empty());
    }
    None
}

proof fn lemma_tree_children_intro(n: FileNode, names: Vec<String>, rows: Seq<RawListing>, i: int)
    requires
        forall|m: int|
            0 <= m < n.children@.len() && m < names@.len() ==> entry_child_ok(
                #[trigger] n.children@[m],
                n.path@,
                names@[m],
                rows,
            ),
    ensures
        tree_children_match_from(n, names, rows, i),
    decreases n.children@.len() - i,
{
    if 0 <= i < n.children@.len() {
        if i < names@.len() {
            assert(entry_child_ok(n.children@[i], n.path@, names@[i], rows));
        }
        lemma_tree_children_intro(n, names, rows, i + 1);
    }
}

/// One node of the assembled tree: at `path`, named `name`, a
/// directory when forced (the walk's root) or when its row says so,
/// with one child per entry of its readable listing.
fn assemble_node(path: String, name: String, force_dir: bool, rows: &Vec<RawListing>) -> (r:
    FileNode)
    requires
        rows_wf(rows@),
    ensures
        r.well_formed(),
        r.path == path,
        r.name == name,
        r.is_dir == (force_dir || listed_as_dir(rows@, path@)),
        tree_matches(r, rows@),
    decreases rows_at_least(rows@, path@.len()),
{
    match find_row_index(rows, &path) {
        None => {
            if force_dir {
                let r = FileNode::directory(name, path, Vec::new());
                proof {
                    assert(tree_matches(r, rows@));
                }
                r
            } else {
                let r = FileNode::leaf(name, path);
                proof {
                    assert(tree_matches(r, rows@));
                }
                r
            }
        },
        Some(k) => {
            let row_is_dir = rows[k].is_dir;
            let is_dir = force_dir || row_is_dir;
            if !is_dir {
                let r = FileNode::leaf(name, path);
                proof {
                    assert(tree_matches(r, rows@));
                }
                r
            } else {
                match &rows[k].entries {
                    None => {
                        let r = FileNode::directory(name, path, Vec::new());
                        proof {
                            assert(tree_matches(r, rows@));
                        }
                        r
                    },
                    Some(names) => {
                        let mut children: Vec<FileNode> = Vec::new();
                        let mut m: usize = 0;
                        while m < names.len()
                            invariant
                                rows_wf(rows@),
                                m <= names@.len(),
                                children@.len() == m,
                                k < rows@.len(),
                                rows@[k as int].path@ == path@,
                                rows@[k as int].entries == Some(*names),
                                find_row(rows@, path@) == Some(rows@[k as int]),
                                forall|t: int|
                                    0 <= t < m ==> #[trigger] children@[t].well_formed(),
                                forall|t: int|
                                    0 <= t < m ==> entry_child_ok(
                                        #[trigger] children@[t],
                                        path@,
                                        names@[t],
                                        rows@,
                                    ),
                            decreases names@.len() - m,
                        {
                            let nm = &names[m];
                            let child_path = join_path(path.as_str(), nm.as_str());
                            proof {
                                assert(listing_wf(rows@[k as int]));
                                lemma_entry_nonempty(rows@[k as int], *names, m as int);
                                assert(child_path@.len() >= path@.len() + 1);
                                lemma_rows_at_least_strict(rows@, k as int, child_path@.len());
                            }
                            let child = assemble_node(child_path, nm.clone(), false, rows);
                            children.push(child);
                            m += 1;
                        }
                        let r = FileNode::directory(name, path, children);
                        proof {
                            assert forall|t: int|
                                0 <= t < r.children@.len() && t
                                    < names@.len() implies entry_child_ok(
                                #[trigger] r.children@[t],
                                r.path@,
                                names@[t],
                                rows@,
                            ) by {
                                assert(entry_child_ok(children@[t], path@, names@[t], rows@));
                                assert(r.children@[t] == children@[t]);
                            }
                            lemma_tree_children_intro(r, *names, rows@, 0);
                            assert(tree_matches(r, rows@));
                        }
                        r
                    },
                }
            }
        },
    }
}

/// The tree of a raw walk from `root`: the root is listed as a
/// directory whatever the filesystem said of it, a directory whose
/// listing was read carries one child per entry in listing order,
/// and one whose read failed carries none.
pub fn assemble_tree(root: &str, rows: &Vec<RawListing>) -> (r: FileNode)
    requires
        rows_wf(rows@),
    ensures
        r.well_formed(),
        r.is_dir,
        r.path@ == root@,
        r.name@ == file_name_spec(root@),
        tree_matches(r, rows@),
{
    let name = file_name(root);
    let path = root.to_owned();
    assemble_node(path, name, true, rows)
}

} // verus!
