//! File trees: the nested node structure that a directory walk
//! produces. The walk itself reads the filesystem and so lives
//! outside the library; it builds its result through the
//! constructors here, which keep every tree well formed.

use vstd::prelude::*;

verus! {

/// One filesystem entry: its base name, its full path, whether it is
/// listed as a directory, and one child node per entry read inside it.
pub struct FileNode {
    pub name: String,
    pub path: String,
    pub is_dir: bool,
    pub children: Vec<FileNode>,
}

impl FileNode {
    /// A node for a plain file never carries children, and every node
    /// below a directory obeys the same rule.
    pub open spec fn well_formed(self) -> bool
        decreases self, 1int, 0int,
    {
        &&& (!self.is_dir ==> self.children@.len() == 0)
        &&& self.children_well_formed_from(0)
    }

    /// Every child of `self` at position `i` or later is well formed.
    pub open spec fn children_well_formed_from(self, i: int) -> bool
        decreases self, 0int, self.children@.len() - i,
    {
        if 0 <= i < self.children@.len() {
            self.children@[i].well_formed() && self.children_well_formed_from(i + 1)
        } else {
            true
        }
    }

    /// The children of a well-formed node are all well formed.
    pub proof fn lemma_well_formed_child(self, k: int)
        requires
            self.well_formed(),
            0 <= k < self.children@.len(),
        ensures
            self.children@[k].well_formed(),
    {
        self.lemma_children_well_formed_elim(0, k);
    }

    proof fn lemma_children_well_formed_elim(self, i: int, k: int)
        requires
            self.children_well_formed_from(i),
            0 <= i <= k < self.children@.len(),
        ensures
            self.children@[k].well_formed(),
        decreases k - i,
    {
        if i < k {
            self.lemma_children_well_formed_elim(i + 1, k);
        }
    }

    proof fn lemma_children_well_formed_intro(self, i: int)
        requires
            forall|k: int|
                i <= k < self.children@.len() ==> #[trigger] self.children@[k].well_formed(),
        ensures
            self.children_well_formed_from(i),
        decreases self.children@.len() - i,
    {
        if i < self.children@.len() {
            if 0 <= i {
                assert(self.children@[i].well_formed());
            }
            self.lemma_children_well_formed_intro(i + 1);
        }
    }

    /// A node for a single file: never a directory, never any children.
    pub fn leaf(name: String, path: String) -> (r: FileNode)
        ensures
            r.name == name,
            r.path == path,
            !r.is_dir,
            r.children@ =~= Seq::<FileNode>::empty(),
            r.well_formed(),
    {
        let r = FileNode { name, path, is_dir: false, children: Vec::new() };
        proof {
            r.lemma_children_well_formed_intro(0);
        }
        r
    }

    /// A directory node: one child per node handed in, in that order.
    /// How a walk chooses them — the root listed as a directory
    /// whatever it is, a failed listing yielding no children, one
    /// child per entry in listing order — is stated and enforced by
    /// `crate::walk::assemble_tree`.
    pub fn directory(name: String, path: String, children: Vec<FileNode>) -> (r: FileNode)
        requires
            forall|i: int| 0 <= i < children@.len() ==> #[trigger] children@[i].well_formed(),
        ensures
            r.name == name,
            r.path == path,
            r.is_dir,
            r.children@ == children@,
            r.well_formed(),
    {
        let r = FileNode { name, path, is_dir: true, children };
        proof {
            r.lemma_children_well_formed_intro(0);
        }
        r
    }
}

} // verus!
