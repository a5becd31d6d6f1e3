//! The tree that a listing request answers with.

use vstd::prelude::*;

verus! {

/// What stands in place of a link target that could not be resolved.
pub const INVALID_SYMLINK: &'static str = "INVALID SYMLINK";

#[derive(Clone, Copy, Debug, PartialEq, Eq, Structural)]
pub enum EntryType {
    FILE,
    SYMLINK,
    FOLDER,
}

/// One node of the tree. `size` belongs to a file, `target` to a symlink and
/// `children` to a folder; a folder without `children` was not expanded.
#[derive(Debug)]
pub struct TreeEntry {
    pub name: String,
    pub full_path: String,
    pub entry_type: EntryType,
    pub size: Option<u64>,
    pub children: Option<Vec<TreeEntry>>,
    pub target: Option<String>,
}

/// A node as contracts speak of it.
pub struct TreeNode {
    pub name: Seq<char>,
    pub full_path: Seq<char>,
    pub entry_type: EntryType,
    pub size: Option<u64>,
    pub children: Option<Seq<TreeNode>>,
    pub target: Option<Seq<char>>,
}

impl TreeNode {
    pub open spec fn file(name: Seq<char>, full_path: Seq<char>, size: u64) -> TreeNode {
        TreeNode {
            name,
            full_path,
            entry_type: EntryType::FILE,
            size: Some(size),
            children: None,
            target: None,
        }
    }

    pub open spec fn symlink(
        name: Seq<char>,
        full_path: Seq<char>,
        target: Option<Seq<char>>,
    ) -> TreeNode {
        TreeNode {
            name,
            full_path,
            entry_type: EntryType::SYMLINK,
            size: None,
            children: None,
            target: Some(
                match target {
                    Some(t) => t,
                    None => INVALID_SYMLINK@,
                },
            ),
        }
    }

    pub open spec fn folder(
        name: Seq<char>,
        full_path: Seq<char>,
        children: Option<Seq<TreeNode>>,
    ) -> TreeNode {
        TreeNode {
            name,
            full_path,
            entry_type: EntryType::FOLDER,
            size: None,
            children,
            target: None,
        }
    }

    /// The kind decides which of `size`, `children` and `target` is there,
    /// here and in every node below.
    pub open spec fn well_formed(self) -> bool
        decreases self,
    {
        match self.entry_type {
            EntryType::FILE => self.size is Some && self.children is None && self.target is None,
            EntryType::SYMLINK => self.size is None && self.children is None
                && self.target is Some,
            EntryType::FOLDER => self.size is None && self.target is None && (
            self.children matches Some(c) ==> forall|i: int|
                0 <= i < c.len() ==> (#[trigger] c[i]).well_formed()),
        }
    }
}

/// Every node of the forest is well formed.
pub open spec fn all_well_formed(nodes: Seq<TreeNode>) -> bool {
    forall|i: int| 0 <= i < nodes.len() ==> (#[trigger] nodes[i]).well_formed()
}

/// No folder of the forest is expanded more than `budget` levels down: with
/// a budget of 0 none has children, with 1 only the folders at the top have.
pub open spec fn expanded_within(nodes: Seq<TreeNode>, budget: nat) -> bool
    decreases nodes,
{
    forall|i: int|
        0 <= i < nodes.len() ==> ((#[trigger] nodes[i]).children matches Some(c) ==> budget > 0
            && expanded_within(c, (budget - 1) as nat))
}

/// The model of one entry.
pub open spec fn node_of(e: TreeEntry) -> TreeNode
    decreases e,
{
    TreeNode {
        name: e.name@,
        full_path: e.full_path@,
        entry_type: e.entry_type,
        size: e.size,
        children: match e.children {
            Some(v) => Some(nodes_of(v@)),
            None => None,
        },
        target: match e.target {
            Some(t) => Some(t@),
            None => None,
        },
    }
}

/// The model of a run of entries, in order.
pub open spec fn nodes_of(s: Seq<TreeEntry>) -> Seq<TreeNode>
    decreases s,
{
    if s.len() == 0 {
        Seq::empty()
    } else {
        nodes_of(s.drop_last()).push(node_of(s.last()))
    }
}

/// `nodes_of` models entry by entry.
pub proof fn lemma_nodes_of(s: Seq<TreeEntry>)
    ensures
        nodes_of(s).len() == s.len(),
        forall|i: int| 0 <= i < s.len() ==> #[trigger] nodes_of(s)[i] == node_of(s[i]),
    decreases s.len(),
{
    if s.len() > 0 {
        lemma_nodes_of(s.drop_last());
    }
}

/// Appending an entry appends its model.
pub proof fn lemma_nodes_of_push(s: Seq<TreeEntry>, e: TreeEntry)
    ensures
        nodes_of(s.push(e)) == nodes_of(s).push(node_of(e)),
{
    assert(s.push(e).drop_last() == s);
}

impl View for TreeEntry {
    type V = TreeNode;

    open spec fn view(&self) -> TreeNode {
        node_of(*self)
    }
}

impl TreeEntry {
    /// A symlink and where it points; a target that could not be resolved is
    /// shown as `INVALID_SYMLINK`.
    pub fn symlink(name: String, full_path: String, target: Option<String>) -> (r: Self)
        ensures
            r@ == TreeNode::symlink(
                name@,
                full_path@,
                match target {
                    Some(t) => Some(t@),
                    None => None,
                },
            ),
            r@.well_formed(),
    {
        let shown = match target {
            Some(t) => t,
            None => INVALID_SYMLINK.to_string(),
        };
        TreeEntry {
            name,
            full_path,
            entry_type: EntryType::SYMLINK,
            size: None,
            children: None,
            target: Some(shown),
        }
    }

    /// A folder; `children` is `None` where the folder was not expanded.
    pub fn folder(name: String, full_path: String, children: Option<Vec<TreeEntry>>) -> (r: Self)
        ensures
            r@ == TreeNode::folder(
                name@,
                full_path@,
                match children {
                    Some(c) => Some(nodes_of(c@)),
                    None => None,
                },
            ),
    {
        TreeEntry {
            name,
            full_path,
            entry_type: EntryType::FOLDER,
            size: None,
            children,
            target: None,
        }
    }

    /// A regular file of `size` bytes.
    pub fn file(name: String, full_path: String, size: u64) -> (r: Self)
        ensures
            r@ == TreeNode::file(name@, full_path@, size),
            r@.well_formed(),
    {
        TreeEntry {
            name,
            full_path,
            entry_type: EntryType::FILE,
            size: Some(size),
            children: None,
            target: None,
        }
    }
}

} // verus!
