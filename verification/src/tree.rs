//! The tree of a directory, cut down to what git tracks.
//!
//! Entries keep the order in which the directory gave them: nothing is
//! sorted here.

use crate::listing::{DirListing, DirSlot};
use crate::models::{
    all_well_formed, expanded_within, lemma_nodes_of_push, nodes_of, EntryType, TreeEntry,
    TreeNode, INVALID_SYMLINK,
};
use crate::paths::{
    git_dir, git_prefix, is_below, is_git_dir, join_path, join_spec, lemma_below_one_entry,
    lemma_join_is_below, lemma_join_is_injective, lemma_not_inside_git,
    lemma_plain_name_is_not_inside_git, lemma_sibling_is_not_below, plain_name,
};
use crate::response_status::{ErrorKind, Failure, ResponseStatus};
use crate::cmd::Cmd;
use crate::tracked_set::{ls_files_failure, tracked_paths, TrackedSet};
use crate::traits::{ProcessOutcome, ProcessResult, Runner};
use vstd::prelude::*;

verus! {

/// How deep a tree is expanded where the request names no depth.
pub const DEFAULT_DEPTH: u32 = 32768;

/// The message for a root that does not resolve.
pub open spec fn bad_path_message(why: Seq<char>) -> Seq<char> {
    "Bad path: "@ + why
}

/// The message for a name that is no text.
pub open spec fn bad_name_message(shown: Seq<char>) -> Seq<char> {
    "Name is not valid text: "@ + shown
}

/// The message for a directory that the tree needs and nobody read.
pub open spec fn not_read_message(path: Seq<char>) -> Seq<char> {
    "Directory was not read: "@ + path
}

/// The name under which a slot shows, where it has one.
pub open spec fn slot_name(slot: DirSlot) -> Option<Seq<char>> {
    match slot {
        DirSlot::Failed(_) => None,
        DirSlot::Undecodable(_) => None,
        DirSlot::Symlink { name, .. } => Some(name@),
        DirSlot::Directory { name, .. } => Some(name@),
        DirSlot::File { name, .. } => Some(name@),
        DirSlot::Other { name } => Some(name@),
    }
}

/// Whether a slot is shown in the tree of the directory at `root`: never
/// under the path `.git`; a directory always; a file or a symlink where its
/// path is tracked; nothing else.
pub open spec fn is_listed(slot: DirSlot, root: Seq<char>, listed: Set<Seq<char>>) -> bool {
    match slot {
        DirSlot::Directory { name, .. } => join_spec(root, name@) != git_dir(),
        DirSlot::File { name, .. } => join_spec(root, name@) != git_dir() && listed.contains(
            join_spec(root, name@),
        ),
        DirSlot::Symlink { name, .. } => join_spec(root, name@) != git_dir() && listed.contains(
            join_spec(root, name@),
        ),
        _ => false,
    }
}

/// What one slot of the directory at `root` adds to the tree: a node,
/// nothing, or the error that ends the request.
pub open spec fn build_slot(
    slot: DirSlot,
    root: Seq<char>,
    listed: Set<Seq<char>>,
    depth: nat,
) -> Result<Option<TreeNode>, Failure>
    decreases depth, 0nat,
{
    match slot {
        DirSlot::Failed(why) => Err(Failure { kind: ErrorKind::Io, message: why@ }),
        DirSlot::Undecodable(shown) => Err(
            Failure { kind: ErrorKind::InvalidEncoding, message: bad_name_message(shown@) },
        ),
        DirSlot::Other { .. } => Ok(None),
        DirSlot::Symlink { name, target } => {
            if is_listed(slot, root, listed) {
                Ok(
                    Some(
                        TreeNode::symlink(
                            name@,
                            join_spec(root, name@),
                            match target {
                                Some(t) => Some(t@),
                                None => None,
                            },
                        ),
                    ),
                )
            } else {
                Ok(None)
            }
        },
        DirSlot::File { name, size } => {
            if is_listed(slot, root, listed) {
                match size {
                    Ok(n) => Ok(Some(TreeNode::file(name@, join_spec(root, name@), n))),
                    Err(why) => Err(Failure { kind: ErrorKind::Io, message: why@ }),
                }
            } else {
                Ok(None)
            }
        },
        DirSlot::Directory { name, contents } => {
            if !is_listed(slot, root, listed) {
                Ok(None)
            } else if depth == 0 {
                Ok(Some(TreeNode::folder(name@, join_spec(root, name@), None)))
            } else {
                match build_listing(contents, join_spec(root, name@), listed, (depth - 1) as nat) {
                    Ok(children) => Ok(
                        Some(TreeNode::folder(name@, join_spec(root, name@), Some(children))),
                    ),
                    Err(e) => Err(e),
                }
            }
        },
    }
}

/// The nodes for a run of slots, in their order; the first slot that fails
/// decides the error.
pub open spec fn build_entries(
    slots: Seq<DirSlot>,
    root: Seq<char>,
    listed: Set<Seq<char>>,
    depth: nat,
) -> Result<Seq<TreeNode>, Failure>
    decreases depth, 1 + slots.len(),
{
    if slots.len() == 0 {
        Ok(Seq::empty())
    } else {
        match build_entries(slots.drop_last(), root, listed, depth) {
            Err(e) => Err(e),
            Ok(nodes) => match build_slot(slots.last(), root, listed, depth) {
                Err(e) => Err(e),
                Ok(None) => Ok(nodes),
                Ok(Some(node)) => Ok(nodes.push(node)),
            },
        }
    }
}

/// How many slots a listing holds.
pub open spec fn listing_len(listing: DirListing) -> nat {
    match listing {
        DirListing::Entries(slots) => slots@.len(),
        _ => 0,
    }
}

/// The tree of the directory at `root`, expanded `depth` levels below its
/// own entries.
pub open spec fn build_listing(
    listing: DirListing,
    root: Seq<char>,
    listed: Set<Seq<char>>,
    depth: nat,
) -> Result<Seq<TreeNode>, Failure>
    decreases depth, 2 + listing_len(listing),
{
    match listing {
        DirListing::Missing(why) => Err(
            Failure { kind: ErrorKind::NotFound, message: bad_path_message(why@) },
        ),
        DirListing::Unreadable(why) => Err(Failure { kind: ErrorKind::Io, message: why@ }),
        DirListing::Unexpanded => Err(
            Failure { kind: ErrorKind::Io, message: not_read_message(root) },
        ),
        DirListing::Entries(slots) => build_entries(slots@, root, listed, depth),
    }
}

/// A result as contracts speak of it.
pub open spec fn outcome_of(r: Result<Vec<TreeEntry>, ResponseStatus>) -> Result<
    Seq<TreeNode>,
    Failure,
> {
    match r {
        Ok(entries) => Ok(nodes_of(entries@)),
        Err(e) => Err(e@),
    }
}

/// Once a slot has failed, the slots after it change nothing.
pub proof fn lemma_failure_is_final(
    slots: Seq<DirSlot>,
    k: int,
    root: Seq<char>,
    listed: Set<Seq<char>>,
    depth: nat,
)
    requires
        0 <= k <= slots.len(),
        build_entries(slots.take(k), root, listed, depth) is Err,
    ensures
        build_entries(slots, root, listed, depth) == build_entries(
            slots.take(k),
            root,
            listed,
            depth,
        ),
    decreases slots.len() - k,
{
    if k < slots.len() {
        assert(slots.take(k + 1).drop_last() == slots.take(k));
        lemma_failure_is_final(slots, k + 1, root, listed, depth);
    } else {
        assert(slots.take(k) == slots);
    }
}

fn text_of(s: &Option<String>) -> (r: Option<String>)
    ensures
        r is Some <==> s is Some,
        r matches Some(t) ==> t@ == s->0@,
{
    match s {
        Some(t) => Some(t.clone()),
        None => None,
    }
}

fn failure(kind: ErrorKind, prefix: &str, detail: &str) -> (r: ResponseStatus)
    ensures
        r@ == (Failure { kind, message: prefix@ + detail@ }),
{
    ResponseStatus::new(kind, prefix.to_string().concat(detail))
}

/// The depth that a request asks for: its own, or `DEFAULT_DEPTH` where it
/// names none.
pub open spec fn depth_or_default(depth: Option<u32>) -> nat {
    match depth {
        Some(d) => d as nat,
        None => DEFAULT_DEPTH as nat,
    }
}

/// A run of the listing command as contracts speak of it.
pub open spec fn run_view(run: Result<ProcessResult, ResponseStatus>) -> Result<
    ProcessOutcome,
    Failure,
> {
    match run {
        Ok(result) => Ok(result@),
        Err(e) => Err(e@),
    }
}

/// What a listing of the index tracks, given how it went: the runner's own
/// error where the command could not be started, the tool's error where it
/// exited with failure, and else the paths that it printed.
pub open spec fn listed_for(run: Result<ProcessOutcome, Failure>) -> Result<
    Set<Seq<char>>,
    Failure,
> {
    match run {
        Err(e) => Err(e),
        Ok(out) => if out.success {
            Ok(tracked_paths(out.stdout))
        } else {
            Err(ls_files_failure(out.stderr))
        },
    }
}

/// The answer to a tree request, given how the listing of the index went:
/// its error where it has one, and else the tree cut down to the paths
/// that it printed.
pub open spec fn tree_for(
    run: Result<ProcessOutcome, Failure>,
    listing: DirListing,
    root: Seq<char>,
    depth: Option<u32>,
) -> Result<Seq<TreeNode>, Failure> {
    match listed_for(run) {
        Err(e) => Err(e),
        Ok(listed) => build_listing(listing, root, listed, depth_or_default(depth)),
    }
}

/// A tracked set, or the error in its place, as contracts speak of it.
pub open spec fn listed_view(r: Result<TrackedSet, ResponseStatus>) -> Result<
    Set<Seq<char>>,
    Failure,
> {
    match r {
        Ok(listed) => Ok(listed@),
        Err(e) => Err(e@),
    }
}

/// Answers tree requests for the repository at `obex_path`.
pub struct TreeShaker {
    pub obex_path: String,
    pub runner: Box<dyn Runner>,
}

impl TreeShaker {
    /// What one slot of the directory at `root` adds to the tree.
    fn entry_for(slot: &DirSlot, root: &str, include_list: &TrackedSet, depth: u32) -> (r: Result<
        Option<TreeEntry>,
        ResponseStatus,
    >)
        ensures
            match r {
                Ok(Some(entry)) => build_slot(*slot, root@, include_list@, depth as nat) == Ok::<
                    Option<TreeNode>,
                    Failure,
                >(Some(entry@)),
                Ok(None) => build_slot(*slot, root@, include_list@, depth as nat) == Ok::<
                    Option<TreeNode>,
                    Failure,
                >(None),
                Err(e) => build_slot(*slot, root@, include_list@, depth as nat) == Err::<
                    Option<TreeNode>,
                    Failure,
                >(e@),
            },
        decreases depth, 0nat,
    {
        match slot {
            DirSlot::Failed(why) => Err(ResponseStatus::new(ErrorKind::Io, why.clone())),
            DirSlot::Undecodable(shown) => Err(
                failure(ErrorKind::InvalidEncoding, "Name is not valid text: ", shown.as_str()),
            ),
            DirSlot::Other { .. } => Ok(None),
            DirSlot::Symlink { name, target } => {
                let path = join_path(root, name.as_str());
                if is_git_dir(path.as_str()) || !include_list.contains(path.as_str()) {
                    return Ok(None);
                }
                Ok(Some(TreeEntry::symlink(name.clone(), path, text_of(target))))
            },
            DirSlot::File { name, size } => {
                let path = join_path(root, name.as_str());
                if is_git_dir(path.as_str()) || !include_list.contains(path.as_str()) {
                    return Ok(None);
                }
                match size {
                    Ok(n) => Ok(Some(TreeEntry::file(name.clone(), path, *n))),
                    Err(why) => Err(ResponseStatus::new(ErrorKind::Io, why.clone())),
                }
            },
            DirSlot::Directory { name, contents } => {
                let path = join_path(root, name.as_str());
                if is_git_dir(path.as_str()) {
                    return Ok(None);
                }
                if depth == 0 {
                    return Ok(Some(TreeEntry::folder(name.clone(), path, None)));
                }
                match TreeShaker::process_tree(path.as_str(), include_list, depth - 1, contents) {
                    Ok(children) => Ok(Some(TreeEntry::folder(name.clone(), path, Some(children)))),
                    Err(e) => Err(e),
                }
            },
        }
    }

    /// Builds the tree of the directory at `root` from what was read of it.
    ///
    /// A directory is shown whether tracked or not, a file or a symlink only
    /// where `include_list` holds its path, and the path `.git` never. Folders
    /// are expanded `depth` levels down and left without children below that.
    /// A symlink whose target could not be read is shown with the placeholder
    /// target; every other failure that the walk meets ends the request.
    pub fn process_tree(
        root: &str,
        include_list: &TrackedSet,
        depth: u32,
        listing: &DirListing,
    ) -> (r: Result<Vec<TreeEntry>, ResponseStatus>)
        ensures
            outcome_of(r) == build_listing(*listing, root@, include_list@, depth as nat),
            r matches Ok(entries) ==> {
                &&& expanded_within(nodes_of(entries@), depth as nat)
                &&& all_well_formed(nodes_of(entries@))
                &&& !shows_path(nodes_of(entries@), git_dir())
                &&& leaves_are_tracked(nodes_of(entries@), include_list@)
            },
        decreases depth, 1nat,
    {
        let slots = match listing {
            DirListing::Missing(why) => {
                return Err(failure(ErrorKind::NotFound, "Bad path: ", why.as_str()));
            },
            DirListing::Unreadable(why) => {
                return Err(ResponseStatus::new(ErrorKind::Io, why.clone()));
            },
            DirListing::Unexpanded => {
                return Err(failure(ErrorKind::Io, "Directory was not read: ", root));
            },
            DirListing::Entries(slots) => slots,
        };
        let mut results: Vec<TreeEntry> = Vec::new();
        let mut i: usize = 0;
        while i < slots.len()
            invariant
                0 <= i <= slots@.len(),
                *listing == DirListing::Entries(*slots),
                build_entries(slots@.take(i as int), root@, include_list@, depth as nat) == Ok::<
                    Seq<TreeNode>,
                    Failure,
                >(nodes_of(results@)),
            decreases slots@.len() - i,
        {
            proof {
                assert(slots@.take(i + 1).drop_last() == slots@.take(i as int));
                assert(slots@.take(i + 1).last() == slots@[i as int]);
            }
            match TreeShaker::entry_for(&slots[i], root, include_list, depth) {
                Err(e) => {
                    proof {
                        lemma_failure_is_final(slots@, i + 1, root@, include_list@, depth as nat);
                    }
                    return Err(e);
                },
                Ok(None) => {},
                Ok(Some(entry)) => {
                    proof {
                        lemma_nodes_of_push(results@, entry);
                    }
                    results.push(entry);
                },
            }
            i += 1;
        }
        proof {
            assert(slots@.take(i as int) == slots@);
            lemma_tree_is_bounded(slots@, root@, include_list@, depth as nat);
            lemma_git_is_never_shown(slots@, root@, include_list@, depth as nat);
            lemma_leaves_are_tracked(slots@, root@, include_list@, depth as nat);
        }
        Ok(results)
    }

    /// The depth to expand to.
    pub fn effective_depth(depth: Option<u32>) -> (d: u32)
        ensures
            d as nat == depth_or_default(depth),
    {
        match depth {
            Some(d) => d,
            None => DEFAULT_DEPTH,
        }
    }

    /// The directory on disk that the request for `root` is about.
    pub fn absolute_root(&self, root: &str) -> (r: String)
        ensures
            r@ == join_spec(self.obex_path@, root@),
    {
        join_path(self.obex_path.as_str(), root)
    }

    /// What git tracks, once the listing of the index has run.
    pub fn tracked_from_run(run: Result<ProcessResult, ResponseStatus>) -> (r: Result<
        TrackedSet,
        ResponseStatus,
    >)
        ensures
            listed_view(r) == listed_for(run_view(run)),
    {
        match run {
            Ok(result) => TrackedSet::from_output(
                result.success,
                result.stdout.as_slice(),
                result.stderr.as_slice(),
            ),
            Err(e) => Err(e),
        }
    }

    /// Lists what git tracks, through the runner: one run of
    /// `git ls-files`.
    ///
    /// What the runner hands back is not known here: the answer is the one
    /// that `listed_for` gives for it, whatever it was.
    pub fn list_tracked(&self) -> (r: Result<TrackedSet, ResponseStatus>)
        ensures
            exists|run: Result<ProcessOutcome, Failure>|
                listed_view(r) == #[trigger] listed_for(run),
    {
        let run = match self.runner.run(Cmd::ls_files()) {
            Ok(output) => Ok(output.into_result()),
            Err(e) => Err(e),
        };
        let ghost seen = run_view(run);
        let r = TreeShaker::tracked_from_run(run);
        assert(listed_view(r) == listed_for(seen));
        r
    }

    /// The answer to a tree request once the listing of the index has run.
    pub fn tree_from_run(
        run: Result<ProcessResult, ResponseStatus>,
        root: &str,
        depth: Option<u32>,
        listing: &DirListing,
    ) -> (r: Result<Vec<TreeEntry>, ResponseStatus>)
        ensures
            outcome_of(r) == tree_for(run_view(run), *listing, root@, depth),
            r matches Ok(entries) ==> {
                &&& expanded_within(nodes_of(entries@), depth_or_default(depth))
                &&& all_well_formed(nodes_of(entries@))
                &&& !shows_path(nodes_of(entries@), git_dir())
            },
    {
        let include_list = match TreeShaker::tracked_from_run(run) {
            Ok(include_list) => include_list,
            Err(e) => {
                return Err(e);
            },
        };
        TreeShaker::process_tree(
            root,
            &include_list,
            TreeShaker::effective_depth(depth),
            listing,
        )
    }

    /// Lists what git tracks, through the runner, and builds the tree of
    /// the directory at `root` from what was read of it.
    ///
    /// What the runner hands back is not known here: the answer is the one
    /// that `tree_for` gives for it, whatever it was.
    pub fn get_tree(&self, root: &str, depth: Option<u32>, listing: &DirListing) -> (r: Result<
        Vec<TreeEntry>,
        ResponseStatus,
    >)
        ensures
            exists|run: Result<ProcessOutcome, Failure>|
                outcome_of(r) == #[trigger] tree_for(run, *listing, root@, depth),
            r matches Ok(entries) ==> {
                &&& expanded_within(nodes_of(entries@), depth_or_default(depth))
                &&& all_well_formed(nodes_of(entries@))
                &&& !shows_path(nodes_of(entries@), git_dir())
            },
    {
        let run = match self.runner.run(Cmd::ls_files()) {
            Ok(output) => Ok(output.into_result()),
            Err(e) => Err(e),
        };
        let ghost seen = run_view(run);
        let r = TreeShaker::tree_from_run(run, root, depth, listing);
        assert(outcome_of(r) == tree_for(seen, *listing, root@, depth));
        r
    }
}

/// The kind under which a slot is shown.
pub open spec fn slot_kind(slot: DirSlot) -> EntryType {
    match slot {
        DirSlot::Directory { .. } => EntryType::FOLDER,
        DirSlot::Symlink { .. } => EntryType::SYMLINK,
        _ => EntryType::FILE,
    }
}

/// The length that a slot is shown with: that of a file, as it was read.
pub open spec fn slot_size(slot: DirSlot) -> Option<u64> {
    match slot {
        DirSlot::File { size: Ok(n), .. } => Some(n),
        _ => None,
    }
}

/// The target that a slot is shown with: that of a symlink as it was read,
/// or the placeholder where it could not be read.
pub open spec fn slot_target(slot: DirSlot) -> Option<Seq<char>> {
    match slot {
        DirSlot::Symlink { target: Some(t), .. } => Some(t@),
        DirSlot::Symlink { target: None, .. } => Some(INVALID_SYMLINK@),
        _ => None,
    }
}

/// The slots that are shown, in their order.
pub open spec fn shown_slots(slots: Seq<DirSlot>, root: Seq<char>, listed: Set<Seq<char>>) -> Seq<
    DirSlot,
>
    decreases slots.len(),
{
    if slots.len() == 0 {
        Seq::empty()
    } else if is_listed(slots.last(), root, listed) {
        shown_slots(slots.drop_last(), root, listed).push(slots.last())
    } else {
        shown_slots(slots.drop_last(), root, listed)
    }
}

/// Whether the forest holds a node with this path, at any depth.
pub open spec fn shows_path(nodes: Seq<TreeNode>, path: Seq<char>) -> bool
    decreases nodes,
{
    exists|i: int|
        0 <= i < nodes.len() && ((#[trigger] nodes[i]).full_path == path || (
        nodes[i].children matches Some(c) && shows_path(c, path)))
}

/// No folder of a tree is expanded deeper than the depth it was built with,
/// and every node has what belongs to its kind.
pub proof fn lemma_tree_is_bounded(
    slots: Seq<DirSlot>,
    root: Seq<char>,
    listed: Set<Seq<char>>,
    depth: nat,
)
    ensures
        build_entries(slots, root, listed, depth) matches Ok(nodes) ==> expanded_within(
            nodes,
            depth,
        ) && all_well_formed(nodes),
    decreases depth, slots.len(),
{
    if slots.len() > 0 {
        lemma_tree_is_bounded(slots.drop_last(), root, listed, depth);
        if let Ok(nodes) = build_entries(slots, root, listed, depth) {
            let before = build_entries(slots.drop_last(), root, listed, depth)->Ok_0;
            match build_slot(slots.last(), root, listed, depth) {
                Ok(Some(node)) => {
                    match slots.last() {
                        DirSlot::Directory { name, contents } => {
                            if depth > 0 {
                                match contents {
                                    DirListing::Entries(below) => {
                                        lemma_tree_is_bounded(
                                            below@,
                                            join_spec(root, name@),
                                            listed,
                                            (depth - 1) as nat,
                                        );
                                    },
                                    _ => {},
                                }
                            }
                        },
                        _ => {},
                    }
                    assert(node.well_formed());
                    assert(node.children matches Some(c) ==> depth > 0 && expanded_within(
                        c,
                        (depth - 1) as nat,
                    ));
                    assert(nodes == before.push(node));
                    assert forall|i: int| 0 <= i < nodes.len() implies (#[trigger] nodes[i]).well_formed()
                        && (nodes[i].children matches Some(c) ==> depth > 0 && expanded_within(
                        c,
                        (depth - 1) as nat,
                    )) by {
                        if i < before.len() {
                            assert(nodes[i] == before[i]);
                        }
                    }
                },
                _ => {},
            }
        }
    }
}

/// The same, for a whole listing.
pub proof fn lemma_depth_bound(
    listing: DirListing,
    root: Seq<char>,
    listed: Set<Seq<char>>,
    depth: nat,
)
    ensures
        build_listing(listing, root, listed, depth) matches Ok(nodes) ==> expanded_within(
            nodes,
            depth,
        ) && all_well_formed(nodes),
{
    match listing {
        DirListing::Entries(slots) => {
            lemma_tree_is_bounded(slots@, root, listed, depth);
        },
        _ => {},
    }
}

/// What a slot's node says of the slot, and when a slot has a node.
proof fn lemma_slot_node(slot: DirSlot, root: Seq<char>, listed: Set<Seq<char>>, depth: nat)
    ensures
        build_slot(slot, root, listed, depth) matches Ok(Some(node)) ==> {
            &&& is_listed(slot, root, listed)
            &&& slot_name(slot) == Some(node.name)
            &&& node.full_path == join_spec(root, node.name)
            &&& node.full_path != git_dir()
            &&& node.entry_type == slot_kind(slot)
            &&& node.entry_type != EntryType::FOLDER ==> listed.contains(node.full_path)
            &&& node.size == slot_size(slot)
            &&& node.target == slot_target(slot)
        },
        build_slot(slot, root, listed, depth) matches Ok(None) ==> !is_listed(slot, root, listed),
{
}

/// How the nodes of a run of slots come from those of the run without its
/// last slot.
proof fn lemma_entries_step(
    slots: Seq<DirSlot>,
    root: Seq<char>,
    listed: Set<Seq<char>>,
    depth: nat,
)
    requires
        slots.len() > 0,
        build_entries(slots, root, listed, depth) is Ok,
    ensures
        build_entries(slots.drop_last(), root, listed, depth) is Ok,
        build_slot(slots.last(), root, listed, depth) is Ok,
        build_entries(slots, root, listed, depth)->Ok_0 == (match build_slot(
            slots.last(),
            root,
            listed,
            depth,
        )->Ok_0 {
            Some(node) => build_entries(slots.drop_last(), root, listed, depth)->Ok_0.push(node),
            None => build_entries(slots.drop_last(), root, listed, depth)->Ok_0,
        }),
{
}

/// The entries of a tree are the slots that are shown, one node for each
/// and in their order, each under its name, its path below the root and its
/// kind, a file with the length that was read for it and a symlink with its
/// target or the placeholder.
pub proof fn lemma_shown_in_order(
    slots: Seq<DirSlot>,
    root: Seq<char>,
    listed: Set<Seq<char>>,
    depth: nat,
)
    ensures
        build_entries(slots, root, listed, depth) matches Ok(nodes) ==> {
            let shown = shown_slots(slots, root, listed);
            &&& nodes.len() == shown.len()
            &&& forall|j: int|
                0 <= j < nodes.len() ==> {
                    &&& is_listed(#[trigger] shown[j], root, listed)
                    &&& slot_name(shown[j]) == Some(nodes[j].name)
                    &&& nodes[j].full_path == join_spec(root, nodes[j].name)
                    &&& nodes[j].entry_type == slot_kind(shown[j])
                    &&& nodes[j].size == slot_size(shown[j])
                    &&& nodes[j].target == slot_target(shown[j])
                }
        },
    decreases slots.len(),
{
    if slots.len() > 0 && build_entries(slots, root, listed, depth) is Ok {
        lemma_entries_step(slots, root, listed, depth);
        lemma_shown_in_order(slots.drop_last(), root, listed, depth);
        lemma_slot_node(slots.last(), root, listed, depth);
        let nodes = build_entries(slots, root, listed, depth)->Ok_0;
        let before = build_entries(slots.drop_last(), root, listed, depth)->Ok_0;
        let shown = shown_slots(slots, root, listed);
        let shown_before = shown_slots(slots.drop_last(), root, listed);
        assert forall|j: int| 0 <= j < nodes.len() implies {
            &&& is_listed(#[trigger] shown[j], root, listed)
            &&& slot_name(shown[j]) == Some(nodes[j].name)
            &&& nodes[j].full_path == join_spec(root, nodes[j].name)
            &&& nodes[j].entry_type == slot_kind(shown[j])
            &&& nodes[j].size == slot_size(shown[j])
            &&& nodes[j].target == slot_target(shown[j])
        } by {
            if j < before.len() {
                assert(nodes[j] == before[j]);
                assert(shown[j] == shown_before[j]);
            }
        }
    }
}

/// Every directory is shown as a folder, tracked or not, unless its path is
/// `.git`.
pub proof fn lemma_directory_is_shown(
    slots: Seq<DirSlot>,
    i: int,
    root: Seq<char>,
    listed: Set<Seq<char>>,
    depth: nat,
)
    requires
        0 <= i < slots.len(),
        slots[i] is Directory,
        join_spec(root, slot_name(slots[i])->0) != git_dir(),
    ensures
        build_entries(slots, root, listed, depth) matches Ok(nodes) ==> exists|j: int|
            0 <= j < nodes.len() && (#[trigger] nodes[j]).entry_type == EntryType::FOLDER
                && nodes[j].name == slot_name(slots[i])->0 && nodes[j].full_path == join_spec(
                root,
                slot_name(slots[i])->0,
            ),
    decreases slots.len(),
{
    if let Ok(nodes) = build_entries(slots, root, listed, depth) {
        lemma_entries_step(slots, root, listed, depth);
        lemma_slot_node(slots.last(), root, listed, depth);
        let before = build_entries(slots.drop_last(), root, listed, depth)->Ok_0;
        if i == slots.len() - 1 {
            let j = nodes.len() - 1;
            assert(nodes[j].entry_type == EntryType::FOLDER);
        } else {
            assert(slots.drop_last()[i] == slots[i]);
            lemma_directory_is_shown(slots.drop_last(), i, root, listed, depth);
            let j = choose|j: int|
                0 <= j < before.len() && (#[trigger] before[j]).entry_type == EntryType::FOLDER
                    && before[j].name == slot_name(slots[i])->0 && before[j].full_path
                    == join_spec(root, slot_name(slots[i])->0);
            assert(nodes[j] == before[j]);
        }
    }
}

/// What is shown and is no folder is tracked: a file or a symlink that the
/// tracked set does not hold is left out.
pub proof fn lemma_untracked_is_omitted(
    slots: Seq<DirSlot>,
    root: Seq<char>,
    listed: Set<Seq<char>>,
    depth: nat,
)
    ensures
        build_entries(slots, root, listed, depth) matches Ok(nodes) ==> forall|j: int|
            0 <= j < nodes.len() && (#[trigger] nodes[j]).entry_type != EntryType::FOLDER
                ==> listed.contains(nodes[j].full_path),
    decreases slots.len(),
{
    if slots.len() > 0 && build_entries(slots, root, listed, depth) is Ok {
        lemma_entries_step(slots, root, listed, depth);
        lemma_untracked_is_omitted(slots.drop_last(), root, listed, depth);
        lemma_slot_node(slots.last(), root, listed, depth);
        let nodes = build_entries(slots, root, listed, depth)->Ok_0;
        let before = build_entries(slots.drop_last(), root, listed, depth)->Ok_0;
        assert forall|j: int|
            0 <= j < nodes.len() && (#[trigger] nodes[j]).entry_type
                != EntryType::FOLDER implies listed.contains(nodes[j].full_path) by {
            if j < before.len() {
                assert(nodes[j] == before[j]);
            }
        }
    }
}

/// Whether nothing is tracked at `dir` or below it.
pub open spec fn untracked_under(listed: Set<Seq<char>>, dir: Seq<char>) -> bool {
    forall|path: Seq<char>| #[trigger] listed.contains(path) ==> path != dir && !is_below(path, dir)
}

/// Whether the forest holds folders only, at every depth.
pub open spec fn folders_only(nodes: Seq<TreeNode>) -> bool
    decreases nodes,
{
    forall|i: int|
        0 <= i < nodes.len() ==> (#[trigger] nodes[i]).entry_type == EntryType::FOLDER && (
        nodes[i].children matches Some(c) ==> folders_only(c))
}

/// Whether some slot has this name.
pub open spec fn named_by(slots: Seq<DirSlot>, name: Seq<char>) -> bool {
    exists|i: int| 0 <= i < slots.len() && #[trigger] slot_name(slots[i]) == Some(name)
}

/// Whether no two slots have the same name, as it is in a directory on
/// disk.
pub open spec fn names_differ(slots: Seq<DirSlot>) -> bool {
    forall|i: int, j: int|
        0 <= i < j < slots.len() && slot_name(slots[i]) is Some ==> #[trigger] slot_name(slots[i])
            != #[trigger] slot_name(slots[j])
}

/// Where nothing is tracked at a directory or below it, its tree holds
/// folders only: the directories in it, at every depth, and no file and no
/// symlink.
pub proof fn lemma_untracked_subtree_is_folders(
    slots: Seq<DirSlot>,
    root: Seq<char>,
    listed: Set<Seq<char>>,
    depth: nat,
)
    requires
        untracked_under(listed, root),
    ensures
        build_entries(slots, root, listed, depth) matches Ok(nodes) ==> folders_only(nodes),
    decreases depth, slots.len(),
{
    if slots.len() > 0 && build_entries(slots, root, listed, depth) is Ok {
        lemma_entries_step(slots, root, listed, depth);
        lemma_untracked_subtree_is_folders(slots.drop_last(), root, listed, depth);
        lemma_slot_node(slots.last(), root, listed, depth);
        let nodes = build_entries(slots, root, listed, depth)->Ok_0;
        let before = build_entries(slots.drop_last(), root, listed, depth)->Ok_0;
        match slots.last() {
            DirSlot::Directory { name, contents } => {
                lemma_join_is_below(root, name@);
                if depth > 0 {
                    match contents {
                        DirListing::Entries(below) => {
                            assert(untracked_under(listed, join_spec(root, name@)));
                            lemma_untracked_subtree_is_folders(
                                below@,
                                join_spec(root, name@),
                                listed,
                                (depth - 1) as nat,
                            );
                        },
                        _ => {},
                    }
                }
            },
            DirSlot::File { name, .. } => {
                lemma_join_is_below(root, name@);
            },
            DirSlot::Symlink { name, .. } => {
                lemma_join_is_below(root, name@);
            },
            _ => {},
        }
        assert forall|i: int| 0 <= i < nodes.len() implies (#[trigger] nodes[i]).entry_type
            == EntryType::FOLDER && (nodes[i].children matches Some(c) ==> folders_only(c)) by {
            if i < before.len() {
                assert(nodes[i] == before[i]);
            }
        }
    }
}

/// A directory at or below which nothing is tracked is still shown, as a
/// folder under its own path, and what it is expanded to holds folders
/// only.
pub proof fn lemma_untracked_directory_is_a_folder(
    slot: DirSlot,
    root: Seq<char>,
    listed: Set<Seq<char>>,
    depth: nat,
)
    requires
        slot is Directory,
        join_spec(root, slot_name(slot)->0) != git_dir(),
        untracked_under(listed, join_spec(root, slot_name(slot)->0)),
    ensures
        build_slot(slot, root, listed, depth) matches Ok(found) ==> {
            &&& found is Some
            &&& found->0.entry_type == EntryType::FOLDER
            &&& found->0.name == slot_name(slot)->0
            &&& found->0.full_path == join_spec(root, slot_name(slot)->0)
            &&& found->0.children matches Some(c) ==> folders_only(c)
        },
{
    if depth > 0 {
        match slot {
            DirSlot::Directory { name, contents } => {
                match contents {
                    DirListing::Entries(below) => {
                        lemma_untracked_subtree_is_folders(
                            below@,
                            join_spec(root, name@),
                            listed,
                            (depth - 1) as nat,
                        );
                    },
                    _ => {},
                }
            },
            _ => {},
        }
    }
}

/// Where no two entries of a directory have the same name, no two entries
/// of its tree have the same path, and each is named as an entry of the
/// directory is: a directory is shown once.
pub proof fn lemma_one_entry_per_path(
    slots: Seq<DirSlot>,
    root: Seq<char>,
    listed: Set<Seq<char>>,
    depth: nat,
)
    requires
        names_differ(slots),
    ensures
        build_entries(slots, root, listed, depth) matches Ok(nodes) ==> {
            &&& forall|j: int| 0 <= j < nodes.len() ==> named_by(slots, (#[trigger] nodes[j]).name)
            &&& forall|a: int, b: int|
                0 <= a < b < nodes.len() ==> (#[trigger] nodes[a]).full_path != (
                #[trigger] nodes[b]).full_path
        },
    decreases slots.len(),
{
    if slots.len() > 0 && build_entries(slots, root, listed, depth) is Ok {
        let shorter = slots.drop_last();
        assert(names_differ(shorter)) by {
            assert forall|i: int, j: int|
                0 <= i < j < shorter.len() && slot_name(shorter[i]) is Some implies #[trigger] slot_name(
                shorter[i],
            ) != #[trigger] slot_name(shorter[j]) by {
                assert(shorter[i] == slots[i]);
                assert(shorter[j] == slots[j]);
            }
        }
        lemma_entries_step(slots, root, listed, depth);
        lemma_one_entry_per_path(shorter, root, listed, depth);
        lemma_slot_node(slots.last(), root, listed, depth);
        lemma_shown_in_order(slots, root, listed, depth);
        let nodes = build_entries(slots, root, listed, depth)->Ok_0;
        let before = build_entries(shorter, root, listed, depth)->Ok_0;
        let last = slots.len() - 1;
        assert forall|j: int| 0 <= j < nodes.len() implies named_by(
            slots,
            (#[trigger] nodes[j]).name,
        ) by {
            if j < before.len() {
                assert(nodes[j] == before[j]);
                let i = choose|i: int|
                    0 <= i < shorter.len() && #[trigger] slot_name(shorter[i]) == Some(
                        before[j].name,
                    );
                assert(shorter[i] == slots[i]);
                assert(slot_name(slots[i]) == Some(nodes[j].name));
            } else {
                assert(slot_name(slots[last]) == Some(nodes[j].name));
            }
        }
        assert forall|a: int, b: int| 0 <= a < b < nodes.len() implies (
        #[trigger] nodes[a]).full_path != (#[trigger] nodes[b]).full_path by {
            assert(nodes[a] == before[a]);
            if b < before.len() {
                assert(nodes[b] == before[b]);
            } else {
                let i = choose|i: int|
                    0 <= i < shorter.len() && #[trigger] slot_name(shorter[i]) == Some(
                        before[a].name,
                    );
                assert(shorter[i] == slots[i]);
                assert(slot_name(slots[i]) != slot_name(slots[last]));
                assert(slot_name(slots[last]) == Some(nodes[b].name));
                let shown = shown_slots(slots, root, listed);
                assert(is_listed(shown[a], root, listed));
                assert(is_listed(shown[b], root, listed));
                if nodes[a].full_path == nodes[b].full_path {
                    lemma_join_is_injective(root, nodes[a].name, nodes[b].name);
                }
            }
        }
    }
}

/// Whether the forest holds this node, at any depth.
pub open spec fn tree_holds(nodes: Seq<TreeNode>, node: TreeNode) -> bool
    decreases nodes,
{
    exists|i: int|
        0 <= i < nodes.len() && ((#[trigger] nodes[i]) == node || (
        nodes[i].children matches Some(c) && tree_holds(c, node)))
}

/// Whether every file and every symlink of the forest, at any depth, has a
/// tracked path.
pub open spec fn leaves_are_tracked(nodes: Seq<TreeNode>, listed: Set<Seq<char>>) -> bool
    decreases nodes,
{
    forall|i: int|
        0 <= i < nodes.len() ==> ((#[trigger] nodes[i]).entry_type != EntryType::FOLDER
            ==> listed.contains(nodes[i].full_path)) && (nodes[i].children matches Some(c)
            ==> leaves_are_tracked(c, listed))
}

/// Whether `slot` is an entry, at `path`, of the directory at `root` or of
/// a directory below it that a tree of this depth expands: one that is no
/// more than `depth` levels down, was read, and is not `.git`.
pub open spec fn holds_slot(
    slots: Seq<DirSlot>,
    root: Seq<char>,
    depth: nat,
    slot: DirSlot,
    path: Seq<char>,
) -> bool
    decreases depth,
{
    exists|i: int|
        0 <= i < slots.len() && (((#[trigger] slots[i]) == slot && slot_name(slot) is Some && join_spec(
            root,
            slot_name(slot)->0,
        ) == path) || (depth > 0 && slots[i] is Directory
            && slots[i]->Directory_contents is Entries && join_spec(
            root,
            slot_name(slots[i])->0,
        ) != git_dir() && holds_slot(
            slots[i]->Directory_contents->Entries_0@,
            join_spec(root, slot_name(slots[i])->0),
            (depth - 1) as nat,
            slot,
            path,
        )))
}

/// The node that a file or a symlink at `path` is shown as.
pub open spec fn leaf_node(slot: DirSlot, path: Seq<char>) -> TreeNode {
    TreeNode {
        name: slot_name(slot)->0,
        full_path: path,
        entry_type: slot_kind(slot),
        size: slot_size(slot),
        children: None,
        target: slot_target(slot),
    }
}

/// Anywhere in a tree, what is shown and is no folder is tracked: no file
/// and no symlink is shown whose path the tracked set does not hold.
pub proof fn lemma_leaves_are_tracked(
    slots: Seq<DirSlot>,
    root: Seq<char>,
    listed: Set<Seq<char>>,
    depth: nat,
)
    ensures
        build_entries(slots, root, listed, depth) matches Ok(nodes) ==> leaves_are_tracked(
            nodes,
            listed,
        ),
    decreases depth, slots.len(),
{
    if slots.len() > 0 && build_entries(slots, root, listed, depth) is Ok {
        lemma_entries_step(slots, root, listed, depth);
        lemma_leaves_are_tracked(slots.drop_last(), root, listed, depth);
        lemma_slot_node(slots.last(), root, listed, depth);
        let nodes = build_entries(slots, root, listed, depth)->Ok_0;
        let before = build_entries(slots.drop_last(), root, listed, depth)->Ok_0;
        match slots.last() {
            DirSlot::Directory { name, contents } => {
                if depth > 0 {
                    match contents {
                        DirListing::Entries(below) => {
                            lemma_leaves_are_tracked(
                                below@,
                                join_spec(root, name@),
                                listed,
                                (depth - 1) as nat,
                            );
                        },
                        _ => {},
                    }
                }
            },
            _ => {},
        }
        assert forall|i: int| 0 <= i < nodes.len() implies ((#[trigger] nodes[i]).entry_type
            != EntryType::FOLDER ==> listed.contains(nodes[i].full_path)) && (
        nodes[i].children matches Some(c) ==> leaves_are_tracked(c, listed)) by {
            if i < before.len() {
                assert(nodes[i] == before[i]);
            }
        }
    }
}

/// The node of every slot of a directory is among the entries of its tree.
proof fn lemma_slot_node_is_shown(
    slots: Seq<DirSlot>,
    i: int,
    root: Seq<char>,
    listed: Set<Seq<char>>,
    depth: nat,
)
    requires
        0 <= i < slots.len(),
        build_entries(slots, root, listed, depth) is Ok,
    ensures
        build_slot(slots[i], root, listed, depth) is Ok,
        build_slot(slots[i], root, listed, depth) matches Ok(Some(node)) ==> exists|j: int|
            0 <= j < build_entries(slots, root, listed, depth)->Ok_0.len() && #[trigger] build_entries(
                slots,
                root,
                listed,
                depth,
            )->Ok_0[j] == node,
    decreases slots.len(),
{
    lemma_entries_step(slots, root, listed, depth);
    let nodes = build_entries(slots, root, listed, depth)->Ok_0;
    let before = build_entries(slots.drop_last(), root, listed, depth)->Ok_0;
    if i == slots.len() - 1 {
        if let Ok(Some(node)) = build_slot(slots[i], root, listed, depth) {
            assert(nodes[nodes.len() - 1] == node);
        }
    } else {
        assert(slots.drop_last()[i] == slots[i]);
        lemma_slot_node_is_shown(slots.drop_last(), i, root, listed, depth);
        if let Ok(Some(node)) = build_slot(slots[i], root, listed, depth) {
            let j = choose|j: int| 0 <= j < before.len() && #[trigger] before[j] == node;
            assert(nodes[j] == before[j]);
        }
    }
}

/// A file or a symlink anywhere in what a tree expands is shown where its
/// path is tracked: under its name and that path, a file with the length
/// that was read for it, a symlink with its target or the placeholder.
/// Membership is that of the whole path, not of the name.
pub proof fn lemma_tracked_leaf_is_shown(
    slots: Seq<DirSlot>,
    root: Seq<char>,
    listed: Set<Seq<char>>,
    depth: nat,
    slot: DirSlot,
    path: Seq<char>,
)
    requires
        holds_slot(slots, root, depth, slot, path),
        slot is File || slot is Symlink,
        path != git_dir(),
        listed.contains(path),
    ensures
        build_entries(slots, root, listed, depth) matches Ok(nodes) ==> tree_holds(
            nodes,
            leaf_node(slot, path),
        ),
    decreases depth,
{
    if let Ok(nodes) = build_entries(slots, root, listed, depth) {
        let i = choose|i: int|
            0 <= i < slots.len() && (((#[trigger] slots[i]) == slot && slot_name(slot) is Some && join_spec(
                root,
                slot_name(slot)->0,
            ) == path) || (depth > 0
                && slots[i] is Directory && slots[i]->Directory_contents is Entries && join_spec(
                root,
                slot_name(slots[i])->0,
            ) != git_dir() && holds_slot(
                slots[i]->Directory_contents->Entries_0@,
                join_spec(root, slot_name(slots[i])->0),
                (depth - 1) as nat,
                slot,
                path,
            )));
        lemma_slot_node_is_shown(slots, i, root, listed, depth);
        let found = build_slot(slots[i], root, listed, depth)->Ok_0;
        if slots[i] == slot && join_spec(root, slot_name(slot)->0) == path {
            assert(found == Some(leaf_node(slot, path)));
            let j = choose|j: int| 0 <= j < nodes.len() && #[trigger] nodes[j] == found->0;
            assert(nodes[j] == leaf_node(slot, path));
        } else {
            let below = slots[i]->Directory_contents->Entries_0@;
            let inner = join_spec(root, slot_name(slots[i])->0);
            lemma_tracked_leaf_is_shown(below, inner, listed, (depth - 1) as nat, slot, path);
            let j = choose|j: int| 0 <= j < nodes.len() && #[trigger] nodes[j] == found->0;
            assert(nodes[j].children == Some(
                build_entries(below, inner, listed, (depth - 1) as nat)->Ok_0,
            ));
        }
    }
}

/// A directory anywhere in what a tree expands is shown, tracked or not,
/// unless its path is `.git`: as a folder under its name and its path. And
/// where nothing is tracked at it or below it, what it is expanded to holds
/// folders only.
pub proof fn lemma_directory_is_shown_anywhere(
    slots: Seq<DirSlot>,
    root: Seq<char>,
    listed: Set<Seq<char>>,
    depth: nat,
    slot: DirSlot,
    path: Seq<char>,
)
    requires
        holds_slot(slots, root, depth, slot, path),
        slot is Directory,
        path != git_dir(),
    ensures
        build_entries(slots, root, listed, depth) matches Ok(nodes) ==> exists|node: TreeNode|
            {
                &&& #[trigger] tree_holds(nodes, node)
                &&& node.entry_type == EntryType::FOLDER
                &&& node.name == slot_name(slot)->0
                &&& node.full_path == path
                &&& untracked_under(listed, path) ==> (node.children matches Some(c)
                    ==> folders_only(c))
            },
    decreases depth,
{
    if let Ok(nodes) = build_entries(slots, root, listed, depth) {
        let i = choose|i: int|
            0 <= i < slots.len() && (((#[trigger] slots[i]) == slot && slot_name(slot) is Some && join_spec(
                root,
                slot_name(slot)->0,
            ) == path) || (depth > 0
                && slots[i] is Directory && slots[i]->Directory_contents is Entries && join_spec(
                root,
                slot_name(slots[i])->0,
            ) != git_dir() && holds_slot(
                slots[i]->Directory_contents->Entries_0@,
                join_spec(root, slot_name(slots[i])->0),
                (depth - 1) as nat,
                slot,
                path,
            )));
        lemma_slot_node_is_shown(slots, i, root, listed, depth);
        let found = build_slot(slots[i], root, listed, depth)->Ok_0;
        let j = choose|j: int| 0 <= j < nodes.len() && #[trigger] nodes[j] == found->0;
        if slots[i] == slot && join_spec(root, slot_name(slot)->0) == path {
            if untracked_under(listed, path) {
                lemma_untracked_directory_is_a_folder(slot, root, listed, depth);
            }
            assert(tree_holds(nodes, nodes[j]));
        } else {
            let below = slots[i]->Directory_contents->Entries_0@;
            let inner = join_spec(root, slot_name(slots[i])->0);
            lemma_directory_is_shown_anywhere(
                below,
                inner,
                listed,
                (depth - 1) as nat,
                slot,
                path,
            );
            let children = build_entries(below, inner, listed, (depth - 1) as nat)->Ok_0;
            assert(nodes[j].children == Some(children));
            let node = choose|node: TreeNode|
                {
                    &&& #[trigger] tree_holds(children, node)
                    &&& node.entry_type == EntryType::FOLDER
                    &&& node.name == slot_name(slot)->0
                    &&& node.full_path == path
                    &&& untracked_under(listed, path) ==> (node.children matches Some(c)
                        ==> folders_only(c))
                };
            assert(tree_holds(nodes, node));
        }
    }
}

/// Whether every name in what a tree of this depth expands is plain, as
/// the names of a directory on disk are.
pub open spec fn names_are_plain(slots: Seq<DirSlot>, depth: nat) -> bool
    decreases depth,
{
    forall|i: int|
        0 <= i < slots.len() ==> {
            &&& slot_name(#[trigger] slots[i]) is Some ==> plain_name(slot_name(slots[i])->0)
            &&& depth > 0 && slots[i] is Directory && slots[i]->Directory_contents is Entries
                ==> names_are_plain(
                slots[i]->Directory_contents->Entries_0@,
                (depth - 1) as nat,
            )
        }
}

/// Whether every path of the forest, at any depth, lies below `dir`.
pub open spec fn paths_are_below(nodes: Seq<TreeNode>, dir: Seq<char>) -> bool
    decreases nodes,
{
    forall|i: int|
        0 <= i < nodes.len() ==> is_below((#[trigger] nodes[i]).full_path, dir) && (
        nodes[i].children matches Some(c) ==> paths_are_below(c, dir))
}

/// Whether no path of the forest, at any depth, begins with `.git/`.
pub open spec fn nothing_inside_git(nodes: Seq<TreeNode>) -> bool
    decreases nodes,
{
    forall|i: int|
        0 <= i < nodes.len() ==> !git_prefix().is_prefix_of((#[trigger] nodes[i]).full_path) && (
        nodes[i].children matches Some(c) ==> nothing_inside_git(c))
}

/// What lies below a directory lies below every directory that the
/// directory lies below.
proof fn lemma_paths_are_below_wider(nodes: Seq<TreeNode>, inner: Seq<char>, outer: Seq<char>)
    requires
        paths_are_below(nodes, inner),
        forall|path: Seq<char>| #[trigger] is_below(path, inner) ==> is_below(path, outer),
    ensures
        paths_are_below(nodes, outer),
    decreases nodes,
{
    assert forall|i: int| 0 <= i < nodes.len() implies is_below(
        (#[trigger] nodes[i]).full_path,
        outer,
    ) && (nodes[i].children matches Some(c) ==> paths_are_below(c, outer)) by {
        if let Some(c) = nodes[i].children {
            lemma_paths_are_below_wider(c, inner, outer);
        }
    }
}

/// Where names are plain, every path of the tree of a directory lies below
/// the directory.
pub proof fn lemma_paths_are_below(
    slots: Seq<DirSlot>,
    root: Seq<char>,
    listed: Set<Seq<char>>,
    depth: nat,
)
    requires
        names_are_plain(slots, depth),
    ensures
        build_entries(slots, root, listed, depth) matches Ok(nodes) ==> paths_are_below(
            nodes,
            root,
        ),
    decreases depth, slots.len(),
{
    if slots.len() > 0 && build_entries(slots, root, listed, depth) is Ok {
        let shorter = slots.drop_last();
        let last = slots.len() - 1;
        assert(names_are_plain(shorter, depth)) by {
            assert forall|i: int| 0 <= i < shorter.len() implies {
                &&& slot_name(#[trigger] shorter[i]) is Some ==> plain_name(
                    slot_name(shorter[i])->0,
                )
                &&& depth > 0 && shorter[i] is Directory && shorter[i]->Directory_contents is Entries
                    ==> names_are_plain(
                    shorter[i]->Directory_contents->Entries_0@,
                    (depth - 1) as nat,
                )
            } by {
                assert(shorter[i] == slots[i]);
            }
        }
        lemma_entries_step(slots, root, listed, depth);
        lemma_paths_are_below(shorter, root, listed, depth);
        lemma_slot_node(slots.last(), root, listed, depth);
        let nodes = build_entries(slots, root, listed, depth)->Ok_0;
        let before = build_entries(shorter, root, listed, depth)->Ok_0;
        assert(slots[last] == slots.last());
        if let Ok(Some(node)) = build_slot(slots.last(), root, listed, depth) {
            lemma_join_is_below(root, node.name);
            match slots.last() {
                DirSlot::Directory { name, contents } => {
                    if depth > 0 {
                        match contents {
                            DirListing::Entries(below) => {
                                let inner = join_spec(root, name@);
                                lemma_paths_are_below(below@, inner, listed, (depth - 1) as nat);
                                lemma_paths_are_below_wider(node.children->0, inner, root);
                            },
                            _ => {},
                        }
                    }
                },
                _ => {},
            }
        }
        assert forall|i: int| 0 <= i < nodes.len() implies is_below(
            (#[trigger] nodes[i]).full_path,
            root,
        ) && (nodes[i].children matches Some(c) ==> paths_are_below(c, root)) by {
            if i < before.len() {
                assert(nodes[i] == before[i]);
            }
        }
    }
}

/// What lies below a directory with a plain name other than `.git` has no
/// path that begins with `.git/`.
proof fn lemma_below_is_not_inside_git(nodes: Seq<TreeNode>, dir: Seq<char>)
    requires
        paths_are_below(nodes, dir),
        plain_name(dir),
        dir != git_dir(),
    ensures
        nothing_inside_git(nodes),
    decreases nodes,
{
    assert forall|i: int| 0 <= i < nodes.len() implies !git_prefix().is_prefix_of(
        (#[trigger] nodes[i]).full_path,
    ) && (nodes[i].children matches Some(c) ==> nothing_inside_git(c)) by {
        lemma_not_inside_git(nodes[i].full_path, dir);
        if let Some(c) = nodes[i].children {
            lemma_below_is_not_inside_git(c, dir);
        }
    }
}

/// In the tree of the repository root nothing of `.git` is shown: where
/// names are plain, no path at any depth begins with `.git/`, whatever is
/// tracked and however deep the tree goes.
pub proof fn lemma_nothing_inside_git(slots: Seq<DirSlot>, listed: Set<Seq<char>>, depth: nat)
    requires
        names_are_plain(slots, depth),
    ensures
        build_entries(slots, Seq::empty(), listed, depth) matches Ok(nodes) ==> nothing_inside_git(
            nodes,
        ),
    decreases slots.len(),
{
    let root = Seq::<char>::empty();
    if slots.len() > 0 && build_entries(slots, root, listed, depth) is Ok {
        let shorter = slots.drop_last();
        let last = slots.len() - 1;
        assert(names_are_plain(shorter, depth)) by {
            assert forall|i: int| 0 <= i < shorter.len() implies {
                &&& slot_name(#[trigger] shorter[i]) is Some ==> plain_name(
                    slot_name(shorter[i])->0,
                )
                &&& depth > 0 && shorter[i] is Directory && shorter[i]->Directory_contents is Entries
                    ==> names_are_plain(
                    shorter[i]->Directory_contents->Entries_0@,
                    (depth - 1) as nat,
                )
            } by {
                assert(shorter[i] == slots[i]);
            }
        }
        lemma_entries_step(slots, root, listed, depth);
        lemma_nothing_inside_git(shorter, listed, depth);
        lemma_slot_node(slots.last(), root, listed, depth);
        let nodes = build_entries(slots, root, listed, depth)->Ok_0;
        let before = build_entries(shorter, root, listed, depth)->Ok_0;
        assert(slots[last] == slots.last());
        if let Ok(Some(node)) = build_slot(slots.last(), root, listed, depth) {
            assert(node.full_path == node.name);
            lemma_plain_name_is_not_inside_git(node.name);
            match slots.last() {
                DirSlot::Directory { name, contents } => {
                    if depth > 0 {
                        match contents {
                            DirListing::Entries(below) => {
                                lemma_paths_are_below(below@, name@, listed, (depth - 1) as nat);
                                lemma_below_is_not_inside_git(node.children->0, name@);
                            },
                            _ => {},
                        }
                    }
                },
                _ => {},
            }
        }
        assert forall|i: int| 0 <= i < nodes.len() implies !git_prefix().is_prefix_of(
            (#[trigger] nodes[i]).full_path,
        ) && (nodes[i].children matches Some(c) ==> nothing_inside_git(c)) by {
            if i < before.len() {
                assert(nodes[i] == before[i]);
            }
        }
    }
}

/// Whether no two entries have the same name in any directory that a tree
/// of this depth expands.
pub open spec fn names_differ_throughout(slots: Seq<DirSlot>, depth: nat) -> bool
    decreases depth,
{
    &&& names_differ(slots)
    &&& forall|i: int|
        0 <= i < slots.len() && depth > 0 && (#[trigger] slots[i]) is Directory
            && slots[i]->Directory_contents is Entries ==> names_differ_throughout(
            slots[i]->Directory_contents->Entries_0@,
            (depth - 1) as nat,
        )
}

/// What a forest below a directory holds lies below the directory.
proof fn lemma_held_is_below(nodes: Seq<TreeNode>, dir: Seq<char>, node: TreeNode)
    requires
        paths_are_below(nodes, dir),
        tree_holds(nodes, node),
    ensures
        is_below(node.full_path, dir),
    decreases nodes,
{
    let i = choose|i: int|
        0 <= i < nodes.len() && ((#[trigger] nodes[i]) == node || (
        nodes[i].children matches Some(c) && tree_holds(c, node)));
    if nodes[i] != node {
        lemma_held_is_below(nodes[i].children->0, dir, node);
    }
}

/// Every entry of a tree is the node of a slot of its directory.
proof fn lemma_node_has_slot(
    slots: Seq<DirSlot>,
    j: int,
    root: Seq<char>,
    listed: Set<Seq<char>>,
    depth: nat,
)
    requires
        build_entries(slots, root, listed, depth) is Ok,
        0 <= j < build_entries(slots, root, listed, depth)->Ok_0.len(),
    ensures
        exists|k: int|
            0 <= k < slots.len() && build_slot(#[trigger] slots[k], root, listed, depth) == Ok::<
                Option<TreeNode>,
                Failure,
            >(Some(build_entries(slots, root, listed, depth)->Ok_0[j])),
    decreases slots.len(),
{
    let nodes = build_entries(slots, root, listed, depth)->Ok_0;
    if slots.len() > 0 {
        lemma_entries_step(slots, root, listed, depth);
        let shorter = slots.drop_last();
        let before = build_entries(shorter, root, listed, depth)->Ok_0;
        if j < before.len() {
            assert(nodes[j] == before[j]);
            lemma_node_has_slot(shorter, j, root, listed, depth);
            let k = choose|k: int|
                0 <= k < shorter.len() && build_slot(#[trigger] shorter[k], root, listed, depth)
                    == Ok::<Option<TreeNode>, Failure>(Some(before[j]));
            assert(slots[k] == shorter[k]);
        } else {
            let k = slots.len() - 1;
            assert(build_slot(slots[k], root, listed, depth) == Ok::<Option<TreeNode>, Failure>(
                Some(nodes[j]),
            ));
        }
    }
}

/// Where names are plain and no two entries of a directory have the same
/// name, a path is shown once in the whole tree: two entries with the same
/// path, wherever they stand, are the same entry.
pub proof fn lemma_one_entry_per_path_anywhere(
    slots: Seq<DirSlot>,
    root: Seq<char>,
    listed: Set<Seq<char>>,
    depth: nat,
    one: TreeNode,
    other: TreeNode,
)
    requires
        names_are_plain(slots, depth),
        names_differ_throughout(slots, depth),
        build_entries(slots, root, listed, depth) is Ok,
        tree_holds(build_entries(slots, root, listed, depth)->Ok_0, one),
        tree_holds(build_entries(slots, root, listed, depth)->Ok_0, other),
        one.full_path == other.full_path,
    ensures
        one == other,
    decreases depth,
{
    let nodes = build_entries(slots, root, listed, depth)->Ok_0;
    let i = choose|i: int|
        0 <= i < nodes.len() && ((#[trigger] nodes[i]) == one || (
        nodes[i].children matches Some(c) && tree_holds(c, one)));
    let j = choose|j: int|
        0 <= j < nodes.len() && ((#[trigger] nodes[j]) == other || (
        nodes[j].children matches Some(c) && tree_holds(c, other)));
    lemma_node_has_slot(slots, i, root, listed, depth);
    lemma_node_has_slot(slots, j, root, listed, depth);
    let ki = choose|k: int|
        0 <= k < slots.len() && build_slot(#[trigger] slots[k], root, listed, depth) == Ok::<
            Option<TreeNode>,
            Failure,
        >(Some(nodes[i]));
    let kj = choose|k: int|
        0 <= k < slots.len() && build_slot(#[trigger] slots[k], root, listed, depth) == Ok::<
            Option<TreeNode>,
            Failure,
        >(Some(nodes[j]));
    lemma_slot_node(slots[ki], root, listed, depth);
    lemma_slot_node(slots[kj], root, listed, depth);
    lemma_one_entry_per_path(slots, root, listed, depth);
    let name_i = nodes[i].name;
    let name_j = nodes[j].name;
    assert(plain_name(name_i));
    assert(plain_name(name_j));
    if nodes[i].children is Some {
        let below = slots[ki]->Directory_contents->Entries_0@;
        lemma_paths_are_below(below, nodes[i].full_path, listed, (depth - 1) as nat);
    }
    if nodes[j].children is Some {
        let below = slots[kj]->Directory_contents->Entries_0@;
        lemma_paths_are_below(below, nodes[j].full_path, listed, (depth - 1) as nat);
    }
    if nodes[i] == one && nodes[j] == other {
        if i < j {
            assert(nodes[i].full_path != nodes[j].full_path);
        } else if j < i {
            assert(nodes[j].full_path != nodes[i].full_path);
        }
    } else if nodes[i] == one {
        lemma_held_is_below(nodes[j].children->0, nodes[j].full_path, other);
        lemma_sibling_is_not_below(root, name_i, name_j);
    } else if nodes[j] == other {
        lemma_held_is_below(nodes[i].children->0, nodes[i].full_path, one);
        lemma_sibling_is_not_below(root, name_j, name_i);
    } else {
        lemma_held_is_below(nodes[i].children->0, nodes[i].full_path, one);
        lemma_held_is_below(nodes[j].children->0, nodes[j].full_path, other);
        lemma_below_one_entry(one.full_path, root, name_i, name_j);
        if i < j {
            assert(nodes[i].full_path != nodes[j].full_path);
        } else if j < i {
            assert(nodes[j].full_path != nodes[i].full_path);
        }
        assert(i == j);
        let below = slots[ki]->Directory_contents->Entries_0@;
        lemma_one_entry_per_path_anywhere(
            below,
            nodes[i].full_path,
            listed,
            (depth - 1) as nat,
            one,
            other,
        );
    }
}

/// The path `.git` is shown nowhere in a tree, and below the repository
/// root itself no entry of the top level is named `.git`.
pub proof fn lemma_git_is_never_shown(
    slots: Seq<DirSlot>,
    root: Seq<char>,
    listed: Set<Seq<char>>,
    depth: nat,
)
    ensures
        build_entries(slots, root, listed, depth) matches Ok(nodes) ==> {
            &&& !shows_path(nodes, git_dir())
            &&& root.len() == 0 ==> forall|j: int|
                0 <= j < nodes.len() ==> (#[trigger] nodes[j]).name != git_dir()
        },
    decreases depth, slots.len(),
{
    if slots.len() > 0 && build_entries(slots, root, listed, depth) is Ok {
        lemma_entries_step(slots, root, listed, depth);
        lemma_git_is_never_shown(slots.drop_last(), root, listed, depth);
        lemma_slot_node(slots.last(), root, listed, depth);
        let nodes = build_entries(slots, root, listed, depth)->Ok_0;
        let before = build_entries(slots.drop_last(), root, listed, depth)->Ok_0;
        match slots.last() {
            DirSlot::Directory { name, contents } => {
                if depth > 0 {
                    match contents {
                        DirListing::Entries(below) => {
                            lemma_git_is_never_shown(
                                below@,
                                join_spec(root, name@),
                                listed,
                                (depth - 1) as nat,
                            );
                        },
                        _ => {},
                    }
                }
            },
            _ => {},
        }
        assert forall|j: int| 0 <= j < nodes.len() implies (#[trigger] nodes[j]).full_path
            != git_dir() && !(nodes[j].children matches Some(c) && shows_path(c, git_dir())) by {
            if j < before.len() {
                assert(nodes[j] == before[j]);
            }
        }
        assert forall|j: int| 0 <= j < nodes.len() && root.len() == 0 implies (
        #[trigger] nodes[j]).name != git_dir() by {
            if j < before.len() {
                assert(nodes[j] == before[j]);
            }
        }
    }
}

/// A file that is shown is shown with the length that was read for it.
pub proof fn lemma_file_size_is_kept(
    slot: DirSlot,
    root: Seq<char>,
    listed: Set<Seq<char>>,
    depth: nat,
)
    requires
        slot matches DirSlot::File { size, .. } && size is Ok,
        is_listed(slot, root, listed),
    ensures
        build_slot(slot, root, listed, depth) matches Ok(Some(node)) && node.entry_type
            == EntryType::FILE && node.size == Some(slot->File_size->Ok_0),
{
}

/// Two trees built from the same listing, tracked set and depth are the
/// same tree.
pub proof fn lemma_same_listing_same_tree(
    first: Result<Vec<TreeEntry>, ResponseStatus>,
    second: Result<Vec<TreeEntry>, ResponseStatus>,
    listing: DirListing,
    root: Seq<char>,
    listed: Set<Seq<char>>,
    depth: nat,
)
    requires
        outcome_of(first) == build_listing(listing, root, listed, depth),
        outcome_of(second) == build_listing(listing, root, listed, depth),
    ensures
        outcome_of(first) == outcome_of(second),
{
}

/// A symlink never fails a request: one whose target could not be read is
/// shown with the placeholder in its place.
pub proof fn lemma_symlink_never_fails(
    slot: DirSlot,
    root: Seq<char>,
    listed: Set<Seq<char>>,
    depth: nat,
)
    requires
        slot is Symlink,
    ensures
        build_slot(slot, root, listed, depth) is Ok,
        is_listed(slot, root, listed) ==> (build_slot(slot, root, listed, depth) matches Ok(
            Some(node),
        ) && node.entry_type == EntryType::SYMLINK && node.target == Some(
            match slot->Symlink_target {
                Some(t) => t@,
                None => INVALID_SYMLINK@,
            },
        )),
{
}

} // verus!
