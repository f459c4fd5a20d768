use vstd::prelude::*;

use crate::node::{Tree, VNode};
use crate::string_map::StringMap;

verus! {

/// A patch as the contracts see it.
pub enum Edit {
    Replace(Tree),
    Add(Tree),
    Remove,
    UpdateAttributes(Map<Seq<char>, Option<Seq<char>>>),
    UpdateEventHandlers(Map<Seq<char>, Option<u64>>),
    UpdateState(Seq<char>, Seq<char>),
}

/// One edit of a tree.
///
/// In an attribute or handler update, `Some` sets a key and `None` deletes it.
#[derive(Debug)]
pub enum Patch {
    /// Discard the target subtree and put this one in its place.
    Replace(VNode),
    /// Append this node at the end of a child list.
    Add(VNode),
    /// Drop the last child of a child list.
    Remove,
    UpdateAttributes(StringMap<Option<String>>),
    UpdateEventHandlers(StringMap<Option<u64>>),
    /// Set a named state slot of a component to a value.
    UpdateState(String, String),
}

/// Why a patch could not be applied.
#[derive(Debug, Clone, Copy, PartialEq, Eq, Structural)]
pub enum PatchError {
    /// The patch addressed a node of a variant it does not apply to.
    InvalidPatchTarget,
}

impl Patch {
    pub open spec fn view(&self) -> Edit {
        match self {
            Patch::Replace(n) => Edit::Replace(n@),
            Patch::Add(n) => Edit::Add(n@),
            Patch::Remove => Edit::Remove,
            Patch::UpdateAttributes(m) => Edit::UpdateAttributes(m@),
            Patch::UpdateEventHandlers(m) => Edit::UpdateEventHandlers(m@),
            Patch::UpdateState(k, v) => Edit::UpdateState(k@, v@),
        }
    }
}

/// The edits of a list of patches.
pub open spec fn edit_list(p: Seq<Patch>) -> Seq<Edit> {
    Seq::new(p.len(), |i: int| p[i]@)
}

} // verus!
