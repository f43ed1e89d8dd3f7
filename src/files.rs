//! The file tree as the editor shows it, the filters applied to walks and to
//! change events, and the batching of change events.
use vstd::prelude::*;
use crate::cache::same_text;

verus! {

/// Quiet period, in milliseconds, before accumulated change events are sent.
pub const DEBOUNCE_MS: u128 = 120;

/// One entry of a flattened directory tree.
pub struct FsNode {
    /// Full path of the entry.
    pub id: String,
    /// File name of the entry.
    pub name: String,
    /// Depth below the root: children of the root have depth 0.
    pub depth: usize,
    /// `"file"` or `"dir"`.
    pub kind: String,
}

/// A batch of changed paths, sent to the editor at once.
pub struct FsChange {
    pub paths: Vec<String>,
    pub kind: String,
}

/// The kind of an entry, as text.
pub open spec fn kind_text(is_dir: bool) -> Seq<char> {
    if is_dir {
        "dir"@
    } else {
        "file"@
    }
}

fn kind_of(is_dir: bool) -> (r: String)
    ensures
        r@ == kind_text(is_dir),
{
    broadcast use vstd::string::group_string_axioms;

    if is_dir {
        "dir".to_string()
    } else {
        "file".to_string()
    }
}

impl FsNode {
    /// The node of an entry found `rel_depth` path components below the
    /// root; the root itself (depth 0) has no node.
    pub fn at_depth(id: String, name: String, rel_depth: usize, is_dir: bool) -> (r: Option<FsNode>)
        ensures
            rel_depth == 0 <==> r is None,
            r matches Some(n) ==> n.id@ == id@ && n.name@ == name@ && n.depth == rel_depth - 1
                && n.kind@ == kind_text(is_dir),
    {
        if rel_depth == 0 {
            return None;
        }
        Some(FsNode { id, name, depth: rel_depth - 1, kind: kind_of(is_dir) })
    }

    /// The node of an immediate child of a directory.
    pub fn child(id: String, name: String, is_dir: bool) -> (r: FsNode)
        ensures
            r.id@ == id@,
            r.name@ == name@,
            r.depth == 0,
            r.kind@ == kind_text(is_dir),
    {
        FsNode { id, name, depth: 0, kind: kind_of(is_dir) }
    }
}

impl FsChange {
    /// A batch of the given paths.
    pub fn batch(paths: Vec<String>) -> (r: FsChange)
        ensures
            r.paths@ == paths@,
            r.kind@ == "Batch"@,
    {
        broadcast use vstd::string::group_string_axioms;

        FsChange { paths, kind: "Batch".to_string() }
    }
}

/// An entry name is hidden when it starts with a dot.
pub open spec fn hidden_name(name: Seq<char>) -> bool {
    name.len() > 0 && name[0] == '.'
}

/// The name starts with a dot; walks prune such entries and never descend
/// into them.
pub fn is_hidden_name(name: &str) -> (r: bool)
    ensures
        r == hidden_name(name@),
{
    broadcast use vstd::string::group_string_axioms;

    let mut chars = name.chars();
    match chars.next() {
        Some(c) => c == '.',
        None => false,
    }
}

/// Directory names whose events are too noisy to forward.
pub open spec fn ignored_component(c: Seq<char>) -> bool {
    c == "node_modules"@ || c == ".git"@ || c == "target"@
}

/// The path, given by its components, lies inside an ignored directory
/// (`node_modules`, `.git` or `target`).
pub fn should_ignore(components: &Vec<String>) -> (r: bool)
    ensures
        r == exists|i: int| 0 <= i < components.len() && ignored_component(#[trigger] components@[i]@),
{
    let mut i: usize = 0;
    while i < components.len()
        invariant
            i <= components.len(),
            forall|k: int| 0 <= k < i ==> !ignored_component(#[trigger] components@[k]@),
        decreases components.len() - i,
    {
        let c = components[i].as_str();
        if same_text(c, "node_modules") || same_text(c, ".git") || same_text(c, "target") {
            return true;
        }
        i = i + 1;
    }
    false
}

/// Accumulated events are sent once the quiet period has passed and there
/// is at least one.
pub fn should_flush(elapsed_ms: u128, pending: usize) -> (r: bool)
    ensures
        r == (elapsed_ms >= DEBOUNCE_MS && pending > 0),
{
    elapsed_ms >= DEBOUNCE_MS && pending > 0
}

} // verus!
