use vstd::prelude::*;

verus! {

/// The kind of filesystem node an entry stands for.
#[derive(Clone, Copy, PartialEq, Eq, Structural, Debug)]
pub enum NodeType {
    File,
    Directory,
    Symlink,
    Socket,
    Fifo,
    Other,
}

/// One node of an in-memory filesystem snapshot, as the metadata accessor
/// reports it: its name, the metadata read for it (following symlinks or not,
/// as the accessor was asked), its children when it is a directory, and the
/// results of the two fallible path resolutions (`None` where the accessor
/// failed or the node is no symlink).
pub struct Node {
    pub name: String,
    pub size: u64,
    pub mtime: i64,
    pub ntype: NodeType,
    pub children: Vec<Node>,
    pub link_target: Option<String>,
    pub canonical: Option<String>,
}

/// One resolved entry as the flat-list renderers consume it: the display
/// path, the name component shown, and the metadata read during traversal.
pub struct Entry {
    pub path: String,
    pub name: String,
    pub size: u64,
    pub mtime: i64,
    pub ntype: NodeType,
}

/// Mathematical image of an [`Entry`].
pub struct EntryV {
    pub path: Seq<char>,
    pub name: Seq<char>,
    pub size: int,
    pub mtime: int,
    pub ntype: NodeType,
}

impl View for Entry {
    type V = EntryV;

    open spec fn view(&self) -> EntryV {
        EntryV {
            path: self.path@,
            name: self.name@,
            size: self.size as int,
            mtime: self.mtime as int,
            ntype: self.ntype,
        }
    }
}

/// The sequence of mathematical images of a sequence of entries.
pub open spec fn entries_view(s: Seq<Entry>) -> Seq<EntryV> {
    s.map_values(|e: Entry| e@)
}

/// The sequence of character sequences behind a sequence of strings.
pub open spec fn strings_view(s: Seq<String>) -> Seq<Seq<char>> {
    s.map_values(|x: String| x@)
}

/// Counts accumulated over one traversal: directories and files that passed
/// the filters, and the sum of the counted sizes.
pub struct TreeStats {
    pub directories: u64,
    pub files: u64,
    pub total_size: u64,
}

impl TreeStats {
    /// A fresh accumulator with all counts zero.
    pub fn new() -> (r: TreeStats)
        ensures
            r.directories == 0,
            r.files == 0,
            r.total_size == 0,
    {
        TreeStats { directories: 0, files: 0, total_size: 0 }
    }
}

/// The height of a subtree: one for the node itself plus the tallest child.
pub open spec fn node_height(n: Node) -> nat
    decreases n, 0int, 0int,
{
    1 + children_height(n.children@, 0)
}

/// The tallest subtree among the children from index `i` on.
pub open spec fn children_height(cs: Seq<Node>, i: int) -> nat
    decreases cs, 1int, cs.len() - i,
{
    if i < 0 || i >= cs.len() {
        0
    } else {
        let h = node_height(cs[i]);
        let rest = children_height(cs, i + 1);
        if h >= rest {
            h
        } else {
            rest
        }
    }
}

/// Every child stands strictly below its parent.
pub proof fn lemma_child_height(cs: Seq<Node>, i: int, j: int)
    requires
        0 <= i <= j < cs.len(),
    ensures
        node_height(cs[j]) <= children_height(cs, i),
    decreases j - i,
{
    if i < j {
        lemma_child_height(cs, i + 1, j);
    }
}

/// Addition capped at the largest count the accumulator can hold.
pub open spec fn sat_add(a: int, b: int) -> int {
    if a + b > u64::MAX {
        u64::MAX as int
    } else {
        a + b
    }
}

/// Capped addition of non-negative amounts folds into one capped addition.
pub proof fn lemma_sat_add_assoc(a: int, b: int, c: int)
    requires
        a >= 0,
        b >= 0,
        c >= 0,
    ensures
        sat_add(sat_add(a, b), c) == sat_add(a, b + c),
{
}

/// Capped addition on counters.
pub(crate) fn sat_add_u64(a: u64, b: u64) -> (r: u64)
    ensures
        r as int == sat_add(a as int, b as int),
{
    if a > u64::MAX - b {
        u64::MAX
    } else {
        a + b
    }
}

impl NodeType {
    /// Whether this node kind is a directory.
    pub fn is_dir(&self) -> (r: bool)
        ensures
            r == (*self is Directory),
    {
        match self {
            NodeType::Directory => true,
            _ => false,
        }
    }

    /// Whether this node kind is a regular file.
    pub fn is_file(&self) -> (r: bool)
        ensures
            r == (*self is File),
    {
        match self {
            NodeType::File => true,
            _ => false,
        }
    }
}

} // verus!
