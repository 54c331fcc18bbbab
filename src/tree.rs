use vstd::prelude::*;

use crate::error::FsError;
use crate::paths::{entry_name, path_file_name};

verus! {

/// One entry of a directory-tree snapshot.
#[derive(Debug)]
pub struct FileNode {
    pub name: String,
    pub path: String,
    pub is_dir: bool,
    /// The entries inside a directory; `None` for anything else.
    pub children: Option<Vec<FileNode>>,
}

/// Metadata of one entry, as read at query time.
#[derive(Debug, Clone)]
pub struct FileMetadata {
    pub name: String,
    pub path: String,
    /// Size in bytes.
    pub size: u64,
    /// Last modification, in milliseconds since the Unix epoch.
    pub last_modified: u64,
    pub is_dir: bool,
}

broadcast use vstd::std_specs::vec::axiom_vec_index_decreases;

/// A node and all nodes below it carry children exactly when they are
/// directories.
pub open spec fn well_shaped(n: FileNode) -> bool
    decreases n,
{
    &&& n.children.is_some() == n.is_dir
    &&& match n.children {
        Some(c) => forall|i: int| 0 <= i < c.len() ==> well_shaped(#[trigger] c[i]),
        None => true,
    }
}

/// The name shown for the entry at `path`.
pub open spec fn shown_name(path: Seq<char>) -> Seq<char> {
    match path_file_name(path) {
        Some(f) => f,
        None => path,
    }
}

impl FileNode {
    /// A node carries children exactly when it is a directory.
    pub open spec fn children_match_kind(&self) -> bool {
        self.children.is_some() == self.is_dir
    }

    /// The node for the entry at `path`. A directory gets `children` (empty
    /// when it has no entries); anything else gets none and `children` is
    /// dropped.
    pub fn for_entry(path: &str, is_dir: bool, children: Vec<FileNode>) -> (r: FileNode)
        ensures
            r.name@ == shown_name(path@),
            r.path@ == path@,
            r.is_dir == is_dir,
            r.children_match_kind(),
            is_dir ==> r.children == Some(children),
            !is_dir ==> r.children is None,
            (forall|i: int| 0 <= i < children.len() ==> well_shaped(#[trigger] children[i]))
                ==> well_shaped(r),
    {
        let name = entry_name(path);
        let kids = if is_dir {
            Some(children)
        } else {
            None
        };
        FileNode { name, path: String::from_str(path), is_dir, children: kids }
    }
}

/// A tree snapshot may be taken only of a directory that exists.
pub fn check_tree_root(exists: bool, is_dir: bool) -> (r: Result<(), FsError>)
    ensures
        !exists ==> r == Err::<(), FsError>(FsError::NotFound),
        exists && !is_dir ==> r == Err::<(), FsError>(FsError::NotADirectory),
        exists && is_dir ==> r == Ok::<(), FsError>(()),
{
    if !exists {
        Err(FsError::NotFound)
    } else if !is_dir {
        Err(FsError::NotADirectory)
    } else {
        Ok(())
    }
}

/// Nanoseconds in a millisecond.
pub const NANOS_PER_MILLI: u32 = 1_000_000;

/// Whole milliseconds in `secs` seconds and `nanos` nanoseconds, kept to the
/// low 64 bits as a cast from a wider integer keeps them.
pub open spec fn millis_of(secs: u64, nanos: u32) -> int {
    (secs as int * 1000 + nanos as int / NANOS_PER_MILLI as int) % 0x1_0000_0000_0000_0000
}

/// The millisecond timestamp of a time `secs` seconds and `nanos`
/// nanoseconds after the Unix epoch.
pub fn millis_since_epoch(secs: u64, nanos: u32) -> (r: u64)
    ensures
        r as int == millis_of(secs, nanos),
{
    let total: u128 = secs as u128 * 1000 + (nanos / NANOS_PER_MILLI) as u128;
    (total % 0x1_0000_0000_0000_0000) as u64
}

impl FileMetadata {
    /// The metadata of the entry at `path`, modified `secs` seconds and
    /// `nanos` nanoseconds after the Unix epoch.
    pub fn for_entry(path: String, size: u64, is_dir: bool, secs: u64, nanos: u32) -> (r:
        FileMetadata)
        ensures
            r.name@ == shown_name(path@),
            r.path@ == path@,
            r.size == size,
            r.is_dir == is_dir,
            r.last_modified as int == millis_of(secs, nanos),
    {
        let name = entry_name(path.as_str());
        let last_modified = millis_since_epoch(secs, nanos);
        FileMetadata { name, path, size, last_modified, is_dir }
    }
}

/// Assembles a tree snapshot from a depth-first walk: entering a directory,
/// reporting the files inside it, and leaving it again.
pub struct TreeBuilder {
    /// The directories entered and not yet left, innermost last, each with
    /// the nodes read so far inside it.
    open: Vec<(String, Vec<FileNode>)>,
    /// The finished nodes at the top of the snapshot.
    done: Vec<FileNode>,
}

/// Every node of `nodes` is well shaped.
pub open spec fn all_well_shaped(nodes: Seq<FileNode>) -> bool {
    forall|i: int| 0 <= i < nodes.len() ==> well_shaped(#[trigger] nodes[i])
}

/// The view of one open level: the directory's path and the nodes read so
/// far inside it.
pub open spec fn level_view(l: (String, Vec<FileNode>)) -> (Seq<char>, Seq<FileNode>) {
    (l.0@, l.1@)
}

impl TreeBuilder {
    /// The directories entered and not yet left, innermost last, each with
    /// the nodes read so far inside it.
    pub closed spec fn levels(&self) -> Seq<(Seq<char>, Seq<FileNode>)> {
        self.open@.map_values(|l: (String, Vec<FileNode>)| level_view(l))
    }

    /// The nodes finished at the top of the snapshot.
    pub closed spec fn top(&self) -> Seq<FileNode> {
        self.done@
    }

    /// Every node held, finished or not, is well shaped.
    pub closed spec fn wf(&self) -> bool {
        &&& all_well_shaped(self.done@)
        &&& forall|d: int| 0 <= d < self.open@.len() ==> all_well_shaped(#[trigger] self.open@[d].1@)
    }

    /// How many directories are entered and not yet left.
    pub open spec fn depth(&self) -> nat {
        self.levels().len()
    }

    /// The nodes read so far at the level the walk is in.
    pub open spec fn current(&self) -> Seq<FileNode> {
        if self.levels().len() == 0 {
            self.top()
        } else {
            self.levels().last().1
        }
    }

    /// This builder is the one with `levels` and `top` after `node` was
    /// added at the innermost level: every other level, and every node read
    /// before, stays as it was.
    pub open spec fn placed_on(
        &self,
        levels: Seq<(Seq<char>, Seq<FileNode>)>,
        top: Seq<FileNode>,
        node: FileNode,
    ) -> bool {
        if levels.len() == 0 {
            self.levels() == levels && self.top() == top.push(node)
        } else {
            &&& self.top() == top
            &&& self.levels() == levels.update(
                levels.len() - 1,
                (levels.last().0, levels.last().1.push(node)),
            )
        }
    }

    /// Every node a well-formed builder holds, finished or still open, is well
    /// shaped at every depth.
    pub proof fn lemma_nodes_well_shaped(&self)
        requires
            self.wf(),
        ensures
            all_well_shaped(self.top()),
            forall|d: int| 0 <= d < self.levels().len() ==> all_well_shaped(#[trigger] self.levels()[d].1),
    {
        assert forall|d: int| 0 <= d < self.levels().len() implies all_well_shaped(
            #[trigger] self.levels()[d].1,
        ) by {
            assert(self.levels()[d].1 == self.open@[d].1@);
        }
    }

    /// A builder at the top level with nothing read.
    pub fn new() -> (r: TreeBuilder)
        ensures
            r.wf(),
            r.levels().len() == 0,
            r.top().len() == 0,
    {
        let r = TreeBuilder { open: Vec::new(), done: Vec::new() };
        assert(r.levels() =~= Seq::<(Seq<char>, Seq<FileNode>)>::empty());
        r
    }

    /// Adds `node` at the current level.
    fn put(&mut self, node: FileNode)
        requires
            old(self).wf(),
            well_shaped(node),
        ensures
            final(self).wf(),
            final(self).placed_on(old(self).levels(), old(self).top(), node),
    {
        let ghost n = node;
        let ghost before = self.open@;
        match self.open.pop() {
            Some(level) => {
                let (path, mut nodes) = level;
                assert(all_well_shaped(nodes@)) by {
                    assert(old(self).open@[old(self).open@.len() - 1].1@ == nodes@);
                }
                nodes.push(node);
                assert(nodes@.last() == n);
                self.open.push((path, nodes));
                assert forall|d: int| 0 <= d < self.open@.len() implies all_well_shaped(
                    #[trigger] self.open@[d].1@,
                ) by {
                    if d < self.open@.len() - 1 {
                        assert(self.open@[d] == old(self).open@[d]);
                    }
                }
                let ghost lv = old(self).levels();
                assert(self.levels() =~= lv.update(lv.len() - 1, (lv.last().0, lv.last().1.push(n)))) by {
                    assert forall|d: int| 0 <= d < self.open@.len() - 1 implies self.open@[d] == before[d] by {}
                }
            },
            None => {
                self.done.push(node);
            },
        }
    }

    /// Reports a file (anything but a directory) at `path` inside the
    /// current directory.
    pub fn add_file(&mut self, path: &str)
        requires
            old(self).wf(),
        ensures
            final(self).wf(),
            final(self).placed_on(old(self).levels(), old(self).top(), final(self).current().last()),
            final(self).current().last().path@ == path@,
            final(self).current().last().name@ == shown_name(path@),
            !final(self).current().last().is_dir,
            final(self).current().last().children is None,
    {
        let node = FileNode::for_entry(path, false, Vec::new());
        self.put(node);
    }

    /// Enters the directory at `path`; the entries reported until it is left
    /// become its children.
    pub fn enter_dir(&mut self, path: String)
        requires
            old(self).wf(),
        ensures
            final(self).wf(),
            final(self).levels() == old(self).levels().push((path@, Seq::<FileNode>::empty())),
            final(self).top() == old(self).top(),
    {
        let ghost p = path@;
        let v: Vec<FileNode> = Vec::new();
        self.open.push((path, v));
        assert forall|d: int| 0 <= d < self.open@.len() implies all_well_shaped(
            #[trigger] self.open@[d].1@,
        ) by {
            if d < self.open@.len() - 1 {
                assert(self.open@[d] == old(self).open@[d]);
            }
        }
        assert(self.levels() =~= old(self).levels().push((p, Seq::<FileNode>::empty())));
    }

    /// Leaves the innermost directory entered: its node, with the path it was
    /// entered at and holding what was read inside it, joins the level around
    /// it after the nodes read there before. Where no directory is entered,
    /// nothing changes and `false` comes back.
    pub fn leave_dir(&mut self) -> (r: bool)
        requires
            old(self).wf(),
        ensures
            final(self).wf(),
            r == (old(self).levels().len() > 0),
            !r ==> final(self).levels() == old(self).levels() && final(self).top() == old(self).top(),
            r ==> final(self).placed_on(
                old(self).levels().drop_last(),
                old(self).top(),
                final(self).current().last(),
            ),
            r ==> final(self).current().last().path@ == old(self).levels().last().0,
            r ==> final(self).current().last().name@ == shown_name(old(self).levels().last().0),
            r ==> final(self).current().last().is_dir,
            r ==> (final(self).current().last().children matches Some(c) && c@ == old(
                self,
            ).levels().last().1),
    {
        let ghost before = self.open@;
        match self.open.pop() {
            Some(level) => {
                let (path, nodes) = level;
                assert(all_well_shaped(nodes@)) by {
                    assert(old(self).open@[old(self).open@.len() - 1].1@ == nodes@);
                }
                assert forall|d: int| 0 <= d < self.open@.len() implies all_well_shaped(
                    #[trigger] self.open@[d].1@,
                ) by {
                    assert(self.open@[d] == old(self).open@[d]);
                }
                assert(self.levels() =~= old(self).levels().drop_last()) by {
                    assert forall|d: int| 0 <= d < self.open@.len() implies self.open@[d] == before[d] by {}
                }
                assert(level_view(before.last()) == old(self).levels().last());
                let node = FileNode::for_entry(path.as_str(), true, nodes);
                self.put(node);
                true
            },
            None => {
                assert(self.levels() =~= old(self).levels());
                false
            },
        }
    }

    /// The snapshot, once every directory entered has been left; `None`
    /// while one is still open. Every node in it, at every depth, carries
    /// children exactly when it is a directory.
    pub fn finish(self) -> (r: Option<Vec<FileNode>>)
        requires
            self.wf(),
        ensures
            self.levels().len() == 0 ==> (r matches Some(v) && v@ == self.top() && all_well_shaped(
                v@,
            )),
            self.levels().len() > 0 ==> r is None,
    {
        if self.open.len() == 0 {
            Some(self.done)
        } else {
            None
        }
    }
}

} // verus!
