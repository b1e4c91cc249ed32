//! A folder tree beside a list of files: each folder's subfolders once
//! read, and which folders are open. Folders are read when opened; the
//! folders above the one shown are opened by themselves.

use vstd::prelude::*;

use crate::files_list;
use crate::files_text;

verus! {

/// A folder of the tree.
pub struct Node {
    /// Name and path of each subfolder; `None` until read.
    pub children: Option<Vec<(String, Vec<u8>)>>,
    pub open: bool,
    pub loading: bool,
}

/// A folder of the tree.
pub struct NodeView {
    pub children: Option<Seq<(Seq<char>, Seq<u8>)>>,
    pub open: bool,
    pub loading: bool,
}

/// Folders by name and path.
pub open spec fn folders(v: Seq<(String, Vec<u8>)>) -> Seq<(Seq<char>, Seq<u8>)> {
    v.map_values(|f: (String, Vec<u8>)| (f.0@, f.1@))
}

impl View for Node {
    type V = NodeView;

    open spec fn view(&self) -> NodeView {
        NodeView {
            children: match self.children {
                Some(c) => Some(folders(c@)),
                None => None,
            },
            open: self.open,
            loading: self.loading,
        }
    }
}

/// The folders that were opened, by path.
pub struct Tree {
    pub nodes: Vec<(Vec<u8>, Node)>,
}

/// What a list of folders holds, by path.
pub open spec fn nodes_in(list: Seq<(Vec<u8>, Node)>) -> Map<Seq<u8>, NodeView>
    decreases list.len(),
{
    if list.len() == 0 {
        Map::empty()
    } else {
        nodes_in(list.drop_last()).insert(list.last().0@, list.last().1@)
    }
}

impl View for Tree {
    type V = Map<Seq<u8>, NodeView>;

    open spec fn view(&self) -> Map<Seq<u8>, NodeView> {
        nodes_in(self.nodes@)
    }
}

/// No path twice.
pub open spec fn once_each(list: Seq<(Vec<u8>, Node)>) -> bool {
    forall|i: int, j: int| #![trigger list[i], list[j]] 0 <= i < j < list.len() ==> list[i].0@ != list[j].0@
}

/// A folder that was never opened.
pub open spec fn closed_node() -> NodeView {
    NodeView { children: None, open: false, loading: false }
}

/// A folder; one that was never opened is closed.
pub open spec fn node_at(tree: Map<Seq<u8>, NodeView>, path: Seq<u8>) -> NodeView {
    if tree.contains_key(path) {
        tree[path]
    } else {
        closed_node()
    }
}

/// A folder's subfolders need reading.
pub open spec fn needs_reading(n: NodeView) -> bool {
    n.children is None && !n.loading
}

/// The tree after a folder was opened.
pub open spec fn opened(tree: Map<Seq<u8>, NodeView>, path: Seq<u8>) -> Map<Seq<u8>, NodeView> {
    let n = node_at(tree, path);
    tree.insert(path, NodeView { open: true, loading: n.loading || needs_reading(n), ..n })
}

/// The tree after a folder was closed.
pub open spec fn shut(tree: Map<Seq<u8>, NodeView>, path: Seq<u8>) -> Map<Seq<u8>, NodeView> {
    tree.insert(path, NodeView { open: false, ..node_at(tree, path) })
}

/// The tree after a folder was read.
pub open spec fn filled(
    tree: Map<Seq<u8>, NodeView>,
    path: Seq<u8>,
    children: Seq<(Seq<char>, Seq<u8>)>,
) -> Map<Seq<u8>, NodeView> {
    tree.insert(path, NodeView { children: Some(children), loading: false, ..node_at(tree, path) })
}

proof fn lemma_nodes(list: Seq<(Vec<u8>, Node)>, i: int)
    requires
        once_each(list),
        0 <= i < list.len(),
    ensures
        nodes_in(list).contains_key(list[i].0@),
        nodes_in(list)[list[i].0@] == list[i].1@,
    decreases list.len(),
{
    let rest = list.drop_last();
    if i < rest.len() {
        assert forall|a: int, b: int| #![trigger rest[a], rest[b]] 0 <= a < b < rest.len() implies rest[a].0@
            != rest[b].0@ by {
            assert(rest[a] == list[a] && rest[b] == list[b]);
        }
        lemma_nodes(rest, i);
        assert(rest[i] == list[i]);
        assert(list[i].0@ != list[list.len() - 1].0@);
    }
}

proof fn lemma_no_node(list: Seq<(Vec<u8>, Node)>, path: Seq<u8>)
    requires
        forall|i: int| 0 <= i < list.len() ==> (#[trigger] list[i]).0@ != path,
    ensures
        !nodes_in(list).contains_key(path),
    decreases list.len(),
{
    if list.len() > 0 {
        let rest = list.drop_last();
        assert forall|i: int| 0 <= i < rest.len() implies (#[trigger] rest[i]).0@ != path by {
            assert(rest[i] == list[i]);
        }
        lemma_no_node(rest, path);
        assert(list[list.len() - 1].0@ != path);
    }
}

proof fn lemma_update(list: Seq<(Vec<u8>, Node)>, i: int, n: (Vec<u8>, Node))
    requires
        once_each(list),
        0 <= i < list.len(),
        n.0@ == list[i].0@,
    ensures
        once_each(list.update(i, n)),
        nodes_in(list.update(i, n)) == nodes_in(list).insert(n.0@, n.1@),
    decreases list.len(),
{
    let after = list.update(i, n);
    assert forall|a: int, b: int| #![trigger after[a], after[b]] 0 <= a < b < after.len() implies after[a].0@
        != after[b].0@ by {
        assert(list[a].0@ != list[b].0@);
    }
    let rest = list.drop_last();
    if i < rest.len() {
        assert forall|a: int, b: int| #![trigger rest[a], rest[b]] 0 <= a < b < rest.len() implies rest[a].0@
            != rest[b].0@ by {
            assert(rest[a] == list[a] && rest[b] == list[b]);
        }
        assert(rest[i] == list[i]);
        lemma_update(rest, i, n);
        assert(after.drop_last() =~= rest.update(i, n));
        let last = list.last();
        assert(after.last() == last);
        assert(list[i].0@ != list[list.len() - 1].0@);
        assert(nodes_in(rest).insert(n.0@, n.1@).insert(last.0@, last.1@) =~= nodes_in(rest).insert(
            last.0@,
            last.1@,
        ).insert(n.0@, n.1@));
    } else {
        assert(after.drop_last() =~= rest);
        assert(after.last() == n);
        assert(nodes_in(rest).insert(n.0@, n.1@) =~= nodes_in(list).insert(n.0@, n.1@));
    }
}

proof fn lemma_push(list: Seq<(Vec<u8>, Node)>, n: (Vec<u8>, Node))
    requires
        once_each(list),
        forall|i: int| 0 <= i < list.len() ==> (#[trigger] list[i]).0@ != n.0@,
    ensures
        once_each(list.push(n)),
        nodes_in(list.push(n)) == nodes_in(list).insert(n.0@, n.1@),
{
    let after = list.push(n);
    assert(after.drop_last() =~= list);
    assert forall|a: int, b: int| #![trigger after[a], after[b]] 0 <= a < b < after.len() implies after[a].0@
        != after[b].0@ by {
        if b < list.len() {
            assert(list[a].0@ != list[b].0@);
        } else {
            assert(list[a].0@ != n.0@);
        }
    }
}

impl Tree {
    /// No path twice.
    pub open spec fn wf(self) -> bool {
        once_each(self.nodes@)
    }

    /// No folder was opened.
    pub fn new() -> (r: Tree)
        ensures
            r.wf(),
            r@ == Map::<Seq<u8>, NodeView>::empty(),
    {
        Tree { nodes: Vec::new() }
    }

    /// Where a folder is in the list; it is added where it is not there.
    fn node(&mut self, path: &[u8]) -> (r: usize)
        requires
            old(self).wf(),
        ensures
            final(self).wf(),
            r < final(self).nodes@.len(),
            final(self).nodes@[r as int].0@ == path@,
            final(self).nodes@[r as int].1@ == node_at(old(self)@, path@),
            final(self)@ == old(self)@.insert(path@, node_at(old(self)@, path@)),
    {
        let mut i: usize = 0;
        while i < self.nodes.len()
            invariant
                i <= self.nodes@.len(),
                *self == *old(self),
                self.wf(),
                forall|j: int| 0 <= j < i ==> (#[trigger] self.nodes@[j]).0@ != path@,
            decreases self.nodes@.len() - i,
        {
            if files_list::same_key(&self.nodes[i].0, path) {
                proof {
                    lemma_nodes(self.nodes@, i as int);
                    assert(self@.insert(path@, node_at(self@, path@)) =~= self@);
                }
                return i;
            }
            i += 1;
        }
        let ghost before = self.nodes@;
        proof {
            lemma_no_node(before, path@);
        }
        let key = files_list::copy_key(path);
        let n = (key, Node { children: None, open: false, loading: false });
        proof {
            lemma_push(before, n);
        }
        self.nodes.push(n);
        self.nodes.len() - 1
    }

    /// Whether a folder is open.
    pub fn is_open(&self, path: &[u8]) -> (r: bool)
        requires
            self.wf(),
        ensures
            r == node_at(self@, path@).open,
    {
        let mut i: usize = 0;
        while i < self.nodes.len()
            invariant
                i <= self.nodes@.len(),
                self.wf(),
                forall|j: int| 0 <= j < i ==> (#[trigger] self.nodes@[j]).0@ != path@,
            decreases self.nodes@.len() - i,
        {
            if files_list::same_key(&self.nodes[i].0, path) {
                proof {
                    lemma_nodes(self.nodes@, i as int);
                }
                return self.nodes[i].1.open;
            }
            i += 1;
        }
        proof {
            lemma_no_node(self.nodes@, path@);
        }
        false
    }

    /// Opens a folder; whether its subfolders need reading.
    pub fn open(&mut self, path: &[u8]) -> (r: bool)
        requires
            old(self).wf(),
        ensures
            final(self).wf(),
            final(self)@ == opened(old(self)@, path@),
            r == needs_reading(node_at(old(self)@, path@)),
    {
        let ghost start = self@;
        let i: usize = self.node(path);
        let ghost before = self.nodes@;
        let read = self.nodes[i].1.children.is_none() && !self.nodes[i].1.loading;
        self.nodes[i].1.open = true;
        if read {
            self.nodes[i].1.loading = true;
        }
        proof {
            lemma_update(before, i as int, self.nodes@[i as int]);
            assert(self.nodes@ =~= before.update(i as int, self.nodes@[i as int]));
            assert(self@ =~= opened(start, path@));
        }
        read
    }

    /// A folder's chevron: it is closed, or opened; whether its subfolders
    /// need reading.
    pub fn toggle(&mut self, path: &[u8]) -> (r: bool)
        requires
            old(self).wf(),
        ensures
            final(self).wf(),
            node_at(old(self)@, path@).open ==> !r && final(self)@ == shut(old(self)@, path@),
            !node_at(old(self)@, path@).open ==> final(self)@ == opened(old(self)@, path@) && r == needs_reading(
                node_at(old(self)@, path@),
            ),
    {
        if !self.is_open(path) {
            return self.open(path);
        }
        let ghost start = self@;
        let i: usize = self.node(path);
        let ghost before = self.nodes@;
        self.nodes[i].1.open = false;
        proof {
            lemma_update(before, i as int, self.nodes@[i as int]);
            assert(self.nodes@ =~= before.update(i as int, self.nodes@[i as int]));
            assert(self@ =~= shut(start, path@));
        }
        false
    }

    /// A folder was read.
    pub fn fill(&mut self, path: &[u8], children: Vec<(String, Vec<u8>)>)
        requires
            old(self).wf(),
        ensures
            final(self).wf(),
            final(self)@ == filled(old(self)@, path@, folders(children@)),
    {
        let ghost start = self@;
        let i: usize = self.node(path);
        let ghost before = self.nodes@;
        self.nodes[i].1.children = Some(children);
        self.nodes[i].1.loading = false;
        proof {
            lemma_update(before, i as int, self.nodes@[i as int]);
            assert(self.nodes@ =~= before.update(i as int, self.nodes@[i as int]));
            assert(self@ =~= filled(start, path@, folders(children@)));
        }
    }

    /// Opens folders one after the other; those whose subfolders need
    /// reading.
    pub fn expand(&mut self, chain: &[Vec<u8>]) -> (r: Vec<Vec<u8>>)
        requires
            old(self).wf(),
        ensures
            final(self).wf(),
            final(self)@ == expanded(old(self)@, files_text::paths(chain@)).0,
            files_text::paths(r@) == expanded(old(self)@, files_text::paths(chain@)).1,
    {
        let ghost start = self@;
        let ghost all = files_text::paths(chain@);
        let mut r: Vec<Vec<u8>> = Vec::new();
        let mut i: usize = 0;
        proof {
            assert(all.take(0) =~= Seq::empty());
            assert(files_text::paths(r@) =~= Seq::empty());
        }
        while i < chain.len()
            invariant
                i <= chain@.len(),
                all == files_text::paths(chain@),
                self.wf(),
                self@ == expanded(start, all.take(i as int)).0,
                files_text::paths(r@) == expanded(start, all.take(i as int)).1,
            decreases chain@.len() - i,
        {
            proof {
                assert(all.take(i + 1).drop_last() =~= all.take(i as int));
                assert(all.take(i + 1).last() == chain@[i as int]@);
            }
            if self.open(&chain[i]) {
                let ghost before = r@;
                let path = files_list::copy_key(&chain[i]);
                r.push(path);
                proof {
                    assert(files_text::paths(r@) =~= files_text::paths(before).push(path@));
                }
            }
            i += 1;
        }
        proof {
            assert(all.take(i as int) =~= all);
        }
        r
    }
}

/// The tree after folders were opened one after the other, and those whose
/// subfolders need reading.
pub open spec fn expanded(tree: Map<Seq<u8>, NodeView>, chain: Seq<Seq<u8>>) -> (Map<Seq<u8>, NodeView>, Seq<Seq<u8>>)
    decreases chain.len(),
{
    if chain.len() == 0 {
        (tree, Seq::empty())
    } else {
        let (t, read) = expanded(tree, chain.drop_last());
        (
            opened(t, chain.last()),
            if needs_reading(node_at(t, chain.last())) {
                read.push(chain.last())
            } else {
                read
            },
        )
    }
}

/// A folder is read once: while it is being read, and once it was, opening
/// it again asks for nothing.
pub proof fn law_a_folder_is_read_once(
    tree: Map<Seq<u8>, NodeView>,
    path: Seq<u8>,
    children: Seq<(Seq<char>, Seq<u8>)>,
)
    ensures
        !needs_reading(node_at(opened(tree, path), path)),
        !needs_reading(node_at(filled(tree, path, children), path)),
        !needs_reading(node_at(shut(filled(tree, path, children), path), path)),
        node_at(filled(opened(tree, path), path, children), path).open,
{
}

/// What happens to one folder leaves the others alone.
pub proof fn law_other_folders_stay(tree: Map<Seq<u8>, NodeView>, path: Seq<u8>, other: Seq<u8>)
    requires
        path != other,
    ensures
        node_at(opened(tree, path), other) == node_at(tree, other),
        node_at(shut(tree, path), other) == node_at(tree, other),
{
}

/// A folder that was never opened is closed and not read; opening opens it
/// and reads it once, closing leaves what was read, and reading fills it.
pub proof fn law_folders_open_and_close(tree: Map<Seq<u8>, NodeView>, path: Seq<u8>, children: Seq<(Seq<char>, Seq<u8>)>)
    ensures
        !tree.contains_key(path) ==> !node_at(tree, path).open && !node_at(tree, path).loading && node_at(tree, path).children is None,
        tree.contains_key(path) ==> node_at(tree, path) == tree[path],
        node_at(opened(tree, path), path).open,
        node_at(opened(tree, path), path).children == node_at(tree, path).children,
        node_at(tree, path).children is None ==> node_at(opened(tree, path), path).loading,
        node_at(tree, path).children is Some ==> node_at(opened(tree, path), path).loading == node_at(tree, path).loading,
        !node_at(shut(tree, path), path).open,
        node_at(shut(tree, path), path).children == node_at(tree, path).children,
        node_at(shut(tree, path), path).loading == node_at(tree, path).loading,
        node_at(filled(tree, path, children), path).children == Some(children),
        !node_at(filled(tree, path, children), path).loading,
        node_at(filled(tree, path, children), path).open == node_at(tree, path).open,
        needs_reading(node_at(tree, path)) <==> node_at(tree, path).children is None && !node_at(tree, path).loading,
        forall|other: Seq<u8>| other != path ==> #[trigger] node_at(filled(tree, path, children), other) == node_at(tree, other),
{
}

/// The way to a folder opens one folder after the other, and reads those
/// that were not.
pub proof fn law_the_way_to_a_folder(tree: Map<Seq<u8>, NodeView>, chain: Seq<Seq<u8>>, path: Seq<u8>)
    ensures
        expanded(tree, Seq::empty()) == (tree, Seq::<Seq<u8>>::empty()),
        expanded(tree, chain.push(path)).0 == opened(expanded(tree, chain).0, path),
        needs_reading(node_at(expanded(tree, chain).0, path)) ==> expanded(tree, chain.push(path)).1 == expanded(tree, chain).1.push(
            path,
        ),
        !needs_reading(node_at(expanded(tree, chain).0, path)) ==> expanded(tree, chain.push(path)).1 == expanded(tree, chain).1,
{
    assert(chain.push(path).drop_last() =~= chain);
}

/// A folder stands once in a tree that is well kept.
pub proof fn law_folders_stand_once(list: Seq<(Vec<u8>, Node)>, i: int, j: int)
    requires
        once_each(list),
        0 <= i < list.len(),
        0 <= j < list.len(),
        i != j,
    ensures
        list[i].0@ != list[j].0@,
{
}

} // verus!
