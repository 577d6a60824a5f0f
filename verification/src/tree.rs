//! The in-memory file tree and the collection of the selected entries.

use crate::text::texts;
use vstd::prelude::*;
use vstd::string::StringExecFns;

verus! {

/// The mathematical model of a [`Node`]: one filesystem entry with the
/// entries below it, in the order in which the directory listed them.
pub struct Tree {
    pub name: Seq<char>,
    pub is_dir: bool,
    pub is_selected: bool,
    pub children: Seq<Tree>,
}

/// The character that separates the components of a relative path.
pub open spec fn separator() -> char {
    '/'
}

/// An index path as integers.
pub open spec fn indices(path: Seq<usize>) -> Seq<int> {
    path.map_values(|i: usize| i as int)
}

impl Tree {
    /// An entry that is not a directory has no children, at every level.
    pub open spec fn wf(self) -> bool
        decreases self,
    {
        &&& !self.is_dir ==> self.children.len() == 0
        &&& forall|i: int| 0 <= i < self.children.len() ==> (#[trigger] self.children[i]).wf()
    }

    /// A leaf entry that is not yet selected.
    pub open spec fn leaf(name: Seq<char>, is_dir: bool) -> Tree {
        Tree { name, is_dir, is_selected: false, children: Seq::empty() }
    }

    /// Whether `path` leads from this node to a node below it (or, when
    /// empty, to this node): each step is the index of a child.
    pub open spec fn valid_path(self, path: Seq<int>) -> bool
        decreases path.len(),
    {
        path.len() == 0 || {
            &&& 0 <= path[0] < self.children.len()
            &&& self.children[path[0]].valid_path(path.drop_first())
        }
    }

    /// The node that `path` leads to.
    pub open spec fn at(self, path: Seq<int>) -> Tree
        recommends
            self.valid_path(path),
        decreases path.len(),
    {
        if path.len() == 0 {
            self
        } else {
            self.children[path[0]].at(path.drop_first())
        }
    }

    /// This tree with the selection flag of the node at `path` flipped.
    pub open spec fn toggled(self, path: Seq<int>) -> Tree
        recommends
            self.valid_path(path),
        decreases path.len(),
    {
        if path.len() == 0 {
            Tree { is_selected: !self.is_selected, ..self }
        } else {
            Tree {
                children: self.children.update(
                    path[0],
                    self.children[path[0]].toggled(path.drop_first()),
                ),
                ..self
            }
        }
    }

    /// This tree with `kids` as the children of the node at `path`.
    pub open spec fn with_children(self, path: Seq<int>, kids: Seq<Tree>) -> Tree
        recommends
            self.valid_path(path),
        decreases path.len(),
    {
        if path.len() == 0 {
            Tree { children: kids, ..self }
        } else {
            Tree {
                children: self.children.update(
                    path[0],
                    self.children[path[0]].with_children(path.drop_first(), kids),
                ),
                ..self
            }
        }
    }

    /// The names of the nodes on the way that `path` takes from this node,
    /// this node's own name left out.
    pub open spec fn names_along(self, path: Seq<int>) -> Seq<Seq<char>>
        recommends
            self.valid_path(path),
        decreases path.len(),
    {
        if path.len() == 0 {
            Seq::empty()
        } else {
            seq![self.children[path[0]].name] + self.children[path[0]].names_along(path.drop_first())
        }
    }

    /// The number of selected nodes strictly below this node.
    pub open spec fn selected_below(self) -> nat
        decreases self,
    {
        selected_among(self.children)
    }

    /// The relative paths of the selected nodes in the subtree of this node,
    /// the node itself included, where `prefix` is the relative path of the
    /// directory that holds it (empty, or ending in a separator).  The
    /// entries below a node come before the node itself.
    pub open spec fn collected_under(self, prefix: Seq<char>) -> Seq<Seq<char>>
        decreases self,
    {
        let path = prefix + self.name;
        collected_among(self.children, path.push(separator())) + if self.is_selected {
            seq![path]
        } else {
            Seq::empty()
        }
    }

    /// What the collector gathers from this root: the relative paths of all
    /// selected nodes strictly below it, depth first.
    pub open spec fn collected(self) -> Seq<Seq<char>> {
        collected_among(self.children, Seq::empty())
    }

    /// The relative path of the node that `path` leads to from this node,
    /// where `prefix` is the relative path of the directory that holds this
    /// node (empty, or ending in a separator): the names on the way,
    /// joined by separators.
    pub open spec fn path_under(self, prefix: Seq<char>, path: Seq<int>) -> Seq<char>
        decreases path.len(),
    {
        let own = prefix + self.name;
        if path.len() == 0 {
            own
        } else {
            self.children[path[0]].path_under(own.push(separator()), path.drop_first())
        }
    }

    /// The path, relative to this root, of the node below it that the
    /// index path `path` leads to.
    pub open spec fn relative_path(self, path: Seq<int>) -> Seq<char>
        recommends
            path.len() > 0,
            self.valid_path(path),
    {
        self.children[path[0]].path_under(Seq::empty(), path.drop_first())
    }
}

/// The number of selected nodes in the subtrees of `items`.
pub open spec fn selected_among(items: Seq<Tree>) -> nat
    decreases items,
{
    if items.len() == 0 {
        0
    } else {
        selected_among(items.drop_last()) + items.last().selected_below() + if items.last().is_selected {
            1nat
        } else {
            0nat
        }
    }
}

/// The relative paths of the selected nodes in the subtrees of `items`, the
/// entries of one directory, subtree after subtree in listing order.
pub open spec fn collected_among(items: Seq<Tree>, prefix: Seq<char>) -> Seq<Seq<char>>
    decreases items,
{
    if items.len() == 0 {
        Seq::empty()
    } else {
        collected_among(items.drop_last(), prefix) + items.last().collected_under(prefix)
    }
}

/// One filesystem entry: a file or a directory with the entries below it.
///
/// A node owns its children.  Its place in the tree, the names on the way
/// from the root, is its relative path.
pub struct Node {
    name: String,
    is_dir: bool,
    is_selected: bool,
    children: Vec<Node>,
}

impl View for Node {
    type V = Tree;

    closed spec fn view(&self) -> Tree {
        model_of(*self)
    }
}

/// The model of one node.
pub closed spec fn model_of(node: Node) -> Tree
    decreases node,
{
    Tree {
        name: node.name@,
        is_dir: node.is_dir,
        is_selected: node.is_selected,
        children: view_each(node.children@),
    }
}

/// The models of the nodes of `nodes`, one after the other.
pub closed spec fn view_each(nodes: Seq<Node>) -> Seq<Tree>
    decreases nodes,
{
    if nodes.len() == 0 {
        Seq::empty()
    } else {
        view_each(nodes.drop_last()).push(model_of(nodes.last()))
    }
}

proof fn lemma_view_each(nodes: Seq<Node>)
    ensures
        view_each(nodes) == trees(nodes),
    decreases nodes.len(),
{
    if nodes.len() > 0 {
        lemma_view_each(nodes.drop_last());
        assert forall|i: int| 0 <= i < nodes.len() implies view_each(nodes)[i] == trees(nodes)[i] by {
            if i < nodes.len() - 1 {
                assert(nodes.drop_last()[i] == nodes[i]);
            }
        }
    }
    assert(view_each(nodes) =~= trees(nodes));
}

/// The models of a list of nodes.
pub open spec fn trees(nodes: Seq<Node>) -> Seq<Tree> {
    nodes.map_values(|n: Node| n@)
}

/// Whether each of `nodes` is well formed.
pub open spec fn nodes_wf(nodes: Seq<Node>) -> bool {
    forall|i: int| 0 <= i < nodes.len() ==> (#[trigger] nodes[i]).wf()
}

impl Node {
    /// Well-formedness of the whole subtree: only directories have children.
    pub open spec fn wf(&self) -> bool {
        self@.wf()
    }

    proof fn lemma_children(self)
        ensures
            self@.children == trees(self.children@),
            self@.name == self.name@,
            self@.is_dir == self.is_dir,
            self@.is_selected == self.is_selected,
    {
        lemma_view_each(self.children@);
    }

    /// A node for the entry `name`, unselected and without children.
    pub fn new(name: String, is_dir: bool) -> (node: Node)
        ensures
            node@ == Tree::leaf(name@, is_dir),
            node.wf(),
    {
        let node = Node { name, is_dir, is_selected: false, children: Vec::new() };
        proof {
            node.lemma_children();
            assert(trees(node.children@) =~= Seq::<Tree>::empty());
        }
        node
    }

    /// The entry's own name, the last component of its path.
    pub fn file_name(&self) -> (name: &str)
        ensures
            name@ == self@.name,
    {
        self.name.as_str()
    }

    /// Whether the entry is a directory.
    pub fn is_dir(&self) -> (b: bool)
        ensures
            b == self@.is_dir,
    {
        self.is_dir
    }

    /// Whether the entry is marked for the exclusion list.
    pub fn is_selected(&self) -> (b: bool)
        ensures
            b == self@.is_selected,
    {
        self.is_selected
    }

    /// The entries below this node, in listing order.
    pub fn children(&self) -> (items: &Vec<Node>)
        ensures
            trees(items@) == self@.children,
    {
        proof {
            self.lemma_children();
        }
        &self.children
    }

    /// Appends `child` as the last entry of this directory.  A node that is
    /// not a directory takes no children: it is left as it was and the
    /// child is handed back.
    pub fn push_child(&mut self, child: Node) -> (refused: Option<Node>)
        ensures
            old(self)@.is_dir ==> refused is None && final(self)@ == (Tree {
                children: old(self)@.children.push(child@),
                ..old(self)@
            }),
            !old(self)@.is_dir ==> refused == Some(child) && *final(self) == *old(self),
            old(self).wf() && child.wf() ==> final(self).wf(),
    {
        if self.is_dir {
            proof {
                self.lemma_children();
            }
            self.children.push(child);
            proof {
                self.lemma_children();
                assert(trees(self.children@) =~= trees(old(self).children@).push(child@));
            }
            None
        } else {
            Some(child)
        }
    }
}

/// Extending a path by one step: the longer path is valid exactly when the
/// shorter one is and the step is the index of a child of the node it leads
/// to, and it then leads to that child.
pub proof fn lemma_path_push(t: Tree, path: Seq<int>, i: int)
    ensures
        t.valid_path(path.push(i)) == (t.valid_path(path) && 0 <= i < t.at(path).children.len()),
        t.valid_path(path) ==> t.at(path.push(i)) == t.at(path).children[i],
    decreases path.len(),
{
    let longer = path.push(i);
    if path.len() == 0 {
        assert(longer.drop_first() =~= Seq::<int>::empty());
        assert(t.children[i].valid_path(longer.drop_first()));
        assert(t.children[i].at(longer.drop_first()) == t.children[i]);
    } else {
        assert(longer.drop_first() =~= path.drop_first().push(i));
        lemma_path_push(t.children[path[0]], path.drop_first(), i);
    }
}

/// Every prefix of a valid path is valid.
pub proof fn lemma_path_prefix(t: Tree, path: Seq<int>, k: int)
    requires
        t.valid_path(path),
        0 <= k <= path.len(),
    ensures
        t.valid_path(path.take(k)),
    decreases path.len(),
{
    if k > 0 {
        assert(path.take(k).drop_first() =~= path.drop_first().take(k - 1));
        lemma_path_prefix(t.children[path[0]], path.drop_first(), k - 1);
    }
}

impl Node {
    /// The node that the index path `path` leads to from this node, if it
    /// leads to one.
    pub fn node_at(&self, path: &Vec<usize>) -> (found: Option<&Node>)
        ensures
            found is Some <==> self@.valid_path(indices(path@)),
            found matches Some(node) ==> node@ == self@.at(indices(path@)),
    {
        let ghost full = indices(path@);
        let mut node = self;
        let mut depth: usize = 0;
        assert(full.take(0) =~= Seq::<int>::empty());
        while depth < path.len()
            invariant
                depth <= path.len(),
                full == indices(path@),
                self@.valid_path(full.take(depth as int)),
                node@ == self@.at(full.take(depth as int)),
            decreases path.len() - depth,
        {
            let i = path[depth];
            proof {
                node.lemma_children();
                assert(full.take(depth as int + 1) =~= full.take(depth as int).push(i as int));
                lemma_path_push(self@, full.take(depth as int), i as int);
            }
            if i >= node.children.len() {
                proof {
                    if self@.valid_path(full) {
                        lemma_path_prefix(self@, full, depth as int + 1);
                    }
                }
                return None;
            }
            node = &node.children[i];
            depth = depth + 1;
        }
        assert(full.take(depth as int) =~= full);
        Some(node)
    }
}

impl Node {
    fn toggle_from(&mut self, path: &Vec<usize>, depth: usize)
        requires
            depth <= path.len(),
            old(self)@.valid_path(indices(path@).skip(depth as int)),
        ensures
            final(self)@ == old(self)@.toggled(indices(path@).skip(depth as int)),
        decreases path.len() - depth,
    {
        let ghost rest = indices(path@).skip(depth as int);
        proof {
            (*self).lemma_children();
        }
        if depth == path.len() {
            self.is_selected = !self.is_selected;
            proof {
                (*self).lemma_children();
            }
        } else {
            let i = path[depth];
            proof {
                assert(rest.drop_first() =~= indices(path@).skip(depth as int + 1));
                assert(rest[0] == i as int);
            }
            let ghost before = self.children@;
            self.children[i].toggle_from(path, depth + 1);
            proof {
                (*self).lemma_children();
                assert(self.children@ =~= before.update(i as int, self.children@[i as int]));
                assert(trees(self.children@) =~= trees(before).update(
                    i as int,
                    trees(before)[i as int].toggled(rest.drop_first()),
                ));
            }
        }
    }

    /// Flips the selection flag of the node that `path` leads to.  A path
    /// that leads nowhere changes nothing.
    pub fn toggle_at(&mut self, path: &Vec<usize>) -> (done: bool)
        ensures
            done == old(self)@.valid_path(indices(path@)),
            done ==> final(self)@ == old(self)@.toggled(indices(path@)),
            !done ==> *final(self) == *old(self),
            old(self).wf() ==> final(self).wf(),
    {
        if self.node_at(path).is_some() {
            proof {
                assert(indices(path@).skip(0) =~= indices(path@));
                if self.wf() {
                    lemma_toggled_wf(self@, indices(path@));
                }
            }
            self.toggle_from(path, 0);
            true
        } else {
            false
        }
    }
}

fn collect_among(items: &Vec<Node>, prefix: &str, out: &mut Vec<String>)
    ensures
        texts(final(out)@) == texts(old(out)@) + collected_among(trees(items@), prefix@),
    decreases items,
{
    let ghost before = texts(out@);
    let ghost all = trees(items@);
    let mut i: usize = 0;
    assert(all.take(0) =~= Seq::<Tree>::empty());
    while i < items.len()
        invariant
            i <= items.len(),
            all == trees(items@),
            texts(out@) == before + collected_among(all.take(i as int), prefix@),
        decreases items.len() - i,
    {
        let child = &items[i];
        let mut path = String::from_str(prefix);
        path.append(child.name.as_str());
        let mut below = path.clone();
        below.append("/");
        proof {
            reveal_strlit("/");
            child.lemma_children();
            assert(below@ =~= path@.push(separator()));
            assert(all.take(i as int + 1).drop_last() =~= all.take(i as int));
            assert(all.take(i as int + 1).last() == child@);
        }
        let ghost mid = texts(out@);
        collect_among(&child.children, below.as_str(), out);
        let ghost deep = texts(out@);
        if child.is_selected {
            out.push(path);
            proof {
                assert(texts(out@) =~= deep + seq![path@]);
            }
        }
        proof {
            assert(texts(out@) =~= mid + child@.collected_under(prefix@));
            assert(texts(out@) =~= before + collected_among(all.take(i as int + 1), prefix@));
        }
        i = i + 1;
    }
    assert(all.take(i as int) =~= all);
}

/// Gathers the relative paths of all selected nodes below `node`, depth
/// first: what lies below an entry first, then the entry itself, entry
/// after entry in listing order.  A nested entry's path joins the names on
/// the way to it with `/`.
pub fn collect_files(node: &Node) -> (files: Vec<String>)
    ensures
        texts(files@) == node@.collected(),
{
    let mut files: Vec<String> = Vec::new();
    proof {
        node.lemma_children();
        assert(texts(files@) =~= Seq::<Seq<char>>::empty());
        reveal_strlit("");
    }
    collect_among(&node.children, "", &mut files);
    proof {
        assert(""@ =~= Seq::<char>::empty());
        assert(texts(files@) =~= node@.collected());
    }
    files
}

/// Flipping a selection flag changes nothing else: the same paths are
/// valid, and every node keeps its name, its kind and the number of its
/// children.  The flag itself changes at `path` and nowhere else.
pub proof fn lemma_toggled_at(t: Tree, path: Seq<int>, other: Seq<int>)
    requires
        t.valid_path(path),
    ensures
        t.toggled(path).valid_path(other) == t.valid_path(other),
        t.valid_path(other) ==> {
            &&& t.toggled(path).at(other).name == t.at(other).name
            &&& t.toggled(path).at(other).is_dir == t.at(other).is_dir
            &&& t.toggled(path).at(other).children.len() == t.at(other).children.len()
            &&& t.toggled(path).at(other).is_selected == (t.at(other).is_selected != (other == path))
        },
    decreases other.len(),
{
    let flipped = t.toggled(path);
    if other.len() == 0 {
        if path.len() == 0 {
            assert(other =~= path);
        }
    } else if path.len() == 0 {
        assert(flipped.children == t.children);
    } else {
        let i = other[0];
        if 0 <= i < t.children.len() {
            if i == path[0] {
                lemma_toggled_at(t.children[i], path.drop_first(), other.drop_first());
                if other.drop_first() == path.drop_first() {
                    assert forall|k: int| 0 <= k < other.len() implies other[k] == path[k] by {
                        if k > 0 {
                            assert(other[k] == other.drop_first()[k - 1]);
                            assert(path[k] == path.drop_first()[k - 1]);
                        }
                    }
                    assert(other.drop_first().len() == path.drop_first().len());
                    assert(other =~= path);
                }
            } else {
                assert(flipped.children[i] == t.children[i]);
            }
        }
    }
}

/// Flipping a selection flag keeps the tree well formed.
pub proof fn lemma_toggled_wf(t: Tree, path: Seq<int>)
    requires
        t.wf(),
        t.valid_path(path),
    ensures
        t.toggled(path).wf(),
    decreases path.len(),
{
    let flipped = t.toggled(path);
    if path.len() > 0 {
        let i = path[0];
        assert(t.children[i].wf());
        lemma_toggled_wf(t.children[i], path.drop_first());
        assert forall|k: int| 0 <= k < flipped.children.len() implies (#[trigger] flipped.children[k]).wf() by {
            if k != i {
                assert(t.children[k].wf());
            }
        }
    } else {
        assert forall|k: int| 0 <= k < flipped.children.len() implies (#[trigger] flipped.children[k]).wf() by {
            assert(t.children[k].wf());
        }
    }
}

/// Giving a directory well-formed entries keeps the tree well formed.
pub proof fn lemma_with_children_wf(t: Tree, path: Seq<int>, kids: Seq<Tree>)
    requires
        t.wf(),
        t.valid_path(path),
        t.at(path).is_dir,
        forall|i: int| 0 <= i < kids.len() ==> (#[trigger] kids[i]).wf(),
    ensures
        t.with_children(path, kids).wf(),
    decreases path.len(),
{
    let grown = t.with_children(path, kids);
    if path.len() > 0 {
        let i = path[0];
        assert(t.children[i].wf());
        lemma_with_children_wf(t.children[i], path.drop_first(), kids);
        assert forall|k: int| 0 <= k < grown.children.len() implies (#[trigger] grown.children[k]).wf() by {
            if k != i {
                assert(t.children[k].wf());
            }
        }
    }
}

/// Flipping the same flag twice gives the tree back.
pub proof fn lemma_toggled_twice(t: Tree, path: Seq<int>)
    requires
        t.valid_path(path),
    ensures
        t.toggled(path).toggled(path) == t,
    decreases path.len(),
{
    if path.len() > 0 {
        let i = path[0];
        let once = t.toggled(path);
        lemma_toggled_twice(t.children[i], path.drop_first());
        assert(once.children[i] == t.children[i].toggled(path.drop_first()));
        assert(once.toggled(path).children =~= t.children);
    }
}

/// The collector lists each selected node once: as many paths as there are
/// selected nodes in the subtree.
pub proof fn lemma_collected_under_len(t: Tree, prefix: Seq<char>)
    ensures
        t.collected_under(prefix).len() == t.selected_below() + if t.is_selected {
            1nat
        } else {
            0nat
        },
    decreases t,
{
    lemma_collected_among_len(t.children, (prefix + t.name).push(separator()));
}

/// As many paths are collected from a list of entries as there are
/// selected nodes in their subtrees.
pub proof fn lemma_collected_among_len(items: Seq<Tree>, prefix: Seq<char>)
    ensures
        collected_among(items, prefix).len() == selected_among(items),
    decreases items,
{
    if items.len() > 0 {
        lemma_collected_among_len(items.drop_last(), prefix);
        lemma_collected_under_len(items.last(), prefix);
    }
}

/// No selected node is left out: the path of each is among the collected.
pub proof fn lemma_collected_under_complete(t: Tree, prefix: Seq<char>, path: Seq<int>)
    requires
        t.valid_path(path),
        t.at(path).is_selected,
    ensures
        t.collected_under(prefix).contains(t.path_under(prefix, path)),
    decreases t,
{
    let own = prefix + t.name;
    let deep = collected_among(t.children, own.push(separator()));
    let tail = if t.is_selected {
        seq![own]
    } else {
        Seq::empty()
    };
    if path.len() == 0 {
        assert(tail[0] == own);
        assert((deep + tail)[deep.len() as int] == own);
    } else {
        lemma_collected_among_complete(t.children, own.push(separator()), path[0], path.drop_first());
        let k = choose|k: int| 0 <= k < deep.len() && deep[k] == t.path_under(prefix, path);
        assert((deep + tail)[k] == deep[k]);
    }
}

/// No selected node below one of the entries is left out.
pub proof fn lemma_collected_among_complete(items: Seq<Tree>, prefix: Seq<char>, i: int, path: Seq<int>)
    requires
        0 <= i < items.len(),
        items[i].valid_path(path),
        items[i].at(path).is_selected,
    ensures
        collected_among(items, prefix).contains(items[i].path_under(prefix, path)),
    decreases items,
{
    let wanted = items[i].path_under(prefix, path);
    let head = collected_among(items.drop_last(), prefix);
    let last = items.last().collected_under(prefix);
    if i == items.len() - 1 {
        lemma_collected_under_complete(items.last(), prefix, path);
        let k = choose|k: int| 0 <= k < last.len() && last[k] == wanted;
        assert((head + last)[head.len() + k] == wanted);
    } else {
        assert(items.drop_last()[i] == items[i]);
        lemma_collected_among_complete(items.drop_last(), prefix, i, path);
        let k = choose|k: int| 0 <= k < head.len() && head[k] == wanted;
        assert((head + last)[k] == wanted);
    }
}

/// Nothing is collected that is not there: each collected path is the
/// path of a selected node of the subtree.  The index path of that node
/// is handed back.
pub proof fn lemma_collected_under_sound(t: Tree, prefix: Seq<char>, k: int) -> (path: Seq<int>)
    requires
        0 <= k < t.collected_under(prefix).len(),
    ensures
        t.valid_path(path),
        t.at(path).is_selected,
        t.collected_under(prefix)[k] == t.path_under(prefix, path),
    decreases t,
{
    let own = prefix + t.name;
    let deep = collected_among(t.children, own.push(separator()));
    if k < deep.len() {
        let (i, rest) = lemma_collected_among_sound(t.children, own.push(separator()), k);
        let path = seq![i] + rest;
        assert(path.drop_first() =~= rest);
        path
    } else {
        Seq::empty()
    }
}

/// Each path collected from a list of entries is the path of a selected
/// node in the subtree of one of them.  The index of that entry and the
/// index path from it are handed back.
pub proof fn lemma_collected_among_sound(items: Seq<Tree>, prefix: Seq<char>, k: int) -> (found: (
    int,
    Seq<int>,
))
    requires
        0 <= k < collected_among(items, prefix).len(),
    ensures
        0 <= found.0 < items.len(),
        items[found.0].valid_path(found.1),
        items[found.0].at(found.1).is_selected,
        collected_among(items, prefix)[k] == items[found.0].path_under(prefix, found.1),
    decreases items,
{
    let head = collected_among(items.drop_last(), prefix);
    if k < head.len() {
        let (i, rest) = lemma_collected_among_sound(items.drop_last(), prefix, k);
        assert(items.drop_last()[i] == items[i]);
        (i, rest)
    } else {
        let rest = lemma_collected_under_sound(items.last(), prefix, k - head.len());
        (items.len() - 1, rest)
    }
}

/// What the collector gathers is exactly what is selected: as many paths
/// as there are selected nodes below the root, the relative path of every
/// selected node among them.
pub proof fn lemma_collected_exact(t: Tree, path: Seq<int>)
    requires
        path.len() > 0,
        t.valid_path(path),
        t.at(path).is_selected,
    ensures
        t.collected().len() == t.selected_below(),
        t.collected().contains(t.relative_path(path)),
{
    lemma_collected_among_len(t.children, Seq::empty());
    lemma_collected_among_complete(t.children, Seq::empty(), path[0], path.drop_first());
}

/// The way to a child is the way to its parent and the child's name.
pub proof fn lemma_names_push(t: Tree, path: Seq<int>, i: int)
    requires
        t.valid_path(path.push(i)),
    ensures
        t.names_along(path.push(i)) == t.names_along(path).push(t.at(path.push(i)).name),
    decreases path.len(),
{
    let longer = path.push(i);
    if path.len() == 0 {
        assert(longer.drop_first() =~= Seq::<int>::empty());
        assert(t.children[i].names_along(longer.drop_first()) =~= Seq::<Seq<char>>::empty());
        assert(t.children[i].at(longer.drop_first()) == t.children[i]);
        assert(t.names_along(longer) =~= t.names_along(path).push(t.children[i].name));
    } else {
        assert(longer.drop_first() =~= path.drop_first().push(i));
        lemma_names_push(t.children[path[0]], path.drop_first(), i);
        assert(t.names_along(longer) =~= t.names_along(path).push(t.at(longer).name));
    }
}

impl Node {
    /// The names of the nodes on the way that `path` takes from this node,
    /// this node's own name left out; nothing where the path leads
    /// nowhere.
    pub fn names_along(&self, path: &Vec<usize>) -> (names: Option<Vec<String>>)
        ensures
            names is Some <==> self@.valid_path(indices(path@)),
            names matches Some(list) ==> texts(list@) == self@.names_along(indices(path@)),
    {
        let ghost full = indices(path@);
        let mut names: Vec<String> = Vec::new();
        let mut node = self;
        let mut depth: usize = 0;
        assert(full.take(0) =~= Seq::<int>::empty());
        assert(texts(names@) =~= self@.names_along(full.take(0)));
        while depth < path.len()
            invariant
                depth <= path.len(),
                full == indices(path@),
                self@.valid_path(full.take(depth as int)),
                node@ == self@.at(full.take(depth as int)),
                texts(names@) == self@.names_along(full.take(depth as int)),
            decreases path.len() - depth,
        {
            let i = path[depth];
            proof {
                node.lemma_children();
                assert(full.take(depth as int + 1) =~= full.take(depth as int).push(i as int));
                lemma_path_push(self@, full.take(depth as int), i as int);
            }
            if i >= node.children.len() {
                proof {
                    if self@.valid_path(full) {
                        lemma_path_prefix(self@, full, depth as int + 1);
                    }
                }
                return None;
            }
            node = &node.children[i];
            let ghost before = texts(names@);
            names.push(node.name.clone());
            proof {
                node.lemma_children();
                lemma_names_push(self@, full.take(depth as int), i as int);
                assert(texts(names@) =~= before.push(node@.name));
            }
            depth = depth + 1;
        }
        assert(full.take(depth as int) =~= full);
        Some(names)
    }

    fn replace_children_from(&mut self, path: &Vec<usize>, depth: usize, kids: Vec<Node>)
        requires
            depth <= path.len(),
            old(self)@.valid_path(indices(path@).skip(depth as int)),
        ensures
            final(self)@ == old(self)@.with_children(indices(path@).skip(depth as int), trees(kids@)),
        decreases path.len() - depth,
    {
        let ghost rest = indices(path@).skip(depth as int);
        proof {
            (*self).lemma_children();
        }
        if depth == path.len() {
            self.children = kids;
            proof {
                (*self).lemma_children();
            }
        } else {
            let i = path[depth];
            proof {
                assert(rest.drop_first() =~= indices(path@).skip(depth as int + 1));
                assert(rest[0] == i as int);
            }
            let ghost before = self.children@;
            self.children[i].replace_children_from(path, depth + 1, kids);
            proof {
                (*self).lemma_children();
                assert(self.children@ =~= before.update(i as int, self.children@[i as int]));
                assert(trees(self.children@) =~= trees(before).update(
                    i as int,
                    trees(before)[i as int].with_children(rest.drop_first(), trees(kids@)),
                ));
            }
        }
    }

    /// Gives the directory that `path` leads to the entries `kids`, in
    /// place of what it held.  Nothing changes, and the entries are handed
    /// back, where the path leads nowhere or to an entry that is not a
    /// directory.
    pub fn replace_children_at(&mut self, path: &Vec<usize>, kids: Vec<Node>) -> (refused: Option<Vec<Node>>)
        ensures
            refused is None <==> old(self)@.valid_path(indices(path@)) && old(self)@.at(indices(path@)).is_dir,
            refused is None ==> final(self)@ == old(self)@.with_children(indices(path@), trees(kids@)),
            refused matches Some(back) ==> back == kids && *final(self) == *old(self),
            old(self).wf() && nodes_wf(kids@) ==> final(self).wf(),
    {
        let accepted = match self.node_at(path) {
            Some(node) => node.is_dir,
            None => false,
        };
        if accepted {
            proof {
                assert(indices(path@).skip(0) =~= indices(path@));
                if self.wf() && nodes_wf(kids@) {
                    assert forall|i: int| 0 <= i < trees(kids@).len() implies (#[trigger] trees(kids@)[i]).wf() by {
                        assert(kids@[i].wf());
                    }
                    lemma_with_children_wf(self@, indices(path@), trees(kids@));
                }
            }
            self.replace_children_from(path, 0, kids);
            None
        } else {
            Some(kids)
        }
    }
}

} // verus!
