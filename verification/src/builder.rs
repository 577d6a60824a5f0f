//! Building the tree from directory listings.  The builder says which
//! directory is to be read next and takes what was read; reading is left
//! to the caller.

use crate::text::texts;
use crate::tree::{indices, lemma_path_push, lemma_with_children_wf, trees, Node, Tree};
use vstd::prelude::*;

verus! {

/// One entry of a directory as it was read.
#[derive(Clone, Debug, PartialEq, Eq)]
pub struct Entry {
    pub name: String,
    pub is_dir: bool,
}

/// The model of an [`Entry`].
pub struct EntryView {
    pub name: Seq<char>,
    pub is_dir: bool,
}

impl View for Entry {
    type V = EntryView;

    open spec fn view(&self) -> EntryView {
        EntryView { name: self.name@, is_dir: self.is_dir }
    }
}

/// The models of a directory listing.
pub open spec fn listing(entries: Seq<Entry>) -> Seq<EntryView> {
    entries.map_values(|e: Entry| e@)
}

/// The nodes for a listing: a leaf per entry, in order.
pub open spec fn leaves(entries: Seq<EntryView>) -> Seq<Tree> {
    entries.map_values(|e: EntryView| Tree::leaf(e.name, e.is_dir))
}

/// What a list of nodes looks like as a listing: the name and the kind of
/// each.
pub open spec fn shape(nodes: Seq<Tree>) -> Seq<EntryView> {
    nodes.map_values(|t: Tree| EntryView { name: t.name, is_dir: t.is_dir })
}

/// The paths to the directories among the last `count` entries of the
/// directory at `path`, the last entry's first.
pub open spec fn subdirectories(path: Seq<int>, entries: Seq<EntryView>, count: int) -> Seq<Seq<int>>
    decreases count,
{
    if count <= 0 {
        Seq::empty()
    } else {
        let i = entries.len() - count;
        let later = subdirectories(path, entries, count - 1);
        if entries[i].is_dir {
            later.push(path.push(i))
        } else {
            later
        }
    }
}

/// A filesystem, as far as the builder sees one: what each directory
/// lists, the directory given by the names on the way to it from the
/// starting directory.
pub type Listings = spec_fn(Seq<Seq<char>>) -> Seq<EntryView>;

/// The model of a tree builder.
pub struct BuilderView {
    /// The tree as far as it is built.
    pub root: Tree,
    /// The index paths of the directories that are still to be read.  The
    /// last one is read next.
    pub pending: Seq<Seq<int>>,
}

impl BuilderView {
    /// Whether the directory at `path` is there and still empty, as one is
    /// that has not been read.
    pub open spec fn awaits(self, path: Seq<int>) -> bool {
        &&& self.root.valid_path(path)
        &&& self.root.at(path).is_dir
        &&& self.root.at(path).children.len() == 0
    }

    /// The invariant of a builder: only directories have children, every
    /// pending path leads to a directory that is still empty, and none is
    /// pending twice.
    pub open spec fn wf(self) -> bool {
        &&& self.root.wf()
        &&& forall|k: int| 0 <= k < self.pending.len() ==> self.awaits(#[trigger] self.pending[k])
        &&& forall|j: int, k: int|
            0 <= j < k < self.pending.len() ==> #[trigger] self.pending[j] != #[trigger] self.pending[k]
    }

    /// The builder for a starting entry: the entry alone, to be read if it
    /// is a directory.
    pub open spec fn initial(name: Seq<char>, is_dir: bool) -> BuilderView {
        BuilderView {
            root: Tree::leaf(name, is_dir),
            pending: if is_dir {
                seq![Seq::<int>::empty()]
            } else {
                Seq::empty()
            },
        }
    }

    /// The builder after the directory that was to be read next listed
    /// `entries`: the directory holds a leaf per entry, it is no longer
    /// pending, and the directories among the entries are, the first of
    /// them to be read next.
    pub open spec fn supplied(self, entries: Seq<EntryView>) -> BuilderView {
        let path = self.pending.last();
        BuilderView {
            root: self.root.with_children(path, leaves(entries)),
            pending: self.pending.drop_last() + subdirectories(path, entries, entries.len() as int),
        }
    }

    /// Whether the tree mirrors the filesystem `fs` as far as it is
    /// built: every directory that is not pending holds the entries that
    /// `fs` lists for it, in that order.
    pub open spec fn faithful(self, fs: Listings) -> bool {
        forall|q: Seq<int>|
            self.root.valid_path(q) && (#[trigger] self.root.at(q)).is_dir && !self.pending.contains(q)
                ==> shape(self.root.at(q).children) == fs(self.root.names_along(q))
    }
}

/// The directories among the last `count` entries, and nothing else, are
/// in the list of subdirectories, each once.
pub proof fn lemma_subdirectories(path: Seq<int>, entries: Seq<EntryView>, count: int)
    requires
        0 <= count <= entries.len(),
    ensures
        forall|i: int|
            entries.len() - count <= i < entries.len() && entries[i].is_dir ==> subdirectories(
                path,
                entries,
                count,
            ).contains(#[trigger] path.push(i)),
        forall|k: int|
            0 <= k < subdirectories(path, entries, count).len() ==> {
                let q = #[trigger] subdirectories(path, entries, count)[k];
                &&& q.len() == path.len() + 1
                &&& q.drop_last() == path
                &&& entries.len() - count <= q.last() < entries.len()
                &&& entries[q.last()].is_dir
            },
        forall|j: int, k: int|
            0 <= j < k < subdirectories(path, entries, count).len() ==> (#[trigger] subdirectories(
                path,
                entries,
                count,
            )[j]).last() > (#[trigger] subdirectories(path, entries, count)[k]).last(),
    decreases count,
{
    if count > 0 {
        let i = entries.len() - count;
        let later = subdirectories(path, entries, count - 1);
        let all = subdirectories(path, entries, count);
        lemma_subdirectories(path, entries, count - 1);
        assert(path.push(i).drop_last() =~= path);
        assert forall|m: int| entries.len() - count <= m < entries.len() && entries[m].is_dir implies all.contains(
            #[trigger] path.push(m),
        ) by {
            if m == i {
                assert(all[later.len() as int] == path.push(i));
            } else {
                assert(later.contains(path.push(m)));
                let k = choose|k: int| 0 <= k < later.len() && later[k] == path.push(m);
                assert(all[k] == path.push(m));
            }
        }
    }
}

/// Giving an empty directory its entries leaves every node that was there
/// in place, with its name and its kind, and changes the children of that
/// directory alone.
pub proof fn lemma_with_children_keeps(t: Tree, path: Seq<int>, kids: Seq<Tree>, other: Seq<int>)
    requires
        t.valid_path(path),
        t.at(path).children.len() == 0,
        t.valid_path(other),
    ensures
        t.with_children(path, kids).valid_path(other),
        t.with_children(path, kids).at(other).name == t.at(other).name,
        t.with_children(path, kids).at(other).is_dir == t.at(other).is_dir,
        t.with_children(path, kids).at(other).is_selected == t.at(other).is_selected,
        other == path ==> t.with_children(path, kids).at(other).children == kids,
        other != path ==> shape(t.with_children(path, kids).at(other).children) == shape(
            t.at(other).children,
        ),
        t.with_children(path, kids).names_along(other) == t.names_along(other),
    decreases path.len(),
{
    let grown = t.with_children(path, kids);
    if path.len() == 0 {
        if other.len() > 0 {
            assert(false);
        } else {
            assert(other =~= path);
        }
    } else {
        let i = path[0];
        let child = t.children[i];
        let new_child = child.with_children(path.drop_first(), kids);
        lemma_with_children_keeps(child, path.drop_first(), kids, Seq::empty());
        assert(grown.children[i] == new_child);
        if other.len() == 0 {
            assert(shape(grown.children) =~= shape(t.children));
        } else if other[0] == i {
            lemma_with_children_keeps(child, path.drop_first(), kids, other.drop_first());
            if other.drop_first() == path.drop_first() {
                assert forall|k: int| 0 <= k < other.len() implies other[k] == path[k] by {
                    if k > 0 {
                        assert(other[k] == other.drop_first()[k - 1]);
                        assert(path[k] == path.drop_first()[k - 1]);
                    }
                }
                assert(other.drop_first().len() == path.drop_first().len());
                assert(other =~= path);
            }
        } else {
            assert(grown.children[other[0]] == t.children[other[0]]);
        }
    }
}

/// Giving an empty directory leaves for entries adds exactly those leaves:
/// a path that is valid afterwards and was not before leads to one of
/// them.
pub proof fn lemma_with_children_adds(t: Tree, path: Seq<int>, kids: Seq<Tree>, other: Seq<int>)
    requires
        t.valid_path(path),
        t.at(path).children.len() == 0,
        forall|i: int| 0 <= i < kids.len() ==> (#[trigger] kids[i]).children.len() == 0,
        t.with_children(path, kids).valid_path(other),
        !t.valid_path(other),
    ensures
        other.len() == path.len() + 1,
        other.drop_last() == path,
        0 <= other.last() < kids.len(),
        t.with_children(path, kids).at(other) == kids[other.last()],
    decreases path.len(),
{
    let grown = t.with_children(path, kids);
    let i = other[0];
    if path.len() == 0 {
        let rest = other.drop_first();
        if rest.len() > 0 {
            assert(kids[i].valid_path(rest));
            assert(false);
        }
        assert(kids[i].at(rest) == kids[i]);
        assert(other.drop_last() =~= path);
    } else {
        let at = path[0];
        if i != at {
            assert(grown.children[i] == t.children[i]);
            assert(false);
        }
        assert(grown.children[at] == t.children[at].with_children(path.drop_first(), kids));
        lemma_with_children_adds(t.children[at], path.drop_first(), kids, other.drop_first());
        assert(other.drop_last() =~= seq![at] + other.drop_first().drop_last());
        assert(path =~= seq![at] + path.drop_first());
        assert(other.last() == other.drop_first().last());
    }
}

/// A builder begins well formed and faithful to every filesystem.
pub proof fn lemma_initial_faithful(name: Seq<char>, is_dir: bool, fs: Listings)
    ensures
        BuilderView::initial(name, is_dir).wf(),
        BuilderView::initial(name, is_dir).faithful(fs),
{
    let b = BuilderView::initial(name, is_dir);
    assert forall|q: Seq<int>|
        b.root.valid_path(q) && (#[trigger] b.root.at(q)).is_dir && !b.pending.contains(q) implies shape(
        b.root.at(q).children,
    ) == fs(b.root.names_along(q)) by {
        assert(q.len() == 0);
        assert(q =~= Seq::<int>::empty());
        assert(b.pending[0] == q);
    }
}

/// Taking the listing of the directory that was to be read keeps the
/// builder well formed.
pub proof fn lemma_supplied_wf(b: BuilderView, entries: Seq<EntryView>)
    requires
        b.wf(),
        b.pending.len() > 0,
    ensures
        b.supplied(entries).wf(),
{
    let path = b.pending.last();
    let kids = leaves(entries);
    let after = b.supplied(entries);
    let added = subdirectories(path, entries, entries.len() as int);
    let kept = b.pending.drop_last();
    assert(b.awaits(b.pending[b.pending.len() - 1]));
    lemma_with_children_wf(b.root, path, kids);
    lemma_subdirectories(path, entries, entries.len() as int);
    lemma_with_children_keeps(b.root, path, kids, path);
    assert forall|k: int| 0 <= k < after.pending.len() implies after.awaits(#[trigger] after.pending[k]) by {
        if k < kept.len() {
            let q = b.pending[k];
            assert(after.pending[k] == q);
            assert(b.awaits(q));
            assert(q != path);
            lemma_with_children_keeps(b.root, path, kids, q);
            assert(shape(after.root.at(q).children).len() == shape(b.root.at(q).children).len());
        } else {
            let q = added[k - kept.len()];
            assert(after.pending[k] == q);
            let i = q.last();
            assert(q =~= path.push(i));
            lemma_path_push(after.root, path, i);
        }
    }
    assert forall|j: int, k: int| 0 <= j < k < after.pending.len() implies #[trigger] after.pending[j]
        != #[trigger] after.pending[k] by {
        if k < kept.len() {
            assert(after.pending[j] == b.pending[j]);
            assert(after.pending[k] == b.pending[k]);
        } else if j < kept.len() {
            let old = b.pending[j];
            let new = added[k - kept.len()];
            assert(after.pending[j] == old);
            assert(after.pending[k] == new);
            assert(b.awaits(old));
            assert(new =~= path.push(new.last()));
            lemma_path_push(b.root, path, new.last());
        } else {
            assert(after.pending[j] == added[j - kept.len()]);
            assert(after.pending[k] == added[k - kept.len()]);
        }
    }
}

/// Taking the listing that the filesystem gives for the directory that
/// was to be read keeps the tree faithful to the filesystem.
pub proof fn lemma_supplied_faithful(b: BuilderView, fs: Listings, entries: Seq<EntryView>)
    requires
        b.wf(),
        b.pending.len() > 0,
        b.faithful(fs),
        entries == fs(b.root.names_along(b.pending.last())),
    ensures
        b.supplied(entries).wf(),
        b.supplied(entries).faithful(fs),
{
    let path = b.pending.last();
    let kids = leaves(entries);
    let after = b.supplied(entries);
    let added = subdirectories(path, entries, entries.len() as int);
    let kept = b.pending.drop_last();
    lemma_supplied_wf(b, entries);
    assert(b.awaits(b.pending[b.pending.len() - 1]));
    lemma_subdirectories(path, entries, entries.len() as int);
    assert forall|q: Seq<int>|
        after.root.valid_path(q) && (#[trigger] after.root.at(q)).is_dir && !after.pending.contains(q) implies shape(
        after.root.at(q).children,
    ) == fs(after.root.names_along(q)) by {
        if b.root.valid_path(q) {
            lemma_with_children_keeps(b.root, path, kids, q);
            if q == path {
                assert(shape(kids) =~= entries);
            } else {
                if b.pending.contains(q) {
                    let k = choose|k: int| 0 <= k < b.pending.len() && b.pending[k] == q;
                    assert(k < kept.len());
                    assert(after.pending[k] == q);
                    assert(false);
                }
                assert(b.root.at(q).is_dir);
            }
        } else {
            lemma_with_children_adds(b.root, path, kids, q);
            let i = q.last();
            assert(q =~= path.push(i));
            assert(entries[i].is_dir);
            assert(added.contains(path.push(i)));
            let k = choose|k: int| 0 <= k < added.len() && added[k] == path.push(i);
            assert(after.pending[kept.len() + k] == q);
            assert(false);
        }
    }
}

/// Once nothing is pending, the tree mirrors the filesystem: every
/// directory in it holds what the filesystem lists for it.
pub proof fn lemma_finished_mirrors(b: BuilderView, fs: Listings, q: Seq<int>)
    requires
        b.faithful(fs),
        b.pending.len() == 0,
        b.root.valid_path(q),
        b.root.at(q).is_dir,
    ensures
        shape(b.root.at(q).children) == fs(b.root.names_along(q)),
{
}

/// The index paths in a list of paths.
pub open spec fn paths(pending: Seq<Vec<usize>>) -> Seq<Seq<int>> {
    pending.map_values(|p: Vec<usize>| indices(p@))
}

/// Builds the tree of a directory from the listings of its directories.
///
/// The caller asks which directory is to be read next, reads it, and
/// supplies what it lists, until nothing is left to read.
pub struct TreeBuilder {
    root: Node,
    pending: Vec<Vec<usize>>,
}

impl View for TreeBuilder {
    type V = BuilderView;

    closed spec fn view(&self) -> BuilderView {
        BuilderView { root: self.root@, pending: paths(self.pending@) }
    }
}

fn extended(path: &Vec<usize>, i: usize) -> (longer: Vec<usize>)
    ensures
        indices(longer@) == indices(path@).push(i as int),
{
    let mut longer: Vec<usize> = Vec::new();
    let mut k: usize = 0;
    while k < path.len()
        invariant
            k <= path.len(),
            longer@ == path@.take(k as int),
        decreases path.len() - k,
    {
        longer.push(path[k]);
        k = k + 1;
        assert(longer@ =~= path@.take(k as int));
    }
    assert(path@.take(k as int) =~= path@);
    longer.push(i);
    assert(indices(longer@) =~= indices(path@).push(i as int));
    longer
}

fn nodes_for(entries: &Vec<Entry>) -> (kids: Vec<Node>)
    ensures
        trees(kids@) == leaves(listing(entries@)),
{
    let mut kids: Vec<Node> = Vec::new();
    let mut i: usize = 0;
    assert(trees(kids@) =~= leaves(listing(entries@)).take(0));
    while i < entries.len()
        invariant
            i <= entries.len(),
            trees(kids@) == leaves(listing(entries@)).take(i as int),
        decreases entries.len() - i,
    {
        let ghost before = trees(kids@);
        let kid = Node::new(entries[i].name.clone(), entries[i].is_dir);
        kids.push(kid);
        i = i + 1;
        proof {
            assert(trees(kids@) =~= before.push(kid@));
            assert(trees(kids@) =~= leaves(listing(entries@)).take(i as int));
        }
    }
    assert(leaves(listing(entries@)).take(i as int) =~= leaves(listing(entries@)));
    kids
}

impl TreeBuilder {
    /// A builder for the starting entry `name`.
    pub fn new(name: String, is_dir: bool) -> (builder: TreeBuilder)
        ensures
            builder@ == BuilderView::initial(name@, is_dir),
            builder@.wf(),
    {
        let root = Node::new(name, is_dir);
        let mut pending: Vec<Vec<usize>> = Vec::new();
        if is_dir {
            pending.push(Vec::new());
        }
        let builder = TreeBuilder { root, pending };
        proof {
            if is_dir {
                assert(indices(builder.pending@[0]@) =~= Seq::<int>::empty());
            }
            assert(builder@.pending =~= BuilderView::initial(name@, is_dir).pending);
        }
        builder
    }

    /// Whether every directory has been read.
    pub fn is_done(&self) -> (done: bool)
        ensures
            done == (self@.pending.len() == 0),
    {
        self.pending.len() == 0
    }

    /// The directory to read next, as the names on the way to it from the
    /// starting directory; nothing when every directory has been read.
    pub fn next_directory(&self) -> (names: Option<Vec<String>>)
        requires
            self@.wf(),
        ensures
            names is Some <==> self@.pending.len() > 0,
            names matches Some(list) ==> texts(list@) == self@.root.names_along(self@.pending.last()),
    {
        let n = self.pending.len();
        if n == 0 {
            None
        } else {
            assert(self@.awaits(self@.pending[n - 1]));
            self.root.names_along(&self.pending[n - 1])
        }
    }

    /// Takes what the directory that was to be read next lists: each entry
    /// becomes a child of that directory, in order, and each directory
    /// among them is to be read in turn, the first of them next.  Nothing
    /// happens when every directory has been read already.
    pub fn supply(&mut self, entries: &Vec<Entry>)
        requires
            old(self)@.wf(),
        ensures
            final(self)@.wf(),
            old(self)@.pending.len() > 0 ==> final(self)@ == old(self)@.supplied(listing(entries@)),
            old(self)@.pending.len() == 0 ==> final(self)@ == old(self)@,
    {
        let ghost before = self@;
        let ghost listed = listing(entries@);
        let n = self.pending.len();
        if n == 0 {
            return;
        }
        proof {
            assert(before.awaits(before.pending[n - 1]));
            lemma_supplied_wf(before, listed);
        }
        let path = match self.pending.pop() {
            Some(path) => path,
            None => Vec::new(),
        };
        let kids = nodes_for(entries);
        let refused = self.root.replace_children_at(&path, kids);
        assert(refused is None);
        assert(paths(self.pending@) =~= before.pending.drop_last());
        assert(paths(self.pending@) =~= before.pending.drop_last() + subdirectories(indices(path@), listed, 0));
        let mut count: usize = 0;
        while count < entries.len()
            invariant
                count <= entries.len(),
                listed == listing(entries@),
                self.root@ == before.root.with_children(indices(path@), leaves(listed)),
                paths(self.pending@) == before.pending.drop_last() + subdirectories(
                    indices(path@),
                    listed,
                    count as int,
                ),
            decreases entries.len() - count,
        {
            let i = entries.len() - count - 1;
            let ghost so_far = paths(self.pending@);
            if entries[i].is_dir {
                let longer = extended(&path, i);
                self.pending.push(longer);
                assert(paths(self.pending@) =~= so_far.push(indices(path@).push(i as int)));
            }
            count = count + 1;
            assert(paths(self.pending@) =~= before.pending.drop_last() + subdirectories(
                indices(path@),
                listed,
                count as int,
            ));
        }
    }

    /// The tree as far as it is built.
    pub fn into_root(self) -> (root: Node)
        ensures
            root@ == self@.root,
    {
        self.root
    }
}

} // verus!
