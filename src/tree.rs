//! A general tree container: nodes live in an arena and refer to each
//! other by index. Each node has at most one parent, and a parent keeps its
//! children in order.

use vstd::prelude::*;

verus! {

/// An arena of nodes, each with content, an optional parent and an ordered
/// list of children. Node handles are indices, handed out by `new_node`.
pub struct NodeTree<T> {
    contents: Vec<T>,
    parents: Vec<Option<usize>>,
    children: Vec<Vec<usize>>,
}

/// The abstract state of a tree: per node, its content, parent and children.
pub struct NodeTreeView<T> {
    pub contents: Seq<T>,
    pub parents: Seq<Option<usize>>,
    pub children: Seq<Seq<usize>>,
}

/// The position of `c` in `s` (meaningful when `c` occurs in `s`).
pub open spec fn position_of(s: Seq<usize>, c: usize) -> int {
    choose|k: int| 0 <= k < s.len() && s[k] == c
}

impl<T> NodeTreeView<T> {
    pub open spec fn len(self) -> nat {
        self.contents.len()
    }

    /// Parent and child links agree, every index is in range and no child is
    /// listed twice.
    pub open spec fn wf(self) -> bool {
        &&& self.len() <= usize::MAX
        &&& self.parents.len() == self.len()
        &&& self.children.len() == self.len()
        &&& forall|i: int| 0 <= i < self.len() ==> (#[trigger] self.children[i]).no_duplicates()
        &&& forall|i: int, k: int| 0 <= i < self.len() && 0 <= k < self.children[i].len()
            ==> #[trigger] self.children[i][k] < self.len() && self.parents[self.children[i][k] as int] == Some(i as usize)
        &&& forall|j: int| 0 <= j < self.len() ==> (#[trigger] self.parents[j] matches Some(p) ==> p < self.len()
            && self.children[p as int].contains(j as usize))
    }

    /// The tree after making `c` the first child of `p`.
    pub open spec fn with_first_child(self, p: usize, c: usize) -> Self {
        NodeTreeView {
            contents: self.contents,
            parents: self.parents.update(c as int, Some(p)),
            children: self.children.update(p as int, seq![c] + self.children[p as int]),
        }
    }

    /// The tree after making `c` the last child of `p`.
    pub open spec fn with_last_child(self, p: usize, c: usize) -> Self {
        NodeTreeView {
            contents: self.contents,
            parents: self.parents.update(c as int, Some(p)),
            children: self.children.update(p as int, self.children[p as int].push(c)),
        }
    }

    /// The tree after detaching `c` from its parent, if it has one; the
    /// other children keep their order.
    pub open spec fn detached(self, c: usize) -> Self {
        match self.parents[c as int] {
            Some(p) => NodeTreeView {
                contents: self.contents,
                parents: self.parents.update(c as int, None),
                children: self.children.update(
                    p as int,
                    self.children[p as int].remove(position_of(self.children[p as int], c)),
                ),
            },
            None => self,
        }
    }

    /// The ancestors of `n`, starting with `n` itself, following at most
    /// `fuel` links.
    pub open spec fn ancestors(self, n: usize, fuel: nat) -> Seq<usize>
        decreases fuel,
    {
        if fuel == 0 {
            Seq::empty()
        } else {
            seq![n] + match self.parents[n as int] {
                Some(p) => self.ancestors(p, (fuel - 1) as nat),
                None => Seq::empty(),
            }
        }
    }
}

/// A parentless node of a well-formed tree is nobody's child.
pub proof fn lemma_parentless_not_listed<T>(t: NodeTreeView<T>, c: usize)
    requires
        t.wf(),
        c < t.len(),
        t.parents[c as int] is None,
    ensures
        forall|i: int| 0 <= i < t.len() ==> !(#[trigger] t.children[i]).contains(c),
{
    assert forall|i: int| 0 <= i < t.len() implies !(#[trigger] t.children[i]).contains(c) by {
        if t.children[i].contains(c) {
            let k = choose|k: int| 0 <= k < t.children[i].len() && t.children[i][k] == c;
            assert(t.parents[t.children[i][k] as int] == Some(i as usize));
        }
    }
}

/// Attaching a parentless node as first child keeps a tree well formed.
pub proof fn lemma_with_first_child_wf<T>(t: NodeTreeView<T>, p: usize, c: usize)
    requires
        t.wf(),
        p < t.len(),
        c < t.len(),
        p != c,
        t.parents[c as int] is None,
    ensures
        t.with_first_child(p, c).wf(),
{
    lemma_parentless_not_listed(t, c);
    let u = t.with_first_child(p, c);
    let old_kids = t.children[p as int];
    assert(!old_kids.contains(c));
    assert forall|i: int| 0 <= i < u.len() implies (#[trigger] u.children[i]).no_duplicates() by {
        if i == p {
            assert forall|a: int, b: int| 0 <= a < b < u.children[i].len() implies u.children[i][a] != u.children[i][b] by {
                if a == 0 {
                    assert(u.children[i][b] == old_kids[b - 1]);
                } else {
                    assert(old_kids.no_duplicates());
                }
            }
        } else {
            assert(u.children[i] == t.children[i]);
        }
    }
    assert forall|i: int, k: int| 0 <= i < u.len() && 0 <= k < u.children[i].len()
        implies #[trigger] u.children[i][k] < u.len() && u.parents[u.children[i][k] as int] == Some(i as usize) by {
        if i == p {
            if k > 0 {
                assert(u.children[i][k] == old_kids[k - 1]);
                assert(old_kids[k - 1] != c);
            }
        } else {
            assert(u.children[i] == t.children[i]);
            assert(t.children[i][k] != c);
        }
    }
    assert forall|j: int| 0 <= j < u.len() implies (#[trigger] u.parents[j] matches Some(q) ==> q < u.len()
        && u.children[q as int].contains(j as usize)) by {
        if j == c {
            assert(u.children[p as int][0] == c);
        } else if let Some(q) = t.parents[j] {
            assert(t.children[q as int].contains(j as usize));
            if q == p {
                let k = choose|k: int| 0 <= k < old_kids.len() && old_kids[k] == j as usize;
                assert(u.children[p as int][k + 1] == j as usize);
            }
        }
    }
}

/// Attaching a parentless node as last child keeps a tree well formed.
pub proof fn lemma_with_last_child_wf<T>(t: NodeTreeView<T>, p: usize, c: usize)
    requires
        t.wf(),
        p < t.len(),
        c < t.len(),
        p != c,
        t.parents[c as int] is None,
    ensures
        t.with_last_child(p, c).wf(),
{
    lemma_parentless_not_listed(t, c);
    let u = t.with_last_child(p, c);
    let old_kids = t.children[p as int];
    assert(!old_kids.contains(c));
    assert forall|i: int| 0 <= i < u.len() implies (#[trigger] u.children[i]).no_duplicates() by {
        if i == p {
            assert forall|a: int, b: int| 0 <= a < b < u.children[i].len() implies u.children[i][a] != u.children[i][b] by {
                if b == old_kids.len() {
                    assert(u.children[i][a] == old_kids[a]);
                } else {
                    assert(old_kids.no_duplicates());
                }
            }
        } else {
            assert(u.children[i] == t.children[i]);
        }
    }
    assert forall|i: int, k: int| 0 <= i < u.len() && 0 <= k < u.children[i].len()
        implies #[trigger] u.children[i][k] < u.len() && u.parents[u.children[i][k] as int] == Some(i as usize) by {
        if i == p {
            if k < old_kids.len() {
                assert(u.children[i][k] == old_kids[k]);
                assert(old_kids[k] != c);
            }
        } else {
            assert(u.children[i] == t.children[i]);
            assert(t.children[i][k] != c);
        }
    }
    assert forall|j: int| 0 <= j < u.len() implies (#[trigger] u.parents[j] matches Some(q) ==> q < u.len()
        && u.children[q as int].contains(j as usize)) by {
        if j == c {
            assert(u.children[p as int][old_kids.len() as int] == c);
        } else if let Some(q) = t.parents[j] {
            assert(t.children[q as int].contains(j as usize));
            if q == p {
                let k = choose|k: int| 0 <= k < old_kids.len() && old_kids[k] == j as usize;
                assert(u.children[p as int][k] == j as usize);
            }
        }
    }
}

/// In a list without duplicates, the position of an element is the one
/// index that holds it.
pub proof fn lemma_position_of(s: Seq<usize>, k: int)
    requires
        s.no_duplicates(),
        0 <= k < s.len(),
    ensures
        position_of(s, s[k]) == k,
{
    let q = position_of(s, s[k]);
    assert(0 <= q < s.len() && s[q] == s[k]);
}

/// Detaching a node keeps a tree well formed and leaves it parentless and
/// listed nowhere.
pub proof fn lemma_detached_wf<T>(t: NodeTreeView<T>, c: usize)
    requires
        t.wf(),
        c < t.len(),
    ensures
        t.detached(c).wf(),
        t.detached(c).parents[c as int] is None,
        forall|i: int| 0 <= i < t.len() ==> !(#[trigger] t.detached(c).children[i]).contains(c),
{
    if let Some(p) = t.parents[c as int] {
        let u = t.detached(c);
        let old_kids = t.children[p as int];
        assert(old_kids.contains(c));
        let pos = position_of(old_kids, c);
        assert(0 <= pos < old_kids.len() && old_kids[pos] == c);
        let new_kids = old_kids.remove(pos);
        assert(u.children[p as int] == new_kids);
        assert forall|a: int| 0 <= a < new_kids.len() implies #[trigger] new_kids[a] != c by {
            if a < pos {
                assert(new_kids[a] == old_kids[a]);
            } else {
                assert(new_kids[a] == old_kids[a + 1]);
            }
        }
        assert forall|i: int| 0 <= i < u.len() implies (#[trigger] u.children[i]).no_duplicates() by {
            if i == p {
                assert forall|a: int, b: int| 0 <= a < b < new_kids.len() implies new_kids[a] != new_kids[b] by {
                    let a1 = if a < pos { a } else { a + 1 };
                    let b1 = if b < pos { b } else { b + 1 };
                    assert(new_kids[a] == old_kids[a1]);
                    assert(new_kids[b] == old_kids[b1]);
                }
            } else {
                assert(u.children[i] == t.children[i]);
            }
        }
        assert forall|i: int| 0 <= i < t.len() implies !(#[trigger] u.children[i]).contains(c) by {
            if i == p {
                if new_kids.contains(c) {
                    let a = choose|a: int| 0 <= a < new_kids.len() && new_kids[a] == c;
                    assert(new_kids[a] != c);
                }
            } else {
                assert(u.children[i] == t.children[i]);
                if t.children[i].contains(c) {
                    let k = choose|k: int| 0 <= k < t.children[i].len() && t.children[i][k] == c;
                    assert(t.parents[t.children[i][k] as int] == Some(i as usize));
                }
            }
        }
        assert forall|i: int, k: int| 0 <= i < u.len() && 0 <= k < u.children[i].len()
            implies #[trigger] u.children[i][k] < u.len() && u.parents[u.children[i][k] as int] == Some(i as usize) by {
            if i == p {
                let k1 = if k < pos { k } else { k + 1 };
                assert(new_kids[k] == old_kids[k1]);
                assert(new_kids[k] != c);
            } else {
                assert(u.children[i] == t.children[i]);
                if t.children[i][k] == c {
                    assert(t.parents[c as int] == Some(i as usize));
                }
            }
        }
        assert forall|j: int| 0 <= j < u.len() implies (#[trigger] u.parents[j] matches Some(q) ==> q < u.len()
            && u.children[q as int].contains(j as usize)) by {
            if j != c {
                if let Some(q) = t.parents[j] {
                    assert(t.children[q as int].contains(j as usize));
                    if q == p {
                        let k = choose|k: int| 0 <= k < old_kids.len() && old_kids[k] == j as usize;
                        assert(j as usize != c);
                        assert(k != pos);
                        let k1 = if k < pos { k } else { k - 1 };
                        assert(new_kids[k1] == j as usize);
                    }
                }
            }
        }
    } else {
        lemma_parentless_not_listed(t, c);
    }
}

/// Appending a parentless node as a child and then detaching it restores
/// the tree: both nodes are as they were (the child parentless again) and
/// the parent's children no longer hold the child.
pub proof fn lemma_append_remove_round_trip<T>(t: NodeTreeView<T>, p: usize, c: usize)
    requires
        t.wf(),
        p < t.len(),
        c < t.len(),
        p != c,
        t.parents[c as int] is None,
    ensures
        t.with_last_child(p, c).detached(c) == t,
        !t.with_last_child(p, c).detached(c).children[p as int].contains(c),
{
    lemma_parentless_not_listed(t, c);
    lemma_with_last_child_wf(t, p, c);
    let u = t.with_last_child(p, c);
    let kids = u.children[p as int];
    lemma_position_of(kids, t.children[p as int].len() as int);
    assert(kids.remove(t.children[p as int].len() as int) =~= t.children[p as int]);
    assert(u.detached(c).children =~= t.children);
    assert(u.detached(c).parents =~= t.parents);
}

/// Prepending a parentless node as a child and then detaching it restores
/// the tree.
pub proof fn lemma_prepend_orphan_round_trip<T>(t: NodeTreeView<T>, p: usize, c: usize)
    requires
        t.wf(),
        p < t.len(),
        c < t.len(),
        p != c,
        t.parents[c as int] is None,
    ensures
        t.with_first_child(p, c).detached(c) == t,
{
    lemma_parentless_not_listed(t, c);
    lemma_with_first_child_wf(t, p, c);
    let u = t.with_first_child(p, c);
    let kids = u.children[p as int];
    lemma_position_of(kids, 0);
    assert(kids.remove(0) =~= t.children[p as int]);
    assert(u.detached(c).children =~= t.children);
    assert(u.detached(c).parents =~= t.parents);
}

impl<T> View for NodeTree<T> {
    type V = NodeTreeView<T>;

    closed spec fn view(&self) -> NodeTreeView<T> {
        NodeTreeView {
            contents: self.contents@,
            parents: self.parents@,
            children: self.children@.map_values(|v: Vec<usize>| v@),
        }
    }
}

impl<T> NodeTree<T> {
    /// An empty tree.
    pub fn new() -> (r: Self)
        ensures
            r@.wf(),
            r@.len() == 0,
    {
        let r = NodeTree { contents: Vec::new(), parents: Vec::new(), children: Vec::new() };
        assert(r@.children =~= Seq::empty());
        r
    }

    /// Adds a parentless, childless node holding `content`; returns its
    /// handle.
    pub fn new_node(&mut self, content: T) -> (id: usize)
        requires
            old(self)@.wf(),
        ensures
            final(self)@.wf(),
            id == old(self)@.len(),
            final(self)@.contents == old(self)@.contents.push(content),
            final(self)@.parents == old(self)@.parents.push(None),
            final(self)@.children == old(self)@.children.push(Seq::empty()),
    {
        let ghost before = self@;
        let id = self.contents.len();
        self.contents.push(content);
        self.parents.push(None);
        self.children.push(Vec::new());
        let n = self.contents.len();
        assert(n == self@.len());
        assert(self@.children =~= before.children.push(Seq::empty()));
        assert(self@.wf()) by {
            assert forall|i: int| 0 <= i < self@.len() implies (#[trigger] self@.children[i]).no_duplicates() by {
                if i < before.len() {
                    assert(self@.children[i] == before.children[i]);
                }
            }
            assert forall|i: int, k: int| 0 <= i < self@.len() && 0 <= k < self@.children[i].len()
                implies #[trigger] self@.children[i][k] < self@.len() && self@.parents[self@.children[i][k] as int] == Some(i as usize) by {
                assert(i < before.len());
                assert(self@.children[i] == before.children[i]);
            }
        }
        id
    }

    /// The number of nodes.
    pub fn len(&self) -> (r: usize)
        requires
            self@.wf(),
        ensures
            r == self@.len(),
    {
        self.contents.len()
    }

    /// The parent of node `id`.
    pub fn parent(&self, id: usize) -> (r: Option<usize>)
        requires
            self@.wf(),
            id < self@.len(),
        ensures
            r == self@.parents[id as int],
    {
        self.parents[id]
    }

    /// The children of node `id`, in order.
    pub fn children(&self, id: usize) -> (r: Vec<usize>)
        requires
            self@.wf(),
            id < self@.len(),
        ensures
            r@ == self@.children[id as int],
    {
        let kids = &self.children[id];
        assert(self@.children[id as int] == kids@);
        let mut out: Vec<usize> = Vec::new();
        let mut k: usize = 0;
        while k < kids.len()
            invariant
                k <= kids@.len(),
                out@ == kids@.take(k as int),
            decreases kids.len() - k,
        {
            out.push(kids[k]);
            k = k + 1;
            assert(out@ =~= kids@.take(k as int));
        }
        assert(kids@.take(kids@.len() as int) =~= kids@);
        out
    }

    /// Node `id` and its ancestors, nearest first. A parent chain that comes
    /// back to a node it has passed is followed for at most as many links as
    /// there are nodes.
    pub fn ancestors(&self, id: usize) -> (r: Vec<usize>)
        requires
            self@.wf(),
            id < self@.len(),
        ensures
            r@ == self@.ancestors(id, self@.len()),
    {
        let mut out: Vec<usize> = Vec::new();
        let mut cur = id;
        let mut fuel = self.contents.len();
        while fuel > 0
            invariant
                self@.wf(),
                cur < self@.len(),
                fuel <= self@.len(),
                out@ + self@.ancestors(cur, fuel as nat) == self@.ancestors(id, self@.len()),
            decreases fuel,
        {
            let ghost rest = self@.ancestors(cur, fuel as nat);
            out.push(cur);
            match self.parents[cur] {
                Some(p) => {
                    assert(out@ + self@.ancestors(p, (fuel - 1) as nat) =~= self@.ancestors(id, self@.len()));
                    cur = p;
                    fuel = fuel - 1;
                },
                None => {
                    assert(out@ =~= self@.ancestors(id, self@.len()));
                    return out;
                },
            }
        }
        assert(out@ =~= self@.ancestors(id, self@.len()));
        out
    }

    /// The content of node `id`.
    pub fn content(&self, id: usize) -> (r: &T)
        requires
            self@.wf(),
            id < self@.len(),
        ensures
            *r == self@.contents[id as int],
    {
        &self.contents[id]
    }

    /// Makes the parentless node `child` the first child of `parent`.
    pub fn prepend_child(&mut self, parent: usize, child: usize)
        requires
            old(self)@.wf(),
            parent < old(self)@.len(),
            child < old(self)@.len(),
            parent != child,
            old(self)@.parents[child as int] is None,
        ensures
            final(self)@ == old(self)@.with_first_child(parent, child),
            final(self)@.wf(),
    {
        let ghost before = self@;
        proof {
            lemma_with_first_child_wf(before, parent, child);
        }
        let ghost old_kids = self.children@[parent as int]@;
        self.children[parent].insert(0, child);
        self.parents.set(child, Some(parent));
        let ghost target = before.with_first_child(parent, child);
        assert(self.children@[parent as int]@ =~= seq![child] + old_kids);
        assert forall|i: int| 0 <= i < self@.children.len() implies #[trigger] self@.children[i] == target.children[i] by {
            if i != parent {
                assert(self@.children[i] == before.children[i]);
            }
        }
        assert(self@.children =~= target.children);
        assert(self@.parents =~= target.parents);
    }

    /// Makes the parentless node `child` the last child of `parent`.
    pub fn append_child(&mut self, parent: usize, child: usize)
        requires
            old(self)@.wf(),
            parent < old(self)@.len(),
            child < old(self)@.len(),
            parent != child,
            old(self)@.parents[child as int] is None,
        ensures
            final(self)@ == old(self)@.with_last_child(parent, child),
            final(self)@.wf(),
    {
        let ghost before = self@;
        proof {
            lemma_with_last_child_wf(before, parent, child);
        }
        let ghost old_kids = self.children@[parent as int]@;
        self.children[parent].push(child);
        self.parents.set(child, Some(parent));
        let ghost target = before.with_last_child(parent, child);
        assert(self.children@[parent as int]@ =~= old_kids.push(child));
        assert forall|i: int| 0 <= i < self@.children.len() implies #[trigger] self@.children[i] == target.children[i] by {
            if i != parent {
                assert(self@.children[i] == before.children[i]);
            }
        }
        assert(self@.children =~= target.children);
        assert(self@.parents =~= target.parents);
    }

    /// Detaches node `id` from its parent, if it has one; the parent's
    /// other children keep their order.
    pub fn orphan(&mut self, id: usize)
        requires
            old(self)@.wf(),
            id < old(self)@.len(),
        ensures
            final(self)@ == old(self)@.detached(id),
            final(self)@.wf(),
    {
        let ghost before = self@;
        proof {
            lemma_detached_wf(before, id);
        }
        let p = match self.parents[id] {
            Some(p) => p,
            None => return,
        };
        assert(before.children[p as int].contains(id));
        let ghost old_kids = before.children[p as int];
        assert(old_kids == self.children@[p as int]@);
        let n = self.children[p].len();
        let mut k: usize = 0;
        while k < n && self.children[p][k] != id
            invariant
                n == old_kids.len(),
                before == self@,
                before.wf(),
                p < before.len(),
                old_kids == self.children@[p as int]@,
                k <= n,
                forall|q: int| 0 <= q < k ==> old_kids[q] != id,
            decreases n - k,
        {
            k = k + 1;
        }
        assert(k < n) by {
            let q = choose|q: int| 0 <= q < old_kids.len() && old_kids[q] == id;
        }
        proof {
            lemma_position_of(old_kids, k as int);
        }
        self.children[p].remove(k);
        self.parents.set(id, None);
        let ghost target = before.detached(id);
        assert forall|i: int| 0 <= i < self@.children.len() implies #[trigger] self@.children[i] == target.children[i] by {
            if i != p {
                assert(self@.children[i] == before.children[i]);
            }
        }
        assert(self@.children =~= target.children);
        assert(self@.parents =~= target.parents);
    }

    /// Detaches `child` when it is a child of `parent`; does nothing
    /// otherwise.
    pub fn remove_child(&mut self, parent: usize, child: usize)
        requires
            old(self)@.wf(),
            child < old(self)@.len(),
        ensures
            final(self)@ == if old(self)@.parents[child as int] == Some(parent) {
                old(self)@.detached(child)
            } else {
                old(self)@
            },
            final(self)@.wf(),
    {
        if self.parents[child] == Some(parent) {
            self.orphan(child);
        }
    }

    /// Mutable access to the content of node `id`.
    pub fn content_mut(&mut self, id: usize) -> (r: &mut T)
        requires
            old(self)@.wf(),
            id < old(self)@.len(),
        ensures
            *r == old(self)@.contents[id as int],
            final(self)@ == (NodeTreeView {
                contents: old(self)@.contents.update(id as int, *final(r)),
                ..old(self)@
            }),
    {
        &mut self.contents[id]
    }
}

} // verus!
