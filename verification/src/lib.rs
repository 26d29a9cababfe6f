//! A compact, append-only general tree.
//!
//! Every node's parent is recorded as a position in a single backing
//! sequence, rather than through linked pointers.  Nodes are added one at a
//! time and never removed or reparented, so a node's parent always occupies
//! an earlier position than the node itself.  Children are not stored in
//! lists; they are discovered by scanning the parent positions forward.

use vstd::prelude::*;

verus! {

/// An append-only tree holding one value per node.
///
/// Two parallel vectors back the tree: `values[i]` is the value stored at
/// node `i`, and `edges[i]` is the position of node `i`'s parent.  Position
/// 0 is the root; `edges[0]` is a self-referential sentinel that no reader
/// ever interprets as a logical parent.
#[derive(Debug)]
pub struct ApterTree<T> {
    values: Vec<T>,
    edges: Vec<usize>,
}

/// An opaque handle to one node of an [`ApterTree`]: its position in the
/// backing vectors.  Two references are equal exactly when their positions
/// are equal.  A reference is meaningful only for the tree that produced it.
#[derive(Debug, Copy, Clone, Eq, PartialEq, Structural)]
pub struct ApterTreeNodeRef(usize);

impl ApterTreeNodeRef {
    /// The position this reference designates.
    pub closed spec fn pos(&self) -> int {
        self.0 as int
    }

    fn idx(&self) -> (i: usize)
        ensures
            i as int == self.pos(),
    {
        self.0
    }

    fn is_root(&self) -> (b: bool)
        ensures
            b <==> self.pos() == 0,
    {
        self.0 == 0
    }
}

/// Two node references are equal exactly when they designate the same
/// position.
pub proof fn lemma_node_ref_eq(a: ApterTreeNodeRef, b: ApterTreeNodeRef)
    ensures
        a == b <==> a.pos() == b.pos(),
{
}

impl<T> ApterTree<T> {
    /// The sequence of stored node values, indexed by position.
    pub closed spec fn vals(&self) -> Seq<T> {
        self.values@
    }

    /// The sequence of parent positions, indexed by position.
    pub closed spec fn parents(&self) -> Seq<int> {
        self.edges@.map_values(|e: usize| e as int)
    }

    /// The number of nodes.
    pub open spec fn spec_len(&self) -> int {
        self.vals().len() as int
    }

    /// The structural invariant: the two backing sequences have the same
    /// nonempty length, the root's sentinel entry is 0, and every other
    /// node's parent occupies a strictly earlier position.
    pub open spec fn wf(&self) -> bool {
        &&& self.vals().len() == self.parents().len()
        &&& 1 <= self.parents().len()
        &&& self.parents()[0] == 0
        &&& forall|i: int| 1 <= i < self.parents().len() ==> 0 <= #[trigger] self.parents()[i] < i
    }

    /// The logical parent of the node at position `i`: none for the root,
    /// otherwise the recorded parent position.
    pub open spec fn parent_pos(&self, i: int) -> Option<int> {
        if i == 0 {
            None
        } else {
            Some(self.parents()[i])
        }
    }

    /// Creates a tree with exactly one node, the root, at position 0.
    pub fn new(root: T) -> (t: Self)
        ensures
            t.wf(),
            t.vals() == seq![root],
            t.parents() == seq![0int],
            t.spec_len() == 1,
            t.parent_pos(0) is None,
    {
        let t = ApterTree { values: vec![root], edges: vec![0] };
        proof {
            assert(t.vals() =~= seq![root]);
            assert(t.parents() =~= seq![0int]);
        }
        t
    }

    /// Current node count; at least 1 for a well-formed tree.
    pub fn len(&self) -> (n: usize)
        ensures
            n as int == self.spec_len(),
    {
        self.values.len()
    }

    /// The reference to position 0.  Always valid.
    pub fn root(&self) -> (r: ApterTreeNodeRef)
        ensures
            r.pos() == 0,
    {
        ApterTreeNodeRef(0)
    }

    /// Creates a tree with one root node, pre-reserving backing storage for
    /// at least `capacity` nodes.  The reservation is a performance hint
    /// only: the resulting tree is indistinguishable from [`Self::new`].
    pub fn with_capacity(root: T, capacity: usize) -> (t: Self)
        ensures
            t.wf(),
            t.vals() == seq![root],
            t.parents() == seq![0int],
            t.spec_len() == 1,
            t.parent_pos(0) is None,
    {
        let mut values: Vec<T> = Vec::with_capacity(capacity);
        let mut edges: Vec<usize> = Vec::with_capacity(capacity);
        values.push(root);
        edges.push(0);
        let t = ApterTree { values, edges };
        proof {
            assert(t.vals() =~= seq![root]);
            assert(t.parents() =~= seq![0int]);
        }
        t
    }

    /// Shared access to the value stored at `node`.
    pub fn val(&self, node: ApterTreeNodeRef) -> (r: &T)
        requires
            node.pos() < self.spec_len(),
        ensures
            *r == self.vals()[node.pos()],
    {
        &self.values[node.idx()]
    }

    /// Exclusive access to the value stored at `node`.  Nothing but that
    /// value changes: the node count and every parent position stay as they
    /// were.
    pub fn val_mut(&mut self, node: ApterTreeNodeRef) -> (r: &mut T)
        requires
            node.pos() < old(self).spec_len(),
        ensures
            *r == old(self).vals()[node.pos()],
            final(self).vals() == old(self).vals().update(node.pos(), *final(r)),
            final(self).parents() == old(self).parents(),
            final(self).spec_len() == old(self).spec_len(),
            old(self).wf() ==> final(self).wf(),
    {
        let i: usize = node.idx();
        &mut self.values[i]
    }

    /// The parent of `child`: absent for the root, otherwise the reference
    /// recorded for it, which always designates an earlier position.
    pub fn parent(&self, child: ApterTreeNodeRef) -> (r: Option<ApterTreeNodeRef>)
        requires
            self.wf(),
            child.pos() < self.spec_len(),
        ensures
            match r {
                None => child.pos() == 0,
                Some(p) => {
                    &&& child.pos() != 0
                    &&& Some(p.pos()) == self.parent_pos(child.pos())
                    &&& 0 <= p.pos() < child.pos()
                },
            },
    {
        if child.is_root() {
            None
        } else {
            Some(ApterTreeNodeRef(self.edges[child.idx()]))
        }
    }

    /// Appends `val` as a new child of `parent` in a single atomic step:
    /// one entry goes onto each backing sequence, and the returned reference
    /// designates the new node's position, the old node count.  Every
    /// existing node keeps its position, value and parent.
    pub fn push_child(&mut self, parent: ApterTreeNodeRef, val: T) -> (r: ApterTreeNodeRef)
        requires
            old(self).wf(),
            parent.pos() < old(self).spec_len(),
        ensures
            final(self).wf(),
            final(self).vals() == old(self).vals().push(val),
            final(self).parents() == old(self).parents().push(parent.pos()),
            final(self).spec_len() == old(self).spec_len() + 1,
            r.pos() == old(self).spec_len(),
            1 <= r.pos(),
            pushed(*old(self), parent.pos(), val, *final(self), r.pos()),
    {
        self.values.push(val);
        self.edges.push(parent.idx());
        let r = ApterTreeNodeRef(self.values.len() - 1);
        proof {
            assert(self.parents() =~= old(self).parents().push(parent.pos()));
        }
        r
    }

    /// The positions of the direct children of the node at position `p`,
    /// in increasing order: exactly the positions after `p` whose recorded
    /// parent is `p`.
    pub open spec fn child_positions(&self, p: int) -> Seq<int> {
        children_from(self.parents(), p, p + 1)
    }

    /// Constructs an enumerator over the direct children of `parent`, scoped
    /// to the tree's current state.
    pub fn scan_children<'t>(&'t self, parent: ApterTreeNodeRef) -> (it: Children<'t, T>)
        requires
            self.wf(),
            parent.pos() < self.spec_len(),
        ensures
            it.wf(),
            it.tree() == *self,
            it.parent_pos() == parent.pos(),
            it.remaining() == self.child_positions(parent.pos()),
    {
        Children::new(self, parent)
    }
}

/// The effect of one append on the tree's contents: `post` is `pre` with
/// value `v` and parent position `p` appended, and `r` is the position of
/// the new node — the node count before the append.
pub open spec fn pushed<T>(pre: ApterTree<T>, p: int, v: T, post: ApterTree<T>, r: int) -> bool {
    &&& post.vals() == pre.vals().push(v)
    &&& post.parents() == pre.parents().push(p)
    &&& r == pre.spec_len()
}

/// `post` extends `pre`: every node of `pre` is still present at its
/// position, with its value and its parent entry unchanged.  Every append
/// leaves the tree an extension of what it was, and extension is transitive
/// ([`lemma_push_extends`], [`lemma_extends_trans`]).
pub open spec fn extends<T>(pre: ApterTree<T>, post: ApterTree<T>) -> bool {
    &&& pre.vals().is_prefix_of(post.vals())
    &&& pre.parents().is_prefix_of(post.parents())
}

/// The positions `i` with `cur <= i < parents.len()` and `parents[i] == p`,
/// in increasing order.
pub open spec fn children_from(parents: Seq<int>, p: int, cur: int) -> Seq<int>
    decreases parents.len() - cur,
{
    if cur < 0 || cur >= parents.len() {
        Seq::empty()
    } else if parents[cur] == p {
        seq![cur] + children_from(parents, p, cur + 1)
    } else {
        children_from(parents, p, cur + 1)
    }
}

/// A lazy, forward-only enumerator of the direct children of one node, over
/// a read-only view of the tree taken when it was constructed.
///
/// Each step scans the parent positions from the cursor onward; a match is
/// yielded and the cursor advances past it.  Once a scan reaches the end of
/// the sequence without a match the enumerator is exhausted for good: every
/// further step yields nothing.
pub struct Children<'t, T> {
    tree: &'t ApterTree<T>,
    parent: ApterTreeNodeRef,
    idx: usize,
}

impl<'t, T> Children<'t, T> {
    /// The tree state this enumerator was constructed over.
    pub closed spec fn tree(&self) -> ApterTree<T> {
        *self.tree
    }

    /// The position whose children are being enumerated.
    pub closed spec fn parent_pos(&self) -> int {
        self.parent.pos()
    }

    /// The scan cursor: the first position not yet examined.
    pub closed spec fn cursor(&self) -> int {
        self.idx as int
    }

    /// The enumerator's invariant: the tree is well-formed, the parent is a
    /// node of it, and the cursor has not fallen behind the first possible
    /// child position.
    pub open spec fn wf(&self) -> bool {
        &&& self.tree().wf()
        &&& 0 <= self.parent_pos() < self.tree().spec_len()
        &&& self.parent_pos() < self.cursor() <= self.tree().spec_len()
    }

    /// The children not yet yielded, in the order they will come out.
    pub open spec fn remaining(&self) -> Seq<int> {
        children_from(self.tree().parents(), self.parent_pos(), self.cursor())
    }

    fn new(tree: &'t ApterTree<T>, parent: ApterTreeNodeRef) -> (it: Self)
        requires
            tree.wf(),
            parent.pos() < tree.spec_len(),
        ensures
            it.wf(),
            it.tree() == *tree,
            it.parent_pos() == parent.pos(),
            it.remaining() == tree.child_positions(parent.pos()),
    {
        let n: usize = tree.len();
        let p: usize = parent.idx();
        assert(p < n);
        let idx: usize = p + 1;
        Children { tree, parent, idx }
    }

    /// Produces the next child, or nothing once the enumerator is exhausted.
    ///
    /// A yielded reference designates the first remaining child position and
    /// is dropped from the remainder.  When nothing remains, nothing is
    /// yielded and the enumerator is left exactly as it was, so every later
    /// call yields nothing as well.
    pub fn next(&mut self) -> (r: Option<ApterTreeNodeRef>)
        requires
            old(self).wf(),
        ensures
            final(self).wf(),
            final(self).tree() == old(self).tree(),
            final(self).parent_pos() == old(self).parent_pos(),
            match r {
                Some(n) => {
                    &&& 0 < old(self).remaining().len()
                    &&& n.pos() == old(self).remaining()[0]
                    &&& final(self).remaining() == old(self).remaining().drop_first()
                },
                None => {
                    &&& old(self).remaining().len() == 0
                    &&& *final(self) == *old(self)
                },
            },
    {
        let n: usize = self.tree.len();
        let mut i: usize = self.idx;
        while i < n
            invariant
                old(self).wf(),
                *self == *old(self),
                n as int == self.tree().spec_len(),
                self.cursor() <= i as int <= n as int,
                self.remaining() == children_from(
                    self.tree().parents(),
                    self.parent_pos(),
                    i as int,
                ),
            decreases n - i,
        {
            if self.tree.edges[i] == self.parent.idx() {
                self.idx = i + 1;
                return Some(ApterTreeNodeRef(i));
            }
            i = i + 1;
        }
        None
    }
}

/// A freshly created tree holds exactly one node, the root at position 0,
/// storing the creation value and having no logical parent.
pub proof fn lemma_fresh_tree<T>(t: ApterTree<T>, v: T)
    requires
        t.vals() == seq![v],
        t.parents() == seq![0int],
    ensures
        t.spec_len() == 1,
        t.vals()[0] == v,
        t.parent_pos(0) is None,
{
}

/// Successive appends hand back strictly increasing positions — consecutive
/// integers — and the first append to a freshly created tree returns
/// position 1.
pub proof fn lemma_push_positions_successive<T>(
    t0: ApterTree<T>,
    p1: int,
    v1: T,
    t1: ApterTree<T>,
    r1: int,
    p2: int,
    v2: T,
    t2: ApterTree<T>,
    r2: int,
)
    requires
        pushed(t0, p1, v1, t1, r1),
        pushed(t1, p2, v2, t2, r2),
    ensures
        r2 == r1 + 1,
        r1 < r2,
        t0.spec_len() == 1 ==> r1 == 1 && r2 == 2,
{
}

/// One append leaves the tree an extension of what it was.
pub proof fn lemma_push_extends<T>(pre: ApterTree<T>, p: int, v: T, post: ApterTree<T>, r: int)
    requires
        pushed(pre, p, v, post, r),
    ensures
        extends(pre, post),
{
    assert(pre.vals() =~= post.vals().subrange(0, pre.vals().len() as int));
    assert(pre.parents() =~= post.parents().subrange(0, pre.parents().len() as int));
}

/// Extension is transitive, so any chain of later appends still extends the
/// tree as it stood at any earlier moment.
pub proof fn lemma_extends_trans<T>(a: ApterTree<T>, b: ApterTree<T>, c: ApterTree<T>)
    requires
        extends(a, b),
        extends(b, c),
    ensures
        extends(a, c),
{
    assert(a.vals() =~= c.vals().subrange(0, a.vals().len() as int));
    assert(a.parents() =~= c.parents().subrange(0, a.parents().len() as int));
}

/// A node created by an append keeps its value and its parent under any
/// later, unrelated appends: in every extension of the tree as it stood
/// right after the append, position `r` still stores `v` and still has
/// logical parent `p`.
pub proof fn lemma_pushed_node_stable<T>(
    pre: ApterTree<T>,
    p: int,
    v: T,
    mid: ApterTree<T>,
    r: int,
    post: ApterTree<T>,
)
    requires
        pre.wf(),
        pushed(pre, p, v, mid, r),
        extends(mid, post),
    ensures
        1 <= r < post.spec_len(),
        post.vals()[r] == v,
        post.parent_pos(r) == Some(p),
{
    assert(post.vals()[r] == post.vals().subrange(0, mid.vals().len() as int)[r]);
    assert(post.parents()[r] == post.parents().subrange(0, mid.parents().len() as int)[r]);
}

/// What `children_from` collects: exactly the positions at or after `cur`
/// whose parent entry is `p`, in strictly increasing order.
proof fn lemma_children_from_exact(parents: Seq<int>, p: int, cur: int)
    requires
        0 <= cur,
    ensures
        forall|k: int| 0 <= k < children_from(parents, p, cur).len() ==> {
            let i = #[trigger] children_from(parents, p, cur)[k];
            cur <= i < parents.len() && parents[i] == p
        },
        forall|i: int|
            cur <= i < parents.len() && #[trigger] parents[i] == p ==> children_from(
                parents,
                p,
                cur,
            ).contains(i),
        forall|k1: int, k2: int|
            0 <= k1 < k2 < children_from(parents, p, cur).len() ==> children_from(
                parents,
                p,
                cur,
            )[k1] < children_from(parents, p, cur)[k2],
    decreases parents.len() - cur,
{
    if cur < 0 || cur >= parents.len() {
    } else {
        lemma_children_from_exact(parents, p, cur + 1);
        let rest = children_from(parents, p, cur + 1);
        let s = children_from(parents, p, cur);
        if parents[cur] == p {
            assert(s == seq![cur] + rest);
            assert(s[0] == cur);
            assert forall|i: int| cur <= i < parents.len() && #[trigger] parents[i] == p
                implies s.contains(i) by {
                if i == cur {
                    assert(s[0] == i);
                } else {
                    let k = choose|k: int| 0 <= k < rest.len() && rest[k] == i;
                    assert(s[k + 1] == i);
                }
            }
        } else {
            assert forall|i: int| cur <= i < parents.len() && #[trigger] parents[i] == p
                implies s.contains(i) by {
                let k = choose|k: int| 0 <= k < rest.len() && rest[k] == i;
                assert(s[k] == i);
            }
        }
    }
}

/// What a child enumerator yields is exactly the set of nodes whose logical
/// parent is the node at position `p` — every one of them and no others —
/// in increasing position order, which is the order they were appended.
pub proof fn lemma_child_positions_exact<T>(t: ApterTree<T>, p: int)
    requires
        t.wf(),
        0 <= p < t.spec_len(),
    ensures
        forall|k: int| 0 <= k < t.child_positions(p).len() ==> {
            let i = #[trigger] t.child_positions(p)[k];
            0 < i < t.spec_len() && t.parent_pos(i) == Some(p)
        },
        forall|i: int|
            0 <= i < t.spec_len() && t.parent_pos(i) == Some(p) ==> t.child_positions(
                p,
            ).contains(i),
        forall|k1: int, k2: int|
            0 <= k1 < k2 < t.child_positions(p).len() ==> t.child_positions(p)[k1]
                < t.child_positions(p)[k2],
{
    lemma_children_from_exact(t.parents(), p, p + 1);
    assert forall|i: int| 0 <= i < t.spec_len() && t.parent_pos(i) == Some(p)
        implies t.child_positions(p).contains(i) by {
        assert(i != 0);
        assert(t.parents()[i] == p);
        assert(t.parents()[i] < i);
    }
}

} // verus!
