//! Layout tree of the 2D camera display.
//!
//! Cameras are the leaves of a tree of branches; each branch splits its area
//! between its children, alternating between horizontal and vertical layout at
//! each level. Cameras are identified by their entity bits.

use vstd::prelude::*;

verus! {

/// Largest number of cameras a branch takes before new cameras go into its
/// least populated child.
pub const MAX_CHILDREN: u32 = 3;

/// A node of the display layout tree.
pub enum VideoNode {
    Branch(Vec<VideoNode>),
    Leaf(u64),
}

/// The mathematical form of a layout tree.
pub enum VideoTree {
    Branch(Seq<VideoTree>),
    Leaf(u64),
}

/// Direction in which a branch lays out its children.
#[derive(Clone, Copy, Debug, PartialEq, Eq, Structural)]
pub enum VideoLayout {
    Horizontal,
    Vertical,
}

// ---------------------------------------------------------------------------
// Model of the tree
// ---------------------------------------------------------------------------

pub open spec fn node_model(n: VideoNode) -> VideoTree
    decreases n,
{
    match n {
        VideoNode::Leaf(e) => VideoTree::Leaf(e),
        VideoNode::Branch(ch) => VideoTree::Branch(nodes_model(ch@)),
    }
}

pub open spec fn nodes_model(s: Seq<VideoNode>) -> Seq<VideoTree>
    decreases s,
{
    if s.len() == 0 {
        Seq::empty()
    } else {
        nodes_model(s.drop_last()).push(node_model(s.last()))
    }
}

impl View for VideoNode {
    type V = VideoTree;

    open spec fn view(&self) -> VideoTree {
        node_model(*self)
    }
}

/// The cameras of a tree, left to right.
pub open spec fn leaves(t: VideoTree) -> Seq<u64>
    decreases t,
{
    match t {
        VideoTree::Leaf(e) => seq![e],
        VideoTree::Branch(ch) => leaves_seq(ch),
    }
}

/// The cameras of a sequence of trees, left to right.
pub open spec fn leaves_seq(s: Seq<VideoTree>) -> Seq<u64>
    decreases s,
{
    if s.len() == 0 {
        Seq::empty()
    } else {
        leaves_seq(s.drop_last()) + leaves(s.last())
    }
}

/// Number of cameras in a tree.
pub open spec fn count(t: VideoTree) -> nat {
    leaves(t).len()
}

/// Whether a tree is a branch without children (a tree without cameras).
pub open spec fn is_empty_branch(t: VideoTree) -> bool {
    t matches VideoTree::Branch(ch) && ch.len() == 0
}

/// Index of the first child with the fewest cameras.
pub open spec fn first_min(s: Seq<VideoTree>) -> int
    decreases s.len(),
{
    if s.len() <= 1 {
        0
    } else {
        let i = first_min(s.drop_last());
        if count(s.last()) < count(s[i]) {
            s.len() - 1
        } else {
            i
        }
    }
}

/// Where a new camera goes: an empty branch becomes the camera; a single camera
/// becomes a branch of the old and the new camera; a branch with fewer than
/// [`MAX_CHILDREN`] cameras in total takes the camera as a new last child;
/// otherwise the camera goes into the first child with the fewest cameras.
pub open spec fn tree_insert(t: VideoTree, e: u64) -> VideoTree
    decreases t,
{
    match t {
        VideoTree::Leaf(x) => VideoTree::Branch(seq![VideoTree::Leaf(x), VideoTree::Leaf(e)]),
        VideoTree::Branch(ch) => {
            if ch.len() == 0 {
                VideoTree::Leaf(e)
            } else if count(t) < MAX_CHILDREN {
                VideoTree::Branch(ch.push(VideoTree::Leaf(e)))
            } else {
                let i = first_min(ch);
                if 0 <= i < ch.len() {
                    VideoTree::Branch(ch.update(i, tree_insert(ch[i], e)))
                } else {
                    t
                }
            }
        },
    }
}

/// Removing a camera: every leaf showing it disappears, branches left without
/// children disappear, and a branch left with a single child is replaced by
/// that child.
pub open spec fn tree_remove(t: VideoTree, e: u64) -> VideoTree
    decreases t,
{
    match t {
        VideoTree::Leaf(x) => if x == e {
            VideoTree::Branch(Seq::empty())
        } else {
            VideoTree::Leaf(x)
        },
        VideoTree::Branch(ch) => {
            let kept = trees_remove(ch, e);
            if kept.len() == 1 {
                kept[0]
            } else {
                VideoTree::Branch(kept)
            }
        },
    }
}

/// [`tree_remove`] on each tree of a sequence, dropping the ones left empty.
pub open spec fn trees_remove(s: Seq<VideoTree>, e: u64) -> Seq<VideoTree>
    decreases s,
{
    if s.len() == 0 {
        Seq::empty()
    } else {
        let rest = trees_remove(s.drop_last(), e);
        let r = tree_remove(s.last(), e);
        if is_empty_branch(r) {
            rest
        } else {
            rest.push(r)
        }
    }
}

// ---------------------------------------------------------------------------
// Lemmas about the model
// ---------------------------------------------------------------------------

proof fn lemma_nodes_model(s: Seq<VideoNode>)
    ensures
        nodes_model(s).len() == s.len(),
        forall|i: int| 0 <= i < s.len() ==> #[trigger] nodes_model(s)[i] == node_model(s[i]),
    decreases s.len(),
{
    if s.len() > 0 {
        lemma_nodes_model(s.drop_last());
    }
}

proof fn lemma_first_min(s: Seq<VideoTree>)
    requires
        s.len() > 0,
    ensures
        0 <= first_min(s) < s.len(),
        forall|j: int| 0 <= j < s.len() ==> count(s[first_min(s)]) <= #[trigger] count(s[j]),
        forall|j: int| 0 <= j < first_min(s) ==> count(s[first_min(s)]) < #[trigger] count(s[j]),
    decreases s.len(),
{
    if s.len() > 1 {
        let d = s.drop_last();
        lemma_first_min(d);
        assert forall|j: int| 0 <= j < d.len() implies #[trigger] d[j] == s[j] by {}
        let i = first_min(d);
        assert(count(d[i]) == count(s[i]));
        assert forall|j: int| 0 <= j < s.len() implies count(s[first_min(s)]) <= #[trigger] count(
            s[j],
        ) by {
            if j < d.len() {
                assert(count(d[j]) == count(s[j]));
            }
        }
        assert forall|j: int| 0 <= j < first_min(s) implies count(s[first_min(s)]) < #[trigger] count(
            s[j],
        ) by {
            assert(count(d[j]) == count(s[j]));
        }
    }
}

proof fn lemma_leaves_seq_push(s: Seq<VideoTree>, t: VideoTree)
    ensures
        leaves_seq(s.push(t)) == leaves_seq(s) + leaves(t),
{
    assert(s.push(t).drop_last() =~= s);
}

proof fn lemma_leaves_seq_split(s: Seq<VideoTree>, k: int)
    requires
        0 <= k <= s.len(),
    ensures
        leaves_seq(s) == leaves_seq(s.take(k)) + leaves_seq(s.skip(k)),
    decreases s.len(),
{
    if k == s.len() {
        assert(s.take(k) =~= s);
        assert(s.skip(k) =~= Seq::<VideoTree>::empty());
        assert(leaves_seq(s.skip(k)) =~= Seq::<u64>::empty());
        assert(leaves_seq(s) + Seq::<u64>::empty() =~= leaves_seq(s));
    } else {
        lemma_leaves_seq_split(s.drop_last(), k);
        assert(s.drop_last().take(k) =~= s.take(k));
        assert(s.skip(k).drop_last() =~= s.drop_last().skip(k));
        assert(s.skip(k).last() == s.last());
        assert(leaves_seq(s.skip(k)) == leaves_seq(s.drop_last().skip(k)) + leaves(s.last()));
        assert(leaves_seq(s) =~= leaves_seq(s.take(k)) + leaves_seq(s.skip(k)));
    }
}

/// The cameras of a sequence split around one position.
proof fn lemma_leaves_seq_at(s: Seq<VideoTree>, i: int)
    requires
        0 <= i < s.len(),
    ensures
        leaves_seq(s) == leaves_seq(s.take(i)) + leaves(s[i]) + leaves_seq(s.skip(i + 1)),
{
    lemma_leaves_seq_split(s, i);
    lemma_leaves_seq_split(s.skip(i), 1);
    assert(s.skip(i).take(1) =~= seq![s[i]]);
    assert(seq![s[i]].drop_last() =~= Seq::<VideoTree>::empty());
    assert(leaves_seq(Seq::<VideoTree>::empty()) =~= Seq::<u64>::empty());
    assert(Seq::<u64>::empty() + leaves(s[i]) =~= leaves(s[i]));
    assert(leaves_seq(seq![s[i]]) =~= leaves(s[i]));
    assert(s.skip(i).skip(1) =~= s.skip(i + 1));
    assert(leaves_seq(s) =~= leaves_seq(s.take(i)) + leaves(s[i]) + leaves_seq(s.skip(i + 1)));
}

/// The number of cameras of one child is at most that of the whole sequence.
proof fn lemma_child_count_le(s: Seq<VideoTree>, i: int)
    requires
        0 <= i < s.len(),
    ensures
        count(s[i]) <= leaves_seq(s).len(),
{
    lemma_leaves_seq_at(s, i);
}

proof fn lemma_leaves_seq_update(s: Seq<VideoTree>, i: int, t: VideoTree)
    requires
        0 <= i < s.len(),
    ensures
        leaves_seq(s.update(i, t)) == leaves_seq(s.take(i)) + leaves(t) + leaves_seq(
            s.skip(i + 1),
        ),
{
    let u = s.update(i, t);
    lemma_leaves_seq_at(u, i);
    assert(u.take(i) =~= s.take(i));
    assert(u.skip(i + 1) =~= s.skip(i + 1));
}

// ---------------------------------------------------------------------------
// Executable tree operations
// ---------------------------------------------------------------------------

impl VideoNode {
    /// An empty layout: a branch without children.
    pub fn new() -> (n: VideoNode)
        ensures
            n@ == VideoTree::Branch(Seq::empty()),
    {
        let n = VideoNode::Branch(Vec::new());
        proof {
            lemma_nodes_model(Seq::<VideoNode>::empty());
        }
        assert(n@ =~= VideoTree::Branch(Seq::empty()));
        n
    }

    /// Number of cameras in the tree.
    #[verifier::loop_isolation(false)]
    pub fn count_children(&self) -> (n: u32)
        requires
            count(self@) <= u32::MAX,
        ensures
            n == count(self@),
        decreases self,
    {
        match self {
            VideoNode::Leaf(_) => 1,
            VideoNode::Branch(children) => {
                let ghost models = nodes_model(children@);
                proof {
                    lemma_nodes_model(children@);
                }
                let mut total: u32 = 0;
                let mut i: usize = 0;
                while i < children.len()
                    invariant
                        i <= children@.len(),
                        models == nodes_model(children@),
                        models.len() == children@.len(),
                        forall|j: int|
                            0 <= j < children@.len() ==> #[trigger] models[j] == node_model(
                                children@[j],
                            ),
                        leaves_seq(models).len() <= u32::MAX,
                        total == leaves_seq(models.take(i as int)).len(),
                    decreases children@.len() - i,
                {
                    proof {
                        lemma_leaves_seq_split(models, i + 1);
                        assert(models.take(i + 1).drop_last() =~= models.take(i as int));
                        lemma_child_count_le(models, i as int);
                        assert(decreases_to!(*self => *children));
                        assert(decreases_to!(*children => children@));
                        assert(decreases_to!(children@ => children@[i as int]));
                        assert(decreases_to!(*self => children@[i as int]));
                    }
                    let c = children[i].count_children();
                    total = total + c;
                    i = i + 1;
                }
                assert(models.take(i as int) =~= models);
                total
            },
        }
    }
}


impl VideoNode {
    fn inserted(node: VideoNode, e: u64) -> (r: VideoNode)
        requires
            count(node@) < u32::MAX,
        ensures
            r@ == tree_insert(node@, e),
        decreases node,
    {
        let total = node.count_children();
        let ghost model = node@;
        let ghost orig = node;
        match node {
            VideoNode::Leaf(x) => {
                let mut v: Vec<VideoNode> = Vec::new();
                v.push(VideoNode::Leaf(x));
                v.push(VideoNode::Leaf(e));
                let r = VideoNode::Branch(v);
                proof {
                    lemma_nodes_model(v@);
                    assert(nodes_model(v@) =~= seq![VideoTree::Leaf(x), VideoTree::Leaf(e)]);
                }
                r
            },
            VideoNode::Branch(mut children) => {
                let ghost old_children = children@;
                let ghost models = nodes_model(children@);
                proof {
                    lemma_nodes_model(children@);
                }
                if children.len() == 0 {
                    return VideoNode::Leaf(e);
                }
                if total < MAX_CHILDREN {
                    children.push(VideoNode::Leaf(e));
                    proof {
                        lemma_nodes_model(children@);
                        assert(nodes_model(children@) =~= models.push(VideoTree::Leaf(e)));
                    }
                    return VideoNode::Branch(children);
                }
                // The first child with the fewest cameras.
                let mut best: usize = 0;
                let mut best_count: u32 = 0;
                let mut j: usize = 0;
                while j < children.len()
                    invariant
                        children@ == old_children,
                        models == nodes_model(old_children),
                        models.len() == old_children.len(),
                        forall|k: int|
                            0 <= k < old_children.len() ==> #[trigger] models[k] == node_model(
                                old_children[k],
                            ),
                        leaves_seq(models).len() < u32::MAX,
                        0 < children@.len(),
                        j <= children@.len(),
                        j > 0 ==> best < j,
                        j > 0 ==> best == first_min(models.take(j as int)),
                        j > 0 ==> best_count == count(models[best as int]),
                    decreases children@.len() - j,
                {
                    proof {
                        lemma_child_count_le(models, j as int);
                    }
                    let c = children[j].count_children();
                    proof {
                        let p = models.take(j + 1);
                        assert(p.drop_last() =~= models.take(j as int));
                        assert(p.last() == models[j as int]);
                        if j > 0 {
                            assert(p[best as int] == models[best as int]);
                        }
                    }
                    if j == 0 || c < best_count {
                        best = j;
                        best_count = c;
                    }
                    j = j + 1;
                }
                proof {
                    assert(models.take(j as int) =~= models);
                    lemma_first_min(models);
                    lemma_child_count_le(models, best as int);
                }
                let child = children.remove(best);
                proof {
                    assert(child == old_children[best as int]);
                    assert(decreases_to!(orig => old_children));
                }
                let new_child = Self::inserted(child, e);
                children.insert(best, new_child);
                proof {
                    lemma_nodes_model(children@);
                    assert(nodes_model(children@) =~= models.update(
                        best as int,
                        tree_insert(models[best as int], e),
                    ));
                }
                VideoNode::Branch(children)
            },
        }
    }

    /// Adds a camera to the layout (see [`tree_insert`] for where it goes).
    pub fn insert(&mut self, entity: u64)
        requires
            count(old(self)@) < u32::MAX,
        ensures
            final(self)@ == tree_insert(old(self)@, entity),
    {
        let mut node = VideoNode::Branch(Vec::new());
        std::mem::swap(self, &mut node);
        let r = Self::inserted(node, entity);
        *self = r;
    }
}


impl VideoNode {
    #[verifier::loop_isolation(false)]
    fn removed(node: VideoNode, e: u64) -> (r: VideoNode)
        ensures
            r@ == tree_remove(node@, e),
        decreases node,
    {
        let ghost orig = node;
        match node {
            VideoNode::Leaf(x) => {
                if x == e {
                    let r = VideoNode::Branch(Vec::new());
                    proof {
                        lemma_nodes_model(Seq::<VideoNode>::empty());
                        assert(nodes_model(Seq::<VideoNode>::empty()) =~= Seq::<VideoTree>::empty());
                    }
                    r
                } else {
                    VideoNode::Leaf(x)
                }
            },
            VideoNode::Branch(mut children) => {
                let ghost old_children = children@;
                let ghost models = nodes_model(children@);
                proof {
                    lemma_nodes_model(children@);
                }
                let mut kept: Vec<VideoNode> = Vec::new();
                let n = children.len();
                let mut j: usize = 0;
                while j < n
                    invariant
                        n == old_children.len(),
                        j <= n,
                        children@ == old_children.skip(j as int),
                        models == nodes_model(old_children),
                        models.len() == old_children.len(),
                        forall|k: int|
                            0 <= k < old_children.len() ==> #[trigger] models[k] == node_model(
                                old_children[k],
                            ),
                        decreases_to!(orig => old_children),
                        nodes_model(kept@) == trees_remove(models.take(j as int), e),
                    decreases n - j,
                {
                    let child = children.remove(0);
                    proof {
                        assert(child == old_children[j as int]);
                        assert(children@ =~= old_children.skip(j + 1));
                        assert(decreases_to!(old_children => old_children[j as int]));
                        assert(decreases_to!(orig => child));
                    }
                    let r = Self::removed(child, e);
                    let empty = match &r {
                        VideoNode::Branch(v) => v.len() == 0,
                        VideoNode::Leaf(_) => false,
                    };
                    proof {
                        let p = models.take(j + 1);
                        assert(p.drop_last() =~= models.take(j as int));
                        assert(p.last() == models[j as int]);
                        if r is Branch {
                            lemma_nodes_model(r->Branch_0@);
                        }
                        assert(empty == is_empty_branch(r@));
                    }
                    if !empty {
                        let ghost before = kept@;
                        kept.push(r);
                        proof {
                            assert(kept@.drop_last() =~= before);
                        }
                    }
                    j = j + 1;
                }
                proof {
                    assert(models.take(j as int) =~= models);
                    lemma_nodes_model(kept@);
                }
                if kept.len() == 1 {
                    kept.remove(0)
                } else {
                    VideoNode::Branch(kept)
                }
            },
        }
    }

    /// Removes every occurrence of a camera from the layout (see [`tree_remove`]).
    pub fn remove(&mut self, entity: u64)
        ensures
            final(self)@ == tree_remove(old(self)@, entity),
    {
        let mut node = VideoNode::Branch(Vec::new());
        std::mem::swap(self, &mut node);
        let r = Self::removed(node, entity);
        *self = r;
    }
}

/// The layout of the next level of the tree.
pub open spec fn spec_opposite(l: VideoLayout) -> VideoLayout {
    match l {
        VideoLayout::Horizontal => VideoLayout::Vertical,
        VideoLayout::Vertical => VideoLayout::Horizontal,
    }
}

impl VideoLayout {
    /// The layout of the next level of the tree.
    pub fn opposite(&self) -> (l: VideoLayout)
        ensures
            l == spec_opposite(*self),
    {
        match self {
            VideoLayout::Horizontal => VideoLayout::Vertical,
            VideoLayout::Vertical => VideoLayout::Horizontal,
        }
    }
}


// ---------------------------------------------------------------------------
// Laws of the layout tree
// ---------------------------------------------------------------------------

/// The filter that keeps every camera but `e`.
pub open spec fn other_than(e: u64) -> spec_fn(u64) -> bool {
    |x: u64| x != e
}

proof fn lemma_leaves_seq_single(t: VideoTree)
    ensures
        leaves_seq(seq![t]) == leaves(t),
{
    assert(seq![t].drop_last() =~= Seq::<VideoTree>::empty());
    assert(leaves_seq(Seq::<VideoTree>::empty()) =~= Seq::<u64>::empty());
    assert(Seq::<u64>::empty() + leaves(t) =~= leaves(t));
}

/// Adding a camera shows exactly one more camera, the new one; every camera
/// shown before is still shown.
pub proof fn law_insert_adds_camera(t: VideoTree, e: u64)
    ensures
        leaves(tree_insert(t, e)).to_multiset() =~= leaves(t).to_multiset().insert(e),
        count(tree_insert(t, e)) == count(t) + 1,
    decreases t,
{
    broadcast use vstd::seq_lib::group_to_multiset_ensures;
    broadcast use vstd::multiset::group_multiset_axioms;

    match t {
        VideoTree::Leaf(x) => {
            let ch = seq![VideoTree::Leaf(x), VideoTree::Leaf(e)];
            assert(ch.drop_last() =~= seq![VideoTree::Leaf(x)]);
            lemma_leaves_seq_single(VideoTree::Leaf(x));
            assert(ch.last() == VideoTree::Leaf(e));
            assert(leaves_seq(ch) == leaves_seq(seq![VideoTree::Leaf(x)]) + leaves(VideoTree::Leaf(e)));
            assert(leaves(tree_insert(t, e)) =~= seq![x].push(e));
            assert(leaves(t) =~= seq![x]);
        },
        VideoTree::Branch(ch) => {
            if ch.len() == 0 {
                assert(leaves(t) =~= Seq::<u64>::empty());
                assert(leaves(tree_insert(t, e)) =~= Seq::<u64>::empty().push(e));
            } else if count(t) < MAX_CHILDREN {
                lemma_leaves_seq_push(ch, VideoTree::Leaf(e));
                assert(leaves(tree_insert(t, e)) =~= leaves(t).push(e));
            } else {
                let i = first_min(ch);
                lemma_first_min(ch);
                assert(decreases_to!(t => ch));
                law_insert_adds_camera(ch[i], e);
                lemma_leaves_seq_update(ch, i, tree_insert(ch[i], e));
                lemma_leaves_seq_at(ch, i);
                let a = leaves_seq(ch.take(i));
                let c = leaves_seq(ch.skip(i + 1));
                let l = leaves(ch[i]);
                let l2 = leaves(tree_insert(ch[i], e));
                vstd::seq_lib::lemma_multiset_commutative(a + l2, c);
                vstd::seq_lib::lemma_multiset_commutative(a, l2);
                vstd::seq_lib::lemma_multiset_commutative(a + l, c);
                vstd::seq_lib::lemma_multiset_commutative(a, l);
                assert(leaves(tree_insert(t, e)).to_multiset() =~= leaves(t).to_multiset().insert(
                    e,
                ));
            }
        },
    }
}

/// Removing a camera hides every occurrence of it and nothing else: the cameras
/// shown afterwards are the ones shown before, in the same order, without it.
pub proof fn law_remove_drops_camera(t: VideoTree, e: u64)
    ensures
        leaves(tree_remove(t, e)) == leaves(t).filter(other_than(e)),
        !leaves(tree_remove(t, e)).contains(e),
    decreases t,
{
    broadcast use vstd::seq_lib::group_filter_ensures;

    match t {
        VideoTree::Leaf(x) => {
            reveal_with_fuel(Seq::filter, 2);
            assert(seq![x].drop_last() =~= Seq::<u64>::empty());
            if x == e {
                assert(leaves(tree_remove(t, e)) =~= Seq::<u64>::empty());
                assert(seq![x].filter(other_than(e)) =~= Seq::<u64>::empty());
            } else {
                assert(seq![x].filter(other_than(e)) =~= seq![x]);
            }
        },
        VideoTree::Branch(ch) => {
            assert(decreases_to!(t => ch));
            lemma_trees_remove(ch, e);
            let kept = trees_remove(ch, e);
            if kept.len() == 1 {
                assert(kept =~= seq![kept[0]]);
                lemma_leaves_seq_single(kept[0]);
            }
        },
    }
    let f = leaves(t).filter(other_than(e));
    if f.contains(e) {
        let k = choose|k: int| 0 <= k < f.len() && f[k] == e;
        assert(other_than(e)(f[k]));
    }
}

proof fn lemma_trees_remove(s: Seq<VideoTree>, e: u64)
    ensures
        leaves_seq(trees_remove(s, e)) == leaves_seq(s).filter(other_than(e)),
    decreases s,
{
    broadcast use vstd::seq_lib::group_seq_lib_default;

    if s.len() == 0 {
        reveal_with_fuel(Seq::filter, 1);
        assert(leaves_seq(s) =~= Seq::<u64>::empty());
    } else {
        let rest = trees_remove(s.drop_last(), e);
        let r = tree_remove(s.last(), e);
        assert(decreases_to!(s => s[s.len() - 1]));
        lemma_trees_remove(s.drop_last(), e);
        law_remove_drops_camera(s.last(), e);
        if is_empty_branch(r) {
            assert(leaves(r) =~= Seq::<u64>::empty());
            assert(leaves_seq(trees_remove(s, e)) =~= leaves_seq(s).filter(other_than(e)));
        } else {
            lemma_leaves_seq_push(rest, r);
            assert(leaves_seq(trees_remove(s, e)) =~= leaves_seq(s).filter(other_than(e)));
        }
    }
}

/// Taking the opposite layout twice gives the layout back.
pub proof fn law_opposite_involution(l: VideoLayout)
    ensures
        spec_opposite(spec_opposite(l)) == l,
        spec_opposite(l) != l,
{
}


// ---------------------------------------------------------------------------
// Display structure
// ---------------------------------------------------------------------------

/// An element of the display built from a layout tree: a sub-area laid out in
/// the given direction, a separator bar, or the feed of one camera.
pub enum DisplayNode {
    Subroot(VideoLayout, Vec<DisplayNode>),
    Separator(VideoLayout),
    Container(VideoLayout, u64),
}

/// The mathematical form of a display element.
pub enum DisplayTree {
    Subroot(VideoLayout, Seq<DisplayTree>),
    Separator(VideoLayout),
    Container(VideoLayout, u64),
}

pub open spec fn display_node_model(n: DisplayNode) -> DisplayTree
    decreases n,
{
    match n {
        DisplayNode::Subroot(l, ch) => DisplayTree::Subroot(l, display_nodes_model(ch@)),
        DisplayNode::Separator(l) => DisplayTree::Separator(l),
        DisplayNode::Container(l, e) => DisplayTree::Container(l, e),
    }
}

pub open spec fn display_nodes_model(s: Seq<DisplayNode>) -> Seq<DisplayTree>
    decreases s,
{
    if s.len() == 0 {
        Seq::empty()
    } else {
        display_nodes_model(s.drop_last()).push(display_node_model(s.last()))
    }
}

/// The display of a layout tree laid out in direction `layout`: a camera is a
/// container of its feed; a branch shows each child as a sub-area laid out in
/// the other direction, with a separator between neighbours.
pub open spec fn display(t: VideoTree, layout: VideoLayout) -> Seq<DisplayTree>
    decreases t,
{
    match t {
        VideoTree::Leaf(e) => seq![DisplayTree::Container(layout, e)],
        VideoTree::Branch(ch) => display_children(ch, layout),
    }
}

/// The display of the children of a branch laid out in direction `layout`.
pub open spec fn display_children(s: Seq<VideoTree>, layout: VideoLayout) -> Seq<DisplayTree>
    decreases s,
{
    if s.len() == 0 {
        Seq::empty()
    } else {
        let inner = spec_opposite(layout);
        let item = DisplayTree::Subroot(inner, display(s.last(), inner));
        if s.len() == 1 {
            seq![item]
        } else {
            display_children(s.drop_last(), layout).push(DisplayTree::Separator(layout)).push(item)
        }
    }
}

/// The cameras whose feeds a display shows, in display order.
pub open spec fn shown(d: DisplayTree) -> Seq<u64>
    decreases d,
{
    match d {
        DisplayTree::Subroot(_, items) => shown_seq(items),
        DisplayTree::Separator(_) => Seq::empty(),
        DisplayTree::Container(_, e) => seq![e],
    }
}

/// The cameras shown by a sequence of display elements, in order.
pub open spec fn shown_seq(s: Seq<DisplayTree>) -> Seq<u64>
    decreases s,
{
    if s.len() == 0 {
        Seq::empty()
    } else {
        shown_seq(s.drop_last()) + shown(s.last())
    }
}

proof fn lemma_display_nodes_model(s: Seq<DisplayNode>)
    ensures
        display_nodes_model(s).len() == s.len(),
        forall|i: int|
            0 <= i < s.len() ==> #[trigger] display_nodes_model(s)[i] == display_node_model(s[i]),
    decreases s.len(),
{
    if s.len() > 0 {
        lemma_display_nodes_model(s.drop_last());
    }
}

proof fn lemma_shown_seq_single(d: DisplayTree)
    ensures
        shown_seq(seq![d]) == shown(d),
{
    assert(seq![d].drop_last() =~= Seq::<DisplayTree>::empty());
    assert(shown_seq(Seq::<DisplayTree>::empty()) =~= Seq::<u64>::empty());
    assert(Seq::<u64>::empty() + shown(d) =~= shown(d));
}

proof fn lemma_shown_seq_push(s: Seq<DisplayTree>, d: DisplayTree)
    ensures
        shown_seq(s.push(d)) == shown_seq(s) + shown(d),
{
    assert(s.push(d).drop_last() =~= s);
}

/// Every camera of the layout is shown exactly once, and in the layout's order:
/// the display shows the layout's cameras, nothing more.
pub proof fn law_display_shows_every_camera(t: VideoTree, layout: VideoLayout)
    ensures
        shown_seq(display(t, layout)) == leaves(t),
    decreases t,
{
    match t {
        VideoTree::Leaf(e) => {
            lemma_shown_seq_single(DisplayTree::Container(layout, e));
        },
        VideoTree::Branch(ch) => {
            assert(decreases_to!(t => ch));
            lemma_display_children_shows(ch, layout);
        },
    }
}

proof fn lemma_display_children_shows(s: Seq<VideoTree>, layout: VideoLayout)
    ensures
        shown_seq(display_children(s, layout)) == leaves_seq(s),
    decreases s,
{
    if s.len() > 0 {
        let inner = spec_opposite(layout);
        let item = DisplayTree::Subroot(inner, display(s.last(), inner));
        assert(decreases_to!(s => s[s.len() - 1]));
        law_display_shows_every_camera(s.last(), inner);
        assert(shown(item) == leaves(s.last()));
        if s.len() == 1 {
            lemma_shown_seq_single(item);
            assert(s =~= seq![s.last()]);
            lemma_leaves_seq_single(s.last());
        } else {
            lemma_display_children_shows(s.drop_last(), layout);
            let prev = display_children(s.drop_last(), layout);
            lemma_shown_seq_push(prev, DisplayTree::Separator(layout));
            lemma_shown_seq_push(prev.push(DisplayTree::Separator(layout)), item);
            assert(shown(DisplayTree::Separator(layout)) =~= Seq::<u64>::empty());
            assert(shown_seq(display_children(s, layout)) =~= leaves_seq(s));
        }
    }
}

/// The display of a branch laid out in direction `l` alternates sub-areas and
/// separators: one sub-area per child, a separator (in direction `l`) between
/// neighbours, and every sub-area laid out across `l`, in the other direction.
/// A camera alone is shown as a container in the direction it is given.
pub proof fn law_display_alternates(s: Seq<VideoTree>, l: VideoLayout, e: u64)
    ensures
        display(VideoTree::Leaf(e), l) == seq![DisplayTree::Container(l, e)],
        display_children(s, l).len() == if s.len() == 0 {
            0
        } else {
            2 * s.len() - 1
        },
        forall|k: int|
            0 <= k < display_children(s, l).len() ==> (k % 2 == 0 ==> (#[trigger] display_children(
                s,
                l,
            )[k] matches DisplayTree::Subroot(inner, _) && inner != l)) && (k % 2 == 1
                ==> display_children(s, l)[k] == DisplayTree::Separator(l)),
    decreases s.len(),
{
    if s.len() > 1 {
        law_display_alternates(s.drop_last(), l, e);
        let prev = display_children(s.drop_last(), l);
        let d = display_children(s, l);
        assert forall|k: int| 0 <= k < d.len() implies (k % 2 == 0 ==> (#[trigger] d[k] matches DisplayTree::Subroot(
            inner,
            _,
        ) && inner != l)) && (k % 2 == 1 ==> d[k] == DisplayTree::Separator(l)) by {
            if k < prev.len() {
                assert(d[k] == prev[k]);
            }
        }
    }
}

impl DisplayNode {
    /// The display elements of a layout tree laid out in direction `layout`
    /// (see [`display`]).
    #[verifier::loop_isolation(false)]
    pub fn build(tree: &VideoNode, layout: VideoLayout) -> (items: Vec<DisplayNode>)
        ensures
            display_nodes_model(items@) == display(tree@, layout),
        decreases tree,
    {
        match tree {
            VideoNode::Leaf(e) => {
                let mut items: Vec<DisplayNode> = Vec::new();
                items.push(DisplayNode::Container(layout, *e));
                proof {
                    lemma_display_nodes_model(items@);
                    assert(display_nodes_model(items@) =~= seq![DisplayTree::Container(layout, *e)]);
                }
                items
            },
            VideoNode::Branch(children) => {
                let ghost models = nodes_model(children@);
                proof {
                    lemma_nodes_model(children@);
                }
                let inner = layout.opposite();
                let mut items: Vec<DisplayNode> = Vec::new();
                let mut i: usize = 0;
                while i < children.len()
                    invariant
                        i <= children@.len(),
                        models == nodes_model(children@),
                        models.len() == children@.len(),
                        forall|j: int|
                            0 <= j < children@.len() ==> #[trigger] models[j] == node_model(
                                children@[j],
                            ),
                        inner == spec_opposite(layout),
                        display_nodes_model(items@) == display_children(
                            models.take(i as int),
                            layout,
                        ),
                    decreases children@.len() - i,
                {
                    proof {
                        assert(decreases_to!(*tree => *children));
                        assert(decreases_to!(*children => children@));
                        assert(decreases_to!(children@ => children@[i as int]));
                    }
                    let sub = Self::build(&children[i], inner);
                    let item = DisplayNode::Subroot(inner, sub);
                    let ghost before = items@;
                    if i > 0 {
                        items.push(DisplayNode::Separator(layout));
                    }
                    items.push(item);
                    proof {
                        let t = models.take(i + 1);
                        assert(t.drop_last() =~= models.take(i as int));
                        assert(t.last() == models[i as int]);
                        lemma_display_nodes_model(items@);
                        lemma_display_nodes_model(before);
                        if i > 0 {
                            assert(display_nodes_model(items@) =~= display_nodes_model(before).push(
                                DisplayTree::Separator(layout),
                            ).push(display_node_model(item)));
                        } else {
                            assert(display_nodes_model(items@) =~= seq![display_node_model(item)]);
                        }
                    }
                    i = i + 1;
                }
                proof {
                    assert(models.take(i as int) =~= models);
                }
                items
            },
        }
    }
}

} // verus!
