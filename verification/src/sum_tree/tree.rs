//! The tree.

use vstd::prelude::*;
use std::sync::Arc;
use crate::shared::{arc_clone, arc_ptr_eq};
use crate::sum_tree::dimension::{Dimension, Item, Key, KeyedItem, Summary};

verus! {

/// Half of how many children or items a node can have.
pub const TREE_BASE: usize = 6;

/// How many children or items a node can have.
pub const MAX_CHILDREN: usize = 12;

/// A sequence of items, as a B+ tree in which each leaf node holds items and
/// each internal node holds subtrees, both with their summaries.
pub struct SumTree<T: Item>(Arc<Node<T>>);

/// A node of the tree.
pub enum Node<T: Item> {
    Internal {
        height: u8,
        summary: T::Summary,
        child_summaries: Vec<T::Summary>,
        child_trees: Vec<SumTree<T>>,
    },
    Leaf { summary: T::Summary, items: Vec<T>, item_summaries: Vec<T::Summary> },
}

/// The sum of a sequence of summaries.
pub open spec fn sum_of<S: Summary>(summaries: Seq<S>, cx: &S::Context) -> S
    decreases summaries.len(),
{
    if summaries.len() == 0 {
        S::zero_spec(cx)
    } else {
        sum_of(summaries.drop_last(), cx).add_spec(&summaries.last(), cx)
    }
}

/// What is known of each of a sequence of items.
pub open spec fn summaries_of<T: Item>(
    items: Seq<T>,
    cx: &<T::Summary as Summary>::Context,
) -> Seq<T::Summary> {
    Seq::new(items.len(), |i: int| items[i].summary_spec(cx))
}

/// The sum of what is known of a sequence of items.
pub open spec fn total<T: Item>(items: Seq<T>, cx: &<T::Summary as Summary>::Context) -> T::Summary {
    sum_of(summaries_of(items, cx), cx)
}

/// The items below a node, in order.
spec fn node_items<T: Item>(node: Node<T>) -> Seq<T>
    decreases node,
{
    match node {
        Node::Leaf { items, .. } => items@,
        Node::Internal { child_trees, .. } => trees_items(child_trees@),
    }
}

/// The items of several trees, in order.
spec fn trees_items<T: Item>(trees: Seq<SumTree<T>>) -> Seq<T>
    decreases trees,
{
    if trees.len() == 0 {
        Seq::empty()
    } else {
        trees_items(trees.drop_last()) + node_items(*trees.last().0)
    }
}

spec fn node_summary<T: Item>(node: Node<T>) -> T::Summary {
    match node {
        Node::Leaf { summary, .. } => summary,
        Node::Internal { summary, .. } => summary,
    }
}

spec fn node_height<T: Item>(node: Node<T>) -> nat {
    match node {
        Node::Leaf { .. } => 0,
        Node::Internal { height, .. } => height as nat,
    }
}

/// How many children or items a node has.
spec fn node_len<T: Item>(node: Node<T>) -> nat {
    match node {
        Node::Leaf { items, .. } => items@.len(),
        Node::Internal { child_trees, .. } => child_trees@.len(),
    }
}

/// No node has more children or items than it can, all leaves are at the same
/// depth, and only a tree that is a single leaf can be empty.
spec fn node_shape<T: Item>(node: Node<T>) -> bool
    decreases node,
{
    match node {
        Node::Leaf { items, .. } => items@.len() <= MAX_CHILDREN,
        Node::Internal { height, child_trees, .. } => {
            &&& 1 <= child_trees@.len() <= MAX_CHILDREN
            &&& height >= 1
            &&& trees_shape(child_trees@, height - 1)
        },
    }
}

spec fn trees_shape<T: Item>(trees: Seq<SumTree<T>>, height: int) -> bool
    decreases trees,
{
    if trees.len() == 0 {
        true
    } else {
        &&& trees_shape(trees.drop_last(), height)
        &&& node_shape(*trees.last().0)
        &&& node_height(*trees.last().0) == height
        &&& node_items(*trees.last().0).len() > 0
    }
}

/// Every summary that a node holds is the sum over the items it stands for.
spec fn node_sums<T: Item>(node: Node<T>, cx: &<T::Summary as Summary>::Context) -> bool
    decreases node,
{
    match node {
        Node::Leaf { summary, items, item_summaries } => {
            &&& item_summaries@ == summaries_of(items@, cx)
            &&& summary == total(items@, cx)
        },
        Node::Internal { summary, child_summaries, child_trees, .. } => {
            &&& child_summaries@ == trees_summaries(child_trees@)
            &&& trees_sums(child_trees@, cx)
            &&& summary == total(trees_items(child_trees@), cx)
        },
    }
}

spec fn trees_sums<T: Item>(
    trees: Seq<SumTree<T>>,
    cx: &<T::Summary as Summary>::Context,
) -> bool
    decreases trees,
{
    if trees.len() == 0 {
        true
    } else {
        trees_sums(trees.drop_last(), cx) && node_sums(*trees.last().0, cx)
    }
}

spec fn trees_summaries<T: Item>(trees: Seq<SumTree<T>>) -> Seq<T::Summary> {
    Seq::new(trees.len(), |i: int| node_summary(*trees[i].0))
}

// Sums.

proof fn lemma_sum_concat<S: Summary>(a: Seq<S>, b: Seq<S>, cx: &S::Context)
    ensures
        sum_of(a + b, cx) == sum_of(a, cx).add_spec(&sum_of(b, cx), cx),
    decreases b.len(),
{
    if b.len() == 0 {
        assert(a + b =~= a);
        S::zero_adds_nothing(sum_of(a, cx), cx);
    } else {
        lemma_sum_concat(a, b.drop_last(), cx);
        assert((a + b).drop_last() =~= a + b.drop_last());
        assert((a + b).last() == b.last());
        S::add_is_associative(sum_of(a, cx), sum_of(b.drop_last(), cx), b.last(), cx);
    }
}

/// The total of two sequences of items, one after the other, is the sum of their
/// totals.
pub proof fn law_total_concat<T: Item>(
    a: Seq<T>,
    b: Seq<T>,
    cx: &<T::Summary as Summary>::Context,
)
    ensures
        total(a + b, cx) == total(a, cx).add_spec(&total(b, cx), cx),
{
    assert(summaries_of(a + b, cx) =~= summaries_of(a, cx) + summaries_of(b, cx));
    lemma_sum_concat(summaries_of(a, cx), summaries_of(b, cx), cx);
}

/// The sum over subtrees is the total over their items.
proof fn lemma_trees_total<T: Item>(
    trees: Seq<SumTree<T>>,
    cx: &<T::Summary as Summary>::Context,
)
    requires
        trees_sums(trees, cx),
    ensures
        sum_of(trees_summaries(trees), cx) == total(trees_items(trees), cx),
    decreases trees.len(),
{
    if trees.len() == 0 {
        assert(summaries_of(trees_items(trees), cx) =~= Seq::empty());
    } else {
        lemma_trees_total(trees.drop_last(), cx);
        lemma_tree_total(trees.last(), cx);
        law_total_concat(trees_items(trees.drop_last()), trees.last()@, cx);
        assert(trees_summaries(trees).drop_last() =~= trees_summaries(trees.drop_last()));
    }
}

proof fn lemma_tree_total<T: Item>(tree: SumTree<T>, cx: &<T::Summary as Summary>::Context)
    requires
        node_sums(*tree.0, cx),
    ensures
        node_summary(*tree.0) == total(tree@, cx),
{
}

// Sequences of trees.

proof fn lemma_trees_concat<T: Item>(a: Seq<SumTree<T>>, b: Seq<SumTree<T>>)
    ensures
        trees_items(a + b) == trees_items(a) + trees_items(b),
    decreases b.len(),
{
    if b.len() == 0 {
        assert(a + b =~= a);
        assert(trees_items(a) + trees_items(b) =~= trees_items(a));
    } else {
        lemma_trees_concat(a, b.drop_last());
        assert((a + b).drop_last() =~= a + b.drop_last());
        assert((a + b).last() == b.last());
        assert(trees_items(a + b) =~= trees_items(a) + trees_items(b));
    }
}

proof fn lemma_trees_one<T: Item>(tree: SumTree<T>)
    ensures
        trees_items(seq![tree]) == node_items(*tree.0),
{
    reveal_with_fuel(trees_items, 2);
    assert(seq![tree].drop_last() =~= Seq::empty());
    assert(trees_items(seq![tree]) =~= node_items(*tree.0));
}

proof fn lemma_trees_shape<T: Item>(trees: Seq<SumTree<T>>, height: int)
    ensures
        trees_shape(trees, height) <==> forall|i: int|
            0 <= i < trees.len() ==> node_shape(*(#[trigger] trees[i]).0) && node_height(
                *trees[i].0,
            ) == height && node_items(*trees[i].0).len() > 0,
    decreases trees.len(),
{
    if trees.len() > 0 {
        lemma_trees_shape(trees.drop_last(), height);
        let init = trees.drop_last();
        assert forall|i: int| 0 <= i < trees.len() - 1 implies trees[i] == init[i] by {}
        if trees_shape(trees, height) {
            assert forall|i: int| 0 <= i < trees.len() implies node_shape(
                *(#[trigger] trees[i]).0,
            ) && node_height(*trees[i].0) == height && node_items(*trees[i].0).len() > 0 by {
                if i < trees.len() - 1 {
                    assert(trees[i] == init[i]);
                }
            }
        }
        if forall|i: int|
            0 <= i < trees.len() ==> node_shape(*(#[trigger] trees[i]).0) && node_height(
                *trees[i].0,
            ) == height && node_items(*trees[i].0).len() > 0 {
            assert(trees[trees.len() - 1] == trees.last());
            assert forall|i: int| 0 <= i < init.len() implies node_shape(*(#[trigger] init[i]).0)
                && node_height(*init[i].0) == height && node_items(*init[i].0).len() > 0 by {
                assert(init[i] == trees[i]);
            }
        }
    }
}

proof fn lemma_trees_sums<T: Item>(
    trees: Seq<SumTree<T>>,
    cx: &<T::Summary as Summary>::Context,
)
    ensures
        trees_sums(trees, cx) <==> forall|i: int|
            0 <= i < trees.len() ==> node_sums(*(#[trigger] trees[i]).0, cx),
    decreases trees.len(),
{
    if trees.len() > 0 {
        lemma_trees_sums(trees.drop_last(), cx);
        let init = trees.drop_last();
        assert forall|i: int| 0 <= i < trees.len() - 1 implies trees[i] == init[i] by {}
        if trees_sums(trees, cx) {
            assert forall|i: int| 0 <= i < trees.len() implies node_sums(
                *(#[trigger] trees[i]).0,
                cx,
            ) by {
                if i < trees.len() - 1 {
                    assert(trees[i] == init[i]);
                }
            }
        }
        if forall|i: int| 0 <= i < trees.len() ==> node_sums(*(#[trigger] trees[i]).0, cx) {
            assert(trees[trees.len() - 1] == trees.last());
            assert forall|i: int| 0 <= i < init.len() implies node_sums(
                *(#[trigger] init[i]).0,
                cx,
            ) by {
                assert(init[i] == trees[i]);
            }
        }
    }
}

/// Trees that are not empty have items.
proof fn lemma_trees_nonempty<T: Item>(trees: Seq<SumTree<T>>, height: int)
    requires
        trees_shape(trees, height),
        trees.len() > 0,
    ensures
        trees_items(trees).len() > 0,
{
}

// Copies.

fn clone_summary<S: Summary>(summary: &S) -> (r: S)
    ensures
        r == *summary,
{
    let copy = summary.clone();
    proof {
        S::clone_is_equal(*summary, copy);
    }
    copy
}

fn clone_item<T: Item>(item: &T) -> (r: T)
    ensures
        r == *item,
{
    let copy = item.clone();
    proof {
        T::clone_is_equal(*item, copy);
    }
    copy
}

/// Appends copies of a range of items.
fn extend_items<T: Item>(out: &mut Vec<T>, from: &Vec<T>, lo: usize, hi: usize)
    requires
        lo <= hi <= from@.len(),
    ensures
        final(out)@ == old(out)@ + from@.subrange(lo as int, hi as int),
{
    let ghost start = out@;
    let mut i: usize = lo;
    assert(out@ =~= start + from@.subrange(lo as int, lo as int));
    while i < hi
        invariant
            lo <= i <= hi <= from@.len(),
            out@ == start + from@.subrange(lo as int, i as int),
        decreases hi - i,
    {
        out.push(clone_item(&from[i]));
        i = i + 1;
        assert(out@ =~= start + from@.subrange(lo as int, i as int));
    }
}

/// Appends copies of a range of trees.
fn extend_trees<T: Item>(out: &mut Vec<SumTree<T>>, from: &Vec<SumTree<T>>, lo: usize, hi: usize)
    requires
        lo <= hi <= from@.len(),
    ensures
        final(out)@ == old(out)@ + from@.subrange(lo as int, hi as int),
{
    let ghost start = out@;
    let mut i: usize = lo;
    assert(out@ =~= start + from@.subrange(lo as int, lo as int));
    while i < hi
        invariant
            lo <= i <= hi <= from@.len(),
            out@ == start + from@.subrange(lo as int, i as int),
        decreases hi - i,
    {
        out.push(SumTree(arc_clone(&from[i].0)));
        i = i + 1;
        assert(out@ =~= start + from@.subrange(lo as int, i as int));
    }
}

/// The sum of a sequence of summaries.
fn sum<S: Summary>(summaries: &Vec<S>, cx: &S::Context) -> (r: S)
    ensures
        r == sum_of(summaries@, cx),
{
    let mut result = S::zero(cx);
    let mut i: usize = 0;
    assert(summaries@.take(0) =~= Seq::empty());
    while i < summaries.len()
        invariant
            i <= summaries@.len(),
            result == sum_of(summaries@.take(i as int), cx),
        decreases summaries.len() - i,
    {
        result.add_summary(&summaries[i], cx);
        proof {
            let next = summaries@.take(i + 1);
            assert(next.drop_last() =~= summaries@.take(i as int));
            assert(next.last() == summaries@[i as int]);
        }
        i = i + 1;
    }
    assert(summaries@.take(i as int) =~= summaries@);
    result
}

impl<T: Item> Clone for SumTree<T> {
    fn clone(&self) -> (copy: SumTree<T>)
        ensures
            copy == *self,
    {
        SumTree(arc_clone(&self.0))
    }
}

impl<T: Item> View for SumTree<T> {
    type V = Seq<T>;

    closed spec fn view(&self) -> Seq<T> {
        node_items(*self.0)
    }
}

impl<T: Item> Default for SumTree<T> where T::Summary: Summary<Context = ()> {
    fn default() -> (tree: SumTree<T>)
        ensures
            tree.wf(&()),
            tree@ == Seq::<T>::empty(),
    {
        SumTree::new(&())
    }
}

impl<T: Item> Node<T> {
    fn is_leaf(&self) -> (r: bool)
        ensures
            r == (self is Leaf),
    {
        match self {
            Node::Leaf { .. } => true,
            Node::Internal { .. } => false,
        }
    }

    fn height(&self) -> (r: u8)
        ensures
            r == node_height(*self),
    {
        match self {
            Node::Internal { height, .. } => *height,
            Node::Leaf { .. } => 0,
        }
    }

    fn summary(&self) -> (r: &T::Summary)
        ensures
            *r == node_summary(*self),
    {
        match self {
            Node::Internal { summary, .. } => summary,
            Node::Leaf { summary, .. } => summary,
        }
    }

    fn is_underflowing(&self) -> (r: bool)
        ensures
            r == (node_len(*self) < TREE_BASE),
    {
        match self {
            Node::Internal { child_trees, .. } => child_trees.len() < TREE_BASE,
            Node::Leaf { items, .. } => items.len() < TREE_BASE,
        }
    }
}

impl<T: Item> SumTree<T> {
    /// The shape of the tree: see the invariant of its nodes.
    pub closed spec fn shape(&self) -> bool {
        node_shape(*self.0)
    }

    /// The tree is well formed: its shape is right, and every summary in it is the
    /// sum over the items that it stands for.
    pub closed spec fn wf(&self, cx: &<T::Summary as Summary>::Context) -> bool {
        node_shape(*self.0) && node_sums(*self.0, cx)
    }

    /// How many levels of internal nodes the tree has.
    pub closed spec fn height(&self) -> nat {
        node_height(*self.0)
    }

    /// How many children or items the root has.
    pub closed spec fn root_len(&self) -> nat {
        node_len(*self.0)
    }

    /// What the root holds as the sum of the tree.
    pub closed spec fn root_summary(&self) -> T::Summary {
        node_summary(*self.0)
    }

    /// A well-formed tree has the right shape, and its root holds the total.
    pub proof fn lemma_wf(&self, cx: &<T::Summary as Summary>::Context)
        requires
            self.wf(cx),
        ensures
            self.shape(),
            self.root_summary() == total(self@, cx),
    {
    }

    /// An empty tree.
    pub fn new(cx: &<T::Summary as Summary>::Context) -> (tree: SumTree<T>)
        ensures
            tree.wf(cx),
            tree@ == Seq::<T>::empty(),
            tree.height() == 0,
    {
        let tree = SumTree(
            Arc::new(
                Node::Leaf {
                    summary: <T::Summary as Summary>::zero(cx),
                    items: Vec::new(),
                    item_summaries: Vec::new(),
                },
            ),
        );
        proof {
            assert(summaries_of(Seq::<T>::empty(), cx) =~= Seq::empty());
        }
        tree
    }

    /// An empty tree whose sum is given, for summaries whose zero does not depend
    /// on the context.
    pub fn from_summary(summary: T::Summary) -> (tree: SumTree<T>)
        ensures
            tree.shape(),
            tree@ == Seq::<T>::empty(),
            tree.height() == 0,
            tree.root_summary() == summary,
            forall|cx: &<T::Summary as Summary>::Context|
                summary == <T::Summary as Summary>::zero_spec(cx) ==> #[trigger] tree.wf(cx),
    {
        let tree = SumTree(
            Arc::new(Node::Leaf { summary, items: Vec::new(), item_summaries: Vec::new() }),
        );
        proof {
            assert forall|cx: &<T::Summary as Summary>::Context|
                summary == <T::Summary as Summary>::zero_spec(cx) implies #[trigger] tree.wf(cx) by {
                assert(summaries_of(Seq::<T>::empty(), cx) =~= Seq::empty());
            }
        }
        tree
    }

    /// A tree of one item.
    pub fn from_item(item: T, cx: &<T::Summary as Summary>::Context) -> (tree: SumTree<T>)
        ensures
            tree.wf(cx),
            tree@ == seq![item],
    {
        let mut tree = SumTree::new(cx);
        tree.push(item, cx);
        assert(tree@ =~= seq![item]);
        tree
    }

    /// A leaf with some items.
    pub fn leaf(items: Vec<T>, cx: &<T::Summary as Summary>::Context) -> (tree: SumTree<T>)
        requires
            items@.len() <= MAX_CHILDREN,
        ensures
            tree.wf(cx),
            tree@ == items@,
            tree.height() == 0,
    {
        let mut item_summaries: Vec<T::Summary> = Vec::new();
        let mut i: usize = 0;
        while i < items.len()
            invariant
                i <= items@.len(),
                item_summaries@ =~= summaries_of(items@.take(i as int), cx),
            decreases items.len() - i,
        {
            item_summaries.push(items[i].summary(cx));
            i = i + 1;
        }
        assert(items@.take(i as int) =~= items@);
        let summary = sum(&item_summaries, cx);
        SumTree(Arc::new(Node::Leaf { summary, items, item_summaries }))
    }

    /// A node over some trees of the same height.
    pub fn parent(
        child_trees: Vec<SumTree<T>>,
        height: u8,
        cx: &<T::Summary as Summary>::Context,
    ) -> (tree: SumTree<T>)
        requires
            1 <= child_trees@.len() <= MAX_CHILDREN,
            height >= 1,
            forall|i: int|
                0 <= i < child_trees@.len() ==> (#[trigger] child_trees@[i]).wf(cx)
                    && child_trees@[i].height() == height - 1 && child_trees@[i]@.len() > 0,
        ensures
            tree.wf(cx),
            tree@ == Self::concat(child_trees@),
            tree@.len() > 0,
            tree.height() == height,
            tree.root_len() == child_trees@.len(),
    {
        let mut child_summaries: Vec<T::Summary> = Vec::new();
        let mut i: usize = 0;
        while i < child_trees.len()
            invariant
                i <= child_trees@.len(),
                child_summaries@ =~= trees_summaries(child_trees@.take(i as int)),
            decreases child_trees.len() - i,
        {
            child_summaries.push(clone_summary(child_trees[i].0.summary()));
            i = i + 1;
        }
        assert(child_trees@.take(i as int) =~= child_trees@);
        let summary = sum(&child_summaries, cx);
        proof {
            lemma_trees_shape(child_trees@, height - 1);
            lemma_trees_sums(child_trees@, cx);
            lemma_trees_total(child_trees@, cx);
            lemma_trees_nonempty(child_trees@, height - 1);
        }
        SumTree(Arc::new(Node::Internal { height, summary, child_summaries, child_trees }))
    }

    /// The items of several trees, in order.
    pub closed spec fn concat(trees: Seq<SumTree<T>>) -> Seq<T> {
        trees_items(trees)
    }

    /// What the items of several trees are.
    pub proof fn lemma_concat(trees: Seq<SumTree<T>>, last: SumTree<T>)
        ensures
            Self::concat(Seq::empty()) == Seq::<T>::empty(),
            Self::concat(trees.push(last)) == Self::concat(trees) + last@,
    {
        assert(trees.push(last).drop_last() =~= trees);
    }

    /// A tree of some items.
    pub fn from_iter(items: Vec<T>, cx: &<T::Summary as Summary>::Context) -> (tree: SumTree<T>)
        ensures
            tree.wf(cx),
            tree@ == items@,
            tree.height() <= 64,
    {
        let ghost all = items@;
        let mut nodes: Vec<SumTree<T>> = Self::leaves(items, cx);
        let mut height: u8 = 0;
        let ghost mut scale: int = 1;
        proof {
            vstd::arithmetic::power2::lemma2_to64();
        }
        while nodes.len() > 1
            invariant
                trees_items(nodes@) == all,
                nodes@.len() == 0 <==> all.len() == 0,
                forall|i: int|
                    0 <= i < nodes@.len() ==> (#[trigger] nodes@[i]).wf(cx) && nodes@[i].height()
                        == height && nodes@[i]@.len() > 0,
                scale >= 1,
                nodes@.len() > 0 ==> (nodes@.len() - 1) * scale <= 0xffff_ffff_ffff_ffff,
                scale >= vstd::arithmetic::power2::pow2(height as nat),
                height <= 64,
            decreases nodes.len(),
        {
            proof {
                lemma_height_bound(nodes@.len() as int, scale, height as nat);
            }
            height = height + 1;
            let ghost before = nodes@.len() as int;
            nodes = Self::level(nodes, height, cx);
            proof {
                vstd::arithmetic::power2::lemma_pow2_unfold(height as nat);
                let after = nodes@.len() as int;
                assert((after - 1) * (2 * scale) <= (before - 1) * scale) by (nonlinear_arith)
                    requires
                        (after - 1) * 12 <= before - 1,
                        after >= 1,
                        scale >= 1,
                ;
                scale = 2 * scale;
            }
        }
        let ghost root = nodes@;
        match nodes.pop() {
            None => {
                assert(all =~= Seq::empty());
                SumTree::new(cx)
            },
            Some(tree) => {
                proof {
                    lemma_trees_one(tree);
                    assert(root =~= seq![tree]);
                }
                tree
            },
        }
    }

    /// Leaves that hold the given items, full but for the last.
    fn leaves(items: Vec<T>, cx: &<T::Summary as Summary>::Context) -> (nodes: Vec<SumTree<T>>)
        ensures
            trees_items(nodes@) == items@,
            nodes@.len() == 0 <==> items@.len() == 0,
            nodes@.len() <= 0xffff_ffff_ffff_ffff,
            forall|i: int|
                0 <= i < nodes@.len() ==> (#[trigger] nodes@[i]).wf(cx) && nodes@[i].height() == 0
                    && nodes@[i]@.len() > 0,
    {
        let ghost all = items@;
        let mut items = items;
        let mut rest: Vec<T> = Vec::new();
        while items.len() > 0
            invariant
                items@ + rest@.reverse() == all,
            decreases items.len(),
        {
            match items.pop() {
                None => {},
                Some(item) => {
                    rest.push(item);
                },
            }
            assert(items@ + rest@.reverse() =~= all);
        }
        assert(rest@.reverse() =~= all);
        let mut nodes: Vec<SumTree<T>> = Vec::new();
        assert(trees_items(nodes@) + rest@.reverse() =~= all);
        while rest.len() > 0
            invariant
                trees_items(nodes@) + rest@.reverse() == all,
                nodes@.len() == 0 ==> trees_items(nodes@).len() == 0,
                nodes@.len() > 0 ==> all.len() > 0,
                forall|i: int|
                    0 <= i < nodes@.len() ==> (#[trigger] nodes@[i]).wf(cx) && nodes@[i].height()
                        == 0 && nodes@[i]@.len() > 0,
            decreases rest.len(),
        {
            let ghost left = rest@;
            let mut chunk: Vec<T> = Vec::new();
            while rest.len() > 0 && chunk.len() < MAX_CHILDREN
                invariant
                    chunk@ + rest@.reverse() == left.reverse(),
                    chunk@.len() <= MAX_CHILDREN,
                    rest@.len() + chunk@.len() == left.len(),
                decreases rest.len(),
            {
                let ghost prev = rest@;
                match rest.pop() {
                    None => {},
                    Some(item) => {
                        chunk.push(item);
                    },
                }
                assert(prev.reverse() =~= seq![prev.last()] + rest@.reverse());
                assert(chunk@ + rest@.reverse() =~= left.reverse());
            }
            let ghost chunk_items = chunk@;
            let node = Self::leaf(chunk, cx);
            proof {
                Self::lemma_concat(nodes@, node);
            }
            nodes.push(node);
            assert(trees_items(nodes@) + rest@.reverse() =~= all);
        }
        assert(trees_items(nodes@) =~= all);
        assert(nodes.len() == nodes@.len());
        nodes
    }

    /// Nodes over the given trees, full but for the last.
    fn level(
        nodes: Vec<SumTree<T>>,
        height: u8,
        cx: &<T::Summary as Summary>::Context,
    ) -> (parents: Vec<SumTree<T>>)
        requires
            nodes@.len() > 1,
            height >= 1,
            forall|i: int|
                0 <= i < nodes@.len() ==> (#[trigger] nodes@[i]).wf(cx) && nodes@[i].height()
                    == height - 1 && nodes@[i]@.len() > 0,
        ensures
            trees_items(parents@) == trees_items(nodes@),
            1 <= parents@.len() < nodes@.len(),
            (parents@.len() - 1) * 12 <= nodes@.len() - 1,
            forall|i: int|
                0 <= i < parents@.len() ==> (#[trigger] parents@[i]).wf(cx)
                    && parents@[i].height() == height && parents@[i]@.len() > 0,
    {
        let ghost all = nodes@;
        let mut parents: Vec<SumTree<T>> = Vec::new();
        let mut taken: usize = 0;
        assert(all.take(0) =~= Seq::empty());
        while taken < nodes.len()
            invariant
                nodes@ == all,
                taken <= all.len(),
                height >= 1,
                forall|i: int|
                    0 <= i < all.len() ==> (#[trigger] all[i]).wf(cx) && all[i].height() == height
                        - 1 && all[i]@.len() > 0,
                trees_items(parents@) == trees_items(all.take(taken as int)),
                taken < all.len() ==> taken == parents@.len() * 12,
                taken == all.len() ==> (parents@.len() - 1) * 12 <= all.len() - 1,
                parents@.len() == 0 <==> taken == 0,
                forall|i: int|
                    0 <= i < parents@.len() ==> (#[trigger] parents@[i]).wf(cx)
                        && parents@[i].height() == height && parents@[i]@.len() > 0,
                all.len() > 1,
            decreases nodes.len() - taken,
        {
            let rest: usize = nodes.len() - taken;
            let count: usize = if rest < MAX_CHILDREN {
                rest
            } else {
                MAX_CHILDREN
            };
            let mut children: Vec<SumTree<T>> = Vec::new();
            extend_trees(&mut children, &nodes, taken, taken + count);
            proof {
                assert(children@ =~= all.subrange(taken as int, taken + count));
                lemma_trees_concat(all.take(taken as int), children@);
                assert(all.take(taken as int) + children@ =~= all.take(taken + count));
            }
            let parent = Self::parent(children, height, cx);
            proof {
                Self::lemma_concat(parents@, parent);
            }
            parents.push(parent);
            taken = taken + count;
        }
        assert(all.take(taken as int) =~= all);
        parents
    }

    /// The items, in order.
    pub fn items(&self, cx: &<T::Summary as Summary>::Context) -> (r: Vec<T>)
        requires
            self.shape(),
        ensures
            r@ == self@,
    {
        let mut out: Vec<T> = Vec::new();
        self.collect_items(&mut out);
        assert(out@ =~= self@);
        out
    }

    fn collect_items(&self, out: &mut Vec<T>)
        requires
            self.shape(),
        ensures
            final(out)@ == old(out)@ + self@,
        decreases self.height(),
    {
        match &*self.0 {
            Node::Leaf { items, .. } => {
                extend_items(out, items, 0, items.len());
                assert(items@.subrange(0, items@.len() as int) =~= items@);
            },
            Node::Internal { child_trees, height, .. } => {
                let ghost start = out@;
                let mut i: usize = 0;
                proof {
                    lemma_trees_shape(child_trees@, height - 1);
                    assert(child_trees@.take(0) =~= Seq::empty());
                    assert(start + trees_items(child_trees@.take(0)) =~= start);
                }
                while i < child_trees.len()
                    invariant
                        i <= child_trees@.len(),
                        out@ == start + trees_items(child_trees@.take(i as int)),
                        self.height() == height,
                        height >= 1,
                        forall|j: int|
                            0 <= j < child_trees@.len() ==> node_shape(
                                *(#[trigger] child_trees@[j]).0,
                            ) && node_height(*child_trees@[j].0) == height - 1,
                    decreases child_trees.len() - i,
                {
                    child_trees[i].collect_items(out);
                    proof {
                        Self::lemma_concat(
                            child_trees@.take(i as int),
                            child_trees@[i as int],
                        );
                        assert(child_trees@.take(i as int).push(child_trees@[i as int])
                            =~= child_trees@.take(i + 1));
                    }
                    i = i + 1;
                    assert(out@ =~= start + trees_items(child_trees@.take(i as int)));
                }
                assert(child_trees@.take(i as int) =~= child_trees@);
            },
        }
    }

    /// The first item.
    pub fn first(&self) -> (r: Option<&T>)
        requires
            self.shape(),
        ensures
            match r {
                Some(item) => self@.len() > 0 && *item == self@.first(),
                None => self@.len() == 0,
            },
        decreases self.height(),
    {
        match &*self.0 {
            Node::Leaf { items, .. } => {
                if items.len() == 0 {
                    None
                } else {
                    Some(&items[0])
                }
            },
            Node::Internal { child_trees, height, .. } => {
                proof {
                    lemma_trees_shape(child_trees@, height - 1);
                    let head = child_trees@.take(1);
                    let tail = child_trees@.skip(1);
                    assert(head + tail =~= child_trees@);
                    lemma_trees_concat(head, tail);
                    assert(head =~= seq![child_trees@[0]]);
                    lemma_trees_one(child_trees@[0]);
                }
                child_trees[0].first()
            },
        }
    }

    /// The last item.
    pub fn last(&self) -> (r: Option<&T>)
        requires
            self.shape(),
        ensures
            match r {
                Some(item) => self@.len() > 0 && *item == self@.last(),
                None => self@.len() == 0,
            },
        decreases self.height(),
    {
        match &*self.0 {
            Node::Leaf { items, .. } => {
                if items.len() == 0 {
                    None
                } else {
                    Some(&items[items.len() - 1])
                }
            },
            Node::Internal { child_trees, height, .. } => {
                proof {
                    lemma_trees_shape(child_trees@, height - 1);
                }
                child_trees[child_trees.len() - 1].last()
            },
        }
    }

    /// The measure of the whole tree.
    pub fn extent<D: Dimension<T::Summary>>(
        &self,
        cx: &<T::Summary as Summary>::Context,
    ) -> (r: D)
        requires
            self.wf(cx),
        ensures
            r == D::start_spec(cx).plus_spec(&total(self@, cx), cx),
    {
        D::from_summary(self.0.summary(), cx)
    }

    /// The sum over the whole tree.
    pub fn summary(&self) -> (r: &T::Summary)
        ensures
            *r == self.root_summary(),
            forall|cx: &<T::Summary as Summary>::Context| #[trigger]
                self.wf(cx) ==> *r == total(self@, cx),
    {
        self.0.summary()
    }

    pub fn is_empty(&self) -> (r: bool)
        requires
            self.shape(),
        ensures
            r == (self@.len() == 0),
    {
        match &*self.0 {
            Node::Internal { child_trees, height, .. } => {
                proof {
                    lemma_trees_nonempty(child_trees@, height - 1);
                }
                false
            },
            Node::Leaf { items, .. } => items.len() == 0,
        }
    }

    /// Whether two trees share their root. Trees that do hold the same items.
    pub fn ptr_eq(&self, other: &SumTree<T>) -> (r: bool)
        ensures
            r ==> self@ == other@,
    {
        arc_ptr_eq(&self.0, &other.0)
    }

    /// Appends items.
    pub fn extend(&mut self, items: Vec<T>, cx: &<T::Summary as Summary>::Context)
        requires
            old(self).wf(cx),
        ensures
            final(self).wf(cx),
            final(self)@ == old(self)@ + items@,
    {
        self.append(Self::from_iter(items, cx), cx);
    }

    /// Appends an item.
    pub fn push(&mut self, item: T, cx: &<T::Summary as Summary>::Context)
        requires
            old(self).wf(cx),
        ensures
            final(self).wf(cx),
            final(self)@ == old(self)@.push(item),
    {
        let ghost start = self@;
        let mut items: Vec<T> = Vec::new();
        items.push(item);
        self.append(Self::leaf(items, cx), cx);
        assert(self@ =~= start.push(item));
    }

    /// Appends a tree. Where a tree is as high as one can be, a lower one is built anew
    /// of all items.
    pub fn append(&mut self, other: SumTree<T>, cx: &<T::Summary as Summary>::Context)
        requires
            old(self).wf(cx),
            other.wf(cx),
        ensures
            final(self).wf(cx),
            final(self)@ == old(self)@ + other@,
    {
        if self.0.height() < u8::MAX && other.0.height() < u8::MAX {
            self.append_tree(other, cx);
        } else {
            let mut all: Vec<T> = Vec::new();
            self.collect_items(&mut all);
            other.collect_items(&mut all);
            assert(all@ =~= self@ + other@);
            *self = Self::from_iter(all, cx);
        }
    }

    /// Appends a tree. Neither tree is as high as one can be.
    fn append_tree(&mut self, other: SumTree<T>, cx: &<T::Summary as Summary>::Context)
        requires
            old(self).wf(cx),
            other.wf(cx),
            old(self).height() < u8::MAX,
            other.height() < u8::MAX,
        ensures
            final(self).wf(cx),
            final(self)@ == old(self)@ + other@,
            final(self).height() <= (if old(self).height() > other.height() {
                old(self).height()
            } else {
                other.height()
            }) + 1,
        decreases other.height(), 0int,
    {
        if self.is_empty() {
            assert(self@ + other@ =~= other@);
            *self = other;
        } else if other.is_empty() {
            assert(self@ + other@ =~= self@);
        } else if self.0.height() < other.0.height() {
            match &*other.0 {
                Node::Leaf { .. } => {},
                Node::Internal { child_trees, height, .. } => {
                    let ghost start = self@;
                    let ghost top: int = *height as int;
                    let mut i: usize = 0;
                    proof {
                        lemma_trees_shape(child_trees@, top - 1);
                        lemma_trees_sums(child_trees@, cx);
                        assert(child_trees@.take(0) =~= Seq::empty());
                        assert(start + trees_items(child_trees@.take(0)) =~= start);
                    }
                    while i < child_trees.len()
                        invariant
                            i <= child_trees@.len() <= MAX_CHILDREN,
                            other.height() == top,
                            1 <= top < u8::MAX,
                            self.wf(cx),
                            self@.len() > 0,
                            self@ == start + trees_items(child_trees@.take(i as int)),
                            i == 0 ==> self.height() < top,
                            i == 1 ==> self.height() <= top,
                            self.height() <= top + 1,
                            self.height() == top + 1 ==> self.root_len() <= i,
                            forall|j: int|
                                0 <= j < child_trees@.len() ==> node_shape(
                                    *(#[trigger] child_trees@[j]).0,
                                ) && node_height(*child_trees@[j].0) == top - 1 && node_sums(
                                    *child_trees@[j].0,
                                    cx,
                                ) && node_items(*child_trees@[j].0).len() > 0,
                        decreases child_trees.len() - i,
                    {
                        let tree = child_trees[i].clone();
                        self.append_within(tree, cx);
                        proof {
                            Self::lemma_concat(
                                child_trees@.take(i as int),
                                child_trees@[i as int],
                            );
                            assert(child_trees@.take(i as int).push(child_trees@[i as int])
                                =~= child_trees@.take(i + 1));
                        }
                        i = i + 1;
                        assert(self@ =~= start + trees_items(child_trees@.take(i as int)));
                    }
                    assert(child_trees@.take(i as int) =~= child_trees@);
                },
            }
        } else if let Some(split_tree) = self.push_tree_recursive(other, cx) {
            let ghost joined = self@ + split_tree@;
            let left = self.clone();
            *self = Self::from_child_trees(left, split_tree, cx);
            assert(self@ == joined);
        }
    }

    /// Appends a tree that is not empty to one that is not empty, and bounds the
    /// number of children of a root that has grown past the other tree.
    fn append_within(&mut self, other: SumTree<T>, cx: &<T::Summary as Summary>::Context)
        requires
            old(self).wf(cx),
            other.wf(cx),
            old(self)@.len() > 0,
            other@.len() > 0,
            old(self).height() <= other.height() + 2,
            old(self).height() == other.height() + 2 ==> old(self).root_len() < MAX_CHILDREN,
            other.height() + 2 <= u8::MAX,
        ensures
            final(self).wf(cx),
            final(self)@ == old(self)@ + other@,
            old(self).height() <= other.height() ==> final(self).height() <= other.height() + 1,
            final(self).height() <= other.height() + 2,
            final(self).height() == other.height() + 2 ==> final(self).root_len() <= (if old(self).height() == other.height() + 2 {
                old(self).root_len() + 1
            } else {
                2
            }),
        decreases other.height(), 1int,
    {
        if self.0.height() < other.0.height() {
            self.append_tree(other, cx);
        } else if let Some(split_tree) = self.push_tree_recursive(other, cx) {
            let ghost joined = self@ + split_tree@;
            let left = self.clone();
            *self = Self::from_child_trees(left, split_tree, cx);
            assert(self@ == joined);
        }
    }

    /// Appends a tree that is no higher than this one. Where the root would get
    /// too many children, the right part of them is handed back as a tree of its
    /// own.
    #[verifier::rlimit(40)]
    fn push_tree_recursive(
        &mut self,
        other: SumTree<T>,
        cx: &<T::Summary as Summary>::Context,
    ) -> (split: Option<SumTree<T>>)
        requires
            old(self).wf(cx),
            other.wf(cx),
            old(self)@.len() > 0,
            other@.len() > 0,
            old(self).height() >= other.height(),
        ensures
            final(self).wf(cx),
            final(self).height() == old(self).height(),
            final(self)@.len() > 0,
            match split {
                None => final(self)@ == old(self)@ + other@,
                Some(right) => {
                    &&& right.wf(cx)
                    &&& right.height() == old(self).height()
                    &&& right@.len() > 0
                    &&& final(self)@ + right@ == old(self)@ + other@
                },
            },
            old(self).height() > other.height() && old(self).root_len() < MAX_CHILDREN ==> split
                is None && final(self).root_len() <= old(self).root_len() + 1,
        decreases old(self).height(),
    {
        let ghost start = self@;
        let ghost added = other@;
        let height: u8 = self.0.height();
        if self.0.is_leaf() {
            let mut all: Vec<T> = Vec::new();
            self.collect_items(&mut all);
            other.collect_items(&mut all);
            assert(all@ =~= start + added);
            proof {
                lemma_leaf_len(*self);
                lemma_leaf_len(other);
            }
            let (left, right) = Self::split_items(all, cx);
            *self = left;
            right
        } else {
            let mut all: Vec<SumTree<T>> = self.children(cx);
            let ghost children = all@;
            let height_delta: u8 = height - other.0.height();
            if height_delta == 0 {
                let mut other_trees: Vec<SumTree<T>> = other.children(cx);
                proof {
                    lemma_trees_concat(children, other_trees@);
                }
                all.append(&mut other_trees);
            } else if height_delta == 1 && !other.0.is_underflowing() {
                proof {
                    Self::lemma_concat(children, other);
                }
                all.push(other);
            } else {
                match all.pop() {
                    None => {},
                    Some(mut last) => {
                        let ghost init = children.drop_last();
                        assert(all@ =~= init);
                        assert(children[children.len() - 1] == last);
                        assert(start == trees_items(init) + last@);
                        let split = last.push_tree_recursive(other, cx);
                        proof {
                            Self::lemma_concat(init, last);
                        }
                        all.push(last);
                        if let Some(split_tree) = split {
                            proof {
                                Self::lemma_concat(init.push(last), split_tree);
                                assert(trees_items(init) + last@ + split_tree@ =~= trees_items(
                                    init,
                                ) + (last@ + split_tree@));
                            }
                            all.push(split_tree);
                        }
                        assert(trees_items(all@) =~= start + added);
                    },
                }
            }
            let (left, right) = Self::split_children(all, height, cx);
            *self = left;
            right
        }
    }

    /// The trees below the root.
    fn children(&self, cx: &<T::Summary as Summary>::Context) -> (r: Vec<SumTree<T>>)
        requires
            self.wf(cx),
            self.height() > 0,
        ensures
            trees_items(r@) == self@,
            r@.len() == self.root_len(),
            1 <= r@.len() <= MAX_CHILDREN,
            forall|i: int|
                0 <= i < r@.len() ==> (#[trigger] r@[i]).wf(cx) && r@[i].height() == self.height()
                    - 1 && r@[i]@.len() > 0,
            self@.len() > 0,
    {
        let mut all: Vec<SumTree<T>> = Vec::new();
        match &*self.0 {
            Node::Internal { height, child_trees, .. } => {
                extend_trees(&mut all, child_trees, 0, child_trees.len());
                proof {
                    assert(all@ =~= child_trees@);
                    lemma_trees_shape(all@, height - 1);
                    lemma_trees_sums(all@, cx);
                    lemma_trees_nonempty(all@, height - 1);
                }
            },
            Node::Leaf { .. } => {},
        }
        all
    }

    /// A node over some trees, or two where they are too many for one.
    fn split_children(
        all: Vec<SumTree<T>>,
        height: u8,
        cx: &<T::Summary as Summary>::Context,
    ) -> (r: (SumTree<T>, Option<SumTree<T>>))
        requires
            1 <= all@.len() <= 2 * MAX_CHILDREN,
            height >= 1,
            forall|i: int|
                0 <= i < all@.len() ==> (#[trigger] all@[i]).wf(cx) && all@[i].height() == height
                    - 1 && all@[i]@.len() > 0,
        ensures
            r.0.wf(cx),
            r.0.height() == height,
            r.0@.len() > 0,
            r.1 is Some <==> all@.len() > MAX_CHILDREN,
            match r.1 {
                None => r.0@ == trees_items(all@) && r.0.root_len() == all@.len(),
                Some(right) => {
                    &&& right.wf(cx)
                    &&& right.height() == height
                    &&& right@.len() > 0
                    &&& r.0@ + right@ == trees_items(all@)
                },
            },
    {
        let child_count: usize = all.len();
        if child_count > MAX_CHILDREN {
            let midpoint: usize = (child_count + child_count % 2) / 2;
            let mut left: Vec<SumTree<T>> = Vec::new();
            let mut right: Vec<SumTree<T>> = Vec::new();
            extend_trees(&mut left, &all, 0, midpoint);
            extend_trees(&mut right, &all, midpoint, child_count);
            proof {
                assert(left@ =~= all@.take(midpoint as int));
                assert(right@ =~= all@.skip(midpoint as int));
                assert(left@ + right@ =~= all@);
                lemma_trees_concat(left@, right@);
            }
            (Self::parent(left, height, cx), Some(Self::parent(right, height, cx)))
        } else {
            (Self::parent(all, height, cx), None)
        }
    }

    /// A leaf with some items, or two where they are too many for one.
    fn split_items(
        all: Vec<T>,
        cx: &<T::Summary as Summary>::Context,
    ) -> (r: (SumTree<T>, Option<SumTree<T>>))
        requires
            1 <= all@.len() <= 2 * MAX_CHILDREN,
        ensures
            r.0.wf(cx),
            r.0.height() == 0,
            r.0@.len() > 0,
            match r.1 {
                None => r.0@ == all@,
                Some(right) => {
                    &&& right.wf(cx)
                    &&& right.height() == 0
                    &&& right@.len() > 0
                    &&& r.0@ + right@ == all@
                },
            },
    {
        let mut all = all;
        let ghost start = all@;
        let child_count: usize = all.len();
        if child_count > MAX_CHILDREN {
            let midpoint: usize = (child_count + child_count % 2) / 2;
            let right: Vec<T> = all.split_off(midpoint);
            assert(all@ + right@ =~= start);
            (Self::leaf(all, cx), Some(Self::leaf(right, cx)))
        } else {
            (Self::leaf(all, cx), None)
        }
    }

    /// A root over two trees of the same height.
    fn from_child_trees(
        left: SumTree<T>,
        right: SumTree<T>,
        cx: &<T::Summary as Summary>::Context,
    ) -> (tree: SumTree<T>)
        requires
            left.wf(cx),
            right.wf(cx),
            left@.len() > 0,
            right@.len() > 0,
            left.height() == right.height(),
            left.height() < u8::MAX,
        ensures
            tree.wf(cx),
            tree@ == left@ + right@,
            tree.height() == left.height() + 1,
            tree.root_len() == 2,
    {
        let height: u8 = left.0.height() + 1;
        let mut child_trees: Vec<SumTree<T>> = Vec::new();
        proof {
            Self::lemma_concat(Seq::empty(), left);
            Self::lemma_concat(Seq::empty().push(left), right);
            assert(Seq::<T>::empty() + left@ =~= left@);
        }
        child_trees.push(left);
        child_trees.push(right);
        assert(child_trees@ =~= Seq::empty().push(left).push(right));
        Self::parent(child_trees, height, cx)
    }

    /// Replaces the last item, if there is one, by what `f` makes of it.
    pub fn update_last<F: FnOnce(&T) -> T>(
        &mut self,
        f: F,
        cx: &<T::Summary as Summary>::Context,
    )
        requires
            old(self).wf(cx),
            old(self)@.len() > 0 ==> call_requires(f, (&old(self)@.last(),)),
        ensures
            final(self).wf(cx),
            final(self).height() == old(self).height(),
            old(self)@.len() == 0 ==> final(self)@ == old(self)@,
            old(self)@.len() > 0 ==> exists|item: T| #[trigger]
                call_ensures(f, (&old(self)@.last(),), item) && final(self)@
                    == old(self)@.drop_last().push(item),
        decreases old(self).height(),
    {
        let ghost start = self@;
        let height: u8 = self.0.height();
        if self.0.is_leaf() {
            let mut all: Vec<T> = Vec::new();
            self.collect_items(&mut all);
            assert(all@ =~= start);
            proof {
                lemma_leaf_len(*self);
            }
            match all.pop() {
                None => {},
                Some(last) => {
                    let item = f(&last);
                    proof {
                        assert(call_ensures(f, (&start.last(),), item));
                    }
                    all.push(item);
                    assert(all@ =~= start.drop_last().push(item));
                    *self = Self::leaf(all, cx);
                },
            }
        } else {
            let mut all: Vec<SumTree<T>> = self.children(cx);
            let ghost children = all@;
            match all.pop() {
                None => {},
                Some(mut last) => {
                    let ghost init = children.drop_last();
                    let ghost old_last = last@;
                    assert(all@ =~= init);
                    assert(children[children.len() - 1] == last);
                    assert(start == trees_items(init) + last@);
                    assert(start.last() == last@.last());
                    last.update_last(f, cx);
                    proof {
                        Self::lemma_concat(init, last);
                        let item = choose|item: T| #[trigger]
                            call_ensures(f, (&old_last.last(),), item) && last@
                                == old_last.drop_last().push(item);
                        assert(trees_items(init) + last@ =~= start.drop_last().push(item));
                        assert(call_ensures(f, (&start.last(),), item));
                    }
                    all.push(last);
                    *self = Self::parent(all, height, cx);
                },
            }
        }
    }
}

impl<T: KeyedItem> SumTree<T> {
    /// The first item that does not come before a key.
    pub(crate) fn seek(&self, key: &T::Key) -> (r: Option<&T>)
        requires
            self.shape(),
        ensures
            match r {
                Some(item) => exists|p: int|
                    #![trigger self@[p]]
                    0 <= p < self@.len() && self@[p] == *item && !item.key_spec().before(key)
                        && forall|j: int|
                        0 <= j < p ==> (#[trigger] self@[j]).key_spec().before(key),
                None => forall|j: int|
                    0 <= j < self@.len() ==> (#[trigger] self@[j]).key_spec().before(key),
            },
        decreases self.height(),
    {
        match &*self.0 {
            Node::Leaf { items, .. } => {
                let mut i: usize = 0;
                while i < items.len()
                    invariant
                        i <= items@.len(),
                        items@ == self@,
                        forall|j: int| 0 <= j < i ==> (#[trigger] items@[j]).key_spec().before(key),
                    decreases items.len() - i,
                {
                    if !items[i].key().is_before(key) {
                        assert(self@[i as int] == items@[i as int]);
                        return Some(&items[i]);
                    }
                    i = i + 1;
                }
                None
            },
            Node::Internal { child_trees, height, .. } => {
                let mut i: usize = 0;
                proof {
                    lemma_trees_shape(child_trees@, height - 1);
                    assert(child_trees@.take(0) =~= Seq::empty());
                }
                while i < child_trees.len()
                    invariant
                        i <= child_trees@.len(),
                        self@ == trees_items(child_trees@),
                        self.height() == height,
                        height >= 1,
                        forall|j: int|
                            0 <= j < child_trees@.len() ==> node_shape(
                                *(#[trigger] child_trees@[j]).0,
                            ) && node_height(*child_trees@[j].0) == height - 1,
                        forall|j: int|
                            0 <= j < trees_items(child_trees@.take(i as int)).len() ==> (
                            #[trigger] trees_items(child_trees@.take(i as int))[j]).key_spec().before(
                                key,
                            ),
                    decreases child_trees.len() - i,
                {
                    let ghost before = trees_items(child_trees@.take(i as int));
                    let ghost child = child_trees@[i as int]@;
                    proof {
                        Self::lemma_concat(child_trees@.take(i as int), child_trees@[i as int]);
                        assert(child_trees@.take(i as int).push(child_trees@[i as int])
                            =~= child_trees@.take(i + 1));
                        assert(child_trees@.take(i + 1) + child_trees@.skip(i + 1)
                            =~= child_trees@);
                        lemma_trees_concat(child_trees@.take(i + 1), child_trees@.skip(i + 1));
                    }
                    match child_trees[i].seek(key) {
                        Some(item) => {
                            proof {
                                let p: int = choose|p: int|
                                    #![trigger child[p]]
                                    0 <= p < child.len() && child[p] == *item
                                        && !item.key_spec().before(key) && forall|j: int|
                                        0 <= j < p ==> (#[trigger] child[j]).key_spec().before(key);
                                let q: int = before.len() + p;
                                assert(self@[q] == child[p]);
                                assert forall|j: int| 0 <= j < q implies (
                                #[trigger] self@[j]).key_spec().before(key) by {
                                    if j < before.len() {
                                        assert(self@[j] == before[j]);
                                    } else {
                                        assert(self@[j] == child[j - before.len()]);
                                    }
                                }
                            }
                            return Some(item);
                        },
                        None => {
                            proof {
                                let now = trees_items(child_trees@.take(i + 1));
                                assert forall|j: int| 0 <= j < now.len() implies (
                                #[trigger] now[j]).key_spec().before(key) by {
                                    if j < before.len() {
                                        assert(now[j] == before[j]);
                                    } else {
                                        assert(now[j] == child[j - before.len()]);
                                    }
                                }
                            }
                        },
                    }
                    i = i + 1;
                }
                assert(child_trees@.take(i as int) =~= child_trees@);
                None
            },
        }
    }
}

proof fn lemma_leaf_len<T: Item>(tree: SumTree<T>)
    requires
        tree.shape(),
        tree.height() == 0,
    ensures
        tree@.len() <= MAX_CHILDREN,
{
}

proof fn lemma_height_bound(len: int, scale: int, height: nat)
    requires
        len > 1,
        (len - 1) * scale <= 0xffff_ffff_ffff_ffff,
        scale >= vstd::arithmetic::power2::pow2(height),
    ensures
        height < 64,
{
    assert(scale <= 0xffff_ffff_ffff_ffff) by (nonlinear_arith)
        requires
            len > 1,
            (len - 1) * scale <= 0xffff_ffff_ffff_ffff,
            scale >= 0,
    ;
    if height >= 64 {
        vstd::arithmetic::power2::lemma2_to64();
        vstd::arithmetic::power2::lemma2_to64_rest();
        if height > 64 {
            vstd::arithmetic::power2::lemma_pow2_strictly_increases(64, height);
        }
    }
}

} // verus!
