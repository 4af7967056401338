//! Simplification of block trees.
//!
//! Simplifying a tree removes what carries no content: a text without
//! characters becomes empty, empty children are dropped, texts that follow
//! each other in a flow become one text, a section without a title becomes
//! its body, and a flow or paragraphs with fewer than two children become
//! that child, or empty.

use crate::blocks::{block_views, lemma_models, take_at, Block, BlockView};
use crate::source::Source;
use vstd::prelude::*;
use vstd::string::StringExecFns;

verus! {

/// What merging the texts of a run of blocks has produced so far: the blocks
/// that are complete, and the text that may still grow.
pub struct Merged<S: Source> {
    pub blocks: Seq<BlockView<S>>,
    pub text: Seq<char>,
}

impl<S: Source> Merged<S> {
    /// The blocks, with the text behind them if there is any.
    pub open spec fn flushed(self) -> Seq<BlockView<S>> {
        if self.text.len() > 0 {
            self.blocks.push(BlockView::Text(self.text))
        } else {
            self.blocks
        }
    }
}

/// The first `n` of `children` simplified, without those that became empty.
pub open spec fn simplified_children<S: Source>(children: Seq<BlockView<S>>, n: nat) -> Seq<
    BlockView<S>,
>
    decreases children, n + 1,
{
    if n == 0 || n > children.len() {
        Seq::empty()
    } else {
        let before = simplified_children(children, (n - 1) as nat);
        let child = children[n - 1].simplified();
        if child is Empty {
            before
        } else {
            before.push(child)
        }
    }
}

/// The first `n` of `children` with each run of texts joined into one.
pub open spec fn merge_state<S: Source>(children: Seq<BlockView<S>>, n: nat) -> Merged<S>
    decreases n,
{
    if n == 0 || n > children.len() {
        Merged { blocks: Seq::empty(), text: Seq::empty() }
    } else {
        let before = merge_state(children, (n - 1) as nat);
        match children[n - 1] {
            BlockView::Text(text) => Merged { blocks: before.blocks, text: before.text + text },
            other => Merged { blocks: before.flushed().push(other), text: Seq::empty() },
        }
    }
}

/// `children` with each run of texts joined into one text.
pub open spec fn merge_texts<S: Source>(children: Seq<BlockView<S>>) -> Seq<BlockView<S>> {
    merge_state(children, children.len()).flushed()
}

impl<S: Source> BlockView<S> {
    /// The tree without what carries no content.
    pub open spec fn simplified(self) -> BlockView<S>
        decreases self, 0nat,
    {
        match self {
            BlockView::Error(error) => BlockView::Error(error),
            BlockView::Empty => BlockView::Empty,
            BlockView::Text(text) => if text.len() == 0 {
                BlockView::Empty
            } else {
                BlockView::Text(text)
            },
            BlockView::Section { title, body } => {
                let title = title.simplified();
                let body = body.simplified();
                if title is Empty {
                    body
                } else {
                    BlockView::Section { title: Box::new(title), body: Box::new(body) }
                }
            },
            BlockView::Flow(children) => {
                let children = merge_texts(simplified_children(children, children.len()));
                if children.len() == 0 {
                    BlockView::Empty
                } else if children.len() == 1 {
                    children[0]
                } else {
                    BlockView::Flow(children)
                }
            },
            BlockView::Paragraphs(children) => {
                let children = simplified_children(children, children.len());
                if children.len() == 0 {
                    BlockView::Empty
                } else if children.len() == 1 {
                    children[0]
                } else {
                    BlockView::Paragraphs(children)
                }
            },
            BlockView::BulletList(items) => BlockView::BulletList(
                simplified_children(items, items.len()),
            ),
            BlockView::OrderedList(items) => BlockView::OrderedList(
                simplified_children(items, items.len()),
            ),
        }
    }
}

impl<S: Source> Block<S> {
    /// Removes from the tree what carries no content.
    pub fn simplify(self) -> (r: Block<S>)
        ensures
            r@ == self@.simplified(),
        decreases self, 0nat,
    {
        match self {
            Block::Error(error) => Block::Error(error),
            Block::Empty => Block::Empty,
            Block::Text(text) => {
                if text.as_str().is_empty() {
                    Block::Empty
                } else {
                    Block::Text(text)
                }
            },
            Block::Section { title, body } => {
                let title = (*title).simplify();
                let body = (*body).simplify();
                if title.is_empty() {
                    body
                } else {
                    Block::Section { title: Box::new(title), body: Box::new(body) }
                }
            },
            Block::Flow(children) => {
                proof {
                    lemma_models(children);
                }
                let children = Self::merge_adjacent_texts(Self::simplify_all(children));
                Self::only_child_or(children, true)
            },
            Block::Paragraphs(children) => {
                proof {
                    lemma_models(children);
                }
                let children = Self::simplify_all(children);
                Self::only_child_or(children, false)
            },
            Block::BulletList(items) => {
                proof {
                    lemma_models(items);
                }
                let items = Self::simplify_all(items);
                proof {
                    lemma_models(items);
                }
                Block::BulletList(items)
            },
            Block::OrderedList(items) => {
                proof {
                    lemma_models(items);
                }
                let items = Self::simplify_all(items);
                proof {
                    lemma_models(items);
                }
                Block::OrderedList(items)
            },
        }
    }

    /// Nothing for no children, the child for one, and else the children as
    /// a flow or as paragraphs.
    fn only_child_or(children: Vec<Block<S>>, flow: bool) -> (r: Block<S>)
        ensures
            r@ == (if children@.len() == 0 {
                BlockView::<S>::Empty
            } else if children@.len() == 1 {
                children@[0]@
            } else if flow {
                BlockView::Flow(block_views(children@))
            } else {
                BlockView::Paragraphs(block_views(children@))
            }),
    {
        let mut children = children;
        if children.len() == 0 {
            Block::Empty
        } else if children.len() == 1 {
            take_at(&mut children, 0)
        } else {
            proof {
                lemma_models(children);
            }
            if flow {
                Block::Flow(children)
            } else {
                Block::Paragraphs(children)
            }
        }
    }

    /// Simplifies each of `blocks` and drops those that became empty.
    fn simplify_all(blocks: Vec<Block<S>>) -> (r: Vec<Block<S>>)
        ensures
            block_views(r@) == simplified_children(block_views(blocks@), blocks@.len()),
        decreases blocks, 1nat,
    {
        let ghost views = block_views(blocks@);
        let mut rest = blocks;
        let mut simple: Vec<Block<S>> = Vec::new();
        let mut i: usize = 0;
        assert(block_views(simple@) =~= simplified_children(views, 0));
        while i < rest.len()
            invariant
                i <= rest@.len(),
                rest@.len() == blocks@.len(),
                views == block_views(blocks@),
                forall|j: int| i <= j < rest@.len() ==> rest@[j] == blocks@[j],
                block_views(simple@) == simplified_children(views, i as nat),
            decreases rest.len() - i,
        {
            let ghost before = block_views(simple@);
            let child = take_at(&mut rest, i);
            assert(child == blocks@[i as int]);
            let child = child.simplify();
            if !child.is_empty() {
                simple.push(child);
                assert(block_views(simple@) =~= before.push(child@));
            }
            i += 1;
        }
        simple
    }

    /// Joins each run of texts of `blocks` into one text.
    fn merge_adjacent_texts(blocks: Vec<Block<S>>) -> (r: Vec<Block<S>>)
        ensures
            block_views(r@) == merge_texts(block_views(blocks@)),
    {
        let ghost views = block_views(blocks@);
        let mut blocks = blocks;
        let mut children: Vec<Block<S>> = Vec::new();
        let mut text = String::new();
        let mut i: usize = 0;
        assert(block_views(children@) =~= merge_state(views, 0).blocks);
        while i < blocks.len()
            invariant
                i <= blocks@.len(),
                blocks@.len() == views.len(),
                forall|j: int| i <= j < blocks@.len() ==> blocks@[j]@ == views[j],
                block_views(children@) == merge_state(views, i as nat).blocks,
                text@ == merge_state(views, i as nat).text,
            decreases blocks.len() - i,
        {
            let ghost before = block_views(children@);
            let child = take_at(&mut blocks, i);
            assert(child@ == views[i as int]);
            match child {
                Block::Text(additional_text) => {
                    text.append(additional_text.as_str());
                },
                other => {
                    if !text.as_str().is_empty() {
                        let ghost joined = text@;
                        children.push(Block::Text(text));
                        text = String::new();
                        children.push(other);
                        assert(block_views(children@) =~= before.push(
                            BlockView::Text(joined),
                        ).push(other@));
                    } else {
                        children.push(other);
                        assert(block_views(children@) =~= before.push(other@));
                    }
                },
            }
            i += 1;
        }
        if !text.as_str().is_empty() {
            let ghost before = block_views(children@);
            let ghost joined = text@;
            children.push(Block::Text(text));
            assert(block_views(children@) =~= before.push(BlockView::Text(joined)));
        }
        children
    }
}

/// Whether each of `children` is simplified and not empty.
pub open spec fn all_simplified<S: Source>(children: Seq<BlockView<S>>) -> bool
    decreases children, 1nat,
{
    forall|i: int|
        0 <= i < children.len() ==> (#[trigger] children[i]).is_simplified() && !(children[i]
            is Empty)
}

/// Whether no text of `children` is followed by another text.
pub open spec fn no_adjacent_texts<S: Source>(children: Seq<BlockView<S>>) -> bool {
    forall|i: int|
        0 <= i && i + 1 < children.len() ==> !((#[trigger] children[i]) is Text && children[i
            + 1] is Text)
}

impl<S: Source> BlockView<S> {
    /// Whether there is nothing left to simplify in the tree.
    pub open spec fn is_simplified(self) -> bool
        decreases self, 0nat,
    {
        match self {
            BlockView::Error(_) => true,
            BlockView::Empty => true,
            BlockView::Text(text) => text.len() > 0,
            BlockView::Section { title, body } => {
                &&& title.is_simplified()
                &&& !(*title is Empty)
                &&& body.is_simplified()
            },
            BlockView::Flow(children) => {
                &&& children.len() >= 2
                &&& all_simplified(children)
                &&& no_adjacent_texts(children)
            },
            BlockView::Paragraphs(children) => children.len() >= 2 && all_simplified(children),
            BlockView::BulletList(items) => all_simplified(items),
            BlockView::OrderedList(items) => all_simplified(items),
        }
    }
}

/// Simplifying a tree a second time changes nothing.
pub proof fn lemma_simplify_is_idempotent<S: Source>(block: BlockView<S>)
    ensures
        block.simplified().simplified() == block.simplified(),
{
    lemma_simplified_is_simplified(block);
    lemma_simplified_is_fixed(block.simplified());
}

/// There is nothing left to simplify in a simplified tree.
pub proof fn lemma_simplified_is_simplified<S: Source>(block: BlockView<S>)
    ensures
        block.simplified().is_simplified(),
    decreases block, 0nat,
{
    match block {
        BlockView::Section { title, body } => {
            lemma_simplified_is_simplified(*title);
            lemma_simplified_is_simplified(*body);
        },
        BlockView::Flow(children) => {
            lemma_simplified_children(children, children.len());
            let simple = simplified_children(children, children.len());
            lemma_merged(simple, simple.len());
        },
        BlockView::Paragraphs(children) => {
            lemma_simplified_children(children, children.len());
        },
        BlockView::BulletList(items) => {
            lemma_simplified_children(items, items.len());
        },
        BlockView::OrderedList(items) => {
            lemma_simplified_children(items, items.len());
        },
        _ => {},
    }
}

/// What is left of simplified children is simplified and not empty.
proof fn lemma_simplified_children<S: Source>(children: Seq<BlockView<S>>, n: nat)
    requires
        n <= children.len(),
    ensures
        all_simplified(simplified_children(children, n)),
    decreases children, n + 1,
{
    if n > 0 {
        lemma_simplified_children(children, (n - 1) as nat);
        lemma_simplified_is_simplified(children[n - 1]);
    }
}

/// Joining the texts of simplified children leaves simplified children, no
/// two texts of which follow each other.
proof fn lemma_merged<S: Source>(children: Seq<BlockView<S>>, n: nat)
    requires
        all_simplified(children),
        n <= children.len(),
    ensures
        all_simplified(merge_state(children, n).blocks),
        no_adjacent_texts(merge_state(children, n).blocks),
        merge_state(children, n).blocks.len() > 0 ==> !(merge_state(children, n).blocks.last()
            is Text),
        all_simplified(merge_state(children, n).flushed()),
        no_adjacent_texts(merge_state(children, n).flushed()),
    decreases n,
{
    if n > 0 {
        lemma_merged(children, (n - 1) as nat);
        let child = children[n - 1];
        assert(child.is_simplified() && !(child is Empty));
    }
}

/// Simplifying leaves a tree as it is if there is nothing left to simplify
/// in it.
pub proof fn lemma_simplified_is_fixed<S: Source>(block: BlockView<S>)
    requires
        block.is_simplified(),
    ensures
        block.simplified() == block,
    decreases block, 0nat,
{
    match block {
        BlockView::Section { title, body } => {
            lemma_simplified_is_fixed(*title);
            lemma_simplified_is_fixed(*body);
        },
        BlockView::Flow(children) => {
            lemma_simplified_children_are_fixed(children, children.len());
            assert(children.take(children.len() as int) =~= children);
            lemma_merged_is_fixed(children, children.len());
        },
        BlockView::Paragraphs(children) => {
            lemma_simplified_children_are_fixed(children, children.len());
            assert(children.take(children.len() as int) =~= children);
        },
        BlockView::BulletList(items) => {
            lemma_simplified_children_are_fixed(items, items.len());
            assert(items.take(items.len() as int) =~= items);
        },
        BlockView::OrderedList(items) => {
            lemma_simplified_children_are_fixed(items, items.len());
            assert(items.take(items.len() as int) =~= items);
        },
        _ => {},
    }
}

/// Simplifying children keeps them all if there is nothing left to simplify
/// in any of them.
proof fn lemma_simplified_children_are_fixed<S: Source>(children: Seq<BlockView<S>>, n: nat)
    requires
        all_simplified(children),
        n <= children.len(),
    ensures
        simplified_children(children, n) == children.take(n as int),
    decreases children, n + 1,
{
    if n > 0 {
        lemma_simplified_children_are_fixed(children, (n - 1) as nat);
        let child = children[n - 1];
        assert(child.is_simplified() && !(child is Empty));
        lemma_simplified_is_fixed(child);
        assert(children.take(n - 1).push(child) =~= children.take(n as int));
    } else {
        assert(children.take(0) =~= Seq::<BlockView<S>>::empty());
    }
}

/// Joining texts changes nothing where no two texts follow each other.
proof fn lemma_merged_is_fixed<S: Source>(children: Seq<BlockView<S>>, n: nat)
    requires
        all_simplified(children),
        no_adjacent_texts(children),
        n <= children.len(),
    ensures
        merge_state(children, n).flushed() == children.take(n as int),
        n > 0 && children[n - 1] is Text ==> {
            &&& merge_state(children, n).blocks == children.take(n - 1)
            &&& merge_state(children, n).text == children[n - 1]->Text_0
        },
        n == 0 || !(children[n - 1] is Text) ==> {
            &&& merge_state(children, n).blocks == children.take(n as int)
            &&& merge_state(children, n).text.len() == 0
        },
    decreases n,
{
    if n > 0 {
        lemma_merged_is_fixed(children, (n - 1) as nat);
        let child = children[n - 1];
        let before = merge_state(children, (n - 1) as nat);
        assert(child.is_simplified() && !(child is Empty));
        if n > 1 {
            let previous = children[n - 2];
            assert(previous.is_simplified() && !(previous is Empty));
            assert(!(previous is Text && children[n - 2 + 1] is Text));
        }
        assert(children.take(n - 1).push(child) =~= children.take(n as int));
        match child {
            BlockView::Text(text) => {
                assert(before.text.len() == 0);
                assert(before.text + text =~= text);
            },
            _ => {},
        }
    } else {
        assert(children.take(0) =~= Seq::<BlockView<S>>::empty());
    }
}

} // verus!
