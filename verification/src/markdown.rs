//! Documents from Markdown.
//!
//! A Markdown document comes as a tree of nodes. Each node becomes a block:
//! the document and the items of lists become paragraphs, a heading becomes
//! a section with that title and an empty body, and paragraphs and emphasis
//! become flows of their children.

use crate::blocks::{Block, BlockView};
use crate::doc::SemDoc;
use crate::source::Pure;
use vstd::prelude::*;

verus! {

/// How the items of a list are marked.
#[derive(Clone, Copy, Debug, PartialEq, Eq)]
pub enum ListType {
    Bullet,
    Ordered,
}

/// What a node of a Markdown document is.
#[derive(Clone, Debug, PartialEq, Eq)]
pub enum NodeValue {
    /// The root of a document.
    Document,
    /// A heading, with its text as children.
    Heading,
    /// A paragraph.
    Paragraph,
    /// A run of text.
    Text(String),
    /// A line break within a paragraph that is shown as a space.
    SoftBreak,
    /// Emphasised text.
    Emph,
    /// Strongly emphasised text.
    Strong,
    /// A list, with its items as children.
    List(ListType),
    /// An item of a list.
    Item,
    /// A block of raw HTML.
    HtmlBlock,
    /// A line between two parts of a document.
    ThematicBreak,
    /// A link with a title.
    Link { title: String },
    /// Anything else.
    Other,
}

/// What a [`NodeValue`] holds, as mathematical values.
pub enum NodeValueView {
    Document,
    Heading,
    Paragraph,
    Text(Seq<char>),
    SoftBreak,
    Emph,
    Strong,
    List(ListType),
    Item,
    HtmlBlock,
    ThematicBreak,
    Link { title: Seq<char> },
    Other,
}

impl View for NodeValue {
    type V = NodeValueView;

    open spec fn view(&self) -> NodeValueView {
        match self {
            NodeValue::Document => NodeValueView::Document,
            NodeValue::Heading => NodeValueView::Heading,
            NodeValue::Paragraph => NodeValueView::Paragraph,
            NodeValue::Text(text) => NodeValueView::Text(text@),
            NodeValue::SoftBreak => NodeValueView::SoftBreak,
            NodeValue::Emph => NodeValueView::Emph,
            NodeValue::Strong => NodeValueView::Strong,
            NodeValue::List(list_type) => NodeValueView::List(*list_type),
            NodeValue::Item => NodeValueView::Item,
            NodeValue::HtmlBlock => NodeValueView::HtmlBlock,
            NodeValue::ThematicBreak => NodeValueView::ThematicBreak,
            NodeValue::Link { title } => NodeValueView::Link { title: title@ },
            NodeValue::Other => NodeValueView::Other,
        }
    }
}

/// A node of a Markdown document with the nodes below it.
#[derive(Debug, PartialEq, Eq)]
pub struct MarkdownNode {
    pub value: NodeValue,
    pub children: Vec<MarkdownNode>,
}

/// What a [`MarkdownNode`] holds, as mathematical values.
pub struct MarkdownNodeView {
    pub value: NodeValueView,
    pub children: Seq<MarkdownNodeView>,
}

impl MarkdownNode {
    /// The tree as mathematical values.
    pub open spec fn model(self) -> MarkdownNodeView
        decreases self,
    {
        MarkdownNodeView {
            value: self.value@,
            children: Seq::new(
                self.children@.len(),
                |i: int|
                    if 0 <= i < self.children@.len() {
                        self.children@[i].model()
                    } else {
                        MarkdownNodeView { value: NodeValueView::Other, children: Seq::empty() }
                    },
            ),
        }
    }
}

impl View for MarkdownNode {
    type V = MarkdownNodeView;

    open spec fn view(&self) -> MarkdownNodeView {
        self.model()
    }
}

/// The blocks of `nodes`, in order.
pub open spec fn blocks_of(nodes: Seq<MarkdownNodeView>) -> Seq<BlockView<Pure>>
    decreases nodes, 1nat,
{
    Seq::new(
        nodes.len(),
        |i: int|
            if 0 <= i < nodes.len() {
                block_of(nodes[i])
            } else {
                BlockView::Empty
            },
    )
}

/// The block that `node` becomes.
pub open spec fn block_of(node: MarkdownNodeView) -> BlockView<Pure>
    decreases node, 0nat,
{
    match node.value {
        NodeValueView::Document => BlockView::Paragraphs(blocks_of(node.children)),
        NodeValueView::Heading => BlockView::Section {
            title: Box::new(BlockView::Paragraphs(blocks_of(node.children))),
            body: Box::new(BlockView::Empty),
        },
        NodeValueView::Paragraph => BlockView::Flow(blocks_of(node.children)),
        NodeValueView::Text(text) => BlockView::Text(text),
        NodeValueView::SoftBreak => BlockView::Text(" "@),
        NodeValueView::Emph => BlockView::Flow(blocks_of(node.children)),
        NodeValueView::Strong => BlockView::Flow(blocks_of(node.children)),
        NodeValueView::List(ListType::Bullet) => BlockView::BulletList(blocks_of(node.children)),
        NodeValueView::List(ListType::Ordered) => BlockView::OrderedList(
            blocks_of(node.children),
        ),
        NodeValueView::Item => BlockView::Paragraphs(blocks_of(node.children)),
        NodeValueView::HtmlBlock => BlockView::Empty,
        NodeValueView::ThematicBreak => BlockView::Empty,
        NodeValueView::Link { title } => BlockView::Text(title),
        NodeValueView::Other => BlockView::Empty,
    }
}

/// The block that `node` becomes.
pub fn to_block(node: &MarkdownNode) -> (r: Block<Pure>)
    ensures
        r@ == block_of(node@),
    decreases node, 1nat,
{
    match &node.value {
        NodeValue::Document => Block::Paragraphs(to_blocks(node)),
        NodeValue::Heading => {
            let title = Block::Paragraphs(to_blocks(node));
            let body = Block::Empty;
            assert(title@ == BlockView::Paragraphs(blocks_of(node@.children)));
            assert(body@ == BlockView::<Pure>::Empty);
            Block::Section { title: Box::new(title), body: Box::new(body) }
        },
        NodeValue::Paragraph => Block::Flow(to_blocks(node)),
        NodeValue::Text(text) => Block::Text(text.clone()),
        NodeValue::SoftBreak => Block::Text(" ".to_string()),
        NodeValue::Emph => Block::Flow(to_blocks(node)),
        NodeValue::Strong => Block::Flow(to_blocks(node)),
        NodeValue::List(list_type) => {
            let items = to_blocks(node);
            match list_type {
                ListType::Bullet => Block::BulletList(items),
                ListType::Ordered => Block::OrderedList(items),
            }
        },
        NodeValue::Item => Block::Paragraphs(to_blocks(node)),
        NodeValue::HtmlBlock => Block::Empty,
        NodeValue::ThematicBreak => Block::Empty,
        NodeValue::Link { title } => Block::Text(title.clone()),
        NodeValue::Other => Block::Empty,
    }
}

/// The blocks that the children of `node` become, in order.
pub fn to_blocks(node: &MarkdownNode) -> (r: Vec<Block<Pure>>)
    ensures
        Block::models(r) == blocks_of(node@.children),
    decreases node, 0nat,
{
    let mut blocks: Vec<Block<Pure>> = Vec::new();
    let mut i: usize = 0;
    while i < node.children.len()
        invariant
            i <= node.children@.len(),
            blocks@.len() == i,
            forall|j: int| 0 <= j < i ==> blocks@[j]@ == block_of(node.children@[j]@),
        decreases node.children.len() - i,
    {
        blocks.push(to_block(&node.children[i]));
        i += 1;
    }
    assert(Block::models(blocks) =~= blocks_of(node@.children));
    blocks
}

/// The document that the Markdown document with the root `root` becomes.
pub fn to_semdoc(root: &MarkdownNode) -> (r: SemDoc<Pure>)
    ensures
        r@ == block_of(root@),
{
    SemDoc::new(to_block(root))
}

} // verus!
