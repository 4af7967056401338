//! What a viewer shows of a document.
//!
//! A document is shown as a tree of a few elements of a page. The title of
//! a section becomes a heading, one level deeper for each section around
//! it, and lists become lists of items.

use crate::blocks::{lemma_models, Block, BlockView};
use crate::doc::SemDoc;
use crate::memory::Memory;
use vstd::prelude::*;

verus! {

/// What a document view is given.
pub struct DocumentViewProps {
    /// The document to show.
    pub document: SemDoc<Memory>,
}

/// How a block is to be shown.
#[derive(Clone, Copy, Debug, PartialEq, Eq)]
pub struct RenderOptions {
    /// Whether the block is the title of a section.
    pub is_heading: bool,
    /// The number of sections around the title.
    pub heading_level: u8,
    /// Whether the block is an item of a list.
    pub is_list_element: bool,
}

impl Default for RenderOptions {
    fn default() -> (r: Self)
        ensures
            r == (RenderOptions { is_heading: false, heading_level: 0, is_list_element: false }),
    {
        RenderOptions { is_heading: false, heading_level: 0, is_list_element: false }
    }
}

impl RenderOptions {
    /// The options for the title of a section.
    pub open spec fn for_title(self) -> RenderOptions {
        RenderOptions {
            is_heading: true,
            heading_level: if self.heading_level < 255 {
                (self.heading_level + 1) as u8
            } else {
                255
            },
            is_list_element: self.is_list_element,
        }
    }

    /// The options for an item of a bullet list.
    pub open spec fn for_item(self) -> RenderOptions {
        RenderOptions {
            is_heading: self.is_heading,
            heading_level: self.heading_level,
            is_list_element: true,
        }
    }
}

/// An element of a page.
#[derive(Debug, PartialEq, Eq)]
pub enum Html {
    /// Nothing at all.
    Nothing,
    /// A paragraph of text.
    Paragraph(String),
    /// A heading of a level from 1 to 6.
    Heading { level: u8, text: String },
    /// A section with what stands for its title and for its body.
    Section { title: Box<Html>, body: Box<Html> },
    /// Elements one after the other.
    Sequence(Vec<Html>),
    /// A list with one item for each element.
    List(Vec<Html>),
}

/// What an [`Html`] holds, as mathematical values.
pub enum HtmlView {
    Nothing,
    Paragraph(Seq<char>),
    Heading { level: u8, text: Seq<char> },
    Section { title: Box<HtmlView>, body: Box<HtmlView> },
    Sequence(Seq<HtmlView>),
    List(Seq<HtmlView>),
}

impl Html {
    /// The element as mathematical values.
    pub open spec fn model(self) -> HtmlView
        decreases self, 0nat,
    {
        match self {
            Html::Nothing => HtmlView::Nothing,
            Html::Paragraph(text) => HtmlView::Paragraph(text@),
            Html::Heading { level, text } => HtmlView::Heading { level, text: text@ },
            Html::Section { title, body } => HtmlView::Section {
                title: Box::new(title.model()),
                body: Box::new(body.model()),
            },
            Html::Sequence(elements) => HtmlView::Sequence(Self::models(elements)),
            Html::List(items) => HtmlView::List(Self::models(items)),
        }
    }

    /// The elements as mathematical values.
    pub open spec fn models(elements: Vec<Html>) -> Seq<HtmlView>
        decreases elements, 1nat,
    {
        Seq::new(
            elements@.len(),
            |i: int|
                if 0 <= i < elements@.len() {
                    elements@[i].model()
                } else {
                    HtmlView::Nothing
                },
        )
    }
}

impl View for Html {
    type V = HtmlView;

    open spec fn view(&self) -> HtmlView {
        self.model()
    }
}

/// What is shown of each of `blocks`.
pub open spec fn all_to_html(blocks: Seq<BlockView<Memory>>, options: RenderOptions) -> Seq<
    HtmlView,
>
    decreases blocks, 1nat,
{
    Seq::new(
        blocks.len(),
        |i: int|
            if 0 <= i < blocks.len() {
                to_html(blocks[i], options)
            } else {
                HtmlView::Nothing
            },
    )
}

/// What is shown of `block`.
pub open spec fn to_html(block: BlockView<Memory>, options: RenderOptions) -> HtmlView
    decreases block, 0nat,
{
    match block {
        BlockView::Error(_) => HtmlView::Paragraph("Error"@),
        BlockView::Empty => HtmlView::Nothing,
        BlockView::Text(text) => if options.is_heading && 1 <= options.heading_level <= 6 {
            HtmlView::Heading { level: options.heading_level, text }
        } else {
            HtmlView::Paragraph(text)
        },
        BlockView::Section { title, body } => HtmlView::Section {
            title: Box::new(to_html(*title, options.for_title())),
            body: Box::new(to_html(*body, options)),
        },
        BlockView::Flow(children) => HtmlView::Sequence(all_to_html(children, options)),
        BlockView::Paragraphs(children) => HtmlView::Sequence(all_to_html(children, options)),
        BlockView::BulletList(items) => HtmlView::List(all_to_html(items, options.for_item())),
        BlockView::OrderedList(items) => HtmlView::List(all_to_html(items, options)),
    }
}

/// Tells what is shown of `block`.
pub fn block_to_html(block: &Block<Memory>, options: RenderOptions) -> (r: Html)
    ensures
        r@ == to_html(block@, options),
    decreases block, 0nat,
{
    match block {
        Block::Error(_) => Html::Paragraph("Error".to_string()),
        Block::Empty => Html::Nothing,
        Block::Text(text) => {
            if options.is_heading && 1 <= options.heading_level && options.heading_level <= 6 {
                Html::Heading { level: options.heading_level, text: text.clone() }
            } else {
                Html::Paragraph(text.clone())
            }
        },
        Block::Section { title, body } => {
            let title_options = RenderOptions {
                is_heading: true,
                heading_level: if options.heading_level < 255 {
                    options.heading_level + 1
                } else {
                    255
                },
                is_list_element: options.is_list_element,
            };
            Html::Section {
                title: Box::new(block_to_html(title, title_options)),
                body: Box::new(block_to_html(body, options)),
            }
        },
        Block::Flow(children) => {
            let elements = blocks_to_html(children, options);
            proof {
                lemma_models(*children);
            }
            Html::Sequence(elements)
        },
        Block::Paragraphs(children) => {
            let elements = blocks_to_html(children, options);
            proof {
                lemma_models(*children);
            }
            Html::Sequence(elements)
        },
        Block::BulletList(items) => {
            let list_options = RenderOptions {
                is_heading: options.is_heading,
                heading_level: options.heading_level,
                is_list_element: true,
            };
            let elements = blocks_to_html(items, list_options);
            proof {
                lemma_models(*items);
            }
            Html::List(elements)
        },
        Block::OrderedList(items) => {
            let elements = blocks_to_html(items, options);
            proof {
                lemma_models(*items);
            }
            Html::List(elements)
        },
    }
}

/// Tells what is shown of each of `blocks`.
fn blocks_to_html(blocks: &Vec<Block<Memory>>, options: RenderOptions) -> (r: Vec<Html>)
    ensures
        Html::models(r) == all_to_html(crate::blocks::block_views(blocks@), options),
    decreases blocks, 1nat,
{
    let mut elements: Vec<Html> = Vec::new();
    let mut i: usize = 0;
    while i < blocks.len()
        invariant
            i <= blocks@.len(),
            elements@.len() == i,
            forall|j: int| 0 <= j < i ==> elements@[j]@ == to_html(blocks@[j]@, options),
        decreases blocks.len() - i,
    {
        elements.push(block_to_html(&blocks[i], options));
        i += 1;
    }
    assert(Html::models(elements) =~= all_to_html(crate::blocks::block_views(blocks@), options));
    elements
}

/// Tells what a document view shows: its document, from the top.
pub fn document_view(props: &DocumentViewProps) -> (r: Html)
    ensures
        r@ == to_html(
            props.document@,
            RenderOptions { is_heading: false, heading_level: 0, is_list_element: false },
        ),
{
    block_to_html(&props.document.block, RenderOptions::default())
}

} // verus!
