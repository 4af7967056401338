//! Turning a tree of any source into one that was built in memory.
//!
//! A tree that was read may hold errors of its source. Where it holds none,
//! it is the same document as a tree that was built in memory, and can be
//! taken for one.

use crate::blocks::{block_views, lemma_models, take_at, Block, BlockView, Error};
use crate::source::{Pure, Source};
use vstd::prelude::*;

verus! {

/// Each of `blocks` as a tree that was built in memory.
pub open spec fn purified_all<S: Source>(blocks: Seq<BlockView<S>>) -> Seq<BlockView<Pure>>
    decreases blocks, 1nat,
{
    Seq::new(
        blocks.len(),
        |i: int|
            if 0 <= i < blocks.len() {
                blocks[i].purified()
            } else {
                BlockView::Empty
            },
    )
}

/// The first error of the source that the first `n` of `blocks` hold, in
/// reading order.
pub open spec fn first_source_error<S: Source>(blocks: Seq<BlockView<S>>, n: nat) -> Option<
    S::Error,
>
    decreases blocks, n + 1,
{
    if n == 0 || n > blocks.len() {
        None
    } else {
        match first_source_error(blocks, (n - 1) as nat) {
            Some(error) => Some(error),
            None => blocks[n - 1].source_error(),
        }
    }
}

impl<S: Source> BlockView<S> {
    /// The first error of the source that the tree holds, in reading order.
    pub open spec fn source_error(self) -> Option<S::Error>
        decreases self, 0nat,
    {
        match self {
            BlockView::Error(Error::LowerLayer(error)) => Some(error),
            BlockView::Error(Error::BlockLayer(_)) => None,
            BlockView::Empty => None,
            BlockView::Text(_) => None,
            BlockView::Section { title, body } => match title.source_error() {
                Some(error) => Some(error),
                None => body.source_error(),
            },
            BlockView::Flow(children) => first_source_error(children, children.len()),
            BlockView::Paragraphs(children) => first_source_error(children, children.len()),
            BlockView::BulletList(items) => first_source_error(items, items.len()),
            BlockView::OrderedList(items) => first_source_error(items, items.len()),
        }
    }

    /// The same tree as one that was built in memory. An error of the source
    /// becomes the one error that such a tree can hold in its place.
    pub open spec fn purified(self) -> BlockView<Pure>
        decreases self, 0nat,
    {
        match self {
            BlockView::Error(Error::LowerLayer(_)) => BlockView::Error(Error::LowerLayer(())),
            BlockView::Error(Error::BlockLayer(error)) => BlockView::Error(
                Error::BlockLayer(error),
            ),
            BlockView::Empty => BlockView::Empty,
            BlockView::Text(text) => BlockView::Text(text),
            BlockView::Section { title, body } => BlockView::Section {
                title: Box::new(title.purified()),
                body: Box::new(body.purified()),
            },
            BlockView::Flow(children) => BlockView::Flow(purified_all(children)),
            BlockView::Paragraphs(children) => BlockView::Paragraphs(purified_all(children)),
            BlockView::BulletList(items) => BlockView::BulletList(purified_all(items)),
            BlockView::OrderedList(items) => BlockView::OrderedList(purified_all(items)),
        }
    }
}

/// A tree that was built in memory is left as it is.
pub proof fn lemma_purified_pure(block: BlockView<Pure>)
    ensures
        block.purified() == block,
    decreases block,
{
    match block {
        BlockView::Section { title, body } => {
            lemma_purified_pure(*title);
            lemma_purified_pure(*body);
        },
        BlockView::Flow(children) => {
            assert forall|i: int| 0 <= i < children.len() implies children[i].purified()
                == children[i] by {
                lemma_purified_pure(children[i]);
            }
            assert(purified_all(children) =~= children);
        },
        BlockView::Paragraphs(children) => {
            assert forall|i: int| 0 <= i < children.len() implies children[i].purified()
                == children[i] by {
                lemma_purified_pure(children[i]);
            }
            assert(purified_all(children) =~= children);
        },
        BlockView::BulletList(items) => {
            assert forall|i: int| 0 <= i < items.len() implies items[i].purified() == items[i] by {
                lemma_purified_pure(items[i]);
            }
            assert(purified_all(items) =~= items);
        },
        BlockView::OrderedList(items) => {
            assert forall|i: int| 0 <= i < items.len() implies items[i].purified() == items[i] by {
                lemma_purified_pure(items[i]);
            }
            assert(purified_all(items) =~= items);
        },
        BlockView::Error(Error::LowerLayer(error)) => {
            assert(error == ());
        },
        _ => {},
    }
}

/// A tree without errors holds no error of its source.
pub proof fn lemma_error_free_has_no_source_error<S: Source>(block: BlockView<S>)
    requires
        block.error_free(),
    ensures
        block.source_error() is None,
    decreases block, 0nat,
{
    match block {
        BlockView::Section { title, body } => {
            lemma_error_free_has_no_source_error(*title);
            lemma_error_free_has_no_source_error(*body);
        },
        BlockView::Flow(children) => lemma_error_free_have_no_source_error(
            children,
            children.len(),
        ),
        BlockView::Paragraphs(children) => lemma_error_free_have_no_source_error(
            children,
            children.len(),
        ),
        BlockView::BulletList(items) => lemma_error_free_have_no_source_error(items, items.len()),
        BlockView::OrderedList(items) => lemma_error_free_have_no_source_error(
            items,
            items.len(),
        ),
        _ => {},
    }
}

/// Trees without errors hold no error of their source.
pub proof fn lemma_error_free_have_no_source_error<S: Source>(blocks: Seq<BlockView<S>>, n: nat)
    requires
        crate::blocks::all_error_free(blocks),
        n <= blocks.len(),
    ensures
        first_source_error(blocks, n) is None,
    decreases blocks, n + 1,
{
    if n > 0 {
        lemma_error_free_have_no_source_error(blocks, (n - 1) as nat);
        assert(blocks[n - 1].error_free());
        lemma_error_free_has_no_source_error(blocks[n - 1]);
    }
}

impl<S: Source> Block<S> {
    /// Takes the tree for one that was built in memory, or returns the first
    /// error of the source that it holds, in reading order.
    pub fn into_pure(self) -> (r: Result<Block<Pure>, S::Error>)
        ensures
            match r {
                Ok(block) => self@.source_error() is None && block@ == self@.purified(),
                Err(error) => self@.source_error() == Some(error),
            },
        decreases self, 0nat,
    {
        match self {
            Block::Error(error) => match error {
                Error::BlockLayer(error) => Ok(Block::Error(Error::BlockLayer(error))),
                Error::LowerLayer(error) => Err(error),
            },
            Block::Empty => Ok(Block::Empty),
            Block::Text(text) => Ok(Block::Text(text)),
            Block::Section { title, body } => {
                let title = match (*title).into_pure() {
                    Ok(title) => title,
                    Err(error) => {
                        return Err(error);
                    },
                };
                let body = match (*body).into_pure() {
                    Ok(body) => body,
                    Err(error) => {
                        return Err(error);
                    },
                };
                Ok(Block::Section { title: Box::new(title), body: Box::new(body) })
            },
            Block::Flow(children) => {
                proof {
                    lemma_models(children);
                }
                match Self::all_into_pure(children) {
                    Ok(children) => {
                        proof {
                            lemma_models(children);
                        }
                        Ok(Block::Flow(children))
                    },
                    Err(error) => Err(error),
                }
            },
            Block::Paragraphs(children) => {
                proof {
                    lemma_models(children);
                }
                match Self::all_into_pure(children) {
                    Ok(children) => {
                        proof {
                            lemma_models(children);
                        }
                        Ok(Block::Paragraphs(children))
                    },
                    Err(error) => Err(error),
                }
            },
            Block::BulletList(items) => {
                proof {
                    lemma_models(items);
                }
                match Self::all_into_pure(items) {
                    Ok(items) => {
                        proof {
                            lemma_models(items);
                        }
                        Ok(Block::BulletList(items))
                    },
                    Err(error) => Err(error),
                }
            },
            Block::OrderedList(items) => {
                proof {
                    lemma_models(items);
                }
                match Self::all_into_pure(items) {
                    Ok(items) => {
                        proof {
                            lemma_models(items);
                        }
                        Ok(Block::OrderedList(items))
                    },
                    Err(error) => Err(error),
                }
            },
        }
    }

    /// Takes each of `blocks` for a tree that was built in memory, or
    /// returns the first error of the source that they hold.
    fn all_into_pure(blocks: Vec<Block<S>>) -> (r: Result<Vec<Block<Pure>>, S::Error>)
        ensures
            match r {
                Ok(pure) => {
                    &&& first_source_error(block_views(blocks@), blocks@.len()) is None
                    &&& block_views(pure@) == purified_all(block_views(blocks@))
                },
                Err(error) => first_source_error(block_views(blocks@), blocks@.len()) == Some(
                    error,
                ),
            },
        decreases blocks, 1nat,
    {
        let ghost views = block_views(blocks@);
        let mut rest = blocks;
        let mut pure: Vec<Block<Pure>> = Vec::new();
        let mut i: usize = 0;
        while i < rest.len()
            invariant
                i <= rest@.len(),
                rest@.len() == blocks@.len(),
                views == block_views(blocks@),
                forall|j: int| i <= j < rest@.len() ==> rest@[j] == blocks@[j],
                first_source_error(views, i as nat) is None,
                pure@.len() == i,
                forall|j: int| 0 <= j < i ==> pure@[j]@ == views[j].purified(),
            decreases rest.len() - i,
        {
            let child = take_at(&mut rest, i);
            assert(child == blocks@[i as int]);
            match child.into_pure() {
                Ok(child) => {
                    pure.push(child);
                },
                Err(error) => {
                    proof {
                        lemma_first_source_error_stays(views, (i + 1) as nat, blocks@.len());
                    }
                    return Err(error);
                },
            }
            i += 1;
        }
        assert(block_views(pure@) =~= purified_all(views));
        Ok(pure)
    }
}

/// Once the first `n` trees hold an error of the source, looking at more
/// trees finds the same error.
pub proof fn lemma_first_source_error_stays<S: Source>(
    blocks: Seq<BlockView<S>>,
    n: nat,
    m: nat,
)
    requires
        n <= m <= blocks.len(),
        first_source_error(blocks, n) is Some,
    ensures
        first_source_error(blocks, m) == first_source_error(blocks, n),
    decreases m,
{
    if n < m {
        lemma_first_source_error_stays(blocks, n, (m - 1) as nat);
    }
}

} // verus!
