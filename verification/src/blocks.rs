//! Blocks: the typed document tree.
//!
//! A block is stored as a molecule whose kind tells which block it is:
//!
//! | kind | block         | children of the molecule            |
//! |------|---------------|-------------------------------------|
//! | 0    | `Empty`       | none                                |
//! | 1    | `Text`        | one leaf that holds the UTF-8 bytes |
//! | 2    | `Section`     | the title, then the body            |
//! | 3    | `Flow`        | the children in order               |
//! | 4    | `Paragraphs`  | the children in order               |
//! | 5    | `BulletList`  | the items in order                  |
//! | 6    | `OrderedList` | the items in order                  |

pub mod kinds;
pub mod pure;
pub mod simplify;

use crate::atoms::MAX_VALUE_USING_7_BYTES;
use crate::molecule::{
    children_encodable, children_error_free, lemma_children_all_encodable,
    lemma_children_encodable, molecule_views, Molecule, MoleculeView,
};
use crate::source::Source;
use std::string::FromUtf8Error;
use vstd::pervasive::unreached;
use vstd::prelude::*;
use vstd::slice::slice_to_vec;
use vstd::string::StrSliceExecFns;
use vstd::utf8::{decode_utf8, encode_utf8, encode_utf8_decode_utf8, valid_utf8};

verus! {

/// Why a molecule is not a block.
#[derive(Debug, Clone, Copy, PartialEq, Eq)]
pub enum BlockError {
    /// A leaf stands where a node is needed.
    ExpectedBlock,
    /// A node stands where a leaf is needed.
    ExpectedBytes,
    /// No block has the node's kind.
    UnknownKind,
    /// The bytes of a text are not UTF-8.
    InvalidUtf8Encoding,
    /// The node has fewer children than its kind needs.
    TooFewMolecules,
}

/// What stands in the place of a block that could not be read.
#[derive(Debug, PartialEq, Eq)]
pub enum Error<S: Source> {
    /// The molecule was read, but is not a block.
    BlockLayer(BlockError),
    /// The molecule itself could not be read from its source.
    LowerLayer(S::Error),
}

/// A node of a document.
#[derive(Debug, PartialEq, Eq)]
pub enum Block<S: Source> {
    /// The place of a block that could not be read.
    Error(Error<S>),
    /// The absence of content.
    Empty,
    /// A text.
    Text(String),
    /// A body with a title.
    Section { title: Box<Block<S>>, body: Box<Block<S>> },
    /// Blocks that follow each other without a break.
    Flow(Vec<Block<S>>),
    /// Blocks that follow each other with a break between them.
    Paragraphs(Vec<Block<S>>),
    /// Blocks as the items of a bullet list.
    BulletList(Vec<Block<S>>),
    /// Blocks as the items of a numbered list.
    OrderedList(Vec<Block<S>>),
}

/// What a [`Block`] holds, as mathematical values.
pub enum BlockView<S: Source> {
    Error(Error<S>),
    Empty,
    Text(Seq<char>),
    Section { title: Box<BlockView<S>>, body: Box<BlockView<S>> },
    Flow(Seq<BlockView<S>>),
    Paragraphs(Seq<BlockView<S>>),
    BulletList(Seq<BlockView<S>>),
    OrderedList(Seq<BlockView<S>>),
}

impl<S: Source> Block<S> {
    /// The tree as mathematical values.
    pub open spec fn model(self) -> BlockView<S>
        decreases self, 0nat,
    {
        match self {
            Block::Error(error) => BlockView::Error(error),
            Block::Empty => BlockView::Empty,
            Block::Text(text) => BlockView::Text(text@),
            Block::Section { title, body } => BlockView::Section {
                title: Box::new(title.model()),
                body: Box::new(body.model()),
            },
            Block::Flow(children) => BlockView::Flow(Self::models(children)),
            Block::Paragraphs(children) => BlockView::Paragraphs(Self::models(children)),
            Block::BulletList(items) => BlockView::BulletList(Self::models(items)),
            Block::OrderedList(items) => BlockView::OrderedList(Self::models(items)),
        }
    }

    /// The trees of `blocks` as mathematical values.
    pub open spec fn models(blocks: Vec<Block<S>>) -> Seq<BlockView<S>>
        decreases blocks, 1nat,
    {
        Seq::new(
            blocks@.len(),
            |i: int|
                if 0 <= i < blocks@.len() {
                    blocks@[i].model()
                } else {
                    BlockView::Empty
                },
        )
    }
}

impl<S: Source> View for Block<S> {
    type V = BlockView<S>;

    open spec fn view(&self) -> BlockView<S> {
        self.model()
    }
}

/// The views of a sequence of blocks.
pub open spec fn block_views<S: Source>(blocks: Seq<Block<S>>) -> Seq<BlockView<S>> {
    Seq::new(blocks.len(), |i: int| blocks[i]@)
}

/// The molecules of `blocks`, in order.
pub open spec fn to_molecules<S: Source>(blocks: Seq<BlockView<S>>) -> Seq<MoleculeView<S>>
    decreases blocks, 1nat,
{
    Seq::new(
        blocks.len(),
        |i: int|
            if 0 <= i < blocks.len() {
                blocks[i].to_molecule()
            } else {
                MoleculeView::Bytes(Seq::empty())
            },
    )
}

/// The blocks of `molecules`, in order.
pub open spec fn from_molecules<S: Source>(molecules: Seq<MoleculeView<S>>) -> Seq<BlockView<S>>
    decreases molecules, 1nat,
{
    Seq::new(
        molecules.len(),
        |i: int|
            if 0 <= i < molecules.len() {
                BlockView::from_molecule(molecules[i])
            } else {
                BlockView::Empty
            },
    )
}

/// Whether none of `blocks` holds an error.
pub open spec fn all_error_free<S: Source>(blocks: Seq<BlockView<S>>) -> bool
    decreases blocks, 1nat,
{
    forall|i: int| 0 <= i < blocks.len() ==> (#[trigger] blocks[i]).error_free()
}

impl<S: Source> BlockView<S> {
    /// Whether the tree holds no error of either layer.
    pub open spec fn error_free(self) -> bool
        decreases self, 0nat,
    {
        match self {
            BlockView::Error(_) => false,
            BlockView::Empty => true,
            BlockView::Text(_) => true,
            BlockView::Section { title, body } => title.error_free() && body.error_free(),
            BlockView::Flow(children) => all_error_free(children),
            BlockView::Paragraphs(children) => all_error_free(children),
            BlockView::BulletList(items) => all_error_free(items),
            BlockView::OrderedList(items) => all_error_free(items),
        }
    }

    /// The molecule that the block is stored as. Where the tree holds an
    /// error, the result is not specified.
    pub open spec fn to_molecule(self) -> MoleculeView<S>
        decreases self, 0nat,
    {
        match self {
            BlockView::Error(_) => arbitrary(),
            BlockView::Empty => MoleculeView::Block { kind: kinds::EMPTY, children: Seq::empty() },
            BlockView::Text(text) => MoleculeView::Block {
                kind: kinds::TEXT,
                children: seq![MoleculeView::Bytes(encode_utf8(text))],
            },
            BlockView::Section { title, body } => MoleculeView::Block {
                kind: kinds::SECTION,
                children: seq![title.to_molecule(), body.to_molecule()],
            },
            BlockView::Flow(children) => MoleculeView::Block {
                kind: kinds::FLOW,
                children: to_molecules(children),
            },
            BlockView::Paragraphs(children) => MoleculeView::Block {
                kind: kinds::PARAGRAPHS,
                children: to_molecules(children),
            },
            BlockView::BulletList(items) => MoleculeView::Block {
                kind: kinds::BULLET_LIST,
                children: to_molecules(items),
            },
            BlockView::OrderedList(items) => MoleculeView::Block {
                kind: kinds::ORDERED_LIST,
                children: to_molecules(items),
            },
        }
    }

    /// Whether the block can be stored: it holds no error, and its molecule
    /// fits the fields of the wire format.
    pub open spec fn encodable(self) -> bool {
        self.error_free() && self.to_molecule().encodable()
    }

    /// The block that a node of `kind` with `children` stands for, or the
    /// reason why it stands for none.
    pub open spec fn try_from(kind: u64, children: Seq<MoleculeView<S>>) -> Result<
        BlockView<S>,
        BlockError,
    >
        decreases children, 2nat,
    {
        if kind == kinds::EMPTY {
            Ok(BlockView::Empty)
        } else if kind == kinds::TEXT {
            if children.len() < 1 {
                Err(BlockError::TooFewMolecules)
            } else {
                match children[0] {
                    MoleculeView::Bytes(bytes) => if valid_utf8(bytes) {
                        Ok(BlockView::Text(decode_utf8(bytes)))
                    } else {
                        Err(BlockError::InvalidUtf8Encoding)
                    },
                    _ => Err(BlockError::ExpectedBytes),
                }
            }
        } else if kind == kinds::SECTION {
            if children.len() < 2 {
                Err(BlockError::TooFewMolecules)
            } else {
                Ok(
                    BlockView::Section {
                        title: Box::new(Self::from_molecule(children[0])),
                        body: Box::new(Self::from_molecule(children[1])),
                    },
                )
            }
        } else if kind == kinds::FLOW {
            Ok(BlockView::Flow(from_molecules(children)))
        } else if kind == kinds::PARAGRAPHS {
            Ok(BlockView::Paragraphs(from_molecules(children)))
        } else if kind == kinds::BULLET_LIST {
            Ok(BlockView::BulletList(from_molecules(children)))
        } else if kind == kinds::ORDERED_LIST {
            Ok(BlockView::OrderedList(from_molecules(children)))
        } else {
            Err(BlockError::UnknownKind)
        }
    }

    /// The block that `molecule` stands for. Where it stands for none, the
    /// result is an error that tells which layer failed, and why.
    pub open spec fn from_molecule(molecule: MoleculeView<S>) -> BlockView<S>
        decreases molecule, 0nat,
    {
        match molecule {
            MoleculeView::Bytes(_) => BlockView::Error(
                Error::BlockLayer(BlockError::ExpectedBlock),
            ),
            MoleculeView::Error(error) => BlockView::Error(Error::LowerLayer(error)),
            MoleculeView::Block { kind, children } => match Self::try_from(kind, children) {
                Ok(block) => block,
                Err(error) => BlockView::Error(Error::BlockLayer(error)),
            },
        }
    }
}

/// The error of `String::from_utf8`.
#[verifier::external_type_specification]
#[verifier::external_body]
pub struct ExFromUtf8Error(FromUtf8Error);

/// `String::from_utf8` of the standard library: it succeeds exactly where
/// `bytes` are well-formed UTF-8, and the text that it returns is then stored
/// as these bytes.
#[verifier::external_body]
fn string_from_utf8(bytes: Vec<u8>) -> (r: Result<String, FromUtf8Error>)
    ensures
        r is Ok <==> valid_utf8(bytes@),
        r matches Ok(text) ==> encode_utf8(text@) == bytes@,
{
    String::from_utf8(bytes)
}

/// The views of the blocks of a vector.
pub proof fn lemma_models<S: Source>(blocks: Vec<Block<S>>)
    ensures
        Block::models(blocks) == block_views(blocks@),
{
    assert(Block::models(blocks) =~= block_views(blocks@));
}

/// The molecule of a block without errors holds no error.
pub proof fn lemma_molecule_is_error_free<S: Source>(block: BlockView<S>)
    requires
        block.error_free(),
    ensures
        block.to_molecule().error_free(),
    decreases block, 0nat,
{
    match block {
        BlockView::Error(_) => {},
        BlockView::Empty => {},
        BlockView::Text(text) => {
            let children = seq![MoleculeView::<S>::Bytes(encode_utf8(text))];
            assert(children[0].error_free());
            lemma_molecules_are_error_free_from(children, 1);
        },
        BlockView::Section { title, body } => {
            lemma_molecule_is_error_free(*title);
            lemma_molecule_is_error_free(*body);
            let children = seq![title.to_molecule(), body.to_molecule()];
            assert(children[0].error_free());
            assert(children[1].error_free());
            lemma_molecules_are_error_free_from(children, 2);
        },
        BlockView::Flow(children) => lemma_molecules_are_error_free(children),
        BlockView::Paragraphs(children) => lemma_molecules_are_error_free(children),
        BlockView::BulletList(items) => lemma_molecules_are_error_free(items),
        BlockView::OrderedList(items) => lemma_molecules_are_error_free(items),
    }
}

/// The molecules of blocks without errors hold no error.
pub proof fn lemma_molecules_are_error_free<S: Source>(blocks: Seq<BlockView<S>>)
    requires
        all_error_free(blocks),
    ensures
        children_error_free(to_molecules(blocks), blocks.len()),
    decreases blocks, 1nat,
{
    let molecules = to_molecules(blocks);
    assert forall|i: int| 0 <= i < blocks.len() implies (#[trigger] molecules[i]).error_free() by {
        assert(blocks[i].error_free());
        lemma_molecule_is_error_free(blocks[i]);
    }
    lemma_molecules_are_error_free_from(molecules, blocks.len());
}

/// A run of molecules holds no error if none of the first `n` does.
proof fn lemma_molecules_are_error_free_from<S: Source>(molecules: Seq<MoleculeView<S>>, n: nat)
    requires
        n <= molecules.len(),
        forall|i: int| 0 <= i < n ==> (#[trigger] molecules[i]).error_free(),
    ensures
        children_error_free(molecules, n),
    decreases n,
{
    if n > 0 {
        lemma_molecules_are_error_free_from(molecules, (n - 1) as nat);
    }
}

/// Whether each of `blocks` can be stored.
pub open spec fn all_encodable<S: Source>(blocks: Seq<BlockView<S>>) -> bool {
    forall|i: int| 0 <= i < blocks.len() ==> (#[trigger] blocks[i]).encodable()
}

/// Whether a block can be stored, told from its parts.
pub open spec fn encodable_parts<S: Source>(block: BlockView<S>) -> bool {
    match block {
        BlockView::Error(_) => false,
        BlockView::Empty => true,
        BlockView::Text(text) => encode_utf8(text).len() <= MAX_VALUE_USING_7_BYTES,
        BlockView::Section { title, body } => title.encodable() && body.encodable(),
        BlockView::Flow(children) => children.len() <= u64::MAX && all_encodable(children),
        BlockView::Paragraphs(children) => children.len() <= u64::MAX && all_encodable(children),
        BlockView::BulletList(items) => items.len() <= u64::MAX && all_encodable(items),
        BlockView::OrderedList(items) => items.len() <= u64::MAX && all_encodable(items),
    }
}

/// A block can be stored where it holds no error, the bytes of each text
/// fit the length field of an atom, and so does each number of children.
pub proof fn lemma_encodable<S: Source>(block: BlockView<S>)
    ensures
        block.encodable() == encodable_parts(block),
{
    match block {
        BlockView::Error(_) => {},
        BlockView::Empty => {},
        BlockView::Text(text) => {
            let children = seq![MoleculeView::<S>::Bytes(encode_utf8(text))];
            if children[0].encodable() {
                assert forall|i: int| 0 <= i < 1 implies (#[trigger] children[i]).encodable() by {}
                lemma_children_all_encodable(children, 1);
            }
            if children_encodable(children, 1) {
                lemma_children_encodable(children, 1, 0);
            }
        },
        BlockView::Section { title, body } => {
            let children = seq![title.to_molecule(), body.to_molecule()];
            if title.to_molecule().encodable() && body.to_molecule().encodable() {
                assert forall|i: int| 0 <= i < 2 implies (#[trigger] children[i]).encodable() by {}
                lemma_children_all_encodable(children, 2);
            }
            if children_encodable(children, 2) {
                lemma_children_encodable(children, 2, 0);
                lemma_children_encodable(children, 2, 1);
            }
        },
        BlockView::Flow(children) => lemma_encodable_children(children),
        BlockView::Paragraphs(children) => lemma_encodable_children(children),
        BlockView::BulletList(items) => lemma_encodable_children(items),
        BlockView::OrderedList(items) => lemma_encodable_children(items),
    }
}

/// Blocks can be stored where they hold no error and their molecules can be
/// stored.
pub proof fn lemma_encodable_children<S: Source>(blocks: Seq<BlockView<S>>)
    ensures
        all_encodable(blocks) == (all_error_free(blocks) && children_encodable(
            to_molecules(blocks),
            blocks.len(),
        )),
{
    let molecules = to_molecules(blocks);
    if all_encodable(blocks) {
        assert forall|i: int| 0 <= i < blocks.len() implies (#[trigger] blocks[i]).error_free() by {
            assert(blocks[i].encodable());
        }
        assert forall|i: int| 0 <= i < blocks.len() implies (#[trigger] molecules[i]).encodable() by {
            assert(blocks[i].encodable());
        }
        lemma_children_all_encodable(molecules, blocks.len());
    }
    if all_error_free(blocks) && children_encodable(molecules, blocks.len()) {
        assert forall|i: int| 0 <= i < blocks.len() implies (#[trigger] blocks[i]).encodable() by {
            lemma_children_encodable(molecules, blocks.len(), i);
            assert(blocks[i].error_free());
        }
    }
}

/// The block at `index` of an error-free run is error-free.
pub proof fn lemma_all_error_free<S: Source>(blocks: Seq<BlockView<S>>, index: int)
    requires
        all_error_free(blocks),
        0 <= index < blocks.len(),
    ensures
        blocks[index].error_free(),
{
}

/// Takes the block at `i` out of `blocks` and leaves an empty block in its
/// place.
pub(crate) fn take_at<S: Source>(blocks: &mut Vec<Block<S>>, i: usize) -> (r: Block<S>)
    requires
        i < old(blocks)@.len(),
    ensures
        r == old(blocks)@[i as int],
        final(blocks)@ == old(blocks)@.update(i as int, Block::Empty),
{
    let mut slot = Block::Empty;
    core::mem::swap(&mut blocks[i], &mut slot);
    slot
}

/// The molecule at `index`, if there are that many.
fn need_at<S: Source>(molecules: &Vec<Molecule<S>>, index: usize) -> (r: Result<
    &Molecule<S>,
    BlockError,
>)
    ensures
        match r {
            Ok(molecule) => index < molecules@.len() && *molecule == molecules@[index as int],
            Err(error) => index >= molecules@.len() && error == BlockError::TooFewMolecules,
        },
{
    if index < molecules.len() {
        Ok(&molecules[index])
    } else {
        Err(BlockError::TooFewMolecules)
    }
}

/// A copy of the bytes of `molecule`, if it is a leaf.
fn need_bytes<S: Source>(molecule: &Molecule<S>) -> (r: Result<Vec<u8>, BlockError>)
    ensures
        match r {
            Ok(bytes) => molecule@ == MoleculeView::<S>::Bytes(bytes@),
            Err(error) => !(molecule@ is Bytes) && error == BlockError::ExpectedBytes,
        },
{
    match molecule {
        Molecule::Bytes(bytes) => Ok(slice_to_vec(bytes.as_slice())),
        _ => Err(BlockError::ExpectedBytes),
    }
}

impl<S: Source> Error<S> {
    /// A copy of the error.
    pub fn duplicate(&self) -> (r: Self)
        ensures
            r == *self,
    {
        match self {
            Error::BlockLayer(error) => Error::BlockLayer(*error),
            Error::LowerLayer(error) => Error::LowerLayer(S::clone_error(error)),
        }
    }
}

impl<S: Source> Clone for Error<S> {
    fn clone(&self) -> (r: Self)
        ensures
            r == *self,
    {
        self.duplicate()
    }
}

impl<S: Source> Block<S> {
    /// Whether the block is [`Block::Empty`].
    pub fn is_empty(&self) -> (r: bool)
        ensures
            r == (self@ is Empty),
    {
        match self {
            Block::Empty => true,
            _ => false,
        }
    }

    /// Whether the tree holds no error of either layer.
    pub fn is_error_free(&self) -> (r: bool)
        ensures
            r == self@.error_free(),
        decreases self, 0nat,
    {
        match self {
            Block::Error(_) => false,
            Block::Empty => true,
            Block::Text(_) => true,
            Block::Section { title, body } => title.is_error_free() && body.is_error_free(),
            Block::Flow(children) => Self::are_error_free(children),
            Block::Paragraphs(children) => Self::are_error_free(children),
            Block::BulletList(items) => Self::are_error_free(items),
            Block::OrderedList(items) => Self::are_error_free(items),
        }
    }

    /// Whether none of `blocks` holds an error.
    fn are_error_free(blocks: &Vec<Block<S>>) -> (r: bool)
        ensures
            r == all_error_free(Self::models(*blocks)),
        decreases blocks, 1nat,
    {
        let mut i: usize = 0;
        while i < blocks.len()
            invariant
                i <= blocks@.len(),
                forall|j: int| 0 <= j < i ==> (#[trigger] Self::models(*blocks)[j]).error_free(),
            decreases blocks.len() - i,
        {
            if !blocks[i].is_error_free() {
                assert(!Self::models(*blocks)[i as int].error_free());
                return false;
            }
            i += 1;
        }
        true
    }

    /// Whether the block can be stored: it holds no error, and the bytes of
    /// each of its texts fit the length field of an atom.
    pub fn is_encodable(&self) -> (r: bool)
        ensures
            r == self@.encodable(),
        decreases self, 0nat,
    {
        proof {
            lemma_encodable(self@);
        }
        match self {
            Block::Error(_) => false,
            Block::Empty => true,
            Block::Text(text) => text.as_str().as_bytes().len() as u64
                <= MAX_VALUE_USING_7_BYTES,
            Block::Section { title, body } => title.is_encodable() && body.is_encodable(),
            Block::Flow(children) => Self::are_encodable(children),
            Block::Paragraphs(children) => Self::are_encodable(children),
            Block::BulletList(items) => Self::are_encodable(items),
            Block::OrderedList(items) => Self::are_encodable(items),
        }
    }

    /// Whether each of `blocks` can be stored.
    fn are_encodable(blocks: &Vec<Block<S>>) -> (r: bool)
        ensures
            r == all_encodable(Self::models(*blocks)),
            blocks@.len() <= u64::MAX,
        decreases blocks, 1nat,
    {
        let mut i: usize = 0;
        while i < blocks.len()
            invariant
                i <= blocks@.len(),
                forall|j: int| 0 <= j < i ==> (#[trigger] Self::models(*blocks)[j]).encodable(),
            decreases blocks.len() - i,
        {
            if !blocks[i].is_encodable() {
                assert(!Self::models(*blocks)[i as int].encodable());
                return false;
            }
            i += 1;
        }
        true
    }

    /// The molecule that the block is stored as. It holds no error.
    pub fn to_molecule(&self) -> (r: Molecule<S>)
        requires
            self@.error_free(),
        ensures
            r@ == self@.to_molecule(),
            r@.error_free(),
        decreases self, 0nat,
    {
        proof {
            lemma_molecule_is_error_free(self@);
        }
        match self {
            Block::Error(_) => unreached(),
            Block::Empty => {
                let children: Vec<Molecule<S>> = Vec::new();
                assert(molecule_views(children@) =~= Seq::empty());
                Molecule::block(kinds::EMPTY, children)
            },
            Block::Text(text) => {
                let leaf = Molecule::Bytes(text.as_str().as_bytes_vec());
                let mut children: Vec<Molecule<S>> = Vec::new();
                children.push(leaf);
                assert(molecule_views(children@) =~= seq![
                    MoleculeView::Bytes(encode_utf8(text@)),
                ]);
                Molecule::block(kinds::TEXT, children)
            },
            Block::Section { title, body } => {
                let title = title.to_molecule();
                let body = body.to_molecule();
                let mut children: Vec<Molecule<S>> = Vec::new();
                children.push(title);
                children.push(body);
                assert(molecule_views(children@) =~= seq![title@, body@]);
                Molecule::block(kinds::SECTION, children)
            },
            Block::Flow(children) => Molecule::block(kinds::FLOW, Self::into_molecules(children)),
            Block::Paragraphs(children) => Molecule::block(
                kinds::PARAGRAPHS,
                Self::into_molecules(children),
            ),
            Block::BulletList(items) => Molecule::block(
                kinds::BULLET_LIST,
                Self::into_molecules(items),
            ),
            Block::OrderedList(items) => Molecule::block(
                kinds::ORDERED_LIST,
                Self::into_molecules(items),
            ),
        }
    }

    /// The molecules that `blocks` are stored as, in order.
    fn into_molecules(blocks: &Vec<Block<S>>) -> (r: Vec<Molecule<S>>)
        requires
            all_error_free(Self::models(*blocks)),
        ensures
            molecule_views(r@) == to_molecules(Self::models(*blocks)),
        decreases blocks, 1nat,
    {
        let mut molecules: Vec<Molecule<S>> = Vec::new();
        let mut i: usize = 0;
        while i < blocks.len()
            invariant
                i <= blocks@.len(),
                all_error_free(Self::models(*blocks)),
                molecules@.len() == i,
                forall|j: int| 0 <= j < i ==> molecules@[j]@ == blocks@[j]@.to_molecule(),
            decreases blocks.len() - i,
        {
            proof {
                lemma_all_error_free(Self::models(*blocks), i as int);
            }
            molecules.push(blocks[i].to_molecule());
            i += 1;
        }
        assert(molecule_views(molecules@) =~= to_molecules(Self::models(*blocks)));
        molecules
    }

    /// The block that a node of `kind` with `children` stands for, or the
    /// reason why it stands for none.
    pub fn try_from(kind: u64, children: Vec<Molecule<S>>) -> (r: Result<Block<S>, BlockError>)
        ensures
            match r {
                Ok(block) => BlockView::try_from(kind, molecule_views(children@)) == Ok::<
                    BlockView<S>,
                    BlockError,
                >(block@),
                Err(error) => BlockView::try_from(kind, molecule_views(children@)) == Err::<
                    BlockView<S>,
                    BlockError,
                >(error),
            },
    {
        Self::try_from_parts(kind, &children)
    }

    /// The block that `molecule` stands for. Where it stands for none, the
    /// result is an error that tells which layer failed, and why.
    pub fn from(molecule: &Molecule<S>) -> (r: Block<S>)
        ensures
            r@ == BlockView::from_molecule(molecule@),
        decreases molecule, 0nat,
    {
        match molecule {
            Molecule::Bytes(_) => Block::Error(Error::BlockLayer(BlockError::ExpectedBlock)),
            Molecule::Error(error) => Block::Error(Error::LowerLayer(S::clone_error(error))),
            Molecule::Block { kind, children } => {
                proof {
                    crate::molecule::lemma_block_view(*kind, *children);
                }
                match Self::try_from_parts(*kind, children) {
                    Ok(block) => block,
                    Err(error) => Block::Error(Error::BlockLayer(error)),
                }
            },
        }
    }

    /// The block that a node of `kind` with `children` stands for.
    fn try_from_parts(kind: u64, children: &Vec<Molecule<S>>) -> (r: Result<Block<S>, BlockError>)
        ensures
            match r {
                Ok(block) => BlockView::try_from(kind, molecule_views(children@)) == Ok::<
                    BlockView<S>,
                    BlockError,
                >(block@),
                Err(error) => BlockView::try_from(kind, molecule_views(children@)) == Err::<
                    BlockView<S>,
                    BlockError,
                >(error),
            },
        decreases children, 2nat,
    {
        if kind == kinds::EMPTY {
            Ok(Block::Empty)
        } else if kind == kinds::TEXT {
            let first = match need_at(children, 0) {
                Ok(molecule) => molecule,
                Err(error) => {
                    return Err(error);
                },
            };
            let bytes = match need_bytes(first) {
                Ok(bytes) => bytes,
                Err(error) => {
                    return Err(error);
                },
            };
            let ghost stored = bytes@;
            match string_from_utf8(bytes) {
                Ok(text) => {
                    proof {
                        encode_utf8_decode_utf8(text@);
                    }
                    Ok(Block::Text(text))
                },
                Err(_) => Err(BlockError::InvalidUtf8Encoding),
            }
        } else if kind == kinds::SECTION {
            let title = match need_at(children, 0) {
                Ok(molecule) => Self::from(molecule),
                Err(error) => {
                    return Err(error);
                },
            };
            let body = match need_at(children, 1) {
                Ok(molecule) => Self::from(molecule),
                Err(error) => {
                    return Err(error);
                },
            };
            Ok(Block::Section { title: Box::new(title), body: Box::new(body) })
        } else if kind == kinds::FLOW {
            let blocks = Self::into_blocks(children);
            proof {
                lemma_models(blocks);
            }
            Ok(Block::Flow(blocks))
        } else if kind == kinds::PARAGRAPHS {
            let blocks = Self::into_blocks(children);
            proof {
                lemma_models(blocks);
            }
            Ok(Block::Paragraphs(blocks))
        } else if kind == kinds::BULLET_LIST {
            let blocks = Self::into_blocks(children);
            proof {
                lemma_models(blocks);
            }
            Ok(Block::BulletList(blocks))
        } else if kind == kinds::ORDERED_LIST {
            let blocks = Self::into_blocks(children);
            proof {
                lemma_models(blocks);
            }
            Ok(Block::OrderedList(blocks))
        } else {
            Err(BlockError::UnknownKind)
        }
    }

    /// The blocks that `molecules` stand for, in order.
    fn into_blocks(molecules: &Vec<Molecule<S>>) -> (r: Vec<Block<S>>)
        ensures
            block_views(r@) == from_molecules(molecule_views(molecules@)),
        decreases molecules, 1nat,
    {
        let mut blocks: Vec<Block<S>> = Vec::new();
        let mut i: usize = 0;
        while i < molecules.len()
            invariant
                i <= molecules@.len(),
                blocks@.len() == i,
                forall|j: int| 0 <= j < i ==> blocks@[j]@ == BlockView::from_molecule(molecules@[j]@),
            decreases molecules.len() - i,
        {
            blocks.push(Self::from(&molecules[i]));
            i += 1;
        }
        assert(block_views(blocks@) =~= from_molecules(molecule_views(molecules@)));
        blocks
    }

    /// A copy of the tree.
    pub fn duplicate(&self) -> (r: Self)
        ensures
            r@ == self@,
        decreases self, 0nat,
    {
        match self {
            Block::Error(error) => Block::Error(error.duplicate()),
            Block::Empty => Block::Empty,
            Block::Text(text) => Block::Text(text.clone()),
            Block::Section { title, body } => Block::Section {
                title: Box::new(title.duplicate()),
                body: Box::new(body.duplicate()),
            },
            Block::Flow(children) => Block::Flow(Self::duplicate_all(children)),
            Block::Paragraphs(children) => Block::Paragraphs(Self::duplicate_all(children)),
            Block::BulletList(items) => Block::BulletList(Self::duplicate_all(items)),
            Block::OrderedList(items) => Block::OrderedList(Self::duplicate_all(items)),
        }
    }

    /// A copy of each tree of `blocks`.
    fn duplicate_all(blocks: &Vec<Block<S>>) -> (copies: Vec<Block<S>>)
        ensures
            Self::models(copies) == Self::models(*blocks),
        decreases blocks, 1nat,
    {
        let mut copies: Vec<Block<S>> = Vec::new();
        let mut i: usize = 0;
        while i < blocks.len()
            invariant
                i <= blocks@.len(),
                copies@.len() == i,
                forall|j: int| 0 <= j < i ==> copies@[j]@ == blocks@[j]@,
            decreases blocks.len() - i,
        {
            copies.push(blocks[i].duplicate());
            i += 1;
        }
        assert(Self::models(copies) =~= Self::models(*blocks));
        copies
    }
}

impl<S: Source> Clone for Block<S> {
    fn clone(&self) -> (r: Self)
        ensures
            r@ == self@,
    {
        self.duplicate()
    }
}

} // verus!
