//! Documents: a block tree behind a header.
//!
//! A stored document starts with one word that holds the six magic bytes
//! `SemDoc` and the version of the format as a big-endian number of two
//! bytes. The atoms of the root block follow.

use crate::atoms::{extend_with, AtomView};
use crate::blocks::pure::{lemma_error_free_has_no_source_error, lemma_purified_pure};
use crate::blocks::{lemma_all_error_free, Block, BlockView};
use crate::memory::{
    atoms_bytes, lemma_atoms_bytes_are_words, lemma_parse_encoded, parsed_molecule, Memory,
    MemoryMolecule,
};
use crate::molecule::{
    all_encodable, atom_views, lemma_atoms_are_encodable, lemma_recast_block,
    recast_all, MoleculeView,
};
use crate::source::{Pure, Source};
use crate::utils::{
    be_bytes, be_value, lemma_be_bytes_len, lemma_be_value_of_bytes, lemma_radix_values,
    push_be_bytes, CloneFromSlice,
};
use vstd::prelude::*;
use vstd::slice::slice_subrange;
use vstd::utf8::{encode_utf8, encode_utf8_decode_utf8, encode_utf8_valid_utf8};

verus! {

/// The version of the format that this library reads and writes.
pub const VERSION: u16 = 0;

/// The bytes that every stored document starts with: `SemDoc` in ASCII.
pub open spec fn magic_bytes() -> Seq<u8> {
    seq![0x53u8, 0x65u8, 0x6du8, 0x44u8, 0x6fu8, 0x63u8]
}

/// The first word of every stored document.
pub open spec fn header() -> Seq<u8> {
    magic_bytes() + be_bytes(VERSION as nat, 2)
}

/// A document.
#[derive(Debug, PartialEq, Eq)]
pub struct SemDoc<S: Source> {
    /// The root of the document.
    pub block: Block<S>,
}

impl<S: Source> View for SemDoc<S> {
    type V = BlockView<S>;

    open spec fn view(&self) -> BlockView<S> {
        self.block@
    }
}

/// Why bytes are not a stored document.
#[derive(Debug, Clone, Copy, PartialEq, Eq)]
pub enum SemDocError {
    /// The bytes end before the header does.
    UnexpectedEnd,
    /// The bytes do not start with the magic bytes.
    MagicBytesInvalid,
    /// The document is of a version that this library does not read.
    UnknownVersion,
}

/// The bytes that a document with the root `block` is stored as.
pub open spec fn encode_document<S: Source>(block: BlockView<S>) -> Seq<u8> {
    header() + block.to_molecule().to_bytes()
}

/// The root block of the document that `bytes` store, or the reason why
/// they store none.
pub open spec fn decode_document(bytes: Seq<u8>) -> Result<BlockView<Memory>, SemDocError> {
    if bytes.len() < 8 {
        Err(SemDocError::UnexpectedEnd)
    } else if bytes.subrange(0, 6) != magic_bytes() {
        Err(SemDocError::MagicBytesInvalid)
    } else if be_value(bytes.subrange(6, 8)) != VERSION {
        Err(SemDocError::UnknownVersion)
    } else {
        Ok(BlockView::from_molecule(parsed_molecule(bytes.skip(8))))
    }
}

impl<S: Source> SemDoc<S> {
    /// A document with the root `block`.
    pub fn new(block: Block<S>) -> (r: Self)
        ensures
            r.block == block,
    {
        Self { block }
    }

    /// Stores the document.
    pub fn to_bytes(&self) -> (r: Vec<u8>)
        requires
            self@.encodable(),
        ensures
            r@ == encode_document(self@),
    {
        let mut bytes: Vec<u8> = Vec::new();
        bytes.push(0x53);
        bytes.push(0x65);
        bytes.push(0x6d);
        bytes.push(0x44);
        bytes.push(0x6f);
        bytes.push(0x63);
        push_be_bytes(&mut bytes, VERSION as u64, 2);
        assert(bytes@ =~= header());
        let molecule = self.block.to_molecule();
        proof {
            lemma_atoms_are_encodable(molecule@);
        }
        let atoms = molecule.to_atoms();
        let ghost views = atom_views(atoms@);
        let mut i: usize = 0;
        assert(views.take(0) =~= Seq::<AtomView>::empty());
        while i < atoms.len()
            invariant
                i <= atoms@.len(),
                views == atom_views(atoms@),
                all_encodable(views),
                bytes@ == header() + atoms_bytes(views.take(i as int)),
            decreases atoms.len() - i,
        {
            assert(atoms@[i as int]@ == views[i as int]);
            let atom_bytes = atoms[i].to_bytes();
            extend_with(&mut bytes, atom_bytes.as_slice());
            i += 1;
            proof {
                assert(views.take(i as int).drop_last() =~= views.take(i - 1));
                assert(bytes@ =~= header() + atoms_bytes(views.take(i as int)));
            }
        }
        assert(views.take(i as int) =~= views);
        bytes
    }

    /// Stores the document if it can be stored: if it holds no error, and
    /// the bytes of each of its texts fit the length field of an atom.
    pub fn try_to_bytes(&self) -> (r: Option<Vec<u8>>)
        ensures
            match r {
                Some(bytes) => self@.encodable() && bytes@ == encode_document(self@),
                None => !self@.encodable(),
            },
    {
        if self.block.is_encodable() {
            Some(self.to_bytes())
        } else {
            None
        }
    }

    /// Takes the document for one that was built in memory, or returns the
    /// first error of the source that it holds, in reading order.
    pub fn without_source_errors(self) -> (r: Result<SemDoc<Pure>, S::Error>)
        ensures
            match r {
                Ok(doc) => self@.source_error() is None && doc@ == self@.purified(),
                Err(error) => self@.source_error() == Some(error),
            },
    {
        match self.block.into_pure() {
            Ok(block) => Ok(SemDoc { block }),
            Err(error) => Err(error),
        }
    }
}

impl<S: Source> Clone for SemDoc<S> {
    fn clone(&self) -> (r: Self)
        ensures
            r@ == self@,
    {
        SemDoc { block: self.block.duplicate() }
    }
}

impl SemDoc<Memory> {
    /// Reads the document that `bytes` store.
    ///
    /// Only a header that cannot be read is an error. Whatever else cannot
    /// be read becomes an error block in the place where it stands.
    pub fn from_bytes(bytes: &[u8]) -> (r: Result<Self, SemDocError>)
        ensures
            match r {
                Ok(doc) => decode_document(bytes@) == Ok::<BlockView<Memory>, SemDocError>(doc@),
                Err(error) => decode_document(bytes@) == Err::<BlockView<Memory>, SemDocError>(
                    error,
                ),
            },
    {
        if bytes.len() < 8 {
            return Err(SemDocError::UnexpectedEnd);
        }
        if !(bytes[0] == 0x53 && bytes[1] == 0x65 && bytes[2] == 0x6d && bytes[3] == 0x44
            && bytes[4] == 0x6f && bytes[5] == 0x63) {
            assert(bytes@.subrange(0, 6) != magic_bytes()) by {
                if bytes@.subrange(0, 6) == magic_bytes() {
                    assert(bytes@.subrange(0, 6)[0] == magic_bytes()[0]);
                    assert(bytes@.subrange(0, 6)[1] == magic_bytes()[1]);
                    assert(bytes@.subrange(0, 6)[2] == magic_bytes()[2]);
                    assert(bytes@.subrange(0, 6)[3] == magic_bytes()[3]);
                    assert(bytes@.subrange(0, 6)[4] == magic_bytes()[4]);
                    assert(bytes@.subrange(0, 6)[5] == magic_bytes()[5]);
                }
            }
            return Err(SemDocError::MagicBytesInvalid);
        }
        assert(bytes@.subrange(0, 6) =~= magic_bytes());
        let version: u64 = u64::clone_from_slice(slice_subrange(bytes, 6, 8));
        if version != VERSION as u64 {
            return Err(SemDocError::UnknownVersion);
        }
        let rest = slice_subrange(bytes, 8, bytes.len());
        assert(rest@ =~= bytes@.skip(8));
        let molecule = MemoryMolecule::from(rest);
        let block = Block::from(&molecule);
        Ok(SemDoc { block })
    }
}

/// Bytes that do not start with the magic bytes are no document, however
/// many words of them there are.
pub proof fn lemma_wrong_magic_is_rejected(bytes: Seq<u8>)
    requires
        bytes.len() >= 8,
        bytes.subrange(0, 6) != magic_bytes(),
    ensures
        decode_document(bytes) == Err::<BlockView<Memory>, SemDocError>(
            SemDocError::MagicBytesInvalid,
        ),
{
}

/// A stored document is a whole number of words.
pub proof fn lemma_document_is_words<S: Source>(block: BlockView<S>)
    ensures
        encode_document(block).len() % 8 == 0,
{
    lemma_be_bytes_len(VERSION as nat, 2);
    lemma_atoms_bytes_are_words(block.to_molecule().to_atoms());
}

/// Storing a block as a molecule and reading the molecule back gives the
/// same document, whatever the sources of the two trees are.
pub proof fn lemma_block_of_molecule<S: Source, T: Source>(block: BlockView<S>)
    requires
        block.error_free(),
    ensures
        BlockView::<T>::from_molecule(block.to_molecule().recast::<T>()).error_free(),
        BlockView::<T>::from_molecule(block.to_molecule().recast::<T>()).purified()
            == block.purified(),
    decreases block, 0nat,
{
    let molecule = block.to_molecule();
    let read = BlockView::<T>::from_molecule(molecule.recast::<T>());
    match block {
        BlockView::Error(_) => {},
        BlockView::Empty => {
            lemma_recast_block::<S, T>(molecule->kind, molecule->children);
        },
        BlockView::Text(text) => {
            lemma_recast_block::<S, T>(molecule->kind, molecule->children);
            let stored = encode_utf8(text);
            assert(recast_all::<S, T>(molecule->children)[0] == MoleculeView::<T>::Bytes(stored));
            encode_utf8_valid_utf8(text);
            encode_utf8_decode_utf8(text);
        },
        BlockView::Section { title, body } => {
            lemma_recast_block::<S, T>(molecule->kind, molecule->children);
            let children = recast_all::<S, T>(molecule->children);
            assert(children[0] == title.to_molecule().recast::<T>());
            assert(children[1] == body.to_molecule().recast::<T>());
            lemma_block_of_molecule::<S, T>(*title);
            lemma_block_of_molecule::<S, T>(*body);
        },
        BlockView::Flow(children) => {
            lemma_recast_block::<S, T>(molecule->kind, molecule->children);
            lemma_blocks_of_molecules::<S, T>(children);
        },
        BlockView::Paragraphs(children) => {
            lemma_recast_block::<S, T>(molecule->kind, molecule->children);
            lemma_blocks_of_molecules::<S, T>(children);
        },
        BlockView::BulletList(items) => {
            lemma_recast_block::<S, T>(molecule->kind, molecule->children);
            lemma_blocks_of_molecules::<S, T>(items);
        },
        BlockView::OrderedList(items) => {
            lemma_recast_block::<S, T>(molecule->kind, molecule->children);
            lemma_blocks_of_molecules::<S, T>(items);
        },
    }
}

/// Storing blocks as molecules and reading the molecules back gives the same
/// documents.
pub proof fn lemma_blocks_of_molecules<S: Source, T: Source>(blocks: Seq<BlockView<S>>)
    requires
        crate::blocks::all_error_free(blocks),
    ensures
        crate::blocks::all_error_free(
            crate::blocks::from_molecules(
                recast_all::<S, T>(crate::blocks::to_molecules(blocks)),
            ),
        ),
        crate::blocks::pure::purified_all(
            crate::blocks::from_molecules(
                recast_all::<S, T>(crate::blocks::to_molecules(blocks)),
            ),
        ) == crate::blocks::pure::purified_all(blocks),
    decreases blocks, 1nat,
{
    let read = crate::blocks::from_molecules(
        recast_all::<S, T>(crate::blocks::to_molecules(blocks)),
    );
    assert forall|i: int| 0 <= i < blocks.len() implies (#[trigger] read[i]).error_free()
        && read[i].purified() == blocks[i].purified() by {
        lemma_all_error_free(blocks, i);
        lemma_block_of_molecule::<S, T>(blocks[i]);
    }
    assert(crate::blocks::pure::purified_all(read) =~= crate::blocks::pure::purified_all(blocks));
}

/// Reading a stored document gives the document that was stored: the tree
/// that is read holds no error, and is the same tree as the one that was
/// stored once both are taken for trees that were built in memory.
pub proof fn lemma_round_trip<S: Source>(block: BlockView<S>)
    requires
        block.encodable(),
    ensures
        decode_document(encode_document(block)) is Ok,
        decode_document(encode_document(block))->Ok_0.error_free(),
        decode_document(encode_document(block))->Ok_0.source_error() is None,
        decode_document(encode_document(block))->Ok_0.purified() == block.purified(),
{
    let molecule = block.to_molecule();
    let stored = molecule.to_bytes();
    let bytes = encode_document(block);
    lemma_be_bytes_len(VERSION as nat, 2);
    lemma_radix_values();
    lemma_be_value_of_bytes(VERSION as nat, 2);
    assert(bytes.subrange(0, 6) =~= magic_bytes());
    assert(bytes.subrange(6, 8) =~= be_bytes(VERSION as nat, 2));
    assert(bytes.skip(8) =~= stored + Seq::<u8>::empty());
    lemma_parse_encoded(molecule, Seq::empty());
    assert(parsed_molecule(bytes.skip(8)) == molecule.recast::<Memory>());
    lemma_block_of_molecule::<S, Memory>(block);
    lemma_error_free_has_no_source_error(decode_document(bytes)->Ok_0);
}

/// Reading a stored document that was built in memory gives that document.
pub proof fn lemma_round_trip_pure(block: BlockView<Pure>)
    requires
        block.encodable(),
    ensures
        decode_document(encode_document(block)) is Ok,
        decode_document(encode_document(block))->Ok_0.source_error() is None,
        decode_document(encode_document(block))->Ok_0.purified() == block,
{
    lemma_round_trip(block);
    lemma_purified_pure(block);
}

} // verus!
