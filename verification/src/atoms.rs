//! Atoms: the word-aligned primitives that a document is stored as.
//!
//! Every atom starts with a tag byte and occupies a whole number of words.
//! All numbers are big-endian.
//!
//! | tag | atom         | layout                                                     |
//! |-----|--------------|------------------------------------------------------------|
//! | 0   | `Block`      | tag, one unused byte, 6-byte kind; 8-byte child count      |
//! | 1   | `SmallBlock` | tag, 1-byte child count, 6-byte kind                       |
//! | 2   | `Bytes`      | tag, 7-byte length; payload, zero padding                  |
//! | 3   | `FewBytes`   | tag, 1-byte length, payload (6 bytes inline), zero padding |
//! | 4   | `Reference`  | tag, 7-byte offset                                         |

use crate::utils::{
    aligned, be_bytes, be_value, lemma_aligned, lemma_be_bytes_len, lemma_be_value_bound,
    lemma_be_value_of_bytes, lemma_radix_values, lemma_round_up_is_least_multiple, push_be_bytes,
    round_up, Align, CloneFromSlice,
};
use vstd::prelude::*;
use vstd::slice::{slice_subrange, slice_to_vec};

verus! {

/// The number that tells what a block atom means.
pub type AtomKind = u64;

/// The tag of an [`Atom::Block`].
pub const BLOCK: u8 = 0;

/// The tag of an [`Atom::SmallBlock`].
pub const SMALL_BLOCK: u8 = 1;

/// The tag of an [`Atom::Bytes`].
pub const BYTES: u8 = 2;

/// The tag of an [`Atom::FewBytes`].
pub const FEW_BYTES: u8 = 3;

/// The tag of an [`Atom::Reference`].
pub const REFERENCE: u8 = 4;

/// The largest number that fits a field of six bytes.
pub const MAX_VALUE_USING_6_BYTES: u64 = 0xffff_ffff_ffff;

/// The largest number that fits a field of seven bytes.
pub const MAX_VALUE_USING_7_BYTES: u64 = 0xff_ffff_ffff_ffff;

/// A primitive of the wire format.
#[derive(Clone, Debug, PartialEq, Eq)]
#[allow(inconsistent_fields)]
pub enum Atom {
    /// The head of a node with any number of children, which follow it.
    Block { kind: AtomKind, num_children: u64 },
    /// The head of a node with fewer than 256 children, in a single word.
    SmallBlock { kind: AtomKind, num_children: u8 },
    /// A payload of up to `MAX_VALUE_USING_7_BYTES` bytes.
    Bytes(Vec<u8>),
    /// A payload of up to 255 bytes, the first six of them in the head word.
    FewBytes(Vec<u8>),
    /// A reserved pointer to an earlier atom.
    Reference(u64),
}

/// What an [`Atom`] holds, as mathematical values.
#[allow(inconsistent_fields)]
pub enum AtomView {
    Block { kind: AtomKind, num_children: u64 },
    SmallBlock { kind: AtomKind, num_children: u8 },
    Bytes(Seq<u8>),
    FewBytes(Seq<u8>),
    Reference(u64),
}

impl View for Atom {
    type V = AtomView;

    open spec fn view(&self) -> AtomView {
        match self {
            Atom::Block { kind, num_children } => AtomView::Block {
                kind: *kind,
                num_children: *num_children,
            },
            Atom::SmallBlock { kind, num_children } => AtomView::SmallBlock {
                kind: *kind,
                num_children: *num_children,
            },
            Atom::Bytes(payload) => AtomView::Bytes(payload@),
            Atom::FewBytes(payload) => AtomView::FewBytes(payload@),
            Atom::Reference(offset) => AtomView::Reference(*offset),
        }
    }
}

/// Why a run of bytes does not start with an atom.
#[derive(Clone, Copy, Debug, PartialEq, Eq)]
pub enum AtomError {
    /// The bytes end before the atom does.
    UnexpectedEnd,
    /// The first byte is not the tag of any atom.
    UnknownType(u8),
    /// A byte of the padding behind a payload is not zero.
    AlignmentNotZero,
}

/// The number of bytes of a payload of `length` bytes that do not fit the
/// head word of a `FewBytes` atom.
pub open spec fn spilled(length: nat) -> nat {
    if length < 6 {
        0
    } else {
        (length - 6) as nat
    }
}

impl AtomView {
    /// Whether every number of the atom fits the field that stores it.
    pub open spec fn encodable(self) -> bool {
        match self {
            AtomView::Block { kind, .. } => kind <= MAX_VALUE_USING_6_BYTES,
            AtomView::SmallBlock { kind, .. } => kind <= MAX_VALUE_USING_6_BYTES,
            AtomView::Bytes(payload) => payload.len() <= MAX_VALUE_USING_7_BYTES,
            AtomView::FewBytes(payload) => payload.len() <= u8::MAX,
            AtomView::Reference(offset) => offset <= MAX_VALUE_USING_7_BYTES,
        }
    }

    /// The number of bytes that the atom occupies on the wire.
    pub open spec fn length_in_bytes(self) -> nat {
        match self {
            AtomView::Block { .. } => 16,
            AtomView::SmallBlock { .. } => 8,
            AtomView::Bytes(payload) => (8 + round_up(payload.len() as int, 8)) as nat,
            AtomView::FewBytes(payload) => (8 + round_up(spilled(payload.len()) as int, 8)) as nat,
            AtomView::Reference(_) => 8,
        }
    }

    /// The bytes that the atom is stored as.
    pub open spec fn to_bytes(self) -> Seq<u8> {
        match self {
            AtomView::Block { kind, num_children } => seq![BLOCK, 0u8] + be_bytes(kind as nat, 6)
                + be_bytes(num_children as nat, 8),
            AtomView::SmallBlock { kind, num_children } => seq![SMALL_BLOCK, num_children]
                + be_bytes(kind as nat, 6),
            AtomView::Bytes(payload) => aligned(seq![BYTES] + be_bytes(payload.len(), 7) + payload),
            AtomView::FewBytes(payload) => aligned(
                seq![FEW_BYTES, (payload.len() % 256) as u8] + payload,
            ),
            AtomView::Reference(offset) => seq![REFERENCE] + be_bytes(offset as nat, 7),
        }
    }
}

/// Whether a byte of `bytes` between `from` and `to` is not zero.
pub open spec fn has_nonzero(bytes: Seq<u8>, from: int, to: int) -> bool {
    exists|i: int| from <= i < to && #[trigger] bytes[i] != 0
}

/// The atom that `bytes` start with, or the reason why there is none.
///
/// An atom has to lie within `bytes` together with its padding, and the
/// padding behind a payload has to be zero.
pub open spec fn decode_atom(bytes: Seq<u8>) -> Result<AtomView, AtomError> {
    if bytes.len() < 8 {
        Err(AtomError::UnexpectedEnd)
    } else if bytes[0] == BLOCK {
        if bytes.len() < 16 {
            Err(AtomError::UnexpectedEnd)
        } else {
            Ok(
                AtomView::Block {
                    kind: be_value(bytes.subrange(2, 8)) as u64,
                    num_children: be_value(bytes.subrange(8, 16)) as u64,
                },
            )
        }
    } else if bytes[0] == SMALL_BLOCK {
        Ok(
            AtomView::SmallBlock {
                kind: be_value(bytes.subrange(2, 8)) as u64,
                num_children: bytes[1],
            },
        )
    } else if bytes[0] == BYTES {
        let length = be_value(bytes.subrange(1, 8)) as int;
        if bytes.len() < 8 + round_up(length, 8) {
            Err(AtomError::UnexpectedEnd)
        } else if has_nonzero(bytes, 8 + length, 8 + round_up(length, 8)) {
            Err(AtomError::AlignmentNotZero)
        } else {
            Ok(AtomView::Bytes(bytes.subrange(8, 8 + length)))
        }
    } else if bytes[0] == FEW_BYTES {
        let length = bytes[1] as int;
        let end = 8 + round_up(spilled(length as nat) as int, 8);
        if bytes.len() < end {
            Err(AtomError::UnexpectedEnd)
        } else if has_nonzero(bytes, 2 + length, end) {
            Err(AtomError::AlignmentNotZero)
        } else {
            Ok(AtomView::FewBytes(bytes.subrange(2, 2 + length)))
        }
    } else if bytes[0] == REFERENCE {
        Ok(AtomView::Reference(be_value(bytes.subrange(1, 8)) as u64))
    } else {
        Err(AtomError::UnknownType(bytes[0]))
    }
}

/// Every atom is stored as a whole number of words, and
/// [`AtomView::length_in_bytes`] is the number of bytes that
/// [`AtomView::to_bytes`] produces.
pub proof fn lemma_atom_bytes_are_words(atom: AtomView)
    ensures
        atom.to_bytes().len() % 8 == 0,
        atom.to_bytes().len() == atom.length_in_bytes(),
        atom.length_in_bytes() >= 8,
{
    match atom {
        AtomView::Block { kind, num_children } => {
            lemma_be_bytes_len(kind as nat, 6);
            lemma_be_bytes_len(num_children as nat, 8);
        },
        AtomView::SmallBlock { kind, .. } => {
            lemma_be_bytes_len(kind as nat, 6);
        },
        AtomView::Bytes(payload) => {
            lemma_be_bytes_len(payload.len(), 7);
            let head = seq![BYTES] + be_bytes(payload.len(), 7) + payload;
            lemma_aligned(head);
            lemma_round_up_is_least_multiple(payload.len() as int, 8);
            lemma_round_up_is_least_multiple(head.len() as int, 8);
        },
        AtomView::FewBytes(payload) => {
            let head = seq![FEW_BYTES, (payload.len() % 256) as u8] + payload;
            lemma_aligned(head);
            lemma_round_up_is_least_multiple(spilled(payload.len()) as int, 8);
            lemma_round_up_is_least_multiple(head.len() as int, 8);
        },
        AtomView::Reference(offset) => {
            lemma_be_bytes_len(offset as nat, 7);
        },
    }
}

/// Decoding finds an encodable atom again at the start of any run of bytes
/// that begins with its encoding.
pub proof fn lemma_decode_encoded_atom(atom: AtomView, rest: Seq<u8>)
    requires
        atom.encodable(),
    ensures
        decode_atom(atom.to_bytes() + rest) == Ok::<AtomView, AtomError>(atom),
{
    match atom {
        AtomView::Block { kind, num_children } => lemma_decode_encoded_block(
            kind,
            num_children,
            rest,
        ),
        AtomView::SmallBlock { kind, num_children } => lemma_decode_encoded_small_block(
            kind,
            num_children,
            rest,
        ),
        AtomView::Bytes(payload) => lemma_decode_encoded_bytes(payload, rest),
        AtomView::FewBytes(payload) => lemma_decode_encoded_few_bytes(payload, rest),
        AtomView::Reference(offset) => lemma_decode_encoded_reference(offset, rest),
    }
}

/// Decoding finds a stored block atom again.
proof fn lemma_decode_encoded_block(kind: u64, num_children: u64, rest: Seq<u8>)
    requires
        kind <= MAX_VALUE_USING_6_BYTES,
    ensures
        decode_atom(AtomView::Block { kind, num_children }.to_bytes() + rest) == Ok::<
            AtomView,
            AtomError,
        >(AtomView::Block { kind, num_children }),
{
    let atom = AtomView::Block { kind, num_children };
    let bytes = atom.to_bytes() + rest;
    lemma_radix_values();
    lemma_be_bytes_len(kind as nat, 6);
    lemma_be_bytes_len(num_children as nat, 8);
    lemma_be_value_of_bytes(kind as nat, 6);
    lemma_be_value_of_bytes(num_children as nat, 8);
    assert(bytes.len() >= 16);
    assert(bytes[0] == BLOCK);
    assert(bytes.subrange(2, 8) =~= be_bytes(kind as nat, 6));
    assert(bytes.subrange(8, 16) =~= be_bytes(num_children as nat, 8));
}

/// Decoding finds a stored compact block atom again.
proof fn lemma_decode_encoded_small_block(kind: u64, num_children: u8, rest: Seq<u8>)
    requires
        kind <= MAX_VALUE_USING_6_BYTES,
    ensures
        decode_atom(AtomView::SmallBlock { kind, num_children }.to_bytes() + rest) == Ok::<
            AtomView,
            AtomError,
        >(AtomView::SmallBlock { kind, num_children }),
{
    let atom = AtomView::SmallBlock { kind, num_children };
    let bytes = atom.to_bytes() + rest;
    lemma_radix_values();
    lemma_be_bytes_len(kind as nat, 6);
    lemma_be_value_of_bytes(kind as nat, 6);
    assert(bytes.len() >= 8);
    assert(bytes[0] == SMALL_BLOCK);
    assert(bytes[1] == num_children);
    assert(bytes.subrange(2, 8) =~= be_bytes(kind as nat, 6));
}

/// Decoding finds a stored bytes atom again.
proof fn lemma_decode_encoded_bytes(payload: Seq<u8>, rest: Seq<u8>)
    requires
        payload.len() <= MAX_VALUE_USING_7_BYTES,
    ensures
        decode_atom(AtomView::Bytes(payload).to_bytes() + rest) == Ok::<AtomView, AtomError>(
            AtomView::Bytes(payload),
        ),
{
    let atom = AtomView::Bytes(payload);
    let bytes = atom.to_bytes() + rest;
    let head = seq![BYTES] + be_bytes(payload.len(), 7) + payload;
    let length = payload.len() as int;
    lemma_radix_values();
    lemma_be_bytes_len(payload.len(), 7);
    lemma_be_value_of_bytes(payload.len(), 7);
    lemma_aligned(head);
    lemma_round_up_is_least_multiple(length, 8);
    lemma_round_up_is_least_multiple(head.len() as int, 8);
    assert(head.len() == 8 + length);
    assert(aligned(head).len() == 8 + round_up(length, 8));
    assert(bytes[0] == aligned(head)[0]);
    assert(bytes[0] == BYTES);
    assert(bytes.subrange(1, 8) =~= be_bytes(payload.len(), 7));
    assert(bytes.subrange(8, 8 + length) =~= payload);
    assert(!has_nonzero(bytes, 8 + length, 8 + round_up(length, 8))) by {
        assert forall|i: int| 8 + length <= i < 8 + round_up(length, 8) implies bytes[i] == 0 by {
            assert(bytes[i] == aligned(head)[i]);
        }
    }
}

/// Decoding finds a stored compact bytes atom again.
proof fn lemma_decode_encoded_few_bytes(payload: Seq<u8>, rest: Seq<u8>)
    requires
        payload.len() <= u8::MAX,
    ensures
        decode_atom(AtomView::FewBytes(payload).to_bytes() + rest) == Ok::<AtomView, AtomError>(
            AtomView::FewBytes(payload),
        ),
{
    let atom = AtomView::FewBytes(payload);
    let bytes = atom.to_bytes() + rest;
    let head = seq![FEW_BYTES, (payload.len() % 256) as u8] + payload;
    let length = payload.len() as int;
    let end = 8 + round_up(spilled(payload.len()) as int, 8);
    lemma_aligned(head);
    lemma_round_up_is_least_multiple(head.len() as int, 8);
    lemma_round_up_is_least_multiple(spilled(payload.len()) as int, 8);
    assert(head.len() == 2 + length);
    assert(aligned(head).len() == end);
    assert(bytes[0] == aligned(head)[0]);
    assert(bytes[1] == aligned(head)[1]);
    assert(bytes[0] == FEW_BYTES);
    assert(bytes[1] == payload.len());
    assert(bytes.subrange(2, 2 + length) =~= payload);
    assert(!has_nonzero(bytes, 2 + length, end)) by {
        assert forall|i: int| 2 + length <= i < end implies bytes[i] == 0 by {
            assert(bytes[i] == aligned(head)[i]);
        }
    }
}

/// Decoding finds a stored reference atom again.
proof fn lemma_decode_encoded_reference(offset: u64, rest: Seq<u8>)
    requires
        offset <= MAX_VALUE_USING_7_BYTES,
    ensures
        decode_atom(AtomView::Reference(offset).to_bytes() + rest) == Ok::<AtomView, AtomError>(
            AtomView::Reference(offset),
        ),
{
    let atom = AtomView::Reference(offset);
    let bytes = atom.to_bytes() + rest;
    lemma_radix_values();
    lemma_be_bytes_len(offset as nat, 7);
    lemma_be_value_of_bytes(offset as nat, 7);
    assert(bytes.len() >= 8);
    assert(bytes[0] == REFERENCE);
    assert(bytes.subrange(1, 8) =~= be_bytes(offset as nat, 7));
}

/// What decoding finds can be stored again, and lies within the bytes that
/// it was found in.
pub proof fn lemma_decoded_atom(bytes: Seq<u8>)
    ensures
        match decode_atom(bytes) {
            Ok(atom) => atom.encodable() && 8 <= atom.length_in_bytes() <= bytes.len(),
            Err(_) => true,
        },
{
    lemma_radix_values();
    if bytes.len() >= 8 {
        lemma_be_value_bound(bytes.subrange(2, 8));
        lemma_be_value_bound(bytes.subrange(1, 8));
        let length = be_value(bytes.subrange(1, 8)) as int;
        lemma_round_up_is_least_multiple(length, 8);
        lemma_round_up_is_least_multiple(spilled(bytes[1] as nat) as int, 8);
    }
}

/// A stored atom is read back as an atom that occupies as many bytes as were
/// stored.
pub proof fn lemma_length_of_decoded_atom(atom: AtomView)
    requires
        atom.encodable(),
    ensures
        decode_atom(atom.to_bytes()) == Ok::<AtomView, AtomError>(atom),
        decode_atom(atom.to_bytes())->Ok_0.length_in_bytes() == atom.to_bytes().len(),
{
    lemma_decode_encoded_atom(atom, Seq::empty());
    assert(atom.to_bytes() + Seq::<u8>::empty() =~= atom.to_bytes());
    lemma_atom_bytes_are_words(atom);
}

impl Atom {
    /// Whether every number of the atom fits the field that stores it.
    pub fn is_encodable(&self) -> (r: bool)
        ensures
            r == self@.encodable(),
    {
        match self {
            Atom::Block { kind, .. } => *kind <= MAX_VALUE_USING_6_BYTES,
            Atom::SmallBlock { kind, .. } => *kind <= MAX_VALUE_USING_6_BYTES,
            Atom::Bytes(payload) => payload.len() as u64 <= MAX_VALUE_USING_7_BYTES,
            Atom::FewBytes(payload) => payload.len() <= 255,
            Atom::Reference(offset) => *offset <= MAX_VALUE_USING_7_BYTES,
        }
    }

    /// The number of bytes that the atom occupies on the wire: a multiple of
    /// the word size, found without looking at any encoding.
    pub fn length_in_bytes(&self) -> (r: usize)
        requires
            self@.length_in_bytes() <= usize::MAX,
        ensures
            r == self@.length_in_bytes(),
    {
        match self {
            Atom::Block { .. } => 16,
            Atom::SmallBlock { .. } => 8,
            Atom::Bytes(bytes) => {
                proof {
                    lemma_round_up_is_least_multiple(bytes@.len() as int, 8);
                }
                8 + round_up_to_word(bytes.len())
            },
            Atom::FewBytes(bytes) => {
                let spill: usize = if bytes.len() < 6 {
                    0
                } else {
                    bytes.len() - 6
                };
                proof {
                    lemma_round_up_is_least_multiple(spill as int, 8);
                }
                assert(spill == spilled(bytes@.len()));
                8 + round_up_to_word(spill)
            },
            Atom::Reference(_) => 8,
        }
    }

    /// Encodes the atom.
    pub fn to_bytes(&self) -> (r: Vec<u8>)
        requires
            self@.encodable(),
        ensures
            r@ == self@.to_bytes(),
    {
        let mut bytes: Vec<u8> = Vec::new();
        match self {
            Atom::Block { kind, num_children } => {
                bytes.push(BLOCK);
                bytes.push(0);
                push_be_bytes(&mut bytes, *kind, 6);
                push_be_bytes(&mut bytes, *num_children, 8);
                assert(bytes@ =~= self@.to_bytes());
            },
            Atom::SmallBlock { kind, num_children } => {
                bytes.push(SMALL_BLOCK);
                bytes.push(*num_children);
                push_be_bytes(&mut bytes, *kind, 6);
                assert(bytes@ =~= self@.to_bytes());
            },
            Atom::Bytes(payload_bytes) => {
                bytes.push(BYTES);
                push_be_bytes(&mut bytes, payload_bytes.len() as u64, 7);
                extend_with(&mut bytes, payload_bytes.as_slice());
                assert(bytes@ =~= seq![BYTES] + be_bytes(payload_bytes@.len(), 7)
                    + payload_bytes@);
                bytes.align();
            },
            Atom::FewBytes(payload_bytes) => {
                bytes.push(FEW_BYTES);
                bytes.push(payload_bytes.len() as u8);
                extend_with(&mut bytes, payload_bytes.as_slice());
                assert(bytes@ =~= seq![FEW_BYTES, (payload_bytes@.len() % 256) as u8]
                    + payload_bytes@);
                bytes.align();
            },
            Atom::Reference(offset) => {
                bytes.push(REFERENCE);
                push_be_bytes(&mut bytes, *offset, 7);
                assert(bytes@ =~= self@.to_bytes());
            },
        }
        bytes
    }

    /// Decodes the atom that `bytes` start with.
    pub fn try_from(bytes: &[u8]) -> (r: Result<Atom, AtomError>)
        ensures
            match r {
                Ok(atom) => decode_atom(bytes@) == Ok::<AtomView, AtomError>(atom@),
                Err(error) => decode_atom(bytes@) == Err::<AtomView, AtomError>(error),
            },
    {
        if bytes.len() < 8 {
            return Err(AtomError::UnexpectedEnd);
        }
        proof {
            lemma_radix_values();
            lemma_be_value_bound(bytes@.subrange(2, 8));
            lemma_be_value_bound(bytes@.subrange(1, 8));
        }
        let tag: u8 = bytes[0];
        if tag == BLOCK {
            if bytes.len() < 16 {
                return Err(AtomError::UnexpectedEnd);
            }
            proof {
                lemma_be_value_bound(bytes@.subrange(8, 16));
            }
            Ok(
                Atom::Block {
                    kind: u64::clone_from_slice(slice_subrange(bytes, 2, 8)),
                    num_children: u64::clone_from_slice(slice_subrange(bytes, 8, 16)),
                },
            )
        } else if tag == SMALL_BLOCK {
            Ok(
                Atom::SmallBlock {
                    kind: u64::clone_from_slice(slice_subrange(bytes, 2, 8)),
                    num_children: bytes[1],
                },
            )
        } else if tag == BYTES {
            let declared: u64 = u64::clone_from_slice(slice_subrange(bytes, 1, 8));
            let available: usize = bytes.len() - 8;
            proof {
                lemma_round_up_is_least_multiple(declared as int, 8);
            }
            if declared > available as u64 {
                return Err(AtomError::UnexpectedEnd);
            }
            let length: usize = declared as usize;
            let rest: usize = length % 8;
            let padding: usize = if rest == 0 {
                0
            } else {
                8 - rest
            };
            assert(length + padding == round_up(length as int, 8));
            if padding > available - length {
                return Err(AtomError::UnexpectedEnd);
            }
            let end: usize = 8 + length;
            if !is_zero(bytes, end, end + padding) {
                return Err(AtomError::AlignmentNotZero);
            }
            Ok(Atom::Bytes(slice_to_vec(slice_subrange(bytes, 8, end))))
        } else if tag == FEW_BYTES {
            let length: usize = bytes[1] as usize;
            let spill: usize = if length < 6 {
                0
            } else {
                length - 6
            };
            assert(spill == spilled(length as nat));
            proof {
                lemma_round_up_is_least_multiple(spill as int, 8);
            }
            let end: usize = 8 + round_up_to_word(spill);
            if bytes.len() < end {
                return Err(AtomError::UnexpectedEnd);
            }
            if !is_zero(bytes, 2 + length, end) {
                return Err(AtomError::AlignmentNotZero);
            }
            Ok(Atom::FewBytes(slice_to_vec(slice_subrange(bytes, 2, 2 + length))))
        } else if tag == REFERENCE {
            Ok(Atom::Reference(u64::clone_from_slice(slice_subrange(bytes, 1, 8))))
        } else {
            Err(AtomError::UnknownType(tag))
        }
    }
}

/// Whether each byte of `bytes` from `from` up to `to` is zero.
fn is_zero(bytes: &[u8], from: usize, to: usize) -> (r: bool)
    requires
        from <= to <= bytes@.len(),
    ensures
        r == !has_nonzero(bytes@, from as int, to as int),
{
    let mut i: usize = from;
    while i < to
        invariant
            from <= i <= to <= bytes@.len(),
            forall|j: int| from <= j < i ==> bytes@[j] == 0,
        decreases to - i,
    {
        if bytes[i] != 0 {
            assert(has_nonzero(bytes@, from as int, to as int));
            return false;
        }
        i += 1;
    }
    true
}

/// The smallest multiple of the word size that is at least `n`.
fn round_up_to_word(n: usize) -> (r: usize)
    requires
        round_up(n as int, 8) <= usize::MAX,
    ensures
        r == round_up(n as int, 8),
{
    let rest: usize = n % 8;
    if rest == 0 {
        n
    } else {
        n + (8 - rest)
    }
}

/// Appends a copy of `extra` to `out`.
pub fn extend_with(out: &mut Vec<u8>, extra: &[u8])
    ensures
        final(out)@ == old(out)@ + extra@,
{
    let mut i: usize = 0;
    while i < extra.len()
        invariant
            i <= extra@.len(),
            out@ == old(out)@ + extra@.take(i as int),
        decreases extra.len() - i,
    {
        out.push(extra[i]);
        i += 1;
        assert(out@ =~= old(out)@ + extra@.take(i as int));
    }
    assert(extra@.take(i as int) =~= extra@);
}

} // verus!
