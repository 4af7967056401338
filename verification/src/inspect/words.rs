//! What each word of a stored document holds.

use crate::atoms::{decode_atom, lemma_decoded_atom, spilled, Atom, AtomError, AtomView};
use crate::inspect::text::Color;
use crate::utils::{
    be_value, lemma_be_value_bound, lemma_radix_values, lemma_round_up_is_least_multiple,
    round_up, CloneFromSlice,
};
use vstd::prelude::*;
use vstd::slice::slice_subrange;

verus! {

/// What a word of a stored document holds.
#[derive(Clone, Copy, Debug, PartialEq, Eq)]
#[allow(inconsistent_fields)]
pub enum WordInfo {
    /// The word where an atom should start, and none does.
    Error { error: AtomError },
    /// A word behind one that could not be read.
    ErrorContinuation,
    /// The header of the document.
    Header { version: u16 },
    /// The first word of a block atom.
    Block { kind: u64 },
    /// The second word of a block atom.
    BlockContinuation { num_children: u64 },
    /// A compact block atom.
    SmallBlock { kind: u64, num_children: u8 },
    /// The head of a bytes atom.
    Bytes { length: u64 },
    /// The head of a compact bytes atom, with the first bytes of its payload.
    FewBytes { length: u8 },
    /// A word of payload, of which the first `num_relevant` bytes count.
    BytesContinuation { num_relevant: u8 },
    /// A reference atom.
    Reference { offset: u64 },
}

/// The number of words that `length` bytes occupy.
pub open spec fn words_for(length: nat) -> nat {
    (round_up(length as int, 8) / 8) as nat
}

/// What word `i` of a payload of `length` bytes holds.
pub open spec fn continuation(length: nat, i: nat) -> WordInfo {
    if i + 1 == words_for(length) && length % 8 != 0 {
        WordInfo::BytesContinuation { num_relevant: (length % 8) as u8 }
    } else {
        WordInfo::BytesContinuation { num_relevant: 8 }
    }
}

/// What the words of a payload of `length` bytes hold.
pub open spec fn continuations(length: nat) -> Seq<WordInfo> {
    Seq::new(words_for(length), |i: int| continuation(length, i as nat))
}

/// What the words of `atom` hold.
pub open spec fn atom_words(atom: AtomView) -> Seq<WordInfo> {
    match atom {
        AtomView::Block { kind, num_children } => seq![
            WordInfo::Block { kind },
            WordInfo::BlockContinuation { num_children },
        ],
        AtomView::SmallBlock { kind, num_children } => seq![
            WordInfo::SmallBlock { kind, num_children },
        ],
        AtomView::Bytes(payload) => seq![WordInfo::Bytes { length: payload.len() as u64 }]
            + continuations(payload.len()),
        AtomView::FewBytes(payload) => seq![WordInfo::FewBytes { length: payload.len() as u8 }]
            + continuations(spilled(payload.len())),
        AtomView::Reference(offset) => seq![WordInfo::Reference { offset }],
    }
}

/// What the words of `len` bytes hold that do not start with an atom.
pub open spec fn error_words(error: AtomError, len: nat) -> Seq<WordInfo> {
    Seq::new(
        words_for(len),
        |i: int|
            if i == 0 {
                WordInfo::Error { error }
            } else {
                WordInfo::ErrorContinuation
            },
    )
}

/// What the words of `bytes` hold, where `bytes` are atoms one after the
/// other. Behind an atom that cannot be read, nothing is read.
pub open spec fn body_words(bytes: Seq<u8>) -> Seq<WordInfo>
    decreases bytes.len(),
{
    if bytes.len() == 0 {
        Seq::empty()
    } else {
        match decode_atom(bytes) {
            Err(error) => error_words(error, bytes.len()),
            Ok(atom) => {
                if 0 < atom.length_in_bytes() < bytes.len() {
                    atom_words(atom) + body_words(bytes.skip(atom.length_in_bytes() as int))
                } else {
                    atom_words(atom)
                }
            },
        }
    }
}

/// What the words of the stored document `bytes` hold.
pub open spec fn document_words(bytes: Seq<u8>) -> Seq<WordInfo> {
    seq![WordInfo::Header { version: be_value(bytes.subrange(6, 8)) as u16 }] + body_words(
        bytes.skip(8),
    )
}

/// An atom has one info for each of its words.
pub proof fn lemma_atom_words(atom: AtomView)
    ensures
        atom_words(atom).len() * 8 == atom.length_in_bytes(),
{
    match atom {
        AtomView::Bytes(payload) => {
            lemma_round_up_is_least_multiple(payload.len() as int, 8);
        },
        AtomView::FewBytes(payload) => {
            lemma_round_up_is_least_multiple(spilled(payload.len()) as int, 8);
        },
        _ => {},
    }
}

/// There is an info for every word of a run of atoms, the last word
/// included where only a part of it is there.
pub proof fn lemma_body_words(bytes: Seq<u8>)
    ensures
        body_words(bytes).len() >= words_for(bytes.len()),
    decreases bytes.len(),
{
    lemma_round_up_is_least_multiple(bytes.len() as int, 8);
    if bytes.len() > 0 {
        match decode_atom(bytes) {
            Err(error) => {},
            Ok(atom) => {
                lemma_atom_words(atom);
                let length = atom.length_in_bytes();
                if 0 < length < bytes.len() {
                    let rest = bytes.skip(length as int);
                    lemma_body_words(rest);
                    lemma_round_up_is_least_multiple(rest.len() as int, 8);
                }
            },
        }
    }
}

/// There is an info for every word of a stored document.
pub proof fn lemma_document_words(bytes: Seq<u8>)
    requires
        bytes.len() >= 8,
    ensures
        document_words(bytes).len() >= words_for(bytes.len()),
{
    lemma_body_words(bytes.skip(8));
    lemma_round_up_is_least_multiple(bytes.len() as int, 8);
    lemma_round_up_is_least_multiple(bytes.len() - 8, 8);
}

impl WordInfo {
    /// The colour of byte `i` of the word.
    pub open spec fn style_of(self, i: int) -> Color {
        match self {
            WordInfo::Error { .. } => Color::Red,
            WordInfo::ErrorContinuation => Color::Red,
            WordInfo::Header { .. } => if i < 6 {
                Color::BrightMagenta
            } else {
                Color::Yellow
            },
            WordInfo::Block { .. } => if i == 0 {
                Color::Yellow
            } else if i == 1 {
                Color::Blue
            } else {
                Color::Green
            },
            WordInfo::BlockContinuation { .. } => Color::BrightRed,
            WordInfo::SmallBlock { .. } => if i == 0 {
                Color::Yellow
            } else if i == 1 {
                Color::BrightRed
            } else {
                Color::Green
            },
            WordInfo::Bytes { .. } => if i == 0 {
                Color::Yellow
            } else {
                Color::BrightRed
            },
            WordInfo::FewBytes { length } => if i == 0 {
                Color::Yellow
            } else if i == 1 {
                Color::BrightRed
            } else if i < 2 + length {
                Color::BrightCyan
            } else {
                Color::Blue
            },
            WordInfo::BytesContinuation { num_relevant } => if i < num_relevant {
                Color::BrightCyan
            } else {
                Color::Blue
            },
            WordInfo::Reference { .. } => if i == 0 {
                Color::Yellow
            } else {
                Color::BrightRed
            },
        }
    }

    /// The colour of byte `i` of the word.
    pub fn style(&self, i: usize) -> (r: Color)
        ensures
            r == self.style_of(i as int),
    {
        match self {
            WordInfo::Error { .. } => Color::Red,
            WordInfo::ErrorContinuation => Color::Red,
            WordInfo::Header { .. } => if i < 6 {
                Color::BrightMagenta
            } else {
                Color::Yellow
            },
            WordInfo::Block { .. } => if i == 0 {
                Color::Yellow
            } else if i == 1 {
                Color::Blue
            } else {
                Color::Green
            },
            WordInfo::BlockContinuation { .. } => Color::BrightRed,
            WordInfo::SmallBlock { .. } => if i == 0 {
                Color::Yellow
            } else if i == 1 {
                Color::BrightRed
            } else {
                Color::Green
            },
            WordInfo::Bytes { .. } => if i == 0 {
                Color::Yellow
            } else {
                Color::BrightRed
            },
            WordInfo::FewBytes { length } => if i == 0 {
                Color::Yellow
            } else if i == 1 {
                Color::BrightRed
            } else if i - 2 < *length as usize {
                Color::BrightCyan
            } else {
                Color::Blue
            },
            WordInfo::BytesContinuation { num_relevant } => if i < *num_relevant as usize {
                Color::BrightCyan
            } else {
                Color::Blue
            },
            WordInfo::Reference { .. } => if i == 0 {
                Color::Yellow
            } else {
                Color::BrightRed
            },
        }
    }

    /// The colours of the eight bytes of the word.
    pub fn to_byte_styles(&self) -> (r: [Color; 8])
        ensures
            forall|i: int| 0 <= i < 8 ==> r@[i] == self.style_of(i),
    {
        [
            self.style(0),
            self.style(1),
            self.style(2),
            self.style(3),
            self.style(4),
            self.style(5),
            self.style(6),
            self.style(7),
        ]
    }

    /// Whether an atom starts with the word.
    pub fn starts_atom(&self) -> (r: bool)
        ensures
            r == (self is Block || self is SmallBlock || self is Bytes || self is FewBytes
                || self is Reference),
    {
        match self {
            WordInfo::Block { .. } => true,
            WordInfo::SmallBlock { .. } => true,
            WordInfo::Bytes { .. } => true,
            WordInfo::FewBytes { .. } => true,
            WordInfo::Reference { .. } => true,
            _ => false,
        }
    }
}

/// Appends to `info` what the words of a payload of `length` bytes hold.
fn push_continuations(info: &mut Vec<WordInfo>, length: usize)
    requires
        round_up(length as int, 8) <= usize::MAX,
    ensures
        final(info)@ == old(info)@ + continuations(length as nat),
{
    proof {
        lemma_round_up_is_least_multiple(length as int, 8);
    }
    let rest: usize = length % 8;
    let words: usize = if rest == 0 {
        length / 8
    } else {
        length / 8 + 1
    };
    assert(words == words_for(length as nat));
    let mut i: usize = 0;
    assert(info@ =~= old(info)@ + continuations(length as nat).take(0));
    while i < words
        invariant
            i <= words,
            words == words_for(length as nat),
            rest == length % 8,
            info@ == old(info)@ + continuations(length as nat).take(i as int),
        decreases words - i,
    {
        if i == words - 1 && rest != 0 {
            info.push(WordInfo::BytesContinuation { num_relevant: rest as u8 });
        } else {
            info.push(WordInfo::BytesContinuation { num_relevant: 8 });
        }
        i += 1;
        assert(info@ =~= old(info)@ + continuations(length as nat).take(i as int));
    }
    assert(continuations(length as nat).take(words as int) =~= continuations(length as nat));
}

/// Appends to `info` what the words of `atom` hold.
fn push_atom_words(info: &mut Vec<WordInfo>, atom: &Atom)
    requires
        atom@.length_in_bytes() <= usize::MAX,
        atom@.encodable(),
    ensures
        final(info)@ == old(info)@ + atom_words(atom@),
{
    match atom {
        Atom::Block { kind, num_children } => {
            info.push(WordInfo::Block { kind: *kind });
            info.push(WordInfo::BlockContinuation { num_children: *num_children });
            assert(info@ =~= old(info)@ + atom_words(atom@));
        },
        Atom::SmallBlock { kind, num_children } => {
            info.push(WordInfo::SmallBlock { kind: *kind, num_children: *num_children });
            assert(info@ =~= old(info)@ + atom_words(atom@));
        },
        Atom::Bytes(payload) => {
            info.push(WordInfo::Bytes { length: payload.len() as u64 });
            push_continuations(info, payload.len());
            assert(info@ =~= old(info)@ + atom_words(atom@));
        },
        Atom::FewBytes(payload) => {
            info.push(WordInfo::FewBytes { length: payload.len() as u8 });
            let spill: usize = if payload.len() < 6 {
                0
            } else {
                payload.len() - 6
            };
            push_continuations(info, spill);
            assert(info@ =~= old(info)@ + atom_words(atom@));
        },
        Atom::Reference(offset) => {
            info.push(WordInfo::Reference { offset: *offset });
            assert(info@ =~= old(info)@ + atom_words(atom@));
        },
    }
}

/// Appends to `info` what the words of `len` bytes hold that do not start
/// with an atom.
fn push_error_words(info: &mut Vec<WordInfo>, error: AtomError, len: usize)
    requires
        len > 0,
    ensures
        final(info)@ == old(info)@ + error_words(error, len as nat),
{
    proof {
        lemma_round_up_is_least_multiple(len as int, 8);
    }
    let words: usize = if len % 8 == 0 {
        len / 8
    } else {
        len / 8 + 1
    };
    assert(words == words_for(len as nat));
    info.push(WordInfo::Error { error });
    let mut i: usize = 1;
    assert(info@ =~= old(info)@ + error_words(error, len as nat).take(1));
    while i < words
        invariant
            1 <= i <= words,
            words == words_for(len as nat),
            info@ == old(info)@ + error_words(error, len as nat).take(i as int),
        decreases words - i,
    {
        info.push(WordInfo::ErrorContinuation);
        i += 1;
        assert(info@ =~= old(info)@ + error_words(error, len as nat).take(i as int));
    }
    assert(error_words(error, len as nat).take(words as int) =~= error_words(error, len as nat));
}

/// Tells what each word of the stored document `bytes` holds.
pub fn info_for_bytes(bytes: &[u8]) -> (info: Vec<WordInfo>)
    requires
        bytes@.len() >= 8,
    ensures
        info@ == document_words(bytes@),
        info@.len() >= words_for(bytes@.len()),
{
    proof {
        lemma_document_words(bytes@);
        lemma_radix_values();
        lemma_be_value_bound(bytes@.subrange(6, 8));
    }
    let version: u64 = u64::clone_from_slice(slice_subrange(bytes, 6, 8));
    let mut info: Vec<WordInfo> = Vec::new();
    info.push(WordInfo::Header { version: version as u16 });
    let mut cursor: usize = 8;
    let total: usize = bytes.len();
    assert(bytes@.skip(total as int) =~= Seq::<u8>::empty());
    while cursor < total
        invariant
            8 <= cursor <= total,
            total == bytes@.len(),
            document_words(bytes@) == info@ + body_words(bytes@.skip(cursor as int)),
        decreases total - cursor,
    {
        let rest = slice_subrange(bytes, cursor, total);
        assert(rest@ =~= bytes@.skip(cursor as int));
        proof {
            lemma_decoded_atom(rest@);
        }
        let ghost before = info@;
        match Atom::try_from(rest) {
            Err(error) => {
                push_error_words(&mut info, error, total - cursor);
                cursor = total;
                assert(body_words(bytes@.skip(total as int)) =~= Seq::<WordInfo>::empty());
                assert(info@ + body_words(bytes@.skip(total as int)) =~= info@);
            },
            Ok(atom) => {
                let length = atom.length_in_bytes();
                push_atom_words(&mut info, &atom);
                if length < total - cursor {
                    assert(rest@.skip(length as int) =~= bytes@.skip(cursor + length));
                    cursor = cursor + length;
                } else {
                    cursor = total;
                    assert(body_words(bytes@.skip(total as int)) =~= Seq::<WordInfo>::empty());
                    assert(info@ + body_words(bytes@.skip(total as int)) =~= info@);
                }
                assert(document_words(bytes@) =~= info@ + body_words(bytes@.skip(cursor as int)));
            },
        }
    }
    assert(info@ + body_words(bytes@.skip(total as int)) =~= info@);
    info
}

} // verus!
