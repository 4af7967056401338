//! Reading molecules from bytes in memory.
//!
//! Reading is fail-soft. A node always gets as many children as its atom
//! announces: where the bytes end early, or cannot be read, the child that
//! could not be read and all that should have followed it are
//! [`Molecule::Error`]s that hold the reason, and the rest of the tree stays
//! as it was read. The reason is the error of the atom layer, or that a
//! reference stands where a molecule should.

pub mod flat;

use crate::atoms::{
    decode_atom, lemma_atom_bytes_are_words, lemma_decode_encoded_atom, lemma_decoded_atom, Atom,
    AtomError, AtomView,
};
use crate::molecule::{
    atoms_of_children, block_atom, bytes_atom, children_encodable, molecule_views, recast_all,
    Molecule, MoleculeView,
};
use crate::source::Source;
use vstd::prelude::*;
use vstd::slice::slice_subrange;

verus! {

/// The source of trees that were read from bytes in memory.
#[derive(Clone, Copy, Debug, PartialEq, Eq)]
pub struct Memory {}

/// Why a molecule could not be read from bytes.
#[derive(Clone, Copy, Debug, PartialEq, Eq)]
pub enum MemoryError {
    /// The bytes end before the molecule does.
    UnexpectedEnd,
    /// The bytes go on with a word whose first byte is not the tag of any
    /// atom.
    UnknownType(u8),
    /// A byte of the padding behind a payload is not zero.
    AlignmentNotZero,
    /// The molecule is stored as a reference, which this library cannot
    /// follow.
    UnsupportedReference,
}

impl MemoryError {
    /// The reason that stands for an error of the atom layer.
    pub open spec fn of_atom_error(error: AtomError) -> MemoryError {
        match error {
            AtomError::UnexpectedEnd => MemoryError::UnexpectedEnd,
            AtomError::UnknownType(tag) => MemoryError::UnknownType(tag),
            AtomError::AlignmentNotZero => MemoryError::AlignmentNotZero,
        }
    }

    /// The reason that stands for an error of the atom layer.
    pub fn from_atom_error(error: AtomError) -> (r: MemoryError)
        ensures
            r == Self::of_atom_error(error),
    {
        match error {
            AtomError::UnexpectedEnd => MemoryError::UnexpectedEnd,
            AtomError::UnknownType(tag) => MemoryError::UnknownType(tag),
            AtomError::AlignmentNotZero => MemoryError::AlignmentNotZero,
        }
    }
}

impl Source for Memory {
    type Error = MemoryError;

    fn clone_error(error: &MemoryError) -> (r: MemoryError) {
        *error
    }
}

/// A molecule that was read from bytes in memory.
pub type MemoryMolecule = Molecule<Memory>;

/// What reading a number of children from a run of bytes gives.
pub struct ParsedChildren {
    /// The children, one for each that was asked for.
    pub children: Seq<MoleculeView<Memory>>,
    /// The number of bytes that the children which could be read occupy.
    pub used: nat,
    /// The reason why a child could not be read, if one could not.
    pub error: Option<MemoryError>,
}

/// The bytes of `atoms`, one after the other.
pub open spec fn atoms_bytes(atoms: Seq<AtomView>) -> Seq<u8>
    decreases atoms.len(),
{
    if atoms.len() == 0 {
        Seq::empty()
    } else {
        atoms_bytes(atoms.drop_last()) + atoms.last().to_bytes()
    }
}

/// The molecule that `bytes` start with and the number of bytes that it
/// occupies, or the reason why there is none.
pub open spec fn parse_molecule(bytes: Seq<u8>) -> Result<(MoleculeView<Memory>, nat), MemoryError>
    decreases bytes.len(), 0nat,
{
    match decode_atom(bytes) {
        Err(error) => Err(MemoryError::of_atom_error(error)),
        Ok(AtomView::Block { kind, num_children }) => {
            let parsed = parse_children(bytes.skip(16), num_children as nat);
            Ok((MoleculeView::Block { kind, children: parsed.children }, 16 + parsed.used))
        },
        Ok(AtomView::SmallBlock { kind, num_children }) => {
            let parsed = parse_children(bytes.skip(8), num_children as nat);
            Ok((MoleculeView::Block { kind, children: parsed.children }, 8 + parsed.used))
        },
        Ok(AtomView::Reference(_)) => Err(MemoryError::UnsupportedReference),
        Ok(AtomView::Bytes(payload)) => Ok(
            (MoleculeView::Bytes(payload), AtomView::Bytes(payload).length_in_bytes()),
        ),
        Ok(AtomView::FewBytes(payload)) => Ok(
            (MoleculeView::Bytes(payload), AtomView::FewBytes(payload).length_in_bytes()),
        ),
    }
}

/// The smaller of `n` and `limit`.
pub open spec fn at_most(n: nat, limit: nat) -> nat {
    if n <= limit {
        n
    } else {
        limit
    }
}

/// The first `n` children that `bytes` hold, one molecule after the other.
///
/// Once a child cannot be read, it and every later child is an error that
/// holds the reason. The children that were read never occupy more than
/// was given ([`lemma_parse_children_stays_within`]), so that the limit that is put
/// on their number here changes nothing.
pub open spec fn parse_children(bytes: Seq<u8>, n: nat) -> ParsedChildren
    decreases bytes.len(), n + 1,
{
    if n == 0 {
        ParsedChildren { children: Seq::empty(), used: 0, error: None }
    } else {
        let before = parse_children(bytes, (n - 1) as nat);
        match before.error {
            Some(error) => ParsedChildren {
                children: before.children.push(MoleculeView::Error(error)),
                used: before.used,
                error: before.error,
            },
            None => {
                let at = at_most(before.used, bytes.len());
                match parse_molecule(bytes.skip(at as int)) {
                    Ok((child, used)) => ParsedChildren {
                        children: before.children.push(child),
                        used: at + used,
                        error: None,
                    },
                    Err(error) => ParsedChildren {
                        children: before.children.push(MoleculeView::Error(error)),
                        used: at,
                        error: Some(error),
                    },
                }
            },
        }
    }
}

/// The molecule that `bytes` hold: what [`parse_molecule`] finds, or an error
/// that holds the reason why it finds nothing.
pub open spec fn parsed_molecule(bytes: Seq<u8>) -> MoleculeView<Memory> {
    match parse_molecule(bytes) {
        Ok((molecule, _)) => molecule,
        Err(error) => MoleculeView::Error(error),
    }
}

impl<S: Source> MoleculeView<S> {
    /// The bytes that the tree is stored as.
    pub open spec fn to_bytes(self) -> Seq<u8> {
        atoms_bytes(self.to_atoms())
    }
}

/// The bytes of the first `n` of `children`.
pub open spec fn children_bytes<S: Source>(children: Seq<MoleculeView<S>>, n: nat) -> Seq<u8> {
    atoms_bytes(atoms_of_children(children, n))
}

/// The bytes of two runs of atoms are the bytes of the first followed by
/// those of the second.
pub proof fn lemma_atoms_bytes_concat(first: Seq<AtomView>, second: Seq<AtomView>)
    ensures
        atoms_bytes(first + second) == atoms_bytes(first) + atoms_bytes(second),
    decreases second.len(),
{
    if second.len() == 0 {
        assert(first + second =~= first);
        assert(atoms_bytes(first) + atoms_bytes(second) =~= atoms_bytes(first));
    } else {
        lemma_atoms_bytes_concat(first, second.drop_last());
        assert((first + second).drop_last() =~= first + second.drop_last());
        assert((first + second).last() == second.last());
        assert(atoms_bytes(first + second) =~= atoms_bytes(first) + atoms_bytes(second));
    }
}

/// The bytes of a single atom.
pub proof fn lemma_atoms_bytes_single(atom: AtomView)
    ensures
        atoms_bytes(seq![atom]) == atom.to_bytes(),
{
    reveal_with_fuel(atoms_bytes, 2);
    assert(seq![atom].drop_last() =~= Seq::<AtomView>::empty());
    assert(atoms_bytes(seq![atom]) =~= atom.to_bytes());
}

/// Every run of atoms is stored as a whole number of words.
pub proof fn lemma_atoms_bytes_are_words(atoms: Seq<AtomView>)
    ensures
        atoms_bytes(atoms).len() % 8 == 0,
    decreases atoms.len(),
{
    if atoms.len() > 0 {
        lemma_atoms_bytes_are_words(atoms.drop_last());
        lemma_atom_bytes_are_words(atoms.last());
    }
}

/// The bytes of the first `n` children end with the bytes of the last of
/// them.
pub proof fn lemma_children_bytes_step<S: Source>(children: Seq<MoleculeView<S>>, n: nat)
    requires
        0 < n <= children.len(),
    ensures
        children_bytes(children, n) == children_bytes(children, (n - 1) as nat) + children[n
            - 1].to_bytes(),
{
    lemma_atoms_bytes_concat(
        atoms_of_children(children, (n - 1) as nat),
        children[n - 1].to_atoms(),
    );
}

/// Reading never goes beyond the bytes it was given, and a node is read
/// with exactly as many children as were asked for.
pub proof fn lemma_parse_stays_within(bytes: Seq<u8>)
    ensures
        parse_molecule(bytes) matches Ok((_, used)) ==> 8 <= used <= bytes.len(),
    decreases bytes.len(), 0nat,
{
    lemma_decoded_atom(bytes);
    match decode_atom(bytes) {
        Ok(AtomView::Block { kind, num_children }) => {
            lemma_parse_children_stays_within(bytes.skip(16), num_children as nat);
        },
        Ok(AtomView::SmallBlock { kind, num_children }) => {
            lemma_parse_children_stays_within(bytes.skip(8), num_children as nat);
        },
        Ok(AtomView::Bytes(payload)) => {
            lemma_atom_bytes_are_words(AtomView::Bytes(payload));
        },
        Ok(AtomView::FewBytes(payload)) => {
            lemma_atom_bytes_are_words(AtomView::FewBytes(payload));
        },
        _ => {},
    }
}

/// Reading children never goes beyond the bytes it was given, and gives
/// exactly as many children as were asked for.
pub proof fn lemma_parse_children_stays_within(bytes: Seq<u8>, n: nat)
    ensures
        parse_children(bytes, n).used <= bytes.len(),
        parse_children(bytes, n).children.len() == n,
    decreases bytes.len(), n + 1,
{
    if n > 0 {
        lemma_parse_children_stays_within(bytes, (n - 1) as nat);
        let before = parse_children(bytes, (n - 1) as nat);
        if before.error is None {
            lemma_parse_stays_within(bytes.skip(before.used as int));
        }
    }
}

/// Once a child could not be read, every later child holds the same reason.
pub proof fn lemma_parse_children_after_error(bytes: Seq<u8>, n: nat, i: int)
    requires
        0 <= i < n,
        parse_children(bytes, (i + 1) as nat).error is Some,
    ensures
        parse_children(bytes, n).error == parse_children(bytes, (i + 1) as nat).error,
        parse_children(bytes, n).used == parse_children(bytes, (i + 1) as nat).used,
        parse_children(bytes, n).children[i] == MoleculeView::<Memory>::Error(
            parse_children(bytes, (i + 1) as nat).error->0,
        ),
        forall|j: int|
            i < j < n ==> #[trigger] parse_children(bytes, n).children[j] == MoleculeView::<
                Memory,
            >::Error(parse_children(bytes, (i + 1) as nat).error->0),
    decreases n,
{
    lemma_parse_children_stays_within(bytes, n);
    if n > i + 1 {
        lemma_parse_children_after_error(bytes, (n - 1) as nat, i);
        lemma_parse_children_stays_within(bytes, (n - 1) as nat);
    } else {
        lemma_parse_children_stays_within(bytes, i as nat);
    }
}

/// Reading finds a stored tree again at the start of any run of bytes that
/// begins with its bytes, and tells how many bytes it occupies.
pub proof fn lemma_parse_encoded<S: Source>(molecule: MoleculeView<S>, rest: Seq<u8>)
    requires
        molecule.encodable(),
    ensures
        parse_molecule(molecule.to_bytes() + rest) == Ok::<
            (MoleculeView<Memory>, nat),
            MemoryError,
        >((molecule.recast::<Memory>(), molecule.to_bytes().len())),
    decreases molecule, 0nat,
{
    match molecule {
        MoleculeView::Bytes(payload) => {
            let atom = bytes_atom(payload);
            lemma_atoms_bytes_single(atom);
            lemma_decode_encoded_atom(atom, rest);
            lemma_atom_bytes_are_words(atom);
        },
        MoleculeView::Block { kind, children } => {
            let head = block_atom(kind, children.len());
            let below = atoms_of_children(children, children.len());
            lemma_atoms_bytes_single(head);
            lemma_atoms_bytes_concat(seq![head], below);
            lemma_atom_bytes_are_words(head);
            let tail = children_bytes(children, children.len()) + rest;
            assert(molecule.to_bytes() + rest =~= head.to_bytes() + tail);
            lemma_decode_encoded_atom(head, tail);
            assert((head.to_bytes() + tail).skip(head.to_bytes().len() as int) =~= tail);
            lemma_parse_encoded_children(children, children.len(), children.len(), rest);
            assert(recast_all::<S, Memory>(children).take(children.len() as int)
                =~= molecule.recast::<Memory>()->children);
        },
        MoleculeView::Error(_) => {},
    }
}

/// Reading `k` children from the bytes of `n` stored children finds the first
/// `k` of them again.
pub proof fn lemma_parse_encoded_children<S: Source>(
    children: Seq<MoleculeView<S>>,
    n: nat,
    k: nat,
    rest: Seq<u8>,
)
    requires
        children_encodable(children, n),
        k <= n <= children.len(),
    ensures
        parse_children(children_bytes(children, n) + rest, k) == (ParsedChildren {
            children: recast_all::<S, Memory>(children).take(k as int),
            used: children_bytes(children, k).len(),
            error: None,
        }),
    decreases children, n,
{
    let bytes = children_bytes(children, n) + rest;
    if k == 0 {
        assert(recast_all::<S, Memory>(children).take(0) =~= Seq::empty());
        assert(children_bytes(children, 0) =~= Seq::empty());
    } else {
        let last = children[n - 1];
        let tail = last.to_bytes() + rest;
        lemma_children_bytes_step(children, n);
        assert(bytes =~= children_bytes(children, (n - 1) as nat) + tail);
        if k < n {
            lemma_parse_encoded_children(children, (n - 1) as nat, k, tail);
        } else {
            lemma_parse_encoded_children(children, (n - 1) as nat, (n - 1) as nat, tail);
            let before = parse_children(bytes, (n - 1) as nat);
            assert(before.used == children_bytes(children, (n - 1) as nat).len());
            assert(bytes.skip(before.used as int) =~= tail);
            lemma_parse_encoded(last, rest);
            assert(recast_all::<S, Memory>(children).take(n as int) =~= recast_all::<S, Memory>(
                children,
            ).take(n - 1).push(last.recast::<Memory>()));
        }
    }
}

impl Molecule<Memory> {
    /// Reads the molecule that `bytes` hold. What cannot be read becomes an
    /// error in the tree.
    pub fn from(bytes: &[u8]) -> (r: MemoryMolecule)
        ensures
            r@ == parsed_molecule(bytes@),
    {
        match MemoryMolecule::try_from(bytes) {
            Ok((molecule, _)) => molecule,
            Err(error) => Molecule::Error(error),
        }
    }

    /// Reads the molecule that `bytes` start with, and tells how many bytes
    /// it occupies.
    pub fn try_from(bytes: &[u8]) -> (r: Result<(MemoryMolecule, usize), MemoryError>)
        ensures
            match r {
                Ok((molecule, used)) => {
                    &&& parse_molecule(bytes@) == Ok::<(MoleculeView<Memory>, nat), MemoryError>(
                        (molecule@, used as nat),
                    )
                    &&& used <= bytes@.len()
                },
                Err(error) => parse_molecule(bytes@) == Err::<
                    (MoleculeView<Memory>, nat),
                    MemoryError,
                >(error),
            },
        decreases bytes@.len(), 0nat,
    {
        let available: usize = bytes.len();
        proof {
            lemma_decoded_atom(bytes@);
        }
        match Atom::try_from(bytes) {
            Err(error) => Err(MemoryError::from_atom_error(error)),
            Ok(atom) => {
                let len: usize = atom.length_in_bytes();
                match atom {
                    Atom::Block { kind, num_children } => {
                        let (children, used) = Self::children_from(bytes, 16, num_children);
                        Ok((Molecule::block(kind, children), 16 + used))
                    },
                    Atom::SmallBlock { kind, num_children } => {
                        let (children, used) = Self::children_from(bytes, 8, num_children as u64);
                        Ok((Molecule::block(kind, children), 8 + used))
                    },
                    Atom::Reference(_) => Err(MemoryError::UnsupportedReference),
                    Atom::Bytes(payload) => Ok((Molecule::Bytes(payload), len)),
                    Atom::FewBytes(payload) => Ok((Molecule::Bytes(payload), len)),
                }
            },
        }
    }

    /// Reads `num_children` molecules, one after the other, from what
    /// follows the first `start` bytes of `bytes`.
    fn children_from(bytes: &[u8], start: usize, num_children: u64) -> (r: (
        Vec<MemoryMolecule>,
        usize,
    ))
        requires
            8 <= start <= bytes@.len(),
        ensures
            molecule_views(r.0@) == parse_children(
                bytes@.skip(start as int),
                num_children as nat,
            ).children,
            r.1 == parse_children(bytes@.skip(start as int), num_children as nat).used,
            start + r.1 <= bytes@.len() <= usize::MAX,
        decreases bytes@.len() - start, 1nat,
    {
        let body = slice_subrange(bytes, start, bytes.len());
        assert(body@ =~= bytes@.skip(start as int));
        let mut children: Vec<MemoryMolecule> = Vec::new();
        let mut used: usize = 0;
        let mut failed: Option<MemoryError> = None;
        let mut i: u64 = 0;
        assert(molecule_views(children@) =~= parse_children(body@, 0).children);
        while i < num_children
            invariant
                i <= num_children,
                8 <= start <= bytes@.len(),
                body@ == bytes@.skip(start as int),
                body@.len() == bytes@.len() - start,
                used <= body@.len(),
                molecule_views(children@) == parse_children(body@, i as nat).children,
                used == parse_children(body@, i as nat).used,
                failed == parse_children(body@, i as nat).error,
            decreases num_children - i,
        {
            let ghost before = molecule_views(children@);
            match failed {
                Some(error) => {
                    children.push(Molecule::Error(error));
                    assert(molecule_views(children@) =~= before.push(
                        MoleculeView::Error(error),
                    ));
                },
                None => {
                    let remaining = slice_subrange(body, used, body.len());
                    assert(remaining@ =~= body@.skip(used as int));
                    match MemoryMolecule::try_from(remaining) {
                        Ok((child, more)) => {
                            children.push(child);
                            used = used + more;
                            assert(molecule_views(children@) =~= before.push(child@));
                        },
                        Err(error) => {
                            children.push(Molecule::Error(error));
                            failed = Some(error);
                            assert(molecule_views(children@) =~= before.push(
                                MoleculeView::Error(error),
                            ));
                        },
                    }
                },
            }
            i += 1;
        }
        (children, used)
    }
}

} // verus!
