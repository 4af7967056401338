//! Reading molecules from a flat run of atoms.
//!
//! A run of atoms is read like the bytes that store it: a node is followed
//! by as many subtrees as its atom announces, and where the atoms end early
//! the children that are missing are errors.

use crate::atoms::{Atom, AtomView};
use crate::memory::{at_most, Memory, MemoryError, MemoryMolecule, ParsedChildren};
use crate::molecule::{
    atom_views, atoms_of_children, block_atom, bytes_atom, children_encodable,
    lemma_recast_block, molecule_views, recast_all, Molecule, MoleculeView,
};
use crate::source::Source;
use vstd::prelude::*;
use vstd::slice::{slice_subrange, slice_to_vec};

verus! {

/// The molecule that `atoms` start with and the number of atoms that it is
/// made of, or the reason why there is none.
pub open spec fn read_molecule(atoms: Seq<AtomView>) -> Result<
    (MoleculeView<Memory>, nat),
    MemoryError,
>
    decreases atoms.len(), 0nat,
{
    if atoms.len() == 0 {
        Err(MemoryError::UnexpectedEnd)
    } else {
        match atoms[0] {
            AtomView::Block { kind, num_children } => {
                let read = read_children(atoms.skip(1), num_children as nat);
                Ok((MoleculeView::Block { kind, children: read.children }, 1 + read.used))
            },
            AtomView::SmallBlock { kind, num_children } => {
                let read = read_children(atoms.skip(1), num_children as nat);
                Ok((MoleculeView::Block { kind, children: read.children }, 1 + read.used))
            },
            AtomView::Reference(_) => Err(MemoryError::UnsupportedReference),
            AtomView::Bytes(payload) => Ok((MoleculeView::Bytes(payload), 1)),
            AtomView::FewBytes(payload) => Ok((MoleculeView::Bytes(payload), 1)),
        }
    }
}

/// The first `n` children that `atoms` hold, one molecule after the other.
/// Here [`ParsedChildren::used`] counts atoms.
///
/// Once a child cannot be read, it and every later child is an error that
/// holds the reason. The children that were read never occupy more than
/// was given ([`lemma_read_children_stays_within`]), so that the limit that is put
/// on their number here changes nothing.
pub open spec fn read_children(atoms: Seq<AtomView>, n: nat) -> ParsedChildren
    decreases atoms.len(), n + 1,
{
    if n == 0 {
        ParsedChildren { children: Seq::empty(), used: 0, error: None }
    } else {
        let before = read_children(atoms, (n - 1) as nat);
        match before.error {
            Some(error) => ParsedChildren {
                children: before.children.push(MoleculeView::Error(error)),
                used: before.used,
                error: before.error,
            },
            None => {
                let at = at_most(before.used, atoms.len());
                match read_molecule(atoms.skip(at as int)) {
                    Ok((child, used)) => ParsedChildren {
                        children: before.children.push(child),
                        used: at + used,
                        error: None,
                    },
                    Err(error) => ParsedChildren {
                        children: before.children.push(MoleculeView::Error(error)),
                        used: at,
                        error: Some(error),
                    },
                }
            },
        }
    }
}

/// The molecule that `atoms` hold: what [`read_molecule`] finds, or an error
/// that holds the reason why it finds nothing.
pub open spec fn molecule_of_atoms(atoms: Seq<AtomView>) -> MoleculeView<Memory> {
    match read_molecule(atoms) {
        Ok((molecule, _)) => molecule,
        Err(error) => MoleculeView::Error(error),
    }
}

/// Reading never goes beyond the atoms it was given.
pub proof fn lemma_read_stays_within(atoms: Seq<AtomView>)
    ensures
        read_molecule(atoms) matches Ok((_, used)) ==> 1 <= used <= atoms.len(),
    decreases atoms.len(), 0nat,
{
    if atoms.len() > 0 {
        match atoms[0] {
            AtomView::Block { kind, num_children } => {
                lemma_read_children_stays_within(atoms.skip(1), num_children as nat);
            },
            AtomView::SmallBlock { kind, num_children } => {
                lemma_read_children_stays_within(atoms.skip(1), num_children as nat);
            },
            _ => {},
        }
    }
}

/// Reading children never goes beyond the atoms it was given, and gives
/// exactly as many children as were asked for.
pub proof fn lemma_read_children_stays_within(atoms: Seq<AtomView>, n: nat)
    ensures
        read_children(atoms, n).used <= atoms.len(),
        read_children(atoms, n).children.len() == n,
    decreases atoms.len(), n + 1,
{
    if n > 0 {
        lemma_read_children_stays_within(atoms, (n - 1) as nat);
        let before = read_children(atoms, (n - 1) as nat);
        if before.error is None {
            lemma_read_stays_within(atoms.skip(before.used as int));
        }
    }
}

/// Reading finds a tree again at the start of any run of atoms that begins
/// with its atoms, and tells how many atoms it is made of.
pub proof fn lemma_read_atoms_of<S: Source>(molecule: MoleculeView<S>, rest: Seq<AtomView>)
    requires
        molecule.encodable(),
    ensures
        read_molecule(molecule.to_atoms() + rest) == Ok::<
            (MoleculeView<Memory>, nat),
            MemoryError,
        >((molecule.recast::<Memory>(), molecule.to_atoms().len())),
    decreases molecule, 0nat,
{
    let atoms = molecule.to_atoms() + rest;
    match molecule {
        MoleculeView::Bytes(payload) => {
            assert(atoms[0] == bytes_atom(payload));
        },
        MoleculeView::Block { kind, children } => {
            let below = atoms_of_children(children, children.len());
            assert(atoms[0] == block_atom(kind, children.len()));
            assert(atoms.skip(1) =~= below + rest);
            lemma_read_atoms_of_children(children, children.len(), children.len(), rest);
            lemma_recast_block::<S, Memory>(kind, children);
            assert(recast_all::<S, Memory>(children).take(children.len() as int)
                =~= recast_all::<S, Memory>(children));
        },
        MoleculeView::Error(_) => {},
    }
}

/// Reading `k` children from the atoms of `n` children finds the first `k`
/// of them again.
pub proof fn lemma_read_atoms_of_children<S: Source>(
    children: Seq<MoleculeView<S>>,
    n: nat,
    k: nat,
    rest: Seq<AtomView>,
)
    requires
        children_encodable(children, n),
        k <= n <= children.len(),
    ensures
        read_children(atoms_of_children(children, n) + rest, k) == (ParsedChildren {
            children: recast_all::<S, Memory>(children).take(k as int),
            used: atoms_of_children(children, k).len(),
            error: None,
        }),
    decreases children, n,
{
    let atoms = atoms_of_children(children, n) + rest;
    if k == 0 {
        assert(recast_all::<S, Memory>(children).take(0) =~= Seq::empty());
    } else {
        let last = children[n - 1];
        let tail = last.to_atoms() + rest;
        assert(atoms =~= atoms_of_children(children, (n - 1) as nat) + tail);
        if k < n {
            lemma_read_atoms_of_children(children, (n - 1) as nat, k, tail);
        } else {
            lemma_read_atoms_of_children(children, (n - 1) as nat, (n - 1) as nat, tail);
            let before = read_children(atoms, (n - 1) as nat);
            assert(atoms.skip(before.used as int) =~= tail);
            lemma_read_atoms_of(last, rest);
            assert(recast_all::<S, Memory>(children).take(n as int) =~= recast_all::<S, Memory>(
                children,
            ).take(n - 1).push(last.recast::<Memory>()));
        }
    }
}

impl Molecule<Memory> {
    /// Reads the molecule that `atoms` hold. What cannot be read becomes an
    /// error in the tree.
    pub fn from_atoms(atoms: &[Atom]) -> (r: MemoryMolecule)
        ensures
            r@ == molecule_of_atoms(atom_views(atoms@)),
    {
        match MemoryMolecule::try_from_atoms(atoms) {
            Ok((molecule, _)) => molecule,
            Err(error) => Molecule::Error(error),
        }
    }

    /// Reads the molecule that `atoms` start with, and tells how many atoms
    /// it is made of.
    pub fn try_from_atoms(atoms: &[Atom]) -> (r: Result<(MemoryMolecule, usize), MemoryError>)
        ensures
            match r {
                Ok((molecule, used)) => {
                    &&& read_molecule(atom_views(atoms@)) == Ok::<
                        (MoleculeView<Memory>, nat),
                        MemoryError,
                    >((molecule@, used as nat))
                    &&& used <= atoms@.len()
                },
                Err(error) => read_molecule(atom_views(atoms@)) == Err::<
                    (MoleculeView<Memory>, nat),
                    MemoryError,
                >(error),
            },
        decreases atoms@.len(), 0nat,
    {
        let available: usize = atoms.len();
        if available == 0 {
            return Err(MemoryError::UnexpectedEnd);
        }
        assert(atom_views(atoms@)[0] == atoms@[0]@);
        match &atoms[0] {
            Atom::Block { kind, num_children } => {
                let (children, used) = Self::children_from_atoms(atoms, *num_children);
                Ok((Molecule::block(*kind, children), 1 + used))
            },
            Atom::SmallBlock { kind, num_children } => {
                let (children, used) = Self::children_from_atoms(atoms, *num_children as u64);
                Ok((Molecule::block(*kind, children), 1 + used))
            },
            Atom::Reference(_) => Err(MemoryError::UnsupportedReference),
            Atom::Bytes(payload) => Ok((Molecule::Bytes(slice_to_vec(payload.as_slice())), 1)),
            Atom::FewBytes(payload) => Ok(
                (Molecule::Bytes(slice_to_vec(payload.as_slice())), 1),
            ),
        }
    }

    /// Reads `num_children` molecules, one after the other, from what
    /// follows the first of `atoms`.
    fn children_from_atoms(atoms: &[Atom], num_children: u64) -> (r: (Vec<MemoryMolecule>, usize))
        requires
            1 <= atoms@.len(),
        ensures
            molecule_views(r.0@) == read_children(
                atom_views(atoms@).skip(1),
                num_children as nat,
            ).children,
            r.1 == read_children(atom_views(atoms@).skip(1), num_children as nat).used,
            1 + r.1 <= atoms@.len() <= usize::MAX,
        decreases atoms@.len() - 1, 1nat,
    {
        let body = slice_subrange(atoms, 1, atoms.len());
        assert(atom_views(body@) =~= atom_views(atoms@).skip(1));
        let ghost views = atom_views(body@);
        let mut children: Vec<MemoryMolecule> = Vec::new();
        let mut used: usize = 0;
        let mut failed: Option<MemoryError> = None;
        let mut i: u64 = 0;
        assert(molecule_views(children@) =~= read_children(views, 0).children);
        while i < num_children
            invariant
                i <= num_children,
                1 <= atoms@.len(),
                views == atom_views(body@),
                body@.len() == atoms@.len() - 1,
                used <= body@.len(),
                molecule_views(children@) == read_children(views, i as nat).children,
                used == read_children(views, i as nat).used,
                failed == read_children(views, i as nat).error,
            decreases num_children - i,
        {
            let ghost before = molecule_views(children@);
            match failed {
                Some(error) => {
                    children.push(Molecule::Error(error));
                    assert(molecule_views(children@) =~= before.push(
                        MoleculeView::Error(error),
                    ));
                },
                None => {
                    let remaining = slice_subrange(body, used, body.len());
                    assert(atom_views(remaining@) =~= views.skip(used as int));
                    match MemoryMolecule::try_from_atoms(remaining) {
                        Ok((child, more)) => {
                            children.push(child);
                            used = used + more;
                            assert(molecule_views(children@) =~= before.push(child@));
                        },
                        Err(error) => {
                            children.push(Molecule::Error(error));
                            failed = Some(error);
                            assert(molecule_views(children@) =~= before.push(
                                MoleculeView::Error(error),
                            ));
                        },
                    }
                },
            }
            i += 1;
        }
        (children, used)
    }
}

} // verus!
