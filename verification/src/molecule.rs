//! Molecules: trees of kinded nodes and byte leaves, whatever they mean.
//!
//! A molecule is stored as the atoms of its nodes in depth-first order, each
//! node before its children. A node's atom holds the number of its children,
//! and nothing else marks where a subtree ends.

use crate::atoms::{Atom, AtomView, MAX_VALUE_USING_6_BYTES, MAX_VALUE_USING_7_BYTES};
use crate::source::Source;
use vstd::prelude::*;
use vstd::slice::slice_to_vec;

verus! {

/// A tree of kinded nodes and byte leaves.
#[derive(Debug, PartialEq, Eq)]
pub enum Molecule<S: Source> {
    /// A leaf that holds bytes.
    Bytes(Vec<u8>),
    /// A node of some kind with its children in order.
    Block { kind: u64, children: Vec<Molecule<S>> },
    /// The place of a subtree that could not be read from the source.
    Error(S::Error),
}

/// What a [`Molecule`] holds, as mathematical values.
pub enum MoleculeView<S: Source> {
    Bytes(Seq<u8>),
    Block { kind: u64, children: Seq<MoleculeView<S>> },
    Error(S::Error),
}

impl<S: Source> Molecule<S> {
    /// The tree as mathematical values.
    pub open spec fn model(self) -> MoleculeView<S>
        decreases self,
    {
        match self {
            Molecule::Bytes(bytes) => MoleculeView::Bytes(bytes@),
            Molecule::Block { kind, children } => MoleculeView::Block {
                kind,
                children: Seq::new(
                    children@.len(),
                    |i: int|
                        if 0 <= i < children@.len() {
                            children@[i].model()
                        } else {
                            MoleculeView::Bytes(Seq::empty())
                        },
                ),
            },
            Molecule::Error(error) => MoleculeView::Error(error),
        }
    }
}

impl<S: Source> View for Molecule<S> {
    type V = MoleculeView<S>;

    open spec fn view(&self) -> MoleculeView<S> {
        self.model()
    }
}

/// The views of a sequence of molecules.
pub open spec fn molecule_views<S: Source>(molecules: Seq<Molecule<S>>) -> Seq<MoleculeView<S>> {
    Seq::new(molecules.len(), |i: int| molecules[i]@)
}

/// The views of a sequence of atoms.
pub open spec fn atom_views(atoms: Seq<Atom>) -> Seq<AtomView> {
    Seq::new(atoms.len(), |i: int| atoms[i]@)
}

/// The atom that heads a node of `kind` with `num_children` children: the
/// compact form where the count fits one byte.
pub open spec fn block_atom(kind: u64, num_children: nat) -> AtomView {
    if num_children < 256 {
        AtomView::SmallBlock { kind, num_children: num_children as u8 }
    } else {
        AtomView::Block { kind, num_children: num_children as u64 }
    }
}

/// The atom that holds a leaf's bytes: the compact form where the length
/// fits one byte.
pub open spec fn bytes_atom(bytes: Seq<u8>) -> AtomView {
    if bytes.len() < 256 {
        AtomView::FewBytes(bytes)
    } else {
        AtomView::Bytes(bytes)
    }
}

/// The atoms of the first `n` of `children`, in order.
pub open spec fn atoms_of_children<S: Source>(children: Seq<MoleculeView<S>>, n: nat) -> Seq<
    AtomView,
>
    decreases children, n,
{
    if n == 0 || n > children.len() {
        Seq::empty()
    } else {
        atoms_of_children(children, (n - 1) as nat) + children[n - 1].to_atoms()
    }
}

/// Whether none of the first `n` of `children` holds an error.
pub open spec fn children_error_free<S: Source>(children: Seq<MoleculeView<S>>, n: nat) -> bool
    decreases children, n,
{
    if n == 0 || n > children.len() {
        true
    } else {
        children_error_free(children, (n - 1) as nat) && children[n - 1].error_free()
    }
}

/// Whether each of the first `n` of `children` can be stored.
pub open spec fn children_encodable<S: Source>(children: Seq<MoleculeView<S>>, n: nat) -> bool
    decreases children, n,
{
    if n == 0 || n > children.len() {
        true
    } else {
        children_encodable(children, (n - 1) as nat) && children[n - 1].encodable()
    }
}

impl<S: Source> MoleculeView<S> {
    /// Whether the tree holds no error.
    pub open spec fn error_free(self) -> bool
        decreases self, 0nat,
    {
        match self {
            MoleculeView::Bytes(_) => true,
            MoleculeView::Block { children, .. } => children_error_free(children, children.len()),
            MoleculeView::Error(_) => false,
        }
    }

    /// Whether the tree can be stored: it holds no error, and every kind,
    /// every number of children and every length fits the field of its atom.
    pub open spec fn encodable(self) -> bool
        decreases self, 0nat,
    {
        match self {
            MoleculeView::Bytes(bytes) => bytes.len() <= MAX_VALUE_USING_7_BYTES,
            MoleculeView::Block { kind, children } => {
                &&& kind <= MAX_VALUE_USING_6_BYTES
                &&& children.len() <= u64::MAX
                &&& children_encodable(children, children.len())
            },
            MoleculeView::Error(_) => false,
        }
    }

    /// The atoms of the tree in depth-first order, each node before its
    /// children. An error has no atoms.
    pub open spec fn to_atoms(self) -> Seq<AtomView>
        decreases self, 0nat,
    {
        match self {
            MoleculeView::Bytes(bytes) => seq![bytes_atom(bytes)],
            MoleculeView::Block { kind, children } => seq![block_atom(kind, children.len())]
                + atoms_of_children(children, children.len()),
            MoleculeView::Error(_) => Seq::empty(),
        }
    }
}

impl<S: Source> MoleculeView<S> {
    /// The same tree as one of another source. Where the tree holds an
    /// error, the result is not specified.
    pub open spec fn recast<T: Source>(self) -> MoleculeView<T>
        decreases self,
    {
        match self {
            MoleculeView::Bytes(bytes) => MoleculeView::Bytes(bytes),
            MoleculeView::Block { kind, children } => MoleculeView::Block {
                kind,
                children: Seq::new(
                    children.len(),
                    |i: int|
                        if 0 <= i < children.len() {
                            children[i].recast::<T>()
                        } else {
                            MoleculeView::Bytes(Seq::empty())
                        },
                ),
            },
            MoleculeView::Error(_) => arbitrary(),
        }
    }
}

/// Each of `children` as a tree of another source.
pub open spec fn recast_all<S: Source, T: Source>(children: Seq<MoleculeView<S>>) -> Seq<
    MoleculeView<T>,
> {
    Seq::new(children.len(), |i: int| children[i].recast::<T>())
}

/// The children of a recast node are the recast children of the node.
pub proof fn lemma_recast_block<S: Source, T: Source>(kind: u64, children: Seq<MoleculeView<S>>)
    ensures
        (MoleculeView::Block { kind, children }).recast::<T>() == (MoleculeView::<T>::Block {
            kind,
            children: recast_all::<S, T>(children),
        }),
{
    let molecule = MoleculeView::Block { kind, children };
    assert(molecule.recast::<T>()->children =~= recast_all::<S, T>(children));
}

/// A tree that can be stored holds no error.
pub proof fn lemma_encodable_is_error_free<S: Source>(molecule: MoleculeView<S>)
    requires
        molecule.encodable(),
    ensures
        molecule.error_free(),
    decreases molecule, 0nat,
{
    match molecule {
        MoleculeView::Block { kind, children } => {
            lemma_encodable_are_error_free(children, children.len());
        },
        _ => {},
    }
}

/// Trees that can be stored hold no error.
pub proof fn lemma_encodable_are_error_free<S: Source>(children: Seq<MoleculeView<S>>, n: nat)
    requires
        children_encodable(children, n),
        n <= children.len(),
    ensures
        children_error_free(children, n),
    decreases children, n,
{
    if n > 0 {
        lemma_encodable_are_error_free(children, (n - 1) as nat);
        lemma_encodable_is_error_free(children[n - 1]);
    }
}

/// Whether each of `atoms` can be stored.
pub open spec fn all_encodable(atoms: Seq<AtomView>) -> bool {
    forall|i: int| 0 <= i < atoms.len() ==> (#[trigger] atoms[i]).encodable()
}

/// Every atom of a tree that can be stored can be stored.
pub proof fn lemma_atoms_are_encodable<S: Source>(molecule: MoleculeView<S>)
    requires
        molecule.encodable(),
    ensures
        all_encodable(molecule.to_atoms()),
    decreases molecule, 0nat,
{
    match molecule {
        MoleculeView::Block { kind, children } => {
            lemma_atoms_of_children_are_encodable(children, children.len());
            let head = block_atom(kind, children.len());
            let below = atoms_of_children(children, children.len());
            assert(head.encodable());
            assert forall|i: int| 0 <= i < molecule.to_atoms().len() implies (
            #[trigger] molecule.to_atoms()[i]).encodable() by {
                if i > 0 {
                    assert(molecule.to_atoms()[i] == below[i - 1]);
                }
            }
        },
        MoleculeView::Bytes(bytes) => {
            assert(bytes_atom(bytes).encodable());
        },
        MoleculeView::Error(_) => {},
    }
}

/// Every atom of trees that can be stored can be stored.
pub proof fn lemma_atoms_of_children_are_encodable<S: Source>(
    children: Seq<MoleculeView<S>>,
    n: nat,
)
    requires
        children_encodable(children, n),
        n <= children.len(),
    ensures
        all_encodable(atoms_of_children(children, n)),
    decreases children, n,
{
    if n > 0 {
        lemma_atoms_of_children_are_encodable(children, (n - 1) as nat);
        lemma_atoms_are_encodable(children[n - 1]);
        let before = atoms_of_children(children, (n - 1) as nat);
        let last = children[n - 1].to_atoms();
        let atoms = atoms_of_children(children, n);
        assert forall|i: int| 0 <= i < atoms.len() implies (#[trigger] atoms[i]).encodable() by {
            if i < before.len() {
                assert(atoms[i] == before[i]);
            } else {
                assert(atoms[i] == last[i - before.len()]);
            }
        }
    }
}

/// The view of a node is made of the views of its children.
pub proof fn lemma_block_view<S: Source>(kind: u64, children: Vec<Molecule<S>>)
    ensures
        (Molecule::Block { kind, children })@ == (MoleculeView::Block {
            kind,
            children: molecule_views(children@),
        }),
{
    let molecule = Molecule::Block { kind, children };
    assert(molecule@->children =~= molecule_views(children@));
}

impl<S: Source> Molecule<S> {
    /// A node of `kind` with `children`.
    pub fn block(kind: u64, children: Vec<Molecule<S>>) -> (r: Self)
        ensures
            r@ == (MoleculeView::Block { kind, children: molecule_views(children@) }),
    {
        proof {
            lemma_block_view(kind, children);
        }
        Molecule::Block { kind, children }
    }

    /// The atoms of the tree in depth-first order.
    pub fn to_atoms(&self) -> (atoms: Vec<Atom>)
        requires
            self@.error_free(),
        ensures
            atom_views(atoms@) == self@.to_atoms(),
    {
        let mut atoms: Vec<Atom> = Vec::new();
        self.to_atoms_into(&mut atoms);
        assert(atom_views(atoms@) =~= self@.to_atoms());
        atoms
    }

    /// Appends the atoms of the tree to `output`.
    pub fn to_atoms_into(&self, output: &mut Vec<Atom>)
        requires
            self@.error_free(),
        ensures
            atom_views(final(output)@) == atom_views(old(output)@) + self@.to_atoms(),
        decreases self,
    {
        match self {
            Molecule::Block { kind, children } => {
                proof {
                    lemma_block_view(*kind, *children);
                }
                let head = if children.len() < 256 {
                    Atom::SmallBlock { kind: *kind, num_children: children.len() as u8 }
                } else {
                    Atom::Block { kind: *kind, num_children: children.len() as u64 }
                };
                assert(head@ == block_atom(*kind, children@.len()));
                output.push(head);
                assert(atom_views(output@) =~= atom_views(old(output)@) + seq![head@]);
                Self::children_to_atoms_into(children, output);
                assert(atom_views(output@) =~= atom_views(old(output)@) + self@.to_atoms());
            },
            Molecule::Bytes(bytes) => {
                let atom = if bytes.len() < 256 {
                    Atom::FewBytes(slice_to_vec(bytes.as_slice()))
                } else {
                    Atom::Bytes(slice_to_vec(bytes.as_slice()))
                };
                assert(atom@ == bytes_atom(bytes@));
                output.push(atom);
                assert(atom_views(output@) =~= atom_views(old(output)@) + self@.to_atoms());
            },
            Molecule::Error(_) => {},
        }
    }

    /// Appends the atoms of every tree of `children` to `output`, in order.
    fn children_to_atoms_into(children: &Vec<Molecule<S>>, output: &mut Vec<Atom>)
        requires
            children_error_free(molecule_views(children@), children@.len()),
        ensures
            atom_views(final(output)@) == atom_views(old(output)@) + atoms_of_children(
                molecule_views(children@),
                children@.len(),
            ),
        decreases children,
    {
        let ghost views = molecule_views(children@);
        let mut i: usize = 0;
        while i < children.len()
            invariant
                i <= children@.len(),
                views == molecule_views(children@),
                children_error_free(views, children@.len()),
                atom_views(output@) == atom_views(old(output)@) + atoms_of_children(
                    views,
                    i as nat,
                ),
            decreases children.len() - i,
        {
            let ghost before = output@;
            proof {
                lemma_children_error_free(views, children@.len(), i as int);
            }
            children[i].to_atoms_into(output);
            i += 1;
            assert(atom_views(output@) =~= atom_views(old(output)@) + atoms_of_children(
                views,
                i as nat,
            ));
        }
    }

    /// Whether the tree holds no error.
    pub fn is_error_free(&self) -> (r: bool)
        ensures
            r == self@.error_free(),
        decreases self, 0nat,
    {
        match self {
            Molecule::Bytes(_) => true,
            Molecule::Block { kind, children } => {
                proof {
                    lemma_block_view(*kind, *children);
                }
                Self::are_error_free(children)
            },
            Molecule::Error(_) => false,
        }
    }

    /// Whether none of `children` holds an error.
    fn are_error_free(children: &Vec<Molecule<S>>) -> (r: bool)
        ensures
            r == children_error_free(molecule_views(children@), children@.len()),
        decreases children, 1nat,
    {
        let mut i: usize = 0;
        while i < children.len()
            invariant
                i <= children@.len(),
                children_error_free(molecule_views(children@), i as nat),
            decreases children.len() - i,
        {
            if !children[i].is_error_free() {
                proof {
                    lemma_children_with_error(
                        molecule_views(children@),
                        children@.len(),
                        i as int,
                    );
                }
                return false;
            }
            i += 1;
        }
        true
    }

    /// Whether the tree can be stored.
    pub fn is_encodable(&self) -> (r: bool)
        ensures
            r == self@.encodable(),
        decreases self, 0nat,
    {
        match self {
            Molecule::Bytes(bytes) => bytes.len() as u64 <= MAX_VALUE_USING_7_BYTES,
            Molecule::Block { kind, children } => {
                proof {
                    lemma_block_view(*kind, *children);
                    assert(children@.len() == children.len());
                }
                *kind <= MAX_VALUE_USING_6_BYTES && Self::are_encodable(children)
            },
            Molecule::Error(_) => false,
        }
    }

    /// Whether each of `children` can be stored.
    fn are_encodable(children: &Vec<Molecule<S>>) -> (r: bool)
        ensures
            r == children_encodable(molecule_views(children@), children@.len()),
        decreases children, 1nat,
    {
        let mut i: usize = 0;
        while i < children.len()
            invariant
                i <= children@.len(),
                children_encodable(molecule_views(children@), i as nat),
            decreases children.len() - i,
        {
            if !children[i].is_encodable() {
                proof {
                    lemma_children_not_encodable(
                        molecule_views(children@),
                        children@.len(),
                        i as int,
                    );
                }
                return false;
            }
            i += 1;
        }
        true
    }

    /// A copy of the tree.
    pub fn duplicate(&self) -> (r: Self)
        ensures
            r@ == self@,
        decreases self,
    {
        match self {
            Molecule::Bytes(bytes) => Molecule::Bytes(slice_to_vec(bytes.as_slice())),
            Molecule::Block { kind, children } => {
                let copies = Self::duplicate_all(children);
                proof {
                    lemma_block_view(*kind, *children);
                    lemma_block_view(*kind, copies);
                    assert(molecule_views(copies@) =~= molecule_views(children@));
                }
                Molecule::Block { kind: *kind, children: copies }
            },
            Molecule::Error(error) => Molecule::Error(S::clone_error(error)),
        }
    }

    /// A copy of each tree of `children`.
    pub fn duplicate_all(children: &Vec<Molecule<S>>) -> (copies: Vec<Molecule<S>>)
        ensures
            molecule_views(copies@) == molecule_views(children@),
        decreases children,
    {
        let mut copies: Vec<Molecule<S>> = Vec::new();
        let mut i: usize = 0;
        while i < children.len()
            invariant
                i <= children@.len(),
                copies@.len() == i,
                forall|j: int| 0 <= j < i ==> copies@[j]@ == children@[j]@,
            decreases children.len() - i,
        {
            copies.push(children[i].duplicate());
            i += 1;
        }
        assert(molecule_views(copies@) =~= molecule_views(children@));
        copies
    }
}

impl<S: Source> Clone for Molecule<S> {
    fn clone(&self) -> (r: Self)
        ensures
            r@ == self@,
    {
        self.duplicate()
    }
}

/// A run of children with an error among the first `n` is not error-free.
pub proof fn lemma_children_with_error<S: Source>(
    children: Seq<MoleculeView<S>>,
    n: nat,
    i: int,
)
    requires
        n <= children.len(),
        0 <= i < n,
        !children[i].error_free(),
    ensures
        !children_error_free(children, n),
    decreases n,
{
    if i < n - 1 {
        lemma_children_with_error(children, (n - 1) as nat, i);
    }
}

/// A run of children cannot be stored if one of the first `n` cannot.
pub proof fn lemma_children_not_encodable<S: Source>(
    children: Seq<MoleculeView<S>>,
    n: nat,
    i: int,
)
    requires
        n <= children.len(),
        0 <= i < n,
        !children[i].encodable(),
    ensures
        !children_encodable(children, n),
    decreases n,
{
    if i < n - 1 {
        lemma_children_not_encodable(children, (n - 1) as nat, i);
    }
}

/// Each of the first `n` children of a run that can be stored can be stored.
pub proof fn lemma_children_encodable<S: Source>(
    children: Seq<MoleculeView<S>>,
    n: nat,
    i: int,
)
    requires
        children_encodable(children, n),
        n <= children.len(),
        0 <= i < n,
    ensures
        children[i].encodable(),
    decreases n,
{
    if i < n - 1 {
        lemma_children_encodable(children, (n - 1) as nat, i);
    }
}

/// A run of children can be stored if each of the first `n` can.
pub proof fn lemma_children_all_encodable<S: Source>(children: Seq<MoleculeView<S>>, n: nat)
    requires
        n <= children.len(),
        forall|i: int| 0 <= i < n ==> (#[trigger] children[i]).encodable(),
    ensures
        children_encodable(children, n),
    decreases n,
{
    if n > 0 {
        lemma_children_all_encodable(children, (n - 1) as nat);
    }
}

/// Each of the first `n` children of an error-free run is error-free.
pub proof fn lemma_children_error_free<S: Source>(
    children: Seq<MoleculeView<S>>,
    n: nat,
    i: int,
)
    requires
        children_error_free(children, n),
        n <= children.len(),
        0 <= i < n,
    ensures
        children[i].error_free(),
    decreases n,
{
    if i < n - 1 {
        lemma_children_error_free(children, (n - 1) as nat, i);
    }
}

} // verus!
