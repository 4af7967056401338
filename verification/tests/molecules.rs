use semdoc::atoms::{Atom, AtomError};
use semdoc::memory::{Memory, MemoryError, MemoryMolecule};
use semdoc::molecule::Molecule;
use semdoc::source::Pure;

fn leaf(bytes: &[u8]) -> Molecule<Pure> {
    Molecule::Bytes(bytes.to_vec())
}

fn read_leaf(bytes: &[u8]) -> MemoryMolecule {
    Molecule::Bytes(bytes.to_vec())
}

fn bytes_of(molecule: &Molecule<Pure>) -> Vec<u8> {
    let mut bytes = vec![];
    for atom in molecule.to_atoms() {
        bytes.extend_from_slice(&atom.to_bytes());
    }
    bytes
}

fn missing() -> MemoryMolecule {
    Molecule::Error(MemoryError::UnexpectedEnd)
}

#[test]
fn block_builds_a_node() {
    let node: Molecule<Pure> = Molecule::block(7, vec![leaf(&[1])]);
    assert_eq!(node, Molecule::Block { kind: 7, children: vec![leaf(&[1])] });
}

#[test]
fn atoms_come_in_depth_first_order() {
    let tree: Molecule<Pure> = Molecule::block(
        2,
        vec![
            Molecule::block(1, vec![leaf(b"ab")]),
            Molecule::block(4, vec![leaf(b"c"), Molecule::block(0, vec![])]),
            leaf(b"d"),
        ],
    );
    assert_eq!(
        tree.to_atoms(),
        vec![
            Atom::SmallBlock { kind: 2, num_children: 3 },
            Atom::SmallBlock { kind: 1, num_children: 1 },
            Atom::FewBytes(b"ab".to_vec()),
            Atom::SmallBlock { kind: 4, num_children: 2 },
            Atom::FewBytes(b"c".to_vec()),
            Atom::SmallBlock { kind: 0, num_children: 0 },
            Atom::FewBytes(b"d".to_vec()),
        ]
    );
}

#[test]
fn a_node_with_255_children_gets_the_compact_atom() {
    let children: Vec<Molecule<Pure>> = (0..255).map(|_| leaf(&[])).collect();
    let atoms = Molecule::block(3, children).to_atoms();
    assert_eq!(atoms.len(), 256);
    assert_eq!(atoms[0], Atom::SmallBlock { kind: 3, num_children: 255 });
}

#[test]
fn a_node_with_256_children_gets_the_regular_atom() {
    let children: Vec<Molecule<Pure>> = (0..256).map(|_| leaf(&[])).collect();
    let atoms = Molecule::block(3, children).to_atoms();
    assert_eq!(atoms.len(), 257);
    assert_eq!(atoms[0], Atom::Block { kind: 3, num_children: 256 });
}

#[test]
fn a_leaf_of_255_bytes_gets_the_compact_atom() {
    assert_eq!(leaf(&[7; 255]).to_atoms(), vec![Atom::FewBytes(vec![7; 255])]);
}

#[test]
fn a_leaf_of_256_bytes_gets_the_regular_atom() {
    assert_eq!(leaf(&[7; 256]).to_atoms(), vec![Atom::Bytes(vec![7; 256])]);
}

#[test]
fn appended_atoms_follow_what_was_there() {
    let mut atoms = vec![Atom::Reference(1)];
    leaf(&[1, 2]).to_atoms_into(&mut atoms);
    assert_eq!(atoms, vec![Atom::Reference(1), Atom::FewBytes(vec![1, 2])]);
}

#[test]
fn a_stored_molecule_is_read_back() {
    let tree: Molecule<Pure> = Molecule::block(
        2,
        vec![
            Molecule::block(1, vec![leaf(b"title")]),
            Molecule::block(4, vec![leaf(&[9; 300]), Molecule::block(0, vec![]), leaf(b"")]),
        ],
    );
    let read = MemoryMolecule::from(&bytes_of(&tree));
    let expected: MemoryMolecule = Molecule::block(
        2,
        vec![
            Molecule::block(1, vec![read_leaf(b"title")]),
            Molecule::block(
                4,
                vec![read_leaf(&[9; 300]), Molecule::block(0, vec![]), read_leaf(b"")],
            ),
        ],
    );
    assert_eq!(read, expected);
}

#[test]
fn reading_tells_how_many_bytes_a_molecule_occupies() {
    let tree: Molecule<Pure> = Molecule::block(5, vec![leaf(b"1234567"), leaf(b"12")]);
    let mut bytes = bytes_of(&tree);
    assert_eq!(bytes.len(), 8 + 16 + 8);
    bytes.extend_from_slice(&[1, 0, 0, 0, 0, 0, 0, 0]);
    let (read, used) = MemoryMolecule::try_from(&bytes).unwrap();
    assert_eq!(used, 32);
    assert_eq!(read, Molecule::block(5, vec![read_leaf(b"1234567"), read_leaf(b"12")]));
}

#[test]
fn a_node_with_many_children_is_read_back() {
    let children: Vec<Molecule<Pure>> = (0..300).map(|i| leaf(&[i as u8])).collect();
    let tree = Molecule::block(3, children);
    let read = MemoryMolecule::from(&bytes_of(&tree));
    let expected: Vec<MemoryMolecule> = (0..300).map(|i| read_leaf(&[i as u8])).collect();
    assert_eq!(read, Molecule::block(3, expected));
}

#[test]
fn missing_children_are_errors() {
    // A node that announces three children, followed by one.
    let mut bytes = Atom::SmallBlock { kind: 4, num_children: 3 }.to_bytes();
    bytes.extend_from_slice(&Atom::FewBytes(b"only".to_vec()).to_bytes());
    let read = MemoryMolecule::from(&bytes);
    assert_eq!(read, Molecule::block(4, vec![read_leaf(b"only"), missing(), missing()]));
}

#[test]
fn missing_children_of_a_regular_block_are_errors() {
    let bytes = Atom::Block { kind: 4, num_children: 2 }.to_bytes();
    let read = MemoryMolecule::from(&bytes);
    assert_eq!(read, Molecule::block(4, vec![missing(), missing()]));
}

#[test]
fn children_that_are_cut_off_are_errors() {
    let tree: Molecule<Pure> = Molecule::block(
        2,
        vec![Molecule::block(1, vec![leaf(b"a long text that is cut off")]), leaf(b"x")],
    );
    let bytes = bytes_of(&tree);
    let read = MemoryMolecule::from(&bytes[..24]);
    assert_eq!(
        read,
        Molecule::block(2, vec![Molecule::block(1, vec![missing()]), missing()])
    );
}

#[test]
fn nothing_is_an_error() {
    assert_eq!(MemoryMolecule::from(&[]), missing());
    assert_eq!(MemoryMolecule::try_from(&[]), Err(MemoryError::UnexpectedEnd));
    assert_eq!(MemoryMolecule::from(&[1, 2, 3]), missing());
}

#[test]
fn an_atom_that_cannot_be_decoded_is_an_error() {
    assert_eq!(
        MemoryMolecule::from(&[9, 0, 0, 0, 0, 0, 0, 0]),
        Molecule::Error(MemoryError::UnknownType(9))
    );
    let mut bytes = Atom::SmallBlock { kind: 3, num_children: 2 }.to_bytes();
    bytes.extend_from_slice(&[77, 0, 0, 0, 0, 0, 0, 0]);
    bytes.extend_from_slice(&Atom::FewBytes(vec![1]).to_bytes());
    let unknown = || -> MemoryMolecule { Molecule::Error(MemoryError::UnknownType(77)) };
    assert_eq!(MemoryMolecule::from(&bytes), Molecule::block(3, vec![unknown(), unknown()]));
}

#[test]
fn padding_that_is_not_zero_is_an_error_in_the_tree() {
    let mut bytes = Atom::SmallBlock { kind: 3, num_children: 2 }.to_bytes();
    bytes.extend_from_slice(&Atom::FewBytes(vec![1]).to_bytes());
    bytes.extend_from_slice(&[2, 0, 0, 0, 0, 0, 0, 1, 7, 0, 0, 0, 0, 0, 0, 9]);
    assert_eq!(
        MemoryMolecule::from(&bytes),
        Molecule::block(
            3,
            vec![read_leaf(&[1]), Molecule::Error(MemoryError::AlignmentNotZero)]
        )
    );
}

#[test]
fn errors_of_the_atom_layer_are_kept() {
    assert_eq!(
        MemoryError::from_atom_error(AtomError::UnexpectedEnd),
        MemoryError::UnexpectedEnd
    );
    assert_eq!(
        MemoryError::from_atom_error(AtomError::UnknownType(200)),
        MemoryError::UnknownType(200)
    );
    assert_eq!(
        MemoryError::from_atom_error(AtomError::AlignmentNotZero),
        MemoryError::AlignmentNotZero
    );
}

#[test]
fn a_reference_is_not_supported() {
    let bytes = Atom::Reference(8).to_bytes();
    assert_eq!(
        MemoryMolecule::from(&bytes),
        Molecule::Error(MemoryError::UnsupportedReference)
    );
    assert_eq!(MemoryMolecule::try_from(&bytes), Err(MemoryError::UnsupportedReference));
}

#[test]
fn a_reference_among_children_is_an_error_that_the_rest_of_the_children_share() {
    let mut bytes = Atom::SmallBlock { kind: 3, num_children: 3 }.to_bytes();
    bytes.extend_from_slice(&Atom::FewBytes(vec![1]).to_bytes());
    bytes.extend_from_slice(&Atom::Reference(8).to_bytes());
    bytes.extend_from_slice(&Atom::FewBytes(vec![2]).to_bytes());
    let unsupported = || -> MemoryMolecule { Molecule::Error(MemoryError::UnsupportedReference) };
    assert_eq!(
        MemoryMolecule::from(&bytes),
        Molecule::block(3, vec![read_leaf(&[1]), unsupported(), unsupported()])
    );
}

#[test]
fn a_leaf_without_its_padding_is_an_error() {
    let bytes = [3, 7, 1, 2, 3, 4, 5, 6, 7];
    assert_eq!(MemoryMolecule::try_from(&bytes), Err(MemoryError::UnexpectedEnd));
    let bytes = [3, 7, 1, 2, 3, 4, 5, 6, 7, 0, 0, 0, 0, 0, 0, 0, 9];
    assert_eq!(
        MemoryMolecule::try_from(&bytes),
        Ok((read_leaf(&[1, 2, 3, 4, 5, 6, 7]), 16))
    );
}

#[test]
fn atoms_are_read_back_as_the_molecule() {
    let tree: Molecule<Pure> = Molecule::block(
        2,
        vec![Molecule::block(1, vec![leaf(b"ab")]), leaf(&[5; 260]), Molecule::block(0, vec![])],
    );
    let read = MemoryMolecule::from_atoms(&tree.to_atoms());
    let expected: MemoryMolecule = Molecule::block(
        2,
        vec![
            Molecule::block(1, vec![read_leaf(b"ab")]),
            read_leaf(&[5; 260]),
            Molecule::block(0, vec![]),
        ],
    );
    assert_eq!(read, expected);
}

#[test]
fn reading_atoms_tells_how_many_were_used() {
    let atoms = vec![
        Atom::SmallBlock { kind: 1, num_children: 1 },
        Atom::Bytes(vec![1, 2, 3]),
        Atom::FewBytes(vec![4]),
    ];
    assert_eq!(
        MemoryMolecule::try_from_atoms(&atoms),
        Ok((Molecule::block(1, vec![read_leaf(&[1, 2, 3])]), 2))
    );
}

#[test]
fn missing_atoms_are_errors() {
    let atoms = vec![Atom::Block { kind: 6, num_children: 3 }, Atom::FewBytes(vec![4])];
    assert_eq!(
        MemoryMolecule::from_atoms(&atoms),
        Molecule::block(6, vec![read_leaf(&[4]), missing(), missing()])
    );
    assert_eq!(MemoryMolecule::from_atoms(&[]), missing());
}

#[test]
fn a_reference_among_atoms_is_not_supported() {
    assert_eq!(
        MemoryMolecule::from_atoms(&[Atom::Reference(0)]),
        Molecule::Error(MemoryError::UnsupportedReference)
    );
}

#[test]
fn molecules_tell_whether_they_can_be_stored() {
    let fine: Molecule<Pure> = Molecule::block(1, vec![leaf(b"x")]);
    assert!(fine.is_error_free());
    assert!(fine.is_encodable());
    let kind_too_big: Molecule<Pure> = Molecule::block(1 << 48, vec![]);
    assert!(kind_too_big.is_error_free());
    assert!(!kind_too_big.is_encodable());
    let nested: Molecule<Pure> = Molecule::block(1, vec![Molecule::block(1 << 48, vec![])]);
    assert!(!nested.is_encodable());
    let broken: Molecule<Memory> = Molecule::block(1, vec![read_leaf(b"x"), missing()]);
    assert!(!broken.is_error_free());
    assert!(!broken.is_encodable());
}

#[test]
fn a_copy_of_a_molecule_is_equal_to_it() {
    let tree: Molecule<Memory> =
        Molecule::block(2, vec![Molecule::block(1, vec![read_leaf(b"ab")]), missing()]);
    assert_eq!(tree.clone(), tree);
    assert_eq!(tree.duplicate(), tree);
}
