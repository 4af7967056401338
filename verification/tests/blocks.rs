use semdoc::blocks::{kinds, Block, BlockError, Error};
use semdoc::memory::{Memory, MemoryError};
use semdoc::molecule::Molecule;
use semdoc::source::Pure;

type B = Block<Pure>;
type M = Molecule<Pure>;

fn t(text: &str) -> B {
    Block::Text(text.to_string())
}

fn leaf(text: &str) -> M {
    Molecule::Bytes(text.as_bytes().to_vec())
}

fn text_molecule(text: &str) -> M {
    Molecule::block(1, vec![leaf(text)])
}

fn section(title: B, body: B) -> B {
    Block::Section { title: Box::new(title), body: Box::new(body) }
}

fn block_error(error: BlockError) -> B {
    Block::Error(Error::BlockLayer(error))
}

fn sample_blocks() -> Vec<B> {
    vec![
        Block::Empty,
        t(""),
        t("a"),
        section(t("title"), t("body")),
        section(t(""), t("body")),
        section(Block::Empty, Block::Empty),
        section(Block::Flow(vec![t("")]), section(t(""), t(""))),
        Block::Flow(vec![]),
        Block::Flow(vec![t("a")]),
        Block::Flow(vec![t("a"), t("b")]),
        Block::Flow(vec![t("a"), t(""), t("b"), Block::Empty, section(t("c"), t("d")), t("e")]),
        Block::Flow(vec![Block::Flow(vec![t("a"), t("b")]), t("c")]),
        Block::Flow(vec![Block::Paragraphs(vec![t("a")]), Block::Flow(vec![t("b")])]),
        Block::Flow(vec![section(t(""), t("x")), t("y")]),
        Block::Paragraphs(vec![]),
        Block::Paragraphs(vec![t("")]),
        Block::Paragraphs(vec![t("a"), t("b")]),
        Block::Paragraphs(vec![Block::Empty, t("a"), Block::Flow(vec![])]),
        Block::BulletList(vec![]),
        Block::BulletList(vec![t(""), t("a"), Block::Empty]),
        Block::OrderedList(vec![Block::Flow(vec![t("a"), t("b")]), t("")]),
        block_error(BlockError::UnknownKind),
        Block::Flow(vec![block_error(BlockError::UnknownKind), t("a"), t("b")]),
    ]
}

#[test]
fn the_kinds_are_fixed() {
    assert_eq!(kinds::EMPTY, 0);
    assert_eq!(kinds::TEXT, 1);
    assert_eq!(kinds::SECTION, 2);
    assert_eq!(kinds::FLOW, 3);
    assert_eq!(kinds::PARAGRAPHS, 4);
    assert_eq!(kinds::BULLET_LIST, 5);
    assert_eq!(kinds::ORDERED_LIST, 6);
}

#[test]
fn only_the_empty_block_is_empty() {
    assert!(B::Empty.is_empty());
    assert!(!t("").is_empty());
    assert!(!B::Flow(vec![]).is_empty());
    assert!(!block_error(BlockError::UnknownKind).is_empty());
}

#[test]
fn blocks_become_molecules_of_their_kind() {
    assert_eq!(B::Empty.to_molecule(), Molecule::block(0, vec![]));
    assert_eq!(t("hi").to_molecule(), Molecule::block(1, vec![leaf("hi")]));
    assert_eq!(
        section(t("a"), B::Empty).to_molecule(),
        Molecule::block(2, vec![text_molecule("a"), Molecule::block(0, vec![])])
    );
    assert_eq!(
        B::Flow(vec![t("a"), t("b")]).to_molecule(),
        Molecule::block(3, vec![text_molecule("a"), text_molecule("b")])
    );
    assert_eq!(
        B::Paragraphs(vec![t("a")]).to_molecule(),
        Molecule::block(4, vec![text_molecule("a")])
    );
    assert_eq!(
        B::BulletList(vec![t("a")]).to_molecule(),
        Molecule::block(5, vec![text_molecule("a")])
    );
    assert_eq!(B::OrderedList(vec![]).to_molecule(), Molecule::block(6, vec![]));
}

#[test]
fn a_text_is_stored_as_utf8() {
    assert_eq!(
        t("é√").to_molecule(),
        Molecule::block(1, vec![Molecule::Bytes(vec![0xc3, 0xa9, 0xe2, 0x88, 0x9a])])
    );
}

#[test]
fn molecules_become_blocks_of_their_kind() {
    assert_eq!(B::from(&Molecule::block(0, vec![])), B::Empty);
    assert_eq!(B::from(&text_molecule("hi")), t("hi"));
    assert_eq!(
        B::from(&Molecule::block(2, vec![text_molecule("a"), text_molecule("b")])),
        section(t("a"), t("b"))
    );
    assert_eq!(
        B::from(&Molecule::block(3, vec![text_molecule("a"), Molecule::block(0, vec![])])),
        B::Flow(vec![t("a"), B::Empty])
    );
    assert_eq!(B::from(&Molecule::block(4, vec![])), B::Paragraphs(vec![]));
    assert_eq!(
        B::from(&Molecule::block(5, vec![text_molecule("a")])),
        B::BulletList(vec![t("a")])
    );
    assert_eq!(
        B::from(&Molecule::block(6, vec![text_molecule("a")])),
        B::OrderedList(vec![t("a")])
    );
}

#[test]
fn utf8_is_read_as_text() {
    let molecule: M = Molecule::block(1, vec![Molecule::Bytes(vec![0xc3, 0xa9, 0xe2, 0x88, 0x9a])]);
    assert_eq!(B::from(&molecule), t("é√"));
    assert_eq!(B::try_from(1, vec![Molecule::Bytes(vec![])]), Ok(t("")));
}

#[test]
fn what_a_block_does_not_need_is_ignored() {
    assert_eq!(B::try_from(0, vec![leaf("x")]), Ok(B::Empty));
    assert_eq!(B::try_from(1, vec![leaf("x"), leaf("y")]), Ok(t("x")));
    assert_eq!(
        B::try_from(2, vec![text_molecule("a"), text_molecule("b"), text_molecule("c")]),
        Ok(section(t("a"), t("b")))
    );
}

#[test]
fn a_leaf_is_not_a_block() {
    assert_eq!(B::from(&leaf("x")), block_error(BlockError::ExpectedBlock));
}

#[test]
fn an_unknown_kind_is_an_error() {
    assert_eq!(B::try_from(7, vec![]), Err(BlockError::UnknownKind));
    assert_eq!(B::try_from(u64::MAX, vec![leaf("x")]), Err(BlockError::UnknownKind));
    assert_eq!(B::from(&Molecule::block(7, vec![])), block_error(BlockError::UnknownKind));
}

#[test]
fn a_text_needs_a_child() {
    assert_eq!(B::try_from(1, vec![]), Err(BlockError::TooFewMolecules));
    assert_eq!(B::from(&Molecule::block(1, vec![])), block_error(BlockError::TooFewMolecules));
}

#[test]
fn a_section_needs_two_children() {
    assert_eq!(B::try_from(2, vec![]), Err(BlockError::TooFewMolecules));
    assert_eq!(B::try_from(2, vec![text_molecule("a")]), Err(BlockError::TooFewMolecules));
}

#[test]
fn the_child_of_a_text_has_to_be_a_leaf() {
    assert_eq!(B::try_from(1, vec![Molecule::block(0, vec![])]), Err(BlockError::ExpectedBytes));
    let broken: Molecule<Memory> =
        Molecule::block(1, vec![Molecule::Error(MemoryError::UnexpectedEnd)]);
    assert_eq!(
        Block::from(&broken),
        Block::Error(Error::BlockLayer(BlockError::ExpectedBytes))
    );
}

#[test]
fn the_bytes_of_a_text_have_to_be_utf8() {
    for bytes in [vec![0xff], vec![b'a', 0x80], vec![0xc3], vec![0xed, 0xa0, 0x80], vec![0xc0, 0x80]]
    {
        assert_eq!(
            B::try_from(1, vec![Molecule::Bytes(bytes)]),
            Err(BlockError::InvalidUtf8Encoding)
        );
    }
}

#[test]
fn an_error_of_the_source_is_kept() {
    let molecule: Molecule<Memory> = Molecule::Error(MemoryError::UnexpectedEnd);
    assert_eq!(Block::from(&molecule), Block::Error(Error::LowerLayer(MemoryError::UnexpectedEnd)));
}

#[test]
fn errors_stay_where_they_are_found() {
    let molecule: Molecule<Memory> = Molecule::block(
        4,
        vec![
            Molecule::block(1, vec![Molecule::Bytes(b"fine".to_vec())]),
            Molecule::block(9, vec![]),
            Molecule::Error(MemoryError::UnsupportedReference),
            Molecule::Bytes(vec![]),
        ],
    );
    assert_eq!(
        Block::from(&molecule),
        Block::Paragraphs(vec![
            Block::Text("fine".to_string()),
            Block::Error(Error::BlockLayer(BlockError::UnknownKind)),
            Block::Error(Error::LowerLayer(MemoryError::UnsupportedReference)),
            Block::Error(Error::BlockLayer(BlockError::ExpectedBlock)),
        ])
    );
}

#[test]
fn blocks_are_read_back_from_their_molecules() {
    for block in sample_blocks() {
        if block.is_error_free() {
            assert_eq!(B::from(&block.to_molecule()), block);
        }
    }
}

#[test]
fn an_empty_text_simplifies_to_nothing() {
    assert_eq!(t("").simplify(), B::Empty);
    assert_eq!(t(" ").simplify(), t(" "));
    assert_eq!(B::Empty.simplify(), B::Empty);
}

#[test]
fn errors_are_kept_when_simplifying() {
    assert_eq!(
        block_error(BlockError::UnknownKind).simplify(),
        block_error(BlockError::UnknownKind)
    );
    assert_eq!(
        B::Flow(vec![t(""), block_error(BlockError::UnknownKind)]).simplify(),
        block_error(BlockError::UnknownKind)
    );
}

#[test]
fn texts_of_a_flow_are_merged() {
    let body = section(t("t"), t("b"));
    assert_eq!(
        B::Flow(vec![t("a"), t("b"), body.clone()]).simplify(),
        B::Flow(vec![t("ab"), body])
    );
}

#[test]
fn texts_on_both_sides_of_a_block_are_merged_separately() {
    let middle = B::BulletList(vec![t("x")]);
    assert_eq!(
        B::Flow(vec![t("a"), t("b"), middle.clone(), t("c"), t(""), t("d")]).simplify(),
        B::Flow(vec![t("ab"), middle, t("cd")])
    );
}

#[test]
fn texts_of_paragraphs_are_not_merged() {
    assert_eq!(
        B::Paragraphs(vec![t("a"), t("b")]).simplify(),
        B::Paragraphs(vec![t("a"), t("b")])
    );
}

#[test]
fn empty_children_are_dropped() {
    assert_eq!(
        B::Paragraphs(vec![B::Empty, t("a"), t(""), t("b"), B::Flow(vec![])]).simplify(),
        B::Paragraphs(vec![t("a"), t("b")])
    );
    assert_eq!(
        B::BulletList(vec![t(""), t("a"), B::Empty]).simplify(),
        B::BulletList(vec![t("a")])
    );
    assert_eq!(
        B::OrderedList(vec![B::Paragraphs(vec![]), t("a")]).simplify(),
        B::OrderedList(vec![t("a")])
    );
}

#[test]
fn a_section_without_a_title_is_its_body() {
    assert_eq!(section(t(""), t("body")).simplify(), t("body"));
    assert_eq!(section(B::Flow(vec![]), t("body")).simplify(), t("body"));
    assert_eq!(section(B::Empty, t("")).simplify(), B::Empty);
    assert_eq!(section(t("title"), t("")).simplify(), section(t("title"), B::Empty));
}

#[test]
fn a_single_child_takes_the_place_of_its_parent() {
    assert_eq!(B::Flow(vec![t("a")]).simplify(), t("a"));
    assert_eq!(B::Flow(vec![t("a"), t("b")]).simplify(), t("ab"));
    assert_eq!(B::Paragraphs(vec![t(""), t("a")]).simplify(), t("a"));
    assert_eq!(
        B::Flow(vec![B::Paragraphs(vec![section(t("t"), t("b"))])]).simplify(),
        section(t("t"), t("b"))
    );
}

#[test]
fn lists_keep_their_kind_however_few_items_they_have() {
    assert_eq!(B::BulletList(vec![]).simplify(), B::BulletList(vec![]));
    assert_eq!(B::BulletList(vec![t("a")]).simplify(), B::BulletList(vec![t("a")]));
    assert_eq!(B::OrderedList(vec![t("")]).simplify(), B::OrderedList(vec![]));
}

#[test]
fn a_parent_without_children_is_nothing() {
    assert_eq!(B::Flow(vec![]).simplify(), B::Empty);
    assert_eq!(B::Paragraphs(vec![]).simplify(), B::Empty);
    assert_eq!(B::Flow(vec![t(""), B::Empty, B::Flow(vec![t("")])]).simplify(), B::Empty);
}

#[test]
fn simplifying_twice_is_simplifying_once() {
    for block in sample_blocks() {
        let once = block.clone().simplify();
        let twice = once.clone().simplify();
        assert_eq!(twice, once, "{:?}", block);
    }
}

#[test]
fn a_tree_without_source_errors_is_pure() {
    let read: Block<Memory> = Block::Flow(vec![
        Block::Text("a".to_string()),
        Block::Section {
            title: Box::new(Block::Empty),
            body: Box::new(Block::Error(Error::BlockLayer(BlockError::UnknownKind))),
        },
        Block::BulletList(vec![Block::Paragraphs(vec![]), Block::OrderedList(vec![])]),
    ]);
    assert_eq!(
        read.into_pure(),
        Ok(B::Flow(vec![
            t("a"),
            section(B::Empty, block_error(BlockError::UnknownKind)),
            B::BulletList(vec![B::Paragraphs(vec![]), B::OrderedList(vec![])]),
        ]))
    );
}

#[test]
fn the_first_source_error_is_returned() {
    let unexpected = || Block::<Memory>::Error(Error::LowerLayer(MemoryError::UnexpectedEnd));
    let unsupported =
        || Block::<Memory>::Error(Error::LowerLayer(MemoryError::UnsupportedReference));
    assert_eq!(unexpected().into_pure(), Err(MemoryError::UnexpectedEnd));
    let read = Block::Section {
        title: Box::new(Block::Flow(vec![Block::Empty, unsupported()])),
        body: Box::new(unexpected()),
    };
    assert_eq!(read.into_pure(), Err(MemoryError::UnsupportedReference));
    let read = Block::Paragraphs(vec![
        Block::Error(Error::BlockLayer(BlockError::UnknownKind)),
        Block::BulletList(vec![unexpected()]),
        unsupported(),
    ]);
    assert_eq!(read.into_pure(), Err(MemoryError::UnexpectedEnd));
}

#[test]
fn a_pure_tree_stays_as_it_is() {
    for block in sample_blocks() {
        assert_eq!(block.clone().into_pure(), Ok(block));
    }
}

#[test]
fn blocks_tell_whether_they_can_be_stored() {
    assert!(t("a").is_error_free());
    assert!(t("a").is_encodable());
    assert!(B::Flow(vec![section(t("a"), B::Empty), B::BulletList(vec![])]).is_encodable());
    let broken = B::Flow(vec![t("a"), section(t("b"), block_error(BlockError::UnknownKind))]);
    assert!(!broken.is_error_free());
    assert!(!broken.is_encodable());
    let source_error = B::Paragraphs(vec![B::Error(Error::LowerLayer(()))]);
    assert!(!source_error.is_error_free());
    assert!(!source_error.is_encodable());
}

#[test]
fn a_copy_of_a_block_is_equal_to_it() {
    for block in sample_blocks() {
        assert_eq!(block.clone(), block);
        assert_eq!(block.duplicate(), block);
    }
    let error: Error<Memory> = Error::LowerLayer(MemoryError::UnexpectedEnd);
    assert_eq!(error.clone(), error);
}
