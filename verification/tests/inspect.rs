use semdoc::atoms::{Atom, AtomError};
use semdoc::inspect::text::Color::{
    Blue, BrightCyan, BrightMagenta, BrightRed, Green, Red, Yellow,
};
use semdoc::inspect::text::{
    format_decimal, format_hex, format_right_aligned, join, render, render_span, render_spans,
    Color, Span,
};
use semdoc::inspect::words::{info_for_bytes, WordInfo};
use semdoc::inspect::{
    atom_type_label, atoms_in, block_kind_label, block_label, format_atom_header,
    format_bytes_ascii, format_bytes_hex, format_info, format_molecule_header, format_payload_label, format_tree, kind_to_name, n_bytes_long, n_children,
    payload_label, singular_or_plural, AsciiOrDot,
};
use semdoc::{Block, Memory, MemoryError, Molecule, Pure, SemDoc};

fn colored(text: &str, color: Color) -> Span {
    Span { text: text.to_string(), color: Some(color), bold: false }
}

fn bold(text: &str, color: Color) -> Span {
    Span { text: text.to_string(), color: Some(color), bold: true }
}

fn plain(text: &str) -> Span {
    Span { text: text.to_string(), color: None, bold: false }
}

#[test]
fn kinds_have_the_names_of_their_blocks() {
    assert_eq!(kind_to_name(0), "Empty");
    assert_eq!(kind_to_name(1), "Text");
    assert_eq!(kind_to_name(2), "Section");
    assert_eq!(kind_to_name(3), "Flow");
    assert_eq!(kind_to_name(4), "Paragraphs");
    assert_eq!(kind_to_name(5), "BulletList");
    assert_eq!(kind_to_name(6), "OrderedList");
    assert_eq!(kind_to_name(7), "unknown");
    assert_eq!(kind_to_name(u64::MAX), "unknown");
}

#[test]
fn one_is_singular() {
    assert_eq!(singular_or_plural(1, "child", "children"), "child");
    assert_eq!(singular_or_plural(0, "child", "children"), "children");
    assert_eq!(singular_or_plural(2, "byte", "bytes"), "bytes");
}

#[test]
fn visible_bytes_are_their_characters() {
    assert_eq!(32u8.ascii_or_none(), Some(' '));
    assert_eq!(b'a'.ascii_or_none(), Some('a'));
    assert_eq!(126u8.ascii_or_none(), Some('~'));
    assert_eq!(b'Z'.ascii_or_dot(), 'Z');
}

#[test]
fn other_bytes_are_dots() {
    assert_eq!(31u8.ascii_or_none(), None);
    assert_eq!(127u8.ascii_or_none(), None);
    assert_eq!(0u8.ascii_or_dot(), '.');
    assert_eq!(200u8.ascii_or_dot(), '.');
    assert_eq!(b'.'.ascii_or_dot(), '.');
}

#[test]
fn a_tree_without_layers_is_not_drawn() {
    assert_eq!(format_tree(&[], true), "");
    assert_eq!(format_tree(&[], false), "");
}

#[test]
fn the_last_layer_branches_where_an_atom_starts() {
    assert_eq!(format_tree(&[2], true), "├─");
    assert_eq!(format_tree(&[1], true), "└─");
    assert_eq!(format_tree(&[2], false), "│ ");
    assert_eq!(format_tree(&[1], false), "│ ");
    assert_eq!(format_tree(&[0], true), "  ");
}

#[test]
fn outer_layers_are_lines_or_blank() {
    assert_eq!(format_tree(&[3, 0, 1, 2], true), "│   │ ├─");
    assert_eq!(format_tree(&[1, 1], true), "│ └─");
    assert_eq!(format_tree(&[0, 0, 5], false), "    │ ");
}

#[test]
fn numbers_are_written_in_decimal() {
    assert_eq!(format_decimal(0), "0");
    assert_eq!(format_decimal(7), "7");
    assert_eq!(format_decimal(10), "10");
    assert_eq!(format_decimal(1234567890), "1234567890");
    assert_eq!(format_decimal(u64::MAX), "18446744073709551615");
}

#[test]
fn bytes_are_written_as_two_hexadecimal_digits() {
    assert_eq!(format_hex(0), "00");
    assert_eq!(format_hex(0x0a), "0a");
    assert_eq!(format_hex(0x53), "53");
    assert_eq!(format_hex(0xff), "ff");
}

#[test]
fn short_numbers_are_aligned_to_the_right() {
    assert_eq!(format_right_aligned(7, 4), "   7");
    assert_eq!(format_right_aligned(1234, 4), "1234");
    assert_eq!(format_right_aligned(12345, 4), "12345");
    assert_eq!(format_right_aligned(0, 0), "0");
}

#[test]
fn colours_have_names() {
    assert_eq!(Color::Red.name(), "red");
    assert_eq!(Color::Green.name(), "green");
    assert_eq!(Color::Yellow.name(), "yellow");
    assert_eq!(Color::Blue.name(), "blue");
    assert_eq!(Color::BrightRed.name(), "bright red");
    assert_eq!(Color::BrightMagenta.name(), "bright magenta");
    assert_eq!(Color::BrightCyan.name(), "bright cyan");
}

#[test]
fn plain_spans_are_rendered_as_their_text() {
    assert_eq!(render_span(&plain("Header with ")), "Header with ");
    assert_eq!(render(&vec![plain("a"), plain(""), plain("b c")]), "ab c");
    assert_eq!(render(&vec![]), "");
}

#[test]
fn painted_spans_hold_their_text() {
    assert!(render_span(&colored("Payload", Color::BrightCyan)).contains("Payload"));
    assert!(render_span(&bold("Block, ", Color::Yellow)).contains("Block, "));
    assert!(render(&vec![plain("a"), colored("b", Color::Red)]).starts_with("a"));
    assert!(format_payload_label(true).contains("Payload"));
    assert!(format_payload_label(true).contains(" + padding"));
    assert!(!format_payload_label(false).contains("padding"));
}

#[test]
fn spans_are_built_in_their_styles() {
    assert_eq!(Span::plain("a".to_string()), plain("a"));
    assert_eq!(Span::colored("a".to_string(), Color::Red), colored("a", Color::Red));
    assert_eq!(Span::bold("a".to_string(), Color::Red), bold("a", Color::Red));
    assert_eq!(
        Span::heading("a".to_string()),
        Span { text: "a".to_string(), color: None, bold: true }
    );
}

#[test]
fn payload_is_labelled() {
    assert_eq!(payload_label(false), vec![colored("Payload", Color::BrightCyan)]);
    assert_eq!(
        payload_label(true),
        vec![colored("Payload", Color::BrightCyan), colored(" + padding", Color::Blue)]
    );
}

#[test]
fn lengths_are_labelled() {
    assert_eq!(n_bytes_long(1, false), colored("1 byte long", Color::BrightRed));
    assert_eq!(n_bytes_long(0, false), colored("0 bytes long", Color::BrightRed));
    assert_eq!(n_bytes_long(13, true), colored("13 bytes long, ", Color::BrightRed));
}

#[test]
fn numbers_of_children_are_labelled() {
    assert_eq!(n_children(1), colored("1 child", Color::BrightRed));
    assert_eq!(n_children(0), colored("0 children", Color::BrightRed));
    assert_eq!(n_children(300), colored("300 children", Color::BrightRed));
}

#[test]
fn atom_types_and_kinds_are_labelled() {
    assert_eq!(atom_type_label("Bytes"), bold("Bytes, ", Color::Yellow));
    assert_eq!(block_kind_label(2), colored("kind 2 (Section), ", Color::Green));
    assert_eq!(block_kind_label(42), colored("kind 42 (unknown), ", Color::Green));
}

#[test]
fn the_words_of_hello_world_are_told_apart() {
    let doc: SemDoc<Pure> = SemDoc::new(Block::Section {
        title: Box::new(Block::Text("SemDoc".to_string())),
        body: Box::new(Block::Paragraphs(vec![
            Block::Text("Hello, world!".to_string()),
            Block::Text("This is a test. Hello!".to_string()),
        ])),
    });
    assert_eq!(
        info_for_bytes(&doc.to_bytes()),
        vec![
            WordInfo::Header { version: 0 },
            WordInfo::SmallBlock { kind: 2, num_children: 2 },
            WordInfo::SmallBlock { kind: 1, num_children: 1 },
            WordInfo::FewBytes { length: 6 },
            WordInfo::SmallBlock { kind: 4, num_children: 2 },
            WordInfo::SmallBlock { kind: 1, num_children: 1 },
            WordInfo::FewBytes { length: 13 },
            WordInfo::BytesContinuation { num_relevant: 7 },
            WordInfo::SmallBlock { kind: 1, num_children: 1 },
            WordInfo::FewBytes { length: 22 },
            WordInfo::BytesContinuation { num_relevant: 8 },
            WordInfo::BytesContinuation { num_relevant: 8 },
        ]
    );
}

#[test]
fn the_words_of_every_atom_are_told_apart() {
    let mut bytes = b"SemDoc\0\x01".to_vec();
    bytes.extend_from_slice(&Atom::Block { kind: 9, num_children: 1000 }.to_bytes());
    bytes.extend_from_slice(&Atom::Bytes(vec![1; 9]).to_bytes());
    bytes.extend_from_slice(&Atom::Bytes(vec![]).to_bytes());
    bytes.extend_from_slice(&Atom::Reference(16).to_bytes());
    bytes.extend_from_slice(&Atom::FewBytes(vec![]).to_bytes());
    assert_eq!(
        info_for_bytes(&bytes),
        vec![
            WordInfo::Header { version: 1 },
            WordInfo::Block { kind: 9 },
            WordInfo::BlockContinuation { num_children: 1000 },
            WordInfo::Bytes { length: 9 },
            WordInfo::BytesContinuation { num_relevant: 8 },
            WordInfo::BytesContinuation { num_relevant: 1 },
            WordInfo::Bytes { length: 0 },
            WordInfo::Reference { offset: 16 },
            WordInfo::FewBytes { length: 0 },
        ]
    );
}

#[test]
fn words_behind_an_error_are_its_continuation() {
    let mut bytes = b"SemDoc\0\0".to_vec();
    bytes.extend_from_slice(&Atom::SmallBlock { kind: 1, num_children: 1 }.to_bytes());
    bytes.extend_from_slice(&[9; 20]);
    assert_eq!(
        info_for_bytes(&bytes),
        vec![
            WordInfo::Header { version: 0 },
            WordInfo::SmallBlock { kind: 1, num_children: 1 },
            WordInfo::Error { error: AtomError::UnknownType(9) },
            WordInfo::ErrorContinuation,
            WordInfo::ErrorContinuation,
        ]
    );
    assert_eq!(info_for_bytes(b"SemDoc\0\0"), vec![WordInfo::Header { version: 0 }]);
    assert_eq!(
        info_for_bytes(b"SemDoc\0\0\x01"),
        vec![WordInfo::Header { version: 0 }, WordInfo::Error { error: AtomError::UnexpectedEnd }]
    );
}

#[test]
fn there_is_an_info_for_every_word() {
    let mut bytes = b"SemDoc\0\0".to_vec();
    bytes.extend_from_slice(&[3, 200, 1, 2, 3, 4, 5, 6]);
    bytes.extend_from_slice(&[7; 194]);
    for len in 8..bytes.len() {
        let words = (len + 7) / 8;
        assert!(info_for_bytes(&bytes[..len]).len() >= words);
    }
}

#[test]
fn the_bytes_of_a_word_are_coloured_by_what_they_hold() {
    assert_eq!(
        WordInfo::Header { version: 0 }.to_byte_styles(),
        [BrightMagenta, BrightMagenta, BrightMagenta, BrightMagenta, BrightMagenta, BrightMagenta, Yellow, Yellow]
    );
    assert_eq!(
        WordInfo::Block { kind: 1 }.to_byte_styles(),
        [Yellow, Blue, Green, Green, Green, Green, Green, Green]
    );
    assert_eq!(WordInfo::BlockContinuation { num_children: 1 }.to_byte_styles(), [BrightRed; 8]);
    assert_eq!(
        WordInfo::SmallBlock { kind: 1, num_children: 1 }.to_byte_styles(),
        [Yellow, BrightRed, Green, Green, Green, Green, Green, Green]
    );
    assert_eq!(
        WordInfo::Bytes { length: 1 }.to_byte_styles(),
        [Yellow, BrightRed, BrightRed, BrightRed, BrightRed, BrightRed, BrightRed, BrightRed]
    );
    assert_eq!(
        WordInfo::FewBytes { length: 3 }.to_byte_styles(),
        [Yellow, BrightRed, BrightCyan, BrightCyan, BrightCyan, Blue, Blue, Blue]
    );
    assert_eq!(
        WordInfo::FewBytes { length: 0 }.to_byte_styles(),
        [Yellow, BrightRed, Blue, Blue, Blue, Blue, Blue, Blue]
    );
    assert_eq!(
        WordInfo::FewBytes { length: 200 }.to_byte_styles(),
        [Yellow, BrightRed, BrightCyan, BrightCyan, BrightCyan, BrightCyan, BrightCyan, BrightCyan]
    );
    assert_eq!(
        WordInfo::BytesContinuation { num_relevant: 2 }.to_byte_styles(),
        [BrightCyan, BrightCyan, Blue, Blue, Blue, Blue, Blue, Blue]
    );
    assert_eq!(WordInfo::BytesContinuation { num_relevant: 8 }.to_byte_styles(), [BrightCyan; 8]);
    assert_eq!(WordInfo::Error { error: AtomError::UnexpectedEnd }.to_byte_styles(), [Red; 8]);
    assert_eq!(WordInfo::ErrorContinuation.to_byte_styles(), [Red; 8]);
    assert_eq!(WordInfo::BytesContinuation { num_relevant: 2 }.style(1), BrightCyan);
    assert_eq!(WordInfo::BytesContinuation { num_relevant: 2 }.style(2), Blue);
}

#[test]
fn atoms_start_with_their_head_word() {
    assert!(WordInfo::Block { kind: 1 }.starts_atom());
    assert!(WordInfo::SmallBlock { kind: 1, num_children: 0 }.starts_atom());
    assert!(WordInfo::Bytes { length: 1 }.starts_atom());
    assert!(WordInfo::FewBytes { length: 1 }.starts_atom());
    assert!(WordInfo::Reference { offset: 1 }.starts_atom());
    assert!(!WordInfo::Header { version: 0 }.starts_atom());
    assert!(!WordInfo::BlockContinuation { num_children: 1 }.starts_atom());
    assert!(!WordInfo::BytesContinuation { num_relevant: 1 }.starts_atom());
    assert!(!WordInfo::ErrorContinuation.starts_atom());
    assert!(!WordInfo::Error { error: AtomError::AlignmentNotZero }.starts_atom());
}

#[test]
fn words_are_described() {
    assert_eq!(
        format_info(&WordInfo::Header { version: 0 }),
        vec![
            plain("Header with "),
            colored("magic bytes, ", Color::BrightMagenta),
            colored("SemDoc version 0", Color::Yellow),
        ]
    );
    assert_eq!(
        format_info(&WordInfo::Block { kind: 3 }),
        vec![
            bold("Block, ", Color::Yellow),
            colored("padding, ", Color::Blue),
            colored("kind 3 (Flow), ", Color::Green),
        ]
    );
    assert_eq!(
        format_info(&WordInfo::BlockContinuation { num_children: 256 }),
        vec![colored("256 children", Color::BrightRed)]
    );
    assert_eq!(
        format_info(&WordInfo::SmallBlock { kind: 1, num_children: 1 }),
        vec![
            bold("SmallBlock, ", Color::Yellow),
            colored("kind 1 (Text), ", Color::Green),
            colored("1 child", Color::BrightRed),
        ]
    );
    assert_eq!(
        format_info(&WordInfo::Bytes { length: 300 }),
        vec![bold("Bytes, ", Color::Yellow), colored("300 bytes long", Color::BrightRed)]
    );
    assert_eq!(
        format_info(&WordInfo::FewBytes { length: 1 }),
        vec![bold("FewBytes, ", Color::Yellow), colored("1 byte long", Color::BrightRed)]
    );
    assert_eq!(format_info(&WordInfo::BytesContinuation { num_relevant: 8 }), payload_label(false));
    assert_eq!(format_info(&WordInfo::BytesContinuation { num_relevant: 7 }), payload_label(true));
    assert_eq!(
        format_info(&WordInfo::Reference { offset: 48 }),
        vec![bold("Reference, ", Color::Yellow), plain("48")]
    );
    assert_eq!(format_info(&WordInfo::ErrorContinuation), vec![]);
}

#[test]
fn errors_are_described() {
    assert_eq!(
        format_info(&WordInfo::Error { error: AtomError::UnexpectedEnd }),
        vec![colored("Error: UnexpectedEnd", Color::Red)]
    );
    assert_eq!(
        format_info(&WordInfo::Error { error: AtomError::UnknownType(17) }),
        vec![colored("Error: UnknownType(17)", Color::Red)]
    );
    assert_eq!(
        format_info(&WordInfo::Error { error: AtomError::AlignmentNotZero }),
        vec![colored("Error: AlignmentNotZero", Color::Red)]
    );
}

#[test]
fn the_bytes_of_a_word_are_shown_in_hexadecimal() {
    let info = WordInfo::FewBytes { length: 1 };
    assert_eq!(
        format_bytes_hex(&[3, 1, 0x41], &info),
        vec![
            colored("03", Color::Yellow),
            plain(" "),
            colored("01", Color::BrightRed),
            plain(" "),
            colored("41", Color::BrightCyan),
        ]
    );
    assert_eq!(format_bytes_hex(&[], &info), vec![]);
    assert_eq!(format_bytes_hex(&[0xff], &info), vec![colored("ff", Color::Yellow)]);
}

#[test]
fn the_bytes_of_a_word_are_shown_as_characters() {
    let info = WordInfo::BytesContinuation { num_relevant: 2 };
    assert_eq!(
        format_bytes_ascii(&[b'h', b'i', 0, 200], &info),
        vec![
            colored("h", Color::BrightCyan),
            colored("i", Color::BrightCyan),
            colored(".", Color::Blue),
            colored(".", Color::Blue),
        ]
    );
    assert_eq!(format_bytes_ascii(&[], &info), vec![]);
}

#[test]
fn the_atoms_of_a_buffer_are_found_one_after_the_other() {
    let atoms = vec![
        Atom::SmallBlock { kind: 2, num_children: 2 },
        Atom::FewBytes(b"more than six".to_vec()),
        Atom::Block { kind: 0, num_children: 0 },
        Atom::Bytes(vec![1, 2, 3]),
        Atom::Reference(0),
    ];
    let mut bytes = vec![];
    for atom in &atoms {
        bytes.extend_from_slice(&atom.to_bytes());
    }
    assert_eq!(atoms_in(&bytes), (atoms.clone(), None));
    assert_eq!(atoms_in(&[]), (vec![], None));

    bytes.extend_from_slice(&[8, 0, 0, 0, 0, 0, 0, 0]);
    bytes.extend_from_slice(&Atom::Reference(0).to_bytes());
    assert_eq!(atoms_in(&bytes), (atoms.clone(), Some(AtomError::UnknownType(8))));
    assert_eq!(atoms_in(&bytes[..3]), (vec![], Some(AtomError::UnexpectedEnd)));
}

#[test]
fn the_head_of_an_atom_is_described() {
    assert_eq!(
        format_atom_header(&Atom::Block { kind: 4, num_children: 300 }),
        vec![
            bold("Block, ", Color::Yellow),
            colored("kind 4 (Paragraphs), ", Color::Green),
            colored("300 children", Color::BrightRed),
        ]
    );
    assert_eq!(
        format_atom_header(&Atom::SmallBlock { kind: 0, num_children: 1 }),
        vec![
            bold("SmallBlock, ", Color::Yellow),
            colored("kind 0 (Empty), ", Color::Green),
            colored("1 child", Color::BrightRed),
        ]
    );
    assert_eq!(
        format_atom_header(&Atom::Bytes(vec![0; 300])),
        vec![bold("Bytes, ", Color::Yellow), colored("300 bytes long", Color::BrightRed)]
    );
    assert_eq!(
        format_atom_header(&Atom::FewBytes(vec![1])),
        vec![bold("FewBytes, ", Color::Yellow), colored("1 byte long, ", Color::BrightRed)]
    );
    assert_eq!(
        format_atom_header(&Atom::FewBytes(vec![])),
        vec![bold("FewBytes, ", Color::Yellow), colored("0 bytes long", Color::BrightRed)]
    );
    assert_eq!(
        format_atom_header(&Atom::Reference(24)),
        vec![bold("Reference, ", Color::Yellow), plain("24")]
    );
}

#[test]
fn blocks_are_labelled_with_their_names() {
    let label = |block: &Block<Pure>| block_label(block);
    assert_eq!(label(&Block::Empty), bold("Empty", Color::Yellow));
    assert_eq!(label(&Block::Text("a".to_string())), bold("Text: ", Color::Yellow));
    assert_eq!(label(&Block::Flow(vec![])), bold("Flow", Color::Yellow));
    assert_eq!(label(&Block::Paragraphs(vec![])), bold("Paragraphs", Color::Yellow));
    assert_eq!(label(&Block::BulletList(vec![])), bold("BulletList", Color::Yellow));
    assert_eq!(label(&Block::OrderedList(vec![])), bold("OrderedList", Color::Yellow));
    assert_eq!(
        label(&Block::Section { title: Box::new(Block::Empty), body: Box::new(Block::Empty) }),
        bold("Section", Color::Yellow)
    );
    assert_eq!(
        label(&Block::Error(semdoc::blocks::Error::BlockLayer(semdoc::BlockError::UnknownKind))),
        bold("Error", Color::Yellow)
    );
}

#[test]
fn molecules_are_labelled_with_what_they_are() {
    let node: Molecule<Memory> = Molecule::block(3, vec![]);
    assert_eq!(
        format_molecule_header(&node),
        vec![bold("Block", Color::Yellow), plain(" "), colored("kind 3 (Flow)", Color::Green)]
    );
    let leaf: Molecule<Memory> = Molecule::Bytes(vec![1]);
    assert_eq!(format_molecule_header(&leaf), vec![bold("Bytes", Color::Yellow), plain(":")]);
    let error: Molecule<Memory> = Molecule::Error(MemoryError::UnexpectedEnd);
    assert_eq!(format_molecule_header(&error), vec![bold("Error", Color::Yellow), plain(": ")]);
}

fn is_painting_of(text: &str, painted: &str) -> bool {
    painted == text
        || (painted.starts_with('\u{1b}')
            && painted.ends_with("\u{1b}[0m")
            && painted[..painted.len() - 4].ends_with(text))
}

#[test]
fn a_painted_span_is_its_text_or_its_text_between_escape_sequences() {
    for span in [
        colored("Payload", Color::BrightCyan),
        bold("Block, ", Color::Yellow),
        Span { text: "Word".to_string(), color: None, bold: true },
        colored("", Color::Red),
    ] {
        let painted = render_span(&span);
        assert!(is_painting_of(&span.text, &painted), "{:?}", painted);
    }
}

#[test]
fn spans_are_rendered_one_after_the_other() {
    let spans = vec![plain("a"), colored("b", Color::Red), plain("c")];
    let parts = render_spans(&spans);
    assert_eq!(parts.len(), 3);
    assert_eq!(parts[0], "a");
    assert!(is_painting_of("b", &parts[1]));
    assert_eq!(parts[2], "c");
    assert_eq!(render(&spans), format!("a{}c", parts[1]));
}

#[test]
fn parts_are_joined_in_order() {
    assert_eq!(join(&vec![]), "");
    assert_eq!(join(&vec!["ab".to_string(), String::new(), "c".to_string()]), "abc");
}

#[test]
fn the_payload_label_is_a_painting_of_its_words() {
    let payload = render_span(&colored("Payload", Color::BrightCyan));
    let padding = render_span(&colored(" + padding", Color::Blue));
    assert_eq!(format_payload_label(false), payload);
    assert_eq!(format_payload_label(true), format!("{}{}", payload, padding));
}
