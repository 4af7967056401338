//! What the inspectors of stored documents show.
//!
//! The functions of this module decide which text is shown in which style.
//! [`text::render`] paints the result for a terminal.

pub mod layout;
pub mod text;
pub mod words;

use crate::atoms::{decode_atom, lemma_decoded_atom, Atom, AtomError, AtomView};
use crate::blocks::{Block, BlockView};
use crate::molecule::{Molecule, MoleculeView};
use crate::source::Source;
use crate::inspect::text::{
    decimal, format_decimal, format_hex, hex, is_rendering, render, span_views, Color, Span,
    SpanView,
};
use crate::inspect::words::WordInfo;
use vstd::prelude::*;
use vstd::slice::slice_subrange;
use vstd::string::StringExecFns;

verus! {

/// The name of the block that molecules of `kind` stand for.
pub open spec fn kind_name(kind: u64) -> &'static str {
    if kind == 0 {
        "Empty"
    } else if kind == 1 {
        "Text"
    } else if kind == 2 {
        "Section"
    } else if kind == 3 {
        "Flow"
    } else if kind == 4 {
        "Paragraphs"
    } else if kind == 5 {
        "BulletList"
    } else if kind == 6 {
        "OrderedList"
    } else {
        "unknown"
    }
}

/// The name of the block that molecules of `kind` stand for.
pub fn kind_to_name(kind: u64) -> (r: String)
    ensures
        r@ == kind_name(kind)@,
{
    let name = if kind == 0 {
        "Empty"
    } else if kind == 1 {
        "Text"
    } else if kind == 2 {
        "Section"
    } else if kind == 3 {
        "Flow"
    } else if kind == 4 {
        "Paragraphs"
    } else if kind == 5 {
        "BulletList"
    } else if kind == 6 {
        "OrderedList"
    } else {
        "unknown"
    };
    String::from_str(name)
}

/// `singular` for an amount of one, and else `plural`.
pub fn singular_or_plural(amount: usize, singular: &'static str, plural: &'static str) -> (r:
    &'static str)
    ensures
        r@ == (if amount == 1 {
            singular@
        } else {
            plural@
        }),
{
    if amount == 1 {
        singular
    } else {
        plural
    }
}

/// The character with the code `code`, if it is a visible ASCII character
/// or a space.
pub open spec fn visible(code: int) -> Option<char> {
    if 32 <= code <= 126 {
        Some(code as u8 as char)
    } else {
        None
    }
}

/// How a byte is shown as a character.
pub trait AsciiOrDot {
    /// The number that `self` stands for.
    spec fn code(&self) -> int;

    /// The character that `self` is the ASCII code of, if it can be seen.
    fn ascii_or_none(&self) -> (r: Option<char>)
        ensures
            r == visible(self.code()),
    ;

    /// The character that `self` is the ASCII code of, or a dot if it
    /// cannot be seen.
    fn ascii_or_dot(&self) -> (r: char)
        ensures
            r == (match visible(self.code()) {
                Some(c) => c,
                None => '.',
            }),
    ;
}

impl AsciiOrDot for u8 {
    open spec fn code(&self) -> int {
        *self as int
    }

    fn ascii_or_none(&self) -> (r: Option<char>) {
        if 32 <= *self && *self <= 126 {
            Some(*self as char)
        } else {
            None
        }
    }

    fn ascii_or_dot(&self) -> (r: char) {
        match self.ascii_or_none() {
            Some(c) => c,
            None => '.',
        }
    }
}

/// What is drawn in the column of one layer of a tree, where `left`
/// children of the layer's node are still to come.
pub open spec fn tree_piece(left: usize, is_last_layer: bool, atom_starts: bool) -> &'static str {
    if left == 0 {
        "  "
    } else if !is_last_layer {
        "│ "
    } else if left == 1 && atom_starts {
        "└─"
    } else if atom_starts {
        "├─"
    } else {
        "│ "
    }
}

/// What is drawn in the columns of the first `n` layers of a tree.
pub open spec fn tree_text(children_left: Seq<usize>, n: nat, atom_starts: bool) -> Seq<char>
    decreases n,
{
    if n == 0 || n > children_left.len() {
        Seq::empty()
    } else {
        tree_text(children_left, (n - 1) as nat, atom_starts) + tree_piece(
            children_left[n - 1],
            n == children_left.len(),
            atom_starts,
        )@
    }
}

/// Draws the lines of a tree in front of a word: one column for each layer,
/// with a branch in the last column where an atom starts in the word.
/// `children_left` tells for each layer how many children of its node are
/// still to come.
pub fn format_tree(children_left: &[usize], atom_starts: bool) -> (r: String)
    ensures
        r@ == tree_text(children_left@, children_left@.len(), atom_starts),
{
    let mut text = String::new();
    let mut index: usize = 0;
    assert(text@ =~= tree_text(children_left@, 0, atom_starts));
    while index < children_left.len()
        invariant
            index <= children_left@.len(),
            text@ == tree_text(children_left@, index as nat, atom_starts),
        decreases children_left.len() - index,
    {
        let is_last_layer = index == children_left.len() - 1;
        let left = children_left[index];
        let piece = if left == 0 {
            "  "
        } else if !is_last_layer {
            "│ "
        } else if left == 1 && atom_starts {
            "└─"
        } else if atom_starts {
            "├─"
        } else {
            "│ "
        };
        text.append(piece);
        index += 1;
    }
    text
}

/// The label of a word of payload.
pub open spec fn payload_label_spans(plus_padding: bool) -> Seq<SpanView> {
    if plus_padding {
        seq![
            SpanView { text: "Payload"@, color: Some(Color::BrightCyan), bold: false },
            SpanView { text: " + padding"@, color: Some(Color::Blue), bold: false },
        ]
    } else {
        seq![SpanView { text: "Payload"@, color: Some(Color::BrightCyan), bold: false }]
    }
}

/// The label of a word of payload, which may end with padding.
pub fn payload_label(plus_padding: bool) -> (r: Vec<Span>)
    ensures
        span_views(r@) == payload_label_spans(plus_padding),
{
    let mut spans: Vec<Span> = Vec::new();
    spans.push(Span::colored(String::from_str("Payload"), Color::BrightCyan));
    if plus_padding {
        spans.push(Span::colored(String::from_str(" + padding"), Color::Blue));
    }
    assert(span_views(spans@) =~= payload_label_spans(plus_padding));
    spans
}

/// The label of a word of payload as it is written to a terminal: what is
/// written for `Payload` in its colour, and behind it, for a word that ends
/// with padding, what is written for ` + padding` in its colour.
pub fn format_payload_label(plus_padding: bool) -> (r: String)
    ensures
        is_rendering(payload_label_spans(plus_padding), r@),
{
    render(&payload_label(plus_padding))
}

/// The text that tells how long a payload is.
pub open spec fn n_bytes_long_text(num_bytes: nat, trailing_comma: bool) -> Seq<char> {
    decimal(num_bytes) + " "@ + (if num_bytes == 1 {
        "byte"@
    } else {
        "bytes"@
    }) + " long"@ + (if trailing_comma {
        ", "@
    } else {
        ""@
    })
}

/// The span that tells how long a payload is.
pub fn n_bytes_long(num_bytes: usize, trailing_comma: bool) -> (r: Span)
    ensures
        r@ == (SpanView {
            text: n_bytes_long_text(num_bytes as nat, trailing_comma),
            color: Some(Color::BrightRed),
            bold: false,
        }),
{
    length_label(num_bytes as u64, trailing_comma)
}

/// The span that tells how long a payload of `num_bytes` bytes is.
fn length_label(num_bytes: u64, trailing_comma: bool) -> (r: Span)
    ensures
        r@ == (SpanView {
            text: n_bytes_long_text(num_bytes as nat, trailing_comma),
            color: Some(Color::BrightRed),
            bold: false,
        }),
{
    let mut text = format_decimal(num_bytes);
    text.append(" ");
    if num_bytes == 1 {
        text.append("byte");
    } else {
        text.append("bytes");
    }
    text.append(" long");
    if trailing_comma {
        text.append(", ");
    }
    proof {
        reveal_strlit("");
    }
    assert(text@ =~= n_bytes_long_text(num_bytes as nat, trailing_comma));
    Span::colored(text, Color::BrightRed)
}

/// The text that tells how many children a node has.
pub open spec fn n_children_text(num_children: nat) -> Seq<char> {
    decimal(num_children) + " "@ + (if num_children == 1 {
        "child"@
    } else {
        "children"@
    })
}

/// The span that tells how many children a node has.
pub fn n_children(num_children: u64) -> (r: Span)
    ensures
        r@ == (SpanView {
            text: n_children_text(num_children as nat),
            color: Some(Color::BrightRed),
            bold: false,
        }),
{
    let mut text = format_decimal(num_children);
    text.append(" ");
    if num_children == 1 {
        text.append("child");
    } else {
        text.append("children");
    }
    Span::colored(text, Color::BrightRed)
}

/// The span that names the type of an atom.
pub fn atom_type_label(atom_type: &str) -> (r: Span)
    ensures
        r@ == (SpanView { text: atom_type@ + ", "@, color: Some(Color::Yellow), bold: true }),
{
    let mut text = String::from_str(atom_type);
    text.append(", ");
    Span::bold(text, Color::Yellow)
}

/// The text that tells the kind of a node.
pub open spec fn block_kind_text(kind: u64) -> Seq<char> {
    "kind "@ + decimal(kind as nat) + " ("@ + kind_name(kind)@ + "), "@
}

/// The span that tells the kind of a node.
pub fn block_kind_label(kind: u64) -> (r: Span)
    ensures
        r@ == (SpanView { text: block_kind_text(kind), color: Some(Color::Green), bold: false }),
{
    let mut text = String::from_str("kind ");
    text.append(format_decimal(kind).as_str());
    text.append(" (");
    text.append(kind_to_name(kind).as_str());
    text.append("), ");
    Span::colored(text, Color::Green)
}

/// The name that a block is shown under.
pub open spec fn block_name<S: Source>(block: BlockView<S>) -> &'static str {
    match block {
        BlockView::Error(_) => "Error",
        BlockView::Empty => "Empty",
        BlockView::Text(_) => "Text: ",
        BlockView::Section { .. } => "Section",
        BlockView::Flow(_) => "Flow",
        BlockView::Paragraphs(_) => "Paragraphs",
        BlockView::BulletList(_) => "BulletList",
        BlockView::OrderedList(_) => "OrderedList",
    }
}

/// The span that names a block.
pub fn block_label<S: Source>(block: &Block<S>) -> (r: Span)
    ensures
        r@ == (SpanView { text: block_name(block@)@, color: Some(Color::Yellow), bold: true }),
{
    let name = match block {
        Block::Error(_) => "Error",
        Block::Empty => "Empty",
        Block::Text(_) => "Text: ",
        Block::Section { .. } => "Section",
        Block::Flow(_) => "Flow",
        Block::Paragraphs(_) => "Paragraphs",
        Block::BulletList(_) => "BulletList",
        Block::OrderedList(_) => "OrderedList",
    };
    Span::bold(String::from_str(name), Color::Yellow)
}

/// What is shown of a molecule above its children or in front of its
/// content.
pub open spec fn molecule_header_spans<S: Source>(molecule: MoleculeView<S>) -> Seq<SpanView> {
    match molecule {
        MoleculeView::Block { kind, .. } => seq![
            SpanView { text: "Block"@, color: Some(Color::Yellow), bold: true },
            SpanView { text: " "@, color: None, bold: false },
            SpanView {
                text: "kind "@ + decimal(kind as nat) + " ("@ + kind_name(kind)@ + ")"@,
                color: Some(Color::Green),
                bold: false,
            },
        ],
        MoleculeView::Bytes(_) => seq![
            SpanView { text: "Bytes"@, color: Some(Color::Yellow), bold: true },
            SpanView { text: ":"@, color: None, bold: false },
        ],
        MoleculeView::Error(_) => seq![
            SpanView { text: "Error"@, color: Some(Color::Yellow), bold: true },
            SpanView { text: ": "@, color: None, bold: false },
        ],
    }
}

/// Tells what is shown of a molecule above its children or in front of its
/// content.
pub fn format_molecule_header<S: Source>(molecule: &Molecule<S>) -> (r: Vec<Span>)
    ensures
        span_views(r@) == molecule_header_spans(molecule@),
{
    let mut spans: Vec<Span> = Vec::new();
    match molecule {
        Molecule::Block { kind, .. } => {
            spans.push(Span::bold(String::from_str("Block"), Color::Yellow));
            spans.push(Span::plain(String::from_str(" ")));
            let mut text = String::from_str("kind ");
            text.append(format_decimal(*kind).as_str());
            text.append(" (");
            text.append(kind_to_name(*kind).as_str());
            text.append(")");
            spans.push(Span::colored(text, Color::Green));
        },
        Molecule::Bytes(_) => {
            spans.push(Span::bold(String::from_str("Bytes"), Color::Yellow));
            spans.push(Span::plain(String::from_str(":")));
        },
        Molecule::Error(_) => {
            spans.push(Span::bold(String::from_str("Error"), Color::Yellow));
            spans.push(Span::plain(String::from_str(": ")));
        },
    }
    assert(span_views(spans@) =~= molecule_header_spans(molecule@));
    spans
}

/// What is shown of `atom` in front of its payload.
pub open spec fn atom_header_spans(atom: AtomView) -> Seq<SpanView> {
    match atom {
        AtomView::Block { kind, num_children } => seq![
            SpanView { text: "Block"@ + ", "@, color: Some(Color::Yellow), bold: true },
            SpanView { text: block_kind_text(kind), color: Some(Color::Green), bold: false },
            SpanView {
                text: n_children_text(num_children as nat),
                color: Some(Color::BrightRed),
                bold: false,
            },
        ],
        AtomView::SmallBlock { kind, num_children } => seq![
            SpanView { text: "SmallBlock"@ + ", "@, color: Some(Color::Yellow), bold: true },
            SpanView { text: block_kind_text(kind), color: Some(Color::Green), bold: false },
            SpanView {
                text: n_children_text(num_children as nat),
                color: Some(Color::BrightRed),
                bold: false,
            },
        ],
        AtomView::Bytes(payload) => seq![
            SpanView { text: "Bytes"@ + ", "@, color: Some(Color::Yellow), bold: true },
            SpanView {
                text: n_bytes_long_text(payload.len(), false),
                color: Some(Color::BrightRed),
                bold: false,
            },
        ],
        AtomView::FewBytes(payload) => seq![
            SpanView { text: "FewBytes"@ + ", "@, color: Some(Color::Yellow), bold: true },
            SpanView {
                text: n_bytes_long_text(payload.len(), payload.len() > 0),
                color: Some(Color::BrightRed),
                bold: false,
            },
        ],
        AtomView::Reference(offset) => seq![
            SpanView { text: "Reference"@ + ", "@, color: Some(Color::Yellow), bold: true },
            SpanView { text: decimal(offset as nat), color: None, bold: false },
        ],
    }
}

/// Tells what is shown of `atom` in front of its payload: its type, and
/// its kind and number of children, its length, or its offset.
pub fn format_atom_header(atom: &Atom) -> (r: Vec<Span>)
    ensures
        span_views(r@) == atom_header_spans(atom@),
{
    let mut spans: Vec<Span> = Vec::new();
    match atom {
        Atom::Block { kind, num_children } => {
            spans.push(atom_type_label("Block"));
            spans.push(block_kind_label(*kind));
            spans.push(n_children(*num_children));
        },
        Atom::SmallBlock { kind, num_children } => {
            spans.push(atom_type_label("SmallBlock"));
            spans.push(block_kind_label(*kind));
            spans.push(n_children(*num_children as u64));
        },
        Atom::Bytes(payload) => {
            spans.push(atom_type_label("Bytes"));
            spans.push(n_bytes_long(payload.len(), false));
        },
        Atom::FewBytes(payload) => {
            spans.push(atom_type_label("FewBytes"));
            spans.push(n_bytes_long(payload.len(), payload.len() > 0));
        },
        Atom::Reference(offset) => {
            spans.push(atom_type_label("Reference"));
            spans.push(Span::plain(format_decimal(*offset)));
        },
    }
    assert(span_views(spans@) =~= atom_header_spans(atom@));
    spans
}

/// The text that names an error of the atom layer.
pub open spec fn atom_error_text(error: AtomError) -> Seq<char> {
    match error {
        AtomError::UnexpectedEnd => "Error: UnexpectedEnd"@,
        AtomError::UnknownType(tag) => "Error: UnknownType("@ + decimal(tag as nat) + ")"@,
        AtomError::AlignmentNotZero => "Error: AlignmentNotZero"@,
    }
}

/// What is shown beside a word that holds `info`.
pub open spec fn info_spans(info: WordInfo) -> Seq<SpanView> {
    match info {
        WordInfo::Error { error } => seq![
            SpanView { text: atom_error_text(error), color: Some(Color::Red), bold: false },
        ],
        WordInfo::ErrorContinuation => Seq::empty(),
        WordInfo::Header { version } => seq![
            SpanView { text: "Header with "@, color: None, bold: false },
            SpanView { text: "magic bytes, "@, color: Some(Color::BrightMagenta), bold: false },
            SpanView {
                text: "SemDoc version "@ + decimal(version as nat),
                color: Some(Color::Yellow),
                bold: false,
            },
        ],
        WordInfo::Block { kind } => seq![
            SpanView { text: "Block"@ + ", "@, color: Some(Color::Yellow), bold: true },
            SpanView { text: "padding, "@, color: Some(Color::Blue), bold: false },
            SpanView { text: block_kind_text(kind), color: Some(Color::Green), bold: false },
        ],
        WordInfo::BlockContinuation { num_children } => seq![
            SpanView {
                text: n_children_text(num_children as nat),
                color: Some(Color::BrightRed),
                bold: false,
            },
        ],
        WordInfo::SmallBlock { kind, num_children } => seq![
            SpanView { text: "SmallBlock"@ + ", "@, color: Some(Color::Yellow), bold: true },
            SpanView { text: block_kind_text(kind), color: Some(Color::Green), bold: false },
            SpanView {
                text: n_children_text(num_children as nat),
                color: Some(Color::BrightRed),
                bold: false,
            },
        ],
        WordInfo::Bytes { length } => seq![
            SpanView { text: "Bytes"@ + ", "@, color: Some(Color::Yellow), bold: true },
            SpanView {
                text: n_bytes_long_text(length as nat, false),
                color: Some(Color::BrightRed),
                bold: false,
            },
        ],
        WordInfo::FewBytes { length } => seq![
            SpanView { text: "FewBytes"@ + ", "@, color: Some(Color::Yellow), bold: true },
            SpanView {
                text: n_bytes_long_text(length as nat, false),
                color: Some(Color::BrightRed),
                bold: false,
            },
        ],
        WordInfo::BytesContinuation { num_relevant } => payload_label_spans(num_relevant < 8),
        WordInfo::Reference { offset } => seq![
            SpanView { text: "Reference"@ + ", "@, color: Some(Color::Yellow), bold: true },
            SpanView { text: decimal(offset as nat), color: None, bold: false },
        ],
    }
}

/// Tells what is shown beside a word that holds `info`.
pub fn format_info(info: &WordInfo) -> (r: Vec<Span>)
    ensures
        span_views(r@) == info_spans(*info),
{
    let mut spans: Vec<Span> = Vec::new();
    match info {
        WordInfo::Error { error } => {
            let text = match error {
                AtomError::UnexpectedEnd => String::from_str("Error: UnexpectedEnd"),
                AtomError::UnknownType(tag) => {
                    let mut text = String::from_str("Error: UnknownType(");
                    text.append(format_decimal(*tag as u64).as_str());
                    text.append(")");
                    text
                },
                AtomError::AlignmentNotZero => String::from_str("Error: AlignmentNotZero"),
            };
            spans.push(Span::colored(text, Color::Red));
        },
        WordInfo::ErrorContinuation => {},
        WordInfo::Header { version } => {
            spans.push(Span::plain(String::from_str("Header with ")));
            spans.push(Span::colored(String::from_str("magic bytes, "), Color::BrightMagenta));
            let mut text = String::from_str("SemDoc version ");
            text.append(format_decimal(*version as u64).as_str());
            spans.push(Span::colored(text, Color::Yellow));
        },
        WordInfo::Block { kind } => {
            spans.push(atom_type_label("Block"));
            spans.push(Span::colored(String::from_str("padding, "), Color::Blue));
            spans.push(block_kind_label(*kind));
        },
        WordInfo::BlockContinuation { num_children } => {
            spans.push(n_children(*num_children));
        },
        WordInfo::SmallBlock { kind, num_children } => {
            spans.push(atom_type_label("SmallBlock"));
            spans.push(block_kind_label(*kind));
            spans.push(n_children(*num_children as u64));
        },
        WordInfo::Bytes { length } => {
            spans.push(atom_type_label("Bytes"));
            spans.push(length_label(*length, false));
        },
        WordInfo::FewBytes { length } => {
            spans.push(atom_type_label("FewBytes"));
            spans.push(length_label(*length as u64, false));
        },
        WordInfo::BytesContinuation { num_relevant } => {
            return payload_label(*num_relevant < 8);
        },
        WordInfo::Reference { offset } => {
            spans.push(atom_type_label("Reference"));
            spans.push(Span::plain(format_decimal(*offset)));
        },
    }
    assert(span_views(spans@) =~= info_spans(*info));
    spans
}

/// The bytes of a word in hexadecimal, each in the colour of what it holds,
/// with a space between them.
pub open spec fn hex_spans(word: Seq<u8>, info: WordInfo, n: nat) -> Seq<SpanView>
    decreases n,
{
    if n == 0 || n > word.len() {
        Seq::empty()
    } else {
        let byte = SpanView {
            text: hex(word[n - 1]),
            color: Some(info.style_of(n - 1)),
            bold: false,
        };
        if n == 1 {
            seq![byte]
        } else {
            hex_spans(word, info, (n - 1) as nat).push(
                SpanView { text: " "@, color: None, bold: false },
            ).push(byte)
        }
    }
}

/// Shows the bytes of a word that holds `info` in hexadecimal.
pub fn format_bytes_hex(word: &[u8], info: &WordInfo) -> (r: Vec<Span>)
    ensures
        span_views(r@) == hex_spans(word@, *info, word@.len()),
{
    let mut spans: Vec<Span> = Vec::new();
    let mut i: usize = 0;
    assert(span_views(spans@) =~= hex_spans(word@, *info, 0));
    while i < word.len()
        invariant
            i <= word@.len(),
            span_views(spans@) == hex_spans(word@, *info, i as nat),
        decreases word.len() - i,
    {
        let ghost before = span_views(spans@);
        if i > 0 {
            spans.push(Span::plain(String::from_str(" ")));
        }
        spans.push(Span::colored(format_hex(word[i]), info.style(i)));
        i += 1;
        assert(span_views(spans@) =~= hex_spans(word@, *info, i as nat));
    }
    spans
}

/// The bytes of a word as characters, each in the colour of what it holds.
pub open spec fn ascii_spans(word: Seq<u8>, info: WordInfo) -> Seq<SpanView> {
    Seq::new(
        word.len(),
        |i: int|
            SpanView {
                text: seq![
                    match visible(word[i] as int) {
                        Some(c) => c,
                        None => '.',
                    },
                ],
                color: Some(info.style_of(i)),
                bold: false,
            },
    )
}

/// `String::push` of the standard library: appends `c` to `text`.
#[verifier::external_body]
fn push_char(text: &mut String, c: char)
    ensures
        final(text)@ == old(text)@.push(c),
{
    text.push(c)
}

/// Shows the bytes of a word that holds `info` as characters, with a dot
/// for each byte that cannot be seen.
pub fn format_bytes_ascii(word: &[u8], info: &WordInfo) -> (r: Vec<Span>)
    ensures
        span_views(r@) == ascii_spans(word@, *info),
{
    let mut spans: Vec<Span> = Vec::new();
    let mut i: usize = 0;
    while i < word.len()
        invariant
            i <= word@.len(),
            spans@.len() == i,
            forall|j: int| 0 <= j < i ==> spans@[j]@ == ascii_spans(word@, *info)[j],
        decreases word.len() - i,
    {
        let shown = word[i].ascii_or_dot();
        let mut text = String::new();
        push_char(&mut text, shown);
        assert(text@ =~= seq![shown]);
        spans.push(Span::colored(text, info.style(i)));
        i += 1;
    }
    assert(span_views(spans@) =~= ascii_spans(word@, *info));
    spans
}

/// What walking through the atoms of a run of bytes finds.
pub struct WalkedAtoms {
    /// The atoms that were found, in order.
    pub atoms: Seq<AtomView>,
    /// Why the walk ended before the bytes did, if it did.
    pub error: Option<AtomError>,
}

/// The atoms that `bytes` hold, one after the other, up to the first that
/// cannot be read.
pub open spec fn walk_atoms(bytes: Seq<u8>) -> WalkedAtoms
    decreases bytes.len(),
{
    if bytes.len() == 0 {
        WalkedAtoms { atoms: Seq::empty(), error: None }
    } else {
        match decode_atom(bytes) {
            Err(error) => WalkedAtoms { atoms: Seq::empty(), error: Some(error) },
            Ok(atom) => {
                if 0 < atom.length_in_bytes() < bytes.len() {
                    let rest = walk_atoms(bytes.skip(atom.length_in_bytes() as int));
                    WalkedAtoms { atoms: seq![atom] + rest.atoms, error: rest.error }
                } else {
                    WalkedAtoms { atoms: seq![atom], error: None }
                }
            },
        }
    }
}

/// Reads the atoms that `bytes` hold, one after the other, and tells why
/// the last of them is not followed by another, if bytes are left.
pub fn atoms_in(bytes: &[u8]) -> (r: (Vec<Atom>, Option<AtomError>))
    ensures
        crate::molecule::atom_views(r.0@) == walk_atoms(bytes@).atoms,
        r.1 == walk_atoms(bytes@).error,
{
    let mut atoms: Vec<Atom> = Vec::new();
    let mut cursor: usize = 0;
    let total: usize = bytes.len();
    assert(bytes@.skip(0) =~= bytes@);
    assert(crate::molecule::atom_views(atoms@) =~= Seq::<AtomView>::empty());
    while cursor < total
        invariant
            cursor <= total,
            total == bytes@.len(),
            walk_atoms(bytes@).atoms == crate::molecule::atom_views(atoms@) + walk_atoms(
                bytes@.skip(cursor as int),
            ).atoms,
            walk_atoms(bytes@).error == walk_atoms(bytes@.skip(cursor as int)).error,
        decreases total - cursor,
    {
        let rest = slice_subrange(bytes, cursor, total);
        assert(rest@ =~= bytes@.skip(cursor as int));
        proof {
            lemma_decoded_atom(rest@);
        }
        let ghost before = crate::molecule::atom_views(atoms@);
        match Atom::try_from(rest) {
            Err(reason) => {
                assert(before + Seq::<AtomView>::empty() =~= before);
                return (atoms, Some(reason));
            },
            Ok(atom) => {
                let length = atom.length_in_bytes();
                atoms.push(atom);
                assert(crate::molecule::atom_views(atoms@) =~= before.push(atom@));
                if length < total - cursor {
                    assert(rest@.skip(length as int) =~= bytes@.skip(cursor + length));
                    cursor = cursor + length;
                } else {
                    cursor = total;
                    assert(bytes@.skip(total as int) =~= Seq::<u8>::empty());
                }
                assert(walk_atoms(bytes@).atoms =~= crate::molecule::atom_views(atoms@)
                    + walk_atoms(bytes@.skip(cursor as int)).atoms);
            },
        }
    }
    assert(bytes@.skip(total as int) =~= Seq::<u8>::empty());
    assert(crate::molecule::atom_views(atoms@) + Seq::<AtomView>::empty()
        =~= crate::molecule::atom_views(atoms@));
    (atoms, None)
}

} // verus!
