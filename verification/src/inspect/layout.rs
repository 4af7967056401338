//! Laying out what the inspectors print: the lines of a tree, and the width
//! of the terminal.

use vstd::prelude::*;
use vstd::string::StringExecFns;
use vstd::utf8::{decode_utf8, encode_utf8, encode_utf8_decode_utf8, is_char_boundary};

verus! {

/// What `textwrap::indent` makes of a text and a prefix: the text with the
/// prefix in front of each of its lines.
pub uninterp spec fn indented(text: Seq<char>, prefix: Seq<char>) -> Seq<char>;

/// `textwrap::indent`: puts `prefix` in front of each line of `text`. The
/// result depends on the two texts alone.
#[verifier::external_body]
fn indent(text: &str, prefix: &str) -> (r: String)
    ensures
        r@ == indented(text@, prefix@),
{
    textwrap::indent(text, prefix)
}

/// `terminal_size::terminal_size`: the number of columns of the terminal
/// that the process writes to, if it writes to one. Nothing is promised of
/// the result.
#[verifier::external_body]
fn terminal_columns() -> Option<u16> {
    terminal_size::terminal_size().map(|size| size.0.0)
}

/// The width that is taken where the terminal does not tell its own.
pub const DEFAULT_WIDTH: usize = 80;

/// The width in columns that `columns` stands for.
pub open spec fn width_or_default(columns: Option<u16>) -> usize {
    match columns {
        Some(columns) => columns as usize,
        None => DEFAULT_WIDTH,
    }
}

/// The width of a terminal with `columns` columns, or 80 if there is no
/// terminal.
pub fn width_or_80(columns: Option<u16>) -> (r: usize)
    ensures
        r == width_or_default(columns),
{
    match columns {
        Some(columns) => columns as usize,
        None => DEFAULT_WIDTH,
    }
}

/// The width of the terminal that the process writes to, or 80 if it does
/// not write to one.
pub fn terminal_width_or_80() -> (r: usize)
    ensures
        r <= u16::MAX,
{
    width_or_80(terminal_columns())
}

/// What is drawn in front of the first line of a child of a tree.
pub open spec fn first_line_prefix(is_last: bool) -> &'static str {
    if is_last {
        "└─"
    } else {
        "├─"
    }
}

/// What is drawn in front of the other lines of a child of a tree.
pub open spec fn rest_prefix(is_last: bool) -> &'static str {
    if is_last {
        "  "
    } else {
        "│ "
    }
}

/// `content` with the first `skip` of its bytes replaced by `prefix`, where
/// these bytes are whole characters.
pub open spec fn with_prefix(prefix: Seq<char>, content: Seq<char>, skip: nat) -> Option<
    Seq<char>,
> {
    if is_char_boundary(encode_utf8(content), skip as int) {
        Some(prefix + decode_utf8(encode_utf8(content).skip(skip as int)))
    } else {
        None
    }
}

/// The lines of one child of a tree: the child's text behind the branch
/// that leads to it, with the lines below the first one indented to stand
/// beside the line that leads to the children below.
pub open spec fn child_lines(child: Seq<char>, is_last: bool) -> Option<Seq<char>> {
    with_prefix(
        first_line_prefix(is_last)@,
        indented(child, rest_prefix(is_last)@),
        encode_utf8(rest_prefix(is_last)@).len(),
    )
}

/// The lines of the first `n` of the children of a tree, if those of each
/// child can be drawn.
pub open spec fn children_lines(children: Seq<Seq<char>>, n: nat) -> Option<Seq<char>>
    decreases n,
{
    if n == 0 || n > children.len() {
        Some(Seq::empty())
    } else {
        match (
            children_lines(children, (n - 1) as nat),
            child_lines(children[n - 1], n == children.len()),
        ) {
            (Some(before), Some(lines)) => Some(before + lines),
            _ => None,
        }
    }
}

/// The texts of `children`.
pub open spec fn texts(children: Seq<String>) -> Seq<Seq<char>> {
    Seq::new(children.len(), |i: int| children[i]@)
}

/// Replaces the first `skip` bytes of `content` by `prefix`, if these bytes
/// are whole characters.
pub fn replace_prefix(prefix: &str, content: &str, skip: usize) -> (r: Option<String>)
    ensures
        match r {
            Some(text) => with_prefix(prefix@, content@, skip as nat) == Some(text@),
            None => with_prefix(prefix@, content@, skip as nat) is None,
        },
{
    if content.is_char_boundary(skip) {
        let (_, tail) = content.split_at(skip);
        let mut text = String::from_str(prefix);
        text.append(tail);
        proof {
            encode_utf8_decode_utf8(tail@);
            let bytes = encode_utf8(content@);
            assert(bytes.skip(skip as int) =~= bytes.subrange(skip as int, bytes.len() as int));
        }
        Some(text)
    } else {
        None
    }
}

/// Draws the children of a node of a tree below each other, each behind a
/// branch. The lines of a child are found with `textwrap::indent`; where
/// they do not start with the characters that the branch replaces, nothing
/// is drawn.
pub fn format_children_strings(children: &[String]) -> (r: Option<String>)
    ensures
        match r {
            Some(text) => children_lines(texts(children@), children@.len()) == Some(text@),
            None => children_lines(texts(children@), children@.len()) is None,
        },
{
    let mut text = String::new();
    let mut index: usize = 0;
    while index < children.len()
        invariant
            index <= children@.len(),
            children_lines(texts(children@), index as nat) == Some(text@),
        decreases children.len() - index,
    {
        let is_last = index == children.len() - 1;
        let (first_line_prefix, rest_prefix) = if is_last {
            ("└─", "  ")
        } else {
            ("├─", "│ ")
        };
        let content = indent(children[index].as_str(), rest_prefix);
        let skip = rest_prefix.as_bytes().len();
        assert(texts(children@)[index as int] == children@[index as int]@);
        match replace_prefix(first_line_prefix, content.as_str(), skip) {
            Some(lines) => {
                text.append(lines.as_str());
            },
            None => {
                proof {
                    lemma_children_lines_stay_undrawn(
                        texts(children@),
                        (index + 1) as nat,
                        children@.len(),
                    );
                }
                return None;
            },
        }
        index += 1;
    }
    Some(text)
}

/// Where the first `n` children cannot be drawn, more of them cannot
/// either.
proof fn lemma_children_lines_stay_undrawn(children: Seq<Seq<char>>, n: nat, m: nat)
    requires
        n <= m <= children.len(),
        children_lines(children, n) is None,
    ensures
        children_lines(children, m) is None,
    decreases m,
{
    if n < m {
        lemma_children_lines_stay_undrawn(children, n, (m - 1) as nat);
    }
}

} // verus!
