//! Styled text: what the inspectors print, before it is painted.

use colored::Colorize;
use vstd::prelude::*;
use vstd::string::StringExecFns;

verus! {

/// The colours that the inspectors use.
#[derive(Clone, Copy, Debug, PartialEq, Eq)]
pub enum Color {
    Red,
    Green,
    Yellow,
    Blue,
    BrightRed,
    BrightMagenta,
    BrightCyan,
}

impl Color {
    /// The name of the colour.
    pub open spec fn name_of(self) -> &'static str {
        match self {
            Color::Red => "red",
            Color::Green => "green",
            Color::Yellow => "yellow",
            Color::Blue => "blue",
            Color::BrightRed => "bright red",
            Color::BrightMagenta => "bright magenta",
            Color::BrightCyan => "bright cyan",
        }
    }

    /// The name of the colour.
    pub fn name(self) -> (r: &'static str)
        ensures
            r@ == self.name_of()@,
    {
        match self {
            Color::Red => "red",
            Color::Green => "green",
            Color::Yellow => "yellow",
            Color::Blue => "blue",
            Color::BrightRed => "bright red",
            Color::BrightMagenta => "bright magenta",
            Color::BrightCyan => "bright cyan",
        }
    }
}

/// A piece of text in one style.
#[derive(Clone, Debug, PartialEq, Eq)]
pub struct Span {
    pub text: String,
    pub color: Option<Color>,
    pub bold: bool,
}

/// What a [`Span`] holds, as mathematical values.
pub struct SpanView {
    pub text: Seq<char>,
    pub color: Option<Color>,
    pub bold: bool,
}

impl View for Span {
    type V = SpanView;

    open spec fn view(&self) -> SpanView {
        SpanView { text: self.text@, color: self.color, bold: self.bold }
    }
}

/// The views of a sequence of spans.
pub open spec fn span_views(spans: Seq<Span>) -> Seq<SpanView> {
    Seq::new(spans.len(), |i: int| spans[i]@)
}

/// The characters of the first `n` of `spans`, without their styles.
pub open spec fn plain_text(spans: Seq<SpanView>, n: nat) -> Seq<char>
    decreases n,
{
    if n == 0 || n > spans.len() {
        Seq::empty()
    } else {
        plain_text(spans, (n - 1) as nat) + spans[n - 1].text
    }
}

/// Whether each of `spans` is without colour and not bold.
pub open spec fn all_plain(spans: Seq<SpanView>) -> bool {
    forall|i: int| 0 <= i < spans.len() ==> (#[trigger] spans[i]).color is None && !spans[i].bold
}

impl Span {
    /// Text without colour.
    pub fn plain(text: String) -> (r: Span)
        ensures
            r@ == (SpanView { text: text@, color: None, bold: false }),
    {
        Span { text, color: None, bold: false }
    }

    /// Text in a colour.
    pub fn colored(text: String, color: Color) -> (r: Span)
        ensures
            r@ == (SpanView { text: text@, color: Some(color), bold: false }),
    {
        Span { text, color: Some(color), bold: false }
    }

    /// Bold text in a colour.
    pub fn bold(text: String, color: Color) -> (r: Span)
        ensures
            r@ == (SpanView { text: text@, color: Some(color), bold: true }),
    {
        Span { text, color: Some(color), bold: true }
    }

    /// Bold text without colour.
    pub fn heading(text: String) -> (r: Span)
        ensures
            r@ == (SpanView { text: text@, color: None, bold: true }),
    {
        Span { text, color: None, bold: true }
    }
}

/// The character of a decimal digit.
pub open spec fn digit(d: nat) -> char {
    if d == 0 {
        '0'
    } else if d == 1 {
        '1'
    } else if d == 2 {
        '2'
    } else if d == 3 {
        '3'
    } else if d == 4 {
        '4'
    } else if d == 5 {
        '5'
    } else if d == 6 {
        '6'
    } else if d == 7 {
        '7'
    } else if d == 8 {
        '8'
    } else {
        '9'
    }
}

/// The character of a hexadecimal digit, in lower case.
pub open spec fn hex_digit(d: nat) -> char {
    if d < 10 {
        digit(d)
    } else if d == 10 {
        'a'
    } else if d == 11 {
        'b'
    } else if d == 12 {
        'c'
    } else if d == 13 {
        'd'
    } else if d == 14 {
        'e'
    } else {
        'f'
    }
}

/// The decimal digits of `n`, without leading zeros.
pub open spec fn decimal(n: nat) -> Seq<char>
    decreases n,
{
    if n < 10 {
        seq![digit(n)]
    } else {
        decimal(n / 10).push(digit(n % 10))
    }
}

/// The two hexadecimal digits of `byte`.
pub open spec fn hex(byte: u8) -> Seq<char> {
    seq![hex_digit(byte as nat / 16), hex_digit(byte as nat % 16)]
}

/// `n` spaces.
pub open spec fn spaces(n: nat) -> Seq<char> {
    Seq::new(n, |i: int| ' ')
}

/// `text` behind as many spaces as it takes to fill `width` characters.
pub open spec fn right_aligned(text: Seq<char>, width: nat) -> Seq<char> {
    if text.len() >= width {
        text
    } else {
        spaces((width - text.len()) as nat) + text
    }
}

/// The text of a hexadecimal digit.
fn hex_digit_str(d: u8) -> (r: &'static str)
    requires
        d < 16,
    ensures
        r@ == seq![hex_digit(d as nat)],
{
    proof {
        reveal_strlit("0");
        reveal_strlit("1");
        reveal_strlit("2");
        reveal_strlit("3");
        reveal_strlit("4");
        reveal_strlit("5");
        reveal_strlit("6");
        reveal_strlit("7");
        reveal_strlit("8");
        reveal_strlit("9");
        reveal_strlit("a");
        reveal_strlit("b");
        reveal_strlit("c");
        reveal_strlit("d");
        reveal_strlit("e");
        reveal_strlit("f");
    }
    let r = if d == 0 {
        "0"
    } else if d == 1 {
        "1"
    } else if d == 2 {
        "2"
    } else if d == 3 {
        "3"
    } else if d == 4 {
        "4"
    } else if d == 5 {
        "5"
    } else if d == 6 {
        "6"
    } else if d == 7 {
        "7"
    } else if d == 8 {
        "8"
    } else if d == 9 {
        "9"
    } else if d == 10 {
        "a"
    } else if d == 11 {
        "b"
    } else if d == 12 {
        "c"
    } else if d == 13 {
        "d"
    } else if d == 14 {
        "e"
    } else {
        "f"
    };
    assert(r@ =~= seq![hex_digit(d as nat)]);
    r
}

/// The decimal digits of `n`.
pub fn format_decimal(n: u64) -> (r: String)
    ensures
        r@ == decimal(n as nat),
    decreases n,
{
    if n < 10 {
        String::from_str(hex_digit_str(n as u8))
    } else {
        let mut text = format_decimal(n / 10);
        text.append(hex_digit_str((n % 10) as u8));
        assert(text@ =~= decimal(n as nat));
        text
    }
}

/// The two hexadecimal digits of `byte`.
pub fn format_hex(byte: u8) -> (r: String)
    ensures
        r@ == hex(byte),
{
    let mut text = String::from_str(hex_digit_str(byte / 16));
    text.append(hex_digit_str(byte % 16));
    assert(text@ =~= hex(byte));
    text
}

/// The decimal digits of `n` behind as many spaces as it takes to fill
/// `width` characters.
pub fn format_right_aligned(n: u64, width: usize) -> (r: String)
    ensures
        r@ == right_aligned(decimal(n as nat), width as nat),
{
    let digits = format_decimal(n);
    let len = digits.as_str().unicode_len();
    if len >= width {
        digits
    } else {
        let mut text = String::new();
        let mut i: usize = 0;
        proof {
            reveal_strlit(" ");
        }
        assert(text@ =~= spaces(0));
        while i < width - len
            invariant
                len < width,
                i <= width - len,
                text@ == spaces(i as nat),
                " "@ == seq![' '],
            decreases width - len - i,
        {
            text.append(" ");
            i += 1;
            assert(text@ =~= spaces(i as nat));
        }
        text.append(digits.as_str());
        text
    }
}

/// The sequence that switches every style of a terminal off.
pub open spec fn reset() -> Seq<char> {
    seq!['\u{1b}', '[', '0', 'm']
}

/// `text` between `style`, a sequence that switches a style on, and the
/// sequence that switches every style off.
pub open spec fn styled(style: Seq<char>, text: Seq<char>) -> Seq<char> {
    style + text + reset()
}

/// Whether `text` holds no character that starts an escape sequence.
pub open spec fn is_free_of_escapes(text: Seq<char>) -> bool {
    forall|i: int| 0 <= i < text.len() ==> text[i] != '\u{1b}'
}

/// Whether `painted` is `text` as a terminal is made to show it in some
/// style: the text itself where the process does not paint, and else the
/// text between a sequence that switches the style on and the sequence that
/// switches every style off.
pub open spec fn is_painted(text: Seq<char>, painted: Seq<char>) -> bool {
    painted == text || exists|style: Seq<char>| painted == #[trigger] styled(style, text)
}

/// Whether `painted` is what is written to a terminal for `span`: the text
/// of a span without any style, and a painting of the text of any span
/// whose text holds no escape sequence.
pub open spec fn shows(span: SpanView, painted: Seq<char>) -> bool {
    &&& span.color is None && !span.bold ==> painted == span.text
    &&& is_free_of_escapes(span.text) ==> is_painted(span.text, painted)
}

/// The first `n` of `parts`, one after the other.
pub open spec fn joined(parts: Seq<Seq<char>>, n: nat) -> Seq<char>
    decreases n,
{
    if n == 0 || n > parts.len() {
        Seq::empty()
    } else {
        joined(parts, (n - 1) as nat) + parts[n - 1]
    }
}

/// Whether `text` is made of `parts`, one for each of `spans`, each of which
/// is what is written to a terminal for its span.
pub open spec fn is_rendering_of(spans: Seq<SpanView>, parts: Seq<Seq<char>>, text: Seq<char>)
    -> bool {
    &&& parts.len() == spans.len()
    &&& text == joined(parts, parts.len())
    &&& forall|i: int| 0 <= i < spans.len() ==> shows(spans[i], #[trigger] parts[i])
}

/// Whether `text` is what is written to a terminal for `spans`: for each
/// span what is written for it, one after the other.
pub open spec fn is_rendering(spans: Seq<SpanView>, text: Seq<char>) -> bool {
    exists|parts: Seq<Seq<char>>| #[trigger] is_rendering_of(spans, parts, text)
}

/// The texts of `strings`.
pub open spec fn string_views(strings: Seq<String>) -> Seq<Seq<char>> {
    Seq::new(strings.len(), |i: int| strings[i]@)
}

/// What is written for spans without any style is their plain text.
pub proof fn lemma_plain_rendering(spans: Seq<SpanView>, parts: Seq<Seq<char>>, n: nat)
    requires
        all_plain(spans),
        parts.len() == spans.len(),
        n <= spans.len(),
        forall|i: int| 0 <= i < spans.len() ==> shows(spans[i], #[trigger] parts[i]),
    ensures
        joined(parts, n) == plain_text(spans, n),
    decreases n,
{
    if n > 0 {
        lemma_plain_rendering(spans, parts, (n - 1) as nat);
        assert(shows(spans[n - 1], parts[n - 1]));
    }
}

/// `colored::Colorize::color` with the name of a colour, and the painted
/// text as a string. Whether the text is painted is for the process and its
/// environment to decide: a text without escape sequences comes back as it
/// is, or between the sequence that switches the colour on and the sequence
/// that switches every style off.
#[verifier::external_body]
fn paint(text: &str, color: &str) -> (r: String)
    ensures
        is_free_of_escapes(text@) ==> is_painted(text@, r@),
{
    text.color(color).to_string()
}

/// `colored::Colorize::color` and `bold`, and the painted text as a string:
/// a text without escape sequences comes back as it is, or between the
/// sequence that switches the style on and the sequence that switches every
/// style off.
#[verifier::external_body]
fn paint_bold(text: &str, color: &str) -> (r: String)
    ensures
        is_free_of_escapes(text@) ==> is_painted(text@, r@),
{
    text.color(color).bold().to_string()
}

/// `colored::Colorize::bold`, and the painted text as a string: a text
/// without escape sequences comes back as it is, or between the sequence
/// that switches bold on and the sequence that switches every style off.
#[verifier::external_body]
fn embolden(text: &str) -> (r: String)
    ensures
        is_free_of_escapes(text@) ==> is_painted(text@, r@),
{
    text.bold().to_string()
}

/// The text of `span` as it is written to a terminal to show it in the
/// span's style. A span without colour that is not bold is its text.
pub fn render_span(span: &Span) -> (r: String)
    ensures
        shows(span@, r@),
{
    match span.color {
        Some(color) => {
            if span.bold {
                paint_bold(span.text.as_str(), color.name())
            } else {
                paint(span.text.as_str(), color.name())
            }
        },
        None => {
            if span.bold {
                embolden(span.text.as_str())
            } else {
                span.text.clone()
            }
        },
    }
}

/// What is written to a terminal for each of `spans`.
pub fn render_spans(spans: &Vec<Span>) -> (r: Vec<String>)
    ensures
        r@.len() == spans@.len(),
        forall|i: int| 0 <= i < spans@.len() ==> shows(spans@[i]@, #[trigger] r@[i]@),
{
    let mut parts: Vec<String> = Vec::new();
    let mut i: usize = 0;
    while i < spans.len()
        invariant
            i <= spans@.len(),
            parts@.len() == i,
            forall|j: int| 0 <= j < i ==> shows(spans@[j]@, #[trigger] parts@[j]@),
        decreases spans.len() - i,
    {
        parts.push(render_span(&spans[i]));
        i += 1;
    }
    parts
}

/// The texts of `parts`, one after the other.
pub fn join(parts: &Vec<String>) -> (r: String)
    ensures
        r@ == joined(string_views(parts@), parts@.len()),
{
    let mut text = String::new();
    let mut i: usize = 0;
    assert(text@ =~= joined(string_views(parts@), 0));
    while i < parts.len()
        invariant
            i <= parts@.len(),
            text@ == joined(string_views(parts@), i as nat),
        decreases parts.len() - i,
    {
        text.append(parts[i].as_str());
        i += 1;
    }
    text
}

/// The texts of `spans`, one after the other, as they are written to a
/// terminal to show them in their styles. Spans without any style give
/// their plain text.
pub fn render(spans: &Vec<Span>) -> (r: String)
    ensures
        is_rendering(span_views(spans@), r@),
        all_plain(span_views(spans@)) ==> r@ == plain_text(span_views(spans@), spans@.len()),
{
    let parts = render_spans(spans);
    let text = join(&parts);
    proof {
        let views = span_views(spans@);
        let texts = string_views(parts@);
        assert forall|i: int| 0 <= i < views.len() implies shows(views[i], #[trigger] texts[i]) by {
            assert(shows(spans@[i]@, parts@[i]@));
        }
        assert(is_rendering_of(views, texts, text@));
        if all_plain(views) {
            lemma_plain_rendering(views, texts, views.len());
        }
    }
    text
}

} // verus!
