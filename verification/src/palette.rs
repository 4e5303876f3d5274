//! Colours of the viewer, and the highlighting of a message's text by
//! `logparse`.

use vstd::prelude::*;
use logparse::SpanKind as K;

verus! {

/// The colours of alacritty's default scheme, and the one that marks search
/// matches.
#[derive(Clone, Copy, Debug, PartialEq, Eq, Structural)]
pub enum Color {
    Black,
    Red,
    Green,
    Yellow,
    Blue,
    Magenta,
    Cyan,
    White,
    BrightBlack,
    BrightRed,
    BrightGreen,
    BrightYellow,
    BrightBlue,
    BrightMagenta,
    BrightCyan,
    BrightWhite,
    DimBlack,
    DimRed,
    DimGreen,
    DimYellow,
    DimBlue,
    DimMagenta,
    DimCyan,
    DimWhite,
    Hlsearch,
}

/// The red, green and blue parts of each colour.
pub open spec fn spec_rgb(c: Color) -> (u8, u8, u8) {
    match c {
        Color::Black => (0x18, 0x18, 0x18),
        Color::Red => (0xac, 0x42, 0x42),
        Color::Green => (0x90, 0xa9, 0x59),
        Color::Yellow => (0xf4, 0xbf, 0x75),
        Color::Blue => (0x6a, 0x9f, 0xb5),
        Color::Magenta => (0xaa, 0x75, 0x9f),
        Color::Cyan => (0x75, 0xb5, 0xaa),
        Color::White => (0xd8, 0xd8, 0xd8),
        Color::BrightBlack => (0x6b, 0x6b, 0x6b),
        Color::BrightRed => (0xc5, 0x55, 0x55),
        Color::BrightGreen => (0xaa, 0xc4, 0x74),
        Color::BrightYellow => (0xfe, 0xca, 0x88),
        Color::BrightBlue => (0x82, 0xb8, 0xc8),
        Color::BrightMagenta => (0xc2, 0x8c, 0xb8),
        Color::BrightCyan => (0x93, 0xd3, 0xc3),
        Color::BrightWhite => (0xf8, 0xf8, 0xf8),
        Color::DimBlack => (0x0f, 0x0f, 0x0f),
        Color::DimRed => (0x71, 0x2b, 0x2b),
        Color::DimGreen => (0x5f, 0x6f, 0x3a),
        Color::DimYellow => (0xa1, 0x7e, 0x4d),
        Color::DimBlue => (0x45, 0x68, 0x77),
        Color::DimMagenta => (0x70, 0x4d, 0x68),
        Color::DimCyan => (0x4d, 0x77, 0x70),
        Color::DimWhite => (0x8e, 0x8e, 0x8e),
        Color::Hlsearch => (0, 0x5c, 0x80),
    }
}

impl Color {
    /// The red, green and blue parts of the colour.
    pub fn rgb(&self) -> (r: (u8, u8, u8))
        ensures
            r == spec_rgb(*self),
    {
        match self {
            Color::Black => (0x18, 0x18, 0x18),
            Color::Red => (0xac, 0x42, 0x42),
            Color::Green => (0x90, 0xa9, 0x59),
            Color::Yellow => (0xf4, 0xbf, 0x75),
            Color::Blue => (0x6a, 0x9f, 0xb5),
            Color::Magenta => (0xaa, 0x75, 0x9f),
            Color::Cyan => (0x75, 0xb5, 0xaa),
            Color::White => (0xd8, 0xd8, 0xd8),
            Color::BrightBlack => (0x6b, 0x6b, 0x6b),
            Color::BrightRed => (0xc5, 0x55, 0x55),
            Color::BrightGreen => (0xaa, 0xc4, 0x74),
            Color::BrightYellow => (0xfe, 0xca, 0x88),
            Color::BrightBlue => (0x82, 0xb8, 0xc8),
            Color::BrightMagenta => (0xc2, 0x8c, 0xb8),
            Color::BrightCyan => (0x93, 0xd3, 0xc3),
            Color::BrightWhite => (0xf8, 0xf8, 0xf8),
            Color::DimBlack => (0x0f, 0x0f, 0x0f),
            Color::DimRed => (0x71, 0x2b, 0x2b),
            Color::DimGreen => (0x5f, 0x6f, 0x3a),
            Color::DimYellow => (0xa1, 0x7e, 0x4d),
            Color::DimBlue => (0x45, 0x68, 0x77),
            Color::DimMagenta => (0x70, 0x4d, 0x68),
            Color::DimCyan => (0x4d, 0x77, 0x70),
            Color::DimWhite => (0x8e, 0x8e, 0x8e),
            Color::Hlsearch => (0, 0x5c, 0x80),
        }
    }
}

pub const SPAN: Color = Color::Yellow;

pub const SPAN_KEYS: Color = Color::Yellow;

pub const FIELD_KEYS: Color = Color::DimWhite;

pub const FIELD_VALUES: Color = Color::White;

pub const TARGET: Color = Color::Cyan;

pub const COLON_COLON: Color = Color::White;

pub const SPAN_NAME: Color = Color::Green;

pub const TIMESTAMP: Color = Color::DimWhite;

pub const FILENAME: Color = Color::DimWhite;

pub const LOGPARSE_ERROR: Color = Color::Red;

/// The colour of a log level: `TRACE`, `DEBUG`, `INFO` and `WARN` have their
/// own, anything else is red.
pub open spec fn spec_log_level_color(level: Seq<char>) -> Color {
    if level == "TRACE"@ {
        Color::Magenta
    } else if level == "DEBUG"@ {
        Color::Blue
    } else if level == "INFO"@ {
        Color::Green
    } else if level == "WARN"@ {
        Color::Yellow
    } else {
        Color::Red
    }
}

pub fn log_level_color(level: &str) -> (c: Color)
    ensures
        c == spec_log_level_color(level@),
{
    if crate::strings::str_eq(level, "TRACE") {
        Color::Magenta
    } else if crate::strings::str_eq(level, "DEBUG") {
        Color::Blue
    } else if crate::strings::str_eq(level, "INFO") {
        Color::Green
    } else if crate::strings::str_eq(level, "WARN") {
        Color::Yellow
    } else {
        Color::Red
    }
}

/// The category that `logparse` gives a piece of a message's text.
#[derive(Clone, Copy, Debug, PartialEq, Eq, Structural)]
pub enum TextKind {
    Delimiter(usize),
    Separator,
    Number,
    Literal,
    Lifetime,
    String,
    Path,
    Space(usize),
    Constructor,
    Surroundings,
    Text,
}

pub open spec fn spec_logparse_color(kind: TextKind) -> Color {
    match kind {
        TextKind::Delimiter(_) => Color::White,
        TextKind::Separator => Color::DimWhite,
        TextKind::Number => Color::Cyan,
        TextKind::Literal => Color::Cyan,
        TextKind::Lifetime => Color::Cyan,
        TextKind::String => Color::Yellow,
        TextKind::Path => Color::DimWhite,
        TextKind::Space(_) => Color::White,
        TextKind::Constructor => Color::Blue,
        TextKind::Surroundings => Color::DimCyan,
        TextKind::Text => Color::White,
    }
}

/// The colour of a piece of text of each category.
pub fn logparse_color(kind: TextKind) -> (c: Color)
    ensures
        c == spec_logparse_color(kind),
{
    match kind {
        TextKind::Delimiter(_) => Color::White,
        TextKind::Separator => Color::DimWhite,
        TextKind::Number => Color::Cyan,
        TextKind::Literal => Color::Cyan,
        TextKind::Lifetime => Color::Cyan,
        TextKind::String => Color::Yellow,
        TextKind::Path => Color::DimWhite,
        TextKind::Space(_) => Color::White,
        TextKind::Constructor => Color::Blue,
        TextKind::Surroundings => Color::DimCyan,
        TextKind::Text => Color::White,
    }
}

/// A piece of a message's text and its category.
pub struct LogSpan {
    pub text: String,
    pub kind: TextKind,
}

/// The view of what `logparse` made of a message: its pieces, or its error text.
pub open spec fn log_spans_view(r: Result<Vec<LogSpan>, String>) -> Result<
    Seq<(Seq<char>, TextKind)>,
    Seq<char>,
> {
    match r {
        Ok(v) => Ok(v@.map_values(|s: LogSpan| (s.text@, s.kind))),
        Err(e) => Err(e@),
    }
}

/// What `logparse::parse_input` and then `logparse::into_spans` (spaces kept
/// as they are, no pretty printing) make of a message.
pub uninterp spec fn logparse_spans(message: Seq<char>) -> Result<
    Seq<(Seq<char>, TextKind)>,
    Seq<char>,
>;

/// Calls `logparse::parse_input` on `message` and, when it succeeds,
/// `logparse::into_spans` on the result (with `collapse_space: false` and no
/// pretty printing), then copies each span's text out and tells its
/// category's variant apart.  The result is named `logparse_spans` of the
/// message: it depends on the message alone.  (The two calls are named
/// together: what the first hands the second is a syntax tree of
/// `logparse`'s own, which no view describes.)
#[verifier::external_body]
pub(crate) fn logparse_message(message: &str) -> (r: Result<Vec<LogSpan>, String>)
    ensures
        log_spans_view(r) == logparse_spans(message@),
{
    let ast = logparse::parse_input(message)?;
    let config = logparse::Config { collapse_space: false, pretty_print: None };
    Ok(logparse::into_spans(ast, config).into_iter().map(|s| LogSpan {
        text: s.text.into_owned(),
        kind: match s.kind {
            K::Delimiter(d) => TextKind::Delimiter(d), K::Separator => TextKind::Separator,
            K::Number => TextKind::Number, K::Literal => TextKind::Literal,
            K::Lifetime => TextKind::Lifetime, K::String => TextKind::String,
            K::Path => TextKind::Path, K::Space(n) => TextKind::Space(n),
            K::Constructor => TextKind::Constructor, K::Surroundings => TextKind::Surroundings,
            K::Text => TextKind::Text,
        },
    }).collect())
}

} // verus!
