//! The text of a message as the viewer lays it out: which parts are shown,
//! in which colour, and where the search text is marked.

use vstd::prelude::*;
use crate::grammar::{Pair, SpanModel, MessageModel};
use crate::list::{LinkedList, JsonMap, pairs_view};
use crate::message::{
    AppState, Message, MessageState, HopMessageKind, spec_hop, single_message_field,
    single_message, spec_spans_match, spec_message_matches,
};
use crate::palette::{
    Color, TextKind, LogSpan, spec_log_level_color, log_level_color, spec_logparse_color,
    logparse_color, logparse_spans, logparse_message, log_spans_view, SPAN, SPAN_KEYS, FIELD_KEYS,
    FIELD_VALUES, TARGET, COLON_COLON, SPAN_NAME, TIMESTAMP, FILENAME, LOGPARSE_ERROR,
};
use crate::parser::{Span, spans_view};
use crate::strings::{seq_contains, to_chars, chars_to_string};

verus! {

/// How far nested text is moved to the right, in points.
pub const INDENT: u32 = 8;

/// The colour of a piece of text and of what is behind it; `None` is the
/// default.
#[derive(Clone, Copy, Debug, PartialEq, Eq, Structural)]
pub struct TextStyle {
    pub color: Option<Color>,
    pub background: Option<Color>,
}

/// Text in the default colour.
pub open spec fn plain() -> TextStyle {
    TextStyle { color: None, background: None }
}

/// Text in the colour `c`.
pub open spec fn colored(c: Color) -> TextStyle {
    TextStyle { color: Some(c), background: None }
}

/// The style of text that the search found.
pub open spec fn marked(f: TextStyle) -> TextStyle {
    TextStyle { background: Some(Color::Hlsearch), ..f }
}

/// Text in the default colour.
pub fn text_format() -> (f: TextStyle)
    ensures
        f == plain(),
{
    TextStyle { color: None, background: None }
}

/// Text in the colour `color`.
pub fn text_format_color(color: Color) -> (f: TextStyle)
    ensures
        f == colored(color),
{
    TextStyle { color: Some(color), background: None }
}

/// A run of text, the space before it and its style.
pub struct LayoutPiece {
    pub text: String,
    pub leading_space: u32,
    pub format: TextStyle,
}

pub type PieceModel = (Seq<char>, u32, TextStyle);

pub open spec fn pieces_view(v: Seq<LayoutPiece>) -> Seq<PieceModel> {
    v.map_values(|p: LayoutPiece| (p.text@, p.leading_space, p.format))
}

/// Whether `n` occurs in `t` at `i`.
pub open spec fn match_at(t: Seq<char>, n: Seq<char>, i: int) -> bool {
    0 <= i && i + n.len() <= t.len() && t.subrange(i, i + n.len()) == n
}

/// The first place, from `from` on, where `n` occurs in `t`.
pub open spec fn spec_next_match(t: Seq<char>, n: Seq<char>, from: int) -> Option<int>
    decreases t.len() - from,
{
    if from < 0 || from + n.len() > t.len() {
        None
    } else if n.len() == 0 || t.subrange(from, from + n.len()) == n {
        Some(from)
    } else {
        spec_next_match(t, n, from + 1)
    }
}

pub proof fn lemma_next_match(t: Seq<char>, n: Seq<char>, from: int)
    requires
        0 <= from,
    ensures
        spec_next_match(t, n, from) matches Some(i) ==> from <= i && match_at(t, n, i) && forall|
            j: int,
        | from <= j < i ==> !#[trigger] match_at(t, n, j),
        spec_next_match(t, n, from) is None ==> forall|j: int| from <= j ==> !#[trigger] match_at(t, n, j),
    decreases t.len() - from,
{
    if from + n.len() <= t.len() && n.len() != 0 && t.subrange(from, from + n.len()) != n {
        lemma_next_match(t, n, from + 1);
    }
    if n.len() == 0 && from <= t.len() {
        assert(t.subrange(from, from) =~= n);
    }
}

/// Search text is found in a text exactly when it occurs in it.
pub proof fn lemma_found_iff_contains(t: Seq<char>, n: Seq<char>)
    ensures
        spec_next_match(t, n, 0) is Some <==> seq_contains(t, n),
{
    lemma_next_match(t, n, 0);
    if seq_contains(t, n) {
        let i = choose|i: int| 0 <= i <= t.len() - n.len() && #[trigger] t.subrange(i, i + n.len()) == n;
        assert(match_at(t, n, i));
    }
    if let Some(i) = spec_next_match(t, n, 0) {
        assert(t.subrange(i, i + n.len()) == n);
    }
}

/// The pieces of `t` from `from` on: the text between matches of `n` in the
/// style `fmt`, each match marked, and what follows the last match (possibly
/// nothing) last.  Only the first piece gets the leading space `lead`.
pub open spec fn spec_highlight(t: Seq<char>, n: Seq<char>, from: int, lead: u32, fmt: TextStyle) -> Seq<
    PieceModel,
>
    decreases t.len() - from,
{
    if n.len() == 0 || from < 0 || from > t.len() {
        seq![(t.subrange(from, t.len() as int), lead, fmt)]
    } else {
        match spec_next_match(t, n, from) {
            None => seq![(t.subrange(from, t.len() as int), lead, fmt)],
            Some(i) => {
                proof {
                    lemma_next_match(t, n, from);
                }
                let prefix = t.subrange(from, i);
                let head: Seq<PieceModel> = if prefix.len() > 0 {
                    seq![(prefix, lead, fmt)]
                } else {
                    seq![]
                };
                let lead2: u32 = if prefix.len() > 0 {
                    0
                } else {
                    lead
                };
                head + seq![(t.subrange(i, i + n.len()), lead2, marked(fmt))] + spec_highlight(
                    t,
                    n,
                    i + n.len(),
                    0,
                    fmt,
                )
            },
        }
    }
}

/// A layout under construction: its pieces, and whether the search text
/// was found in what has been added.
pub struct Built {
    pub pieces: Seq<PieceModel>,
    pub found: bool,
}

/// Adding `text` to a layout while the search is `search`.
#[verifier::opaque]
pub open spec fn spec_append(b: Built, search: Seq<char>, text: Seq<char>, lead: u32, fmt: TextStyle) -> Built {
    Built {
        pieces: b.pieces + spec_highlight(text, search, 0, lead, fmt),
        found: b.found || (search.len() > 0 && spec_next_match(text, search, 0) is Some),
    }
}

/// Builds the pieces of a message's text, marking what the search finds.
pub struct StrBuilder<'a> {
    pub job: Vec<LayoutPiece>,
    pub app_state: &'a AppState,
    pub found_search: bool,
}

impl<'a> StrBuilder<'a> {
    pub open spec fn model(&self) -> Built {
        Built { pieces: pieces_view(self.job@), found: self.found_search }
    }

    /// An empty layout for the viewer state `app_state`.
    pub fn new(app_state: &'a AppState) -> (b: Self)
        ensures
            b.app_state == app_state,
            b.model() == (Built { pieces: Seq::empty(), found: false }),
    {
        let b = StrBuilder { job: Vec::new(), app_state, found_search: false };
        assert(b.model().pieces =~= Seq::<PieceModel>::empty());
        b
    }

    fn push_piece(&mut self, text: String, leading_space: u32, format: TextStyle)
        ensures
            final(self).app_state == old(self).app_state,
            final(self).found_search == old(self).found_search,
            final(self).model().pieces == old(self).model().pieces.push((text@, leading_space, format)),
    {
        let ghost before = self.job@;
        self.job.push(LayoutPiece { text, leading_space, format });
        assert(pieces_view(self.job@) =~= pieces_view(before).push((text@, leading_space, format)));
    }

    /// Adds `text` with `leading_space` before it, in the style `format`;
    /// where the search text occurs in it, that part is marked.
    pub fn append(&mut self, text: &str, leading_space: u32, format: TextStyle)
        ensures
            final(self).app_state == old(self).app_state,
            final(self).model() == spec_append(
                old(self).model(),
                old(self).app_state.search@,
                text@,
                leading_space,
                format,
            ),
            crate::laws::pieces_text(final(self).model().pieces) == crate::laws::pieces_text(
                old(self).model().pieces,
            ) + text@,
            final(self).found_search == (old(self).found_search || (old(self).app_state.search@.len()
                > 0 && seq_contains(text@, old(self).app_state.search@))),
    {
        reveal(spec_append);
        let chars = to_chars(text);
        let needle = to_chars(self.app_state.search.as_str());
        let ghost t = chars@;
        let ghost n = needle@;
        let ghost start = self.model();
        let tl = chars.len();
        let mut last: usize = 0;
        let mut lead = leading_space;
        if needle.len() > 0 {
            loop
                invariant
                    chars@ == t,
                    tl == t.len(),
                    needle@ == n,
                    n == self.app_state.search@,
                    n.len() > 0,
                    last <= t.len(),
                    self.app_state == old(self).app_state,
                    start == old(self).model(),
                    self.model().pieces + spec_highlight(t, n, last as int, lead, format)
                        == start.pieces + spec_highlight(t, n, 0, leading_space, format),
                    self.found_search == (start.found || last > 0),
                    last > 0 ==> spec_next_match(t, n, 0) is Some,
                    last == 0 ==> lead == leading_space,
                ensures
                    chars@ == t,
                    needle@ == n,
                    last <= t.len(),
                    self.app_state == old(self).app_state,
                    self.model().pieces + spec_highlight(t, n, last as int, lead, format)
                        == start.pieces + spec_highlight(t, n, 0, leading_space, format),
                    spec_next_match(t, n, last as int) is None,
                    self.found_search == (start.found || spec_next_match(t, n, 0) is Some),
                decreases t.len() - last,
            {
                match find_from(&chars, &needle, last) {
                    None => {
                        break ;
                    },
                    Some(ind) => {
                        proof {
                            lemma_next_match(t, n, last as int);
                            assert(match_at(t, n, ind as int));
                        }
                        let ghost old_last = last;
                        let ghost old_lead = lead;
                        let ghost before = self.model().pieces;
                        if ind > last {
                            self.push_piece(chars_to_string(&chars, last, ind), lead, format);
                            lead = 0;
                        }
                        let mut fmt = format;
                        fmt.background = Some(Color::Hlsearch);
                        self.push_piece(chars_to_string(&chars, ind, ind + needle.len()), lead, fmt);
                        lead = 0;
                        last = ind + needle.len();
                        self.found_search = true;
                        assert(self.model().pieces + spec_highlight(t, n, last as int, lead, format)
                            =~= before + spec_highlight(t, n, old_last as int, old_lead, format));
                    },
                }
            }
        }
        self.push_piece(chars_to_string(&chars, last, chars.len()), lead, format);
        assert(self.model().pieces =~= start.pieces + spec_highlight(t, n, 0, leading_space, format));
        proof {
            crate::laws::lemma_highlight_keeps_text(t, n, 0, leading_space, format);
            crate::laws::lemma_pieces_text_concat(
                start.pieces,
                spec_highlight(t, n, 0, leading_space, format),
            );
            assert(t.subrange(0, t.len() as int) =~= t);
            lemma_found_iff_contains(t, n);
        }
    }
}

/// The first place, from `from` on, where `n` occurs in `t`.
fn find_from(t: &Vec<char>, n: &Vec<char>, from: usize) -> (r: Option<usize>)
    requires
        from <= t@.len(),
    ensures
        match r {
            Some(i) => spec_next_match(t@, n@, from as int) == Some(i as int),
            None => spec_next_match(t@, n@, from as int) is None,
        },
{
    let tl = t.len();
    let nl = n.len();
    if nl > tl {
        return None;
    }
    let mut i = from;
    while i <= tl - nl
        invariant
            tl == t@.len(),
            nl == n@.len(),
            nl <= tl,
            from <= i,
            spec_next_match(t@, n@, from as int) == spec_next_match(t@, n@, i as int),
        decreases tl - i,
    {
        let mut k: usize = 0;
        while k < nl && t[i + k] == n[k]
            invariant
                tl == t@.len(),
                nl == n@.len(),
                i + nl <= tl,
                0 <= k <= nl,
                forall|j: int| 0 <= j < k ==> t@[i + j] == n@[j],
            decreases nl - k,
        {
            k = k + 1;
        }
        if k == nl {
            assert(t@.subrange(i as int, i + nl) =~= n@);
            return Some(i);
        }
        assert(t@.subrange(i as int, i + nl) != n@) by {
            assert(t@.subrange(i as int, i + nl)[k as int] == t@[i + k]);
        }
        i = i + 1;
    }
    None
}


/// The bytes that the keys and values of `pairs` take up in UTF-8.
pub open spec fn pairs_byte_len(pairs: Seq<Pair>) -> int
    decreases pairs.len(),
{
    if pairs.len() == 0 {
        0
    } else {
        vstd::utf8::encode_utf8(pairs[0].0).len() + vstd::utf8::encode_utf8(pairs[0].1).len()
            + pairs_byte_len(pairs.drop_first())
    }
}

/// The pairs of an object, each as the separator, the key (after `indent`),
/// `: ` and the value.
pub open spec fn spec_dict_pairs_text(
    b: Built,
    search: Seq<char>,
    sep: Seq<char>,
    indent: u32,
    key_color: Color,
    pairs: Seq<Pair>,
) -> Built
    decreases pairs.len(),
{
    if pairs.len() == 0 {
        b
    } else {
        let b1 = spec_append(b, search, sep, 0, plain());
        let b2 = spec_append(b1, search, pairs[0].0, indent, colored(key_color));
        let b3 = spec_append(b2, search, ": "@, 0, colored(key_color));
        let b4 = spec_append(b3, search, pairs[0].1, 0, colored(FIELD_VALUES));
        spec_dict_pairs_text(b4, search, sep, indent, key_color, pairs.drop_first())
    }
}

/// An object's pairs: one per line, indented, when their keys and values
/// take up more than 100 bytes; otherwise on one line, with spaces between.
pub open spec fn spec_dict_text(
    b: Built,
    search: Seq<char>,
    indent: u32,
    key_color: Color,
    pairs: Seq<Pair>,
) -> Built {
    if pairs_byte_len(pairs) > 100 {
        spec_dict_pairs_text(b, search, "\n"@, indent, key_color, pairs)
    } else {
        spec_dict_pairs_text(b, search, " "@, 0, key_color, pairs)
    }
}

/// The filename and line number, on a line of their own.
pub open spec fn spec_filename_text(b: Built, search: Seq<char>, m: MessageModel) -> Built {
    let b1 = spec_append(b, search, "\n"@, 0, plain());
    let b2 = spec_append(b1, search, m.filename, INDENT, colored(FILENAME));
    let b3 = spec_append(b2, search, ":"@, 0, colored(FILENAME));
    spec_append(b3, search, m.line_number, 0, colored(FILENAME))
}

/// The name of a span, `---` when it has none.
pub open spec fn name_or_dashes(name: Option<Seq<char>>) -> Seq<char> {
    match name {
        Some(n) => n,
        None => "---"@,
    }
}

/// Each span on a line of its own: its name, then its pairs.
pub open spec fn spec_spans_text(b: Built, search: Seq<char>, spans: Seq<SpanModel>) -> Built
    decreases spans.len(),
{
    if spans.len() == 0 {
        b
    } else {
        let b1 = spec_append(b, search, "\n"@, 0, plain());
        let b2 = spec_append(b1, search, name_or_dashes(spans[0].name), INDENT, colored(SPAN_NAME));
        let b3 = spec_dict_text(b2, search, (INDENT * 2) as u32, SPAN_KEYS, spans[0].map);
        spec_spans_text(b3, search, spans.drop_first())
    }
}

/// The pieces that `logparse` made of a message, each in the colour of its
/// category.
pub open spec fn spec_log_spans_text(b: Built, search: Seq<char>, spans: Seq<(Seq<char>, TextKind)>) -> Built
    decreases spans.len(),
{
    if spans.len() == 0 {
        b
    } else {
        let b1 = spec_append(b, search, spans[0].0, 0, colored(spec_logparse_color(spans[0].1)));
        spec_log_spans_text(b1, search, spans.drop_first())
    }
}

/// The view of what `logparse` made of a message, if it has been asked.
pub open spec fn logparsed_view(o: Option<Box<Result<Vec<LogSpan>, String>>>) -> Option<
    Result<Seq<(Seq<char>, TextKind)>, Seq<char>>,
> {
    match o {
        Some(b) => Some(log_spans_view(*b)),
        None => None,
    }
}

/// The fields of a message: for a message that enters or leaves a span, what
/// it does and the span's pairs; otherwise what `logparse` made of the
/// message (when it has been asked and succeeded), else the text of a lone
/// `message` field, else all the pairs.  When `logparse` failed, its error
/// comes first.
pub open spec fn spec_fields_text(
    b: Built,
    search: Seq<char>,
    m: MessageModel,
    st: MessageState,
    logparsed: Option<Result<Seq<(Seq<char>, TextKind)>, Seq<char>>>,
) -> Built {
    match spec_hop(m.fields) {
        Some(hop) => {
            let text = match hop {
                HopMessageKind::Enter => if st.hide_children {
                    " hidden span:"@
                } else {
                    " enter span:"@
                },
                HopMessageKind::Exit => " exit span:"@,
            };
            let b1 = spec_append(b, search, text, 0, colored(SPAN));
            spec_dict_text(b1, search, (INDENT * 2) as u32, SPAN_KEYS, m.span.map)
        },
        None => {
            match logparsed {
                Some(Ok(spans)) => spec_log_spans_text(
                    spec_append(b, search, " "@, 0, plain()),
                    search,
                    spans,
                ),
                _ => {
                    let b1 = match logparsed {
                        Some(Err(err)) => spec_append(
                            spec_append(b, search, " "@, 0, plain()),
                            search,
                            err,
                            0,
                            colored(LOGPARSE_ERROR),
                        ),
                        _ => b,
                    };
                    match single_message_field(m.fields) {
                        Some(value) => spec_append(
                            spec_append(b1, search, " "@, 0, plain()),
                            search,
                            value,
                            0,
                            colored(FIELD_VALUES),
                        ),
                        None => spec_dict_text(b1, search, INDENT, FIELD_KEYS, m.fields),
                    }
                },
            }
        },
    }
}

/// Whether there is a search and `s` holds it.
pub open spec fn app_matches(app: AppState, s: Seq<char>) -> bool {
    app.search@.len() > 0 && seq_contains(s, app.search@)
}

/// The whole text of a message: the arrow of a message that enters or
/// leaves a span; the timestamp, level and target when they are shown or
/// hold the search; the span's name; the fields; then the filename and the
/// spans, when the reader asked for them or when they hold the search and
/// nothing before did.
pub open spec fn spec_build_text(b: Built, app: AppState, msg: Message) -> Built {
    let m = msg.parsed.model();
    let search = app.search@;
    let b1 = match spec_hop(m.fields) {
        Some(HopMessageKind::Enter) => spec_append(
            b,
            search,
            if msg.state.hide_children {
                "\u{2193}"@
            } else {
                "\u{2192}"@
            },
            0,
            colored(SPAN),
        ),
        Some(HopMessageKind::Exit) => spec_append(b, search, "\u{2190}"@, 0, colored(SPAN)),
        None => b,
    };
    let b2 = if app.timestamps || app_matches(app, m.timestamp) {
        spec_append(spec_append(b1, search, m.timestamp, 0, colored(TIMESTAMP)), search, " "@, 0, plain())
    } else {
        b1
    };
    let b3 = if app.log_levels || app_matches(app, m.level) {
        spec_append(
            spec_append(b2, search, m.level, 0, colored(spec_log_level_color(m.level))),
            search,
            " "@,
            0,
            plain(),
        )
    } else {
        b2
    };
    let target_displayed = app.targets || app_matches(app, m.target);
    let b4 = if target_displayed {
        spec_append(b3, search, m.target, 0, colored(TARGET))
    } else {
        b3
    };
    let b5 = match m.span.name {
        Some(name) => spec_append(
            if target_displayed {
                spec_append(b4, search, "::"@, 0, colored(COLON_COLON))
            } else {
                b4
            },
            search,
            name,
            0,
            colored(SPAN_NAME),
        ),
        None => if !target_displayed {
            spec_append(b4, search, m.target, 0, colored(TARGET))
        } else {
            b4
        },
    };
    let b6 = spec_fields_text(b5, search, m, msg.state, logparsed_view(msg.logparsed_message));
    let b7 = if msg.state.display_filename || (!b6.found && (app_matches(app, m.filename)
        || app_matches(app, m.line_number))) {
        spec_filename_text(b6, search, m)
    } else {
        b6
    };
    if msg.state.display_spans || (!b7.found && search.len() > 0 && spec_spans_match(m.spans, search)) {
        spec_spans_text(b7, search, m.spans)
    } else {
        b7
    }
}


/// The pairs of a JSON object that `cur` points at, after its front cell.
proof fn lemma_pairs_view_front<'b>(cur: &'b JsonMap<'b>, next: &'b JsonMap<'b>, k: &'b str, v: &'b str)
    requires
        *cur == (LinkedList::Cons { next, item: (k, v) }),
    ensures
        pairs_view(cur).len() > 0,
        pairs_view(cur)[0] == (k@, v@),
        pairs_view(cur).drop_first() == pairs_view(next),
{
    crate::list::lemma_pairs_view_cons(next, k, v);
    assert(pairs_view(cur).drop_first() =~= pairs_view(next));
}

proof fn lemma_spans_view_front<'b>(
    cur: &'b LinkedList<'b, Span<'b>>,
    next: &'b LinkedList<'b, Span<'b>>,
    sp: Span<'b>,
)
    requires
        *cur == (LinkedList::Cons { next, item: sp }),
    ensures
        spans_view(cur).len() > 0,
        spans_view(cur)[0] == sp.model(),
        spans_view(cur).drop_first() == spans_view(next),
{
    crate::list::lemma_items_cons(cur, next, sp);
    assert(spans_view(cur) =~= seq![sp.model()] + spans_view(next));
    assert(spans_view(cur).drop_first() =~= spans_view(next));
}

/// What a message's text looks like, once laid out.
pub struct MessageLayout {
    pub pieces: Vec<LayoutPiece>,
    /// Whether the search text is in what is shown (or the whole message is
    /// marked).
    pub found_search: bool,
    /// Whether the whole message is marked because the search holds a part
    /// of it that is not shown.
    pub highlight_whole: bool,
}

impl<'b> Message<'b> {
    /// Adds the pairs of `map` to `job`: one per line after `indent` when
    /// their keys and values take up more than 100 bytes, else on one line.
    pub fn dict(&self, job: &mut StrBuilder, indent: u32, key_color: Color, map: &JsonMap)
        ensures
            final(job).app_state == old(job).app_state,
            final(job).model() == spec_dict_text(
                old(job).model(),
                old(job).app_state.search@,
                indent,
                key_color,
                pairs_view(map),
            ),
    {
        let ghost all = pairs_view(map);
        let mut total: usize = 0;
        let ghost mut acc: int = 0;
        let mut cur = map;
        loop
            invariant
                acc + pairs_byte_len(pairs_view(cur)) == pairs_byte_len(all),
                0 <= acc,
                total == (if acc > usize::MAX {
                    usize::MAX as int
                } else {
                    acc
                }),
            ensures
                acc == pairs_byte_len(all),
                total == (if acc > usize::MAX {
                    usize::MAX as int
                } else {
                    acc
                }),
            decreases cur.items().len(),
        {
            match cur {
                LinkedList::Empty => {
                    assert(pairs_view(cur) =~= Seq::<Pair>::empty());
                    break ;
                },
                LinkedList::Cons { next, item } => {
                    proof {
                        lemma_pairs_view_front(cur, *next, item.0, item.1);
                        crate::list::lemma_items_cons(cur, *next, *item);
                    }
                    let kl = item.0.as_bytes().len();
                    let vl = item.1.as_bytes().len();
                    total = total.saturating_add(kl).saturating_add(vl);
                    proof {
                        acc = acc + kl + vl;
                    }
                    cur = *next;
                },
            }
        }
        let ghost indent0 = indent;
        let mut indent = indent;
        let sep = if total > 100 {
            "\n"
        } else {
            indent = 0;
            " "
        };
        let ghost search = job.app_state.search@;
        let mut cur = map;
        loop
            invariant
                job.app_state == old(job).app_state,
                search == job.app_state.search@,
                spec_dict_pairs_text(old(job).model(), search, sep@, indent, key_color, all)
                    == spec_dict_pairs_text(job.model(), search, sep@, indent, key_color, pairs_view(cur)),
            ensures
                job.app_state == old(job).app_state,
                spec_dict_pairs_text(old(job).model(), search, sep@, indent, key_color, all)
                    == job.model(),
            decreases cur.items().len(),
        {
            match cur {
                LinkedList::Empty => {
                    assert(pairs_view(cur) =~= Seq::<Pair>::empty());
                    break ;
                },
                LinkedList::Cons { next, item } => {
                    proof {
                        lemma_pairs_view_front(cur, *next, item.0, item.1);
                        crate::list::lemma_items_cons(cur, *next, *item);
                    }
                    job.append(sep, 0, text_format());
                    job.append(item.0, indent, text_format_color(key_color));
                    job.append(": ", 0, text_format_color(key_color));
                    job.append(item.1, 0, text_format_color(FIELD_VALUES));
                    cur = *next;
                },
            }
        }
        assert(spec_dict_text(old(job).model(), search, indent0, key_color, all)
            == spec_dict_pairs_text(old(job).model(), search, sep@, indent, key_color, all));
    }

    /// Adds the filename and line number, on a line of their own.
    pub fn filename(&self, job: &mut StrBuilder)
        ensures
            final(job).app_state == old(job).app_state,
            final(job).model() == spec_filename_text(
                old(job).model(),
                old(job).app_state.search@,
                self.parsed.model(),
            ),
    {
        job.append("\n", 0, text_format());
        job.append(self.parsed.filename, INDENT, text_format_color(FILENAME));
        job.append(":", 0, text_format_color(FILENAME));
        job.append(self.parsed.line_number, 0, text_format_color(FILENAME));
    }

    /// Adds each span on a line of its own: its name, then its pairs.
    pub fn spans(&self, job: &mut StrBuilder)
        ensures
            final(job).app_state == old(job).app_state,
            final(job).model() == spec_spans_text(
                old(job).model(),
                old(job).app_state.search@,
                self.parsed.model().spans,
            ),
    {
        let ghost search = job.app_state.search@;
        let ghost all = spans_view(self.parsed.spans);
        let mut cur = self.parsed.spans;
        loop
            invariant
                job.app_state == old(job).app_state,
                search == job.app_state.search@,
                spec_spans_text(old(job).model(), search, all) == spec_spans_text(
                    job.model(),
                    search,
                    spans_view(cur),
                ),
            ensures
                job.app_state == old(job).app_state,
                spec_spans_text(old(job).model(), search, all) == job.model(),
            decreases cur.items().len(),
        {
            match cur {
                LinkedList::Empty => {
                    assert(spans_view(cur) =~= Seq::<SpanModel>::empty());
                    break ;
                },
                LinkedList::Cons { next, item } => {
                    proof {
                        lemma_spans_view_front(cur, *next, *item);
                        crate::list::lemma_items_cons(cur, *next, *item);
                    }
                    job.append("\n", 0, text_format());
                    let name = match item.name {
                        Some(n) => n,
                        None => "---",
                    };
                    job.append(name, INDENT, text_format_color(SPAN_NAME));
                    self.dict(job, INDENT * 2, SPAN_KEYS, item.map);
                    cur = *next;
                },
            }
        }
    }

    /// Adds the fields: for a message that enters or leaves a span, what it
    /// does and the span's pairs; otherwise what `logparse` made of it, the
    /// text of a lone `message` field, or all the pairs.
    pub fn fields(&self, job: &mut StrBuilder)
        ensures
            final(job).app_state == old(job).app_state,
            final(job).model() == spec_fields_text(
                old(job).model(),
                old(job).app_state.search@,
                self.parsed.model(),
                self.state,
                logparsed_view(self.logparsed_message),
            ),
    {
        match self.parsed.hop_message() {
            Some(hop) => {
                let text = match hop {
                    HopMessageKind::Enter => {
                        if self.state.hide_children {
                            " hidden span:"
                        } else {
                            " enter span:"
                        }
                    },
                    HopMessageKind::Exit => " exit span:",
                };
                job.append(text, 0, text_format_color(SPAN));
                self.dict(job, INDENT * 2, SPAN_KEYS, self.parsed.span.map);
            },
            None => {
                match &self.logparsed_message {
                    Some(logparsed) => {
                        job.append(" ", 0, text_format());
                        match &**logparsed {
                            Ok(parsed) => {
                                let ghost search = job.app_state.search@;
                                let ghost all = parsed@.map_values(
                                    |s: LogSpan| (s.text@, s.kind),
                                );
                                let ghost start = job.model();
                                let n = parsed.len();
                                let mut i: usize = 0;
                                assert(all.skip(0) =~= all);
                                while i < n
                                    invariant
                                        n == parsed@.len(),
                                        0 <= i <= n,
                                        job.app_state == old(job).app_state,
                                        search == job.app_state.search@,
                                        all == parsed@.map_values(|s: LogSpan| (s.text@, s.kind)),
                                        spec_log_spans_text(start, search, all) == spec_log_spans_text(
                                            job.model(),
                                            search,
                                            all.skip(i as int),
                                        ),
                                    decreases n - i,
                                {
                                    let span = &parsed[i];
                                    proof {
                                        assert(all.skip(i as int).drop_first() =~= all.skip(i + 1));
                                        assert(all.skip(i as int)[0] == (span.text@, span.kind));
                                    }
                                    job.append(
                                        span.text.as_str(),
                                        0,
                                        text_format_color(logparse_color(span.kind)),
                                    );
                                    i = i + 1;
                                }
                                assert(all.skip(n as int) =~= Seq::<(Seq<char>, TextKind)>::empty());
                                return ;
                            },
                            Err(err) => {
                                job.append(err.as_str(), 0, text_format_color(LOGPARSE_ERROR));
                            },
                        }
                    },
                    None => {},
                }
                match single_message(self.parsed.fields) {
                    Some(value) => {
                        job.append(" ", 0, text_format());
                        job.append(value, 0, text_format_color(FIELD_VALUES));
                    },
                    None => {
                        self.dict(job, INDENT, FIELD_KEYS, self.parsed.fields);
                    },
                }
            },
        }
    }

    /// Adds the whole text of the message.
    pub fn build_text(&self, job: &mut StrBuilder)
        ensures
            final(job).app_state == old(job).app_state,
            final(job).model() == spec_build_text(old(job).model(), *old(job).app_state, *self),
    {
        match self.parsed.hop_message() {
            Some(hop) => {
                let text = match hop {
                    HopMessageKind::Enter => {
                        if self.state.hide_children {
                            "\u{2193}"
                        } else {
                            "\u{2192}"
                        }
                    },
                    HopMessageKind::Exit => "\u{2190}",
                };
                job.append(text, 0, text_format_color(SPAN));
            },
            None => {},
        }
        if job.app_state.timestamps || job.app_state.matches_search(self.parsed.timestamp) {
            job.append(self.parsed.timestamp, 0, text_format_color(TIMESTAMP));
            job.append(" ", 0, text_format());
        }
        if job.app_state.log_levels || job.app_state.matches_search(self.parsed.level) {
            let color = log_level_color(self.parsed.level);
            job.append(self.parsed.level, 0, text_format_color(color));
            job.append(" ", 0, text_format());
        }
        let target_displayed = job.app_state.targets || job.app_state.matches_search(
            self.parsed.target,
        );
        if target_displayed {
            job.append(self.parsed.target, 0, text_format_color(TARGET));
        }
        match self.parsed.span.name {
            Some(name) => {
                if target_displayed {
                    job.append("::", 0, text_format_color(COLON_COLON));
                }
                job.append(name, 0, text_format_color(SPAN_NAME));
            },
            None => {
                if !target_displayed {
                    job.append(self.parsed.target, 0, text_format_color(TARGET));
                }
            },
        }
        self.fields(job);
        if self.state.display_filename || !job.found_search && (job.app_state.matches_search(
            self.parsed.filename,
        ) || job.app_state.matches_search(self.parsed.line_number)) {
            self.filename(job);
        }
        if self.state.display_spans || !job.found_search && job.app_state.vdict_matches_search(
            self.parsed.spans,
        ) {
            self.spans(job);
        }
    }

    /// Asks `logparse` about the message, once, when its only field is
    /// `message`.
    pub fn logparse_single_message(&mut self)
        ensures
            final(self).parsed == old(self).parsed,
            final(self).parent == old(self).parent,
            final(self).indent == old(self).indent,
            final(self).state == old(self).state,
            logparsed_view(final(self).logparsed_message) == (if old(self).logparsed_message is None
                && single_message_field(old(self).parsed.model().fields) is Some {
                Some(logparse_spans(single_message_field(old(self).parsed.model().fields)->0))
            } else {
                logparsed_view(old(self).logparsed_message)
            }),
    {
        if self.logparsed_message.is_none() {
            match single_message(self.parsed.fields) {
                Some(message) => {
                    self.logparsed_message = Some(Box::new(logparse_message(message)));
                },
                None => {},
            }
        }
    }

    /// Lays the message's text out for the viewer state `app_state`, first
    /// asking `logparse` about it if that has not been done.  When the search
    /// holds a part of the message that is not shown, the whole message is
    /// to be marked.
    pub fn layout(&mut self, app_state: &AppState) -> (r: MessageLayout)
        ensures
            final(self).parsed == old(self).parsed,
            final(self).parent == old(self).parent,
            final(self).indent == old(self).indent,
            final(self).state == old(self).state,
            logparsed_view(final(self).logparsed_message) == (if old(self).logparsed_message is None
                && single_message_field(old(self).parsed.model().fields) is Some {
                Some(logparse_spans(single_message_field(old(self).parsed.model().fields)->0))
            } else {
                logparsed_view(old(self).logparsed_message)
            }),
            ({
                let b = spec_build_text(
                    Built { pieces: Seq::empty(), found: false },
                    *app_state,
                    *final(self),
                );
                &&& pieces_view(r.pieces@) == b.pieces
                &&& r.highlight_whole == (!b.found && app_state.search@.len() > 0
                    && spec_message_matches(final(self).parsed.model(), app_state.search@))
                &&& r.found_search == (b.found || r.highlight_whole)
            }),
            app_state.search@.len() > 0 && spec_message_matches(
                final(self).parsed.model(),
                app_state.search@,
            ) ==> r.found_search,
    {
        self.logparse_single_message();
        let mut job = StrBuilder::new(app_state);
        self.build_text(&mut job);
        let highlight_whole = !job.found_search && !app_state.search.as_str().is_empty()
            && self.matches_search(app_state.search.as_str());
        MessageLayout {
            pieces: job.job,
            found_search: job.found_search || highlight_whole,
            highlight_whole,
        }
    }

    /// The filter that hides the messages of this message's target.
    pub fn exclude_target_filter(&self) -> (f: crate::message::Filter)
        ensures
            f.kind == crate::message::FilterKind::Target,
            f.filter@ == self.parsed.target@,
            f.exclude,
    {
        crate::message::Filter {
            kind: crate::message::FilterKind::Target,
            filter: String::from_str(self.parsed.target),
            exclude: true,
        }
    }
}

} // verus!
