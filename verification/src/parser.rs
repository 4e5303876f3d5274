//! Reading one JSON log line into a `ParsedMessage` whose strings and lists
//! live in an arena.

use vstd::prelude::*;
use bumpalo::Bump;
use crate::arena::{bump_alloc, bump_alloc_str};
use crate::grammar::{
    Pair, ParseFailure, Failure, DictState, SpanModel, MessageModel, empty_span, empty_message, spec_expect,
    spec_expect_all, prepend, spec_string_body, spec_string_body_at, spec_string, spec_digits_end,
    spec_number_after_digit, spec_number, spec_dict_value, spec_dict_entries,
    spec_dict, spec_span, spec_spans_items, spec_spans, spec_field_value, spec_message_fields,
    spec_message, lemma_string_advances,
    lemma_dict_value_advances, lemma_span_advances,
    lemma_field_value_advances,
};
use crate::list::{LinkedList, JsonMap, pairs_view, lemma_pairs_view_cons};
use crate::strings::{str_eq, string_push, to_chars, chars_to_string};

verus! {

/// The characters of a line and how many of them have been read.
pub struct CharCursor {
    pub chars: Vec<char>,
    pub pos: usize,
}

impl CharCursor {
    pub open spec fn wf(&self) -> bool {
        self.pos <= self.chars@.len()
    }

    /// A cursor at the start of `line`.
    pub fn new(line: &str) -> (c: CharCursor)
        ensures
            c.chars@ == line@,
            c.pos == 0,
    {
        CharCursor { chars: to_chars(line), pos: 0 }
    }

    /// Reads the next character, if any is left.
    pub fn next(&mut self) -> (r: Option<char>)
        requires
            old(self).wf(),
        ensures
            final(self).wf(),
            final(self).chars@ == old(self).chars@,
            old(self).pos < old(self).chars@.len() ==> r == Some(
                old(self).chars@[old(self).pos as int],
            ) && final(self).pos == old(self).pos + 1,
            old(self).pos >= old(self).chars@.len() ==> r is None && final(self).pos == old(
                self,
            ).pos,
    {
        if self.pos < self.chars.len() {
            let c = self.chars[self.pos];
            self.pos = self.pos + 1;
            Some(c)
        } else {
            None
        }
    }

    /// The next character, if any is left, without reading it.
    pub fn peek(&self) -> (r: Option<char>)
        requires
            self.wf(),
        ensures
            self.pos < self.chars@.len() ==> r == Some(self.chars@[self.pos as int]),
            self.pos >= self.chars@.len() ==> r is None,
    {
        if self.pos < self.chars.len() {
            Some(self.chars[self.pos])
        } else {
            None
        }
    }
}

/// Why a line could not be read.
pub enum InnerParseError<'b> {
    UnknownField(&'b str),
    UnexpectedEof(&'static str),
    UnexpectedChar(&'static [char], char),
    UnexpectedCharSingle(char, char),
}

impl<'b> View for InnerParseError<'b> {
    type V = ParseFailure;

    open spec fn view(&self) -> ParseFailure {
        match self {
            InnerParseError::UnknownField(f) => ParseFailure::UnknownField(f@),
            InnerParseError::UnexpectedEof(k) => ParseFailure::UnexpectedEof(k@),
            InnerParseError::UnexpectedChar(e, g) => ParseFailure::UnexpectedChar(e@, *g),
            InnerParseError::UnexpectedCharSingle(e, g) => ParseFailure::UnexpectedCharSingle(
                *e,
                *g,
            ),
        }
    }
}

/// A span of a line: its name and its other pairs.
pub struct Span<'b> {
    pub name: Option<&'b str>,
    pub map: &'b JsonMap<'b>,
}

pub open spec fn opt_view(o: Option<&str>) -> Option<Seq<char>> {
    match o {
        Some(s) => Some(s@),
        None => None,
    }
}

impl<'b> Span<'b> {
    pub open spec fn model(&self) -> SpanModel {
        SpanModel { name: opt_view(self.name), map: pairs_view(self.map) }
    }
}

impl<'b> Default for Span<'b> {
    fn default() -> (r: Self)
        ensures
            r.model() == empty_span(),
    {
        let r = Span { name: None, map: Default::default() };
        assert(r.model().map =~= Seq::<Pair>::empty());
        r
    }
}

/// The view of a list of spans.
pub open spec fn spans_view(l: &LinkedList<Span>) -> Seq<SpanModel> {
    l.items().map_values(|sp: Span| sp.model())
}

/// The parts of one log line.
pub struct ParsedMessage<'b> {
    pub timestamp: &'b str,
    pub level: &'b str,
    pub fields: &'b JsonMap<'b>,
    pub target: &'b str,
    pub filename: &'b str,
    pub line_number: &'b str,
    pub span: Span<'b>,
    pub spans: &'b LinkedList<'b, Span<'b>>,
}

impl<'b> ParsedMessage<'b> {
    pub open spec fn model(&self) -> MessageModel {
        MessageModel {
            timestamp: self.timestamp@,
            level: self.level@,
            fields: pairs_view(self.fields),
            target: self.target@,
            filename: self.filename@,
            line_number: self.line_number@,
            span: self.span.model(),
            spans: spans_view(self.spans),
        }
    }
}

impl<'b> Default for ParsedMessage<'b> {
    fn default() -> (r: Self)
        ensures
            r.model() == empty_message(),
    {
        let r = ParsedMessage {
            timestamp: "",
            level: "",
            fields: Default::default(),
            target: "",
            filename: "",
            line_number: "",
            span: Span::default(),
            spans: Default::default(),
        };
        proof {
            reveal_strlit("");
            assert(""@ =~= Seq::<char>::empty());
            assert(r.model().fields =~= Seq::<Pair>::empty());
            assert(r.model().spans =~= Seq::<SpanModel>::empty());
        }
        r
    }
}

/// `r` is what `expected` says was read, with the cursor left at `pos`; on
/// failure too, the cursor is where `expected` says reading stopped.
pub open spec fn unit_outcome(
    r: Result<(), InnerParseError>,
    expected: Result<int, Failure>,
    pos: int,
) -> bool {
    match expected {
        Ok(q) => r is Ok && pos == q,
        Err((e, q)) => r matches Err(x) && x@ == e && pos == q,
    }
}

pub open spec fn str_outcome(
    r: Result<&str, InnerParseError>,
    expected: Result<(Seq<char>, int), Failure>,
    pos: int,
) -> bool {
    match expected {
        Ok((v, q)) => r matches Ok(x) && x@ == v && pos == q,
        Err((e, q)) => r matches Err(x) && x@ == e && pos == q,
    }
}

/// As `str_outcome`, and on failure the pairs and name read before it are
/// those that `expected` keeps.
pub open spec fn dict_outcome(
    r: Result<(), InnerParseError>,
    expected: Result<DictState, (ParseFailure, DictState)>,
    pos: int,
    map: Seq<Pair>,
    name: Option<Seq<char>>,
) -> bool {
    match expected {
        Ok((m, n, q)) => r is Ok && pos == q && map == m && name == n,
        Err((e, (m, n, q))) => r matches Err(x) && x@ == e && pos == q && map == m && name == n,
    }
}

pub open spec fn span_outcome(
    r: Result<(), InnerParseError>,
    expected: Result<(SpanModel, int), (ParseFailure, SpanModel, int)>,
    pos: int,
    span: SpanModel,
) -> bool {
    match expected {
        Ok((sp, q)) => r is Ok && pos == q && span == sp,
        Err((e, sp, q)) => r matches Err(x) && x@ == e && pos == q && span == sp,
    }
}

pub open spec fn spans_outcome(
    r: Result<(), InnerParseError>,
    expected: Result<(Seq<SpanModel>, int), (ParseFailure, Seq<SpanModel>, int)>,
    pos: int,
    spans: Seq<SpanModel>,
) -> bool {
    match expected {
        Ok((l, q)) => r is Ok && pos == q && spans == l,
        Err((e, l, q)) => r matches Err(x) && x@ == e && pos == q && spans == l,
    }
}

pub open spec fn message_outcome(
    r: Result<ParsedMessage, InnerParseError>,
    expected: Result<(MessageModel, int), Failure>,
    pos: int,
) -> bool {
    match expected {
        Ok((m, q)) => r matches Ok(x) && x.model() == m && pos == q,
        Err((e, q)) => r matches Err(x) && x@ == e && pos == q,
    }
}

/// Reads the character `ch`.
pub fn expect(iter: &mut CharCursor, ch: char) -> (r: Result<(), InnerParseError<'static>>)
    requires
        old(iter).wf(),
    ensures
        final(iter).wf(),
        final(iter).chars@ == old(iter).chars@,
        unit_outcome(r, spec_expect(old(iter).chars@, old(iter).pos as int, ch), final(iter).pos as int),
{
    if let Some(got) = iter.next() {
        if got == ch {
            Ok(())
        } else {
            Err(InnerParseError::UnexpectedCharSingle(ch, got))
        }
    } else {
        Err(InnerParseError::UnexpectedCharSingle(ch, '\0'))
    }
}

/// Reads a quoted string.
pub fn parse_string<'b>(bump: &'b Bump, iter: &mut CharCursor) -> (r: Result<
    &'b str,
    InnerParseError<'b>,
>)
    requires
        old(iter).wf(),
    ensures
        final(iter).wf(),
        final(iter).chars@ == old(iter).chars@,
        str_outcome(r, spec_string(old(iter).chars@, old(iter).pos as int), final(iter).pos as int),
{
    match expect(iter, '"') {
        Ok(()) => {},
        Err(e) => {
            return Err(e);
        },
    }
    parse_string_after_quote(bump, iter)
}

/// Reads the rest of a string whose opening quote has been read, dropping
/// each escaping backslash, and copies the value into the arena.  When the
/// string does not end, the cursor is left where it was.
pub fn parse_string_after_quote<'b>(bump: &'b Bump, iter: &mut CharCursor) -> (r: Result<
    &'b str,
    InnerParseError<'b>,
>)
    requires
        old(iter).wf(),
    ensures
        final(iter).wf(),
        final(iter).chars@ == old(iter).chars@,
        str_outcome(
            r,
            spec_string_body_at(old(iter).chars@, old(iter).pos as int),
            final(iter).pos as int,
        ),
{
    let ghost s = iter.chars@;
    let ghost p0 = iter.pos as int;
    let start = iter.pos;
    let mut value = String::new();
    loop
        invariant
            iter.wf(),
            iter.chars@ == s,
            s == old(iter).chars@,
            p0 == old(iter).pos,
            start == p0,
            p0 <= s.len(),
            spec_string_body(s, p0) == prepend(value@, spec_string_body(s, iter.pos as int)),
        decreases s.len() - iter.pos,
    {
        match iter.next() {
            None => {
                iter.pos = start;
                return Err(InnerParseError::UnexpectedEof("string"));
            },
            Some(c) => {
                if c == '"' {
                    assert(value@ + Seq::<char>::empty() =~= value@);
                    return Ok(bump_alloc_str(bump, value.as_str()));
                } else if c == '\\' {
                    match iter.next() {
                        None => {
                            iter.pos = start;
                            return Err(InnerParseError::UnexpectedEof("string backslash"));
                        },
                        Some(escaped) => {
                            let ghost before = value@;
                            string_push(&mut value, escaped);
                            assert forall|v: Seq<char>| before + (seq![escaped] + v) =~= value@ + v by {}
                        },
                    }
                } else {
                    let ghost before = value@;
                    string_push(&mut value, c);
                    assert forall|v: Seq<char>| before + (seq![c] + v) =~= value@ + v by {}
                }
            },
        }
    }
}

/// Reads a number: one digit or more.
pub fn parse_number<'b>(bump: &'b Bump, iter: &mut CharCursor) -> (r: Result<
    &'b str,
    InnerParseError<'static>,
>)
    requires
        old(iter).wf(),
    ensures
        final(iter).wf(),
        final(iter).chars@ == old(iter).chars@,
        str_outcome(r, spec_number(old(iter).chars@, old(iter).pos as int), final(iter).pos as int),
{
    let start = iter.pos;
    match iter.next() {
        None => Err(InnerParseError::UnexpectedEof("number")),
        Some(ch) => {
            if '0' <= ch && ch <= '9' {
                parse_number_after_digit(bump, start, iter)
            } else {
                let expected: &'static [char] = &['0'];
                assert(expected@ =~= seq!['0']);
                Err(InnerParseError::UnexpectedChar(expected, ch))
            }
        },
    }
}

/// Reads the digits that follow a number's first digit, which stands at
/// `start`, and copies the whole number into the arena.
pub fn parse_number_after_digit<'b>(bump: &'b Bump, start: usize, iter: &mut CharCursor) -> (r:
    Result<&'b str, InnerParseError<'static>>)
    requires
        old(iter).wf(),
        start <= old(iter).pos,
    ensures
        final(iter).wf(),
        final(iter).chars@ == old(iter).chars@,
        r matches Ok(v) && v@ == spec_number_after_digit(
            old(iter).chars@,
            start as int,
            old(iter).pos as int,
        ).0 && final(iter).pos == spec_number_after_digit(
            old(iter).chars@,
            start as int,
            old(iter).pos as int,
        ).1,
{
    let ghost s = iter.chars@;
    let ghost p0 = iter.pos as int;
    let n = iter.chars.len();
    loop
        invariant
            iter.wf(),
            iter.chars@ == s,
            n == s.len(),
            s == old(iter).chars@,
            p0 == old(iter).pos,
            start <= p0 <= iter.pos,
            spec_digits_end(s, p0) == spec_digits_end(s, iter.pos as int),
        ensures
            iter.wf(),
            iter.chars@ == s,
            start <= iter.pos,
            spec_digits_end(s, p0) == iter.pos,
        decreases s.len() - iter.pos,
    {
        match iter.peek() {
            None => {
                break ;
            },
            Some(ch) => {
                if !('0' <= ch && ch <= '9') {
                    break ;
                }
                iter.pos = iter.pos + 1;
            },
        }
    }
    let text = chars_to_string(&iter.chars, start, iter.pos);
    Ok(bump_alloc_str(bump, text.as_str()))
}

/// Reads the value of a pair in an object.
pub fn parse_value<'b>(bump: &'b Bump, iter: &mut CharCursor) -> (r: Result<
    &'b str,
    InnerParseError<'b>,
>)
    requires
        old(iter).wf(),
    ensures
        final(iter).wf(),
        final(iter).chars@ == old(iter).chars@,
        str_outcome(r, spec_dict_value(old(iter).chars@, old(iter).pos as int), final(iter).pos as int),
{
    let start = iter.pos;
    match iter.next() {
        None => Err(InnerParseError::UnexpectedEof("dict key")),
        Some(ch) => {
            if ch == '"' {
                parse_string_after_quote(bump, iter)
            } else if ch == 't' {
                proof {
                    reveal_with_fuel(spec_expect_all, 4);
                    assert(seq!['r', 'u', 'e'].drop_first() =~= seq!['u', 'e']);
                    assert(seq!['u', 'e'].drop_first() =~= seq!['e']);
                    assert(seq!['e'].drop_first() =~= Seq::<char>::empty());
                }
                match expect(iter, 'r') {
                    Ok(()) => {},
                    Err(e) => {
                        return Err(e);
                    },
                }
                match expect(iter, 'u') {
                    Ok(()) => {},
                    Err(e) => {
                        return Err(e);
                    },
                }
                match expect(iter, 'e') {
                    Ok(()) => {},
                    Err(e) => {
                        return Err(e);
                    },
                }
                Ok("true")
            } else if ch == 'f' {
                proof {
                    reveal_with_fuel(spec_expect_all, 5);
                    assert(seq!['a', 'l', 's', 'e'].drop_first() =~= seq!['l', 's', 'e']);
                    assert(seq!['l', 's', 'e'].drop_first() =~= seq!['s', 'e']);
                    assert(seq!['s', 'e'].drop_first() =~= seq!['e']);
                    assert(seq!['e'].drop_first() =~= Seq::<char>::empty());
                }
                match expect(iter, 'a') {
                    Ok(()) => {},
                    Err(e) => {
                        return Err(e);
                    },
                }
                match expect(iter, 'l') {
                    Ok(()) => {},
                    Err(e) => {
                        return Err(e);
                    },
                }
                match expect(iter, 's') {
                    Ok(()) => {},
                    Err(e) => {
                        return Err(e);
                    },
                }
                match expect(iter, 'e') {
                    Ok(()) => {},
                    Err(e) => {
                        return Err(e);
                    },
                }
                Ok("false")
            } else if '0' <= ch && ch <= '9' {
                match parse_number_after_digit(bump, start, iter) {
                    Ok(v) => Ok(v),
                    Err(e) => Err(e),
                }
            } else {
                Err(InnerParseError::UnexpectedChar(&['"', 't', 'f', '0'], ch))
            }
        },
    }
}


/// Reads a JSON object and puts each of its pairs in front of `*result`.
/// With `capture_name`, a pair whose key is `name` is not put in the list:
/// its value goes to `*name` instead.
pub fn parse_dict<'b>(
    bump: &'b Bump,
    iter: &mut CharCursor,
    result: &mut &'b JsonMap<'b>,
    name: &mut Option<&'b str>,
    capture_name: bool,
) -> (r: Result<(), InnerParseError<'b>>)
    requires
        old(iter).wf(),
    ensures
        final(iter).wf(),
        final(iter).chars@ == old(iter).chars@,
        dict_outcome(
            r,
            spec_dict(
                old(iter).chars@,
                old(iter).pos as int,
                pairs_view(*old(result)),
                opt_view(*old(name)),
                capture_name,
            ),
            final(iter).pos as int,
            pairs_view(*final(result)),
            opt_view(*final(name)),
        ),
{
    let ghost s = iter.chars@;
    let ghost spec = spec_dict(s, iter.pos as int, pairs_view(*result), opt_view(*name), capture_name);
    match expect(iter, '{') {
        Ok(()) => {},
        Err(e) => {
            return Err(e);
        },
    }
    loop
        invariant
            iter.wf(),
            iter.chars@ == s,
            s == old(iter).chars@,
            spec == spec_dict(
                old(iter).chars@,
                old(iter).pos as int,
                pairs_view(*old(result)),
                opt_view(*old(name)),
                capture_name,
            ),
            spec == spec_dict_entries(
                s,
                iter.pos as int,
                pairs_view(*result),
                opt_view(*name),
                capture_name,
            ),
        decreases s.len() - iter.pos,
    {
        let ghost p = iter.pos as int;
        proof {
            lemma_string_advances(s, p);
        }
        let key = match parse_string(bump, iter) {
            Ok(k) => k,
            Err(e) => {
                return Err(e);
            },
        };
        match expect(iter, ':') {
            Ok(()) => {},
            Err(e) => {
                return Err(e);
            },
        }
        let ghost q1 = iter.pos as int;
        proof {
            lemma_dict_value_advances(s, q1);
        }
        let value = match parse_value(bump, iter) {
            Ok(v) => v,
            Err(e) => {
                return Err(e);
            },
        };
        if capture_name && str_eq(key, "name") {
            *name = Some(value);
        } else {
            let ghost old_map = *result;
            let cons = LinkedList::Cons { next: *result, item: (key, value) };
            *result = bump_alloc(bump, cons);
            proof {
                lemma_pairs_view_cons(old_map, key, value);
            }
        }
        match iter.next() {
            None => {
                return Err(InnerParseError::UnexpectedEof("dict"));
            },
            Some(ch) => {
                if ch == '}' {
                    return Ok(());
                } else if ch != ',' {
                    let expected: &'static [char] = &['}', ','];
                    assert(expected@ =~= seq!['}', ',']);
                    return Err(InnerParseError::UnexpectedChar(expected, ch));
                }
            },
        }
    }
}

/// Reads a span object into `result`: its `name` pair sets the name, its
/// other pairs go in front of its map.
pub fn parse_span<'b>(bump: &'b Bump, iter: &mut CharCursor, result: &mut Span<'b>) -> (r: Result<
    (),
    InnerParseError<'b>,
>)
    requires
        old(iter).wf(),
    ensures
        final(iter).wf(),
        final(iter).chars@ == old(iter).chars@,
        span_outcome(
            r,
            spec_span(old(iter).chars@, old(iter).pos as int, old(result).model()),
            final(iter).pos as int,
            final(result).model(),
        ),
{
    let mut map = result.map;
    let mut name = result.name;
    let r = parse_dict(bump, iter, &mut map, &mut name, true);
    result.map = map;
    result.name = name;
    r
}

/// Reads an array of span objects and puts each span in front of `*result`.
pub fn parse_spans<'b>(
    bump: &'b Bump,
    iter: &mut CharCursor,
    result: &mut &'b LinkedList<'b, Span<'b>>,
) -> (r: Result<(), InnerParseError<'b>>)
    requires
        old(iter).wf(),
    ensures
        final(iter).wf(),
        final(iter).chars@ == old(iter).chars@,
        spans_outcome(
            r,
            spec_spans(old(iter).chars@, old(iter).pos as int, spans_view(*old(result))),
            final(iter).pos as int,
            spans_view(*final(result)),
        ),
{
    let ghost s = iter.chars@;
    let ghost spec = spec_spans(s, iter.pos as int, spans_view(*result));
    match expect(iter, '[') {
        Ok(()) => {},
        Err(e) => {
            return Err(e);
        },
    }
    if iter.peek() == Some(']') {
        let _ = iter.next();
        return Ok(());
    }
    loop
        invariant
            iter.wf(),
            iter.chars@ == s,
            s == old(iter).chars@,
            spec == spec_spans(old(iter).chars@, old(iter).pos as int, spans_view(*old(result))),
            spec == spec_spans_items(s, iter.pos as int, spans_view(*result)),
        decreases s.len() - iter.pos,
    {
        let ghost p = iter.pos as int;
        proof {
            lemma_span_advances(s, p, empty_span());
        }
        let mut single = Span::default();
        match parse_span(bump, iter, &mut single) {
            Ok(()) => {},
            Err(e) => {
                return Err(e);
            },
        }
        let ghost old_list = *result;
        let cons = LinkedList::Cons { next: *result, item: single };
        *result = bump_alloc(bump, cons);
        proof {
            assert((*result).items() == seq![single] + old_list.items());
            assert(spans_view(*result) =~= seq![single.model()] + spans_view(old_list));
        }
        match iter.next() {
            None => {
                return Err(InnerParseError::UnexpectedEof("dict array"));
            },
            Some(ch) => {
                if ch == ']' {
                    return Ok(());
                } else if ch != ',' {
                    let expected: &'static [char] = &[']', ','];
                    assert(expected@ =~= seq![']', ',']);
                    return Err(InnerParseError::UnexpectedChar(expected, ch));
                }
            },
        }
    }
}

/// Reads one line from the cursor: an object whose fields are `timestamp`,
/// `level`, `fields`, `target`, `filename`, `line_number`, `span` and `spans`.
pub fn custom_parse2<'b>(bump: &'b Bump, iter: &mut CharCursor) -> (r: Result<
    ParsedMessage<'b>,
    InnerParseError<'b>,
>)
    requires
        old(iter).wf(),
    ensures
        final(iter).wf(),
        final(iter).chars@ == old(iter).chars@,
        message_outcome(r, spec_message(old(iter).chars@, old(iter).pos as int), final(iter).pos as int),
{
    let ghost s = iter.chars@;
    let ghost spec = spec_message(s, iter.pos as int);
    let mut result = ParsedMessage::default();
    match expect(iter, '{') {
        Ok(()) => {},
        Err(e) => {
            return Err(e);
        },
    }
    loop
        invariant
            iter.wf(),
            iter.chars@ == s,
            s == old(iter).chars@,
            spec == spec_message(old(iter).chars@, old(iter).pos as int),
            spec == spec_message_fields(s, iter.pos as int, result.model()),
        decreases s.len() - iter.pos,
    {
        let ghost p = iter.pos as int;
        let ghost m = result.model();
        proof {
            lemma_string_advances(s, p);
        }
        let key = match parse_string(bump, iter) {
            Ok(k) => k,
            Err(e) => {
                return Err(e);
            },
        };
        match expect(iter, ':') {
            Ok(()) => {},
            Err(e) => {
                return Err(e);
            },
        }
        let ghost q1 = iter.pos as int;
        proof {
            lemma_field_value_advances(s, q1, key@, m);
        }
        if str_eq(key, "timestamp") {
            match parse_string(bump, iter) {
                Ok(v) => {
                    result.timestamp = v;
                },
                Err(e) => {
                    return Err(e);
                },
            }
        } else if str_eq(key, "level") {
            match parse_string(bump, iter) {
                Ok(v) => {
                    result.level = v;
                },
                Err(e) => {
                    return Err(e);
                },
            }
        } else if str_eq(key, "fields") {
            let mut fields = result.fields;
            let mut unused: Option<&'b str> = None;
            match parse_dict(bump, iter, &mut fields, &mut unused, false) {
                Ok(()) => {
                    result.fields = fields;
                },
                Err(e) => {
                    return Err(e);
                },
            }
        } else if str_eq(key, "target") {
            match parse_string(bump, iter) {
                Ok(v) => {
                    result.target = v;
                },
                Err(e) => {
                    return Err(e);
                },
            }
        } else if str_eq(key, "filename") {
            match parse_string(bump, iter) {
                Ok(v) => {
                    result.filename = v;
                },
                Err(e) => {
                    return Err(e);
                },
            }
        } else if str_eq(key, "line_number") {
            match parse_number(bump, iter) {
                Ok(v) => {
                    result.line_number = v;
                },
                Err(e) => {
                    return Err(e);
                },
            }
        } else if str_eq(key, "span") {
            let mut span = Span { name: result.span.name, map: result.span.map };
            match parse_span(bump, iter, &mut span) {
                Ok(()) => {
                    result.span = span;
                },
                Err(e) => {
                    return Err(e);
                },
            }
        } else if str_eq(key, "spans") {
            let mut spans = result.spans;
            match parse_spans(bump, iter, &mut spans) {
                Ok(()) => {
                    result.spans = spans;
                },
                Err(e) => {
                    return Err(e);
                },
            }
        } else {
            return Err(InnerParseError::UnknownField(key));
        }
        assert(spec_field_value(s, q1, key@, m) == Ok::<(MessageModel, int), Failure>((result.model(), iter.pos as int)));
        match iter.next() {
            None => {
                return Err(InnerParseError::UnexpectedEof("message"));
            },
            Some(ch) => {
                if ch == '}' {
                    return Ok(result);
                } else if ch != ',' {
                    let expected: &'static [char] = &['}', ','];
                    assert(expected@ =~= seq!['}', ',']);
                    return Err(InnerParseError::UnexpectedChar(expected, ch));
                }
            },
        }
    }
}


/// What the `Debug` formatting of a slice of characters writes.
pub uninterp spec fn debug_char_list(cs: Seq<char>) -> Seq<char>;

/// Calls the `Debug` formatting of a `[char]` slice (through `format!`); its
/// text is named `debug_char_list` of the characters.
#[verifier::external_body]
fn debug_chars(cs: &[char]) -> (r: String)
    ensures
        r@ == debug_char_list(cs@),
{
    format!("{:?}", cs)
}

/// The text that describes a failure.
pub open spec fn failure_text(f: ParseFailure) -> Seq<char> {
    match f {
        ParseFailure::UnknownField(field) => "unknown field "@ + field,
        ParseFailure::UnexpectedEof(kind) => "unexpected eof parsing "@ + kind,
        ParseFailure::UnexpectedChar(expected, got) => "unexpected character '"@ + seq![got]
            + "' (expected one of "@ + debug_char_list(expected) + ")"@,
        ParseFailure::UnexpectedCharSingle(expected, got) => "unexpected character '"@ + seq![got]
            + "' (expected '"@ + seq![expected] + "')"@,
    }
}

impl<'b> InnerParseError<'b> {
    /// The text that describes the failure.
    pub fn to_string(&self) -> (r: String)
        ensures
            r@ == failure_text(self@),
    {
        match self {
            InnerParseError::UnknownField(field) => {
                let mut out = String::from_str("unknown field ");
                out.append(field);
                out
            },
            InnerParseError::UnexpectedEof(kind) => {
                let mut out = String::from_str("unexpected eof parsing ");
                out.append(kind);
                out
            },
            InnerParseError::UnexpectedChar(expected, got) => {
                let mut out = String::from_str("unexpected character '");
                string_push(&mut out, *got);
                out.append("' (expected one of ");
                let list = debug_chars(expected);
                out.append(list.as_str());
                out.append(")");
                out
            },
            InnerParseError::UnexpectedCharSingle(expected, got) => {
                let mut out = String::from_str("unexpected character '");
                string_push(&mut out, *got);
                out.append("' (expected '");
                string_push(&mut out, *expected);
                out.append("')");
                out
            },
        }
    }
}

/// A line that could not be read, with the description of why.
#[derive(Debug)]
pub struct ParseError {
    pub line: String,
    pub message: String,
}

impl ParseError {
    /// `parse error: <message> -- on line <line>`.
    pub fn to_string(&self) -> (r: String)
        ensures
            r@ == "parse error: "@ + self.message@ + " -- on line "@ + self.line@,
    {
        let mut out = String::from_str("parse error: ");
        out.append(self.message.as_str());
        out.append(" -- on line ");
        out.append(self.line.as_str());
        out
    }
}

/// Reads one log line into the arena.  On failure, the error holds the line
/// and the description of what went wrong.
pub fn custom_parse<'b>(bump: &'b Bump, s: &str) -> (r: Result<ParsedMessage<'b>, ParseError>)
    ensures
        match spec_message(s@, 0) {
            Ok((m, _)) => r matches Ok(x) && x.model() == m,
            Err((e, _)) => r matches Err(x) && x.line@ == s@ && x.message@ == failure_text(e),
        },
{
    let mut iter = CharCursor::new(s);
    match custom_parse2(bump, &mut iter) {
        Ok(m) => Ok(m),
        Err(inner) => Err(ParseError { line: s.to_owned(), message: inner.to_string() }),
    }
}

} // verus!
