//! The grammar of one JSON log line, stated over its characters.
//!
//! Each rule takes the line `s` and a position `p` and says what is read from
//! there and where reading stops, or which failure ends it.  Lists are built
//! newest first: every pair or span read is put in front of those read before.

use vstd::prelude::*;
use crate::strings::is_ascii_digit;

verus! {

/// A key and its value, as characters.
pub type Pair = (Seq<char>, Seq<char>);

/// Why a line could not be read.
pub enum ParseFailure {
    UnknownField(Seq<char>),
    UnexpectedEof(Seq<char>),
    UnexpectedChar(Seq<char>, char),
    UnexpectedCharSingle(char, char),
}

/// What a span object of the line holds: its `name` entry, apart, and its
/// other pairs.
pub struct SpanModel {
    pub name: Option<Seq<char>>,
    pub map: Seq<Pair>,
}

/// What a parsed line holds.
pub struct MessageModel {
    pub timestamp: Seq<char>,
    pub level: Seq<char>,
    pub fields: Seq<Pair>,
    pub target: Seq<char>,
    pub filename: Seq<char>,
    pub line_number: Seq<char>,
    pub span: SpanModel,
    pub spans: Seq<SpanModel>,
}

pub open spec fn empty_span() -> SpanModel {
    SpanModel { name: None, map: Seq::empty() }
}

pub open spec fn empty_message() -> MessageModel {
    MessageModel {
        timestamp: Seq::empty(),
        level: Seq::empty(),
        fields: Seq::empty(),
        target: Seq::empty(),
        filename: Seq::empty(),
        line_number: Seq::empty(),
        span: empty_span(),
        spans: Seq::empty(),
    }
}

/// Where reading stopped when it failed, and why.
pub type Failure = (ParseFailure, int);

/// The next character must be `ch`.  A wrong character has been read when
/// the failure is found; at the end of the line nothing has.
pub open spec fn spec_expect(s: Seq<char>, p: int, ch: char) -> Result<int, Failure> {
    if 0 <= p < s.len() {
        if s[p] == ch {
            Ok(p + 1)
        } else {
            Err((ParseFailure::UnexpectedCharSingle(ch, s[p]), p + 1))
        }
    } else {
        Err((ParseFailure::UnexpectedCharSingle(ch, '\0'), p))
    }
}

/// The next characters must be those of `w`, in order.
pub open spec fn spec_expect_all(s: Seq<char>, p: int, w: Seq<char>) -> Result<int, Failure>
    decreases w.len(),
{
    if w.len() == 0 {
        Ok(p)
    } else {
        match spec_expect(s, p, w[0]) {
            Ok(q) => spec_expect_all(s, q, w.drop_first()),
            Err(e) => Err(e),
        }
    }
}

/// Puts `pre` in front of a string that was read.
pub open spec fn prepend(pre: Seq<char>, r: Result<(Seq<char>, int), ParseFailure>) -> Result<
    (Seq<char>, int),
    ParseFailure,
> {
    match r {
        Ok((v, q)) => Ok((pre + v, q)),
        Err(e) => Err(e),
    }
}

/// The body of a string, after its opening quote, up to and including its
/// closing quote.  A backslash makes the character after it part of the value
/// and is itself dropped.  (When the body fails, nothing of it counts as
/// read: the reader is left where the body starts.)
pub open spec fn spec_string_body(s: Seq<char>, p: int) -> Result<(Seq<char>, int), ParseFailure>
    decreases s.len() - p,
{
    if p < 0 || p >= s.len() {
        Err(ParseFailure::UnexpectedEof("string"@))
    } else if s[p] == '"' {
        Ok((Seq::empty(), p + 1))
    } else if s[p] == '\\' {
        if p + 1 >= s.len() {
            Err(ParseFailure::UnexpectedEof("string backslash"@))
        } else {
            prepend(seq![s[p + 1]], spec_string_body(s, p + 2))
        }
    } else {
        prepend(seq![s[p]], spec_string_body(s, p + 1))
    }
}

/// A string body read from `p`, with a failure left at `p`.
pub open spec fn spec_string_body_at(s: Seq<char>, p: int) -> Result<(Seq<char>, int), Failure> {
    match spec_string_body(s, p) {
        Ok(r) => Ok(r),
        Err(e) => Err((e, p)),
    }
}

/// A quoted string.
pub open spec fn spec_string(s: Seq<char>, p: int) -> Result<(Seq<char>, int), Failure> {
    match spec_expect(s, p, '"') {
        Ok(q) => spec_string_body_at(s, q),
        Err(e) => Err(e),
    }
}

/// Where the run of digits that starts at `p` ends.
pub open spec fn spec_digits_end(s: Seq<char>, p: int) -> int
    decreases s.len() - p,
{
    if p < 0 || p >= s.len() || !is_ascii_digit(s[p]) {
        p
    } else {
        spec_digits_end(s, p + 1)
    }
}

/// A number whose first digit, at `start`, has been read; `p` is just after it.
pub open spec fn spec_number_after_digit(s: Seq<char>, start: int, p: int) -> (Seq<char>, int) {
    (s.subrange(start, spec_digits_end(s, p)), spec_digits_end(s, p))
}

/// A number: one digit or more.  A character that is no digit has been read
/// when the failure is found.
pub open spec fn spec_number(s: Seq<char>, p: int) -> Result<(Seq<char>, int), Failure> {
    if p < 0 || p >= s.len() {
        Err((ParseFailure::UnexpectedEof("number"@), p))
    } else if is_ascii_digit(s[p]) {
        Ok(spec_number_after_digit(s, p, p + 1))
    } else {
        Err((ParseFailure::UnexpectedChar(seq!['0'], s[p]), p + 1))
    }
}

/// The value of a pair in a JSON object: a string, `true`, `false` or a
/// number, each kept as its text.
pub open spec fn spec_dict_value(s: Seq<char>, p: int) -> Result<(Seq<char>, int), Failure> {
    if p < 0 || p >= s.len() {
        Err((ParseFailure::UnexpectedEof("dict key"@), p))
    } else if s[p] == '"' {
        spec_string_body_at(s, p + 1)
    } else if s[p] == 't' {
        match spec_expect_all(s, p + 1, seq!['r', 'u', 'e']) {
            Ok(q) => Ok(("true"@, q)),
            Err(e) => Err(e),
        }
    } else if s[p] == 'f' {
        match spec_expect_all(s, p + 1, seq!['a', 'l', 's', 'e']) {
            Ok(q) => Ok(("false"@, q)),
            Err(e) => Err(e),
        }
    } else if is_ascii_digit(s[p]) {
        Ok(spec_number_after_digit(s, p, p + 1))
    } else {
        Err((ParseFailure::UnexpectedChar(seq!['"', 't', 'f', '0'], s[p]), p + 1))
    }
}

/// Whether a pair is the `name` of a span that keeps its name apart.
pub open spec fn is_captured(capture_name: bool, key: Seq<char>) -> bool {
    capture_name && key == "name"@
}

/// What an object read so far holds: its pairs (in front of those it was
/// given), the name it captured, and where reading is.
pub type DictState = (Seq<Pair>, Option<Seq<char>>, int);

/// The pairs of a JSON object after its opening brace, up to and including
/// its closing brace, put in front of `acc`; with `capture_name`, a `name`
/// pair goes to the name instead.  On failure, the pairs and name read
/// before it are kept, together with where reading stopped.
pub open spec fn spec_dict_entries(
    s: Seq<char>,
    p: int,
    acc: Seq<Pair>,
    name: Option<Seq<char>>,
    capture_name: bool,
) -> Result<DictState, (ParseFailure, DictState)>
    decreases s.len() - p,
{
    match spec_string(s, p) {
        Err((e, q)) => Err((e, (acc, name, q))),
        Ok((key, q0)) => match spec_expect(s, q0, ':') {
            Err((e, q)) => Err((e, (acc, name, q))),
            Ok(q1) => match spec_dict_value(s, q1) {
                Err((e, q)) => Err((e, (acc, name, q))),
                Ok((value, q2)) => {
                    let acc2 = if is_captured(capture_name, key) {
                        acc
                    } else {
                        seq![(key, value)] + acc
                    };
                    let name2 = if is_captured(capture_name, key) {
                        Some(value)
                    } else {
                        name
                    };
                    if q2 < 0 || q2 >= s.len() {
                        Err((ParseFailure::UnexpectedEof("dict"@), (acc2, name2, q2)))
                    } else if s[q2] == '}' {
                        Ok((acc2, name2, q2 + 1))
                    } else if s[q2] == ',' {
                        proof {
                            lemma_string_advances(s, p);
                            lemma_dict_value_advances(s, q1);
                        }
                        spec_dict_entries(s, q2 + 1, acc2, name2, capture_name)
                    } else {
                        Err(
                            (
                                ParseFailure::UnexpectedChar(seq!['}', ','], s[q2]),
                                (acc2, name2, q2 + 1),
                            ),
                        )
                    }
                },
            },
        },
    }
}

/// A JSON object whose pairs are put in front of `acc`.
pub open spec fn spec_dict(
    s: Seq<char>,
    p: int,
    acc: Seq<Pair>,
    name: Option<Seq<char>>,
    capture_name: bool,
) -> Result<DictState, (ParseFailure, DictState)> {
    match spec_expect(s, p, '{') {
        Ok(q) => spec_dict_entries(s, q, acc, name, capture_name),
        Err((e, q)) => Err((e, (acc, name, q))),
    }
}

/// A span object, read into `span`; on failure, the span as read so far.
pub open spec fn spec_span(s: Seq<char>, p: int, span: SpanModel) -> Result<
    (SpanModel, int),
    (ParseFailure, SpanModel, int),
> {
    match spec_dict(s, p, span.map, span.name, true) {
        Ok((map, name, q)) => Ok((SpanModel { name, map }, q)),
        Err((e, (map, name, q))) => Err((e, SpanModel { name, map }, q)),
    }
}

/// The span objects of an array after its opening bracket, up to and
/// including its closing bracket, put in front of `acc`.  On failure, the
/// spans read whole before it are kept.
pub open spec fn spec_spans_items(s: Seq<char>, p: int, acc: Seq<SpanModel>) -> Result<
    (Seq<SpanModel>, int),
    (ParseFailure, Seq<SpanModel>, int),
>
    decreases s.len() - p,
{
    match spec_span(s, p, empty_span()) {
        Err((e, _, q)) => Err((e, acc, q)),
        Ok((single, q)) => {
            let acc2 = seq![single] + acc;
            if q < 0 || q >= s.len() {
                Err((ParseFailure::UnexpectedEof("dict array"@), acc2, q))
            } else if s[q] == ']' {
                Ok((acc2, q + 1))
            } else if s[q] == ',' {
                proof {
                    lemma_span_advances(s, p, empty_span());
                }
                spec_spans_items(s, q + 1, acc2)
            } else {
                Err((ParseFailure::UnexpectedChar(seq![']', ','], s[q]), acc2, q + 1))
            }
        },
    }
}

/// An array of span objects, put in front of `acc`; `[]` adds none.
pub open spec fn spec_spans(s: Seq<char>, p: int, acc: Seq<SpanModel>) -> Result<
    (Seq<SpanModel>, int),
    (ParseFailure, Seq<SpanModel>, int),
> {
    match spec_expect(s, p, '[') {
        Ok(q) => if q < s.len() && s[q] == ']' {
            Ok((acc, q + 1))
        } else {
            spec_spans_items(s, q, acc)
        },
        Err((e, q)) => Err((e, acc, q)),
    }
}

/// The value of the top-level field `key`, read into `m`.
pub open spec fn spec_field_value(s: Seq<char>, p: int, key: Seq<char>, m: MessageModel) -> Result<
    (MessageModel, int),
    Failure,
> {
    if key == "timestamp"@ {
        match spec_string(s, p) {
            Ok((v, q)) => Ok((MessageModel { timestamp: v, ..m }, q)),
            Err(e) => Err(e),
        }
    } else if key == "level"@ {
        match spec_string(s, p) {
            Ok((v, q)) => Ok((MessageModel { level: v, ..m }, q)),
            Err(e) => Err(e),
        }
    } else if key == "fields"@ {
        match spec_dict(s, p, m.fields, None, false) {
            Ok((v, _, q)) => Ok((MessageModel { fields: v, ..m }, q)),
            Err((e, (_, _, q))) => Err((e, q)),
        }
    } else if key == "target"@ {
        match spec_string(s, p) {
            Ok((v, q)) => Ok((MessageModel { target: v, ..m }, q)),
            Err(e) => Err(e),
        }
    } else if key == "filename"@ {
        match spec_string(s, p) {
            Ok((v, q)) => Ok((MessageModel { filename: v, ..m }, q)),
            Err(e) => Err(e),
        }
    } else if key == "line_number"@ {
        match spec_number(s, p) {
            Ok((v, q)) => Ok((MessageModel { line_number: v, ..m }, q)),
            Err(e) => Err(e),
        }
    } else if key == "span"@ {
        match spec_span(s, p, m.span) {
            Ok((v, q)) => Ok((MessageModel { span: v, ..m }, q)),
            Err((e, _, q)) => Err((e, q)),
        }
    } else if key == "spans"@ {
        match spec_spans(s, p, m.spans) {
            Ok((v, q)) => Ok((MessageModel { spans: v, ..m }, q)),
            Err((e, _, q)) => Err((e, q)),
        }
    } else {
        Err((ParseFailure::UnknownField(key), p))
    }
}

/// The fields of a line after its opening brace, up to and including its
/// closing brace, read into `m`, and where reading stopped: just after that
/// brace.  A field given twice is read twice: a string field keeps the later
/// value, an object or array field gains the later entries in front.
pub open spec fn spec_message_fields(s: Seq<char>, p: int, m: MessageModel) -> Result<
    (MessageModel, int),
    Failure,
>
    decreases s.len() - p,
{
    match spec_string(s, p) {
        Err(e) => Err(e),
        Ok((key, q0)) => match spec_expect(s, q0, ':') {
            Err(e) => Err(e),
            Ok(q1) => match spec_field_value(s, q1, key, m) {
                Err(e) => Err(e),
                Ok((m2, q2)) => {
                    if q2 < 0 || q2 >= s.len() {
                        Err((ParseFailure::UnexpectedEof("message"@), q2))
                    } else if s[q2] == '}' {
                        Ok((m2, q2 + 1))
                    } else if s[q2] == ',' {
                        proof {
                            lemma_string_advances(s, p);
                            lemma_field_value_advances(s, q1, key, m);
                        }
                        spec_message_fields(s, q2 + 1, m2)
                    } else {
                        Err((ParseFailure::UnexpectedChar(seq!['}', ','], s[q2]), q2 + 1))
                    }
                },
            },
        },
    }
}

/// A whole line, read from position `p`, and where reading stopped.  What
/// follows the closing brace is not read.
pub open spec fn spec_message(s: Seq<char>, p: int) -> Result<(MessageModel, int), Failure> {
    match spec_expect(s, p, '{') {
        Ok(q) => spec_message_fields(s, q, empty_message()),
        Err(e) => Err(e),
    }
}

// Each rule that succeeds has read at least one character and stops within the line.

pub proof fn lemma_expect_all_advances(s: Seq<char>, p: int, w: Seq<char>)
    ensures
        spec_expect_all(s, p, w) matches Ok(q) ==> q == p + w.len() && (w.len() > 0 ==> 0 <= p
            && q <= s.len()),
    decreases w.len(),
{
    if w.len() > 0 {
        lemma_expect_all_advances(s, p + 1, w.drop_first());
    }
}

pub proof fn lemma_string_body_advances(s: Seq<char>, p: int)
    ensures
        spec_string_body(s, p) matches Ok((v, q)) ==> 0 <= p < q <= s.len(),
    decreases s.len() - p,
{
    if 0 <= p < s.len() && s[p] != '"' {
        if s[p] == '\\' {
            if p + 1 < s.len() {
                lemma_string_body_advances(s, p + 2);
            }
        } else {
            lemma_string_body_advances(s, p + 1);
        }
    }
}

pub proof fn lemma_string_advances(s: Seq<char>, p: int)
    ensures
        spec_string(s, p) matches Ok((v, q)) ==> 0 <= p < q <= s.len(),
{
    lemma_string_body_advances(s, p + 1);
}

pub proof fn lemma_digits_end(s: Seq<char>, p: int)
    requires
        0 <= p <= s.len(),
    ensures
        p <= spec_digits_end(s, p) <= s.len(),
        forall|i: int| p <= i < spec_digits_end(s, p) ==> is_ascii_digit(#[trigger] s[i]),
        spec_digits_end(s, p) < s.len() ==> !is_ascii_digit(s[spec_digits_end(s, p)]),
    decreases s.len() - p,
{
    if p < s.len() && is_ascii_digit(s[p]) {
        lemma_digits_end(s, p + 1);
    }
}

pub proof fn lemma_number_advances(s: Seq<char>, p: int)
    ensures
        spec_number(s, p) matches Ok((v, q)) ==> 0 <= p < q <= s.len(),
{
    if 0 <= p < s.len() {
        lemma_digits_end(s, p + 1);
    }
}

pub proof fn lemma_dict_value_advances(s: Seq<char>, p: int)
    ensures
        spec_dict_value(s, p) matches Ok((v, q)) ==> 0 <= p < q <= s.len(),
{
    if 0 <= p < s.len() {
        lemma_string_body_advances(s, p + 1);
        lemma_expect_all_advances(s, p + 1, seq!['r', 'u', 'e']);
        lemma_expect_all_advances(s, p + 1, seq!['a', 'l', 's', 'e']);
        lemma_digits_end(s, p + 1);
    }
}

pub proof fn lemma_dict_entries_advances(
    s: Seq<char>,
    p: int,
    acc: Seq<Pair>,
    name: Option<Seq<char>>,
    capture_name: bool,
)
    ensures
        spec_dict_entries(s, p, acc, name, capture_name) matches Ok((a, n, q)) ==> 0 <= p < q
            <= s.len(),
    decreases s.len() - p,
{
    lemma_string_advances(s, p);
    if let Ok((key, q0)) = spec_string(s, p) {
        if let Ok(q1) = spec_expect(s, q0, ':') {
            lemma_dict_value_advances(s, q1);
            if let Ok((value, q2)) = spec_dict_value(s, q1) {
                if 0 <= q2 < s.len() && s[q2] == ',' {
                    let acc2 = if is_captured(capture_name, key) {
                        acc
                    } else {
                        seq![(key, value)] + acc
                    };
                    let name2 = if is_captured(capture_name, key) {
                        Some(value)
                    } else {
                        name
                    };
                    lemma_dict_entries_advances(s, q2 + 1, acc2, name2, capture_name);
                }
            }
        }
    }
}

pub proof fn lemma_dict_advances(
    s: Seq<char>,
    p: int,
    acc: Seq<Pair>,
    name: Option<Seq<char>>,
    capture_name: bool,
)
    ensures
        spec_dict(s, p, acc, name, capture_name) matches Ok((a, n, q)) ==> 0 <= p < q <= s.len(),
{
    lemma_dict_entries_advances(s, p + 1, acc, name, capture_name);
}

pub proof fn lemma_span_advances(s: Seq<char>, p: int, span: SpanModel)
    ensures
        spec_span(s, p, span) matches Ok((v, q)) ==> 0 <= p < q <= s.len(),
{
    lemma_dict_advances(s, p, span.map, span.name, true);
}

pub proof fn lemma_spans_items_advances(s: Seq<char>, p: int, acc: Seq<SpanModel>)
    ensures
        spec_spans_items(s, p, acc) matches Ok((v, q)) ==> 0 <= p < q <= s.len(),
    decreases s.len() - p,
{
    lemma_span_advances(s, p, empty_span());
    if let Ok((single, q)) = spec_span(s, p, empty_span()) {
        if 0 <= q < s.len() && s[q] == ',' {
            lemma_spans_items_advances(s, q + 1, seq![single] + acc);
        }
    }
}

pub proof fn lemma_spans_advances(s: Seq<char>, p: int, acc: Seq<SpanModel>)
    ensures
        spec_spans(s, p, acc) matches Ok((v, q)) ==> 0 <= p < q <= s.len(),
{
    lemma_spans_items_advances(s, p + 1, acc);
}

pub proof fn lemma_field_value_advances(s: Seq<char>, p: int, key: Seq<char>, m: MessageModel)
    ensures
        spec_field_value(s, p, key, m) matches Ok((v, q)) ==> 0 <= p < q <= s.len(),
{
    lemma_string_advances(s, p);
    lemma_dict_advances(s, p, m.fields, None, false);
    lemma_number_advances(s, p);
    lemma_span_advances(s, p, m.span);
    lemma_spans_advances(s, p, m.spans);
}

} // verus!
