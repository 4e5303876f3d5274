//! A line is read up to its closing brace: what follows is never looked at.

use vstd::prelude::*;
use crate::grammar::{
    Pair, SpanModel, MessageModel, empty_span, empty_message, spec_expect,
    spec_expect_all, spec_string_body, spec_string, spec_digits_end, spec_number,
    spec_number_after_digit, spec_dict_value, is_captured, spec_dict_entries, spec_dict,
    spec_span, spec_spans_items, spec_spans, spec_field_value, spec_message_fields, spec_message,
    lemma_string_advances, lemma_dict_value_advances, lemma_span_advances,
    lemma_field_value_advances, lemma_digits_end,
};

verus! {

proof fn lemma_expect_ext(s: Seq<char>, t: Seq<char>, p: int, ch: char)
    requires
        spec_expect(s, p, ch) is Ok,
    ensures
        spec_expect(s + t, p, ch) == spec_expect(s, p, ch),
{
    assert((s + t)[p] == s[p]);
}

proof fn lemma_expect_all_ext(s: Seq<char>, t: Seq<char>, p: int, w: Seq<char>)
    requires
        spec_expect_all(s, p, w) is Ok,
    ensures
        spec_expect_all(s + t, p, w) == spec_expect_all(s, p, w),
    decreases w.len(),
{
    if w.len() > 0 {
        lemma_expect_ext(s, t, p, w[0]);
        lemma_expect_all_ext(s, t, p + 1, w.drop_first());
    }
}

proof fn lemma_string_body_ext(s: Seq<char>, t: Seq<char>, p: int)
    requires
        spec_string_body(s, p) is Ok,
    ensures
        spec_string_body(s + t, p) == spec_string_body(s, p),
    decreases s.len() - p,
{
    assert((s + t)[p] == s[p]);
    if s[p] == '\\' {
        assert((s + t)[p + 1] == s[p + 1]);
        lemma_string_body_ext(s, t, p + 2);
    } else if s[p] != '"' {
        lemma_string_body_ext(s, t, p + 1);
    }
}

proof fn lemma_string_ext(s: Seq<char>, t: Seq<char>, p: int)
    requires
        spec_string(s, p) is Ok,
    ensures
        spec_string(s + t, p) == spec_string(s, p),
{
    lemma_expect_ext(s, t, p, '"');
    lemma_string_body_ext(s, t, p + 1);
}

proof fn lemma_digits_end_ext(s: Seq<char>, t: Seq<char>, p: int)
    requires
        0 <= p <= s.len(),
        spec_digits_end(s, p) < s.len(),
    ensures
        spec_digits_end(s + t, p) == spec_digits_end(s, p),
    decreases s.len() - p,
{
    assert((s + t)[p] == s[p]);
    if crate::strings::is_ascii_digit(s[p]) {
        lemma_digits_end_ext(s, t, p + 1);
    }
}

proof fn lemma_number_after_digit_ext(s: Seq<char>, t: Seq<char>, start: int, p: int)
    requires
        0 <= start <= p <= s.len(),
        spec_number_after_digit(s, start, p).1 < s.len(),
    ensures
        spec_number_after_digit(s + t, start, p) == spec_number_after_digit(s, start, p),
{
    lemma_digits_end(s, p);
    lemma_digits_end_ext(s, t, p);
    let e = spec_digits_end(s, p);
    assert((s + t).subrange(start, e) =~= s.subrange(start, e));
}

proof fn lemma_number_ext(s: Seq<char>, t: Seq<char>, p: int)
    requires
        spec_number(s, p) matches Ok((v, q)) && q < s.len(),
    ensures
        spec_number(s + t, p) == spec_number(s, p),
{
    assert((s + t)[p] == s[p]);
    lemma_number_after_digit_ext(s, t, p, p + 1);
}

proof fn lemma_dict_value_ext(s: Seq<char>, t: Seq<char>, p: int)
    requires
        spec_dict_value(s, p) matches Ok((v, q)) && q < s.len(),
    ensures
        spec_dict_value(s + t, p) == spec_dict_value(s, p),
{
    assert((s + t)[p] == s[p]);
    if s[p] == '"' {
        lemma_string_body_ext(s, t, p + 1);
    } else if s[p] == 't' {
        lemma_expect_all_ext(s, t, p + 1, seq!['r', 'u', 'e']);
    } else if s[p] == 'f' {
        lemma_expect_all_ext(s, t, p + 1, seq!['a', 'l', 's', 'e']);
    } else {
        lemma_number_after_digit_ext(s, t, p, p + 1);
    }
}

proof fn lemma_dict_entries_ext(
    s: Seq<char>,
    t: Seq<char>,
    p: int,
    acc: Seq<Pair>,
    name: Option<Seq<char>>,
    capture_name: bool,
)
    requires
        spec_dict_entries(s, p, acc, name, capture_name) is Ok,
    ensures
        spec_dict_entries(s + t, p, acc, name, capture_name) == spec_dict_entries(
            s,
            p,
            acc,
            name,
            capture_name,
        ),
    decreases s.len() - p,
{
    let (key, q0) = spec_string(s, p)->Ok_0;
    lemma_string_ext(s, t, p);
    let q1 = spec_expect(s, q0, ':')->Ok_0;
    lemma_expect_ext(s, t, q0, ':');
    let (value, q2) = spec_dict_value(s, q1)->Ok_0;
    lemma_dict_value_ext(s, t, q1);
    assert((s + t)[q2] == s[q2]);
    if s[q2] == ',' {
        lemma_string_advances(s, p);
        lemma_dict_value_advances(s, q1);
        let acc2 = if is_captured(capture_name, key) {
            acc
        } else {
            seq![(key, value)] + acc
        };
        let name2 = if is_captured(capture_name, key) {
            Some(value)
        } else {
            name
        };
        lemma_dict_entries_ext(s, t, q2 + 1, acc2, name2, capture_name);
    }
}

proof fn lemma_dict_ext(
    s: Seq<char>,
    t: Seq<char>,
    p: int,
    acc: Seq<Pair>,
    name: Option<Seq<char>>,
    capture_name: bool,
)
    requires
        spec_dict(s, p, acc, name, capture_name) is Ok,
    ensures
        spec_dict(s + t, p, acc, name, capture_name) == spec_dict(s, p, acc, name, capture_name),
{
    lemma_expect_ext(s, t, p, '{');
    lemma_dict_entries_ext(s, t, p + 1, acc, name, capture_name);
}

proof fn lemma_span_ext(s: Seq<char>, t: Seq<char>, p: int, span: SpanModel)
    requires
        spec_span(s, p, span) is Ok,
    ensures
        spec_span(s + t, p, span) == spec_span(s, p, span),
{
    lemma_dict_ext(s, t, p, span.map, span.name, true);
}

proof fn lemma_spans_items_ext(s: Seq<char>, t: Seq<char>, p: int, acc: Seq<SpanModel>)
    requires
        spec_spans_items(s, p, acc) is Ok,
    ensures
        spec_spans_items(s + t, p, acc) == spec_spans_items(s, p, acc),
    decreases s.len() - p,
{
    lemma_span_ext(s, t, p, empty_span());
    let (single, q) = spec_span(s, p, empty_span())->Ok_0;
    assert((s + t)[q] == s[q]);
    if s[q] == ',' {
        lemma_span_advances(s, p, empty_span());
        lemma_spans_items_ext(s, t, q + 1, seq![single] + acc);
    }
}

proof fn lemma_spans_ext(s: Seq<char>, t: Seq<char>, p: int, acc: Seq<SpanModel>)
    requires
        spec_spans(s, p, acc) is Ok,
    ensures
        spec_spans(s + t, p, acc) == spec_spans(s, p, acc),
{
    lemma_expect_ext(s, t, p, '[');
    let q = p + 1;
    if q < s.len() {
        assert((s + t)[q] == s[q]);
        if s[q] != ']' {
            lemma_spans_items_ext(s, t, q, acc);
        }
    }
}

proof fn lemma_field_value_ext(s: Seq<char>, t: Seq<char>, p: int, key: Seq<char>, m: MessageModel)
    requires
        spec_field_value(s, p, key, m) matches Ok((v, q)) && q < s.len(),
    ensures
        spec_field_value(s + t, p, key, m) == spec_field_value(s, p, key, m),
{
    if key == "timestamp"@ || key == "level"@ {
        lemma_string_ext(s, t, p);
    } else if key == "fields"@ {
        lemma_dict_ext(s, t, p, m.fields, None, false);
    } else if key == "target"@ || key == "filename"@ {
        lemma_string_ext(s, t, p);
    } else if key == "line_number"@ {
        lemma_number_ext(s, t, p);
    } else if key == "span"@ {
        lemma_span_ext(s, t, p, m.span);
    } else if key == "spans"@ {
        lemma_spans_ext(s, t, p, m.spans);
    }
}

proof fn lemma_message_fields_ext(s: Seq<char>, t: Seq<char>, p: int, m: MessageModel)
    requires
        spec_message_fields(s, p, m) is Ok,
    ensures
        spec_message_fields(s + t, p, m) == spec_message_fields(s, p, m),
    decreases s.len() - p,
{
    let (key, q0) = spec_string(s, p)->Ok_0;
    lemma_string_ext(s, t, p);
    let q1 = spec_expect(s, q0, ':')->Ok_0;
    lemma_expect_ext(s, t, q0, ':');
    let (m2, q2) = spec_field_value(s, q1, key, m)->Ok_0;
    lemma_field_value_ext(s, t, q1, key, m);
    assert((s + t)[q2] == s[q2]);
    if s[q2] == ',' {
        lemma_string_advances(s, p);
        lemma_field_value_advances(s, q1, key, m);
        lemma_message_fields_ext(s, t, q2 + 1, m2);
    }
}

/// Whatever follows the closing brace of a line that reads well (such as
/// the line's end) changes nothing of what is read.
pub proof fn lemma_trailing_text_ignored(s: Seq<char>, t: Seq<char>)
    requires
        spec_message(s, 0) is Ok,
    ensures
        spec_message(s + t, 0) == spec_message(s, 0),
{
    lemma_expect_ext(s, t, 0, '{');
    lemma_message_fields_ext(s, t, 1, empty_message());
}

} // verus!
