//! What a search and a filter look at, stated over the parts of a parsed
//! line, and which messages a search can land on.

use vstd::prelude::*;
use crate::grammar::MessageModel;
use crate::strings::seq_contains;
use crate::message::{
    AppState, Filter, FilterKind, Message, parents_precede, spec_filter_matches, spec_message_matches,
    spec_run, spec_search_hit,
};
use crate::laws::{ancestors, lemma_displayed_over_ancestors};

verus! {

/// Whether a key or a value of one of `pairs` holds `n`.
pub open spec fn some_pair_holds(pairs: Seq<(Seq<char>, Seq<char>)>, n: Seq<char>) -> bool {
    exists|i: int|
        0 <= i < pairs.len() && (seq_contains(#[trigger] pairs[i].0, n) || seq_contains(pairs[i].1, n))
}

proof fn lemma_pairs_hold(pairs: Seq<(Seq<char>, Seq<char>)>, n: Seq<char>)
    ensures
        crate::message::spec_dict_matches(pairs, n) == some_pair_holds(pairs, n),
{
    if some_pair_holds(pairs, n) {
        let i = choose|i: int|
            0 <= i < pairs.len() && (seq_contains(#[trigger] pairs[i].0, n) || seq_contains(pairs[i].1, n));
        assert(crate::message::pair_matches(pairs[i], n));
    }
    if crate::message::spec_dict_matches(pairs, n) {
        let i = choose|i: int| 0 <= i < pairs.len() && #[trigger] crate::message::pair_matches(pairs[i], n);
        assert(seq_contains(pairs[i].0, n) || seq_contains(pairs[i].1, n));
    }
}

/// Whether the name or a key or value of one of `spans` holds `n`.
pub open spec fn some_span_holds(spans: Seq<crate::grammar::SpanModel>, n: Seq<char>) -> bool {
    exists|j: int|
        0 <= j < spans.len() && ((#[trigger] spans[j].name matches Some(x) && seq_contains(x, n))
            || some_pair_holds(spans[j].map, n))
}

proof fn lemma_spans_hold(spans: Seq<crate::grammar::SpanModel>, n: Seq<char>)
    ensures
        crate::message::spec_spans_match(spans, n) == some_span_holds(spans, n),
{
    if crate::message::spec_spans_match(spans, n) {
        let j = choose|j: int| 0 <= j < spans.len() && #[trigger] crate::message::spec_span_matches(spans[j], n);
        lemma_pairs_hold(spans[j].map, n);
        assert((spans[j].name matches Some(x) && seq_contains(x, n)) || some_pair_holds(spans[j].map, n));
    }
    if some_span_holds(spans, n) {
        let j = choose|j: int|
            0 <= j < spans.len() && ((#[trigger] spans[j].name matches Some(x) && seq_contains(x, n))
                || some_pair_holds(spans[j].map, n));
        lemma_pairs_hold(spans[j].map, n);
        assert(crate::message::spec_span_matches(spans[j], n));
    }
}

/// A search finds a message exactly when its text occurs in the timestamp,
/// the target, the filename, the line number, a key or value of the fields,
/// the name or a key or value of the message's own span, or the name or a key
/// or value of one of the spans it is in.  The level alone is never enough.
pub proof fn lemma_search_looks_at(m: MessageModel, n: Seq<char>)
    ensures
        spec_message_matches(m, n) == (seq_contains(m.timestamp, n) || seq_contains(m.target, n)
            || seq_contains(m.filename, n) || seq_contains(m.line_number, n) || some_pair_holds(m.fields, n)
            || (m.span.name matches Some(x) && seq_contains(x, n)) || some_pair_holds(m.span.map, n)
            || some_span_holds(m.spans, n)),
{
    lemma_pairs_hold(m.fields, n);
    lemma_pairs_hold(m.span.map, n);
    lemma_spans_hold(m.spans, n);
}

/// Each kind of filter looks at the part of the message it is named after,
/// and at nothing else: the timestamp, the level, a key or value of the
/// fields, the target, the filename, the line number, the name of the
/// message's own span, or the name or a key or value of one of the spans it
/// is in.
pub proof fn lemma_filter_kinds_look_at(m: MessageModel, n: Seq<char>)
    ensures
        spec_run(FilterKind::Timestamp, m, n) == seq_contains(m.timestamp, n),
        spec_run(FilterKind::Level, m, n) == seq_contains(m.level, n),
        spec_run(FilterKind::Fields, m, n) == some_pair_holds(m.fields, n),
        spec_run(FilterKind::Target, m, n) == seq_contains(m.target, n),
        spec_run(FilterKind::Filename, m, n) == seq_contains(m.filename, n),
        spec_run(FilterKind::LineNumber, m, n) == seq_contains(m.line_number, n),
        spec_run(FilterKind::SpanName, m, n) == (m.span.name is Some && seq_contains(m.span.name->0, n)),
        spec_run(FilterKind::Spans, m, n) == some_span_holds(m.spans, n),
{
    lemma_pairs_hold(m.fields, n);
    lemma_spans_hold(m.spans, n);
}

/// A filter with text lets a message through exactly when it includes and its
/// kind finds the text, or it excludes and its kind does not; one with no
/// text lets every message through.
pub proof fn lemma_filter_includes_or_excludes(f: Filter, m: MessageModel)
    ensures
        f.filter@.len() == 0 ==> spec_filter_matches(f, m),
        f.filter@.len() > 0 && !f.exclude ==> (spec_filter_matches(f, m) == spec_run(f.kind, m, f.filter@)),
        f.filter@.len() > 0 && f.exclude ==> (spec_filter_matches(f, m) == !spec_run(f.kind, m, f.filter@)),
{
}

/// A message that a search lands on (`next_search` or `prev_search` gives
/// its index) is one the search finds and one that is shown: every filter
/// lets it and each of its ancestors through, and none of its ancestors
/// hides its children.  Every message with both properties can be landed
/// on.
pub proof fn lemma_search_lands_on_shown_hits<'b>(messages: Seq<Message<'b>>, state: AppState, i: int)
    requires
        parents_precede(messages),
        0 <= i < messages.len(),
    ensures
        spec_search_hit(messages, state, i) == ({
            let chain = ancestors(messages[i], messages);
            &&& spec_message_matches(messages[i].parsed.model(), state.search@)
            &&& forall|a: int, k: int|
                0 <= a < chain.len() && 0 <= k < state.filters@.len() ==> spec_filter_matches(
                    #[trigger] state.filters@[k],
                    #[trigger] chain[a].parsed.model(),
                )
            &&& forall|a: int| 1 <= a < chain.len() ==> !(#[trigger] chain[a]).state.hide_children
        }),
{
    assert(messages[i].parent matches Some(p) ==> p < i);
    lemma_displayed_over_ancestors(messages[i], messages, state.filters@);
}

} // verus!
