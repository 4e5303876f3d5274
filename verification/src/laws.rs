//! What holds of the library across calls and for every input.

use vstd::prelude::*;
use crate::grammar::{
    spec_string_body, MessageModel, Pair, spec_expect_all, spec_digits_end, spec_dict_value, is_captured,
};
use crate::strings::is_ascii_digit;
use crate::message::{
    Message, Filter, HopMessageKind, parents_precede, stack_after, spec_is_displayed, spec_filter_matches,
    };
use crate::render::{spec_highlight, PieceModel, lemma_next_match};

verus! {

/// A value written as a string: each quote and backslash escaped by a
/// backslash.
pub open spec fn escape(v: Seq<char>) -> Seq<char>
    decreases v.len(),
{
    if v.len() == 0 {
        Seq::empty()
    } else if v[0] == '"' || v[0] == '\\' {
        seq!['\\', v[0]] + escape(v.drop_first())
    } else {
        seq![v[0]] + escape(v.drop_first())
    }
}

/// Reading back a written string gives the value that was written, and stops
/// just after the closing quote, whatever follows it.
pub proof fn lemma_string_roundtrip(v: Seq<char>, rest: Seq<char>)
    ensures
        spec_string_body(escape(v) + seq!['"'] + rest, 0) == Ok::<(Seq<char>, int), crate::grammar::ParseFailure>(
            (v, escape(v).len() + 1 as int),
        ),
{
    lemma_string_roundtrip_at(Seq::empty(), v, rest);
    assert(Seq::<char>::empty() + escape(v) + seq!['"'] + rest =~= escape(v) + seq!['"'] + rest);
}

proof fn lemma_string_roundtrip_at(pre: Seq<char>, v: Seq<char>, rest: Seq<char>)
    ensures
        spec_string_body(pre + escape(v) + seq!['"'] + rest, pre.len() as int) == Ok::<
            (Seq<char>, int),
            crate::grammar::ParseFailure,
        >((v, pre.len() + escape(v).len() + 1 as int)),
    decreases v.len(),
{
    let s = pre + escape(v) + seq!['"'] + rest;
    let p = pre.len() as int;
    if v.len() == 0 {
        assert(escape(v) =~= Seq::<char>::empty());
        assert(s[p] == '"');
        assert(v =~= Seq::<char>::empty());
    } else {
        let c = v[0];
        let tail = v.drop_first();
        if c == '"' || c == '\\' {
            let pre2 = pre + seq!['\\', c];
            assert(s =~= pre2 + escape(tail) + seq!['"'] + rest);
            lemma_string_roundtrip_at(pre2, tail, rest);
            assert(s[p] == '\\');
            assert(s[p + 1] == c);
            assert(seq![c] + tail =~= v);
        } else {
            let pre2 = pre + seq![c];
            assert(s =~= pre2 + escape(tail) + seq!['"'] + rest);
            lemma_string_roundtrip_at(pre2, tail, rest);
            assert(s[p] == c);
            assert(seq![c] + tail =~= v);
        }
    }
}

/// The text of all pieces, one after another.
pub open spec fn pieces_text(pieces: Seq<PieceModel>) -> Seq<char>
    decreases pieces.len(),
{
    if pieces.len() == 0 {
        Seq::empty()
    } else {
        pieces[0].0 + pieces_text(pieces.drop_first())
    }
}

pub proof fn lemma_pieces_text_single(x: PieceModel)
    ensures
        pieces_text(seq![x]) == x.0,
{
    assert(seq![x].drop_first() =~= Seq::<PieceModel>::empty());
    assert(pieces_text(seq![x]) == x.0 + pieces_text(seq![x].drop_first()));
    assert(x.0 + Seq::<char>::empty() =~= x.0);
}

pub proof fn lemma_pieces_text_concat(a: Seq<PieceModel>, b: Seq<PieceModel>)
    ensures
        pieces_text(a + b) == pieces_text(a) + pieces_text(b),
    decreases a.len(),
{
    if a.len() == 0 {
        assert(a + b =~= b);
        assert(pieces_text(a) =~= Seq::<char>::empty());
        assert(Seq::<char>::empty() + pieces_text(b) =~= pieces_text(b));
    } else {
        lemma_pieces_text_concat(a.drop_first(), b);
        assert((a + b).drop_first() =~= a.drop_first() + b);
        assert(pieces_text(a + b) =~= a[0].0 + pieces_text(a.drop_first() + b));
    }
}

/// Marking what the search finds does not change the text: the pieces of a
/// text, put back together, are the text.
pub proof fn lemma_highlight_keeps_text(
    t: Seq<char>,
    n: Seq<char>,
    from: int,
    lead: u32,
    fmt: crate::render::TextStyle,
)
    requires
        0 <= from <= t.len(),
    ensures
        pieces_text(spec_highlight(t, n, from, lead, fmt)) == t.subrange(from, t.len() as int),
    decreases t.len() - from,
{
    if n.len() == 0 {
        lemma_pieces_text_single((t.subrange(from, t.len() as int), lead, fmt));
    } else {
        lemma_next_match(t, n, from);
        match crate::render::spec_next_match(t, n, from) {
            None => {
                let last = seq![(t.subrange(from, t.len() as int), lead, fmt)];
                lemma_pieces_text_single((t.subrange(from, t.len() as int), lead, fmt));
            },
            Some(i) => {
                let prefix = t.subrange(from, i);
                let head: Seq<PieceModel> = if prefix.len() > 0 {
                    seq![(prefix, lead, fmt)]
                } else {
                    seq![]
                };
                let lead2: u32 = if prefix.len() > 0 {
                    0
                } else {
                    lead
                };
                let mid: Seq<PieceModel> = seq![(t.subrange(i, i + n.len()), lead2, crate::render::marked(fmt))];
                let rest = spec_highlight(t, n, i + n.len(), 0, fmt);
                lemma_highlight_keeps_text(t, n, i + n.len(), 0, fmt);
                assert(spec_highlight(t, n, from, lead, fmt) == head + mid + rest);
                lemma_pieces_text_concat(head + mid, rest);
                lemma_pieces_text_concat(head, mid);
                lemma_pieces_text_single(mid[0]);
                assert(mid =~= seq![mid[0]]);
                if prefix.len() > 0 {
                    lemma_pieces_text_single((prefix, lead, fmt));
                } else {
                    assert(pieces_text(head) =~= prefix);
                }
                assert(t.subrange(from, t.len() as int) =~= prefix + t.subrange(i, i + n.len())
                    + t.subrange(i + n.len(), t.len() as int));
            },
        }
    }
}

/// A message that enters a span, followed by one that leaves it, leaves the
/// stack of open spans as it was.
pub proof fn lemma_enter_then_exit(stack: Seq<usize>, enter_index: usize, exit_index: usize)
    ensures
        stack_after(
            stack_after(stack, Some(HopMessageKind::Enter), enter_index),
            Some(HopMessageKind::Exit),
            exit_index,
        ) == stack,
{
    assert(stack.push(enter_index).drop_last() =~= stack);
}

/// A shown message's parent is shown too and does not hide its children:
/// hiding the children of a message hides every message below it.
pub proof fn lemma_shown_parent<'b>(msg: Message<'b>, messages: Seq<Message<'b>>, filters: Seq<Filter>, p: usize)
    requires
        msg.parent == Some(p),
        spec_is_displayed(msg, messages, filters),
    ensures
        p < messages.len(),
        !messages[p as int].state.hide_children,
        spec_is_displayed(messages[p as int], messages, filters),
{
}

/// A filter with text lets a message through exactly when the same filter
/// with the opposite choice of `exclude` does not.
pub proof fn lemma_exclude_flips(f: Filter, g: Filter, m: MessageModel)
    requires
        f.kind == g.kind,
        f.filter@ == g.filter@,
        f.filter@.len() > 0,
        f.exclude != g.exclude,
    ensures
        spec_filter_matches(f, m) != spec_filter_matches(g, m),
{
}


/// Text that is the inside of a string: each backslash escapes the character
/// after it, and no quote stands unescaped.
pub open spec fn is_raw_string(r: Seq<char>) -> bool
    decreases r.len(),
{
    if r.len() == 0 {
        true
    } else if r[0] == '\\' {
        r.len() >= 2 && is_raw_string(r.skip(2))
    } else if r[0] == '"' {
        false
    } else {
        is_raw_string(r.drop_first())
    }
}

/// The inside of a string with each escaping backslash dropped.
pub open spec fn unescape(r: Seq<char>) -> Seq<char>
    decreases r.len(),
{
    if r.len() == 0 {
        Seq::empty()
    } else if r[0] == '\\' && r.len() >= 2 {
        seq![r[1]] + unescape(r.skip(2))
    } else {
        seq![r[0]] + unescape(r.drop_first())
    }
}

/// How many escaping backslashes the inside of a string holds.
pub open spec fn escape_count(r: Seq<char>) -> nat
    decreases r.len(),
{
    if r.len() == 0 {
        0
    } else if r[0] == '\\' && r.len() >= 2 {
        1 + escape_count(r.skip(2))
    } else {
        escape_count(r.drop_first())
    }
}

/// A string reads as its inside up to the first unescaped quote, with every
/// escaping backslash dropped (whatever character it escapes) and nothing
/// else decoded, and reading stops just after that quote; the value is as
/// many characters shorter than the inside as there are escapes.
pub proof fn lemma_string_body_reads_raw(pre: Seq<char>, r: Seq<char>, rest: Seq<char>)
    requires
        is_raw_string(r),
    ensures
        spec_string_body(pre + r + seq!['"'] + rest, pre.len() as int) == Ok::<
            (Seq<char>, int),
            crate::grammar::ParseFailure,
        >((unescape(r), pre.len() + r.len() + 1 as int)),
        unescape(r).len() + escape_count(r) == r.len(),
    decreases r.len(),
{
    let s = pre + r + seq!['"'] + rest;
    let p = pre.len() as int;
    if r.len() == 0 {
        assert(s[p] == '"');
        assert(unescape(r) =~= Seq::<char>::empty());
    } else if r[0] == '\\' {
        let pre2 = pre + r.subrange(0, 2);
        assert(s =~= pre2 + r.skip(2) + seq!['"'] + rest);
        lemma_string_body_reads_raw(pre2, r.skip(2), rest);
        assert(s[p] == '\\');
        assert(s[p + 1] == r[1]);
    } else {
        let pre2 = pre + seq![r[0]];
        assert(s =~= pre2 + r.drop_first() + seq!['"'] + rest);
        lemma_string_body_reads_raw(pre2, r.drop_first(), rest);
        assert(s[p] == r[0]);
    }
}

/// Conversely, every string that reads well is of that form: its inside is
/// raw string text, followed by a quote.
pub proof fn lemma_string_body_is_raw(s: Seq<char>, p: int)
    requires
        spec_string_body(s, p) is Ok,
    ensures
        ({
            let (v, q) = spec_string_body(s, p)->Ok_0;
            &&& 0 <= p < q <= s.len()
            &&& s[q - 1] == '"'
            &&& is_raw_string(s.subrange(p, q - 1))
            &&& v == unescape(s.subrange(p, q - 1))
        }),
    decreases s.len() - p,
{
    let (v, q) = spec_string_body(s, p)->Ok_0;
    crate::grammar::lemma_string_body_advances(s, p);
    if s[p] == '"' {
        assert(s.subrange(p, q - 1) =~= Seq::<char>::empty());
    } else if s[p] == '\\' {
        lemma_string_body_is_raw(s, p + 2);
        let r = s.subrange(p, q - 1);
        assert(r.skip(2) =~= s.subrange(p + 2, q - 1));
        assert(r[0] == '\\' && r[1] == s[p + 1]);
    } else {
        lemma_string_body_is_raw(s, p + 1);
        let r = s.subrange(p, q - 1);
        assert(r.drop_first() =~= s.subrange(p + 1, q - 1));
    }
}


/// A message and its ancestors, reached by following each parent: the
/// message first, the root last.
pub open spec fn ancestors<'b>(msg: Message<'b>, messages: Seq<Message<'b>>) -> Seq<Message<'b>>
    decreases
            (match msg.parent {
                Some(p) => p + 1,
                None => 0,
            }),
{
    match msg.parent {
        None => seq![msg],
        Some(p) => if p < messages.len() && (messages[p as int].parent matches Some(q) ==> q < p) {
            seq![msg] + ancestors(messages[p as int], messages)
        } else {
            seq![msg]
        },
    }
}

/// When every parent comes before its child, a message is shown exactly when
/// every filter lets it and each of its ancestors through and no proper
/// ancestor hides its children (whether the message hides its own children
/// does not matter).  The ancestors end at a message with no parent, each
/// one within the list, and there are at most as many of them as messages,
/// so that deciding takes at most that many nested steps.
pub proof fn lemma_displayed_over_ancestors<'b>(
    msg: Message<'b>,
    messages: Seq<Message<'b>>,
    filters: Seq<Filter>,
)
    requires
        parents_precede(messages),
        msg.parent matches Some(p) ==> p < messages.len(),
    ensures
        ancestors(msg, messages).len() >= 1,
        ancestors(msg, messages)[0] == msg,
        ancestors(msg, messages).last().parent is None,
        ancestors(msg, messages).len() <= (match msg.parent {
            Some(p) => p + 2,
            None => 1,
        }),
        ancestors(msg, messages).len() <= messages.len() + 1,
        forall|i: int|
            0 <= i && i + 1 < ancestors(msg, messages).len() ==> {
                &&& (#[trigger] ancestors(msg, messages)[i]).parent is Some
                &&& ancestors(msg, messages)[i].parent->0 < messages.len()
                &&& ancestors(msg, messages)[i + 1] == messages[ancestors(msg, messages)[i].parent->0 as int]
            },
        spec_is_displayed(msg, messages, filters) == ((forall|i: int, j: int|
            0 <= i < ancestors(msg, messages).len() && 0 <= j < filters.len() ==> spec_filter_matches(
                #[trigger] filters[j],
                #[trigger] ancestors(msg, messages)[i].parsed.model(),
            )) && (forall|i: int|
            1 <= i < ancestors(msg, messages).len() ==> !(#[trigger] ancestors(msg, messages)[i]).state.hide_children)),
    decreases
            (match msg.parent {
                Some(p) => p + 1,
                None => 0,
            }),
{
    let chain = ancestors(msg, messages);
    match msg.parent {
        None => {
            assert(chain =~= seq![msg]);
            assert(chain[0] == msg);
            assert(chain.last() == msg);
            let hide_all = forall|i: int| 1 <= i < chain.len() ==> !(#[trigger] chain[i]).state.hide_children;
            assert(hide_all);
            let filters_all = forall|i: int, j: int|
                0 <= i < chain.len() && 0 <= j < filters.len() ==> spec_filter_matches(
                    #[trigger] filters[j],
                    #[trigger] chain[i].parsed.model(),
                );
            assert(filters_all == spec_is_displayed(msg, messages, filters)) by {
                if spec_is_displayed(msg, messages, filters) {
                    assert forall|i: int, j: int|
                        0 <= i < chain.len() && 0 <= j < filters.len() implies spec_filter_matches(
                        #[trigger] filters[j],
                        #[trigger] chain[i].parsed.model(),
                    ) by {
                        assert(chain[i] == msg);
                    }
                }
                if filters_all {
                    assert forall|j: int| 0 <= j < filters.len() implies spec_filter_matches(
                        #[trigger] filters[j],
                        msg.parsed.model(),
                    ) by {
                        assert(chain[0] == msg);
                    }
                }
            }

            assert(chain.len() <= messages.len() + 1);
            assert(chain.last().parent is None);
            assert(spec_is_displayed(msg, messages, filters) == (filters_all && hide_all));
        },
        Some(p) => {
            let par = messages[p as int];
            assert(par.parent matches Some(q) ==> q < p);
            lemma_displayed_over_ancestors(par, messages, filters);
            let rest = ancestors(par, messages);
            assert(chain == seq![msg] + rest);
            assert(chain[0] == msg);
            assert(chain.len() == rest.len() + 1);
            assert(chain.last() == rest.last());
            assert forall|i: int| 0 <= i && i + 1 < chain.len() implies {
                &&& (#[trigger] chain[i]).parent is Some
                &&& chain[i].parent->0 < messages.len()
                &&& chain[i + 1] == messages[chain[i].parent->0 as int]
            } by {
                assert(chain[i + 1] == rest[i]);
                if i > 0 {
                    assert(chain[i] == rest[i - 1]);
                    assert(chain[i + 1] == rest[i]);
                }
            }
            let filters_all = forall|i: int, j: int|
                0 <= i < chain.len() && 0 <= j < filters.len() ==> spec_filter_matches(
                    #[trigger] filters[j],
                    #[trigger] chain[i].parsed.model(),
                );
            let filters_rest = forall|i: int, j: int|
                0 <= i < rest.len() && 0 <= j < filters.len() ==> spec_filter_matches(
                    #[trigger] filters[j],
                    #[trigger] rest[i].parsed.model(),
                );
            let filters_self = forall|j: int|
                0 <= j < filters.len() ==> spec_filter_matches(#[trigger] filters[j], msg.parsed.model());
            assert(filters_all == (filters_self && filters_rest)) by {
                if filters_self && filters_rest {
                    assert forall|i: int, j: int|
                        0 <= i < chain.len() && 0 <= j < filters.len() implies spec_filter_matches(
                        #[trigger] filters[j],
                        #[trigger] chain[i].parsed.model(),
                    ) by {
                        if i > 0 {
                            assert(chain[i] == rest[i - 1]);
                        }
                    }
                }
                if filters_all {
                    assert forall|i: int, j: int|
                        0 <= i < rest.len() && 0 <= j < filters.len() implies spec_filter_matches(
                        #[trigger] filters[j],
                        #[trigger] rest[i].parsed.model(),
                    ) by {
                        assert(chain[i + 1] == rest[i]);
                    }
                    assert forall|j: int| 0 <= j < filters.len() implies spec_filter_matches(
                        #[trigger] filters[j],
                        msg.parsed.model(),
                    ) by {
                        assert(chain[0] == msg);
                    }
                }
            }
            let hide_all = forall|i: int| 1 <= i < chain.len() ==> !(#[trigger] chain[i]).state.hide_children;
            let hide_rest = forall|i: int| 1 <= i < rest.len() ==> !(#[trigger] rest[i]).state.hide_children;
            assert(hide_all == (!par.state.hide_children && hide_rest)) by {
                if !par.state.hide_children && hide_rest {
                    assert forall|i: int| 1 <= i < chain.len() implies !(#[trigger] chain[i]).state.hide_children by {
                        assert(chain[i] == rest[i - 1]);
                    }
                }
                if hide_all {
                    assert(chain[1] == rest[0]);
                    assert forall|i: int| 1 <= i < rest.len() implies !(#[trigger] rest[i]).state.hide_children by {
                        assert(chain[i + 1] == rest[i]);
                    }
                }
            }
        },
    }
}


/// Where the search text `n` occurs in `t` from `from` on, found left to
/// right, each search resuming just after the match before it.
pub open spec fn greedy_matches(t: Seq<char>, n: Seq<char>, from: int) -> Seq<int>
    decreases t.len() - from,
{
    if n.len() == 0 || from < 0 || from > t.len() {
        Seq::empty()
    } else {
        match crate::render::spec_next_match(t, n, from) {
            None => Seq::empty(),
            Some(i) => {
                proof {
                    lemma_next_match(t, n, from);
                }
                seq![i] + greedy_matches(t, n, i + n.len())
            },
        }
    }
}

/// Where in the text each piece in the style `mark` starts, the first piece
/// starting at `offset`.
pub open spec fn marked_starts(pieces: Seq<PieceModel>, mark: crate::render::TextStyle, offset: int) -> Seq<
    int,
>
    decreases pieces.len(),
{
    if pieces.len() == 0 {
        Seq::empty()
    } else {
        let rest = marked_starts(pieces.drop_first(), mark, offset + pieces[0].0.len());
        if pieces[0].2 == mark {
            seq![offset] + rest
        } else {
            rest
        }
    }
}

proof fn lemma_marked_starts_concat(
    a: Seq<PieceModel>,
    b: Seq<PieceModel>,
    mark: crate::render::TextStyle,
    offset: int,
)
    ensures
        marked_starts(a + b, mark, offset) == marked_starts(a, mark, offset) + marked_starts(
            b,
            mark,
            offset + pieces_text(a).len(),
        ),
    decreases a.len(),
{
    if a.len() == 0 {
        assert(a + b =~= b);
        assert(marked_starts(a, mark, offset) =~= Seq::<int>::empty());
        assert(Seq::<int>::empty() + marked_starts(b, mark, offset) =~= marked_starts(b, mark, offset));
    } else {
        assert((a + b).drop_first() =~= a.drop_first() + b);
        assert((a + b)[0] == a[0]);
        lemma_marked_starts_concat(a.drop_first(), b, mark, offset + a[0].0.len());
        assert(pieces_text(a).len() == a[0].0.len() + pieces_text(a.drop_first()).len());
        if a[0].2 == mark {
            assert(seq![offset] + (marked_starts(a.drop_first(), mark, offset + a[0].0.len())
                + marked_starts(b, mark, offset + pieces_text(a).len())) =~= (seq![offset]
                + marked_starts(a.drop_first(), mark, offset + a[0].0.len())) + marked_starts(
                b,
                mark,
                offset + pieces_text(a).len(),
            ));
        }
    }
}

/// Search marks fall exactly on the matches found left to right: the marked
/// pieces start where the greedy left-to-right matches start, each holds the
/// search text, and every other piece keeps the given style.
pub proof fn lemma_marks_are_left_to_right_matches(
    t: Seq<char>,
    n: Seq<char>,
    from: int,
    lead: u32,
    fmt: crate::render::TextStyle,
)
    requires
        n.len() > 0,
        0 <= from <= t.len(),
        fmt != crate::render::marked(fmt),
    ensures
        marked_starts(spec_highlight(t, n, from, lead, fmt), crate::render::marked(fmt), from)
            == greedy_matches(t, n, from),
        forall|i: int|
            0 <= i < spec_highlight(t, n, from, lead, fmt).len() ==> {
                ||| (#[trigger] spec_highlight(t, n, from, lead, fmt)[i]).2 == fmt
                ||| (spec_highlight(t, n, from, lead, fmt)[i].2 == crate::render::marked(fmt)
                    && spec_highlight(t, n, from, lead, fmt)[i].0 == n)
            },
    decreases t.len() - from,
{
    let mark = crate::render::marked(fmt);
    let h = spec_highlight(t, n, from, lead, fmt);
    lemma_next_match(t, n, from);
    match crate::render::spec_next_match(t, n, from) {
        None => {
            let last = t.subrange(from, t.len() as int);
            assert(h == seq![(last, lead, fmt)]);
            assert(h.drop_first() =~= Seq::<PieceModel>::empty());
            assert(h[0].2 == fmt);
            assert(marked_starts(h.drop_first(), mark, from + h[0].0.len()) =~= Seq::<int>::empty());
            assert(marked_starts(h, mark, from) =~= Seq::<int>::empty());
        },
        Some(i) => {
            let prefix = t.subrange(from, i);
            let head: Seq<PieceModel> = if prefix.len() > 0 {
                seq![(prefix, lead, fmt)]
            } else {
                seq![]
            };
            let lead2: u32 = if prefix.len() > 0 {
                0
            } else {
                lead
            };
            let mid: Seq<PieceModel> = seq![(t.subrange(i, i + n.len()), lead2, mark)];
            let rest = spec_highlight(t, n, i + n.len(), 0, fmt);
            lemma_marks_are_left_to_right_matches(t, n, i + n.len(), 0, fmt);
            assert(h == head + mid + rest);
            lemma_marked_starts_concat(head + mid, rest, mark, from);
            lemma_marked_starts_concat(head, mid, mark, from);
            lemma_pieces_text_concat(head, mid);
            lemma_pieces_text_single(mid[0]);
            assert(mid =~= seq![mid[0]]);
            assert(mid.drop_first() =~= Seq::<PieceModel>::empty());
            if prefix.len() > 0 {
                lemma_pieces_text_single((prefix, lead, fmt));
                assert(head.drop_first() =~= Seq::<PieceModel>::empty());
                assert(head[0].2 == fmt);
                assert(marked_starts(head.drop_first(), mark, from + head[0].0.len()) =~= Seq::<int>::empty());
                assert(marked_starts(head, mark, from) =~= Seq::<int>::empty());
            } else {
                assert(pieces_text(head) =~= Seq::<char>::empty());
                assert(marked_starts(head, mark, from) =~= Seq::<int>::empty());
            }
            assert(pieces_text(head).len() == i - from);
            assert(mid[0].2 == mark);
            assert(marked_starts(mid.drop_first(), mark, i + mid[0].0.len()) =~= Seq::<int>::empty());
            assert(marked_starts(mid, mark, i) =~= seq![i]);
            lemma_pieces_text_concat(head, mid);
            assert(pieces_text(head + mid).len() == i - from + n.len());
            assert(marked_starts(h, mark, from) =~= seq![i] + greedy_matches(t, n, i + n.len()));
            assert(t.subrange(i, i + n.len()) == n);
            assert forall|k: int| 0 <= k < h.len() implies {
                ||| (#[trigger] h[k]).2 == fmt
                ||| (h[k].2 == mark && h[k].0 == n)
            } by {
                let hm = head + mid;
                if k < head.len() {
                    assert(h[k] == head[k]);
                } else if k < hm.len() {
                    assert(h[k] == hm[k]);
                    assert(hm[k] == mid[k - head.len()]);
                } else {
                    assert(h[k] == rest[k - hm.len()]);
                }
            }
        },
    }
}

/// With no search text, a text is one piece in the given style.
pub proof fn lemma_no_search_one_piece(t: Seq<char>, n: Seq<char>, lead: u32, fmt: crate::render::TextStyle)
    requires
        n.len() == 0,
    ensures
        spec_highlight(t, n, 0, lead, fmt) == seq![(t, lead, fmt)],
{
    assert(t.subrange(0, t.len() as int) =~= t);
}

/// The matches found left to right are matches, do not overlap, and leave
/// no match unfound in the gaps before, between and after them.
pub proof fn lemma_greedy_matches_are_leftmost(t: Seq<char>, n: Seq<char>, from: int)
    requires
        n.len() > 0,
        0 <= from <= t.len(),
    ensures
        ({
            let g = greedy_matches(t, n, from);
            &&& forall|k: int| 0 <= k < g.len() ==> from <= #[trigger] g[k] && crate::render::match_at(t, n, g[k])
            &&& forall|k: int| 0 <= k && k + 1 < g.len() ==> #[trigger] g[k] + n.len() <= g[k + 1]
            &&& forall|j: int| from <= j && (g.len() == 0 || j < g[0]) ==> !#[trigger] crate::render::match_at(t, n, j)
            &&& forall|k: int, j: int|
                #![trigger crate::render::match_at(t, n, j), g[k]]
                0 <= k < g.len() && g[k] + n.len() <= j && (k + 1 == g.len() || j < g[k + 1])
                    ==> !crate::render::match_at(t, n, j)
        }),
    decreases t.len() - from,
{
    let g = greedy_matches(t, n, from);
    lemma_next_match(t, n, from);
    match crate::render::spec_next_match(t, n, from) {
        None => {},
        Some(i) => {
            lemma_greedy_matches_are_leftmost(t, n, i + n.len());
            let r = greedy_matches(t, n, i + n.len());
            assert(g == seq![i] + r);
            assert forall|k: int| 0 <= k < g.len() implies from <= #[trigger] g[k] && crate::render::match_at(t, n, g[k]) by {
                if k > 0 {
                    assert(g[k] == r[k - 1]);
                }
            }
            assert forall|k: int| 0 <= k && k + 1 < g.len() implies #[trigger] g[k] + n.len() <= g[k + 1] by {
                assert(g[k + 1] == r[k]);
                if k > 0 {
                    assert(g[k] == r[k - 1]);
                }
            }
            assert forall|k: int, j: int|
                #![trigger crate::render::match_at(t, n, j), g[k]]
                0 <= k < g.len() && g[k] + n.len() <= j && (k + 1 == g.len() || j < g[k + 1])
                implies !crate::render::match_at(t, n, j) by {
                if k == 0 {
                    if r.len() > 0 {
                        assert(g[1] == r[0]);
                    }
                } else {
                    assert(g[k] == r[k - 1]);
                    if k + 1 < g.len() {
                        assert(g[k + 1] == r[k]);
                    }
                }
            }
        },
    }
}


/// The text of a value in an object: a string, `true`, `false` or a run of
/// digits.
pub open spec fn is_value_text(v: Seq<char>) -> bool {
    ||| (v.len() >= 2 && v[0] == '"' && v[v.len() - 1] == '"' && is_raw_string(
        v.subrange(1, v.len() - 1),
    ))
    ||| v == seq!['t', 'r', 'u', 'e']
    ||| v == seq!['f', 'a', 'l', 's', 'e']
    ||| (v.len() > 0 && forall|i: int| 0 <= i < v.len() ==> is_ascii_digit(#[trigger] v[i]))
}

/// What the text of a value is read as: a string's inside unescaped, any
/// other value as written.
pub open spec fn value_of(v: Seq<char>) -> Seq<char> {
    if v.len() >= 2 && v[0] == '"' {
        unescape(v.subrange(1, v.len() - 1))
    } else {
        v
    }
}

/// An entry of an object as written: its key's inside and its value's text.
pub type EntryText = (Seq<char>, Seq<char>);

/// `"key":value`.
pub open spec fn entry_text(e: EntryText) -> Seq<char> {
    seq!['"'] + e.0 + seq!['"', ':'] + e.1
}

/// The entries separated by commas, then the closing brace.
pub open spec fn entries_text(es: Seq<EntryText>) -> Seq<char>
    decreases es.len(),
{
    if es.len() == 0 {
        seq!['}']
    } else if es.len() == 1 {
        entry_text(es[0]) + seq!['}']
    } else {
        entry_text(es[0]) + seq![','] + entries_text(es.drop_first())
    }
}

/// The key and value that an entry is read as.
pub open spec fn decoded(e: EntryText) -> Pair {
    (unescape(e.0), value_of(e.1))
}

/// The pairs an object keeps, the last entry first: every entry but a
/// captured name.
pub open spec fn kept_reversed(es: Seq<EntryText>, capture_name: bool) -> Seq<Pair>
    decreases es.len(),
{
    if es.len() == 0 {
        Seq::empty()
    } else if is_captured(capture_name, decoded(es[0]).0) {
        kept_reversed(es.drop_first(), capture_name)
    } else {
        kept_reversed(es.drop_first(), capture_name) + seq![decoded(es[0])]
    }
}

/// The name an object leaves: the value of its last captured `name` entry,
/// or the name it was given.
pub open spec fn last_name(es: Seq<EntryText>, capture_name: bool, name: Option<Seq<char>>) -> Option<
    Seq<char>,
>
    decreases es.len(),
{
    if es.len() == 0 {
        name
    } else if is_captured(capture_name, decoded(es[0]).0) {
        last_name(es.drop_first(), capture_name, Some(decoded(es[0]).1))
    } else {
        last_name(es.drop_first(), capture_name, name)
    }
}

proof fn lemma_expect_all_reads(s: Seq<char>, p: int, w: Seq<char>)
    requires
        0 <= p,
        p + w.len() <= s.len(),
        s.subrange(p, p + w.len()) == w,
    ensures
        spec_expect_all(s, p, w) == Ok::<int, crate::grammar::Failure>(p + w.len()),
    decreases w.len(),
{
    if w.len() > 0 {
        assert(s[p] == s.subrange(p, p + w.len())[0]);
        assert(s.subrange(p + 1, p + w.len()) =~= w.drop_first());
        lemma_expect_all_reads(s, p + 1, w.drop_first());
    }
}

proof fn lemma_digits_end_at(s: Seq<char>, a: int, b: int)
    requires
        0 <= a <= b < s.len(),
        forall|i: int| a <= i < b ==> is_ascii_digit(#[trigger] s[i]),
        !is_ascii_digit(s[b]),
    ensures
        spec_digits_end(s, a) == b,
    decreases b - a,
{
    if a < b {
        lemma_digits_end_at(s, a + 1, b);
    }
}

/// A value's text, followed by a comma or a closing brace, reads as what it
/// stands for and stops at that character.
proof fn lemma_value_reads(pre: Seq<char>, v: Seq<char>, c: char, rest: Seq<char>)
    requires
        is_value_text(v),
        c == ',' || c == '}',
    ensures
        spec_dict_value(pre + v + seq![c] + rest, pre.len() as int) == Ok::<
            (Seq<char>, int),
            crate::grammar::Failure,
        >((value_of(v), pre.len() + v.len() as int)),
{
    let s = pre + v + seq![c] + rest;
    let p = pre.len() as int;
    reveal_strlit("true");
    reveal_strlit("false");
    assert(s.subrange(p, p + v.len()) =~= v);
    assert(s[p] == v[0]);
    if v.len() >= 2 && v[0] == '"' && v[v.len() - 1] == '"' && is_raw_string(v.subrange(1, v.len() - 1)) {
        let r = v.subrange(1, v.len() - 1);
        assert(s =~= (pre + seq!['"']) + r + seq!['"'] + (seq![c] + rest));
        lemma_string_body_reads_raw(pre + seq!['"'], r, seq![c] + rest);
    } else if v == seq!['t', 'r', 'u', 'e'] {
        assert("true"@ =~= v);
        assert(s.subrange(p + 1, p + 4) =~= seq!['r', 'u', 'e']);
        lemma_expect_all_reads(s, p + 1, seq!['r', 'u', 'e']);
    } else if v == seq!['f', 'a', 'l', 's', 'e'] {
        assert("false"@ =~= v);
        assert(s.subrange(p + 1, p + 5) =~= seq!['a', 'l', 's', 'e']);
        lemma_expect_all_reads(s, p + 1, seq!['a', 'l', 's', 'e']);
    } else {
        assert forall|i: int| p + 1 <= i < p + v.len() implies is_ascii_digit(#[trigger] s[i]) by {
            assert(s[i] == v[i - p]);
        }
        assert(s[p + v.len()] == c);
        lemma_digits_end_at(s, p + 1, p + v.len());
        assert(is_ascii_digit(v[0]));
    }
}

/// What one entry leaves the list and the name as.
pub open spec fn after_entry(e: EntryText, acc: Seq<Pair>, name: Option<Seq<char>>, capture_name: bool) -> (
    Seq<Pair>,
    Option<Seq<char>>,
) {
    if is_captured(capture_name, decoded(e).0) {
        (acc, Some(decoded(e).1))
    } else {
        (seq![decoded(e)] + acc, name)
    }
}

/// One entry, followed by a comma or the closing brace, is read as written.
#[verifier::rlimit(40)]
proof fn lemma_entry_step(
    pre: Seq<char>,
    e: EntryText,
    sep: char,
    tail: Seq<char>,
    acc: Seq<Pair>,
    name: Option<Seq<char>>,
    capture_name: bool,
)
    requires
        is_raw_string(e.0),
        is_value_text(e.1),
        sep == ',' || sep == '}',
    ensures
        ({
            let s = pre + entry_text(e) + seq![sep] + tail;
            let q = pre.len() + entry_text(e).len() + 1 as int;
            let (acc2, name2) = after_entry(e, acc, name, capture_name);
            crate::grammar::spec_dict_entries(s, pre.len() as int, acc, name, capture_name) == if sep
                == '}' {
                Ok::<crate::grammar::DictState, (crate::grammar::ParseFailure, crate::grammar::DictState)>(
                    (acc2, name2, q),
                )
            } else {
                crate::grammar::spec_dict_entries(s, q, acc2, name2, capture_name)
            }
        }),
{
    let s = pre + entry_text(e) + seq![sep] + tail;
    let p = pre.len() as int;
    let k = e.0;
    let v = e.1;
    assert(s =~= (pre + seq!['"']) + k + seq!['"'] + (seq![':'] + v + seq![sep] + tail));
    assert(s[p] == '"');
    lemma_string_body_reads_raw(pre + seq!['"'], k, seq![':'] + v + seq![sep] + tail);
    let q0 = p + 1 + k.len() + 1;
    assert(s[q0] == ':');
    assert(s =~= (pre + seq!['"'] + k + seq!['"', ':']) + v + seq![sep] + tail);
    lemma_value_reads(pre + seq!['"'] + k + seq!['"', ':'], v, sep, tail);
    let q2 = q0 + 1 + v.len();
    assert(s[q2] == sep);
    assert(entry_text(e).len() == k.len() + v.len() + 3);
}

/// The entries of an object after its opening brace read as the pairs
/// written, each key and value decoded, and reading stops just after the
/// closing brace.
proof fn lemma_entries_read(
    pre: Seq<char>,
    es: Seq<EntryText>,
    rest: Seq<char>,
    acc: Seq<Pair>,
    name: Option<Seq<char>>,
    capture_name: bool,
)
    requires
        es.len() >= 1,
        forall|i: int| 0 <= i < es.len() ==> is_raw_string((#[trigger] es[i]).0) && is_value_text(es[i].1),
    ensures
        crate::grammar::spec_dict_entries(pre + entries_text(es) + rest, pre.len() as int, acc, name, capture_name)
            == Ok::<crate::grammar::DictState, (crate::grammar::ParseFailure, crate::grammar::DictState)>(
            (
                kept_reversed(es, capture_name) + acc,
                last_name(es, capture_name, name),
                pre.len() + entries_text(es).len() as int,
            ),
        ),
    decreases es.len(),
{
    let e = es[0];
    let (acc2, name2) = after_entry(e, acc, name, capture_name);
    if es.len() == 1 {
        assert(entries_text(es) == entry_text(e) + seq!['}']);
        assert(pre + entries_text(es) + rest =~= pre + entry_text(e) + seq!['}'] + rest);
        lemma_entry_step(pre, e, '}', rest, acc, name, capture_name);
        assert(es.drop_first() =~= Seq::<EntryText>::empty());
        assert(kept_reversed(es.drop_first(), capture_name) =~= Seq::<Pair>::empty());
        assert(last_name(es.drop_first(), capture_name, name2) == name2);
        assert(last_name(es, capture_name, name) == name2);
        assert(kept_reversed(es, capture_name) + acc =~= acc2);
    } else {
        let more = es.drop_first();
        assert(entries_text(es) == entry_text(e) + seq![','] + entries_text(more));
        let pre2 = pre + entry_text(e) + seq![','];
        assert(pre + entries_text(es) + rest =~= pre + entry_text(e) + seq![','] + (entries_text(more)
            + rest));
        assert(pre + entries_text(es) + rest =~= pre2 + entries_text(more) + rest);
        lemma_entry_step(pre, e, ',', entries_text(more) + rest, acc, name, capture_name);
        assert forall|i: int| 0 <= i < more.len() implies is_raw_string((#[trigger] more[i]).0)
            && is_value_text(more[i].1) by {
            assert(more[i] == es[i + 1]);
        }
        lemma_entries_read(pre2, more, rest, acc2, name2, capture_name);
        assert(kept_reversed(es, capture_name) + acc =~= kept_reversed(more, capture_name) + acc2);
    }
}

/// An object written as entries `"k_1":v_1,...,"k_n":v_n` (no spaces, at
/// least one entry, keys and string values escaped, values strings, `true`,
/// `false` or digits) reads as its pairs, each key and value decoded: the
/// pairs not captured as the name are put in front of those the list held,
/// the last one first; the name is the last captured one; reading stops just
/// after the closing brace, whatever follows.
pub proof fn lemma_dict_reads_entries(
    es: Seq<EntryText>,
    rest: Seq<char>,
    acc: Seq<Pair>,
    name: Option<Seq<char>>,
    capture_name: bool,
)
    requires
        es.len() >= 1,
        forall|i: int| 0 <= i < es.len() ==> is_raw_string((#[trigger] es[i]).0) && is_value_text(es[i].1),
    ensures
        crate::grammar::spec_dict(seq!['{'] + entries_text(es) + rest, 0, acc, name, capture_name)
            == Ok::<crate::grammar::DictState, (crate::grammar::ParseFailure, crate::grammar::DictState)>(
            (
                kept_reversed(es, capture_name) + acc,
                last_name(es, capture_name, name),
                1 + entries_text(es).len() as int,
            ),
        ),
{
    lemma_entries_read(seq!['{'], es, rest, acc, name, capture_name);
}


/// The pairs an object read leaves behind, whether it ended well or not.
pub open spec fn dict_pairs(
    r: Result<crate::grammar::DictState, (crate::grammar::ParseFailure, crate::grammar::DictState)>,
) -> Seq<Pair> {
    match r {
        Ok((l, _, _)) => l,
        Err((_, (l, _, _))) => l,
    }
}

/// Everything else an object read gives: the failure, if any, the captured
/// name and where reading stopped.
pub open spec fn dict_rest(
    r: Result<crate::grammar::DictState, (crate::grammar::ParseFailure, crate::grammar::DictState)>,
) -> (Option<crate::grammar::ParseFailure>, Option<Seq<char>>, int) {
    match r {
        Ok((_, n, q)) => (None, n, q),
        Err((e, (_, n, q))) => (Some(e), n, q),
    }
}

proof fn lemma_entries_keep_given_list(
    s: Seq<char>,
    p: int,
    acc: Seq<Pair>,
    name: Option<Seq<char>>,
    capture_name: bool,
)
    ensures
        dict_pairs(crate::grammar::spec_dict_entries(s, p, acc, name, capture_name)) == dict_pairs(
            crate::grammar::spec_dict_entries(s, p, Seq::empty(), name, capture_name),
        ) + acc,
        dict_rest(crate::grammar::spec_dict_entries(s, p, acc, name, capture_name)) == dict_rest(
            crate::grammar::spec_dict_entries(s, p, Seq::empty(), name, capture_name),
        ),
        forall|i: int|
            0 <= i < dict_pairs(
                crate::grammar::spec_dict_entries(s, p, Seq::empty(), name, capture_name),
            ).len() ==> !is_captured(
                capture_name,
                (#[trigger] dict_pairs(
                    crate::grammar::spec_dict_entries(s, p, Seq::empty(), name, capture_name),
                )[i]).0,
            ),
    decreases s.len() - p,
{
    let e: Seq<Pair> = Seq::empty();
    match crate::grammar::spec_string(s, p) {
        Err(_) => {
            assert(e + acc =~= acc);
        },
        Ok((key, q0)) => match crate::grammar::spec_expect(s, q0, ':') {
            Err(_) => {
                assert(e + acc =~= acc);
            },
            Ok(q1) => match spec_dict_value(s, q1) {
                Err(_) => {
                    assert(e + acc =~= acc);
                },
                Ok((value, q2)) => {
                    let fresh: Seq<Pair> = if is_captured(capture_name, key) {
                        e
                    } else {
                        seq![(key, value)]
                    };
                    assert(fresh + acc =~= (if is_captured(capture_name, key) {
                        acc
                    } else {
                        seq![(key, value)] + acc
                    }));
                    assert(fresh + e =~= fresh);
                    if 0 <= q2 < s.len() && s[q2] == ',' {
                        crate::grammar::lemma_string_advances(s, p);
                        crate::grammar::lemma_dict_value_advances(s, q1);
                        let name2 = if is_captured(capture_name, key) {
                            Some(value)
                        } else {
                            name
                        };
                        lemma_entries_keep_given_list(s, q2 + 1, fresh + acc, name2, capture_name);
                        lemma_entries_keep_given_list(s, q2 + 1, fresh, name2, capture_name);
                        let x = dict_pairs(
                            crate::grammar::spec_dict_entries(s, q2 + 1, e, name2, capture_name),
                        );
                        assert(x + (fresh + acc) =~= (x + fresh) + acc);
                        assert forall|i: int| 0 <= i < (x + fresh).len() implies !is_captured(
                            capture_name,
                            (#[trigger] (x + fresh)[i]).0,
                        ) by {
                            if i >= x.len() {
                                assert((x + fresh)[i] == fresh[i - x.len()]);
                            }
                        }
                    }
                },
            },
        },
    }
}

/// Reading an object never touches the list it was given: whatever the text,
/// and whether the read succeeds or fails, the list it leaves is the pairs it
/// read (last read first, none of them a captured `name`) followed by the
/// given list unchanged; the failure, the name and where reading stops do
/// not depend on that list.
pub proof fn lemma_dict_keeps_given_list(
    s: Seq<char>,
    p: int,
    acc: Seq<Pair>,
    name: Option<Seq<char>>,
    capture_name: bool,
)
    ensures
        dict_pairs(crate::grammar::spec_dict(s, p, acc, name, capture_name)) == dict_pairs(
            crate::grammar::spec_dict(s, p, Seq::empty(), name, capture_name),
        ) + acc,
        dict_rest(crate::grammar::spec_dict(s, p, acc, name, capture_name)) == dict_rest(
            crate::grammar::spec_dict(s, p, Seq::empty(), name, capture_name),
        ),
        forall|i: int|
            0 <= i < dict_pairs(crate::grammar::spec_dict(s, p, Seq::empty(), name, capture_name)).len()
                ==> !is_captured(
                capture_name,
                (#[trigger] dict_pairs(
                    crate::grammar::spec_dict(s, p, Seq::empty(), name, capture_name),
                )[i]).0,
            ),
{
    match crate::grammar::spec_expect(s, p, '{') {
        Ok(q) => {
            lemma_entries_keep_given_list(s, q, acc, name, capture_name);
        },
        Err(_) => {
            assert(Seq::<Pair>::empty() + acc =~= acc);
        },
    }
}


/// The pairs kept when nothing is captured are all the entries, decoded, the
/// last one first.
pub proof fn lemma_kept_reversed_all(es: Seq<EntryText>)
    ensures
        kept_reversed(es, false).len() == es.len(),
        forall|i: int|
            0 <= i < es.len() ==> #[trigger] kept_reversed(es, false)[i] == decoded(es[es.len() - 1 - i]),
    decreases es.len(),
{
    if es.len() > 0 {
        let more = es.drop_first();
        lemma_kept_reversed_all(more);
        assert(!is_captured(false, decoded(es[0]).0));
        assert forall|i: int| 0 <= i < es.len() implies #[trigger] kept_reversed(es, false)[i] == decoded(
            es[es.len() - 1 - i],
        ) by {
            if i < more.len() {
                assert(kept_reversed(es, false)[i] == kept_reversed(more, false)[i]);
                assert(more[more.len() - 1 - i] == es[es.len() - 1 - i]);
            }
        }
    }
}

/// The `fields` of a line keep every entry written in them, whatever its key
/// (a `name` entry among them too): an object of entries (written as
/// `lemma_dict_reads_entries` asks) read as the value of `fields` puts all
/// of them, decoded and the last one first, in front of the fields read
/// before, changes no other part, and stops just after its closing brace.
pub proof fn lemma_fields_keep_every_entry(
    pre: Seq<char>,
    es: Seq<EntryText>,
    rest: Seq<char>,
    m: MessageModel,
)
    requires
        es.len() >= 1,
        forall|i: int| 0 <= i < es.len() ==> is_raw_string((#[trigger] es[i]).0) && is_value_text(es[i].1),
    ensures
        crate::grammar::spec_field_value(
            pre + seq!['{'] + entries_text(es) + rest,
            pre.len() as int,
            "fields"@,
            m,
        ) == Ok::<(MessageModel, int), crate::grammar::Failure>(
            (
                MessageModel { fields: kept_reversed(es, false) + m.fields, ..m },
                pre.len() + 1 + entries_text(es).len() as int,
            ),
        ),
        kept_reversed(es, false).len() == es.len(),
        forall|i: int|
            0 <= i < es.len() ==> #[trigger] kept_reversed(es, false)[i] == decoded(es[es.len() - 1 - i]),
{
    reveal_strlit("fields");
    reveal_strlit("timestamp");
    reveal_strlit("level");
    let s = pre + seq!['{'] + entries_text(es) + rest;
    assert(s[pre.len() as int] == '{');
    assert("fields"@[0] == 'f' && "timestamp"@[0] == 't' && "level"@[0] == 'l');
    lemma_entries_read(pre + seq!['{'], es, rest, m.fields, None, false);
    lemma_kept_reversed_all(es);
}

#[verifier::rlimit(40)]
/// A line that holds only its `fields` keeps every entry written there, the
/// last one first, and nothing else of the message is set.
pub proof fn lemma_line_of_fields(es: Seq<EntryText>, rest: Seq<char>)
    requires
        es.len() >= 1,
        forall|i: int| 0 <= i < es.len() ==> is_raw_string((#[trigger] es[i]).0) && is_value_text(es[i].1),
    ensures
        crate::grammar::spec_message(
            "{\"fields\":"@ + seq!['{'] + entries_text(es) + seq!['}'] + rest,
            0,
        ) == Ok::<(MessageModel, int), crate::grammar::Failure>(
            (
                MessageModel { fields: kept_reversed(es, false), ..crate::grammar::empty_message() },
                12 + entries_text(es).len() as int,
            ),
        ),
{
    reveal_strlit("{\"fields\":");
    reveal_strlit("fields");
    let head = "{\"fields\":"@;
    let s = head + seq!['{'] + entries_text(es) + seq!['}'] + rest;
    let key = "fields"@;
    assert(head =~= seq!['{', '"'] + key + seq!['"', ':']);
    assert(is_raw_string(key)) by {
        reveal_with_fuel(is_raw_string, 7);
    }
    assert(unescape(key) == key) by {
        reveal_with_fuel(unescape, 7);
    }
    assert(s =~= seq!['{', '"'] + key + seq!['"'] + (seq![':', '{'] + entries_text(es) + seq!['}'] + rest));
    lemma_string_body_reads_raw(seq!['{', '"'], key, seq![':', '{'] + entries_text(es) + seq!['}'] + rest);
    assert(s[0] == '{');
    assert(s[1] == '"');
    assert(s[9] == ':');
    assert(s =~= head + seq!['{'] + entries_text(es) + (seq!['}'] + rest));
    assert(crate::grammar::spec_string(s, 1) == Ok::<(Seq<char>, int), crate::grammar::Failure>((key, 9)));
    assert(crate::grammar::spec_expect(s, 9, ':') == Ok::<int, crate::grammar::Failure>(10));
    lemma_fields_keep_every_entry(head, es, seq!['}'] + rest, crate::grammar::empty_message());
    let q2 = 11 + entries_text(es).len() as int;
    assert(s[q2] == '}');
    let m2 = MessageModel { fields: kept_reversed(es, false), ..crate::grammar::empty_message() };
    assert(kept_reversed(es, false) + Seq::<Pair>::empty() =~= kept_reversed(es, false));
    assert(crate::grammar::spec_field_value(s, 10, key, crate::grammar::empty_message()) == Ok::<
        (MessageModel, int),
        crate::grammar::Failure,
    >((m2, q2)));
    assert(crate::grammar::spec_message_fields(s, 1, crate::grammar::empty_message()) == Ok::<
        (MessageModel, int),
        crate::grammar::Failure,
    >((m2, q2 + 1)));
}

} // verus!
