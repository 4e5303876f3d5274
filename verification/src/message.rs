//! Messages of the log: their place in the tree of entered spans, which of
//! them the filters let through, and which of them a search finds.

use vstd::prelude::*;
use bumpalo::Bump;
use crate::grammar::{Pair, SpanModel, MessageModel, spec_message};
use crate::list::{LinkedList, JsonMap, pairs_view};
use crate::palette::LogSpan;
use crate::parser::{opt_view, ParsedMessage, Span, ParseError, custom_parse, failure_text, spans_view};
use crate::strings::{seq_contains, str_contains, str_eq};

verus! {

/// Whether a message enters or leaves a span.
#[derive(Clone, Copy, Debug, PartialEq, Eq, Structural)]
pub enum HopMessageKind {
    Enter,
    Exit,
}

/// A message enters or leaves a span when its only field is `message` and
/// that field says `enter` or `exit`.
pub open spec fn spec_hop(fields: Seq<Pair>) -> Option<HopMessageKind> {
    if fields.len() == 1 && fields[0].0 == "message"@ {
        if fields[0].1 == "enter"@ {
            Some(HopMessageKind::Enter)
        } else if fields[0].1 == "exit"@ {
            Some(HopMessageKind::Exit)
        } else {
            None
        }
    } else {
        None
    }
}

/// The value of the only field, when that field is `message`.
pub open spec fn single_message_field(fields: Seq<Pair>) -> Option<Seq<char>> {
    if fields.len() == 1 && fields[0].0 == "message"@ {
        Some(fields[0].1)
    } else {
        None
    }
}

/// The value of the only pair of `map`, when its key is `message`.
pub fn single_message<'b>(map: &'b JsonMap<'b>) -> (r: Option<&'b str>)
    ensures
        opt_view(r) == single_message_field(pairs_view(map)),
{
    match map {
        LinkedList::Cons { next, item } => {
            match next {
                LinkedList::Cons { next: next2, item: item2 } => {
                    assert(map.items() == seq![*item] + next.items());
                    assert(next.items() == seq![*item2] + next2.items());
                    assert(pairs_view(map).len() >= 2);
                    None
                },
                LinkedList::Empty => {
                    assert(map.items() == seq![*item] + next.items());
                    assert(map.items() =~= seq![*item]);
                    assert(pairs_view(map) =~= seq![(item.0@, item.1@)]);
                    if str_eq(item.0, "message") {
                        Some(item.1)
                    } else {
                        None
                    }
                },
            }
        },
        LinkedList::Empty => None,
    }
}

impl<'b> ParsedMessage<'b> {
    /// Whether the line enters or leaves a span.
    pub fn hop_message(&self) -> (r: Option<HopMessageKind>)
        ensures
            r == spec_hop(self.model().fields),
    {
        match single_message(self.fields) {
            Some(value) => {
                if str_eq(value, "enter") {
                    Some(HopMessageKind::Enter)
                } else if str_eq(value, "exit") {
                    Some(HopMessageKind::Exit)
                } else {
                    None
                }
            },
            None => None,
        }
    }
}

/// Whether the key or the value of a pair holds `needle`.
pub open spec fn pair_matches(p: Pair, needle: Seq<char>) -> bool {
    seq_contains(p.0, needle) || seq_contains(p.1, needle)
}

/// Whether some pair holds `needle`.
pub open spec fn spec_dict_matches(pairs: Seq<Pair>, needle: Seq<char>) -> bool {
    exists|i: int| 0 <= i < pairs.len() && #[trigger] pair_matches(pairs[i], needle)
}

/// Whether a span's name or one of its pairs holds `needle`.
pub open spec fn spec_span_matches(span: SpanModel, needle: Seq<char>) -> bool {
    (span.name matches Some(n) && seq_contains(n, needle)) || spec_dict_matches(span.map, needle)
}

/// Whether one of the spans holds `needle`.
pub open spec fn spec_spans_match(spans: Seq<SpanModel>, needle: Seq<char>) -> bool {
    exists|i: int| 0 <= i < spans.len() && #[trigger] spec_span_matches(spans[i], needle)
}

/// Whether a key or a value of `map` holds `search`.
pub fn dict_matches_search(map: &JsonMap, search: &str) -> (r: bool)
    ensures
        r == spec_dict_matches(pairs_view(map), search@),
{
    let ghost all = pairs_view(map);
    let mut it = map.iter();
    let ghost mut done: int = 0;
    loop
        invariant
            0 <= done <= all.len(),
            all == pairs_view(map),
            it.remaining().map_values(|kv: (&str, &str)| (kv.0@, kv.1@)) == all.skip(done),
            forall|i: int| 0 <= i < done ==> !pair_matches(#[trigger] all[i], search@),
        decreases it.remaining().len(),
    {
        let ghost before = it.remaining();
        match it.next() {
            None => {
                assert(all.skip(done).len() == 0);
                return false;
            },
            Some(kv) => {
                assert(before.map_values(|kv: (&str, &str)| (kv.0@, kv.1@))[0] == (kv.0@, kv.1@));
                assert(before.len() > 0);
                assert(all.skip(done).len() == before.len());
                assert(done < all.len());
                assert(all.skip(done)[0] == all[done]);
                if str_contains(kv.0, search) || str_contains(kv.1, search) {
                    assert(pair_matches(all[done], search@));
                    return true;
                }
                proof {
                    let f = |kv: (&str, &str)| (kv.0@, kv.1@);
                    assert forall|j: int| 0 <= j < it.remaining().len() implies #[trigger] it.remaining().map_values(f)[j] == all.skip(done + 1)[j] by {
                        assert(before.map_values(f)[j + 1] == f(before[j + 1]));
                        assert(all.skip(done)[j + 1] == all[done + 1 + j]);
                    }
                    assert(it.remaining().map_values(f) =~= all.skip(done + 1));
                    done = done + 1;
                }
            },
        }
    }
}

/// Whether the name or a key or value of `map` holds `search`.
pub fn span_matches_search(map: &Span, search: &str) -> (r: bool)
    ensures
        r == spec_span_matches(map.model(), search@),
{
    let name_matches = match map.name {
        Some(n) => str_contains(n, search),
        None => false,
    };
    name_matches || dict_matches_search(map.map, search)
}

/// Whether one of the spans of `list` holds `search`.
pub fn spans_match_search(list: &LinkedList<Span>, search: &str) -> (r: bool)
    ensures
        r == spec_spans_match(spans_view(list), search@),
{
    let ghost all = spans_view(list);
    let mut it = list.iter();
    let ghost mut done: int = 0;
    loop
        invariant
            0 <= done <= all.len(),
            all == spans_view(list),
            it.remaining().map_values(|sp: Span| sp.model()) == all.skip(done),
            forall|i: int| 0 <= i < done ==> !spec_span_matches(#[trigger] all[i], search@),
        decreases it.remaining().len(),
    {
        let ghost before = it.remaining();
        match it.next() {
            None => {
                assert(all.skip(done).len() == 0);
                return false;
            },
            Some(sp) => {
                assert(before.map_values(|sp: Span| sp.model())[0] == sp.model());
                assert(before.len() > 0);
                assert(all.skip(done).len() == before.len());
                assert(done < all.len());
                assert(all.skip(done)[0] == all[done]);
                if span_matches_search(sp, search) {
                    assert(spec_span_matches(all[done], search@));
                    return true;
                }
                proof {
                    let f = |sp: Span| sp.model();
                    assert forall|j: int| 0 <= j < it.remaining().len() implies #[trigger] it.remaining().map_values(f)[j] == all.skip(done + 1)[j] by {
                        assert(before.map_values(f)[j + 1] == f(before[j + 1]));
                        assert(all.skip(done)[j + 1] == all[done + 1 + j]);
                    }
                    assert(it.remaining().map_values(f) =~= all.skip(done + 1));
                    done = done + 1;
                }
            },
        }
    }
}


/// Whether a search finds a message: its timestamp, target, filename, line
/// number, fields, span or spans hold the search text.  (The level is not
/// searched.)
pub open spec fn spec_message_matches(m: MessageModel, search: Seq<char>) -> bool {
    seq_contains(m.timestamp, search) || seq_contains(m.target, search) || seq_contains(
        m.filename,
        search,
    ) || seq_contains(m.line_number, search) || spec_dict_matches(m.fields, search)
        || spec_span_matches(m.span, search) || spec_spans_match(m.spans, search)
}

/// What a filter looks at.
#[derive(Clone, Copy, Debug, PartialEq, Eq, Structural)]
pub enum FilterKind {
    Timestamp,
    Level,
    Fields,
    Target,
    Filename,
    LineNumber,
    SpanName,
    Spans,
}

/// Whether the part of `m` that `kind` looks at holds `needle`.
pub open spec fn spec_run(kind: FilterKind, m: MessageModel, needle: Seq<char>) -> bool {
    match kind {
        FilterKind::Timestamp => seq_contains(m.timestamp, needle),
        FilterKind::Level => seq_contains(m.level, needle),
        FilterKind::Fields => spec_dict_matches(m.fields, needle),
        FilterKind::Target => seq_contains(m.target, needle),
        FilterKind::Filename => seq_contains(m.filename, needle),
        FilterKind::LineNumber => seq_contains(m.line_number, needle),
        FilterKind::SpanName => m.span.name matches Some(n) && seq_contains(n, needle),
        FilterKind::Spans => spec_spans_match(m.spans, needle),
    }
}

pub open spec fn spec_kind_name(kind: FilterKind) -> Seq<char> {
    match kind {
        FilterKind::Timestamp => "timestamp"@,
        FilterKind::Level => "level"@,
        FilterKind::Fields => "fields"@,
        FilterKind::Target => "target"@,
        FilterKind::Filename => "filename"@,
        FilterKind::LineNumber => "line number"@,
        FilterKind::SpanName => "span name"@,
        FilterKind::Spans => "spans"@,
    }
}

impl FilterKind {
    /// Whether one of the strings of `message` that this kind looks at holds
    /// `needle`.
    pub fn run(&self, message: &Message, needle: &str) -> (r: bool)
        ensures
            r == spec_run(*self, message.parsed.model(), needle@),
    {
        let parsed = &message.parsed;
        match self {
            FilterKind::Timestamp => str_contains(parsed.timestamp, needle),
            FilterKind::Level => str_contains(parsed.level, needle),
            FilterKind::Fields => dict_matches_search(parsed.fields, needle),
            FilterKind::Target => str_contains(parsed.target, needle),
            FilterKind::Filename => str_contains(parsed.filename, needle),
            FilterKind::LineNumber => str_contains(parsed.line_number, needle),
            FilterKind::SpanName => match parsed.span.name {
                Some(n) => str_contains(n, needle),
                None => false,
            },
            FilterKind::Spans => spans_match_search(parsed.spans, needle),
        }
    }

    /// The name under which the kind is offered.
    pub fn name(&self) -> (r: &'static str)
        ensures
            r@ == spec_kind_name(*self),
    {
        match self {
            FilterKind::Timestamp => "timestamp",
            FilterKind::Level => "level",
            FilterKind::Fields => "fields",
            FilterKind::Target => "target",
            FilterKind::Filename => "filename",
            FilterKind::LineNumber => "line number",
            FilterKind::SpanName => "span name",
            FilterKind::Spans => "spans",
        }
    }

    /// Every kind, in the order in which they are offered.
    pub fn all() -> (r: [FilterKind; 8])
        ensures
            r@ == seq![
                FilterKind::Timestamp,
                FilterKind::Level,
                FilterKind::Fields,
                FilterKind::Target,
                FilterKind::Filename,
                FilterKind::LineNumber,
                FilterKind::SpanName,
                FilterKind::Spans,
            ],
    {
        let r = [
            FilterKind::Timestamp,
            FilterKind::Level,
            FilterKind::Fields,
            FilterKind::Target,
            FilterKind::Filename,
            FilterKind::LineNumber,
            FilterKind::SpanName,
            FilterKind::Spans,
        ];
        assert(r@ =~= seq![
            FilterKind::Timestamp,
            FilterKind::Level,
            FilterKind::Fields,
            FilterKind::Target,
            FilterKind::Filename,
            FilterKind::LineNumber,
            FilterKind::SpanName,
            FilterKind::Spans,
        ]);
        r
    }
}

/// A filter on messages: with `exclude`, the messages whose `kind` part holds
/// `filter` are hidden; without, only those are shown.  An empty filter lets
/// every message through.
pub struct Filter {
    pub kind: FilterKind,
    pub filter: String,
    pub exclude: bool,
}

/// Whether the filter lets a message through.
pub open spec fn spec_filter_matches(f: Filter, m: MessageModel) -> bool {
    f.filter@.len() == 0 || (f.exclude != spec_run(f.kind, m, f.filter@))
}

impl Filter {
    /// A filter that excludes by target, with no text yet.
    pub fn new() -> (f: Self)
        ensures
            f.kind == FilterKind::Target,
            f.filter@ == Seq::<char>::empty(),
            f.exclude,
    {
        Filter { kind: FilterKind::Target, filter: String::new(), exclude: true }
    }

    /// Whether the filter lets `message` through.
    pub fn matches(&self, message: &Message) -> (r: bool)
        ensures
            r == spec_filter_matches(*self, message.parsed.model()),
    {
        if self.filter.as_str().is_empty() {
            true
        } else {
            self.exclude != self.matches_raw(message)
        }
    }

    /// Whether the part of `message` that the filter looks at holds its text.
    pub fn matches_raw(&self, message: &Message) -> (r: bool)
        ensures
            r == spec_run(self.kind, message.parsed.model(), self.filter@),
    {
        self.kind.run(message, self.filter.as_str())
    }
}

/// What the viewer shows, searches and filters.
pub struct AppState {
    pub entering_search_text: bool,
    pub search: String,
    pub search_onscreen: bool,
    pub timestamps: bool,
    pub log_levels: bool,
    pub targets: bool,
    pub filters: Vec<Filter>,
}

impl AppState {
    /// Levels and targets shown, timestamps hidden, no search and no filter.
    pub fn new() -> (s: Self)
        ensures
            !s.entering_search_text,
            s.search@ == Seq::<char>::empty(),
            !s.search_onscreen,
            !s.timestamps,
            s.log_levels,
            s.targets,
            s.filters@ == Seq::<Filter>::empty(),
    {
        AppState {
            entering_search_text: false,
            search: String::new(),
            search_onscreen: false,
            timestamps: false,
            log_levels: true,
            targets: true,
            filters: Vec::new(),
        }
    }

    /// Whether there is a search and `s` holds it.
    pub fn matches_search(&self, s: &str) -> (r: bool)
        ensures
            r == (self.search@.len() > 0 && seq_contains(s@, self.search@)),
    {
        if self.search.as_str().is_empty() {
            false
        } else {
            str_contains(s, self.search.as_str())
        }
    }

    /// Whether there is a search and one of the spans of `list` holds it.
    pub fn vdict_matches_search(&self, list: &LinkedList<Span>) -> (r: bool)
        ensures
            r == (self.search@.len() > 0 && spec_spans_match(spans_view(list), self.search@)),
    {
        if self.search.as_str().is_empty() {
            false
        } else {
            spans_match_search(list, self.search.as_str())
        }
    }
}

/// What the reader has chosen to show of one message.
#[derive(Clone, Copy, Debug, PartialEq, Eq, Structural)]
pub struct MessageState {
    pub hide_children: bool,
    pub display_filename: bool,
    pub display_spans: bool,
}

impl Default for MessageState {
    fn default() -> (r: Self)
        ensures
            r == (MessageState { hide_children: false, display_filename: false, display_spans: false }),
    {
        MessageState { hide_children: false, display_filename: false, display_spans: false }
    }
}

/// One message of the log, with its place in the tree of entered spans.
pub struct Message<'b> {
    pub parsed: ParsedMessage<'b>,
    pub logparsed_message: Option<Box<Result<Vec<LogSpan>, String>>>,
    pub parent: Option<usize>,
    pub indent: usize,
    pub state: MessageState,
}

/// The last entry of the stack, if any.
pub open spec fn stack_top(stack: Seq<usize>) -> Option<usize> {
    if stack.len() > 0 {
        Some(stack.last())
    } else {
        None
    }
}

/// The stack after a message that leaves a span: its top is gone.
pub open spec fn stack_after_exit(stack: Seq<usize>, hop: Option<HopMessageKind>) -> Seq<usize> {
    if hop == Some(HopMessageKind::Exit) && stack.len() > 0 {
        stack.drop_last()
    } else {
        stack
    }
}

/// The stack after the message at `index`: a message that leaves a span pops
/// it, one that enters a span pushes itself.
pub open spec fn stack_after(stack: Seq<usize>, hop: Option<HopMessageKind>, index: usize) -> Seq<
    usize,
> {
    if hop == Some(HopMessageKind::Enter) {
        stack_after_exit(stack, hop).push(index)
    } else {
        stack_after_exit(stack, hop)
    }
}

/// Each message's parent comes before it.
pub open spec fn parents_precede(messages: Seq<Message>) -> bool {
    forall|i: int|
        0 <= i < messages.len() ==> (#[trigger] messages[i].parent matches Some(p) ==> p < i)
}

/// Whether the filters let `msg` and each of its ancestors through and no
/// ancestor hides its children.
pub open spec fn spec_is_displayed(msg: Message, messages: Seq<Message>, filters: Seq<Filter>) -> bool
    decreases
            (match msg.parent {
                Some(p) => p + 1,
                None => 0,
            }),
{
    &&& forall|i: int|
        0 <= i < filters.len() ==> spec_filter_matches(#[trigger] filters[i], msg.parsed.model())
    &&& match msg.parent {
        None => true,
        Some(p) => {
            &&& p < messages.len()
            &&& (messages[p as int].parent matches Some(q) ==> q < p)
            &&& !messages[p as int].state.hide_children
            &&& spec_is_displayed(messages[p as int], messages, filters)
        },
    }
}

impl<'b> Message<'b> {
    /// Reads one log line, the `index`th, and places it under the span that
    /// is open: the top of `parent_stack` is its parent, and it is indented
    /// by the number of spans still open once a message that leaves a span
    /// has closed it.  A message that enters a span is then pushed.
    pub fn new(bump: &'b Bump, line: &str, index: usize, parent_stack: &mut Vec<usize>) -> (r:
        Result<Self, ParseError>)
        ensures
            match spec_message(line@, 0) {
                Err((e, _)) => r matches Err(x) && x.line@ == line@ && x.message@ == failure_text(e)
                    && final(parent_stack)@ == old(parent_stack)@,
                Ok((m, _)) => r matches Ok(msg) && {
                    &&& msg.parsed.model() == m
                    &&& msg.logparsed_message is None
                    &&& msg.state == MessageState {
                        hide_children: false,
                        display_filename: false,
                        display_spans: false,
                    }
                    &&& msg.parent == stack_top(old(parent_stack)@)
                    &&& msg.indent == stack_after_exit(old(parent_stack)@, spec_hop(m.fields)).len()
                    &&& final(parent_stack)@ == stack_after(
                        old(parent_stack)@,
                        spec_hop(m.fields),
                        index,
                    )
                },
            },
    {
        let parsed = match custom_parse(bump, line) {
            Ok(p) => p,
            Err(e) => {
                return Err(e);
            },
        };
        let msg = parsed.hop_message();
        let len = parent_stack.len();
        let parent = if len > 0 {
            Some(parent_stack[len - 1])
        } else {
            None
        };
        if msg == Some(HopMessageKind::Exit) {
            parent_stack.pop();
        }
        let self_indent = parent_stack.len();
        if msg == Some(HopMessageKind::Enter) {
            parent_stack.push(index);
        }
        Ok(Message {
            parsed,
            logparsed_message: None,
            parent,
            indent: self_indent,
            state: MessageState::default(),
        })
    }

    /// Whether the message is shown: the filters let it and each of its
    /// ancestors through, and no ancestor hides its children.
    pub fn is_displayed(&self, messages: &[Message], app_state: &AppState) -> (r: bool)
        requires
            parents_precede(messages@),
            self.parent matches Some(p) ==> p < messages@.len(),
        ensures
            r == spec_is_displayed(*self, messages@, app_state.filters@),
        decreases
                (match self.parent {
                    Some(p) => p + 1,
                    None => 0,
                }),
    {
        let n = app_state.filters.len();
        let mut i: usize = 0;
        while i < n
            invariant
                n == app_state.filters@.len(),
                0 <= i <= n,
                forall|j: int|
                    0 <= j < i ==> spec_filter_matches(
                        #[trigger] app_state.filters@[j],
                        self.parsed.model(),
                    ),
            decreases n - i,
        {
            if !app_state.filters[i].matches(self) {
                return false;
            }
            i = i + 1;
        }
        match self.parent {
            Some(parent) => {
                let parent = &messages[parent];
                if parent.state.hide_children {
                    return false;
                }
                parent.is_displayed(messages, app_state)
            },
            None => true,
        }
    }

    /// Whether the message's timestamp, target, filename, line number,
    /// fields, span or spans hold `search`.
    pub fn matches_search(&self, search: &str) -> (r: bool)
        ensures
            r == spec_message_matches(self.parsed.model(), search@),
    {
        str_contains(self.parsed.timestamp, search) || str_contains(self.parsed.target, search)
            || str_contains(self.parsed.filename, search) || str_contains(
            self.parsed.line_number,
            search,
        ) || dict_matches_search(self.parsed.fields, search) || span_matches_search(
            &self.parsed.span,
            search,
        ) || spans_match_search(self.parsed.spans, search)
    }
}


/// Whether the message at `i` is shown and the search finds it.
pub open spec fn spec_search_hit(messages: Seq<Message>, state: AppState, i: int) -> bool {
    spec_is_displayed(messages[i], messages, state.filters@) && spec_message_matches(
        messages[i].parsed.model(),
        state.search@,
    )
}

/// How far `j` comes after `index` when the messages are walked from `index`
/// to the end and then from the start.
pub open spec fn cyclic_distance(index: int, j: int, len: int) -> int {
    if j >= index {
        j - index
    } else {
        j + len - index
    }
}

/// Whether the message at `index` is shown and the search finds it.
pub fn next_search_raw(messages: &[Message], state: &AppState, index: usize) -> (r: bool)
    requires
        parents_precede(messages@),
        index < messages@.len(),
    ensures
        r == spec_search_hit(messages@, *state, index as int),
{
    messages[index].is_displayed(messages, state) && messages[index].matches_search(
        state.search.as_str(),
    )
}

/// Where a forward search that is asked to start at `index` starts: there,
/// or at the first message when `index` is past the end.
pub open spec fn search_start(index: int, len: int) -> int {
    if index <= len {
        index
    } else {
        0
    }
}

/// The first message, from `index` on and then from the start, that is shown
/// and that the search finds.  (Asked to start past the end, the search
/// walks from the start and must find a message.)
pub fn next_search(messages: &[Message], state: &AppState, index: usize) -> (r: Option<usize>)
    requires
        parents_precede(messages@),
        index <= messages@.len() || exists|j: int|
            0 <= j < messages@.len() && #[trigger] spec_search_hit(messages@, *state, j),
    ensures
        r matches Some(i) ==> i < messages@.len() && spec_search_hit(messages@, *state, i as int)
            && forall|j: int|
            0 <= j < messages@.len() && cyclic_distance(
                search_start(index as int, messages@.len() as int),
                j,
                messages@.len() as int,
            ) < cyclic_distance(
                search_start(index as int, messages@.len() as int),
                i as int,
                messages@.len() as int,
            ) ==> !#[trigger] spec_search_hit(messages@, *state, j),
        r is None ==> forall|j: int|
            0 <= j < messages@.len() ==> !#[trigger] spec_search_hit(messages@, *state, j),
{
    let len = messages.len();
    let start = if index <= len {
        index
    } else {
        0
    };
    let mut k: usize = 0;
    while k < len
        invariant
            len == messages@.len(),
            start == search_start(index as int, len as int),
            start <= len,
            0 <= k <= len,
            parents_precede(messages@),
            forall|j: int|
                0 <= j < len && cyclic_distance(start as int, j, len as int) < k
                    ==> !#[trigger] spec_search_hit(messages@, *state, j),
        decreases len - k,
    {
        let i = if k < len - start {
            start + k
        } else {
            k - (len - start)
        };
        assert(cyclic_distance(start as int, i as int, len as int) == k);
        if next_search_raw(messages, state, i) {
            return Some(i);
        }
        k = k + 1;
    }
    None
}

/// The last message, walking from `index` on and then from the start, that
/// is shown and that the search finds: the first one met walking back from
/// just before `index`.
pub fn prev_search(messages: &[Message], state: &AppState, index: usize) -> (r: Option<usize>)
    requires
        parents_precede(messages@),
        index <= messages@.len(),
    ensures
        r matches Some(i) ==> i < messages@.len() && spec_search_hit(messages@, *state, i as int)
            && forall|j: int|
            0 <= j < messages@.len() && cyclic_distance(index as int, j, messages@.len() as int)
                > cyclic_distance(index as int, i as int, messages@.len() as int)
                ==> !#[trigger] spec_search_hit(messages@, *state, j),
        r is None ==> forall|j: int|
            0 <= j < messages@.len() ==> !#[trigger] spec_search_hit(messages@, *state, j),
{
    let len = messages.len();
    let mut k: usize = len;
    while k > 0
        invariant
            len == messages@.len(),
            index <= len,
            0 <= k <= len,
            parents_precede(messages@),
            forall|j: int|
                0 <= j < len && cyclic_distance(index as int, j, len as int) >= k
                    ==> !#[trigger] spec_search_hit(messages@, *state, j),
        decreases k,
    {
        k = k - 1;
        let i = if k < len - index {
            index + k
        } else {
            k - (len - index)
        };
        assert(cyclic_distance(index as int, i as int, len as int) == k);
        if next_search_raw(messages, state, i) {
            return Some(i);
        }
    }
    None
}

/// Reading the lines of a log in order, each the `messages.len()`th, keeps
/// every message's parent before it and every open span among the messages
/// read: the parent of the message just read and every entry of the new
/// stack are messages already read, or the new message itself.
pub proof fn lemma_reading_keeps_parents_before<'b>(
    messages: Seq<Message<'b>>,
    stack: Seq<usize>,
    msg: Message<'b>,
    new_stack: Seq<usize>,
)
    requires
        parents_precede(messages),
        forall|j: int| 0 <= j < stack.len() ==> #[trigger] stack[j] < messages.len(),
        messages.len() <= usize::MAX,
        msg.parent == stack_top(stack),
        new_stack == stack_after(stack, spec_hop(msg.parsed.model().fields), messages.len() as usize),
    ensures
        parents_precede(messages.push(msg)),
        forall|j: int| 0 <= j < new_stack.len() ==> #[trigger] new_stack[j] < messages.len() + 1,
{
    let all = messages.push(msg);
    assert forall|i: int| 0 <= i < all.len() implies (#[trigger] all[i].parent matches Some(p) ==> p < i) by {
        if i < messages.len() {
            assert(all[i] == messages[i]);
        }
    }
    let hop = spec_hop(msg.parsed.model().fields);
    let s1 = stack_after_exit(stack, hop);
    assert forall|j: int| 0 <= j < s1.len() implies #[trigger] s1[j] < messages.len() by {
        if hop == Some(HopMessageKind::Exit) && stack.len() > 0 {
            assert(s1[j] == stack[j]);
        }
    }
    if hop == Some(HopMessageKind::Enter) {
        assert forall|j: int| 0 <= j < new_stack.len() implies #[trigger] new_stack[j] < messages.len() + 1 by {
            if j < s1.len() {
                assert(new_stack[j] == s1[j]);
            }
        }
    }
}

} // verus!
