use bumpalo::Bump;
use rustc_log_viewer::message::{
    next_search, prev_search, AppState, Filter, FilterKind, HopMessageKind, Message,
};
use rustc_log_viewer::palette::{log_level_color, logparse_color, Color, TextKind};
use rustc_log_viewer::render::{text_format, text_format_color, StrBuilder, TextStyle, INDENT};

fn line(level: &str, target: &str, message: &str) -> String {
    format!(
        "{{\"timestamp\":\"t0\",\"level\":\"{}\",\"fields\":{{\"message\":\"{}\"}},\"target\":\"{}\",\"filename\":\"f.rs\",\"line_number\":7}}",
        level, message, target
    )
}

fn read<'b>(bump: &'b Bump, lines: &[String]) -> Vec<Message<'b>> {
    let mut stack = vec![];
    let mut out = vec![];
    for (i, l) in lines.iter().enumerate() {
        out.push(Message::new(bump, l, i, &mut stack).unwrap());
    }
    out
}

#[test]
fn hop_messages_build_the_tree() {
    let bump = Bump::new();
    let lines = vec![
        line("INFO", "a", "enter"),
        line("INFO", "b", "inside"),
        line("INFO", "a", "enter"),
        line("INFO", "c", "deeper"),
        line("INFO", "a", "exit"),
        line("INFO", "a", "exit"),
        line("INFO", "d", "after"),
    ];
    let msgs = read(&bump, &lines);
    assert_eq!(msgs[0].parsed.hop_message(), Some(HopMessageKind::Enter));
    assert_eq!(msgs[4].parsed.hop_message(), Some(HopMessageKind::Exit));
    assert_eq!(msgs[1].parsed.hop_message(), None);
    let parents: Vec<Option<usize>> = msgs.iter().map(|m| m.parent).collect();
    assert_eq!(parents, vec![None, Some(0), Some(0), Some(2), Some(2), Some(0), None]);
    let indents: Vec<usize> = msgs.iter().map(|m| m.indent).collect();
    assert_eq!(indents, vec![0, 1, 1, 2, 1, 0, 0]);
}

#[test]
fn enter_then_exit_restores_the_stack() {
    let bump = Bump::new();
    let mut stack = vec![5usize];
    Message::new(&bump, &line("INFO", "a", "enter"), 9, &mut stack).unwrap();
    assert_eq!(stack, vec![5, 9]);
    Message::new(&bump, &line("INFO", "a", "exit"), 10, &mut stack).unwrap();
    assert_eq!(stack, vec![5]);
}

#[test]
fn failed_line_leaves_the_stack() {
    let bump = Bump::new();
    let mut stack = vec![1usize, 2];
    assert!(Message::new(&bump, "not json", 3, &mut stack).is_err());
    assert_eq!(stack, vec![1, 2]);
}

#[test]
fn filters_and_hidden_children() {
    let bump = Bump::new();
    let lines = vec![
        line("INFO", "rustc_a", "enter"),
        line("DEBUG", "rustc_b", "x"),
        line("DEBUG", "rustc_c", "y"),
    ];
    let mut msgs = read(&bump, &lines);
    let mut state = AppState::new();
    assert!(msgs[1].is_displayed(&msgs, &state));
    // exclude target rustc_b
    state.filters.push(Filter { kind: FilterKind::Target, filter: "rustc_b".to_string(), exclude: true });
    assert!(!msgs[1].is_displayed(&msgs, &state));
    assert!(msgs[2].is_displayed(&msgs, &state));
    // include only level INFO: children are hidden too, as is everything else
    state.filters.clear();
    state.filters.push(Filter { kind: FilterKind::Level, filter: "INFO".to_string(), exclude: false });
    assert!(msgs[0].is_displayed(&msgs, &state));
    assert!(!msgs[2].is_displayed(&msgs, &state));
    state.filters.clear();
    // an empty filter lets everything through
    state.filters.push(Filter::new());
    assert!(msgs[2].is_displayed(&msgs, &state));
    msgs[0].state.hide_children = true;
    assert!(!msgs[1].is_displayed(&msgs, &state));
    assert!(msgs[0].is_displayed(&msgs, &state));
}

#[test]
fn filter_new_and_kinds() {
    let f = Filter::new();
    assert!(f.kind == FilterKind::Target);
    assert!(f.exclude);
    assert!(f.filter.is_empty());
    let names: Vec<&str> = FilterKind::all().iter().map(|k| k.name()).collect();
    assert_eq!(
        names,
        vec!["timestamp", "level", "fields", "target", "filename", "line number", "span name", "spans"]
    );
}

#[test]
fn exclude_flips_a_filter() {
    let bump = Bump::new();
    let msgs = read(&bump, &[line("INFO", "rustc_x", "m")]);
    for exclude in [true, false] {
        let f = Filter { kind: FilterKind::Fields, filter: "m".to_string(), exclude };
        let g = Filter { kind: FilterKind::Fields, filter: "m".to_string(), exclude: !exclude };
        assert_ne!(f.matches(&msgs[0]), g.matches(&msgs[0]));
        assert!(f.matches_raw(&msgs[0]));
    }
}

#[test]
fn span_filters() {
    let bump = Bump::new();
    let l = "{\"span\":{\"name\":\"typeck\",\"k\":\"v\"},\"spans\":[{\"name\":\"outer\",\"q\":\"zz\"}]}".to_string();
    let msgs = read(&bump, &[l]);
    let run = |k: FilterKind, s: &str| k.run(&msgs[0], s);
    assert!(run(FilterKind::SpanName, "typeck"));
    assert!(!run(FilterKind::SpanName, "outer"));
    assert!(run(FilterKind::Spans, "outer"));
    assert!(run(FilterKind::Spans, "zz"));
    assert!(!run(FilterKind::Spans, "typeck"));
}

#[test]
fn search_matching() {
    let bump = Bump::new();
    let msgs = read(&bump, &[line("ERROR", "rustc_x", "needle here")]);
    assert!(msgs[0].matches_search("needle"));
    assert!(msgs[0].matches_search("rustc_x"));
    assert!(msgs[0].matches_search("f.rs"));
    assert!(msgs[0].matches_search("7"));
    // the level is not searched
    assert!(!msgs[0].matches_search("ERROR"));
    let mut state = AppState::new();
    assert!(!state.matches_search("anything"));
    state.search = "thing".to_string();
    assert!(state.matches_search("anything"));
    assert!(!state.matches_search("nothin"));
}

#[test]
fn app_state_new() {
    let s = AppState::new();
    assert!(!s.entering_search_text && !s.timestamps && !s.search_onscreen);
    assert!(s.log_levels && s.targets);
    assert!(s.search.is_empty() && s.filters.is_empty());
}

#[test]
fn searching_forward_and_back_wraps() {
    let bump = Bump::new();
    let lines: Vec<String> = ["a", "hit", "b", "hit", "c"].iter().map(|m| line("INFO", "t", m)).collect();
    let msgs = read(&bump, &lines);
    let mut state = AppState::new();
    state.search = "hit".to_string();
    assert_eq!(next_search(&msgs, &state, 0), Some(1));
    assert_eq!(next_search(&msgs, &state, 1), Some(1));
    assert_eq!(next_search(&msgs, &state, 2), Some(3));
    assert_eq!(next_search(&msgs, &state, 4), Some(1));
    assert_eq!(next_search(&msgs, &state, 5), Some(1));
    // asked to start past the end, the search starts at the first message
    assert_eq!(next_search(&msgs, &state, 9), Some(1));
    assert_eq!(prev_search(&msgs, &state, 3), Some(1));
    assert_eq!(prev_search(&msgs, &state, 1), Some(3));
    assert_eq!(prev_search(&msgs, &state, 4), Some(3));
    state.search = "nowhere".to_string();
    assert_eq!(next_search(&msgs, &state, 0), None);
    assert_eq!(prev_search(&msgs, &state, 0), None);
}

fn texts(b: &StrBuilder) -> Vec<(String, u32, TextStyle)> {
    b.job.iter().map(|p| (p.text.clone(), p.leading_space, p.format)).collect()
}

#[test]
fn append_marks_every_match() {
    let mut state = AppState::new();
    state.search = "ab".to_string();
    let mut b = StrBuilder::new(&state);
    let fmt = text_format_color(Color::Cyan);
    b.append("xabyab", 8, fmt);
    let marked = TextStyle { color: Some(Color::Cyan), background: Some(Color::Hlsearch) };
    assert_eq!(
        texts(&b),
        vec![
            ("x".to_string(), 8, fmt),
            ("ab".to_string(), 0, marked),
            ("y".to_string(), 0, fmt),
            ("ab".to_string(), 0, marked),
            ("".to_string(), 0, fmt),
        ]
    );
    assert!(b.found_search);
    let joined: String = b.job.iter().map(|p| p.text.as_str()).collect();
    assert_eq!(joined, "xabyab");
}

#[test]
fn append_without_match_or_search() {
    let mut state = AppState::new();
    {
        let mut b = StrBuilder::new(&state);
        b.append("abc", 16, text_format());
        assert_eq!(texts(&b), vec![("abc".to_string(), 16, text_format())]);
        assert!(!b.found_search);
    }
    state.search = "zz".to_string();
    let mut b = StrBuilder::new(&state);
    b.append("abc", 0, text_format());
    assert_eq!(texts(&b), vec![("abc".to_string(), 0, text_format())]);
    assert!(!b.found_search);
    // a match at the start keeps the leading space on the mark
    state.search = "ab".to_string();
    let mut b = StrBuilder::new(&state);
    b.append("abab", 8, text_format());
    assert_eq!(b.job[0].text, "ab");
    assert_eq!(b.job[0].leading_space, 8);
    assert_eq!(b.job[1].text, "ab");
    assert_eq!(b.job[1].leading_space, 0);
    // non-overlapping, leftmost first
    state.search = "aa".to_string();
    let mut b = StrBuilder::new(&state);
    b.append("aaa", 0, text_format());
    let t: Vec<String> = b.job.iter().map(|p| p.text.clone()).collect();
    assert_eq!(t, vec!["aa".to_string(), "a".to_string()]);
}

#[test]
fn colours() {
    assert_eq!(log_level_color("TRACE"), Color::Magenta);
    assert_eq!(log_level_color("DEBUG"), Color::Blue);
    assert_eq!(log_level_color("INFO"), Color::Green);
    assert_eq!(log_level_color("WARN"), Color::Yellow);
    assert_eq!(log_level_color("ERROR"), Color::Red);
    assert_eq!(logparse_color(TextKind::Constructor), Color::Blue);
    assert_eq!(logparse_color(TextKind::Delimiter(3)), Color::White);
    assert_eq!(logparse_color(TextKind::Surroundings), Color::DimCyan);
    assert_eq!(Color::Yellow.rgb(), (0xf4, 0xbf, 0x75));
    assert_eq!(Color::Hlsearch.rgb(), (0, 0x5c, 0x80));
    assert_eq!(INDENT, 8);
}

fn layout_texts(m: &mut Message, state: &AppState) -> Vec<(String, u32, TextStyle)> {
    let l = m.layout(state);
    l.pieces.iter().map(|p| (p.text.clone(), p.leading_space, p.format)).collect()
}

#[test]
fn layout_of_a_plain_message() {
    let bump = Bump::new();
    let mut msgs = read(&bump, &[line("INFO", "rustc_x", "hello world")]);
    let state = AppState::new();
    let pieces = layout_texts(&mut msgs[0], &state);
    let joined: String = pieces.iter().map(|p| p.0.as_str()).collect();
    // level, target, then logparse's pieces of the message
    assert!(joined.starts_with("INFO rustc_x "));
    assert!(joined.ends_with("hello world"));
    assert_eq!(pieces[0], ("INFO".to_string(), 0, text_format_color(Color::Green)));
    assert_eq!(pieces[2], ("rustc_x".to_string(), 0, text_format_color(Color::Cyan)));
    assert!(msgs[0].logparsed_message.is_some());
}

#[test]
fn logparse_categorises_the_message() {
    let bump = Bump::new();
    let mut msgs = read(&bump, &[line("INFO", "t", "Some(3)")]);
    let state = AppState::new();
    let pieces = layout_texts(&mut msgs[0], &state);
    // logparse splits the message into more than one piece
    let after_target: Vec<_> = pieces.iter().skip(4).collect();
    assert!(after_target.len() > 1);
    assert!(pieces.iter().any(|p| p.0 == "Some" && p.2 == text_format_color(Color::Blue)));
    let joined: String = after_target.iter().map(|p| p.0.as_str()).collect();
    assert_eq!(joined, "Some(3)");
}

#[test]
fn layout_of_enter_messages_and_hidden_parts() {
    let bump = Bump::new();
    let l = "{\"timestamp\":\"t9\",\"level\":\"DEBUG\",\"fields\":{\"message\":\"enter\"},\"target\":\"r\",\"span\":{\"name\":\"typeck\",\"id\":\"1\"}}".to_string();
    let mut msgs = read(&bump, &[l]);
    let mut state = AppState::new();
    let pieces = layout_texts(&mut msgs[0], &state);
    let joined: String = pieces.iter().map(|p| p.0.as_str()).collect();
    assert_eq!(joined, "\u{2192}DEBUG r::typeck enter span: id: 1");
    msgs[0].state.hide_children = true;
    let joined: String = layout_texts(&mut msgs[0], &state).iter().map(|p| p.0.clone()).collect();
    assert_eq!(joined, "\u{2193}DEBUG r::typeck hidden span: id: 1");
    // the timestamp is hidden, but shown when the search finds it
    state.search = "t9".to_string();
    let l = msgs[0].layout(&state);
    let joined: String = l.pieces.iter().map(|p| p.text.as_str()).collect();
    assert!(joined.contains("t9 "));
    assert!(l.found_search);
    assert!(!l.highlight_whole);
}

#[test]
fn whole_message_marked_when_match_is_not_shown() {
    let bump = Bump::new();
    let mut msgs = read(&bump, &[line("INFO", "t", "hi")]);
    let mut state = AppState::new();
    state.search = "f.rs".to_string();
    // the filename is shown because it holds the search
    let l = msgs[0].layout(&state);
    let joined: String = l.pieces.iter().map(|p| p.text.as_str()).collect();
    assert!(joined.ends_with("\nf.rs:7"));
    assert!(l.found_search);
    // the line number "7" is searched too
    state.search = "7".to_string();
    let l = msgs[0].layout(&state);
    assert!(l.found_search);
}

#[test]
fn long_dicts_break_lines() {
    let bump = Bump::new();
    let long = "x".repeat(120);
    let l = format!("{{\"fields\":{{\"a\":\"1\",\"b\":\"{}\"}}}}", long);
    let short = "{\"fields\":{\"a\":\"1\",\"b\":\"2\"}}".to_string();
    let mut msgs = read(&bump, &[l, short]);
    let mut state = AppState::new();
    state.targets = false;
    state.log_levels = false;
    let long_pieces = layout_texts(&mut msgs[0], &state);
    let joined: String = long_pieces.iter().map(|p| p.0.as_str()).collect();
    assert_eq!(joined, format!("\nb: {}\na: 1", long));
    assert!(long_pieces.iter().any(|p| p.0 == "b" && p.1 == INDENT));
    let joined: String = layout_texts(&mut msgs[1], &state).iter().map(|p| p.0.clone()).collect();
    assert_eq!(joined, " b: 2 a: 1");
}

#[test]
fn exclude_target_filter_of_a_message() {
    let bump = Bump::new();
    let msgs = read(&bump, &[line("INFO", "rustc_q", "m")]);
    let f = msgs[0].exclude_target_filter();
    assert!(f.kind == FilterKind::Target && f.exclude);
    assert_eq!(f.filter, "rustc_q");
}
