//! What the laid-out text of a message always shows.

use vstd::prelude::*;
use crate::grammar::{MessageModel, SpanModel, Pair};
use crate::message::{AppState, HopMessageKind, Message, MessageState, spec_hop};
use crate::palette::{Color, TextKind};
use crate::render::{
    Built, TextStyle, spec_append, spec_build_text, spec_dict_pairs_text, spec_dict_text, spec_fields_text,
    spec_filename_text, spec_log_spans_text, spec_spans_text,
};
use crate::strings::seq_contains;
use crate::laws::{pieces_text, lemma_pieces_text_concat, lemma_highlight_keeps_text};

verus! {

/// `c` is `b` with pieces added after it.
pub open spec fn extends(b: Built, c: Built) -> bool {
    b.pieces.len() <= c.pieces.len() && c.pieces.subrange(0, b.pieces.len() as int) == b.pieces
}

proof fn lemma_extends_refl(b: Built)
    ensures
        extends(b, b),
{
    assert(b.pieces.subrange(0, b.pieces.len() as int) =~= b.pieces);
}

proof fn lemma_extends_trans(a: Built, b: Built, c: Built)
    requires
        extends(a, b),
        extends(b, c),
    ensures
        extends(a, c),
{
    assert(c.pieces.subrange(0, a.pieces.len() as int) =~= b.pieces.subrange(0, a.pieces.len() as int));
}

/// The text of a layout that extends another starts with the other's text.
proof fn lemma_extends_text(b: Built, c: Built)
    requires
        extends(b, c),
    ensures
        pieces_text(b.pieces).is_prefix_of(pieces_text(c.pieces)),
{
    let rest = c.pieces.subrange(b.pieces.len() as int, c.pieces.len() as int);
    assert(c.pieces =~= b.pieces + rest);
    lemma_pieces_text_concat(b.pieces, rest);
    assert(pieces_text(c.pieces).subrange(0, pieces_text(b.pieces).len() as int) =~= pieces_text(b.pieces));
}

/// Adding a text adds pieces after those there were, and exactly that text.
proof fn lemma_append_extends(b: Built, search: Seq<char>, t: Seq<char>, lead: u32, fmt: TextStyle)
    ensures
        extends(b, spec_append(b, search, t, lead, fmt)),
        pieces_text(spec_append(b, search, t, lead, fmt).pieces) == pieces_text(b.pieces) + t,
{
    reveal(spec_append);
    let h = crate::render::spec_highlight(t, search, 0, lead, fmt);
    lemma_highlight_keeps_text(t, search, 0, lead, fmt);
    assert(t.subrange(0, t.len() as int) =~= t);
    lemma_pieces_text_concat(b.pieces, h);
    assert((b.pieces + h).subrange(0, b.pieces.len() as int) =~= b.pieces);
}

proof fn lemma_dict_pairs_extends(
    b: Built,
    search: Seq<char>,
    sep: Seq<char>,
    indent: u32,
    key_color: Color,
    pairs: Seq<Pair>,
)
    ensures
        extends(b, spec_dict_pairs_text(b, search, sep, indent, key_color, pairs)),
    decreases pairs.len(),
{
    if pairs.len() == 0 {
        lemma_extends_refl(b);
    } else {
        let b1 = spec_append(b, search, sep, 0, crate::render::plain());
        let b2 = spec_append(b1, search, pairs[0].0, indent, crate::render::colored(key_color));
        let b3 = spec_append(b2, search, ": "@, 0, crate::render::colored(key_color));
        let b4 = spec_append(b3, search, pairs[0].1, 0, crate::render::colored(crate::palette::FIELD_VALUES));
        lemma_append_extends(b, search, sep, 0, crate::render::plain());
        lemma_append_extends(b1, search, pairs[0].0, indent, crate::render::colored(key_color));
        lemma_append_extends(b2, search, ": "@, 0, crate::render::colored(key_color));
        lemma_append_extends(b3, search, pairs[0].1, 0, crate::render::colored(crate::palette::FIELD_VALUES));
        lemma_dict_pairs_extends(b4, search, sep, indent, key_color, pairs.drop_first());
        lemma_extends_trans(b, b1, b2);
        lemma_extends_trans(b, b2, b3);
        lemma_extends_trans(b, b3, b4);
        lemma_extends_trans(b, b4, spec_dict_pairs_text(b4, search, sep, indent, key_color, pairs.drop_first()));
    }
}

proof fn lemma_dict_text_extends(b: Built, search: Seq<char>, indent: u32, key_color: Color, pairs: Seq<Pair>)
    ensures
        extends(b, spec_dict_text(b, search, indent, key_color, pairs)),
{
    lemma_dict_pairs_extends(b, search, "\n"@, indent, key_color, pairs);
    lemma_dict_pairs_extends(b, search, " "@, 0, key_color, pairs);
}

proof fn lemma_filename_extends(b: Built, search: Seq<char>, m: MessageModel)
    ensures
        extends(b, spec_filename_text(b, search, m)),
{
    let fc = crate::render::colored(crate::palette::FILENAME);
    let b1 = spec_append(b, search, "\n"@, 0, crate::render::plain());
    let b2 = spec_append(b1, search, m.filename, crate::render::INDENT, fc);
    let b3 = spec_append(b2, search, ":"@, 0, fc);
    lemma_append_extends(b, search, "\n"@, 0, crate::render::plain());
    lemma_append_extends(b1, search, m.filename, crate::render::INDENT, fc);
    lemma_append_extends(b2, search, ":"@, 0, fc);
    lemma_append_extends(b3, search, m.line_number, 0, fc);
    lemma_extends_trans(b, b1, b2);
    lemma_extends_trans(b, b2, b3);
    lemma_extends_trans(b, b3, spec_filename_text(b, search, m));
}

proof fn lemma_spans_extends(b: Built, search: Seq<char>, spans: Seq<SpanModel>)
    ensures
        extends(b, spec_spans_text(b, search, spans)),
    decreases spans.len(),
{
    if spans.len() == 0 {
        lemma_extends_refl(b);
    } else {
        let nc = crate::render::colored(crate::palette::SPAN_NAME);
        let b1 = spec_append(b, search, "\n"@, 0, crate::render::plain());
        let b2 = spec_append(b1, search, crate::render::name_or_dashes(spans[0].name), crate::render::INDENT, nc);
        let b3 = spec_dict_text(b2, search, (crate::render::INDENT * 2) as u32, crate::palette::SPAN_KEYS, spans[0].map);
        lemma_append_extends(b, search, "\n"@, 0, crate::render::plain());
        lemma_append_extends(b1, search, crate::render::name_or_dashes(spans[0].name), crate::render::INDENT, nc);
        lemma_dict_text_extends(b2, search, (crate::render::INDENT * 2) as u32, crate::palette::SPAN_KEYS, spans[0].map);
        lemma_spans_extends(b3, search, spans.drop_first());
        lemma_extends_trans(b, b1, b2);
        lemma_extends_trans(b, b2, b3);
        lemma_extends_trans(b, b3, spec_spans_text(b3, search, spans.drop_first()));
    }
}

proof fn lemma_log_spans_extends(b: Built, search: Seq<char>, spans: Seq<(Seq<char>, TextKind)>)
    ensures
        extends(b, spec_log_spans_text(b, search, spans)),
    decreases spans.len(),
{
    if spans.len() == 0 {
        lemma_extends_refl(b);
    } else {
        let fmt = crate::render::colored(crate::palette::spec_logparse_color(spans[0].1));
        let b1 = spec_append(b, search, spans[0].0, 0, fmt);
        lemma_append_extends(b, search, spans[0].0, 0, fmt);
        lemma_log_spans_extends(b1, search, spans.drop_first());
        lemma_extends_trans(b, b1, spec_log_spans_text(b1, search, spans.drop_first()));
    }
}

proof fn lemma_fields_extends(
    b: Built,
    search: Seq<char>,
    m: MessageModel,
    st: MessageState,
    logparsed: Option<Result<Seq<(Seq<char>, TextKind)>, Seq<char>>>,
)
    ensures
        extends(b, spec_fields_text(b, search, m, st, logparsed)),
{
    let r = spec_fields_text(b, search, m, st, logparsed);
    let sp = crate::render::plain();
    match spec_hop(m.fields) {
        Some(hop) => {
            let text = match hop {
                HopMessageKind::Enter => if st.hide_children {
                    " hidden span:"@
                } else {
                    " enter span:"@
                },
                HopMessageKind::Exit => " exit span:"@,
            };
            let sc = crate::render::colored(crate::palette::SPAN);
            let b1 = spec_append(b, search, text, 0, sc);
            lemma_append_extends(b, search, text, 0, sc);
            lemma_dict_text_extends(b1, search, (crate::render::INDENT * 2) as u32, crate::palette::SPAN_KEYS, m.span.map);
            lemma_extends_trans(b, b1, r);
        },
        None => {
            let b0 = spec_append(b, search, " "@, 0, sp);
            lemma_append_extends(b, search, " "@, 0, sp);
            match logparsed {
                Some(Ok(spans)) => {
                    lemma_log_spans_extends(b0, search, spans);
                    lemma_extends_trans(b, b0, r);
                },
                _ => {
                    let b1 = match logparsed {
                        Some(Err(err)) => spec_append(b0, search, err, 0, crate::render::colored(crate::palette::LOGPARSE_ERROR)),
                        _ => b,
                    };
                    match logparsed {
                        Some(Err(err)) => {
                            lemma_append_extends(b0, search, err, 0, crate::render::colored(crate::palette::LOGPARSE_ERROR));
                            lemma_extends_trans(b, b0, b1);
                        },
                        _ => {
                            lemma_extends_refl(b);
                        },
                    }
                    match crate::message::single_message_field(m.fields) {
                        Some(value) => {
                            let b2 = spec_append(b1, search, " "@, 0, sp);
                            lemma_append_extends(b1, search, " "@, 0, sp);
                            lemma_append_extends(b2, search, value, 0, crate::render::colored(crate::palette::FIELD_VALUES));
                            lemma_extends_trans(b1, b2, r);
                            lemma_extends_trans(b, b1, r);
                        },
                        None => {
                            lemma_dict_text_extends(b1, search, crate::render::INDENT, crate::palette::FIELD_KEYS, m.fields);
                            lemma_extends_trans(b, b1, r);
                        },
                    }
                },
            }
        },
    }
}

/// The arrow that starts the text of a message that enters a span (pointing
/// down when the span's messages are hidden) or leaves one; nothing for any
/// other message.
pub open spec fn hop_arrow(msg: Message) -> Seq<char> {
    match spec_hop(msg.parsed.model().fields) {
        Some(HopMessageKind::Enter) => if msg.state.hide_children {
            "\u{2193}"@
        } else {
            "\u{2192}"@
        },
        Some(HopMessageKind::Exit) => "\u{2190}"@,
        None => Seq::empty(),
    }
}

/// Whether there is a search and `s` holds it.
pub open spec fn search_holds(app: AppState, s: Seq<char>) -> bool {
    app.search@.len() > 0 && seq_contains(s, app.search@)
}

/// When timestamps are switched on, or the timestamp holds the search, the
/// text of a message shows its timestamp and a space right after its arrow,
/// before anything else of it: the text laid out so far, then the arrow, the
/// timestamp and a space, start what there is after laying the message out.
/// When they are not, and levels are shown, the level and a space come
/// right after the arrow instead.
pub proof fn lemma_timestamp_comes_first(b: Built, app: AppState, msg: Message)
    ensures
        app.timestamps || search_holds(app, msg.parsed.model().timestamp) ==> (pieces_text(b.pieces)
            + hop_arrow(msg) + msg.parsed.model().timestamp + " "@).is_prefix_of(
            pieces_text(spec_build_text(b, app, msg).pieces),
        ),
        !app.timestamps && !search_holds(app, msg.parsed.model().timestamp) && app.log_levels ==> (
        pieces_text(b.pieces) + hop_arrow(msg) + msg.parsed.model().level + " "@).is_prefix_of(
            pieces_text(spec_build_text(b, app, msg).pieces),
        ),
{
    let m = msg.parsed.model();
    let search = app.search@;
    let sc = crate::render::colored(crate::palette::SPAN);
    let sp = crate::render::plain();
    let b1 = match spec_hop(m.fields) {
        Some(HopMessageKind::Enter) => spec_append(
            b,
            search,
            if msg.state.hide_children {
                "\u{2193}"@
            } else {
                "\u{2192}"@
            },
            0,
            sc,
        ),
        Some(HopMessageKind::Exit) => spec_append(b, search, "\u{2190}"@, 0, sc),
        None => b,
    };
    match spec_hop(m.fields) {
        Some(HopMessageKind::Enter) => {
            lemma_append_extends(
                b,
                search,
                if msg.state.hide_children {
                    "\u{2193}"@
                } else {
                    "\u{2192}"@
                },
                0,
                sc,
            );
        },
        Some(HopMessageKind::Exit) => {
            lemma_append_extends(b, search, "\u{2190}"@, 0, sc);
        },
        None => {
            assert(pieces_text(b.pieces) + Seq::<char>::empty() =~= pieces_text(b.pieces));
        },
    }
    assert(pieces_text(b1.pieces) == pieces_text(b.pieces) + hop_arrow(msg));
    let tc = crate::render::colored(crate::palette::TIMESTAMP);
    let bt = spec_append(b1, search, m.timestamp, 0, tc);
    lemma_append_extends(b1, search, m.timestamp, 0, tc);
    lemma_append_extends(bt, search, " "@, 0, sp);
    let b2 = if app.timestamps || crate::render::app_matches(app, m.timestamp) {
        spec_append(bt, search, " "@, 0, sp)
    } else {
        b1
    };
    let lc = crate::render::colored(crate::palette::spec_log_level_color(m.level));
    let bl = spec_append(b2, search, m.level, 0, lc);
    lemma_append_extends(b2, search, m.level, 0, lc);
    lemma_append_extends(bl, search, " "@, 0, sp);
    let b3 = if app.log_levels || crate::render::app_matches(app, m.level) {
        spec_append(bl, search, " "@, 0, sp)
    } else {
        b2
    };
    if app.log_levels || crate::render::app_matches(app, m.level) {
        lemma_extends_trans(b2, bl, b3);
    } else {
        lemma_extends_refl(b2);
    }
    let target_displayed = app.targets || crate::render::app_matches(app, m.target);
    let tg = crate::render::colored(crate::palette::TARGET);
    let b4 = if target_displayed {
        spec_append(b3, search, m.target, 0, tg)
    } else {
        b3
    };
    if target_displayed {
        lemma_append_extends(b3, search, m.target, 0, tg);
    } else {
        lemma_extends_refl(b3);
    }
    let cc = crate::render::colored(crate::palette::COLON_COLON);
    let nc = crate::render::colored(crate::palette::SPAN_NAME);
    let b5 = match m.span.name {
        Some(name) => spec_append(
            if target_displayed {
                spec_append(b4, search, "::"@, 0, cc)
            } else {
                b4
            },
            search,
            name,
            0,
            nc,
        ),
        None => if !target_displayed {
            spec_append(b4, search, m.target, 0, tg)
        } else {
            b4
        },
    };
    match m.span.name {
        Some(name) => {
            let bc = if target_displayed {
                spec_append(b4, search, "::"@, 0, cc)
            } else {
                b4
            };
            if target_displayed {
                lemma_append_extends(b4, search, "::"@, 0, cc);
            } else {
                lemma_extends_refl(b4);
            }
            lemma_append_extends(bc, search, name, 0, nc);
            lemma_extends_trans(b4, bc, b5);
        },
        None => {
            if !target_displayed {
                lemma_append_extends(b4, search, m.target, 0, tg);
            } else {
                lemma_extends_refl(b4);
            }
        },
    }
    let b6 = spec_fields_text(b5, search, m, msg.state, crate::render::logparsed_view(msg.logparsed_message));
    lemma_fields_extends(b5, search, m, msg.state, crate::render::logparsed_view(msg.logparsed_message));
    let b7 = if msg.state.display_filename || (!b6.found && (crate::render::app_matches(app, m.filename)
        || crate::render::app_matches(app, m.line_number))) {
        spec_filename_text(b6, search, m)
    } else {
        b6
    };
    if msg.state.display_filename || (!b6.found && (crate::render::app_matches(app, m.filename)
        || crate::render::app_matches(app, m.line_number))) {
        lemma_filename_extends(b6, search, m);
    } else {
        lemma_extends_refl(b6);
    }
    let r = spec_build_text(b, app, msg);
    if msg.state.display_spans || (!b7.found && search.len() > 0 && crate::message::spec_spans_match(m.spans, search)) {
        lemma_spans_extends(b7, search, m.spans);
    } else {
        lemma_extends_refl(b7);
    }
    assert(r == if msg.state.display_spans || (!b7.found && search.len() > 0 && crate::message::spec_spans_match(
        m.spans,
        search,
    )) {
        spec_spans_text(b7, search, m.spans)
    } else {
        b7
    });
    lemma_extends_trans(b3, b4, b5);
    lemma_extends_trans(b3, b5, b6);
    lemma_extends_trans(b3, b6, b7);
    lemma_extends_trans(b3, b7, r);
    lemma_extends_trans(b2, b3, r);
    if app.timestamps || search_holds(app, m.timestamp) {
        assert(pieces_text(b2.pieces) =~= pieces_text(b.pieces) + hop_arrow(msg) + m.timestamp + " "@);
        lemma_extends_text(b2, r);
    }
    if !app.timestamps && !search_holds(app, m.timestamp) && app.log_levels {
        lemma_extends_text(b3, r);
        assert(pieces_text(b3.pieces) =~= pieces_text(b.pieces) + hop_arrow(msg) + m.level + " "@);
    }
}

} // verus!
