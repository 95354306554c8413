//! The document event transformer: one linear scan over the parsed event
//! stream that rewrites headings with anchor ids while feeding the
//! table-of-contents builder, replaces code blocks by highlighted HTML, and
//! passes everything else through unchanged.
use vstd::prelude::*;
use crate::highlight::highlight;
use crate::highlight::highlight_block_spec;
use crate::toc::finalize_spec;
use crate::toc::heading_id_v;
use crate::toc::heading_node_v;
use crate::toc::opt_text_v;
use crate::toc::opt_view;
use crate::toc::item_view;
use crate::toc::root_node;
use crate::toc::slug_spec;
use crate::toc::toc_step;
use crate::toc::TocError;
use crate::toc::TocGenerator;
use crate::toc::TocItem;
use crate::toc::TocNode;

verus! {

/// One structural event of a markdown document, reduced to plain values.
#[derive(Debug, PartialEq, Eq)]
pub enum DocEvent {
    HeadingStart { level: u8, id: Option<String> },
    Text { content: String },
    CodeBlockStart { lang: Option<String> },
    CodeBlockEnd,
    MathSpan { display: bool, src: String },
    Html { body: String },
    Other { token: u64 },
}

/// The mathematical content of a [`DocEvent`].
pub enum EventView {
    HeadingStart { level: int, id: Option<Seq<char>> },
    Text { content: Seq<char> },
    CodeBlockStart { lang: Option<Seq<char>> },
    CodeBlockEnd,
    MathSpan { display: bool, src: Seq<char> },
    Html { body: Seq<char> },
    Other { token: u64 },
}

/// The view of one event.
pub open spec fn ev_view(e: DocEvent) -> EventView {
    match e {
        DocEvent::HeadingStart { level, id } => EventView::HeadingStart {
            level: level as int,
            id: opt_view(id),
        },
        DocEvent::Text { content } => EventView::Text { content: content@ },
        DocEvent::CodeBlockStart { lang } => EventView::CodeBlockStart { lang: opt_view(lang) },
        DocEvent::CodeBlockEnd => EventView::CodeBlockEnd,
        DocEvent::MathSpan { display, src } => EventView::MathSpan { display, src: src@ },
        DocEvent::Html { body } => EventView::Html { body: body@ },
        DocEvent::Other { token } => EventView::Other { token },
    }
}

/// The views of a sequence of events.
pub open spec fn evs_view(s: Seq<DocEvent>) -> Seq<EventView> {
    s.map_values(|e: DocEvent| ev_view(e))
}

/// Every heading in the stream carries one of the six heading levels.
pub open spec fn events_wf(evs: Seq<EventView>) -> bool {
    forall|i: int|
        0 <= i < evs.len() ==> ((#[trigger] evs[i]) matches EventView::HeadingStart {
            level,
            ..
        } ==> 1 <= level <= 6)
}

/// The language a code block hands to the highlighter; an indented block
/// has none and falls back to plain text.
pub open spec fn lang_or_empty(lang: Option<Seq<char>>) -> Seq<char> {
    match lang {
        Some(l) => l,
        None => ""@,
    }
}

/// What one scan through a code block finds: the accumulated source text,
/// the stray events passed through, the position after the block, and
/// whether the block was closed at all.
pub struct CodeScan {
    pub text: Seq<char>,
    pub passed: Seq<EventView>,
    pub next: int,
    pub closed: bool,
}

/// Scans a code block's interior from `j`: text events accumulate, the
/// closing fence ends the scan, anything else passes through.
pub open spec fn code_scan(evs: Seq<EventView>, j: int) -> CodeScan
    decreases evs.len() - j,
{
    if j < 0 || j >= evs.len() {
        CodeScan { text: Seq::empty(), passed: Seq::empty(), next: j, closed: false }
    } else {
        match evs[j] {
            EventView::Text { content } => {
                let r = code_scan(evs, j + 1);
                CodeScan { text: content + r.text, passed: r.passed, next: r.next, closed: r.closed }
            },
            EventView::CodeBlockEnd => {
                CodeScan { text: Seq::empty(), passed: Seq::empty(), next: j + 1, closed: true }
            },
            _ => {
                let r = code_scan(evs, j + 1);
                CodeScan {
                    text: r.text,
                    passed: seq![evs[j]] + r.passed,
                    next: r.next,
                    closed: r.closed,
                }
            },
        }
    }
}

pub proof fn lemma_code_scan_bounds(evs: Seq<EventView>, j: int)
    requires
        0 <= j,
    ensures
        j <= code_scan(evs, j).next,
        code_scan(evs, j).next <= (if j <= evs.len() {
            evs.len() as int
        } else {
            j
        }),
    decreases evs.len() - j,
{
    if 0 <= j < evs.len() {
        lemma_code_scan_bounds(evs, j + 1);
    }
}

/// The events a code block contributes: the passed-through strays, then the
/// highlighted block if the fence was closed.
pub open spec fn code_emitted(sc: CodeScan, lang: Seq<char>) -> Seq<EventView> {
    if sc.closed {
        sc.passed + seq![EventView::Html { body: highlight_block_spec(sc.text, lang) }]
    } else {
        sc.passed
    }
}

/// The outcome of a transformation: the rewritten events with the final
/// builder state, or the fatal heading with its anchor.
pub enum TransformModel {
    Done { out: Seq<EventView>, stack: Seq<TocNode>, last: int },
    Fail { text: Seq<char>, url: Seq<char> },
}

/// Prepends already-emitted events to an outcome.
pub open spec fn prepend(pre: Seq<EventView>, m: TransformModel) -> TransformModel {
    match m {
        TransformModel::Done { out, stack, last } => TransformModel::Done {
            out: pre + out,
            stack,
            last,
        },
        TransformModel::Fail { text, url } => m,
    }
}

/// The heading text pulled by lookahead: the next event's content when it
/// is a text event.
pub open spec fn pulled_text(evs: Seq<EventView>, i: int) -> Option<Seq<char>> {
    if i + 1 < evs.len() && (evs[i + 1] matches EventView::Text { .. }) {
        match evs[i + 1] {
            EventView::Text { content } => Some(content),
            _ => None,
        }
    } else {
        None
    }
}

/// The single-pass transformation from position `i` with the given builder
/// state: headings are rewritten and folded into the stack, code blocks are
/// replaced by highlighted HTML, a level-1 heading other than the sentinel
/// `$` fails the run, and all other events pass through in order.
pub open spec fn transform_from(
    evs: Seq<EventView>,
    i: int,
    stack: Seq<TocNode>,
    last: int,
) -> TransformModel
    decreases evs.len() - i,
    via transform_from_dec
{
    if i < 0 || i >= evs.len() {
        TransformModel::Done { out: Seq::empty(), stack, last }
    } else {
        match evs[i] {
            EventView::HeadingStart { level, id } => {
                let txt = pulled_text(evs, i);
                if level == 1 {
                    if txt == Some("$"@) {
                        prepend(seq![evs[i], evs[i + 1]], transform_from(evs, i + 2, stack, last))
                    } else {
                        TransformModel::Fail {
                            text: opt_text_v(txt),
                            url: seq!['#'] + heading_id_v(txt, last),
                        }
                    }
                } else {
                    let step = toc_step(stack, last, heading_node_v(level, txt, last));
                    if txt is Some {
                        prepend(
                            seq![
                                EventView::HeadingStart { level, id: Some(slug_spec(txt->0)) },
                                evs[i + 1],
                            ],
                            transform_from(evs, i + 2, step.0, step.1),
                        )
                    } else if i + 1 < evs.len() {
                        prepend(
                            seq![evs[i], evs[i + 1]],
                            transform_from(evs, i + 2, step.0, step.1),
                        )
                    } else {
                        prepend(seq![evs[i]], transform_from(evs, i + 1, step.0, step.1))
                    }
                }
            },
            EventView::CodeBlockStart { lang } => {
                let sc = code_scan(evs, i + 1);
                prepend(
                    code_emitted(sc, lang_or_empty(lang)),
                    transform_from(evs, sc.next, stack, last),
                )
            },
            _ => prepend(seq![evs[i]], transform_from(evs, i + 1, stack, last)),
        }
    }
}

#[via_fn]
proof fn transform_from_dec(evs: Seq<EventView>, i: int, stack: Seq<TocNode>, last: int) {
    if 0 <= i < evs.len() {
        if evs[i] matches EventView::CodeBlockStart { .. } {
            lemma_code_scan_bounds(evs, i + 1);
        }
    }
}

/// The whole transformation of a document's event stream, starting from the
/// synthetic root made of the title.
pub open spec fn transform_spec(title: Seq<char>, evs: Seq<EventView>) -> TransformModel {
    transform_from(evs, 0, seq![root_node(title)], 1)
}

/// Duplicates an event.
fn clone_event(e: &DocEvent) -> (r: DocEvent)
    ensures
        r == *e,
{
    match e {
        DocEvent::HeadingStart { level, id } => DocEvent::HeadingStart {
            level: *level,
            id: match id {
                Some(s) => Some(s.clone()),
                None => None,
            },
        },
        DocEvent::Text { content } => DocEvent::Text { content: content.clone() },
        DocEvent::CodeBlockStart { lang } => DocEvent::CodeBlockStart {
            lang: match lang {
                Some(s) => Some(s.clone()),
                None => None,
            },
        },
        DocEvent::CodeBlockEnd => DocEvent::CodeBlockEnd,
        DocEvent::MathSpan { display, src } => DocEvent::MathSpan {
            display: *display,
            src: src.clone(),
        },
        DocEvent::Html { body } => DocEvent::Html { body: body.clone() },
        DocEvent::Other { token } => DocEvent::Other { token: *token },
    }
}

/// Scans one code block: accumulates its text events, passes strays into
/// `out`, and on a closing fence splices in the highlighted block.
fn consume_code_block(
    events: &Vec<DocEvent>,
    start: usize,
    lang: &Option<String>,
    out: &mut Vec<DocEvent>,
) -> (next: usize)
    requires
        start <= events@.len(),
    ensures
        ({
            let sc = code_scan(evs_view(events@), start as int);
            &&& next as int == sc.next
            &&& next <= events@.len()
            &&& evs_view(final(out)@) == evs_view(old(out)@) + code_emitted(
                sc,
                lang_or_empty(opt_view(*lang)),
            )
        }),
{
    let ghost evs = evs_view(events@);
    let ghost out0 = evs_view(old(out)@);
    let ghost sc0 = code_scan(evs, start as int);
    let mut to_highlight: String = String::new();
    let mut j: usize = start;
    let ghost mut passed: Seq<EventView> = Seq::empty();
    proof {
        assert(sc0.text =~= to_highlight@ + sc0.text);
        assert(sc0.passed =~= passed + sc0.passed);
        assert(evs_view(out@) =~= out0 + passed);
    }
    while j < events.len()
        invariant
            start <= j <= events@.len(),
            evs == evs_view(events@),
            evs.len() == events@.len(),
            sc0 == code_scan(evs, start as int),
            out0 == evs_view(old(out)@),
            sc0.text == to_highlight@ + code_scan(evs, j as int).text,
            sc0.passed == passed + code_scan(evs, j as int).passed,
            sc0.next == code_scan(evs, j as int).next,
            sc0.closed == code_scan(evs, j as int).closed,
            evs_view(out@) == out0 + passed,
        decreases events@.len() - j,
    {
        let ghost scj = code_scan(evs, j as int);
        proof {
            assert(evs[j as int] == ev_view(events@[j as int]));
        }
        match &events[j] {
            DocEvent::Text { content } => {
                to_highlight.append(content.as_str());
                j = j + 1;
                proof {
                    let scn = code_scan(evs, j as int);
                    assert(scj.text == content@ + scn.text);
                    assert(sc0.text =~= to_highlight@ + scn.text);
                }
            },
            DocEvent::CodeBlockEnd => {
                let html = match lang {
                    Some(l) => highlight(to_highlight.as_str(), l.as_str()),
                    None => highlight(to_highlight.as_str(), ""),
                };
                let ghost out_mid = out@;
                out.push(DocEvent::Html { body: html });
                proof {
                    assert(events@[j as int] matches DocEvent::CodeBlockEnd);
                    assert(evs[j as int] matches EventView::CodeBlockEnd);
                    assert(scj.next == j + 1 && scj.closed && scj.text =~= Seq::empty()
                        && scj.passed =~= Seq::empty());
                    assert(sc0.next == j + 1 && sc0.closed);
                    assert(sc0.text =~= to_highlight@);
                    assert(sc0.passed =~= passed);
                    assert(html@ == highlight_block_spec(
                        sc0.text,
                        lang_or_empty(opt_view(*lang)),
                    ));
                    assert(ev_view(out@.last()) == (EventView::Html {
                        body: highlight_block_spec(sc0.text, lang_or_empty(opt_view(*lang))),
                    }));
                    assert(evs_view(out@) =~= evs_view(out_mid).push(ev_view(out@.last())));
                    assert(evs_view(out@) =~= out0 + code_emitted(
                        sc0,
                        lang_or_empty(opt_view(*lang)),
                    ));
                }
                return j + 1;
            },
            _ => {
                let e = clone_event(&events[j]);
                let ghost out_mid = out@;
                out.push(e);
                proof {
                    assert(evs_view(out@) =~= evs_view(out_mid).push(ev_view(out@.last())));
                    passed = passed + seq![evs[j as int]];
                    assert(evs_view(out@) =~= out0 + passed);
                }
                j = j + 1;
                proof {
                    let scn = code_scan(evs, j as int);
                    assert(scj.passed == seq![evs[j - 1]] + scn.passed);
                    assert(sc0.passed =~= passed + scn.passed);
                }
            },
        }
    }
    proof {
        let scj = code_scan(evs, j as int);
        assert(scj.next == j as int && !scj.closed && scj.passed =~= Seq::empty());
        assert(sc0.passed =~= passed);
        assert(code_emitted(sc0, lang_or_empty(opt_view(*lang))) == sc0.passed);
    }
    j
}

/// Transforms a document's event stream: headings gain their anchor ids and
/// build the table of contents, code blocks become highlighted HTML, and a
/// level-1 heading in the body aborts the run unless it is the sentinel
/// `$`. Returns the rewritten events with the finished tree.
pub fn transform_events(title: &str, events: &Vec<DocEvent>) -> (r: Result<
    (Vec<DocEvent>, Option<TocItem>),
    TocError,
>)
    requires
        events_wf(evs_view(events@)),
    ensures
        (match transform_spec(title@, evs_view(events@)) {
            TransformModel::Done { out, stack, last } => r matches Ok(p) && evs_view(p.0@) == out
                && (p.1 matches Some(t) && item_view(t) == finalize_spec(stack)),
            TransformModel::Fail { text, url } => r matches Err(e) && e.text@ == text && e.url@
                == url,
        }),
{
    let ghost evs = evs_view(events@);
    let ghost whole = transform_from(evs, 0, seq![root_node(title@)], 1);
    let mut gen = TocGenerator::new(String::from_str(title));
    let mut out: Vec<DocEvent> = Vec::new();
    let mut i: usize = 0;
    proof {
        assert(evs_view(out@) =~= Seq::<EventView>::empty());
        assert(whole == prepend(evs_view(out@), transform_from(evs, 0, gen.stack_model(), 1)));
    }
    while i < events.len()
        invariant
            i <= events@.len(),
            evs == evs_view(events@),
            evs.len() == events@.len(),
            events_wf(evs),
            gen.wf(),
            whole == transform_from(evs, 0, seq![root_node(title@)], 1),
            whole == prepend(
                evs_view(out@),
                transform_from(evs, i as int, gen.stack_model(), gen.last_level as int),
            ),
        decreases events@.len() - i,
    {
        let ghost i0 = i as int;
        let ghost st = gen.stack_model();
        let ghost lv = gen.last_level as int;
        let ghost rest = transform_from(evs, i0, st, lv);
        let ghost out_mid = out@;
        proof {
            assert(evs[i0] == ev_view(events@[i0]));
        }
        match &events[i] {
            DocEvent::HeadingStart { level, id } => {
                proof {
                    assert(evs[i0] matches EventView::HeadingStart { level: l, .. } && 1 <= l
                        <= 6);
                }
                let has_next = i + 1 < events.len();
                let txt: Option<String> = if has_next {
                    match &events[i + 1] {
                        DocEvent::Text { content } => Some(content.clone()),
                        _ => None,
                    }
                } else {
                    None
                };
                let ghost pt = pulled_text(evs, i0);
                proof {
                    if has_next {
                        assert(evs[i0 + 1] == ev_view(events@[i0 + 1]));
                    }
                    assert(opt_view(txt) == pt);
                }
                let res = gen.process_header(*level, &txt);
                match res {
                    Ok(Some(ids)) => {
                        proof {
                            assert(*level >= 2);
                        }
                        let ghost step = toc_step(st, lv, heading_node_v(*level as int, pt, lv));
                        if has_next {
                            let second = clone_event(&events[i + 1]);
                            let is_text = match &events[i + 1] {
                                DocEvent::Text { .. } => true,
                                _ => false,
                            };
                            if is_text {
                                out.push(DocEvent::HeadingStart { level: *level, id: Some(ids) });
                            } else {
                                out.push(clone_event(&events[i]));
                            }
                            out.push(second);
                            i = i + 2;
                            proof {
                                let emitted = if pt is Some {
                                    seq![
                                        EventView::HeadingStart {
                                            level: *level as int,
                                            id: Some(slug_spec(pt->0)),
                                        },
                                        evs[i0 + 1],
                                    ]
                                } else {
                                    seq![evs[i0], evs[i0 + 1]]
                                };
                                assert(evs_view(out@) =~= evs_view(out_mid) + emitted);
                                assert(rest == prepend(
                                    emitted,
                                    transform_from(evs, i0 + 2, step.0, step.1),
                                ));
                                lemma_prepend_assoc(
                                    evs_view(out_mid),
                                    emitted,
                                    transform_from(evs, i0 + 2, step.0, step.1),
                                );
                            }
                        } else {
                            out.push(clone_event(&events[i]));
                            i = i + 1;
                            proof {
                                let emitted = seq![evs[i0]];
                                assert(evs_view(out@) =~= evs_view(out_mid) + emitted);
                                assert(rest == prepend(
                                    emitted,
                                    transform_from(evs, i0 + 1, step.0, step.1),
                                ));
                                lemma_prepend_assoc(
                                    evs_view(out_mid),
                                    emitted,
                                    transform_from(evs, i0 + 1, step.0, step.1),
                                );
                            }
                        }
                    },
                    Ok(None) => {
                        proof {
                            assert(*level == 1 && crate::toc::is_sentinel(txt));
                            assert(pt == Some("$"@));
                        }
                        out.push(clone_event(&events[i]));
                        out.push(clone_event(&events[i + 1]));
                        i = i + 2;
                        proof {
                            let emitted = seq![evs[i0], evs[i0 + 1]];
                            assert(evs_view(out@) =~= evs_view(out_mid) + emitted);
                            assert(rest == prepend(emitted, transform_from(evs, i0 + 2, st, lv)));
                            lemma_prepend_assoc(
                                evs_view(out_mid),
                                emitted,
                                transform_from(evs, i0 + 2, st, lv),
                            );
                        }
                    },
                    Err(e) => {
                        proof {
                            assert(*level == 1 && !crate::toc::is_sentinel(txt));
                            assert(rest matches TransformModel::Fail { .. });
                            assert(whole == prepend(evs_view(out_mid), rest));
                            assert(whole == rest);
                        }
                        return Err(e);
                    },
                }
            },
            DocEvent::CodeBlockStart { lang } => {
                let next = consume_code_block(events, i + 1, lang, &mut out);
                i = next;
                proof {
                    let sc = code_scan(evs, i0 + 1);
                    lemma_code_scan_bounds(evs, i0 + 1);
                    let emitted = code_emitted(sc, lang_or_empty(opt_view(*lang)));
                    assert(rest == prepend(emitted, transform_from(evs, sc.next, st, lv)));
                    lemma_prepend_assoc(
                        evs_view(out_mid),
                        emitted,
                        transform_from(evs, sc.next, st, lv),
                    );
                }
            },
            _ => {
                out.push(clone_event(&events[i]));
                i = i + 1;
                proof {
                    assert(evs_view(out@) =~= evs_view(out_mid) + seq![evs[i0]]);
                    assert(rest == prepend(seq![evs[i0]], transform_from(evs, i0 + 1, st, lv)));
                    lemma_prepend_assoc(
                        evs_view(out_mid),
                        seq![evs[i0]],
                        transform_from(evs, i0 + 1, st, lv),
                    );
                }
            },
        }
    }
    let ghost final_stack = gen.stack_model();
    let ghost final_last = gen.last_level as int;
    proof {
        assert(transform_from(evs, i as int, final_stack, final_last) == (TransformModel::Done {
            out: Seq::<EventView>::empty(),
            stack: final_stack,
            last: final_last,
        }));
        assert(evs_view(out@) + Seq::<EventView>::empty() =~= evs_view(out@));
        assert(whole == (TransformModel::Done {
            out: evs_view(out@),
            stack: final_stack,
            last: final_last,
        }));
    }
    let toc = gen.get_toc_value();
    Ok((out, toc))
}

/// The views of a sequence of optional rendered spans.
pub open spec fn renders_view(rs: Seq<Option<String>>) -> Seq<Option<Seq<char>>> {
    rs.map_values(|o: Option<String>| opt_view(o))
}

/// Routing of math spans: the `k`-th math span takes the `k`-th render; a
/// successful render becomes an HTML event in place, a failed or missing
/// one drops the span; every other event passes through.
pub open spec fn apply_math_from(
    evs: Seq<EventView>,
    i: int,
    renders: Seq<Option<Seq<char>>>,
    k: int,
) -> Seq<EventView>
    decreases evs.len() - i,
{
    if i < 0 || i >= evs.len() {
        Seq::empty()
    } else {
        match evs[i] {
            EventView::MathSpan { .. } => {
                let r = if 0 <= k < renders.len() {
                    renders[k]
                } else {
                    None
                };
                (match r {
                    Some(h) => seq![EventView::Html { body: h }],
                    None => Seq::empty(),
                }) + apply_math_from(evs, i + 1, renders, k + 1)
            },
            _ => seq![evs[i]] + apply_math_from(evs, i + 1, renders, k),
        }
    }
}

/// Splices the results of an external math renderer into the event stream:
/// the renders are consumed in math-span order, a successful render
/// replaces its span by an HTML event, and a failure drops the span so the
/// page still renders without it.
pub fn apply_math_renders(events: &Vec<DocEvent>, renders: &Vec<Option<String>>) -> (r: Vec<
    DocEvent,
>)
    ensures
        evs_view(r@) == apply_math_from(evs_view(events@), 0, renders_view(renders@), 0),
{
    let ghost evs = evs_view(events@);
    let ghost rv = renders_view(renders@);
    let mut out: Vec<DocEvent> = Vec::new();
    let mut i: usize = 0;
    let mut k: usize = 0;
    proof {
        assert(evs_view(out@) + apply_math_from(evs, 0, rv, 0) =~= apply_math_from(
            evs,
            0,
            rv,
            0,
        ));
    }
    while i < events.len()
        invariant
            i <= events@.len(),
            k <= i,
            evs == evs_view(events@),
            rv == renders_view(renders@),
            evs.len() == events@.len(),
            rv.len() == renders@.len(),
            apply_math_from(evs, 0, rv, 0) == evs_view(out@) + apply_math_from(
                evs,
                i as int,
                rv,
                k as int,
            ),
        decreases events@.len() - i,
    {
        let ghost i0 = i as int;
        let ghost k0 = k as int;
        let ghost out_mid = out@;
        proof {
            assert(evs[i0] == ev_view(events@[i0]));
        }
        match &events[i] {
            DocEvent::MathSpan { display, src } => {
                if k < renders.len() {
                    proof {
                        assert(rv[k0] == opt_view(renders@[k0]));
                    }
                    match &renders[k] {
                        Some(h) => {
                            out.push(DocEvent::Html { body: h.clone() });
                        },
                        None => {},
                    }
                }
                k = k + 1;
                i = i + 1;
                proof {
                    assert(evs_view(out@) + apply_math_from(evs, i as int, rv, k as int)
                        =~= evs_view(out_mid) + apply_math_from(evs, i0, rv, k0));
                }
            },
            _ => {
                out.push(clone_event(&events[i]));
                i = i + 1;
                proof {
                    assert(evs_view(out@) =~= evs_view(out_mid) + seq![evs[i0]]);
                    assert(evs_view(out@) + apply_math_from(evs, i as int, rv, k as int)
                        =~= evs_view(out_mid) + apply_math_from(evs, i0, rv, k0));
                }
            },
        }
    }
    proof {
        assert(apply_math_from(evs, i as int, rv, k as int) =~= Seq::<EventView>::empty());
        assert(evs_view(out@) + Seq::<EventView>::empty() =~= evs_view(out@));
    }
    out
}

/// Prepending distributes over composition of emitted prefixes.
proof fn lemma_prepend_assoc(a: Seq<EventView>, b: Seq<EventView>, m: TransformModel)
    ensures
        prepend(a, prepend(b, m)) == prepend(a + b, m),
{
    match m {
        TransformModel::Done { out, stack, last } => {
            assert(a + (b + out) =~= (a + b) + out);
        },
        TransformModel::Fail { .. } => {},
    }
}

} // verus!
