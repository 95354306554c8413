use sitegen::transform::apply_math_renders;
use sitegen::transform::transform_events;
use sitegen::transform::DocEvent;

fn heading(level: u8) -> DocEvent {
    DocEvent::HeadingStart { level, id: None }
}

fn text(s: &str) -> DocEvent {
    DocEvent::Text {
        content: s.to_string(),
    }
}

#[test]
fn heading_gets_anchor_and_feeds_toc() {
    let events = vec![heading(2), text("Hello World"), text("body")];
    let (out, toc) = transform_events("Title", &events).unwrap();
    assert_eq!(
        out[0],
        DocEvent::HeadingStart {
            level: 2,
            id: Some("hello_world".to_string()),
        }
    );
    assert_eq!(out[1], text("Hello World"));
    assert_eq!(out[2], text("body"));
    let tree = toc.unwrap();
    assert_eq!(tree.text, "Title");
    assert_eq!(tree.children.len(), 1);
    assert_eq!(tree.children[0].text, "Hello World");
    assert_eq!(tree.children[0].url, "#hello_world");
}

#[test]
fn heading_followed_by_non_text_passes_unchanged() {
    let events = vec![heading(2), DocEvent::Other { token: 7 }];
    let (out, toc) = transform_events("T", &events).unwrap();
    assert_eq!(out[0], heading(2));
    assert_eq!(out[1], DocEvent::Other { token: 7 });
    let tree = toc.unwrap();
    assert_eq!(tree.children[0].url, "#generated_toc_entry_1");
}

#[test]
fn code_block_becomes_highlighted_html() {
    let events = vec![
        DocEvent::CodeBlockStart {
            lang: Some("c".to_string()),
        },
        text("int main(void) { return 0; }\n"),
        DocEvent::CodeBlockEnd,
    ];
    let (out, _) = transform_events("T", &events).unwrap();
    assert_eq!(out.len(), 1);
    match &out[0] {
        DocEvent::Html { body } => {
            assert!(body.starts_with("<pre class=\"highlight\">\n"));
            assert!(body.ends_with("</pre>\n"));
            assert!(body.contains("<span"), "token markup expected: {body}");
            assert!(body.contains("return"));
        }
        other => panic!("expected highlighted html, got {other:?}"),
    }
}

#[test]
fn indented_code_block_falls_back_to_plain_text() {
    let events = vec![
        DocEvent::CodeBlockStart { lang: None },
        text("just words\n"),
        DocEvent::CodeBlockEnd,
    ];
    let (out, _) = transform_events("T", &events).unwrap();
    match &out[0] {
        DocEvent::Html { body } => {
            assert!(body.contains("just words"));
        }
        other => panic!("expected html, got {other:?}"),
    }
}

#[test]
fn unterminated_code_block_emits_nothing() {
    let events = vec![
        DocEvent::CodeBlockStart { lang: None },
        text("lost\n"),
    ];
    let (out, _) = transform_events("T", &events).unwrap();
    assert!(out.is_empty());
}

#[test]
fn level_one_heading_aborts_transformation() {
    let events = vec![heading(1), text("Nope")];
    let err = transform_events("T", &events).expect_err("must fail");
    assert_eq!(err.text, "Nope");
    assert_eq!(err.url, "#nope");
}

#[test]
fn sentinel_heading_passes_through() {
    let events = vec![heading(1), text("$"), heading(2), text("Real")];
    let (out, toc) = transform_events("T", &events).unwrap();
    assert_eq!(out[0], heading(1));
    assert_eq!(out[1], text("$"));
    let tree = toc.unwrap();
    assert_eq!(tree.children.len(), 1);
    assert_eq!(tree.children[0].text, "Real");
}

#[test]
fn other_events_pass_through_in_order() {
    let events = vec![
        DocEvent::Other { token: 1 },
        DocEvent::Html {
            body: "<hr/>".to_string(),
        },
        DocEvent::MathSpan {
            display: false,
            src: "x^2".to_string(),
        },
    ];
    let (out, _) = transform_events("T", &events).unwrap();
    assert_eq!(out, events);
}

#[test]
fn math_renders_spliced_or_dropped() {
    let events = vec![
        DocEvent::MathSpan {
            display: false,
            src: "a".to_string(),
        },
        text("between"),
        DocEvent::MathSpan {
            display: true,
            src: "b".to_string(),
        },
    ];
    let renders = vec![Some("<mi>a</mi>".to_string()), None];
    let out = apply_math_renders(&events, &renders);
    assert_eq!(
        out,
        vec![
            DocEvent::Html {
                body: "<mi>a</mi>".to_string(),
            },
            text("between"),
        ]
    );
}

#[test]
fn heading_at_end_of_stream_stays_unrewritten() {
    let events = vec![heading(2)];
    let (out, toc) = transform_events("T", &events).unwrap();
    assert_eq!(out, vec![heading(2)]);
    let tree = toc.unwrap();
    assert_eq!(tree.children[0].url, "#generated_toc_entry_1");
}

#[test]
fn empty_event_stream_yields_root_only() {
    let (out, toc) = transform_events("Lonely", &Vec::new()).unwrap();
    assert!(out.is_empty());
    let tree = toc.unwrap();
    assert_eq!(tree.text, "Lonely");
    assert!(tree.children.is_empty());
}
