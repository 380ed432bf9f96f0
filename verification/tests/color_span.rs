use korangar::color_span::{color_spans, ColorSpanIterator, SpanColor};

fn span_texts(text: &str) -> Vec<&str> {
    color_spans(text.as_bytes()).iter().map(|span| &text[span.start..span.end]).collect()
}

#[test]
fn test_basic_color_change() {
    let text = "Hello ^FF0000Red ^00FF00Green";
    let spans = span_texts(text);

    assert_eq!(spans.len(), 3);
    assert_eq!(spans[0], "Hello ");
    assert_eq!(spans[1], "Red ");
    assert_eq!(spans[2], "Green");
}

#[test]
fn test_reset_to_default_color() {
    let text = "^FF0000Red ^000000Default";
    let spans = span_texts(text);

    assert_eq!(spans.len(), 2);
    assert_eq!(spans[0], "Red ");
    assert_eq!(spans[1], "Default");
}

#[test]
fn test_invalid_color_codes() {
    let text = "^FFInvalid ^FF00 ^FFFF00Valid";
    let spans = span_texts(text);

    assert_eq!(spans.len(), 2);
    assert_eq!(spans[0], "^FFInvalid ^FF00 ");
    assert_eq!(spans[1], "Valid");
}

#[test]
fn test_empty_text_between_colors() {
    let text = "^FF0000^00FF00^0000FF";
    let spans = span_texts(text);

    assert_eq!(spans.len(), 0);
}

#[test]
fn test_color_code_at_end() {
    let text = "Text^FF0000";
    let spans = span_texts(text);

    assert_eq!(spans.len(), 1);
    assert_eq!(spans[0], "Text");
}

#[test]
fn test_caret_at_end() {
    let text = "Normal text ^FFFF00Colored text^";
    let spans = span_texts(text);

    assert_eq!(spans.len(), 2);
    assert_eq!(spans[0], "Normal text ");
    assert_eq!(spans[1], "Colored text^");
}

#[test]
fn test_consecutive_color_changes() {
    let text = "^AAAAAA^BBBBBBtext^CCCCCCmore^DDDDDDlast";
    let spans = span_texts(text);

    assert_eq!(spans.len(), 3);
    assert_eq!(spans[0], "text");
    assert_eq!(spans[1], "more");
    assert_eq!(spans[2], "last");
}

#[test]
fn test_empty_input() {
    let text = "";
    let spans = span_texts(text);

    assert_eq!(spans.len(), 0);
}

#[test]
fn test_highlight_color() {
    let text = "^000001Highlighted ^000000Default";
    let spans = color_spans(text.as_bytes());

    assert_eq!(spans.len(), 2);
    assert_eq!(&text[spans[0].start..spans[0].end], "Highlighted ");
    assert_eq!(&text[spans[1].start..spans[1].end], "Default");
    assert_eq!(spans[0].color, SpanColor::Highlight);
    assert_eq!(spans[1].color, SpanColor::Default);
}

#[test]
fn span_colors_follow_the_codes() {
    let text = "plain ^FF8000orange ^00ff7fgreen";
    let spans = color_spans(text.as_bytes());
    assert_eq!(spans.len(), 3);
    assert_eq!(spans[0].color, SpanColor::Inherited);
    assert_eq!(spans[1].color, SpanColor::Rgb(0xFF, 0x80, 0x00));
    assert_eq!(spans[2].color, SpanColor::Rgb(0x00, 0xFF, 0x7F));
}

#[test]
fn the_iterator_hands_out_the_spans_one_by_one() {
    let text = "a^123456b";
    let mut iterator = ColorSpanIterator::new(text.as_bytes());
    let first = iterator.next().unwrap();
    assert_eq!((first.start, first.end, first.color), (0, 1, SpanColor::Inherited));
    let second = iterator.next().unwrap();
    assert_eq!((second.start, second.end, second.color), (8, 9, SpanColor::Rgb(0x12, 0x34, 0x56)));
    assert_eq!(iterator.next(), None);
    assert_eq!(iterator.next(), None);
}

#[test]
fn spans_cover_everything_but_the_codes() {
    let text = "x^ABCDEF^^GG^012345yz";
    let spans = color_spans(text.as_bytes());
    let shown: String = spans.iter().map(|span| &text[span.start..span.end]).collect();
    assert_eq!(shown, "x^^GGyz");
    for pair in spans.windows(2) {
        assert!(pair[0].end <= pair[1].start);
    }
    assert!(spans.iter().all(|span| span.start < span.end));
}

#[test]
fn non_ascii_text_keeps_its_characters() {
    let text = "워터 ^FF0000물";
    let spans = span_texts(text);
    assert_eq!(spans, vec!["워터 ", "물"]);
}

#[test]
fn the_iterator_skips_codes_that_show_nothing() {
    let text = "^000001^FF0000red^000000";
    let mut iterator = ColorSpanIterator::new(text.as_bytes());
    let only = iterator.next().unwrap();
    assert_eq!((only.start, only.end, only.color), (14, 17, SpanColor::Rgb(0xFF, 0x00, 0x00)));
    assert_eq!(&text[only.start..only.end], "red");
    assert_eq!(iterator.next(), None);
}
