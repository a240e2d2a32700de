use classy::events::Token;
use classy::transducer::transform;

#[test]
fn marker_paragraph_is_wrapped() {
    let input = vec![
        Token::ParagraphStart,
        Token::Text(String::from("{:.warning}")),
        Token::SoftBreak,
        Token::Text(String::from("careful!")),
        Token::ParagraphEnd,
    ];
    let expected = vec![
        Token::Html(String::from("<div class=\"warning\">")),
        Token::ParagraphStart,
        Token::Text(String::from("careful!")),
        Token::ParagraphEnd,
        Token::Html(String::from("</div>")),
    ];
    assert_eq!(transform(input), expected);
}

#[test]
fn marker_with_trailing_text_is_unchanged() {
    let input = vec![
        Token::ParagraphStart,
        Token::Text(String::from("{:.x} more")),
        Token::ParagraphEnd,
    ];
    let expected = vec![
        Token::ParagraphStart,
        Token::Text(String::from("{:.x} more")),
        Token::ParagraphEnd,
    ];
    assert_eq!(transform(input), expected);
}

#[test]
fn multi_class_payload_is_kept_verbatim() {
    let input = vec![
        Token::ParagraphStart,
        Token::Text(String::from("{:.a b c}")),
        Token::SoftBreak,
        Token::Text(String::from("body")),
        Token::ParagraphEnd,
    ];
    let expected = vec![
        Token::Html(String::from("<div class=\"a b c\">")),
        Token::ParagraphStart,
        Token::Text(String::from("body")),
        Token::ParagraphEnd,
        Token::Html(String::from("</div>")),
    ];
    assert_eq!(transform(input), expected);
}

#[test]
fn hard_break_confirms_a_marker_too() {
    let input = vec![
        Token::ParagraphStart,
        Token::Text(String::from("{:.note}")),
        Token::HardBreak,
        Token::Text(String::from("hello")),
        Token::ParagraphEnd,
    ];
    let expected = vec![
        Token::Html(String::from("<div class=\"note\">")),
        Token::ParagraphStart,
        Token::Text(String::from("hello")),
        Token::ParagraphEnd,
        Token::Html(String::from("</div>")),
    ];
    assert_eq!(transform(input), expected);
}

#[test]
fn marker_followed_by_more_text_is_retracted() {
    let input = vec![
        Token::ParagraphStart,
        Token::Text(String::from("{:.foo}")),
        Token::Text(String::from(" and more text")),
        Token::ParagraphEnd,
    ];
    let expected = vec![
        Token::ParagraphStart,
        Token::Text(String::from("{:.foo}")),
        Token::Text(String::from(" and more text")),
        Token::ParagraphEnd,
    ];
    assert_eq!(transform(input), expected);
}

#[test]
fn marker_alone_with_no_break_is_plain_text() {
    let input = vec![
        Token::ParagraphStart,
        Token::Text(String::from("{:.foo}")),
        Token::ParagraphEnd,
    ];
    let expected = vec![
        Token::ParagraphStart,
        Token::Text(String::from("{:.foo}")),
        Token::ParagraphEnd,
    ];
    assert_eq!(transform(input), expected);
}

fn empty_class_list_stream() -> Vec<Token> {
    vec![
        Token::ParagraphStart,
        Token::Text(String::from("{:.}")),
        Token::SoftBreak,
        Token::Text(String::from("text")),
        Token::ParagraphEnd,
    ]
}

#[test]
fn empty_class_list_is_not_a_marker() {
    assert_eq!(transform(empty_class_list_stream()), empty_class_list_stream());
}

#[test]
fn single_letter_class_is_the_shortest_marker() {
    let input = vec![
        Token::ParagraphStart,
        Token::Text(String::from("{:.a}")),
        Token::SoftBreak,
        Token::Text(String::from("t")),
        Token::ParagraphEnd,
    ];
    let out = transform(input);
    assert_eq!(out[0], Token::Html(String::from("<div class=\"a\">")));
    assert_eq!(out[4], Token::Html(String::from("</div>")));
}

#[test]
fn empty_paragraph_is_unchanged() {
    let input = vec![Token::ParagraphStart, Token::ParagraphEnd];
    let expected = vec![Token::ParagraphStart, Token::ParagraphEnd];
    assert_eq!(transform(input), expected);
}

fn outside_paragraph_stream() -> Vec<Token> {
    vec![
        Token::Other(pulldown_cmark::Event::Rule),
        Token::Html(String::from("<hr/>")),
        Token::Text(String::from("stray")),
        Token::SoftBreak,
    ]
}

#[test]
fn events_outside_paragraphs_pass_through() {
    assert_eq!(transform(outside_paragraph_stream()), outside_paragraph_stream());
}

#[test]
fn rerun_on_transformed_output_changes_nothing() {
    let input = vec![
        Token::ParagraphStart,
        Token::Text(String::from("{:.warning}")),
        Token::SoftBreak,
        Token::Text(String::from("careful!")),
        Token::ParagraphEnd,
    ];
    let once = transform(input);
    let input_again = vec![
        Token::ParagraphStart,
        Token::Text(String::from("{:.warning}")),
        Token::SoftBreak,
        Token::Text(String::from("careful!")),
        Token::ParagraphEnd,
    ];
    let twice = transform(transform(input_again));
    assert_eq!(twice, once);
}

#[test]
fn open_and_close_fragments_stay_balanced() {
    let input = vec![
        Token::ParagraphStart,
        Token::Text(String::from("{:.a}")),
        Token::SoftBreak,
        Token::Text(String::from("one")),
        Token::ParagraphEnd,
        Token::ParagraphStart,
        Token::Text(String::from("plain")),
        Token::ParagraphEnd,
        Token::ParagraphStart,
        Token::Text(String::from("{:.b c}")),
        Token::HardBreak,
        Token::Text(String::from("two")),
        Token::ParagraphEnd,
    ];
    let out = transform(input);
    let opens = out
        .iter()
        .filter(|t| matches!(t, Token::Html(h) if h.starts_with("<div class=\"")))
        .count();
    let closes = out
        .iter()
        .filter(|t| matches!(t, Token::Html(h) if h.as_str() == "</div>"))
        .count();
    assert_eq!(opens, 2);
    assert_eq!(closes, 2);
}

#[test]
fn unbalanced_end_without_start_does_not_crash() {
    let input = vec![Token::Text(String::from("x")), Token::ParagraphEnd];
    let expected = vec![Token::Text(String::from("x")), Token::ParagraphEnd];
    assert_eq!(transform(input), expected);
}

#[test]
fn stream_ending_inside_an_accepted_marker_is_best_effort() {
    let input = vec![
        Token::ParagraphStart,
        Token::Text(String::from("{:.foo}")),
    ];
    let out = transform(input);
    assert_eq!(out, vec![Token::Html(String::from("<div class=\"foo\">"))]);
}

#[test]
fn rerun_after_a_retracted_marker_changes_nothing() {
    let stream = || {
        vec![
            Token::ParagraphStart,
            Token::Text(String::from("{:.foo}")),
            Token::Text(String::from(" and more")),
            Token::ParagraphEnd,
        ]
    };
    let once = transform(stream());
    let twice = transform(transform(stream()));
    assert_eq!(twice, once);
}
