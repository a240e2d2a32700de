use classy::chapter::classy_content;
use classy::Classy;

#[test]
fn annotated_paragraph_gains_a_wrapper() {
    let input = "{:.warning}\ncareful!\n";
    let out = classy_content(input).expect("re-rendering should succeed");
    assert!(out.contains("<div class=\"warning\">"));
    assert!(out.contains("careful!"));
    assert!(out.contains("</div>"));
    assert!(!out.contains("{:.warning}"));
}

#[test]
fn multi_class_marker_keeps_its_payload() {
    let input = "{:.a b c}\nbody\n";
    let out = classy_content(input).expect("re-rendering should succeed");
    assert!(out.contains("<div class=\"a b c\">"));
    assert!(out.contains("body"));
    assert!(out.contains("</div>"));
}

#[test]
fn plain_chapter_keeps_its_content_unwrapped() {
    let input = "# Title\n\nhello world\n";
    let out = classy_content(input).expect("re-rendering should succeed");
    assert!(out.contains("# Title"));
    assert!(out.contains("hello world"));
    assert!(!out.contains("<div"));
}

#[test]
fn marker_with_trailing_text_is_not_wrapped() {
    let input = "{:.x} and more text\n";
    let out = classy_content(input).expect("re-rendering should succeed");
    assert!(out.contains("and more text"));
    assert!(!out.contains("<div"));
}

#[test]
fn only_annotated_paragraphs_are_wrapped() {
    let input = "{:.note}\nfirst\n\nsecond paragraph\n";
    let out = classy_content(input).expect("re-rendering should succeed");
    assert!(out.contains("<div class=\"note\">"));
    assert!(out.contains("first"));
    assert!(out.contains("second paragraph"));
    assert_eq!(out.matches("<div").count(), 1);
    assert_eq!(out.matches("</div>").count(), 1);
}

#[test]
fn name_is_classy() {
    assert_eq!(Classy::new().name(), "classy");
}

#[test]
fn supports_only_the_html_renderer() {
    let pre = Classy::new();
    assert!(pre.supports_renderer("html"));
    assert!(!pre.supports_renderer("epub"));
    assert!(!pre.supports_renderer(""));
}

#[test]
fn default_builds_a_preprocessor() {
    let pre: Classy = Default::default();
    assert!(pre.supports_renderer("html"));
}

#[test]
fn heading_attributes_survive_alongside_a_marker() {
    let input = "# Title {#intro .big}\n\n{:.warning}\ncareful!\n";
    let out = classy_content(input).expect("re-rendering should succeed");
    assert!(out.contains("Title"));
    assert!(out.contains("#intro"));
    assert!(out.contains("<div class=\"warning\">"));
    assert!(out.contains("careful!"));
    assert!(out.contains("</div>"));
}
