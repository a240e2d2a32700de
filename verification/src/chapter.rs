use vstd::prelude::*;

use crate::events::{views, Token, TokenV};
use crate::transducer::{spec_transform, transform};

use pulldown_cmark::Event as CmEvent;
use pulldown_cmark::{Options, Parser, Tag, TagEnd};

verus! {

/// What the external tokenizer yields for a chapter text: a function of
/// the text alone.
pub uninterp spec fn events_of(text: Seq<char>) -> Seq<TokenV>;

/// What the external re-serializer writes for an event stream, when it
/// accepts the stream: a function of the stream alone.
pub uninterp spec fn rendered(evs: Seq<TokenV>) -> Seq<char>;

/// Whether the external re-serializer accepts an event stream. Writing
/// into a string never fails, so acceptance too is a function of the
/// stream alone.
pub uninterp spec fn renders_ok(evs: Seq<TokenV>) -> bool;

/// Relies on pulldown_cmark::Parser::new_ext: the markdown tokenizer, run
/// with the five extensions the book processor enables; the event stream
/// is a function of the chapter text alone.
#[verifier::external_body]
fn parse_events(text: &str) -> (r: Vec<Token>)
    ensures
        views(r@) == events_of(text@),
{
    let opts = Options::ENABLE_TABLES.union(Options::ENABLE_FOOTNOTES).union(
        Options::ENABLE_STRIKETHROUGH,
    ).union(Options::ENABLE_TASKLISTS).union(Options::ENABLE_HEADING_ATTRIBUTES);
    Parser::new_ext(text, opts).map(|ev| match ev.into_static() {
        CmEvent::Start(Tag::Paragraph) => Token::ParagraphStart,
        CmEvent::End(TagEnd::Paragraph) => Token::ParagraphEnd,
        CmEvent::Text(t) => Token::Text(t.to_string()),
        CmEvent::SoftBreak => Token::SoftBreak,
        CmEvent::HardBreak => Token::HardBreak,
        CmEvent::Html(h) => Token::Html(h.to_string()),
        other => Token::Other(other),
    }).collect()
}

/// Relies on pulldown_cmark_to_cmark::cmark: the markdown re-serializer,
/// told the same parser extensions; whether it accepts the stream, and
/// the text it then writes, are functions of the event stream alone.
#[verifier::external_body]
fn render_events(events: Vec<Token>) -> (r: Option<String>)
    ensures
        r is Some <==> renders_ok(views(events@)),
        r matches Some(out) ==> out@ == rendered(views(events@)),
{
    let opts = Options::ENABLE_TABLES.union(Options::ENABLE_FOOTNOTES).union(
        Options::ENABLE_STRIKETHROUGH,
    ).union(Options::ENABLE_TASKLISTS).union(Options::ENABLE_HEADING_ATTRIBUTES);
    let it = events.into_iter().map(|ev| match ev {
        Token::ParagraphStart => CmEvent::Start(Tag::Paragraph),
        Token::ParagraphEnd => CmEvent::End(TagEnd::Paragraph),
        Token::Text(t) => CmEvent::Text(t.into()),
        Token::SoftBreak => CmEvent::SoftBreak, Token::HardBreak => CmEvent::HardBreak,
        Token::Html(h) => CmEvent::Html(h.into()),
        Token::Other(other) => other,
    });
    let mut buf = String::new();
    match pulldown_cmark_to_cmark::cmark(it, &mut buf, opts) { Ok(_) => Some(buf), Err(_) => None }
}

/// Transforms one chapter's text: tokenize, rewrite each paragraph whose
/// first line is exactly a `{:.classes}` marker, re-serialize. Succeeds
/// if and only if the re-serializer accepts the transformed stream, and
/// then returns its text: a pure function of the chapter text, so equal
/// texts give equal results. On `None` a caller leaves the chapter as it
/// was.
pub fn classy_content(text: &str) -> (r: Option<String>)
    ensures
        r is Some <==> renders_ok(spec_transform(events_of(text@))),
        r matches Some(out) ==> out@ == rendered(spec_transform(events_of(text@))),
{
    let events = parse_events(text);
    let transformed = transform(events);
    render_events(transformed)
}

} // verus!
