use vstd::prelude::*;

verus! {

/// Declares pulldown_cmark's event type so that values of it can ride
/// through the stream untouched; the transducer never looks inside one.
#[verifier::external_type_specification]
#[verifier::external_body]
pub struct ExCmarkEvent<'a>(pulldown_cmark::Event<'a>);

/// One typed token of the abstract document model. The transducer reads
/// paragraph boundaries, text runs and line breaks; every other kind of
/// token is carried through unchanged as `Other`.
#[derive(Debug, PartialEq)]
pub enum Token {
    ParagraphStart,
    ParagraphEnd,
    Text(String),
    SoftBreak,
    HardBreak,
    Html(String),
    Other(pulldown_cmark::Event<'static>),
}

/// The mathematical model of a `Token`: text payloads become character
/// sequences; foreign tokens stay the abstract value they are.
#[verifier::ext_equal]
pub enum TokenV {
    ParagraphStart,
    ParagraphEnd,
    Text(Seq<char>),
    SoftBreak,
    HardBreak,
    Html(Seq<char>),
    Other(pulldown_cmark::Event<'static>),
}

impl View for Token {
    type V = TokenV;

    open spec fn view(&self) -> TokenV {
        match self {
            Token::ParagraphStart => TokenV::ParagraphStart,
            Token::ParagraphEnd => TokenV::ParagraphEnd,
            Token::Text(s) => TokenV::Text(s@),
            Token::SoftBreak => TokenV::SoftBreak,
            Token::HardBreak => TokenV::HardBreak,
            Token::Html(s) => TokenV::Html(s@),
            Token::Other(e) => TokenV::Other(*e),
        }
    }
}

/// The model of a sequence of events.
pub open spec fn views(s: Seq<Token>) -> Seq<TokenV> {
    s.map_values(|e: Token| e@)
}

} // verus!
