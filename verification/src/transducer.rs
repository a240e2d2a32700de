use vstd::prelude::*;

use crate::events::{views, Token, TokenV};
use crate::marker::{
    class_list, class_of, close_frag, close_fragment, is_marker, marker_check, open_frag,
    open_fragment,
};

verus! {

/// The transducer's control state: not inside a candidate (`BeforeStart`),
/// just saw a paragraph start and looking at the first content token
/// (`Expecting`), tentatively recognized a marker and waiting for the line
/// break that confirms it (`Accepted`, holding the marker text), or inside
/// a confirmed wrapper replaying the paragraph (`Inner`).
pub enum State {
    BeforeStart,
    Expecting,
    Accepted(String),
    Inner,
}

/// The mathematical model of a control state.
#[verifier::ext_equal]
pub enum StateV {
    BeforeStart,
    Expecting,
    Accepted(Seq<char>),
    Inner,
}

impl View for State {
    type V = StateV;

    open spec fn view(&self) -> StateV {
        match self {
            State::BeforeStart => StateV::BeforeStart,
            State::Expecting => StateV::Expecting,
            State::Accepted(t) => StateV::Accepted(t@),
            State::Inner => StateV::Inner,
        }
    }
}

/// One transition of the state machine: from the output built so far, the
/// control state and the next input event, to the new output and state.
///
/// A paragraph start is withheld (nothing emitted) until the next event
/// decides whether the paragraph is annotated. A tentatively accepted
/// marker has already put its wrapper-open fragment at the end of the
/// output; a confirming line break keeps it and re-opens the paragraph,
/// while anything else retracts it (the single "undo last push") and
/// replays the withheld start, the marker text and the current event as
/// ordinary content.
pub open spec fn step(out: Seq<TokenV>, st: StateV, ev: TokenV) -> (Seq<TokenV>, StateV) {
    match st {
        StateV::Accepted(t) => {
            if ev is SoftBreak || ev is HardBreak {
                (out.push(TokenV::ParagraphStart), StateV::Inner)
            } else {
                (
                    out.drop_last().push(TokenV::ParagraphStart).push(TokenV::Text(t)).push(ev),
                    StateV::BeforeStart,
                )
            }
        },
        _ => match ev {
            TokenV::ParagraphStart => (out, StateV::Expecting),
            TokenV::Text(t) => {
                if st is Expecting {
                    if is_marker(t) {
                        (
                            out.push(TokenV::Html(open_frag(class_list(t)))),
                            StateV::Accepted(t),
                        )
                    } else {
                        (
                            out.push(TokenV::ParagraphStart).push(TokenV::Text(t)),
                            StateV::BeforeStart,
                        )
                    }
                } else {
                    (out.push(TokenV::Text(t)), st)
                }
            },
            TokenV::ParagraphEnd => {
                let o = if st is Expecting {
                    out.push(TokenV::ParagraphStart)
                } else {
                    out
                };
                let o2 = o.push(TokenV::ParagraphEnd);
                let o3 = if st is Inner {
                    o2.push(TokenV::Html(close_frag()))
                } else {
                    o2
                };
                (o3, StateV::BeforeStart)
            },
            _ => {
                if st is Expecting {
                    (out.push(TokenV::ParagraphStart).push(ev), StateV::BeforeStart)
                } else {
                    (out.push(ev), st)
                }
            },
        },
    }
}

/// The machine folded over a whole input suffix.
pub open spec fn run(out: Seq<TokenV>, st: StateV, evs: Seq<TokenV>) -> (Seq<TokenV>, StateV)
    decreases evs.len(),
{
    if evs.len() == 0 {
        (out, st)
    } else {
        let stepped = step(out, st, evs[0]);
        run(stepped.0, stepped.1, evs.subrange(1, evs.len() as int))
    }
}

/// The whole output stream for a whole input stream: the machine started
/// on an empty output in its initial state.
pub open spec fn spec_transform(evs: Seq<TokenV>) -> Seq<TokenV> {
    run(Seq::empty(), StateV::BeforeStart, evs).0
}

/// Rewrites an event stream so that each paragraph whose first line is
/// exactly a `{:.classes}` marker is wrapped in a block container carrying
/// those classes, with the marker itself removed; everything else passes
/// through unchanged. A single left-to-right pass with one token of
/// look-ahead; it never fails, whatever the input.
pub fn transform(events: Vec<Token>) -> (r: Vec<Token>)
    ensures
        views(r@) == spec_transform(views(events@)),
{
    let ghost all: Seq<TokenV> = views(events@);
    let mut input = events;
    let mut out: Vec<Token> = Vec::new();
    let mut state = State::BeforeStart;
    proof {
        assert(views(out@) =~= Seq::<TokenV>::empty());
    }
    while input.len() > 0
        invariant
            run(views(out@), state@, views(input@)) == run(
                Seq::empty(),
                StateV::BeforeStart,
                all,
            ),
            state@ is Accepted ==> out@.len() > 0,
        decreases input.len(),
    {
        let ghost pre_out = views(out@);
        let ghost pre_st = state@;
        let ghost pre_in = views(input@);
        let ev = input.remove(0);
        proof {
            assert(views(input@) =~= pre_in.subrange(1, pre_in.len() as int));
            assert(ev@ == pre_in[0]);
        }
        let mut st = State::BeforeStart;
        core::mem::swap(&mut st, &mut state);
        match st {
            State::Accepted(t) => {
                if matches!(ev, Token::SoftBreak | Token::HardBreak) {
                    out.push(Token::ParagraphStart);
                    state = State::Inner;
                } else {
                    let _ = out.pop();
                    out.push(Token::ParagraphStart);
                    out.push(Token::Text(t));
                    out.push(ev);
                    state = State::BeforeStart;
                }
            },
            st2 => {
                let expecting = matches!(&st2, State::Expecting);
                match ev {
                    Token::ParagraphStart => {
                        state = State::Expecting;
                    },
                    Token::Text(text) => {
                        if expecting {
                            if marker_check(text.as_str()) {
                                out.push(Token::Html(open_fragment(class_of(text.as_str()))));
                                state = State::Accepted(text);
                            } else {
                                out.push(Token::ParagraphStart);
                                out.push(Token::Text(text));
                                state = State::BeforeStart;
                            }
                        } else {
                            out.push(Token::Text(text));
                            state = st2;
                        }
                    },
                    Token::ParagraphEnd => {
                        if expecting {
                            out.push(Token::ParagraphStart);
                        }
                        out.push(Token::ParagraphEnd);
                        if matches!(&st2, State::Inner) {
                            out.push(Token::Html(close_fragment()));
                        }
                        state = State::BeforeStart;
                    },
                    other => {
                        if expecting {
                            out.push(Token::ParagraphStart);
                            out.push(other);
                            state = State::BeforeStart;
                        } else {
                            out.push(other);
                            state = st2;
                        }
                    },
                }
            },
        }
        proof {
            let stepped = step(pre_out, pre_st, pre_in[0]);
            assert(views(out@) =~= stepped.0);
            assert(state@ == stepped.1);
        }
    }
    proof {
        assert(views(input@) =~= Seq::<TokenV>::empty());
    }
    out
}

} // verus!
