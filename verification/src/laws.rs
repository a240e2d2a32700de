use vstd::prelude::*;

use crate::events::TokenV;
use crate::marker::{class_list, close_frag, is_marker, open_frag};
use crate::transducer::{run, spec_transform, step, StateV};

verus! {

/// Running the machine over a concatenation is running it over the first
/// part and then, from where that left off, over the second.
pub proof fn lemma_run_append(o: Seq<TokenV>, st: StateV, a: Seq<TokenV>, b: Seq<TokenV>)
    ensures
        run(o, st, a + b) == run(run(o, st, a).0, run(o, st, a).1, b),
    decreases a.len(),
{
    if a.len() == 0 {
        assert(a + b =~= b);
        assert(run(o, st, a) == (o, st));
    } else {
        let stepped = step(o, st, a[0]);
        assert((a + b)[0] == a[0]);
        assert((a + b).subrange(1, (a + b).len() as int) =~= a.subrange(1, a.len() as int) + b);
        lemma_run_append(stepped.0, stepped.1, a.subrange(1, a.len() as int), b);
    }
}

/// Output already committed before some input is processed is never
/// touched again: it stays as a prefix of whatever the machine builds.
/// (The one retraction the machine makes only ever removes the wrapper
/// fragment it pushed itself, which is why an `Accepted` state demands a
/// non-empty uncommitted part.)
pub proof fn lemma_run_out_prefix(o: Seq<TokenV>, o2: Seq<TokenV>, st: StateV, evs: Seq<TokenV>)
    requires
        st is Accepted ==> o2.len() > 0,
    ensures
        run(o + o2, st, evs).0 == o + run(o2, st, evs).0,
        run(o + o2, st, evs).1 == run(o2, st, evs).1,
    decreases evs.len(),
{
    if evs.len() == 0 {
    } else {
        let ev = evs[0];
        let s1 = step(o + o2, st, ev);
        let s2 = step(o2, st, ev);
        assert(s1.1 == s2.1);
        assert(s1.0 =~= o + s2.0) by {
            if st is Accepted && !(ev is SoftBreak || ev is HardBreak) {
                assert((o + o2).drop_last() =~= o + o2.drop_last());
            }
        }
        assert(s2.1 is Accepted ==> s2.0.len() > 0);
        lemma_run_out_prefix(o, s2.0, s2.1, evs.subrange(1, evs.len() as int));
        assert(run(o + o2, st, evs).0 == run(s1.0, s1.1, evs.subrange(1, evs.len() as int)).0);
    }
}

/// Whenever the machine stands in its initial state after some prefix,
/// the whole transformation splits there: transforming the concatenation
/// is concatenating the transformations.
pub proof fn lemma_transform_compose(a: Seq<TokenV>, b: Seq<TokenV>)
    requires
        run(Seq::empty(), StateV::BeforeStart, a).1 is BeforeStart,
    ensures
        spec_transform(a + b) == spec_transform(a) + spec_transform(b),
{
    let ra = run(Seq::<TokenV>::empty(), StateV::BeforeStart, a);
    lemma_run_append(Seq::empty(), StateV::BeforeStart, a, b);
    assert(ra.0 + Seq::<TokenV>::empty() =~= ra.0);
    lemma_run_out_prefix(ra.0, Seq::empty(), ra.1, b);
}

/// Events outside any paragraph pass through: on a stretch of input that
/// opens no paragraph, the machine in its initial state emits every event
/// unchanged, in its original place, and ends where it began.
pub proof fn lemma_run_passthrough(o: Seq<TokenV>, evs: Seq<TokenV>)
    requires
        forall|i: int| 0 <= i < evs.len() ==> !(#[trigger] evs[i] is ParagraphStart),
    ensures
        run(o, StateV::BeforeStart, evs) == (o + evs, StateV::BeforeStart),
    decreases evs.len(),
{
    if evs.len() == 0 {
        assert(o + evs =~= o);
    } else {
        let ev = evs[0];
        let stepped = step(o, StateV::BeforeStart, ev);
        assert(stepped.0 =~= o.push(ev));
        assert(stepped.1 == StateV::BeforeStart);
        let rest = evs.subrange(1, evs.len() as int);
        lemma_run_passthrough(o.push(ev), rest);
        assert(o.push(ev) + rest =~= o + evs);
    }
}

/// Non-paragraph passthrough: a stream with no paragraph start in it --
/// headings, code blocks, lists, stray content -- is emitted unchanged
/// and in its original relative order.
pub proof fn lemma_non_paragraph_passthrough(evs: Seq<TokenV>)
    requires
        forall|i: int| 0 <= i < evs.len() ==> !(#[trigger] evs[i] is ParagraphStart),
    ensures
        spec_transform(evs) == evs,
{
    lemma_run_passthrough(Seq::empty(), evs);
    assert(Seq::<TokenV>::empty() + evs =~= evs);
}

/// A text run shaped like a class marker.
pub open spec fn is_marker_token(ev: TokenV) -> bool {
    match ev {
        TokenV::Text(t) => is_marker(t),
        _ => false,
    }
}

/// A stream with no remaining marker-shaped first line: marker-shaped
/// text right after a paragraph start is never confirmed by a line break
/// (and the stream neither opens a paragraph twice in a row nor ends on
/// a dangling start, which would make the machine drop the withheld
/// start).
pub open spec fn no_fresh_markers(evs: Seq<TokenV>) -> bool {
    (forall|i: int|
        1 <= i < evs.len() && evs[i - 1] is ParagraphStart ==> !((#[trigger] evs[i])
            is ParagraphStart)) && (forall|i: int|
        1 <= i < evs.len() && evs[i - 1] is ParagraphStart && is_marker_token(
            #[trigger] evs[i],
        ) ==> i + 1 < evs.len() && !(evs[i + 1] is SoftBreak) && !(evs[i + 1] is HardBreak)) && (
    evs.len() > 0 ==> !(evs[evs.len() - 1] is ParagraphStart))
}

proof fn lemma_nfm_suffix(evs: Seq<TokenV>, k: int)
    requires
        no_fresh_markers(evs),
        0 <= k <= evs.len(),
    ensures
        no_fresh_markers(evs.subrange(k, evs.len() as int)),
{
    let rest = evs.subrange(k, evs.len() as int);
    assert forall|i: int|
        1 <= i < rest.len() && rest[i - 1] is ParagraphStart implies !((#[trigger] rest[i])
        is ParagraphStart) by {
        assert(rest[i - 1] == evs[i + k - 1]);
        assert(rest[i] == evs[i + k]);
    }
    assert forall|i: int|
        1 <= i < rest.len() && rest[i - 1] is ParagraphStart && is_marker_token(
            #[trigger] rest[i],
        ) implies i + 1 < rest.len() && !(rest[i + 1] is SoftBreak) && !(rest[i + 1]
        is HardBreak) by {
        assert(rest[i - 1] == evs[i + k - 1]);
        assert(rest[i] == evs[i + k]);
        assert(i + k + 1 < evs.len());
        assert(rest[i + 1] == evs[i + k + 1]);
    }
    if rest.len() > 0 {
        assert(rest[rest.len() - 1] == evs[evs.len() - 1]);
    }
}

proof fn lemma_run_no_fresh_markers(o: Seq<TokenV>, evs: Seq<TokenV>)
    requires
        no_fresh_markers(evs),
    ensures
        run(o, StateV::BeforeStart, evs) == (o + evs, StateV::BeforeStart),
    decreases evs.len(),
{
    if evs.len() == 0 {
        assert(o + evs =~= o);
    } else if evs[0] is ParagraphStart {
        assert(evs.len() >= 2) by {
            assert(!(evs[evs.len() - 1] is ParagraphStart));
        }
        let rest1 = evs.subrange(1, evs.len() as int);
        assert(rest1[0] == evs[1]);
        assert(!(evs[1] is ParagraphStart));
        assert(run(o, StateV::BeforeStart, evs) == run(o, StateV::Expecting, rest1));
        if is_marker_token(evs[1]) {
            let t = evs[1]->Text_0;
            assert(evs.len() >= 3 && !(evs[2] is SoftBreak) && !(evs[2] is HardBreak));
            let o1 = o.push(TokenV::Html(open_frag(class_list(t))));
            assert(step(o, StateV::Expecting, evs[1]) == (o1, StateV::Accepted(t)));
            let rest2 = evs.subrange(2, evs.len() as int);
            assert(rest1.subrange(1, rest1.len() as int) =~= rest2);
            assert(run(o, StateV::Expecting, rest1) == run(o1, StateV::Accepted(t), rest2));
            assert(rest2[0] == evs[2]);
            let o3 = step(o1, StateV::Accepted(t), evs[2]).0;
            assert(o1.drop_last() =~= o);
            assert(o3 =~= o + evs.subrange(0, 3));
            let rest3 = evs.subrange(3, evs.len() as int);
            assert(rest2.subrange(1, rest2.len() as int) =~= rest3);
            assert(run(o1, StateV::Accepted(t), rest2) == run(o3, StateV::BeforeStart, rest3));
            lemma_nfm_suffix(evs, 3);
            lemma_run_no_fresh_markers(o + evs.subrange(0, 3), rest3);
            assert((o + evs.subrange(0, 3)) + rest3 =~= o + evs);
        } else {
            let stepped2 = step(o, StateV::Expecting, evs[1]);
            assert(stepped2.0 =~= o + evs.subrange(0, 2));
            assert(stepped2.1 == StateV::BeforeStart);
            let rest2 = evs.subrange(2, evs.len() as int);
            assert(rest1.subrange(1, rest1.len() as int) =~= rest2);
            assert(run(o, StateV::Expecting, rest1) == run(
                stepped2.0,
                stepped2.1,
                rest1.subrange(1, rest1.len() as int),
            ));
            lemma_nfm_suffix(evs, 2);
            lemma_run_no_fresh_markers(o + evs.subrange(0, 2), rest2);
            assert((o + evs.subrange(0, 2)) + rest2 =~= o + evs);
        }
    } else {
        let stepped = step(o, StateV::BeforeStart, evs[0]);
        assert(stepped.0 =~= o.push(evs[0]));
        assert(stepped.1 == StateV::BeforeStart);
        let rest = evs.subrange(1, evs.len() as int);
        lemma_nfm_suffix(evs, 1);
        lemma_run_no_fresh_markers(o.push(evs[0]), rest);
        assert(o.push(evs[0]) + rest =~= o + evs);
    }
}

/// Re-running the transducer on a stream that holds no remaining
/// marker-shaped first line -- such as its own output for a well-formed
/// document, where classes are already applied and markers already
/// stripped -- changes nothing.
pub proof fn lemma_rerun_noop(evs: Seq<TokenV>)
    requires
        no_fresh_markers(evs),
    ensures
        spec_transform(evs) == evs,
{
    lemma_run_no_fresh_markers(Seq::empty(), evs);
    assert(Seq::<TokenV>::empty() + evs =~= evs);
}

/// False-positive safety: marker-shaped text at the head of a paragraph
/// that is not immediately followed by a line break is ordinary content.
/// The paragraph start, the literal marker text and the offending event
/// come out unchanged and unwrapped, and the rest of the stream is
/// transformed as if they had not been there.
pub proof fn lemma_false_positive(m: Seq<char>, ev: TokenV, rest: Seq<TokenV>)
    requires
        is_marker(m),
        !(ev is SoftBreak),
        !(ev is HardBreak),
    ensures
        spec_transform(seq![TokenV::ParagraphStart, TokenV::Text(m), ev] + rest) == seq![
            TokenV::ParagraphStart,
            TokenV::Text(m),
            ev,
        ] + spec_transform(rest),
{
    let pre = seq![TokenV::ParagraphStart, TokenV::Text(m), ev];
    let o1 = Seq::<TokenV>::empty().push(TokenV::Html(open_frag(class_list(m))));
    assert(pre[0] is ParagraphStart);
    let r1 = pre.subrange(1, 3);
    assert(r1 =~= seq![TokenV::Text(m), ev]);
    assert(run(Seq::empty(), StateV::BeforeStart, pre) == run(Seq::empty(), StateV::Expecting, r1));
    assert(r1[0] == TokenV::Text(m));
    let r2 = r1.subrange(1, 2);
    assert(r2 =~= seq![ev]);
    assert(step(Seq::empty(), StateV::Expecting, TokenV::Text(m)) == (o1, StateV::Accepted(m)));
    assert(run(Seq::empty(), StateV::Expecting, r1) == run(o1, StateV::Accepted(m), r2));
    let o3 = step(o1, StateV::Accepted(m), ev).0;
    assert(o1.drop_last() =~= Seq::<TokenV>::empty());
    assert(o3 =~= pre);
    assert(r2.subrange(1, 1) =~= Seq::<TokenV>::empty());
    assert(r2[0] == ev);
    assert(run(o1, StateV::Accepted(m), r2) == run(o3, StateV::BeforeStart, r2.subrange(1, 1)));
    assert(run(o3, StateV::BeforeStart, r2.subrange(1, 1)) == (o3, StateV::BeforeStart));
    assert(run(Seq::empty(), StateV::BeforeStart, pre) == (pre, StateV::BeforeStart));
    lemma_transform_compose(pre, rest);
}

/// Inside a confirmed wrapper the machine replays the rest of the
/// paragraph unchanged: on content with no paragraph boundary it appends
/// every event and stays inside.
proof fn lemma_run_inner(o: Seq<TokenV>, body: Seq<TokenV>)
    requires
        forall|i: int|
            0 <= i < body.len() ==> !((#[trigger] body[i]) is ParagraphStart) && !(body[i]
                is ParagraphEnd),
    ensures
        run(o, StateV::Inner, body) == (o + body, StateV::Inner),
    decreases body.len(),
{
    if body.len() == 0 {
        assert(o + body =~= o);
    } else {
        let ev = body[0];
        let stepped = step(o, StateV::Inner, ev);
        assert(stepped.0 =~= o.push(ev));
        assert(stepped.1 == StateV::Inner);
        let rest = body.subrange(1, body.len() as int);
        lemma_run_inner(o.push(ev), rest);
        assert(o.push(ev) + rest =~= o + body);
    }
}

/// Marker stripping: a paragraph whose first line is exactly a marker,
/// confirmed by a line break (soft and hard breaks are treated alike),
/// comes out as a wrapper-open fragment carrying the marker's class list
/// verbatim, a fresh paragraph holding the remaining content unchanged,
/// and the wrapper-close fragment. The marker text itself and the
/// confirming break are gone.
pub proof fn lemma_marker_stripped(m: Seq<char>, brk: TokenV, body: Seq<TokenV>)
    requires
        is_marker(m),
        brk is SoftBreak || brk is HardBreak,
        forall|i: int|
            0 <= i < body.len() ==> !((#[trigger] body[i]) is ParagraphStart) && !(body[i]
                is ParagraphEnd),
    ensures
        spec_transform(
            seq![TokenV::ParagraphStart, TokenV::Text(m), brk] + body + seq![TokenV::ParagraphEnd],
        ) == seq![TokenV::Html(open_frag(class_list(m))), TokenV::ParagraphStart] + body + seq![
            TokenV::ParagraphEnd,
            TokenV::Html(close_frag()),
        ],
        run(
            Seq::empty(),
            StateV::BeforeStart,
            seq![TokenV::ParagraphStart, TokenV::Text(m), brk] + body + seq![TokenV::ParagraphEnd],
        ).1 is BeforeStart,
{
    let pre = seq![TokenV::ParagraphStart, TokenV::Text(m), brk];
    let end = seq![TokenV::ParagraphEnd];
    let whole = pre + body + end;
    let o1 = Seq::<TokenV>::empty().push(TokenV::Html(open_frag(class_list(m))));
    let o2 = o1.push(TokenV::ParagraphStart);
    assert(whole =~= pre + (body + end));
    lemma_run_append(Seq::empty(), StateV::BeforeStart, pre, body + end);
    let r1 = pre.subrange(1, 3);
    assert(r1 =~= seq![TokenV::Text(m), brk]);
    assert(run(Seq::empty(), StateV::BeforeStart, pre) == run(Seq::empty(), StateV::Expecting, r1));
    assert(r1[0] == TokenV::Text(m));
    let r2 = r1.subrange(1, 2);
    assert(r2 =~= seq![brk]);
    assert(step(Seq::empty(), StateV::Expecting, TokenV::Text(m)) == (o1, StateV::Accepted(m)));
    assert(run(Seq::empty(), StateV::Expecting, r1) == run(o1, StateV::Accepted(m), r2));
    assert(r2[0] == brk);
    assert(step(o1, StateV::Accepted(m), brk) == (o2, StateV::Inner));
    assert(r2.subrange(1, 1) =~= Seq::<TokenV>::empty());
    assert(run(o1, StateV::Accepted(m), r2) == run(o2, StateV::Inner, r2.subrange(1, 1)));
    assert(run(Seq::empty(), StateV::BeforeStart, pre) == (o2, StateV::Inner));
    lemma_run_append(o2, StateV::Inner, body, end);
    lemma_run_inner(o2, body);
    let o3 = o2 + body;
    assert(end[0] == TokenV::ParagraphEnd);
    let o4 = o3.push(TokenV::ParagraphEnd).push(TokenV::Html(close_frag()));
    assert(step(o3, StateV::Inner, TokenV::ParagraphEnd) == (o4, StateV::BeforeStart));
    assert(end.subrange(1, 1) =~= Seq::<TokenV>::empty());
    assert(run(o3, StateV::Inner, end) == run(o4, StateV::BeforeStart, end.subrange(1, 1)));
    assert(run(o4, StateV::BeforeStart, end.subrange(1, 1)) == (o4, StateV::BeforeStart));
    assert(o4 =~= seq![TokenV::Html(open_frag(class_list(m))), TokenV::ParagraphStart] + body
        + seq![TokenV::ParagraphEnd, TokenV::Html(close_frag())]);
}

/// Marker stripping, read off the shape above: the output of an annotated
/// paragraph carries the wrapper-open fragment for the marker's class
/// list, and -- as long as the paragraph's own content does not repeat the
/// marker line -- no trace of the literal marker text.
pub proof fn lemma_marker_text_gone(m: Seq<char>, brk: TokenV, body: Seq<TokenV>)
    requires
        is_marker(m),
        brk is SoftBreak || brk is HardBreak,
        forall|i: int|
            0 <= i < body.len() ==> !((#[trigger] body[i]) is ParagraphStart) && !(body[i]
                is ParagraphEnd),
        forall|i: int| 0 <= i < body.len() ==> (#[trigger] body[i]) != TokenV::Text(m),
    ensures
        spec_transform(
            seq![TokenV::ParagraphStart, TokenV::Text(m), brk] + body + seq![TokenV::ParagraphEnd],
        ).contains(TokenV::Html(open_frag(class_list(m)))),
        !spec_transform(
            seq![TokenV::ParagraphStart, TokenV::Text(m), brk] + body + seq![TokenV::ParagraphEnd],
        ).contains(TokenV::Text(m)),
{
    lemma_marker_stripped(m, brk, body);
    let out = seq![TokenV::Html(open_frag(class_list(m))), TokenV::ParagraphStart] + body + seq![
        TokenV::ParagraphEnd,
        TokenV::Html(close_frag()),
    ];
    assert(out[0] == TokenV::Html(open_frag(class_list(m))));
    assert(out.contains(TokenV::Html(open_frag(class_list(m)))));
    assert forall|i: int| 0 <= i < out.len() implies (#[trigger] out[i]) != TokenV::Text(m) by {
        if 2 <= i < 2 + body.len() {
            assert(out[i] == body[i - 2]);
        }
    }
    assert(!out.contains(TokenV::Text(m)));
}

/// An event shaped like a wrapper-open fragment: raw markup that opens a
/// class container.
pub open spec fn is_open_frag(ev: TokenV) -> bool {
    match ev {
        TokenV::Html(h) => h.len() >= 12 && h.subrange(0, 12) == "<div class=\""@,
        _ => false,
    }
}

/// The wrapper-close fragment itself.
pub open spec fn is_close_frag(ev: TokenV) -> bool {
    ev == TokenV::Html(close_frag())
}

/// How many wrapper-open fragments a stream holds.
pub open spec fn opens(s: Seq<TokenV>) -> int
    decreases s.len(),
{
    if s.len() == 0 {
        0
    } else {
        opens(s.drop_last()) + if is_open_frag(s.last()) {
            1int
        } else {
            0int
        }
    }
}

/// How many wrapper-close fragments a stream holds.
pub open spec fn closes(s: Seq<TokenV>) -> int
    decreases s.len(),
{
    if s.len() == 0 {
        0
    } else {
        closes(s.drop_last()) + if is_close_frag(s.last()) {
            1int
        } else {
            0int
        }
    }
}

proof fn lemma_counts_push(s: Seq<TokenV>, e: TokenV)
    ensures
        opens(s.push(e)) == opens(s) + if is_open_frag(e) {
            1int
        } else {
            0int
        },
        closes(s.push(e)) == closes(s) + if is_close_frag(e) {
            1int
        } else {
            0int
        },
{
    assert(s.push(e).drop_last() =~= s);
    assert(s.push(e).last() == e);
}

/// The fragments the machine emits have the shapes the counters look
/// for, and the two shapes never coincide.
proof fn lemma_frag_shapes(cls: Seq<char>)
    ensures
        is_open_frag(TokenV::Html(open_frag(cls))),
        !is_close_frag(TokenV::Html(open_frag(cls))),
        is_close_frag(TokenV::Html(close_frag())),
        !is_open_frag(TokenV::Html(close_frag())),
{
    reveal_strlit("<div class=\"");
    reveal_strlit("</div>");
    reveal_strlit("\">");
    assert(open_frag(cls).len() >= 14);
    assert(open_frag(cls).subrange(0, 12) =~= "<div class=\""@);
    assert(close_frag().len() == 6);
}

/// +1 at a paragraph start, -1 at a paragraph end.
pub open spec fn depth_delta(ev: TokenV) -> int {
    if ev is ParagraphStart {
        1
    } else if ev is ParagraphEnd {
        -1
    } else {
        0
    }
}

/// Well-formed, balanced paragraph structure seen from nesting depth `d`:
/// paragraph starts and ends alternate (the depth never leaves {0, 1})
/// and every open paragraph is closed by the end of the stream.
pub open spec fn balanced_from(d: int, evs: Seq<TokenV>) -> bool
    decreases evs.len(),
{
    if evs.len() == 0 {
        d == 0
    } else {
        let d2 = d + depth_delta(evs[0]);
        0 <= d2 <= 1 && balanced_from(d2, evs.subrange(1, evs.len() as int))
    }
}

/// A stream that carries no wrapper-shaped fragment of its own.
pub open spec fn frag_free(evs: Seq<TokenV>) -> bool {
    forall|i: int|
        0 <= i < evs.len() ==> !is_open_frag(#[trigger] evs[i]) && !is_close_frag(evs[i])
}

proof fn lemma_run_balance(o: Seq<TokenV>, st: StateV, d: int, evs: Seq<TokenV>)
    requires
        0 <= d <= 1,
        frag_free(evs),
        balanced_from(d, evs),
        (st is Expecting || st is Accepted || st is Inner) ==> d == 1,
        opens(o) - closes(o) == if st is Accepted || st is Inner {
            1int
        } else {
            0int
        },
        st is Accepted ==> o.len() > 0 && is_open_frag(o.last()) && !is_close_frag(o.last()),
    ensures
        opens(run(o, st, evs).0) == closes(run(o, st, evs).0),
    decreases evs.len(),
{
    if evs.len() == 0 {
    } else {
        let ev = evs[0];
        let d2 = d + depth_delta(ev);
        let stepped = step(o, st, ev);
        let rest = evs.subrange(1, evs.len() as int);
        assert(frag_free(rest)) by {
            assert forall|i: int|
                0 <= i < rest.len() implies !is_open_frag(#[trigger] rest[i]) && !is_close_frag(
                rest[i],
            ) by {
                assert(rest[i] == evs[i + 1]);
            }
        }
        if st is Accepted {
            let ob = o.drop_last();
            if ev is SoftBreak || ev is HardBreak {
                lemma_counts_push(o, TokenV::ParagraphStart);
            } else {
                let t = st->Accepted_0;
                lemma_counts_push(ob, TokenV::ParagraphStart);
                lemma_counts_push(ob.push(TokenV::ParagraphStart), TokenV::Text(t));
                lemma_counts_push(
                    ob.push(TokenV::ParagraphStart).push(TokenV::Text(t)),
                    ev,
                );
            }
        } else if ev is ParagraphStart {
        } else if ev is Text {
            let t = ev->Text_0;
            if st is Expecting {
                if is_marker(t) {
                    lemma_frag_shapes(class_list(t));
                    lemma_counts_push(o, TokenV::Html(open_frag(class_list(t))));
                } else {
                    lemma_counts_push(o, TokenV::ParagraphStart);
                    lemma_counts_push(o.push(TokenV::ParagraphStart), TokenV::Text(t));
                }
            } else {
                lemma_counts_push(o, TokenV::Text(t));
            }
        } else if ev is ParagraphEnd {
            if st is Expecting {
                lemma_counts_push(o, TokenV::ParagraphStart);
                lemma_counts_push(o.push(TokenV::ParagraphStart), TokenV::ParagraphEnd);
            } else if st is Inner {
                lemma_frag_shapes(Seq::empty());
                lemma_counts_push(o, TokenV::ParagraphEnd);
                lemma_counts_push(
                    o.push(TokenV::ParagraphEnd),
                    TokenV::Html(close_frag()),
                );
            } else {
                lemma_counts_push(o, TokenV::ParagraphEnd);
            }
        } else {
            if st is Expecting {
                lemma_counts_push(o, TokenV::ParagraphStart);
                lemma_counts_push(o.push(TokenV::ParagraphStart), ev);
            } else {
                lemma_counts_push(o, ev);
            }
        }
        lemma_run_balance(stepped.0, stepped.1, d2, rest);
    }
}

proof fn lemma_run_depth(o: Seq<TokenV>, st: StateV, d: int, evs: Seq<TokenV>)
    requires
        0 <= d <= 1,
        balanced_from(d, evs),
        (st is Expecting || st is Accepted || st is Inner) ==> d == 1,
    ensures
        run(o, st, evs).1 is BeforeStart,
    decreases evs.len(),
{
    if evs.len() == 0 {
    } else {
        let ev = evs[0];
        let d2 = d + depth_delta(ev);
        let stepped = step(o, st, ev);
        lemma_run_depth(stepped.0, stepped.1, d2, evs.subrange(1, evs.len() as int));
    }
}

/// Over a balanced, well-formed stream the machine comes back to its
/// initial state, so transformations compose paragraph by paragraph.
pub proof fn lemma_balanced_resets(evs: Seq<TokenV>)
    requires
        balanced_from(0, evs),
    ensures
        run(Seq::empty(), StateV::BeforeStart, evs).1 is BeforeStart,
{
    lemma_run_depth(Seq::empty(), StateV::BeforeStart, 0, evs);
}

/// Non-paragraph passthrough in a mixed stream: a stretch of events that
/// lies outside any paragraph -- every paragraph before it is closed, and
/// it opens none itself -- is emitted unchanged and in its original
/// place, between the transforms of what surrounds it.
pub proof fn lemma_outside_stretch(a: Seq<TokenV>, mid: Seq<TokenV>, b: Seq<TokenV>)
    requires
        balanced_from(0, a),
        forall|i: int| 0 <= i < mid.len() ==> !(#[trigger] mid[i] is ParagraphStart),
    ensures
        spec_transform(a + mid + b) == spec_transform(a) + mid + spec_transform(b),
{
    lemma_balanced_resets(a);
    assert(a + mid + b =~= a + (mid + b));
    lemma_transform_compose(a, mid + b);
    lemma_run_passthrough(Seq::empty(), mid);
    assert(Seq::<TokenV>::empty() + mid =~= mid);
    lemma_transform_compose(mid, b);
    lemma_non_paragraph_passthrough(mid);
    assert(spec_transform(a) + (mid + spec_transform(b)) =~= spec_transform(a) + mid
        + spec_transform(b));
}

/// Balance invariant: on well-formed input -- paragraph starts and ends
/// alternate and all close -- that carries no wrapper-shaped fragment of
/// its own, the output holds exactly as many wrapper-open fragments as
/// wrapper-close fragments.
pub proof fn lemma_balance(evs: Seq<TokenV>)
    requires
        frag_free(evs),
        balanced_from(0, evs),
    ensures
        opens(spec_transform(evs)) == closes(spec_transform(evs)),
{
    lemma_run_balance(Seq::empty(), StateV::BeforeStart, 0, evs);
}

} // verus!
