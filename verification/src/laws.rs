use crate::ast::{docs_at, docs_prepend, extend_at, id_at, implement_at, item_at, parse_items,
    provide_at, require_at, spec_desc_keywords, spec_parse, ItemView};
use crate::error::{spec_expected_msg, ErrView};
use crate::lex::{expect_at, filt, id_end, is_id_start_byte, lemma_filt_bounds,
    lemma_id_end_bounds, lemma_lex_at_bounds, lex_at, is_id_cont_byte};
use crate::span::SpanView;
use crate::token::Token;
use vstd::prelude::*;

verus! {

/// The span a declaration covers, whatever its kind.
pub open spec fn item_span(iv: ItemView) -> SpanView {
    match iv {
        ItemView::Extend(x) => x.span,
        ItemView::Provide(x) => x.span,
        ItemView::Require(x) => x.span,
        ItemView::Implement(x) => x.span,
    }
}

/// The keyword a declaration begins with, whatever its kind.
pub open spec fn item_keyword(iv: ItemView) -> Token {
    match iv {
        ItemView::Extend(_) => Token::Extend,
        ItemView::Provide(_) => Token::Provide,
        ItemView::Require(_) => Token::Require,
        ItemView::Implement(_) => Token::Implement,
    }
}

proof fn lemma_id_at_bounds(s: Seq<u8>, i: int)
    requires
        0 <= i <= s.len(),
    ensures
        id_at(s, i) matches Ok((idv, k)) ==> {
            &&& i <= idv.span.start < idv.span.end <= s.len()
            &&& idv.span.end == k
        },
{
    lemma_filt_bounds(s, i);
}

proof fn lemma_extend_at_bounds(s: Seq<u8>, i: int)
    requires
        0 <= i <= s.len(),
    ensures
        extend_at(s, i) matches Ok((xv, k)) ==> {
            &&& i <= xv.span.start < xv.span.end <= s.len()
            &&& xv.span.end == k
        },
{
    lemma_filt_bounds(s, i);
    if let Ok((ksp, j)) = expect_at(s, i, Token::Extend) {
        lemma_id_at_bounds(s, j);
    }
}

proof fn lemma_provide_at_bounds(s: Seq<u8>, i: int, d: Seq<Seq<u8>>)
    requires
        0 <= i <= s.len(),
    ensures
        provide_at(s, i, d) matches Ok((xv, k)) ==> {
            &&& i <= xv.span.start < xv.span.end <= s.len()
            &&& xv.span.end == k
        },
{
    lemma_filt_bounds(s, i);
    if let Ok((ksp, j)) = expect_at(s, i, Token::Provide) {
        lemma_id_at_bounds(s, j);
    }
}

proof fn lemma_require_at_bounds(s: Seq<u8>, i: int, d: Seq<Seq<u8>>)
    requires
        0 <= i <= s.len(),
    ensures
        require_at(s, i, d) matches Ok((xv, k)) ==> {
            &&& i <= xv.span.start < xv.span.end <= s.len()
            &&& xv.span.end == k
        },
{
    lemma_filt_bounds(s, i);
    if let Ok((ksp, j)) = expect_at(s, i, Token::Require) {
        lemma_id_at_bounds(s, j);
    }
}

proof fn lemma_implement_at_bounds(s: Seq<u8>, i: int, d: Seq<Seq<u8>>)
    requires
        0 <= i <= s.len(),
    ensures
        implement_at(s, i, d) matches Ok((xv, k)) ==> {
            &&& i <= xv.span.start < xv.span.end <= s.len()
            &&& xv.span.end == k
        },
{
    lemma_filt_bounds(s, i);
    if let Ok((ksp, j1)) = expect_at(s, i, Token::Implement) {
        lemma_filt_bounds(s, j1);
        if let Ok((isp, j2)) = expect_at(s, j1, Token::StrLit) {
            lemma_filt_bounds(s, j2);
            if let Ok((wsp, j3)) = expect_at(s, j2, Token::With) {
                lemma_filt_bounds(s, j3);
            }
        }
    }
}

proof fn lemma_item_at_bounds(s: Seq<u8>, i: int, d: Seq<Seq<u8>>)
    requires
        0 <= i <= s.len(),
    ensures
        item_at(s, i, d) matches Ok((iv, k)) ==> {
            &&& i <= item_span(iv).start < item_span(iv).end <= s.len()
            &&& item_span(iv).end == k
        },
{
    lemma_extend_at_bounds(s, i);
    lemma_provide_at_bounds(s, i, d);
    lemma_require_at_bounds(s, i, d);
    lemma_implement_at_bounds(s, i, d);
}

/// The doc collector only moves the cursor forward, never past the end.
proof fn lemma_docs_at_pos(s: Seq<u8>, i: int)
    requires
        0 <= i <= s.len(),
    ensures
        docs_at(s, i) matches Ok((d, j)) ==> i <= j <= s.len(),
    decreases s.len() - i,
{
    if i < s.len() {
        match lex_at(s, i) {
            Ok((t, e)) => if (t == Token::Whitespace || t == Token::Comment) && i < e <= s.len() {
                lemma_docs_at_pos(s, e);
            },
            Err(_) => {},
        }
    }
}

proof fn lemma_parse_items_ordered(s: Seq<u8>, i: int)
    requires
        0 <= i <= s.len(),
    ensures
        parse_items(s, i) matches Ok(items) ==> {
            &&& forall|n: int|
                0 <= n < items.len() ==> i <= item_span(#[trigger] items[n]).start < item_span(
                    items[n],
                ).end <= s.len()
            &&& forall|a: int, b: int|
                0 <= a < b < items.len() ==> item_span(#[trigger] items[a]).end <= item_span(
                    #[trigger] items[b],
                ).start
        },
    decreases s.len() - i,
{
    if let Ok(items) = parse_items(s, i) {
        match filt(s, i) {
            Err(_) => {},
            Ok(None) => {},
            Ok(Some(_)) => {
                let (d, j) = docs_at(s, i)->Ok_0;
                lemma_docs_at_pos(s, i);
                lemma_item_at_bounds(s, j, d);
                let (item, k) = item_at(s, j, d)->Ok_0;
                if i < k <= s.len() {
                    lemma_parse_items_ordered(s, k);
                    let rest = parse_items(s, k)->Ok_0;
                    assert(items == seq![item] + rest);
                    assert forall|n: int| 0 <= n < items.len() implies i <= item_span(
                        #[trigger] items[n],
                    ).start < item_span(items[n]).end <= s.len() by {
                        if n == 0 {
                        } else {
                            assert(items[n] == rest[n - 1]);
                        }
                    }
                    assert forall|a: int, b: int| 0 <= a < b < items.len() implies item_span(
                        #[trigger] items[a],
                    ).end <= item_span(#[trigger] items[b]).start by {
                        if a == 0 {
                            assert(items[b] == rest[b - 1]);
                            assert(item_span(item).end == k);
                        } else {
                            assert(items[a] == rest[a - 1]);
                            assert(items[b] == rest[b - 1]);
                        }
                    }
                }
            },
        }
    }
}

/// For every input that parses, the declaration sequence is in source
/// order: the declarations' spans follow one another without overlap,
/// each ending no later than the next one starts.
pub proof fn lemma_items_in_source_order(s: Seq<u8>)
    requires
        spec_parse(s) is Ok,
    ensures
        forall|a: int, b: int|
            0 <= a < b < spec_parse(s)->Ok_0.len() ==> item_span(
                #[trigger] spec_parse(s)->Ok_0[a],
            ).end <= item_span(#[trigger] spec_parse(s)->Ok_0[b]).start,
{
    lemma_parse_items_ordered(s, 0);
}

/// Re-lexing the text a declaration's span slices out of the source
/// yields the declaration's own leading keyword as the first token.
pub open spec fn slice_begins_with_keyword(s: Seq<u8>, iv: ItemView) -> bool {
    let sub = s.subrange(item_span(iv).start, item_span(iv).end);
    lex_at(sub, 0) matches Ok((t, e)) && t == item_keyword(iv)
}

/// The declaration's span ends exactly at the end of a token: the last
/// token the declaration consumed.
pub open spec fn span_ends_at_token(s: Seq<u8>, iv: ItemView) -> bool {
    exists|p: int|
        {
            &&& item_span(iv).start <= p < item_span(iv).end
            &&& (#[trigger] lex_at(s, p)) is Ok
            &&& lex_at(s, p)->Ok_0.1 == item_span(iv).end
        }
}

/// A maximal identifier run translates from the whole buffer to a slice
/// of it, as long as the run ends within the slice.
proof fn lemma_id_end_translate(s: Seq<u8>, a: int, b: int, p: int)
    requires
        0 <= a <= p <= b <= s.len(),
        id_end(s, p) <= b,
    ensures
        id_end(s.subrange(a, b), p - a) == id_end(s, p) - a,
    decreases b - p,
{
    lemma_id_end_bounds(s, p);
    let sub = s.subrange(a, b);
    if p < b && is_id_cont_byte(s[p]) {
        assert(sub[p - a] == s[p]);
        lemma_id_end_translate(s, a, b, p + 1);
    } else {
        assert(id_end(s, p) == p);
        if p < b {
            assert(sub[p - a] == s[p]);
        }
        assert(id_end(sub, p - a) == p - a);
    }
}

/// Every successfully parsed declaration re-lexes: the slice its span cuts
/// begins with its keyword, and the span ends at a token boundary.
proof fn lemma_item_at_relex(s: Seq<u8>, i: int, d: Seq<Seq<u8>>)
    requires
        0 <= i <= s.len(),
    ensures
        item_at(s, i, d) matches Ok((iv, k)) ==> slice_begins_with_keyword(s, iv)
            && span_ends_at_token(s, iv),
{
    lemma_filt_bounds(s, i);
    lemma_item_at_bounds(s, i, d);
    if let Ok((iv, k)) = item_at(s, i, d) {
        let (t0, st, en) = filt(s, i)->Ok_0->Some_0;
        let sp = item_span(iv);
        // the operand facts differ per declaration kind
        if t0 == Token::Extend || t0 == Token::Provide || t0 == Token::Require {
            let j = expect_at(s, i, t0)->Ok_0.1;
            lemma_filt_bounds(s, j);
            lemma_id_at_bounds(s, j);
            let (t2, p, e2) = filt(s, j)->Ok_0->Some_0;
            assert(lex_at(s, p) == Ok::<(Token, int), ErrView>((t2, e2)));
            assert(sp.start <= p < e2 == sp.end);
            assert(span_ends_at_token(s, iv));
        } else {
            let j1 = expect_at(s, i, Token::Implement)->Ok_0.1;
            lemma_filt_bounds(s, j1);
            let j2 = expect_at(s, j1, Token::StrLit)->Ok_0.1;
            lemma_filt_bounds(s, j2);
            let j3 = expect_at(s, j2, Token::With)->Ok_0.1;
            lemma_filt_bounds(s, j3);
            let (t2, p, e2) = filt(s, j3)->Ok_0->Some_0;
            assert(lex_at(s, p) == Ok::<(Token, int), ErrView>((t2, e2)));
            assert(sp.start <= p < e2 == sp.end);
            assert(span_ends_at_token(s, iv));
        }
        // the keyword token is an identifier-shaped word that stops
        // strictly before the span's end
        assert(lex_at(s, st) == Ok::<(Token, int), ErrView>((t0, en)));
        assert(is_id_start_byte(s[st]));
        assert(en == id_end(s, st));
        assert(st == sp.start && en < sp.end);
        let sub = s.subrange(sp.start, sp.end);
        lemma_id_end_translate(s, st, sp.end, st);
        assert(sub[0] == s[st]);
        assert(id_end(sub, 0) == en - st);
        assert(sub.subrange(0, en - st) =~= s.subrange(st, en));
        assert(lex_at(sub, 0) == Ok::<(Token, int), ErrView>((t0, en - st)));
    }
}

proof fn lemma_parse_items_relex(s: Seq<u8>, i: int)
    requires
        0 <= i <= s.len(),
    ensures
        parse_items(s, i) matches Ok(items) ==> forall|n: int|
            0 <= n < items.len() ==> slice_begins_with_keyword(s, #[trigger] items[n])
                && span_ends_at_token(s, items[n]),
    decreases s.len() - i,
{
    if let Ok(items) = parse_items(s, i) {
        match filt(s, i) {
            Err(_) => {},
            Ok(None) => {},
            Ok(Some(_)) => {
                let (d, j) = docs_at(s, i)->Ok_0;
                lemma_docs_at_pos(s, i);
                lemma_item_at_relex(s, j, d);
                let (item, k) = item_at(s, j, d)->Ok_0;
                if i < k <= s.len() {
                    lemma_parse_items_relex(s, k);
                    let rest = parse_items(s, k)->Ok_0;
                    assert forall|n: int| 0 <= n < items.len() implies slice_begins_with_keyword(
                        s,
                        #[trigger] items[n],
                    ) && span_ends_at_token(s, items[n]) by {
                        if n > 0 {
                            assert(items[n] == rest[n - 1]);
                        }
                    }
                }
            },
        }
    }
}

/// Span exactness for every parsed input: each declaration's span slices
/// out text that re-lexes to the declaration's own leading keyword first,
/// and the span ends exactly where the last consumed token ends.
pub proof fn lemma_spans_relex(s: Seq<u8>)
    requires
        spec_parse(s) is Ok,
    ensures
        forall|n: int|
            0 <= n < spec_parse(s)->Ok_0.len() ==> slice_begins_with_keyword(
                s,
                #[trigger] spec_parse(s)->Ok_0[n],
            ) && span_ends_at_token(s, spec_parse(s)->Ok_0[n]),
{
    lemma_parse_items_relex(s, 0);
}

/// `text` is the verbatim text of a comment token lying in `[lo, hi)`.
pub open spec fn comment_token_text(s: Seq<u8>, lo: int, hi: int, text: Seq<u8>) -> bool {
    exists|p: int, e: int|
        lo <= p < e <= hi && lex_at(s, p) == Ok::<(Token, int), ErrView>((Token::Comment, e))
            && #[trigger] s.subrange(p, e) == text
}

proof fn lemma_comment_token_text_widen(s: Seq<u8>, lo1: int, lo2: int, hi: int, text: Seq<u8>)
    requires
        lo2 <= lo1,
        comment_token_text(s, lo1, hi, text),
    ensures
        comment_token_text(s, lo2, hi, text),
{
    let (p, e) = choose|p: int, e: int|
        lo1 <= p < e <= hi && lex_at(s, p) == Ok::<(Token, int), ErrView>((Token::Comment, e))
            && #[trigger] s.subrange(p, e) == text;
    assert(s.subrange(p, e) == text);
}

/// The documentation run attached before a declaration is maximal: the
/// collector stops only at the end of the input or at a token that is
/// neither whitespace nor a comment, and every text it gathered is the
/// verbatim text of a comment token between its starting point and its
/// stopping point. Blank lines between comments never break the run; only
/// a syntactic token does.
pub proof fn lemma_docs_maximal_comment_run(s: Seq<u8>, i: int)
    requires
        0 <= i <= s.len(),
    ensures
        docs_at(s, i) matches Ok((d, j)) ==> {
            &&& i <= j <= s.len()
            &&& j == s.len() || (lex_at(s, j) matches Ok((t, e)) && t != Token::Whitespace && t
                != Token::Comment)
            &&& forall|n: int|
                0 <= n < d.len() ==> comment_token_text(s, i, j, #[trigger] d[n])
        },
    decreases s.len() - i,
{
    if i < s.len() {
        if lex_at(s, i) is Ok {
            lemma_lex_at_bounds(s, i);
        }
        match lex_at(s, i) {
            Ok((t, e)) => if (t == Token::Whitespace || t == Token::Comment) && i < e <= s.len() {
                lemma_docs_maximal_comment_run(s, e);
                if let Ok((d, j)) = docs_at(s, i) {
                    let (d2, j2) = docs_at(s, e)->Ok_0;
                    if t == Token::Comment {
                        assert(docs_at(s, i) == docs_prepend(
                            seq![s.subrange(i, e)],
                            docs_at(s, e),
                        ));
                        assert(d == seq![s.subrange(i, e)] + d2);
                    } else {
                        assert(d == d2);
                    }
                    assert(j == j2);
                    assert forall|n: int| 0 <= n < d.len() implies comment_token_text(
                        s,
                        i,
                        j,
                        #[trigger] d[n],
                    ) by {
                        if t == Token::Comment && n == 0 {
                            assert(s.subrange(i, e) == d[0]);
                        } else {
                            let m = if t == Token::Comment {
                                n - 1
                            } else {
                                n
                            };
                            assert(d[n] == d2[m]);
                            lemma_comment_token_text_widen(s, e, i, j, d2[m]);
                        }
                    }
                }
            },
            Err(_) => {},
        }
    }
}

/// `implement` rejects a bare identifier in either operand position: if
/// the token after the `implement` keyword, or after `with`, is a bare
/// identifier, the parse fails at that token's span, expecting a string.
pub proof fn lemma_implement_rejects_bare_identifier(s: Seq<u8>, i: int, d: Seq<Seq<u8>>)
    requires
        0 <= i <= s.len(),
    ensures
        expect_at(s, i, Token::Implement) matches Ok((ksp, j1)) ==> (filt(s, j1) matches Ok(
            Some((Token::Id, st, en)),
        ) ==> implement_at(s, i, d) == Err::<(crate::ast::ImplementView, int), ErrView>(
            ErrView {
                span: SpanView { start: st, end: en },
                msg: spec_expected_msg(
                    Token::StrLit.spec_describe(),
                    Token::Id.spec_describe(),
                ),
            },
        )),
        expect_at(s, i, Token::Implement) matches Ok((ksp, j1)) ==> (expect_at(
            s,
            j1,
            Token::StrLit,
        ) matches Ok((isp, j2)) ==> (expect_at(s, j2, Token::With) matches Ok((wsp, j3)) ==> (
        filt(s, j3) matches Ok(Some((Token::Id, st, en))) ==> implement_at(s, i, d) == Err::<(crate::ast::ImplementView, int), ErrView>(
            ErrView {
                span: SpanView { start: st, end: en },
                msg: spec_expected_msg(
                    Token::StrLit.spec_describe(),
                    Token::Id.spec_describe(),
                ),
            },
        )))),
{
}

/// Unlike `implement`, the other three declarations accept a bare
/// identifier as their operand: its name is the verbatim source slice.
pub proof fn lemma_others_accept_bare_identifier(s: Seq<u8>, i: int, d: Seq<Seq<u8>>)
    requires
        0 <= i <= s.len(),
    ensures
        expect_at(s, i, Token::Extend) matches Ok((ksp, j)) ==> (filt(s, j) matches Ok(
            Some((Token::Id, st, en)),
        ) ==> (extend_at(s, i) matches Ok((xv, k)) && xv.profile.name == s.subrange(st, en))),
        expect_at(s, i, Token::Provide) matches Ok((ksp, j)) ==> (filt(s, j) matches Ok(
            Some((Token::Id, st, en)),
        ) ==> (provide_at(s, i, d) matches Ok((xv, k)) && xv.interface.name == s.subrange(
            st,
            en,
        ))),
        expect_at(s, i, Token::Require) matches Ok((ksp, j)) ==> (filt(s, j) matches Ok(
            Some((Token::Id, st, en)),
        ) ==> (require_at(s, i, d) matches Ok((xv, k)) && xv.interface.name == s.subrange(
            st,
            en,
        ))),
{
}

/// An unrecognized leading token at the top level fails with the uniform
/// message that names all four declaration keywords as the alternatives.
pub proof fn lemma_unknown_leading_token_names_all_keywords(s: Seq<u8>, i: int, d: Seq<Seq<u8>>)
    requires
        0 <= i <= s.len(),
    ensures
        filt(s, i) matches Ok(Some((t, st, en))) ==> ((t != Token::Extend && t != Token::Provide
            && t != Token::Require && t != Token::Implement) ==> item_at(s, i, d) == Err::<(ItemView, int), ErrView>(
            ErrView {
                span: SpanView { start: st, end: en },
                msg: spec_expected_msg(spec_desc_keywords(), t.spec_describe()),
            },
        )),
{
}

} // verus!
