use crate::error::{expected_msg, spec_eof_err, spec_expected_msg, ErrView, ParseError};
use crate::lex::{decode_str, filt, lemma_filt_bounds, lemma_lex_at_bounds, lemma_strlit_shape,
    lex_at, expect_at, Tokenizer};
use crate::span::{Span, SpanView};
use crate::token::Token;
use vstd::prelude::*;
use vstd::slice::slice_to_vec;
use vstd::string::StringSliceAdditionalSpecFns;

verus! {

// ---------------------------------------------------------------------------
// The tree and its mathematical model
// ---------------------------------------------------------------------------

/// An identifier operand: either a bare identifier, whose name is the
/// verbatim source slice, or a quoted string, whose name is the decoded
/// text. Either way the name is held as plain bytes of the source encoding.
#[derive(Debug)]
pub struct Id {
    pub name: Vec<u8>,
    pub span: Span,
}

/// Model of an `Id`: the decoded name and the span of the token it came from.
pub ghost struct IdView {
    pub name: Seq<u8>,
    pub span: SpanView,
}

impl View for Id {
    type V = IdView;

    open spec fn view(&self) -> IdView {
        IdView { name: self.name@, span: self.span@ }
    }
}

/// The ordered documentation comments attached to a declaration: the raw
/// text of each comment token, in source order.
#[derive(Debug)]
pub struct Docs {
    pub docs: Vec<Vec<u8>>,
}

/// Model of a sequence of comment texts.
pub open spec fn docs_view(v: Seq<Vec<u8>>) -> Seq<Seq<u8>> {
    v.map_values(|d: Vec<u8>| d@)
}

impl View for Docs {
    type V = Seq<Seq<u8>>;

    open spec fn view(&self) -> Seq<Seq<u8>> {
        docs_view(self.docs@)
    }
}

/// `extend` declaration: this profile extends another. Never documented.
#[derive(Debug)]
pub struct Extend {
    pub span: Span,
    pub profile: Id,
}

pub ghost struct ExtendView {
    pub span: SpanView,
    pub profile: IdView,
}

impl View for Extend {
    type V = ExtendView;

    open spec fn view(&self) -> ExtendView {
        ExtendView { span: self.span@, profile: self.profile@ }
    }
}

/// `provide` declaration: this profile provides an interface.
#[derive(Debug)]
pub struct Provide {
    pub docs: Docs,
    pub span: Span,
    pub interface: Id,
}

pub ghost struct ProvideView {
    pub docs: Seq<Seq<u8>>,
    pub span: SpanView,
    pub interface: IdView,
}

impl View for Provide {
    type V = ProvideView;

    open spec fn view(&self) -> ProvideView {
        ProvideView { docs: self.docs@, span: self.span@, interface: self.interface@ }
    }
}

/// `require` declaration: this profile requires an interface.
#[derive(Debug)]
pub struct Require {
    pub docs: Docs,
    pub span: Span,
    pub interface: Id,
}

pub ghost struct RequireView {
    pub docs: Seq<Seq<u8>>,
    pub span: SpanView,
    pub interface: IdView,
}

impl View for Require {
    type V = RequireView;

    open spec fn view(&self) -> RequireView {
        RequireView { docs: self.docs@, span: self.span@, interface: self.interface@ }
    }
}

/// `implement` declaration: an interface is bound to a component. Both
/// operands must be quoted string literals; their decoded texts are held.
#[derive(Debug)]
pub struct Implement {
    pub docs: Docs,
    pub span: Span,
    pub interface: Vec<u8>,
    pub component: Vec<u8>,
}

pub ghost struct ImplementView {
    pub docs: Seq<Seq<u8>>,
    pub span: SpanView,
    pub interface: Seq<u8>,
    pub component: Seq<u8>,
}

impl View for Implement {
    type V = ImplementView;

    open spec fn view(&self) -> ImplementView {
        ImplementView {
            docs: self.docs@,
            span: self.span@,
            interface: self.interface@,
            component: self.component@,
        }
    }
}

/// One declaration: the closed union of the four declaration kinds.
#[derive(Debug)]
pub enum Item {
    Extend(Extend),
    Provide(Provide),
    Require(Require),
    Implement(Implement),
}

pub ghost enum ItemView {
    Extend(ExtendView),
    Provide(ProvideView),
    Require(RequireView),
    Implement(ImplementView),
}

impl View for Item {
    type V = ItemView;

    open spec fn view(&self) -> ItemView {
        match self {
            Item::Extend(x) => ItemView::Extend(x@),
            Item::Provide(x) => ItemView::Provide(x@),
            Item::Require(x) => ItemView::Require(x@),
            Item::Implement(x) => ItemView::Implement(x@),
        }
    }
}

/// Model of a declaration sequence.
pub open spec fn items_view(v: Seq<Item>) -> Seq<ItemView> {
    v.map_values(|it: Item| it@)
}

/// The parsed tree: the profile's declarations in source order.
#[derive(Debug)]
pub struct Ast {
    pub items: Vec<Item>,
}

impl View for Ast {
    type V = Seq<ItemView>;

    open spec fn view(&self) -> Seq<ItemView> {
        items_view(self.items@)
    }
}

// ---------------------------------------------------------------------------
// The parse, as a mathematical function of the input bytes
// ---------------------------------------------------------------------------

/// Description used when an identifier operand is expected.
pub open spec fn spec_desc_ident_or_string() -> Seq<char> {
    "an identifier or string"@
}

/// Description naming the four declaration keywords.
pub open spec fn spec_desc_keywords() -> Seq<char> {
    "`extend`, `provide`, `require`, or `implement`"@
}

/// The identifier operand at position `i`: a bare identifier or a quoted
/// string, with the cursor position after it; anything else is an error.
pub open spec fn id_at(s: Seq<u8>, i: int) -> Result<(IdView, int), ErrView> {
    match filt(s, i) {
        Err(ev) => Err(ev),
        Ok(None) => Err(spec_eof_err(s.len() as int, spec_desc_ident_or_string())),
        Ok(Some((t, st, en))) => if t == Token::Id {
            Ok((IdView { name: s.subrange(st, en), span: SpanView { start: st, end: en } }, en))
        } else if t == Token::StrLit {
            Ok(
                (
                    IdView {
                        name: decode_str(s, st + 1, en - 1),
                        span: SpanView { start: st, end: en },
                    },
                    en,
                ),
            )
        } else {
            Err(
                ErrView {
                    span: SpanView { start: st, end: en },
                    msg: spec_expected_msg(spec_desc_ident_or_string(), t.spec_describe()),
                },
            )
        },
    }
}

/// Glues a run of already-collected comments onto a collector outcome.
pub open spec fn docs_prepend(a: Seq<Seq<u8>>, r: Result<(Seq<Seq<u8>>, int), ErrView>) -> Result<
    (Seq<Seq<u8>>, int),
    ErrView,
> {
    match r {
        Ok((d, j)) => Ok((a + d, j)),
        Err(ev) => Err(ev),
    }
}

/// The documentation run at position `i`: the texts of the contiguous
/// comment tokens from `i` on, whitespace skipped, together with the
/// position of the first token that is neither (which is not consumed).
pub open spec fn docs_at(s: Seq<u8>, i: int) -> Result<(Seq<Seq<u8>>, int), ErrView>
    decreases s.len() - i,
    when 0 <= i <= s.len()
{
    if i >= s.len() {
        Ok((Seq::empty(), i))
    } else {
        match lex_at(s, i) {
            Ok((t, e)) => if t == Token::Whitespace {
                if i < e <= s.len() {
                    docs_at(s, e)
                } else {
                    Ok((Seq::empty(), i))
                }
            } else if t == Token::Comment {
                if i < e <= s.len() {
                    docs_prepend(seq![s.subrange(i, e)], docs_at(s, e))
                } else {
                    Ok((Seq::empty(), i))
                }
            } else {
                Ok((Seq::empty(), i))
            },
            Err(ev) => Err(ev),
        }
    }
}

/// The `extend` declaration at position `i`.
pub open spec fn extend_at(s: Seq<u8>, i: int) -> Result<(ExtendView, int), ErrView> {
    match expect_at(s, i, Token::Extend) {
        Err(ev) => Err(ev),
        Ok((ksp, j)) => match id_at(s, j) {
            Err(ev) => Err(ev),
            Ok((idv, k)) => Ok(
                (
                    ExtendView {
                        span: SpanView { start: ksp.start, end: idv.span.end },
                        profile: idv,
                    },
                    k,
                ),
            ),
        },
    }
}

/// The `provide` declaration at position `i`, with docs `d` attached.
pub open spec fn provide_at(s: Seq<u8>, i: int, d: Seq<Seq<u8>>) -> Result<
    (ProvideView, int),
    ErrView,
> {
    match expect_at(s, i, Token::Provide) {
        Err(ev) => Err(ev),
        Ok((ksp, j)) => match id_at(s, j) {
            Err(ev) => Err(ev),
            Ok((idv, k)) => Ok(
                (
                    ProvideView {
                        docs: d,
                        span: SpanView { start: ksp.start, end: idv.span.end },
                        interface: idv,
                    },
                    k,
                ),
            ),
        },
    }
}

/// The `require` declaration at position `i`, with docs `d` attached.
pub open spec fn require_at(s: Seq<u8>, i: int, d: Seq<Seq<u8>>) -> Result<
    (RequireView, int),
    ErrView,
> {
    match expect_at(s, i, Token::Require) {
        Err(ev) => Err(ev),
        Ok((ksp, j)) => match id_at(s, j) {
            Err(ev) => Err(ev),
            Ok((idv, k)) => Ok(
                (
                    RequireView {
                        docs: d,
                        span: SpanView { start: ksp.start, end: idv.span.end },
                        interface: idv,
                    },
                    k,
                ),
            ),
        },
    }
}

/// The `implement` declaration at position `i`, with docs `d` attached.
/// Both operands must be string literals; a bare identifier is an error
/// here, unlike in the other three declarations.
pub open spec fn implement_at(s: Seq<u8>, i: int, d: Seq<Seq<u8>>) -> Result<
    (ImplementView, int),
    ErrView,
> {
    match expect_at(s, i, Token::Implement) {
        Err(ev) => Err(ev),
        Ok((ksp, j1)) => match expect_at(s, j1, Token::StrLit) {
            Err(ev) => Err(ev),
            Ok((isp, j2)) => match expect_at(s, j2, Token::With) {
                Err(ev) => Err(ev),
                Ok((_wsp, j3)) => match expect_at(s, j3, Token::StrLit) {
                    Err(ev) => Err(ev),
                    Ok((csp, j4)) => Ok(
                        (
                            ImplementView {
                                docs: d,
                                span: SpanView { start: ksp.start, end: csp.end },
                                interface: decode_str(s, isp.start + 1, isp.end - 1),
                                component: decode_str(s, csp.start + 1, csp.end - 1),
                            },
                            j4,
                        ),
                    ),
                },
            },
        },
    }
}

/// The declaration at position `i`, dispatched on the leading keyword,
/// with docs `d` attached; any other leading token is an error naming all
/// four keywords.
pub open spec fn item_at(s: Seq<u8>, i: int, d: Seq<Seq<u8>>) -> Result<(ItemView, int), ErrView> {
    match filt(s, i) {
        Err(ev) => Err(ev),
        Ok(None) => Err(spec_eof_err(s.len() as int, spec_desc_keywords())),
        Ok(Some((t, st, en))) => if t == Token::Extend {
            match extend_at(s, i) {
                Err(ev) => Err(ev),
                Ok((x, k)) => Ok((ItemView::Extend(x), k)),
            }
        } else if t == Token::Provide {
            match provide_at(s, i, d) {
                Err(ev) => Err(ev),
                Ok((x, k)) => Ok((ItemView::Provide(x), k)),
            }
        } else if t == Token::Require {
            match require_at(s, i, d) {
                Err(ev) => Err(ev),
                Ok((x, k)) => Ok((ItemView::Require(x), k)),
            }
        } else if t == Token::Implement {
            match implement_at(s, i, d) {
                Err(ev) => Err(ev),
                Ok((x, k)) => Ok((ItemView::Implement(x), k)),
            }
        } else {
            Err(
                ErrView {
                    span: SpanView { start: st, end: en },
                    msg: spec_expected_msg(spec_desc_keywords(), t.spec_describe()),
                },
            )
        },
    }
}

/// The declarations from position `i` to the end of the input: docs are
/// collected, the declaration behind them is parsed, and the rest follows;
/// the first error aborts everything. Trailing whitespace and comments
/// after the last declaration are discarded.
pub open spec fn parse_items(s: Seq<u8>, i: int) -> Result<Seq<ItemView>, ErrView>
    decreases s.len() - i,
    when 0 <= i <= s.len()
{
    match filt(s, i) {
        Err(ev) => Err(ev),
        Ok(None) => Ok(Seq::empty()),
        Ok(Some(_)) => match docs_at(s, i) {
            Err(ev) => Err(ev),
            Ok((d, j)) => match item_at(s, j, d) {
                Err(ev) => Err(ev),
                Ok((item, k)) => if i < k <= s.len() {
                    match parse_items(s, k) {
                        Ok(rest) => Ok(seq![item] + rest),
                        Err(ev) => Err(ev),
                    }
                } else {
                    // a parsed declaration always consumes at least one
                    // token, so this branch is never the value
                    Ok(Seq::empty())
                },
            },
        },
    }
}

/// The whole parse: the declaration sequence of the input, or its first
/// error.
pub open spec fn spec_parse(s: Seq<u8>) -> Result<Seq<ItemView>, ErrView> {
    parse_items(s, 0)
}

/// Glues already-parsed declarations onto a parse outcome.
pub open spec fn items_concat(a: Seq<ItemView>, r: Result<Seq<ItemView>, ErrView>) -> Result<
    Seq<ItemView>,
    ErrView,
> {
    match r {
        Ok(rest) => Ok(a + rest),
        Err(ev) => Err(ev),
    }
}

// ---------------------------------------------------------------------------
// The executable parsers
// ---------------------------------------------------------------------------

impl Id {
    /// Parses an identifier operand: a bare identifier (name taken verbatim
    /// from the source) or a string literal (name decoded).
    pub fn parse(tokens: &mut Tokenizer) -> (r: Result<Id, ParseError>)
        requires
            old(tokens).wf(),
        ensures
            final(tokens).wf(),
            final(tokens).src@ == old(tokens).src@,
            match id_at(old(tokens).src@, old(tokens).pos as int) {
                Ok((idv, k)) => {
                    &&& r matches Ok(id)
                    &&& id@ == idv
                    &&& final(tokens).pos == k
                    &&& old(tokens).pos < k <= old(tokens).src@.len()
                },
                Err(ev) => r matches Err(pe) && pe@ == ev,
            },
    {
        let ghost s = tokens.src@;
        let ghost i = tokens.pos as int;
        match tokens.next()? {
            Some((span, t)) => match t {
                Token::Id => {
                    let name = slice_to_vec(tokens.get_span(span));
                    Ok(Id { name, span })
                },
                Token::StrLit => {
                    proof {
                        lemma_filt_bounds(s, i);
                        lemma_strlit_shape(s, span.start as int);
                    }
                    let name = tokens.parse_str(span);
                    Ok(Id { name, span })
                },
                _ => Err(
                    ParseError {
                        span,
                        msg: expected_msg("an identifier or string", t.describe()),
                    },
                ),
            },
            None => {
                let n = tokens.src.len();
                Err(
                    ParseError {
                        span: Span { start: n, end: n },
                        msg: expected_msg("an identifier or string", "end of input"),
                    },
                )
            },
        }
    }
}

impl Docs {
    /// Collects the contiguous run of comments at the cursor, skipping
    /// whitespace, and leaves the cursor on the first token that is
    /// neither, so the declaration parser that runs next sees that token.
    #[verifier::loop_isolation(false)]
    pub fn parse(tokens: &mut Tokenizer) -> (r: Result<Docs, ParseError>)
        requires
            old(tokens).wf(),
        ensures
            final(tokens).wf(),
            final(tokens).src@ == old(tokens).src@,
            match docs_at(old(tokens).src@, old(tokens).pos as int) {
                Ok((d, j)) => {
                    &&& r matches Ok(ds)
                    &&& ds@ == d
                    &&& final(tokens).pos == j
                    &&& old(tokens).pos <= j <= old(tokens).src@.len()
                },
                Err(ev) => r matches Err(pe) && pe@ == ev,
            },
    {
        let ghost s = tokens.src@;
        let mut docs: Vec<Vec<u8>> = Vec::new();
        proof {
            assert(docs_view(docs@) =~= Seq::<Seq<u8>>::empty());
            if docs_at(s, tokens.pos as int) is Ok {
                let (d0, j0) = docs_at(s, tokens.pos as int)->Ok_0;
                assert(Seq::<Seq<u8>>::empty() + d0 =~= d0);
            }
        }
        loop
            invariant
                tokens.wf(),
                tokens.src@ == s,
                old(tokens).pos <= tokens.pos,
                docs_at(s, old(tokens).pos as int) == docs_prepend(
                    docs_view(docs@),
                    docs_at(s, tokens.pos as int),
                ),
            decreases s.len() - tokens.pos,
        {
            let ghost p0 = tokens.pos as int;
            let ghost dv0 = docs_view(docs@);
            let mut look = *tokens;
            match look.next_raw() {
                Err(e) => {
                    return Err(e);
                },
                Ok(None) => {
                    return Ok(Docs { docs });
                },
                Ok(Some((sp, t))) => {
                    proof {
                        lemma_lex_at_bounds(s, p0);
                    }
                    match t {
                        Token::Whitespace => {
                            *tokens = look;
                        },
                        Token::Comment => {
                            let text = slice_to_vec(tokens.get_span(sp));
                            docs.push(text);
                            *tokens = look;
                            proof {
                                let c = s.subrange(p0, sp.end as int);
                                assert(docs_view(docs@) =~= dv0 + seq![c]);
                                if docs_at(s, tokens.pos as int) is Ok {
                                    let (d2, j2) = docs_at(s, tokens.pos as int)->Ok_0;
                                    assert(dv0 + (seq![c] + d2) =~= (dv0 + seq![c]) + d2);
                                }
                            }
                        },
                        _ => {
                            return Ok(Docs { docs });
                        },
                    }
                },
            }
        }
    }
}

impl Extend {
    /// Parses `extend` followed by one identifier operand; the span runs
    /// from the keyword to the operand's end.
    pub fn parse(tokens: &mut Tokenizer) -> (r: Result<Extend, ParseError>)
        requires
            old(tokens).wf(),
        ensures
            final(tokens).wf(),
            final(tokens).src@ == old(tokens).src@,
            match extend_at(old(tokens).src@, old(tokens).pos as int) {
                Ok((xv, k)) => {
                    &&& r matches Ok(x)
                    &&& x@ == xv
                    &&& final(tokens).pos == k
                    &&& old(tokens).pos < k <= old(tokens).src@.len()
                },
                Err(ev) => r matches Err(pe) && pe@ == ev,
            },
    {
        let sp = tokens.expect(Token::Extend)?;
        let profile = Id::parse(tokens)?;
        let span = Span { start: sp.start, end: profile.span.end };
        Ok(Extend { span, profile })
    }
}

impl Provide {
    /// Parses `provide` followed by one identifier operand, attaching the
    /// docs the tree driver collected before dispatch.
    pub fn parse(tokens: &mut Tokenizer, docs: Docs) -> (r: Result<Provide, ParseError>)
        requires
            old(tokens).wf(),
        ensures
            final(tokens).wf(),
            final(tokens).src@ == old(tokens).src@,
            match provide_at(old(tokens).src@, old(tokens).pos as int, docs@) {
                Ok((xv, k)) => {
                    &&& r matches Ok(x)
                    &&& x@ == xv
                    &&& final(tokens).pos == k
                    &&& old(tokens).pos < k <= old(tokens).src@.len()
                },
                Err(ev) => r matches Err(pe) && pe@ == ev,
            },
    {
        let sp = tokens.expect(Token::Provide)?;
        let interface = Id::parse(tokens)?;
        let span = Span { start: sp.start, end: interface.span.end };
        Ok(Provide { docs, span, interface })
    }
}

impl Require {
    /// Parses `require` followed by one identifier operand, attaching the
    /// docs the tree driver collected before dispatch.
    pub fn parse(tokens: &mut Tokenizer, docs: Docs) -> (r: Result<Require, ParseError>)
        requires
            old(tokens).wf(),
        ensures
            final(tokens).wf(),
            final(tokens).src@ == old(tokens).src@,
            match require_at(old(tokens).src@, old(tokens).pos as int, docs@) {
                Ok((xv, k)) => {
                    &&& r matches Ok(x)
                    &&& x@ == xv
                    &&& final(tokens).pos == k
                    &&& old(tokens).pos < k <= old(tokens).src@.len()
                },
                Err(ev) => r matches Err(pe) && pe@ == ev,
            },
    {
        let sp = tokens.expect(Token::Require)?;
        let interface = Id::parse(tokens)?;
        let span = Span { start: sp.start, end: interface.span.end };
        Ok(Require { docs, span, interface })
    }
}

impl Implement {
    /// Parses `implement "iface" with "component"`. Both operands must be
    /// string literals; a bare identifier is rejected in either position.
    pub fn parse(tokens: &mut Tokenizer, docs: Docs) -> (r: Result<Implement, ParseError>)
        requires
            old(tokens).wf(),
        ensures
            final(tokens).wf(),
            final(tokens).src@ == old(tokens).src@,
            match implement_at(old(tokens).src@, old(tokens).pos as int, docs@) {
                Ok((xv, k)) => {
                    &&& r matches Ok(x)
                    &&& x@ == xv
                    &&& final(tokens).pos == k
                    &&& old(tokens).pos < k <= old(tokens).src@.len()
                },
                Err(ev) => r matches Err(pe) && pe@ == ev,
            },
    {
        let ghost s = tokens.src@;
        let sp = tokens.expect(Token::Implement)?;
        let ghost j1 = tokens.pos as int;
        let iface_sp = tokens.expect(Token::StrLit)?;
        proof {
            lemma_filt_bounds(s, j1);
            lemma_strlit_shape(s, iface_sp.start as int);
        }
        tokens.expect(Token::With)?;
        let ghost j3 = tokens.pos as int;
        let comp_sp = tokens.expect(Token::StrLit)?;
        proof {
            lemma_filt_bounds(s, j3);
            lemma_strlit_shape(s, comp_sp.start as int);
        }
        let interface = tokens.parse_str(iface_sp);
        let component = tokens.parse_str(comp_sp);
        let span = Span { start: sp.start, end: comp_sp.end };
        Ok(Implement { docs, span, interface, component })
    }
}

impl Item {
    /// Peeks the next syntactic token without consuming it and dispatches
    /// to the declaration parser its keyword selects; any other token is an
    /// error naming all four keywords.
    pub fn parse(tokens: &mut Tokenizer, docs: Docs) -> (r: Result<Item, ParseError>)
        requires
            old(tokens).wf(),
        ensures
            final(tokens).wf(),
            final(tokens).src@ == old(tokens).src@,
            match item_at(old(tokens).src@, old(tokens).pos as int, docs@) {
                Ok((iv, k)) => {
                    &&& r matches Ok(it)
                    &&& it@ == iv
                    &&& final(tokens).pos == k
                    &&& old(tokens).pos < k <= old(tokens).src@.len()
                },
                Err(ev) => r matches Err(pe) && pe@ == ev,
            },
    {
        let mut look = *tokens;
        match look.next()? {
            Some((sp, t)) => match t {
                Token::Extend => match Extend::parse(tokens) {
                    Ok(x) => Ok(Item::Extend(x)),
                    Err(e) => Err(e),
                },
                Token::Provide => match Provide::parse(tokens, docs) {
                    Ok(x) => Ok(Item::Provide(x)),
                    Err(e) => Err(e),
                },
                Token::Require => match Require::parse(tokens, docs) {
                    Ok(x) => Ok(Item::Require(x)),
                    Err(e) => Err(e),
                },
                Token::Implement => match Implement::parse(tokens, docs) {
                    Ok(x) => Ok(Item::Implement(x)),
                    Err(e) => Err(e),
                },
                _ => Err(
                    ParseError {
                        span: sp,
                        msg: expected_msg(
                            "`extend`, `provide`, `require`, or `implement`",
                            t.describe(),
                        ),
                    },
                ),
            },
            None => {
                let n = tokens.src.len();
                Err(
                    ParseError {
                        span: Span { start: n, end: n },
                        msg: expected_msg(
                            "`extend`, `provide`, `require`, or `implement`",
                            "end of input",
                        ),
                    },
                )
            },
        }
    }
}

impl Ast {
    /// Parses a whole profile: repeatedly collects docs and parses the
    /// declaration behind them, until the input holds nothing but trailing
    /// whitespace and comments. Returns the declarations in source order,
    /// or the first error; nothing is recovered past an error.
    #[verifier::loop_isolation(false)]
    pub fn parse(input: &str) -> (r: Result<Ast, ParseError>)
        ensures
            match spec_parse(input.spec_bytes()) {
                Ok(items) => r matches Ok(a) && a@ == items,
                Err(ev) => r matches Err(pe) && pe@ == ev,
            },
    {
        let bytes = input.as_bytes();
        let ghost s = bytes@;
        let mut lexer = Tokenizer::new(bytes);
        let mut items: Vec<Item> = Vec::new();
        proof {
            assert(items_view(items@) =~= Seq::<ItemView>::empty());
            if parse_items(s, 0) is Ok {
                let r0 = parse_items(s, 0)->Ok_0;
                assert(Seq::<ItemView>::empty() + r0 =~= r0);
            }
        }
        loop
            invariant
                lexer.wf(),
                lexer.src@ == s,
                parse_items(s, 0) == items_concat(
                    items_view(items@),
                    parse_items(s, lexer.pos as int),
                ),
            decreases s.len() - lexer.pos,
        {
            let ghost p0 = lexer.pos as int;
            let ghost iv0 = items_view(items@);
            let mut look = lexer;
            match look.next() {
                Err(e) => {
                    return Err(e);
                },
                Ok(None) => {
                    proof {
                        assert(iv0 + Seq::<ItemView>::empty() =~= iv0);
                    }
                    return Ok(Ast { items });
                },
                Ok(Some(_)) => {
                    let docs = Docs::parse(&mut lexer)?;
                    let item = Item::parse(&mut lexer, docs)?;
                    items.push(item);
                    proof {
                        assert(items_view(items@) =~= iv0 + seq![item@]);
                        if parse_items(s, lexer.pos as int) is Ok {
                            let rest = parse_items(s, lexer.pos as int)->Ok_0;
                            assert(iv0 + (seq![item@] + rest) =~= (iv0 + seq![item@]) + rest);
                        }
                    }
                },
            }
        }
    }
}

} // verus!
