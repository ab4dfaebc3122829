use crate::span::{Span, SpanView};
use vstd::prelude::*;
use vstd::string::StringExecFns;

verus! {

/// The single error taxonomy of the parser: a source span together with a
/// human-readable `expected ..., found ...` message. The first error aborts
/// the whole parse; no partial tree is ever returned.
#[derive(Debug)]
pub struct ParseError {
    pub span: Span,
    pub msg: String,
}

/// Mathematical model of a `ParseError`.
pub ghost struct ErrView {
    pub span: SpanView,
    pub msg: Seq<char>,
}

impl View for ParseError {
    type V = ErrView;

    open spec fn view(&self) -> ErrView {
        ErrView { span: self.span@, msg: self.msg@ }
    }
}

/// The uniform shape of every diagnostic the parser emits.
pub open spec fn spec_expected_msg(exp: Seq<char>, found: Seq<char>) -> Seq<char> {
    "expected "@ + exp + ", found "@ + found
}

/// Builds the uniform `expected ..., found ...` message.
pub fn expected_msg(exp: &str, found: &str) -> (r: String)
    ensures
        r@ == spec_expected_msg(exp@, found@),
{
    let mut m = String::from_str("expected ");
    m.append(exp);
    m.append(", found ");
    m.append(found);
    m
}

/// How the end of the input is named in an `expected ..., found ...` message.
pub open spec fn spec_eof_name() -> Seq<char> {
    "end of input"@
}

/// The error reported when `exp` was expected but the input ended; its span
/// is the empty range at the very end of the source.
pub open spec fn spec_eof_err(src_len: int, exp: Seq<char>) -> ErrView {
    ErrView {
        span: SpanView { start: src_len, end: src_len },
        msg: spec_expected_msg(exp, spec_eof_name()),
    }
}

} // verus!
