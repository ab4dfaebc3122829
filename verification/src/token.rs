use vstd::prelude::*;

verus! {

/// The closed set of raw token kinds. A token carries only its span; its
/// text is recovered by slicing the source buffer.
#[derive(Clone, Copy, PartialEq, Eq, Structural, Debug)]
pub enum Token {
    Whitespace,
    Comment,
    Id,
    StrLit,
    Extend,
    Provide,
    Require,
    Implement,
    With,
}

impl Token {
    /// How this token kind is named in an `expected ..., found ...` message.
    pub open spec fn spec_describe(self) -> Seq<char> {
        match self {
            Token::Whitespace => "whitespace"@,
            Token::Comment => "a comment"@,
            Token::Id => "an identifier"@,
            Token::StrLit => "a string"@,
            Token::Extend => "`extend`"@,
            Token::Provide => "`provide`"@,
            Token::Require => "`require`"@,
            Token::Implement => "`implement`"@,
            Token::With => "`with`"@,
        }
    }

    /// Human-readable name of this token kind for error messages.
    pub fn describe(self) -> (r: &'static str)
        ensures
            r@ == self.spec_describe(),
    {
        match self {
            Token::Whitespace => "whitespace",
            Token::Comment => "a comment",
            Token::Id => "an identifier",
            Token::StrLit => "a string",
            Token::Extend => "`extend`",
            Token::Provide => "`provide`",
            Token::Require => "`require`",
            Token::Implement => "`implement`",
            Token::With => "`with`",
        }
    }
}

} // verus!
