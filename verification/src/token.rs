//! Tokens produced by the lexer, and a cursor over a token sequence.

use vstd::prelude::*;

verus! {

/// The model of a token: the same shape as [`Token`], with the variable name
/// abstracted to a sequence of characters.
pub ghost enum SpecToken {
    Variable(Seq<char>),
    Lambda,
    Dot,
    LeftParen,
    RightParen,
}

/// One lexical unit of a lambda expression.
#[derive(Debug)]
pub enum Token {
    Variable(String),
    Lambda,
    Dot,
    LeftParen,
    RightParen,
}

impl View for Token {
    type V = SpecToken;

    open spec fn view(&self) -> SpecToken {
        match self {
            Token::Variable(label) => SpecToken::Variable(label@),
            Token::Lambda => SpecToken::Lambda,
            Token::Dot => SpecToken::Dot,
            Token::LeftParen => SpecToken::LeftParen,
            Token::RightParen => SpecToken::RightParen,
        }
    }
}

impl PartialEq for Token {
    /// Tokens are equal when they are the same kind and, for variables, the
    /// names match exactly.
    fn eq(&self, other: &Self) -> (r: bool) {
        match (self, other) {
            (Token::Variable(lhs), Token::Variable(rhs)) => *lhs == *rhs,
            (Token::Lambda, Token::Lambda) => true,
            (Token::Dot, Token::Dot) => true,
            (Token::LeftParen, Token::LeftParen) => true,
            (Token::RightParen, Token::RightParen) => true,
            _ => false,
        }
    }
}

impl vstd::std_specs::cmp::PartialEqSpecImpl for Token {
    open spec fn obeys_eq_spec() -> bool {
        true
    }

    open spec fn eq_spec(&self, other: &Token) -> bool {
        self@ == other@
    }
}

/// The model of a whole token sequence.
pub open spec fn tokens_view(ts: Seq<Token>) -> Seq<SpecToken> {
    ts.map(|i: int, t: Token| t@)
}

/// How a token changes the parenthesis depth: `(` opens a level, `)` closes
/// one, everything else leaves it unchanged.
pub open spec fn paren_delta(t: SpecToken) -> int {
    match t {
        SpecToken::LeftParen => 1,
        SpecToken::RightParen => -1,
        _ => 0,
    }
}

/// Where the expression that starts at `i` under `depth` open parentheses
/// ends: the position just past the first token that closes more parentheses
/// than were opened, or the end of the sequence.
pub open spec fn spec_end_of_expr(ts: Seq<SpecToken>, i: int, depth: int) -> int
    decreases ts.len() - i,
{
    if i < 0 || i >= ts.len() {
        i
    } else {
        let d = depth + paren_delta(ts[i]);
        if d < 0 {
            i + 1
        } else {
            spec_end_of_expr(ts, i + 1, d)
        }
    }
}

/// A cursor over a lexed token sequence: it remembers the sequence and the
/// position reached so far.
pub struct TokenIterator<'a> {
    tokens: &'a Vec<Token>,
    index: usize,
}

impl<'a> TokenIterator<'a> {
    /// The cursor never stands past the end of the sequence.
    #[verifier::type_invariant]
    spec fn cursor_in_range(self) -> bool {
        self.index <= self.tokens@.len()
    }

    /// The tokens the cursor walks over.
    pub closed spec fn spec_tokens(&self) -> Seq<SpecToken> {
        tokens_view(self.tokens@)
    }

    /// The position reached so far.
    pub closed spec fn spec_index(&self) -> int {
        self.index as int
    }

    /// A fresh cursor standing at the start of `tokens`.
    pub fn new(tokens: &'a Vec<Token>) -> (r: Self)
        ensures
            r.spec_tokens() == tokens_view(tokens@),
            r.spec_index() == 0,
    {
        Self { tokens, index: 0 }
    }

    /// The token under the cursor, without advancing; `None` at the end.
    pub fn peek(&self) -> (r: Option<&Token>)
        ensures
            self.spec_index() < self.spec_tokens().len() ==> (r matches Some(t) && t@
                == self.spec_tokens()[self.spec_index()]),
            self.spec_index() >= self.spec_tokens().len() ==> r is None,
    {
        if self.index < self.tokens.len() {
            Some(&self.tokens[self.index])
        } else {
            None
        }
    }

    /// The position reached so far.
    pub fn index(&self) -> (r: usize)
        ensures
            r == self.spec_index(),
    {
        self.index
    }

    /// The token under the cursor, advancing past it; `None` at the end.
    pub fn next(&mut self) -> (r: Option<&'a Token>)
        ensures
            final(self).spec_tokens() == old(self).spec_tokens(),
            old(self).spec_index() < old(self).spec_tokens().len() ==> {
                &&& r matches Some(t) && t@ == old(self).spec_tokens()[old(self).spec_index()]
                &&& final(self).spec_index() == old(self).spec_index() + 1
            },
            old(self).spec_index() >= old(self).spec_tokens().len() ==> {
                &&& r is None
                &&& final(self).spec_index() == old(self).spec_index()
            },
    {
        if self.index >= self.tokens.len() {
            None
        } else {
            let token = &self.tokens[self.index];
            self.index = self.index + 1;
            Some(token)
        }
    }

    /// Where the expression that starts at the cursor ends: just past the
    /// first unbalanced right parenthesis, or the end of the sequence.
    pub fn end_of_expr(&self) -> (r: usize)
        ensures
            r == spec_end_of_expr(self.spec_tokens(), self.spec_index(), 0),
    {
        proof {
            use_type_invariant(self);
        }
        let ghost ts = self.spec_tokens();
        let mut i: usize = self.index;
        let mut depth: i128 = 0;
        while i < self.tokens.len()
            invariant
                self.spec_index() <= i <= self.tokens@.len(),
                ts == self.spec_tokens(),
                -(i as int) <= depth <= i,
                spec_end_of_expr(ts, self.spec_index(), 0) == spec_end_of_expr(
                    ts,
                    i as int,
                    depth as int,
                ),
            decreases self.tokens@.len() - i,
        {
            let d = match &self.tokens[i] {
                Token::LeftParen => depth + 1,
                Token::RightParen => depth - 1,
                _ => depth,
            };
            if d < 0 {
                return i + 1;
            }
            depth = d;
            i = i + 1;
        }
        i
    }
}

} // verus!
