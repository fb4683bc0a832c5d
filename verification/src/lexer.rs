//! The lexer: source text to tokens.
//!
//! Whitespace is skipped; an identifier is a maximal run of ASCII letters,
//! digits and underscore (digits are admitted so that the canonical names the
//! normalizer issues read back in); the binder may be written `\` or `λ`; any
//! other character is a syntax error naming the character.

use vstd::prelude::*;

use crate::error::LambdaError;
use crate::token::{tokens_view, SpecToken, Token};

verus! {

/// The result of lexing: the token sequence, or the syntax error.
pub type LexResult = Result<Vec<Token>, LambdaError>;

/// A character that may stand in an identifier: an ASCII letter, an ASCII
/// digit, or an underscore.
pub open spec fn is_identifier_char(c: char) -> bool {
    ('a' <= c && c <= 'z') || ('A' <= c && c <= 'Z') || ('0' <= c && c <= '9') || c == '_'
}

/// A character the lexer skips.
pub open spec fn is_whitespace_char(c: char) -> bool {
    c == ' ' || c == '\t' || c == '\n' || c == '\r'
}

/// A character that lexes as a binder.
pub open spec fn is_lambda_char(c: char) -> bool {
    c == '\\' || c == '\u{3bb}'
}

/// What the lexer does from position `i` on, with the identifier characters
/// `cur` pending and the tokens `acc` already emitted: the whole token
/// sequence, or the first illegal character.
pub open spec fn spec_lex_from(s: Seq<char>, i: int, cur: Seq<char>, acc: Seq<SpecToken>) -> Result<
    Seq<SpecToken>,
    char,
>
    decreases s.len() - i,
{
    if i < 0 || i >= s.len() {
        Ok(if cur.len() > 0 {
            acc.push(SpecToken::Variable(cur))
        } else {
            acc
        })
    } else {
        let c = s[i];
        if is_identifier_char(c) {
            spec_lex_from(s, i + 1, cur.push(c), acc)
        } else {
            let flushed = if cur.len() > 0 {
                acc.push(SpecToken::Variable(cur))
            } else {
                acc
            };
            if is_whitespace_char(c) {
                spec_lex_from(s, i + 1, seq![], flushed)
            } else if c == '.' {
                spec_lex_from(s, i + 1, seq![], flushed.push(SpecToken::Dot))
            } else if is_lambda_char(c) {
                spec_lex_from(s, i + 1, seq![], flushed.push(SpecToken::Lambda))
            } else if c == '(' {
                spec_lex_from(s, i + 1, seq![], flushed.push(SpecToken::LeftParen))
            } else if c == ')' {
                spec_lex_from(s, i + 1, seq![], flushed.push(SpecToken::RightParen))
            } else {
                Err(c)
            }
        }
    }
}

/// What lexing a whole text yields.
pub open spec fn spec_lex(s: Seq<char>) -> Result<Seq<SpecToken>, char> {
    spec_lex_from(s, 0, seq![], seq![])
}

/// The message reported for an illegal character.
pub open spec fn illegal_char_msg(c: char) -> Seq<char> {
    "Illegal character "@.push(c)
}

/// Turn source text into tokens; [`spec_lex`] says exactly which tokens come
/// out, and on which texts the illegal-character error is reported instead.
pub fn lex(code: &str) -> (r: LexResult)
    ensures
        spec_lex(code@) matches Ok(ts) ==> (r matches Ok(v) && tokens_view(v@) == ts),
        spec_lex(code@) matches Err(c) ==> (r matches Err(LambdaError::SyntaxError(m)) && m@
            == illegal_char_msg(c)),
{
    let ghost s = code@;
    let n = code.unicode_len();
    let mut tokens: Vec<Token> = Vec::new();
    // The pending identifier is the run of characters from `start` up to the
    // cursor; `start == i` means none is pending.
    let mut start: usize = 0;
    let mut i: usize = 0;
    proof {
        assert(tokens_view(tokens@) =~= Seq::<SpecToken>::empty());
        assert(s.subrange(0, 0) =~= Seq::<char>::empty());
    }
    while i < n
        invariant
            n == s.len(),
            s == code@,
            0 <= start <= i <= n,
            spec_lex(s) == spec_lex_from(
                s,
                i as int,
                s.subrange(start as int, i as int),
                tokens_view(tokens@),
            ),
        decreases n - i,
    {
        let ghost i0 = i as int;
        let ghost cur0 = s.subrange(start as int, i as int);
        let ghost acc0 = tokens_view(tokens@);
        let c = code.get_char(i);
        if ('a' <= c && c <= 'z') || ('A' <= c && c <= 'Z') || ('0' <= c && c <= '9') || c
            == '_' {
            proof {
                assert(s.subrange(start as int, i0 + 1) =~= cur0.push(c));
            }
        } else {
            if start < i {
                let ghost before = tokens_view(tokens@);
                let ident = code.substring_char(start, i).to_owned();
                tokens.push(Token::Variable(ident));
                proof {
                    assert(tokens_view(tokens@) =~= before.push(SpecToken::Variable(cur0)));
                }
            }
            let ghost flushed = tokens_view(tokens@);
            if c == ' ' || c == '\t' || c == '\n' || c == '\r' {
                // skipped
            } else if c == '.' {
                tokens.push(Token::Dot);
                proof {
                    assert(tokens_view(tokens@) =~= flushed.push(SpecToken::Dot));
                }
            } else if c == '\\' || c == '\u{3bb}' {
                tokens.push(Token::Lambda);
                proof {
                    assert(tokens_view(tokens@) =~= flushed.push(SpecToken::Lambda));
                }
            } else if c == '(' {
                tokens.push(Token::LeftParen);
                proof {
                    assert(tokens_view(tokens@) =~= flushed.push(SpecToken::LeftParen));
                }
            } else if c == ')' {
                tokens.push(Token::RightParen);
                proof {
                    assert(tokens_view(tokens@) =~= flushed.push(SpecToken::RightParen));
                }
            } else {
                let mut msg = String::from_str("Illegal character ");
                msg.append(code.substring_char(i, i + 1));
                proof {
                    assert(s.subrange(i0, i0 + 1) =~= seq![c]);
                    assert(msg@ =~= illegal_char_msg(c));
                }
                return Err(LambdaError::SyntaxError(msg));
            }
            start = i + 1;
            proof {
                assert(s.subrange(i0 + 1, i0 + 1) =~= Seq::<char>::empty());
            }
        }
        proof {
            assert(spec_lex_from(s, i0, cur0, acc0) == spec_lex_from(
                s,
                i0 + 1,
                s.subrange(start as int, i0 + 1),
                tokens_view(tokens@),
            ));
        }
        i = i + 1;
    }
    if start < n {
        let ghost before = tokens_view(tokens@);
        let ghost cur = s.subrange(start as int, n as int);
        let ident = code.substring_char(start, n).to_owned();
        tokens.push(Token::Variable(ident));
        proof {
            assert(tokens_view(tokens@) =~= before.push(SpecToken::Variable(cur)));
        }
    }
    Ok(tokens)
}

/// What the lexer does to a text with the identifier characters `cur`
/// pending, written compositionally over the text itself: the same result as
/// [`spec_lex_from`], in a shape that concatenation lemmas can work with.
pub open spec fn spec_lex_rec(s: Seq<char>, cur: Seq<char>) -> Result<Seq<SpecToken>, char>
    decreases s.len(),
{
    if s.len() == 0 {
        Ok(
            if cur.len() > 0 {
                seq![SpecToken::Variable(cur)]
            } else {
                seq![]
            },
        )
    } else {
        let c = s[0];
        if is_identifier_char(c) {
            spec_lex_rec(s.drop_first(), cur.push(c))
        } else if !(is_whitespace_char(c) || c == '.' || is_lambda_char(c) || c == '(' || c
            == ')') {
            Err(c)
        } else {
            let flushed: Seq<SpecToken> = if cur.len() > 0 {
                seq![SpecToken::Variable(cur)]
            } else {
                seq![]
            };
            let emitted: Seq<SpecToken> = if is_whitespace_char(c) {
                seq![]
            } else if c == '.' {
                seq![SpecToken::Dot]
            } else if is_lambda_char(c) {
                seq![SpecToken::Lambda]
            } else if c == '(' {
                seq![SpecToken::LeftParen]
            } else {
                seq![SpecToken::RightParen]
            };
            match spec_lex_rec(s.drop_first(), seq![]) {
                Ok(rest) => Ok(flushed + emitted + rest),
                Err(cc) => Err(cc),
            }
        }
    }
}

/// The positional lexer and the compositional one agree: lexing from `i`
/// onwards appends to `acc` exactly what the compositional lexer makes of the
/// remaining text.
proof fn lemma_lex_from_rec(s: Seq<char>, i: int, cur: Seq<char>, acc: Seq<SpecToken>)
    requires
        0 <= i <= s.len(),
    ensures
        spec_lex_from(s, i, cur, acc) == (match spec_lex_rec(s.subrange(i, s.len() as int), cur) {
            Ok(ts) => Ok::<Seq<SpecToken>, char>(acc + ts),
            Err(c) => Err::<Seq<SpecToken>, char>(c),
        }),
    decreases s.len() - i,
{
    let rest = s.subrange(i, s.len() as int);
    if i == s.len() {
        assert(rest =~= Seq::<char>::empty());
        if cur.len() > 0 {
            assert(acc + seq![SpecToken::Variable(cur)] =~= acc.push(SpecToken::Variable(cur)));
        } else {
            assert(acc + Seq::<SpecToken>::empty() =~= acc);
        }
    } else {
        let c = s[i];
        assert(rest[0] == c);
        assert(rest.drop_first() =~= s.subrange(i + 1, s.len() as int));
        if is_identifier_char(c) {
            lemma_lex_from_rec(s, i + 1, cur.push(c), acc);
        } else if !(is_whitespace_char(c) || c == '.' || is_lambda_char(c) || c == '(' || c
            == ')') {
        } else {
            let flushed_acc = if cur.len() > 0 {
                acc.push(SpecToken::Variable(cur))
            } else {
                acc
            };
            let flushed: Seq<SpecToken> = if cur.len() > 0 {
                seq![SpecToken::Variable(cur)]
            } else {
                seq![]
            };
            let emitted: Seq<SpecToken> = if is_whitespace_char(c) {
                seq![]
            } else if c == '.' {
                seq![SpecToken::Dot]
            } else if is_lambda_char(c) {
                seq![SpecToken::Lambda]
            } else if c == '(' {
                seq![SpecToken::LeftParen]
            } else {
                seq![SpecToken::RightParen]
            };
            if is_whitespace_char(c) {
                assert(flushed_acc + emitted =~= flushed_acc);
            } else if c == '.' {
                assert(flushed_acc + emitted =~= flushed_acc.push(SpecToken::Dot));
            } else if is_lambda_char(c) {
                assert(flushed_acc + emitted =~= flushed_acc.push(SpecToken::Lambda));
            } else if c == '(' {
                assert(flushed_acc + emitted =~= flushed_acc.push(SpecToken::LeftParen));
            } else {
                assert(flushed_acc + emitted =~= flushed_acc.push(SpecToken::RightParen));
            }
            lemma_lex_from_rec(s, i + 1, seq![], flushed_acc + emitted);
            assert(flushed_acc + emitted =~= acc + (flushed + emitted));
            match spec_lex_rec(rest.drop_first(), seq![]) {
                Ok(ts) => {
                    assert((acc + (flushed + emitted)) + ts =~= acc + (flushed + emitted + ts));
                },
                Err(_) => {
                },
            }
        }
    }
}

/// The whole-text lexer in compositional form.
pub proof fn lemma_lex_rec_agrees(s: Seq<char>)
    ensures
        spec_lex(s) == (match spec_lex_rec(s, seq![]) {
            Ok(ts) => Ok::<Seq<SpecToken>, char>(ts),
            Err(c) => Err::<Seq<SpecToken>, char>(c),
        }),
{
    lemma_lex_from_rec(s, 0, seq![], seq![]);
    assert(s.subrange(0, s.len() as int) =~= s);
    match spec_lex_rec(s, seq![]) {
        Ok(ts) => {
            assert(Seq::<SpecToken>::empty() + ts =~= ts);
        },
        Err(_) => {
        },
    }
}

/// The boundary between two texts is clean for the lexer: the continuation
/// does not begin with an identifier character, or no identifier run can be
/// pending when the first text ends.
pub open spec fn clean_boundary(a: Seq<char>, b: Seq<char>, cur: Seq<char>) -> bool {
    ||| b.len() == 0
    ||| !is_identifier_char(b[0])
    ||| (if a.len() > 0 {
        !is_identifier_char(a.last())
    } else {
        cur.len() == 0
    })
}

/// Lexing two texts separately and joining the tokens: the right-hand side of
/// the concatenation lemma.
pub open spec fn lex_append_parts(a: Seq<char>, b: Seq<char>, cur: Seq<char>) -> Result<Seq<SpecToken>, char> {
    match spec_lex_rec(a, cur) {
        Ok(ta) => match spec_lex_rec(b, seq![]) {
            Ok(tb) => Ok(ta + tb),
            Err(c) => Err(c),
        },
        Err(c) => Err(c),
    }
}

/// Lexing a concatenation at a clean boundary lexes the parts separately and
/// joins the tokens.
pub proof fn lemma_lex_rec_append(a: Seq<char>, b: Seq<char>, cur: Seq<char>)
    requires
        clean_boundary(a, b, cur),
    ensures
        spec_lex_rec(a + b, cur) == lex_append_parts(a, b, cur),
    decreases a.len(),
{
    if a.len() == 0 {
        assert(a + b =~= b);
        let flushed: Seq<SpecToken> = if cur.len() > 0 {
            seq![SpecToken::Variable(cur)]
        } else {
            seq![]
        };
        if b.len() == 0 {
            assert(flushed + Seq::<SpecToken>::empty() =~= flushed);
            assert(spec_lex_rec(a + b, cur) == lex_append_parts(a, b, cur));
        } else if cur.len() == 0 {
            assert(cur =~= Seq::<char>::empty());
            match spec_lex_rec(b, seq![]) {
                Ok(tb) => {
                    assert(flushed + tb =~= tb);
                },
                Err(_) => {
                },
            }
            assert(spec_lex_rec(a + b, cur) == lex_append_parts(a, b, cur));
        } else {
            // `b` starts with a non-identifier character, which flushes the
            // pending identifier first, exactly as lexing `b` alone after
            // prepending the flushed token.
            let c = b[0];
            assert(!is_identifier_char(c));
            if !(is_whitespace_char(c) || c == '.' || is_lambda_char(c) || c == '(' || c == ')') {
            } else {
                let emitted: Seq<SpecToken> = if is_whitespace_char(c) {
                    seq![]
                } else if c == '.' {
                    seq![SpecToken::Dot]
                } else if c == '(' {
                    seq![SpecToken::LeftParen]
                } else if is_lambda_char(c) {
                    seq![SpecToken::Lambda]
                } else {
                    seq![SpecToken::RightParen]
                };
                match spec_lex_rec(b.drop_first(), seq![]) {
                    Ok(rest) => {
                        assert(flushed + emitted + rest =~= flushed + (Seq::<
                            SpecToken,
                        >::empty() + emitted + rest));
                    },
                    Err(_) => {
                    },
                }
                assert(spec_lex_rec(a + b, cur) == lex_append_parts(a, b, cur));
            }
        }
    } else {
        let c = a[0];
        assert((a + b)[0] == c);
        assert((a + b).drop_first() =~= a.drop_first() + b);
        if is_identifier_char(c) {
            assert(clean_boundary(a.drop_first(), b, cur.push(c))) by {
                if a.len() == 1 {
                    assert(a.last() == c);
                } else {
                    assert(a.drop_first().last() == a.last());
                }
            }
            lemma_lex_rec_append(a.drop_first(), b, cur.push(c));
            assert(spec_lex_rec(a + b, cur) == lex_append_parts(a, b, cur));
        } else if !(is_whitespace_char(c) || c == '.' || is_lambda_char(c) || c == '(' || c
            == ')') {
        } else {
            assert(clean_boundary(a.drop_first(), b, seq![])) by {
                if a.len() > 1 {
                    assert(a.drop_first().last() == a.last());
                }
            }
            lemma_lex_rec_append(a.drop_first(), b, seq![]);
            let flushed: Seq<SpecToken> = if cur.len() > 0 {
                seq![SpecToken::Variable(cur)]
            } else {
                seq![]
            };
            let emitted: Seq<SpecToken> = if is_whitespace_char(c) {
                seq![]
            } else if c == '.' {
                seq![SpecToken::Dot]
            } else if is_lambda_char(c) {
                seq![SpecToken::Lambda]
            } else if c == '(' {
                seq![SpecToken::LeftParen]
            } else {
                seq![SpecToken::RightParen]
            };
            match spec_lex_rec(a.drop_first(), seq![]) {
                Ok(ta1) => {
                    match spec_lex_rec(b, seq![]) {
                        Ok(tb) => {
                            match spec_lex_rec(a.drop_first() + b, seq![]) {
                                Ok(_) => {
                                    assert(flushed + emitted + (ta1 + tb) =~= (flushed + emitted
                                        + ta1) + tb);
                                },
                                Err(_) => {
                                },
                            }
                        },
                        Err(_) => {
                        },
                    }
                },
                Err(_) => {
                },
            }
        }
    }
}

/// A nonempty run of identifier characters.
pub open spec fn is_identifier(s: Seq<char>) -> bool {
    s.len() > 0 && forall|i: int| 0 <= i < s.len() ==> is_identifier_char(#[trigger] s[i])
}

/// Lexing a run of identifier characters extends the pending identifier and
/// yields the one variable token.
proof fn lemma_lex_rec_ident_run(w: Seq<char>, cur: Seq<char>)
    requires
        forall|i: int| 0 <= i < w.len() ==> is_identifier_char(#[trigger] w[i]),
        cur.len() + w.len() > 0,
    ensures
        spec_lex_rec(w, cur) == Ok::<Seq<SpecToken>, char>(seq![SpecToken::Variable(cur + w)]),
    decreases w.len(),
{
    if w.len() == 0 {
        assert(cur + w =~= cur);
    } else {
        lemma_lex_rec_ident_run(w.drop_first(), cur.push(w[0]));
        assert(cur.push(w[0]) + w.drop_first() =~= cur + w);
    }
}

/// Lexing an identifier yields its one variable token.
pub proof fn lemma_lex_rec_identifier(w: Seq<char>)
    requires
        is_identifier(w),
    ensures
        spec_lex_rec(w, seq![]) == Ok::<Seq<SpecToken>, char>(seq![SpecToken::Variable(w)]),
{
    lemma_lex_rec_ident_run(w, seq![]);
    assert(Seq::<char>::empty() + w =~= w);
}

/// Every variable token the lexer emits carries an identifier: a nonempty run
/// of identifier characters.
pub open spec fn tokens_have_identifier_names(ts: Seq<SpecToken>) -> bool {
    forall|k: int| 0 <= k < ts.len() ==> (#[trigger] ts[k] matches SpecToken::Variable(name)
        ==> is_identifier(name))
}

/// The lexer only emits variable tokens whose names are identifiers.
proof fn lemma_lex_rec_names(s: Seq<char>, cur: Seq<char>)
    requires
        forall|i: int| 0 <= i < cur.len() ==> is_identifier_char(#[trigger] cur[i]),
    ensures
        spec_lex_rec(s, cur) matches Ok(ts) ==> tokens_have_identifier_names(ts),
    decreases s.len(),
{
    if s.len() == 0 {
    } else {
        let c = s[0];
        if is_identifier_char(c) {
            lemma_lex_rec_names(s.drop_first(), cur.push(c));
        } else if !(is_whitespace_char(c) || c == '.' || is_lambda_char(c) || c == '(' || c
            == ')') {
        } else {
            lemma_lex_rec_names(s.drop_first(), seq![]);
        }
    }
}

/// Whatever text lexes successfully lexes into tokens whose variable names
/// are identifiers.
pub proof fn lemma_lex_names(s: Seq<char>)
    ensures
        spec_lex(s) matches Ok(ts) ==> tokens_have_identifier_names(ts),
{
    lemma_lex_rec_names(s, seq![]);
    lemma_lex_rec_agrees(s);
}

} // verus!
