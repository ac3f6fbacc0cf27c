//! The tokenizer: a line of text becomes identifiers, whole numbers,
//! one-character operators and collapsed runs of whitespace.

use super::error::Error;
use crate::chars::is_digit;
use crate::chars::is_letter;
use crate::chars::is_space;
use crate::chars::is_symbol;
use crate::chars::digit;
use crate::chars::letter;
use crate::chars::space;
use crate::chars::symbol;
use vstd::prelude::*;
use vstd::string::StrSliceExecFns;

verus! {

/// The mathematical shape of one token: its kind and its text.
pub ghost enum TokenModel {
    Identifier(Seq<char>),
    WholeNumber(Seq<char>),
    Operator(Seq<char>),
    Space,
}

/// One token of a line: a maximal identifier or number, a one-character
/// operator, or a maximal run of whitespace collapsed into one `Space`.
#[derive(Debug, Clone)]
pub enum Token {
    /// A letter followed by letters and digits.
    Identifier(String),
    /// A run of decimal digits.
    WholeNumber(String),
    /// A single punctuation character.
    Operator(String),
    /// A run of whitespace.
    Space,
}

impl View for Token {
    type V = TokenModel;

    open spec fn view(&self) -> TokenModel {
        match self {
            Token::Identifier(s) => TokenModel::Identifier(s@),
            Token::WholeNumber(s) => TokenModel::WholeNumber(s@),
            Token::Operator(s) => TokenModel::Operator(s@),
            Token::Space => TokenModel::Space,
        }
    }
}

impl DeepView for Token {
    type V = TokenModel;

    open spec fn deep_view(&self) -> TokenModel {
        self.view()
    }
}

/// The display text of one token; a whitespace run reads as one space.
pub open spec fn tok_text(t: TokenModel) -> Seq<char> {
    match t {
        TokenModel::Identifier(s) => s,
        TokenModel::WholeNumber(s) => s,
        TokenModel::Operator(s) => s,
        TokenModel::Space => " "@,
    }
}

impl Token {
    /// The token's text, as it reads in a diagnostic.
    pub fn to_str(&self) -> (r: &str)
        ensures
            r@ == tok_text(self@),
    {
        match self {
            Token::Identifier(s) => s.as_str(),
            Token::WholeNumber(s) => s.as_str(),
            Token::Operator(s) => s.as_str(),
            Token::Space => " ",
        }
    }
}

impl PartialEq for Token {
    fn eq(&self, other: &Token) -> (r: bool) {
        match (self, other) {
            (Token::Identifier(a), Token::Identifier(b)) => *a == *b,
            (Token::WholeNumber(a), Token::WholeNumber(b)) => *a == *b,
            (Token::Operator(a), Token::Operator(b)) => *a == *b,
            (Token::Space, Token::Space) => true,
            _ => false,
        }
    }
}

impl vstd::std_specs::cmp::PartialEqSpecImpl for Token {
    open spec fn obeys_eq_spec() -> bool {
        true
    }

    open spec fn eq_spec(&self, other: &Token) -> bool {
        self@ == other@
    }
}

/// One input character, classified.
enum Char {
    Digit(char),
    Letter(char),
    Symbol(char),
    Space,
    Unknown(char),
}

/// The classification [`Char::new`] makes: letters, then digits, then
/// punctuation, then whitespace; everything else is unknown.
spec fn spec_classify(c: char) -> Char {
    if is_letter(c) {
        Char::Letter(c)
    } else if is_digit(c) {
        Char::Digit(c)
    } else if is_symbol(c) {
        Char::Symbol(c)
    } else if is_space(c) {
        Char::Space
    } else {
        Char::Unknown(c)
    }
}

impl Char {
    /// Classify one character.
    fn new(c: char) -> (r: Char)
        ensures
            r == spec_classify(c),
    {
        if letter(c) {
            Char::Letter(c)
        } else if digit(c) {
            Char::Digit(c)
        } else if symbol(c) {
            Char::Symbol(c)
        } else if space(c) {
            Char::Space
        } else {
            Char::Unknown(c)
        }
    }
}

/// How one character extends a token sequence: whitespace collapses into
/// the previous `Space`, letters and digits extend a previous identifier,
/// digits extend a previous number, punctuation always starts a fresh
/// one-character operator, and anything unclassifiable is the error.
pub open spec fn tok_step(toks: Seq<TokenModel>, c: char) -> Result<Seq<TokenModel>, char> {
    if !(is_letter(c) || is_digit(c) || is_symbol(c) || is_space(c)) {
        Err(c)
    } else if is_space(c) {
        if toks.len() > 0 && (toks.last() matches TokenModel::Space) {
            Ok(toks)
        } else {
            Ok(toks.push(TokenModel::Space))
        }
    } else if is_letter(c) {
        if toks.len() > 0 {
            match toks.last() {
                TokenModel::Identifier(s) => Ok(
                    toks.update(toks.len() - 1, TokenModel::Identifier(s.push(c))),
                ),
                _ => Ok(toks.push(TokenModel::Identifier(seq![c]))),
            }
        } else {
            Ok(toks.push(TokenModel::Identifier(seq![c])))
        }
    } else if is_digit(c) {
        if toks.len() > 0 {
            match toks.last() {
                TokenModel::Identifier(s) => Ok(
                    toks.update(toks.len() - 1, TokenModel::Identifier(s.push(c))),
                ),
                TokenModel::WholeNumber(s) => Ok(
                    toks.update(toks.len() - 1, TokenModel::WholeNumber(s.push(c))),
                ),
                _ => Ok(toks.push(TokenModel::WholeNumber(seq![c]))),
            }
        } else {
            Ok(toks.push(TokenModel::WholeNumber(seq![c])))
        }
    } else {
        Ok(toks.push(TokenModel::Operator(seq![c])))
    }
}

/// The tokens of a whole line, or the first character that fits no class.
pub open spec fn tokenize_spec(s: Seq<char>) -> Result<Seq<TokenModel>, char>
    decreases s.len()
{
    if s.len() == 0 {
        Ok(Seq::empty())
    } else {
        match tokenize_spec(s.drop_last()) {
            Ok(toks) => tok_step(toks, s.last()),
            Err(c) => Err(c),
        }
    }
}

/// Split a line into tokens. Returns [`Error::TokenizeError`] on the first
/// character that is not an ASCII letter, digit, punctuation or whitespace.
pub fn tokenize(expr: &str) -> (r: Result<Vec<Token>, Error>)
    ensures
        match r {
            Ok(toks) => tokenize_spec(expr@) == Ok::<Seq<TokenModel>, char>(toks.deep_view()),
            Err(Error::TokenizeError(c)) => tokenize_spec(expr@) == Err::<
                Seq<TokenModel>,
                char,
            >(c),
            Err(_) => false,
        },
{
    let mut tokens: Vec<Token> = Vec::new();
    let n = expr.unicode_len();
    let mut i: usize = 0;
    proof {
        assert(expr@.take(0) =~= Seq::<char>::empty());
        assert(tokens.deep_view() =~= Seq::<TokenModel>::empty());
    }
    while i < n
        invariant
            i <= n,
            n == expr@.len(),
            tokenize_spec(expr@.take(i as int)) == Ok::<Seq<TokenModel>, char>(
                tokens.deep_view(),
            ),
        decreases n - i,
    {
        let c = expr.get_char(i);
        let ghost dv0 = tokens.deep_view();
        proof {
            assert(expr@.take(i + 1).drop_last() =~= expr@.take(i as int));
            assert(expr@.take(i + 1).last() == expr@[i as int]);
        }
        match Char::new(c) {
            Char::Unknown(u) => {
                proof {
                    lemma_tokenize_prefix_err(expr@, i + 1);
                }
                return Err(Error::TokenizeError(u));
            },
            Char::Space => {
                let push_new = tokens.len() == 0 || !matches!(
                    &tokens[tokens.len() - 1],
                    Token::Space,
                );
                if push_new {
                    tokens.push(Token::Space);
                    proof {
                        assert(tokens.deep_view() =~= dv0.push(TokenModel::Space));
                    }
                }
            },
            Char::Letter(l) => {
                let extend = tokens.len() > 0 && matches!(
                    &tokens[tokens.len() - 1],
                    Token::Identifier(_),
                );
                if extend {
                    let t = tokens.pop().unwrap();
                    match t {
                        Token::Identifier(mut s) => {
                            s.push(l);
                            tokens.push(Token::Identifier(s));
                        },
                        _ => {
                            assert(false);
                        },
                    }
                    proof {
                        assert(tokens.deep_view() =~= tok_step(dv0, c).unwrap());
                    }
                } else {
                    let mut s = String::new();
                    s.push(l);
                    tokens.push(Token::Identifier(s));
                    proof {
                        assert(s@ =~= seq![l]);
                        assert(tokens.deep_view() =~= dv0.push(
                            TokenModel::Identifier(seq![l]),
                        ));
                    }
                }
            },
            Char::Digit(d) => {
                let extend_ident = tokens.len() > 0 && matches!(
                    &tokens[tokens.len() - 1],
                    Token::Identifier(_),
                );
                let extend_num = tokens.len() > 0 && matches!(
                    &tokens[tokens.len() - 1],
                    Token::WholeNumber(_),
                );
                if extend_ident || extend_num {
                    let t = tokens.pop().unwrap();
                    match t {
                        Token::Identifier(mut s) => {
                            s.push(d);
                            tokens.push(Token::Identifier(s));
                        },
                        Token::WholeNumber(mut s) => {
                            s.push(d);
                            tokens.push(Token::WholeNumber(s));
                        },
                        _ => {
                            assert(false);
                        },
                    }
                    proof {
                        assert(tokens.deep_view() =~= tok_step(dv0, c).unwrap());
                    }
                } else {
                    let mut s = String::new();
                    s.push(d);
                    tokens.push(Token::WholeNumber(s));
                    proof {
                        assert(s@ =~= seq![d]);
                        assert(tokens.deep_view() =~= dv0.push(
                            TokenModel::WholeNumber(seq![d]),
                        ));
                    }
                }
            },
            Char::Symbol(y) => {
                let mut s = String::new();
                s.push(y);
                tokens.push(Token::Operator(s));
                proof {
                    assert(s@ =~= seq![y]);
                    assert(tokens.deep_view() =~= dv0.push(TokenModel::Operator(seq![y])));
                }
            },
        }
        i = i + 1;
    }
    proof {
        assert(expr@.take(n as int) =~= expr@);
    }
    Ok(tokens)
}

/// What every token the tokenizer produces looks like: numerals are
/// nonempty digit runs, identifiers are nonempty, operators are single
/// characters.
pub open spec fn shaped_token(t: TokenModel) -> bool {
    match t {
        TokenModel::WholeNumber(s) => s.len() > 0 && (forall|i: int|
            0 <= i < s.len() ==> is_digit(#[trigger] s[i])),
        TokenModel::Operator(s) => s.len() == 1,
        TokenModel::Identifier(s) => s.len() > 0,
        TokenModel::Space => true,
    }
}

/// Every token of a successfully tokenized line is well shaped.
pub proof fn lemma_tokenize_shaped(s: Seq<char>)
    requires
        tokenize_spec(s) is Ok,
    ensures
        forall|i: int|
            0 <= i < tokenize_spec(s).unwrap().len() ==> shaped_token(
                #[trigger] tokenize_spec(s).unwrap()[i],
            ),
    decreases s.len(),
{
    if s.len() > 0 {
        lemma_tokenize_shaped(s.drop_last());
        let prev = tokenize_spec(s.drop_last()).unwrap();
        let cur = tokenize_spec(s).unwrap();
        let c = s.last();
        assert(tok_step(prev, c) == Ok::<Seq<TokenModel>, char>(cur));
        assert forall|i: int| 0 <= i < cur.len() implies shaped_token(#[trigger] cur[i]) by {
            if i < prev.len() - 1 {
                assert(cur[i] == prev[i]);
            } else if prev.len() > 0 && i == prev.len() - 1 {
                assert(shaped_token(prev[i]));
                match prev[i] {
                    TokenModel::Identifier(t) => {
                        if cur[i] != prev[i] {
                            assert(cur[i] == TokenModel::Identifier(t.push(c)));
                            assert(t.push(c).len() > 0);
                        }
                    },
                    TokenModel::WholeNumber(t) => {
                        if cur[i] != prev[i] {
                            assert(cur[i] == TokenModel::WholeNumber(t.push(c)));
                            assert(is_digit(c));
                            assert(forall|j: int|
                                0 <= j < t.push(c).len() ==> is_digit(#[trigger] t.push(c)[j]));
                        }
                    },
                    _ => {},
                }
            } else {
                // the freshly pushed one-character token
                assert(i == cur.len() - 1);
                assert(seq![c].len() == 1);
            }
        }
    }
}

/// Once a prefix of the line fails to tokenize, the whole line fails the
/// same way.
proof fn lemma_tokenize_prefix_err(s: Seq<char>, i: int)
    requires
        0 <= i <= s.len(),
        tokenize_spec(s.take(i)) is Err,
    ensures
        tokenize_spec(s) == tokenize_spec(s.take(i)),
    decreases s.len() - i,
{
    if i < s.len() {
        assert(s.take(i + 1).drop_last() =~= s.take(i));
        lemma_tokenize_prefix_err(s, i + 1);
    } else {
        assert(s.take(i) =~= s);
    }
}

} // verus!
