//! The arithmetic expression parser: a committed line becomes an
//! [`expr::Expression`] over integers.
//!
//! Parsing rewrites the token sequence in passes: parenthesized groups are
//! parsed recursively and collapsed first, then numerals become constants,
//! then unary signs bind, then sums and differences associate left to
//! right; a single surviving expression is the result. Each pass has a
//! mathematical mirror over [`ParseModel`] sequences, and the functions are
//! proved to compute exactly what the mirrors say.

pub mod error;
pub mod expr;
pub mod token;

use crate::chars::is_digit;
use error::Error;
use error::ErrorModel;
use expr::Expression;
use expr::Value;
use token::Token;
use token::TokenModel;
use vstd::prelude::*;
use vstd::string::StrSliceExecFns;
use vstd::string::StringExecFns;

verus! {

/// The mathematical shape of a partially parsed element.
pub ghost enum ParseModel {
    Tok(TokenModel),
    Expr(Expression),
}

/// A partially parsed element: still a bare token, or a finished
/// subexpression.
#[derive(Debug)]
pub enum Parse {
    Tok(Token),
    Expr(Expression),
}

impl View for Parse {
    type V = ParseModel;

    open spec fn view(&self) -> ParseModel {
        match self {
            Parse::Tok(t) => ParseModel::Tok(t@),
            Parse::Expr(e) => ParseModel::Expr(*e),
        }
    }
}

impl DeepView for Parse {
    type V = ParseModel;

    open spec fn deep_view(&self) -> ParseModel {
        self.view()
    }
}

/// The text of an operator element, if the element is one.
pub open spec fn op_text(p: ParseModel) -> Option<Seq<char>> {
    match p {
        ParseModel::Tok(TokenModel::Operator(s)) => Some(s),
        _ => None,
    }
}

/// Whether the element is the one-character operator `c`.
pub open spec fn is_op(p: ParseModel, c: char) -> bool {
    op_text(p) == Some(seq![c])
}

/// Whether the element is a whitespace token.
pub open spec fn is_space_tok(p: ParseModel) -> bool {
    p matches ParseModel::Tok(TokenModel::Space)
}

/// Whether the element is a finished subexpression.
pub open spec fn is_expr(p: ParseModel) -> bool {
    p matches ParseModel::Expr(_)
}

/// Whether the element is still a bare token.
pub open spec fn is_tok(p: ParseModel) -> bool {
    p matches ParseModel::Tok(_)
}

/// What the tokenizer guarantees of one token: numerals are nonempty digit
/// runs, operators are single punctuation characters, identifiers are
/// nonempty.
pub open spec fn wf_token(t: TokenModel) -> bool {
    token::shaped_token(t)
}

/// [`wf_token`] lifted to a parse element; subexpressions carry no
/// constraint.
pub open spec fn wf_parse(p: ParseModel) -> bool {
    match p {
        ParseModel::Tok(t) => wf_token(t),
        ParseModel::Expr(_) => true,
    }
}

/// Every element of the sequence is well formed.
pub open spec fn wf_parses(ts: Seq<ParseModel>) -> bool {
    forall|i: int| 0 <= i < ts.len() ==> wf_parse(#[trigger] ts[i])
}

/// The trim pass: drop one trailing and then one leading whitespace token.
pub open spec fn trim_spec(ts: Seq<ParseModel>) -> Seq<ParseModel> {
    let t1 = if ts.len() > 0 && is_space_tok(ts.last()) {
        ts.drop_last()
    } else {
        ts
    };
    if t1.len() > 0 && is_space_tok(t1[0]) {
        t1.subrange(1, t1.len() as int)
    } else {
        t1
    }
}

/// Drop a whitespace token at either end of the sequence.
fn trim_spaces(tokens: Vec<Parse>) -> (r: Vec<Parse>)
    ensures
        r.deep_view() == trim_spec(tokens.deep_view()),
{
    let ghost dv = tokens.deep_view();
    let mut tokens = tokens;
    if tokens.len() > 0 && matches!(&tokens[tokens.len() - 1], Parse::Tok(Token::Space)) {
        tokens.pop();
        proof {
            assert(tokens.deep_view() =~= dv.drop_last());
        }
    }
    let ghost dv1 = tokens.deep_view();
    if tokens.len() > 0 && matches!(&tokens[0], Parse::Tok(Token::Space)) {
        tokens.remove(0);
        proof {
            assert(tokens.deep_view() =~= dv1.subrange(1, dv1.len() as int));
        }
    }
    tokens
}

/// The number a digit run denotes, most significant digit first.
pub open spec fn digits_val(s: Seq<char>) -> int
    decreases s.len()
{
    if s.len() == 0 {
        0
    } else {
        digits_val(s.drop_last()) * 10 + ((s[s.len() - 1] as u32) as int - 48)
    }
}

/// The value of a digit run is never negative.
proof fn lemma_digits_val_nonneg(s: Seq<char>)
    requires
        forall|i: int| 0 <= i < s.len() ==> is_digit(#[trigger] s[i]),
    ensures
        digits_val(s) >= 0,
    decreases s.len(),
{
    if s.len() > 0 {
        assert(is_digit(s[s.len() - 1]));
        assert forall|i: int| 0 <= i < s.drop_last().len() implies is_digit(
            #[trigger] s.drop_last()[i],
        ) by {
            assert(s.drop_last()[i] == s[i]);
        }
        lemma_digits_val_nonneg(s.drop_last());
        assert((s[s.len() - 1] as u32) as int - 48 >= 0);
    }
}

/// A prefix of a digit run never denotes more than the whole run.
proof fn lemma_digits_prefix_le(s: Seq<char>, i: int)
    requires
        forall|j: int| 0 <= j < s.len() ==> is_digit(#[trigger] s[j]),
        0 <= i <= s.len(),
    ensures
        digits_val(s.take(i)) <= digits_val(s),
    decreases s.len() - i,
{
    if i < s.len() {
        assert(s.take(i + 1).drop_last() =~= s.take(i));
        assert(s.take(i + 1)[s.take(i + 1).len() - 1] == s[i]);
        assert(is_digit(s[i]));
        assert forall|j: int| 0 <= j < s.take(i).len() implies is_digit(
            #[trigger] s.take(i)[j],
        ) by {
            assert(s.take(i)[j] == s[j]);
        }
        lemma_digits_val_nonneg(s.take(i));
        assert(digits_val(s.take(i + 1)) == digits_val(s.take(i)) * 10 + ((s[i] as u32) as int
            - 48));
        assert(digits_val(s.take(i)) <= digits_val(s.take(i + 1)));
        lemma_digits_prefix_le(s, i + 1);
    } else {
        assert(s.take(i) =~= s);
    }
}

/// Read a digit run as an `i64`; `None` exactly when the value is too
/// large.
fn parse_digits(s: &str) -> (r: Option<i64>)
    requires
        forall|j: int| 0 <= j < s@.len() ==> is_digit(#[trigger] s@[j]),
    ensures
        match r {
            Some(v) => v as int == digits_val(s@),
            None => digits_val(s@) > i64::MAX,
        },
{
    let n = s.unicode_len();
    let mut acc: i64 = 0;
    let mut i: usize = 0;
    proof {
        assert(s@.take(0) =~= Seq::<char>::empty());
    }
    while i < n
        invariant
            i <= n,
            n == s@.len(),
            forall|j: int| 0 <= j < s@.len() ==> is_digit(#[trigger] s@[j]),
            0 <= acc,
            acc as int == digits_val(s@.take(i as int)),
        decreases n - i,
    {
        let c = s.get_char(i);
        let d = ((c as u32) - 48) as i64;
        proof {
            assert(s@.take(i + 1).drop_last() =~= s@.take(i as int));
            assert(s@.take(i + 1)[s@.take(i + 1).len() - 1] == s@[i as int]);
            assert(is_digit(s@[i as int]));
        }
        let step = match acc.checked_mul(10) {
            Some(a) => a.checked_add(d),
            None => None,
        };
        match step {
            Some(b) => {
                acc = b;
            },
            None => {
                proof {
                    assert(digits_val(s@.take(i + 1)) > i64::MAX);
                    lemma_digits_prefix_le(s@, i + 1);
                }
                return None;
            },
        }
        i = i + 1;
    }
    proof {
        assert(s@.take(n as int) =~= s@);
    }
    Some(acc)
}

/// Whether every numeral in the sequence fits in an `i64`.
pub open spec fn numeral_ok_at(p: ParseModel) -> bool {
    match p {
        ParseModel::Tok(TokenModel::WholeNumber(s)) => digits_val(s) <= i64::MAX,
        _ => true,
    }
}

/// Whether every numeral in the sequence fits in an `i64`.
pub open spec fn numeral_ok(ts: Seq<ParseModel>) -> bool {
    forall|i: int| 0 <= i < ts.len() ==> numeral_ok_at(#[trigger] ts[i])
}

/// The numeral pass on one element: a numeral token becomes an integer
/// constant, everything else stays.
pub open spec fn numeral_convert(p: ParseModel) -> ParseModel {
    match p {
        ParseModel::Tok(TokenModel::WholeNumber(s)) => ParseModel::Expr(
            Expression::Constant(Value::Integer(digits_val(s) as i64)),
        ),
        _ => p,
    }
}

/// The numeral pass: every numeral token becomes an integer constant.
pub open spec fn numerals_spec(ts: Seq<ParseModel>) -> Seq<ParseModel> {
    ts.map_values(|p: ParseModel| numeral_convert(p))
}

/// Turn every numeral token into an integer constant, or report the first
/// numeral that does not fit in an `i64`.
fn parse_whole_numbers(tokens: &mut Vec<Parse>) -> (r: Result<(), Error>)
    requires
        wf_parses(old(tokens).deep_view()),
    ensures
        r is Ok <==> numeral_ok(old(tokens).deep_view()),
        r is Ok ==> final(tokens).deep_view() == numerals_spec(old(tokens).deep_view()),
        r matches Err(e) ==> e@ == ErrorModel::SyntaxError("whole number out of range"@),
{
    let ghost dv = old(tokens).deep_view();
    let ghost n = dv.len();
    let mut out: Vec<Parse> = Vec::new();
    proof {
        assert(dv.take(0) =~= Seq::<ParseModel>::empty());
        assert(out.deep_view() =~= dv.take(0).map_values(|p: ParseModel| numeral_convert(p)));
    }
    let ghost mut k: int = 0;
    while tokens.len() > 0
        invariant
            dv == old(tokens).deep_view(),
            0 <= k <= n,
            n == dv.len(),
            wf_parses(dv),
            tokens.deep_view() == dv.skip(k),
            tokens@.len() == n - k,
            numeral_ok(dv.take(k)),
            out.deep_view() == numerals_spec(dv.take(k)),
        decreases tokens@.len(),
    {
        let ghost tvec = tokens@;
        let ghost tdv = tokens.deep_view();
        let ghost outdv = out.deep_view();
        let p = tokens.remove(0);
        proof {
            assert(tdv[0] == tvec[0].deep_view());
            assert(tdv[0] == dv[k]);
            assert(p.deep_view() == tdv[0]);
            assert forall|i: int|
                0 <= i < tokens@.len() implies #[trigger] tokens.deep_view()[i] == dv[k + 1
                + i] by {
                assert(tokens@[i] == tvec[i + 1]);
                assert(tokens.deep_view()[i] == tokens@[i].deep_view());
                assert(tdv[i + 1] == tvec[i + 1].deep_view());
                assert(tdv[i + 1] == dv[k + 1 + i]);
            }
            assert(tokens.deep_view() =~= dv.skip(k + 1));
            assert(wf_parse(dv[k]));
        }
        match p {
            Parse::Tok(Token::WholeNumber(s)) => {
                match parse_digits(s.as_str()) {
                    Some(v) => {
                        out.push(Parse::Expr(Expression::Constant(Value::Integer(v))));
                    },
                    None => {
                        let err = Error::SyntaxError(String::from_str("whole number out of range"));
                        proof {
                            assert(!numeral_ok_at(dv[k]));
                            assert(0 <= k < dv.len());
                            assert(!numeral_ok(dv));
                            assert(err@ == ErrorModel::SyntaxError("whole number out of range"@));
                        }
                        return Err(err);
                    },
                }
            },
            other => {
                out.push(other);
            },
        }
        proof {
            assert(out.deep_view() =~= outdv.push(numeral_convert(dv[k])));
            assert(out.deep_view() =~= dv.take(k + 1).map_values(
                |p: ParseModel| numeral_convert(p),
            ));
            k = k + 1;
        }
    }
    proof {
        assert(dv.take(n as int) =~= dv);
    }
    *tokens = out;
    Ok(())
}

/// Whether the element is an operator token of any text.
pub open spec fn is_any_op(p: ParseModel) -> bool {
    p matches ParseModel::Tok(TokenModel::Operator(_))
}

/// The expression an element carries; meaningful only on expression
/// elements.
pub open spec fn expr_of(p: ParseModel) -> Expression {
    match p {
        ParseModel::Expr(e) => e,
        ParseModel::Tok(_) => vstd::pervasive::arbitrary(),
    }
}

/// Whether the element is a finished subexpression.
fn is_expr_elem(p: &Parse) -> (r: bool)
    ensures
        r == is_expr(p@),
{
    matches!(p, Parse::Expr(_))
}

/// Whether the element is an operator token.
fn is_op_elem(p: &Parse) -> (r: bool)
    ensures
        r == is_any_op(p@),
{
    matches!(p, Parse::Tok(Token::Operator(_)))
}

/// Whether the element is a whitespace token.
fn is_space_elem(p: &Parse) -> (r: bool)
    ensures
        r == is_space_tok(p@),
{
    matches!(p, Parse::Tok(Token::Space))
}

/// Whether the element is exactly the one-character operator `c`.
fn op_is(p: &Parse, c: char) -> (r: bool)
    ensures
        r == is_op(p@, c),
{
    match p {
        Parse::Tok(Token::Operator(s)) => {
            let st = s.as_str();
            if st.unicode_len() == 1 {
                let c0 = st.get_char(0);
                if c0 == c {
                    proof {
                        assert(s@ =~= seq![c]);
                    }
                    true
                } else {
                    proof {
                        assert(s@ != seq![c]);
                    }
                    false
                }
            } else {
                proof {
                    assert(s@ != seq![c]);
                }
                false
            }
        },
        _ => false,
    }
}

/// Take the elements `[a, b]` out of the sequence, keeping their order.
fn drain_range(tokens: &mut Vec<Parse>, a: usize, b: usize) -> (r: Vec<Parse>)
    requires
        a <= b < old(tokens)@.len(),
    ensures
        final(tokens).deep_view() == old(tokens).deep_view().take(a as int) + old(
            tokens,
        ).deep_view().skip(b + 1),
        r.deep_view() == old(tokens).deep_view().subrange(a as int, b + 1),
{
    let ghost pre = old(tokens).deep_view();
    let ln = tokens.len();
    let mut r: Vec<Parse> = Vec::new();
    let need = b - a + 1;
    let mut cnt: usize = 0;
    proof {
        assert(tokens.deep_view() =~= pre.take(a as int) + pre.skip(a as int));
        assert(r.deep_view() =~= pre.subrange(a as int, a as int));
    }
    while cnt < need
        invariant
            pre == old(tokens).deep_view(),
            need == b - a + 1,
            a <= b < pre.len(),
            cnt <= need,
            tokens.deep_view() == pre.take(a as int) + pre.skip(a + cnt),
            r.deep_view() == pre.subrange(a as int, a + cnt),
        decreases need - cnt,
    {
        let ghost cur = tokens.deep_view();
        let ghost rdv = r.deep_view();
        let ghost cvec = tokens@;
        proof {
            assert(tokens@.len() == tokens.deep_view().len());
            assert(tokens.deep_view().len() == pre.len() - cnt);
        }
        let p = tokens.remove(a);
        r.push(p);
        proof {
            assert(cur[a as int] == pre[a + cnt]);
            assert(cur[a as int] == cvec[a as int].deep_view());
            assert(p.deep_view() == cvec[a as int].deep_view());
            assert(p.deep_view() == cur[a as int]);
            assert forall|x: int|
                0 <= x < tokens@.len() implies #[trigger] tokens.deep_view()[x] == cur.remove(
                a as int,
            )[x] by {
                assert(tokens@[x] == cvec.remove(a as int)[x]);
                if x < a {
                    assert(tokens@[x] == cvec[x]);
                    assert(tokens.deep_view()[x] == cur[x]);
                } else {
                    assert(tokens@[x] == cvec[x + 1]);
                    assert(tokens.deep_view()[x] == cur[x + 1]);
                }
            }
            assert(tokens.deep_view() =~= pre.take(a as int) + pre.skip(a + cnt + 1));
            assert(r.deep_view() =~= rdv.push(p.deep_view()));
            assert(r.deep_view() =~= pre.subrange(a as int, a + cnt + 1));
        }
        cnt = cnt + 1;
    }
    r
}

/// Build the expression a unary sign merge produces.
pub open spec fn unary_build(plus: bool, e: Expression) -> Expression {
    if plus {
        Expression::UnaryPlus(Box::new(e))
    } else {
        Expression::UnaryMinus(Box::new(e))
    }
}

/// One step of the unary-sign pass at position `i`, scanning right to
/// left; `pend` is the position of the nearest expression on the right.
/// A `+` or `-` whose left context is the start of the sequence, a
/// whitespace token, or an operator followed by a whitespace token binds as
/// a sign to that expression, provided only whitespace stands between; an
/// operator directly on the left blocks it.
pub open spec fn unary_step(ts: Seq<ParseModel>, i: int, pend: Option<int>) -> (Seq<
    ParseModel,
>, Option<int>) {
    if !(0 <= i < ts.len()) {
        (ts, pend)
    } else if is_expr(ts[i]) {
        (ts, Some(i))
    } else if !is_any_op(ts[i]) {
        (ts, pend)
    } else {
        match pend {
            None => (ts, pend),
            Some(ei) => {
                if !(is_op(ts[i], '+') || is_op(ts[i], '-')) {
                    (ts, None)
                } else if (i >= 2 && is_any_op(ts[i - 1])) || (i == 1 && is_any_op(ts[0])) {
                    (ts, None)
                } else if i == 0 || (i == 1 && is_space_tok(ts[0])) || (i >= 2 && is_any_op(
                    ts[i - 2],
                ) && is_space_tok(ts[i - 1])) {
                    if i < ei < ts.len() && is_expr(ts[ei]) && (forall|j: int|
                        i < j < ei ==> is_space_tok(#[trigger] ts[j])) {
                        (
                            ts.take(i) + seq![
                                ParseModel::Expr(unary_build(is_op(ts[i], '+'), expr_of(ts[ei]))),
                            ] + ts.skip(ei + 1),
                            Some(i),
                        )
                    } else {
                        (ts, None)
                    }
                } else {
                    (ts, pend)
                }
            },
        }
    }
}

/// The unary-sign pass from position `i` leftwards.
pub open spec fn unary_from(ts: Seq<ParseModel>, i: int, pend: Option<int>) -> Seq<ParseModel>
    decreases ts.len(), i + 1
{
    if i < 0 {
        ts
    } else {
        let (t2, p2) = unary_step(ts, i, pend);
        unary_from(t2, i - 1, p2)
    }
}

/// The whole unary-sign pass.
pub open spec fn unary_pass(ts: Seq<ParseModel>) -> Seq<ParseModel> {
    unary_from(ts, ts.len() - 1, None)
}

/// An `Option<usize>` read as an `Option<int>`.
pub open spec fn opt_int(o: Option<usize>) -> Option<int> {
    match o {
        Some(u) => Some(u as int),
        None => None,
    }
}

/// Bind unary `+` and `-` signs to the expressions on their right, as
/// [`unary_pass`] describes.
fn parse_unary_ops(tokens: &mut Vec<Parse>)
    ensures
        final(tokens).deep_view() == unary_pass(old(tokens).deep_view()),
{
    let ghost orig = old(tokens).deep_view();
    let mut pend: Option<usize> = None;
    let mut i: usize = tokens.len();
    while i > 0
        invariant
            orig == old(tokens).deep_view(),
            i <= tokens@.len(),
            match pend {
                Some(e) => i <= e < tokens@.len() && is_expr(tokens.deep_view()[e as int]),
                None => true,
            },
            unary_from(tokens.deep_view(), i - 1, opt_int(pend)) == unary_pass(orig),
        decreases i,
    {
        i = i - 1;
        let ghost pre = tokens.deep_view();
        let ghost ppend = opt_int(pend);
        if is_expr_elem(&tokens[i]) {
            pend = Some(i);
        } else if is_op_elem(&tokens[i]) && pend.is_some() {
            let ei = pend.unwrap();
            let plus = op_is(&tokens[i], '+');
            let minus = op_is(&tokens[i], '-');
            if !(plus || minus) {
                pend = None;
            } else if (i >= 2 && is_op_elem(&tokens[i - 1])) || (i == 1 && is_op_elem(
                &tokens[0],
            )) {
                pend = None;
            } else if i == 0 || (i == 1 && is_space_elem(&tokens[0])) || (i >= 2 && is_op_elem(
                &tokens[i - 2],
            ) && is_space_elem(&tokens[i - 1])) {
                let mut allspace = true;
                let mut j = i + 1;
                while j < ei
                    invariant
                        pre == tokens.deep_view(),
                        i < j <= ei < pre.len(),
                        allspace == (forall|x: int| i < x < j ==> is_space_tok(#[trigger] pre[x])),
                    decreases ei - j,
                {
                    proof {
                        assert(pre[j as int] == tokens@[j as int]@);
                    }
                    if !is_space_elem(&tokens[j]) {
                        allspace = false;
                    }
                    j = j + 1;
                }
                if allspace {
                    let removed = drain_range(tokens, i, ei);
                    let mut removed = removed;
                    proof {
                        assert(removed@.len() == removed.deep_view().len());
                        assert(removed.deep_view().len() == ei + 1 - i);
                        assert(tokens@.len() == tokens.deep_view().len());
                    }
                    let pe = removed.pop().unwrap();
                    proof {
                        assert(pe.deep_view() == pre.subrange(i as int, ei + 1).last());
                        assert(pe.deep_view() == pre[ei as int]);
                    }
                    let e = match pe {
                        Parse::Expr(e) => e,
                        _ => {
                            assert(false);
                            vstd::pervasive::unreached()
                        },
                    };
                    let merged = if plus {
                        Expression::UnaryPlus(Box::new(e))
                    } else {
                        Expression::UnaryMinus(Box::new(e))
                    };
                    let ghost mid = tokens.deep_view();
                    tokens.insert(i, Parse::Expr(merged));
                    proof {
                        assert(tokens.deep_view() =~= mid.insert(
                            i as int,
                            ParseModel::Expr(merged),
                        ));
                        assert(tokens.deep_view() =~= pre.take(i as int) + seq![
                            ParseModel::Expr(unary_build(is_op(pre[i as int], '+'), expr_of(
                                pre[ei as int],
                            ))),
                        ] + pre.skip(ei + 1));
                    }
                    pend = Some(i);
                } else {
                    pend = None;
                }
            }
        }
        proof {
            assert((tokens.deep_view(), opt_int(pend)) == unary_step(pre, i as int, ppend));
        }
    }
    proof {
        assert(unary_from(tokens.deep_view(), -1, opt_int(pend)) == tokens.deep_view());
    }
}

/// The position of the first operator token in `[a, b)`, if any.
pub open spec fn first_op_in(ts: Seq<ParseModel>, a: int, b: int) -> Option<int>
    decreases b - a
{
    if a >= b || a < 0 || b > ts.len() {
        None
    } else if is_any_op(ts[a]) {
        Some(a)
    } else {
        first_op_in(ts, a + 1, b)
    }
}

/// Whether positions `(l, i)` hold exactly one operator and otherwise only
/// whitespace, so that a sum or difference can merge across them.
pub open spec fn sums_merge_ok(ts: Seq<ParseModel>, l: int, i: int) -> bool {
    match first_op_in(ts, l + 1, i) {
        Some(opi) => forall|j: int| l < j < i && j != opi ==> is_space_tok(#[trigger] ts[j]),
        None => false,
    }
}

/// The expression a sum or difference merge produces.
pub open spec fn sums_build(plus: bool, l: Expression, r: Expression) -> Expression {
    if plus {
        Expression::Sum(Box::new(l), Box::new(r))
    } else {
        Expression::Difference(Box::new(l), Box::new(r))
    }
}

/// One step of the sums pass at position `i`, scanning left to right.
/// `lhs` is the position of a candidate left operand, `found` whether a
/// `+` or `-` has been seen since. A second expression then merges into a
/// sum or difference, and scanning resumes right after the merged element.
/// Returns the new sequence, the next position, and the new state.
pub open spec fn sums_step(ts: Seq<ParseModel>, i: int, lhs: Option<int>, found: bool) -> (
    Seq<ParseModel>,
    int,
    Option<int>,
    bool,
) {
    if is_expr(ts[i]) {
        if !found {
            (ts, i + 1, Some(i), false)
        } else {
            match lhs {
                Some(l) => {
                    if 0 <= l < i && is_expr(ts[l]) && sums_merge_ok(ts, l, i) {
                        let opi = match first_op_in(ts, l + 1, i) {
                            Some(o) => o,
                            None => l,
                        };
                        (
                            ts.take(l) + seq![
                                ParseModel::Expr(sums_build(is_op(ts[opi], '+'), expr_of(ts[l]),
                                expr_of(ts[i]))),
                            ] + ts.skip(i + 1),
                            l + 1,
                            Some(l),
                            false,
                        )
                    } else {
                        (ts, i + 1, None, false)
                    }
                },
                None => (ts, i + 1, lhs, found),
            }
        }
    } else if is_any_op(ts[i]) {
        match lhs {
            Some(_) => {
                if !found {
                    if is_op(ts[i], '+') || is_op(ts[i], '-') {
                        (ts, i + 1, lhs, true)
                    } else {
                        (ts, i + 1, None, false)
                    }
                } else {
                    (ts, i + 1, None, false)
                }
            },
            None => (ts, i + 1, lhs, found),
        }
    } else {
        (ts, i + 1, lhs, found)
    }
}

/// The sums pass from position `i` onwards.
pub open spec fn sums_from(ts: Seq<ParseModel>, i: int, lhs: Option<int>, found: bool) -> Seq<
    ParseModel,
>
    decreases ts.len(), ts.len() - i
{
    if i < 0 || i >= ts.len() {
        ts
    } else {
        let (t2, i2, l2, f2) = sums_step(ts, i, lhs, found);
        if t2.len() < ts.len() || (t2.len() == ts.len() && i2 > i) {
            sums_from(t2, i2, l2, f2)
        } else {
            t2
        }
    }
}

/// The whole sums pass.
pub open spec fn sums_pass(ts: Seq<ParseModel>) -> Seq<ParseModel> {
    sums_from(ts, 0, None, false)
}

/// Merge sums and differences left to right, as [`sums_pass`] describes.
fn parse_sums_differences(tokens: &mut Vec<Parse>)
    ensures
        final(tokens).deep_view() == sums_pass(old(tokens).deep_view()),
{
    let ghost orig = old(tokens).deep_view();
    let mut lhs: Option<usize> = None;
    let mut found = false;
    let mut i: usize = 0;
    while i < tokens.len()
        invariant
            orig == old(tokens).deep_view(),
            i <= tokens@.len(),
            match lhs {
                Some(l) => l < i && is_expr(tokens.deep_view()[l as int]),
                None => true,
            },
            found ==> lhs is Some,
            sums_from(tokens.deep_view(), i as int, opt_int(lhs), found) == sums_pass(orig),
        decreases tokens@.len(), tokens@.len() - i,
    {
        let ghost pre = tokens.deep_view();
        let ghost plhs = opt_int(lhs);
        let ghost pfound = found;
        let ghost i0 = i as int;
        proof {
            assert(pre[i as int] == tokens@[i as int]@);
        }
        if is_expr_elem(&tokens[i]) {
            if !found {
                lhs = Some(i);
                i = i + 1;
            } else {
                let l = lhs.unwrap();
                // find the one operator between, and check the rest is
                // whitespace
                let mut opi: Option<usize> = None;
                let mut ok = true;
                let mut j = l + 1;
                while j < i
                    invariant
                        pre == tokens.deep_view(),
                        l < j <= i < pre.len(),
                        match opi {
                            Some(o) => l < o < j && is_any_op(pre[o as int]) && first_op_in(
                                pre,
                                l + 1,
                                i as int,
                            ) == Some(o as int) && (ok == (forall|x: int|
                                l < x < j && x != o ==> is_space_tok(#[trigger] pre[x]))),
                            None => first_op_in(pre, l + 1, i as int) == first_op_in(
                                pre,
                                j as int,
                                i as int,
                            ) && (ok == (forall|x: int|
                                l < x < j ==> is_space_tok(#[trigger] pre[x]))),
                        },
                    decreases i - j,
                {
                    proof {
                        assert(pre[j as int] == tokens@[j as int]@);
                    }
                    if is_op_elem(&tokens[j]) {
                        if opi.is_none() {
                            opi = Some(j);
                        } else {
                            ok = false;
                        }
                    } else if !is_space_elem(&tokens[j]) {
                        ok = false;
                    }
                    j = j + 1;
                }
                if opi.is_some() && ok {
                    let oi = opi.unwrap();
                    let plus = op_is(&tokens[oi], '+');
                    proof {
                        assert(tokens@.len() == tokens.deep_view().len());
                    }
                    let mut removed = drain_range(tokens, l, i);
                    proof {
                        assert(removed@.len() == removed.deep_view().len());
                        assert(removed.deep_view().len() == i + 1 - l);
                    }
                    let pr = removed.pop().unwrap();
                    let pl = removed.remove(0);
                    proof {
                        assert(pr.deep_view() == pre.subrange(l as int, i + 1)[i - l]);
                        assert(pr.deep_view() == pre[i as int]);
                        assert(pl.deep_view() == pre.subrange(l as int, i + 1).drop_last()[0]);
                        assert(pl.deep_view() == pre[l as int]);
                    }
                    let er = match pr {
                        Parse::Expr(e) => e,
                        _ => {
                            assert(false);
                            vstd::pervasive::unreached()
                        },
                    };
                    let el = match pl {
                        Parse::Expr(e) => e,
                        _ => {
                            assert(false);
                            vstd::pervasive::unreached()
                        },
                    };
                    let merged = if plus {
                        Expression::Sum(Box::new(el), Box::new(er))
                    } else {
                        Expression::Difference(Box::new(el), Box::new(er))
                    };
                    let ghost mid = tokens.deep_view();
                    proof {
                        assert(tokens@.len() == tokens.deep_view().len());
                    }
                    tokens.insert(l, Parse::Expr(merged));
                    proof {
                        assert(tokens.deep_view() =~= mid.insert(
                            l as int,
                            ParseModel::Expr(merged),
                        ));
                        assert(tokens.deep_view() =~= pre.take(l as int) + seq![
                            ParseModel::Expr(sums_build(is_op(pre[oi as int], '+'), expr_of(
                                pre[l as int],
                            ), expr_of(pre[i as int]))),
                        ] + pre.skip(i + 1));
                    }
                    found = false;
                    i = l + 1;
                } else {
                    proof {
                        assert(!sums_merge_ok(pre, l as int, i as int));
                    }
                    lhs = None;
                    found = false;
                    i = i + 1;
                }
            }
        } else if is_op_elem(&tokens[i]) {
            if lhs.is_some() {
                if !found {
                    if op_is(&tokens[i], '+') || op_is(&tokens[i], '-') {
                        found = true;
                    } else {
                        lhs = None;
                    }
                } else {
                    lhs = None;
                    found = false;
                }
            }
            i = i + 1;
        } else {
            i = i + 1;
        }
        proof {
            assert((tokens.deep_view(), i as int, opt_int(lhs), found) == sums_step(
                pre,
                i0,
                plhs,
                pfound,
            ));
            assert(sums_from(pre, i0, plhs, pfound) == sums_from(
                tokens.deep_view(),
                i as int,
                opt_int(lhs),
                found,
            ));
        }
    }
    proof {
        assert(sums_from(tokens.deep_view(), i as int, opt_int(lhs), found) == tokens.deep_view());
    }
}

/// The position of the first bare token at or after `i`, if any.
pub open spec fn first_tok_idx(ts: Seq<ParseModel>, i: int) -> Option<int>
    decreases ts.len() - i
{
    if i < 0 || i >= ts.len() {
        None
    } else if is_tok(ts[i]) {
        Some(i)
    } else {
        first_tok_idx(ts, i + 1)
    }
}

/// The concatenated text of the bare tokens standing consecutively from
/// `i`.
pub open spec fn message_of(ts: Seq<ParseModel>, i: int) -> Seq<char>
    decreases ts.len() - i
{
    if 0 <= i < ts.len() {
        match ts[i] {
            ParseModel::Tok(t) => token::tok_text(t) + message_of(ts, i + 1),
            _ => Seq::empty(),
        }
    } else {
        Seq::empty()
    }
}

/// The diagnostic for a token run that matches no expression form.
pub open spec fn invalid_syntax_msg(m: Seq<char>) -> Seq<char> {
    "invalid syntax \""@ + m + "\""@
}

/// What is left after all passes: exactly one expression is the result;
/// anything else is a syntax error naming the first run of unconsumed
/// tokens.
pub open spec fn get_result_spec(ts: Seq<ParseModel>) -> Result<Expression, ErrorModel> {
    if ts.len() == 1 && is_expr(ts[0]) {
        match ts[0] {
            ParseModel::Expr(e) => Ok(e),
            _ => Err(ErrorModel::SyntaxError(invalid_syntax_msg(Seq::empty()))),
        }
    } else {
        match first_tok_idx(ts, 0) {
            Some(i) => Err(
                ErrorModel::SyntaxError(
                    invalid_syntax_msg(crate::chars::trim_text(message_of(ts, i))),
                ),
            ),
            None => Err(ErrorModel::SyntaxError(invalid_syntax_msg(Seq::empty()))),
        }
    }
}

/// Whether the element is still a bare token.
fn is_token_elem(p: &Parse) -> (r: bool)
    ensures
        r == is_tok(p@),
{
    matches!(p, Parse::Tok(_))
}

/// Reduce the fully rewritten sequence to its result, as
/// [`get_result_spec`] describes.
fn get_result(tokens: Vec<Parse>) -> (r: Result<Expression, Error>)
    ensures
        match r {
            Ok(e) => get_result_spec(tokens.deep_view()) == Ok::<Expression, ErrorModel>(e),
            Err(e) => get_result_spec(tokens.deep_view()) == Err::<Expression, ErrorModel>(
                e@,
            ),
        },
{
    let ghost dv = tokens.deep_view();
    let mut work = tokens;
    if work.len() == 1 && matches!(&work[0], Parse::Expr(_)) {
        let p = work.pop().unwrap();
        proof {
            assert(p.deep_view() == dv[0]);
        }
        match p {
            Parse::Expr(e) => {
                return Ok(e);
            },
            _ => {
                assert(false);
                return vstd::pervasive::unreached();
            },
        }
    }
    let n = work.len();
    let mut i: usize = 0;
    while i < n && !is_token_elem(&work[i])
        invariant
            dv == work.deep_view(),
            i <= n,
            n == dv.len(),
            first_tok_idx(dv, 0) == first_tok_idx(dv, i as int),
        decreases n - i,
    {
        i = i + 1;
    }
    let mut msg = String::new();
    let mut j: usize = i;
    while j < n && is_token_elem(&work[j])
        invariant
            dv == work.deep_view(),
            i <= j <= n,
            n == dv.len(),
            message_of(dv, i as int) == msg@ + message_of(dv, j as int),
        decreases n - j,
    {
        let ghost m0 = msg@;
        match &work[j] {
            Parse::Tok(t) => {
                msg.append(t.to_str());
                proof {
                    assert(t@ == match dv[j as int] {
                        ParseModel::Tok(tm) => tm,
                        _ => t@,
                    });
                }
            },
            _ => {
                assert(false);
            },
        }
        j = j + 1;
    }
    proof {
        assert(message_of(dv, j as int) == Seq::<char>::empty());
        assert(msg@ =~= message_of(dv, i as int));
    }
    let trimmed = crate::chars::trim_ascii_spaces(msg.as_str());
    let mut text = String::from_str("invalid syntax \"");
    text.append(trimmed.as_str());
    text.append("\"");
    proof {
        if i < n {
            assert(first_tok_idx(dv, i as int) == Some(i as int));
        }
        assert(text@ == invalid_syntax_msg(crate::chars::trim_text(message_of(dv, i as int))));
    }
    Err(Error::SyntaxError(text))
}

/// The parenthesis pass from position `i` leftwards: `closing` is the
/// position of the nearest unmatched `)` on the right, `nesting` counts
/// parenthesis pairs seen inside it. An innermost-on-the-right group is
/// parsed recursively and collapsed into one expression element; a
/// parenthesis that cannot pair is the error.
pub open spec fn parens_from(
    ts: Seq<ParseModel>,
    i: int,
    closing: Option<int>,
    nesting: int,
) -> Result<Seq<ParseModel>, ErrorModel>
    decreases ts.len(), 0int, i + 1
{
    if i < 0 {
        if closing is Some {
            Err(ErrorModel::SyntaxError("unmatched \")\""@))
        } else {
            Ok(ts)
        }
    } else if is_op(ts[i], ')') {
        match closing {
            None => parens_from(ts, i - 1, Some(i), nesting),
            Some(_) => parens_from(ts, i - 1, closing, nesting + 1),
        }
    } else if is_op(ts[i], '(') {
        match closing {
            None => Err(ErrorModel::SyntaxError("unmatched \"(\""@)),
            Some(cl) => {
                if nesting > 0 {
                    parens_from(ts, i - 1, closing, nesting - 1)
                } else if i < cl < ts.len() {
                    let inner = trim_spec(ts.subrange(i + 1, cl));
                    if inner.len() == 0 {
                        Err(ErrorModel::SyntaxError("empty parentheses"@))
                    } else {
                        match parse_impl_spec(inner) {
                            Ok(e) => parens_from(
                                ts.take(i) + seq![ParseModel::Expr(e)] + ts.skip(cl + 1),
                                i - 1,
                                None,
                                nesting,
                            ),
                            Err(m) => Err(m),
                        }
                    }
                } else {
                    parens_from(ts, i - 1, closing, nesting)
                }
            },
        }
    } else {
        parens_from(ts, i - 1, closing, nesting)
    }
}

/// The whole parse: collapse parenthesized groups, convert numerals, bind
/// unary signs, merge sums and differences, trim, and reduce to the one
/// resulting expression.
pub open spec fn parse_impl_spec(ts: Seq<ParseModel>) -> Result<Expression, ErrorModel>
    decreases ts.len(), 1int, 0int
{
    match parens_from(ts, ts.len() - 1, None, 0) {
        Err(m) => Err(m),
        Ok(t1) => if !numeral_ok(t1) {
            Err(ErrorModel::SyntaxError("whole number out of range"@))
        } else {
            get_result_spec(trim_spec(sums_pass(unary_pass(numerals_spec(t1)))))
        },
    }
}

/// What parsing a whole line yields: the tokens of the line, parsed; or
/// the tokenizer's error.
pub open spec fn parse_spec(s: Seq<char>) -> Result<Expression, ErrorModel> {
    match token::tokenize_spec(s) {
        Err(c) => Err(ErrorModel::TokenizeError(c)),
        Ok(toks) => parse_impl_spec(
            toks.map_values(|t: TokenModel| ParseModel::Tok(t)),
        ),
    }
}

/// Collapse every parenthesized group into one expression element, as
/// [`parens_from`] describes.
fn parse_parens(tokens: Vec<Parse>) -> (r: Result<Vec<Parse>, Error>)
    requires
        wf_parses(tokens.deep_view()),
    ensures
        match r {
            Ok(out) => parens_from(tokens.deep_view(), tokens.deep_view().len() - 1, None, 0)
                == Ok::<Seq<ParseModel>, ErrorModel>(out.deep_view()) && wf_parses(
                out.deep_view(),
            ),
            Err(e) => parens_from(tokens.deep_view(), tokens.deep_view().len() - 1, None, 0)
                == Err::<Seq<ParseModel>, ErrorModel>(e@),
        },
    decreases tokens@.len(), 0int,
{
    let ghost orig = tokens.deep_view();
    let mut work = tokens;
    let ln0 = work.len();
    let mut closing: Option<usize> = None;
    let mut nesting: usize = 0;
    let mut i: usize = work.len();
    while i > 0
        invariant
            orig == tokens.deep_view(),
            orig.len() == ln0 as int,
            wf_parses(work.deep_view()),
            i <= work@.len(),
            work@.len() <= orig.len(),
            match closing {
                Some(cl) => i <= cl < work@.len() && is_op(work.deep_view()[cl as int], ')'),
                None => true,
            },
            nesting as int <= work@.len() - i,
            parens_from(work.deep_view(), i - 1, opt_int(closing), nesting as int)
                == parens_from(orig, orig.len() - 1, None, 0),
        decreases i,
    {
        i = i - 1;
        let ghost pre = work.deep_view();
        let ghost pclosing = opt_int(closing);
        let ghost pnesting = nesting as int;
        proof {
            assert(pre[i as int] == work@[i as int]@);
        }
        if op_is(&work[i], ')') {
            match closing {
                None => {
                    closing = Some(i);
                },
                Some(_) => {
                    proof {
                        assert(work@.len() <= orig.len());
                    }
                    nesting = nesting + 1;
                },
            }
        } else if op_is(&work[i], '(') {
            match closing {
                None => {
                    let err = Error::SyntaxError(String::from_str("unmatched \"(\""));
                    proof {
                        assert(seq!['('][0] == '(' && seq![')'][0] == ')');
                        assert(!is_op(pre[i as int], ')'));
                        assert(parens_from(pre, i as int, pclosing, pnesting) == Err::<
                            Seq<ParseModel>,
                            ErrorModel,
                        >(ErrorModel::SyntaxError("unmatched \"(\""@)));
                        assert(err@ == ErrorModel::SyntaxError("unmatched \"(\""@));
                    }
                    return Err(err);
                },
                Some(cl) => {
                    if nesting > 0 {
                        nesting = nesting - 1;
                    } else {
                        proof {
                            assert(i < cl) by {
                                assert(is_op(pre[i as int], '('));
                                assert(is_op(pre[cl as int], ')'));
                            }
                            assert(work@.len() == work.deep_view().len());
                        }
                        let mut removed = drain_range(&mut work, i, cl);
                        proof {
                            assert(removed@.len() == removed.deep_view().len());
                            assert(removed.deep_view().len() == cl + 1 - i);
                        }
                        let ghost rdv = removed.deep_view();
                        removed.remove(0);
                        proof {
                            assert(removed.deep_view() =~= rdv.subrange(1, rdv.len() as int));
                            assert(removed.deep_view() =~= pre.subrange(i + 1, cl + 1));
                            assert(removed@.len() == removed.deep_view().len());
                        }
                        let ghost rdv2 = removed.deep_view();
                        removed.pop();
                        proof {
                            assert(removed.deep_view() =~= rdv2.drop_last());
                            assert(removed.deep_view() =~= pre.subrange(i + 1, cl as int));
                        }
                        let inner = trim_spaces(removed);
                        proof {
                            assert(inner@.len() == inner.deep_view().len());
                            let sub = pre.subrange(i + 1, cl as int);
                            assert forall|x: int|
                                0 <= x < inner.deep_view().len() implies wf_parse(
                                #[trigger] inner.deep_view()[x],
                            ) by {
                                let t1 = if sub.len() > 0 && is_space_tok(sub.last()) {
                                    sub.drop_last()
                                } else {
                                    sub
                                };
                                let y = inner.deep_view()[x];
                                assert(y == pre[i + 1 + x] || y == pre[i + 2 + x]);
                            }
                        }
                        if inner.len() == 0 {
                            let err = Error::SyntaxError(String::from_str("empty parentheses"));
                            proof {
                                assert(err@ == ErrorModel::SyntaxError("empty parentheses"@));
                            }
                            return Err(err);
                        }
                        let e = match parse_impl(inner) {
                            Ok(e) => e,
                            Err(err) => {
                                return Err(err);
                            },
                        };
                        let ghost mid = work.deep_view();
                        proof {
                            assert(work@.len() == work.deep_view().len());
                        }
                        work.insert(i, Parse::Expr(e));
                        proof {
                            assert(work.deep_view() =~= mid.insert(
                                i as int,
                                ParseModel::Expr(e),
                            ));
                            assert(work.deep_view() =~= pre.take(i as int) + seq![
                                ParseModel::Expr(e),
                            ] + pre.skip(cl + 1));
                        }
                        closing = None;
                    }
                },
            }
        }
        proof {
            assert(parens_from(work.deep_view(), i - 1, opt_int(closing), nesting as int)
                == parens_from(pre, i as int, pclosing, pnesting));
        }
    }
    if closing.is_some() {
        let err = Error::SyntaxError(String::from_str("unmatched \")\""));
        proof {
            assert(err@ == ErrorModel::SyntaxError("unmatched \")\""@));
        }
        return Err(err);
    }
    Ok(work)
}

/// Parse a rewritten token sequence into one expression, as
/// [`parse_impl_spec`] describes.
fn parse_impl(tokens: Vec<Parse>) -> (r: Result<Expression, Error>)
    requires
        wf_parses(tokens.deep_view()),
    ensures
        match r {
            Ok(e) => parse_impl_spec(tokens.deep_view()) == Ok::<Expression, ErrorModel>(e),
            Err(e) => parse_impl_spec(tokens.deep_view()) == Err::<Expression, ErrorModel>(e@),
        },
    decreases tokens@.len(), 1int,
{
    let ghost dv = tokens.deep_view();
    let mut work = match parse_parens(tokens) {
        Ok(w) => w,
        Err(e) => {
            return Err(e);
        },
    };
    let ghost t1 = work.deep_view();
    proof {
        assert(parens_from(dv, dv.len() - 1, None, 0) == Ok::<Seq<ParseModel>, ErrorModel>(t1));
    }
    match parse_whole_numbers(&mut work) {
        Ok(()) => {},
        Err(e) => {
            return Err(e);
        },
    }
    proof {
        assert(numeral_ok(t1));
        assert(work.deep_view() == numerals_spec(t1));
    }
    parse_unary_ops(&mut work);
    proof {
        assert(work.deep_view() == unary_pass(numerals_spec(t1)));
    }
    parse_sums_differences(&mut work);
    proof {
        assert(work.deep_view() == sums_pass(unary_pass(numerals_spec(t1))));
    }
    let work = trim_spaces(work);
    proof {
        assert(work.deep_view() == trim_spec(sums_pass(unary_pass(numerals_spec(t1)))));
    }
    get_result(work)
}

/// Parse a line into an arithmetic expression, as [`parse_spec`]
/// describes: the result carries the value of the line, or the first
/// error the tokenizer or the parser finds.
pub fn parse(expr: &str) -> (r: Result<Expression, Error>)
    ensures
        match r {
            Ok(e) => parse_spec(expr@) == Ok::<Expression, ErrorModel>(e),
            Err(e) => parse_spec(expr@) == Err::<Expression, ErrorModel>(e@),
        },
{
    let toks = match token::tokenize(expr) {
        Ok(t) => t,
        Err(e) => {
            return Err(e);
        },
    };
    let ghost tdv = toks.deep_view();
    proof {
        token::lemma_tokenize_shaped(expr@);
    }
    let mut toks = toks;
    let mut parses: Vec<Parse> = Vec::new();
    let ghost n = tdv.len();
    let ghost mut k: int = 0;
    proof {
        assert(parses.deep_view() =~= tdv.take(0).map_values(
            |t: TokenModel| ParseModel::Tok(t),
        ));
    }
    while toks.len() > 0
        invariant
            token::tokenize_spec(expr@) == Ok::<Seq<TokenModel>, char>(tdv),
            0 <= k <= n,
            n == tdv.len(),
            toks.deep_view() == tdv.skip(k),
            toks@.len() == n - k,
            parses.deep_view() == tdv.take(k).map_values(|t: TokenModel| ParseModel::Tok(t)),
        decreases toks@.len(),
    {
        let ghost tvec = toks@;
        let ghost tdvc = toks.deep_view();
        let ghost pdv = parses.deep_view();
        let t = toks.remove(0);
        proof {
            assert(tdvc[0] == tvec[0].deep_view());
            assert(tdvc[0] == tdv[k]);
            assert(t.deep_view() == tdvc[0]);
            assert forall|x: int|
                0 <= x < toks@.len() implies #[trigger] toks.deep_view()[x] == tdv[k + 1
                + x] by {
                assert(toks@[x] == tvec[x + 1]);
                assert(toks.deep_view()[x] == toks@[x].deep_view());
                assert(tdvc[x + 1] == tvec[x + 1].deep_view());
                assert(tdvc[x + 1] == tdv[k + 1 + x]);
            }
            assert(toks.deep_view() =~= tdv.skip(k + 1));
        }
        parses.push(Parse::Tok(t));
        proof {
            assert(parses.deep_view() =~= pdv.push(ParseModel::Tok(tdv[k])));
            assert(parses.deep_view() =~= tdv.take(k + 1).map_values(
                |t: TokenModel| ParseModel::Tok(t),
            ));
            k = k + 1;
        }
    }
    proof {
        token::lemma_tokenize_shaped(expr@);
        assert(tdv.take(n as int) =~= tdv);
        assert forall|x: int|
            0 <= x < parses.deep_view().len() implies wf_parse(
            #[trigger] parses.deep_view()[x],
        ) by {
            assert(parses.deep_view()[x] == ParseModel::Tok(tdv[x]));
            assert(token::shaped_token(tdv[x]));
        }
    }
    parse_impl(parses)
}

} // verus!
