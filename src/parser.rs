use vstd::prelude::*;

use crate::ast::{
    bool_model, cases_model, expr_model, exprs_model, names_model, num_model, BinaryBoolExpr, BinaryBoolOp, BinaryNumExpr, BinaryNumOp, Bool, BoolModel, CmpBoolExpr, CmpBoolOp, Cond,
    CondCase, Expr, ExprModel, Function, FunctionCall, Num, NumModel, UnaryBoolExpr, UnaryBoolOp,
};
use crate::error::{err_view, Error, ErrorModel};
use crate::interpret_variable::Variable;
use crate::printer::{lemma_parsed_is_wf, wf};
use crate::tokenizer::{
    chars_of, is_digit_spec, lex, string_to_tokens, token_kind_to_binary_bool_op, token_kind_to_binary_num_op,
    token_kind_to_cmp_bool_op, token_kind_to_unary_bool_op, tokens_view, TokenIter, TokenKind,
};

verus! {

/// Tokens as (kind, text) pairs.
pub type Toks = Seq<(TokenKind, Seq<char>)>;

pub open spec fn kind_at(t: Toks, i: int) -> Option<TokenKind> {
    if 0 <= i < t.len() {
        Some(t[i].0)
    } else {
        None
    }
}

pub open spec fn is_num_op(k: TokenKind) -> bool {
    k == TokenKind::Plus || k == TokenKind::Minus || k == TokenKind::Slash || k == TokenKind::Star
        || k == TokenKind::Percent
}

pub open spec fn num_op_of(k: TokenKind) -> BinaryNumOp {
    if k == TokenKind::Plus {
        BinaryNumOp::Add
    } else if k == TokenKind::Minus {
        BinaryNumOp::Sub
    } else if k == TokenKind::Slash {
        BinaryNumOp::Div
    } else if k == TokenKind::Star {
        BinaryNumOp::Mul
    } else {
        BinaryNumOp::Mod
    }
}

pub open spec fn is_cmp_op(k: TokenKind) -> bool {
    k == TokenKind::LessThan || k == TokenKind::Equal || k == TokenKind::GreaterThan
}

pub open spec fn cmp_op_of(k: TokenKind) -> CmpBoolOp {
    if k == TokenKind::LessThan {
        CmpBoolOp::Lt
    } else if k == TokenKind::Equal {
        CmpBoolOp::Eq
    } else {
        CmpBoolOp::Gt
    }
}

pub open spec fn is_bool_op(k: TokenKind) -> bool {
    k == TokenKind::Ampersand || k == TokenKind::Pipe || k == TokenKind::Bang || is_cmp_op(k)
}

/// Whether `s` is a non-empty run of decimal digits.
pub open spec fn is_digits(s: Seq<char>) -> bool {
    s.len() > 0 && forall|k: int| 0 <= k < s.len() ==> is_digit_spec(#[trigger] s[k])
}

/// The value of a run of decimal digits.
pub open spec fn digits_value(s: Seq<char>) -> nat
    decreases s.len(),
{
    if s.len() == 0 {
        0
    } else {
        digits_value(s.drop_last()) * 10 + ((s.last() as int - '0' as int) as nat)
    }
}

/// The 32-bit value of a numeric literal's digits, negated if `negative`.
pub open spec fn literal_value(s: Seq<char>, negative: bool) -> Result<i32, ErrorModel> {
    if !is_digits(s) {
        Err(ErrorModel::ParseError)
    } else if negative && digits_value(s) <= 0x8000_0000 {
        Ok((-digits_value(s)) as i32)
    } else if !negative && digits_value(s) <= 0x7fff_ffff {
        Ok(digits_value(s) as i32)
    } else {
        Err(ErrorModel::ParseError)
    }
}

/// An expression starting at token `i`, and the index just after it.
pub open spec fn p_expr(t: Toks, i: int) -> Result<(ExprModel, int), ErrorModel>
    decreases t.len() - i, 4nat,
{
    if !(0 <= i < t.len()) {
        Err(ErrorModel::ParseError)
    } else {
        let k = t[i].0;
        if k == TokenKind::Minus || k == TokenKind::Number {
            match p_num(t, i) {
                Ok((n, j)) => Ok((ExprModel::Num(n), j)),
                Err(e) => Err(e),
            }
        } else if k == TokenKind::Boolean {
            match p_bool(t, i) {
                Ok((b, j)) => Ok((ExprModel::Bool(b), j)),
                Err(e) => Err(e),
            }
        } else if k == TokenKind::Identifier {
            Ok((ExprModel::Variable(t[i].1), i + 1))
        } else if k == TokenKind::OpenParen {
            match kind_at(t, i + 1) {
                Some(k1) => if k1 == TokenKind::Cond {
                    p_cond(t, i)
                } else if is_num_op(k1) {
                    match p_num(t, i) {
                        Ok((n, j)) => Ok((ExprModel::Num(n), j)),
                        Err(e) => Err(e),
                    }
                } else if is_bool_op(k1) {
                    match p_bool(t, i) {
                        Ok((b, j)) => Ok((ExprModel::Bool(b), j)),
                        Err(e) => Err(e),
                    }
                } else if k1 == TokenKind::Define {
                    p_function(t, i)
                } else if k1 == TokenKind::Identifier {
                    p_call(t, i)
                } else {
                    Err(ErrorModel::ParseError)
                },
                None => Err(ErrorModel::ParseError),
            }
        } else {
            Err(ErrorModel::ParseError)
        }
    }
}

/// A numeric expression starting at token `i`.
pub open spec fn p_num(t: Toks, i: int) -> Result<(NumModel, int), ErrorModel>
    decreases t.len() - i, 3nat,
{
    if !(0 <= i < t.len()) {
        Err(ErrorModel::ParseError)
    } else {
        let k = t[i].0;
        if k == TokenKind::Number {
            match literal_value(t[i].1, false) {
                Ok(v) => Ok((NumModel::Literal(v), i + 1)),
                Err(e) => Err(e),
            }
        } else if k == TokenKind::Minus {
            if kind_at(t, i + 1) == Some(TokenKind::Number) {
                match literal_value(t[i + 1].1, true) {
                    Ok(v) => Ok((NumModel::Literal(v), i + 2)),
                    Err(e) => Err(e),
                }
            } else {
                Err(ErrorModel::ParseError)
            }
        } else if k == TokenKind::Identifier {
            Ok((NumModel::Dynamic(Box::new(ExprModel::Variable(t[i].1))), i + 1))
        } else if k == TokenKind::OpenParen {
            match kind_at(t, i + 1) {
                Some(k1) => if k1 == TokenKind::Identifier || k1 == TokenKind::Cond {
                    match (if k1 == TokenKind::Cond { p_cond(t, i) } else { p_call(t, i) }) {
                        Ok((e, j)) => Ok((NumModel::Dynamic(Box::new(e)), j)),
                        Err(e) => Err(e),
                    }
                } else if is_num_op(k1) {
                    match p_num(t, i + 2) {
                        Ok((l, j)) => if !(i < j <= t.len()) { Err(ErrorModel::ParseError) } else { match p_num(t, j) {
                            Ok((r, m)) => if kind_at(t, m) == Some(TokenKind::CloseParen) {
                                Ok((NumModel::Binary(num_op_of(k1), Box::new(l), Box::new(r)), m + 1))
                            } else {
                                Err(ErrorModel::ParseError)
                            },
                            Err(e) => Err(e),
                        } },
                        Err(e) => Err(e),
                    }
                } else {
                    Err(ErrorModel::ParseError)
                },
                None => Err(ErrorModel::ParseError),
            }
        } else {
            Err(ErrorModel::ParseError)
        }
    }
}

/// A boolean expression starting at token `i`.
pub open spec fn p_bool(t: Toks, i: int) -> Result<(BoolModel, int), ErrorModel>
    decreases t.len() - i, 3nat,
{
    if !(0 <= i < t.len()) {
        Err(ErrorModel::ParseError)
    } else {
        let k = t[i].0;
        if k == TokenKind::Boolean {
            if t[i].1 == "true"@ {
                Ok((BoolModel::Literal(true), i + 1))
            } else if t[i].1 == "false"@ {
                Ok((BoolModel::Literal(false), i + 1))
            } else {
                Err(ErrorModel::ParseError)
            }
        } else if k == TokenKind::Identifier {
            Ok((BoolModel::Dynamic(Box::new(ExprModel::Variable(t[i].1))), i + 1))
        } else if k == TokenKind::OpenParen {
            match kind_at(t, i + 1) {
                Some(k1) => if k1 == TokenKind::Identifier || k1 == TokenKind::Cond {
                    match (if k1 == TokenKind::Cond { p_cond(t, i) } else { p_call(t, i) }) {
                        Ok((e, j)) => Ok((BoolModel::Dynamic(Box::new(e)), j)),
                        Err(e) => Err(e),
                    }
                } else if k1 == TokenKind::Ampersand || k1 == TokenKind::Pipe {
                    match p_bool(t, i + 2) {
                        Ok((l, j)) => if !(i < j <= t.len()) { Err(ErrorModel::ParseError) } else { match p_bool(t, j) {
                            Ok((r, m)) => if kind_at(t, m) == Some(TokenKind::CloseParen) {
                                let op = if k1 == TokenKind::Ampersand { BinaryBoolOp::And } else { BinaryBoolOp::Or };
                                Ok((BoolModel::Binary(op, Box::new(l), Box::new(r)), m + 1))
                            } else {
                                Err(ErrorModel::ParseError)
                            },
                            Err(e) => Err(e),
                        } },
                        Err(e) => Err(e),
                    }
                } else if k1 == TokenKind::Bang {
                    match p_bool(t, i + 2) {
                        Ok((v, j)) => if kind_at(t, j) == Some(TokenKind::CloseParen) {
                            Ok((BoolModel::Unary(UnaryBoolOp::Not, Box::new(v)), j + 1))
                        } else {
                            Err(ErrorModel::ParseError)
                        },
                        Err(e) => Err(e),
                    }
                } else if is_cmp_op(k1) {
                    match p_num(t, i + 2) {
                        Ok((l, j)) => if !(i < j <= t.len()) { Err(ErrorModel::ParseError) } else { match p_num(t, j) {
                            Ok((r, m)) => if kind_at(t, m) == Some(TokenKind::CloseParen) {
                                Ok((BoolModel::Cmp(cmp_op_of(k1), Box::new(l), Box::new(r)), m + 1))
                            } else {
                                Err(ErrorModel::ParseError)
                            },
                            Err(e) => Err(e),
                        } },
                        Err(e) => Err(e),
                    }
                } else {
                    Err(ErrorModel::ParseError)
                },
                None => Err(ErrorModel::ParseError),
            }
        } else {
            Err(ErrorModel::ParseError)
        }
    }
}

/// `(cond case...)` starting at token `i`, with at least one case.
pub open spec fn p_cond(t: Toks, i: int) -> Result<(ExprModel, int), ErrorModel>
    decreases t.len() - i, 2nat,
{
    if 0 <= i && kind_at(t, i) == Some(TokenKind::OpenParen) && kind_at(t, i + 1) == Some(TokenKind::Cond)
        && kind_at(t, i + 2) != Some(TokenKind::CloseParen) {
        match p_cases(t, i + 2) {
            Ok((cs, j)) => Ok((ExprModel::Cond(cs), j + 1)),
            Err(e) => Err(e),
        }
    } else {
        Err(ErrorModel::ParseError)
    }
}

/// The cases from token `i` up to a closing delimiter, and the index of that delimiter.
pub open spec fn p_cases(t: Toks, i: int) -> Result<(Seq<(BoolModel, ExprModel)>, int), ErrorModel>
    decreases t.len() - i, 1nat,
{
    if !(0 <= i < t.len()) {
        Err(ErrorModel::ParseError)
    } else if t[i].0 == TokenKind::CloseParen {
        Ok((Seq::empty(), i))
    } else {
        match p_case(t, i) {
            Ok((c, j)) => if i < j <= t.len() {
                match p_cases(t, j) {
                    Ok((rest, m)) => Ok((seq![c] + rest, m)),
                    Err(e) => Err(e),
                }
            } else {
                Err(ErrorModel::ParseError)
            },
            Err(e) => Err(e),
        }
    }
}

/// `(condition result)` starting at token `i`.
pub open spec fn p_case(t: Toks, i: int) -> Result<((BoolModel, ExprModel), int), ErrorModel>
    decreases t.len() - i, 0nat,
{
    if 0 <= i && kind_at(t, i) == Some(TokenKind::OpenParen) {
        match p_bool(t, i + 1) {
            Ok((c, j)) => if i < j <= t.len() {
                match p_expr(t, j) {
                    Ok((r, m)) => if kind_at(t, m) == Some(TokenKind::CloseParen) {
                        Ok(((c, r), m + 1))
                    } else {
                        Err(ErrorModel::ParseError)
                    },
                    Err(e) => Err(e),
                }
            } else {
                Err(ErrorModel::ParseError)
            },
            Err(e) => Err(e),
        }
    } else {
        Err(ErrorModel::ParseError)
    }
}

/// `(name argument...)` starting at token `i`.
pub open spec fn p_call(t: Toks, i: int) -> Result<(ExprModel, int), ErrorModel>
    decreases t.len() - i, 2nat,
{
    if 0 <= i && kind_at(t, i) == Some(TokenKind::OpenParen) && kind_at(t, i + 1) == Some(TokenKind::Identifier) {
        match p_args(t, i + 2) {
            Ok((args, j)) => Ok((ExprModel::Call(t[i + 1].1, args), j + 1)),
            Err(e) => Err(e),
        }
    } else {
        Err(ErrorModel::ParseError)
    }
}

/// The expressions from token `i` up to a closing delimiter, and the index of that delimiter.
pub open spec fn p_args(t: Toks, i: int) -> Result<(Seq<ExprModel>, int), ErrorModel>
    decreases t.len() - i, 5nat,
{
    if !(0 <= i < t.len()) {
        Err(ErrorModel::ParseError)
    } else if t[i].0 == TokenKind::CloseParen {
        Ok((Seq::empty(), i))
    } else {
        match p_expr(t, i) {
            Ok((e, j)) => if i < j <= t.len() {
                match p_args(t, j) {
                    Ok((rest, m)) => Ok((seq![e] + rest, m)),
                    Err(err) => Err(err),
                }
            } else {
                Err(ErrorModel::ParseError)
            },
            Err(err) => Err(err),
        }
    }
}

/// The parameter names from token `i` up to a closing delimiter, and the index of that delimiter.
pub open spec fn p_params(t: Toks, i: int) -> Result<(Seq<Seq<char>>, int), ErrorModel>
    decreases t.len() - i,
{
    if !(0 <= i < t.len()) {
        Err(ErrorModel::ParseError)
    } else if t[i].0 == TokenKind::CloseParen {
        Ok((Seq::empty(), i))
    } else if t[i].0 == TokenKind::Identifier {
        match p_params(t, i + 1) {
            Ok((rest, m)) => Ok((seq![t[i].1] + rest, m)),
            Err(e) => Err(e),
        }
    } else {
        Err(ErrorModel::ParseError)
    }
}

/// `(define (name parameter...) body)` starting at token `i`.
pub open spec fn p_function(t: Toks, i: int) -> Result<(ExprModel, int), ErrorModel>
    decreases t.len() - i, 2nat,
{
    if 0 <= i && kind_at(t, i) == Some(TokenKind::OpenParen) && kind_at(t, i + 1) == Some(TokenKind::Define)
        && kind_at(t, i + 2) == Some(TokenKind::OpenParen) && kind_at(t, i + 3) == Some(TokenKind::Identifier) {
        match p_params(t, i + 4) {
            Ok((ps, j)) => if i + 4 <= j < t.len() {
                match p_expr(t, j + 1) {
                    Ok((body, m)) => if kind_at(t, m) == Some(TokenKind::CloseParen) {
                        Ok((ExprModel::Function(t[i + 3].1, ps, Box::new(body)), m + 1))
                    } else {
                        Err(ErrorModel::ParseError)
                    },
                    Err(e) => Err(e),
                }
            } else {
                Err(ErrorModel::ParseError)
            },
            Err(e) => Err(e),
        }
    } else {
        Err(ErrorModel::ParseError)
    }
}

/// A whole token sequence as one expression: trailing tokens are an error.
pub open spec fn p_whole(t: Toks) -> Result<ExprModel, ErrorModel> {
    match p_expr(t, 0) {
        Ok((e, j)) => if j == t.len() {
            Ok(e)
        } else {
            Err(ErrorModel::ParseError)
        },
        Err(e) => Err(e),
    }
}


/// The tokens under a cursor, as (kind, text) pairs.
pub open spec fn toks_of(it: TokenIter) -> Toks {
    tokens_view(it.tokens())
}

proof fn lemma_exprs_model_prefix(a: Seq<Expr>, b: Seq<Expr>, n: nat)
    requires
        n <= a.len(),
        n <= b.len(),
        forall|k: int| 0 <= k < n ==> a[k] == b[k],
    ensures
        exprs_model(a, n) == exprs_model(b, n),
    decreases n,
{
    if n > 0 {
        lemma_exprs_model_prefix(a, b, (n - 1) as nat);
    }
}

proof fn lemma_cases_model_prefix(a: Seq<CondCase>, b: Seq<CondCase>, n: nat)
    requires
        n <= a.len(),
        n <= b.len(),
        forall|k: int| 0 <= k < n ==> a[k] == b[k],
    ensures
        cases_model(a, n) == cases_model(b, n),
    decreases n,
{
    if n > 0 {
        lemma_cases_model_prefix(a, b, (n - 1) as nat);
    }
}

proof fn lemma_digits_value_prefix(s: Seq<char>, k: int)
    requires
        0 <= k <= s.len(),
    ensures
        digits_value(s.subrange(0, k)) <= digits_value(s),
    decreases s.len() - k,
{
    if k < s.len() {
        lemma_digits_value_prefix(s, k + 1);
        assert(s.subrange(0, k + 1).drop_last() =~= s.subrange(0, k));
    } else {
        assert(s.subrange(0, k) =~= s);
    }
}

/// The value of a numeric literal's text, negated if `negative`; `ParseError` where the
/// text is not a run of digits or the value leaves the 32-bit range.
fn literal(text: &String, negative: bool) -> (r: Result<i32, Error>)
    ensures
        err_view(r) == literal_value(text@, negative),
{
    let cs = chars_of(text);
    if cs.len() == 0 {
        return Err(Error::ParseError);
    }
    let mut v: u64 = 0;
    let mut i: usize = 0;
    while i < cs.len()
        invariant
            cs@ == text@,
            i <= cs@.len(),
            v == digits_value(cs@.subrange(0, i as int)),
            v <= 0x8000_0000,
            forall|k: int| 0 <= k < i ==> is_digit_spec(#[trigger] cs@[k]),
        decreases cs@.len() - i,
    {
        let c = cs[i];
        assert(cs@.subrange(0, i + 1).drop_last() =~= cs@.subrange(0, i as int));
        if !('0' <= c && c <= '9') {
            return Err(Error::ParseError);
        }
        let d = (c as u32 - '0' as u32) as u64;
        v = v * 10 + d;
        i = i + 1;
        if v > 0x8000_0000 {
            proof {
                lemma_digits_value_prefix(cs@, i as int);
                if is_digits(text@) {
                    assert(digits_value(text@) > 0x8000_0000);
                }
            }
            return Err(Error::ParseError);
        }
    }
    assert(cs@.subrange(0, i as int) =~= cs@);
    if negative {
        Ok((0i64 - v as i64) as i32)
    } else if v <= 0x7fff_ffff {
        Ok(v as i32)
    } else {
        Err(Error::ParseError)
    }
}

/// The kind of the token `n` places ahead of the cursor.
fn kind_ahead(it: &TokenIter, n: usize) -> (r: Option<TokenKind>)
    requires
        it.wf(),
    ensures
        r == kind_at(toks_of(*it), it.pos() + n),
{
    let r = it.peek_nth(n);
    proof {
        let ghost k = it.pos() + n;
        assert(toks_of(*it).len() == it.tokens().len());
        if k < it.tokens().len() {
            assert(0 <= k);
            assert(toks_of(*it)[k] == it.tokens()[k]@);
        }
    }
    match r {
        Some(t) => Some(t.kind),
        None => None,
    }
}

fn skip(it: &mut TokenIter)
    requires
        old(it).wf(),
    ensures
        final(it).wf(),
        final(it).tokens() == old(it).tokens(),
        final(it).pos() == if old(it).pos() < old(it).tokens().len() { old(it).pos() + 1 } else { old(it).pos() },
{
    let _ = it.next();
}

fn text_ahead(it: &TokenIter, n: usize) -> (r: String)
    requires
        it.wf(),
        it.pos() + n < it.tokens().len(),
    ensures
        r@ == toks_of(*it)[it.pos() + n].1,
{
    let r = it.peek_nth(n);
    proof {
        assert(toks_of(*it)[it.pos() + n] == it.tokens()[it.pos() + n]@);
    }
    match r {
        Some(t) => t.text.clone(),
        None => String::new(),
    }
}

/// Parses one expression at the cursor and moves the cursor past it.
pub fn parse_expr(it: &mut TokenIter) -> (r: Result<Expr, Error>)
    requires
        old(it).wf(),
    ensures
        final(it).wf(),
        final(it).tokens() == old(it).tokens(),
        match p_expr(tokens_view(old(it).tokens()), old(it).pos() as int) {
            Ok((m, j)) => (r matches Ok(x) && expr_model(x) == m && final(it).pos() == j),
            Err(e) => (r matches Err(e2) && e2@ == e),
        },
    decreases old(it).tokens().len() - old(it).pos(), 4nat,
{
    let k = match kind_ahead(it, 0) {
        Some(k) => k,
        None => return Err(Error::ParseError),
    };
    if k == TokenKind::Minus || k == TokenKind::Number {
        match parse_num_expr(it) {
            Ok(n) => Ok(Expr::NumExpr(n)),
            Err(e) => Err(e),
        }
    } else if k == TokenKind::Boolean {
        match parse_bool_expr(it) {
            Ok(b) => Ok(Expr::BoolExpr(b)),
            Err(e) => Err(e),
        }
    } else if k == TokenKind::Identifier {
        let name = text_ahead(it, 0);
        skip(it);
        Ok(Expr::VariableExpr(Variable { name }))
    } else if k == TokenKind::OpenParen {
        match kind_ahead(it, 1) {
            Some(k1) => if k1 == TokenKind::Cond {
                parse_cond_expr(it)
            } else if k1 == TokenKind::Plus || k1 == TokenKind::Minus || k1 == TokenKind::Slash || k1
                == TokenKind::Star || k1 == TokenKind::Percent {
                match parse_num_expr(it) {
                    Ok(n) => Ok(Expr::NumExpr(n)),
                    Err(e) => Err(e),
                }
            } else if k1 == TokenKind::Ampersand || k1 == TokenKind::Pipe || k1 == TokenKind::Bang
                || k1 == TokenKind::LessThan || k1 == TokenKind::Equal || k1 == TokenKind::GreaterThan {
                match parse_bool_expr(it) {
                    Ok(b) => Ok(Expr::BoolExpr(b)),
                    Err(e) => Err(e),
                }
            } else if k1 == TokenKind::Define {
                parse_function_expr(it)
            } else if k1 == TokenKind::Identifier {
                parse_call_expr(it)
            } else {
                Err(Error::ParseError)
            },
            None => Err(Error::ParseError),
        }
    } else {
        Err(Error::ParseError)
    }
}

/// Parses a numeric expression at the cursor.
#[verifier::rlimit(60)]
fn parse_num_expr(it: &mut TokenIter) -> (r: Result<Num, Error>)
    requires
        old(it).wf(),
    ensures
        final(it).wf(),
        final(it).tokens() == old(it).tokens(),
        match p_num(tokens_view(old(it).tokens()), old(it).pos() as int) {
            Ok((m, j)) => (r matches Ok(x) && num_model(x) == m && final(it).pos() == j),
            Err(e) => (r matches Err(e2) && e2@ == e),
        },
    decreases old(it).tokens().len() - old(it).pos(), 3nat,
{
    let i = it.position();
    let k = match kind_ahead(it, 0) {
        Some(k) => k,
        None => return Err(Error::ParseError),
    };
    if k == TokenKind::Number {
        let text = text_ahead(it, 0);
        skip(it);
        match literal(&text, false) {
            Ok(v) => Ok(Num::Literal(v)),
            Err(e) => Err(e),
        }
    } else if k == TokenKind::Minus {
        if kind_ahead(it, 1) == Some(TokenKind::Number) {
            let text = text_ahead(it, 1);
            skip(it);
            skip(it);
            match literal(&text, true) {
                Ok(v) => Ok(Num::Literal(v)),
                Err(e) => Err(e),
            }
        } else {
            Err(Error::ParseError)
        }
    } else if k == TokenKind::Identifier {
        let name = text_ahead(it, 0);
        skip(it);
        let v = Expr::VariableExpr(Variable { name });
        assert(expr_model(v) == ExprModel::Variable(name@));
        Ok(Num::Dynamic(Box::new(v)))
    } else if k == TokenKind::OpenParen {
        match kind_ahead(it, 1) {
            Some(k1) => if k1 == TokenKind::Identifier || k1 == TokenKind::Cond {
                if k1 == TokenKind::Cond {
                    match parse_cond_expr(it) {
                        Ok(e) => Ok(Num::Dynamic(Box::new(e))),
                        Err(e) => Err(e),
                    }
                } else {
                    match parse_call_expr(it) {
                        Ok(e) => Ok(Num::Dynamic(Box::new(e))),
                        Err(e) => Err(e),
                    }
                }
            } else if k1 == TokenKind::Plus || k1 == TokenKind::Minus || k1 == TokenKind::Slash || k1
                == TokenKind::Star || k1 == TokenKind::Percent {
                skip(it);
                let op = match token_kind_to_binary_num_op(&k1) {
                    Ok(op) => op,
                    Err(e) => return Err(e),
                };
                skip(it);
                let left = match parse_num_expr(it) {
                    Ok(l) => l,
                    Err(e) => return Err(e),
                };
                if !(i < it.position() && it.position() <= it.token_count()) {
                    return Err(Error::ParseError);
                }
                let right = match parse_num_expr(it) {
                    Ok(r) => r,
                    Err(e) => return Err(e),
                };
                if kind_ahead(it, 0) != Some(TokenKind::CloseParen) {
                    return Err(Error::ParseError);
                }
                skip(it);
                Ok(Num::Binary(Box::new(BinaryNumExpr { op, left, right })))
            } else {
                Err(Error::ParseError)
            },
            None => Err(Error::ParseError),
        }
    } else {
        Err(Error::ParseError)
    }
}


/// Parses a boolean expression at the cursor.
#[verifier::rlimit(60)]
fn parse_bool_expr(it: &mut TokenIter) -> (r: Result<Bool, Error>)
    requires
        old(it).wf(),
    ensures
        final(it).wf(),
        final(it).tokens() == old(it).tokens(),
        match p_bool(tokens_view(old(it).tokens()), old(it).pos() as int) {
            Ok((m, j)) => (r matches Ok(x) && bool_model(x) == m && final(it).pos() == j),
            Err(e) => (r matches Err(e2) && e2@ == e),
        },
    decreases old(it).tokens().len() - old(it).pos(), 3nat,
{
    let i = it.position();
    let k = match kind_ahead(it, 0) {
        Some(k) => k,
        None => return Err(Error::ParseError),
    };
    if k == TokenKind::Boolean {
        let text = text_ahead(it, 0);
        skip(it);
        proof {
            reveal_strlit("true");
        }
        if text == text_of_literal("true") {
            Ok(Bool::Literal(true))
        } else if text == text_of_literal("false") {
            Ok(Bool::Literal(false))
        } else {
            Err(Error::ParseError)
        }
    } else if k == TokenKind::Identifier {
        let name = text_ahead(it, 0);
        skip(it);
        let v = Expr::VariableExpr(Variable { name });
        assert(expr_model(v) == ExprModel::Variable(name@));
        Ok(Bool::Dynamic(Box::new(v)))
    } else if k == TokenKind::OpenParen {
        let k1 = match kind_ahead(it, 1) {
            Some(k1) => k1,
            None => return Err(Error::ParseError),
        };
        if k1 == TokenKind::Identifier || k1 == TokenKind::Cond {
            if k1 == TokenKind::Cond {
                return match parse_cond_expr(it) {
                    Ok(e) => Ok(Bool::Dynamic(Box::new(e))),
                    Err(e) => Err(e),
                };
            } else {
                return match parse_call_expr(it) {
                    Ok(e) => Ok(Bool::Dynamic(Box::new(e))),
                    Err(e) => Err(e),
                };
            }
        }
        if k1 == TokenKind::Ampersand || k1 == TokenKind::Pipe {
            skip(it);
            let op = match token_kind_to_binary_bool_op(&k1) {
                Ok(op) => op,
                Err(e) => return Err(e),
            };
            skip(it);
            let left = match parse_bool_expr(it) {
                Ok(l) => l,
                Err(e) => return Err(e),
            };
            if !(i < it.position() && it.position() <= it.token_count()) {
                return Err(Error::ParseError);
            }
            let right = match parse_bool_expr(it) {
                Ok(r) => r,
                Err(e) => return Err(e),
            };
            if kind_ahead(it, 0) != Some(TokenKind::CloseParen) {
                return Err(Error::ParseError);
            }
            skip(it);
            Ok(Bool::Binary(Box::new(BinaryBoolExpr { op, left, right })))
        } else if k1 == TokenKind::Bang {
            skip(it);
            let op = match token_kind_to_unary_bool_op(&k1) {
                Ok(op) => op,
                Err(e) => return Err(e),
            };
            skip(it);
            let value = match parse_bool_expr(it) {
                Ok(v) => v,
                Err(e) => return Err(e),
            };
            if kind_ahead(it, 0) != Some(TokenKind::CloseParen) {
                return Err(Error::ParseError);
            }
            skip(it);
            Ok(Bool::Unary(Box::new(UnaryBoolExpr { op, value })))
        } else if k1 == TokenKind::LessThan || k1 == TokenKind::Equal || k1 == TokenKind::GreaterThan {
            skip(it);
            let op = match token_kind_to_cmp_bool_op(&k1) {
                Ok(op) => op,
                Err(e) => return Err(e),
            };
            skip(it);
            let left = match parse_num_expr(it) {
                Ok(l) => l,
                Err(e) => return Err(e),
            };
            if !(i < it.position() && it.position() <= it.token_count()) {
                return Err(Error::ParseError);
            }
            let right = match parse_num_expr(it) {
                Ok(r) => r,
                Err(e) => return Err(e),
            };
            if kind_ahead(it, 0) != Some(TokenKind::CloseParen) {
                return Err(Error::ParseError);
            }
            skip(it);
            Ok(Bool::Cmp(Box::new(CmpBoolExpr { op, left, right })))
        } else {
            Err(Error::ParseError)
        }
    } else {
        Err(Error::ParseError)
    }
}

fn text_of_literal(lit: &str) -> (r: String)
    ensures
        r@ == lit@,
{
    lit.to_owned()
}

/// Parses `(cond case...)` at the cursor.
fn parse_cond_expr(it: &mut TokenIter) -> (r: Result<Expr, Error>)
    requires
        old(it).wf(),
    ensures
        final(it).wf(),
        final(it).tokens() == old(it).tokens(),
        match p_cond(tokens_view(old(it).tokens()), old(it).pos() as int) {
            Ok((m, j)) => (r matches Ok(x) && expr_model(x) == m && final(it).pos() == j),
            Err(e) => (r matches Err(e2) && e2@ == e),
        },
    decreases old(it).tokens().len() - old(it).pos(), 2nat,
{
    let ghost t = toks_of(*it);
    let ghost ts = it.tokens();
    let i = it.position();
    if !(kind_ahead(it, 0) == Some(TokenKind::OpenParen) && kind_ahead(it, 1) == Some(TokenKind::Cond)
        && kind_ahead(it, 2) != Some(TokenKind::CloseParen)) {
        return Err(Error::ParseError);
    }
    skip(it);
    skip(it);
    let mut cases: Vec<CondCase> = Vec::new();
    while kind_ahead(it, 0) != Some(TokenKind::CloseParen)
        invariant
            it.wf(),
            toks_of(*it) == t,
            it.tokens() == ts,
            ts == old(it).tokens(),
            t == tokens_view(ts),
            i == old(it).pos(),
            kind_at(t, i as int) == Some(TokenKind::OpenParen),
            kind_at(t, i + 1) == Some(TokenKind::Cond),
            kind_at(t, i + 2) != Some(TokenKind::CloseParen),
            i + 2 <= it.pos() <= t.len(),
            p_cases(t, i + 2) == match p_cases(t, it.pos() as int) {
                Ok((rest, m)) => Ok((cases_model(cases@, cases@.len()) + rest, m)),
                Err(e) => Err(e),
            },
        decreases t.len() - it.pos(),
    {
        let j0 = it.position();
        if it.position() >= it.token_count() {
            return Err(Error::ParseError);
        }
        let case = match parse_cond_case(it) {
            Ok(c) => c,
            Err(e) => {
                assert(p_cases(t, j0 as int) matches Err(e2) && e2 == e@);
                return Err(e);
            },
        };
        if !(j0 < it.position() && it.position() <= it.token_count()) {
            return Err(Error::ParseError);
        }
        proof {
            let ghost old_cases = cases@;
            let ghost c = (bool_model(case.condition), expr_model(case.result));
            lemma_cases_model_prefix(old_cases.push(case), old_cases, old_cases.len());
            match p_cases(t, it.pos() as int) {
                Ok((rest, m)) => {
                    assert(cases_model(old_cases, old_cases.len()) + (seq![c] + rest)
                        =~= cases_model(old_cases, old_cases.len()).push(c) + rest);
                },
                Err(e) => {},
            }
        }
        cases.push(case);
    }
    proof {
        assert(cases_model(cases@, cases@.len()) + Seq::empty() =~= cases_model(cases@, cases@.len()));
    }
    skip(it);
    let r = Expr::CondExpr(Cond { cases });
    proof {
        assert(expr_model(r) == ExprModel::Cond(cases_model(cases@, cases@.len())));
    }
    Ok(r)
}

/// Parses `(condition result)` at the cursor.
fn parse_cond_case(it: &mut TokenIter) -> (r: Result<CondCase, Error>)
    requires
        old(it).wf(),
    ensures
        final(it).wf(),
        final(it).tokens() == old(it).tokens(),
        match p_case(tokens_view(old(it).tokens()), old(it).pos() as int) {
            Ok((m, j)) => (r matches Ok(x) && (bool_model(x.condition), expr_model(x.result)) == m && final(it).pos() == j),
            Err(e) => (r matches Err(e2) && e2@ == e),
        },
    decreases old(it).tokens().len() - old(it).pos(), 0nat,
{
    let i = it.position();
    if kind_ahead(it, 0) != Some(TokenKind::OpenParen) {
        return Err(Error::ParseError);
    }
    skip(it);
    let condition = match parse_bool_expr(it) {
        Ok(c) => c,
        Err(e) => return Err(e),
    };
    if !(i < it.position() && it.position() <= it.token_count()) {
        return Err(Error::ParseError);
    }
    let result = match parse_expr(it) {
        Ok(r) => r,
        Err(e) => return Err(e),
    };
    if kind_ahead(it, 0) != Some(TokenKind::CloseParen) {
        return Err(Error::ParseError);
    }
    skip(it);
    Ok(CondCase { condition, result })
}

/// Parses `(name argument...)` at the cursor.
fn parse_call_expr(it: &mut TokenIter) -> (r: Result<Expr, Error>)
    requires
        old(it).wf(),
    ensures
        final(it).wf(),
        final(it).tokens() == old(it).tokens(),
        match p_call(tokens_view(old(it).tokens()), old(it).pos() as int) {
            Ok((m, j)) => (r matches Ok(x) && expr_model(x) == m && final(it).pos() == j),
            Err(e) => (r matches Err(e2) && e2@ == e),
        },
    decreases old(it).tokens().len() - old(it).pos(), 2nat,
{
    let ghost t = toks_of(*it);
    let ghost ts = it.tokens();
    let i = it.position();
    if !(kind_ahead(it, 0) == Some(TokenKind::OpenParen) && kind_ahead(it, 1) == Some(TokenKind::Identifier)) {
        return Err(Error::ParseError);
    }
    let name = text_ahead(it, 1);
    skip(it);
    skip(it);
    let mut arguments: Vec<Expr> = Vec::new();
    while kind_ahead(it, 0) != Some(TokenKind::CloseParen)
        invariant
            it.wf(),
            toks_of(*it) == t,
            it.tokens() == ts,
            ts == old(it).tokens(),
            t == tokens_view(ts),
            i == old(it).pos(),
            kind_at(t, i as int) == Some(TokenKind::OpenParen),
            kind_at(t, i + 1) == Some(TokenKind::Identifier),
            name@ == t[i + 1].1,
            i + 2 <= it.pos() <= t.len(),
            p_args(t, i + 2) == match p_args(t, it.pos() as int) {
                Ok((rest, m)) => Ok((exprs_model(arguments@, arguments@.len()) + rest, m)),
                Err(e) => Err(e),
            },
        decreases t.len() - it.pos(),
    {
        let j0 = it.position();
        if it.position() >= it.token_count() {
            return Err(Error::ParseError);
        }
        let arg = match parse_expr(it) {
            Ok(a) => a,
            Err(e) => {
                assert(p_args(t, j0 as int) matches Err(e2) && e2 == e@);
                return Err(e);
            },
        };
        if !(j0 < it.position() && it.position() <= it.token_count()) {
            return Err(Error::ParseError);
        }
        proof {
            let ghost old_args = arguments@;
            let ghost a = expr_model(arg);
            lemma_exprs_model_prefix(old_args.push(arg), old_args, old_args.len());
            match p_args(t, it.pos() as int) {
                Ok((rest, m)) => {
                    assert(exprs_model(old_args, old_args.len()) + (seq![a] + rest)
                        =~= exprs_model(old_args, old_args.len()).push(a) + rest);
                },
                Err(e) => {},
            }
        }
        arguments.push(arg);
    }
    proof {
        assert(exprs_model(arguments@, arguments@.len()) + Seq::empty() =~= exprs_model(arguments@, arguments@.len()));
    }
    skip(it);
    let r = Expr::FunctionCallExpr(FunctionCall { name, arguments });
    proof {
        assert(expr_model(r) == ExprModel::Call(name@, exprs_model(arguments@, arguments@.len())));
    }
    Ok(r)
}

/// Parses `(define (name parameter...) body)` at the cursor.
fn parse_function_expr(it: &mut TokenIter) -> (r: Result<Expr, Error>)
    requires
        old(it).wf(),
    ensures
        final(it).wf(),
        final(it).tokens() == old(it).tokens(),
        match p_function(tokens_view(old(it).tokens()), old(it).pos() as int) {
            Ok((m, j)) => (r matches Ok(x) && expr_model(x) == m && final(it).pos() == j),
            Err(e) => (r matches Err(e2) && e2@ == e),
        },
    decreases old(it).tokens().len() - old(it).pos(), 2nat,
{
    let ghost t = toks_of(*it);
    let ghost ts = it.tokens();
    let i = it.position();
    if !(kind_ahead(it, 0) == Some(TokenKind::OpenParen) && kind_ahead(it, 1) == Some(TokenKind::Define)
        && kind_ahead(it, 2) == Some(TokenKind::OpenParen) && kind_ahead(it, 3) == Some(TokenKind::Identifier)) {
        return Err(Error::ParseError);
    }
    let name = text_ahead(it, 3);
    skip(it);
    skip(it);
    skip(it);
    skip(it);
    let mut parameter_names: Vec<String> = Vec::new();
    while kind_ahead(it, 0) != Some(TokenKind::CloseParen)
        invariant
            it.wf(),
            toks_of(*it) == t,
            it.tokens() == ts,
            ts == old(it).tokens(),
            t == tokens_view(ts),
            i == old(it).pos(),
            kind_at(t, i as int) == Some(TokenKind::OpenParen),
            kind_at(t, i + 1) == Some(TokenKind::Define),
            kind_at(t, i + 2) == Some(TokenKind::OpenParen),
            kind_at(t, i + 3) == Some(TokenKind::Identifier),
            name@ == t[i + 3].1,
            i + 4 <= it.pos() <= t.len(),
            p_params(t, i + 4) == match p_params(t, it.pos() as int) {
                Ok((rest, m)) => Ok((names_model(parameter_names@) + rest, m)),
                Err(e) => Err(e),
            },
        decreases t.len() - it.pos(),
    {
        if kind_ahead(it, 0) != Some(TokenKind::Identifier) {
            return Err(Error::ParseError);
        }
        let p = text_ahead(it, 0);
        skip(it);
        proof {
            let ghost old_ps = parameter_names@;
            assert(names_model(old_ps.push(p)) =~= names_model(old_ps).push(p@));
            match p_params(t, it.pos() as int) {
                Ok((rest, m)) => {
                    assert(names_model(old_ps) + (seq![p@] + rest) =~= names_model(old_ps).push(p@) + rest);
                },
                Err(e) => {},
            }
        }
        parameter_names.push(p);
    }
    proof {
        assert(names_model(parameter_names@) + Seq::empty() =~= names_model(parameter_names@));
    }
    if it.position() >= it.token_count() {
        return Err(Error::ParseError);
    }
    skip(it);
    let body = match parse_expr(it) {
        Ok(b) => b,
        Err(e) => return Err(e),
    };
    if kind_ahead(it, 0) != Some(TokenKind::CloseParen) {
        return Err(Error::ParseError);
    }
    skip(it);
    Ok(Expr::FunctionExpr(Function { name, parameter_names, body: Box::new(body) }))
}


/// The tokens of a source text, as (kind, text) pairs, parsed as one expression.
pub open spec fn parse_spec(src: Seq<char>) -> Result<ExprModel, ErrorModel> {
    match lex(src) {
        Ok(t) => p_whole(t),
        Err(e) => Err(e),
    }
}

/// Parses a source text holding exactly one expression; a lexing failure, malformed
/// input, or tokens after the expression are errors.
pub fn parse(program: String) -> (r: Result<Expr, Error>)
    ensures
        match parse_spec(program@) {
            Ok(m) => (r matches Ok(e) && expr_model(e) == m),
            Err(e) => (r matches Err(e2) && e2@ == e),
        },
        r matches Ok(e) ==> wf(expr_model(e)),
{
    let tokens = match string_to_tokens(program) {
        Ok(t) => t,
        Err(e) => return Err(e),
    };
    let mut it = TokenIter::new(&tokens);
    let parsed = match parse_expr(&mut it) {
        Ok(e) => e,
        Err(e) => return Err(e),
    };
    if it.position() != it.token_count() {
        return Err(Error::ParseError);
    }
    proof {
        lemma_parsed_is_wf(toks_of(it));
    }
    Ok(parsed)
}

} // verus!
