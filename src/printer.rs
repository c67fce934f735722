use vstd::prelude::*;

use crate::ast::{BinaryBoolOp, BinaryNumOp, BoolModel, CmpBoolOp, ExprModel, NumModel};
use crate::error::ErrorModel;
use crate::parser::{
    digits_value, is_cmp_op, is_digits, is_num_op, kind_at, p_args, p_bool, p_call, p_case, p_cases, p_cond, p_expr, p_function, p_num, p_params,
    p_whole, parse_spec, Toks,
};
use crate::tokenizer::{
    digit_run_end, is_digit_spec, is_whitespace_spec, is_word_char_spec, is_word_start_spec, lex_from, punct_token,
    skip_whitespace, token_at, word_kind, word_run_end, TokenKind,
};

verus! {

pub open spec fn open_tok() -> (TokenKind, Seq<char>) {
    (TokenKind::OpenParen, seq!['('])
}

pub open spec fn close_tok() -> (TokenKind, Seq<char>) {
    (TokenKind::CloseParen, seq![')'])
}

pub open spec fn digit_char(d: nat) -> char {
    seq!['0', '1', '2', '3', '4', '5', '6', '7', '8', '9'][d as int]
}

/// The decimal digits of `n`, most significant first.
pub open spec fn decimal(n: nat) -> Seq<char>
    decreases n,
{
    if n < 10 {
        seq![digit_char(n)]
    } else {
        decimal(n / 10).push(digit_char(n % 10))
    }
}

pub open spec fn num_op_kind(op: BinaryNumOp) -> TokenKind {
    match op {
        BinaryNumOp::Add => TokenKind::Plus,
        BinaryNumOp::Sub => TokenKind::Minus,
        BinaryNumOp::Mul => TokenKind::Star,
        BinaryNumOp::Div => TokenKind::Slash,
        BinaryNumOp::Mod => TokenKind::Percent,
    }
}

pub open spec fn cmp_op_kind(op: CmpBoolOp) -> TokenKind {
    match op {
        CmpBoolOp::Lt => TokenKind::LessThan,
        CmpBoolOp::Eq => TokenKind::Equal,
        CmpBoolOp::Gt => TokenKind::GreaterThan,
    }
}

/// The text of an operator token.
pub open spec fn op_text(k: TokenKind) -> Seq<char> {
    if k == TokenKind::Plus {
        seq!['+']
    } else if k == TokenKind::Minus {
        seq!['-']
    } else if k == TokenKind::Slash {
        seq!['/']
    } else if k == TokenKind::Star {
        seq!['*']
    } else if k == TokenKind::Percent {
        seq!['%']
    } else if k == TokenKind::Ampersand {
        seq!['&']
    } else if k == TokenKind::Pipe {
        seq!['|']
    } else if k == TokenKind::Bang {
        seq!['!']
    } else if k == TokenKind::LessThan {
        seq!['<']
    } else if k == TokenKind::Equal {
        seq!['=']
    } else {
        seq!['>']
    }
}

/// A one-character operator token, as lexing produces it.
pub open spec fn op_tok(k: TokenKind) -> (TokenKind, Seq<char>) {
    (k, op_text(k))
}

/// Whether an operand in a numeric or boolean position is one whose tokens the parser reads back as such.
pub open spec fn dynamic_ok(e: ExprModel) -> bool {
    e is Variable || e is Call || e is Cond
}

pub open spec fn render_num(n: NumModel) -> Toks
    decreases n, 0nat,
{
    match n {
        NumModel::Literal(v) => if v < 0 {
            seq![op_tok(TokenKind::Minus), (TokenKind::Number, decimal((-v) as nat))]
        } else {
            seq![(TokenKind::Number, decimal(v as nat))]
        },
        NumModel::Binary(op, l, r) => seq![open_tok(), op_tok(num_op_kind(op))] + render_num(*l) + render_num(*r)
            + seq![close_tok()],
        NumModel::Dynamic(e) => render(*e),
    }
}

pub open spec fn render_bool(b: BoolModel) -> Toks
    decreases b, 0nat,
{
    match b {
        BoolModel::Literal(v) => seq![(TokenKind::Boolean, if v { "true"@ } else { "false"@ })],
        BoolModel::Binary(op, l, r) => seq![
            open_tok(),
            op_tok(if op == BinaryBoolOp::And { TokenKind::Ampersand } else { TokenKind::Pipe }),
        ] + render_bool(*l) + render_bool(*r) + seq![close_tok()],
        BoolModel::Unary(_, v) => seq![open_tok(), op_tok(TokenKind::Bang)] + render_bool(*v) + seq![close_tok()],
        BoolModel::Cmp(op, l, r) => seq![open_tok(), op_tok(cmp_op_kind(op))] + render_num(*l) + render_num(*r)
            + seq![close_tok()],
        BoolModel::Dynamic(e) => render(*e),
    }
}

/// The tokens of the cases from index `k` on.
pub open spec fn render_cases(cs: Seq<(BoolModel, ExprModel)>, k: int) -> Toks
    decreases cs, cs.len() - k,
{
    if 0 <= k < cs.len() {
        seq![open_tok()] + render_bool(cs[k].0) + render(cs[k].1) + seq![close_tok()] + render_cases(cs, k + 1)
    } else {
        Seq::empty()
    }
}

/// The tokens of the expressions from index `k` on.
pub open spec fn render_args(args: Seq<ExprModel>, k: int) -> Toks
    decreases args, args.len() - k,
{
    if 0 <= k < args.len() {
        render(args[k]) + render_args(args, k + 1)
    } else {
        Seq::empty()
    }
}

pub open spec fn render_params(ps: Seq<Seq<char>>) -> Toks {
    Seq::new(ps.len(), |k: int| (TokenKind::Identifier, ps[k]))
}

/// The tokens that write an expression out.
pub open spec fn render(e: ExprModel) -> Toks
    decreases e, 0nat,
{
    match e {
        ExprModel::Num(n) => render_num(n),
        ExprModel::Bool(b) => render_bool(b),
        ExprModel::Cond(cs) => seq![open_tok(), (TokenKind::Cond, "cond"@)] + render_cases(cs, 0) + seq![close_tok()],
        ExprModel::Function(name, ps, body) => seq![
            open_tok(),
            (TokenKind::Define, "define"@),
            open_tok(),
            (TokenKind::Identifier, name),
        ] + render_params(ps) + seq![close_tok()] + render(*body) + seq![close_tok()],
        ExprModel::Variable(name) => seq![(TokenKind::Identifier, name)],
        ExprModel::Call(name, args) => seq![open_tok(), (TokenKind::Identifier, name)] + render_args(args, 0) + seq![
            close_tok(),
        ],
    }
}

/// Whether a numeric expression is one that parsing can produce.
pub open spec fn wf_num(n: NumModel) -> bool
    decreases n, 0nat,
{
    match n {
        NumModel::Literal(_) => true,
        NumModel::Binary(_, l, r) => wf_num(*l) && wf_num(*r),
        NumModel::Dynamic(e) => dynamic_ok(*e) && wf(*e),
    }
}

/// Whether a boolean expression is one that parsing can produce.
pub open spec fn wf_bool(b: BoolModel) -> bool
    decreases b, 0nat,
{
    match b {
        BoolModel::Literal(_) => true,
        BoolModel::Binary(_, l, r) => wf_bool(*l) && wf_bool(*r),
        BoolModel::Unary(_, v) => wf_bool(*v),
        BoolModel::Cmp(_, l, r) => wf_num(*l) && wf_num(*r),
        BoolModel::Dynamic(e) => dynamic_ok(*e) && wf(*e),
    }
}

pub open spec fn wf_cases(cs: Seq<(BoolModel, ExprModel)>, k: int) -> bool
    decreases cs, cs.len() - k,
{
    if 0 <= k < cs.len() {
        wf_bool(cs[k].0) && wf(cs[k].1) && wf_cases(cs, k + 1)
    } else {
        true
    }
}

pub open spec fn wf_args(args: Seq<ExprModel>, k: int) -> bool
    decreases args, args.len() - k,
{
    if 0 <= k < args.len() {
        wf(args[k]) && wf_args(args, k + 1)
    } else {
        true
    }
}

/// Whether an expression is one that parsing can produce: a numeric or boolean
/// expression at the top is not a bare variable, call or conditional, and every
/// conditional has a case.
pub open spec fn wf(e: ExprModel) -> bool
    decreases e, 0nat,
{
    match e {
        ExprModel::Num(n) => !(n is Dynamic) && wf_num(n),
        ExprModel::Bool(b) => !(b is Dynamic) && wf_bool(b),
        ExprModel::Cond(cs) => cs.len() > 0 && wf_cases(cs, 0),
        ExprModel::Function(_, _, body) => wf(*body),
        ExprModel::Variable(_) => true,
        ExprModel::Call(_, args) => wf_args(args, 0),
    }
}


/// Whether the tokens of `t` from index `i` on begin with `r`.
pub open spec fn at(t: Toks, i: int, r: Toks) -> bool {
    0 <= i && i + r.len() <= t.len() && t.subrange(i, i + r.len()) == r
}

proof fn lemma_at_split(t: Toks, i: int, a: Toks, b: Toks)
    requires
        at(t, i, a + b),
    ensures
        at(t, i, a),
        at(t, i + a.len(), b),
{
    assert(t.subrange(i, i + a.len()) =~= (a + b).subrange(0, a.len() as int));
    assert(t.subrange(i + a.len(), i + a.len() + b.len()) =~= (a + b).subrange(a.len() as int, (a + b).len() as int));
    assert((a + b).subrange(0, a.len() as int) =~= a);
    assert((a + b).subrange(a.len() as int, (a + b).len() as int) =~= b);
}

proof fn lemma_at_index(t: Toks, i: int, r: Toks, k: int)
    requires
        at(t, i, r),
        0 <= k < r.len(),
    ensures
        t[i + k] == r[k],
        kind_at(t, i + k) == Some(r[k].0),
{
    assert(t.subrange(i, i + r.len())[k] == t[i + k]);
}

proof fn lemma_digit_char(d: nat)
    requires
        d < 10,
    ensures
        is_digit_spec(digit_char(d)),
        digit_char(d) as int - '0' as int == d,
{
    assert(d == 0 || d == 1 || d == 2 || d == 3 || d == 4 || d == 5 || d == 6 || d == 7 || d == 8 || d == 9);
}

proof fn lemma_decimal(n: nat)
    ensures
        is_digits(decimal(n)),
        digits_value(decimal(n)) == n,
    decreases n,
{
    lemma_digit_char(n % 10);
    if n < 10 {
        assert(decimal(n).drop_last() =~= Seq::<char>::empty());
        assert(decimal(n).last() == digit_char(n));
        assert(n % 10 == n);
        assert(digits_value(Seq::<char>::empty()) == 0);
        assert(digits_value(decimal(n)) == digits_value(decimal(n).drop_last()) * 10 + n);
    } else {
        lemma_decimal(n / 10);
        let s = decimal(n);
        assert(s.drop_last() =~= decimal(n / 10));
        assert(s.last() == digit_char(n % 10));
        assert(n == (n / 10) * 10 + n % 10);
        assert(digits_value(s) == digits_value(s.drop_last()) * 10 + n % 10);
        assert forall|k: int| 0 <= k < s.len() implies is_digit_spec(#[trigger] s[k]) by {
            if k < s.len() - 1 {
                assert(s[k] == decimal(n / 10)[k]);
            }
        }
    }
}

proof fn lemma_read_num(n: NumModel, t: Toks, i: int)
    requires
        wf_num(n),
        at(t, i, render_num(n)),
    ensures
        p_num(t, i) == Ok::<(NumModel, int), ErrorModel>((n, i + render_num(n).len())),
    decreases n, 1nat,
{
    let r = render_num(n);
    lemma_at_index(t, i, r, 0);
    match n {
        NumModel::Literal(v) => {
            if v < 0 {
                lemma_at_index(t, i, r, 1);
                lemma_decimal((-v) as nat);
            } else {
                lemma_decimal(v as nat);
            }
        },
        NumModel::Binary(op, l, rt) => {
            let a = seq![open_tok(), op_tok(num_op_kind(op))];
            let rl = render_num(*l);
            let rr = render_num(*rt);
            lemma_at_index(t, i, r, 1);
            lemma_at_split(t, i, a + rl + rr, seq![close_tok()]);
            lemma_at_split(t, i, a + rl, rr);
            lemma_at_split(t, i, a, rl);
            lemma_read_num(*l, t, i + 2);
            lemma_read_num(*rt, t, i + 2 + rl.len());
            lemma_at_index(t, i + a.len() + rl.len() + rr.len(), seq![close_tok()], 0);
        },
        NumModel::Dynamic(e) => {
            lemma_read_expr(*e, t, i);
            if *e is Call || *e is Cond {
                lemma_at_index(t, i, r, 1);
            }
        },
    }
}

#[verifier::rlimit(50)]
proof fn lemma_read_bool(b: BoolModel, t: Toks, i: int)
    requires
        wf_bool(b),
        at(t, i, render_bool(b)),
    ensures
        p_bool(t, i) == Ok::<(BoolModel, int), ErrorModel>((b, i + render_bool(b).len())),
    decreases b, 1nat,
{
    let r = render_bool(b);
    lemma_at_index(t, i, r, 0);
    match b {
        BoolModel::Literal(v) => {
            reveal_strlit("true");
            reveal_strlit("false");
        },
        BoolModel::Binary(op, l, rt) => {
            let a = seq![
                open_tok(),
                op_tok(if op == BinaryBoolOp::And { TokenKind::Ampersand } else { TokenKind::Pipe }),
            ];
            let rl = render_bool(*l);
            let rr = render_bool(*rt);
            lemma_at_index(t, i, r, 1);
            lemma_at_split(t, i, a + rl + rr, seq![close_tok()]);
            lemma_at_split(t, i, a + rl, rr);
            lemma_at_split(t, i, a, rl);
            lemma_read_bool(*l, t, i + 2);
            lemma_read_bool(*rt, t, i + 2 + rl.len());
            lemma_at_index(t, i + a.len() + rl.len() + rr.len(), seq![close_tok()], 0);
        },
        BoolModel::Unary(op, v) => {
            let a = seq![open_tok(), op_tok(TokenKind::Bang)];
            let rv = render_bool(*v);
            lemma_at_index(t, i, r, 1);
            lemma_at_split(t, i, a + rv, seq![close_tok()]);
            lemma_at_split(t, i, a, rv);
            lemma_read_bool(*v, t, i + 2);
            lemma_at_index(t, i + a.len() + rv.len(), seq![close_tok()], 0);
        },
        BoolModel::Cmp(op, l, rt) => {
            let a = seq![open_tok(), op_tok(cmp_op_kind(op))];
            let rl = render_num(*l);
            let rr = render_num(*rt);
            lemma_at_index(t, i, r, 1);
            lemma_at_split(t, i, a + rl + rr, seq![close_tok()]);
            lemma_at_split(t, i, a + rl, rr);
            lemma_at_split(t, i, a, rl);
            lemma_read_num(*l, t, i + 2);
            lemma_read_num(*rt, t, i + 2 + rl.len());
            lemma_at_index(t, i + a.len() + rl.len() + rr.len(), seq![close_tok()], 0);
        },
        BoolModel::Dynamic(e) => {
            lemma_read_expr(*e, t, i);
            if *e is Call || *e is Cond {
                lemma_at_index(t, i, r, 1);
            }
        },
    }
}

#[verifier::rlimit(100)]
proof fn lemma_read_cases(cs: Seq<(BoolModel, ExprModel)>, k: int, t: Toks, i: int)
    requires
        0 <= k <= cs.len(),
        wf_cases(cs, k),
        at(t, i, render_cases(cs, k)),
        kind_at(t, i + render_cases(cs, k).len()) == Some(TokenKind::CloseParen),
    ensures
        p_cases(t, i) == Ok::<(Seq<(BoolModel, ExprModel)>, int), ErrorModel>((cs.subrange(k, cs.len() as int), i + render_cases(cs, k).len())),
    decreases cs, cs.len() - k, 1nat,
{
    if k < cs.len() {
        let rc = render_bool(cs[k].0);
        let re = render(cs[k].1);
        let head = seq![open_tok()] + rc + re + seq![close_tok()];
        let rest = render_cases(cs, k + 1);
        lemma_at_split(t, i, head, rest);
        lemma_at_split(t, i, seq![open_tok()] + rc + re, seq![close_tok()]);
        lemma_at_split(t, i, seq![open_tok()] + rc, re);
        lemma_at_split(t, i, seq![open_tok()], rc);
        lemma_at_index(t, i, head, 0);
        lemma_read_bool(cs[k].0, t, i + 1);
        lemma_read_expr(cs[k].1, t, i + 1 + rc.len());
        lemma_at_index(t, i + 1 + rc.len() + re.len(), seq![close_tok()], 0);
        lemma_read_cases(cs, k + 1, t, i + head.len());
        assert(p_case(t, i) == Ok::<((BoolModel, ExprModel), int), ErrorModel>(((cs[k].0, cs[k].1), i + head.len())));
        assert(seq![(cs[k].0, cs[k].1)] + cs.subrange(k + 1, cs.len() as int) =~= cs.subrange(k, cs.len() as int));
    } else {
        assert(cs.subrange(k, cs.len() as int) =~= Seq::<(BoolModel, ExprModel)>::empty());
    }
}

proof fn lemma_read_args(args: Seq<ExprModel>, k: int, t: Toks, i: int)
    requires
        0 <= k <= args.len(),
        wf_args(args, k),
        at(t, i, render_args(args, k)),
        kind_at(t, i + render_args(args, k).len()) == Some(TokenKind::CloseParen),
    ensures
        p_args(t, i) == Ok::<(Seq<ExprModel>, int), ErrorModel>((args.subrange(k, args.len() as int), i + render_args(args, k).len())),
    decreases args, args.len() - k, 1nat,
{
    if k < args.len() {
        let re = render(args[k]);
        let rest = render_args(args, k + 1);
        lemma_at_split(t, i, re, rest);
        lemma_read_expr(args[k], t, i);
        lemma_read_args(args, k + 1, t, i + re.len());
        assert(seq![args[k]] + args.subrange(k + 1, args.len() as int) =~= args.subrange(k, args.len() as int));
        if re.len() > 0 {
            lemma_at_index(t, i, re, 0);
        }
    } else {
        assert(args.subrange(k, args.len() as int) =~= Seq::<ExprModel>::empty());
    }
}

proof fn lemma_read_params(ps: Seq<Seq<char>>, t: Toks, i: int)
    requires
        at(t, i, render_params(ps)),
        kind_at(t, i + ps.len()) == Some(TokenKind::CloseParen),
    ensures
        p_params(t, i) == Ok::<(Seq<Seq<char>>, int), ErrorModel>((ps, i + ps.len())),
    decreases ps.len(),
{
    if ps.len() > 0 {
        let r = render_params(ps);
        lemma_at_index(t, i, r, 0);
        let tail = ps.drop_first();
        assert(r =~= seq![r[0]] + render_params(tail));
        lemma_at_split(t, i, seq![r[0]], render_params(tail));
        lemma_read_params(tail, t, i + 1);
        assert(seq![ps[0]] + tail =~= ps);
        assert(t[i].1 == ps[0]);
    } else {
        assert(ps =~= Seq::<Seq<char>>::empty());
        assert(render_params(ps).len() == 0);
    }
}

#[verifier::rlimit(100)]
proof fn lemma_read_expr(e: ExprModel, t: Toks, i: int)
    requires
        wf(e) || (dynamic_ok(e) && wf(e)),
        at(t, i, render(e)),
    ensures
        p_expr(t, i) == Ok::<(ExprModel, int), ErrorModel>((e, i + render(e).len())),
        e is Call ==> p_call(t, i) == Ok::<(ExprModel, int), ErrorModel>((e, i + render(e).len())),
        e is Cond ==> p_cond(t, i) == Ok::<(ExprModel, int), ErrorModel>((e, i + render(e).len())),
        render(e).len() > 0,
    decreases e, 1nat,
{
    let r = render(e);
    match e {
        ExprModel::Num(n) => {
            lemma_read_num(n, t, i);
            lemma_at_index(t, i, r, 0);
            match n {
                NumModel::Binary(op, _, _) => {
                    lemma_at_index(t, i, r, 1);
                },
                _ => {},
            }
        },
        ExprModel::Bool(b) => {
            lemma_read_bool(b, t, i);
            lemma_at_index(t, i, r, 0);
            match b {
                BoolModel::Literal(_) => {},
                _ => {
                    lemma_at_index(t, i, r, 1);
                },
            }
        },
        ExprModel::Cond(_) => {
            lemma_read_compound(e, t, i);
        },
        ExprModel::Function(_, _, _) => {
            lemma_read_compound(e, t, i);
        },
        ExprModel::Variable(name) => {
            lemma_at_index(t, i, r, 0);
        },
        ExprModel::Call(_, _) => {
            lemma_read_compound(e, t, i);
        },
    }
}

#[verifier::rlimit(100)]
proof fn lemma_read_compound(e: ExprModel, t: Toks, i: int)
    requires
        e is Cond || e is Function || e is Call,
        wf(e),
        at(t, i, render(e)),
    ensures
        p_expr(t, i) == Ok::<(ExprModel, int), ErrorModel>((e, i + render(e).len())),
        e is Call ==> p_call(t, i) == Ok::<(ExprModel, int), ErrorModel>((e, i + render(e).len())),
        e is Cond ==> p_cond(t, i) == Ok::<(ExprModel, int), ErrorModel>((e, i + render(e).len())),
    decreases e, 0nat,
{
    let r = render(e);
    match e {
        ExprModel::Cond(cs) => {
            let a = seq![open_tok(), (TokenKind::Cond, "cond"@)];
            let rc = render_cases(cs, 0);
            lemma_at_split(t, i, a + rc, seq![close_tok()]);
            lemma_at_split(t, i, a, rc);
            lemma_at_index(t, i, r, 0);
            lemma_at_index(t, i, r, 1);
            lemma_at_index(t, i + a.len() + rc.len(), seq![close_tok()], 0);
            lemma_read_cases(cs, 0, t, i + 2);
            assert(cs.subrange(0, cs.len() as int) =~= cs);
            lemma_at_index(t, i, r, 2);
        },
        ExprModel::Function(name, ps, body) => {
            let a = seq![open_tok(), (TokenKind::Define, "define"@), open_tok(), (TokenKind::Identifier, name)];
            let rp = render_params(ps);
            let rb = render(*body);
            lemma_at_split(t, i, a + rp + seq![close_tok()] + rb, seq![close_tok()]);
            lemma_at_split(t, i, a + rp + seq![close_tok()], rb);
            lemma_at_split(t, i, a + rp, seq![close_tok()]);
            lemma_at_split(t, i, a, rp);
            lemma_at_index(t, i, r, 0);
            lemma_at_index(t, i, r, 1);
            lemma_at_index(t, i, r, 2);
            lemma_at_index(t, i, r, 3);
            lemma_at_index(t, i + 4 + rp.len(), seq![close_tok()], 0);
            lemma_read_params(ps, t, i + 4);
            lemma_read_expr(*body, t, i + 4 + rp.len() + 1);
            lemma_at_index(t, i + 4 + rp.len() + 1 + rb.len(), seq![close_tok()], 0);
        },
        ExprModel::Call(name, args) => {
            let a = seq![open_tok(), (TokenKind::Identifier, name)];
            let ra = render_args(args, 0);
            lemma_at_split(t, i, a + ra, seq![close_tok()]);
            lemma_at_split(t, i, a, ra);
            lemma_at_index(t, i, r, 0);
            lemma_at_index(t, i, r, 1);
            lemma_at_index(t, i + a.len() + ra.len(), seq![close_tok()], 0);
            lemma_read_args(args, 0, t, i + 2);
            assert(args.subrange(0, args.len() as int) =~= args);
        },
        _ => {},
    }
}


proof fn lemma_wf_cases_shift(c: (BoolModel, ExprModel), rest: Seq<(BoolModel, ExprModel)>, k: int)
    requires
        0 <= k <= rest.len(),
    ensures
        wf_cases(seq![c] + rest, k + 1) == wf_cases(rest, k),
    decreases rest.len() - k,
{
    if k < rest.len() {
        lemma_wf_cases_shift(c, rest, k + 1);
        assert((seq![c] + rest)[k + 1] == rest[k]);
    }
}

proof fn lemma_wf_args_shift(a: ExprModel, rest: Seq<ExprModel>, k: int)
    requires
        0 <= k <= rest.len(),
    ensures
        wf_args(seq![a] + rest, k + 1) == wf_args(rest, k),
    decreases rest.len() - k,
{
    if k < rest.len() {
        lemma_wf_args_shift(a, rest, k + 1);
        assert((seq![a] + rest)[k + 1] == rest[k]);
    }
}

proof fn lemma_parsed_num_wf(t: Toks, i: int)
    ensures
        p_num(t, i) matches Ok((n, j)) ==> wf_num(n),
    decreases t.len() - i, 3nat,
{
    if 0 <= i < t.len() && t[i].0 == TokenKind::Identifier {
        assert(wf(ExprModel::Variable(t[i].1)));
        assert(dynamic_ok(ExprModel::Variable(t[i].1)));
    }
    if 0 <= i < t.len() && t[i].0 == TokenKind::OpenParen {
        match kind_at(t, i + 1) {
            Some(k1) => {
                if k1 == TokenKind::Identifier {
                    lemma_parsed_call_wf(t, i);
                } else if k1 == TokenKind::Cond {
                    lemma_parsed_cond_wf(t, i);
                } else if is_num_op(k1) {
                    lemma_parsed_num_wf(t, i + 2);
                    match p_num(t, i + 2) {
                        Ok((l, j)) => if i < j <= t.len() {
                            lemma_parsed_num_wf(t, j);
                        },
                        Err(_) => {},
                    }
                }
            },
            None => {},
        }
    }
}

proof fn lemma_parsed_bool_wf(t: Toks, i: int)
    ensures
        p_bool(t, i) matches Ok((b, j)) ==> wf_bool(b),
    decreases t.len() - i, 3nat,
{
    if 0 <= i < t.len() && t[i].0 == TokenKind::Identifier {
        assert(wf(ExprModel::Variable(t[i].1)));
        assert(dynamic_ok(ExprModel::Variable(t[i].1)));
    }
    if 0 <= i < t.len() && t[i].0 == TokenKind::OpenParen {
        match kind_at(t, i + 1) {
            Some(k1) => {
                if k1 == TokenKind::Identifier {
                    lemma_parsed_call_wf(t, i);
                } else if k1 == TokenKind::Cond {
                    lemma_parsed_cond_wf(t, i);
                } else if k1 == TokenKind::Ampersand || k1 == TokenKind::Pipe {
                    lemma_parsed_bool_wf(t, i + 2);
                    match p_bool(t, i + 2) {
                        Ok((l, j)) => if i < j <= t.len() {
                            lemma_parsed_bool_wf(t, j);
                        },
                        Err(_) => {},
                    }
                } else if k1 == TokenKind::Bang {
                    lemma_parsed_bool_wf(t, i + 2);
                } else if is_cmp_op(k1) {
                    lemma_parsed_num_wf(t, i + 2);
                    match p_num(t, i + 2) {
                        Ok((l, j)) => if i < j <= t.len() {
                            lemma_parsed_num_wf(t, j);
                        },
                        Err(_) => {},
                    }
                }
            },
            None => {},
        }
    }
}

proof fn lemma_parsed_cond_wf(t: Toks, i: int)
    ensures
        p_cond(t, i) matches Ok((e, j)) ==> wf(e) && dynamic_ok(e),
    decreases t.len() - i, 2nat,
{
    if 0 <= i && i + 2 <= t.len() {
        lemma_parsed_cases_wf(t, i + 2);
    }
}

proof fn lemma_parsed_call_wf(t: Toks, i: int)
    ensures
        p_call(t, i) matches Ok((e, j)) ==> wf(e) && dynamic_ok(e),
    decreases t.len() - i, 2nat,
{
    if 0 <= i && i + 2 <= t.len() {
        lemma_parsed_args_wf(t, i + 2);
    }
}

proof fn lemma_parsed_function_wf(t: Toks, i: int)
    ensures
        p_function(t, i) matches Ok((e, j)) ==> wf(e),
    decreases t.len() - i, 2nat,
{
    if 0 <= i {
        match p_params(t, i + 4) {
            Ok((ps, j)) => if i + 4 <= j < t.len() {
                lemma_parsed_expr_wf(t, j + 1);
            },
            Err(_) => {},
        }
    }
}

proof fn lemma_parsed_case_wf(t: Toks, i: int)
    ensures
        p_case(t, i) matches Ok((c, j)) ==> wf_bool(c.0) && wf(c.1),
    decreases t.len() - i, 0nat,
{
    if 0 <= i && i + 1 <= t.len() {
        lemma_parsed_bool_wf(t, i + 1);
        match p_bool(t, i + 1) {
            Ok((c, j)) => if i < j <= t.len() {
                lemma_parsed_expr_wf(t, j);
            },
            Err(_) => {},
        }
    }
}

proof fn lemma_parsed_cases_wf(t: Toks, i: int)
    ensures
        p_cases(t, i) matches Ok((cs, j)) ==> wf_cases(cs, 0),
    decreases t.len() - i, 1nat,
{
    if 0 <= i < t.len() && t[i].0 != TokenKind::CloseParen {
        lemma_parsed_case_wf(t, i);
        match p_case(t, i) {
            Ok((c, j)) => if i < j <= t.len() {
                lemma_parsed_cases_wf(t, j);
                match p_cases(t, j) {
                    Ok((rest, m)) => {
                        lemma_wf_cases_shift(c, rest, 0);
                        assert((seq![c] + rest)[0] == c);
                    },
                    Err(_) => {},
                }
            },
            Err(_) => {},
        }
    }
}

proof fn lemma_parsed_args_wf(t: Toks, i: int)
    ensures
        p_args(t, i) matches Ok((args, j)) ==> wf_args(args, 0),
    decreases t.len() - i, 5nat,
{
    if 0 <= i < t.len() && t[i].0 != TokenKind::CloseParen {
        lemma_parsed_expr_wf(t, i);
        match p_expr(t, i) {
            Ok((e, j)) => if i < j <= t.len() {
                lemma_parsed_args_wf(t, j);
                match p_args(t, j) {
                    Ok((rest, m)) => {
                        lemma_wf_args_shift(e, rest, 0);
                        assert((seq![e] + rest)[0] == e);
                    },
                    Err(_) => {},
                }
            },
            Err(_) => {},
        }
    }
}

proof fn lemma_parsed_expr_wf(t: Toks, i: int)
    ensures
        p_expr(t, i) matches Ok((e, j)) ==> wf(e),
    decreases t.len() - i, 4nat,
{
    if 0 <= i < t.len() {
        let k = t[i].0;
        if k == TokenKind::Minus || k == TokenKind::Number {
            lemma_parsed_num_wf(t, i);
        } else if k == TokenKind::Boolean {
            lemma_parsed_bool_wf(t, i);
        } else if k == TokenKind::OpenParen {
            match kind_at(t, i + 1) {
                Some(k1) => {
                    if k1 == TokenKind::Cond {
                        lemma_parsed_cond_wf(t, i);
                    } else if k1 == TokenKind::Define {
                        lemma_parsed_function_wf(t, i);
                    } else if k1 == TokenKind::Identifier {
                        lemma_parsed_call_wf(t, i);
                    } else {
                        lemma_parsed_num_wf(t, i);
                        lemma_parsed_bool_wf(t, i);
                    }
                },
                None => {},
            }
        }
    }
}

/// Every expression that parsing a whole token sequence produces is well-formed.
pub proof fn lemma_parsed_is_wf(t: Toks)
    ensures
        p_whole(t) matches Ok(e) ==> wf(e),
{
    lemma_parsed_expr_wf(t, 0);
}

/// Tokens written out as text, each followed by one space.
pub open spec fn render_text(ts: Toks) -> Seq<char>
    decreases ts.len(),
{
    if ts.len() == 0 {
        Seq::empty()
    } else {
        ts[0].1 + seq![' '] + render_text(ts.drop_first())
    }
}

/// Whether a token's text, followed by a space, lexes back as that token: a run of
/// digits, a word of its kind, or a one-character delimiter or operator.
pub open spec fn lexes_alone(tok: (TokenKind, Seq<char>)) -> bool {
    let w = tok.1;
    w.len() > 0 && ((tok.0 == TokenKind::Number && forall|k: int| 0 <= k < w.len() ==> is_digit_spec(#[trigger] w[k]))
        || (is_word_start_spec(w[0]) && word_kind(w) == tok.0 && forall|k: int|
        0 <= k < w.len() ==> is_word_char_spec(#[trigger] w[k])) || (w.len() == 1 && punct_token(w[0]) == Some(tok)))
}

proof fn lemma_digit_run_to(s: Seq<char>, i: int, e: int)
    requires
        0 <= i <= e < s.len(),
        forall|k: int| i <= k < e ==> is_digit_spec(#[trigger] s[k]),
        !is_digit_spec(s[e]),
    ensures
        digit_run_end(s, i) == e,
    decreases e - i,
{
    if i < e {
        lemma_digit_run_to(s, i + 1, e);
    }
}

proof fn lemma_word_run_to(s: Seq<char>, i: int, e: int)
    requires
        0 <= i <= e < s.len(),
        forall|k: int| i <= k < e ==> is_word_char_spec(#[trigger] s[k]),
        !is_word_char_spec(s[e]),
    ensures
        word_run_end(s, i) == e,
    decreases e - i,
{
    if i < e {
        lemma_word_run_to(s, i + 1, e);
    }
}

proof fn lemma_token_alone(s: Seq<char>, i: int, tok: (TokenKind, Seq<char>))
    requires
        lexes_alone(tok),
        0 <= i,
        i + tok.1.len() < s.len(),
        s.subrange(i, i + tok.1.len()) == tok.1,
        s[i + tok.1.len()] == ' ',
    ensures
        token_at(s, i) == Ok::<((TokenKind, Seq<char>), int), ErrorModel>((tok, i + tok.1.len())),
        !is_whitespace_spec(s[i]),
{
    let w = tok.1;
    let e = i + w.len();
    assert(s[i] == w[0]);
    assert forall|k: int| i <= k < e implies s[k] == w[k - i] by {
        assert(s.subrange(i, e)[k - i] == s[k]);
    }
    if tok.0 == TokenKind::Number && forall|k: int| 0 <= k < w.len() ==> is_digit_spec(#[trigger] w[k]) {
        assert forall|k: int| i <= k < e implies is_digit_spec(#[trigger] s[k]) by {
            assert(s[k] == w[k - i]);
        }
        lemma_digit_run_to(s, i, e);
    } else if is_word_start_spec(w[0]) && word_kind(w) == tok.0 && forall|k: int|
        0 <= k < w.len() ==> is_word_char_spec(#[trigger] w[k]) {
        assert forall|k: int| i <= k < e implies is_word_char_spec(#[trigger] s[k]) by {
            assert(s[k] == w[k - i]);
        }
        lemma_word_run_to(s, i, e);
    } else {
        assert(w =~= seq![w[0]]);
    }
}

proof fn lemma_lex_rest(s: Seq<char>, i: int)
    requires
        0 <= i < s.len(),
        s[i] == ' ',
    ensures
        lex_from(s, i) == lex_from(s, i + 1),
{
    assert(skip_whitespace(s, i) == skip_whitespace(s, i + 1));
    if i + 1 < s.len() {
        lemma_skip_le(s, i + 1);
    }
}

proof fn lemma_skip_le(s: Seq<char>, i: int)
    requires
        0 <= i <= s.len(),
    ensures
        i <= skip_whitespace(s, i),
    decreases s.len() - i,
{
    if i < s.len() && is_whitespace_spec(s[i]) {
        lemma_skip_le(s, i + 1);
    }
}

proof fn lemma_lex_text(ts: Toks, s: Seq<char>, i: int)
    requires
        0 <= i <= s.len(),
        s.subrange(i, s.len() as int) == render_text(ts),
        forall|k: int| 0 <= k < ts.len() ==> lexes_alone(#[trigger] ts[k]),
    ensures
        lex_from(s, i) == Ok::<Toks, ErrorModel>(ts),
    decreases ts.len(),
{
    if ts.len() == 0 {
        assert(s.len() - i == 0);
        assert(ts =~= Seq::<(TokenKind, Seq<char>)>::empty());
        assert(skip_whitespace(s, i) == i);
    } else {
        let tok = ts[0];
        let w = tok.1;
        let rest = ts.drop_first();
        let e = i + w.len();
        assert(lexes_alone(ts[0]));
        assert(render_text(ts) == w + seq![' '] + render_text(rest));
        assert(s.subrange(i, e) =~= render_text(ts).subrange(0, w.len() as int));
        assert(render_text(ts).subrange(0, w.len() as int) =~= w);
        assert(s.subrange(i, s.len() as int)[w.len() as int] == s[e]);
        assert(s[e] == ' ');
        lemma_token_alone(s, i, tok);
        assert(s.subrange(e + 1, s.len() as int) =~= render_text(ts).subrange(w.len() + 1int, render_text(ts).len() as int));
        assert(render_text(ts).subrange(w.len() + 1int, render_text(ts).len() as int) =~= render_text(rest));
        assert forall|k: int| 0 <= k < rest.len() implies lexes_alone(#[trigger] rest[k]) by {
            assert(rest[k] == ts[k + 1]);
        }
        lemma_lex_text(rest, s, e + 1);
        lemma_lex_rest(s, e);
        assert(seq![tok] + rest =~= ts);
        assert(skip_whitespace(s, i) == i);
        assert(w.len() > 0);
        assert(lex_from(s, e) == Ok::<Toks, ErrorModel>(rest));
    }
}

/// Writing a well-formed expression out as text, each token followed by a space, and
/// parsing that text gives the same expression back, where each token of the writing
/// lexes back as itself (names are identifiers that are no keyword).
pub proof fn lemma_parse_text_round_trip(e: ExprModel)
    requires
        wf(e),
        forall|k: int| 0 <= k < render(e).len() ==> lexes_alone(#[trigger] render(e)[k]),
    ensures
        parse_spec(render_text(render(e))) == Ok::<ExprModel, ErrorModel>(e),
{
    let s = render_text(render(e));
    assert(s.subrange(0, s.len() as int) =~= s);
    lemma_lex_text(render(e), s, 0);
    lemma_parse_render_round_trip(e);
}

/// Writing a well-formed expression out as tokens and parsing those tokens gives the
/// same expression back.
pub proof fn lemma_parse_render_round_trip(e: ExprModel)
    requires
        wf(e),
    ensures
        p_whole(render(e)) == Ok::<ExprModel, ErrorModel>(e),
{
    let t = render(e);
    assert(t.subrange(0, t.len() as int) =~= t);
    lemma_read_expr(e, t, 0);
}

} // verus!
