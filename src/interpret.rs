use vstd::prelude::*;

use crate::ast::{
    bool_model, cases_model, expr_model, exprs_model, names_model, num_model, BinaryBoolOp, BinaryNumOp,
    Bool, BoolModel, CmpBoolOp, Cond, CondCase, Expr, ExprModel, FunctionCall, Num, NumModel,
};
use crate::error::{err_view, Error, ErrorModel};
use crate::interpret_variable::interpret_variable_expr;
use crate::parser::{p_expr, parse, parse_expr, parse_spec, Toks};
use crate::printer::{decimal, digit_char};
use crate::tokenizer::{lex, string_of_chars, string_to_tokens, tokens_view, TokenIter};

verus! {

/// A runtime value.
#[derive(PartialEq, Eq, Structural, Debug, Clone, Copy)]
pub enum Value {
    Num(i32),
    Bool(bool),
}

/// The canonical text of a value: the bare integer or the bare boolean.
pub open spec fn value_text(v: Value) -> Seq<char> {
    match v {
        Value::Num(n) => if n < 0 {
            seq!['-'] + decimal((-n) as nat)
        } else {
            decimal(n as nat)
        },
        Value::Bool(b) => if b {
            "true"@
        } else {
            "false"@
        },
    }
}

fn digit_of(d: u64) -> (r: char)
    requires
        d < 10,
    ensures
        r == digit_char(d as nat),
{
    if d == 0 { '0' } else if d == 1 { '1' } else if d == 2 { '2' } else if d == 3 { '3' } else if d == 4 {
        '4'
    } else if d == 5 { '5' } else if d == 6 { '6' } else if d == 7 { '7' } else if d == 8 { '8' } else { '9' }
}

impl Value {
    /// The canonical text of the value (`-5`, `42`, `true`).
    pub fn to_string(&self) -> (r: String)
        ensures
            r@ == value_text(*self),
    {
        match self {
            Value::Bool(b) => if *b {
                "true".to_owned()
            } else {
                "false".to_owned()
            },
            Value::Num(n) => {
                let neg = *n < 0;
                let m: u64 = if neg { (0i64 - *n as i64) as u64 } else { *n as u64 };
                let mut rest: u64 = m;
                let mut acc: Vec<char> = Vec::new();
                while rest >= 10
                    invariant
                        decimal(m as nat) == decimal(rest as nat) + acc@,
                    decreases rest,
                {
                    let d = digit_of(rest % 10);
                    proof {
                        assert(decimal(rest as nat) == decimal((rest / 10) as nat).push(digit_char((rest % 10) as nat)));
                        assert(decimal((rest / 10) as nat).push(d) + acc@ =~= decimal((rest / 10) as nat) + (seq![d] + acc@));
                    }
                    let ghost a0 = acc@;
                    acc.insert(0, d);
                    assert(acc@ =~= seq![d] + a0);
                    rest = rest / 10;
                }
                let d = digit_of(rest);
                let ghost a0 = acc@;
                acc.insert(0, d);
                assert(decimal(rest as nat) == seq![digit_char(rest as nat)]);
                assert(acc@ =~= decimal(m as nat));
                if neg {
                    let ghost a1 = acc@;
                    acc.insert(0, '-');
                    assert(acc@ =~= seq!['-'] + a1);
                }
                let r = string_of_chars(acc);
                r
            },
        }
    }
}

/// Variable bindings, innermost last: a name resolves to its most recent binding,
/// which makes scoping dynamic.
#[derive(Debug)]
pub struct VariableMap {
    bindings: Vec<(String, Value)>,
}

/// The binding stack, as (name, value) pairs, oldest first.
pub type BindingsModel = Seq<(Seq<char>, Value)>;

/// The most recent binding of `name`.
pub open spec fn lookup(vars: BindingsModel, name: Seq<char>) -> Option<Value>
    decreases vars.len(),
{
    if vars.len() == 0 {
        None
    } else if vars.last().0 == name {
        Some(vars.last().1)
    } else {
        lookup(vars.drop_last(), name)
    }
}

/// The bindings of one call: each parameter name with its argument value.
pub open spec fn frame(names: Seq<Seq<char>>, vals: Seq<Value>) -> BindingsModel {
    Seq::new(names.len(), |k: int| (names[k], vals[k]))
}

impl View for VariableMap {
    type V = BindingsModel;

    closed spec fn view(&self) -> BindingsModel {
        Seq::new(self.bindings@.len(), |k: int| (self.bindings@[k].0@, self.bindings@[k].1))
    }
}

impl VariableMap {
    /// No bindings.
    pub fn new() -> (r: Self)
        ensures
            r@ == Seq::<(Seq<char>, Value)>::empty(),
    {
        let r = VariableMap { bindings: Vec::new() };
        assert(r@ =~= Seq::<(Seq<char>, Value)>::empty());
        r
    }

    /// The number of bindings.
    pub fn len(&self) -> (r: usize)
        ensures
            r == self@.len(),
    {
        self.bindings.len()
    }

    /// Binds `name` to `value`, shadowing earlier bindings of the name.
    pub fn push(&mut self, name: String, value: Value)
        ensures
            final(self)@ == old(self)@.push((name@, value)),
    {
        self.bindings.push((name, value));
        assert(final(self)@ =~= old(self)@.push((name@, value)));
    }

    /// Drops the bindings after the first `n`.
    pub fn truncate(&mut self, n: usize)
        requires
            n <= old(self)@.len(),
        ensures
            final(self)@ == old(self)@.subrange(0, n as int),
    {
        self.bindings.truncate(n);
        assert(final(self)@ =~= old(self)@.subrange(0, n as int));
    }

    /// The most recent binding of `name`.
    pub fn lookup(&self, name: &String) -> (r: Option<Value>)
        ensures
            r == lookup(self@, name@),
    {
        let mut k: usize = self.bindings.len();
        assert(self@.subrange(0, k as int) =~= self@);
        while k > 0
            invariant
                k <= self@.len(),
                lookup(self@, name@) == lookup(self@.subrange(0, k as int), name@),
            decreases k,
        {
            let ghost prefix = self@.subrange(0, k as int);
            assert(prefix.drop_last() =~= self@.subrange(0, k - 1));
            if self.bindings[k - 1].0 == *name {
                return Some(self.bindings[k - 1].1);
            }
            k = k - 1;
        }
        assert(self@.subrange(0, 0).len() == 0);
        None
    }
}

/// A defined function: its parameter names and its body.
#[derive(Debug)]
pub struct FunctionInfo {
    pub parameter_names: Vec<String>,
    pub body: Expr,
}

/// The function table, in order of definition; a name resolves to its latest definition.
#[derive(Debug)]
pub struct FunctionMap {
    entries: Vec<(String, FunctionInfo)>,
}

/// A function definition as (name, parameter names, body).
pub type FunctionModel = (Seq<char>, Seq<Seq<char>>, ExprModel);

impl View for FunctionMap {
    type V = Seq<FunctionModel>;

    closed spec fn view(&self) -> Seq<FunctionModel> {
        Seq::new(
            self.entries@.len(),
            |k: int|
                (
                    self.entries@[k].0@,
                    names_model(self.entries@[k].1.parameter_names@),
                    expr_model(self.entries@[k].1.body),
                ),
        )
    }
}

/// The latest definition of `name`.
pub open spec fn find_function(funcs: Seq<FunctionModel>, name: Seq<char>) -> Option<FunctionModel>
    decreases funcs.len(),
{
    if funcs.len() == 0 {
        None
    } else if funcs.last().0 == name {
        Some(funcs.last())
    } else {
        find_function(funcs.drop_last(), name)
    }
}

impl FunctionMap {
    /// No functions.
    pub fn new() -> (r: Self)
        ensures
            r@ == Seq::<FunctionModel>::empty(),
    {
        let r = FunctionMap { entries: Vec::new() };
        assert(r@ =~= Seq::<FunctionModel>::empty());
        r
    }

    /// Adds a definition; it takes precedence over earlier ones of the same name.
    pub fn define(&mut self, name: String, info: FunctionInfo)
        ensures
            final(self)@ == old(self)@.push(
                (name@, names_model(info.parameter_names@), expr_model(info.body)),
            ),
    {
        let ghost f = (name@, names_model(info.parameter_names@), expr_model(info.body));
        self.entries.push((name, info));
        assert(final(self)@ =~= old(self)@.push(f));
    }

    /// The latest definition of `name`.
    pub fn get(&self, name: &String) -> (r: Option<&FunctionInfo>)
        ensures
            match find_function(self@, name@) {
                Some(f) => r matches Some(info) && f.1 == names_model(info.parameter_names@)
                    && f.2 == expr_model(info.body) && f.0 == name@,
                None => r is None,
            },
    {
        let mut k: usize = self.entries.len();
        assert(self@.subrange(0, k as int) =~= self@);
        while k > 0
            invariant
                k <= self@.len(),
                find_function(self@, name@) == find_function(self@.subrange(0, k as int), name@),
            decreases k,
        {
            let ghost prefix = self@.subrange(0, k as int);
            assert(prefix.drop_last() =~= self@.subrange(0, k - 1));
            if self.entries[k - 1].0 == *name {
                return Some(&self.entries[k - 1].1);
            }
            k = k - 1;
        }
        assert(self@.subrange(0, 0).len() == 0);
        None
    }
}

/// The environment: variable bindings and the function table.
#[derive(Debug)]
pub struct Environment {
    pub variable_map: VariableMap,
    pub functions: FunctionMap,
}

/// The call-nesting budget of the entry points: as large as a `u64` allows, so that in
/// practice only the host stack bounds recursion.
pub const MAX_CALL_DEPTH: u64 = 0xffff_ffff_ffff_ffff;

/// An arithmetic operation on 32-bit integers; a zero divisor or a result outside
/// the 32-bit range is an `ArithmeticError`. Division truncates toward zero, and the
/// remainder takes the sign of the dividend (any remainder by -1 is 0).
pub open spec fn num_binop(op: BinaryNumOp, a: i32, b: i32) -> Result<i32, ErrorModel> {
    let r = match op {
        BinaryNumOp::Add => a.checked_add(b),
        BinaryNumOp::Sub => a.checked_sub(b),
        BinaryNumOp::Mul => a.checked_mul(b),
        BinaryNumOp::Div => a.checked_div(b),
        BinaryNumOp::Mod => if b == -1 {
            Some(0i32)
        } else {
            a.checked_rem(b)
        },
    };
    match r {
        Some(v) => Ok(v),
        None => Err(ErrorModel::ArithmeticError),
    }
}

pub open spec fn bool_binop(op: BinaryBoolOp, a: bool, b: bool) -> bool {
    match op {
        BinaryBoolOp::And => a && b,
        BinaryBoolOp::Or => a || b,
    }
}

pub open spec fn cmp_op(op: CmpBoolOp, a: i32, b: i32) -> bool {
    match op {
        CmpBoolOp::Lt => a < b,
        CmpBoolOp::Eq => a == b,
        CmpBoolOp::Gt => a > b,
    }
}

/// The value of an expression under `vars` and `funcs`, with `depth` further nested calls allowed.
pub open spec fn eval(e: ExprModel, vars: BindingsModel, funcs: Seq<FunctionModel>, depth: nat) -> Result<
    Value,
    ErrorModel,
>
    decreases depth, e, 0nat,
{
    match e {
        ExprModel::Num(n) => match eval_num(n, vars, funcs, depth) {
            Ok(v) => Ok(Value::Num(v)),
            Err(err) => Err(err),
        },
        ExprModel::Bool(b) => match eval_bool(b, vars, funcs, depth) {
            Ok(v) => Ok(Value::Bool(v)),
            Err(err) => Err(err),
        },
        ExprModel::Cond(cs) => eval_cases(cs, 0, vars, funcs, depth),
        ExprModel::Function(_, _, _) => Err(ErrorModel::InternalError),
        ExprModel::Variable(name) => match lookup(vars, name) {
            Some(v) => Ok(v),
            None => Err(ErrorModel::UnboundNameError(name)),
        },
        ExprModel::Call(name, args) => match eval_args(args, 0, vars, funcs, depth) {
            Ok(vals) => match find_function(funcs, name) {
                Some(f) => if f.1.len() != vals.len() {
                    Err(ErrorModel::ArityError)
                } else if depth == 0 {
                    Err(ErrorModel::DepthError)
                } else {
                    eval(f.2, vars + frame(f.1, vals), funcs, (depth - 1) as nat)
                },
                None => Err(ErrorModel::UnboundNameError(name)),
            },
            Err(err) => Err(err),
        },
    }
}

/// The value of a numeric expression.
pub open spec fn eval_num(n: NumModel, vars: BindingsModel, funcs: Seq<FunctionModel>, depth: nat) -> Result<
    i32,
    ErrorModel,
>
    decreases depth, n, 0nat,
{
    match n {
        NumModel::Literal(v) => Ok(v),
        NumModel::Binary(op, l, r) => match eval_num(*l, vars, funcs, depth) {
            Ok(a) => match eval_num(*r, vars, funcs, depth) {
                Ok(b) => num_binop(op, a, b),
                Err(err) => Err(err),
            },
            Err(err) => Err(err),
        },
        NumModel::Dynamic(e) => match eval(*e, vars, funcs, depth) {
            Ok(Value::Num(v)) => Ok(v),
            Ok(Value::Bool(_)) => Err(ErrorModel::TypeError),
            Err(err) => Err(err),
        },
    }
}

/// The value of a boolean expression; both operands of `&` and `|` are evaluated.
pub open spec fn eval_bool(b: BoolModel, vars: BindingsModel, funcs: Seq<FunctionModel>, depth: nat) -> Result<
    bool,
    ErrorModel,
>
    decreases depth, b, 0nat,
{
    match b {
        BoolModel::Literal(v) => Ok(v),
        BoolModel::Binary(op, l, r) => match eval_bool(*l, vars, funcs, depth) {
            Ok(a) => match eval_bool(*r, vars, funcs, depth) {
                Ok(c) => Ok(bool_binop(op, a, c)),
                Err(err) => Err(err),
            },
            Err(err) => Err(err),
        },
        BoolModel::Unary(_, v) => match eval_bool(*v, vars, funcs, depth) {
            Ok(a) => Ok(!a),
            Err(err) => Err(err),
        },
        BoolModel::Cmp(op, l, r) => match eval_num(*l, vars, funcs, depth) {
            Ok(a) => match eval_num(*r, vars, funcs, depth) {
                Ok(c) => Ok(cmp_op(op, a, c)),
                Err(err) => Err(err),
            },
            Err(err) => Err(err),
        },
        BoolModel::Dynamic(e) => match eval(*e, vars, funcs, depth) {
            Ok(Value::Bool(v)) => Ok(v),
            Ok(Value::Num(_)) => Err(ErrorModel::TypeError),
            Err(err) => Err(err),
        },
    }
}

/// The result of the first case from index `k` on whose condition holds.
pub open spec fn eval_cases(
    cs: Seq<(BoolModel, ExprModel)>,
    k: int,
    vars: BindingsModel,
    funcs: Seq<FunctionModel>,
    depth: nat,
) -> Result<Value, ErrorModel>
    decreases depth, cs, cs.len() - k,
{
    if 0 <= k < cs.len() {
        match eval_bool(cs[k].0, vars, funcs, depth) {
            Ok(true) => eval(cs[k].1, vars, funcs, depth),
            Ok(false) => eval_cases(cs, k + 1, vars, funcs, depth),
            Err(err) => Err(err),
        }
    } else {
        Err(ErrorModel::NoMatchingCaseError)
    }
}

/// The values of the arguments from index `k` on, left to right.
pub open spec fn eval_args(
    args: Seq<ExprModel>,
    k: int,
    vars: BindingsModel,
    funcs: Seq<FunctionModel>,
    depth: nat,
) -> Result<Seq<Value>, ErrorModel>
    decreases depth, args, args.len() - k,
{
    if 0 <= k < args.len() {
        match eval(args[k], vars, funcs, depth) {
            Ok(v) => match eval_args(args, k + 1, vars, funcs, depth) {
                Ok(rest) => Ok(seq![v] + rest),
                Err(err) => Err(err),
            },
            Err(err) => Err(err),
        }
    } else {
        Ok(Seq::empty())
    }
}


proof fn lemma_cases_model_index(cs: Seq<CondCase>, n: nat)
    requires
        n <= cs.len(),
    ensures
        cases_model(cs, n).len() == n,
        forall|k: int| 0 <= k < n ==> #[trigger] cases_model(cs, n)[k] == (bool_model(cs[k].condition), expr_model(cs[k].result)),
    decreases n,
{
    if n > 0 {
        lemma_cases_model_index(cs, (n - 1) as nat);
    }
}

proof fn lemma_exprs_model_index(es: Seq<Expr>, n: nat)
    requires
        n <= es.len(),
    ensures
        exprs_model(es, n).len() == n,
        forall|k: int| 0 <= k < n ==> #[trigger] exprs_model(es, n)[k] == expr_model(es[k]),
    decreases n,
{
    if n > 0 {
        lemma_exprs_model_index(es, (n - 1) as nat);
    }
}

/// Evaluates a numeric expression.
fn interpret_num_expr(n: &Num, vars: &mut VariableMap, funcs: &FunctionMap, depth: u64) -> (r: Result<i32, Error>)
    ensures
        final(vars)@ == old(vars)@,
        err_view(r) == eval_num(num_model(*n), old(vars)@, funcs@, depth as nat),
    decreases depth, n, 0nat,
{
    match n {
        Num::Literal(v) => Ok(*v),
        Num::Binary(b) => {
            let a = match interpret_num_expr(&b.left, vars, funcs, depth) {
                Ok(a) => a,
                Err(e) => return Err(e),
            };
            let c = match interpret_num_expr(&b.right, vars, funcs, depth) {
                Ok(c) => c,
                Err(e) => return Err(e),
            };
            let r = match b.op {
                BinaryNumOp::Add => a.checked_add(c),
                BinaryNumOp::Sub => a.checked_sub(c),
                BinaryNumOp::Mul => a.checked_mul(c),
                BinaryNumOp::Div => a.checked_div(c),
                BinaryNumOp::Mod => if c == -1 {
                    Some(0i32)
                } else {
                    a.checked_rem(c)
                },
            };
            match r {
                Some(v) => Ok(v),
                None => Err(Error::ArithmeticError),
            }
        },
        Num::Dynamic(e) => match interpret(e, vars, funcs, depth) {
            Ok(Value::Num(v)) => Ok(v),
            Ok(Value::Bool(_)) => Err(Error::TypeError),
            Err(err) => Err(err),
        },
    }
}

/// Evaluates a boolean expression.
fn interpret_bool_expr(b: &Bool, vars: &mut VariableMap, funcs: &FunctionMap, depth: u64) -> (r: Result<bool, Error>)
    ensures
        final(vars)@ == old(vars)@,
        err_view(r) == eval_bool(bool_model(*b), old(vars)@, funcs@, depth as nat),
    decreases depth, b, 0nat,
{
    match b {
        Bool::Literal(v) => Ok(*v),
        Bool::Binary(x) => {
            let a = match interpret_bool_expr(&x.left, vars, funcs, depth) {
                Ok(a) => a,
                Err(e) => return Err(e),
            };
            let c = match interpret_bool_expr(&x.right, vars, funcs, depth) {
                Ok(c) => c,
                Err(e) => return Err(e),
            };
            match x.op {
                BinaryBoolOp::And => Ok(a && c),
                BinaryBoolOp::Or => Ok(a || c),
            }
        },
        Bool::Unary(x) => match interpret_bool_expr(&x.value, vars, funcs, depth) {
            Ok(a) => Ok(!a),
            Err(e) => Err(e),
        },
        Bool::Cmp(x) => {
            let a = match interpret_num_expr(&x.left, vars, funcs, depth) {
                Ok(a) => a,
                Err(e) => return Err(e),
            };
            let c = match interpret_num_expr(&x.right, vars, funcs, depth) {
                Ok(c) => c,
                Err(e) => return Err(e),
            };
            match x.op {
                CmpBoolOp::Lt => Ok(a < c),
                CmpBoolOp::Eq => Ok(a == c),
                CmpBoolOp::Gt => Ok(a > c),
            }
        },
        Bool::Dynamic(e) => match interpret(e, vars, funcs, depth) {
            Ok(Value::Bool(v)) => Ok(v),
            Ok(Value::Num(_)) => Err(Error::TypeError),
            Err(err) => Err(err),
        },
    }
}

/// Evaluates a call: the arguments left to right, then the callee's body with one
/// binding per parameter pushed; the bindings are dropped again on every path.
fn interpret_function_call(call: &FunctionCall, vars: &mut VariableMap, funcs: &FunctionMap, depth: u64) -> (r: Result<Value, Error>)
    ensures
        final(vars)@ == old(vars)@,
        err_view(r) == eval(expr_model(Expr::FunctionCallExpr(*call)), old(vars)@, funcs@, depth as nat),
    decreases depth, call, 0nat,
{
    let ghost args = exprs_model(call.arguments@, call.arguments@.len());
    let ghost v0 = vars@;
    proof {
        lemma_exprs_model_index(call.arguments@, call.arguments@.len());
    }
    let mut vals: Vec<Value> = Vec::new();
    let mut k: usize = 0;
    while k < call.arguments.len()
        invariant
            vars@ == v0,
            v0 == old(vars)@,
            k <= call.arguments@.len(),
            args == exprs_model(call.arguments@, call.arguments@.len()),
            args.len() == call.arguments@.len(),
            forall|j: int| 0 <= j < args.len() ==> #[trigger] args[j] == expr_model(call.arguments@[j]),
            eval_args(args, 0, v0, funcs@, depth as nat) == match eval_args(args, k as int, v0, funcs@, depth as nat) {
                Ok(rest) => Ok(vals@ + rest),
                Err(e) => Err(e),
            },
        decreases call.arguments@.len() - k,
    {
        let v = match interpret(&call.arguments[k], vars, funcs, depth) {
            Ok(v) => v,
            Err(e) => return Err(e),
        };
        proof {
            match eval_args(args, k + 1, v0, funcs@, depth as nat) {
                Ok(rest) => {
                    assert(vals@ + (seq![v] + rest) =~= vals@.push(v) + rest);
                },
                Err(e) => {},
            }
        }
        vals.push(v);
        k = k + 1;
    }
    proof {
        assert(vals@ + Seq::<Value>::empty() =~= vals@);
    }
    let info = match funcs.get(&call.name) {
        Some(info) => info,
        None => return Err(Error::UnboundNameError(call.name.clone())),
    };
    if info.parameter_names.len() != vals.len() {
        return Err(Error::ArityError);
    }
    if depth == 0 {
        return Err(Error::DepthError);
    }
    let ghost names = names_model(info.parameter_names@);
    let base = vars.len();
    let mut j: usize = 0;
    while j < vals.len()
        invariant
            j <= vals@.len(),
            vals@.len() == info.parameter_names@.len(),
            names == names_model(info.parameter_names@),
            base == v0.len(),
            vars@ == v0 + frame(names.subrange(0, j as int), vals@.subrange(0, j as int)),
        decreases vals@.len() - j,
    {
        let name = info.parameter_names[j].clone();
        vars.push(name, vals[j]);
        assert(vars@ =~= v0 + frame(names.subrange(0, j + 1), vals@.subrange(0, j + 1)));
        j = j + 1;
    }
    proof {
        assert(names.subrange(0, j as int) =~= names);
        assert(vals@.subrange(0, j as int) =~= vals@);
    }
    let r = interpret(&info.body, vars, funcs, depth - 1);
    proof {
        assert(vars@.subrange(0, base as int) =~= v0);
    }
    vars.truncate(base);
    r
}


/// Evaluates a conditional: the result of the first case whose condition holds.
fn interpret_cond_expr(c: &Cond, variable_map: &mut VariableMap, function_map: &FunctionMap, depth: u64) -> (r: Result<Value, Error>)
    ensures
        final(variable_map)@ == old(variable_map)@,
        err_view(r) == eval(expr_model(Expr::CondExpr(*c)), old(variable_map)@, function_map@, depth as nat),
    decreases depth, c, 0nat,
{
    let ghost cs = cases_model(c.cases@, c.cases@.len());
    let ghost v0 = variable_map@;
    proof {
        lemma_cases_model_index(c.cases@, c.cases@.len());
    }
    let mut k: usize = 0;
    while k < c.cases.len()
        invariant
            variable_map@ == v0,
            v0 == old(variable_map)@,
            k <= c.cases@.len(),
            cs == cases_model(c.cases@, c.cases@.len()),
            cs.len() == c.cases@.len(),
            forall|j: int| 0 <= j < cs.len() ==> #[trigger] cs[j] == (bool_model(c.cases@[j].condition), expr_model(c.cases@[j].result)),
            eval_cases(cs, 0, v0, function_map@, depth as nat) == eval_cases(cs, k as int, v0, function_map@, depth as nat),
        decreases c.cases@.len() - k,
    {
        let case = &c.cases[k];
        match interpret_bool_expr(&case.condition, variable_map, function_map, depth) {
            Ok(true) => {
                return interpret(&case.result, variable_map, function_map, depth);
            },
            Ok(false) => {},
            Err(e) => {
                return Err(e);
            },
        }
        k = k + 1;
    }
    Err(Error::NoMatchingCaseError)
}

/// Evaluates an expression under the given bindings and function table, with `depth`
/// further nested calls allowed. The bindings are as they were when it returns.
pub fn interpret(expr: &Expr, variable_map: &mut VariableMap, function_map: &FunctionMap, depth: u64) -> (r: Result<Value, Error>)
    ensures
        final(variable_map)@ == old(variable_map)@,
        err_view(r) == eval(expr_model(*expr), old(variable_map)@, function_map@, depth as nat),
    decreases depth, expr, 1nat,
{
    match expr {
        Expr::NumExpr(x) => match interpret_num_expr(x, variable_map, function_map, depth) {
            Ok(v) => Ok(Value::Num(v)),
            Err(e) => Err(e),
        },
        Expr::BoolExpr(x) => match interpret_bool_expr(x, variable_map, function_map, depth) {
            Ok(v) => Ok(Value::Bool(v)),
            Err(e) => Err(e),
        },
        Expr::CondExpr(c) => interpret_cond_expr(c, variable_map, function_map, depth),
        Expr::VariableExpr(x) => interpret_variable_expr(x, variable_map),
        Expr::FunctionCallExpr(x) => interpret_function_call(x, variable_map, function_map, depth),
        Expr::FunctionExpr(_) => Err(Error::InternalError),
    }
}


/// The function definitions from token `i` to the end, in order; any other
/// top-level form is a `ParseError`.
pub open spec fn p_functions(t: Toks, i: int) -> Result<Seq<FunctionModel>, ErrorModel>
    decreases t.len() - i,
{
    if !(0 <= i < t.len()) {
        Ok(Seq::empty())
    } else {
        match p_expr(t, i) {
            Ok((ExprModel::Function(name, ps, body), j)) => if i < j <= t.len() {
                match p_functions(t, j) {
                    Ok(rest) => Ok(seq![(name, ps, *body)] + rest),
                    Err(e) => Err(e),
                }
            } else {
                Err(ErrorModel::ParseError)
            },
            Ok(_) => Err(ErrorModel::ParseError),
            Err(e) => Err(e),
        }
    }
}

/// The function table of a program's source text.
pub open spec fn functions_spec(src: Seq<char>) -> Result<Seq<FunctionModel>, ErrorModel> {
    match lex(src) {
        Ok(t) => p_functions(t, 0),
        Err(e) => Err(e),
    }
}

/// The value of a program: its functions are collected, a zero-parameter `main` must
/// be among them, and `(main)` is evaluated with no variables bound.
pub open spec fn program_result(src: Seq<char>) -> Result<Value, ErrorModel> {
    match functions_spec(src) {
        Ok(fs) => match find_function(fs, "main"@) {
            Some(f) => if f.1.len() != 0 {
                Err(ErrorModel::ParseError)
            } else {
                eval(ExprModel::Call("main"@, Seq::empty()), Seq::empty(), fs, MAX_CALL_DEPTH as nat)
            },
            None => Err(ErrorModel::ParseError),
        },
        Err(e) => Err(e),
    }
}

/// The value of a free-standing expression, with no variables and no functions.
pub open spec fn snippet_result(src: Seq<char>) -> Result<Value, ErrorModel> {
    match parse_spec(src) {
        Ok(e) => eval(e, Seq::empty(), Seq::empty(), MAX_CALL_DEPTH as nat),
        Err(e) => Err(e),
    }
}

proof fn lemma_cases_from(
    cs: Seq<(BoolModel, ExprModel)>,
    j: int,
    k: int,
    vars: BindingsModel,
    funcs: Seq<FunctionModel>,
    depth: nat,
)
    requires
        0 <= j <= k < cs.len(),
        forall|m: int| j <= m < k ==> eval_bool(#[trigger] cs[m].0, vars, funcs, depth) == Ok::<bool, ErrorModel>(false),
        eval_bool(cs[k].0, vars, funcs, depth) == Ok::<bool, ErrorModel>(true),
    ensures
        eval_cases(cs, j, vars, funcs, depth) == eval(cs[k].1, vars, funcs, depth),
    decreases k - j,
{
    if j < k {
        lemma_cases_from(cs, j + 1, k, vars, funcs, depth);
    }
}

/// A conditional takes the result of its first case whose condition holds: when the
/// conditions before case `k` are false and that of case `k` is true, the later
/// cases play no part.
pub proof fn lemma_first_true_case_wins(
    cs: Seq<(BoolModel, ExprModel)>,
    k: int,
    vars: BindingsModel,
    funcs: Seq<FunctionModel>,
    depth: nat,
)
    requires
        0 <= k < cs.len(),
        forall|m: int| 0 <= m < k ==> eval_bool(#[trigger] cs[m].0, vars, funcs, depth) == Ok::<bool, ErrorModel>(false),
        eval_bool(cs[k].0, vars, funcs, depth) == Ok::<bool, ErrorModel>(true),
    ensures
        eval(ExprModel::Cond(cs), vars, funcs, depth) == eval(cs[k].1, vars, funcs, depth),
{
    lemma_cases_from(cs, 0, k, vars, funcs, depth);
}

/// Collects the function definitions of a source text.
fn parse_functions(program: String) -> (r: Result<FunctionMap, Error>)
    ensures
        match functions_spec(program@) {
            Ok(fs) => (r matches Ok(m) && m@ == fs),
            Err(e) => (r matches Err(e2) && e2@ == e),
        },
{
    let ghost src = program@;
    let tokens = match string_to_tokens(program) {
        Ok(t) => t,
        Err(e) => return Err(e),
    };
    let ghost t = tokens_view(tokens@);
    assert(functions_spec(src) == p_functions(t, 0));
    let mut it = TokenIter::new(&tokens);
    let mut function_map = FunctionMap::new();
    while it.position() < it.token_count()
        invariant
            it.wf(),
            it.tokens() == tokens@,
            t == tokens_view(tokens@),
            src == program@,
            functions_spec(src) == p_functions(t, 0),
            p_functions(t, 0) == match p_functions(t, it.pos() as int) {
                Ok(rest) => Ok(function_map@ + rest),
                Err(e) => Err(e),
            },
        decreases t.len() - it.pos(),
    {
        let ghost i = it.pos() as int;
        let start = it.position();
        match parse_expr(&mut it) {
            Ok(Expr::FunctionExpr(f)) => {
                if !(start < it.position() && it.position() <= it.token_count()) {
                    return Err(Error::ParseError);
                }
                let ghost fm = (f.name@, names_model(f.parameter_names@), expr_model(*f.body));
                proof {
                    match p_functions(t, it.pos() as int) {
                        Ok(rest) => {
                            assert(function_map@ + (seq![fm] + rest) =~= function_map@.push(fm) + rest);
                        },
                        Err(e) => {},
                    }
                }
                function_map.define(f.name, FunctionInfo { parameter_names: f.parameter_names, body: *f.body });
            },
            Ok(_) => {
                return Err(Error::ParseError);
            },
            Err(e) => {
                return Err(e);
            },
        }
    }
    proof {
        assert(function_map@ + Seq::<FunctionModel>::empty() =~= function_map@);
    }
    Ok(function_map)
}

/// Runs a program: collects its function definitions, then evaluates `(main)`.
/// A program without a zero-parameter `main` is a `ParseError`.
pub fn interpret_program(program: String) -> (r: Result<Value, Error>)
    ensures
        err_view(r) == program_result(program@),
{
    let function_map = match parse_functions(program) {
        Ok(m) => m,
        Err(e) => return Err(e),
    };
    let main_name = "main".to_owned();
    match function_map.get(&main_name) {
        Some(info) => {
            if info.parameter_names.len() != 0 {
                return Err(Error::ParseError);
            }
        },
        None => {
            return Err(Error::ParseError);
        },
    }
    let call = Expr::FunctionCallExpr(FunctionCall { name: main_name, arguments: Vec::new() });
    proof {
        assert(exprs_model(Seq::<Expr>::empty(), 0) =~= Seq::<ExprModel>::empty());
    }
    let mut variable_map = VariableMap::new();
    interpret(&call, &mut variable_map, &function_map, MAX_CALL_DEPTH)
}

/// Evaluates one free-standing expression with no variables and no functions.
pub fn interpret_program_snippet(program: String) -> (r: Result<Value, Error>)
    ensures
        err_view(r) == snippet_result(program@),
{
    let expr = match parse(program) {
        Ok(e) => e,
        Err(e) => return Err(e),
    };
    let mut variable_map = VariableMap::new();
    let function_map = FunctionMap::new();
    interpret(&expr, &mut variable_map, &function_map, MAX_CALL_DEPTH)
}

} // verus!
