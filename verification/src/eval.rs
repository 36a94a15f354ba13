//! Runtime values and the evaluator.
//!
//! Evaluation takes an expression and a mutable environment to a value,
//! dispatching the special forms `if`, `define`, `lambda` and `fn`
//! structurally and everything else as a function call. Recursion depth is
//! bounded: nesting deeper than `DEFAULT_FUEL` reports `DefaultError`
//! instead of exhausting the host stack.

use vstd::prelude::*;
use vstd::string::*;

use crate::env::{Builtin, LispEnv};
use crate::exp::{exp_text, exp_view, exps_view, ExpV, LispExp};
use crate::num::{num_text, num_to_string, push_char, LispNum};
use crate::utils::exceptions::{EvalError, EvErrV};

verus! {

/// Spec-level runtime value.
pub enum ValV {
    Bool(bool),
    Num(int),
    List(Seq<ValV>),
    SetVal(Seq<ValV>),
    Func(Builtin),
    Lambda { params: Seq<ExpV>, body: ExpV },
}

/// A user-defined callable: parameter-name expressions and a body.
#[derive(Debug)]
pub struct LispLambda {
    pub params: Vec<LispExp>,
    pub body: Box<LispExp>,
}

/// A runtime value: the result of evaluating an expression.
#[derive(Debug)]
pub enum LispEval {
    Bool(bool),
    Number(LispNum),
    List(Vec<LispEval>),
    SetVal(Vec<LispEval>),
    Func(Builtin),
    Lambda(LispLambda),
}

pub open spec fn val_view(v: LispEval) -> ValV
    decreases v,
{
    match v {
        LispEval::Bool(b) => ValV::Bool(b),
        LispEval::Number(n) => ValV::Num(n.mantissa as int),
        LispEval::List(items) => ValV::List(vals_view(items@)),
        LispEval::SetVal(items) => ValV::SetVal(vals_view(items@)),
        LispEval::Func(b) => ValV::Func(b),
        LispEval::Lambda(l) => ValV::Lambda {
            params: exps_view(l.params@),
            body: exp_view(*l.body),
        },
    }
}

/// The element-wise view of a sequence of values.
pub open spec fn vals_view(s: Seq<LispEval>) -> Seq<ValV>
    decreases s,
{
    Seq::new(
        s.len(),
        |i: int|
            if 0 <= i < s.len() {
                val_view(s[i])
            } else {
                ValV::Bool(false)
            },
    )
}

impl View for LispEval {
    type V = ValV;

    open spec fn view(&self) -> ValV {
        val_view(*self)
    }
}

/// The mathematical model of an environment: symbol names to values.
pub type EnvV = Map<Seq<char>, ValV>;

impl PartialEq for LispEval {
    /// Value equality: defined for booleans and numbers; everything else
    /// is equal to nothing.
    fn eq(&self, other: &Self) -> (r: bool) {
        crate::env::veq_exec(self, other)
    }
}

impl Eq for LispEval {

}

impl vstd::std_specs::cmp::PartialEqSpecImpl for LispEval {
    open spec fn obeys_eq_spec() -> bool {
        true
    }

    open spec fn eq_spec(&self, other: &Self) -> bool {
        crate::env::veq(self@, other@)
    }
}

/// A deep copy of a value, equal under the view.
pub fn clone_val(v: &LispEval) -> (r: LispEval)
    ensures
        r@ == v@,
    decreases *v, 0int, 0int,
{
    match v {
        LispEval::Bool(b) => LispEval::Bool(*b),
        LispEval::Number(n) => LispEval::Number(*n),
        LispEval::List(items) => LispEval::List(clone_vals(items)),
        LispEval::SetVal(items) => LispEval::SetVal(clone_vals(items)),
        LispEval::Func(b) => LispEval::Func(*b),
        LispEval::Lambda(l) => LispEval::Lambda(
            LispLambda {
                params: crate::exp::clone_exps(&l.params),
                body: Box::new(crate::exp::clone_exp(&l.body)),
            },
        ),
    }
}

/// A deep copy of a value sequence, equal element-wise under the view.
pub fn clone_vals(v: &Vec<LispEval>) -> (r: Vec<LispEval>)
    ensures
        vals_view(r@) == vals_view(v@),
        r@.len() == v@.len(),
    decreases v@, 1int, 0int,
{
    let n: usize = v.len();
    let mut out: Vec<LispEval> = Vec::new();
    let mut i: usize = 0;
    while i < n
        invariant
            i <= n,
            n == v@.len(),
            out@.len() == i,
            forall|j: int| 0 <= j < i ==> val_view(#[trigger] out@[j]) == val_view(v@[j]),
        decreases n - i,
    {
        let c: LispEval = clone_val(&v[i]);
        out.push(c);
        i += 1;
    }
    assert(vals_view(out@) =~= vals_view(v@));
    out
}

// ---------------------------------------------------------------------------
// Rendering values.
// ---------------------------------------------------------------------------

/// Text of one value: lists print between parentheses, sets between curly
/// brackets in their stored order, and callables print as `<function>`.
pub open spec fn val_text(v: ValV) -> Seq<char>
    decreases v, 0int, 0int,
{
    match v {
        ValV::Bool(b) => if b {
            "true"@
        } else {
            "false"@
        },
        ValV::Num(m) => num_text(m),
        ValV::List(items) => seq!['('] + val_list_text(items) + seq![')'],
        ValV::SetVal(items) => seq!['{'] + val_list_text(items) + seq!['}'],
        ValV::Func(_) => "<function>"@,
        ValV::Lambda { .. } => "<function>"@,
    }
}

pub open spec fn val_list_text(l: Seq<ValV>) -> Seq<char>
    decreases l, 1int, l.len(),
{
    if l.len() == 0 {
        Seq::<char>::empty()
    } else if l.len() == 1 {
        val_text(l[0])
    } else {
        val_text(l[0]) + seq![' '] + val_list_text(l.subrange(1, l.len() as int))
    }
}

impl LispEval {
    /// Renders the value the way results are printed.
    pub fn to_text(&self) -> (s: String)
        ensures
            s@ == val_text(self@),
        decreases *self, 0int, 0int,
    {
        match self {
            LispEval::Bool(b) => {
                if *b {
                    String::from_str("true")
                } else {
                    String::from_str("false")
                }
            },
            LispEval::Number(n) => num_to_string(*n),
            LispEval::List(items) => {
                let body: String = val_list_string(items, 0);
                let mut out: String = String::from_str("(");
                proof {
                    reveal_strlit("(");
                    reveal_strlit(")");
                }
                out.append(body.as_str());
                out.append(")");
                proof {
                    assert(vals_view(items@).subrange(0, vals_view(items@).len() as int)
                        =~= vals_view(items@));
                    assert(out@ =~= seq!['('] + val_list_text(vals_view(items@)) + seq![')']);
                }
                out
            },
            LispEval::SetVal(items) => {
                let body: String = val_list_string(items, 0);
                let mut out: String = String::from_str("{");
                proof {
                    reveal_strlit("{");
                    reveal_strlit("}");
                }
                out.append(body.as_str());
                out.append("}");
                proof {
                    assert(vals_view(items@).subrange(0, vals_view(items@).len() as int)
                        =~= vals_view(items@));
                    assert(out@ =~= seq!['{'] + val_list_text(vals_view(items@)) + seq!['}']);
                }
                out
            },
            LispEval::Func(_) => String::from_str("<function>"),
            LispEval::Lambda(_) => String::from_str("<function>"),
        }
    }
}

fn val_list_string(v: &Vec<LispEval>, i: usize) -> (s: String)
    requires
        i <= v@.len(),
    ensures
        s@ == val_list_text(vals_view(v@).subrange(i as int, v@.len() as int)),
    decreases v@, 1int, v@.len() - i,
{
    let n: usize = v.len();
    let ghost suffix: Seq<ValV> = vals_view(v@).subrange(i as int, v@.len() as int);
    if i >= n {
        let s: String = String::new();
        assert(s@ =~= val_list_text(suffix));
        s
    } else if i + 1 == n {
        let s: String = v[i].to_text();
        assert(suffix[0] == val_view(v@[i as int]));
        s
    } else {
        let mut s: String = v[i].to_text();
        push_char(&mut s, ' ');
        let tail: String = val_list_string(v, i + 1);
        let out: String = s.concat(tail.as_str());
        proof {
            assert(suffix[0] == val_view(v@[i as int]));
            assert(suffix.subrange(1, suffix.len() as int) =~= vals_view(v@).subrange(
                i + 1 as int,
                v@.len() as int,
            ));
            assert(out@ =~= val_text(suffix[0]) + seq![' '] + val_list_text(
                suffix.subrange(1, suffix.len() as int),
            ));
        }
        out
    }
}

// ---------------------------------------------------------------------------
// The evaluator.
//
// The spec functions below are the mathematical definition of evaluation;
// the executable functions mirror them one case at a time. A fuel counter
// bounds the depth of nested evaluation: every re-entry into `eval_s`
// spends one unit, and running out reports `DefaultError`.
// ---------------------------------------------------------------------------

/// What evaluation yields: the result, and the environment afterwards
/// (bindings made before an error persist).
pub type EvalR = (Result<ValV, EvErrV>, EnvV);

pub open spec fn eval_s(e: ExpV, env: EnvV, fuel: nat) -> EvalR
    decreases fuel, 4int, 0int,
{
    if fuel == 0 {
        (Err(EvErrV::DefaultError), env)
    } else {
        match e {
            ExpV::Bool(b) => (Ok(ValV::Bool(b)), env),
            ExpV::Num(m) => (Ok(ValV::Num(m)), env),
            ExpV::Sym(s) => if env.contains_key(s) {
                (Ok(env[s]), env)
            } else {
                (Err(EvErrV::UnknownSymbol(s)), env)
            },
            ExpV::List(items) => eval_list_s(items, env, fuel),
        }
    }
}

/// A list form: an empty list is invalid; a list-headed form evaluates
/// the head, discards it, and evaluates the tail as if it were the whole
/// call; a symbol-headed form dispatches on the symbol.
pub open spec fn eval_list_s(items: Seq<ExpV>, env: EnvV, fuel: nat) -> EvalR
    decreases fuel, 3int, 0int,
    when fuel >= 1
{
    if items.len() == 0 {
        (Err(EvErrV::InvalidListExpression), env)
    } else {
        match items[0] {
            ExpV::List(first) => {
                let r1 = eval_s(ExpV::List(first), env, (fuel - 1) as nat);
                match r1.0 {
                    Ok(_) => eval_s(ExpV::List(items.drop_first()), r1.1, (fuel - 1) as nat),
                    Err(e) => (Err(e), r1.1),
                }
            },
            ExpV::Sym(s) => eval_symbol_s(s, items.drop_first(), env, fuel),
            _ => (Err(EvErrV::InvalidListExpression), env),
        }
    }
}

/// Dispatch on the head symbol: the special forms `if`, `define`,
/// `lambda` and `fn`, or an ordinary function call.
pub open spec fn eval_symbol_s(s: Seq<char>, args: Seq<ExpV>, env: EnvV, fuel: nat) -> EvalR
    decreases fuel, 2int, 0int,
    when fuel >= 1
{
    if s == "if"@ {
        if_s(args, env, fuel)
    } else if s == "define"@ {
        define_s(args, env, fuel)
    } else if s == "lambda"@ {
        lambda_s(args, env)
    } else if s == "fn"@ {
        fn_s(args, env)
    } else {
        call_s(s, args, env, fuel)
    }
}

/// `if` wants exactly three arguments; the condition must evaluate to a
/// boolean, and only the selected branch is evaluated.
pub open spec fn if_s(args: Seq<ExpV>, env: EnvV, fuel: nat) -> EvalR
    decreases fuel, 1int, 0int,
    when fuel >= 1
{
    if args.len() != 3 {
        (Err(EvErrV::InvalidNumberOfArguments), env)
    } else {
        let r0 = eval_s(args[0], env, (fuel - 1) as nat);
        match r0.0 {
            Ok(v) => match v {
                ValV::Bool(b) => if b {
                    eval_s(args[1], r0.1, (fuel - 1) as nat)
                } else {
                    eval_s(args[2], r0.1, (fuel - 1) as nat)
                },
                _ => (Err(EvErrV::InvalidIfStatement), r0.1),
            },
            Err(e) => (Err(e), r0.1),
        }
    }
}

/// `define` binds the rendered first argument to the value of the second
/// in the current environment and returns the value.
pub open spec fn define_s(args: Seq<ExpV>, env: EnvV, fuel: nat) -> EvalR
    decreases fuel, 1int, 0int,
    when fuel >= 1
{
    if args.len() != 2 {
        (Err(EvErrV::InvalidNumberOfArguments), env)
    } else {
        let r1 = eval_s(args[1], env, (fuel - 1) as nat);
        match r1.0 {
            Ok(v) => (Ok(v), r1.1.insert(exp_text(args[0]), v)),
            Err(e) => (Err(e), r1.1),
        }
    }
}

/// `lambda` builds an anonymous callable from parameter names and a body.
pub open spec fn lambda_s(args: Seq<ExpV>, env: EnvV) -> EvalR {
    if args.len() < 2 {
        (Err(EvErrV::InvalidNumberOfArguments), env)
    } else {
        (Ok(ValV::Lambda { params: args.take(args.len() - 1), body: args.last() }), env)
    }
}

/// `fn` builds a callable and binds it under the rendered first argument;
/// it returns `true`.
pub open spec fn fn_s(args: Seq<ExpV>, env: EnvV) -> EvalR {
    if args.len() < 3 {
        (Err(EvErrV::InvalidNumberOfArguments), env)
    } else {
        let lam = ValV::Lambda {
            params: args.subrange(1, args.len() - 1),
            body: args.last(),
        };
        (Ok(ValV::Bool(true)), env.insert(exp_text(args[0]), lam))
    }
}

/// Binds parameter names positionally to evaluated arguments, in order.
pub open spec fn bind_params_s(params: Seq<ExpV>, vals: Seq<ValV>, env: EnvV) -> EnvV
    decreases params.len(),
{
    if params.len() == 0 {
        env
    } else {
        bind_params_s(params.drop_last(), vals, env).insert(
            exp_text(params.last()),
            vals[params.len() - 1],
        )
    }
}

/// Evaluates the argument expressions left to right in the current
/// environment; the first error aborts.
pub open spec fn eval_args_s(args: Seq<ExpV>, env: EnvV, fuel: nat) -> (Result<
    Seq<ValV>,
    EvErrV,
>, EnvV)
    decreases fuel, 0int, args.len(),
    when fuel >= 1
{
    if args.len() == 0 {
        (Ok(Seq::<ValV>::empty()), env)
    } else {
        let r0 = eval_s(args[0], env, (fuel - 1) as nat);
        match r0.0 {
            Ok(v) => {
                let rr = eval_args_s(args.drop_first(), r0.1, fuel);
                match rr.0 {
                    Ok(vs) => (Ok(seq![v] + vs), rr.1),
                    Err(e) => (Err(e), rr.1),
                }
            },
            Err(e) => (Err(e), r0.1),
        }
    }
}

/// An ordinary call: the symbol must name a native function or a lambda.
/// Arguments are evaluated in the caller's environment; a lambda then
/// runs its body in a private duplicate, discarded when the call returns.
pub open spec fn call_s(s: Seq<char>, args: Seq<ExpV>, env: EnvV, fuel: nat) -> EvalR
    decreases fuel, 1int, 1int,
    when fuel >= 1
{
    if !env.contains_key(s) {
        (Err(EvErrV::NonDefineInThisScope), env)
    } else {
        match env[s] {
            ValV::Func(b) => {
                let ra = eval_args_s(args, env, fuel);
                match ra.0 {
                    Ok(vals) => (crate::env::apply_builtin_s(b, vals), ra.1),
                    Err(e) => (Err(e), ra.1),
                }
            },
            ValV::Lambda { params, body } => {
                if args.len() < 1 {
                    (Err(EvErrV::InvalidNumberOfArguments), env)
                } else {
                    let ra = eval_args_s(args, env, fuel);
                    match ra.0 {
                        Ok(vals) => {
                            if params.len() > vals.len() {
                                (Err(EvErrV::InvalidNumberOfArguments), ra.1)
                            } else {
                                let sub = bind_params_s(params, vals, ra.1);
                                let rb = eval_s(body, sub, (fuel - 1) as nat);
                                (rb.0, ra.1)
                            }
                        },
                        Err(e) => (Err(e), ra.1),
                    }
                }
            },
            _ => (Err(EvErrV::InvalidFunctionCall), env),
        }
    }
}

/// Whether an executable result carries the values of a spec result.
pub open spec fn res_matches(r: Result<LispEval, EvalError>, s: Result<ValV, EvErrV>) -> bool {
    match (r, s) {
        (Ok(v), Ok(vv)) => v@ == vv,
        (Err(e), Err(ee)) => e@ == ee,
        _ => false,
    }
}

/// The depth bound on nested evaluation.
pub const DEFAULT_FUEL: u64 = 256;

/// Evaluates an expression against the environment, mutating it in place.
/// Nesting deeper than `DEFAULT_FUEL` reports `DefaultError`.
pub fn eval(exp: LispExp, env: &mut LispEnv) -> (r: Result<LispEval, EvalError>)
    ensures
        res_matches(r, eval_s(exp@, old(env)@, DEFAULT_FUEL as nat).0),
        final(env)@ == eval_s(exp@, old(env)@, DEFAULT_FUEL as nat).1,
{
    eval_fuel(exp, env, DEFAULT_FUEL)
}

fn eval_fuel(exp: LispExp, env: &mut LispEnv, fuel: u64) -> (r: Result<LispEval, EvalError>)
    ensures
        res_matches(r, eval_s(exp@, old(env)@, fuel as nat).0),
        final(env)@ == eval_s(exp@, old(env)@, fuel as nat).1,
    decreases fuel, 4int, 0int,
{
    if fuel == 0 {
        return Err(EvalError::DefaultError());
    }
    match exp {
        LispExp::Bool(b) => Ok(LispEval::Bool(b)),
        LispExp::Number(n) => Ok(LispEval::Number(n)),
        LispExp::Symbol(s) => {
            let found: Option<&LispEval> = env.get(s.as_str());
            match found {
                Some(x) => Ok(clone_val(x)),
                None => Err(EvalError::UnknownSymbol(s)),
            }
        },
        LispExp::List(list) => eval_list_fuel(list, env, fuel),
    }
}

fn eval_list_fuel(list: Vec<LispExp>, env: &mut LispEnv, fuel: u64) -> (r: Result<
    LispEval,
    EvalError,
>)
    requires
        fuel >= 1,
    ensures
        res_matches(r, eval_list_s(exps_view(list@), old(env)@, fuel as nat).0),
        final(env)@ == eval_list_s(exps_view(list@), old(env)@, fuel as nat).1,
    decreases fuel, 3int, 0int,
{
    let ghost lv: Seq<ExpV> = exps_view(list@);
    if list.len() == 0 {
        return Err(EvalError::InvalidListExpression());
    }
    let is_list_head: bool = matches!(&list[0], LispExp::List(_));
    let is_sym_head: bool = matches!(&list[0], LispExp::Symbol(_));
    let mut rest: Vec<LispExp> = list;
    let tail: Vec<LispExp> = rest.split_off(1);
    let head: LispExp = rest.pop().unwrap();
    proof {
        assert(head@ == lv[0]);
        assert(exps_view(tail@) =~= lv.drop_first());
    }
    if is_list_head {
        let r1: Result<LispEval, EvalError> = eval_fuel(head, env, fuel - 1);
        match r1 {
            Ok(_) => eval_fuel(LispExp::List(tail), env, fuel - 1),
            Err(e) => Err(e),
        }
    } else if is_sym_head {
        match head {
            LispExp::Symbol(s) => eval_symbol_fuel(s, tail, env, fuel),
            _ => {
                // the head was established to be a symbol before it was
                // taken out of the vector
                proof {
                    assert(false);
                }
                Err(EvalError::InvalidListExpression())
            },
        }
    } else {
        Err(EvalError::InvalidListExpression())
    }
}

fn eval_symbol_fuel(symbol: String, args: Vec<LispExp>, env: &mut LispEnv, fuel: u64) -> (r:
    Result<LispEval, EvalError>)
    requires
        fuel >= 1,
    ensures
        res_matches(r, eval_symbol_s(symbol@, exps_view(args@), old(env)@, fuel as nat).0),
        final(env)@ == eval_symbol_s(symbol@, exps_view(args@), old(env)@, fuel as nat).1,
    decreases fuel, 2int, 0int,
{
    if crate::exp::str_eq(symbol.as_str(), "if") {
        if_statement_fuel(args, env, fuel)
    } else if crate::exp::str_eq(symbol.as_str(), "define") {
        define_variable_fuel(args, env, fuel)
    } else if crate::exp::str_eq(symbol.as_str(), "lambda") {
        define_lambda(args)
    } else if crate::exp::str_eq(symbol.as_str(), "fn") {
        define_function(args, env)
    } else {
        call_function_fuel(symbol.as_str(), args, env, fuel)
    }
}

fn if_statement_fuel(args: Vec<LispExp>, env: &mut LispEnv, fuel: u64) -> (r: Result<
    LispEval,
    EvalError,
>)
    requires
        fuel >= 1,
    ensures
        res_matches(r, if_s(exps_view(args@), old(env)@, fuel as nat).0),
        final(env)@ == if_s(exps_view(args@), old(env)@, fuel as nat).1,
    decreases fuel, 1int, 0int,
{
    let ghost av: Seq<ExpV> = exps_view(args@);
    if args.len() != 3 {
        return Err(EvalError::InvalidNumberOfArguments());
    }
    let mut rest: Vec<LispExp> = args;
    let a2: LispExp = rest.pop().unwrap();
    let a1: LispExp = rest.pop().unwrap();
    let a0: LispExp = rest.pop().unwrap();
    proof {
        assert(a0@ == av[0] && a1@ == av[1] && a2@ == av[2]);
    }
    match eval_fuel(a0, env, fuel - 1) {
        Err(e) => Err(e),
        Ok(v) => match v {
            LispEval::Bool(b) => {
                if b {
                    eval_fuel(a1, env, fuel - 1)
                } else {
                    eval_fuel(a2, env, fuel - 1)
                }
            },
            _ => Err(EvalError::InvalidIfStatement()),
        },
    }
}

fn define_variable_fuel(args: Vec<LispExp>, env: &mut LispEnv, fuel: u64) -> (r: Result<
    LispEval,
    EvalError,
>)
    requires
        fuel >= 1,
    ensures
        res_matches(r, define_s(exps_view(args@), old(env)@, fuel as nat).0),
        final(env)@ == define_s(exps_view(args@), old(env)@, fuel as nat).1,
    decreases fuel, 1int, 0int,
{
    let ghost av: Seq<ExpV> = exps_view(args@);
    if args.len() != 2 {
        return Err(EvalError::InvalidNumberOfArguments());
    }
    let mut rest: Vec<LispExp> = args;
    let a1: LispExp = rest.pop().unwrap();
    let a0: LispExp = rest.pop().unwrap();
    proof {
        assert(a0@ == av[0] && a1@ == av[1]);
    }
    let name: String = a0.to_text();
    match eval_fuel(a1, env, fuel - 1) {
        Err(e) => Err(e),
        Ok(v) => {
            let copy: LispEval = clone_val(&v);
            env.add(name.as_str(), copy);
            Ok(v)
        },
    }
}

fn define_lambda(args: Vec<LispExp>) -> (r: Result<LispEval, EvalError>)
    ensures
        ({
            let s = lambda_s(exps_view(args@), Map::<Seq<char>, ValV>::empty());
            res_matches(r, s.0)
        }),
{
    let ghost av: Seq<ExpV> = exps_view(args@);
    if args.len() < 2 {
        return Err(EvalError::InvalidNumberOfArguments());
    }
    let mut rest: Vec<LispExp> = args;
    let body: LispExp = rest.pop().unwrap();
    proof {
        assert(body@ == av.last());
        assert(exps_view(rest@) =~= av.take(av.len() - 1));
    }
    Ok(LispEval::Lambda(LispLambda { params: rest, body: Box::new(body) }))
}

fn define_function(args: Vec<LispExp>, env: &mut LispEnv) -> (r: Result<LispEval, EvalError>)
    ensures
        res_matches(r, fn_s(exps_view(args@), old(env)@).0),
        final(env)@ == fn_s(exps_view(args@), old(env)@).1,
{
    let ghost av: Seq<ExpV> = exps_view(args@);
    if args.len() < 3 {
        return Err(EvalError::InvalidNumberOfArguments());
    }
    let mut rest: Vec<LispExp> = args;
    let body: LispExp = rest.pop().unwrap();
    let name_exp: LispExp = rest.remove(0);
    proof {
        assert(body@ == av.last());
        assert(name_exp@ == av[0]);
        assert(exps_view(rest@) =~= av.subrange(1, av.len() - 1));
    }
    let name: String = name_exp.to_text();
    let lam: LispEval = LispEval::Lambda(LispLambda { params: rest, body: Box::new(body) });
    env.add(name.as_str(), lam);
    Ok(LispEval::Bool(true))
}

/// Whether an executable argument-list result carries a spec one.
pub open spec fn args_res_matches(
    r: Result<Vec<LispEval>, EvalError>,
    s: Result<Seq<ValV>, EvErrV>,
) -> bool {
    match (r, s) {
        (Ok(v), Ok(vv)) => vals_view(v@) == vv,
        (Err(e), Err(ee)) => e@ == ee,
        _ => false,
    }
}

fn eval_args_fuel(args: Vec<LispExp>, env: &mut LispEnv, fuel: u64) -> (r: Result<
    Vec<LispEval>,
    EvalError,
>)
    requires
        fuel >= 1,
    ensures
        args_res_matches(r, eval_args_s(exps_view(args@), old(env)@, fuel as nat).0),
        final(env)@ == eval_args_s(exps_view(args@), old(env)@, fuel as nat).1,
    decreases fuel, 0int, args@.len(),
{
    let ghost av: Seq<ExpV> = exps_view(args@);
    if args.len() == 0 {
        let out: Vec<LispEval> = Vec::new();
        proof {
            assert(vals_view(out@) =~= Seq::<ValV>::empty());
        }
        return Ok(out);
    }
    let mut rest: Vec<LispExp> = args;
    let tail: Vec<LispExp> = rest.split_off(1);
    let first: LispExp = rest.pop().unwrap();
    proof {
        assert(first@ == av[0]);
        assert(exps_view(tail@) =~= av.drop_first());
    }
    match eval_fuel(first, env, fuel - 1) {
        Err(e) => Err(e),
        Ok(v) => {
            match eval_args_fuel(tail, env, fuel) {
                Err(e) => Err(e),
                Ok(vs) => {
                    let ghost vsv: Seq<ValV> = vals_view(vs@);
                    let mut tail_vals: Vec<LispEval> = vs;
                    let mut out: Vec<LispEval> = Vec::new();
                    out.push(v);
                    out.append(&mut tail_vals);
                    proof {
                        assert(vals_view(out@) =~= seq![vals_view(out@)[0int]] + vsv);
                    }
                    Ok(out)
                },
            }
        },
    }
}

fn bind_params_exec(params: &Vec<LispExp>, vals: &Vec<LispEval>, sub: &mut LispEnv)
    requires
        params@.len() <= vals@.len(),
    ensures
        final(sub)@ == bind_params_s(exps_view(params@), vals_view(vals@), old(sub)@),
{
    let ghost pv: Seq<ExpV> = exps_view(params@);
    let ghost vv: Seq<ValV> = vals_view(vals@);
    let n: usize = params.len();
    let mut i: usize = 0;
    proof {
        assert(pv.take(0) =~= Seq::<ExpV>::empty());
    }
    while i < n
        invariant
            i <= n,
            n == params@.len(),
            n <= vals@.len(),
            pv == exps_view(params@),
            vv == vals_view(vals@),
            sub@ == bind_params_s(pv.take(i as int), vv, old(sub)@),
        decreases n - i,
    {
        let name: String = params[i].to_text();
        let v: LispEval = clone_val(&vals[i]);
        sub.add(name.as_str(), v);
        proof {
            assert(pv.take(i + 1 as int).drop_last() =~= pv.take(i as int));
            assert(pv.take(i + 1 as int).last() == pv[i as int]);
        }
        i += 1;
    }
    proof {
        assert(pv.take(n as int) =~= pv);
    }
}

fn call_function_fuel(symbol: &str, args: Vec<LispExp>, env: &mut LispEnv, fuel: u64) -> (r:
    Result<LispEval, EvalError>)
    requires
        fuel >= 1,
    ensures
        res_matches(r, call_s(symbol@, exps_view(args@), old(env)@, fuel as nat).0),
        final(env)@ == call_s(symbol@, exps_view(args@), old(env)@, fuel as nat).1,
    decreases fuel, 1int, 1int,
{
    let found: Option<&LispEval> = env.get(symbol);
    let env_fn: LispEval = match found {
        Some(v) => clone_val(v),
        None => {
            return Err(EvalError::NonDefineInThisScope);
        },
    };
    match env_fn {
        LispEval::Func(b) => {
            match eval_args_fuel(args, env, fuel) {
                Err(e) => Err(e),
                Ok(vals) => crate::env::apply_builtin(b, &vals),
            }
        },
        LispEval::Lambda(lam) => {
            if args.len() < 1 {
                return Err(EvalError::InvalidNumberOfArguments());
            }
            match eval_args_fuel(args, env, fuel) {
                Err(e) => Err(e),
                Ok(vals) => {
                    if lam.params.len() > vals.len() {
                        return Err(EvalError::InvalidNumberOfArguments());
                    }
                    let mut sub: LispEnv = env.duplicate();
                    bind_params_exec(&lam.params, &vals, &mut sub);
                    eval_fuel(*lam.body, &mut sub, fuel - 1)
                },
            }
        },
        _ => Err(EvalError::InvalidFunctionCall),
    }
}

} // verus!
