//! The environment of bindings and the builtin library.
//!
//! An environment is a table from symbol names to values; a redefinition
//! shadows the older binding. Every lambda call works on a full private
//! duplicate of the caller's environment, discarded when the call returns.

use vstd::prelude::*;
use vstd::string::*;
use std::io::Write;

use crate::eval::{clone_val, clone_vals, val_view, vals_view, EnvV, LispEval, ValV};
use crate::exp::str_eq;
use crate::num::{
    arith, arith_spec, compare_num, cmp_spec, in_i64, mul_mant, ArithOp, CmpOp, LispNum,
};
use crate::utils::exceptions::{EvalError, EvErrV};

verus! {

/// The identities of the native functions of the builtin library.
#[derive(Clone, Copy, PartialEq, Eq, Structural, Debug)]
pub enum Builtin {
    Print,
    Not,
    And,
    Or,
    Add,
    Sub,
    Mul,
    Div,
    Mod,
    CmpEq,
    CmpLt,
    CmpGt,
    CmpLe,
    CmpGe,
    ToList,
    Head,
    Cons,
    ToSet,
    Union,
    Inter,
}

/// A mutable table of bindings from symbol names to values. Additions
/// append; lookups see the newest binding of a name.
#[derive(Debug)]
pub struct LispEnv {
    pub bindings: Vec<(String, LispEval)>,
}

/// The mapping a binding table denotes: later entries shadow earlier ones.
pub open spec fn map_of(s: Seq<(String, LispEval)>) -> EnvV
    decreases s.len(),
{
    if s.len() == 0 {
        Map::<Seq<char>, ValV>::empty()
    } else {
        map_of(s.drop_last()).insert(s.last().0@, s.last().1@)
    }
}

impl View for LispEnv {
    type V = EnvV;

    open spec fn view(&self) -> EnvV {
        map_of(self.bindings@)
    }
}

proof fn lemma_map_of_found(s: Seq<(String, LispEval)>, j: int, k: Seq<char>)
    requires
        0 <= j < s.len(),
        s[j].0@ == k,
        forall|l: int| j < l < s.len() ==> s[l].0@ != k,
    ensures
        map_of(s).contains_key(k),
        map_of(s)[k] == s[j].1@,
    decreases s.len(),
{
    if j == s.len() - 1 {
    } else {
        lemma_map_of_found(s.drop_last(), j, k);
    }
}

proof fn lemma_map_of_absent(s: Seq<(String, LispEval)>, k: Seq<char>)
    requires
        forall|j: int| 0 <= j < s.len() ==> s[j].0@ != k,
    ensures
        !map_of(s).contains_key(k),
    decreases s.len(),
{
    if s.len() > 0 {
        lemma_map_of_absent(s.drop_last(), k);
    }
}

proof fn lemma_map_of_congruence(a: Seq<(String, LispEval)>, b: Seq<(String, LispEval)>)
    requires
        a.len() == b.len(),
        forall|i: int| 0 <= i < a.len() ==> a[i].0@ == b[i].0@ && a[i].1@ == b[i].1@,
    ensures
        map_of(a) == map_of(b),
    decreases a.len(),
{
    if a.len() > 0 {
        lemma_map_of_congruence(a.drop_last(), b.drop_last());
        assert(a.last().0@ == b.last().0@ && a.last().1@ == b.last().1@);
    }
}

impl LispEnv {
    /// A fresh environment with no bindings.
    pub fn new() -> (r: Self)
        ensures
            r@ == Map::<Seq<char>, ValV>::empty(),
    {
        let r = LispEnv { bindings: Vec::new() };
        proof {
            assert(r.bindings@.len() == 0);
        }
        r
    }

    /// Looks a symbol up; the newest binding of the name wins.
    pub fn get(&self, symbol: &str) -> (r: Option<&LispEval>)
        ensures
            match r {
                Some(v) => self@.contains_key(symbol@) && v@ == self@[symbol@],
                None => !self@.contains_key(symbol@),
            },
    {
        let n: usize = self.bindings.len();
        let mut i: usize = n;
        while i > 0
            invariant
                i <= n,
                n == self.bindings@.len(),
                forall|j: int| i <= j < n ==> self.bindings@[j].0@ != symbol@,
            decreases i,
        {
            i = i - 1;
            if str_eq(self.bindings[i].0.as_str(), symbol) {
                proof {
                    lemma_map_of_found(self.bindings@, i as int, symbol@);
                }
                return Some(&self.bindings[i].1);
            }
        }
        proof {
            lemma_map_of_absent(self.bindings@, symbol@);
        }
        None
    }

    /// Binds a value to a name, shadowing any older binding.
    pub fn add(&mut self, symbol: &str, exp: LispEval)
        ensures
            final(self)@ == old(self)@.insert(symbol@, exp@),
    {
        let ghost before: Seq<(String, LispEval)> = self.bindings@;
        self.bindings.push((symbol.to_owned(), exp));
        proof {
            assert(self.bindings@.drop_last() =~= before);
        }
    }

    /// A full private copy of the table, equal under the view.
    pub fn duplicate(&self) -> (r: Self)
        ensures
            r@ == self@,
    {
        let n: usize = self.bindings.len();
        let mut out: Vec<(String, LispEval)> = Vec::new();
        let mut i: usize = 0;
        while i < n
            invariant
                i <= n,
                n == self.bindings@.len(),
                out@.len() == i,
                forall|j: int| 0 <= j < i ==> (#[trigger] out@[j]).0@ == self.bindings@[j].0@
                    && out@[j].1@ == self.bindings@[j].1@,
            decreases n - i,
        {
            let k: String = self.bindings[i].0.clone();
            let v: LispEval = clone_val(&self.bindings[i].1);
            out.push((k, v));
            i += 1;
        }
        let r = LispEnv { bindings: out };
        proof {
            lemma_map_of_congruence(r.bindings@, self.bindings@);
        }
        r
    }
}

// ---------------------------------------------------------------------------
// Value equality as the interpreter compares values.
//
// Equality is defined for booleans and numbers only; every other value is
// equal to nothing, itself included. Set membership and deduplication go
// by this relation.
// ---------------------------------------------------------------------------

pub open spec fn veq(a: ValV, b: ValV) -> bool {
    match (a, b) {
        (ValV::Bool(x), ValV::Bool(y)) => x == y,
        (ValV::Num(x), ValV::Num(y)) => x == y,
        _ => false,
    }
}

pub open spec fn set_mem(s: Seq<ValV>, v: ValV) -> bool {
    exists|i: int| 0 <= i < s.len() && veq(s[i], v)
}

pub open spec fn set_insert(s: Seq<ValV>, v: ValV) -> Seq<ValV> {
    if set_mem(s, v) {
        s
    } else {
        s.push(v)
    }
}

/// Inserts every element of `t` into `s` in order, deduplicating by `veq`.
pub open spec fn insert_all(s: Seq<ValV>, t: Seq<ValV>) -> Seq<ValV>
    decreases t.len(),
{
    if t.len() == 0 {
        s
    } else {
        insert_all(set_insert(s, t[0]), t.drop_first())
    }
}

/// Keeps the elements of `acc`, in order, that have a `veq`-equal element
/// in `s`.
pub open spec fn inter_of(acc: Seq<ValV>, s: Seq<ValV>) -> Seq<ValV>
    decreases acc.len(),
{
    if acc.len() == 0 {
        acc
    } else if set_mem(s, acc[0]) {
        seq![acc[0]] + inter_of(acc.drop_first(), s)
    } else {
        inter_of(acc.drop_first(), s)
    }
}

pub(crate) fn veq_exec(a: &LispEval, b: &LispEval) -> (r: bool)
    ensures
        r == veq(a@, b@),
{
    match (a, b) {
        (LispEval::Bool(x), LispEval::Bool(y)) => x == y,
        (LispEval::Number(x), LispEval::Number(y)) => x.mantissa == y.mantissa,
        _ => false,
    }
}

fn set_mem_exec(s: &Vec<LispEval>, v: &LispEval) -> (r: bool)
    ensures
        r == set_mem(vals_view(s@), v@),
{
    let n: usize = s.len();
    let mut i: usize = 0;
    while i < n
        invariant
            i <= n,
            n == s@.len(),
            forall|j: int| 0 <= j < i ==> !veq(vals_view(s@)[j], v@),
        decreases n - i,
    {
        if veq_exec(&s[i], v) {
            assert(veq(vals_view(s@)[i as int], v@));
            return true;
        }
        i += 1;
    }
    false
}

// ---------------------------------------------------------------------------
// The builtin library: each native function receives the elements of its
// one aggregate list argument.
// ---------------------------------------------------------------------------

/// Left fold of an arithmetic operator: the element at position zero
/// seeds the fold, later numbers fold in order, non-numbers are skipped.
/// Overflow or a zero divisor stops everything with `DefaultError`.
pub open spec fn acc_arith(items: Seq<ValV>, i: int, acc: int, op: ArithOp) -> Result<
    ValV,
    EvErrV,
>
    decreases items.len() - i,
    when 0 <= i <= items.len()
{
    if i >= items.len() {
        Ok(ValV::Num(acc))
    } else {
        match items[i] {
            ValV::Num(n) => {
                if i == 0 {
                    acc_arith(items, 1, n, op)
                } else {
                    match arith_spec(op, acc, n) {
                        Some(m) => acc_arith(items, i + 1, m, op),
                        None => Err(EvErrV::DefaultError),
                    }
                }
            },
            _ => acc_arith(items, i + 1, acc, op),
        }
    }
}

/// Chained comparison as the reference defines it: the result reflects
/// only the last adjacent pair of numbers; earlier pairs are forgotten.
pub open spec fn acc_cmp(items: Seq<ValV>, i: int, prev: int, res: bool, op: CmpOp) -> Result<
    ValV,
    EvErrV,
>
    decreases items.len() - i,
    when 0 <= i <= items.len()
{
    if i >= items.len() {
        Ok(ValV::Bool(res))
    } else {
        match items[i] {
            ValV::Num(n) => acc_cmp(
                items,
                i + 1,
                n,
                if i > 0 {
                    cmp_spec(op, prev, n)
                } else {
                    res
                },
                op,
            ),
            _ => acc_cmp(items, i + 1, prev, res, op),
        }
    }
}

/// Left fold of a boolean operator over the boolean elements, seeded by
/// the element at position zero; non-booleans are skipped.
pub open spec fn acc_logic(items: Seq<ValV>, i: int, res: bool, conj: bool) -> Result<
    ValV,
    EvErrV,
>
    decreases items.len() - i,
    when 0 <= i <= items.len()
{
    if i >= items.len() {
        Ok(ValV::Bool(res))
    } else {
        match items[i] {
            ValV::Bool(b) => acc_logic(
                items,
                i + 1,
                if i == 0 {
                    b
                } else if conj {
                    res && b
                } else {
                    res || b
                },
                conj,
            ),
            _ => acc_logic(items, i + 1, res, conj),
        }
    }
}

/// `not` reads the first element only; a non-boolean yields `false`.
pub open spec fn not_s(items: Seq<ValV>) -> Result<ValV, EvErrV> {
    if items.len() == 0 {
        Err(EvErrV::InvalidNumberOfArguments)
    } else {
        match items[0] {
            ValV::Bool(b) => Ok(ValV::Bool(!b)),
            _ => Ok(ValV::Bool(false)),
        }
    }
}

/// `head` wants exactly one argument, itself a list, and yields that
/// list's first element.
pub open spec fn head_s(items: Seq<ValV>) -> Result<ValV, EvErrV> {
    if items.len() != 1 {
        Err(EvErrV::InvalidNumberOfArguments)
    } else {
        match items[0] {
            ValV::List(inner) => if inner.len() == 0 {
                Err(EvErrV::UnexpectedExpression)
            } else {
                Ok(inner[0])
            },
            _ => Err(EvErrV::InvalidAgrumentType),
        }
    }
}

/// `cons` prepends its first argument to its second; when the second is
/// not a list, the prepended element comes back alone.
pub open spec fn cons_s(items: Seq<ValV>) -> Result<ValV, EvErrV> {
    if items.len() != 2 {
        Err(EvErrV::InvalidNumberOfArguments)
    } else {
        match items[1] {
            ValV::List(l) => Ok(ValV::List(seq![items[0]] + l)),
            _ => Ok(ValV::List(seq![items[0]])),
        }
    }
}

/// `print` wants exactly one argument and returns it unchanged after
/// writing its rendered form.
pub open spec fn print_s(items: Seq<ValV>) -> Result<ValV, EvErrV> {
    if items.len() != 1 {
        Err(EvErrV::InvalidNumberOfArguments)
    } else {
        Ok(items[0])
    }
}

/// `union` folds every set argument into one, skipping non-sets.
pub open spec fn union_fold(items: Seq<ValV>, i: int, acc: Seq<ValV>) -> Seq<ValV>
    decreases items.len() - i,
    when 0 <= i <= items.len()
{
    if i >= items.len() {
        acc
    } else {
        match items[i] {
            ValV::SetVal(s) => union_fold(items, i + 1, insert_all(acc, s)),
            _ => union_fold(items, i + 1, acc),
        }
    }
}

/// `inter` seeds with the set at position zero and intersects the later
/// sets pairwise in order; non-sets are skipped positionally.
pub open spec fn inter_fold(items: Seq<ValV>, i: int, acc: Seq<ValV>) -> Seq<ValV>
    decreases items.len() - i,
    when 0 <= i <= items.len()
{
    if i >= items.len() {
        acc
    } else {
        match items[i] {
            ValV::SetVal(s) => inter_fold(
                items,
                i + 1,
                if i == 0 {
                    s
                } else {
                    inter_of(acc, s)
                },
            ),
            _ => inter_fold(items, i + 1, acc),
        }
    }
}

/// What each native function of the builtin library yields on the
/// elements of its aggregate argument.
pub open spec fn apply_builtin_s(b: Builtin, items: Seq<ValV>) -> Result<ValV, EvErrV> {
    match b {
        Builtin::Print => print_s(items),
        Builtin::Not => not_s(items),
        Builtin::And => acc_logic(items, 0, false, true),
        Builtin::Or => acc_logic(items, 0, false, false),
        Builtin::Add => acc_arith(items, 0, 0, ArithOp::Add),
        Builtin::Sub => acc_arith(items, 0, 0, ArithOp::Sub),
        Builtin::Mul => acc_arith(items, 0, 0, ArithOp::Mul),
        Builtin::Div => acc_arith(items, 0, 0, ArithOp::Div),
        Builtin::Mod => acc_arith(items, 0, 0, ArithOp::Mod),
        Builtin::CmpEq => acc_cmp(items, 0, 0, false, CmpOp::Eq),
        Builtin::CmpLt => acc_cmp(items, 0, 0, false, CmpOp::Lt),
        Builtin::CmpGt => acc_cmp(items, 0, 0, false, CmpOp::Gt),
        Builtin::CmpLe => acc_cmp(items, 0, 0, false, CmpOp::Le),
        Builtin::CmpGe => acc_cmp(items, 0, 0, false, CmpOp::Ge),
        Builtin::ToList => Ok(ValV::List(items)),
        Builtin::Head => head_s(items),
        Builtin::Cons => cons_s(items),
        Builtin::ToSet => Ok(ValV::SetVal(insert_all(Seq::<ValV>::empty(), items))),
        Builtin::Union => Ok(ValV::SetVal(union_fold(items, 0, Seq::<ValV>::empty()))),
        Builtin::Inter => Ok(ValV::SetVal(inter_fold(items, 0, Seq::<ValV>::empty()))),
    }
}

/// Left-folds an arithmetic operator over the numeric elements.
fn accumulate(vals: &Vec<LispEval>, op: ArithOp) -> (r: Result<LispEval, EvalError>)
    ensures
        match acc_arith(vals_view(vals@), 0, 0, op) {
            Ok(v) => r matches Ok(rv) && rv@ == v,
            Err(e) => r matches Err(re) && re@ == e,
        },
{
    let ghost itemsv: Seq<ValV> = vals_view(vals@);
    let n: usize = vals.len();
    let mut acc: LispNum = LispNum { mantissa: 0 };
    let mut i: usize = 0;
    while i < n
        invariant
            i <= n,
            n == vals@.len(),
            itemsv == vals_view(vals@),
            acc_arith(itemsv, i as int, acc.mantissa as int, op) == acc_arith(itemsv, 0, 0, op),
        decreases n - i,
    {
        match &vals[i] {
            LispEval::Number(m) => {
                if i == 0 {
                    acc = *m;
                } else {
                    match arith(op, acc, *m) {
                        Some(s) => {
                            acc = s;
                        },
                        None => {
                            return Err(EvalError::DefaultError());
                        },
                    }
                }
            },
            _ => {},
        }
        i += 1;
    }
    Ok(LispEval::Number(acc))
}

/// Evaluates the chained comparison; the last adjacent numeric pair wins.
fn compare(vals: &Vec<LispEval>, op: CmpOp) -> (r: Result<LispEval, EvalError>)
    ensures
        match acc_cmp(vals_view(vals@), 0, 0, false, op) {
            Ok(v) => r matches Ok(rv) && rv@ == v,
            Err(e) => r matches Err(re) && re@ == e,
        },
{
    let ghost itemsv: Seq<ValV> = vals_view(vals@);
    let n: usize = vals.len();
    let mut prev: LispNum = LispNum { mantissa: 0 };
    let mut res: bool = false;
    let mut i: usize = 0;
    while i < n
        invariant
            i <= n,
            n == vals@.len(),
            itemsv == vals_view(vals@),
            acc_cmp(itemsv, i as int, prev.mantissa as int, res, op) == acc_cmp(
                itemsv,
                0,
                0,
                false,
                op,
            ),
        decreases n - i,
    {
        match &vals[i] {
            LispEval::Number(m) => {
                if i > 0 {
                    res = compare_num(op, prev, *m);
                }
                prev = *m;
            },
            _ => {},
        }
        i += 1;
    }
    Ok(LispEval::Bool(res))
}

/// Left-folds a boolean operator over the boolean elements.
fn binary_logic_operator(vals: &Vec<LispEval>, conj: bool) -> (r: Result<LispEval, EvalError>)
    ensures
        match acc_logic(vals_view(vals@), 0, false, conj) {
            Ok(v) => r matches Ok(rv) && rv@ == v,
            Err(e) => r matches Err(re) && re@ == e,
        },
{
    let ghost itemsv: Seq<ValV> = vals_view(vals@);
    let n: usize = vals.len();
    let mut res: bool = false;
    let mut i: usize = 0;
    while i < n
        invariant
            i <= n,
            n == vals@.len(),
            itemsv == vals_view(vals@),
            acc_logic(itemsv, i as int, res, conj) == acc_logic(itemsv, 0, false, conj),
        decreases n - i,
    {
        match &vals[i] {
            LispEval::Bool(b) => {
                if i == 0 {
                    res = *b;
                } else if conj {
                    res = res && *b;
                } else {
                    res = res || *b;
                }
            },
            _ => {},
        }
        i += 1;
    }
    Ok(LispEval::Bool(res))
}

/// `not` of the first element.
fn unary_logic_operator(vals: &Vec<LispEval>) -> (r: Result<LispEval, EvalError>)
    ensures
        match not_s(vals_view(vals@)) {
            Ok(v) => r matches Ok(rv) && rv@ == v,
            Err(e) => r matches Err(re) && re@ == e,
        },
{
    if vals.len() == 0 {
        return Err(EvalError::InvalidNumberOfArguments());
    }
    match &vals[0] {
        LispEval::Bool(b) => Ok(LispEval::Bool(!*b)),
        _ => Ok(LispEval::Bool(false)),
    }
}

/// The identity guard on lists.
fn to_list(vals: &Vec<LispEval>) -> (r: Result<LispEval, EvalError>)
    ensures
        r matches Ok(rv) && rv@ == ValV::List(vals_view(vals@)),
{
    Ok(LispEval::List(clone_vals(vals)))
}

/// First element of the single list argument.
fn head(vals: &Vec<LispEval>) -> (r: Result<LispEval, EvalError>)
    ensures
        match head_s(vals_view(vals@)) {
            Ok(v) => r matches Ok(rv) && rv@ == v,
            Err(e) => r matches Err(re) && re@ == e,
        },
{
    if vals.len() != 1 {
        return Err(EvalError::InvalidNumberOfArguments());
    }
    match &vals[0] {
        LispEval::List(inner) => {
            if inner.len() == 0 {
                Err(EvalError::UnexpectedExpression())
            } else {
                assert(vals_view(inner@)[0] == val_view(inner@[0]));
                Ok(clone_val(&inner[0]))
            }
        },
        _ => Err(EvalError::InvalidAgrumentType()),
    }
}

/// Prepends the first argument to the second.
fn cons(vals: &Vec<LispEval>) -> (r: Result<LispEval, EvalError>)
    ensures
        match cons_s(vals_view(vals@)) {
            Ok(v) => r matches Ok(rv) && rv@ == v,
            Err(e) => r matches Err(re) && re@ == e,
        },
{
    if vals.len() != 2 {
        return Err(EvalError::InvalidNumberOfArguments());
    }
    let mut out: Vec<LispEval> = Vec::new();
    out.push(clone_val(&vals[0]));
    match &vals[1] {
        LispEval::List(l) => {
            let m: usize = l.len();
            let mut k: usize = 0;
            while k < m
                invariant
                    k <= m,
                    m == l@.len(),
                    out@.len() == k + 1,
                    val_view(out@[0]) == vals_view(vals@)[0int],
                    forall|j: int| 1 <= j < k + 1 ==> val_view(#[trigger] out@[j]) == vals_view(
                        l@,
                    )[j - 1],
                decreases m - k,
            {
                out.push(clone_val(&l[k]));
                k += 1;
            }
            proof {
                assert(vals_view(out@) =~= seq![vals_view(vals@)[0int]] + vals_view(l@));
            }
            Ok(LispEval::List(out))
        },
        _ => {
            proof {
                assert(vals_view(out@) =~= seq![vals_view(vals@)[0int]]);
            }
            Ok(LispEval::List(out))
        },
    }
}

/// Inserts each element of `t` into `out` in order, deduplicating.
fn insert_all_exec(out: &mut Vec<LispEval>, t: &Vec<LispEval>)
    ensures
        vals_view(final(out)@) == insert_all(vals_view(old(out)@), vals_view(t@)),
{
    let ghost tv: Seq<ValV> = vals_view(t@);
    proof {
        assert(tv.skip(0) =~= tv);
    }
    let n: usize = t.len();
    let mut k: usize = 0;
    while k < n
        invariant
            k <= n,
            n == t@.len(),
            tv == vals_view(t@),
            insert_all(vals_view(out@), tv.skip(k as int)) == insert_all(
                vals_view(old(out)@),
                tv,
            ),
        decreases n - k,
    {
        let ghost before: Seq<ValV> = vals_view(out@);
        proof {
            assert(tv.skip(k as int).drop_first() =~= tv.skip(k + 1 as int));
            assert(tv.skip(k as int)[0] == tv[k as int]);
        }
        if !set_mem_exec(out, &t[k]) {
            out.push(clone_val(&t[k]));
            proof {
                assert(vals_view(out@) =~= before.push(tv[k as int]));
            }
        }
        k += 1;
    }
    proof {
        assert(tv.skip(n as int) =~= Seq::<ValV>::empty());
    }
}

/// Converts the argument list into a set, deduplicating in order.
fn to_set(vals: &Vec<LispEval>) -> (r: Result<LispEval, EvalError>)
    ensures
        r matches Ok(rv) && rv@ == ValV::SetVal(
            insert_all(Seq::<ValV>::empty(), vals_view(vals@)),
        ),
{
    let mut out: Vec<LispEval> = Vec::new();
    proof {
        assert(vals_view(out@) =~= Seq::<ValV>::empty());
    }
    insert_all_exec(&mut out, vals);
    Ok(LispEval::SetVal(out))
}

/// Writes the rendered argument to standard output and returns it.
fn print(vals: &Vec<LispEval>) -> (r: Result<LispEval, EvalError>)
    ensures
        match print_s(vals_view(vals@)) {
            Ok(v) => r matches Ok(rv) && rv@ == v,
            Err(e) => r matches Err(re) && re@ == e,
        },
{
    if vals.len() != 1 {
        return Err(EvalError::InvalidNumberOfArguments());
    }
    let text: String = vals[0].to_text();
    emit_line(&text);
    Ok(clone_val(&vals[0]))
}

/// Relies on `std::io::Stdout` through the `writeln` macro: writes the
/// given text and a newline to standard output.
#[verifier::external_body]
fn emit_line(s: &String) {
    let _ = writeln!(std::io::stdout(), "{}", s);
}

/// Folds set union over all set arguments.
fn union(vals: &Vec<LispEval>) -> (r: Result<LispEval, EvalError>)
    ensures
        r matches Ok(rv) && rv@ == ValV::SetVal(
            union_fold(vals_view(vals@), 0, Seq::<ValV>::empty()),
        ),
{
    let ghost itemsv: Seq<ValV> = vals_view(vals@);
    let n: usize = vals.len();
    let mut out: Vec<LispEval> = Vec::new();
    proof {
        assert(vals_view(out@) =~= Seq::<ValV>::empty());
    }
    let mut i: usize = 0;
    while i < n
        invariant
            i <= n,
            n == vals@.len(),
            itemsv == vals_view(vals@),
            union_fold(itemsv, i as int, vals_view(out@)) == union_fold(
                itemsv,
                0,
                Seq::<ValV>::empty(),
            ),
        decreases n - i,
    {
        match &vals[i] {
            LispEval::SetVal(s) => {
                insert_all_exec(&mut out, s);
            },
            _ => {},
        }
        i += 1;
    }
    Ok(LispEval::SetVal(out))
}

/// Keeps the elements of `acc` that are members of `s`, in order.
fn inter_exec(acc: &Vec<LispEval>, s: &Vec<LispEval>) -> (r: Vec<LispEval>)
    ensures
        vals_view(r@) == inter_of(vals_view(acc@), vals_view(s@)),
{
    let ghost av: Seq<ValV> = vals_view(acc@);
    let ghost sv: Seq<ValV> = vals_view(s@);
    let n: usize = acc.len();
    let mut out: Vec<LispEval> = Vec::new();
    proof {
        assert(av.skip(0) =~= av);
        assert(vals_view(out@) =~= Seq::<ValV>::empty());
        assert(Seq::<ValV>::empty() + inter_of(av, sv) =~= inter_of(av, sv));
    }
    let mut j: usize = 0;
    while j < n
        invariant
            j <= n,
            n == acc@.len(),
            av == vals_view(acc@),
            sv == vals_view(s@),
            vals_view(out@) + inter_of(av.skip(j as int), sv) == inter_of(av, sv),
        decreases n - j,
    {
        let ghost before: Seq<ValV> = vals_view(out@);
        proof {
            assert(av.skip(j as int).drop_first() =~= av.skip(j + 1 as int));
            assert(av.skip(j as int)[0] == av[j as int]);
        }
        if set_mem_exec(s, &acc[j]) {
            out.push(clone_val(&acc[j]));
            proof {
                assert(vals_view(out@) =~= before.push(av[j as int]));
                assert(before.push(av[j as int]) + inter_of(av.skip(j + 1 as int), sv) =~= before
                    + (seq![av[j as int]] + inter_of(av.skip(j + 1 as int), sv)));
            }
        }
        j += 1;
    }
    proof {
        assert(av.skip(n as int) =~= Seq::<ValV>::empty());
        assert(vals_view(out@) + Seq::<ValV>::empty() =~= vals_view(out@));
    }
    out
}

/// Intersects the set arguments pairwise, seeded by the first.
fn intersection(vals: &Vec<LispEval>) -> (r: Result<LispEval, EvalError>)
    ensures
        r matches Ok(rv) && rv@ == ValV::SetVal(
            inter_fold(vals_view(vals@), 0, Seq::<ValV>::empty()),
        ),
{
    let ghost itemsv: Seq<ValV> = vals_view(vals@);
    let n: usize = vals.len();
    let mut out: Vec<LispEval> = Vec::new();
    proof {
        assert(vals_view(out@) =~= Seq::<ValV>::empty());
    }
    let mut i: usize = 0;
    while i < n
        invariant
            i <= n,
            n == vals@.len(),
            itemsv == vals_view(vals@),
            inter_fold(itemsv, i as int, vals_view(out@)) == inter_fold(
                itemsv,
                0,
                Seq::<ValV>::empty(),
            ),
        decreases n - i,
    {
        match &vals[i] {
            LispEval::SetVal(s) => {
                if i == 0 {
                    out = clone_vals(s);
                } else {
                    out = inter_exec(&out, s);
                }
            },
            _ => {},
        }
        i += 1;
    }
    Ok(LispEval::SetVal(out))
}

/// Applies a native function of the builtin library to the elements of
/// its aggregate argument.
pub fn apply_builtin(b: Builtin, vals: &Vec<LispEval>) -> (r: Result<LispEval, EvalError>)
    ensures
        match apply_builtin_s(b, vals_view(vals@)) {
            Ok(v) => r matches Ok(rv) && rv@ == v,
            Err(e) => r matches Err(re) && re@ == e,
        },
{
    match b {
        Builtin::Print => print(vals),
        Builtin::Not => unary_logic_operator(vals),
        Builtin::And => binary_logic_operator(vals, true),
        Builtin::Or => binary_logic_operator(vals, false),
        Builtin::Add => accumulate(vals, ArithOp::Add),
        Builtin::Sub => accumulate(vals, ArithOp::Sub),
        Builtin::Mul => accumulate(vals, ArithOp::Mul),
        Builtin::Div => accumulate(vals, ArithOp::Div),
        Builtin::Mod => accumulate(vals, ArithOp::Mod),
        Builtin::CmpEq => compare(vals, CmpOp::Eq),
        Builtin::CmpLt => compare(vals, CmpOp::Lt),
        Builtin::CmpGt => compare(vals, CmpOp::Gt),
        Builtin::CmpLe => compare(vals, CmpOp::Le),
        Builtin::CmpGe => compare(vals, CmpOp::Ge),
        Builtin::ToList => to_list(vals),
        Builtin::Head => head(vals),
        Builtin::Cons => cons(vals),
        Builtin::ToSet => to_set(vals),
        Builtin::Union => union(vals),
        Builtin::Inter => intersection(vals),
    }
}

// ---------------------------------------------------------------------------
// The default environment.
// ---------------------------------------------------------------------------

/// The bindings every fresh environment starts with.
pub open spec fn default_map() -> EnvV {
    Map::<Seq<char>, ValV>::empty().insert("print"@, ValV::Func(Builtin::Print)).insert(
        "not"@,
        ValV::Func(Builtin::Not),
    ).insert("and"@, ValV::Func(Builtin::And)).insert("or"@, ValV::Func(Builtin::Or)).insert(
        "+"@,
        ValV::Func(Builtin::Add),
    ).insert("-"@, ValV::Func(Builtin::Sub)).insert("*"@, ValV::Func(Builtin::Mul)).insert(
        "/"@,
        ValV::Func(Builtin::Div),
    ).insert("%"@, ValV::Func(Builtin::Mod)).insert("="@, ValV::Func(Builtin::CmpEq)).insert(
        "<"@,
        ValV::Func(Builtin::CmpLt),
    ).insert(">"@, ValV::Func(Builtin::CmpGt)).insert("<="@, ValV::Func(Builtin::CmpLe)).insert(
        ">="@,
        ValV::Func(Builtin::CmpGe),
    ).insert("pi"@, ValV::Num(3_141_592_653int)).insert("e"@, ValV::Num(2_718_281_828int)).insert(
        "list"@,
        ValV::Func(Builtin::ToList),
    ).insert("head"@, ValV::Func(Builtin::Head)).insert("cons"@, ValV::Func(Builtin::Cons)).insert(
        "set"@,
        ValV::Func(Builtin::ToSet),
    ).insert("union"@, ValV::Func(Builtin::Union)).insert("inter"@, ValV::Func(Builtin::Inter))
}

/// A fresh environment pre-populated with the builtin library and the
/// constants `pi` and `e` (to nine fractional digits).
pub fn default_env() -> (r: LispEnv)
    ensures
        r@ == default_map(),
{
    let mut env: LispEnv = LispEnv::new();
    env.add("print", LispEval::Func(Builtin::Print));
    env.add("not", LispEval::Func(Builtin::Not));
    env.add("and", LispEval::Func(Builtin::And));
    env.add("or", LispEval::Func(Builtin::Or));
    env.add("+", LispEval::Func(Builtin::Add));
    env.add("-", LispEval::Func(Builtin::Sub));
    env.add("*", LispEval::Func(Builtin::Mul));
    env.add("/", LispEval::Func(Builtin::Div));
    env.add("%", LispEval::Func(Builtin::Mod));
    env.add("=", LispEval::Func(Builtin::CmpEq));
    env.add("<", LispEval::Func(Builtin::CmpLt));
    env.add(">", LispEval::Func(Builtin::CmpGt));
    env.add("<=", LispEval::Func(Builtin::CmpLe));
    env.add(">=", LispEval::Func(Builtin::CmpGe));
    env.add("pi", LispEval::Number(LispNum { mantissa: 3_141_592_653 }));
    env.add("e", LispEval::Number(LispNum { mantissa: 2_718_281_828 }));
    env.add("list", LispEval::Func(Builtin::ToList));
    env.add("head", LispEval::Func(Builtin::Head));
    env.add("cons", LispEval::Func(Builtin::Cons));
    env.add("set", LispEval::Func(Builtin::ToSet));
    env.add("union", LispEval::Func(Builtin::Union));
    env.add("inter", LispEval::Func(Builtin::Inter));
    env
}

// ---------------------------------------------------------------------------
// Laws of the builtin library.
// ---------------------------------------------------------------------------

/// The mantissa a numeric value carries.
pub open spec fn mant_of(v: ValV) -> int {
    match v {
        ValV::Num(m) => m,
        _ => 0,
    }
}

pub open spec fn all_nums(items: Seq<ValV>) -> bool {
    forall|i: int| 0 <= i < items.len() ==> (#[trigger] items[i]) is Num
}

/// The sum of the first `j` mantissas, in order.
pub open spec fn seq_sum(items: Seq<ValV>, j: int) -> int
    decreases j,
{
    if j <= 1 {
        mant_of(items[0])
    } else {
        seq_sum(items, j - 1) + mant_of(items[j - 1])
    }
}

/// The product of the first `j` mantissas, in order, in the fixed-point
/// model's multiplication.
pub open spec fn seq_prod(items: Seq<ValV>, j: int) -> int
    decreases j,
{
    if j <= 1 {
        mant_of(items[0])
    } else {
        mul_mant(seq_prod(items, j - 1), mant_of(items[j - 1]))
    }
}

proof fn lemma_acc_arith_add(items: Seq<ValV>, i: int)
    requires
        1 <= i <= items.len(),
        all_nums(items),
        forall|j: int| 1 <= j <= items.len() ==> in_i64(#[trigger] seq_sum(items, j)),
    ensures
        acc_arith(items, i, seq_sum(items, i), ArithOp::Add) == Ok::<ValV, EvErrV>(
            ValV::Num(seq_sum(items, items.len() as int)),
        ),
    decreases items.len() - i,
{
    if i < items.len() {
        assert(items[i] is Num);
        assert(seq_sum(items, i + 1) == seq_sum(items, i) + mant_of(items[i]));
        assert(in_i64(seq_sum(items, i + 1)));
        lemma_acc_arith_add(items, i + 1);
    }
}

/// Folding `+` over a list of one or more numbers yields the arithmetic
/// sum of the list in order, whenever no partial sum leaves the mantissa
/// range.
pub proof fn lemma_accumulate_add_is_sum(items: Seq<ValV>)
    requires
        items.len() >= 1,
        all_nums(items),
        forall|j: int| 1 <= j <= items.len() ==> in_i64(#[trigger] seq_sum(items, j)),
    ensures
        apply_builtin_s(Builtin::Add, items) == Ok::<ValV, EvErrV>(
            ValV::Num(seq_sum(items, items.len() as int)),
        ),
{
    assert(items[0] is Num);
    assert(seq_sum(items, 1) == mant_of(items[0]));
    lemma_acc_arith_add(items, 1);
}

proof fn lemma_acc_arith_mul(items: Seq<ValV>, i: int)
    requires
        1 <= i <= items.len(),
        all_nums(items),
        forall|j: int| 1 <= j <= items.len() ==> in_i64(#[trigger] seq_prod(items, j)),
    ensures
        acc_arith(items, i, seq_prod(items, i), ArithOp::Mul) == Ok::<ValV, EvErrV>(
            ValV::Num(seq_prod(items, items.len() as int)),
        ),
    decreases items.len() - i,
{
    if i < items.len() {
        assert(items[i] is Num);
        assert(seq_prod(items, i + 1) == mul_mant(seq_prod(items, i), mant_of(items[i])));
        assert(in_i64(seq_prod(items, i + 1)));
        lemma_acc_arith_mul(items, i + 1);
    }
}

/// Folding `*` over a list of one or more numbers yields the product of
/// the list in order, in the model's truncating multiplication, whenever
/// no partial product leaves the mantissa range.
pub proof fn lemma_accumulate_mul_is_product(items: Seq<ValV>)
    requires
        items.len() >= 1,
        all_nums(items),
        forall|j: int| 1 <= j <= items.len() ==> in_i64(#[trigger] seq_prod(items, j)),
    ensures
        apply_builtin_s(Builtin::Mul, items) == Ok::<ValV, EvErrV>(
            ValV::Num(seq_prod(items, items.len() as int)),
        ),
{
    assert(items[0] is Num);
    assert(seq_prod(items, 1) == mant_of(items[0]));
    lemma_acc_arith_mul(items, 1);
}

proof fn lemma_mem_insert(s: Seq<ValV>, x: ValV, v: ValV)
    ensures
        set_mem(set_insert(s, x), v) <==> (set_mem(s, v) || veq(x, v)),
{
    if set_mem(s, x) {
        if veq(x, v) {
            let i = choose|i: int| 0 <= i < s.len() && veq(s[i], x);
            assert(veq(s[i], v));
        }
    } else {
        let p = s.push(x);
        if veq(x, v) {
            assert(veq(p[s.len() as int], v));
        }
        if set_mem(s, v) {
            let i = choose|i: int| 0 <= i < s.len() && veq(s[i], v);
            assert(veq(p[i], v));
        }
        if set_mem(p, v) {
            let i = choose|i: int| 0 <= i < p.len() && veq(p[i], v);
            if i < s.len() {
                assert(veq(s[i], v));
            }
        }
    }
}

proof fn lemma_mem_insert_all(s: Seq<ValV>, t: Seq<ValV>, v: ValV)
    ensures
        set_mem(insert_all(s, t), v) <==> (set_mem(s, v) || set_mem(t, v)),
    decreases t.len(),
{
    if t.len() == 0 {
        assert(!set_mem(t, v));
    } else {
        lemma_mem_insert(s, t[0], v);
        lemma_mem_insert_all(set_insert(s, t[0]), t.drop_first(), v);
        if set_mem(t.drop_first(), v) {
            let i = choose|i: int| 0 <= i < t.drop_first().len() && veq(t.drop_first()[i], v);
            assert(veq(t[i + 1], v));
        }
        if set_mem(t, v) {
            let i = choose|i: int| 0 <= i < t.len() && veq(t[i], v);
            if i > 0 {
                assert(veq(t.drop_first()[i - 1], v));
            }
        }
    }
}

/// The union of a list of two sets has the same members in either order:
/// membership in the union is membership in one of the two sets.
pub proof fn lemma_union_commutative(a: Seq<ValV>, b: Seq<ValV>, v: ValV)
    ensures
        set_mem(union_fold(seq![ValV::SetVal(a), ValV::SetVal(b)], 0, Seq::<ValV>::empty()), v)
            <==> set_mem(
            union_fold(seq![ValV::SetVal(b), ValV::SetVal(a)], 0, Seq::<ValV>::empty()),
            v,
        ),
{
    let e = Seq::<ValV>::empty();
    let ab = seq![ValV::SetVal(a), ValV::SetVal(b)];
    let ba = seq![ValV::SetVal(b), ValV::SetVal(a)];
    assert(union_fold(ab, 0, e) == insert_all(insert_all(e, a), b)) by {
        reveal_with_fuel(union_fold, 4);
    }
    assert(union_fold(ba, 0, e) == insert_all(insert_all(e, b), a)) by {
        reveal_with_fuel(union_fold, 4);
    }
    lemma_mem_insert_all(insert_all(e, a), b, v);
    lemma_mem_insert_all(e, a, v);
    lemma_mem_insert_all(insert_all(e, b), a, v);
    lemma_mem_insert_all(e, b, v);
}

/// A value the interpreter's equality is defined on: a boolean or number.
pub open spec fn is_primitive(v: ValV) -> bool {
    v is Bool || v is Num
}

proof fn lemma_insert_all_noop(s: Seq<ValV>, t: Seq<ValV>)
    requires
        forall|i: int| 0 <= i < t.len() ==> set_mem(s, #[trigger] t[i]),
    ensures
        insert_all(s, t) == s,
    decreases t.len(),
{
    if t.len() > 0 {
        assert(set_mem(s, t[0]));
        assert(set_insert(s, t[0]) == s);
        assert(forall|i: int|
            0 <= i < t.drop_first().len() ==> #[trigger] t.drop_first()[i] == t[i + 1]);
        lemma_insert_all_noop(s, t.drop_first());
    }
}

/// Repeating the same set in a union adds nothing: for sets of primitive
/// elements, the union of a set with itself is the union of the set alone.
pub proof fn lemma_union_repeat_idempotent(a: Seq<ValV>)
    requires
        forall|i: int| 0 <= i < a.len() ==> is_primitive(#[trigger] a[i]),
    ensures
        union_fold(seq![ValV::SetVal(a), ValV::SetVal(a)], 0, Seq::<ValV>::empty())
            == union_fold(seq![ValV::SetVal(a)], 0, Seq::<ValV>::empty()),
{
    let e = Seq::<ValV>::empty();
    let aa = seq![ValV::SetVal(a), ValV::SetVal(a)];
    let a1 = seq![ValV::SetVal(a)];
    assert(union_fold(aa, 0, e) == insert_all(insert_all(e, a), a)) by {
        reveal_with_fuel(union_fold, 4);
    }
    assert(union_fold(a1, 0, e) == insert_all(e, a)) by {
        reveal_with_fuel(union_fold, 3);
    }
    let s = insert_all(e, a);
    assert forall|i: int| 0 <= i < a.len() implies set_mem(s, #[trigger] a[i]) by {
        assert(veq(a[i], a[i]));
        lemma_mem_insert_all(e, a, a[i]);
    }
    lemma_insert_all_noop(s, a);
}

proof fn lemma_inter_of_all_present(a: Seq<ValV>, s: Seq<ValV>)
    requires
        forall|i: int| 0 <= i < a.len() ==> set_mem(s, #[trigger] a[i]),
    ensures
        inter_of(a, s) == a,
    decreases a.len(),
{
    if a.len() > 0 {
        assert(set_mem(s, a[0]));
        assert(forall|i: int|
            0 <= i < a.drop_first().len() ==> #[trigger] a.drop_first()[i] == a[i + 1]);
        lemma_inter_of_all_present(a.drop_first(), s);
        assert(seq![a[0]] + a.drop_first() =~= a);
    }
}

/// Intersecting a set with itself gives the set back unchanged, for sets
/// of primitive elements.
pub proof fn lemma_inter_self_identity(a: Seq<ValV>)
    requires
        forall|i: int| 0 <= i < a.len() ==> is_primitive(#[trigger] a[i]),
    ensures
        inter_fold(seq![ValV::SetVal(a), ValV::SetVal(a)], 0, Seq::<ValV>::empty()) == a,
{
    let e = Seq::<ValV>::empty();
    let aa = seq![ValV::SetVal(a), ValV::SetVal(a)];
    assert forall|i: int| 0 <= i < a.len() implies set_mem(a, #[trigger] a[i]) by {
        assert(veq(a[i], a[i]));
    }
    lemma_inter_of_all_present(a, a);
    assert(inter_fold(aa, 0, e) == inter_of(a, a)) by {
        reveal_with_fuel(inter_fold, 4);
    }
}

} // verus!
