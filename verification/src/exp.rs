//! Source text to abstract syntax: the tokenizer, the token-level atom
//! reader, and the parser, together with the textual rendering of
//! expressions.

use vstd::prelude::*;
use vstd::string::*;

use crate::num::{
    num_text, num_to_string, parse_num, parse_num_v, push_char, LispNum,
};
use crate::utils::exceptions::{PErrV, ParseError};

verus! {

/// Spec-level abstract syntax tree.
pub enum ExpV {
    Bool(bool),
    Num(int),
    Sym(Seq<char>),
    List(Seq<ExpV>),
}

/// A parsed expression: boolean or number literal, symbol, or list.
/// Immutable once parsed; produced by the parser, consumed by the
/// evaluator.
#[derive(Debug)]
pub enum LispExp {
    Bool(bool),
    Number(LispNum),
    Symbol(String),
    List(Vec<LispExp>),
}

pub open spec fn exp_view(e: LispExp) -> ExpV
    decreases e,
{
    match e {
        LispExp::Bool(b) => ExpV::Bool(b),
        LispExp::Number(n) => ExpV::Num(n.mantissa as int),
        LispExp::Symbol(s) => ExpV::Sym(s@),
        LispExp::List(v) => ExpV::List(exps_view(v@)),
    }
}

/// The element-wise view of a sequence of expressions.
pub open spec fn exps_view(s: Seq<LispExp>) -> Seq<ExpV>
    decreases s,
{
    Seq::new(
        s.len(),
        |i: int|
            if 0 <= i < s.len() {
                exp_view(s[i])
            } else {
                ExpV::Bool(false)
            },
    )
}

impl View for LispExp {
    type V = ExpV;

    open spec fn view(&self) -> ExpV {
        exp_view(*self)
    }
}

// ---------------------------------------------------------------------------
// Rendering expressions back to text.
// ---------------------------------------------------------------------------

/// Text of one expression: literals print as themselves, lists print as
/// their space-separated elements between parentheses.
pub open spec fn exp_text(e: ExpV) -> Seq<char>
    decreases e, 0int, 0int,
{
    match e {
        ExpV::Bool(b) => if b {
            "true"@
        } else {
            "false"@
        },
        ExpV::Num(m) => num_text(m),
        ExpV::Sym(s) => s,
        ExpV::List(l) => seq!['('] + exp_list_text(l) + seq![')'],
    }
}

pub open spec fn exp_list_text(l: Seq<ExpV>) -> Seq<char>
    decreases l, 1int, l.len(),
{
    if l.len() == 0 {
        Seq::<char>::empty()
    } else if l.len() == 1 {
        exp_text(l[0])
    } else {
        exp_text(l[0]) + seq![' '] + exp_list_text(l.subrange(1, l.len() as int))
    }
}

impl LispExp {
    /// Renders the expression as source text.
    pub fn to_text(&self) -> (s: String)
        ensures
            s@ == exp_text(self@),
        decreases *self, 0int, 0int,
    {
        match self {
            LispExp::Bool(b) => {
                if *b {
                    String::from_str("true")
                } else {
                    String::from_str("false")
                }
            },
            LispExp::Number(n) => num_to_string(*n),
            LispExp::Symbol(sym) => sym.clone(),
            LispExp::List(v) => {
                let body: String = exp_list_string(v, 0);
                let mut out: String = String::from_str("(");
                proof {
                    reveal_strlit("(");
                    reveal_strlit(")");
                }
                out.append(body.as_str());
                out.append(")");
                proof {
                    assert(exps_view(v@).subrange(0, exps_view(v@).len() as int) =~= exps_view(
                        v@,
                    ));
                    assert(out@ =~= seq!['('] + exp_list_text(exps_view(v@)) + seq![')']);
                }
                out
            },
        }
    }
}

fn exp_list_string(v: &Vec<LispExp>, i: usize) -> (s: String)
    requires
        i <= v@.len(),
    ensures
        s@ == exp_list_text(exps_view(v@).subrange(i as int, v@.len() as int)),
    decreases v@, 1int, v@.len() - i,
{
    let n: usize = v.len();
    let ghost suffix: Seq<ExpV> = exps_view(v@).subrange(i as int, v@.len() as int);
    if i >= n {
        let s: String = String::new();
        assert(s@ =~= exp_list_text(suffix));
        s
    } else if i + 1 == n {
        let s: String = v[i].to_text();
        assert(suffix[0] == exp_view(v@[i as int]));
        s
    } else {
        let mut s: String = v[i].to_text();
        push_char(&mut s, ' ');
        let tail: String = exp_list_string(v, i + 1);
        let out: String = s.concat(tail.as_str());
        proof {
            assert(suffix[0] == exp_view(v@[i as int]));
            assert(suffix.subrange(1, suffix.len() as int) =~= exps_view(v@).subrange(
                i + 1 as int,
                v@.len() as int,
            ));
            assert(out@ =~= exp_text(suffix[0]) + seq![' '] + exp_list_text(
                suffix.subrange(1, suffix.len() as int),
            ));
        }
        out
    }
}

/// A deep copy of an expression, equal under the view.
pub fn clone_exp(e: &LispExp) -> (r: LispExp)
    ensures
        r@ == e@,
    decreases *e, 0int, 0int,
{
    match e {
        LispExp::Bool(b) => LispExp::Bool(*b),
        LispExp::Number(n) => LispExp::Number(*n),
        LispExp::Symbol(s) => LispExp::Symbol(s.clone()),
        LispExp::List(v) => LispExp::List(clone_exps(v)),
    }
}

/// A deep copy of an expression sequence, equal element-wise under the view.
pub fn clone_exps(v: &Vec<LispExp>) -> (r: Vec<LispExp>)
    ensures
        exps_view(r@) == exps_view(v@),
        r@.len() == v@.len(),
    decreases v@, 1int, 0int,
{
    let n: usize = v.len();
    let mut out: Vec<LispExp> = Vec::new();
    let mut i: usize = 0;
    while i < n
        invariant
            i <= n,
            n == v@.len(),
            out@.len() == i,
            forall|j: int| 0 <= j < i ==> exp_view(#[trigger] out@[j]) == exp_view(v@[j]),
        decreases n - i,
    {
        let c: LispExp = clone_exp(&v[i]);
        out.push(c);
        i += 1;
    }
    assert(exps_view(out@) =~= exps_view(v@));
    out
}

// ---------------------------------------------------------------------------
// Text helpers.
// ---------------------------------------------------------------------------

/// The characters of a string, one by one.
pub fn chars_of(s: &str) -> (r: Vec<char>)
    ensures
        r@ == s@,
{
    let n: usize = s.unicode_len();
    let mut out: Vec<char> = Vec::new();
    let mut i: usize = 0;
    while i < n
        invariant
            i <= n,
            n == s@.len(),
            out@ == s@.take(i as int),
        decreases n - i,
    {
        let c: char = s.get_char(i);
        out.push(c);
        assert(out@ =~= s@.take(i + 1 as int));
        i += 1;
    }
    assert(out@ =~= s@);
    out
}

/// Character-wise string equality.
pub fn str_eq(a: &str, b: &str) -> (r: bool)
    ensures
        r == (a@ == b@),
{
    let n: usize = a.unicode_len();
    if n != b.unicode_len() {
        return false;
    }
    let mut i: usize = 0;
    while i < n
        invariant
            i <= n,
            n == a@.len(),
            n == b@.len(),
            forall|j: int| 0 <= j < i ==> a@[j] == b@[j],
        decreases n - i,
    {
        if a.get_char(i) != b.get_char(i) {
            return false;
        }
        i += 1;
    }
    assert(a@ =~= b@);
    true
}

// ---------------------------------------------------------------------------
// The tokenizer: pad every bracket with spaces, then split on whitespace
// runs, dropping empty pieces.
// ---------------------------------------------------------------------------

pub open spec fn is_bracket(c: char) -> bool {
    c == '(' || c == ')' || c == '{' || c == '}'
}

/// The whitespace the tokenizer splits on.
pub open spec fn is_ws(c: char) -> bool {
    c == ' ' || c == '\t' || c == '\n' || c == '\r'
}

pub open spec fn pad1(c: char) -> Seq<char> {
    if is_bracket(c) {
        seq![' ', c, ' ']
    } else {
        seq![c]
    }
}

/// The source text with single spaces inserted around every bracket.
pub open spec fn pad(s: Seq<char>) -> Seq<char>
    decreases s.len(),
{
    if s.len() == 0 {
        Seq::<char>::empty()
    } else {
        pad(s.drop_last()) + pad1(s.last())
    }
}

/// Splits on whitespace runs; `cur` is the token being gathered.
pub open spec fn split_ws(s: Seq<char>, cur: Seq<char>) -> Seq<Seq<char>>
    decreases s.len(),
{
    if s.len() == 0 {
        if cur.len() == 0 {
            Seq::<Seq<char>>::empty()
        } else {
            seq![cur]
        }
    } else if is_ws(s[0]) {
        if cur.len() == 0 {
            split_ws(s.drop_first(), cur)
        } else {
            seq![cur] + split_ws(s.drop_first(), Seq::<char>::empty())
        }
    } else {
        split_ws(s.drop_first(), cur.push(s[0]))
    }
}

/// The token sequence of a source text.
pub open spec fn tokens_of(s: Seq<char>) -> Seq<Seq<char>> {
    split_ws(pad(s), Seq::<char>::empty())
}

/// The element-wise view of a token vector.
pub open spec fn toks_view(ts: Seq<String>) -> Seq<Seq<char>> {
    Seq::new(ts.len(), |i: int| ts[i]@)
}

fn is_bracket_exec(c: char) -> (r: bool)
    ensures
        r == is_bracket(c),
{
    c == '(' || c == ')' || c == '{' || c == '}'
}

fn is_ws_exec(c: char) -> (r: bool)
    ensures
        r == is_ws(c),
{
    c == ' ' || c == '\t' || c == '\n' || c == '\r'
}

/// Splits source text into tokens: brackets become tokens of their own,
/// everything else splits on whitespace.
pub fn tokenize(expr: String) -> (r: Vec<String>)
    ensures
        toks_view(r@) == tokens_of(expr@),
{
    let src: &str = expr.as_str();
    let n: usize = src.unicode_len();
    let mut padded: Vec<char> = Vec::new();
    let mut i: usize = 0;
    while i < n
        invariant
            i <= n,
            n == src@.len(),
            src@ == expr@,
            padded@ == pad(src@.take(i as int)),
        decreases n - i,
    {
        let c: char = src.get_char(i);
        if is_bracket_exec(c) {
            padded.push(' ');
            padded.push(c);
            padded.push(' ');
        } else {
            padded.push(c);
        }
        proof {
            assert(src@.take(i + 1 as int).drop_last() =~= src@.take(i as int));
            assert(src@.take(i + 1 as int).last() == src@[i as int]);
            assert(padded@ =~= pad(src@.take(i as int)) + pad1(src@[i as int]));
        }
        i += 1;
    }
    proof {
        assert(src@.take(n as int) =~= src@);
    }
    let m: usize = padded.len();
    let mut out: Vec<String> = Vec::new();
    let mut cur: String = String::new();
    let mut j: usize = 0;
    proof {
        assert(padded@.skip(0) =~= padded@);
        assert(toks_view(out@) =~= Seq::<Seq<char>>::empty());
        assert(toks_view(out@) + split_ws(padded@.skip(0), cur@) =~= split_ws(padded@, cur@));
    }
    while j < m
        invariant
            j <= m,
            m == padded@.len(),
            padded@ == pad(expr@),
            tokens_of(expr@) == toks_view(out@) + split_ws(padded@.skip(j as int), cur@),
        decreases m - j,
    {
        let ghost before: Seq<char> = padded@.skip(j as int);
        proof {
            assert(before.drop_first() =~= padded@.skip(j + 1 as int));
            assert(before[0] == padded@[j as int]);
        }
        let c: char = padded[j];
        if is_ws_exec(c) {
            if cur.as_str().unicode_len() > 0 {
                out.push(cur);
                cur = String::new();
                proof {
                    assert(toks_view(out@) =~= toks_view(out@.drop_last()) + seq![
                        out@.last()@,
                    ]);
                    assert(toks_view(out@.drop_last()) + seq![out@.last()@] + split_ws(
                        padded@.skip(j + 1 as int),
                        cur@,
                    ) =~= toks_view(out@.drop_last()) + (seq![out@.last()@] + split_ws(
                        padded@.skip(j + 1 as int),
                        cur@,
                    )));
                }
            }
        } else {
            push_char(&mut cur, c);
        }
        j += 1;
    }
    proof {
        assert(padded@.skip(m as int) =~= Seq::<char>::empty());
    }
    if cur.as_str().unicode_len() > 0 {
        out.push(cur);
        proof {
            assert(toks_view(out@) =~= toks_view(out@.drop_last()) + seq![out@.last()@]);
        }
    }
    assert(toks_view(out@) =~= toks_view(out@) + Seq::<Seq<char>>::empty());
    out
}

// ---------------------------------------------------------------------------
// Atoms.
// ---------------------------------------------------------------------------

/// What a single non-bracket token denotes: a boolean literal, a number,
/// or failing both, a symbol.
pub open spec fn atom_of(t: Seq<char>) -> ExpV {
    if t == "true"@ {
        ExpV::Bool(true)
    } else if t == "false"@ {
        ExpV::Bool(false)
    } else {
        match parse_num_v(t) {
            Some(m) => ExpV::Num(m),
            None => ExpV::Sym(t),
        }
    }
}

/// Parses an individual token (atom) into a boolean, number, or symbol
/// expression.
pub fn parse_token(token: &str) -> (e: LispExp)
    ensures
        e@ == atom_of(token@),
{
    if str_eq(token, "true") {
        LispExp::Bool(true)
    } else if str_eq(token, "false") {
        LispExp::Bool(false)
    } else {
        let cs: Vec<char> = chars_of(token);
        match parse_num(&cs) {
            Some(n) => LispExp::Number(n),
            None => LispExp::Symbol(token.to_owned()),
        }
    }
}

// ---------------------------------------------------------------------------
// The parser.
//
// A recursive-descent grammar driven as a bracket-stack machine over the
// token sequence: opening tokens push a partial list, closing tokens pop
// one, atoms join the innermost partial list, and the quote token demands
// an opening parenthesis and splices the symbol `list` in front.
// ---------------------------------------------------------------------------

/// A partially built list: whether it closes with a curly bracket, and
/// the elements gathered so far.
#[verifier::ext_equal]
pub struct FrameV {
    pub curly: bool,
    pub elems: Seq<ExpV>,
}

/// Appends a finished element to the innermost partial list.
pub open spec fn push_elem(stack: Seq<FrameV>, e: ExpV) -> Seq<FrameV> {
    stack.drop_last().push(
        FrameV { curly: stack.last().curly, elems: stack.last().elems.push(e) },
    )
}

/// What the parser yields from token `i` onward with the given stack of
/// partial lists: the finished expression and the index of the first
/// unconsumed token, or the error the grammar demands.
pub open spec fn parse_loop_v(toks: Seq<Seq<char>>, i: int, stack: Seq<FrameV>) -> Result<
    (ExpV, int),
    PErrV,
>
    decreases toks.len() - i,
    when 0 <= i <= toks.len()
{
    if i >= toks.len() {
        if stack.len() == 0 {
            Err(PErrV::EmptyInput)
        } else {
            Err(PErrV::MissingToken)
        }
    } else {
        let t = toks[i];
        if t == "'"@ {
            if i + 1 >= toks.len() {
                Err(PErrV::MissingToken)
            } else if toks[i + 1] == "("@ {
                parse_loop_v(
                    toks,
                    i + 2,
                    stack.push(FrameV { curly: false, elems: seq![ExpV::Sym("list"@)] }),
                )
            } else {
                Err(PErrV::UnexpectedToken(toks[i + 1]))
            }
        } else if t == "("@ {
            parse_loop_v(
                toks,
                i + 1,
                stack.push(FrameV { curly: false, elems: Seq::<ExpV>::empty() }),
            )
        } else if t == "{"@ {
            parse_loop_v(
                toks,
                i + 1,
                stack.push(FrameV { curly: true, elems: seq![ExpV::Sym("set"@)] }),
            )
        } else if t == ")"@ {
            if stack.len() > 0 && !stack.last().curly {
                let e = ExpV::List(stack.last().elems);
                if stack.len() == 1 {
                    Ok((e, i + 1))
                } else {
                    parse_loop_v(toks, i + 1, push_elem(stack.drop_last(), e))
                }
            } else {
                Err(PErrV::UnexpectedToken(")"@))
            }
        } else if t == "}"@ {
            if stack.len() > 0 && stack.last().curly {
                let e = ExpV::List(stack.last().elems);
                if stack.len() == 1 {
                    Ok((e, i + 1))
                } else {
                    parse_loop_v(toks, i + 1, push_elem(stack.drop_last(), e))
                }
            } else {
                Err(PErrV::UnexpectedToken(")"@))
            }
        } else {
            let a = atom_of(t);
            if stack.len() == 0 {
                Ok((a, i + 1))
            } else {
                parse_loop_v(toks, i + 1, push_elem(stack, a))
            }
        }
    }
}

/// The view of the parser's working stack.
pub open spec fn frames_view(st: Seq<(bool, Vec<LispExp>)>) -> Seq<FrameV> {
    Seq::new(st.len(), |i: int| FrameV { curly: st[i].0, elems: exps_view(st[i].1@) })
}

/// Parses one expression from the front of the token slice and returns it
/// with the unconsumed remainder, so that callers can parse a sequence of
/// top-level forms from one stream.
pub fn parse<'a>(tokens: &'a [String]) -> (r: Result<(LispExp, &'a [String]), ParseError>)
    ensures
        ({
            let res = parse_loop_v(toks_view(tokens@), 0, Seq::<FrameV>::empty());
            match r {
                Ok(p) => res matches Ok(q) && q.0 == p.0@ && 0 <= q.1 <= tokens@.len() && p.1@
                    =~= tokens@.skip(q.1),
                Err(e) => res matches Err(ev) && e@ == ev,
            }
        }),
{
    let ghost tv: Seq<Seq<char>> = toks_view(tokens@);
    let n: usize = tokens.len();
    let mut i: usize = 0;
    let mut stack: Vec<(bool, Vec<LispExp>)> = Vec::new();
    proof {
        assert(frames_view(stack@) =~= Seq::<FrameV>::empty());
    }
    loop
        invariant
            i <= n,
            n == tokens@.len(),
            tv == toks_view(tokens@),
            parse_loop_v(tv, 0, Seq::<FrameV>::empty()) == parse_loop_v(
                tv,
                i as int,
                frames_view(stack@),
            ),
        decreases n - i,
    {
        let ghost fv: Seq<FrameV> = frames_view(stack@);
        if i >= n {
            if stack.len() == 0 {
                return Err(ParseError::EmptyInput());
            } else {
                return Err(ParseError::MissingToken);
            }
        }
        let t: &String = &tokens[i];
        proof {
            assert(tv[i as int] == t@);
        }
        if str_eq(t.as_str(), "'") {
            if i + 1 >= n {
                return Err(ParseError::MissingToken);
            }
            let t2: &String = &tokens[i + 1];
            proof {
                assert(tv[i + 1 as int] == t2@);
            }
            if str_eq(t2.as_str(), "(") {
                let mut elems: Vec<LispExp> = Vec::new();
                elems.push(LispExp::Symbol(String::from_str("list")));
                stack.push((false, elems));
                proof {
                    assert(exps_view(stack@.last().1@) =~= seq![ExpV::Sym("list"@)]);
                    assert(frames_view(stack@) =~~= fv.push(
                        FrameV { curly: false, elems: seq![ExpV::Sym("list"@)] },
                    ));
                }
                i = i + 2;
            } else {
                return Err(ParseError::UnexpectedToken(t2.clone()));
            }
        } else if str_eq(t.as_str(), "(") {
            stack.push((false, Vec::new()));
            proof {
                assert(exps_view(stack@.last().1@) =~= Seq::<ExpV>::empty());
                assert(frames_view(stack@) =~~= fv.push(
                    FrameV { curly: false, elems: Seq::<ExpV>::empty() },
                ));
            }
            i = i + 1;
        } else if str_eq(t.as_str(), "{") {
            let mut elems: Vec<LispExp> = Vec::new();
            elems.push(LispExp::Symbol(String::from_str("set")));
            stack.push((true, elems));
            proof {
                assert(exps_view(stack@.last().1@) =~= seq![ExpV::Sym("set"@)]);
                assert(frames_view(stack@) =~~= fv.push(
                    FrameV { curly: true, elems: seq![ExpV::Sym("set"@)] },
                ));
            }
            i = i + 1;
        } else if str_eq(t.as_str(), ")") {
            let l: usize = stack.len();
            if l > 0 && !stack[l - 1].0 {
                let top: (bool, Vec<LispExp>) = stack.pop().unwrap();
                let exp: LispExp = LispExp::List(top.1);
                proof {
                    assert(fv.last().elems == exps_view(top.1@));
                }
                if stack.len() == 0 {
                    let rest: &'a [String] = vstd::slice::slice_subrange(tokens, i + 1, n);
                    proof {
                        assert(rest@ =~= tokens@.skip(i + 1 as int));
                    }
                    return Ok((exp, rest));
                } else {
                    let mut top2: (bool, Vec<LispExp>) = stack.pop().unwrap();
                    top2.1.push(exp);
                    stack.push(top2);
                    proof {
                        assert(exps_view(stack@.last().1@) =~= fv.drop_last().last().elems.push(
                            ExpV::List(fv.last().elems),
                        ));
                        assert(frames_view(stack@) =~~= push_elem(
                            fv.drop_last(),
                            ExpV::List(fv.last().elems),
                        ));
                    }
                    i = i + 1;
                }
            } else {
                return Err(ParseError::UnexpectedToken(String::from_str(")")));
            }
        } else if str_eq(t.as_str(), "}") {
            let l: usize = stack.len();
            if l > 0 && stack[l - 1].0 {
                let top: (bool, Vec<LispExp>) = stack.pop().unwrap();
                let exp: LispExp = LispExp::List(top.1);
                proof {
                    assert(fv.last().elems == exps_view(top.1@));
                }
                if stack.len() == 0 {
                    let rest: &'a [String] = vstd::slice::slice_subrange(tokens, i + 1, n);
                    proof {
                        assert(rest@ =~= tokens@.skip(i + 1 as int));
                    }
                    return Ok((exp, rest));
                } else {
                    let mut top2: (bool, Vec<LispExp>) = stack.pop().unwrap();
                    top2.1.push(exp);
                    stack.push(top2);
                    proof {
                        assert(exps_view(stack@.last().1@) =~= fv.drop_last().last().elems.push(
                            ExpV::List(fv.last().elems),
                        ));
                        assert(frames_view(stack@) =~~= push_elem(
                            fv.drop_last(),
                            ExpV::List(fv.last().elems),
                        ));
                    }
                    i = i + 1;
                }
            } else {
                return Err(ParseError::UnexpectedToken(String::from_str(")")));
            }
        } else {
            let a: LispExp = parse_token(t.as_str());
            if stack.len() == 0 {
                let rest: &'a [String] = vstd::slice::slice_subrange(tokens, i + 1, n);
                proof {
                    assert(rest@ =~= tokens@.skip(i + 1 as int));
                }
                return Ok((a, rest));
            } else {
                let mut top2: (bool, Vec<LispExp>) = stack.pop().unwrap();
                top2.1.push(a);
                stack.push(top2);
                proof {
                    assert(exps_view(stack@.last().1@) =~= fv.last().elems.push(a@));
                    assert(frames_view(stack@) =~~= push_elem(fv, atom_of(t@)));
                }
                i = i + 1;
            }
        }
    }
}

} // verus!
