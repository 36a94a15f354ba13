//! The numeric model of the interpreter.
//!
//! Numbers are fixed-point decimals: a value is an integer mantissa scaled
//! by `SCALE` (nine fractional decimal digits). All arithmetic is exact
//! integer arithmetic on mantissas; multiplication and division truncate
//! toward zero at the ninth fractional digit. An operation whose result
//! does not fit the mantissa range, or a division or remainder by zero,
//! reports failure instead of producing a value.

use vstd::prelude::*;
use vstd::string::*;

verus! {

/// Mantissa units per 1: nine fractional decimal digits.
pub const SCALE: i64 = 1_000_000_000;

/// A fixed-point decimal number: value = `mantissa` / `SCALE`.
#[derive(Clone, Copy, PartialEq, Eq, Structural, Debug)]
pub struct LispNum {
    pub mantissa: i64,
}

/// The arithmetic operators folded over argument lists.
#[derive(Clone, Copy, PartialEq, Eq, Structural, Debug)]
pub enum ArithOp {
    Add,
    Sub,
    Mul,
    Div,
    Mod,
}

/// The binary comparison relations on numbers.
#[derive(Clone, Copy, PartialEq, Eq, Structural, Debug)]
pub enum CmpOp {
    Eq,
    Lt,
    Gt,
    Le,
    Ge,
}

pub open spec fn in_i64(m: int) -> bool {
    i64::MIN <= m <= i64::MAX
}

pub open spec fn abs_m(a: int) -> int {
    if a < 0 {
        -a
    } else {
        a
    }
}

pub open spec fn opposite_signs(a: int, b: int) -> bool {
    (a < 0) != (b < 0)
}

/// Mantissa of the product of two fixed-point values, truncated toward zero.
pub open spec fn mul_mant(a: int, b: int) -> int {
    let p = (abs_m(a) * abs_m(b)) / (SCALE as int);
    if opposite_signs(a, b) {
        -p
    } else {
        p
    }
}

/// Mantissa of the quotient of two fixed-point values, truncated toward zero.
pub open spec fn div_mant(a: int, b: int) -> int {
    let p = (abs_m(a) * (SCALE as int)) / abs_m(b);
    if opposite_signs(a, b) {
        -p
    } else {
        p
    }
}

/// Mantissa of the remainder, carrying the sign of the dividend.
pub open spec fn mod_mant(a: int, b: int) -> int {
    let r = abs_m(a) % abs_m(b);
    if a < 0 {
        -r
    } else {
        r
    }
}

/// What one arithmetic step yields on two mantissas: `None` on overflow
/// or on a zero divisor.
pub open spec fn arith_spec(op: ArithOp, a: int, b: int) -> Option<int> {
    match op {
        ArithOp::Add => if in_i64(a + b) {
            Some(a + b)
        } else {
            None
        },
        ArithOp::Sub => if in_i64(a - b) {
            Some(a - b)
        } else {
            None
        },
        ArithOp::Mul => if in_i64(mul_mant(a, b)) {
            Some(mul_mant(a, b))
        } else {
            None
        },
        ArithOp::Div => if b == 0 {
            None
        } else if in_i64(div_mant(a, b)) {
            Some(div_mant(a, b))
        } else {
            None
        },
        ArithOp::Mod => if b == 0 {
            None
        } else {
            Some(mod_mant(a, b))
        },
    }
}

/// What one comparison step yields on two mantissas.
pub open spec fn cmp_spec(op: CmpOp, a: int, b: int) -> bool {
    match op {
        CmpOp::Eq => a == b,
        CmpOp::Lt => a < b,
        CmpOp::Gt => a > b,
        CmpOp::Le => a <= b,
        CmpOp::Ge => a >= b,
    }
}

/// Magnitude of a mantissa, computed without overflow.
fn abs_u128(a: i64) -> (r: u128)
    ensures
        r == abs_m(a as int),
{
    if a < 0 {
        let w: i128 = -(a as i128);
        w as u128
    } else {
        a as u128
    }
}

/// One arithmetic step on two numbers; `None` on overflow or zero divisor.
pub fn arith(op: ArithOp, a: LispNum, b: LispNum) -> (r: Option<LispNum>)
    ensures
        match arith_spec(op, a.mantissa as int, b.mantissa as int) {
            Some(m) => r matches Some(n) && n.mantissa == m,
            None => r is None,
        },
{
    match op {
        ArithOp::Add => {
            let s: i128 = a.mantissa as i128 + b.mantissa as i128;
            if s < i64::MIN as i128 || s > i64::MAX as i128 {
                None
            } else {
                Some(LispNum { mantissa: s as i64 })
            }
        },
        ArithOp::Sub => {
            let s: i128 = a.mantissa as i128 - b.mantissa as i128;
            if s < i64::MIN as i128 || s > i64::MAX as i128 {
                None
            } else {
                Some(LispNum { mantissa: s as i64 })
            }
        },
        ArithOp::Mul => {
            let ma = abs_u128(a.mantissa);
            let mb = abs_u128(b.mantissa);
            assert(ma * mb <= 0x8000_0000_0000_0000u128 * 0x8000_0000_0000_0000u128)
                by (nonlinear_arith)
                requires
                    ma <= 0x8000_0000_0000_0000u128,
                    mb <= 0x8000_0000_0000_0000u128,
            ;
            let p: u128 = (ma * mb) / (SCALE as u128);
            signed_of_magnitude(p, opposite_signs_exec(a.mantissa, b.mantissa))
        },
        ArithOp::Div => {
            if b.mantissa == 0 {
                None
            } else {
                let ma = abs_u128(a.mantissa);
                let mb = abs_u128(b.mantissa);
                assert(ma * (SCALE as u128) <= 0x8000_0000_0000_0000u128 * 1_000_000_000u128)
                    by (nonlinear_arith)
                    requires
                        ma <= 0x8000_0000_0000_0000u128,
                ;
                let p: u128 = (ma * (SCALE as u128)) / mb;
                signed_of_magnitude(p, opposite_signs_exec(a.mantissa, b.mantissa))
            }
        },
        ArithOp::Mod => {
            if b.mantissa == 0 {
                None
            } else {
                let ma = abs_u128(a.mantissa);
                let mb = abs_u128(b.mantissa);
                let p: u128 = ma % mb;
                signed_of_magnitude(p, a.mantissa < 0)
            }
        },
    }
}

fn opposite_signs_exec(a: i64, b: i64) -> (r: bool)
    ensures
        r == opposite_signs(a as int, b as int),
{
    (a < 0) != (b < 0)
}

/// Applies a sign to a magnitude, refusing magnitudes outside the mantissa
/// range.
fn signed_of_magnitude(p: u128, neg: bool) -> (r: Option<LispNum>)
    ensures
        ({
            let m: int = if neg {
                -(p as int)
            } else {
                p as int
            };
            match r {
                Some(n) => in_i64(m) && n.mantissa == m,
                None => !in_i64(m),
            }
        }),
{
    if neg {
        if p > 0x8000_0000_0000_0000u128 {
            None
        } else {
            let w: i128 = -(p as i128);
            Some(LispNum { mantissa: w as i64 })
        }
    } else {
        if p > i64::MAX as u128 {
            None
        } else {
            Some(LispNum { mantissa: p as i64 })
        }
    }
}

/// One comparison step on two numbers.
pub fn compare_num(op: CmpOp, a: LispNum, b: LispNum) -> (r: bool)
    ensures
        r == cmp_spec(op, a.mantissa as int, b.mantissa as int),
{
    match op {
        CmpOp::Eq => a.mantissa == b.mantissa,
        CmpOp::Lt => a.mantissa < b.mantissa,
        CmpOp::Gt => a.mantissa > b.mantissa,
        CmpOp::Le => a.mantissa <= b.mantissa,
        CmpOp::Ge => a.mantissa >= b.mantissa,
    }
}

// ---------------------------------------------------------------------------
// Reading numbers from token text.
//
// The accepted grammar is: an optional sign, then decimal digits with at
// most one point, with at least one digit overall. Fractional digits past
// the ninth are truncated. A token whose value does not fit the mantissa
// range is not a number. (Exponents and non-finite forms are not numbers
// under this model.)
// ---------------------------------------------------------------------------

pub open spec fn is_digit(c: char) -> bool {
    48 <= c as u32 <= 57
}

pub open spec fn digit_val(c: char) -> int {
    c as u32 - 48
}

pub open spec fn all_digits(s: Seq<char>) -> bool {
    forall|i: int| 0 <= i < s.len() ==> is_digit(#[trigger] s[i])
}

/// The integer denoted by a digit sequence, most significant first.
pub open spec fn digits_val(s: Seq<char>) -> int
    decreases s.len(),
{
    if s.len() == 0 {
        0
    } else {
        digits_val(s.drop_last()) * 10 + digit_val(s.last())
    }
}

pub open spec fn pow10(n: nat) -> int
    decreases n,
{
    if n == 0 {
        1
    } else {
        10 * pow10((n - 1) as nat)
    }
}

/// Index of the first `'.'` at or after `i`, or -1 when there is none.
pub open spec fn find_dot(s: Seq<char>, i: int) -> int
    decreases s.len() - i,
    when 0 <= i <= s.len()
{
    if i >= s.len() {
        -1
    } else if s[i] == '.' {
        i
    } else {
        find_dot(s, i + 1)
    }
}

/// Mantissa contribution of the fractional digit run: the first nine
/// digits, padded on the right with zeros to nine places.
pub open spec fn frac_val(fp: Seq<char>) -> int {
    let k: int = if fp.len() > 9 {
        9
    } else {
        fp.len() as int
    };
    digits_val(fp.take(k)) * pow10((9 - k) as nat)
}

/// The unsigned mantissa denoted by a sign-stripped token body, or `None`
/// when the body is not a digit run with at most one point.
pub open spec fn num_body_val(s: Seq<char>) -> Option<int> {
    let d = find_dot(s, 0);
    if d == -1 {
        if s.len() > 0 && all_digits(s) {
            Some(digits_val(s) * (SCALE as int))
        } else {
            None
        }
    } else {
        let ip = s.take(d);
        let fp = s.skip(d + 1);
        if ip.len() + fp.len() > 0 && all_digits(ip) && all_digits(fp) {
            Some(digits_val(ip) * (SCALE as int) + frac_val(fp))
        } else {
            None
        }
    }
}

/// The mantissa denoted by a whole token, or `None` when the token is not
/// a number that fits the mantissa range.
pub open spec fn parse_num_v(t: Seq<char>) -> Option<int> {
    if t.len() == 0 {
        None
    } else {
        let neg = t[0] == '-';
        let b0: int = if t[0] == '-' || t[0] == '+' {
            1
        } else {
            0
        };
        match num_body_val(t.skip(b0)) {
            Some(v) => {
                let m: int = if neg {
                    -v
                } else {
                    v
                };
                if in_i64(m) {
                    Some(m)
                } else {
                    None
                }
            },
            None => None,
        }
    }
}

pub proof fn lemma_all_digits_drop_last(s: Seq<char>)
    requires
        all_digits(s),
        s.len() > 0,
    ensures
        all_digits(s.drop_last()),
{
    assert forall|i: int| 0 <= i < s.drop_last().len() implies is_digit(
        #[trigger] s.drop_last()[i],
    ) by {
        assert(s.drop_last()[i] == s[i]);
    }
}

pub proof fn lemma_digits_val_nonneg(s: Seq<char>)
    requires
        all_digits(s),
    ensures
        digits_val(s) >= 0,
    decreases s.len(),
{
    if s.len() > 0 {
        lemma_all_digits_drop_last(s);
        lemma_digits_val_nonneg(s.drop_last());
        assert(is_digit(s.last()));
        assert(digits_val(s.drop_last()) * 10 >= 0) by (nonlinear_arith)
            requires
                digits_val(s.drop_last()) >= 0,
        ;
    }
}

pub proof fn lemma_digits_val_prefix(s: Seq<char>, i: int)
    requires
        all_digits(s),
        0 <= i <= s.len(),
    ensures
        digits_val(s.take(i)) <= digits_val(s),
    decreases s.len(),
{
    if i < s.len() {
        assert(s.take(i) =~= s.drop_last().take(i));
        lemma_all_digits_drop_last(s);
        lemma_digits_val_prefix(s.drop_last(), i);
        lemma_digits_val_nonneg(s.drop_last());
        assert(is_digit(s.last()));
        assert(digits_val(s.drop_last()) * 10 >= digits_val(s.drop_last())) by (nonlinear_arith)
            requires
                digits_val(s.drop_last()) >= 0,
        ;
    } else {
        assert(s.take(i) =~= s);
    }
}

pub proof fn lemma_digits_val_upper(s: Seq<char>)
    requires
        all_digits(s),
    ensures
        digits_val(s) < pow10(s.len()),
    decreases s.len(),
{
    if s.len() > 0 {
        lemma_all_digits_drop_last(s);
        lemma_digits_val_upper(s.drop_last());
        assert(is_digit(s.last()));
        let x = digits_val(s.drop_last());
        let p = pow10((s.len() - 1) as nat);
        assert(x * 10 + digit_val(s.last()) < 10 * p) by (nonlinear_arith)
            requires
                x < p,
                digit_val(s.last()) <= 9,
        ;
    }
}

pub proof fn lemma_pow10_pos(n: nat)
    ensures
        pow10(n) >= 1,
    decreases n,
{
    if n > 0 {
        lemma_pow10_pos((n - 1) as nat);
    }
}

pub proof fn lemma_pow10_add(a: nat, b: nat)
    ensures
        pow10(a) * pow10(b) == pow10((a + b) as nat),
    decreases a,
{
    if a == 0 {
        assert(pow10(0) == 1);
    } else {
        lemma_pow10_add((a - 1) as nat, b);
        let x = pow10((a - 1) as nat);
        let y = pow10(b);
        let z = pow10((a - 1 + b) as nat);
        assert((10 * x) * y == 10 * (x * y)) by (nonlinear_arith);
        assert(pow10((a + b) as nat) == 10 * z);
    }
}

proof fn lemma_find_dot_props(s: Seq<char>, i: int)
    requires
        0 <= i <= s.len(),
    ensures
        ({
            let r = find_dot(s, i);
            ||| (r == -1 && forall|j: int| i <= j < s.len() ==> s[j] != '.')
            ||| (i <= r < s.len() && s[r] == '.' && forall|j: int| i <= j < r ==> s[j] != '.')
        }),
    decreases s.len() - i,
{
    if i < s.len() && s[i] != '.' {
        lemma_find_dot_props(s, i + 1);
    }
}

pub fn is_digit_exec(c: char) -> (r: bool)
    ensures
        r == is_digit(c),
{
    let u: u32 = c as u32;
    48 <= u && u <= 57
}

fn digit_of(c: char) -> (d: u64)
    requires
        is_digit(c),
    ensures
        d == digit_val(c),
        d <= 9,
{
    let u: u32 = c as u32;
    (u - 48) as u64
}

fn all_digits_range(chars: &Vec<char>, from: usize, to: usize) -> (r: bool)
    requires
        from <= to <= chars@.len(),
    ensures
        r == all_digits(chars@.subrange(from as int, to as int)),
{
    let ghost sub: Seq<char> = chars@.subrange(from as int, to as int);
    let mut i: usize = from;
    while i < to
        invariant
            from <= i <= to <= chars@.len(),
            sub == chars@.subrange(from as int, to as int),
            forall|j: int| from <= j < i ==> is_digit(#[trigger] chars@[j]),
        decreases to - i,
    {
        if !is_digit_exec(chars[i]) {
            assert(sub[i - from] == chars@[i as int]);
            return false;
        }
        i += 1;
    }
    assert forall|k: int| 0 <= k < sub.len() implies is_digit(#[trigger] sub[k]) by {
        assert(sub[k] == chars@[from + k]);
    }
    true
}

/// The value of a digit run, or `None` when it exceeds the mantissa range.
fn digits_value(chars: &Vec<char>, from: usize, to: usize) -> (r: Option<u64>)
    requires
        from <= to <= chars@.len(),
        all_digits(chars@.subrange(from as int, to as int)),
    ensures
        match r {
            Some(v) => v as int == digits_val(chars@.subrange(from as int, to as int)) && v
                <= i64::MAX as u64,
            None => digits_val(chars@.subrange(from as int, to as int)) > i64::MAX as int,
        },
{
    let ghost whole: Seq<char> = chars@.subrange(from as int, to as int);
    let mut acc: u64 = 0;
    let mut i: usize = from;
    while i < to
        invariant
            from <= i <= to <= chars@.len(),
            whole == chars@.subrange(from as int, to as int),
            all_digits(whole),
            acc as int == digits_val(chars@.subrange(from as int, i as int)),
            acc <= i64::MAX as u64,
        decreases to - i,
    {
        let ghost pre: Seq<char> = chars@.subrange(from as int, i as int);
        let ghost post: Seq<char> = chars@.subrange(from as int, i + 1 as int);
        assert(whole[i - from] == chars@[i as int]);
        let d: u64 = digit_of(chars[i]);
        let n128: u128 = acc as u128 * 10 + d as u128;
        proof {
            assert(post.drop_last() =~= pre);
            assert(post.last() == chars@[i as int]);
        }
        if n128 > i64::MAX as u128 {
            proof {
                assert(whole.take(i + 1 - from) =~= post);
                assert forall|k: int| 0 <= k < post.len() implies is_digit(#[trigger] post[k]) by {
                    assert(post[k] == whole[k]);
                }
                lemma_digits_val_prefix(whole, i + 1 - from);
            }
            return None;
        }
        acc = n128 as u64;
        i += 1;
    }
    assert(chars@.subrange(from as int, i as int) =~= whole);
    Some(acc)
}

fn pow10_exec(e: u64) -> (r: u64)
    requires
        e <= 9,
    ensures
        r as int == pow10(e as nat),
{
    proof {
        reveal_with_fuel(pow10, 12);
    }
    if e == 0 {
        1
    } else if e == 1 {
        10
    } else if e == 2 {
        100
    } else if e == 3 {
        1_000
    } else if e == 4 {
        10_000
    } else if e == 5 {
        100_000
    } else if e == 6 {
        1_000_000
    } else if e == 7 {
        10_000_000
    } else if e == 8 {
        100_000_000
    } else {
        1_000_000_000
    }
}

/// Reads a whole token as a number. Mirrors `parse_num_v`.
#[verifier::rlimit(60)]
pub fn parse_num(chars: &Vec<char>) -> (r: Option<LispNum>)
    ensures
        match parse_num_v(chars@) {
            Some(m) => r matches Some(n) && n.mantissa == m,
            None => r is None,
        },
{
    let n: usize = chars.len();
    if n == 0 {
        return None;
    }
    let c0: char = chars[0];
    let neg: bool = c0 == '-';
    let b0: usize = if c0 == '-' || c0 == '+' {
        1
    } else {
        0
    };
    if b0 > n {
        return None;  // unreachable: n >= 1
    }
    let ghost body: Seq<char> = chars@.skip(b0 as int);
    // Find the first point after the sign.
    let mut i: usize = b0;
    let mut dot: usize = n;
    let mut found: bool = false;
    while i < n && !found
        invariant
            b0 <= i <= n,
            n == chars@.len(),
            body == chars@.skip(b0 as int),
            !found ==> dot == n && forall|j: int| 0 <= j < i - b0 ==> body[j] != '.',
            found ==> b0 <= dot < n && body[dot - b0] == '.' && forall|j: int|
                0 <= j < dot - b0 ==> body[j] != '.',
        decreases n - i + (if found {
            0int
        } else {
            1int
        }),
    {
        assert(body[i - b0] == chars@[i as int]);
        if chars[i] == '.' {
            dot = i;
            found = true;
        } else {
            i += 1;
        }
    }
    proof {
        lemma_find_dot_props(body, 0);
        if dot == n {
            assert(find_dot(body, 0) == -1);
        } else {
            assert(find_dot(body, 0) == dot - b0);
        }
    }
    if dot == n {
        // No point: the body is a plain digit run.
        if n - b0 == 0 {
            return None;
        }
        assert(body =~= chars@.subrange(b0 as int, n as int));
        if !all_digits_range(chars, b0, n) {
            return None;
        }
        match digits_value(chars, b0, n) {
            None => {
                proof {
                    let dv = digits_val(body);
                    assert(dv * (SCALE as int) > i64::MAX as int) by (nonlinear_arith)
                        requires
                            dv > i64::MAX as int,
                    ;
                    assert(-(dv * (SCALE as int)) < i64::MIN as int);
                }
                None
            },
            Some(v) => {
                assert((v as u128) * (SCALE as u128) <= 0x7fff_ffff_ffff_ffffu128
                    * 1_000_000_000u128) by (nonlinear_arith)
                    requires
                        v as u128 <= 0x7fff_ffff_ffff_ffffu128,
                ;
                let mv: u128 = v as u128 * (SCALE as u128);
                signed_of_magnitude(mv, neg)
            },
        }
    } else {
        // One point: integer digits before it, fractional digits after it.
        let ghost d: int = dot - b0;
        let ghost ip: Seq<char> = body.take(d);
        let ghost fp: Seq<char> = body.skip(d + 1);
        assert(ip =~= chars@.subrange(b0 as int, dot as int));
        assert(fp =~= chars@.subrange(dot + 1 as int, n as int));
        if (dot - b0) + (n - dot - 1) == 0 {
            return None;
        }
        if !all_digits_range(chars, b0, dot) {
            return None;
        }
        if !all_digits_range(chars, dot + 1, n) {
            return None;
        }
        let fl: usize = n - dot - 1;
        let k: usize = if fl > 9 {
            9
        } else {
            fl
        };
        let ghost fsub: Seq<char> = chars@.subrange(dot + 1 as int, dot + 1 + k as int);
        proof {
            assert(fsub =~= fp.take(k as int));
            assert forall|j: int| 0 <= j < fsub.len() implies is_digit(#[trigger] fsub[j]) by {
                assert(fsub[j] == fp[j]);
            }
            lemma_digits_val_upper(fsub);
            lemma_pow10_pos(9);
            assert(pow10(9) == 1_000_000_000) by {
                reveal_with_fuel(pow10, 12);
            }
            lemma_pow10_add(k as nat, (9 - k) as nat);
            lemma_pow10_pos(k as nat);
            lemma_pow10_pos((9 - k) as nat);
        }
        let fv9: u64 = match digits_value(chars, dot + 1, dot + 1 + k) {
            Some(v) => v,
            None => {
                // at most nine digits never exceed the mantissa range
                proof {
                    let pk = pow10(k as nat);
                    assert(pk <= pow10(9)) by (nonlinear_arith)
                        requires
                            pk * pow10((9 - k) as nat) == pow10(9),
                            pow10((9 - k) as nat) >= 1,
                            pk >= 1,
                    ;
                    assert(false);
                }
                0
            },
        };
        let p10: u64 = pow10_exec((9 - k) as u64);
        proof {
            let pk = pow10(k as nat);
            let pr = pow10((9 - k) as nat);
            lemma_digits_val_nonneg(fsub);
            assert(fv9 as int * pr <= (pk - 1) * pr) by (nonlinear_arith)
                requires
                    fv9 as int <= pk - 1,
                    pr >= 1,
            ;
            assert((pk - 1) * pr == pk * pr - pr) by (nonlinear_arith);
            assert(fv9 as int * pr >= 0) by (nonlinear_arith)
                requires
                    fv9 as int >= 0,
                    pr >= 1,
            ;
        }
        let fv: u64 = fv9 * p10;
        assert(fv as int == frac_val(fp));
        match digits_value(chars, b0, dot) {
            None => {
                proof {
                    let dv = digits_val(ip);
                    assert(dv * (SCALE as int) > i64::MAX as int) by (nonlinear_arith)
                        requires
                            dv > i64::MAX as int,
                    ;
                    assert(-(dv * (SCALE as int) + frac_val(fp)) < i64::MIN as int);
                }
                None
            },
            Some(ipv) => {
                assert((ipv as u128) * (SCALE as u128) <= 0x7fff_ffff_ffff_ffffu128
                    * 1_000_000_000u128) by (nonlinear_arith)
                    requires
                        ipv as u128 <= 0x7fff_ffff_ffff_ffffu128,
                ;
                let mv: u128 = ipv as u128 * (SCALE as u128) + fv as u128;
                signed_of_magnitude(mv, neg)
            },
        }
    }
}

// ---------------------------------------------------------------------------
// Rendering numbers as text.
//
// The integer part is printed in full; a nonzero fractional part follows a
// point with its trailing zeros dropped.
// ---------------------------------------------------------------------------

pub open spec fn digit_char(d: int) -> char {
    if d == 0 {
        '0'
    } else if d == 1 {
        '1'
    } else if d == 2 {
        '2'
    } else if d == 3 {
        '3'
    } else if d == 4 {
        '4'
    } else if d == 5 {
        '5'
    } else if d == 6 {
        '6'
    } else if d == 7 {
        '7'
    } else if d == 8 {
        '8'
    } else {
        '9'
    }
}

/// Decimal text of a nonnegative integer, most significant digit first.
pub open spec fn digits_text(n: int) -> Seq<char>
    decreases n,
    when n >= 0
{
    if n < 10 {
        seq![digit_char(n)]
    } else {
        digits_text(n / 10).push(digit_char(n % 10))
    }
}

/// Text of a fraction value `f` over `e` decimal places, trailing zeros
/// dropped: once the remaining value is zero nothing more is printed.
pub open spec fn frac_digits(f: int, e: int) -> Seq<char>
    decreases e,
    when e >= 0
{
    if e <= 0 || f <= 0 {
        Seq::<char>::empty()
    } else {
        seq![digit_char(f / pow10((e - 1) as nat))] + frac_digits(
            f % pow10((e - 1) as nat),
            e - 1,
        )
    }
}

/// Text of a nonnegative mantissa.
pub open spec fn mag_text(m: int) -> Seq<char> {
    digits_text(m / (SCALE as int)) + if m % (SCALE as int) == 0 {
        Seq::<char>::empty()
    } else {
        seq!['.'] + frac_digits(m % (SCALE as int), 9)
    }
}

/// Text of a number's mantissa, sign included.
pub open spec fn num_text(m: int) -> Seq<char> {
    if m < 0 {
        seq!['-'] + mag_text(-m)
    } else {
        mag_text(m)
    }
}

/// Relies on `String::push`: appends the given character to the string.
#[verifier::external_body]
pub(crate) fn push_char(s: &mut String, c: char)
    ensures
        final(s)@ == old(s)@.push(c),
{
    s.push(c);
}

fn digit_char_of(d: u64) -> (c: char)
    requires
        d <= 9,
    ensures
        c == digit_char(d as int),
{
    if d == 0 {
        '0'
    } else if d == 1 {
        '1'
    } else if d == 2 {
        '2'
    } else if d == 3 {
        '3'
    } else if d == 4 {
        '4'
    } else if d == 5 {
        '5'
    } else if d == 6 {
        '6'
    } else if d == 7 {
        '7'
    } else if d == 8 {
        '8'
    } else {
        '9'
    }
}

fn digits_string(n: u64) -> (s: String)
    ensures
        s@ == digits_text(n as int),
    decreases n,
{
    if n < 10 {
        let mut s: String = String::new();
        push_char(&mut s, digit_char_of(n));
        assert(s@ =~= seq![digit_char(n as int)]);
        s
    } else {
        let mut s: String = digits_string(n / 10);
        push_char(&mut s, digit_char_of(n % 10));
        assert(s@ =~= digits_text((n / 10) as int).push(digit_char((n % 10) as int)));
        s
    }
}

fn frac_string(f: u64, e: u64) -> (s: String)
    requires
        e <= 9,
        f < pow10(e as nat),
    ensures
        s@ == frac_digits(f as int, e as int),
    decreases e,
{
    if e == 0 || f == 0 {
        String::new()
    } else {
        let p: u64 = pow10_exec(e - 1);
        proof {
            lemma_pow10_pos((e - 1) as nat);
            assert(f as int / (p as int) < 10) by (nonlinear_arith)
                requires
                    (f as int) < 10 * (p as int),
                    p as int >= 1,
                    f as int >= 0,
            ;
        }
        let hi: u64 = f / p;
        let rest: u64 = f % p;
        let mut s: String = String::new();
        push_char(&mut s, digit_char_of(hi));
        let tail: String = frac_string(rest, e - 1);
        let out: String = s.concat(tail.as_str());
        assert(out@ =~= seq![digit_char(hi as int)] + frac_digits(rest as int, e as int - 1));
        out
    }
}

fn mag_string(mag: u64) -> (s: String)
    ensures
        s@ == mag_text(mag as int),
{
    let ip: u64 = mag / (SCALE as u64);
    let fr: u64 = mag % (SCALE as u64);
    let mut s: String = digits_string(ip);
    if fr == 0 {
        assert(s@ =~= mag_text(mag as int));
        s
    } else {
        proof {
            assert(pow10(9) == 1_000_000_000) by {
                reveal_with_fuel(pow10, 12);
            }
        }
        push_char(&mut s, '.');
        let tail: String = frac_string(fr, 9);
        let out: String = s.concat(tail.as_str());
        assert(out@ =~= mag_text(mag as int));
        out
    }
}

/// Renders a number the way the interpreter prints it.
pub fn num_to_string(n: LispNum) -> (s: String)
    ensures
        s@ == num_text(n.mantissa as int),
{
    let m: i64 = n.mantissa;
    if m < 0 {
        let w: i128 = -(m as i128);
        let mag: u64 = w as u64;
        let body: String = mag_string(mag);
        let sign: String = String::from_str("-");
        proof {
            reveal_strlit("-");
        }
        let out: String = sign.concat(body.as_str());
        assert(out@ =~= num_text(m as int));
        out
    } else {
        let s: String = mag_string(m as u64);
        assert(s@ =~= num_text(m as int));
        s
    }
}

} // verus!
