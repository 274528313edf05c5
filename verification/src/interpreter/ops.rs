//! The operators of Lua on values that have already been evaluated.
use crate::ast::{BinOp, UnOp};
use crate::interpreter::float::FloatOps;
use crate::interpreter::{
    bool_value, bytes_to_int, bytes_to_u64, exec_error, float_negate, float_value, int_value,
    is_float_val, is_int_val, spec_bits_of_bytes, spec_float_negate, spec_int_of_bytes,
    spec_int_val, spec_is_false, ASTExecError, Heap, LuaVal, LuaValue,
};
use crate::interpreter::{spec_magnitude, spec_sign_bit, spec_is_nan};
use crate::text::spec_int_text;
use vstd::arithmetic::power2::{pow2, lemma_pow2_adds, lemma_pow2_pos, lemma_pow2_unfold};
use vstd::prelude::*;

verus! {

/// Division rounding toward minus infinity (Lua's `//` on integers);
/// `b` is not zero.
pub open spec fn spec_floor_div(a: int, b: int) -> int {
    if b > 0 {
        a / b
    } else {
        (-a) / (-b)
    }
}

/// The remainder of division rounding toward minus infinity (Lua's `%` on
/// integers): `a - b * (a // b)`, which has the sign of `b`.
pub open spec fn spec_floor_mod(a: int, b: int) -> int {
    if b > 0 {
        a % b
    } else {
        -((-a) % (-b))
    }
}

/// The 64-bit integer that `x` wraps around to (two's complement, modulo
/// 2^64), as Lua's integer arithmetic does.
pub open spec fn spec_wrap(x: int) -> int {
    if x % 0x1_0000_0000_0000_0000 > i64::MAX {
        x % 0x1_0000_0000_0000_0000 - 0x1_0000_0000_0000_0000
    } else {
        x % 0x1_0000_0000_0000_0000
    }
}

/// The value fits in a 64-bit integer.
pub open spec fn in_i64(x: int) -> bool {
    i64::MIN <= x <= i64::MAX
}

/// Strings compare by their characters, in order; a proper prefix is
/// smaller.
pub open spec fn spec_str_less(a: Seq<char>, b: Seq<char>) -> bool
    decreases a.len(),
{
    if a.len() == 0 {
        b.len() > 0
    } else if b.len() == 0 {
        false
    } else if a[0] != b[0] {
        (a[0] as u32) < (b[0] as u32)
    } else {
        spec_str_less(a.drop_first(), b.drop_first())
    }
}

/// Whether `a` comes before `b`.
pub fn str_less(a: &str, b: &str) -> (r: bool)
    ensures
        r == spec_str_less(a@, b@),
{
    let ca = crate::text::str_to_chars(a);
    let cb = crate::text::str_to_chars(b);
    let mut i: usize = 0;
    assert(a@.skip(0) =~= a@);
    assert(b@.skip(0) =~= b@);
    while i < ca.len() && i < cb.len()
        invariant
            ca@ == a@,
            cb@ == b@,
            i <= ca@.len(),
            i <= cb@.len(),
            spec_str_less(a@, b@) == spec_str_less(a@.skip(i as int), b@.skip(i as int)),
        decreases ca@.len() - i,
    {
        let x = ca[i];
        let y = cb[i];
        assert(a@.skip(i as int)[0] == x && b@.skip(i as int)[0] == y);
        if x != y {
            return (x as u32) < (y as u32);
        }
        assert(a@.skip(i as int).drop_first() =~= a@.skip(i + 1));
        assert(b@.skip(i as int).drop_first() =~= b@.skip(i + 1));
        i = i + 1;
    }
    cb.len() > i
}

/// A proper prefix comes first: when `s` is a proper prefix of `t`, `s` is
/// less than `t` and `t` is not less than `s`.
pub proof fn law_str_prefix_less(s: Seq<char>, t: Seq<char>)
    requires
        s.len() < t.len(),
        t.take(s.len() as int) == s,
    ensures
        spec_str_less(s, t),
        !spec_str_less(t, s),
    decreases s.len(),
{
    if s.len() > 0 {
        assert(t[0] == t.take(s.len() as int)[0]);
        assert(t.drop_first().take(s.drop_first().len() as int) =~= s.drop_first()) by {
            assert forall|k: int| 0 <= k < s.drop_first().len() implies t.drop_first().take(
                s.drop_first().len() as int,
            )[k] == s.drop_first()[k] by {
                assert(t.take(s.len() as int)[k + 1] == s[k + 1]);
            }
        }
        law_str_prefix_less(s.drop_first(), t.drop_first());
    }
}

/// The first differing character decides: when `s` and `t` agree before
/// position `k` and `s[k]` is below `t[k]`, `s` is less than `t` and `t`
/// is not less than `s`.
pub proof fn law_str_first_difference(s: Seq<char>, t: Seq<char>, k: int)
    requires
        0 <= k < s.len(),
        k < t.len(),
        forall|j: int| 0 <= j < k ==> s[j] == t[j],
        (s[k] as u32) < (t[k] as u32),
    ensures
        spec_str_less(s, t),
        !spec_str_less(t, s),
    decreases k,
{
    if k > 0 {
        assert(s[0] == t[0]);
        law_str_first_difference(s.drop_first(), t.drop_first(), k - 1);
    }
}

/// No string is less than itself.
pub proof fn law_str_less_irreflexive(s: Seq<char>)
    ensures
        !spec_str_less(s, s),
    decreases s.len(),
{
    if s.len() > 0 {
        law_str_less_irreflexive(s.drop_first());
    }
}

/// The result of an arithmetic operator on two integers, wrapping around on
/// overflow; `None` for `//` and `%` by zero.
pub open spec fn spec_int_arith(op: BinOp, a: int, b: int) -> Option<int> {
    match op {
        BinOp::Add => Some(spec_wrap(a + b)),
        BinOp::Sub => Some(spec_wrap(a - b)),
        BinOp::Mult => Some(spec_wrap(a * b)),
        BinOp::IntegerDiv => if b == 0 {
            None
        } else {
            Some(spec_wrap(spec_floor_div(a, b)))
        },
        BinOp::Mod => if b == 0 {
            None
        } else {
            Some(spec_floor_mod(a, b))
        },
        _ => None,
    }
}

/// The message of a failed integer operation: a division by zero.
pub open spec fn spec_int_arith_error(op: BinOp, b: int) -> Seq<char> {
    "Cannot divide an integer by zero"@
}

/// Wrapping integer arithmetic agrees with `spec_wrap`.
pub proof fn lemma_wrap_ops(a: i64, b: i64)
    ensures
        vstd::wrapping::i64_specs::wrapping_add(a, b) as int == spec_wrap(a + b),
        vstd::wrapping::i64_specs::wrapping_sub(a, b) as int == spec_wrap(a - b),
        vstd::wrapping::i64_specs::wrapping_mul(a, b) as int == spec_wrap(a * b),
        in_i64(spec_wrap(a * b)),
{
    let m: int = 0x1_0000_0000_0000_0000;
    let s = a + b;
    if s > i64::MAX {
        assert(s % m == s) by (nonlinear_arith)
            requires s > i64::MAX, s < m, m == 0x1_0000_0000_0000_0000;
        assert((s - m) as i64 as int == s - m);
    } else if s < i64::MIN {
        assert(s % m == s + m) by (nonlinear_arith)
            requires s < i64::MIN, s >= -m, m == 0x1_0000_0000_0000_0000;
        assert((s + m) as i64 as int == s + m);
    } else if s >= 0 {
        assert(s % m == s) by (nonlinear_arith)
            requires 0 <= s < m, m == 0x1_0000_0000_0000_0000;
    } else {
        assert(s % m == s + m) by (nonlinear_arith)
            requires i64::MIN <= s < 0, m == 0x1_0000_0000_0000_0000;
    }
    let d = a - b;
    if d > i64::MAX {
        assert(d % m == d) by (nonlinear_arith)
            requires d > i64::MAX, d < m, m == 0x1_0000_0000_0000_0000;
        assert((d - m) as i64 as int == d - m);
    } else if d < i64::MIN {
        assert(d % m == d + m) by (nonlinear_arith)
            requires d < i64::MIN, d >= -m, m == 0x1_0000_0000_0000_0000;
        assert((d + m) as i64 as int == d + m);
    } else if d >= 0 {
        assert(d % m == d) by (nonlinear_arith)
            requires 0 <= d < m, m == 0x1_0000_0000_0000_0000;
    } else {
        assert(d % m == d + m) by (nonlinear_arith)
            requires i64::MIN <= d < 0, m == 0x1_0000_0000_0000_0000;
    }
    let p = a * b;
    assert(0 <= p % m < m) by (nonlinear_arith)
        requires m == 0x1_0000_0000_0000_0000;
    if p % m > i64::MAX {
        assert((p % m - m) as i64 as int == p % m - m);
    } else {
        assert((p % m) as i64 as int == p % m);
    }
}

/// Integer floor division and floor remainder, computed without overflow:
/// the quotient (before wrapping) and the remainder.
fn floor_div_mod(a: i64, b: i64) -> (r: (i64, i64))
    requires
        b != 0,
    ensures
        r.0 as int == spec_wrap(spec_floor_div(a as int, b as int)),
        r.1 as int == spec_floor_mod(a as int, b as int),
{
    let x = a as i128;
    let d = b as i128;
    let (q, m) = if d > 0 {
        (x.checked_div_euclid(d), x.checked_rem_euclid(d))
    } else {
        let nx = -x;
        let nd = -d;
        let q = nx.checked_div_euclid(nd);
        let m = nx.checked_rem_euclid(nd);
        (q, match m {
            Some(v) => Some(-v),
            None => None,
        })
    };
    proof {
        let xi = x as int;
        let di = d as int;
        if di > 0 {
            assert(0 <= xi % di < di) by (nonlinear_arith)
                requires di > 0;
            assert(xi >= 0 ==> 0 <= xi / di <= xi) by (nonlinear_arith)
                requires di > 0;
            if xi < 0 {
                assert(xi <= xi / di < 0) by (nonlinear_arith)
                    requires di > 0, xi < 0;
            }
        } else {
            assert(0 <= (-xi) % (-di) < -di) by (nonlinear_arith)
                requires di < 0;
            assert(-xi >= 0 ==> 0 <= (-xi) / (-di) <= -xi) by (nonlinear_arith)
                requires di < 0;
            if -xi < 0 {
                assert(-xi <= (-xi) / (-di) < 0) by (nonlinear_arith)
                    requires di < 0, -xi < 0;
            }
        }
    }
    let q = q.unwrap();
    let m = m.unwrap();
    let qi: i64 = if q > 9223372036854775807i128 {
        proof {
            let m2: int = 0x1_0000_0000_0000_0000;
            assert(q as int % m2 == q as int) by (nonlinear_arith)
                requires 0 <= q as int, (q as int) < m2;
        }
        -9223372036854775808i64
    } else {
        proof {
            let m2: int = 0x1_0000_0000_0000_0000;
            if q >= 0 {
                assert(q as int % m2 == q as int) by (nonlinear_arith)
                    requires 0 <= q as int, (q as int) < m2;
            } else {
                assert(q as int % m2 == q as int + m2) by (nonlinear_arith)
                    requires i64::MIN <= q as int, (q as int) < 0, m2 == 0x1_0000_0000_0000_0000;
            }
        }
        q as i64
    };
    (qi, m as i64)
}

/// The operator is one of `+ - * / // ^ %`.
pub open spec fn is_arith_op(op: BinOp) -> bool {
    op == BinOp::Add || op == BinOp::Sub || op == BinOp::Mult || op == BinOp::Div
        || op == BinOp::IntegerDiv || op == BinOp::Pow || op == BinOp::Mod
}

/// The arithmetic operator gives a float on these two numbers: `/` and `^`
/// always do, and every operator but `//` does when an operand is a float.
pub open spec fn spec_float_result(op: BinOp, a: LuaVal, b: LuaVal) -> bool {
    &&& is_arith_op(op)
    &&& a is LuaNum
    &&& b is LuaNum
    &&& op != BinOp::IntegerDiv
    &&& (op == BinOp::Div || op == BinOp::Pow || a matches LuaVal::LuaNum(_, true) || b matches LuaVal::LuaNum(
        _,
        true,
    ))
}

/// The message when an arithmetic operand is not a number.
pub open spec fn spec_not_numbers_message() -> Seq<char> {
    "Cannot execute opration on values that are not numbers"@
}

/// An arithmetic operator `+ - * / // ^ %` on two values. Two integers give
/// an integer, except that `/` and `^` always give floats; a float operand
/// makes the operation a float operation (`//` on floats gives an
/// integer).
pub fn arith_values<F: FloatOps>(op: BinOp, left: &LuaValue, right: &LuaValue, fl: &F) -> (r:
    Result<LuaValue, ASTExecError>)
    requires
        is_arith_op(op),
    ensures
        match (left.0, right.0) {
            (LuaVal::LuaNum(x, false), LuaVal::LuaNum(y, false)) => {
                let a = spec_int_of_bytes(x) as int;
                let b = spec_int_of_bytes(y) as int;
                if op == BinOp::Div || op == BinOp::Pow {
                    r matches Ok(v) && v.0 matches LuaVal::LuaNum(_, true)
                } else {
                    match spec_int_arith(op, a, b) {
                        Some(c) => r matches Ok(v) && is_int_val(v.0, c as i64),
                        None => r matches Err(e) && e.0@ == spec_int_arith_error(op, b),
                    }
                }
            },
            (LuaVal::LuaNum(_, _), LuaVal::LuaNum(_, _)) => r matches Ok(v) && (if op
                == BinOp::IntegerDiv {
                v.0 matches LuaVal::LuaNum(_, false)
            } else {
                v.0 matches LuaVal::LuaNum(_, true)
            }),
            _ => r matches Err(e) && e.0@ == spec_not_numbers_message(),
        },
{
    match (&left.0, &right.0) {
        (LuaVal::LuaNum(x, fx), LuaVal::LuaNum(y, fy)) => {
            if !*fx && !*fy {
                let a = bytes_to_int(*x);
                let b = bytes_to_int(*y);
                match op {
                    BinOp::Add => {
                        proof {
                            lemma_wrap_ops(a, b);
                        }
                        Ok(int_value(a.wrapping_add(b)))
                    },
                    BinOp::Sub => {
                        proof {
                            lemma_wrap_ops(a, b);
                        }
                        Ok(int_value(a.wrapping_sub(b)))
                    },
                    BinOp::Mult => {
                        proof {
                            lemma_wrap_ops(a, b);
                        }
                        Ok(int_value(a.wrapping_mul(b)))
                    },
                    BinOp::IntegerDiv => {
                        if b == 0 {
                            Err(exec_error("Cannot divide an integer by zero"))
                        } else {
                            Ok(int_value(floor_div_mod(a, b).0))
                        }
                    },
                    BinOp::Mod => {
                        if b == 0 {
                            Err(exec_error("Cannot divide an integer by zero"))
                        } else {
                            Ok(int_value(floor_div_mod(a, b).1))
                        }
                    },
                    BinOp::Div => Ok(float_value(fl.div(fl.from_int(a), fl.from_int(b)))),
                    _ => Ok(float_value(fl.pow(fl.from_int(a), fl.from_int(b)))),
                }
            } else {
                let f1 = if *fx {
                    bytes_to_u64(*x)
                } else {
                    fl.from_int(bytes_to_int(*x))
                };
                let f2 = if *fy {
                    bytes_to_u64(*y)
                } else {
                    fl.from_int(bytes_to_int(*y))
                };
                match op {
                    BinOp::Add => Ok(float_value(fl.add(f1, f2))),
                    BinOp::Sub => Ok(float_value(fl.sub(f1, f2))),
                    BinOp::Mult => Ok(float_value(fl.mul(f1, f2))),
                    BinOp::Div => Ok(float_value(fl.div(f1, f2))),
                    BinOp::IntegerDiv => Ok(int_value(fl.floor_div(f1, f2))),
                    BinOp::Pow => Ok(float_value(fl.pow(f1, f2))),
                    _ => Ok(float_value(fl.rem(f1, f2))),
                }
            }
        },
        _ => Err(exec_error("Cannot execute opration on values that are not numbers")),
    }
}

/// Equality of two values, when it does not depend on float arithmetic:
/// `nil` equals `nil`, numbers, strings and booleans compare by value, and
/// tables and functions by identity. Values of other kinds are never equal.
pub open spec fn spec_lua_equal(l: LuaVal, r: LuaVal) -> bool {
    match (l, r) {
        (LuaVal::LuaNil, LuaVal::LuaNil) => true,
        (LuaVal::LuaNum(x, false), LuaVal::LuaNum(y, false)) => spec_int_of_bytes(x)
            == spec_int_of_bytes(y),
        (LuaVal::LuaString(s1), LuaVal::LuaString(s2)) => s1@ == s2@,
        (LuaVal::LuaBool(b1), LuaVal::LuaBool(b2)) => b1 == b2,
        (LuaVal::LuaTable(t1), LuaVal::LuaTable(t2)) => t1 == t2,
        (LuaVal::Function(f1), LuaVal::Function(f2)) => f1 == f2,
        _ => false,
    }
}

/// Both values are numbers and at least one is a float.
pub open spec fn spec_float_pair(l: LuaVal, r: LuaVal) -> bool {
    l is LuaNum && r is LuaNum && (l->LuaNum_1 || r->LuaNum_1)
}

/// `left == right`.
pub fn equal_values<F: FloatOps>(left: &LuaValue, right: &LuaValue, fl: &F) -> (r: bool)
    ensures
        !spec_float_pair(left.0, right.0) ==> r == spec_lua_equal(left.0, right.0),
        spec_float_pair(left.0, right.0) ==> r == (spec_num_order(left.0, right.0) == Some(0i8)),
{
    match (&left.0, &right.0) {
        (LuaVal::LuaNil, LuaVal::LuaNil) => true,
        (LuaVal::LuaNum(x, fx), LuaVal::LuaNum(y, fy)) => {
            if !*fx && !*fy {
                bytes_to_int(*x) == bytes_to_int(*y)
            } else {
                num_order(&left.0, &right.0) == Some(0i8)
            }
        },
        (LuaVal::LuaString(s1), LuaVal::LuaString(s2)) => crate::interpreter::environment::str_eq(
            s1.as_str(),
            s2.as_str(),
        ),
        (LuaVal::LuaBool(b1), LuaVal::LuaBool(b2)) => *b1 == *b2,
        (LuaVal::LuaTable(t1), LuaVal::LuaTable(t2)) => t1.0 == t2.0,
        (LuaVal::Function(f1), LuaVal::Function(f2)) => *f1 == *f2,
        _ => false,
    }
}

// ---------------------------------------------------------------------
// The values of numbers
// ---------------------------------------------------------------------

/// The exponent field of a float (IEEE 754 double precision).
pub open spec fn spec_float_exp(bits: u64) -> int {
    spec_magnitude(bits) as int / 0x10_0000_0000_0000
}

/// The fraction field of a float.
pub open spec fn spec_float_frac(bits: u64) -> int {
    bits as int % 0x10_0000_0000_0000
}

/// The float is infinite: all exponent bits set and no fraction.
pub open spec fn spec_is_inf(bits: u64) -> bool {
    spec_magnitude(bits) == 0x7ff0_0000_0000_0000u64
}

/// The significand of a finite float as an integer: the fraction, with the
/// hidden leading bit for a normal number.
pub open spec fn spec_float_mant(bits: u64) -> nat {
    if spec_float_exp(bits) == 0 {
        spec_float_frac(bits) as nat
    } else {
        (spec_float_frac(bits) + 0x10_0000_0000_0000) as nat
    }
}

/// The power of two the significand of a finite float is scaled by, plus
/// 1074 (so that it is never negative).
pub open spec fn spec_float_scale(bits: u64) -> nat {
    if spec_float_exp(bits) == 0 {
        0
    } else {
        (spec_float_exp(bits) - 1) as nat
    }
}

/// The value of a finite float times 2^1074, which is an integer:
/// `significand * 2^(exponent - 1075)` for a normal number, `fraction *
/// 2^-1074` for a subnormal one, with the sign.
pub open spec fn spec_float_scaled(bits: u64) -> int {
    let v = (spec_float_mant(bits) * pow2(spec_float_scale(bits))) as int;
    if spec_sign_bit(bits) {
        -v
    } else {
        v
    }
}

/// A number as the comparisons see it: whether it is NaN, plus infinity or
/// minus infinity, and otherwise its value times 2^1074.
pub struct NumDesc {
    pub nan: bool,
    pub pos_inf: bool,
    pub neg_inf: bool,
    pub scaled: int,
}

/// An integer as a number.
pub open spec fn spec_int_desc(n: int) -> NumDesc {
    NumDesc { nan: false, pos_inf: false, neg_inf: false, scaled: n * pow2(1074) }
}

/// A float, by its bits, as a number.
pub open spec fn spec_float_desc(bits: u64) -> NumDesc {
    NumDesc {
        nan: spec_is_nan(bits),
        pos_inf: spec_is_inf(bits) && !spec_sign_bit(bits),
        neg_inf: spec_is_inf(bits) && spec_sign_bit(bits),
        scaled: spec_float_scaled(bits),
    }
}

/// A numeric value as a number (any value but a number reads as 0).
pub open spec fn spec_num_desc(v: LuaVal) -> NumDesc {
    match v {
        LuaVal::LuaNum(b, false) => spec_int_desc(spec_int_of_bytes(b) as int),
        LuaVal::LuaNum(b, true) => spec_float_desc(spec_bits_of_bytes(b)),
        _ => spec_int_desc(0),
    }
}

/// The sign of an integer: -1, 0 or 1.
pub open spec fn spec_sign3(x: int) -> i8 {
    if x < 0 {
        -1i8
    } else if x == 0 {
        0i8
    } else {
        1i8
    }
}

/// How two numbers compare by their mathematical values: -1 when `a` is
/// smaller, 0 when they are equal, 1 when `a` is larger; `None` when either
/// is NaN, which is unordered. Plus infinity is above every other number and
/// minus infinity below.
pub open spec fn spec_order_desc(a: NumDesc, b: NumDesc) -> Option<i8> {
    if a.nan || b.nan {
        None
    } else if a.pos_inf {
        Some(if b.pos_inf { 0i8 } else { 1i8 })
    } else if a.neg_inf {
        Some(if b.neg_inf { 0i8 } else { -1i8 })
    } else if b.pos_inf {
        Some(-1i8)
    } else if b.neg_inf {
        Some(1i8)
    } else {
        Some(spec_sign3(a.scaled - b.scaled))
    }
}

/// How two numeric values compare (see `spec_order_desc`).
pub open spec fn spec_num_order(a: LuaVal, b: LuaVal) -> Option<i8> {
    spec_order_desc(spec_num_desc(a), spec_num_desc(b))
}

/// Comparing the other way round gives the opposite answer: `a < b`
/// exactly when `b > a`, and `a == b` exactly when `b == a`.
pub proof fn law_order_antisymmetric(a: LuaVal, b: LuaVal)
    ensures
        spec_num_order(a, b) matches Some(c) ==> spec_num_order(b, a) == Some((0 - c) as i8),
        spec_num_order(a, b) is None ==> spec_num_order(b, a) is None,
{
}

/// Integers compare by their values, whether or not floats take part
/// elsewhere: the order of two integers is the order of the integers.
pub proof fn law_order_ints(x: int, y: int)
    ensures
        spec_order_desc(spec_int_desc(x), spec_int_desc(y)) == Some(spec_sign3(x - y)),
{
    lemma_pow2_pos(1074);
    let p = pow2(1074);
    assert((x * p < y * p) == (x < y) && (x * p == y * p) == (x == y)) by (nonlinear_arith)
        requires
            p > 0,
    ;
}

/// A float strictly between the integers `n` and `n + 1` is above `n`,
/// below `n + 1`, and equal to neither: comparisons see its fraction (it is
/// not rounded to an integer first).
pub proof fn law_order_fraction(bits: u64, n: int)
    requires
        !spec_is_nan(bits),
        !spec_is_inf(bits),
        n * pow2(1074) < spec_float_scaled(bits) < (n + 1) * pow2(1074),
    ensures
        spec_order_desc(spec_float_desc(bits), spec_int_desc(n)) == Some(1i8),
        spec_order_desc(spec_float_desc(bits), spec_int_desc(n + 1)) == Some(-1i8),
        spec_order_desc(spec_int_desc(n), spec_float_desc(bits)) == Some(-1i8),
        spec_order_desc(spec_int_desc(n + 1), spec_float_desc(bits)) == Some(1i8),
{
}

/// A float limit counts by its value: when `n` is the float rounded down,
/// the float is at least `n` and below `n + 1`, so a loop that goes up while
/// the limit is at least its value stops after `n`; likewise a float
/// rounded up to `n` is at most `n` and above `n - 1`.
pub proof fn law_order_limit(bits: u64, n: int)
    requires
        !spec_is_nan(bits),
        !spec_is_inf(bits),
    ensures
        n * pow2(1074) <= spec_float_scaled(bits) < (n + 1) * pow2(1074) ==> (spec_order_desc(
            spec_float_desc(bits),
            spec_int_desc(n),
        ) matches Some(c) && c >= 0) && spec_order_desc(spec_float_desc(bits), spec_int_desc(n + 1)) == Some(
            -1i8,
        ),
        (n - 1) * pow2(1074) < spec_float_scaled(bits) <= n * pow2(1074) ==> (spec_order_desc(
            spec_float_desc(bits),
            spec_int_desc(n),
        ) matches Some(c) && c <= 0) && spec_order_desc(spec_float_desc(bits), spec_int_desc(n - 1)) == Some(
            1i8,
        ),
{
}

/// NaN is unordered: it is neither below, above nor equal to any number.
pub proof fn law_order_nan(bits: u64, b: NumDesc)
    requires
        spec_is_nan(bits),
    ensures
        spec_order_desc(spec_float_desc(bits), b) is None,
        spec_order_desc(b, spec_float_desc(bits)) is None,
{
}

/// Plus infinity is above every number but itself and NaN, and minus
/// infinity below every number but itself and NaN.
pub proof fn law_order_infinities(b: NumDesc)
    requires
        !b.nan,
    ensures
        spec_order_desc(spec_float_desc(0x7ff0_0000_0000_0000u64), b) == Some(if b.pos_inf { 0i8 } else { 1i8 }),
        spec_order_desc(spec_float_desc(0xfff0_0000_0000_0000u64), b) == Some(if b.neg_inf { 0i8 } else { -1i8 }),
{
    assert(spec_magnitude(0xfff0_0000_0000_0000u64) == 0x7ff0_0000_0000_0000u64);
}

/// The negation of a float has the opposite value: its value is minus the
/// float's, and plus and minus infinity trade places.
pub proof fn law_negate_value(bits: u64)
    requires
        !spec_is_nan(bits),
    ensures
        spec_float_desc(spec_float_negate(bits)).scaled == -spec_float_desc(bits).scaled,
        spec_float_desc(spec_float_negate(bits)).pos_inf == spec_float_desc(bits).neg_inf,
        spec_float_desc(spec_float_negate(bits)).neg_inf == spec_float_desc(bits).pos_inf,
        !spec_float_desc(spec_float_negate(bits)).nan,
{
    crate::interpreter::law_float_negate(bits);
    let nb = spec_float_negate(bits);
    assert(spec_float_frac(nb) == spec_float_frac(bits));
    assert(spec_float_exp(nb) == spec_float_exp(bits));
}

/// Larger bit patterns of non-negative finite floats are larger numbers:
/// the value grows strictly with the encoding, across a change of exponent
/// as well as within one.
pub proof fn law_float_value_increases(a: u64, b: u64)
    requires
        a < b,
        b < 0x7ff0_0000_0000_0000u64,
    ensures
        spec_float_scaled(a) < spec_float_scaled(b),
{
    let k: int = 0x10_0000_0000_0000;
    assert(spec_magnitude(a) == a);
    assert(spec_magnitude(b) == b);
    let ea = spec_float_exp(a);
    let eb = spec_float_exp(b);
    let fa = spec_float_frac(a);
    let fb = spec_float_frac(b);
    assert(a == ea * k + fa) by (nonlinear_arith)
        requires
            ea == a as int / k,
            fa == a as int % k,
            k > 0,
    ;
    assert(b == eb * k + fb) by (nonlinear_arith)
        requires
            eb == b as int / k,
            fb == b as int % k,
            k > 0,
    ;
    assert(0 <= fa < k && 0 <= fb < k);
    assert(ea <= eb) by (nonlinear_arith)
        requires
            a == ea * k + fa,
            b == eb * k + fb,
            0 <= fa < k,
            0 <= fb < k,
            a < b,
            k > 0,
    ;
    let ma = spec_float_mant(a) as int;
    let mb = spec_float_mant(b) as int;
    let sa = spec_float_scale(a);
    let sb = spec_float_scale(b);
    lemma_pow2_pos(sa);
    lemma_pow2_pos(sb);
    let pa = pow2(sa) as int;
    let pb = pow2(sb) as int;
    if ea == eb {
        assert(fa < fb) by (nonlinear_arith)
            requires
                a == ea * k + fa,
                b == ea * k + fb,
                a < b,
        ;
        assert(ma * pa < mb * pa) by (nonlinear_arith)
            requires
                ma < mb,
                pa > 0,
        ;
    } else if ea == 0 {
        vstd::arithmetic::power2::lemma2_to64();
        assert(mb >= k);
        assert(sa == 0);
        assert(pa == 1);
        assert(ma * pa == ma) by (nonlinear_arith)
            requires
                pa == 1,
        ;
        assert(k <= mb * pb) by (nonlinear_arith)
            requires
                mb >= k,
                pb >= 1,
                k > 0,
        ;
    } else {
        lemma_pow2_unfold((sa + 1) as nat);
        if sa + 1 < sb {
            vstd::arithmetic::power2::lemma_pow2_strictly_increases((sa + 1) as nat, sb);
        }
        let pa1 = pow2((sa + 1) as nat) as int;
        assert(pa1 <= pb);
        assert(ma * pa < 2 * k * pa) by (nonlinear_arith)
            requires
                ma < 2 * k,
                pa > 0,
        ;
        assert(2 * k * pa == k * pa1) by (nonlinear_arith)
            requires
                pa1 == 2 * pa,
        ;
        assert(k * pa1 <= k * pb) by (nonlinear_arith)
            requires
                pa1 <= pb,
                k > 0,
        ;
        assert(k * pb <= mb * pb) by (nonlinear_arith)
            requires
                mb >= k,
                pb > 0,
        ;
    }
}

/// The floats with exponent field 1075 are the integers from 2^52 to
/// 2^53 - 1, one for each fraction: such a float equals the integer
/// `2^52 + fraction`.
pub proof fn law_float_integers(f: u64)
    requires
        f < 0x10_0000_0000_0000u64,
    ensures
        spec_order_desc(
            spec_float_desc((0x4330_0000_0000_0000u64 + f) as u64),
            spec_int_desc(0x10_0000_0000_0000 + f),
        ) == Some(0i8),
{
    let bits = (0x4330_0000_0000_0000u64 + f) as u64;
    assert(spec_magnitude(bits) == bits);
    assert(spec_float_exp(bits) == 1075);
    assert(spec_float_frac(bits) == f);
}

/// Compares `m1 * 2^d` with `m2`.
fn order_shifted(m1: u64, d: u32, m2: u64) -> (r: i8)
    ensures
        r == spec_sign3(m1 * pow2(d as nat) - m2),
{
    if m1 == 0 {
        proof {
            assert(0 * pow2(d as nat) == 0) by (nonlinear_arith);
        }
        return if m2 == 0 {
            0
        } else {
            -1
        };
    }
    let mut v: u128 = m1 as u128;
    let mut i: u32 = 0;
    proof {
        vstd::arithmetic::power2::lemma2_to64();
    }
    while i < d
        invariant
            i <= d,
            v == m1 * pow2(i as nat),
            v <= 0x3_ffff_ffff_ffff_ffffu128,
            m1 > 0,
        decreases d - i,
    {
        if v > m2 as u128 {
            proof {
                let e = (d - i) as nat;
                lemma_pow2_adds(i as nat, e);
                lemma_pow2_pos(e);
                let p = pow2(i as nat);
                let q = pow2(e);
                assert(m1 * pow2(d as nat) == v * q) by (nonlinear_arith)
                    requires
                        pow2(d as nat) == p * q,
                        v == m1 * p,
                        i + e == d,
                ;
                assert(v * q >= v) by (nonlinear_arith)
                    requires
                        q > 0,
                        v > 0,
                ;
            }
            return 1;
        }
        proof {
            lemma_pow2_unfold((i + 1) as nat);
            let p = pow2(i as nat);
            assert(m1 * pow2((i + 1) as nat) == v * 2) by (nonlinear_arith)
                requires
                    pow2((i + 1) as nat) == 2 * p,
                    v == m1 * p,
            ;
        }
        v = v * 2;
        i = i + 1;
    }
    if v < m2 as u128 {
        -1
    } else if v == m2 as u128 {
        0
    } else {
        1
    }
}

/// Compares `m1 * 2^k1` with `m2 * 2^k2`.
fn order_scaled(m1: u64, k1: u32, m2: u64, k2: u32) -> (r: i8)
    ensures
        r == spec_sign3(m1 * pow2(k1 as nat) - m2 * pow2(k2 as nat)),
{
    if k1 >= k2 {
        let d = k1 - k2;
        let c = order_shifted(m1, d, m2);
        proof {
            lemma_pow2_adds(d as nat, k2 as nat);
            lemma_pow2_pos(k2 as nat);
            let p = pow2(k2 as nat);
            let a = m1 * pow2(d as nat);
            assert(m1 * pow2(k1 as nat) == a * p) by (nonlinear_arith)
                requires
                    pow2(k1 as nat) == pow2(d as nat) * p,
                    a == m1 * pow2(d as nat),
            ;
            assert((a * p < m2 * p) == (a < m2) && (a * p == m2 * p) == (a == m2)) by (nonlinear_arith)
                requires
                    p > 0,
            ;
        }
        c
    } else {
        let d = k2 - k1;
        let c = order_shifted(m2, d, m1);
        proof {
            lemma_pow2_adds(d as nat, k1 as nat);
            lemma_pow2_pos(k1 as nat);
            let p = pow2(k1 as nat);
            let a = m2 * pow2(d as nat);
            assert(m2 * pow2(k2 as nat) == a * p) by (nonlinear_arith)
                requires
                    pow2(k2 as nat) == pow2(d as nat) * p,
                    a == m2 * pow2(d as nat),
            ;
            assert((a * p < m1 * p) == (a < m1) && (a * p == m1 * p) == (a == m1)) by (nonlinear_arith)
                requires
                    p > 0,
            ;
        }
        0 - c
    }
}

/// The parts of a number that is neither NaN nor infinite: whether it is
/// below zero, and `m`, `k` with magnitude `m * 2^k` times 2^-1074.
fn num_parts(v: &LuaVal) -> (r: (bool, u64, u32))
    requires
        v is LuaNum,
        !spec_num_desc(*v).nan,
        !spec_num_desc(*v).pos_inf,
        !spec_num_desc(*v).neg_inf,
    ensures
        r.1 * pow2(r.2 as nat) > 0 || !r.0,
        spec_num_desc(*v).scaled == (if r.0 { -(r.1 * pow2(r.2 as nat)) } else { r.1 * pow2(r.2 as nat) }),
{
    match v {
        LuaVal::LuaNum(b, false) => {
            let n = bytes_to_int(*b);
            let m: u64 = if n < 0 {
                (0i128 - (n as i128)) as u64
            } else {
                n as u64
            };
            proof {
                lemma_pow2_pos(1074);
                assert(n * pow2(1074) == (if n < 0 { -(m * pow2(1074)) } else { m * pow2(1074) })) by (nonlinear_arith)
                    requires
                        m == (if n < 0 { -n } else { n as int }),
                ;
                assert(m * pow2(1074) > 0 || !(n < 0)) by (nonlinear_arith)
                    requires
                        n < 0 ==> m > 0,
                        pow2(1074) > 0,
                ;
            }
            (n < 0, m, 1074)
        },
        LuaVal::LuaNum(b, _) => {
            let bits = bytes_to_u64(*b);
            let mag = bits % 0x8000_0000_0000_0000u64;
            let exp = mag / 0x10_0000_0000_0000u64;
            let frac = bits % 0x10_0000_0000_0000u64;
            let m: u64 = if exp == 0 {
                frac
            } else {
                frac + 0x10_0000_0000_0000u64
            };
            let k: u32 = if exp == 0 {
                0
            } else {
                (exp - 1) as u32
            };
            let neg = bits >= 0x8000_0000_0000_0000u64 && m != 0;
            proof {
                lemma_pow2_pos(k as nat);
                assert(m * pow2(k as nat) > 0 || m == 0) by (nonlinear_arith)
                    requires
                        pow2(k as nat) > 0,
                ;
                assert(0 * pow2(k as nat) == 0) by (nonlinear_arith);
            }
            (neg, m, k)
        },
        _ => (false, 0, 0),
    }
}

/// How two numbers compare by their values (see `spec_num_order`).
pub fn num_order(a: &LuaVal, b: &LuaVal) -> (r: Option<i8>)
    requires
        a is LuaNum,
        b is LuaNum,
    ensures
        r == spec_num_order(*a, *b),
{
    let ca = num_class(a);
    let cb = num_class(b);
    if ca == 3 || cb == 3 {
        return None;
    }
    if ca == 1 {
        return Some(if cb == 1 { 0 } else { 1 });
    }
    if ca == 2 {
        return Some(if cb == 2 { 0 } else { -1 });
    }
    if cb == 1 {
        return Some(-1);
    }
    if cb == 2 {
        return Some(1);
    }
    let (na, ma, ka) = num_parts(a);
    let (nb, mb, kb) = num_parts(b);
    if !na && !nb {
        Some(order_scaled(ma, ka, mb, kb))
    } else if na && nb {
        let c = order_scaled(ma, ka, mb, kb);
        Some(0 - c)
    } else if na {
        Some(-1)
    } else {
        Some(1)
    }
}

/// The kind of a number: 0 finite, 1 plus infinity, 2 minus infinity, 3 NaN.
fn num_class(v: &LuaVal) -> (c: u8)
    requires
        v is LuaNum,
    ensures
        c == (if spec_num_desc(*v).nan {
            3u8
        } else if spec_num_desc(*v).pos_inf {
            1u8
        } else if spec_num_desc(*v).neg_inf {
            2u8
        } else {
            0u8
        }),
{
    match v {
        LuaVal::LuaNum(b, true) => {
            let bits = bytes_to_u64(*b);
            let mag = bits % 0x8000_0000_0000_0000u64;
            if mag > 0x7ff0_0000_0000_0000u64 {
                3
            } else if mag == 0x7ff0_0000_0000_0000u64 {
                if bits >= 0x8000_0000_0000_0000u64 {
                    2
                } else {
                    1
                }
            } else {
                0
            }
        },
        _ => 0,
    }
}

/// The message when two values cannot be ordered.
pub open spec fn spec_compare_message() -> Seq<char> {
    "Cannot compare two values due to types"@
}

/// `left < right` (or `left > right` when `is_less_than` is false), for two
/// numbers or two strings.
pub fn less_or_greater<F: FloatOps>(
    left: &LuaValue,
    right: &LuaValue,
    is_less_than: bool,
    fl: &F,
) -> (r: Result<bool, ASTExecError>)
    ensures
        match (left.0, right.0) {
            (LuaVal::LuaNum(x, false), LuaVal::LuaNum(y, false)) => {
                let a = spec_int_of_bytes(x);
                let b = spec_int_of_bytes(y);
                r == Ok::<bool, ASTExecError>(if is_less_than { a < b } else { a > b })
            },
            (LuaVal::LuaNum(_, _), LuaVal::LuaNum(_, _)) => r == Ok::<bool, ASTExecError>(
                if is_less_than {
                    spec_num_order(left.0, right.0) == Some(-1i8)
                } else {
                    spec_num_order(left.0, right.0) == Some(1i8)
                },
            ),
            (LuaVal::LuaString(s1), LuaVal::LuaString(s2)) => r == Ok::<bool, ASTExecError>(
                if is_less_than {
                    spec_str_less(s1@, s2@)
                } else {
                    spec_str_less(s2@, s1@)
                },
            ),
            _ => r matches Err(e) && e.0@ == spec_compare_message(),
        },
{
    match (&left.0, &right.0) {
        (LuaVal::LuaNum(x, fx), LuaVal::LuaNum(y, fy)) => {
            if !*fx && !*fy {
                let a = bytes_to_int(*x);
                let b = bytes_to_int(*y);
                Ok(if is_less_than { a < b } else { a > b })
            } else {
                match num_order(&left.0, &right.0) {
                    Some(c) => Ok(
                        if is_less_than {
                            c == -1
                        } else {
                            c == 1
                        },
                    ),
                    None => Ok(false),
                }
            }
        },
        (LuaVal::LuaString(s1), LuaVal::LuaString(s2)) => {
            if is_less_than {
                Ok(str_less(s1.as_str(), s2.as_str()))
            } else {
                Ok(str_less(s2.as_str(), s1.as_str()))
            }
        },
        _ => Err(exec_error("Cannot compare two values due to types")),
    }
}

/// The bitwise operator is one of `& ~ | >> <<`.
pub open spec fn is_bit_op(op: BinOp) -> bool {
    op == BinOp::BitAnd || op == BinOp::BitXor || op == BinOp::BitOr || op == BinOp::ShiftRight
        || op == BinOp::ShiftLeft
}

/// `a` shifted left by `n` bits as Lua shifts: a negative `n` shifts right
/// (filling with zeros), and a shift by 64 bits or more either way gives 0.
pub open spec fn spec_shift_left(a: i64, n: i64) -> i64 {
    if n <= -64 || n >= 64 {
        0
    } else if n >= 0 {
        a << (n as u32)
    } else {
        ((a as u64) >> ((-n) as u32)) as i64
    }
}

/// `a` shifted right by `n` bits as Lua shifts (filling with zeros): a
/// negative `n` shifts left, and a shift by 64 bits or more gives 0.
pub open spec fn spec_shift_right(a: i64, n: i64) -> i64 {
    if n <= -64 || n >= 64 {
        0
    } else if n >= 0 {
        ((a as u64) >> (n as u32)) as i64
    } else {
        a << ((-n) as u32)
    }
}

/// A bitwise operator on two integers.
pub open spec fn spec_bit_op(op: BinOp, a: i64, b: i64) -> i64 {
    match op {
        BinOp::BitAnd => a & b,
        BinOp::BitXor => a ^ b,
        BinOp::BitOr => a | b,
        BinOp::ShiftRight => spec_shift_right(a, b),
        _ => spec_shift_left(a, b),
    }
}

/// A bitwise operator on two integers.
pub fn bit_op(op: BinOp, a: i64, b: i64) -> (r: i64)
    requires
        is_bit_op(op),
    ensures
        r == spec_bit_op(op, a, b),
{
    match op {
        BinOp::BitAnd => a & b,
        BinOp::BitXor => a ^ b,
        BinOp::BitOr => a | b,
        BinOp::ShiftRight => if b <= -64 || b >= 64 {
            0
        } else if b >= 0 {
            ((a as u64) >> (b as u32)) as i64
        } else {
            a << ((-b) as u32)
        },
        _ => if b <= -64 || b >= 64 {
            0
        } else if b >= 0 {
            a << (b as u32)
        } else {
            ((a as u64) >> ((-b) as u32)) as i64
        },
    }
}

// ---------------------------------------------------------------------
// Operators on values that involve no float
// ---------------------------------------------------------------------

/// Two values are the same `nil`, boolean, integer or string.
pub open spec fn spec_same_scalar(a: LuaVal, b: LuaVal) -> bool {
    match (a, b) {
        (LuaVal::LuaNil, LuaVal::LuaNil) => true,
        (LuaVal::LuaBool(p), LuaVal::LuaBool(q)) => p == q,
        (LuaVal::LuaNum(x, false), LuaVal::LuaNum(y, false)) => spec_int_of_bytes(x)
            == spec_int_of_bytes(y),
        (LuaVal::LuaString(s), LuaVal::LuaString(t)) => s@ == t@,
        _ => false,
    }
}

/// A string value with the given text.
pub open spec fn spec_str_val(t: Seq<char>) -> LuaVal {
    LuaVal::LuaString(choose|s: String| s@ == t)
}

/// Two values are the same value: equal, or the same scalar.
pub open spec fn spec_same_value(a: LuaVal, b: LuaVal) -> bool {
    a == b || spec_same_scalar(a, b)
}

/// A result is the expected value (the same value) or the expected error.
pub open spec fn spec_outcome_of(r: Result<LuaValue, ASTExecError>, res: Result<LuaVal, Seq<char>>) -> bool {
    match res {
        Ok(v) => r matches Ok(w) && spec_same_value(w.0, v),
        Err(m) => r matches Err(e) && e.0@ == m,
    }
}

/// The message when a value cannot be turned into an integer.
pub open spec fn spec_not_int_message() -> Seq<char> {
    "Cannot convert value to integer (types cannot be converted)"@
}

/// The message when a value cannot be concatenated.
pub open spec fn spec_not_string_message() -> Seq<char> {
    "Cannot convert value to String (types cannot be converted)"@
}

/// The text `..` uses for an integer or a string.
pub open spec fn spec_concat_text(v: LuaVal) -> Option<Seq<char>> {
    match v {
        LuaVal::LuaNum(x, false) => Some(spec_int_text(spec_int_of_bytes(x) as int)),
        LuaVal::LuaString(s) => Some(s@),
        _ => None,
    }
}

/// What a unary operator gives on a value, when no float and no table is
/// involved: the value, or the error message. `None` outside that case.
pub open spec fn spec_const_unary(op: UnOp, v: LuaVal) -> Option<Result<LuaVal, Seq<char>>> {
    match op {
        UnOp::Negate => match v {
            LuaVal::LuaNum(x, false) => Some(Ok(spec_int_val(spec_wrap(-spec_int_of_bytes(x)) as i64))),
            LuaVal::LuaNum(_, true) => None,
            _ => Some(Err("Cannot negate values that are not numbers"@)),
        },
        UnOp::LogicalNot => Some(Ok(LuaVal::LuaBool(spec_is_false(v)))),
        UnOp::Length => match v {
            LuaVal::LuaString(s) => {
                let n = vstd::utf8::encode_utf8(s@).len() as usize;
                if n <= i64::MAX {
                    Some(Ok(spec_int_val(n as i64)))
                } else {
                    Some(Err("String is too long"@))
                }
            },
            LuaVal::LuaTable(_) => None,
            _ => Some(Err("Cannot get length of value that is not a string or table"@)),
        },
        UnOp::BitNot => match v {
            LuaVal::LuaNum(x, false) => Some(Ok(spec_int_val(!spec_int_of_bytes(x)))),
            LuaVal::LuaNum(_, true) => None,
            _ => Some(Err(spec_not_int_message())),
        },
    }
}

/// An order comparison (`< > <= >=`) on two integers.
pub open spec fn spec_int_order(op: BinOp, a: i64, b: i64) -> bool {
    if op == BinOp::LessThan {
        a < b
    } else if op == BinOp::GreaterThan {
        a > b
    } else if op == BinOp::LessEq {
        a <= b
    } else {
        a >= b
    }
}

/// An order comparison (`< > <= >=`) on two strings.
pub open spec fn spec_str_order(op: BinOp, s: Seq<char>, t: Seq<char>) -> bool {
    if op == BinOp::LessThan {
        spec_str_less(s, t)
    } else if op == BinOp::GreaterThan {
        spec_str_less(t, s)
    } else if op == BinOp::LessEq {
        !spec_str_less(t, s)
    } else {
        !spec_str_less(s, t)
    }
}

/// The operator is one of `< > <= >=`.
pub open spec fn is_order_op(op: BinOp) -> bool {
    op == BinOp::LessThan || op == BinOp::GreaterThan || op == BinOp::LessEq || op
        == BinOp::GreaterEq
}

/// What a binary operator other than `and` and `or` gives on two values,
/// when no float arithmetic decides it: the value, or the error message.
/// `None` when a float is involved (and for `and`, `or`).
pub open spec fn spec_const_binary(op: BinOp, l: LuaVal, r: LuaVal) -> Option<
    Result<LuaVal, Seq<char>>,
> {
    if is_arith_op(op) {
        match (l, r) {
            (LuaVal::LuaNum(x, false), LuaVal::LuaNum(y, false)) => {
                if op == BinOp::Div || op == BinOp::Pow {
                    None
                } else {
                    let a = spec_int_of_bytes(x) as int;
                    let b = spec_int_of_bytes(y) as int;
                    match spec_int_arith(op, a, b) {
                        Some(c) => Some(Ok(spec_int_val(c as i64))),
                        None => Some(Err(spec_int_arith_error(op, b))),
                    }
                }
            },
            (LuaVal::LuaNum(_, _), LuaVal::LuaNum(_, _)) => None,
            _ => Some(Err(spec_not_numbers_message())),
        }
    } else if is_bit_op(op) {
        match l {
            LuaVal::LuaNum(x, false) => match r {
                LuaVal::LuaNum(y, false) => Some(
                    Ok(spec_int_val(spec_bit_op(op, spec_int_of_bytes(x), spec_int_of_bytes(y)))),
                ),
                LuaVal::LuaNum(_, true) => None,
                _ => Some(Err(spec_not_int_message())),
            },
            LuaVal::LuaNum(_, true) => None,
            _ => Some(Err(spec_not_int_message())),
        }
    } else if op == BinOp::Concat {
        match spec_concat_text(l) {
            Some(a) => match spec_concat_text(r) {
                Some(b) => Some(Ok(spec_str_val(a + b))),
                None => if r is LuaNum {
                    None
                } else {
                    Some(Err(spec_not_string_message()))
                },
            },
            None => if l is LuaNum {
                None
            } else {
                Some(Err(spec_not_string_message()))
            },
        }
    } else if is_order_op(op) {
        match (l, r) {
            (LuaVal::LuaNum(x, false), LuaVal::LuaNum(y, false)) => Some(
                Ok(LuaVal::LuaBool(spec_int_order(op, spec_int_of_bytes(x), spec_int_of_bytes(y)))),
            ),
            (LuaVal::LuaNum(_, _), LuaVal::LuaNum(_, _)) => None,
            (LuaVal::LuaString(s), LuaVal::LuaString(t)) => Some(
                Ok(LuaVal::LuaBool(spec_str_order(op, s@, t@))),
            ),
            _ => Some(Err(spec_compare_message())),
        }
    } else if op == BinOp::Equal {
        if spec_float_pair(l, r) {
            None
        } else {
            Some(Ok(LuaVal::LuaBool(spec_lua_equal(l, r))))
        }
    } else if op == BinOp::NotEqual {
        if spec_float_pair(l, r) {
            None
        } else {
            Some(Ok(LuaVal::LuaBool(!spec_lua_equal(l, r))))
        }
    } else {
        None
    }
}

/// A string value with the text of an existing string.
pub proof fn lemma_str_val(s: String, t: Seq<char>)
    requires
        s@ == t,
    ensures
        spec_same_scalar(LuaVal::LuaString(s), spec_str_val(t)),
{
    let c = choose|x: String| x@ == t;
    assert(c@ == t);
}

/// The operators give the same result on the same values, and the same
/// values are both false or both true.
pub proof fn lemma_same_value_congruent(op: BinOp, uop: UnOp, l: LuaVal, r: LuaVal, l2: LuaVal, r2: LuaVal)
    requires
        spec_same_value(l, l2),
        spec_same_value(r, r2),
    ensures
        spec_const_binary(op, l, r) == spec_const_binary(op, l2, r2),
        spec_const_unary(uop, l) == spec_const_unary(uop, l2),
        spec_is_false(l) == spec_is_false(l2),
{
}

} // verus!
