//! The binary operators on values.

use vstd::prelude::*;
use crate::language::IntType;
use crate::parser::binop::BinaryOp;
use crate::parser::expr::UnaryOp;
use crate::runtime::errors::{ErrorKind, ExecResult, RuntimeError};
use crate::runtime::strings::{
    intern_index, interned_with, text_of, InternSymbol, StringTable, StringValue, SYMBOL_LIMIT,
};
use crate::runtime::types::string::text_lt;
use crate::runtime::variant::{lemma_value_facts, TypeTag, Value, Variant};

verus! {

/// What a binary operator gives, before it is made a value or an error.
pub ghost enum Outcome {
    Integer(int),
    Bool(bool),
    Overflow,
    DivideByZero,
    NegativeShiftCount,
    /// The operator does not take integers.
    Unsupported,
}

/// The quotient of `a` by `b`, rounded towards zero.
pub open spec fn quotient(a: int, b: int) -> int {
    if b == 0 {
        0
    } else if (a >= 0) == (b > 0) {
        if a >= 0 {
            a / b
        } else {
            (-a) / (-b)
        }
    } else {
        if a >= 0 {
            -(a / (-b))
        } else {
            -((-a) / b)
        }
    }
}

/// The remainder of `a` by `b`, with the sign of `a`.
pub open spec fn remainder(a: int, b: int) -> int {
    a - b * quotient(a, b)
}

/// Two to the power `n`.
pub open spec fn two_to(n: nat) -> int
    decreases n,
{
    if n == 0 {
        1
    } else {
        2 * two_to((n - 1) as nat)
    }
}

/// `a` halved `n` times, rounded down each time.
pub open spec fn halved(a: int, n: nat) -> int {
    if a >= 0 {
        a / two_to(n)
    } else {
        -((-a - 1) / two_to(n)) - 1
    }
}

/// `a` as a number of 64 bits in two's complement.
pub open spec fn wrapped(a: int) -> int {
    let low = a % 0x1_0000_0000_0000_0000;
    if low >= 0x8000_0000_0000_0000 {
        low - 0x1_0000_0000_0000_0000
    } else {
        low
    }
}

/// Whether `a` is an integer of the language.
pub open spec fn fits(a: int) -> bool {
    i64::MIN <= a <= i64::MAX
}

/// What `op` gives on the integers `a` and `b`. Sums, differences, products
/// and quotients that are no integer of the language overflow. A shift by a
/// negative count is an error; a shift to the left drops the bits that leave
/// the 64, a shift to the right keeps the sign, and a shift by 64 or more
/// leaves none of the bits of `a`.
pub open spec fn on_integers(op: BinaryOp, a: int, b: int) -> Outcome {
    match op {
        BinaryOp::Add => if fits(a + b) {
            Outcome::Integer(a + b)
        } else {
            Outcome::Overflow
        },
        BinaryOp::Sub => if fits(a - b) {
            Outcome::Integer(a - b)
        } else {
            Outcome::Overflow
        },
        BinaryOp::Mul => if fits(a * b) {
            Outcome::Integer(a * b)
        } else {
            Outcome::Overflow
        },
        BinaryOp::Div => if b == 0 {
            Outcome::DivideByZero
        } else if fits(quotient(a, b)) {
            Outcome::Integer(quotient(a, b))
        } else {
            Outcome::Overflow
        },
        BinaryOp::Mod => if b == 0 {
            Outcome::DivideByZero
        } else {
            Outcome::Integer(remainder(a, b))
        },
        BinaryOp::LShift => if b < 0 {
            Outcome::NegativeShiftCount
        } else if b >= 64 {
            Outcome::Integer(0)
        } else {
            Outcome::Integer(wrapped(a * two_to(b as nat)))
        },
        BinaryOp::RShift => if b < 0 {
            Outcome::NegativeShiftCount
        } else if b >= 64 {
            Outcome::Integer(
                if a < 0 {
                    -1
                } else {
                    0
                },
            )
        } else {
            Outcome::Integer(halved(a, b as nat))
        },
        BinaryOp::LT => Outcome::Bool(a < b),
        BinaryOp::GT => Outcome::Bool(a > b),
        BinaryOp::LE => Outcome::Bool(a <= b),
        BinaryOp::GE => Outcome::Bool(a >= b),
        BinaryOp::EQ => Outcome::Bool(a == b),
        BinaryOp::NE => Outcome::Bool(a != b),
        _ => Outcome::Unsupported,
    }
}

/// Whether `result` is the outcome `outcome` as a value or as an error.
pub open spec fn gives(outcome: Outcome, result: ExecResult<Variant>) -> bool {
    match outcome {
        Outcome::Integer(i) => result matches Ok(Variant::Integer(value)) && value == i,
        Outcome::Bool(b) => result matches Ok(value) && value@ == if b {
            Value::BoolTrue
        } else {
            Value::BoolFalse
        },
        Outcome::Overflow => result matches Err(error) && error.spec_kind() is OverflowError
            && error.trace().len() == 0 && error.spec_cause().is_none(),
        Outcome::DivideByZero => result matches Err(error) && error.spec_kind() is DivideByZero
            && error.trace().len() == 0 && error.spec_cause().is_none(),
        Outcome::NegativeShiftCount => result matches Err(error)
            && error.spec_kind() is NegativeShiftCount && error.trace().len() == 0
            && error.spec_cause().is_none(),
        Outcome::Unsupported => false,
    }
}

/// Powers of two multiply.
pub proof fn lemma_two_to_step(n: nat)
    ensures
        two_to(n + 1) == 2 * two_to(n),
        two_to(n) >= 1,
    decreases n,
{
    if n > 0 {
        lemma_two_to_step((n - 1) as nat);
    }
}

/// `a` shifted left by `count` within 64 bits.
fn shift_left(a: IntType, count: u32) -> (res: IntType)
    requires
        count < 64,
    ensures
        res == wrapped(a * two_to(count as nat)),
{
    let mut res: IntType = a;
    let mut i: u32 = 0;
    while i < count
        invariant
            i <= count,
            count < 64,
            res == wrapped(a * two_to(i as nat)),
        decreases count - i,
    {
        proof {
            lemma_two_to_step(i as nat);
            lemma_wrapped_double(a * two_to(i as nat));
            assert(2 * (a * two_to(i as nat)) == a * two_to((i + 1) as nat)) by (nonlinear_arith)
                requires
                    two_to((i + 1) as nat) == 2 * two_to(i as nat),
            ;
        }
        let doubled: i128 = 2 * (res as i128);
        res = if doubled >= 0x8000_0000_0000_0000i128 {
            (doubled - 0x1_0000_0000_0000_0000i128) as i64
        } else if doubled < -0x8000_0000_0000_0000i128 {
            (doubled + 0x1_0000_0000_0000_0000i128) as i64
        } else {
            doubled as i64
        };
        i += 1;
    }
    res
}

/// Doubling within 64 bits is doubling, then wrapping.
pub proof fn lemma_wrapped_double(x: int)
    ensures
        wrapped(2 * x) == wrapped(2 * wrapped(x)),
        fits(wrapped(x)),
{
    let m = 0x1_0000_0000_0000_0000int;
    let low = x % m;
    let q = x / m;
    assert(x == q * m + low) by {
        vstd::arithmetic::div_mod::lemma_fundamental_div_mod(x, m);
    }
    let w = wrapped(x);
    assert(w == low || w == low - m);
    // 2x and 2w differ by a multiple of 2^64
    if w == low {
        assert(2 * x == 2 * w + (2 * q) * m) by (nonlinear_arith)
            requires
                x == q * m + low,
                w == low,
        ;
        vstd::arithmetic::div_mod::lemma_mod_multiples_vanish(2 * q, 2 * w, m);
    } else {
        assert(2 * x == 2 * w + (2 * q + 2) * m) by (nonlinear_arith)
            requires
                x == q * m + low,
                w == low - m,
        ;
        vstd::arithmetic::div_mod::lemma_mod_multiples_vanish(2 * q + 2, 2 * w, m);
    }
}

/// `a`, which is not negative, halved `count` times.
fn halve(a: IntType, count: u32) -> (res: IntType)
    requires
        a >= 0,
        count < 64,
    ensures
        res == (a as int) / two_to(count as nat),
        res >= 0,
{
    let mut res: IntType = a;
    let mut i: u32 = 0;
    while i < count
        invariant
            i <= count,
            count < 64,
            a >= 0,
            res >= 0,
            res == (a as int) / two_to(i as nat),
        decreases count - i,
    {
        proof {
            lemma_two_to_step(i as nat);
            let p = two_to(i as nat);
            vstd::arithmetic::div_mod::lemma_div_denominator(a as int, p, 2);
            assert(p * 2 == two_to((i + 1) as nat));
        }
        res = res / 2;
        i += 1;
    }
    res
}

/// `a` shifted right by `count`, keeping the sign.
fn shift_right(a: IntType, count: u32) -> (res: IntType)
    requires
        count < 64,
    ensures
        res == halved(a as int, count as nat),
{
    if a >= 0 {
        halve(a, count)
    } else {
        -halve(-(a + 1), count) - 1
    }
}

/// What `op` gives on two integers.
pub fn eval_integers(op: BinaryOp, lhs: IntType, rhs: IntType) -> (result: Option<
    ExecResult<Variant>,
>)
    ensures
        on_integers(op, lhs as int, rhs as int) is Unsupported <==> result.is_none(),
        result matches Some(found) ==> gives(on_integers(op, lhs as int, rhs as int), found),
{
    match op {
        BinaryOp::Add => Some(
            match lhs.checked_add(rhs) {
                Some(sum) => Ok(Variant::Integer(sum)),
                None => Err(RuntimeError::boxed(ErrorKind::OverflowError)),
            },
        ),
        BinaryOp::Sub => Some(
            match lhs.checked_sub(rhs) {
                Some(difference) => Ok(Variant::Integer(difference)),
                None => Err(RuntimeError::boxed(ErrorKind::OverflowError)),
            },
        ),
        BinaryOp::Mul => Some(
            match lhs.checked_mul(rhs) {
                Some(product) => Ok(Variant::Integer(product)),
                None => Err(RuntimeError::boxed(ErrorKind::OverflowError)),
            },
        ),
        BinaryOp::Div => {
            if rhs == 0 {
                return Some(Err(RuntimeError::boxed(ErrorKind::DivideByZero)));
            }
            let q = truncated_quotient(lhs, rhs);
            if q > i64::MAX as i128 {
                return Some(Err(RuntimeError::boxed(ErrorKind::OverflowError)));
            }
            Some(Ok(Variant::Integer(q as i64)))
        },
        BinaryOp::Mod => {
            if rhs == 0 {
                return Some(Err(RuntimeError::boxed(ErrorKind::DivideByZero)));
            }
            let q = truncated_quotient(lhs, rhs);
            let r: i128 = lhs as i128 - rhs as i128 * q;
            Some(Ok(Variant::Integer(r as i64)))
        },
        BinaryOp::LShift => {
            if rhs < 0 {
                return Some(Err(RuntimeError::boxed(ErrorKind::NegativeShiftCount)));
            }
            if rhs >= 64 {
                return Some(Ok(Variant::Integer(0)));
            }
            Some(Ok(Variant::Integer(shift_left(lhs, rhs as u32))))
        },
        BinaryOp::RShift => {
            if rhs < 0 {
                return Some(Err(RuntimeError::boxed(ErrorKind::NegativeShiftCount)));
            }
            if rhs >= 64 {
                return Some(
                    Ok(
                        Variant::Integer(
                            if lhs < 0 {
                                -1
                            } else {
                                0
                            },
                        ),
                    ),
                );
            }
            Some(Ok(Variant::Integer(shift_right(lhs, rhs as u32))))
        },
        BinaryOp::LT => Some(Ok(truth(lhs < rhs))),
        BinaryOp::GT => Some(Ok(truth(lhs > rhs))),
        BinaryOp::LE => Some(Ok(truth(lhs <= rhs))),
        BinaryOp::GE => Some(Ok(truth(lhs >= rhs))),
        BinaryOp::EQ => Some(Ok(truth(lhs == rhs))),
        BinaryOp::NE => Some(Ok(truth(lhs != rhs))),
        _ => None,
    }
}

/// Whether the remainder of `a` by `b` lies between `-|b|` and `|b|`.
pub open spec fn remainder_bounded(a: int, b: int) -> bool {
    if b > 0 {
        -b < remainder(a, b) < b
    } else {
        b < remainder(a, b) < -b
    }
}

/// `true` or `false` as a value.
pub fn truth(value: bool) -> (variant: Variant)
    ensures
        variant@ == if value {
            Value::BoolTrue
        } else {
            Value::BoolFalse
        },
{
    if value {
        Variant::BoolTrue
    } else {
        Variant::BoolFalse
    }
}

/// The quotient of `a` by `b`, rounded towards zero.
fn truncated_quotient(a: IntType, b: IntType) -> (q: i128)
    requires
        b != 0,
    ensures
        q == quotient(a as int, b as int),
        -0x8000_0000_0000_0000 <= q <= 0x8000_0000_0000_0000,
        remainder_bounded(a as int, b as int),
        fits(a - b * q),
{
    let an: i128 = if a < 0 {
        -(a as i128)
    } else {
        a as i128
    };
    let bn: i128 = if b < 0 {
        -(b as i128)
    } else {
        b as i128
    };
    let qn = an / bn;
    proof {
        vstd::arithmetic::div_mod::lemma_fundamental_div_mod(an as int, bn as int);
        vstd::arithmetic::div_mod::lemma_mod_bound(an as int, bn as int);
        assert(0 <= qn <= an) by (nonlinear_arith)
            requires
                an == bn * qn + (an as int) % (bn as int),
                0 <= (an as int) % (bn as int) < bn,
                bn >= 1,
                an >= 0,
        ;
        lemma_quotient(a as int, b as int);
    }
    let q = if (a < 0) != (b < 0) {
        -qn
    } else {
        qn
    };
    proof {
        let r = remainder(a as int, b as int);
        assert(r == a - b * q);
    }
    q
}

/// The quotient that rounds towards zero leaves a remainder smaller than the
/// divisor.
pub proof fn lemma_quotient(a: int, b: int)
    requires
        b != 0,
    ensures
        remainder_bounded(a, b),
{
    if b > 0 {
        if a >= 0 {
            vstd::arithmetic::div_mod::lemma_fundamental_div_mod(a, b);
            vstd::arithmetic::div_mod::lemma_mod_bound(a, b);
        } else {
            vstd::arithmetic::div_mod::lemma_fundamental_div_mod(-a, b);
            vstd::arithmetic::div_mod::lemma_mod_bound(-a, b);
            assert(remainder(a, b) == -((-a) % b)) by (nonlinear_arith)
                requires
                    -a == b * ((-a) / b) + (-a) % b,
                    remainder(a, b) == a - b * (-((-a) / b)),
            ;
        }
    } else {
        if a >= 0 {
            vstd::arithmetic::div_mod::lemma_fundamental_div_mod(a, -b);
            vstd::arithmetic::div_mod::lemma_mod_bound(a, -b);
            assert(remainder(a, b) == a % (-b)) by (nonlinear_arith)
                requires
                    a == (-b) * (a / (-b)) + a % (-b),
                    remainder(a, b) == a - b * (-(a / (-b))),
            ;
        } else {
            vstd::arithmetic::div_mod::lemma_fundamental_div_mod(-a, -b);
            vstd::arithmetic::div_mod::lemma_mod_bound(-a, -b);
            assert(remainder(a, b) == -((-a) % (-b))) by (nonlinear_arith)
                requires
                    -a == (-b) * ((-a) / (-b)) + (-a) % (-b),
                    remainder(a, b) == a - b * ((-a) / (-b)),
            ;
        }
    }
}

/// What a bitwise operator gives on two fields of bits; other operators
/// give nothing.
pub open spec fn on_bits(op: BinaryOp, a: IntType, b: IntType) -> Option<IntType> {
    match op {
        BinaryOp::BitAnd => Some(a & b),
        BinaryOp::BitXor => Some(a ^ b),
        BinaryOp::BitOr => Some(a | b),
        _ => None,
    }
}

/// What a bitwise operator gives on two fields of bits.
pub fn eval_bits(op: BinaryOp, lhs: IntType, rhs: IntType) -> (result: Option<IntType>)
    ensures
        result == on_bits(op, lhs, rhs),
{
    match op {
        BinaryOp::BitAnd => Some(lhs & rhs),
        BinaryOp::BitXor => Some(lhs ^ rhs),
        BinaryOp::BitOr => Some(lhs | rhs),
        _ => None,
    }
}

/// What a comparison gives on two texts; other operators give nothing.
pub open spec fn on_texts(op: BinaryOp, a: Seq<char>, b: Seq<char>) -> Option<bool> {
    match op {
        BinaryOp::LT => Some(text_lt(a, b)),
        BinaryOp::GT => Some(text_lt(b, a)),
        BinaryOp::LE => Some(!text_lt(b, a)),
        BinaryOp::GE => Some(!text_lt(a, b)),
        _ => None,
    }
}

/// The error of an operator that does not take its operands.
pub fn invalid_operands(lhs: &Variant, rhs: &Variant) -> (error: Box<RuntimeError>)
    ensures
        is_invalid_operands(lhs, rhs, error),
{
    RuntimeError::boxed(ErrorKind::InvalidBinaryOperand(lhs.type_tag(), rhs.type_tag()))
}

/// Whether `error` tells that an operator does not take `lhs` and `rhs`:
/// it names their types.
pub open spec fn is_invalid_operands(lhs: &Variant, rhs: &Variant, error: Box<RuntimeError>) -> bool {
    &&& error.spec_kind() matches ErrorKind::InvalidBinaryOperand(left, right)
    &&& left == lhs.spec_type_tag()
    &&& right == rhs.spec_type_tag()
    &&& error.trace().len() == 0
    &&& error.spec_cause().is_none()
}

/// What a binary operator comes to on two values.
pub ghost enum Applied {
    Value(Value),
    Overflow,
    DivideByZero,
    NegativeShiftCount,
    /// The operator does not take values of these types.
    Invalid(TypeTag, TypeTag),
    /// The operator does not take a value of this type.
    InvalidOperand(TypeTag),
    /// A float takes part: the host computes.
    Host,
}

/// `true` or `false` as a value.
pub open spec fn truth_of(value: bool) -> Value {
    if value {
        Value::BoolTrue
    } else {
        Value::BoolFalse
    }
}

/// What an operator on integers comes to.
pub open spec fn applied(outcome: Outcome) -> Applied {
    match outcome {
        Outcome::Integer(i) => Applied::Value(Value::Integer(i as i64)),
        Outcome::Bool(b) => Applied::Value(truth_of(b)),
        Outcome::Overflow => Applied::Overflow,
        Outcome::DivideByZero => Applied::DivideByZero,
        Outcome::NegativeShiftCount => Applied::NegativeShiftCount,
        Outcome::Unsupported => Applied::Host,
    }
}

/// What `op` comes to on the values `lhs` and `rhs`, with the strings
/// `strings` interned.
///
/// Where an operand is a float or holds one, the host computes. `and` and
/// `or` give the operand that decides. The bitwise operators take integers
/// and booleans, a boolean as all ones or all zeros; two booleans give a
/// boolean. Integers are added, compared and shifted as `on_integers` says.
/// Strings are joined by `+`, which interns the joined string, and compared
/// by the order of their characters. `==` and `!=` compare any two values.
/// Other operands are an error that names their types.
pub open spec fn apply_binary(op: BinaryOp, lhs: Value, rhs: Value, strings: Seq<Seq<char>>)
    -> Applied {
    if lhs.holds_float() || rhs.holds_float() {
        Applied::Host
    } else {
        match op {
            BinaryOp::And => Applied::Value(
                if lhs.truth() {
                    rhs
                } else {
                    lhs
                },
            ),
            BinaryOp::Or => Applied::Value(
                if lhs.truth() {
                    lhs
                } else {
                    rhs
                },
            ),
            BinaryOp::BitAnd | BinaryOp::BitXor | BinaryOp::BitOr => match (lhs.bits(), rhs.bits()) {
                (Some(a), Some(b)) => Applied::Value(
                    if lhs.tag() == TypeTag::Bool && rhs.tag() == TypeTag::Bool {
                        truth_of(on_bits(op, a, b).unwrap() != 0)
                    } else {
                        Value::Integer(on_bits(op, a, b).unwrap())
                    },
                ),
                _ => Applied::Invalid(lhs.tag(), rhs.tag()),
            },
            _ => match (lhs, rhs) {
                (Value::Integer(a), Value::Integer(b)) => applied(on_integers(op, a as int, b as int)),
                (Value::String(a), Value::String(b)) => match op {
                    BinaryOp::Add => Applied::Value(
                        Value::String(
                            InternSymbol::spec_at(
                                intern_index(strings, text_of(strings, a) + text_of(strings, b)),
                            ),
                        ),
                    ),
                    BinaryOp::LT | BinaryOp::GT | BinaryOp::LE | BinaryOp::GE => Applied::Value(
                        truth_of(on_texts(op, text_of(strings, a), text_of(strings, b)).unwrap()),
                    ),
                    BinaryOp::EQ => Applied::Value(truth_of(a == b)),
                    BinaryOp::NE => Applied::Value(truth_of(a != b)),
                    _ => Applied::Invalid(lhs.tag(), rhs.tag()),
                },
                _ => match op {
                    BinaryOp::EQ => Applied::Value(truth_of(lhs == rhs)),
                    BinaryOp::NE => Applied::Value(truth_of(lhs != rhs)),
                    _ => Applied::Invalid(lhs.tag(), rhs.tag()),
                },
            },
        }
    }
}

/// The strings interned once `op` was applied: the joined string is
/// interned when two strings are added.
pub open spec fn strings_after(op: BinaryOp, lhs: Value, rhs: Value, strings: Seq<Seq<char>>)
    -> Seq<Seq<char>> {
    match (op, lhs, rhs) {
        (BinaryOp::Add, Value::String(a), Value::String(b)) => interned_with(
            strings,
            text_of(strings, a) + text_of(strings, b),
        ),
        _ => strings,
    }
}

/// Whether `error` is a new error of the kind that `applied` tells.
pub open spec fn tells(applied: Applied, error: Box<RuntimeError>) -> bool {
    &&& error.trace().len() == 0
    &&& error.spec_cause().is_none()
    &&& match applied {
        Applied::Overflow => error.spec_kind() is OverflowError,
        Applied::DivideByZero => error.spec_kind() is DivideByZero,
        Applied::NegativeShiftCount => error.spec_kind() is NegativeShiftCount,
        Applied::Invalid(left, right) => error.spec_kind() matches ErrorKind::InvalidBinaryOperand(
            a,
            b,
        ) && a == left && b == right,
        Applied::InvalidOperand(tag) => error.spec_kind() matches ErrorKind::InvalidUnaryOperand(a)
            && a == tag,
        _ => false,
    }
}

/// Whether `result` is what `applied` tells: the value, the error, or
/// nothing where the host computes.
pub open spec fn agrees(applied: Applied, result: Option<ExecResult<Variant>>) -> bool {
    match applied {
        Applied::Host => result.is_none(),
        Applied::Value(value) => result matches Some(Ok(found)) && found@ == value,
        _ => result matches Some(Err(error)) && tells(applied, error),
    }
}

/// Applies `op` to two values: see `apply_binary`.
pub fn eval_binary(op: BinaryOp, lhs: &Variant, rhs: &Variant, table: &mut StringTable) -> (result:
    Option<ExecResult<Variant>>)
    requires
        lhs matches Variant::String(symbol) ==> symbol.index() < old(table)@.len(),
        rhs matches Variant::String(symbol) ==> symbol.index() < old(table)@.len(),
        old(table)@.len() < SYMBOL_LIMIT,
    ensures
        agrees(apply_binary(op, lhs@, rhs@, old(table)@), result),
        final(table)@ == if lhs@.holds_float() || rhs@.holds_float() {
            old(table)@
        } else {
            strings_after(op, lhs@, rhs@, old(table)@)
        },
{
    proof {
        lemma_value_facts(lhs);
        lemma_value_facts(rhs);
    }
    if !lhs.can_hash() || !rhs.can_hash() {
        return None;
    }
    match op {
        BinaryOp::And => {
            return Some(
                Ok(
                    if lhs.truth_value() {
                        rhs.duplicate()
                    } else {
                        lhs.duplicate()
                    },
                ),
            );
        },
        BinaryOp::Or => {
            return Some(
                Ok(
                    if lhs.truth_value() {
                        lhs.duplicate()
                    } else {
                        rhs.duplicate()
                    },
                ),
            );
        },
        BinaryOp::BitAnd | BinaryOp::BitXor | BinaryOp::BitOr => {
            return Some(
                match (lhs.bit_value(), rhs.bit_value()) {
                    (Some(a), Some(b)) => {
                        let bits = match eval_bits(op, a, b) {
                            Some(bits) => bits,
                            None => vstd::pervasive::unreached(),
                        };
                        let both = matches!(lhs, Variant::BoolTrue | Variant::BoolFalse) && matches!(
                            rhs,
                            Variant::BoolTrue | Variant::BoolFalse
                        );
                        if both {
                            Ok(truth(bits != 0))
                        } else {
                            Ok(Variant::Integer(bits))
                        }
                    },
                    _ => Err(invalid_operands(lhs, rhs)),
                },
            );
        },
        _ => {},
    }
    match (lhs, rhs) {
        (Variant::Integer(a), Variant::Integer(b)) => {
            match eval_integers(op, *a, *b) {
                Some(found) => Some(found),
                None => vstd::pervasive::unreached(),
            }
        },
        (Variant::String(a), Variant::String(b)) => {
            let left = StringValue::Intern(*a);
            match op {
                BinaryOp::Add => {
                    let right = StringValue::Intern(*b);
                    let sum = left.concat(&right, table).symbol_of();
                    proof {
                        sum.lemma_at();
                    }
                    Some(Ok(Variant::String(sum)))
                },
                BinaryOp::LT | BinaryOp::GE => {
                    let less = string_before(left, rhs, table);
                    Some(Ok(truth(if matches!(op, BinaryOp::LT) { less } else { !less })))
                },
                BinaryOp::GT | BinaryOp::LE => {
                    let right = StringValue::Intern(*b);
                    let less = string_before(right, lhs, table);
                    Some(Ok(truth(if matches!(op, BinaryOp::GT) { less } else { !less })))
                },
                BinaryOp::EQ => Some(Ok(truth(*a == *b))),
                BinaryOp::NE => Some(Ok(truth(*a != *b))),
                _ => Some(Err(invalid_operands(lhs, rhs))),
            }
        },
        _ => {
            match op {
                BinaryOp::EQ => Some(Ok(truth(crate::runtime::variant::same_value(lhs, rhs)))),
                BinaryOp::NE => Some(Ok(truth(!crate::runtime::variant::same_value(lhs, rhs)))),
                _ => Some(Err(invalid_operands(lhs, rhs))),
            }
        },
    }
}

/// What the unary operator `op` comes to on `operand`. `-` and `+` take
/// integers, and floats, which the host computes; `~` takes integers, of
/// which it flips every bit, and booleans; `!` takes any value and gives the
/// opposite of its truth.
pub open spec fn apply_unary(op: UnaryOp, operand: Value) -> Applied {
    match op {
        UnaryOp::Not => Applied::Value(truth_of(!operand.truth())),
        UnaryOp::Neg => match operand {
            Value::Integer(value) => if value == i64::MIN {
                Applied::Overflow
            } else {
                Applied::Value(Value::Integer((-value) as i64))
            },
            Value::Float(_) => Applied::Host,
            _ => Applied::InvalidOperand(operand.tag()),
        },
        UnaryOp::Pos => match operand {
            Value::Integer(value) => Applied::Value(operand),
            Value::Float(_) => Applied::Host,
            _ => Applied::InvalidOperand(operand.tag()),
        },
        UnaryOp::Inv => match operand {
            Value::Integer(value) => Applied::Value(Value::Integer((-1 - value) as i64)),
            Value::BoolTrue => Applied::Value(Value::BoolFalse),
            Value::BoolFalse => Applied::Value(Value::BoolTrue),
            _ => Applied::InvalidOperand(operand.tag()),
        },
    }
}

/// Applies the unary operator `op`: see `apply_unary`.
pub fn eval_unary(op: UnaryOp, operand: &Variant) -> (result: Option<ExecResult<Variant>>)
    ensures
        agrees(apply_unary(op, operand@), result),
{
    proof {
        lemma_value_facts(operand);
    }
    match op {
        UnaryOp::Not => Some(Ok(truth(!operand.truth_value()))),
        UnaryOp::Neg => match operand {
            Variant::Integer(value) => {
                if *value == i64::MIN {
                    Some(Err(RuntimeError::boxed(ErrorKind::OverflowError)))
                } else {
                    Some(Ok(Variant::Integer(-*value)))
                }
            },
            Variant::Float(_) => None,
            _ => Some(Err(RuntimeError::boxed(ErrorKind::InvalidUnaryOperand(operand.type_tag())))),
        },
        UnaryOp::Pos => match operand {
            Variant::Integer(value) => Some(Ok(Variant::Integer(*value))),
            Variant::Float(_) => None,
            _ => Some(Err(RuntimeError::boxed(ErrorKind::InvalidUnaryOperand(operand.type_tag())))),
        },
        UnaryOp::Inv => match operand {
            Variant::Integer(value) => Some(Ok(Variant::Integer(-1 - *value))),
            Variant::BoolTrue => Some(Ok(Variant::BoolFalse)),
            Variant::BoolFalse => Some(Ok(Variant::BoolTrue)),
            _ => Some(Err(RuntimeError::boxed(ErrorKind::InvalidUnaryOperand(operand.type_tag())))),
        },
    }
}

/// Whether the string `left` comes before the string `right`.
fn string_before(left: StringValue, right: &Variant, table: &StringTable) -> (less: bool)
    requires
        left.known(table@),
        right matches Variant::String(symbol) && symbol.index() < table@.len(),
    ensures
        less == text_lt(left.text(table@), text_of(table@, right->String_0)),
{
    match left.cmp_lt(right, table) {
        Some(Ok(less)) => less,
        _ => vstd::pervasive::unreached(),
    }
}

} // verus!
