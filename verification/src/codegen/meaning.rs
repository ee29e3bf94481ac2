//! What the integer instructions of the intermediate representation
//! compute, and that lowering emits instructions that compute what the
//! source language asks for.

use crate::ast::node::{
    BinaryOperator, LiteralValue, LiteralView, Node, NodeView, UnaryOperator,
};
use crate::codegen::ir::{Callee, External, Instruction, IntOperation, Operand, ValueKind};
use crate::codegen::rules::{
    call_external, emit, emit_arguments, int_correction, int_floor_divide, int_modulo,
    int_operation, lower_binary, lower_expression, lower_unary, print_text, print_value, shown, State, Value,
};
use vstd::arithmetic::div_mod::{
    lemma_fundamental_div_mod, lemma_fundamental_div_mod_converse, lemma_mod_bound,
};
use vstd::prelude::*;

verus! {

/// What an operand holds when the program runs.
pub enum Meaning {
    Int(i64),
    Bit(bool),
}

/// The 64-bit integer that an exact result wraps around to.
pub open spec fn wrap(v: int) -> i64 {
    (((v + 0x8000_0000_0000_0000) % 0x1_0000_0000_0000_0000) - 0x8000_0000_0000_0000) as i64
}

pub open spec fn magnitude(v: int) -> int {
    if v < 0 {
        -v
    } else {
        v
    }
}

/// The quotient rounded toward zero.
pub open spec fn truncated_quotient(l: int, r: int) -> int {
    if (l < 0) != (r < 0) {
        -(magnitude(l) / magnitude(r))
    } else {
        magnitude(l) / magnitude(r)
    }
}

/// The remainder that goes with the quotient rounded toward zero; it has
/// the sign of the dividend.
pub open spec fn truncated_remainder(l: int, r: int) -> int {
    l - r * truncated_quotient(l, r)
}

/// The quotient rounded down, as the source language divides.
pub open spec fn floored_quotient(l: int, r: int) -> int {
    if r > 0 {
        l / r
    } else {
        (-l) / (-r)
    }
}

/// The remainder that goes with the quotient rounded down; it has the sign
/// of the divisor.
pub open spec fn floored_remainder(l: int, r: int) -> int {
    l - r * floored_quotient(l, r)
}

/// Whether a division has a result in 64 bits.
pub open spec fn divisible(l: i64, r: i64) -> bool {
    r != 0 && !(l == i64::MIN && r == -1)
}

/// What an integer operation gives. Sums, differences and products wrap
/// around; a division without a result in 64 bits gives nothing.
pub open spec fn int_operation_meaning(operation: IntOperation, l: i64, r: i64) -> Option<i64> {
    match operation {
        IntOperation::Add => Some(wrap(l + r)),
        IntOperation::Subtract => Some(wrap(l - r)),
        IntOperation::Multiply => Some(wrap(l * r)),
        IntOperation::Divide => if divisible(l, r) {
            Some(wrap(truncated_quotient(l as int, r as int)))
        } else {
            None
        },
        IntOperation::Remainder => if divisible(l, r) {
            Some(wrap(truncated_remainder(l as int, r as int)))
        } else {
            None
        },
    }
}

/// Operands are ranked by the instruction that gives them; constants come
/// first.
pub open spec fn rank(operand: Operand) -> nat {
    match operand {
        Operand::Result(i) => i as nat + 1,
        _ => 0,
    }
}

/// What an operand holds, as far as it is given by integer constants,
/// integer arithmetic, comparisons and selections that read earlier
/// instructions only.
pub open spec fn meaning(body: Seq<Instruction>, operand: Operand) -> Option<Meaning>
    decreases rank(operand),
{
    match operand {
        Operand::Integer(v) => Some(Meaning::Int(v)),
        Operand::Result(i) => if i < body.len() {
            match body[i as int] {
                Instruction::IntBinary { operation, left, right } => if rank(left) <= i && rank(
                    right,
                ) <= i {
                    match (meaning(body, left), meaning(body, right)) {
                        (Some(Meaning::Int(l)), Some(Meaning::Int(r))) => match int_operation_meaning(
                            operation,
                            l,
                            r,
                        ) {
                            Some(v) => Some(Meaning::Int(v)),
                            None => None,
                        },
                        _ => None,
                    }
                } else {
                    None
                },
                Instruction::IntEqual { left, right } => if rank(left) <= i && rank(right) <= i {
                    match (meaning(body, left), meaning(body, right)) {
                        (Some(Meaning::Int(l)), Some(Meaning::Int(r))) => Some(Meaning::Bit(l == r)),
                        (Some(Meaning::Bit(l)), Some(Meaning::Bit(r))) => Some(Meaning::Bit(l == r)),
                        _ => None,
                    }
                } else {
                    None
                },
                Instruction::IntGreater { left, right } => if rank(left) <= i && rank(right) <= i {
                    match (meaning(body, left), meaning(body, right)) {
                        (Some(Meaning::Int(l)), Some(Meaning::Int(r))) => Some(Meaning::Bit(l > r)),
                        _ => None,
                    }
                } else {
                    None
                },
                Instruction::Select { condition, then_value, else_value, kind } => if rank(
                    condition,
                ) <= i && rank(then_value) <= i && rank(else_value) <= i {
                    match meaning(body, condition) {
                        Some(Meaning::Bit(c)) => if c {
                            meaning(body, then_value)
                        } else {
                            meaning(body, else_value)
                        },
                        _ => None,
                    }
                } else {
                    None
                },
                _ => None,
            }
        } else {
            None
        },
        _ => None,
    }
}

/// `body` is the start of `longer`.
pub open spec fn extends(body: Seq<Instruction>, longer: Seq<Instruction>) -> bool {
    body.len() <= longer.len() && longer.subrange(0, body.len() as int) == body
}

/// Later instructions change no earlier value. An operand that has a
/// meaning keeps it whatever is emitted after.
pub proof fn lemma_meaning_is_stable(body: Seq<Instruction>, longer: Seq<Instruction>, operand: Operand)
    requires
        extends(body, longer),
        meaning(body, operand) is Some,
    ensures
        meaning(longer, operand) == meaning(body, operand),
    decreases rank(operand),
{
    match operand {
        Operand::Result(i) => {
            assert(longer[i as int] == longer.subrange(0, body.len() as int)[i as int]);
            match body[i as int] {
                Instruction::IntBinary { operation, left, right } => {
                    lemma_meaning_is_stable(body, longer, left);
                    lemma_meaning_is_stable(body, longer, right);
                },
                Instruction::IntEqual { left, right } => {
                    lemma_meaning_is_stable(body, longer, left);
                    lemma_meaning_is_stable(body, longer, right);
                },
                Instruction::IntGreater { left, right } => {
                    lemma_meaning_is_stable(body, longer, left);
                    lemma_meaning_is_stable(body, longer, right);
                },
                Instruction::Select { condition, then_value, else_value, kind } => {
                    lemma_meaning_is_stable(body, longer, condition);
                    if meaning(body, condition) == Some(Meaning::Bit(true)) {
                        lemma_meaning_is_stable(body, longer, then_value);
                    } else {
                        lemma_meaning_is_stable(body, longer, else_value);
                    }
                },
                _ => {},
            }
        },
        _ => {},
    }
}

/// A result in the range of 64 bits wraps to itself.
pub proof fn lemma_wrap_in_range(v: int)
    requires
        i64::MIN <= v <= i64::MAX,
    ensures
        wrap(v) == v,
{
}

/// The floored quotient and remainder come from the truncated ones by one
/// correction: where the truncated remainder is not zero and its sign
/// differs from the divisor's, the quotient is one less and the remainder
/// is the divisor more.
pub proof fn lemma_floored_from_truncated(l: int, r: int)
    requires
        r != 0,
    ensures
        -magnitude(r) < truncated_remainder(l, r) < magnitude(r),
        magnitude(truncated_quotient(l, r)) * magnitude(r) <= magnitude(l),
        truncated_remainder(l, r) != 0 && ((truncated_remainder(l, r) < 0) != (r < 0))
            ==> floored_quotient(l, r) == truncated_quotient(l, r) - 1 && floored_remainder(l, r)
            == truncated_remainder(l, r) + r,
        !(truncated_remainder(l, r) != 0 && ((truncated_remainder(l, r) < 0) != (r < 0)))
            ==> floored_quotient(l, r) == truncated_quotient(l, r) && floored_remainder(l, r)
            == truncated_remainder(l, r),
{
    let a = magnitude(l);
    let d = magnitude(r);
    let k = a / d;
    let m = a % d;
    lemma_fundamental_div_mod(a, d);
    lemma_mod_bound(a, d);
    assert(a == d * k + m);
    assert(0 <= k && k * d <= a) by (nonlinear_arith)
        requires
            a == d * k + m,
            0 <= m < d,
            0 <= a,
            d >= 1,
    ;
    let tq = truncated_quotient(l, r);
    let tr = truncated_remainder(l, r);
    if r > 0 {
        if l >= 0 {
            assert(tr == m) by (nonlinear_arith)
                requires
                    tr == l - r * k,
                    l == r * k + m,
            ;
        } else {
            assert(tr == -m) by (nonlinear_arith)
                requires
                    tr == l - r * (-k),
                    -l == r * k + m,
            ;
            if m == 0 {
                assert(l == (-k) * r + 0) by (nonlinear_arith)
                    requires
                        -l == r * k + m,
                        m == 0,
                ;
                lemma_fundamental_div_mod_converse(l, r, -k, 0);
                assert(floored_remainder(l, r) == 0) by (nonlinear_arith)
                    requires
                        floored_remainder(l, r) == l - r * (-k),
                        l == (-k) * r + 0,
                ;
            } else {
                assert(l == (-k - 1) * r + (r - m)) by (nonlinear_arith)
                    requires
                        -l == r * k + m,
                ;
                lemma_fundamental_div_mod_converse(l, r, -k - 1, r - m);
                assert(floored_remainder(l, r) == r - m) by (nonlinear_arith)
                    requires
                        floored_remainder(l, r) == l - r * (-k - 1),
                        l == (-k - 1) * r + (r - m),
                ;
            }
        }
    } else {
        if l <= 0 {
            assert(tr == -m) by (nonlinear_arith)
                requires
                    tr == l - r * k,
                    -l == (-r) * k + m,
            ;
            assert(floored_remainder(l, r) == -m) by (nonlinear_arith)
                requires
                    floored_remainder(l, r) == l - r * k,
                    -l == (-r) * k + m,
            ;
        } else {
            assert(tr == m) by (nonlinear_arith)
                requires
                    tr == l - r * (-k),
                    l == (-r) * k + m,
            ;
            if m == 0 {
                assert(-l == (-k) * (-r) + 0) by (nonlinear_arith)
                    requires
                        l == (-r) * k + m,
                        m == 0,
                ;
                lemma_fundamental_div_mod_converse(-l, -r, -k, 0);
                assert(floored_remainder(l, r) == 0) by (nonlinear_arith)
                    requires
                        floored_remainder(l, r) == l - r * (-k),
                        l == (-r) * k + m,
                        m == 0,
                ;
            } else {
                assert(-l == (-k - 1) * (-r) + ((-r) - m)) by (nonlinear_arith)
                    requires
                        l == (-r) * k + m,
                ;
                lemma_fundamental_div_mod_converse(-l, -r, -k - 1, (-r) - m);
                assert(floored_remainder(l, r) == m + r) by (nonlinear_arith)
                    requires
                        floored_remainder(l, r) == l - r * (-k - 1),
                        l == (-r) * k + m,
                ;
            }
        }
    }
}

/// One more instruction extends the body.
pub proof fn lemma_push_extends(body: Seq<Instruction>, instruction: Instruction)
    ensures
        extends(body, body.push(instruction)),
{
    assert(body.push(instruction).subrange(0, body.len() as int) =~= body);
}

pub proof fn lemma_extends_twice(a: Seq<Instruction>, b: Seq<Instruction>, c: Seq<Instruction>)
    requires
        extends(a, b),
        extends(b, c),
    ensures
        extends(a, c),
{
    assert(c.subrange(0, a.len() as int) =~= b.subrange(0, a.len() as int));
}

/// What a binary integer instruction gives, right after it is emitted.
pub proof fn lemma_emitted_binary(
    body: Seq<Instruction>,
    operation: IntOperation,
    left: Operand,
    right: Operand,
    l: i64,
    r: i64,
)
    requires
        meaning(body, left) == Some(Meaning::Int(l)),
        meaning(body, right) == Some(Meaning::Int(r)),
        body.len() < usize::MAX,
    ensures
        meaning(
            body.push(Instruction::IntBinary { operation, left, right }),
            Operand::Result(body.len() as usize),
        ) == match int_operation_meaning(operation, l, r) {
            Some(v) => Some(Meaning::Int(v)),
            None => None,
        },
{
    let longer = body.push(Instruction::IntBinary { operation, left, right });
    lemma_push_extends(body, Instruction::IntBinary { operation, left, right });
    lemma_meaning_is_stable(body, longer, left);
    lemma_meaning_is_stable(body, longer, right);
}

/// What a comparison of two integers gives, right after it is emitted.
pub proof fn lemma_emitted_comparison(
    body: Seq<Instruction>,
    left: Operand,
    right: Operand,
    l: i64,
    r: i64,
)
    requires
        meaning(body, left) == Some(Meaning::Int(l)),
        meaning(body, right) == Some(Meaning::Int(r)),
        body.len() < usize::MAX,
    ensures
        meaning(
            body.push(Instruction::IntEqual { left, right }),
            Operand::Result(body.len() as usize),
        ) == Some(Meaning::Bit(l == r)),
        meaning(
            body.push(Instruction::IntGreater { left, right }),
            Operand::Result(body.len() as usize),
        ) == Some(Meaning::Bit(l > r)),
{
    let equal = Instruction::IntEqual { left, right };
    let greater = Instruction::IntGreater { left, right };
    lemma_push_extends(body, equal);
    lemma_push_extends(body, greater);
    lemma_meaning_is_stable(body, body.push(equal), left);
    lemma_meaning_is_stable(body, body.push(equal), right);
    lemma_meaning_is_stable(body, body.push(greater), left);
    lemma_meaning_is_stable(body, body.push(greater), right);
}

/// What a comparison of two bits gives, right after it is emitted.
pub proof fn lemma_emitted_bit_comparison(
    body: Seq<Instruction>,
    left: Operand,
    right: Operand,
    l: bool,
    r: bool,
)
    requires
        meaning(body, left) == Some(Meaning::Bit(l)),
        meaning(body, right) == Some(Meaning::Bit(r)),
        body.len() < usize::MAX,
    ensures
        meaning(
            body.push(Instruction::IntEqual { left, right }),
            Operand::Result(body.len() as usize),
        ) == Some(Meaning::Bit(l == r)),
{
    let equal = Instruction::IntEqual { left, right };
    lemma_push_extends(body, equal);
    lemma_meaning_is_stable(body, body.push(equal), left);
    lemma_meaning_is_stable(body, body.push(equal), right);
}

/// What a selection gives, right after it is emitted.
pub proof fn lemma_emitted_selection(
    body: Seq<Instruction>,
    condition: Operand,
    then_value: Operand,
    else_value: Operand,
    c: bool,
    t: i64,
    e: i64,
)
    requires
        meaning(body, condition) == Some(Meaning::Bit(c)),
        meaning(body, then_value) == Some(Meaning::Int(t)),
        meaning(body, else_value) == Some(Meaning::Int(e)),
        body.len() < usize::MAX,
    ensures
        meaning(
            body.push(
                Instruction::Select { condition, then_value, else_value, kind: ValueKind::Int },
            ),
            Operand::Result(body.len() as usize),
        ) == Some(
            Meaning::Int(
                if c {
                    t
                } else {
                    e
                },
            ),
        ),
{
    let select = Instruction::Select { condition, then_value, else_value, kind: ValueKind::Int };
    lemma_push_extends(body, select);
    lemma_meaning_is_stable(body, body.push(select), condition);
    lemma_meaning_is_stable(body, body.push(select), then_value);
    lemma_meaning_is_stable(body, body.push(select), else_value);
}

/// What the correction of a truncated division gives: `step` where the
/// remainder is not zero and its sign differs from the divisor's, else
/// zero.
pub proof fn lemma_correction_meaning(
    st: State,
    remainder: Operand,
    right: Operand,
    step: Operand,
    m: i64,
    r: i64,
    s: i64,
)
    requires
        meaning(st.body, remainder) == Some(Meaning::Int(m)),
        meaning(st.body, right) == Some(Meaning::Int(r)),
        meaning(st.body, step) == Some(Meaning::Int(s)),
        st.body.len() + 6 < usize::MAX,
    ensures
        extends(st.body, int_correction(st, remainder, right, step).0.body),
        int_correction(st, remainder, right, step).0.body.len() == st.body.len() + 6,
        meaning(
            int_correction(st, remainder, right, step).0.body,
            int_correction(st, remainder, right, step).1,
        ) == Some(
            Meaning::Int(
                if m != 0 && ((m < 0) != (r < 0)) {
                    s
                } else {
                    0
                },
            ),
        ),
{
    reveal(int_correction);
    let b0 = st.body;
    let n = b0.len() as usize;
    let zero = Operand::Integer(0);
    let exact = Operand::Result(n);
    let remainder_negative = Operand::Result((n + 1) as usize);
    let divisor_negative = Operand::Result((n + 2) as usize);
    let alike = Operand::Result((n + 3) as usize);
    let inner = Operand::Result((n + 4) as usize);
    let b1 = b0.push(Instruction::IntEqual { left: remainder, right: zero });
    let b2 = b1.push(Instruction::IntGreater { left: zero, right: remainder });
    let b3 = b2.push(Instruction::IntGreater { left: zero, right });
    let b4 = b3.push(Instruction::IntEqual { left: remainder_negative, right: divisor_negative });
    let b5 = b4.push(
        Instruction::Select {
            condition: alike,
            then_value: zero,
            else_value: step,
            kind: ValueKind::Int,
        },
    );
    let b6 = b5.push(
        Instruction::Select {
            condition: exact,
            then_value: zero,
            else_value: inner,
            kind: ValueKind::Int,
        },
    );
    lemma_push_extends(b0, b1.last());
    lemma_push_extends(b1, b2.last());
    lemma_push_extends(b2, b3.last());
    lemma_push_extends(b3, b4.last());
    lemma_push_extends(b4, b5.last());
    lemma_push_extends(b5, b6.last());
    lemma_extends_twice(b0, b1, b2);
    lemma_extends_twice(b0, b2, b3);
    lemma_extends_twice(b0, b3, b4);
    lemma_extends_twice(b0, b4, b5);
    lemma_extends_twice(b0, b5, b6);
    lemma_extends_twice(b1, b2, b3);
    lemma_extends_twice(b1, b3, b4);
    lemma_extends_twice(b1, b4, b5);
    lemma_extends_twice(b2, b3, b4);
    // the remainder is zero
    lemma_emitted_comparison(b0, remainder, zero, m, 0);
    // the remainder is negative
    lemma_meaning_is_stable(b0, b1, remainder);
    lemma_emitted_comparison(b1, zero, remainder, 0, m);
    // the divisor is negative
    lemma_meaning_is_stable(b0, b2, right);
    lemma_emitted_comparison(b2, zero, right, 0, r);
    // the two signs are alike
    lemma_meaning_is_stable(b2, b3, remainder_negative);
    lemma_emitted_bit_comparison(b3, remainder_negative, divisor_negative, 0 > m, 0 > r);
    // nothing where they are alike, else the step
    lemma_meaning_is_stable(b0, b4, step);
    lemma_emitted_selection(b4, alike, zero, step, (0 > m) == (0 > r), 0, s);
    // nothing where the remainder is zero
    lemma_meaning_is_stable(b1, b5, exact);
    let between: i64 = if (0 > m) == (0 > r) {
        0
    } else {
        s
    };
    lemma_emitted_selection(b5, exact, zero, inner, m == 0, 0, between);
    assert(int_correction(st, remainder, right, step).0.body == b6);
    assert(int_correction(st, remainder, right, step).1 == Operand::Result((n + 5) as usize));
}

/// `%` gives the remainder of floored division. Where both operands
/// are integers with a meaning and the division has a result in 64 bits,
/// the value that the lowering of `%` gives is the remainder that has the
/// sign of the divisor.
pub proof fn lemma_modulo_is_floored(st: State, left: Operand, right: Operand, l: i64, r: i64)
    requires
        meaning(st.body, left) == Some(Meaning::Int(l)),
        meaning(st.body, right) == Some(Meaning::Int(r)),
        divisible(l, r),
        st.body.len() + 8 < usize::MAX,
    ensures
        i64::MIN <= floored_remainder(l as int, r as int) <= i64::MAX,
        extends(st.body, int_modulo(st, left, right).0.body),
        int_modulo(st, left, right).1.kind == ValueKind::Int,
        meaning(int_modulo(st, left, right).0.body, int_modulo(st, left, right).1.operand) == Some(
            Meaning::Int(floored_remainder(l as int, r as int) as i64),
        ),
{
    reveal(int_modulo);
    lemma_floored_from_truncated(l as int, r as int);
    let m = truncated_remainder(l as int, r as int);
    lemma_wrap_in_range(m);
    let b0 = st.body;
    let first = Instruction::IntBinary { operation: IntOperation::Remainder, left, right };
    let remainder = Operand::Result(b0.len() as usize);
    lemma_emitted_binary(b0, IntOperation::Remainder, left, right, l, r);
    let st1 = emit(st, first);
    lemma_push_extends(b0, first);
    lemma_meaning_is_stable(b0, st1.body, right);
    lemma_correction_meaning(st1, remainder, right, right, m as i64, r, r);
    let (st2, correction) = int_correction(st1, remainder, right, right);
    lemma_meaning_is_stable(st1.body, st2.body, remainder);
    let c: int = if m != 0 && ((m < 0) != (r < 0)) {
        r as int
    } else {
        0
    };
    lemma_wrap_in_range(m + c);
    lemma_emitted_binary(st2.body, IntOperation::Add, remainder, correction, m as i64, c as i64);
    let last = Instruction::IntBinary {
        operation: IntOperation::Add,
        left: remainder,
        right: correction,
    };
    lemma_push_extends(st2.body, last);
    lemma_extends_twice(b0, st1.body, st2.body);
    lemma_extends_twice(b0, st2.body, st2.body.push(last));
}

/// `//` gives the quotient rounded down. Where both operands are
/// integers with a meaning and the division has a result in 64 bits, the
/// value that the lowering of `//` gives is the floored quotient.
pub proof fn lemma_floor_divide_is_floored(
    st: State,
    left: Operand,
    right: Operand,
    l: i64,
    r: i64,
)
    requires
        meaning(st.body, left) == Some(Meaning::Int(l)),
        meaning(st.body, right) == Some(Meaning::Int(r)),
        divisible(l, r),
        st.body.len() + 9 < usize::MAX,
    ensures
        i64::MIN <= floored_quotient(l as int, r as int) <= i64::MAX,
        extends(st.body, int_floor_divide(st, left, right).0.body),
        int_floor_divide(st, left, right).1.kind == ValueKind::Int,
        meaning(
            int_floor_divide(st, left, right).0.body,
            int_floor_divide(st, left, right).1.operand,
        ) == Some(Meaning::Int(floored_quotient(l as int, r as int) as i64)),
{
    reveal(int_floor_divide);
    lemma_floored_from_truncated(l as int, r as int);
    let m = truncated_remainder(l as int, r as int);
    let q = truncated_quotient(l as int, r as int);
    assert(i64::MIN <= q <= i64::MAX) by (nonlinear_arith)
        requires
            magnitude(q) * magnitude(r as int) <= magnitude(l as int),
            i64::MIN <= l <= i64::MAX,
            i64::MIN <= r <= i64::MAX,
            r != 0,
            !(l == i64::MIN && r == -1),
            q == truncated_quotient(l as int, r as int),
            (q > 0 ==> (l < 0) == (r < 0)),
    ;
    lemma_wrap_in_range(m);
    lemma_wrap_in_range(q);
    let b0 = st.body;
    let first = Instruction::IntBinary { operation: IntOperation::Remainder, left, right };
    let remainder = Operand::Result(b0.len() as usize);
    lemma_emitted_binary(b0, IntOperation::Remainder, left, right, l, r);
    let st1 = emit(st, first);
    lemma_push_extends(b0, first);
    lemma_meaning_is_stable(b0, st1.body, right);
    lemma_correction_meaning(st1, remainder, right, Operand::Integer(-1i64), m as i64, r, -1i64);
    let (st2, correction) = int_correction(st1, remainder, right, Operand::Integer(-1i64));
    lemma_extends_twice(b0, st1.body, st2.body);
    lemma_meaning_is_stable(b0, st2.body, left);
    lemma_meaning_is_stable(b0, st2.body, right);
    let third = Instruction::IntBinary { operation: IntOperation::Divide, left, right };
    let quotient = Operand::Result(st2.body.len() as usize);
    lemma_emitted_binary(st2.body, IntOperation::Divide, left, right, l, r);
    let st3 = emit(st2, third);
    lemma_push_extends(st2.body, third);
    lemma_meaning_is_stable(st2.body, st3.body, correction);
    let c: int = if m != 0 && ((m < 0) != (r < 0)) {
        -1
    } else {
        0
    };
    assert(i64::MIN <= q + c <= i64::MAX) by {
        if c == -1 {
            assert(q > i64::MIN) by (nonlinear_arith)
                requires
                    m == l - r * q,
                    m != 0,
                    -magnitude(r as int) < m < magnitude(r as int),
                    i64::MIN <= l <= i64::MAX,
                    i64::MIN <= r <= i64::MAX,
                    r != 0,
                    magnitude(q) * magnitude(r as int) <= magnitude(l as int),
                    (m < 0) != (r < 0),
            ;
        }
    }
    lemma_wrap_in_range(q + c);
    lemma_emitted_binary(st3.body, IntOperation::Add, quotient, correction, q as i64, c as i64);
    let last = Instruction::IntBinary {
        operation: IntOperation::Add,
        left: quotient,
        right: correction,
    };
    lemma_push_extends(st3.body, last);
    lemma_extends_twice(b0, st2.body, st3.body);
    lemma_extends_twice(b0, st3.body, st3.body.push(last));
}

/// The exact result of `+`, `-` or `*`; nothing for another operator.
pub open spec fn exact_result(operator: BinaryOperator, l: int, r: int) -> Option<int> {
    match operator {
        BinaryOperator::Add => Some(l + r),
        BinaryOperator::Subtract => Some(l - r),
        BinaryOperator::Multiply => Some(l * r),
        _ => None,
    }
}

/// The value of an expression that is built from integer literals with
/// `+`, `-` and `*`, where every result on the way fits in 64 bits: the
/// value that an interpreter gives it that computes in 64-bit integers.
pub open spec fn constant_value(node: NodeView) -> Option<i64>
    decreases node,
{
    match node {
        NodeView::Literal { value: LiteralView::Integer(v) } => Some(v),
        NodeView::Binary { left, operator, right } => match (
            constant_value(*left),
            constant_value(*right),
        ) {
            (Some(l), Some(r)) => match exact_result(operator, l as int, r as int) {
                Some(v) => if i64::MIN <= v <= i64::MAX {
                    Some(v as i64)
                } else {
                    None
                },
                None => None,
            },
            _ => None,
        },
        _ => None,
    }
}

/// The value of an expression of integer literals, `+`, `-` and `*`,
/// computed in 64-bit integers; nothing for any other expression, and
/// nothing where a result does not fit.
pub fn constant_of(node: &Node) -> (value: Option<i64>)
    ensures
        value == constant_value(node@),
    decreases node,
{
    match node {
        Node::Literal(literal) => match &literal.value {
            LiteralValue::Integer(v) => Some(*v),
            _ => None,
        },
        Node::Binary(binary) => {
            let left = match constant_of(&binary.left) {
                Some(value) => value,
                None => {
                    return None;
                },
            };
            let right = match constant_of(&binary.right) {
                Some(value) => value,
                None => {
                    return None;
                },
            };
            match binary.operator {
                BinaryOperator::Add => left.checked_add(right),
                BinaryOperator::Subtract => left.checked_sub(right),
                BinaryOperator::Multiply => left.checked_mul(right),
                _ => None,
            }
        },
        _ => None,
    }
}

/// The number of operators in an expression.
pub open spec fn operators(node: NodeView) -> nat
    decreases node,
{
    match node {
        NodeView::Binary { left, operator, right } => operators(*left) + operators(*right) + 1,
        _ => 0,
    }
}

/// Compiled integer arithmetic agrees with evaluation. An expression of
/// integer literals, `+`, `-` and `*` whose results fit in 64 bits is
/// lowered without an error to a value of kind integer, one instruction for
/// each operator, and what that integer holds when the program runs is the
/// value of the expression.
pub proof fn lemma_constant_arithmetic(st: State, node: NodeView, embedded: bool)
    requires
        constant_value(node) is Some,
        st.body.len() + operators(node) < usize::MAX,
    ensures
        lower_expression(st, node, embedded).1 matches Ok(value) && value.kind == ValueKind::Int
            && meaning(lower_expression(st, node, embedded).0.body, value.operand) == Some(
            Meaning::Int(constant_value(node)->0),
        ),
        extends(st.body, lower_expression(st, node, embedded).0.body),
        lower_expression(st, node, embedded).0.body.len() == st.body.len() + operators(node),
    decreases node,
{
    match node {
        NodeView::Binary { left, operator, right } => {
            lemma_constant_arithmetic(st, *left, embedded);
            let (st1, first) = lower_expression(st, *left, embedded);
            let l = first->Ok_0;
            lemma_constant_arithmetic(st1, *right, embedded);
            let (st2, second) = lower_expression(st1, *right, embedded);
            let r = second->Ok_0;
            lemma_meaning_is_stable(st1.body, st2.body, l.operand);
            reveal(lower_binary);
            let a = constant_value(*left)->0;
            let b = constant_value(*right)->0;
            lemma_emitted_binary(st2.body, int_operation(operator), l.operand, r.operand, a, b);
            lemma_wrap_in_range(exact_result(operator, a as int, b as int)->0);
            let last = Instruction::IntBinary {
                operation: int_operation(operator),
                left: l.operand,
                right: r.operand,
            };
            lemma_push_extends(st2.body, last);
            lemma_extends_twice(st.body, st1.body, st2.body);
            lemma_extends_twice(st.body, st2.body, st2.body.push(last));
        },
        _ => {
            assert(extends(st.body, st.body)) by {
                assert(st.body.subrange(0, st.body.len() as int) =~= st.body);
            }
        },
    }
}

/// The integer that holds a boolean: 1 for true and 0 for false.
pub open spec fn truth(b: bool) -> i64 {
    if b {
        1
    } else {
        0
    }
}

/// `not` gives the other boolean. Where the operand is a boolean that holds
/// `b` when the program runs, the result is a boolean that holds `!b`.
pub proof fn lemma_not_gives_the_other(st: State, operand: Value, b: bool)
    requires
        operand.kind == ValueKind::Bool,
        meaning(st.body, operand.operand) == Some(Meaning::Int(truth(b))),
        st.body.len() < usize::MAX,
    ensures
        lower_unary(st, UnaryOperator::Not, operand).1 matches Ok(value) && value.kind
            == ValueKind::Bool && meaning(
            lower_unary(st, UnaryOperator::Not, operand).0.body,
            value.operand,
        ) == Some(Meaning::Int(truth(!b))),
{
    reveal(lower_unary);
    assert(meaning(st.body, Operand::Integer(1)) == Some(Meaning::Int(1)));
    lemma_emitted_binary(
        st.body,
        IntOperation::Subtract,
        Operand::Integer(1),
        operand.operand,
        1,
        truth(b),
    );
    lemma_wrap_in_range(1 - truth(b));
}

/// An integer is printed as its digits, whatever it holds. Printing a value
/// of kind integer adds the format `%ld` followed by `end` to the string
/// constants and three instructions to the body: the format and the integer
/// are handed over, and `printf` is called. No comparison, no branch and no
/// block stands before the call.
pub proof fn lemma_integer_is_printed_as_digits(st: State, value: Value, end: Seq<char>)
    requires
        value.kind == ValueKind::Int,
    ensures
        print_value(st, value, end).strings == st.strings.push("%ld"@ + end),
        print_value(st, value, end).body == st.body + seq![
            Instruction::Argument { value: Operand::Text(st.strings.len() as usize) },
            Instruction::Argument { value: value.operand },
            Instruction::Call { callee: Callee::External(External::Printf), arguments: 2 },
        ],
{
    reveal(print_value);
    reveal(shown);
    reveal(print_text);
    reveal(call_external);
    reveal_with_fuel(emit_arguments, 3);
    let text = Operand::Text(st.strings.len() as usize);
    let values = seq![text, value.operand];
    assert(values.subrange(1, 2) =~= seq![value.operand]);
    assert(seq![value.operand].subrange(1, 1) =~= Seq::<Operand>::empty());
    assert(print_value(st, value, end).body =~= st.body + seq![
        Instruction::Argument { value: text },
        Instruction::Argument { value: value.operand },
        Instruction::Call { callee: Callee::External(External::Printf), arguments: 2 },
    ]);
}

/// `print` of an expression of integer literals, `+`, `-` and `*` whose
/// results fit in 64 bits hands the value of the expression to `printf`
/// under the format `%ld`, with nothing but the arithmetic before it: the
/// compiled program writes the digits of the value, also where the value is
/// one that stands for a boolean.
pub proof fn lemma_constant_is_printed_as_digits(st: State, node: NodeView, end: Seq<char>)
    requires
        constant_value(node) is Some,
        st.body.len() + operators(node) < usize::MAX,
    ensures
        lower_expression(st, node, false).1 matches Ok(value) && meaning(
            lower_expression(st, node, false).0.body,
            value.operand,
        ) == Some(Meaning::Int(constant_value(node)->0)) && print_value(
            lower_expression(st, node, false).0,
            value,
            end,
        ).body == lower_expression(st, node, false).0.body + seq![
            Instruction::Argument {
                value: Operand::Text(lower_expression(st, node, false).0.strings.len() as usize),
            },
            Instruction::Argument { value: value.operand },
            Instruction::Call { callee: Callee::External(External::Printf), arguments: 2 },
        ],
{
    lemma_constant_arithmetic(st, node, false);
    let (after, lowered) = lower_expression(st, node, false);
    lemma_integer_is_printed_as_digits(after, lowered->Ok_0, end);
}

} // verus!
