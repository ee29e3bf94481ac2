//! How a syntax tree is lowered: functions from a state and a node to the
//! next state and a result.
//!
//! Every value carries its kind through the lowering: integer, float,
//! string, boolean or `None`. An integer, a boolean and `None` are held as
//! 64-bit integers; a float is a 64-bit float; a string is a pointer to bytes
//! that end in zero.

use crate::ast::node::{BinaryOperator, FStringPartView, LiteralView, NodeView, UnaryOperator};
use crate::codegen::ir::{
    BlockLabel, Callee, External, FloatOperation, Instruction, IntOperation, Operand, Target,
    ValueKind,
};
use crate::parser::grammar::whole_expression;
use vstd::prelude::*;

verus! {

/// A lowered value: where it stands and how it is held.
#[derive(Debug, Clone, Copy, PartialEq, Eq, Structural)]
pub struct Value {
    pub operand: Operand,
    pub kind: ValueKind,
}

/// The name and shape of a function of the unit.
pub struct SignatureView {
    pub name: Seq<char>,
    /// The number of parameters; each is a 64-bit integer.
    pub parameters: nat,
    /// The entry function returns a 32-bit status and takes no parameters;
    /// every other function returns a 64-bit integer.
    pub entry: bool,
}

/// The finished body of the function with index `function`.
pub struct BodyView {
    pub function: nat,
    pub instructions: Seq<Instruction>,
}

/// A name bound to a stack slot: the index of the `Alloca` that made the
/// slot, and how the value in it is held.
pub struct BindingView {
    pub name: Seq<char>,
    pub slot: nat,
    pub kind: ValueKind,
}

/// Everything that lowering has made so far, and the function that is being
/// built.
pub struct State {
    pub signatures: Seq<SignatureView>,
    pub bodies: Seq<BodyView>,
    /// The string constants; constant `n` is named `str_n`.
    pub strings: Seq<Seq<char>>,
    /// The float constants, as decimal text.
    pub floats: Seq<Seq<char>>,
    /// The C library functions declared so far, in order of first use.
    pub externals: Seq<External>,
    /// The instructions of the function being built.
    pub body: Seq<Instruction>,
    /// The index of the function being built.
    pub function: nat,
    /// Whether the function being built is an entry function.
    pub entry: bool,
    /// The storage table of the function being built. The last binding of a
    /// name is the one in force.
    pub variables: Seq<BindingView>,
}

/// Why lowering failed.
pub enum ErrorView {
    ExpectedProgram,
    UnsupportedExpression,
    UnsupportedOperator,
    UnsupportedOperation,
    UnsupportedUnaryMinus,
    UnsupportedUnaryNot,
    DivisionByZero,
    UndefinedVariable(Seq<char>),
    UndefinedFunction(Seq<char>),
}

/// The text of an error.
pub open spec fn message(error: ErrorView) -> Seq<char> {
    match error {
        ErrorView::ExpectedProgram => "Expected a program node"@,
        ErrorView::UnsupportedExpression => "Unsupported expression type"@,
        ErrorView::UnsupportedOperator => "Unsupported binary operator"@,
        ErrorView::UnsupportedOperation => "Unsupported operation"@,
        ErrorView::UnsupportedUnaryMinus => "Unsupported unary minus operation"@,
        ErrorView::UnsupportedUnaryNot => "Unsupported unary not operation"@,
        ErrorView::DivisionByZero => "Division by zero"@,
        ErrorView::UndefinedVariable(name) => "Undefined variable: "@ + name,
        ErrorView::UndefinedFunction(name) => "Undefined function: "@ + name,
    }
}

pub open spec fn true_value() -> Operand {
    Operand::Integer(1)
}

pub open spec fn false_value() -> Operand {
    Operand::Integer(0)
}

pub open spec fn none_value() -> Operand {
    Operand::Integer(0)
}

/// The state after one more instruction.
pub open spec fn emit(st: State, instruction: Instruction) -> State {
    State { body: st.body.push(instruction), ..st }
}

/// What the next instruction will give.
pub open spec fn upcoming(st: State) -> Operand {
    Operand::Result(st.body.len() as usize)
}

/// Emits an instruction and takes what it gives.
pub open spec fn emit_operand(st: State, instruction: Instruction) -> (State, Operand) {
    (emit(st, instruction), upcoming(st))
}

/// Emits an instruction and takes what it gives as a value of `kind`.
pub open spec fn emit_value(st: State, instruction: Instruction, kind: ValueKind) -> (State, Value) {
    (emit(st, instruction), Value { operand: upcoming(st), kind })
}

/// The name of the string constant with index `index`.
pub open spec fn constant_name(index: nat) -> Seq<char> {
    "str_"@ + crate::lexer::text::decimal_digits(index)
}

/// Adds a string constant and gives a pointer to it.
pub open spec fn add_text(st: State, text: Seq<char>) -> (State, Operand) {
    (State { strings: st.strings.push(text), ..st }, Operand::Text(st.strings.len() as usize))
}

/// Adds a float constant.
pub open spec fn add_float(st: State, text: Seq<char>) -> (State, Operand) {
    (State { floats: st.floats.push(text), ..st }, Operand::Float(st.floats.len() as usize))
}

/// Declares a C library function, unless it is declared already.
pub open spec fn declare(st: State, external: External) -> State {
    if st.externals.contains(external) {
        st
    } else {
        State { externals: st.externals.push(external), ..st }
    }
}

/// Hands `values` over as arguments, in order.
pub open spec fn emit_arguments(st: State, values: Seq<Operand>) -> State
    decreases values.len(),
{
    if values.len() == 0 {
        st
    } else {
        emit_arguments(
            emit(st, Instruction::Argument { value: values[0] }),
            values.subrange(1, values.len() as int),
        )
    }
}

/// Calls a C library function; the operand is what the call gives.
#[verifier::opaque]
pub open spec fn call_external(st: State, external: External, values: Seq<Operand>) -> (
    State,
    Operand,
) {
    let st = emit_arguments(declare(st, external), values);
    (
        emit(
            st,
            Instruction::Call {
                callee: Callee::External(external),
                arguments: values.len() as usize,
            },
        ),
        upcoming(st),
    )
}

/// The binding of `name` that is in force: the last one.
pub open spec fn lookup(variables: Seq<BindingView>, name: Seq<char>) -> Option<BindingView>
    decreases variables.len(),
{
    if variables.len() == 0 {
        None
    } else if variables.last().name == name {
        Some(variables.last())
    } else {
        lookup(variables.drop_last(), name)
    }
}

/// The index of the first function at or after `from` that is called `name`
/// and is no entry function.
pub open spec fn find_function(signatures: Seq<SignatureView>, name: Seq<char>, from: nat) -> Option<
    nat,
>
    decreases signatures.len() - from,
{
    if from >= signatures.len() {
        None
    } else if !signatures[from as int].entry && signatures[from as int].name == name {
        Some(from)
    } else {
        find_function(signatures, name, from + 1)
    }
}

/// Text that writes zero: nothing but `0` and `.`.
pub open spec fn zero_text(text: Seq<char>) -> bool {
    forall|k: int| 0 <= k < text.len() ==> #[trigger] text[k] == '0' || text[k] == '.'
}

/// Whether an operand is the literal constant zero.
pub open spec fn zero_operand(st: State, operand: Operand) -> bool {
    match operand {
        Operand::Integer(v) => v == 0,
        Operand::Float(index) => index < st.floats.len() && zero_text(st.floats[index as int]),
        _ => false,
    }
}

/// Joins two strings: measures both, reserves room for both and the closing
/// zero, copies the left one and appends the right one. The room is never
/// given back.
#[verifier::opaque]
pub open spec fn concatenate(st: State, left: Operand, right: Operand) -> (State, Value) {
    let (st, left_length) = call_external(st, External::Strlen, seq![left]);
    let (st, right_length) = call_external(st, External::Strlen, seq![right]);
    let (st, both) = emit_value(
        st,
        Instruction::IntBinary {
            operation: IntOperation::Add,
            left: left_length,
            right: right_length,
        },
        ValueKind::Int,
    );
    let (st, size) = emit_value(
        st,
        Instruction::IntBinary {
            operation: IntOperation::Add,
            left: both.operand,
            right: Operand::Integer(1),
        },
        ValueKind::Int,
    );
    let (st, room) = call_external(st, External::Malloc, seq![size.operand]);
    let (st, _) = call_external(st, External::Strcpy, seq![room, left]);
    let (st, _) = call_external(st, External::Strcat, seq![room, right]);
    (st, Value { operand: room, kind: ValueKind::Pointer })
}

/// What is added to the truncated result of a division to get the floored
/// one: `step` where the truncated remainder `remainder` is not zero and its
/// sign differs from that of the divisor `right`, else zero.
#[verifier::opaque]
pub open spec fn int_correction(st: State, remainder: Operand, right: Operand, step: Operand) -> (
    State,
    Operand,
) {
    let (st, exact) = emit_operand(
        st,
        Instruction::IntEqual { left: remainder, right: Operand::Integer(0) },
    );
    let (st, remainder_negative) = emit_operand(
        st,
        Instruction::IntGreater { left: Operand::Integer(0), right: remainder },
    );
    let (st, divisor_negative) = emit_operand(
        st,
        Instruction::IntGreater { left: Operand::Integer(0), right },
    );
    let (st, alike) = emit_operand(
        st,
        Instruction::IntEqual { left: remainder_negative, right: divisor_negative },
    );
    let (st, inner) = emit_operand(
        st,
        Instruction::Select {
            condition: alike,
            then_value: Operand::Integer(0),
            else_value: step,
            kind: ValueKind::Int,
        },
    );
    emit_operand(
        st,
        Instruction::Select {
            condition: exact,
            then_value: Operand::Integer(0),
            else_value: inner,
            kind: ValueKind::Int,
        },
    )
}

/// The remainder that takes the sign of the divisor: the truncated
/// remainder, and the divisor added where their signs differ.
#[verifier::opaque]
pub open spec fn int_modulo(st: State, left: Operand, right: Operand) -> (State, Value) {
    let (st, remainder) = emit_operand(
        st,
        Instruction::IntBinary { operation: IntOperation::Remainder, left, right },
    );
    let (st, correction) = int_correction(st, remainder, right, right);
    emit_value(
        st,
        Instruction::IntBinary { operation: IntOperation::Add, left: remainder, right: correction },
        ValueKind::Int,
    )
}

/// Division that rounds down: the truncated quotient, and one less where
/// the remainder is not zero and its sign differs from the divisor's.
#[verifier::opaque]
pub open spec fn int_floor_divide(st: State, left: Operand, right: Operand) -> (State, Value) {
    let (st, remainder) = emit_operand(
        st,
        Instruction::IntBinary { operation: IntOperation::Remainder, left, right },
    );
    let (st, correction) = int_correction(st, remainder, right, Operand::Integer(-1i64));
    let (st, quotient) = emit_operand(
        st,
        Instruction::IntBinary { operation: IntOperation::Divide, left, right },
    );
    emit_value(
        st,
        Instruction::IntBinary { operation: IntOperation::Add, left: quotient, right: correction },
        ValueKind::Int,
    )
}

/// The float remainder that takes the sign of the divisor: the truncated
/// remainder, and the divisor added where it is not zero and their signs
/// differ.
#[verifier::opaque]
pub open spec fn float_modulo(st: State, left: Operand, right: Operand) -> (State, Value) {
    let (st, zero) = add_float(st, "0.0"@);
    let (st, remainder) = emit_operand(
        st,
        Instruction::FloatBinary { operation: FloatOperation::Remainder, left, right },
    );
    let (st, exact) = emit_operand(st, Instruction::FloatEqual { left: remainder, right: zero });
    let (st, remainder_negative) = emit_operand(
        st,
        Instruction::FloatLess { left: remainder, right: zero },
    );
    let (st, divisor_negative) = emit_operand(st, Instruction::FloatLess { left: right, right: zero });
    let (st, alike) = emit_operand(
        st,
        Instruction::IntEqual { left: remainder_negative, right: divisor_negative },
    );
    let (st, inner) = emit_operand(
        st,
        Instruction::Select {
            condition: alike,
            then_value: zero,
            else_value: right,
            kind: ValueKind::Float,
        },
    );
    let (st, correction) = emit_operand(
        st,
        Instruction::Select {
            condition: exact,
            then_value: zero,
            else_value: inner,
            kind: ValueKind::Float,
        },
    );
    emit_value(
        st,
        Instruction::FloatBinary {
            operation: FloatOperation::Add,
            left: remainder,
            right: correction,
        },
        ValueKind::Float,
    )
}

#[verifier::opaque]
pub open spec fn float_floor_divide(st: State, left: Operand, right: Operand) -> (State, Value) {
    let (st, quotient) = emit_value(
        st,
        Instruction::FloatBinary { operation: FloatOperation::Divide, left, right },
        ValueKind::Float,
    );
    let (st, floor) = call_external(st, External::Floor, seq![quotient.operand]);
    (st, Value { operand: floor, kind: ValueKind::Float })
}

/// An integer power by repeated multiplication: a result that starts at one
/// is multiplied by `left` as many times as `right` says. An exponent below
/// one leaves the result at one.
#[verifier::opaque]
pub open spec fn int_power(st: State, left: Operand, right: Operand) -> (State, Value) {
    let (st, result) = emit_value(
        st,
        Instruction::Alloca { kind: ValueKind::Int },
        ValueKind::Pointer,
    );
    let st = emit(st, Instruction::Store { slot: result.operand, value: Operand::Integer(1) });
    let (st, count) = emit_value(
        st,
        Instruction::Alloca { kind: ValueKind::Int },
        ValueKind::Pointer,
    );
    let st = emit(st, Instruction::Store { slot: count.operand, value: right });
    let st = emit(st, Instruction::Branch { target: Target::Ahead(1) });
    let st = emit(st, Instruction::Label { label: BlockLabel::PowerCheck });
    let (st, left_over) = emit_value(
        st,
        Instruction::Load { slot: count.operand, kind: ValueKind::Int },
        ValueKind::Int,
    );
    let (st, more) = emit_operand(
        st,
        Instruction::IntGreater { left: left_over.operand, right: Operand::Integer(0) },
    );
    let st = emit(
        st,
        Instruction::CondBranch {
            condition: more,
            then_target: Target::Ahead(1),
            else_target: Target::Ahead(2),
        },
    );
    let st = emit(st, Instruction::Label { label: BlockLabel::PowerStep });
    let (st, so_far) = emit_value(
        st,
        Instruction::Load { slot: result.operand, kind: ValueKind::Int },
        ValueKind::Int,
    );
    let (st, product) = emit_value(
        st,
        Instruction::IntBinary {
            operation: IntOperation::Multiply,
            left: so_far.operand,
            right: left,
        },
        ValueKind::Int,
    );
    let st = emit(st, Instruction::Store { slot: result.operand, value: product.operand });
    let (st, counted) = emit_value(
        st,
        Instruction::Load { slot: count.operand, kind: ValueKind::Int },
        ValueKind::Int,
    );
    let (st, fewer) = emit_value(
        st,
        Instruction::IntBinary {
            operation: IntOperation::Subtract,
            left: counted.operand,
            right: Operand::Integer(1),
        },
        ValueKind::Int,
    );
    let st = emit(st, Instruction::Store { slot: count.operand, value: fewer.operand });
    let st = emit(st, Instruction::Branch { target: Target::Back(1) });
    let st = emit(st, Instruction::Label { label: BlockLabel::PowerDone });
    emit_value(st, Instruction::Load { slot: result.operand, kind: ValueKind::Int }, ValueKind::Int)
}

#[verifier::opaque]
pub open spec fn float_power(st: State, left: Operand, right: Operand) -> (State, Value) {
    let (st, power) = call_external(st, External::Pow, seq![left, right]);
    (st, Value { operand: power, kind: ValueKind::Float })
}

/// True division: integers are converted first, so the result is a float
/// whatever the operands are.
#[verifier::opaque]
pub open spec fn int_divide(st: State, left: Operand, right: Operand) -> (State, Value) {
    let (st, dividend) = emit_value(st, Instruction::IntToFloat { value: left }, ValueKind::Float);
    let (st, divisor) = emit_value(st, Instruction::IntToFloat { value: right }, ValueKind::Float);
    emit_value(
        st,
        Instruction::FloatBinary {
            operation: FloatOperation::Divide,
            left: dividend.operand,
            right: divisor.operand,
        },
        ValueKind::Float,
    )
}

pub open spec fn int_operation(operator: BinaryOperator) -> IntOperation {
    match operator {
        BinaryOperator::Subtract => IntOperation::Subtract,
        BinaryOperator::Multiply => IntOperation::Multiply,
        _ => IntOperation::Add,
    }
}

pub open spec fn float_operation(operator: BinaryOperator) -> FloatOperation {
    match operator {
        BinaryOperator::Subtract => FloatOperation::Subtract,
        BinaryOperator::Multiply => FloatOperation::Multiply,
        _ => FloatOperation::Add,
    }
}

/// The arithmetic operators. Operands must be of one kind, and be
/// integers, floats or strings; only division turns integers into floats. A divisor that is the literal constant zero
/// is refused.
#[verifier::opaque]
pub open spec fn lower_binary(st: State, operator: BinaryOperator, left: Value, right: Value) -> (
    State,
    Result<Value, ErrorView>,
) {
    let divides = operator == BinaryOperator::Divide || operator == BinaryOperator::FloorDivide
        || operator == BinaryOperator::Modulo;
    let arithmetic = divides || operator == BinaryOperator::Add || operator
        == BinaryOperator::Subtract || operator == BinaryOperator::Multiply || operator
        == BinaryOperator::Power;
    if !arithmetic {
        (st, Err(ErrorView::UnsupportedOperator))
    } else if left.kind != right.kind || left.kind == ValueKind::Bool || left.kind
        == ValueKind::NoneValue || (left.kind == ValueKind::Pointer && operator
        != BinaryOperator::Add) {
        (st, Err(ErrorView::UnsupportedOperation))
    } else if divides && zero_operand(st, right.operand) {
        (st, Err(ErrorView::DivisionByZero))
    } else {
        let (l, r) = (left.operand, right.operand);
        let (st, value) = match (left.kind, operator) {
            (ValueKind::Pointer, _) => concatenate(st, l, r),
            (ValueKind::Int, BinaryOperator::Divide) => int_divide(st, l, r),
            (ValueKind::Int, BinaryOperator::FloorDivide) => int_floor_divide(st, l, r),
            (ValueKind::Int, BinaryOperator::Modulo) => int_modulo(st, l, r),
            (ValueKind::Int, BinaryOperator::Power) => int_power(st, l, r),
            (ValueKind::Int, _) => emit_value(
                st,
                Instruction::IntBinary { operation: int_operation(operator), left: l, right: r },
                ValueKind::Int,
            ),
            (ValueKind::Float, BinaryOperator::Divide) => emit_value(
                st,
                Instruction::FloatBinary {
                    operation: FloatOperation::Divide,
                    left: l,
                    right: r,
                },
                ValueKind::Float,
            ),
            (ValueKind::Float, BinaryOperator::FloorDivide) => float_floor_divide(st, l, r),
            (ValueKind::Float, BinaryOperator::Modulo) => float_modulo(st, l, r),
            (ValueKind::Float, BinaryOperator::Power) => float_power(st, l, r),
            (ValueKind::Float, _) => emit_value(
                st,
                Instruction::FloatBinary {
                    operation: float_operation(operator),
                    left: l,
                    right: r,
                },
                ValueKind::Float,
            ),
            (ValueKind::Bool, _) | (ValueKind::NoneValue, _) => (st, left),
        };
        (st, Ok(value))
    }
}

/// `+` is the identity, `-` subtracts an integer or a float from zero, and
/// `not` swaps the two booleans.
#[verifier::opaque]
pub open spec fn lower_unary(st: State, operator: UnaryOperator, operand: Value) -> (
    State,
    Result<Value, ErrorView>,
) {
    match (operator, operand.kind) {
        (UnaryOperator::Plus, _) => (st, Ok(operand)),
        (UnaryOperator::Minus, ValueKind::Int) => {
            let (st, value) = emit_value(
                st,
                Instruction::IntBinary {
                    operation: IntOperation::Subtract,
                    left: Operand::Integer(0),
                    right: operand.operand,
                },
                ValueKind::Int,
            );
            (st, Ok(value))
        },
        (UnaryOperator::Minus, ValueKind::Float) => {
            let (st, zero) = add_float(st, "0.0"@);
            let (st, value) = emit_value(
                st,
                Instruction::FloatBinary {
                    operation: FloatOperation::Subtract,
                    left: zero,
                    right: operand.operand,
                },
                ValueKind::Float,
            );
            (st, Ok(value))
        },
        (UnaryOperator::Minus, _) => (st, Err(ErrorView::UnsupportedUnaryMinus)),
        (UnaryOperator::Not, ValueKind::Bool) => {
            let (st, value) = emit_value(
                st,
                Instruction::IntBinary {
                    operation: IntOperation::Subtract,
                    left: Operand::Integer(1),
                    right: operand.operand,
                },
                ValueKind::Bool,
            );
            (st, Ok(value))
        },
        (UnaryOperator::Not, _) => (st, Err(ErrorView::UnsupportedUnaryNot)),
    }
}

/// Writes `format` with `printf`, with one value where there is one.
#[verifier::opaque]
pub open spec fn print_text(st: State, format: Seq<char>, value: Option<Operand>) -> State {
    let (st, text) = add_text(st, format);
    let values = match value {
        Some(operand) => seq![text, operand],
        None => seq![text],
    };
    call_external(st, External::Printf, values).0
}

pub open spec fn branch(st: State, ahead: usize) -> State {
    emit(st, Instruction::Branch { target: Target::Ahead(ahead) })
}

pub open spec fn branch_on(st: State, condition: Operand, then_ahead: usize, else_ahead: usize) -> State {
    emit(
        st,
        Instruction::CondBranch {
            condition,
            then_target: Target::Ahead(then_ahead),
            else_target: Target::Ahead(else_ahead),
        },
    )
}

pub open spec fn block(st: State, label: BlockLabel) -> State {
    emit(st, Instruction::Label { label })
}

/// A value as it is written: a boolean becomes the text `True` or `False`,
/// which the running program selects, `None` becomes the text `None`, and
/// an integer, a float or a string stays what it is.
#[verifier::opaque]
pub open spec fn shown(st: State, value: Value) -> (State, Value) {
    match value.kind {
        ValueKind::Bool => {
            let (st, yes) = add_text(st, "True"@);
            let (st, no) = add_text(st, "False"@);
            let (st, is_true) = emit_operand(
                st,
                Instruction::IntEqual { left: value.operand, right: true_value() },
            );
            emit_value(
                st,
                Instruction::Select {
                    condition: is_true,
                    then_value: yes,
                    else_value: no,
                    kind: ValueKind::Pointer,
                },
                ValueKind::Pointer,
            )
        },
        ValueKind::NoneValue => {
            let (st, operand) = add_text(st, "None"@);
            (st, Value { operand, kind: ValueKind::Pointer })
        },
        _ => (st, value),
    }
}

/// Prints a float, followed by `end`: `0.0` where it equals zero, which the
/// running program finds out, else in the general format.
#[verifier::opaque]
pub open spec fn print_float(st: State, value: Operand, end: Seq<char>) -> State {
    let (st, zero) = add_float(st, "0.0"@);
    let (st, is_zero) = emit_operand(st, Instruction::FloatEqual { left: value, right: zero });
    let st = branch_on(st, is_zero, 1, 2);
    let st = block(st, BlockLabel::PrintZero);
    let st = print_text(st, "0.0"@ + end, None);
    let st = branch(st, 2);
    let st = block(st, BlockLabel::PrintFloat);
    let st = print_text(st, "%g"@ + end, Some(value));
    let st = branch(st, 1);
    block(st, BlockLabel::PrintDone)
}

/// Prints one value by its kind, followed by `end`: an integer as its
/// digits, a float as `print_float` says, and everything else as the text
/// that `shown` gives.
#[verifier::opaque]
pub open spec fn print_value(st: State, value: Value, end: Seq<char>) -> State {
    let (st, value) = shown(st, value);
    match value.kind {
        ValueKind::Int => print_text(st, "%ld"@ + end, Some(value.operand)),
        ValueKind::Float => print_float(st, value.operand, end),
        _ => print_text(st, "%s"@ + end, Some(value.operand)),
    }
}

/// Prints the values from index `from` on: a space after each but the last,
/// a line feed after the last.
pub open spec fn print_values(st: State, values: Seq<Value>, from: nat) -> State
    decreases values.len() - from,
{
    if from >= values.len() {
        st
    } else {
        let end = if from + 1 == values.len() {
            "\n"@
        } else {
            " "@
        };
        print_values(print_value(st, values[from as int], end), values, from + 1)
    }
}

/// The built-in `print`: a bare line feed without arguments. What it gives
/// is `None`.
#[verifier::opaque]
pub open spec fn print_call(st: State, values: Seq<Value>) -> (State, Value) {
    let st = if values.len() == 0 {
        print_text(st, "\n"@, None)
    } else {
        print_values(st, values, 0)
    };
    (st, Value { operand: none_value(), kind: ValueKind::NoneValue })
}

pub open spec fn all_int(values: Seq<Value>) -> bool {
    forall|k: int| 0 <= k < values.len() ==> (#[trigger] values[k]).kind == ValueKind::Int
}

pub open spec fn operands(values: Seq<Value>) -> Seq<Operand> {
    Seq::new(values.len(), |k: int| values[k].operand)
}

/// A call of the function with index `function`: as many arguments as it
/// has parameters, all of them integers.
#[verifier::opaque]
pub open spec fn function_call(st: State, function: nat, values: Seq<Value>) -> (
    State,
    Result<Value, ErrorView>,
) {
    if function >= st.signatures.len() || values.len() != st.signatures[function as int].parameters
        || !all_int(values) {
        (st, Err(ErrorView::UnsupportedOperation))
    } else {
        let st = emit_arguments(st, operands(values));
        let (st, value) = emit_value(
            st,
            Instruction::Call {
                callee: Callee::Function(function as usize),
                arguments: values.len() as usize,
            },
            ValueKind::Int,
        );
        (st, Ok(value))
    }
}

/// `text` with every `%` doubled, so that `printf` writes it as it is.
pub open spec fn escape_percent(text: Seq<char>) -> Seq<char>
    decreases text.len(),
{
    if text.len() == 0 {
        Seq::empty()
    } else if text.last() == '%' {
        escape_percent(text.drop_last()) + seq!['%', '%']
    } else {
        escape_percent(text.drop_last()).push(text.last())
    }
}

/// How a value of a kind is written into a template.
pub open spec fn format_specifier(kind: ValueKind) -> Seq<char> {
    match kind {
        ValueKind::Int => "%ld"@,
        ValueKind::Float => "%.6g"@,
        _ => "%s"@,
    }
}

/// The number of bytes that `text` takes in UTF-8, as a machine word.
pub open spec fn byte_length(text: Seq<char>) -> nat {
    (vstd::utf8::encode_utf8(text).len() as usize) as nat
}

/// The size of the buffer that a template is written into: the bytes of its
/// literal segments and 256 more.
pub open spec fn buffer_size(parts: Seq<FStringPartView>, from: nat) -> nat
    decreases parts.len() - from,
{
    if from >= parts.len() {
        256
    } else {
        (match parts[from as int] {
            FStringPartView::Literal(text) => byte_length(text),
            FStringPartView::Expression(_) => 0,
        }) + buffer_size(parts, from + 1)
    }
}

/// Whether a template literal stands anywhere in an expression.
pub open spec fn holds_template(node: NodeView) -> bool
    decreases node, 0nat,
{
    match node {
        NodeView::Literal { value } => value is FString,
        NodeView::Unary { operand, .. } => holds_template(*operand),
        NodeView::Binary { left, right, .. } => holds_template(*left) || holds_template(*right),
        NodeView::Call { arguments, .. } => any_holds_template(arguments, 0),
        _ => false,
    }
}

/// Whether a template literal stands in one of the expressions from index
/// `from` on.
pub open spec fn any_holds_template(nodes: Seq<NodeView>, from: nat) -> bool
    decreases nodes, nodes.len() - from,
{
    if from >= nodes.len() {
        false
    } else {
        holds_template(nodes[from as int]) || any_holds_template(nodes, from + 1)
    }
}

/// The expression that the text between the braces of a template stands
/// for: the text read as one whole expression, if it can be read so and no
/// template stands in it. Any other text stands for itself.
pub open spec fn embedded_expression(text: Seq<char>) -> Option<NodeView> {
    match whole_expression(text) {
        Some(node) => if holds_template(node) {
            None
        } else {
            Some(node)
        },
        None => None,
    }
}

/// The segments of a template in `parts`: each adds to the format text,
/// and each embedded expression is lowered and adds its value as `shown`.
pub open spec fn lower_segments(
    st: State,
    parts: Seq<FStringPartView>,
    format: Seq<char>,
    values: Seq<Operand>,
) -> (State, Result<(Seq<char>, Seq<Operand>), ErrorView>)
    decreases 1nat, parts,
{
    if parts.len() == 0 {
        (st, Ok((format, values)))
    } else {
        let later = parts.subrange(1, parts.len() as int);
        match parts[0] {
            FStringPartView::Literal(text) => lower_segments(
                st,
                later,
                format + escape_percent(text),
                values,
            ),
            FStringPartView::Expression(text) => match embedded_expression(text) {
                None => {
                    let (st, operand) = add_text(st, text);
                    lower_segments(st, later, format + "%s"@, values.push(operand))
                },
                Some(node) => {
                    let (st, lowered) = lower_expression(st, node, true);
                    match lowered {
                        Err(error) => (st, Err(error)),
                        Ok(value) => {
                            let (st, value) = shown(st, value);
                            lower_segments(
                                st,
                                later,
                                format + format_specifier(value.kind),
                                values.push(value.operand),
                            )
                        },
                    }
                },
            },
        }
    }
}

/// A template string: one bounded `snprintf` into a zeroed stack buffer. A
/// template without segments is the empty string. Text between braces that
/// is no expression, or that holds a template of its own, stands for itself.
#[verifier::opaque]
pub open spec fn lower_template(st: State, parts: Seq<FStringPartView>) -> (
    State,
    Result<Value, ErrorView>,
)
    decreases 2nat, parts,
{
    if parts.len() == 0 {
        let (st, operand) = add_text(st, Seq::empty());
        (st, Ok(Value { operand, kind: ValueKind::Pointer }))
    } else if buffer_size(parts, 0) > i32::MAX {
        (st, Err(ErrorView::UnsupportedOperation))
    } else {
        let (st, segments) = lower_segments(st, parts, Seq::empty(), Seq::empty());
        match segments {
            Err(error) => (st, Err(error)),
            Ok((format, values)) => {
                let size = buffer_size(parts, 0);
                let (st, buffer) = emit_value(
                    st,
                    Instruction::Buffer { size: size as u32 },
                    ValueKind::Pointer,
                );
                let (st, _) = call_external(
                    st,
                    External::Memset,
                    seq![buffer.operand, Operand::Int32(0), Operand::Integer(size as i64)],
                );
                let (st, text) = add_text(st, format);
                let (st, _) = call_external(
                    st,
                    External::Snprintf,
                    seq![buffer.operand, Operand::Integer((size - 1) as i64), text] + values,
                );
                (st, Ok(buffer))
            },
        }
    }
}

/// The arguments of a call from index `from` on, lowered in order and added
/// to `values`.
pub open spec fn lower_arguments(
    st: State,
    arguments: Seq<NodeView>,
    from: nat,
    values: Seq<Value>,
    embedded: bool,
) -> (State, Result<Seq<Value>, ErrorView>)
    decreases
            if embedded {
                0nat
            } else {
                3nat
            },
            arguments,
            arguments.len() - from,
{
    if from >= arguments.len() {
        (st, Ok(values))
    } else {
        let (st, lowered) = lower_expression(st, arguments[from as int], embedded);
        match lowered {
            Err(error) => (st, Err(error)),
            Ok(value) => lower_arguments(st, arguments, from + 1, values.push(value), embedded),
        }
    }
}

/// An expression. `embedded` says that it stands between the braces of a
/// template, where no further template may stand.
pub open spec fn lower_expression(st: State, node: NodeView, embedded: bool) -> (
    State,
    Result<Value, ErrorView>,
)
    decreases
            if embedded {
                0nat
            } else {
                3nat
            },
            node,
{
    match node {
        NodeView::Literal { value } => match value {
            LiteralView::Integer(v) => (
                st,
                Ok(Value { operand: Operand::Integer(v), kind: ValueKind::Int }),
            ),
            LiteralView::Float(text) => {
                let (st, operand) = add_float(st, text);
                (st, Ok(Value { operand, kind: ValueKind::Float }))
            },
            LiteralView::String(text) => {
                let (st, operand) = add_text(st, text);
                (st, Ok(Value { operand, kind: ValueKind::Pointer }))
            },
            LiteralView::FString(parts) => if embedded {
                (st, Err(ErrorView::UnsupportedOperation))
            } else {
                lower_template(st, parts)
            },
            LiteralView::Boolean(b) => (
                st,
                Ok(
                    Value {
                        operand: if b {
                            true_value()
                        } else {
                            false_value()
                        },
                        kind: ValueKind::Bool,
                    },
                ),
            ),
            LiteralView::NoneLiteral => (
                st,
                Ok(Value { operand: none_value(), kind: ValueKind::NoneValue }),
            ),
        },
        NodeView::Identifier { name } => match lookup(st.variables, name) {
            Some(binding) => {
                let (st, value) = emit_value(
                    st,
                    Instruction::Load {
                        slot: Operand::Result(binding.slot as usize),
                        kind: binding.kind,
                    },
                    binding.kind,
                );
                (st, Ok(value))
            },
            None => (st, Err(ErrorView::UndefinedVariable(name))),
        },
        NodeView::Unary { operator, operand } => {
            let (st, lowered) = lower_expression(st, *operand, embedded);
            match lowered {
                Err(error) => (st, Err(error)),
                Ok(value) => lower_unary(st, operator, value),
            }
        },
        NodeView::Binary { left, operator, right } => {
            let (st, first) = lower_expression(st, *left, embedded);
            match first {
                Err(error) => (st, Err(error)),
                Ok(l) => {
                    let (st, second) = lower_expression(st, *right, embedded);
                    match second {
                        Err(error) => (st, Err(error)),
                        Ok(r) => lower_binary(st, operator, l, r),
                    }
                },
            }
        },
        NodeView::Call { callee, arguments } => {
            let function = find_function(st.signatures, callee, 0);
            if function is None && callee != "print"@ {
                (st, Err(ErrorView::UndefinedFunction(callee)))
            } else {
                let (st, lowered) = lower_arguments(st, arguments, 0, Seq::empty(), embedded);
                match lowered {
                    Err(error) => (st, Err(error)),
                    Ok(values) => match function {
                        Some(index) => function_call(st, index, values),
                        None => {
                            let (st, value) = print_call(st, values);
                            (st, Ok(value))
                        },
                    },
                }
            }
        },
        _ => (st, Err(ErrorView::UnsupportedExpression)),
    }
}

/// A new basic block, where the one before has been closed by a return.
pub open spec fn open_block(st: State) -> State {
    if st.body.len() > 0 && crate::codegen::ir::terminator(st.body.last()) {
        block(st, BlockLabel::AfterReturn)
    } else {
        st
    }
}

/// What a function gives where it ends without a return: the status zero
/// from an entry function, `None` from another.
pub open spec fn default_result(entry: bool) -> Operand {
    if entry {
        Operand::Int32(0)
    } else {
        none_value()
    }
}

/// The return that is added where the last block is still open.
pub open spec fn close_body(st: State) -> State {
    if st.body.len() > 0 && crate::codegen::ir::terminator(st.body.last()) {
        st
    } else {
        emit(st, Instruction::Return { value: default_result(st.entry) })
    }
}

/// A stack slot for a value of `kind`, the store of `value` into it, and the
/// binding of `name` to it.
#[verifier::opaque]
pub open spec fn bind(st: State, name: Seq<char>, value: Operand, kind: ValueKind) -> State {
    let (st, slot) = emit_operand(st, Instruction::Alloca { kind });
    let st = emit(st, Instruction::Store { slot, value });
    State {
        variables: st.variables.push(
            BindingView { name, slot: (st.body.len() - 2) as nat, kind },
        ),
        ..st
    }
}

/// Binds the parameters from index `from` on to slots that hold them.
pub open spec fn bind_parameters(st: State, parameters: Seq<Seq<char>>, from: nat) -> State
    decreases parameters.len() - from,
{
    if from >= parameters.len() {
        st
    } else {
        bind_parameters(
            bind(st, parameters[from as int], Operand::Parameter(from as usize), ValueKind::Int),
            parameters,
            from + 1,
        )
    }
}

/// A return statement. The value is lowered for its effects in any case.
/// An entry function returns the status zero; another function returns its
/// value, which must be an integer, or `None`.
#[verifier::opaque]
pub open spec fn lower_return(st: State, value: Option<Box<NodeView>>) -> (
    State,
    Result<(), ErrorView>,
) {
    match value {
        None => (emit(st, Instruction::Return { value: default_result(st.entry) }), Ok(())),
        Some(node) => {
            let (st, lowered) = lower_expression(st, *node, false);
            match lowered {
                Err(error) => (st, Err(error)),
                Ok(value) => if st.entry {
                    (emit(st, Instruction::Return { value: default_result(true) }), Ok(()))
                } else if value.kind != ValueKind::Int {
                    (st, Err(ErrorView::UnsupportedOperation))
                } else {
                    (emit(st, Instruction::Return { value: value.operand }), Ok(()))
                },
            }
        },
    }
}

/// A statement. Conditionals, loops and whatever else is no statement of
/// the subset are passed over.
pub open spec fn lower_statement(st: State, node: NodeView) -> (State, Result<(), ErrorView>)
    decreases node,
{
    let st = open_block(st);
    match node {
        NodeView::Assignment { name, value } => {
            let (st, lowered) = lower_expression(st, *value, false);
            match lowered {
                Err(error) => (st, Err(error)),
                Ok(value) => (bind(st, name, value.operand, value.kind), Ok(())),
            }
        },
        NodeView::ExpressionStatement { expression } => {
            let (st, lowered) = lower_expression(st, *expression, false);
            match lowered {
                Err(error) => (st, Err(error)),
                Ok(_) => (st, Ok(())),
            }
        },
        NodeView::Function { name, parameters, body } => {
            let index = st.signatures.len();
            let inner = State {
                signatures: st.signatures.push(
                    SignatureView { name, parameters: parameters.len(), entry: false },
                ),
                body: seq![Instruction::Label { label: BlockLabel::Entry }],
                function: index,
                entry: false,
                variables: Seq::empty(),
                ..st
            };
            let (inner, lowered) = lower_statement(bind_parameters(inner, parameters, 0), *body);
            match lowered {
                Err(error) => (inner, Err(error)),
                Ok(_) => (
                    State {
                        body: st.body,
                        function: st.function,
                        entry: st.entry,
                        variables: st.variables,
                        ..finish_body(inner)
                    },
                    Ok(()),
                ),
            }
        },
        NodeView::Return { value } => lower_return(st, value),
        _ => (st, Ok(())),
    }
}

/// The statements from index `from` on, in order, up to the first error.
pub open spec fn lower_statements(st: State, statements: Seq<NodeView>, from: nat) -> (
    State,
    Result<(), ErrorView>,
)
    decreases statements.len() - from,
{
    if from >= statements.len() {
        (st, Ok(()))
    } else {
        let (st, lowered) = lower_statement(st, statements[from as int]);
        match lowered {
            Err(error) => (st, Err(error)),
            Ok(_) => lower_statements(st, statements, from + 1),
        }
    }
}

/// The state in which nothing has been made.
pub open spec fn empty_state() -> State {
    State {
        signatures: Seq::empty(),
        bodies: Seq::empty(),
        strings: Seq::empty(),
        floats: Seq::empty(),
        externals: Seq::empty(),
        body: Seq::empty(),
        function: 0,
        entry: false,
        variables: Seq::empty(),
    }
}

/// The state in which the entry function `main` has been started.
pub open spec fn entry_state() -> State {
    State {
        signatures: seq![SignatureView { name: "main"@, parameters: 0, entry: true }],
        body: seq![Instruction::Label { label: BlockLabel::Entry }],
        entry: true,
        ..empty_state()
    }
}

/// The state in which the function being built is finished: its body joins
/// the bodies of the unit.
pub open spec fn finish_body(st: State) -> State {
    let st = close_body(st);
    State {
        bodies: st.bodies.push(BodyView { function: st.function, instructions: st.body }),
        body: Seq::empty(),
        variables: Seq::empty(),
        ..st
    }
}

/// A program: an entry function `main` that holds the top-level statements
/// and returns the status zero, and one function for each definition. The
/// first statement that fails ends the lowering with its error.
pub open spec fn lower_program(node: NodeView) -> Result<State, ErrorView> {
    match node {
        NodeView::Program { statements } => {
            let (st, lowered) = lower_statements(entry_state(), statements, 0);
            match lowered {
                Err(error) => Err(error),
                Ok(_) => Ok(finish_body(st)),
            }
        },
        _ => Err(ErrorView::ExpectedProgram),
    }
}

} // verus!
