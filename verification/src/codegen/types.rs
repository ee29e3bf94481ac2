//! The type invariant of the intermediate representation: every
//! instruction reads operands of the sorts that it takes.

use crate::ast::node::{BinaryOperator, FStringPartView, LiteralView, NodeView, UnaryOperator};
use crate::codegen::ir::{BlockLabel, Callee, External, Instruction, Operand, ValueKind};
use crate::codegen::rules::{
    add_text, bind, bind_parameters, call_external, close_body, concatenate, declare, emit,
    emit_arguments, emit_operand, emit_value, entry_state, escape_percent, find_function,
    finish_body, float_floor_divide, float_modulo, float_power, format_specifier, function_call,
    int_correction, int_divide, int_floor_divide, int_modulo, int_power,
    lower_arguments, lower_binary, lower_expression, lower_program, lower_return,
    lower_segments, lower_statement, lower_statements, lower_template, lower_unary, open_block,
    operands, print_call, print_float, print_text, print_value, print_values, shown,
    SignatureView, State, Value,
};
use crate::codegen::scope::{
    lemma_bind_parameters_in_scope, lemma_lookup_is_bound, lemma_lower_statement_in_scope,
    unit_grows, unit_scoped,
};
use crate::codegen::rules::embedded_expression;
use vstd::prelude::*;

verus! {

/// What kind of thing an operand is.
pub enum Sort {
    /// The result of a comparison.
    Bit,
    Int32,
    Int64,
    Float64,
    /// A pointer to bytes.
    Text,
    /// A pointer to a stack slot that holds a value of a kind.
    Slot(ValueKind),
    Nothing,
}

pub open spec fn sort_of_kind(kind: ValueKind) -> Sort {
    match kind {
        ValueKind::Int | ValueKind::Bool | ValueKind::NoneValue => Sort::Int64,
        ValueKind::Float => Sort::Float64,
        ValueKind::Pointer => Sort::Text,
    }
}

/// The sort of what an instruction gives.
pub open spec fn gives(instruction: Instruction) -> Sort {
    match instruction {
        Instruction::Alloca { kind } => Sort::Slot(kind),
        Instruction::Buffer { .. } => Sort::Text,
        Instruction::Load { kind, .. } | Instruction::Select { kind, .. } => sort_of_kind(kind),
        Instruction::IntBinary { .. } => Sort::Int64,
        Instruction::FloatBinary { .. } | Instruction::IntToFloat { .. } => Sort::Float64,
        Instruction::IntEqual { .. }
        | Instruction::IntGreater { .. }
        | Instruction::FloatEqual { .. }
        | Instruction::FloatLess { .. } => Sort::Bit,
        Instruction::Call { callee: Callee::Function(_), .. } => Sort::Int64,
        Instruction::Call { callee: Callee::External(external), .. } => match external {
            External::Printf | External::Snprintf => Sort::Int32,
            External::Strlen => Sort::Int64,
            External::Memset | External::Malloc | External::Strcpy | External::Strcat => Sort::Text,
            External::Floor | External::Pow => Sort::Float64,
        },
        _ => Sort::Nothing,
    }
}

/// An operand is of a sort: a constant by what it is, a parameter as a
/// 64-bit integer, and a result by the instruction of the body that gave it.
pub open spec fn has_sort(body: Seq<Instruction>, operand: Operand, sort: Sort) -> bool {
    match operand {
        Operand::Integer(_) | Operand::Parameter(_) => sort == Sort::Int64,
        Operand::Int32(_) => sort == Sort::Int32,
        Operand::Float(_) => sort == Sort::Float64,
        Operand::Text(_) => sort == Sort::Text,
        Operand::Result(i) => i < body.len() && gives(body[i as int]) == sort,
    }
}

/// Both operands are of one sort.
pub open spec fn both(body: Seq<Instruction>, left: Operand, right: Operand, sort: Sort) -> bool {
    has_sort(body, left, sort) && has_sort(body, right, sort)
}

/// A slot for a kind, and a value of that kind.
pub open spec fn fits_slot(body: Seq<Instruction>, slot: Operand, value: Operand, kind: ValueKind) -> bool {
    has_sort(body, slot, Sort::Slot(kind)) && has_sort(body, value, sort_of_kind(kind))
}

/// An instruction reads operands of the sorts that it takes. A function
/// returns a 32-bit status where it is an entry function and a 64-bit
/// integer where it is not.
pub open spec fn typed(entry: bool, body: Seq<Instruction>, instruction: Instruction) -> bool {
    match instruction {
        Instruction::Store { slot, value } => fits_slot(body, slot, value, ValueKind::Int)
            || fits_slot(body, slot, value, ValueKind::Float) || fits_slot(
            body,
            slot,
            value,
            ValueKind::Pointer,
        ) || fits_slot(body, slot, value, ValueKind::Bool) || fits_slot(
            body,
            slot,
            value,
            ValueKind::NoneValue,
        ),
        Instruction::Load { slot, kind } => has_sort(body, slot, Sort::Slot(kind)),
        Instruction::IntBinary { left, right, .. } | Instruction::IntGreater { left, right } => both(
            body,
            left,
            right,
            Sort::Int64,
        ),
        Instruction::FloatBinary { left, right, .. }
        | Instruction::FloatEqual { left, right }
        | Instruction::FloatLess { left, right } => both(body, left, right, Sort::Float64),
        Instruction::IntToFloat { value } => has_sort(body, value, Sort::Int64),
        Instruction::IntEqual { left, right } => both(body, left, right, Sort::Int64) || both(
            body,
            left,
            right,
            Sort::Bit,
        ),
        Instruction::Select { condition, then_value, else_value, kind } => has_sort(
            body,
            condition,
            Sort::Bit,
        ) && both(body, then_value, else_value, sort_of_kind(kind)),
        Instruction::Argument { value } => has_sort(body, value, Sort::Int64) || has_sort(
            body,
            value,
            Sort::Int32,
        ) || has_sort(body, value, Sort::Float64) || has_sort(body, value, Sort::Text),
        Instruction::Return { value } => has_sort(
            body,
            value,
            if entry {
                Sort::Int32
            } else {
                Sort::Int64
            },
        ),
        Instruction::CondBranch { condition, .. } => has_sort(body, condition, Sort::Bit),
        _ => true,
    }
}

/// Every instruction of a body is typed.
pub open spec fn body_typed(entry: bool, body: Seq<Instruction>) -> bool {
    forall|j: int| 0 <= j < body.len() ==> typed(entry, body, #[trigger] body[j])
}

/// A value is held as its kind says.
pub open spec fn valued(body: Seq<Instruction>, value: Value) -> bool {
    has_sort(body, value.operand, sort_of_kind(value.kind))
}

/// Whatever has a sort in the shorter body has it in the longer one.
pub open spec fn preserves(body: Seq<Instruction>, longer: Seq<Instruction>) -> bool {
    forall|operand: Operand, sort: Sort|
        has_sort(body, operand, sort) ==> #[trigger] has_sort(longer, operand, sort)
}

/// Every name is bound to a slot for its kind.
pub open spec fn slots_typed(st: State) -> bool {
    forall|v: int|
        0 <= v < st.variables.len() ==> has_sort(
            st.body,
            Operand::Result((#[trigger] st.variables[v]).slot as usize),
            Sort::Slot(st.variables[v].kind),
        )
}

/// The type invariant of the function being built.
pub open spec fn well_typed(st: State) -> bool {
    &&& body_typed(st.entry, st.body)
    &&& slots_typed(st)
    &&& st.body.len() <= usize::MAX
}

/// The body still fits the indices of the machine.
pub open spec fn fits(st: State) -> bool {
    st.body.len() <= usize::MAX
}

/// One more instruction that is typed keeps the invariant, and what it
/// gives has the sort that the instruction gives.
pub broadcast proof fn lemma_emit_typed(st: State, instruction: Instruction)
    requires
        well_typed(st),
        typed(st.entry, st.body, instruction),
    ensures
        #![trigger emit(st, instruction)]
        fits(emit(st, instruction)) ==> well_typed(emit(st, instruction)) && preserves(
            st.body,
            emit(st, instruction).body,
        ) && has_sort(
            emit(st, instruction).body,
            crate::codegen::rules::upcoming(st),
            gives(instruction),
        ),
{
    let after = emit(st, instruction);
    if fits(after) {
        assert forall|operand: Operand, sort: Sort| has_sort(st.body, operand, sort) implies #[trigger] has_sort(
            after.body,
            operand,
            sort,
        ) by {
            if let Operand::Result(i) = operand {
                assert(after.body[i as int] == st.body[i as int]);
            }
        }
        assert forall|j: int| 0 <= j < after.body.len() implies typed(
            after.entry,
            after.body,
            #[trigger] after.body[j],
        ) by {
            if j < st.body.len() {
                assert(after.body[j] == st.body[j]);
                assert(typed(st.entry, st.body, st.body[j]));
            }
        }
        assert forall|v: int| 0 <= v < after.variables.len() implies has_sort(
            after.body,
            Operand::Result((#[trigger] after.variables[v]).slot as usize),
            Sort::Slot(after.variables[v].kind),
        ) by {
            assert(has_sort(
                st.body,
                Operand::Result(st.variables[v].slot as usize),
                Sort::Slot(st.variables[v].kind),
            ));
        }
    }
}

/// The fields that an instruction leaves alone, and the length that it
/// adds.
pub broadcast proof fn lemma_emit_shape(st: State, instruction: Instruction)
    ensures
        #![trigger emit(st, instruction)]
        emit(st, instruction).body.len() == st.body.len() + 1,
        emit(st, instruction).entry == st.entry,
        emit(st, instruction).variables == st.variables,
        emit(st, instruction).bodies == st.bodies,
        emit(st, instruction).signatures == st.signatures,
        emit(st, instruction).function == st.function,
{
}

pub broadcast proof fn lemma_emit_arguments_shape(st: State, values: Seq<Operand>)
    ensures
        #![trigger emit_arguments(st, values)]
        emit_arguments(st, values).body.len() >= st.body.len(),
        emit_arguments(st, values).entry == st.entry,
        emit_arguments(st, values).variables == st.variables,
        emit_arguments(st, values).bodies == st.bodies,
        emit_arguments(st, values).signatures == st.signatures,
        emit_arguments(st, values).function == st.function,
    decreases values.len(),
{
    if values.len() > 0 {
        lemma_emit_arguments_shape(
            emit(st, Instruction::Argument { value: values[0] }),
            values.subrange(1, values.len() as int),
        );
    }
}

pub broadcast proof fn lemma_call_external_shape(st: State, external: External, values: Seq<Operand>)
    ensures
        #![trigger call_external(st, external, values)]
        call_external(st, external, values).0.body.len() >= st.body.len(),
        call_external(st, external, values).0.entry == st.entry,
        call_external(st, external, values).0.variables == st.variables,
        call_external(st, external, values).0.bodies == st.bodies,
        call_external(st, external, values).0.signatures == st.signatures,
        call_external(st, external, values).0.function == st.function,
{
    reveal(call_external);
    broadcast use lemma_emit_arguments_shape;

}

pub broadcast proof fn lemma_int_correction_shape(st: State, remainder: Operand, right: Operand, step: Operand)
    ensures
        #![trigger int_correction(st, remainder, right, step)]
        int_correction(st, remainder, right, step).0.body.len() >= st.body.len(),
        int_correction(st, remainder, right, step).0.entry == st.entry,
        int_correction(st, remainder, right, step).0.variables == st.variables,
        int_correction(st, remainder, right, step).0.bodies == st.bodies,
        int_correction(st, remainder, right, step).0.signatures == st.signatures,
        int_correction(st, remainder, right, step).0.function == st.function,
{
    reveal(int_correction);
}

pub broadcast proof fn lemma_concatenate_shape(st: State, left: Operand, right: Operand)
    ensures
        #![trigger concatenate(st, left, right)]
        concatenate(st, left, right).0.body.len() >= st.body.len(),
        concatenate(st, left, right).0.entry == st.entry,
        concatenate(st, left, right).0.variables == st.variables,
        concatenate(st, left, right).0.bodies == st.bodies,
        concatenate(st, left, right).0.signatures == st.signatures,
        concatenate(st, left, right).0.function == st.function,
{
    reveal(concatenate);
    broadcast use lemma_call_external_shape;

}

pub broadcast proof fn lemma_int_modulo_shape(st: State, left: Operand, right: Operand)
    ensures
        #![trigger int_modulo(st, left, right)]
        int_modulo(st, left, right).0.body.len() >= st.body.len(),
        int_modulo(st, left, right).0.entry == st.entry,
        int_modulo(st, left, right).0.variables == st.variables,
        int_modulo(st, left, right).0.bodies == st.bodies,
        int_modulo(st, left, right).0.signatures == st.signatures,
        int_modulo(st, left, right).0.function == st.function,
{
    reveal(int_modulo);
    broadcast use lemma_int_correction_shape;

}

pub broadcast proof fn lemma_int_floor_divide_shape(st: State, left: Operand, right: Operand)
    ensures
        #![trigger int_floor_divide(st, left, right)]
        int_floor_divide(st, left, right).0.body.len() >= st.body.len(),
        int_floor_divide(st, left, right).0.entry == st.entry,
        int_floor_divide(st, left, right).0.variables == st.variables,
        int_floor_divide(st, left, right).0.bodies == st.bodies,
        int_floor_divide(st, left, right).0.signatures == st.signatures,
        int_floor_divide(st, left, right).0.function == st.function,
{
    reveal(int_floor_divide);
    broadcast use lemma_int_correction_shape;

}

pub broadcast proof fn lemma_float_modulo_shape(st: State, left: Operand, right: Operand)
    ensures
        #![trigger float_modulo(st, left, right)]
        float_modulo(st, left, right).0.body.len() >= st.body.len(),
        float_modulo(st, left, right).0.entry == st.entry,
        float_modulo(st, left, right).0.variables == st.variables,
        float_modulo(st, left, right).0.bodies == st.bodies,
        float_modulo(st, left, right).0.signatures == st.signatures,
        float_modulo(st, left, right).0.function == st.function,
{
    reveal(float_modulo);
}

pub broadcast proof fn lemma_float_floor_divide_shape(st: State, left: Operand, right: Operand)
    ensures
        #![trigger float_floor_divide(st, left, right)]
        float_floor_divide(st, left, right).0.body.len() >= st.body.len(),
        float_floor_divide(st, left, right).0.entry == st.entry,
        float_floor_divide(st, left, right).0.variables == st.variables,
        float_floor_divide(st, left, right).0.bodies == st.bodies,
        float_floor_divide(st, left, right).0.signatures == st.signatures,
        float_floor_divide(st, left, right).0.function == st.function,
{
    reveal(float_floor_divide);
    broadcast use lemma_call_external_shape;

}

pub broadcast proof fn lemma_int_power_shape(st: State, left: Operand, right: Operand)
    ensures
        #![trigger int_power(st, left, right)]
        int_power(st, left, right).0.body.len() >= st.body.len(),
        int_power(st, left, right).0.entry == st.entry,
        int_power(st, left, right).0.variables == st.variables,
        int_power(st, left, right).0.bodies == st.bodies,
        int_power(st, left, right).0.signatures == st.signatures,
        int_power(st, left, right).0.function == st.function,
{
    reveal(int_power);
}

pub broadcast proof fn lemma_float_power_shape(st: State, left: Operand, right: Operand)
    ensures
        #![trigger float_power(st, left, right)]
        float_power(st, left, right).0.body.len() >= st.body.len(),
        float_power(st, left, right).0.entry == st.entry,
        float_power(st, left, right).0.variables == st.variables,
        float_power(st, left, right).0.bodies == st.bodies,
        float_power(st, left, right).0.signatures == st.signatures,
        float_power(st, left, right).0.function == st.function,
{
    reveal(float_power);
    broadcast use lemma_call_external_shape;

}

pub broadcast proof fn lemma_int_divide_shape(st: State, left: Operand, right: Operand)
    ensures
        #![trigger int_divide(st, left, right)]
        int_divide(st, left, right).0.body.len() >= st.body.len(),
        int_divide(st, left, right).0.entry == st.entry,
        int_divide(st, left, right).0.variables == st.variables,
        int_divide(st, left, right).0.bodies == st.bodies,
        int_divide(st, left, right).0.signatures == st.signatures,
        int_divide(st, left, right).0.function == st.function,
{
    reveal(int_divide);
}

pub broadcast proof fn lemma_lower_binary_shape(st: State, operator: BinaryOperator, left: Value, right: Value)
    ensures
        #![trigger lower_binary(st, operator, left, right)]
        lower_binary(st, operator, left, right).0.body.len() >= st.body.len(),
        lower_binary(st, operator, left, right).0.entry == st.entry,
        lower_binary(st, operator, left, right).0.variables == st.variables,
        lower_binary(st, operator, left, right).0.bodies == st.bodies,
        lower_binary(st, operator, left, right).0.signatures == st.signatures,
        lower_binary(st, operator, left, right).0.function == st.function,
{
    reveal(lower_binary);
    broadcast use lemma_concatenate_shape, lemma_int_modulo_shape, lemma_int_floor_divide_shape, lemma_float_modulo_shape, lemma_float_floor_divide_shape, lemma_int_power_shape, lemma_float_power_shape, lemma_int_divide_shape;

}

pub broadcast proof fn lemma_lower_unary_shape(st: State, operator: UnaryOperator, operand: Value)
    ensures
        #![trigger lower_unary(st, operator, operand)]
        lower_unary(st, operator, operand).0.body.len() >= st.body.len(),
        lower_unary(st, operator, operand).0.entry == st.entry,
        lower_unary(st, operator, operand).0.variables == st.variables,
        lower_unary(st, operator, operand).0.bodies == st.bodies,
        lower_unary(st, operator, operand).0.signatures == st.signatures,
        lower_unary(st, operator, operand).0.function == st.function,
{
    reveal(lower_unary);
}

pub broadcast proof fn lemma_print_text_shape(st: State, format: Seq<char>, value: Option<Operand>)
    ensures
        #![trigger print_text(st, format, value)]
        print_text(st, format, value).body.len() >= st.body.len(),
        print_text(st, format, value).entry == st.entry,
        print_text(st, format, value).variables == st.variables,
        print_text(st, format, value).bodies == st.bodies,
        print_text(st, format, value).signatures == st.signatures,
        print_text(st, format, value).function == st.function,
{
    reveal(print_text);
    broadcast use lemma_call_external_shape;

}

pub broadcast proof fn lemma_shown_shape(st: State, value: Value)
    ensures
        #![trigger shown(st, value)]
        shown(st, value).0.body.len() >= st.body.len(),
        shown(st, value).0.entry == st.entry,
        shown(st, value).0.variables == st.variables,
        shown(st, value).0.bodies == st.bodies,
        shown(st, value).0.signatures == st.signatures,
        shown(st, value).0.function == st.function,
{
    reveal(shown);
    broadcast use lemma_print_text_shape;

}

pub broadcast proof fn lemma_print_float_shape(st: State, value: Operand, end: Seq<char>)
    ensures
        #![trigger print_float(st, value, end)]
        print_float(st, value, end).body.len() >= st.body.len(),
        print_float(st, value, end).entry == st.entry,
        print_float(st, value, end).variables == st.variables,
        print_float(st, value, end).bodies == st.bodies,
        print_float(st, value, end).signatures == st.signatures,
        print_float(st, value, end).function == st.function,
{
    reveal(print_float);
    broadcast use lemma_print_text_shape;

}

pub broadcast proof fn lemma_print_value_shape(st: State, value: Value, end: Seq<char>)
    ensures
        #![trigger print_value(st, value, end)]
        print_value(st, value, end).body.len() >= st.body.len(),
        print_value(st, value, end).entry == st.entry,
        print_value(st, value, end).variables == st.variables,
        print_value(st, value, end).bodies == st.bodies,
        print_value(st, value, end).signatures == st.signatures,
        print_value(st, value, end).function == st.function,
{
    reveal(print_value);
    broadcast use lemma_print_text_shape, lemma_shown_shape, lemma_print_float_shape;

}

pub broadcast proof fn lemma_print_values_shape(st: State, values: Seq<Value>, from: nat)
    ensures
        #![trigger print_values(st, values, from)]
        print_values(st, values, from).body.len() >= st.body.len(),
        print_values(st, values, from).entry == st.entry,
        print_values(st, values, from).variables == st.variables,
        print_values(st, values, from).bodies == st.bodies,
        print_values(st, values, from).signatures == st.signatures,
        print_values(st, values, from).function == st.function,
    decreases values.len() - from,
{
    broadcast use lemma_print_value_shape;

    if from < values.len() {
        let end = if from + 1 == values.len() {
            "\n"@
        } else {
            " "@
        };
        lemma_print_values_shape(print_value(st, values[from as int], end), values, from + 1);
    }
}

pub broadcast proof fn lemma_print_call_shape(st: State, values: Seq<Value>)
    ensures
        #![trigger print_call(st, values)]
        print_call(st, values).0.body.len() >= st.body.len(),
        print_call(st, values).0.entry == st.entry,
        print_call(st, values).0.variables == st.variables,
        print_call(st, values).0.bodies == st.bodies,
        print_call(st, values).0.signatures == st.signatures,
        print_call(st, values).0.function == st.function,
{
    reveal(print_call);
    broadcast use lemma_print_text_shape, lemma_print_values_shape;

}

pub broadcast proof fn lemma_function_call_shape(st: State, function: nat, values: Seq<Value>)
    ensures
        #![trigger function_call(st, function, values)]
        function_call(st, function, values).0.body.len() >= st.body.len(),
        function_call(st, function, values).0.entry == st.entry,
        function_call(st, function, values).0.variables == st.variables,
        function_call(st, function, values).0.bodies == st.bodies,
        function_call(st, function, values).0.signatures == st.signatures,
        function_call(st, function, values).0.function == st.function,
{
    reveal(function_call);
    broadcast use lemma_emit_arguments_shape;

}

/// A sort that can be handed to a call.
pub open spec fn basic(body: Seq<Instruction>, operand: Operand) -> bool {
    has_sort(body, operand, Sort::Int64) || has_sort(body, operand, Sort::Int32) || has_sort(
        body,
        operand,
        Sort::Float64,
    ) || has_sort(body, operand, Sort::Text)
}

pub open spec fn all_basic(body: Seq<Instruction>, values: Seq<Operand>) -> bool {
    forall|k: int| 0 <= k < values.len() ==> basic(body, #[trigger] values[k])
}

pub open spec fn all_valued(body: Seq<Instruction>, values: Seq<Value>) -> bool {
    forall|k: int| 0 <= k < values.len() ==> valued(body, #[trigger] values[k])
}

/// The sort of what a C library function returns.
pub open spec fn external_sort(external: External) -> Sort {
    gives(Instruction::Call { callee: Callee::External(external), arguments: 0 })
}

pub broadcast proof fn lemma_emit_arguments_typed(st: State, values: Seq<Operand>)
    requires
        well_typed(st),
        all_basic(st.body, values),
    ensures
        #![trigger emit_arguments(st, values)]
        fits(emit_arguments(st, values)) ==> well_typed(emit_arguments(st, values)) && preserves(
            st.body,
            emit_arguments(st, values).body,
        ),
    decreases values.len(),
{
    broadcast use lemma_emit_shape, lemma_emit_arguments_shape;

    if values.len() > 0 && fits(emit_arguments(st, values)) {
        let first = Instruction::Argument { value: values[0] };
        let later = values.subrange(1, values.len() as int);
        lemma_emit_typed(st, first);
        let st1 = emit(st, first);
        lemma_emit_arguments_shape(st1, later);
        assert(all_basic(st1.body, later)) by {
            assert forall|k: int| 0 <= k < later.len() implies basic(st1.body, #[trigger] later[k]) by {
                assert(later[k] == values[k + 1]);
                assert(basic(st.body, values[k + 1]));
            }
        }
        lemma_emit_arguments_typed(st1, later);
    }
}

pub broadcast proof fn lemma_call_external_typed(st: State, external: External, values: Seq<Operand>)
    requires
        well_typed(st),
        all_basic(st.body, values),
    ensures
        #![trigger call_external(st, external, values)]
        fits(call_external(st, external, values).0) ==> well_typed(
            call_external(st, external, values).0,
        ) && preserves(st.body, call_external(st, external, values).0.body) && has_sort(
            call_external(st, external, values).0.body,
            call_external(st, external, values).1,
            external_sort(external),
        ),
{
    reveal(call_external);
    broadcast use lemma_emit_shape, lemma_emit_arguments_shape;

    let declared = declare(st, external);
    let handed = emit_arguments(declared, values);
    let call = Instruction::Call {
        callee: Callee::External(external),
        arguments: values.len() as usize,
    };
    if fits(emit(handed, call)) {
        lemma_emit_arguments_typed(declared, values);
        lemma_emit_typed(handed, call);
    }
}

pub broadcast proof fn lemma_int_correction_typed(st: State, remainder: Operand, right: Operand, step: Operand)
    requires
        well_typed(st),
        has_sort(st.body, remainder, Sort::Int64),
        has_sort(st.body, right, Sort::Int64),
        has_sort(st.body, step, Sort::Int64),
    ensures
        #![trigger int_correction(st, remainder, right, step)]
        fits(int_correction(st, remainder, right, step).0) ==> well_typed(int_correction(st, remainder, right, step).0) && preserves(
            st.body,
            int_correction(st, remainder, right, step).0.body,
        ) && has_sort(
            int_correction(st, remainder, right, step).0.body,
            int_correction(st, remainder, right, step).1,
            Sort::Int64,
        ),
{
    reveal(int_correction);
    broadcast use lemma_emit_typed, lemma_emit_shape;

}

pub broadcast proof fn lemma_concatenate_typed(st: State, left: Operand, right: Operand)
    requires
        well_typed(st),
        has_sort(st.body, left, Sort::Text),
        has_sort(st.body, right, Sort::Text),
    ensures
        #![trigger concatenate(st, left, right)]
        fits(concatenate(st, left, right).0) ==> well_typed(concatenate(st, left, right).0)
            && preserves(st.body, concatenate(st, left, right).0.body) && valued(
            concatenate(st, left, right).0.body,
            concatenate(st, left, right).1,
        ),
{
    reveal(concatenate);
    broadcast use lemma_emit_shape, lemma_call_external_shape;

    if fits(concatenate(st, left, right).0) {
        let (st1, left_length) = call_external(st, External::Strlen, seq![left]);
        lemma_call_external_typed(st, External::Strlen, seq![left]);
        let (st2, right_length) = call_external(st1, External::Strlen, seq![right]);
        lemma_call_external_typed(st1, External::Strlen, seq![right]);
        let sum = Instruction::IntBinary {
            operation: crate::codegen::ir::IntOperation::Add,
            left: left_length,
            right: right_length,
        };
        lemma_emit_typed(st2, sum);
        let (st3, both_lengths) = emit_operand(st2, sum);
        let more = Instruction::IntBinary {
            operation: crate::codegen::ir::IntOperation::Add,
            left: both_lengths,
            right: Operand::Integer(1),
        };
        lemma_emit_typed(st3, more);
        let (st4, size) = emit_operand(st3, more);
        lemma_call_external_typed(st4, External::Malloc, seq![size]);
        let (st5, room) = call_external(st4, External::Malloc, seq![size]);
        lemma_call_external_typed(st5, External::Strcpy, seq![room, left]);
        let (st6, _) = call_external(st5, External::Strcpy, seq![room, left]);
        lemma_call_external_typed(st6, External::Strcat, seq![room, right]);
    }
}

pub broadcast proof fn lemma_int_modulo_typed(st: State, left: Operand, right: Operand)
    requires
        well_typed(st),
        has_sort(st.body, left, Sort::Int64),
        has_sort(st.body, right, Sort::Int64),
    ensures
        #![trigger int_modulo(st, left, right)]
        fits(int_modulo(st, left, right).0) ==> well_typed(int_modulo(st, left, right).0) && preserves(
            st.body,
            int_modulo(st, left, right).0.body,
        ) && valued(int_modulo(st, left, right).0.body, int_modulo(st, left, right).1),
{
    reveal(int_modulo);
    broadcast use lemma_emit_typed, lemma_emit_shape, lemma_int_correction_typed, lemma_int_correction_shape;

}

pub broadcast proof fn lemma_int_floor_divide_typed(st: State, left: Operand, right: Operand)
    requires
        well_typed(st),
        has_sort(st.body, left, Sort::Int64),
        has_sort(st.body, right, Sort::Int64),
    ensures
        #![trigger int_floor_divide(st, left, right)]
        fits(int_floor_divide(st, left, right).0) ==> well_typed(int_floor_divide(st, left, right).0) && preserves(
            st.body,
            int_floor_divide(st, left, right).0.body,
        ) && valued(int_floor_divide(st, left, right).0.body, int_floor_divide(st, left, right).1),
{
    reveal(int_floor_divide);
    broadcast use lemma_emit_typed, lemma_emit_shape, lemma_int_correction_typed, lemma_int_correction_shape;

}

pub broadcast proof fn lemma_float_modulo_typed(st: State, left: Operand, right: Operand)
    requires
        well_typed(st),
        has_sort(st.body, left, Sort::Float64),
        has_sort(st.body, right, Sort::Float64),
    ensures
        #![trigger float_modulo(st, left, right)]
        fits(float_modulo(st, left, right).0) ==> well_typed(float_modulo(st, left, right).0) && preserves(
            st.body,
            float_modulo(st, left, right).0.body,
        ) && valued(float_modulo(st, left, right).0.body, float_modulo(st, left, right).1),
{
    reveal(float_modulo);
    broadcast use lemma_emit_typed, lemma_emit_shape;

}

pub broadcast proof fn lemma_float_floor_divide_typed(st: State, left: Operand, right: Operand)
    requires
        well_typed(st),
        has_sort(st.body, left, Sort::Float64),
        has_sort(st.body, right, Sort::Float64),
    ensures
        #![trigger float_floor_divide(st, left, right)]
        fits(float_floor_divide(st, left, right).0) ==> well_typed(float_floor_divide(st, left, right).0) && preserves(
            st.body,
            float_floor_divide(st, left, right).0.body,
        ) && valued(float_floor_divide(st, left, right).0.body, float_floor_divide(st, left, right).1),
{
    reveal(float_floor_divide);
    broadcast use lemma_emit_typed, lemma_emit_shape, lemma_call_external_typed, lemma_call_external_shape;

}

pub broadcast proof fn lemma_int_power_typed(st: State, left: Operand, right: Operand)
    requires
        well_typed(st),
        has_sort(st.body, left, Sort::Int64),
        has_sort(st.body, right, Sort::Int64),
    ensures
        #![trigger int_power(st, left, right)]
        fits(int_power(st, left, right).0) ==> well_typed(int_power(st, left, right).0) && preserves(
            st.body,
            int_power(st, left, right).0.body,
        ) && valued(int_power(st, left, right).0.body, int_power(st, left, right).1),
{
    reveal(int_power);
    broadcast use lemma_emit_typed, lemma_emit_shape;

}

pub broadcast proof fn lemma_float_power_typed(st: State, left: Operand, right: Operand)
    requires
        well_typed(st),
        has_sort(st.body, left, Sort::Float64),
        has_sort(st.body, right, Sort::Float64),
    ensures
        #![trigger float_power(st, left, right)]
        fits(float_power(st, left, right).0) ==> well_typed(float_power(st, left, right).0) && preserves(
            st.body,
            float_power(st, left, right).0.body,
        ) && valued(float_power(st, left, right).0.body, float_power(st, left, right).1),
{
    reveal(float_power);
    broadcast use lemma_emit_typed, lemma_emit_shape, lemma_call_external_typed, lemma_call_external_shape;

}

pub broadcast proof fn lemma_int_divide_typed(st: State, left: Operand, right: Operand)
    requires
        well_typed(st),
        has_sort(st.body, left, Sort::Int64),
        has_sort(st.body, right, Sort::Int64),
    ensures
        #![trigger int_divide(st, left, right)]
        fits(int_divide(st, left, right).0) ==> well_typed(int_divide(st, left, right).0) && preserves(
            st.body,
            int_divide(st, left, right).0.body,
        ) && valued(int_divide(st, left, right).0.body, int_divide(st, left, right).1),
{
    reveal(int_divide);
    broadcast use lemma_emit_typed, lemma_emit_shape;

}

pub broadcast proof fn lemma_lower_binary_typed(st: State, operator: BinaryOperator, left: Value, right: Value)
    requires
        well_typed(st),
        valued(st.body, left),
        valued(st.body, right),
    ensures
        #![trigger lower_binary(st, operator, left, right)]
        fits(lower_binary(st, operator, left, right).0) ==> well_typed(lower_binary(st, operator, left, right).0) && preserves(
            st.body,
            lower_binary(st, operator, left, right).0.body,
        ) && (lower_binary(st, operator, left, right).1 matches Ok(value) ==> valued(
            lower_binary(st, operator, left, right).0.body,
            value,
        )),
{
    reveal(lower_binary);
    broadcast use lemma_emit_typed, lemma_emit_shape, lemma_concatenate_typed, lemma_int_modulo_typed, lemma_int_floor_divide_typed, lemma_float_modulo_typed, lemma_float_floor_divide_typed, lemma_int_power_typed, lemma_float_power_typed, lemma_int_divide_typed;

}

pub broadcast proof fn lemma_lower_unary_typed(st: State, operator: UnaryOperator, operand: Value)
    requires
        well_typed(st),
        valued(st.body, operand),
    ensures
        #![trigger lower_unary(st, operator, operand)]
        fits(lower_unary(st, operator, operand).0) ==> well_typed(lower_unary(st, operator, operand).0) && preserves(
            st.body,
            lower_unary(st, operator, operand).0.body,
        ) && (lower_unary(st, operator, operand).1 matches Ok(value) ==> valued(
            lower_unary(st, operator, operand).0.body,
            value,
        )),
{
    reveal(lower_unary);
    broadcast use lemma_emit_typed, lemma_emit_shape;

}

pub broadcast proof fn lemma_print_text_typed(st: State, format: Seq<char>, value: Option<Operand>)
    requires
        well_typed(st),
        value matches Some(operand) ==> basic(st.body, operand),
    ensures
        #![trigger print_text(st, format, value)]
        fits(print_text(st, format, value)) ==> well_typed(print_text(st, format, value))
            && preserves(st.body, print_text(st, format, value).body),
{
    reveal(print_text);
    let (st1, text) = add_text(st, format);
    let values = match value {
        Some(operand) => seq![text, operand],
        None => seq![text],
    };
    assert(all_basic(st1.body, values));
    lemma_call_external_typed(st1, External::Printf, values);
}

pub broadcast proof fn lemma_shown_typed(st: State, value: Value)
    requires
        well_typed(st),
        valued(st.body, value),
    ensures
        #![trigger shown(st, value)]
        fits(shown(st, value).0) ==> well_typed(shown(st, value).0) && preserves(
            st.body,
            shown(st, value).0.body,
        ) && valued(shown(st, value).0.body, shown(st, value).1),
{
    reveal(shown);
    broadcast use lemma_emit_typed, lemma_emit_shape;

}

pub broadcast proof fn lemma_print_float_typed(st: State, value: Operand, end: Seq<char>)
    requires
        well_typed(st),
        has_sort(st.body, value, Sort::Float64),
    ensures
        #![trigger print_float(st, value, end)]
        fits(print_float(st, value, end)) ==> well_typed(print_float(st, value, end)) && preserves(
            st.body,
            print_float(st, value, end).body,
        ),
{
    reveal(print_float);
    broadcast use lemma_emit_typed, lemma_emit_shape, lemma_print_text_typed, lemma_print_text_shape;

}

pub broadcast proof fn lemma_print_value_typed(st: State, value: Value, end: Seq<char>)
    requires
        well_typed(st),
        valued(st.body, value),
    ensures
        #![trigger print_value(st, value, end)]
        fits(print_value(st, value, end)) ==> well_typed(print_value(st, value, end)) && preserves(
            st.body,
            print_value(st, value, end).body,
        ),
{
    reveal(print_value);
    broadcast use lemma_print_text_shape, lemma_print_float_shape, lemma_shown_shape;

    let (st1, written) = shown(st, value);
    if fits(print_value(st, value, end)) {
        lemma_shown_typed(st, value);
        match written.kind {
            ValueKind::Int => lemma_print_text_typed(st1, "%ld"@ + end, Some(written.operand)),
            ValueKind::Float => lemma_print_float_typed(st1, written.operand, end),
            _ => lemma_print_text_typed(st1, "%s"@ + end, Some(written.operand)),
        }
    }

}

pub proof fn lemma_print_values_typed(st: State, values: Seq<Value>, from: nat)
    requires
        well_typed(st),
        all_valued(st.body, values),
    ensures
        fits(print_values(st, values, from)) ==> well_typed(print_values(st, values, from))
            && preserves(st.body, print_values(st, values, from).body),
    decreases values.len() - from,
{
    broadcast use lemma_print_value_shape, lemma_print_values_shape;

    if from < values.len() && fits(print_values(st, values, from)) {
        let end = if from + 1 == values.len() {
            "\n"@
        } else {
            " "@
        };
        lemma_print_value_typed(st, values[from as int], end);
        let st1 = print_value(st, values[from as int], end);
        lemma_print_values_shape(st1, values, from + 1);
        assert(all_valued(st1.body, values)) by {
            assert forall|k: int| 0 <= k < values.len() implies valued(
                st1.body,
                #[trigger] values[k],
            ) by {
                assert(valued(st.body, values[k]));
            }
        }
        lemma_print_values_typed(st1, values, from + 1);
    }
}

pub proof fn lemma_print_call_typed(st: State, values: Seq<Value>)
    requires
        well_typed(st),
        all_valued(st.body, values),
    ensures
        fits(print_call(st, values).0) ==> well_typed(print_call(st, values).0) && preserves(
            st.body,
            print_call(st, values).0.body,
        ) && valued(print_call(st, values).0.body, print_call(st, values).1),
{
    reveal(print_call);
    broadcast use lemma_print_text_typed;

    lemma_print_values_typed(st, values, 0);
}

pub proof fn lemma_function_call_typed(st: State, function: nat, values: Seq<Value>)
    requires
        well_typed(st),
        all_valued(st.body, values),
    ensures
        fits(function_call(st, function, values).0) ==> well_typed(
            function_call(st, function, values).0,
        ) && preserves(st.body, function_call(st, function, values).0.body) && (function_call(
            st,
            function,
            values,
        ).1 matches Ok(value) ==> valued(function_call(st, function, values).0.body, value)),
{
    reveal(function_call);
    broadcast use lemma_emit_shape, lemma_emit_arguments_shape;

    let handed = operands(values);
    assert(all_basic(st.body, handed)) by {
        assert forall|k: int| 0 <= k < handed.len() implies basic(st.body, #[trigger] handed[k]) by {
            assert(handed[k] == values[k].operand);
            assert(valued(st.body, values[k]));
        }
    }
    let call = Instruction::Call {
        callee: Callee::Function(function as usize),
        arguments: values.len() as usize,
    };
    if fits(emit(emit_arguments(st, handed), call)) {
        lemma_emit_arguments_typed(st, handed);
        lemma_emit_typed(emit_arguments(st, handed), call);
    }
}

/// Expressions only add to the body.
pub proof fn lemma_lower_expression_shape(st: State, node: NodeView, embedded: bool)
    ensures
        lower_expression(st, node, embedded).0.body.len() >= st.body.len(),
        lower_expression(st, node, embedded).0.entry == st.entry,
        lower_expression(st, node, embedded).0.variables == st.variables,
        lower_expression(st, node, embedded).0.bodies == st.bodies,
        lower_expression(st, node, embedded).0.signatures == st.signatures,
        lower_expression(st, node, embedded).0.function == st.function,
    decreases
            if embedded {
                0nat
            } else {
                3nat
            },
            node,
{
    broadcast use lemma_emit_shape, lemma_lower_unary_shape, lemma_lower_binary_shape;

    match node {
        NodeView::Literal { value } => match value {
            LiteralView::FString(parts) => if !embedded {
                reveal_with_fuel(lower_template, 1);
                lemma_lower_template_shape(st, parts);
            },
            _ => {},
        },
        NodeView::Unary { operator, operand } => {
            lemma_lower_expression_shape(st, *operand, embedded);
        },
        NodeView::Binary { left, operator, right } => {
            lemma_lower_expression_shape(st, *left, embedded);
            let (st1, first) = lower_expression(st, *left, embedded);
            if first is Ok {
                lemma_lower_expression_shape(st1, *right, embedded);
            }
        },
        NodeView::Call { callee, arguments } => {
            lemma_lower_arguments_shape(st, arguments, 0, Seq::empty(), embedded);
            let (st1, lowered) = lower_arguments(st, arguments, 0, Seq::empty(), embedded);
            if let Ok(values) = lowered {
                lemma_print_call_shape(st1, values);
                if let Some(index) = find_function(st.signatures, callee, 0) {
                    lemma_function_call_shape(st1, index, values);
                }
            }
        },
        _ => {},
    }
}

pub proof fn lemma_lower_arguments_shape(
    st: State,
    arguments: Seq<NodeView>,
    from: nat,
    values: Seq<Value>,
    embedded: bool,
)
    ensures
        lower_arguments(st, arguments, from, values, embedded).0.body.len() >= st.body.len(),
        lower_arguments(st, arguments, from, values, embedded).0.entry == st.entry,
        lower_arguments(st, arguments, from, values, embedded).0.variables == st.variables,
        lower_arguments(st, arguments, from, values, embedded).0.bodies == st.bodies,
        lower_arguments(st, arguments, from, values, embedded).0.signatures == st.signatures,
        lower_arguments(st, arguments, from, values, embedded).0.function == st.function,
    decreases
            if embedded {
                0nat
            } else {
                3nat
            },
            arguments,
            arguments.len() - from,
{
    if from < arguments.len() {
        lemma_lower_expression_shape(st, arguments[from as int], embedded);
        let (st1, lowered) = lower_expression(st, arguments[from as int], embedded);
        if let Ok(value) = lowered {
            lemma_lower_arguments_shape(st1, arguments, from + 1, values.push(value), embedded);
        }
    }
}

pub proof fn lemma_lower_segments_shape(
    st: State,
    parts: Seq<FStringPartView>,
    format: Seq<char>,
    values: Seq<Operand>,
)
    ensures
        lower_segments(st, parts, format, values).0.body.len() >= st.body.len(),
        lower_segments(st, parts, format, values).0.entry == st.entry,
        lower_segments(st, parts, format, values).0.variables == st.variables,
        lower_segments(st, parts, format, values).0.bodies == st.bodies,
        lower_segments(st, parts, format, values).0.signatures == st.signatures,
        lower_segments(st, parts, format, values).0.function == st.function,
    decreases 1nat, parts,
{
    if parts.len() > 0 {
        let later = parts.subrange(1, parts.len() as int);
        match parts[0] {
            FStringPartView::Literal(text) => {
                lemma_lower_segments_shape(st, later, format + escape_percent(text), values);
            },
            FStringPartView::Expression(text) => match embedded_expression(text) {
                None => {
                    let (st1, operand) = add_text(st, text);
                    lemma_lower_segments_shape(st1, later, format + "%s"@, values.push(operand));
                },
                Some(node) => {
                    lemma_lower_expression_shape(st, node, true);
                    let (st1, lowered) = lower_expression(st, node, true);
                    if let Ok(value) = lowered {
                        lemma_shown_shape(st1, value);
                        let (st1, value) = shown(st1, value);
                        lemma_lower_segments_shape(
                            st1,
                            later,
                            format + format_specifier(value.kind),
                            values.push(value.operand),
                        );
                    }
                },
            },
        }
    }
}

pub proof fn lemma_lower_template_shape(st: State, parts: Seq<FStringPartView>)
    ensures
        lower_template(st, parts).0.body.len() >= st.body.len(),
        lower_template(st, parts).0.entry == st.entry,
        lower_template(st, parts).0.variables == st.variables,
        lower_template(st, parts).0.bodies == st.bodies,
        lower_template(st, parts).0.signatures == st.signatures,
        lower_template(st, parts).0.function == st.function,
    decreases 2nat, parts,
{
    reveal_with_fuel(lower_template, 1);
    broadcast use lemma_emit_shape, lemma_call_external_shape;

    lemma_lower_segments_shape(st, parts, Seq::empty(), Seq::empty());
}

/// Expressions keep the type invariant, and the value of one is held as its
/// kind says.
pub proof fn lemma_lower_expression_typed(st: State, node: NodeView, embedded: bool)
    requires
        well_typed(st),
    ensures
        fits(lower_expression(st, node, embedded).0) ==> well_typed(
            lower_expression(st, node, embedded).0,
        ) && preserves(st.body, lower_expression(st, node, embedded).0.body) && (lower_expression(
            st,
            node,
            embedded,
        ).1 matches Ok(value) ==> valued(lower_expression(st, node, embedded).0.body, value)),
    decreases
            if embedded {
                0nat
            } else {
                3nat
            },
            node,
{
    broadcast use
        lemma_emit_typed,
        lemma_emit_shape,
        lemma_lower_unary_typed,
        lemma_lower_unary_shape,
        lemma_lower_binary_typed,
        lemma_lower_binary_shape,
    ;

    if fits(lower_expression(st, node, embedded).0) {
        match node {
            NodeView::Literal { value } => match value {
                LiteralView::FString(parts) => if !embedded {
                    reveal_with_fuel(lower_template, 1);
                    lemma_lower_template_typed(st, parts);
                },
                _ => {},
            },
            NodeView::Identifier { name } => {
                lemma_lookup_is_bound(st.variables, name);
            },
            NodeView::Unary { operator, operand } => {
                lemma_lower_expression_shape(st, *operand, embedded);
                lemma_lower_expression_typed(st, *operand, embedded);
            },
            NodeView::Binary { left, operator, right } => {
                let (st1, first) = lower_expression(st, *left, embedded);
                lemma_lower_expression_shape(st, *left, embedded);
                if first is Ok {
                    lemma_lower_expression_shape(st1, *right, embedded);
                }
                lemma_lower_expression_typed(st, *left, embedded);
                if first is Ok {
                    lemma_lower_expression_typed(st1, *right, embedded);
                }
            },
            NodeView::Call { callee, arguments } => {
                let (st1, lowered) = lower_arguments(st, arguments, 0, Seq::empty(), embedded);
                lemma_lower_arguments_shape(st, arguments, 0, Seq::empty(), embedded);
                if let Ok(values) = lowered {
                    lemma_print_call_shape(st1, values);
                    if let Some(index) = find_function(st.signatures, callee, 0) {
                        lemma_function_call_shape(st1, index, values);
                    }
                }
                assert(all_valued(st.body, Seq::<Value>::empty()));
                if find_function(st.signatures, callee, 0) is Some || callee == "print"@ {
                    lemma_lower_arguments_typed(st, arguments, 0, Seq::empty(), embedded);
                    if let Ok(values) = lowered {
                        if let Some(index) = find_function(st.signatures, callee, 0) {
                            lemma_function_call_typed(st1, index, values);
                        } else {
                            lemma_print_call_typed(st1, values);
                        }
                    }
                }
            },
            _ => {},
        }
    }
}

pub proof fn lemma_lower_arguments_typed(
    st: State,
    arguments: Seq<NodeView>,
    from: nat,
    values: Seq<Value>,
    embedded: bool,
)
    requires
        well_typed(st),
        all_valued(st.body, values),
    ensures
        fits(lower_arguments(st, arguments, from, values, embedded).0) ==> well_typed(
            lower_arguments(st, arguments, from, values, embedded).0,
        ) && preserves(st.body, lower_arguments(st, arguments, from, values, embedded).0.body)
            && (lower_arguments(st, arguments, from, values, embedded).1 matches Ok(all)
            ==> all_valued(lower_arguments(st, arguments, from, values, embedded).0.body, all)),
    decreases
            if embedded {
                0nat
            } else {
                3nat
            },
            arguments,
            arguments.len() - from,
{
    if from < arguments.len() && fits(lower_arguments(st, arguments, from, values, embedded).0) {
        let (st1, lowered) = lower_expression(st, arguments[from as int], embedded);
        lemma_lower_expression_shape(st, arguments[from as int], embedded);
        if let Ok(value) = lowered {
            let more = values.push(value);
            lemma_lower_arguments_shape(st1, arguments, from + 1, more, embedded);
            lemma_lower_expression_typed(st, arguments[from as int], embedded);
            assert(all_valued(st1.body, more)) by {
                assert forall|k: int| 0 <= k < more.len() implies valued(
                    st1.body,
                    #[trigger] more[k],
                ) by {
                    if k < values.len() {
                        assert(valued(st.body, values[k]));
                    }
                }
            }
            lemma_lower_arguments_typed(st1, arguments, from + 1, more, embedded);
        } else {
            lemma_lower_expression_typed(st, arguments[from as int], embedded);
        }
    }
}

pub proof fn lemma_lower_segments_typed(
    st: State,
    parts: Seq<FStringPartView>,
    format: Seq<char>,
    values: Seq<Operand>,
)
    requires
        well_typed(st),
        all_basic(st.body, values),
    ensures
        fits(lower_segments(st, parts, format, values).0) ==> well_typed(
            lower_segments(st, parts, format, values).0,
        ) && preserves(st.body, lower_segments(st, parts, format, values).0.body)
            && (lower_segments(st, parts, format, values).1 matches Ok(found) ==> all_basic(
            lower_segments(st, parts, format, values).0.body,
            found.1,
        )),
    decreases 1nat, parts,
{
    if parts.len() > 0 && fits(lower_segments(st, parts, format, values).0) {
        let later = parts.subrange(1, parts.len() as int);
        match parts[0] {
            FStringPartView::Literal(text) => {
                lemma_lower_segments_typed(st, later, format + escape_percent(text), values);
            },
            FStringPartView::Expression(text) => match embedded_expression(text) {
                None => {
                    let (st1, operand) = add_text(st, text);
                    let more = values.push(operand);
                    assert(all_basic(st1.body, more)) by {
                        assert forall|k: int| 0 <= k < more.len() implies basic(
                            st1.body,
                            #[trigger] more[k],
                        ) by {
                            if k < values.len() {
                                assert(basic(st.body, values[k]));
                            }
                        }
                    }
                    lemma_lower_segments_typed(st1, later, format + "%s"@, more);
                },
                Some(node) => {
                    let (st0, lowered) = lower_expression(st, node, true);
                    lemma_lower_expression_shape(st, node, true);
                    if let Ok(found) = lowered {
                        lemma_shown_shape(st0, found);
                        let (st1, value) = shown(st0, found);
                        let more = values.push(value.operand);
                        lemma_lower_segments_shape(
                            st1,
                            later,
                            format + format_specifier(value.kind),
                            more,
                        );
                        lemma_lower_expression_typed(st, node, true);
                        lemma_shown_typed(st0, found);
                        assert(all_basic(st1.body, more)) by {
                            assert forall|k: int| 0 <= k < more.len() implies basic(
                                st1.body,
                                #[trigger] more[k],
                            ) by {
                                if k < values.len() {
                                    assert(basic(st.body, values[k]));
                                }
                            }
                        }
                        lemma_lower_segments_typed(
                            st1,
                            later,
                            format + format_specifier(value.kind),
                            more,
                        );
                    } else {
                        lemma_lower_expression_typed(st, node, true);
                    }
                },
            },
        }
    }
}

pub proof fn lemma_lower_template_typed(st: State, parts: Seq<FStringPartView>)
    requires
        well_typed(st),
    ensures
        fits(lower_template(st, parts).0) ==> well_typed(lower_template(st, parts).0) && preserves(
            st.body,
            lower_template(st, parts).0.body,
        ) && (lower_template(st, parts).1 matches Ok(value) ==> valued(
            lower_template(st, parts).0.body,
            value,
        )),
    decreases 2nat, parts,
{
    reveal_with_fuel(lower_template, 1);
    broadcast use lemma_emit_shape, lemma_call_external_shape;

    if fits(lower_template(st, parts).0) {
        assert(all_basic(st.body, Seq::<Operand>::empty()));
        lemma_lower_segments_shape(st, parts, Seq::empty(), Seq::empty());
        let (st1, segments) = lower_segments(st, parts, Seq::empty(), Seq::empty());
        if parts.len() > 0 && crate::codegen::rules::buffer_size(parts, 0) <= i32::MAX {
            if let Ok((format, values)) = segments {
                let size = crate::codegen::rules::buffer_size(parts, 0);
                let make = Instruction::Buffer { size: size as u32 };
                let (st2, buffer) = emit_value(st1, make, ValueKind::Pointer);
                let fill = seq![buffer.operand, Operand::Int32(0), Operand::Integer(size as i64)];
                let (st3, _) = call_external(st2, External::Memset, fill);
                let (st4, text) = add_text(st3, format);
                let handed = seq![buffer.operand, Operand::Integer((size - 1) as i64), text]
                    + values;
                lemma_lower_segments_typed(st, parts, Seq::empty(), Seq::empty());
                lemma_emit_typed(st1, make);
                lemma_call_external_typed(st2, External::Memset, fill);
                assert(all_basic(st4.body, handed)) by {
                    assert forall|k: int| 0 <= k < handed.len() implies basic(
                        st4.body,
                        #[trigger] handed[k],
                    ) by {
                        if k >= 3 {
                            assert(handed[k] == values[k - 3]);
                            assert(basic(st1.body, values[k - 3]));
                        }
                    }
                }
                lemma_call_external_typed(st4, External::Snprintf, handed);
            } else {
                lemma_lower_segments_typed(st, parts, Seq::empty(), Seq::empty());
            }
        }
    }
}

/// Whether the function with index `function` is an entry function.
pub open spec fn entry_of(st: State, function: nat) -> bool {
    function < st.signatures.len() && st.signatures[function as int].entry
}

/// The finished bodies are typed.
pub open spec fn bodies_typed(st: State) -> bool {
    forall|b: int|
        0 <= b < st.bodies.len() ==> body_typed(
            entry_of(st, (#[trigger] st.bodies[b]).function),
            st.bodies[b].instructions,
        )
}

/// The type invariant between two statements.
pub open spec fn unit_typed(st: State) -> bool {
    &&& well_typed(st)
    &&& bodies_typed(st)
    &&& st.entry == entry_of(st, st.function)
}

/// Every body fits the indices of the machine.
pub open spec fn unit_fits(st: State) -> bool {
    &&& fits(st)
    &&& forall|b: int| 0 <= b < st.bodies.len() ==> (#[trigger] st.bodies[b]).instructions.len() <= usize::MAX
}

/// The finished bodies of the earlier state are the first of the later one.
pub open spec fn bodies_kept(st: State, after: State) -> bool {
    &&& st.bodies.len() <= after.bodies.len()
    &&& forall|b: int| 0 <= b < st.bodies.len() ==> #[trigger] after.bodies[b] == st.bodies[b]
}

pub proof fn lemma_bind_typed(st: State, name: Seq<char>, value: Operand, kind: ValueKind)
    requires
        well_typed(st),
        has_sort(st.body, value, sort_of_kind(kind)),
    ensures
        bind(st, name, value, kind).body.len() == st.body.len() + 2,
        bind(st, name, value, kind).entry == st.entry,
        fits(bind(st, name, value, kind)) ==> well_typed(bind(st, name, value, kind)),
{
    reveal(bind);
    broadcast use lemma_emit_shape;

    let after = bind(st, name, value, kind);
    if fits(after) {
        let make = Instruction::Alloca { kind };
        lemma_emit_typed(st, make);
        let (st1, slot) = emit_operand(st, make);
        let store = Instruction::Store { slot, value };
        assert(fits_slot(st1.body, slot, value, kind));
        lemma_emit_typed(st1, store);
        let st2 = emit(st1, store);
        assert forall|v: int| 0 <= v < after.variables.len() implies has_sort(
            after.body,
            Operand::Result((#[trigger] after.variables[v]).slot as usize),
            Sort::Slot(after.variables[v].kind),
        ) by {
            if v < st.variables.len() {
                assert(after.variables[v] == st.variables[v]);
                assert(has_sort(
                    st.body,
                    Operand::Result(st.variables[v].slot as usize),
                    Sort::Slot(st.variables[v].kind),
                ));
            }
        }
        assert forall|j: int| 0 <= j < after.body.len() implies typed(
            after.entry,
            after.body,
            #[trigger] after.body[j],
        ) by {
            assert(typed(st2.entry, st2.body, st2.body[j]));
        }
    }
}

pub proof fn lemma_bind_parameters_typed(st: State, parameters: Seq<Seq<char>>, from: nat)
    requires
        well_typed(st),
    ensures
        bind_parameters(st, parameters, from).body.len() >= st.body.len(),
        bind_parameters(st, parameters, from).entry == st.entry,
        fits(bind_parameters(st, parameters, from)) ==> well_typed(
            bind_parameters(st, parameters, from),
        ),
    decreases parameters.len() - from,
{
    if from < parameters.len() {
        let value = Operand::Parameter(from as usize);
        let st1 = bind(st, parameters[from as int], value, ValueKind::Int);
        lemma_bind_typed(st, parameters[from as int], value, ValueKind::Int);
        lemma_bind_parameters_shape(st1, parameters, from + 1);
        if fits(bind_parameters(st, parameters, from)) {
            lemma_bind_parameters_typed(st1, parameters, from + 1);
        }
    }
}

pub proof fn lemma_bind_parameters_shape(st: State, parameters: Seq<Seq<char>>, from: nat)
    ensures
        bind_parameters(st, parameters, from).body.len() >= st.body.len(),
        bind_parameters(st, parameters, from).entry == st.entry,
        bind_parameters(st, parameters, from).bodies == st.bodies,
        bind_parameters(st, parameters, from).signatures == st.signatures,
        bind_parameters(st, parameters, from).function == st.function,
    decreases parameters.len() - from,
{
    reveal(bind);
    if from < parameters.len() {
        lemma_bind_parameters_shape(
            bind(
                st,
                parameters[from as int],
                Operand::Parameter(from as usize),
                ValueKind::Int,
            ),
            parameters,
            from + 1,
        );
    }
}

pub proof fn lemma_lower_return_typed(st: State, value: Option<Box<NodeView>>)
    requires
        well_typed(st),
    ensures
        lower_return(st, value).0.body.len() >= st.body.len(),
        lower_return(st, value).0.entry == st.entry,
        lower_return(st, value).1 is Ok && fits(lower_return(st, value).0) ==> well_typed(
            lower_return(st, value).0,
        ),
{
    reveal(lower_return);
    broadcast use lemma_emit_typed, lemma_emit_shape;

    if let Some(node) = value {
        lemma_lower_expression_shape(st, *node, false);
        if fits(lower_return(st, value).0) {
            lemma_lower_expression_typed(st, *node, false);
        }
    }
}

/// A statement that is lowered only adds to the unit.
pub proof fn lemma_lower_statement_shape(st: State, node: NodeView)
    ensures
        lower_statement(st, node).1 is Ok ==> lower_statement(st, node).0.body.len()
            >= st.body.len() && lower_statement(st, node).0.entry == st.entry && bodies_kept(
            st,
            lower_statement(st, node).0,
        ),
    decreases node,
{
    reveal(bind);
    reveal(lower_return);
    broadcast use lemma_emit_shape;

    let st0 = open_block(st);
    match node {
        NodeView::Assignment { name, value } => {
            lemma_expression_keeps_bodies(st0, *value);
        },
        NodeView::ExpressionStatement { expression } => {
            lemma_expression_keeps_bodies(st0, *expression);
        },
        NodeView::Function { name, parameters, body } => {
            let inner = State {
                signatures: st0.signatures.push(
                    SignatureView { name, parameters: parameters.len(), entry: false },
                ),
                body: seq![Instruction::Label { label: BlockLabel::Entry }],
                function: st0.signatures.len(),
                entry: false,
                variables: Seq::empty(),
                ..st0
            };
            lemma_bind_parameters_shape(inner, parameters, 0);
            lemma_lower_statement_shape(bind_parameters(inner, parameters, 0), *body);
        },
        NodeView::Return { value } => {
            if let Some(found) = value {
                lemma_expression_keeps_bodies(st0, *found);
            }
        },
        _ => {},
    }
}

/// Expressions leave the finished bodies alone.
pub proof fn lemma_expression_keeps_bodies(st: State, node: NodeView)
    ensures
        lower_expression(st, node, false).0.bodies == st.bodies,
        lower_expression(st, node, false).0.body.len() >= st.body.len(),
        lower_expression(st, node, false).0.entry == st.entry,
{
    lemma_lower_expression_shape(st, node, false);
}

/// The end of a function keeps the type invariant: its body is typed.
pub proof fn lemma_finish_body_typed(st: State)
    requires
        unit_typed(st),
        fits(close_body(st)),
    ensures
        bodies_typed(finish_body(st)),
        bodies_kept(st, finish_body(st)),
        finish_body(st).bodies.len() == st.bodies.len() + 1,
        finish_body(st).bodies.last().instructions == close_body(st).body,
        finish_body(st).signatures == st.signatures,
{
    broadcast use lemma_emit_typed, lemma_emit_shape;

    let closed = close_body(st);
    assert(well_typed(closed));
    let after = finish_body(st);
    assert forall|b: int| 0 <= b < after.bodies.len() implies body_typed(
        entry_of(after, (#[trigger] after.bodies[b]).function),
        after.bodies[b].instructions,
    ) by {
        if b < st.bodies.len() {
            assert(after.bodies[b] == st.bodies[b]);
        }
    }
}

/// Statements keep the type invariant.
pub proof fn lemma_lower_statement_typed(st: State, node: NodeView)
    requires
        unit_typed(st),
        unit_scoped(st),
    ensures
        lower_statement(st, node).1 is Ok && unit_fits(lower_statement(st, node).0) ==> unit_typed(
            lower_statement(st, node).0,
        ),
    decreases node,
{
    broadcast use lemma_emit_typed, lemma_emit_shape;

    let (after, result) = lower_statement(st, node);
    lemma_lower_statement_shape(st, node);
    lemma_lower_statement_in_scope(st, node);
    if result is Ok && unit_fits(after) {
        let st0 = open_block(st);
        assert(unit_scoped(st0)) by {
            crate::codegen::scope::lemma_open_block_in_scope(st);
        }
        match node {
            NodeView::Assignment { name, value } => {
                let (st1, lowered) = lower_expression(st0, *value, false);
                lemma_lower_expression_shape(st0, *value, false);
                let found = lowered->Ok_0;
                lemma_bind_shape(st1, name, found.operand, found.kind);
                lemma_lower_expression_typed(st0, *value, false);
                lemma_bind_typed(st1, name, found.operand, found.kind);
                assert(bodies_typed(after));
            },
            NodeView::ExpressionStatement { expression } => {
                lemma_lower_expression_shape(st0, *expression, false);
                lemma_lower_expression_typed(st0, *expression, false);
                assert(bodies_typed(after));
            },
            NodeView::Function { name, parameters, body } => {
                let index = st0.signatures.len();
                let inner = State {
                    signatures: st0.signatures.push(
                        SignatureView { name, parameters: parameters.len(), entry: false },
                    ),
                    body: seq![Instruction::Label { label: BlockLabel::Entry }],
                    function: index,
                    entry: false,
                    variables: Seq::empty(),
                    ..st0
                };
                assert(unit_grows(st0, inner));
                crate::codegen::scope::lemma_bodies_grow_with_unit(st0, inner);
                assert(unit_scoped(inner));
                assert(bodies_typed(inner)) by {
                    assert forall|b: int| 0 <= b < inner.bodies.len() implies body_typed(
                        entry_of(inner, (#[trigger] inner.bodies[b]).function),
                        inner.bodies[b].instructions,
                    ) by {
                        assert(inner.bodies[b] == st0.bodies[b]);
                        assert(inner.signatures[st0.bodies[b].function as int]
                            == st0.signatures[st0.bodies[b].function as int]);
                    }
                }
                assert(unit_typed(inner));
                let bound = bind_parameters(inner, parameters, 0);
                lemma_bind_parameters_shape(inner, parameters, 0);
                lemma_bind_parameters_in_scope(inner, parameters, 0);
                let (lowered, inner_result) = lower_statement(bound, *body);
                lemma_lower_statement_shape(bound, *body);
                lemma_lower_statement_in_scope(bound, *body);
                let finished = finish_body(lowered);
                assert(after.bodies == finished.bodies);
                // the body of the function fits, and so does every state on the way to it
                assert(finished.bodies.last().instructions == close_body(lowered).body);
                assert(after.bodies[after.bodies.len() - 1].instructions.len() <= usize::MAX);
                assert(fits(close_body(lowered)));
                assert(unit_fits(lowered)) by {
                    assert forall|b: int| 0 <= b < lowered.bodies.len() implies (
                    #[trigger] lowered.bodies[b]).instructions.len() <= usize::MAX by {
                        assert(after.bodies[b] == lowered.bodies[b]);
                    }
                }
                lemma_bind_parameters_typed(inner, parameters, 0);
                assert(bodies_typed(bound));
                assert(unit_typed(bound));
                lemma_lower_statement_typed(bound, *body);
                lemma_finish_body_typed(lowered);
                assert(bodies_typed(after)) by {
                    assert forall|b: int| 0 <= b < after.bodies.len() implies body_typed(
                        entry_of(after, (#[trigger] after.bodies[b]).function),
                        after.bodies[b].instructions,
                    ) by {
                        assert(after.bodies[b] == finished.bodies[b]);
                    }
                }
                assert(well_typed(after));
                assert(after.signatures[st0.function as int] == st0.signatures[st0.function as int]);
            },
            NodeView::Return { value } => {
                lemma_lower_return_shape(st0, value);
                lemma_lower_return_typed(st0, value);
                assert(bodies_typed(after));
            },
            _ => {},
        }
    }
}

pub proof fn lemma_bind_shape(st: State, name: Seq<char>, value: Operand, kind: ValueKind)
    ensures
        bind(st, name, value, kind).body.len() == st.body.len() + 2,
        bind(st, name, value, kind).entry == st.entry,
        bind(st, name, value, kind).bodies == st.bodies,
        bind(st, name, value, kind).signatures == st.signatures,
        bind(st, name, value, kind).function == st.function,
{
    reveal(bind);
}

pub proof fn lemma_lower_return_shape(st: State, value: Option<Box<NodeView>>)
    ensures
        lower_return(st, value).0.bodies == st.bodies,
        lower_return(st, value).0.signatures == st.signatures,
        lower_return(st, value).0.function == st.function,
        lower_return(st, value).0.body.len() >= st.body.len(),
        lower_return(st, value).0.entry == st.entry,
{
    reveal(lower_return);
    broadcast use lemma_emit_shape;

    if let Some(node) = value {
        lemma_lower_expression_shape(st, *node, false);
    }
}

pub proof fn lemma_lower_statements_typed(st: State, statements: Seq<NodeView>, from: nat)
    requires
        unit_typed(st),
        unit_scoped(st),
    ensures
        lower_statements(st, statements, from).1 is Ok ==> lower_statements(
            st,
            statements,
            from,
        ).0.body.len() >= st.body.len() && bodies_kept(st, lower_statements(st, statements, from).0),
        lower_statements(st, statements, from).1 is Ok && unit_fits(
            lower_statements(st, statements, from).0,
        ) ==> unit_typed(lower_statements(st, statements, from).0),
    decreases statements.len() - from,
{
    if from < statements.len() {
        let (st1, lowered) = lower_statement(st, statements[from as int]);
        lemma_lower_statement_shape(st, statements[from as int]);
        lemma_lower_statement_in_scope(st, statements[from as int]);
        if lowered is Ok {
            let (last, result) = lower_statements(st1, statements, from + 1);
            if result is Ok && unit_fits(last) {
                // what fits at the end fits at every state before
                lemma_statements_shape(st1, statements, from + 1);
                assert(unit_fits(st1)) by {
                    assert forall|b: int| 0 <= b < st1.bodies.len() implies (
                    #[trigger] st1.bodies[b]).instructions.len() <= usize::MAX by {
                        assert(last.bodies[b] == st1.bodies[b]);
                    }
                }
                lemma_lower_statement_typed(st, statements[from as int]);
                lemma_lower_statements_typed(st1, statements, from + 1);
            } else if result is Ok {
                lemma_statements_shape(st1, statements, from + 1);
            }
        }
    }
}

/// Statements that are lowered only add to the unit.
pub proof fn lemma_statements_shape(st: State, statements: Seq<NodeView>, from: nat)
    ensures
        lower_statements(st, statements, from).1 is Ok ==> lower_statements(
            st,
            statements,
            from,
        ).0.body.len() >= st.body.len() && bodies_kept(st, lower_statements(st, statements, from).0),
    decreases statements.len() - from,
{
    if from < statements.len() {
        let (st1, lowered) = lower_statement(st, statements[from as int]);
        lemma_lower_statement_shape(st, statements[from as int]);
        if lowered is Ok {
            lemma_statements_shape(st1, statements, from + 1);
        }
    }
}

/// A unit whose bodies are typed.
pub open spec fn typed_unit(unit: State) -> bool {
    forall|b: int|
        0 <= b < unit.bodies.len() ==> body_typed(
            entry_of(unit, (#[trigger] unit.bodies[b]).function),
            unit.bodies[b].instructions,
        )
}

/// Every instruction reads operands of the sorts that it takes. In every
/// function body of every unit that lowering gives, as long as the bodies
/// fit the indices of the machine, integer instructions read 64-bit
/// integers, float instructions read floats, loads and stores go through
/// slots of the kind that they move, branches and selections read bits, and
/// a function returns what its signature says.
pub proof fn lemma_unit_is_typed(program: NodeView)
    ensures
        lower_program(program) matches Ok(unit) ==> (unit_fits(unit) ==> typed_unit(unit)),
{
    match program {
        NodeView::Program { statements } => {
            let start = entry_state();
            assert(unit_typed(start));
            assert(unit_scoped(start));
            let (st, lowered) = lower_statements(start, statements, 0);
            if lowered is Ok && unit_fits(finish_body(st)) {
                lemma_statements_shape(start, statements, 0);
                let unit = finish_body(st);
                assert(unit.bodies.last().instructions == close_body(st).body);
                assert(unit.bodies[unit.bodies.len() - 1].instructions.len() <= usize::MAX);
                assert(unit_fits(st)) by {
                    assert forall|b: int| 0 <= b < st.bodies.len() implies (
                    #[trigger] st.bodies[b]).instructions.len() <= usize::MAX by {
                        assert(unit.bodies[b] == st.bodies[b]);
                    }
                }
                lemma_lower_statements_typed(start, statements, 0);
                lemma_finish_body_typed(st);
            }
        },
        _ => {},
    }
}

} // verus!
