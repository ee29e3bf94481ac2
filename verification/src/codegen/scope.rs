//! The reference invariant of the intermediate representation: whatever an
//! instruction reads has been made before it.

use crate::ast::node::{BinaryOperator, FStringPartView, LiteralView, NodeView, UnaryOperator};
use crate::codegen::ir::{Callee, External, Instruction, Operand, ValueKind};
use crate::codegen::rules::{
    add_float, add_text, bind, bind_parameters, call_external, close_body, concatenate, declare,
    emit, emit_arguments, entry_state, escape_percent, find_function, finish_body,
    float_floor_divide, float_modulo, float_power, format_specifier, function_call,
    int_correction, int_divide, int_floor_divide, int_modulo, int_power, lookup,
    lower_arguments, lower_binary, lower_expression, lower_program, lower_return,
    lower_segments, lower_statement, lower_statements, lower_template, lower_unary, open_block,
    print_call, print_float, print_text, print_value, print_values, shown, BindingView,
    ErrorView, SignatureView, State, Value,
};
use crate::codegen::rules::embedded_expression;
use vstd::prelude::*;

verus! {

/// The number of parameters of the function with index `function`.
pub open spec fn parameters_of(st: State, function: nat) -> nat {
    if function < st.signatures.len() {
        st.signatures[function as int].parameters
    } else {
        0
    }
}

/// An operand that the instruction with index `at` of `function` may read:
/// a constant of the unit, a parameter of the function, or what an earlier
/// instruction gave.
pub open spec fn known(st: State, function: nat, operand: Operand, at: int) -> bool {
    match operand {
        Operand::Integer(_) | Operand::Int32(_) => true,
        Operand::Float(i) => i < st.floats.len(),
        Operand::Text(i) => i < st.strings.len(),
        Operand::Parameter(i) => i < parameters_of(st, function),
        Operand::Result(i) => i < at,
    }
}

/// Every operand that an instruction reads is known, and a function that it
/// calls is a function of the unit.
pub open spec fn in_scope(st: State, function: nat, instruction: Instruction, at: int) -> bool {
    match instruction {
        Instruction::Label { .. } | Instruction::Alloca { .. } | Instruction::Buffer { .. } => true,
        Instruction::Store { slot, value } => known(st, function, slot, at) && known(
            st,
            function,
            value,
            at,
        ),
        Instruction::Load { slot, .. } => known(st, function, slot, at),
        Instruction::IntBinary { left, right, .. }
        | Instruction::FloatBinary { left, right, .. }
        | Instruction::IntEqual { left, right }
        | Instruction::IntGreater { left, right }
        | Instruction::FloatEqual { left, right }
        | Instruction::FloatLess { left, right } => known(st, function, left, at) && known(
            st,
            function,
            right,
            at,
        ),
        Instruction::IntToFloat { value }
        | Instruction::Argument { value }
        | Instruction::Return { value } => known(st, function, value, at),
        Instruction::Select { condition, then_value, else_value, .. } => known(
            st,
            function,
            condition,
            at,
        ) && known(st, function, then_value, at) && known(st, function, else_value, at),
        Instruction::Call { callee, .. } => match callee {
            Callee::Function(index) => index < st.signatures.len(),
            Callee::External(external) => st.externals.contains(external),
        },
        Instruction::Branch { .. } => true,
        Instruction::CondBranch { condition, .. } => known(st, function, condition, at),
    }
}

/// Every instruction of a body of `function` is in scope where it stands.
pub open spec fn scoped(st: State, function: nat, body: Seq<Instruction>) -> bool {
    forall|j: int| 0 <= j < body.len() ==> in_scope(st, function, #[trigger] body[j], j)
}

/// Every name is bound to a slot of the function being built.
pub open spec fn bound(st: State) -> bool {
    forall|v: int| 0 <= v < st.variables.len() ==> (#[trigger] st.variables[v]).slot < st.body.len()
}

/// The finished bodies are scoped.
pub open spec fn bodies_scoped(st: State) -> bool {
    forall|b: int|
        0 <= b < st.bodies.len() ==> scoped(
            st,
            (#[trigger] st.bodies[b]).function,
            st.bodies[b].instructions,
        )
}

/// The reference invariant of a state.
pub open spec fn well_scoped(st: State) -> bool {
    &&& scoped(st, st.function, st.body)
    &&& bound(st)
    &&& bodies_scoped(st)
}

/// The later state has everything that the earlier one has; the functions,
/// the bindings and the finished bodies are the same.
pub open spec fn advances(st: State, after: State) -> bool {
    &&& after.signatures == st.signatures
    &&& after.function == st.function
    &&& after.entry == st.entry
    &&& after.variables == st.variables
    &&& after.bodies == st.bodies
    &&& st.body.len() <= after.body.len()
    &&& st.strings.len() <= after.strings.len()
    &&& st.floats.len() <= after.floats.len()
    &&& forall|e: crate::codegen::ir::External|
        st.externals.contains(e) ==> after.externals.contains(e)
}

/// What is in scope stays in scope when the unit grows.
pub proof fn lemma_scope_grows(st: State, after: State, function: nat, body: Seq<Instruction>)
    requires
        scoped(st, function, body),
        after.signatures == st.signatures,
        st.strings.len() <= after.strings.len(),
        st.floats.len() <= after.floats.len(),
        forall|e: crate::codegen::ir::External|
            st.externals.contains(e) ==> after.externals.contains(e),
    ensures
        scoped(after, function, body),
{
    assert forall|j: int| 0 <= j < body.len() implies in_scope(
        after,
        function,
        #[trigger] body[j],
        j,
    ) by {
        assert(in_scope(st, function, body[j], j));
    }
}

/// The invariant holds of a later state with the same body.
pub proof fn lemma_unit_grows(st: State, after: State)
    requires
        well_scoped(st),
        advances(st, after),
        after.body == st.body,
    ensures
        well_scoped(after),
{
    lemma_scope_grows(st, after, st.function, st.body);
    assert forall|b: int| 0 <= b < after.bodies.len() implies scoped(
        after,
        (#[trigger] after.bodies[b]).function,
        after.bodies[b].instructions,
    ) by {
        lemma_scope_grows(st, after, st.bodies[b].function, st.bodies[b].instructions);
    }
}

/// One more instruction that is in scope keeps the invariant.
pub broadcast proof fn lemma_emit_in_scope(st: State, instruction: Instruction)
    requires
        well_scoped(st),
        in_scope(st, st.function, instruction, st.body.len() as int),
    ensures
        #![trigger emit(st, instruction)]
        well_scoped(emit(st, instruction)),
        advances(st, emit(st, instruction)),
        emit(st, instruction).body.len() == st.body.len() + 1,
        emit(st, instruction).strings == st.strings,
        emit(st, instruction).floats == st.floats,
        emit(st, instruction).externals == st.externals,
        known(
            emit(st, instruction),
            st.function,
            crate::codegen::rules::upcoming(st),
            emit(st, instruction).body.len() as int,
        ),
{
    let after = emit(st, instruction);
    assert forall|j: int| 0 <= j < after.body.len() implies in_scope(
        after,
        after.function,
        #[trigger] after.body[j],
        j,
    ) by {
        if j < st.body.len() {
            assert(after.body[j] == st.body[j]);
            assert(in_scope(st, st.function, st.body[j], j));
        }
    }
    assert forall|b: int| 0 <= b < after.bodies.len() implies scoped(
        after,
        (#[trigger] after.bodies[b]).function,
        after.bodies[b].instructions,
    ) by {
        lemma_scope_grows(st, after, st.bodies[b].function, st.bodies[b].instructions);
    }
}

/// A new string constant keeps the invariant and is known from then on.
pub broadcast proof fn lemma_add_text_in_scope(st: State, text: Seq<char>)
    requires
        well_scoped(st),
    ensures
        #![trigger add_text(st, text)]
        well_scoped(add_text(st, text).0),
        advances(st, add_text(st, text).0),
        add_text(st, text).0.body == st.body,
        add_text(st, text).0.strings.len() == st.strings.len() + 1,
        add_text(st, text).0.floats == st.floats,
        add_text(st, text).0.externals == st.externals,
        known(add_text(st, text).0, st.function, add_text(st, text).1, 0),
{
    lemma_unit_grows(st, add_text(st, text).0);
}

/// A new float constant keeps the invariant and is known from then on.
pub broadcast proof fn lemma_add_float_in_scope(st: State, text: Seq<char>)
    requires
        well_scoped(st),
    ensures
        #![trigger add_float(st, text)]
        well_scoped(add_float(st, text).0),
        advances(st, add_float(st, text).0),
        add_float(st, text).0.body == st.body,
        add_float(st, text).0.floats.len() == st.floats.len() + 1,
        add_float(st, text).0.strings == st.strings,
        add_float(st, text).0.externals == st.externals,
        known(add_float(st, text).0, st.function, add_float(st, text).1, 0),
{
    lemma_unit_grows(st, add_float(st, text).0);
}

/// A declaration keeps the invariant, and the function is declared after.
pub broadcast proof fn lemma_declare_in_scope(st: State, external: crate::codegen::ir::External)
    requires
        well_scoped(st),
    ensures
        #![trigger declare(st, external)]
        well_scoped(declare(st, external)),
        advances(st, declare(st, external)),
        declare(st, external).body == st.body,
        declare(st, external).strings == st.strings,
        declare(st, external).floats == st.floats,
        declare(st, external).externals.contains(external),
{
    let after = declare(st, external);
    if !st.externals.contains(external) {
        assert(after.externals.last() == external);
        assert forall|e: crate::codegen::ir::External|
            st.externals.contains(e) implies after.externals.contains(e) by {
            let k = choose|k: int| 0 <= k < st.externals.len() && st.externals[k] == e;
            assert(after.externals[k] == e);
        }
    }
    lemma_unit_grows(st, after);
}

/// Arguments that are known keep the invariant.
pub broadcast proof fn lemma_emit_arguments_in_scope(st: State, values: Seq<Operand>)
    requires
        well_scoped(st),
        forall|k: int|
            0 <= k < values.len() ==> known(st, st.function, #[trigger] values[k], st.body.len() as int),
    ensures
        #![trigger emit_arguments(st, values)]
        well_scoped(emit_arguments(st, values)),
        advances(st, emit_arguments(st, values)),
        emit_arguments(st, values).strings == st.strings,
        emit_arguments(st, values).floats == st.floats,
        emit_arguments(st, values).externals == st.externals,
    decreases values.len(),
{
    if values.len() > 0 {
        let first = Instruction::Argument { value: values[0] };
        lemma_emit_in_scope(st, first);
        let later = values.subrange(1, values.len() as int);
        assert forall|k: int| 0 <= k < later.len() implies known(
            emit(st, first),
            st.function,
            #[trigger] later[k],
            emit(st, first).body.len() as int,
        ) by {
            assert(later[k] == values[k + 1]);
        }
        lemma_emit_arguments_in_scope(emit(st, first), later);
    }
}

/// A call of a C library function on known values keeps the invariant, and
/// what it gives is known after.
pub broadcast proof fn lemma_call_external_in_scope(
    st: State,
    external: crate::codegen::ir::External,
    values: Seq<Operand>,
)
    requires
        well_scoped(st),
        forall|k: int|
            0 <= k < values.len() ==> known(st, st.function, #[trigger] values[k], st.body.len() as int),
    ensures
        #![trigger call_external(st, external, values)]
        well_scoped(call_external(st, external, values).0),
        advances(st, call_external(st, external, values).0),
        call_external(st, external, values).0.strings == st.strings,
        call_external(st, external, values).0.floats == st.floats,
        known(
            call_external(st, external, values).0,
            st.function,
            call_external(st, external, values).1,
            call_external(st, external, values).0.body.len() as int,
        ),
{
    reveal(call_external);
    lemma_declare_in_scope(st, external);
    let declared = declare(st, external);
    lemma_emit_arguments_in_scope(declared, values);
    let handed = emit_arguments(declared, values);
    lemma_emit_in_scope(
        handed,
        Instruction::Call { callee: Callee::External(external), arguments: values.len() as usize },
    );
}

/// The correction of a division keeps the invariant, and is known after.
pub broadcast proof fn lemma_int_correction_in_scope(
    st: State,
    remainder: Operand,
    right: Operand,
    step: Operand,
)
    requires
        well_scoped(st),
        known(st, st.function, remainder, st.body.len() as int),
        known(st, st.function, right, st.body.len() as int),
        known(st, st.function, step, st.body.len() as int),
    ensures
        #![trigger int_correction(st, remainder, right, step)]
        well_scoped(int_correction(st, remainder, right, step).0),
        advances(st, int_correction(st, remainder, right, step).0),
        known(
            int_correction(st, remainder, right, step).0,
            st.function,
            int_correction(st, remainder, right, step).1,
            int_correction(st, remainder, right, step).0.body.len() as int,
        ),
{
    reveal(int_correction);
    broadcast use lemma_emit_in_scope;

}

pub broadcast proof fn lemma_concatenate_in_scope(st: State, left: Operand, right: Operand)
    requires
        well_scoped(st),
        known(st, st.function, left, st.body.len() as int),
        known(st, st.function, right, st.body.len() as int),
    ensures
        #![trigger concatenate(st, left, right)]
        well_scoped(concatenate(st, left, right).0),
        advances(st, concatenate(st, left, right).0),
        known(
            concatenate(st, left, right).0,
            st.function,
            concatenate(st, left, right).1.operand,
            concatenate(st, left, right).0.body.len() as int,
        ),
{
    reveal(concatenate);
    broadcast use lemma_emit_in_scope, lemma_call_external_in_scope;

}

pub broadcast proof fn lemma_int_modulo_in_scope(st: State, left: Operand, right: Operand)
    requires
        well_scoped(st),
        known(st, st.function, left, st.body.len() as int),
        known(st, st.function, right, st.body.len() as int),
    ensures
        #![trigger int_modulo(st, left, right)]
        well_scoped(int_modulo(st, left, right).0),
        advances(st, int_modulo(st, left, right).0),
        known(
            int_modulo(st, left, right).0,
            st.function,
            int_modulo(st, left, right).1.operand,
            int_modulo(st, left, right).0.body.len() as int,
        ),
{
    reveal(int_modulo);
    broadcast use lemma_emit_in_scope, lemma_int_correction_in_scope;

}

pub broadcast proof fn lemma_int_floor_divide_in_scope(st: State, left: Operand, right: Operand)
    requires
        well_scoped(st),
        known(st, st.function, left, st.body.len() as int),
        known(st, st.function, right, st.body.len() as int),
    ensures
        #![trigger int_floor_divide(st, left, right)]
        well_scoped(int_floor_divide(st, left, right).0),
        advances(st, int_floor_divide(st, left, right).0),
        known(
            int_floor_divide(st, left, right).0,
            st.function,
            int_floor_divide(st, left, right).1.operand,
            int_floor_divide(st, left, right).0.body.len() as int,
        ),
{
    reveal(int_floor_divide);
    broadcast use lemma_emit_in_scope, lemma_int_correction_in_scope;

}

pub broadcast proof fn lemma_float_modulo_in_scope(st: State, left: Operand, right: Operand)
    requires
        well_scoped(st),
        known(st, st.function, left, st.body.len() as int),
        known(st, st.function, right, st.body.len() as int),
    ensures
        #![trigger float_modulo(st, left, right)]
        well_scoped(float_modulo(st, left, right).0),
        advances(st, float_modulo(st, left, right).0),
        known(
            float_modulo(st, left, right).0,
            st.function,
            float_modulo(st, left, right).1.operand,
            float_modulo(st, left, right).0.body.len() as int,
        ),
{
    reveal(float_modulo);
    broadcast use lemma_emit_in_scope, lemma_add_float_in_scope;

}

pub broadcast proof fn lemma_float_floor_divide_in_scope(st: State, left: Operand, right: Operand)
    requires
        well_scoped(st),
        known(st, st.function, left, st.body.len() as int),
        known(st, st.function, right, st.body.len() as int),
    ensures
        #![trigger float_floor_divide(st, left, right)]
        well_scoped(float_floor_divide(st, left, right).0),
        advances(st, float_floor_divide(st, left, right).0),
        known(
            float_floor_divide(st, left, right).0,
            st.function,
            float_floor_divide(st, left, right).1.operand,
            float_floor_divide(st, left, right).0.body.len() as int,
        ),
{
    reveal(float_floor_divide);
    broadcast use lemma_emit_in_scope, lemma_call_external_in_scope;

}

pub broadcast proof fn lemma_int_power_in_scope(st: State, left: Operand, right: Operand)
    requires
        well_scoped(st),
        known(st, st.function, left, st.body.len() as int),
        known(st, st.function, right, st.body.len() as int),
    ensures
        #![trigger int_power(st, left, right)]
        well_scoped(int_power(st, left, right).0),
        advances(st, int_power(st, left, right).0),
        known(
            int_power(st, left, right).0,
            st.function,
            int_power(st, left, right).1.operand,
            int_power(st, left, right).0.body.len() as int,
        ),
{
    reveal(int_power);
    broadcast use lemma_emit_in_scope;

}

pub broadcast proof fn lemma_float_power_in_scope(st: State, left: Operand, right: Operand)
    requires
        well_scoped(st),
        known(st, st.function, left, st.body.len() as int),
        known(st, st.function, right, st.body.len() as int),
    ensures
        #![trigger float_power(st, left, right)]
        well_scoped(float_power(st, left, right).0),
        advances(st, float_power(st, left, right).0),
        known(
            float_power(st, left, right).0,
            st.function,
            float_power(st, left, right).1.operand,
            float_power(st, left, right).0.body.len() as int,
        ),
{
    reveal(float_power);
    broadcast use lemma_call_external_in_scope;

}

pub broadcast proof fn lemma_int_divide_in_scope(st: State, left: Operand, right: Operand)
    requires
        well_scoped(st),
        known(st, st.function, left, st.body.len() as int),
        known(st, st.function, right, st.body.len() as int),
    ensures
        #![trigger int_divide(st, left, right)]
        well_scoped(int_divide(st, left, right).0),
        advances(st, int_divide(st, left, right).0),
        known(
            int_divide(st, left, right).0,
            st.function,
            int_divide(st, left, right).1.operand,
            int_divide(st, left, right).0.body.len() as int,
        ),
{
    reveal(int_divide);
    broadcast use lemma_emit_in_scope;

}

/// What lowering gives is in scope: the state keeps the invariant, and a
/// value that came of it is known.
pub open spec fn value_in_scope(st: State, outcome: (State, Result<Value, ErrorView>)) -> bool {
    advances(st, outcome.0) && (outcome.1 matches Ok(value) ==> well_scoped(outcome.0) && known(
        outcome.0,
        st.function,
        value.operand,
        outcome.0.body.len() as int,
    ))
}

pub open spec fn values_known(st: State, values: Seq<Value>) -> bool {
    forall|k: int|
        0 <= k < values.len() ==> known(
            st,
            st.function,
            (#[trigger] values[k]).operand,
            st.body.len() as int,
        )
}

pub open spec fn operands_known(st: State, values: Seq<Operand>) -> bool {
    forall|k: int|
        0 <= k < values.len() ==> known(st, st.function, #[trigger] values[k], st.body.len() as int)
}

pub broadcast proof fn lemma_lower_binary_in_scope(
    st: State,
    operator: BinaryOperator,
    left: Value,
    right: Value,
)
    requires
        well_scoped(st),
        known(st, st.function, left.operand, st.body.len() as int),
        known(st, st.function, right.operand, st.body.len() as int),
    ensures
        #![trigger lower_binary(st, operator, left, right)]
        value_in_scope(st, lower_binary(st, operator, left, right)),
{
    reveal(lower_binary);
    broadcast use
        lemma_emit_in_scope,
        lemma_concatenate_in_scope,
        lemma_int_modulo_in_scope,
        lemma_int_floor_divide_in_scope,
        lemma_float_modulo_in_scope,
        lemma_float_floor_divide_in_scope,
        lemma_int_power_in_scope,
        lemma_float_power_in_scope,
        lemma_int_divide_in_scope,
    ;

}

pub broadcast proof fn lemma_lower_unary_in_scope(st: State, operator: UnaryOperator, operand: Value)
    requires
        well_scoped(st),
        known(st, st.function, operand.operand, st.body.len() as int),
    ensures
        #![trigger lower_unary(st, operator, operand)]
        value_in_scope(st, lower_unary(st, operator, operand)),
{
    reveal(lower_unary);
    broadcast use lemma_emit_in_scope, lemma_add_float_in_scope;

}

pub broadcast proof fn lemma_print_text_in_scope(st: State, format: Seq<char>, value: Option<Operand>)
    requires
        well_scoped(st),
        value matches Some(operand) ==> known(st, st.function, operand, st.body.len() as int),
    ensures
        #![trigger print_text(st, format, value)]
        well_scoped(print_text(st, format, value)),
        advances(st, print_text(st, format, value)),
{
    reveal(print_text);
    broadcast use lemma_add_text_in_scope;

    let (st1, text) = add_text(st, format);
    let values = match value {
        Some(operand) => seq![text, operand],
        None => seq![text],
    };
    lemma_call_external_in_scope(st1, External::Printf, values);
}

pub broadcast proof fn lemma_shown_in_scope(st: State, value: Value)
    requires
        well_scoped(st),
        known(st, st.function, value.operand, st.body.len() as int),
    ensures
        #![trigger shown(st, value)]
        well_scoped(shown(st, value).0),
        advances(st, shown(st, value).0),
        known(
            shown(st, value).0,
            st.function,
            shown(st, value).1.operand,
            shown(st, value).0.body.len() as int,
        ),
{
    reveal(shown);
    broadcast use lemma_emit_in_scope, lemma_add_text_in_scope;

}

pub broadcast proof fn lemma_print_value_in_scope(st: State, value: Value, end: Seq<char>)
    requires
        well_scoped(st),
        known(st, st.function, value.operand, st.body.len() as int),
    ensures
        #![trigger print_value(st, value, end)]
        well_scoped(print_value(st, value, end)),
        advances(st, print_value(st, value, end)),
{
    reveal(print_value);
    reveal(print_float);
    broadcast use lemma_emit_in_scope, lemma_print_text_in_scope, lemma_add_float_in_scope;

    lemma_shown_in_scope(st, value);

}

pub proof fn lemma_print_values_in_scope(st: State, values: Seq<Value>, from: nat)
    requires
        well_scoped(st),
        values_known(st, values),
    ensures
        well_scoped(print_values(st, values, from)),
        advances(st, print_values(st, values, from)),
    decreases values.len() - from,
{
    if from < values.len() {
        let end = if from + 1 == values.len() {
            "\n"@
        } else {
            " "@
        };
        lemma_print_value_in_scope(st, values[from as int], end);
        let st1 = print_value(st, values[from as int], end);
        assert(values_known(st1, values)) by {
            assert forall|k: int| 0 <= k < values.len() implies known(
                st1,
                st1.function,
                (#[trigger] values[k]).operand,
                st1.body.len() as int,
            ) by {
                assert(known(st, st.function, values[k].operand, st.body.len() as int));
            }
        }
        lemma_print_values_in_scope(st1, values, from + 1);
    }
}

pub proof fn lemma_print_call_in_scope(st: State, values: Seq<Value>)
    requires
        well_scoped(st),
        values_known(st, values),
    ensures
        value_in_scope(st, (print_call(st, values).0, Ok::<Value, ErrorView>(print_call(st, values).1))),
{
    reveal(print_call);
    broadcast use lemma_print_text_in_scope;

    lemma_print_values_in_scope(st, values, 0);
}

pub proof fn lemma_function_call_in_scope(st: State, function: nat, values: Seq<Value>)
    requires
        well_scoped(st),
        values_known(st, values),
    ensures
        value_in_scope(st, function_call(st, function, values)),
{
    reveal(function_call);
    let handed = crate::codegen::rules::operands(values);
    assert forall|k: int| 0 <= k < handed.len() implies known(
        st,
        st.function,
        #[trigger] handed[k],
        st.body.len() as int,
    ) by {
        assert(handed[k] == values[k].operand);
    }
    if function < st.signatures.len() {
        lemma_emit_arguments_in_scope(st, handed);
        lemma_emit_in_scope(
            emit_arguments(st, handed),
            Instruction::Call {
                callee: Callee::Function(function as usize),
                arguments: values.len() as usize,
            },
        );
    }
}

/// A binding that is looked up is one of the table.
pub proof fn lemma_lookup_is_bound(variables: Seq<BindingView>, name: Seq<char>)
    ensures
        lookup(variables, name) matches Some(binding) ==> exists|v: int|
            0 <= v < variables.len() && variables[v] == binding,
    decreases variables.len(),
{
    if variables.len() > 0 && variables.last().name != name {
        lemma_lookup_is_bound(variables.drop_last(), name);
        if let Some(binding) = lookup(variables.drop_last(), name) {
            let v = choose|v: int|
                0 <= v < variables.drop_last().len() && variables.drop_last()[v] == binding;
            assert(variables[v] == binding);
        }
    } else if variables.len() > 0 {
        assert(variables[variables.len() - 1] == variables.last());
    }
}

/// Expressions keep the invariant, and the value of one is known after.
pub proof fn lemma_lower_expression_in_scope(st: State, node: NodeView, embedded: bool)
    requires
        well_scoped(st),
    ensures
        value_in_scope(st, lower_expression(st, node, embedded)),
    decreases
            if embedded {
                0nat
            } else {
                3nat
            },
            node,
{
    broadcast use
        lemma_emit_in_scope,
        lemma_add_text_in_scope,
        lemma_add_float_in_scope,
        lemma_lower_unary_in_scope,
        lemma_lower_binary_in_scope,
    ;

    match node {
        NodeView::Literal { value } => match value {
            LiteralView::FString(parts) => if !embedded {
                reveal_with_fuel(lower_template, 1);
                lemma_lower_template_in_scope(st, parts);
            },
            _ => {},
        },
        NodeView::Identifier { name } => {
            lemma_lookup_is_bound(st.variables, name);
        },
        NodeView::Unary { operator, operand } => {
            lemma_lower_expression_in_scope(st, *operand, embedded);
        },
        NodeView::Binary { left, operator, right } => {
            lemma_lower_expression_in_scope(st, *left, embedded);
            let (st1, first) = lower_expression(st, *left, embedded);
            if first is Ok {
                lemma_lower_expression_in_scope(st1, *right, embedded);
            }
        },
        NodeView::Call { callee, arguments } => {
            assert(values_known(st, Seq::<Value>::empty()));
            lemma_lower_arguments_in_scope(st, arguments, 0, Seq::empty(), embedded);
            let (st1, lowered) = lower_arguments(st, arguments, 0, Seq::empty(), embedded);
            if let Ok(values) = lowered {
                lemma_print_call_in_scope(st1, values);
                if let Some(index) = find_function(st.signatures, callee, 0) {
                    lemma_function_call_in_scope(st1, index, values);
                }
            }
        },
        _ => {},
    }
}

pub proof fn lemma_lower_arguments_in_scope(
    st: State,
    arguments: Seq<NodeView>,
    from: nat,
    values: Seq<Value>,
    embedded: bool,
)
    requires
        well_scoped(st),
        values_known(st, values),
    ensures
        advances(st, lower_arguments(st, arguments, from, values, embedded).0),
        lower_arguments(st, arguments, from, values, embedded).1 matches Ok(all) ==> well_scoped(
            lower_arguments(st, arguments, from, values, embedded).0,
        ) && values_known(lower_arguments(st, arguments, from, values, embedded).0, all),
    decreases
            if embedded {
                0nat
            } else {
                3nat
            },
            arguments,
            arguments.len() - from,
{
    if from < arguments.len() {
        lemma_lower_expression_in_scope(st, arguments[from as int], embedded);
        let (st1, lowered) = lower_expression(st, arguments[from as int], embedded);
        if let Ok(value) = lowered {
            let more = values.push(value);
            assert(values_known(st1, more)) by {
                assert forall|k: int| 0 <= k < more.len() implies known(
                    st1,
                    st1.function,
                    (#[trigger] more[k]).operand,
                    st1.body.len() as int,
                ) by {
                    if k < values.len() {
                        assert(known(st, st.function, values[k].operand, st.body.len() as int));
                    }
                }
            }
            lemma_lower_arguments_in_scope(st1, arguments, from + 1, more, embedded);
        }
    }
}

pub proof fn lemma_lower_segments_in_scope(
    st: State,
    parts: Seq<FStringPartView>,
    format: Seq<char>,
    values: Seq<Operand>,
)
    requires
        well_scoped(st),
        operands_known(st, values),
    ensures
        advances(st, lower_segments(st, parts, format, values).0),
        lower_segments(st, parts, format, values).1 matches Ok(found) ==> well_scoped(
            lower_segments(st, parts, format, values).0,
        ) && operands_known(lower_segments(st, parts, format, values).0, found.1),
    decreases 1nat, parts,
{
    broadcast use lemma_add_text_in_scope;

    if parts.len() > 0 {
        let later = parts.subrange(1, parts.len() as int);
        match parts[0] {
            FStringPartView::Literal(text) => {
                lemma_lower_segments_in_scope(st, later, format + escape_percent(text), values);
            },
            FStringPartView::Expression(text) => match embedded_expression(text) {
                None => {
                    let (st1, operand) = add_text(st, text);
                    let more = values.push(operand);
                    assert(operands_known(st1, more)) by {
                        assert forall|k: int| 0 <= k < more.len() implies known(
                            st1,
                            st1.function,
                            #[trigger] more[k],
                            st1.body.len() as int,
                        ) by {
                            if k < values.len() {
                                assert(known(st, st.function, values[k], st.body.len() as int));
                            }
                        }
                    }
                    lemma_lower_segments_in_scope(st1, later, format + "%s"@, more);
                },
                Some(node) => {
                    lemma_lower_expression_in_scope(st, node, true);
                    let (st0, lowered) = lower_expression(st, node, true);
                    if let Ok(found) = lowered {
                        lemma_shown_in_scope(st0, found);
                        let (st1, value) = shown(st0, found);
                        let more = values.push(value.operand);
                        assert(operands_known(st1, more)) by {
                            assert forall|k: int| 0 <= k < more.len() implies known(
                                st1,
                                st1.function,
                                #[trigger] more[k],
                                st1.body.len() as int,
                            ) by {
                                if k < values.len() {
                                    assert(known(st, st.function, values[k], st.body.len() as int));
                                }
                            }
                        }
                        lemma_lower_segments_in_scope(
                            st1,
                            later,
                            format + format_specifier(value.kind),
                            more,
                        );
                    }
                },
            },
        }
    }
}

pub proof fn lemma_lower_template_in_scope(st: State, parts: Seq<FStringPartView>)
    requires
        well_scoped(st),
    ensures
        value_in_scope(st, lower_template(st, parts)),
    decreases 2nat, parts,
{
    reveal_with_fuel(lower_template, 1);
    broadcast use lemma_emit_in_scope, lemma_add_text_in_scope;

    assert(operands_known(st, Seq::<Operand>::empty()));
    lemma_lower_segments_in_scope(st, parts, Seq::empty(), Seq::empty());
    let (st1, segments) = lower_segments(st, parts, Seq::empty(), Seq::empty());
    if parts.len() > 0 && crate::codegen::rules::buffer_size(parts, 0) <= i32::MAX {
        if let Ok((format, values)) = segments {
            let size = crate::codegen::rules::buffer_size(parts, 0);
            let (st2, buffer) = crate::codegen::rules::emit_value(
                st1,
                Instruction::Buffer { size: size as u32 },
                ValueKind::Pointer,
            );
            let fill = seq![buffer.operand, Operand::Int32(0), Operand::Integer(size as i64)];
            lemma_call_external_in_scope(st2, External::Memset, fill);
            let (st3, _) = call_external(st2, External::Memset, fill);
            let (st4, text) = add_text(st3, format);
            let handed = seq![buffer.operand, Operand::Integer((size - 1) as i64), text] + values;
            assert(operands_known(st4, handed)) by {
                assert forall|k: int| 0 <= k < handed.len() implies known(
                    st4,
                    st4.function,
                    #[trigger] handed[k],
                    st4.body.len() as int,
                ) by {
                    if k >= 3 {
                        assert(handed[k] == values[k - 3]);
                        assert(known(st1, st1.function, values[k - 3], st1.body.len() as int));
                    }
                }
            }
            lemma_call_external_in_scope(st4, External::Snprintf, handed);
        }
    }
}

/// The invariant between two statements: the state is well scoped, and
/// every body belongs to a function of the unit.
pub open spec fn unit_scoped(st: State) -> bool {
    &&& well_scoped(st)
    &&& st.function < st.signatures.len()
    &&& forall|b: int| 0 <= b < st.bodies.len() ==> (#[trigger] st.bodies[b]).function < st.signatures.len()
}

/// The later state has every function and constant that the earlier one
/// has, at the same index.
pub open spec fn unit_grows(st: State, after: State) -> bool {
    &&& st.signatures.len() <= after.signatures.len()
    &&& forall|i: int| 0 <= i < st.signatures.len() ==> #[trigger] after.signatures[i] == st.signatures[i]
    &&& st.strings.len() <= after.strings.len()
    &&& st.floats.len() <= after.floats.len()
    &&& forall|e: External| st.externals.contains(e) ==> after.externals.contains(e)
}

/// What is in scope stays in scope when functions are added to the unit.
pub proof fn lemma_scope_grows_with_unit(
    st: State,
    after: State,
    function: nat,
    body: Seq<Instruction>,
)
    requires
        scoped(st, function, body),
        function < st.signatures.len(),
        unit_grows(st, after),
    ensures
        scoped(after, function, body),
{
    assert(after.signatures[function as int] == st.signatures[function as int]);
    assert forall|j: int| 0 <= j < body.len() implies in_scope(
        after,
        function,
        #[trigger] body[j],
        j,
    ) by {
        assert(in_scope(st, function, body[j], j));
    }
}

/// The finished bodies stay scoped when the unit grows.
pub proof fn lemma_bodies_grow_with_unit(st: State, after: State)
    requires
        unit_scoped(st),
        unit_grows(st, after),
        after.bodies == st.bodies,
    ensures
        bodies_scoped(after),
        forall|b: int|
            0 <= b < after.bodies.len() ==> (#[trigger] after.bodies[b]).function
                < after.signatures.len(),
{
    assert forall|b: int| 0 <= b < after.bodies.len() implies scoped(
        after,
        (#[trigger] after.bodies[b]).function,
        after.bodies[b].instructions,
    ) by {
        lemma_scope_grows_with_unit(st, after, st.bodies[b].function, st.bodies[b].instructions);
    }
}

/// A slot, a store and a binding keep the invariant.
pub proof fn lemma_bind_in_scope(st: State, name: Seq<char>, value: Operand, kind: ValueKind)
    requires
        unit_scoped(st),
        known(st, st.function, value, st.body.len() as int),
    ensures
        unit_scoped(bind(st, name, value, kind)),
        unit_grows(st, bind(st, name, value, kind)),
        bind(st, name, value, kind).signatures == st.signatures,
        bind(st, name, value, kind).function == st.function,
        bind(st, name, value, kind).entry == st.entry,
        bind(st, name, value, kind).bodies == st.bodies,
{
    reveal(bind);
    broadcast use lemma_emit_in_scope;

    let after = bind(st, name, value, kind);
    let (st1, slot) = crate::codegen::rules::emit_operand(st, Instruction::Alloca { kind });
    let st2 = emit(st1, Instruction::Store { slot, value });
    assert(well_scoped(st2));
    assert forall|v: int| 0 <= v < after.variables.len() implies (#[trigger] after.variables[v]).slot
        < after.body.len() by {
        if v < st.variables.len() {
            assert(after.variables[v] == st.variables[v]);
        }
    }
    assert forall|j: int| 0 <= j < after.body.len() implies in_scope(
        after,
        after.function,
        #[trigger] after.body[j],
        j,
    ) by {
        assert(in_scope(st2, st2.function, st2.body[j], j));
    }
    assert forall|b: int| 0 <= b < after.bodies.len() implies scoped(
        after,
        (#[trigger] after.bodies[b]).function,
        after.bodies[b].instructions,
    ) by {
        lemma_scope_grows(st2, after, st2.bodies[b].function, st2.bodies[b].instructions);
    }
}

pub proof fn lemma_bind_parameters_in_scope(st: State, parameters: Seq<Seq<char>>, from: nat)
    requires
        unit_scoped(st),
        parameters_of(st, st.function) == parameters.len(),
    ensures
        unit_scoped(bind_parameters(st, parameters, from)),
        unit_grows(st, bind_parameters(st, parameters, from)),
        bind_parameters(st, parameters, from).signatures == st.signatures,
        bind_parameters(st, parameters, from).function == st.function,
        bind_parameters(st, parameters, from).entry == st.entry,
        bind_parameters(st, parameters, from).bodies == st.bodies,
    decreases parameters.len() - from,
{
    if from < parameters.len() {
        let value = Operand::Parameter(from as usize);
        lemma_bind_in_scope(st, parameters[from as int], value, ValueKind::Int);
        lemma_bind_parameters_in_scope(
            bind(st, parameters[from as int], value, ValueKind::Int),
            parameters,
            from + 1,
        );
    }
}

/// The state after lowering an expression between two statements.
proof fn lemma_expression_between_statements(st: State, node: NodeView)
    requires
        unit_scoped(st),
    ensures
        unit_grows(st, lower_expression(st, node, false).0),
        lower_expression(st, node, false).0.signatures == st.signatures,
        lower_expression(st, node, false).0.function == st.function,
        lower_expression(st, node, false).0.entry == st.entry,
        lower_expression(st, node, false).0.bodies == st.bodies,
        lower_expression(st, node, false).1 matches Ok(value) ==> unit_scoped(
            lower_expression(st, node, false).0,
        ) && known(
            lower_expression(st, node, false).0,
            st.function,
            value.operand,
            lower_expression(st, node, false).0.body.len() as int,
        ),
{
    lemma_lower_expression_in_scope(st, node, false);
}

pub proof fn lemma_lower_return_in_scope(st: State, value: Option<Box<NodeView>>)
    requires
        unit_scoped(st),
    ensures
        unit_grows(st, lower_return(st, value).0),
        lower_return(st, value).0.function == st.function,
        lower_return(st, value).0.entry == st.entry,
        lower_return(st, value).1 is Ok ==> unit_scoped(lower_return(st, value).0),
{
    reveal(lower_return);
    broadcast use lemma_emit_in_scope;

    if let Some(node) = value {
        lemma_expression_between_statements(st, *node);
    }
}

/// The end of a function keeps the invariant: its body is scoped.
pub proof fn lemma_finish_body_in_scope(st: State)
    requires
        unit_scoped(st),
    ensures
        bodies_scoped(finish_body(st)),
        unit_grows(st, finish_body(st)),
        finish_body(st).signatures == st.signatures,
        finish_body(st).strings == st.strings,
        finish_body(st).floats == st.floats,
        finish_body(st).externals == st.externals,
        forall|b: int|
            0 <= b < finish_body(st).bodies.len() ==> (#[trigger] finish_body(st).bodies[b]).function
                < st.signatures.len(),
{
    broadcast use lemma_emit_in_scope;

    let closed = close_body(st);
    assert(well_scoped(closed));
    let after = finish_body(st);
    assert forall|b: int| 0 <= b < after.bodies.len() implies scoped(
        after,
        (#[trigger] after.bodies[b]).function,
        after.bodies[b].instructions,
    ) && after.bodies[b].function < st.signatures.len() by {
        if b < closed.bodies.len() {
            assert(after.bodies[b] == closed.bodies[b]);
            lemma_scope_grows(
                closed,
                after,
                closed.bodies[b].function,
                closed.bodies[b].instructions,
            );
        } else {
            lemma_scope_grows(closed, after, closed.function, closed.body);
        }
    }
}

/// The start of a statement keeps the invariant.
pub proof fn lemma_open_block_in_scope(st: State)
    requires
        unit_scoped(st),
    ensures
        unit_scoped(open_block(st)),
{
    broadcast use lemma_emit_in_scope;

}

/// Statements keep the invariant.
pub proof fn lemma_lower_statement_in_scope(st: State, node: NodeView)
    requires
        unit_scoped(st),
    ensures
        unit_grows(st, lower_statement(st, node).0),
        lower_statement(st, node).1 is Ok ==> unit_scoped(lower_statement(st, node).0)
            && lower_statement(st, node).0.function == st.function && lower_statement(
            st,
            node,
        ).0.entry == st.entry,
    decreases node,
{
    broadcast use lemma_emit_in_scope;

    let st0 = open_block(st);
    assert(unit_scoped(st0));
    match node {
        NodeView::Assignment { name, value } => {
            lemma_expression_between_statements(st0, *value);
            let (st1, lowered) = lower_expression(st0, *value, false);
            if let Ok(found) = lowered {
                lemma_bind_in_scope(st1, name, found.operand, found.kind);
            }
        },
        NodeView::ExpressionStatement { expression } => {
            lemma_expression_between_statements(st0, *expression);
        },
        NodeView::Function { name, parameters, body } => {
            let index = st0.signatures.len();
            let inner = State {
                signatures: st0.signatures.push(
                    SignatureView { name, parameters: parameters.len(), entry: false },
                ),
                body: seq![
                    Instruction::Label { label: crate::codegen::ir::BlockLabel::Entry },
                ],
                function: index,
                entry: false,
                variables: Seq::empty(),
                ..st0
            };
            assert(unit_grows(st0, inner));
            lemma_bodies_grow_with_unit(st0, inner);
            assert(unit_scoped(inner));
            lemma_bind_parameters_in_scope(inner, parameters, 0);
            let bound_state = bind_parameters(inner, parameters, 0);
            lemma_lower_statement_in_scope(bound_state, *body);
            let (lowered, result) = lower_statement(bound_state, *body);
            if result is Ok {
                lemma_finish_body_in_scope(lowered);
                let finished = finish_body(lowered);
                let after = lower_statement(st, node).0;
                assert(unit_grows(st0, after));
                lemma_scope_grows_with_unit(st0, after, st0.function, st0.body);
                assert forall|b: int| 0 <= b < after.bodies.len() implies scoped(
                    after,
                    (#[trigger] after.bodies[b]).function,
                    after.bodies[b].instructions,
                ) by {
                    assert(after.bodies[b] == finished.bodies[b]);
                    lemma_scope_grows(
                        finished,
                        after,
                        finished.bodies[b].function,
                        finished.bodies[b].instructions,
                    );
                }
            }
        },
        NodeView::Return { value } => {
            lemma_lower_return_in_scope(st0, value);
        },
        _ => {},
    }
}

pub proof fn lemma_lower_statements_in_scope(st: State, statements: Seq<NodeView>, from: nat)
    requires
        unit_scoped(st),
    ensures
        lower_statements(st, statements, from).1 is Ok ==> unit_scoped(
            lower_statements(st, statements, from).0,
        ),
    decreases statements.len() - from,
{
    if from < statements.len() {
        lemma_lower_statement_in_scope(st, statements[from as int]);
        let (st1, lowered) = lower_statement(st, statements[from as int]);
        if lowered is Ok {
            lemma_lower_statements_in_scope(st1, statements, from + 1);
        }
    }
}

/// Every instruction reads what was made before it. In every function body
/// of every unit that lowering gives, an instruction reads only constants
/// of the unit, parameters of its function and what earlier instructions of
/// the body gave, and calls only functions that the unit holds or declares.
pub proof fn lemma_unit_is_scoped(program: NodeView)
    ensures
        lower_program(program) matches Ok(unit) ==> forall|b: int|
            0 <= b < unit.bodies.len() ==> scoped(
                unit,
                (#[trigger] unit.bodies[b]).function,
                unit.bodies[b].instructions,
            ) && unit.bodies[b].function < unit.signatures.len(),
{
    match program {
        NodeView::Program { statements } => {
            let start = entry_state();
            assert(unit_scoped(start));
            lemma_lower_statements_in_scope(start, statements, 0);
            let (st, lowered) = lower_statements(start, statements, 0);
            if lowered is Ok {
                lemma_finish_body_in_scope(st);
            }
        },
        _ => {},
    }
}

} // verus!
