//! The call invariant of the intermediate representation: a call takes
//! exactly the arguments that were handed over just before it, and no
//! argument is handed over to anything but a call.

use crate::ast::node::{BinaryOperator, FStringPartView, LiteralView, NodeView, UnaryOperator};
use crate::codegen::ir::{BlockLabel, Callee, External, Instruction, Operand, ValueKind};
use crate::codegen::rules::{
    add_text, bind, bind_parameters, call_external, close_body, concatenate, declare, emit,
    emit_arguments, entry_state, escape_percent, find_function, finish_body,
    float_floor_divide, float_modulo, float_power, format_specifier, function_call,
    int_correction, int_divide, int_floor_divide, int_modulo, int_power, lower_arguments,
    lower_binary, lower_expression, lower_program, lower_return, lower_segments,
    lower_statement, lower_statements, lower_template, lower_unary, open_block, operands,
    print_call, print_float, print_text, print_value, print_values, shown, SignatureView,
    State, Value,
};
use crate::codegen::types::{
    fits, lemma_bind_parameters_shape, lemma_call_external_shape, lemma_emit_arguments_shape,
    lemma_emit_shape, lemma_function_call_shape, lemma_int_correction_shape,
    lemma_lower_arguments_shape, lemma_lower_binary_shape, lemma_lower_expression_shape,
    lemma_lower_segments_shape, lemma_lower_statement_shape, lemma_lower_unary_shape,
    lemma_print_call_shape, lemma_print_float_shape, lemma_print_text_shape, lemma_print_values_shape, lemma_shown_shape,
    lemma_statements_shape, unit_fits,
};
use crate::codegen::rules::embedded_expression;
use vstd::prelude::*;

verus! {

/// The number of arguments that stand at the end of a list of instructions,
/// handed over and not yet taken.
pub open spec fn pending(body: Seq<Instruction>) -> nat
    decreases body.len(),
{
    if body.len() == 0 {
        0
    } else if body.last() is Argument {
        pending(body.drop_last()) + 1
    } else {
        0
    }
}

/// The instruction at index `j` finds the arguments that it takes: a call
/// as many as it says, an argument any number, and anything else none.
pub open spec fn fed_at(body: Seq<Instruction>, j: int) -> bool {
    match body[j] {
        Instruction::Call { arguments, .. } => pending(body.subrange(0, j)) == arguments,
        Instruction::Argument { .. } => true,
        _ => pending(body.subrange(0, j)) == 0,
    }
}

/// Every call of the body is fed, and no argument is left over at its end.
pub open spec fn calls_fed(body: Seq<Instruction>) -> bool {
    &&& pending(body) == 0
    &&& forall|j: int| 0 <= j < body.len() ==> #[trigger] fed_at(body, j)
}

/// An instruction that neither hands over an argument nor takes any.
pub open spec fn calm(instruction: Instruction) -> bool {
    !(instruction is Argument) && !(instruction is Call)
}

/// Arguments are being handed over: the calls so far are fed, and `count`
/// arguments stand at the end.
pub open spec fn handing(body: Seq<Instruction>, count: nat) -> bool {
    &&& pending(body) == count
    &&& forall|j: int| 0 <= j < body.len() ==> #[trigger] fed_at(body, j)
}

/// What one more instruction does to the arguments at the end.
pub broadcast proof fn lemma_pending_push(body: Seq<Instruction>, instruction: Instruction)
    ensures
        #[trigger] pending(body.push(instruction)) == if instruction is Argument {
            pending(body) + 1
        } else {
            0
        },
{
    assert(body.push(instruction).drop_last() =~= body);
}

/// One more instruction keeps the calls fed, where it finds what it takes.
pub proof fn lemma_emit_handing(st: State, instruction: Instruction, count: nat)
    requires
        handing(st.body, count),
        instruction matches Instruction::Call { arguments, .. } ==> arguments == count,
        calm(instruction) ==> count == 0,
    ensures
        handing(
            emit(st, instruction).body,
            if instruction is Argument {
                count + 1
            } else {
                0
            },
        ),
{
    broadcast use lemma_pending_push;

    let after = st.body.push(instruction);
    assert forall|j: int| 0 <= j < after.len() implies #[trigger] fed_at(after, j) by {
        if j < st.body.len() {
            assert(after.subrange(0, j) =~= st.body.subrange(0, j));
            assert(fed_at(st.body, j));
        } else {
            assert(after.subrange(0, j) =~= st.body);
        }
    }
}

/// A calm instruction keeps the calls fed.
pub broadcast proof fn lemma_emit_fed(st: State, instruction: Instruction)
    requires
        calls_fed(st.body),
        calm(instruction),
    ensures
        #![trigger emit(st, instruction)]
        calls_fed(emit(st, instruction).body),
{
    lemma_emit_handing(st, instruction, 0);
}

/// Arguments that are handed over stand at the end, all of them.
pub proof fn lemma_emit_arguments_handing(st: State, values: Seq<Operand>, count: nat)
    requires
        handing(st.body, count),
    ensures
        handing(emit_arguments(st, values).body, count + values.len()),
    decreases values.len(),
{
    if values.len() > 0 {
        let first = Instruction::Argument { value: values[0] };
        lemma_emit_handing(st, first, count);
        lemma_emit_arguments_handing(
            emit(st, first),
            values.subrange(1, values.len() as int),
            count + 1,
        );
    }
}

/// A call of a C library function keeps the calls fed.
pub broadcast proof fn lemma_call_external_fed(st: State, external: External, values: Seq<Operand>)
    requires
        calls_fed(st.body),
    ensures
        #![trigger call_external(st, external, values)]
        fits(call_external(st, external, values).0) ==> calls_fed(
            call_external(st, external, values).0.body,
        ),
{
    reveal(call_external);
    broadcast use lemma_emit_shape, lemma_emit_arguments_shape;

    let declared = declare(st, external);
    let handed = emit_arguments(declared, values);
    let call = Instruction::Call {
        callee: Callee::External(external),
        arguments: values.len() as usize,
    };
    if fits(emit(handed, call)) {
        lemma_emit_arguments_handing(declared, values, 0);
        lemma_arguments_fit(declared, values);
        lemma_emit_handing(handed, call, values.len());
    }
}

/// As many instructions are added as arguments are handed over.
pub proof fn lemma_arguments_fit(st: State, values: Seq<Operand>)
    ensures
        emit_arguments(st, values).body.len() == st.body.len() + values.len(),
    decreases values.len(),
{
    if values.len() > 0 {
        lemma_arguments_fit(
            emit(st, Instruction::Argument { value: values[0] }),
            values.subrange(1, values.len() as int),
        );
    }
}

/// A call of a function of the unit keeps the calls fed.
pub proof fn lemma_function_call_fed(st: State, function: nat, values: Seq<Value>)
    requires
        calls_fed(st.body),
    ensures
        fits(function_call(st, function, values).0) ==> calls_fed(
            function_call(st, function, values).0.body,
        ),
{
    reveal(function_call);
    broadcast use lemma_emit_shape, lemma_emit_arguments_shape;

    let handed = operands(values);
    let call = Instruction::Call {
        callee: Callee::Function(function as usize),
        arguments: values.len() as usize,
    };
    if fits(emit(emit_arguments(st, handed), call)) {
        lemma_emit_arguments_handing(st, handed, 0);
        lemma_arguments_fit(st, handed);
        lemma_emit_handing(emit_arguments(st, handed), call, handed.len());
    }
}

pub broadcast proof fn lemma_int_correction_fed(st: State, remainder: Operand, right: Operand, step: Operand)
    requires
        calls_fed(st.body),
    ensures
        #![trigger int_correction(st, remainder, right, step)]
        fits(int_correction(st, remainder, right, step).0) ==> calls_fed(int_correction(st, remainder, right, step).0.body),
{
    reveal(int_correction);
    broadcast use lemma_emit_fed, lemma_emit_shape;

}

pub broadcast proof fn lemma_concatenate_fed(st: State, left: Operand, right: Operand)
    requires
        calls_fed(st.body),
    ensures
        #![trigger concatenate(st, left, right)]
        fits(concatenate(st, left, right).0) ==> calls_fed(concatenate(st, left, right).0.body),
{
    reveal(concatenate);
    broadcast use lemma_emit_fed, lemma_emit_shape, lemma_call_external_fed, lemma_call_external_shape;

}

pub broadcast proof fn lemma_int_modulo_fed(st: State, left: Operand, right: Operand)
    requires
        calls_fed(st.body),
    ensures
        #![trigger int_modulo(st, left, right)]
        fits(int_modulo(st, left, right).0) ==> calls_fed(int_modulo(st, left, right).0.body),
{
    reveal(int_modulo);
    broadcast use lemma_emit_fed, lemma_emit_shape, lemma_int_correction_fed, lemma_int_correction_shape;

}

pub broadcast proof fn lemma_int_floor_divide_fed(st: State, left: Operand, right: Operand)
    requires
        calls_fed(st.body),
    ensures
        #![trigger int_floor_divide(st, left, right)]
        fits(int_floor_divide(st, left, right).0) ==> calls_fed(int_floor_divide(st, left, right).0.body),
{
    reveal(int_floor_divide);
    broadcast use lemma_emit_fed, lemma_emit_shape, lemma_int_correction_fed, lemma_int_correction_shape;

}

pub broadcast proof fn lemma_float_modulo_fed(st: State, left: Operand, right: Operand)
    requires
        calls_fed(st.body),
    ensures
        #![trigger float_modulo(st, left, right)]
        fits(float_modulo(st, left, right).0) ==> calls_fed(float_modulo(st, left, right).0.body),
{
    reveal(float_modulo);
    broadcast use lemma_emit_fed, lemma_emit_shape;

}

pub broadcast proof fn lemma_float_floor_divide_fed(st: State, left: Operand, right: Operand)
    requires
        calls_fed(st.body),
    ensures
        #![trigger float_floor_divide(st, left, right)]
        fits(float_floor_divide(st, left, right).0) ==> calls_fed(float_floor_divide(st, left, right).0.body),
{
    reveal(float_floor_divide);
    broadcast use lemma_emit_fed, lemma_emit_shape, lemma_call_external_fed, lemma_call_external_shape;

}

pub broadcast proof fn lemma_int_power_fed(st: State, left: Operand, right: Operand)
    requires
        calls_fed(st.body),
    ensures
        #![trigger int_power(st, left, right)]
        fits(int_power(st, left, right).0) ==> calls_fed(int_power(st, left, right).0.body),
{
    reveal(int_power);
    broadcast use lemma_emit_fed, lemma_emit_shape;

}

pub broadcast proof fn lemma_float_power_fed(st: State, left: Operand, right: Operand)
    requires
        calls_fed(st.body),
    ensures
        #![trigger float_power(st, left, right)]
        fits(float_power(st, left, right).0) ==> calls_fed(float_power(st, left, right).0.body),
{
    reveal(float_power);
    broadcast use lemma_emit_fed, lemma_emit_shape, lemma_call_external_fed, lemma_call_external_shape;

}

pub broadcast proof fn lemma_int_divide_fed(st: State, left: Operand, right: Operand)
    requires
        calls_fed(st.body),
    ensures
        #![trigger int_divide(st, left, right)]
        fits(int_divide(st, left, right).0) ==> calls_fed(int_divide(st, left, right).0.body),
{
    reveal(int_divide);
    broadcast use lemma_emit_fed, lemma_emit_shape;

}

pub broadcast proof fn lemma_lower_binary_fed(st: State, operator: BinaryOperator, left: Value, right: Value)
    requires
        calls_fed(st.body),
    ensures
        #![trigger lower_binary(st, operator, left, right)]
        fits(lower_binary(st, operator, left, right).0) ==> calls_fed(lower_binary(st, operator, left, right).0.body),
{
    reveal(lower_binary);
    broadcast use lemma_emit_fed, lemma_emit_shape, lemma_concatenate_fed, lemma_int_modulo_fed, lemma_int_floor_divide_fed, lemma_float_modulo_fed, lemma_float_floor_divide_fed, lemma_int_power_fed, lemma_float_power_fed, lemma_int_divide_fed;

}

pub broadcast proof fn lemma_lower_unary_fed(st: State, operator: UnaryOperator, operand: Value)
    requires
        calls_fed(st.body),
    ensures
        #![trigger lower_unary(st, operator, operand)]
        fits(lower_unary(st, operator, operand).0) ==> calls_fed(lower_unary(st, operator, operand).0.body),
{
    reveal(lower_unary);
    broadcast use lemma_emit_fed, lemma_emit_shape;

}

pub broadcast proof fn lemma_print_text_fed(st: State, format: Seq<char>, value: Option<Operand>)
    requires
        calls_fed(st.body),
    ensures
        #![trigger print_text(st, format, value)]
        fits(print_text(st, format, value)) ==> calls_fed(print_text(st, format, value).body),
{
    reveal(print_text);
    broadcast use lemma_emit_fed, lemma_emit_shape, lemma_call_external_fed, lemma_call_external_shape;

}

pub broadcast proof fn lemma_shown_fed(st: State, value: Value)
    requires
        calls_fed(st.body),
    ensures
        #![trigger shown(st, value)]
        fits(shown(st, value).0) ==> calls_fed(shown(st, value).0.body),
{
    reveal(shown);
    broadcast use lemma_emit_fed, lemma_emit_shape;

}

pub broadcast proof fn lemma_print_float_fed(st: State, value: Operand, end: Seq<char>)
    requires
        calls_fed(st.body),
    ensures
        #![trigger print_float(st, value, end)]
        fits(print_float(st, value, end)) ==> calls_fed(print_float(st, value, end).body),
{
    reveal(print_float);
    broadcast use lemma_emit_fed, lemma_emit_shape, lemma_print_text_fed, lemma_print_text_shape;

}

pub broadcast proof fn lemma_print_value_fed(st: State, value: Value, end: Seq<char>)
    requires
        calls_fed(st.body),
    ensures
        #![trigger print_value(st, value, end)]
        fits(print_value(st, value, end)) ==> calls_fed(print_value(st, value, end).body),
{
    reveal(print_value);
    broadcast use lemma_print_text_shape, lemma_print_float_shape, lemma_shown_shape;

    let (st1, written) = shown(st, value);
    if fits(print_value(st, value, end)) {
        lemma_shown_fed(st, value);
        match written.kind {
            ValueKind::Int => lemma_print_text_fed(st1, "%ld"@ + end, Some(written.operand)),
            ValueKind::Float => lemma_print_float_fed(st1, written.operand, end),
            _ => lemma_print_text_fed(st1, "%s"@ + end, Some(written.operand)),
        }
    }

}

pub proof fn lemma_print_values_fed(st: State, values: Seq<Value>, from: nat)
    requires
        calls_fed(st.body),
    ensures
        fits(print_values(st, values, from)) ==> calls_fed(print_values(st, values, from).body),
    decreases values.len() - from,
{
    if from < values.len() && fits(print_values(st, values, from)) {
        let end = if from + 1 == values.len() {
            "\n"@
        } else {
            " "@
        };
        let st1 = print_value(st, values[from as int], end);
        lemma_print_values_shape(st1, values, from + 1);
        lemma_print_value_fed(st, values[from as int], end);
        lemma_print_values_fed(st1, values, from + 1);
    }
}

pub proof fn lemma_print_call_fed(st: State, values: Seq<Value>)
    requires
        calls_fed(st.body),
    ensures
        fits(print_call(st, values).0) ==> calls_fed(print_call(st, values).0.body),
{
    reveal(print_call);
    broadcast use lemma_print_text_fed;

    lemma_print_values_fed(st, values, 0);
}

/// Expressions keep the calls fed.
pub proof fn lemma_lower_expression_fed(st: State, node: NodeView, embedded: bool)
    requires
        calls_fed(st.body),
    ensures
        fits(lower_expression(st, node, embedded).0) ==> calls_fed(
            lower_expression(st, node, embedded).0.body,
        ),
    decreases
            if embedded {
                0nat
            } else {
                3nat
            },
            node,
{
    broadcast use
        lemma_emit_fed,
        lemma_emit_shape,
        lemma_lower_unary_fed,
        lemma_lower_unary_shape,
        lemma_lower_binary_fed,
        lemma_lower_binary_shape,
    ;

    if fits(lower_expression(st, node, embedded).0) {
        match node {
            NodeView::Literal { value } => match value {
                LiteralView::FString(parts) => if !embedded {
                    reveal_with_fuel(lower_template, 1);
                    lemma_lower_template_fed(st, parts);
                },
                _ => {},
            },
            NodeView::Unary { operator, operand } => {
                lemma_lower_expression_shape(st, *operand, embedded);
                lemma_lower_expression_fed(st, *operand, embedded);
            },
            NodeView::Binary { left, operator, right } => {
                let (st1, first) = lower_expression(st, *left, embedded);
                lemma_lower_expression_shape(st, *left, embedded);
                if first is Ok {
                    lemma_lower_expression_shape(st1, *right, embedded);
                }
                lemma_lower_expression_fed(st, *left, embedded);
                if first is Ok {
                    lemma_lower_expression_fed(st1, *right, embedded);
                }
            },
            NodeView::Call { callee, arguments } => {
                let (st1, lowered) = lower_arguments(st, arguments, 0, Seq::empty(), embedded);
                lemma_lower_arguments_shape(st, arguments, 0, Seq::empty(), embedded);
                if let Ok(values) = lowered {
                    lemma_print_call_shape(st1, values);
                    if let Some(index) = find_function(st.signatures, callee, 0) {
                        lemma_function_call_shape(st1, index, values);
                    }
                }
                if find_function(st.signatures, callee, 0) is Some || callee == "print"@ {
                    lemma_lower_arguments_fed(st, arguments, 0, Seq::empty(), embedded);
                    if let Ok(values) = lowered {
                        if let Some(index) = find_function(st.signatures, callee, 0) {
                            lemma_function_call_fed(st1, index, values);
                        } else {
                            lemma_print_call_fed(st1, values);
                        }
                    }
                }
            },
            _ => {},
        }
    }
}

pub proof fn lemma_lower_arguments_fed(
    st: State,
    arguments: Seq<NodeView>,
    from: nat,
    values: Seq<Value>,
    embedded: bool,
)
    requires
        calls_fed(st.body),
    ensures
        fits(lower_arguments(st, arguments, from, values, embedded).0) ==> calls_fed(
            lower_arguments(st, arguments, from, values, embedded).0.body,
        ),
    decreases
            if embedded {
                0nat
            } else {
                3nat
            },
            arguments,
            arguments.len() - from,
{
    if from < arguments.len() && fits(lower_arguments(st, arguments, from, values, embedded).0) {
        let (st1, lowered) = lower_expression(st, arguments[from as int], embedded);
        lemma_lower_expression_shape(st, arguments[from as int], embedded);
        if let Ok(value) = lowered {
            lemma_lower_arguments_shape(st1, arguments, from + 1, values.push(value), embedded);
            lemma_lower_expression_fed(st, arguments[from as int], embedded);
            lemma_lower_arguments_fed(st1, arguments, from + 1, values.push(value), embedded);
        } else {
            lemma_lower_expression_fed(st, arguments[from as int], embedded);
        }
    }
}

pub proof fn lemma_lower_segments_fed(
    st: State,
    parts: Seq<FStringPartView>,
    format: Seq<char>,
    values: Seq<Operand>,
)
    requires
        calls_fed(st.body),
    ensures
        fits(lower_segments(st, parts, format, values).0) ==> calls_fed(
            lower_segments(st, parts, format, values).0.body,
        ),
    decreases 1nat, parts,
{
    if parts.len() > 0 && fits(lower_segments(st, parts, format, values).0) {
        let later = parts.subrange(1, parts.len() as int);
        match parts[0] {
            FStringPartView::Literal(text) => {
                lemma_lower_segments_fed(st, later, format + escape_percent(text), values);
            },
            FStringPartView::Expression(text) => match embedded_expression(text) {
                None => {
                    let (st1, operand) = add_text(st, text);
                    lemma_lower_segments_fed(st1, later, format + "%s"@, values.push(operand));
                },
                Some(node) => {
                    let (st0, lowered) = lower_expression(st, node, true);
                    lemma_lower_expression_shape(st, node, true);
                    if let Ok(found) = lowered {
                        lemma_shown_shape(st0, found);
                        let (st1, value) = shown(st0, found);
                        lemma_lower_segments_shape(
                            st1,
                            later,
                            format + format_specifier(value.kind),
                            values.push(value.operand),
                        );
                        lemma_lower_expression_fed(st, node, true);
                        lemma_shown_fed(st0, found);
                        lemma_lower_segments_fed(
                            st1,
                            later,
                            format + format_specifier(value.kind),
                            values.push(value.operand),
                        );
                    } else {
                        lemma_lower_expression_fed(st, node, true);
                    }
                },
            },
        }
    }
}

pub proof fn lemma_lower_template_fed(st: State, parts: Seq<FStringPartView>)
    requires
        calls_fed(st.body),
    ensures
        fits(lower_template(st, parts).0) ==> calls_fed(lower_template(st, parts).0.body),
    decreases 2nat, parts,
{
    reveal_with_fuel(lower_template, 1);
    broadcast use lemma_emit_fed, lemma_emit_shape, lemma_call_external_fed, lemma_call_external_shape;

    if fits(lower_template(st, parts).0) {
        lemma_lower_segments_shape(st, parts, Seq::empty(), Seq::empty());
        lemma_lower_segments_fed(st, parts, Seq::empty(), Seq::empty());
    }
}

/// The finished bodies have their calls fed.
pub open spec fn bodies_fed(st: State) -> bool {
    forall|b: int| 0 <= b < st.bodies.len() ==> calls_fed((#[trigger] st.bodies[b]).instructions)
}

/// The call invariant between two statements.
pub open spec fn unit_fed(st: State) -> bool {
    calls_fed(st.body) && bodies_fed(st)
}

/// The end of a function keeps the call invariant of its body.
pub proof fn lemma_finish_body_fed(st: State)
    requires
        unit_fed(st),
    ensures
        bodies_fed(finish_body(st)),
{
    broadcast use lemma_emit_fed;

    let after = finish_body(st);
    assert forall|b: int| 0 <= b < after.bodies.len() implies calls_fed(
        (#[trigger] after.bodies[b]).instructions,
    ) by {
        if b < st.bodies.len() {
            assert(after.bodies[b] == st.bodies[b]);
        }
    }
}

pub proof fn lemma_bind_parameters_fed(st: State, parameters: Seq<Seq<char>>, from: nat)
    requires
        calls_fed(st.body),
    ensures
        calls_fed(bind_parameters(st, parameters, from).body),
    decreases parameters.len() - from,
{
    reveal(bind);
    broadcast use lemma_emit_fed;

    if from < parameters.len() {
        lemma_bind_parameters_fed(
            bind(
                st,
                parameters[from as int],
                Operand::Parameter(from as usize),
                ValueKind::Int,
            ),
            parameters,
            from + 1,
        );
    }
}

/// Statements keep the call invariant.
pub proof fn lemma_lower_statement_fed(st: State, node: NodeView)
    requires
        unit_fed(st),
    ensures
        lower_statement(st, node).1 is Ok && unit_fits(lower_statement(st, node).0) ==> unit_fed(
            lower_statement(st, node).0,
        ),
    decreases node,
{
    reveal(bind);
    reveal(lower_return);
    broadcast use lemma_emit_fed, lemma_emit_shape;

    let (after, result) = lower_statement(st, node);
    lemma_lower_statement_shape(st, node);
    if result is Ok && unit_fits(after) {
        let st0 = open_block(st);
        match node {
            NodeView::Assignment { name, value } => {
                lemma_lower_expression_shape(st0, *value, false);
                lemma_lower_expression_fed(st0, *value, false);
            },
            NodeView::ExpressionStatement { expression } => {
                lemma_lower_expression_shape(st0, *expression, false);
                lemma_lower_expression_fed(st0, *expression, false);
            },
            NodeView::Function { name, parameters, body } => {
                let inner = State {
                    signatures: st0.signatures.push(
                        SignatureView { name, parameters: parameters.len(), entry: false },
                    ),
                    body: seq![Instruction::Label { label: BlockLabel::Entry }],
                    function: st0.signatures.len(),
                    entry: false,
                    variables: Seq::empty(),
                    ..st0
                };
                assert(calls_fed(inner.body)) by {
                    reveal_with_fuel(pending, 2);
                    assert(inner.body.subrange(0, 0) =~= Seq::<Instruction>::empty());
                    assert(fed_at(inner.body, 0));
                }
                let bound = bind_parameters(inner, parameters, 0);
                lemma_bind_parameters_shape(inner, parameters, 0);
                lemma_bind_parameters_fed(inner, parameters, 0);
                let (lowered, inner_result) = lower_statement(bound, *body);
                lemma_lower_statement_shape(bound, *body);
                let finished = finish_body(lowered);
                assert(after.bodies == finished.bodies);
                assert(finished.bodies.last().instructions == close_body(lowered).body);
                assert(after.bodies[after.bodies.len() - 1].instructions.len() <= usize::MAX);
                assert(unit_fits(lowered)) by {
                    assert forall|b: int| 0 <= b < lowered.bodies.len() implies (
                    #[trigger] lowered.bodies[b]).instructions.len() <= usize::MAX by {
                        assert(after.bodies[b] == lowered.bodies[b]);
                    }
                }
                lemma_lower_statement_fed(bound, *body);
                lemma_finish_body_fed(lowered);
            },
            NodeView::Return { value } => {
                if let Some(found) = value {
                    lemma_lower_expression_shape(st0, *found, false);
                    lemma_lower_expression_fed(st0, *found, false);
                }
            },
            _ => {},
        }
    }
}

pub proof fn lemma_lower_statements_fed(st: State, statements: Seq<NodeView>, from: nat)
    requires
        unit_fed(st),
    ensures
        lower_statements(st, statements, from).1 is Ok && unit_fits(
            lower_statements(st, statements, from).0,
        ) ==> unit_fed(lower_statements(st, statements, from).0),
    decreases statements.len() - from,
{
    if from < statements.len() {
        let (st1, lowered) = lower_statement(st, statements[from as int]);
        lemma_lower_statement_shape(st, statements[from as int]);
        if lowered is Ok {
            let (last, result) = lower_statements(st1, statements, from + 1);
            if result is Ok && unit_fits(last) {
                lemma_statements_shape(st1, statements, from + 1);
                assert(unit_fits(st1)) by {
                    assert forall|b: int| 0 <= b < st1.bodies.len() implies (
                    #[trigger] st1.bodies[b]).instructions.len() <= usize::MAX by {
                        assert(last.bodies[b] == st1.bodies[b]);
                    }
                }
                lemma_lower_statement_fed(st, statements[from as int]);
                lemma_lower_statements_fed(st1, statements, from + 1);
            }
        }
    }
}

/// Every call takes the arguments that were handed over to it. In every
/// function body of every unit that lowering gives, as long as the bodies
/// fit the indices of the machine, the arguments of a call stand directly
/// before it, as many as it takes, and nothing else is handed an argument.
pub proof fn lemma_calls_are_fed(program: NodeView)
    ensures
        lower_program(program) matches Ok(unit) ==> (unit_fits(unit) ==> forall|b: int|
            0 <= b < unit.bodies.len() ==> calls_fed((#[trigger] unit.bodies[b]).instructions)),
{
    match program {
        NodeView::Program { statements } => {
            let start = entry_state();
            assert(calls_fed(start.body)) by {
                reveal_with_fuel(pending, 2);
                assert(start.body.subrange(0, 0) =~= Seq::<Instruction>::empty());
                assert(fed_at(start.body, 0));
            }
            assert(bodies_fed(start));
            let (st, lowered) = lower_statements(start, statements, 0);
            if lowered is Ok && unit_fits(finish_body(st)) {
                lemma_statements_shape(start, statements, 0);
                let unit = finish_body(st);
                assert(unit.bodies.last().instructions == close_body(st).body);
                assert(unit.bodies[unit.bodies.len() - 1].instructions.len() <= usize::MAX);
                assert(unit_fits(st)) by {
                    assert forall|b: int| 0 <= b < st.bodies.len() implies (
                    #[trigger] st.bodies[b]).instructions.len() <= usize::MAX by {
                        assert(unit.bodies[b] == st.bodies[b]);
                    }
                }
                lemma_lower_statements_fed(start, statements, 0);
                lemma_finish_body_fed(st);
            }
        },
        _ => {},
    }
}

} // verus!
