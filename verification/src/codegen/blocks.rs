//! The block invariant of the intermediate representation: every basic
//! block of every function that lowering makes ends in exactly one
//! terminator.

use crate::ast::node::{BinaryOperator, FStringPartView, LiteralView, NodeView, UnaryOperator};
use crate::codegen::ir::{blocks_closed, terminator, Instruction};
use crate::codegen::rules::{
    add_text, bind, bind_parameters, block, call_external, close_body, concatenate, emit,
    emit_arguments, entry_state, finish_body, float_floor_divide, float_modulo, float_power,
    function_call, int_divide, int_floor_divide, int_modulo, int_power, lower_arguments,
    lower_binary, lower_expression, lower_program, lower_return, lower_segments, lower_statement,
    lower_statements, lower_template, lower_unary, open_block, print_call, print_float,
    print_text, print_value, print_values, shown, State, Value,
};
use crate::codegen::rules::embedded_expression;
use vstd::prelude::*;

verus! {

/// The blocks so far are in order: the list starts with a label, and up to
/// the last instruction a terminator stands exactly where a label follows.
pub open spec fn in_order(body: Seq<Instruction>) -> bool {
    &&& body.len() > 0
    &&& body[0] is Label
    &&& forall|i: int|
        0 <= i < body.len() - 1 ==> (terminator(#[trigger] body[i]) <==> body[i + 1] is Label)
}

/// The last block is open: it can take one more instruction.
pub open spec fn opened(body: Seq<Instruction>) -> bool {
    in_order(body) && !terminator(body.last())
}

/// Every finished body of the unit has its blocks closed.
pub open spec fn bodies_closed(st: State) -> bool {
    forall|b: int| 0 <= b < st.bodies.len() ==> blocks_closed((#[trigger] st.bodies[b]).instructions)
}

/// The state between two instructions of a block.
pub open spec fn sound(st: State) -> bool {
    opened(st.body) && bodies_closed(st)
}

/// The state between two statements: the last block may be closed.
pub open spec fn settled(st: State) -> bool {
    in_order(st.body) && bodies_closed(st)
}

/// An instruction that neither starts nor ends a block.
pub open spec fn plain(instruction: Instruction) -> bool {
    !terminator(instruction) && !(instruction is Label)
}

/// One more instruction keeps the blocks in order: a plain one keeps the
/// block open, a terminator closes it, and a label opens the next.
pub broadcast proof fn lemma_emit(st: State, instruction: Instruction)
    ensures
        #![trigger emit(st, instruction)]
        emit(st, instruction).bodies == st.bodies,
        emit(st, instruction).entry == st.entry,
        opened(st.body) && plain(instruction) ==> opened(emit(st, instruction).body),
        opened(st.body) && terminator(instruction) ==> in_order(emit(st, instruction).body)
            && terminator(emit(st, instruction).body.last()),
        in_order(st.body) && terminator(st.body.last()) && instruction is Label ==> opened(
            emit(st, instruction).body,
        ),
{
    let body = st.body;
    let next = body.push(instruction);
    if in_order(body) && (terminator(body.last()) <==> instruction is Label) {
        assert forall|i: int| 0 <= i < next.len() - 1 implies (terminator(#[trigger] next[i])
            <==> next[i + 1] is Label) by {
            assert(next[i] == body[i]);
            if i < body.len() - 1 {
                assert(next[i + 1] == body[i + 1]);
            } else {
                assert(next[i + 1] == instruction);
            }
        }
        assert(in_order(next));
    }
}

pub broadcast proof fn lemma_emit_arguments(st: State, values: Seq<crate::codegen::ir::Operand>)
    requires
        opened(st.body),
    ensures
        #![trigger emit_arguments(st, values)]
        opened(emit_arguments(st, values).body),
        emit_arguments(st, values).bodies == st.bodies,
        emit_arguments(st, values).entry == st.entry,
    decreases values.len(),
{
    if values.len() > 0 {
        lemma_emit(st, Instruction::Argument { value: values[0] });
        lemma_emit_arguments(
            emit(st, Instruction::Argument { value: values[0] }),
            values.subrange(1, values.len() as int),
        );
    }
}

pub broadcast proof fn lemma_call_external(
    st: State,
    external: crate::codegen::ir::External,
    values: Seq<crate::codegen::ir::Operand>,
)
    requires
        opened(st.body),
    ensures
        #![trigger call_external(st, external, values)]
        opened(call_external(st, external, values).0.body),
        call_external(st, external, values).0.bodies == st.bodies,
        call_external(st, external, values).0.entry == st.entry,
{
    reveal(call_external);
    broadcast use lemma_emit, lemma_emit_arguments;

}

pub broadcast proof fn lemma_concatenate(
    st: State,
    left: crate::codegen::ir::Operand,
    right: crate::codegen::ir::Operand,
)
    requires
        opened(st.body),
    ensures
        #![trigger concatenate(st, left, right)]
        opened(concatenate(st, left, right).0.body),
        concatenate(st, left, right).0.bodies == st.bodies,
        concatenate(st, left, right).0.entry == st.entry,
{
    reveal(concatenate);
    broadcast use lemma_emit, lemma_call_external;

}

pub broadcast proof fn lemma_int_modulo(
    st: State,
    left: crate::codegen::ir::Operand,
    right: crate::codegen::ir::Operand,
)
    requires
        opened(st.body),
    ensures
        #![trigger int_modulo(st, left, right)]
        opened(int_modulo(st, left, right).0.body),
        int_modulo(st, left, right).0.bodies == st.bodies,
        int_modulo(st, left, right).0.entry == st.entry,
{
    reveal(int_modulo);
    broadcast use lemma_emit, lemma_int_correction;

}

pub broadcast proof fn lemma_int_correction(
    st: State,
    remainder: crate::codegen::ir::Operand,
    right: crate::codegen::ir::Operand,
    step: crate::codegen::ir::Operand,
)
    requires
        opened(st.body),
    ensures
        #![trigger crate::codegen::rules::int_correction(st, remainder, right, step)]
        opened(crate::codegen::rules::int_correction(st, remainder, right, step).0.body),
        crate::codegen::rules::int_correction(st, remainder, right, step).0.bodies == st.bodies,
        crate::codegen::rules::int_correction(st, remainder, right, step).0.entry == st.entry,
{
    reveal(crate::codegen::rules::int_correction);
    broadcast use lemma_emit;

}

pub broadcast proof fn lemma_int_floor_divide(
    st: State,
    left: crate::codegen::ir::Operand,
    right: crate::codegen::ir::Operand,
)
    requires
        opened(st.body),
    ensures
        #![trigger int_floor_divide(st, left, right)]
        opened(int_floor_divide(st, left, right).0.body),
        int_floor_divide(st, left, right).0.bodies == st.bodies,
        int_floor_divide(st, left, right).0.entry == st.entry,
{
    reveal(int_floor_divide);
    broadcast use lemma_emit, lemma_int_correction;

}

pub broadcast proof fn lemma_float_modulo(
    st: State,
    left: crate::codegen::ir::Operand,
    right: crate::codegen::ir::Operand,
)
    requires
        opened(st.body),
    ensures
        #![trigger float_modulo(st, left, right)]
        opened(float_modulo(st, left, right).0.body),
        float_modulo(st, left, right).0.bodies == st.bodies,
        float_modulo(st, left, right).0.entry == st.entry,
{
    reveal(float_modulo);
    broadcast use lemma_emit;

}

pub broadcast proof fn lemma_float_floor_divide(
    st: State,
    left: crate::codegen::ir::Operand,
    right: crate::codegen::ir::Operand,
)
    requires
        opened(st.body),
    ensures
        #![trigger float_floor_divide(st, left, right)]
        opened(float_floor_divide(st, left, right).0.body),
        float_floor_divide(st, left, right).0.bodies == st.bodies,
        float_floor_divide(st, left, right).0.entry == st.entry,
{
    reveal(float_floor_divide);
    broadcast use lemma_emit, lemma_call_external;

}

pub broadcast proof fn lemma_float_power(
    st: State,
    left: crate::codegen::ir::Operand,
    right: crate::codegen::ir::Operand,
)
    requires
        opened(st.body),
    ensures
        #![trigger float_power(st, left, right)]
        opened(float_power(st, left, right).0.body),
        float_power(st, left, right).0.bodies == st.bodies,
        float_power(st, left, right).0.entry == st.entry,
{
    reveal(float_power);
    broadcast use lemma_call_external;

}

pub broadcast proof fn lemma_int_divide(
    st: State,
    left: crate::codegen::ir::Operand,
    right: crate::codegen::ir::Operand,
)
    requires
        opened(st.body),
    ensures
        #![trigger int_divide(st, left, right)]
        opened(int_divide(st, left, right).0.body),
        int_divide(st, left, right).0.bodies == st.bodies,
        int_divide(st, left, right).0.entry == st.entry,
{
    reveal(int_divide);
    broadcast use lemma_emit;

}

/// The operators keep the block open.
pub broadcast proof fn lemma_lower_binary(st: State, operator: BinaryOperator, left: Value, right: Value)
    requires
        opened(st.body),
    ensures
        #![trigger lower_binary(st, operator, left, right)]
        opened(lower_binary(st, operator, left, right).0.body),
        lower_binary(st, operator, left, right).0.bodies == st.bodies,
        lower_binary(st, operator, left, right).0.entry == st.entry,
{
    reveal(lower_binary);
    broadcast use
        lemma_emit,
        lemma_concatenate,
        lemma_int_modulo,
        lemma_int_floor_divide,
        lemma_float_modulo,
        lemma_float_floor_divide,
        lemma_float_power,
        lemma_int_divide,
    ;

    lemma_int_power(st, left.operand, right.operand);
}

pub proof fn lemma_int_power(
    st: State,
    left: crate::codegen::ir::Operand,
    right: crate::codegen::ir::Operand,
)
    requires
        opened(st.body),
    ensures
        opened(int_power(st, left, right).0.body),
        int_power(st, left, right).0.bodies == st.bodies,
        int_power(st, left, right).0.entry == st.entry,
{
    reveal(int_power);
    broadcast use lemma_emit;

}

pub broadcast proof fn lemma_lower_unary(st: State, operator: UnaryOperator, operand: Value)
    requires
        opened(st.body),
    ensures
        #![trigger lower_unary(st, operator, operand)]
        opened(lower_unary(st, operator, operand).0.body),
        lower_unary(st, operator, operand).0.bodies == st.bodies,
        lower_unary(st, operator, operand).0.entry == st.entry,
{
    reveal(lower_unary);
    broadcast use lemma_emit;

}

pub broadcast proof fn lemma_print_text(
    st: State,
    format: Seq<char>,
    value: Option<crate::codegen::ir::Operand>,
)
    requires
        opened(st.body),
    ensures
        #![trigger print_text(st, format, value)]
        opened(print_text(st, format, value).body),
        print_text(st, format, value).bodies == st.bodies,
        print_text(st, format, value).entry == st.entry,
{
    reveal(print_text);
    broadcast use lemma_call_external;

}

pub broadcast proof fn lemma_shown(st: State, value: Value)
    requires
        opened(st.body),
    ensures
        #![trigger shown(st, value)]
        opened(shown(st, value).0.body),
        shown(st, value).0.bodies == st.bodies,
        shown(st, value).0.entry == st.entry,
{
    reveal(shown);
    broadcast use lemma_emit;

}

pub broadcast proof fn lemma_print_value(st: State, value: Value, end: Seq<char>)
    requires
        opened(st.body),
    ensures
        #![trigger print_value(st, value, end)]
        opened(print_value(st, value, end).body),
        print_value(st, value, end).bodies == st.bodies,
        print_value(st, value, end).entry == st.entry,
{
    reveal(print_value);
    reveal(print_float);
    broadcast use lemma_emit, lemma_print_text, lemma_shown;

}

pub proof fn lemma_print_values(st: State, values: Seq<Value>, from: nat)
    requires
        opened(st.body),
    ensures
        opened(print_values(st, values, from).body),
        print_values(st, values, from).bodies == st.bodies,
        print_values(st, values, from).entry == st.entry,
    decreases values.len() - from,
{
    broadcast use lemma_print_value;

    if from < values.len() {
        let end = if from + 1 == values.len() {
            "\n"@
        } else {
            " "@
        };
        lemma_print_values(print_value(st, values[from as int], end), values, from + 1);
    }
}

pub proof fn lemma_print_call(st: State, values: Seq<Value>)
    requires
        opened(st.body),
    ensures
        opened(print_call(st, values).0.body),
        print_call(st, values).0.bodies == st.bodies,
        print_call(st, values).0.entry == st.entry,
{
    reveal(print_call);
    broadcast use lemma_print_text;

    lemma_print_values(st, values, 0);
}

pub proof fn lemma_function_call(st: State, function: nat, values: Seq<Value>)
    requires
        opened(st.body),
    ensures
        opened(function_call(st, function, values).0.body),
        function_call(st, function, values).0.bodies == st.bodies,
        function_call(st, function, values).0.entry == st.entry,
{
    reveal(function_call);
    broadcast use lemma_emit, lemma_emit_arguments;

}

/// Expressions keep the block open, whether they are lowered or fail.
pub proof fn lemma_lower_expression(st: State, node: NodeView, embedded: bool)
    requires
        opened(st.body),
    ensures
        opened(lower_expression(st, node, embedded).0.body),
        lower_expression(st, node, embedded).0.bodies == st.bodies,
        lower_expression(st, node, embedded).0.entry == st.entry,
    decreases
            if embedded {
                0nat
            } else {
                3nat
            },
            node,
{
    broadcast use lemma_emit, lemma_lower_unary, lemma_lower_binary;

    match node {
        NodeView::Literal { value } => match value {
            LiteralView::FString(parts) => if !embedded {
                reveal_with_fuel(lower_template, 1);
                lemma_lower_template(st, parts);
            },
            _ => {},
        },
        NodeView::Unary { operator, operand } => {
            lemma_lower_expression(st, *operand, embedded);
        },
        NodeView::Binary { left, operator, right } => {
            lemma_lower_expression(st, *left, embedded);
            let (st1, first) = lower_expression(st, *left, embedded);
            if first is Ok {
                lemma_lower_expression(st1, *right, embedded);
            }
        },
        NodeView::Call { callee, arguments } => {
            lemma_lower_arguments(st, arguments, 0, Seq::empty(), embedded);
            let (st1, lowered) = lower_arguments(st, arguments, 0, Seq::empty(), embedded);
            if let Ok(values) = lowered {
                lemma_print_call(st1, values);
                let function = crate::codegen::rules::find_function(st.signatures, callee, 0);
                if let Some(index) = function {
                    lemma_function_call(st1, index, values);
                }
            }
        },
        _ => {},
    }
}

pub proof fn lemma_lower_arguments(
    st: State,
    arguments: Seq<NodeView>,
    from: nat,
    values: Seq<Value>,
    embedded: bool,
)
    requires
        opened(st.body),
    ensures
        opened(lower_arguments(st, arguments, from, values, embedded).0.body),
        lower_arguments(st, arguments, from, values, embedded).0.bodies == st.bodies,
        lower_arguments(st, arguments, from, values, embedded).0.entry == st.entry,
    decreases
            if embedded {
                0nat
            } else {
                3nat
            },
            arguments,
            arguments.len() - from,
{
    if from < arguments.len() {
        lemma_lower_expression(st, arguments[from as int], embedded);
        let (st1, lowered) = lower_expression(st, arguments[from as int], embedded);
        if let Ok(value) = lowered {
            lemma_lower_arguments(st1, arguments, from + 1, values.push(value), embedded);
        }
    }
}

pub proof fn lemma_lower_segments(
    st: State,
    parts: Seq<FStringPartView>,
    format: Seq<char>,
    values: Seq<crate::codegen::ir::Operand>,
)
    requires
        opened(st.body),
    ensures
        opened(lower_segments(st, parts, format, values).0.body),
        lower_segments(st, parts, format, values).0.bodies == st.bodies,
        lower_segments(st, parts, format, values).0.entry == st.entry,
    decreases 1nat, parts,
{
    if parts.len() > 0 {
        let later = parts.subrange(1, parts.len() as int);
        match parts[0] {
            FStringPartView::Literal(text) => {
                lemma_lower_segments(
                    st,
                    later,
                    format + crate::codegen::rules::escape_percent(text),
                    values,
                );
            },
            FStringPartView::Expression(text) => match embedded_expression(text) {
                None => {
                    let (st1, operand) = add_text(st, text);
                    lemma_lower_segments(st1, later, format + "%s"@, values.push(operand));
                },
                Some(node) => {
                    lemma_lower_expression(st, node, true);
                    let (st1, lowered) = lower_expression(st, node, true);
                    if let Ok(value) = lowered {
                        lemma_shown(st1, value);
                        let (st1, value) = shown(st1, value);
                        lemma_lower_segments(
                            st1,
                            later,
                            format + crate::codegen::rules::format_specifier(value.kind),
                            values.push(value.operand),
                        );
                    }
                },
            },
        }
    }
}

pub proof fn lemma_lower_template(st: State, parts: Seq<FStringPartView>)
    requires
        opened(st.body),
    ensures
        opened(lower_template(st, parts).0.body),
        lower_template(st, parts).0.bodies == st.bodies,
        lower_template(st, parts).0.entry == st.entry,
    decreases 2nat, parts,
{
    reveal_with_fuel(lower_template, 1);
    broadcast use lemma_emit, lemma_call_external;

    lemma_lower_segments(st, parts, Seq::empty(), Seq::empty());
}

/// A slot, a store and a binding keep the block open.
pub broadcast proof fn lemma_bind(
    st: State,
    name: Seq<char>,
    value: crate::codegen::ir::Operand,
    kind: crate::codegen::ir::ValueKind,
)
    requires
        opened(st.body),
    ensures
        #![trigger bind(st, name, value, kind)]
        opened(bind(st, name, value, kind).body),
        bind(st, name, value, kind).bodies == st.bodies,
        bind(st, name, value, kind).entry == st.entry,
{
    reveal(bind);
    broadcast use lemma_emit;

}

pub proof fn lemma_bind_parameters(st: State, parameters: Seq<Seq<char>>, from: nat)
    requires
        opened(st.body),
    ensures
        opened(bind_parameters(st, parameters, from).body),
        bind_parameters(st, parameters, from).bodies == st.bodies,
        bind_parameters(st, parameters, from).entry == st.entry,
    decreases parameters.len() - from,
{
    broadcast use lemma_bind;

    if from < parameters.len() {
        lemma_bind_parameters(
            bind(
                st,
                parameters[from as int],
                crate::codegen::ir::Operand::Parameter(from as usize),
                crate::codegen::ir::ValueKind::Int,
            ),
            parameters,
            from + 1,
        );
    }
}

/// A return closes the block, where it is lowered.
pub proof fn lemma_lower_return(st: State, value: Option<Box<NodeView>>)
    requires
        opened(st.body),
        bodies_closed(st),
    ensures
        settled(lower_return(st, value).0),
        lower_return(st, value).0.entry == st.entry,
{
    reveal(lower_return);
    broadcast use lemma_emit;

    if let Some(node) = value {
        lemma_lower_expression(st, *node, false);
    }
}

/// The start of a statement opens a block where the last one is closed.
pub proof fn lemma_open_block(st: State)
    requires
        settled(st),
    ensures
        sound(open_block(st)),
        open_block(st).entry == st.entry,
{
    broadcast use lemma_emit;

}

/// The end of a function closes its last block.
pub proof fn lemma_finish_body(st: State)
    requires
        settled(st),
    ensures
        bodies_closed(finish_body(st)),
        finish_body(st).entry == st.entry,
{
    broadcast use lemma_emit;

    let closed = close_body(st);
    assert(blocks_closed(closed.body)) by {
        assert(in_order(closed.body));
        assert(terminator(closed.body.last()));
        assert forall|i: int| 0 <= i < closed.body.len() implies (terminator(
            #[trigger] closed.body[i],
        ) <==> (i + 1 == closed.body.len() || closed.body[i + 1] is Label)) by {}
    }
    let after = finish_body(st);
    assert forall|b: int| 0 <= b < after.bodies.len() implies blocks_closed(
        (#[trigger] after.bodies[b]).instructions,
    ) by {
        if b < st.bodies.len() {
            assert(after.bodies[b] == st.bodies[b]);
        }
    }
}

/// Statements leave the blocks in order and the finished bodies closed.
pub proof fn lemma_lower_statement(st: State, node: NodeView)
    requires
        settled(st),
    ensures
        settled(lower_statement(st, node).0),
    decreases node,
{
    broadcast use lemma_bind;

    lemma_open_block(st);
    let st0 = open_block(st);
    match node {
        NodeView::Assignment { name, value } => {
            lemma_lower_expression(st0, *value, false);
        },
        NodeView::ExpressionStatement { expression } => {
            lemma_lower_expression(st0, *expression, false);
        },
        NodeView::Function { name, parameters, body } => {
            let index = st0.signatures.len();
            let inner = State {
                signatures: st0.signatures.push(
                    crate::codegen::rules::SignatureView {
                        name,
                        parameters: parameters.len(),
                        entry: false,
                    },
                ),
                body: seq![
                    Instruction::Label { label: crate::codegen::ir::BlockLabel::Entry },
                ],
                function: index,
                entry: false,
                variables: Seq::empty(),
                ..st0
            };
            assert(opened(inner.body));
            lemma_bind_parameters(inner, parameters, 0);
            let bound = bind_parameters(inner, parameters, 0);
            lemma_lower_statement(bound, *body);
            let (lowered, result) = lower_statement(bound, *body);
            if result is Ok {
                lemma_finish_body(lowered);
            }
        },
        NodeView::Return { value } => {
            lemma_lower_return(st0, value);
        },
        _ => {},
    }
}

pub proof fn lemma_lower_statements(st: State, statements: Seq<NodeView>, from: nat)
    requires
        settled(st),
    ensures
        settled(lower_statements(st, statements, from).0),
    decreases statements.len() - from,
{
    if from < statements.len() {
        lemma_lower_statement(st, statements[from as int]);
        let (st1, lowered) = lower_statement(st, statements[from as int]);
        if lowered is Ok {
            lemma_lower_statements(st1, statements, from + 1);
        }
    }
}

/// Every block ends in exactly one terminator. In every function body
/// of every unit that lowering gives, a terminator stands at the end of each
/// basic block and nowhere else.
pub proof fn lemma_blocks_closed(program: NodeView)
    ensures
        lower_program(program) matches Ok(unit) ==> forall|b: int|
            0 <= b < unit.bodies.len() ==> blocks_closed((#[trigger] unit.bodies[b]).instructions),
{
    match program {
        NodeView::Program { statements } => {
            assert(settled(entry_state()));
            lemma_lower_statements(entry_state(), statements, 0);
            let (st, lowered) = lower_statements(entry_state(), statements, 0);
            if lowered is Ok {
                lemma_finish_body(st);
            }
        },
        _ => {},
    }
}

} // verus!
