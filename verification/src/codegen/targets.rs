//! The branch invariant of the intermediate representation: every branch
//! goes to a block of its own function body.

use crate::ast::node::{BinaryOperator, FStringPartView, LiteralView, NodeView, UnaryOperator};
use crate::codegen::ir::{BlockLabel, External, Instruction, Operand, Target, ValueKind};
use crate::codegen::rules::{
    add_text, bind, bind_parameters, call_external, close_body, concatenate, emit,
    emit_arguments, entry_state, escape_percent, find_function, finish_body,
    float_floor_divide, float_modulo, float_power, format_specifier, function_call,
    int_correction, int_divide, int_floor_divide, int_modulo, int_power, lower_arguments,
    lower_binary, lower_expression, lower_program, lower_return, lower_segments,
    lower_statement, lower_statements, lower_template, lower_unary, open_block, print_call,
    print_float, print_text, print_value, print_values, shown, SignatureView, State, Value,
};
use crate::codegen::rules::embedded_expression;
use vstd::prelude::*;

verus! {

/// The number of labels in a list of instructions: the number of blocks
/// that it starts.
pub open spec fn labels(body: Seq<Instruction>) -> nat
    decreases body.len(),
{
    if body.len() == 0 {
        0
    } else {
        labels(body.drop_last()) + if body.last() is Label {
            1nat
        } else {
            0nat
        }
    }
}

/// A branch from a block goes to a block that exists: from the block with
/// number `here`, counted from one, among `total` blocks.
pub open spec fn target_exists(here: nat, total: nat, target: Target) -> bool {
    match target {
        Target::Ahead(ahead) => 1 <= here && here - 1 + ahead < total,
        Target::Back(back) => back + 1 <= here,
    }
}

/// The instruction at index `j` branches only to blocks that exist among
/// `total` blocks.
pub open spec fn resolved_at(body: Seq<Instruction>, j: int, total: nat) -> bool {
    match body[j] {
        Instruction::Branch { target } => target_exists(
            labels(body.subrange(0, j + 1)),
            total,
            target,
        ),
        Instruction::CondBranch { then_target, else_target, .. } => target_exists(
            labels(body.subrange(0, j + 1)),
            total,
            then_target,
        ) && target_exists(labels(body.subrange(0, j + 1)), total, else_target),
        _ => true,
    }
}

/// Every branch of the body goes to a block that exists among `total`
/// blocks, and the body has no more blocks than that.
pub open spec fn resolved(body: Seq<Instruction>, total: nat) -> bool {
    &&& labels(body) <= total
    &&& forall|j: int| 0 <= j < body.len() ==> #[trigger] resolved_at(body, j, total)
}

/// Every branch of the body goes to a block of the body.
pub open spec fn branches_resolved(body: Seq<Instruction>) -> bool {
    resolved(body, labels(body))
}

/// One more instruction adds a label where it is one.
pub broadcast proof fn lemma_labels_push(body: Seq<Instruction>, instruction: Instruction)
    ensures
        #[trigger] labels(body.push(instruction)) == labels(body) + if instruction is Label {
            1nat
        } else {
            0nat
        },
{
    assert(body.push(instruction).drop_last() =~= body);
}

/// What is resolved among fewer blocks is resolved among more.
pub proof fn lemma_resolved_among_more(body: Seq<Instruction>, total: nat, more: nat)
    requires
        resolved(body, total),
        total <= more,
    ensures
        resolved(body, more),
{
    assert forall|j: int| 0 <= j < body.len() implies #[trigger] resolved_at(body, j, more) by {
        assert(resolved_at(body, j, total));
    }
}

/// One more instruction keeps the branches resolved among `total` blocks,
/// where it is no branch, or a branch to a block that exists.
pub proof fn lemma_emit_resolved(st: State, instruction: Instruction, total: nat)
    requires
        resolved(st.body, total),
        instruction is Label ==> labels(st.body) < total,
        instruction matches Instruction::Branch { target } ==> target_exists(
            labels(st.body),
            total,
            target,
        ),
        instruction matches Instruction::CondBranch { then_target, else_target, .. }
            ==> target_exists(labels(st.body), total, then_target) && target_exists(
            labels(st.body),
            total,
            else_target,
        ),
    ensures
        resolved(emit(st, instruction).body, total),
{
    broadcast use lemma_labels_push;

    let body = st.body;
    let after = body.push(instruction);
    assert forall|j: int| 0 <= j < after.len() implies #[trigger] resolved_at(after, j, total) by {
        if j < body.len() {
            assert(after.subrange(0, j + 1) =~= body.subrange(0, j + 1));
            assert(resolved_at(body, j, total));
        } else {
            assert(after.subrange(0, j + 1) =~= after);
        }
    }
}

/// An instruction that starts no block and branches nowhere.
pub open spec fn quiet(instruction: Instruction) -> bool {
    !(instruction is Label) && !(instruction is Branch) && !(instruction is CondBranch)
}

/// The later body is the earlier one and quiet instructions after it.
pub open spec fn quietly_extends(body: Seq<Instruction>, longer: Seq<Instruction>) -> bool {
    &&& body.len() <= longer.len()
    &&& longer.subrange(0, body.len() as int) == body
    &&& forall|j: int| body.len() <= j < longer.len() ==> quiet(#[trigger] longer[j])
}

/// Quiet instructions keep the number of blocks and the branches resolved.
pub proof fn lemma_quiet_keeps_resolved(body: Seq<Instruction>, longer: Seq<Instruction>, total: nat)
    requires
        quietly_extends(body, longer),
    ensures
        labels(longer) == labels(body),
        resolved(body, total) ==> resolved(longer, total),
    decreases longer.len() - body.len(),
{
    broadcast use lemma_labels_push;

    if longer.len() == body.len() {
        assert(longer =~= body);
    } else {
        let shorter = longer.drop_last();
        assert(shorter.subrange(0, body.len() as int) =~= longer.subrange(0, body.len() as int));
        assert forall|j: int| body.len() <= j < shorter.len() implies quiet(#[trigger] shorter[j]) by {
            assert(shorter[j] == longer[j]);
        }
        lemma_quiet_keeps_resolved(body, shorter, total);
        assert(shorter.push(longer.last()) =~= longer);
        assert(quiet(longer[longer.len() - 1]));
        if resolved(body, total) {
            let st = State {
                signatures: Seq::empty(),
                bodies: Seq::empty(),
                strings: Seq::empty(),
                floats: Seq::empty(),
                externals: Seq::empty(),
                body: shorter,
                function: 0,
                entry: false,
                variables: Seq::empty(),
            };
            lemma_emit_resolved(st, longer.last(), total);
        }
    }
}

/// Extending quietly twice is extending quietly.
pub proof fn lemma_quietly_twice(a: Seq<Instruction>, b: Seq<Instruction>, c: Seq<Instruction>)
    requires
        quietly_extends(a, b),
        quietly_extends(b, c),
    ensures
        quietly_extends(a, c),
{
    assert(c.subrange(0, a.len() as int) =~= b.subrange(0, a.len() as int));
    assert forall|j: int| a.len() <= j < c.len() implies quiet(#[trigger] c[j]) by {
        if j < b.len() {
            assert(c[j] == c.subrange(0, b.len() as int)[j]);
            assert(quiet(b[j]));
        }
    }
}

/// One more quiet instruction extends quietly what the body extends.
pub broadcast proof fn lemma_emit_quiet(st: State, instruction: Instruction, base: Seq<Instruction>)
    requires
        quiet(instruction),
        quietly_extends(base, st.body),
    ensures
        #[trigger] quietly_extends(base, emit(st, instruction).body),
{
    let after = st.body.push(instruction);
    assert(after.subrange(0, base.len() as int) =~= st.body.subrange(0, base.len() as int));
    assert forall|j: int| base.len() <= j < after.len() implies quiet(#[trigger] after[j]) by {
        if j < st.body.len() {
            assert(after[j] == st.body[j]);
        }
    }
}

/// A body extends itself quietly.
pub proof fn lemma_quietly_itself(body: Seq<Instruction>)
    ensures
        quietly_extends(body, body),
{
    assert(body.subrange(0, body.len() as int) =~= body);
}

pub broadcast proof fn lemma_emit_arguments_quiet(st: State, values: Seq<Operand>, base: Seq<Instruction>)
    requires
        quietly_extends(base, st.body),
    ensures
        #[trigger] quietly_extends(base, emit_arguments(st, values).body),
    decreases values.len(),
{
    if values.len() > 0 {
        let first = Instruction::Argument { value: values[0] };
        lemma_emit_quiet(st, first, base);
        lemma_emit_arguments_quiet(emit(st, first), values.subrange(1, values.len() as int), base);
    }
}

pub broadcast proof fn lemma_call_external_quiet(st: State, external: External, values: Seq<Operand>, base: Seq<Instruction>)
    requires
        quietly_extends(base, st.body),
    ensures
        #[trigger] quietly_extends(base, call_external(st, external, values).0.body),
{
    reveal(call_external);
    broadcast use lemma_emit_quiet, lemma_emit_arguments_quiet;

}

pub broadcast proof fn lemma_int_correction_quiet(st: State, remainder: Operand, right: Operand, step: Operand, base: Seq<Instruction>)
    requires
        quietly_extends(base, st.body),
    ensures
        #[trigger] quietly_extends(base, int_correction(st, remainder, right, step).0.body),
{
    reveal(int_correction);
    broadcast use lemma_emit_quiet;

}

pub broadcast proof fn lemma_concatenate_quiet(st: State, left: Operand, right: Operand, base: Seq<Instruction>)
    requires
        quietly_extends(base, st.body),
    ensures
        #[trigger] quietly_extends(base, concatenate(st, left, right).0.body),
{
    reveal(concatenate);
    broadcast use lemma_emit_quiet, lemma_call_external_quiet;

}

pub broadcast proof fn lemma_int_modulo_quiet(st: State, left: Operand, right: Operand, base: Seq<Instruction>)
    requires
        quietly_extends(base, st.body),
    ensures
        #[trigger] quietly_extends(base, int_modulo(st, left, right).0.body),
{
    reveal(int_modulo);
    broadcast use lemma_emit_quiet, lemma_int_correction_quiet;

}

pub broadcast proof fn lemma_int_floor_divide_quiet(st: State, left: Operand, right: Operand, base: Seq<Instruction>)
    requires
        quietly_extends(base, st.body),
    ensures
        #[trigger] quietly_extends(base, int_floor_divide(st, left, right).0.body),
{
    reveal(int_floor_divide);
    broadcast use lemma_emit_quiet, lemma_int_correction_quiet;

}

pub broadcast proof fn lemma_float_modulo_quiet(st: State, left: Operand, right: Operand, base: Seq<Instruction>)
    requires
        quietly_extends(base, st.body),
    ensures
        #[trigger] quietly_extends(base, float_modulo(st, left, right).0.body),
{
    reveal(float_modulo);
    broadcast use lemma_emit_quiet;

}

pub broadcast proof fn lemma_float_floor_divide_quiet(st: State, left: Operand, right: Operand, base: Seq<Instruction>)
    requires
        quietly_extends(base, st.body),
    ensures
        #[trigger] quietly_extends(base, float_floor_divide(st, left, right).0.body),
{
    reveal(float_floor_divide);
    broadcast use lemma_emit_quiet, lemma_call_external_quiet;

}

pub broadcast proof fn lemma_float_power_quiet(st: State, left: Operand, right: Operand, base: Seq<Instruction>)
    requires
        quietly_extends(base, st.body),
    ensures
        #[trigger] quietly_extends(base, float_power(st, left, right).0.body),
{
    reveal(float_power);
    broadcast use lemma_emit_quiet, lemma_call_external_quiet;

}

pub broadcast proof fn lemma_int_divide_quiet(st: State, left: Operand, right: Operand, base: Seq<Instruction>)
    requires
        quietly_extends(base, st.body),
    ensures
        #[trigger] quietly_extends(base, int_divide(st, left, right).0.body),
{
    reveal(int_divide);
    broadcast use lemma_emit_quiet;

}

pub broadcast proof fn lemma_lower_unary_quiet(st: State, operator: UnaryOperator, operand: Value, base: Seq<Instruction>)
    requires
        quietly_extends(base, st.body),
    ensures
        #[trigger] quietly_extends(base, lower_unary(st, operator, operand).0.body),
{
    reveal(lower_unary);
    broadcast use lemma_emit_quiet;

}

pub broadcast proof fn lemma_print_text_quiet(st: State, format: Seq<char>, value: Option<Operand>, base: Seq<Instruction>)
    requires
        quietly_extends(base, st.body),
    ensures
        #[trigger] quietly_extends(base, print_text(st, format, value).body),
{
    reveal(print_text);
    broadcast use lemma_emit_quiet, lemma_call_external_quiet;

}

pub broadcast proof fn lemma_function_call_quiet(st: State, function: nat, values: Seq<Value>, base: Seq<Instruction>)
    requires
        quietly_extends(base, st.body),
    ensures
        #[trigger] quietly_extends(base, function_call(st, function, values).0.body),
{
    reveal(function_call);
    broadcast use lemma_emit_quiet, lemma_emit_arguments_quiet;

}

/// What a lowering step does to the branches: they stay resolved, and no
/// block is lost.
pub open spec fn keeps_resolved(body: Seq<Instruction>, after: Seq<Instruction>) -> bool {
    labels(body) <= labels(after) && (branches_resolved(body) ==> branches_resolved(after))
}

/// A quiet step keeps the branches resolved.
pub proof fn lemma_quiet_step(body: Seq<Instruction>, after: Seq<Instruction>)
    requires
        quietly_extends(body, after),
    ensures
        keeps_resolved(body, after),
        labels(after) == labels(body),
{
    lemma_quiet_keeps_resolved(body, after, labels(body));
}

pub broadcast proof fn lemma_shown_quiet(st: State, value: Value, base: Seq<Instruction>)
    requires
        quietly_extends(base, st.body),
    ensures
        #[trigger] quietly_extends(base, shown(st, value).0.body),
{
    reveal(shown);
    broadcast use lemma_emit_quiet;

}

/// Printing a float keeps the branches resolved: its branches go to the
/// three blocks that it starts.
pub proof fn lemma_print_float_resolved(st: State, value: Operand, end: Seq<char>)
    requires
        labels(st.body) >= 1,
    ensures
        keeps_resolved(st.body, print_float(st, value, end).body),
{
    reveal(print_float);
    broadcast use lemma_labels_push;

    let (st0, zero) = crate::codegen::rules::add_float(st, "0.0"@);
    let i1 = Instruction::FloatEqual { left: value, right: zero };
    let st1 = emit(st0, i1);
    let i2 = Instruction::CondBranch {
        condition: crate::codegen::rules::upcoming(st0),
        then_target: Target::Ahead(1),
        else_target: Target::Ahead(2),
    };
    let st2 = emit(st1, i2);
    let i3 = Instruction::Label { label: BlockLabel::PrintZero };
    let st3 = emit(st2, i3);
    let st4 = print_text(st3, "0.0"@ + end, None);
    lemma_quietly_itself(st3.body);
    lemma_print_text_quiet(st3, "0.0"@ + end, None, st3.body);
    lemma_quiet_step(st3.body, st4.body);
    let i5 = Instruction::Branch { target: Target::Ahead(2) };
    let st5 = emit(st4, i5);
    let i6 = Instruction::Label { label: BlockLabel::PrintFloat };
    let st6 = emit(st5, i6);
    let st7 = print_text(st6, "%g"@ + end, Some(value));
    lemma_quietly_itself(st6.body);
    lemma_print_text_quiet(st6, "%g"@ + end, Some(value), st6.body);
    lemma_quiet_step(st6.body, st7.body);
    let i8 = Instruction::Branch { target: Target::Ahead(1) };
    let st8 = emit(st7, i8);
    let i9 = Instruction::Label { label: BlockLabel::PrintDone };
    assert(print_float(st, value, end) == emit(st8, i9));
    if branches_resolved(st.body) {
        let total = labels(st.body) + 3;
        lemma_resolved_among_more(st.body, labels(st.body), total);
        lemma_emit_resolved(st0, i1, total);
        lemma_emit_resolved(st1, i2, total);
        lemma_emit_resolved(st2, i3, total);
        lemma_quiet_keeps_resolved(st3.body, st4.body, total);
        lemma_emit_resolved(st4, i5, total);
        lemma_emit_resolved(st5, i6, total);
        lemma_quiet_keeps_resolved(st6.body, st7.body, total);
        lemma_emit_resolved(st7, i8, total);
        lemma_emit_resolved(st8, i9, total);
    }
}

/// An integer power keeps the branches resolved: its branches go to the
/// three blocks that it starts.
pub proof fn lemma_int_power_resolved(st: State, left: Operand, right: Operand)
    requires
        labels(st.body) >= 1,
    ensures
        keeps_resolved(st.body, int_power(st, left, right).0.body),
{
    reveal(int_power);
    broadcast use lemma_labels_push;

    let whole = ValueKind::Int;
    let i1 = Instruction::Alloca { kind: whole };
    let result = crate::codegen::rules::upcoming(st);
    let st1 = emit(st, i1);
    let i2 = Instruction::Store { slot: result, value: Operand::Integer(1) };
    let st2 = emit(st1, i2);
    let i3 = Instruction::Alloca { kind: whole };
    let count = crate::codegen::rules::upcoming(st2);
    let st3 = emit(st2, i3);
    let i4 = Instruction::Store { slot: count, value: right };
    let st4 = emit(st3, i4);
    let i5 = Instruction::Branch { target: Target::Ahead(1) };
    let st5 = emit(st4, i5);
    let i6 = Instruction::Label { label: BlockLabel::PowerCheck };
    let st6 = emit(st5, i6);
    let i7 = Instruction::Load { slot: count, kind: whole };
    let left_over = crate::codegen::rules::upcoming(st6);
    let st7 = emit(st6, i7);
    let i8 = Instruction::IntGreater { left: left_over, right: Operand::Integer(0) };
    let more = crate::codegen::rules::upcoming(st7);
    let st8 = emit(st7, i8);
    let i9 = Instruction::CondBranch {
        condition: more,
        then_target: Target::Ahead(1),
        else_target: Target::Ahead(2),
    };
    let st9 = emit(st8, i9);
    let i10 = Instruction::Label { label: BlockLabel::PowerStep };
    let st10 = emit(st9, i10);
    let i11 = Instruction::Load { slot: result, kind: whole };
    let so_far = crate::codegen::rules::upcoming(st10);
    let st11 = emit(st10, i11);
    let i12 = Instruction::IntBinary {
        operation: crate::codegen::ir::IntOperation::Multiply,
        left: so_far,
        right: left,
    };
    let product = crate::codegen::rules::upcoming(st11);
    let st12 = emit(st11, i12);
    let i13 = Instruction::Store { slot: result, value: product };
    let st13 = emit(st12, i13);
    let i14 = Instruction::Load { slot: count, kind: whole };
    let counted = crate::codegen::rules::upcoming(st13);
    let st14 = emit(st13, i14);
    let i15 = Instruction::IntBinary {
        operation: crate::codegen::ir::IntOperation::Subtract,
        left: counted,
        right: Operand::Integer(1),
    };
    let fewer = crate::codegen::rules::upcoming(st14);
    let st15 = emit(st14, i15);
    let i16 = Instruction::Store { slot: count, value: fewer };
    let st16 = emit(st15, i16);
    let i17 = Instruction::Branch { target: Target::Back(1) };
    let st17 = emit(st16, i17);
    let i18 = Instruction::Label { label: BlockLabel::PowerDone };
    let st18 = emit(st17, i18);
    let i19 = Instruction::Load { slot: result, kind: whole };
    assert(int_power(st, left, right).0 == emit(st18, i19));
    if branches_resolved(st.body) {
        let total = labels(st.body) + 3;
        lemma_resolved_among_more(st.body, labels(st.body), total);
        lemma_emit_resolved(st, i1, total);
        lemma_emit_resolved(st1, i2, total);
        lemma_emit_resolved(st2, i3, total);
        lemma_emit_resolved(st3, i4, total);
        lemma_emit_resolved(st4, i5, total);
        lemma_emit_resolved(st5, i6, total);
        lemma_emit_resolved(st6, i7, total);
        lemma_emit_resolved(st7, i8, total);
        lemma_emit_resolved(st8, i9, total);
        lemma_emit_resolved(st9, i10, total);
        lemma_emit_resolved(st10, i11, total);
        lemma_emit_resolved(st11, i12, total);
        lemma_emit_resolved(st12, i13, total);
        lemma_emit_resolved(st13, i14, total);
        lemma_emit_resolved(st14, i15, total);
        lemma_emit_resolved(st15, i16, total);
        lemma_emit_resolved(st16, i17, total);
        lemma_emit_resolved(st17, i18, total);
        lemma_emit_resolved(st18, i19, total);
    }
}

pub proof fn lemma_lower_binary_resolved(st: State, operator: BinaryOperator, left: Value, right: Value)
    requires
        labels(st.body) >= 1,
    ensures
        keeps_resolved(st.body, lower_binary(st, operator, left, right).0.body),
{
    reveal(lower_binary);
    lemma_quietly_itself(st.body);
    lemma_int_power_resolved(st, left.operand, right.operand);
    let after = lower_binary(st, operator, left, right).0;
    if after != int_power(st, left.operand, right.operand).0 {
        assert(quietly_extends(st.body, after.body)) by {
            broadcast use
                lemma_emit_quiet,
                lemma_concatenate_quiet,
                lemma_int_modulo_quiet,
                lemma_int_floor_divide_quiet,
                lemma_float_modulo_quiet,
                lemma_float_floor_divide_quiet,
                lemma_float_power_quiet,
                lemma_int_divide_quiet,
            ;

        }
        lemma_quiet_step(st.body, after.body);
    }
}

pub proof fn lemma_print_value_resolved(st: State, value: Value, end: Seq<char>)
    requires
        labels(st.body) >= 1,
    ensures
        keeps_resolved(st.body, print_value(st, value, end).body),
{
    reveal(print_value);
    let (st1, written) = shown(st, value);
    lemma_quietly_itself(st.body);
    lemma_shown_quiet(st, value, st.body);
    lemma_quiet_step(st.body, st1.body);
    match written.kind {
        ValueKind::Float => lemma_print_float_resolved(st1, written.operand, end),
        ValueKind::Int => {
            lemma_print_text_quiet(st1, "%ld"@ + end, Some(written.operand), st.body);
            lemma_quiet_step(st.body, print_value(st, value, end).body);
        },
        _ => {
            lemma_print_text_quiet(st1, "%s"@ + end, Some(written.operand), st.body);
            lemma_quiet_step(st.body, print_value(st, value, end).body);
        },
    }
}

pub proof fn lemma_print_values_resolved(st: State, values: Seq<Value>, from: nat)
    requires
        labels(st.body) >= 1,
    ensures
        keeps_resolved(st.body, print_values(st, values, from).body),
    decreases values.len() - from,
{
    if from < values.len() {
        let end = if from + 1 == values.len() {
            "\n"@
        } else {
            " "@
        };
        lemma_print_value_resolved(st, values[from as int], end);
        lemma_print_values_resolved(print_value(st, values[from as int], end), values, from + 1);
    }
}

pub proof fn lemma_print_call_resolved(st: State, values: Seq<Value>)
    requires
        labels(st.body) >= 1,
    ensures
        keeps_resolved(st.body, print_call(st, values).0.body),
{
    reveal(print_call);
    if values.len() == 0 {
        lemma_quietly_itself(st.body);
        lemma_print_text_quiet(st, "\n"@, None, st.body);
        lemma_quiet_step(st.body, print_call(st, values).0.body);
    } else {
        lemma_print_values_resolved(st, values, 0);
    }
}

/// Expressions keep the branches resolved.
pub proof fn lemma_lower_expression_resolved(st: State, node: NodeView, embedded: bool)
    requires
        labels(st.body) >= 1,
    ensures
        keeps_resolved(st.body, lower_expression(st, node, embedded).0.body),
    decreases
            if embedded {
                0nat
            } else {
                3nat
            },
            node,
{
    lemma_quietly_itself(st.body);
    match node {
        NodeView::Literal { value } => match value {
            LiteralView::FString(parts) => if !embedded {
                reveal_with_fuel(lower_template, 1);
                lemma_lower_template_resolved(st, parts);
            },
            _ => {},
        },
        NodeView::Identifier { name } => {
            let after = lower_expression(st, node, embedded).0;
            assert(quietly_extends(st.body, after.body)) by {
                broadcast use lemma_emit_quiet;

            }
            lemma_quiet_step(st.body, after.body);
        },
        NodeView::Unary { operator, operand } => {
            lemma_lower_expression_resolved(st, *operand, embedded);
            let (st1, lowered) = lower_expression(st, *operand, embedded);
            if let Ok(value) = lowered {
                lemma_quietly_itself(st1.body);
                lemma_lower_unary_quiet(st1, operator, value, st1.body);
                lemma_quiet_step(st1.body, lower_unary(st1, operator, value).0.body);
            }
        },
        NodeView::Binary { left, operator, right } => {
            lemma_lower_expression_resolved(st, *left, embedded);
            let (st1, first) = lower_expression(st, *left, embedded);
            if let Ok(l) = first {
                lemma_lower_expression_resolved(st1, *right, embedded);
                let (st2, second) = lower_expression(st1, *right, embedded);
                if let Ok(r) = second {
                    lemma_lower_binary_resolved(st2, operator, l, r);
                }
            }
        },
        NodeView::Call { callee, arguments } => {
            lemma_lower_arguments_resolved(st, arguments, 0, Seq::empty(), embedded);
            let (st1, lowered) = lower_arguments(st, arguments, 0, Seq::empty(), embedded);
            if let Ok(values) = lowered {
                lemma_print_call_resolved(st1, values);
                if let Some(index) = find_function(st.signatures, callee, 0) {
                    lemma_quietly_itself(st1.body);
                    lemma_function_call_quiet(st1, index, values, st1.body);
                    lemma_quiet_step(st1.body, function_call(st1, index, values).0.body);
                }
            }
        },
        _ => {},
    }
}

pub proof fn lemma_lower_arguments_resolved(
    st: State,
    arguments: Seq<NodeView>,
    from: nat,
    values: Seq<Value>,
    embedded: bool,
)
    requires
        labels(st.body) >= 1,
    ensures
        keeps_resolved(st.body, lower_arguments(st, arguments, from, values, embedded).0.body),
    decreases
            if embedded {
                0nat
            } else {
                3nat
            },
            arguments,
            arguments.len() - from,
{
    if from < arguments.len() {
        lemma_lower_expression_resolved(st, arguments[from as int], embedded);
        let (st1, lowered) = lower_expression(st, arguments[from as int], embedded);
        if let Ok(value) = lowered {
            lemma_lower_arguments_resolved(st1, arguments, from + 1, values.push(value), embedded);
        }
    }
}

pub proof fn lemma_lower_segments_resolved(
    st: State,
    parts: Seq<FStringPartView>,
    format: Seq<char>,
    values: Seq<Operand>,
)
    requires
        labels(st.body) >= 1,
    ensures
        keeps_resolved(st.body, lower_segments(st, parts, format, values).0.body),
    decreases 1nat, parts,
{
    if parts.len() > 0 {
        let later = parts.subrange(1, parts.len() as int);
        match parts[0] {
            FStringPartView::Literal(text) => {
                lemma_lower_segments_resolved(st, later, format + escape_percent(text), values);
            },
            FStringPartView::Expression(text) => match embedded_expression(text) {
                None => {
                    let (st1, operand) = add_text(st, text);
                    lemma_lower_segments_resolved(st1, later, format + "%s"@, values.push(operand));
                },
                Some(node) => {
                    lemma_lower_expression_resolved(st, node, true);
                    let (st0, lowered) = lower_expression(st, node, true);
                    if let Ok(found) = lowered {
                        lemma_quietly_itself(st0.body);
                        lemma_shown_quiet(st0, found, st0.body);
                        lemma_quiet_step(st0.body, shown(st0, found).0.body);
                        let (st1, value) = shown(st0, found);
                        lemma_lower_segments_resolved(
                            st1,
                            later,
                            format + format_specifier(value.kind),
                            values.push(value.operand),
                        );
                    }
                },
            },
        }
    }
}

pub proof fn lemma_lower_template_resolved(st: State, parts: Seq<FStringPartView>)
    requires
        labels(st.body) >= 1,
    ensures
        keeps_resolved(st.body, lower_template(st, parts).0.body),
    decreases 2nat, parts,
{
    reveal_with_fuel(lower_template, 1);
    lemma_quietly_itself(st.body);
    lemma_lower_segments_resolved(st, parts, Seq::empty(), Seq::empty());
    let (st1, segments) = lower_segments(st, parts, Seq::empty(), Seq::empty());
    let after = lower_template(st, parts).0;
    if parts.len() > 0 && crate::codegen::rules::buffer_size(parts, 0) <= i32::MAX {
        if segments is Ok {
            lemma_quietly_itself(st1.body);
            assert(quietly_extends(st1.body, after.body)) by {
                broadcast use lemma_emit_quiet, lemma_call_external_quiet;

            }
            lemma_quiet_step(st1.body, after.body);
        }
    }
}

/// The finished bodies have their branches resolved.
pub open spec fn bodies_resolved(st: State) -> bool {
    forall|b: int| 0 <= b < st.bodies.len() ==> branches_resolved((#[trigger] st.bodies[b]).instructions)
}

/// The branch invariant between two statements.
pub open spec fn unit_resolved(st: State) -> bool {
    &&& labels(st.body) >= 1
    &&& branches_resolved(st.body)
    &&& bodies_resolved(st)
}

pub proof fn lemma_bind_parameters_quiet(st: State, parameters: Seq<Seq<char>>, from: nat)
    ensures
        quietly_extends(st.body, bind_parameters(st, parameters, from).body),
        bind_parameters(st, parameters, from).bodies == st.bodies,
    decreases parameters.len() - from,
{
    reveal(bind);
    lemma_quietly_itself(st.body);
    if from < parameters.len() {
        let st1 = bind(
            st,
            parameters[from as int],
            Operand::Parameter(from as usize),
            ValueKind::Int,
        );
        assert(quietly_extends(st.body, st1.body)) by {
            broadcast use lemma_emit_quiet;

        }
        lemma_bind_parameters_quiet(st1, parameters, from + 1);
        lemma_quietly_twice(st.body, st1.body, bind_parameters(st1, parameters, from + 1).body);
    }
}

/// The end of a function keeps the branch invariant of its body.
pub proof fn lemma_finish_body_resolved(st: State)
    requires
        unit_resolved(st),
    ensures
        bodies_resolved(finish_body(st)),
{
    let closed = close_body(st);
    lemma_quietly_itself(st.body);
    assert(quietly_extends(st.body, closed.body)) by {
        broadcast use lemma_emit_quiet;

    }
    lemma_quiet_step(st.body, closed.body);
    let after = finish_body(st);
    assert forall|b: int| 0 <= b < after.bodies.len() implies branches_resolved(
        (#[trigger] after.bodies[b]).instructions,
    ) by {
        if b < st.bodies.len() {
            assert(after.bodies[b] == st.bodies[b]);
        }
    }
}

/// Statements keep the branch invariant.
pub proof fn lemma_lower_statement_resolved(st: State, node: NodeView)
    requires
        unit_resolved(st),
    ensures
        lower_statement(st, node).1 is Ok ==> unit_resolved(lower_statement(st, node).0),
    decreases node,
{
    broadcast use lemma_labels_push;

    let st0 = open_block(st);
    assert(unit_resolved(st0)) by {
        if st0 != st {
            lemma_resolved_among_more(st.body, labels(st.body), labels(st.body) + 1);
            lemma_emit_resolved(
                st,
                Instruction::Label { label: BlockLabel::AfterReturn },
                labels(st.body) + 1,
            );
        }
    }
    let (after, result) = lower_statement(st, node);
    if result is Ok {
        match node {
            NodeView::Assignment { name, value } => {
                lemma_lower_expression_resolved(st0, *value, false);
                crate::codegen::types::lemma_lower_expression_shape(st0, *value, false);
                let (st1, lowered) = lower_expression(st0, *value, false);
                reveal(bind);
                lemma_quietly_itself(st1.body);
                assert(quietly_extends(st1.body, after.body)) by {
                    broadcast use lemma_emit_quiet;

                }
                lemma_quiet_step(st1.body, after.body);
            },
            NodeView::ExpressionStatement { expression } => {
                lemma_lower_expression_resolved(st0, *expression, false);
                crate::codegen::types::lemma_lower_expression_shape(st0, *expression, false);
            },
            NodeView::Function { name, parameters, body } => {
                let inner = State {
                    signatures: st0.signatures.push(
                        SignatureView { name, parameters: parameters.len(), entry: false },
                    ),
                    body: seq![Instruction::Label { label: BlockLabel::Entry }],
                    function: st0.signatures.len(),
                    entry: false,
                    variables: Seq::empty(),
                    ..st0
                };
                assert(labels(inner.body) == 1) by {
                    assert(inner.body.drop_last() =~= Seq::<Instruction>::empty());
                    reveal_with_fuel(labels, 2);
                }
                assert(branches_resolved(inner.body)) by {
                    assert(resolved_at(inner.body, 0, 1));
                }
                let bound = bind_parameters(inner, parameters, 0);
                lemma_bind_parameters_quiet(inner, parameters, 0);
                lemma_quiet_step(inner.body, bound.body);
                lemma_lower_statement_resolved(bound, *body);
                let (lowered, inner_result) = lower_statement(bound, *body);
                lemma_finish_body_resolved(lowered);
            },
            NodeView::Return { value } => {
                reveal(lower_return);
                crate::codegen::types::lemma_lower_return_shape(st0, value);
                match value {
                    Some(found) => {
                        lemma_lower_expression_resolved(st0, *found, false);
                        let (st1, lowered) = lower_expression(st0, *found, false);
                        lemma_quietly_itself(st1.body);
                        assert(quietly_extends(st1.body, after.body)) by {
                            broadcast use lemma_emit_quiet;

                        }
                        lemma_quiet_step(st1.body, after.body);
                    },
                    None => {
                        lemma_quietly_itself(st0.body);
                        assert(quietly_extends(st0.body, after.body)) by {
                            broadcast use lemma_emit_quiet;

                        }
                        lemma_quiet_step(st0.body, after.body);
                    },
                }
            },
            _ => {},
        }
    }
}

pub proof fn lemma_lower_statements_resolved(st: State, statements: Seq<NodeView>, from: nat)
    requires
        unit_resolved(st),
    ensures
        lower_statements(st, statements, from).1 is Ok ==> unit_resolved(
            lower_statements(st, statements, from).0,
        ),
    decreases statements.len() - from,
{
    if from < statements.len() {
        lemma_lower_statement_resolved(st, statements[from as int]);
        let (st1, lowered) = lower_statement(st, statements[from as int]);
        if lowered is Ok {
            lemma_lower_statements_resolved(st1, statements, from + 1);
        }
    }
}

/// Every branch goes to a block of its body. In every function body of
/// every unit that lowering gives, a branch that goes some blocks ahead
/// finds that many blocks after its own, and one that goes back finds them
/// before.
pub proof fn lemma_branches_are_resolved(program: NodeView)
    ensures
        lower_program(program) matches Ok(unit) ==> forall|b: int|
            0 <= b < unit.bodies.len() ==> branches_resolved(
                (#[trigger] unit.bodies[b]).instructions,
            ),
{
    match program {
        NodeView::Program { statements } => {
            let start = entry_state();
            assert(labels(start.body) == 1) by {
                assert(start.body.drop_last() =~= Seq::<Instruction>::empty());
                reveal_with_fuel(labels, 2);
            }
            assert(branches_resolved(start.body)) by {
                assert(resolved_at(start.body, 0, 1));
            }
            lemma_lower_statements_resolved(start, statements, 0);
            let (st, lowered) = lower_statements(start, statements, 0);
            if lowered is Ok {
                lemma_finish_body_resolved(st);
            }
        },
        _ => {},
    }
}

} // verus!
