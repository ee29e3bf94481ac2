//! What holds of the lowering for every program.

use crate::ast::node::{BinaryOperator, Node, NodeView};
use crate::codegen::blocks::lemma_blocks_closed;
use crate::codegen::calls::{calls_fed, lemma_calls_are_fed};
use crate::codegen::codegen::{kept, object_refused};
use crate::codegen::targets::{branches_resolved, lemma_branches_are_resolved};
use crate::codegen::ir::{blocks_closed, ValueKind};
use crate::codegen::scope::{lemma_unit_is_scoped, scoped};
use crate::codegen::types::{body_typed, entry_of, lemma_unit_is_typed, unit_fits};
use crate::codegen::rules::{
    constant_name, int_divide, lookup, lower_binary, lower_expression, lower_program, message,
    shown, ErrorView, State, Value,
};
use crate::lexer::laws::lemma_decimal_value_of_digits;
use crate::lexer::text::decimal_digits;
use vstd::prelude::*;

verus! {

/// A unit that can be built: every body belongs to a function of the unit,
/// its blocks are closed, its instructions are in scope and typed, its
/// branches go to blocks of the body, and its calls find their arguments.
pub open spec fn well_formed(unit: State) -> bool {
    forall|b: int|
        0 <= b < unit.bodies.len() ==> {
            &&& (#[trigger] unit.bodies[b]).function < unit.signatures.len()
            &&& blocks_closed(unit.bodies[b].instructions)
            &&& scoped(unit, unit.bodies[b].function, unit.bodies[b].instructions)
            &&& body_typed(entry_of(unit, unit.bodies[b].function), unit.bodies[b].instructions)
            &&& branches_resolved(unit.bodies[b].instructions)
            &&& calls_fed(unit.bodies[b].instructions)
        }
}

/// Whatever lowering gives can be built. Every unit that comes of a
/// program, as long as its bodies fit the indices of the machine, is well
/// formed.
pub proof fn lemma_unit_is_well_formed(program: NodeView)
    ensures
        lower_program(program) matches Ok(unit) ==> (unit_fits(unit) ==> well_formed(unit)),
{
    lemma_unit_is_scoped(program);
    lemma_blocks_closed(program);
    lemma_unit_is_typed(program);
    lemma_branches_are_resolved(program);
    lemma_calls_are_fed(program);
}

/// String constants have names of their own. Two constants with different
/// indices have different names, so no two symbols of a unit collide.
pub proof fn lemma_constant_names_differ(first: nat, second: nat)
    requires
        first != second,
    ensures
        constant_name(first) != constant_name(second),
{
    lemma_decimal_value_of_digits(first);
    lemma_decimal_value_of_digits(second);
    let a = "str_"@ + decimal_digits(first);
    let b = "str_"@ + decimal_digits(second);
    if a == b {
        let n = "str_"@.len() as int;
        assert(a.subrange(n, a.len() as int) =~= decimal_digits(first));
        assert(b.subrange(n, b.len() as int) =~= decimal_digits(second));
    }
}

/// Division gives a float. Whatever the operands are, where `/` is
/// lowered without an error its result is held as a float.
pub proof fn lemma_division_gives_float(st: State, left: Value, right: Value)
    ensures
        lower_binary(st, BinaryOperator::Divide, left, right).1 matches Ok(value) ==> value.kind
            == ValueKind::Float,
{
    reveal(lower_binary);
    reveal(int_divide);
}

/// The quotient of two expressions is a float. Where an expression
/// `left / right` is lowered without an error, its value is held as a float.
pub proof fn lemma_quotient_is_float(st: State, left: NodeView, right: NodeView, embedded: bool)
    ensures
        lower_expression(
            st,
            NodeView::Binary {
                left: Box::new(left),
                operator: BinaryOperator::Divide,
                right: Box::new(right),
            },
            embedded,
        ).1 matches Ok(value) ==> value.kind == ValueKind::Float,
{
    let (st1, first) = lower_expression(st, left, embedded);
    if let Ok(l) = first {
        let (st2, second) = lower_expression(st1, right, embedded);
        if let Ok(r) = second {
            lemma_division_gives_float(st2, l, r);
        }
    }
}

/// An unbound name is an error. The use of a name fails with
/// "Undefined variable" and the name exactly when the storage table holds
/// no binding of it; it then leaves the state as it was.
pub proof fn lemma_unbound_identifier(st: State, name: Seq<char>, embedded: bool)
    ensures
        lookup(st.variables, name) is None <==> lower_expression(
            st,
            NodeView::Identifier { name },
            embedded,
        ) == (st, Err::<Value, ErrorView>(ErrorView::UndefinedVariable(name))),
        message(ErrorView::UndefinedVariable(name)) == "Undefined variable: "@ + name,
{
}

/// A compilation that fails leaves no object code. Whether the lowering
/// fails or LLVM refuses what it is asked to build, the generator keeps no
/// program afterwards, and asking it for object code fails at every level
/// before LLVM is asked for anything.
pub proof fn lemma_failure_leaves_no_object_code(program: NodeView, built: bool, level: u8)
    requires
        lower_program(program) is Err || !built,
    ensures
        kept(program, built) is None,
        object_refused(kept(program, built), level) is Some,
{
}

/// What is printed or put into a template is an integer, a float or text.
/// A boolean and `None` are written as words, never as the integers that
/// hold them; an integer, a float and a string are written as they are.
pub proof fn lemma_written_kinds(st: State, value: Value)
    ensures
        shown(st, value).1.kind == ValueKind::Int || shown(st, value).1.kind == ValueKind::Float
            || shown(st, value).1.kind == ValueKind::Pointer,
        value.kind == ValueKind::Bool || value.kind == ValueKind::NoneValue ==> shown(
            st,
            value,
        ).1.kind == ValueKind::Pointer,
        value.kind != ValueKind::Bool && value.kind != ValueKind::NoneValue ==> shown(st, value)
            == (st, value),
{
    reveal(shown);
}

} // verus!
