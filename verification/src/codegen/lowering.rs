//! The lowering of a syntax tree into the intermediate representation.

use crate::ast::node::{
    BinaryOperator, Call, FString, FStringPart, FStringPartView, LiteralValue, Node, NodeView,
    UnaryOperator,
};
use crate::codegen::ir::{
    is_terminator, BlockLabel, Callee, External, FloatOperation, Instruction, IntOperation,
    Operand, Target, ValueKind,
};
use crate::codegen::rules::{
    add_float, add_text, any_holds_template, bind, bind_parameters, block, branch, branch_on, buffer_size,
    byte_length, call_external, close_body, concatenate, declare, emit, entry_state, finish_body,
    emit_arguments, emit_value, embedded_expression, escape_percent, find_function, float_floor_divide, float_modulo,
    float_power, function_call, holds_template, int_correction, int_divide, int_floor_divide, int_modulo,
    int_power, lookup, lower_arguments, lower_binary, lower_expression, lower_program,
    lower_return, lower_segments, lower_statement, lower_statements, lower_template, lower_unary,
    message, open_block, operands, print_call, print_float, print_text, print_value,
    print_values, shown, upcoming, zero_operand, zero_text, BindingView, BodyView, ErrorView,
    SignatureView, State, Value,
};
use crate::lexer::text::chars_of;
use crate::parser::parser::{nodes_view, option_view, Parser};
use vstd::prelude::*;
use vstd::string::StringExecFns;

verus! {

/// The name and shape of a function of the unit.
#[derive(Debug, Clone, PartialEq)]
pub struct Signature {
    pub name: String,
    /// The number of parameters; each is a 64-bit integer.
    pub parameters: usize,
    /// The entry function returns a 32-bit status; every other function
    /// returns a 64-bit integer.
    pub entry: bool,
}

/// The finished body of the function with index `function`.
#[derive(Debug, Clone, PartialEq)]
pub struct Body {
    pub function: usize,
    pub instructions: Vec<Instruction>,
}

/// A name bound to a stack slot.
#[derive(Debug, Clone, PartialEq)]
pub struct Binding {
    pub name: String,
    /// The index of the `Alloca` that made the slot.
    pub slot: usize,
    pub kind: ValueKind,
}

/// Why lowering failed.
#[derive(Debug, Clone, PartialEq)]
pub enum CodegenError {
    ExpectedProgram,
    UnsupportedExpression,
    UnsupportedOperator,
    UnsupportedOperation,
    UnsupportedUnaryMinus,
    UnsupportedUnaryNot,
    DivisionByZero,
    UndefinedVariable(String),
    UndefinedFunction(String),
}

impl View for Signature {
    type V = SignatureView;

    open spec fn view(&self) -> SignatureView {
        SignatureView { name: self.name@, parameters: self.parameters as nat, entry: self.entry }
    }
}

impl View for Body {
    type V = BodyView;

    open spec fn view(&self) -> BodyView {
        BodyView { function: self.function as nat, instructions: self.instructions@ }
    }
}

impl View for Binding {
    type V = BindingView;

    open spec fn view(&self) -> BindingView {
        BindingView { name: self.name@, slot: self.slot as nat, kind: self.kind }
    }
}

impl View for CodegenError {
    type V = ErrorView;

    open spec fn view(&self) -> ErrorView {
        match self {
            CodegenError::ExpectedProgram => ErrorView::ExpectedProgram,
            CodegenError::UnsupportedExpression => ErrorView::UnsupportedExpression,
            CodegenError::UnsupportedOperator => ErrorView::UnsupportedOperator,
            CodegenError::UnsupportedOperation => ErrorView::UnsupportedOperation,
            CodegenError::UnsupportedUnaryMinus => ErrorView::UnsupportedUnaryMinus,
            CodegenError::UnsupportedUnaryNot => ErrorView::UnsupportedUnaryNot,
            CodegenError::DivisionByZero => ErrorView::DivisionByZero,
            CodegenError::UndefinedVariable(name) => ErrorView::UndefinedVariable(name@),
            CodegenError::UndefinedFunction(name) => ErrorView::UndefinedFunction(name@),
        }
    }
}

impl CodegenError {
    /// The text of the error.
    pub fn message(&self) -> (text: String)
        ensures
            text@ == message(self@),
    {
        match self {
            CodegenError::ExpectedProgram => "Expected a program node".to_owned(),
            CodegenError::UnsupportedExpression => "Unsupported expression type".to_owned(),
            CodegenError::UnsupportedOperator => "Unsupported binary operator".to_owned(),
            CodegenError::UnsupportedOperation => "Unsupported operation".to_owned(),
            CodegenError::UnsupportedUnaryMinus => "Unsupported unary minus operation".to_owned(),
            CodegenError::UnsupportedUnaryNot => "Unsupported unary not operation".to_owned(),
            CodegenError::DivisionByZero => "Division by zero".to_owned(),
            CodegenError::UndefinedVariable(name) => {
                let mut text = "Undefined variable: ".to_owned();
                text.append(name.as_str());
                text
            },
            CodegenError::UndefinedFunction(name) => {
                let mut text = "Undefined function: ".to_owned();
                text.append(name.as_str());
                text
            },
        }
    }
}

/// The view of a lowering result: the error by its view.
pub open spec fn result_view<T>(result: Result<T, CodegenError>) -> Result<T, ErrorView> {
    match result {
        Ok(value) => Ok(value),
        Err(error) => Err(error@),
    }
}

/// `base` followed by `end`.
fn joined(base: &str, end: &str) -> (text: String)
    ensures
        text@ == base@ + end@,
{
    let mut text = base.to_owned();
    text.append(end);
    text
}

/// Whether two texts are the same.
fn same_text(left: &String, right: &str) -> (same: bool)
    ensures
        same == (left@ == right@),
{
    let other = right.to_owned();
    *left == other
}

/// `text` with every `%` doubled.
fn escaped_percent(text: &str) -> (escaped: String)
    ensures
        escaped@ == escape_percent(text@),
{
    let chars = chars_of(text);
    let mut escaped = String::new();
    let mut i: usize = 0;
    while i < chars.len()
        invariant
            i <= chars@.len(),
            chars@ == text@,
            escaped@ == escape_percent(chars@.subrange(0, i as int)),
        decreases chars@.len() - i,
    {
        let ghost before = chars@.subrange(0, i as int);
        let ghost longer = chars@.subrange(0, i + 1);
        assert(longer.drop_last() == before);
        assert(longer.last() == chars@[i as int]);
        if chars[i] == '%' {
            escaped.push('%');
            escaped.push('%');
            assert(escaped@ =~= escape_percent(before) + seq!['%', '%']);
        } else {
            escaped.push(chars[i]);
        }
        i += 1;
    }
    assert(chars@.subrange(0, i as int) == chars@);
    escaped
}

/// Whether `text` holds nothing but `0` and `.`.
fn is_zero_text(text: &str) -> (zero: bool)
    ensures
        zero == zero_text(text@),
{
    let chars = chars_of(text);
    let mut i: usize = 0;
    while i < chars.len()
        invariant
            i <= chars@.len(),
            chars@ == text@,
            forall|k: int| 0 <= k < i ==> #[trigger] chars@[k] == '0' || chars@[k] == '.',
        decreases chars@.len() - i,
    {
        if chars[i] != '0' && chars[i] != '.' {
            return false;
        }
        i += 1;
    }
    true
}

fn one(a: Operand) -> (values: Vec<Operand>)
    ensures
        values@ == seq![a],
{
    let values = vec![a];
    assert(values@ =~= seq![a]);
    values
}

fn two(a: Operand, b: Operand) -> (values: Vec<Operand>)
    ensures
        values@ == seq![a, b],
{
    let values = vec![a, b];
    assert(values@ =~= seq![a, b]);
    values
}

/// The state of lowering: what has been made so far, and the function that
/// is being built.
pub struct Lowering {
    signatures: Vec<Signature>,
    bodies: Vec<Body>,
    strings: Vec<String>,
    floats: Vec<String>,
    externals: Vec<External>,
    body: Vec<Instruction>,
    function: usize,
    entry: bool,
    /// The storage table of the function being built, in the order in which
    /// names were bound. A name that is bound again gets a new slot, and the
    /// last binding of a name is the one in force.
    variables: Vec<Binding>,
}

impl View for Lowering {
    type V = State;

    closed spec fn view(&self) -> State {
        State {
            signatures: self.signatures@.map_values(|s: Signature| s@),
            bodies: self.bodies@.map_values(|b: Body| b@),
            strings: self.strings@.map_values(|s: String| s@),
            floats: self.floats@.map_values(|s: String| s@),
            externals: self.externals@,
            body: self.body@,
            function: self.function as nat,
            entry: self.entry,
            variables: self.variables@.map_values(|b: Binding| b@),
        }
    }
}

/// Whether a template literal stands anywhere in an expression.
pub fn holds_template_in(node: &Node) -> (found: bool)
    ensures
        found == holds_template(node@),
    decreases node,
{
    match node {
        Node::Literal(literal) => match &literal.value {
            LiteralValue::FString(_) => true,
            _ => false,
        },
        Node::Unary(unary) => holds_template_in(&unary.operand),
        Node::Binary(binary) => holds_template_in(&binary.left) || holds_template_in(
            &binary.right,
        ),
        Node::Call(call) => {
            assert(node@->Call_arguments =~= nodes_view(call.arguments@));
            holds_template_in_call(call)
        },
        _ => false,
    }
}

/// Whether a template literal stands in an argument of a call.
fn holds_template_in_call(call: &Call) -> (found: bool)
    ensures
        found == any_holds_template(nodes_view(call.arguments@), 0),
    decreases call,
{
    holds_template_in_any(&call.arguments)
}

/// Whether a template literal stands in one of some expressions.
fn holds_template_in_any(nodes: &Vec<Node>) -> (found: bool)
    ensures
        found == any_holds_template(nodes_view(nodes@), 0),
    decreases nodes,
{
    let ghost all = nodes_view(nodes@);
    let mut i: usize = 0;
    while i < nodes.len()
        invariant
            i <= nodes@.len(),
            all == nodes_view(nodes@),
            any_holds_template(all, 0) == any_holds_template(all, i as nat),
        decreases nodes@.len() - i,
    {
        if holds_template_in(&nodes[i]) {
            return true;
        }
        i += 1;
    }
    false
}

/// The expression that the text between the braces of a template stands
/// for.
pub fn embedded_expression_of(text: &str) -> (node: Option<Node>)
    ensures
        option_view(node) == embedded_expression(text@),
{
    match Parser::parse_expression_text(text) {
        Some(node) => if holds_template_in(&node) {
            None
        } else {
            Some(node)
        },
        None => None,
    }
}

impl Lowering {
    /// A state in which nothing has been made.
    pub fn new() -> (lowering: Self)
        ensures
            lowering@ == (State {
                signatures: Seq::empty(),
                bodies: Seq::empty(),
                strings: Seq::empty(),
                floats: Seq::empty(),
                externals: Seq::empty(),
                body: Seq::empty(),
                function: 0,
                entry: false,
                variables: Seq::empty(),
            }),
    {
        let lowering = Lowering {
            signatures: Vec::new(),
            bodies: Vec::new(),
            strings: Vec::new(),
            floats: Vec::new(),
            externals: Vec::new(),
            body: Vec::new(),
            function: 0,
            entry: false,
            variables: Vec::new(),
        };
        assert(lowering@.signatures =~= Seq::empty());
        assert(lowering@.bodies =~= Seq::empty());
        assert(lowering@.strings =~= Seq::empty());
        assert(lowering@.floats =~= Seq::empty());
        assert(lowering@.variables =~= Seq::empty());
        lowering
    }

    /// The functions of the unit.
    pub fn signatures(&self) -> (signatures: &Vec<Signature>)
        ensures
            signatures@.map_values(|s: Signature| s@) == self@.signatures,
    {
        &self.signatures
    }

    /// The finished function bodies.
    pub fn bodies(&self) -> (bodies: &Vec<Body>)
        ensures
            bodies@.map_values(|b: Body| b@) == self@.bodies,
    {
        &self.bodies
    }

    /// The string constants.
    pub fn strings(&self) -> (strings: &Vec<String>)
        ensures
            strings@.map_values(|s: String| s@) == self@.strings,
    {
        &self.strings
    }

    /// The float constants, as decimal text.
    pub fn floats(&self) -> (floats: &Vec<String>)
        ensures
            floats@.map_values(|s: String| s@) == self@.floats,
    {
        &self.floats
    }

    /// The C library functions that the unit declares.
    pub fn externals(&self) -> (externals: &Vec<External>)
        ensures
            externals@ == self@.externals,
    {
        &self.externals
    }

    fn emit(&mut self, instruction: Instruction) -> (operand: Operand)
        ensures
            final(self)@ == emit(old(self)@, instruction),
            operand == upcoming(old(self)@),
    {
        let operand = Operand::Result(self.body.len());
        self.body.push(instruction);
        operand
    }

    fn emit_value(&mut self, instruction: Instruction, kind: ValueKind) -> (value: Value)
        ensures
            (final(self)@, value) == emit_value(old(self)@, instruction, kind),
    {
        let operand = self.emit(instruction);
        Value { operand, kind }
    }

    fn add_text(&mut self, text: String) -> (operand: Operand)
        ensures
            (final(self)@, operand) == add_text(old(self)@, text@),
    {
        let operand = Operand::Text(self.strings.len());
        self.strings.push(text);
        assert(self@.strings =~= old(self)@.strings.push(text@));
        operand
    }

    fn add_float(&mut self, text: String) -> (operand: Operand)
        ensures
            (final(self)@, operand) == add_float(old(self)@, text@),
    {
        let operand = Operand::Float(self.floats.len());
        self.floats.push(text);
        assert(self@.floats =~= old(self)@.floats.push(text@));
        operand
    }

    fn declare(&mut self, external: External)
        ensures
            final(self)@ == declare(old(self)@, external),
    {
        let mut i: usize = 0;
        while i < self.externals.len()
            invariant
                *self == *old(self),
                i <= self.externals@.len(),
                forall|k: int| 0 <= k < i ==> self.externals@[k] != external,
            decreases self.externals@.len() - i,
        {
            if self.externals[i] == external {
                return ;
            }
            i += 1;
        }
        self.externals.push(external);
    }

    fn emit_arguments(&mut self, values: &Vec<Operand>)
        ensures
            final(self)@ == emit_arguments(old(self)@, values@),
    {
        let mut i: usize = 0;
        assert(values@.subrange(0, values@.len() as int) == values@);
        while i < values.len()
            invariant
                i <= values@.len(),
                emit_arguments(old(self)@, values@) == emit_arguments(
                    self@,
                    values@.subrange(i as int, values@.len() as int),
                ),
            decreases values@.len() - i,
        {
            let ghost later = values@.subrange(i as int, values@.len() as int);
            assert(later.subrange(1, later.len() as int) == values@.subrange(
                i + 1,
                values@.len() as int,
            ));
            self.emit(Instruction::Argument { value: values[i] });
            i += 1;
        }
    }

    fn call_external(&mut self, external: External, values: &Vec<Operand>) -> (operand: Operand)
        ensures
            (final(self)@, operand) == call_external(old(self)@, external, values@),
    {
        proof {
            reveal(call_external);
        }
        self.declare(external);
        self.emit_arguments(values);
        self.emit(Instruction::Call { callee: Callee::External(external), arguments: values.len() })
    }
}

impl Lowering {
    /// The slot and kind that `name` is bound to.
    fn lookup(&self, name: &String) -> (found: Option<(usize, ValueKind)>)
        ensures
            match found {
                Some((slot, kind)) => lookup(self@.variables, name@) matches Some(binding)
                    && binding.slot == slot && binding.kind == kind,
                None => lookup(self@.variables, name@) is None,
            },
    {
        let ghost all = self@.variables;
        let mut i: usize = self.variables.len();
        assert(all.subrange(0, i as int) == all);
        while i > 0
            invariant
                i <= self.variables@.len(),
                all == self@.variables,
                lookup(all, name@) == lookup(all.subrange(0, i as int), name@),
            decreases i,
        {
            let ghost now = all.subrange(0, i as int);
            assert(now.drop_last() == all.subrange(0, i - 1));
            assert(now.last() == self.variables@[i - 1]@);
            i -= 1;
            if self.variables[i].name == *name {
                return Some((self.variables[i].slot, self.variables[i].kind));
            }
        }
        None
    }

    /// The index of the first function called `name` that is no entry
    /// function.
    fn find_function(&self, name: &String) -> (found: Option<usize>)
        ensures
            match found {
                Some(index) => find_function(self@.signatures, name@, 0) == Some(index as nat)
                    && index < self@.signatures.len(),
                None => find_function(self@.signatures, name@, 0) is None,
            },
    {
        let mut i: usize = 0;
        while i < self.signatures.len()
            invariant
                i <= self.signatures@.len(),
                find_function(self@.signatures, name@, 0) == find_function(
                    self@.signatures,
                    name@,
                    i as nat,
                ),
            decreases self.signatures@.len() - i,
        {
            if !self.signatures[i].entry && self.signatures[i].name == *name {
                return Some(i);
            }
            i += 1;
        }
        None
    }

    fn zero_operand(&self, operand: Operand) -> (zero: bool)
        ensures
            zero == zero_operand(self@, operand),
    {
        match operand {
            Operand::Integer(v) => v == 0,
            Operand::Float(index) => index < self.floats.len() && is_zero_text(
                self.floats[index].as_str(),
            ),
            _ => false,
        }
    }

    fn int_binary(&mut self, operation: IntOperation, left: Operand, right: Operand) -> (value:
        Value)
        ensures
            (final(self)@, value) == emit_value(
                old(self)@,
                Instruction::IntBinary { operation, left, right },
                ValueKind::Int,
            ),
    {
        self.emit_value(Instruction::IntBinary { operation, left, right }, ValueKind::Int)
    }

    fn float_binary(&mut self, operation: FloatOperation, left: Operand, right: Operand) -> (value:
        Value)
        ensures
            (final(self)@, value) == emit_value(
                old(self)@,
                Instruction::FloatBinary { operation, left, right },
                ValueKind::Float,
            ),
    {
        self.emit_value(Instruction::FloatBinary { operation, left, right }, ValueKind::Float)
    }

    fn concatenate_strings(&mut self, left: Operand, right: Operand) -> (value: Value)
        ensures
            (final(self)@, value) == concatenate(old(self)@, left, right),
    {
        proof {
            reveal(concatenate);
        }
        let left_length = self.call_external(External::Strlen, &one(left));
        let right_length = self.call_external(External::Strlen, &one(right));
        let both = self.int_binary(IntOperation::Add, left_length, right_length);
        let size = self.int_binary(IntOperation::Add, both.operand, Operand::Integer(1));
        let room = self.call_external(External::Malloc, &one(size.operand));
        self.call_external(External::Strcpy, &two(room, left));
        self.call_external(External::Strcat, &two(room, right));
        Value { operand: room, kind: ValueKind::Pointer }
    }

    fn int_modulo(&mut self, left: Operand, right: Operand) -> (value: Value)
        ensures
            (final(self)@, value) == int_modulo(old(self)@, left, right),
    {
        proof {
            reveal(int_modulo);
        }
        let remainder = self.int_binary(IntOperation::Remainder, left, right).operand;
        let correction = self.int_correction(remainder, right, right);
        self.int_binary(IntOperation::Add, remainder, correction)
    }

    fn int_correction(&mut self, remainder: Operand, right: Operand, step: Operand) -> (operand:
        Operand)
        ensures
            (final(self)@, operand) == int_correction(old(self)@, remainder, right, step),
    {
        proof {
            reveal(int_correction);
        }
        let exact = self.emit(Instruction::IntEqual { left: remainder, right: Operand::Integer(0) });
        let remainder_negative = self.emit(
            Instruction::IntGreater { left: Operand::Integer(0), right: remainder },
        );
        let divisor_negative = self.emit(
            Instruction::IntGreater { left: Operand::Integer(0), right },
        );
        let alike = self.emit(
            Instruction::IntEqual { left: remainder_negative, right: divisor_negative },
        );
        let inner = self.emit(
            Instruction::Select {
                condition: alike,
                then_value: Operand::Integer(0),
                else_value: step,
                kind: ValueKind::Int,
            },
        );
        self.emit(
            Instruction::Select {
                condition: exact,
                then_value: Operand::Integer(0),
                else_value: inner,
                kind: ValueKind::Int,
            },
        )
    }

    fn int_floor_divide(&mut self, left: Operand, right: Operand) -> (value: Value)
        ensures
            (final(self)@, value) == int_floor_divide(old(self)@, left, right),
    {
        proof {
            reveal(int_floor_divide);
        }
        let remainder = self.int_binary(IntOperation::Remainder, left, right).operand;
        let correction = self.int_correction(remainder, right, Operand::Integer(-1));
        let quotient = self.int_binary(IntOperation::Divide, left, right).operand;
        self.int_binary(IntOperation::Add, quotient, correction)
    }

    fn float_modulo(&mut self, left: Operand, right: Operand) -> (value: Value)
        ensures
            (final(self)@, value) == float_modulo(old(self)@, left, right),
    {
        proof {
            reveal(float_modulo);
        }
        let zero = self.add_float("0.0".to_owned());
        let remainder = self.float_binary(FloatOperation::Remainder, left, right).operand;
        let exact = self.emit(Instruction::FloatEqual { left: remainder, right: zero });
        let remainder_negative = self.emit(Instruction::FloatLess { left: remainder, right: zero });
        let divisor_negative = self.emit(Instruction::FloatLess { left: right, right: zero });
        let alike = self.emit(
            Instruction::IntEqual { left: remainder_negative, right: divisor_negative },
        );
        let inner = self.emit(
            Instruction::Select {
                condition: alike,
                then_value: zero,
                else_value: right,
                kind: ValueKind::Float,
            },
        );
        let correction = self.emit(
            Instruction::Select {
                condition: exact,
                then_value: zero,
                else_value: inner,
                kind: ValueKind::Float,
            },
        );
        self.float_binary(FloatOperation::Add, remainder, correction)
    }

    fn float_floor_divide(&mut self, left: Operand, right: Operand) -> (value: Value)
        ensures
            (final(self)@, value) == float_floor_divide(old(self)@, left, right),
    {
        proof {
            reveal(float_floor_divide);
        }
        let quotient = self.float_binary(FloatOperation::Divide, left, right);
        let floor = self.call_external(External::Floor, &one(quotient.operand));
        Value { operand: floor, kind: ValueKind::Float }
    }

    fn int_power(&mut self, left: Operand, right: Operand) -> (value: Value)
        ensures
            (final(self)@, value) == int_power(old(self)@, left, right),
    {
        proof {
            reveal(int_power);
        }
        let result = self.emit_value(Instruction::Alloca { kind: ValueKind::Int }, ValueKind::Pointer);
        self.emit(Instruction::Store { slot: result.operand, value: Operand::Integer(1) });
        let count = self.emit_value(Instruction::Alloca { kind: ValueKind::Int }, ValueKind::Pointer);
        self.emit(Instruction::Store { slot: count.operand, value: right });
        self.emit(Instruction::Branch { target: Target::Ahead(1) });
        self.emit(Instruction::Label { label: BlockLabel::PowerCheck });
        let left_over = self.emit_value(
            Instruction::Load { slot: count.operand, kind: ValueKind::Int },
            ValueKind::Int,
        );
        let more = self.emit(
            Instruction::IntGreater { left: left_over.operand, right: Operand::Integer(0) },
        );
        self.emit(
            Instruction::CondBranch {
                condition: more,
                then_target: Target::Ahead(1),
                else_target: Target::Ahead(2),
            },
        );
        self.emit(Instruction::Label { label: BlockLabel::PowerStep });
        let so_far = self.emit_value(
            Instruction::Load { slot: result.operand, kind: ValueKind::Int },
            ValueKind::Int,
        );
        let product = self.int_binary(IntOperation::Multiply, so_far.operand, left);
        self.emit(Instruction::Store { slot: result.operand, value: product.operand });
        let counted = self.emit_value(
            Instruction::Load { slot: count.operand, kind: ValueKind::Int },
            ValueKind::Int,
        );
        let fewer = self.int_binary(IntOperation::Subtract, counted.operand, Operand::Integer(1));
        self.emit(Instruction::Store { slot: count.operand, value: fewer.operand });
        self.emit(Instruction::Branch { target: Target::Back(1) });
        self.emit(Instruction::Label { label: BlockLabel::PowerDone });
        self.emit_value(
            Instruction::Load { slot: result.operand, kind: ValueKind::Int },
            ValueKind::Int,
        )
    }

    fn float_power(&mut self, left: Operand, right: Operand) -> (value: Value)
        ensures
            (final(self)@, value) == float_power(old(self)@, left, right),
    {
        proof {
            reveal(float_power);
        }
        let power = self.call_external(External::Pow, &two(left, right));
        Value { operand: power, kind: ValueKind::Float }
    }

    fn int_divide(&mut self, left: Operand, right: Operand) -> (value: Value)
        ensures
            (final(self)@, value) == int_divide(old(self)@, left, right),
    {
        proof {
            reveal(int_divide);
        }
        let dividend = self.emit_value(Instruction::IntToFloat { value: left }, ValueKind::Float);
        let divisor = self.emit_value(Instruction::IntToFloat { value: right }, ValueKind::Float);
        self.float_binary(FloatOperation::Divide, dividend.operand, divisor.operand)
    }

    /// Lowers an arithmetic operator on two lowered operands.
    fn lower_binary(&mut self, operator: BinaryOperator, left: Value, right: Value) -> (result:
        Result<Value, CodegenError>)
        ensures
            (final(self)@, result_view(result)) == lower_binary(old(self)@, operator, left, right),
    {
        proof {
            reveal(lower_binary);
        }
        let divides = operator == BinaryOperator::Divide || operator == BinaryOperator::FloorDivide
            || operator == BinaryOperator::Modulo;
        let arithmetic = divides || operator == BinaryOperator::Add || operator
            == BinaryOperator::Subtract || operator == BinaryOperator::Multiply || operator
            == BinaryOperator::Power;
        if !arithmetic {
            return Err(CodegenError::UnsupportedOperator);
        }
        if left.kind != right.kind || left.kind == ValueKind::Bool || left.kind
            == ValueKind::NoneValue || (left.kind == ValueKind::Pointer && operator
            != BinaryOperator::Add) {
            return Err(CodegenError::UnsupportedOperation);
        }
        if divides && self.zero_operand(right.operand) {
            return Err(CodegenError::DivisionByZero);
        }
        let l = left.operand;
        let r = right.operand;
        let value = match left.kind {
            ValueKind::Pointer => self.concatenate_strings(l, r),
            ValueKind::Int => match operator {
                BinaryOperator::Divide => self.int_divide(l, r),
                BinaryOperator::FloorDivide => self.int_floor_divide(l, r),
                BinaryOperator::Modulo => self.int_modulo(l, r),
                BinaryOperator::Power => self.int_power(l, r),
                BinaryOperator::Subtract => self.int_binary(IntOperation::Subtract, l, r),
                BinaryOperator::Multiply => self.int_binary(IntOperation::Multiply, l, r),
                _ => self.int_binary(IntOperation::Add, l, r),
            },
            ValueKind::Float => match operator {
                BinaryOperator::Divide => self.float_binary(FloatOperation::Divide, l, r),
                BinaryOperator::FloorDivide => self.float_floor_divide(l, r),
                BinaryOperator::Modulo => self.float_modulo(l, r),
                BinaryOperator::Power => self.float_power(l, r),
                BinaryOperator::Subtract => self.float_binary(FloatOperation::Subtract, l, r),
                BinaryOperator::Multiply => self.float_binary(FloatOperation::Multiply, l, r),
                _ => self.float_binary(FloatOperation::Add, l, r),
            },
            ValueKind::Bool | ValueKind::NoneValue => left,
        };
        Ok(value)
    }

    /// Lowers a unary operator on a lowered operand.
    fn lower_unary(&mut self, operator: UnaryOperator, operand: Value) -> (result: Result<
        Value,
        CodegenError,
    >)
        ensures
            (final(self)@, result_view(result)) == lower_unary(old(self)@, operator, operand),
    {
        proof {
            reveal(lower_unary);
        }
        match operator {
            UnaryOperator::Plus => Ok(operand),
            UnaryOperator::Minus => match operand.kind {
                ValueKind::Int => Ok(
                    self.int_binary(IntOperation::Subtract, Operand::Integer(0), operand.operand),
                ),
                ValueKind::Float => {
                    let zero = self.add_float("0.0".to_owned());
                    Ok(self.float_binary(FloatOperation::Subtract, zero, operand.operand))
                },
                _ => Err(CodegenError::UnsupportedUnaryMinus),
            },
            UnaryOperator::Not => match operand.kind {
                ValueKind::Bool => Ok(
                    self.emit_value(
                        Instruction::IntBinary {
                            operation: IntOperation::Subtract,
                            left: Operand::Integer(1),
                            right: operand.operand,
                        },
                        ValueKind::Bool,
                    ),
                ),
                _ => Err(CodegenError::UnsupportedUnaryNot),
            },
        }
    }

    /// Writes `format` with `printf`, with one value where there is one.
    fn print_text(&mut self, format: String, value: Option<Operand>)
        ensures
            final(self)@ == print_text(old(self)@, format@, value),
    {
        proof {
            reveal(print_text);
        }
        let text = self.add_text(format);
        let values = match value {
            Some(operand) => two(text, operand),
            None => one(text),
        };
        self.call_external(External::Printf, &values);
    }

    fn branch(&mut self, ahead: usize)
        ensures
            final(self)@ == branch(old(self)@, ahead),
    {
        self.emit(Instruction::Branch { target: Target::Ahead(ahead) });
    }

    fn branch_on(&mut self, condition: Operand, then_ahead: usize, else_ahead: usize)
        ensures
            final(self)@ == branch_on(old(self)@, condition, then_ahead, else_ahead),
    {
        self.emit(
            Instruction::CondBranch {
                condition,
                then_target: Target::Ahead(then_ahead),
                else_target: Target::Ahead(else_ahead),
            },
        );
    }

    fn block(&mut self, label: BlockLabel)
        ensures
            final(self)@ == block(old(self)@, label),
    {
        self.emit(Instruction::Label { label });
    }

    /// Turns a boolean or `None` into the text that stands for it.
    fn shown(&mut self, value: Value) -> (written: Value)
        ensures
            (final(self)@, written) == shown(old(self)@, value),
    {
        proof {
            reveal(shown);
        }
        match value.kind {
            ValueKind::Bool => {
                let yes = self.add_text("True".to_owned());
                let no = self.add_text("False".to_owned());
                let is_true = self.emit(
                    Instruction::IntEqual { left: value.operand, right: Operand::Integer(1) },
                );
                self.emit_value(
                    Instruction::Select {
                        condition: is_true,
                        then_value: yes,
                        else_value: no,
                        kind: ValueKind::Pointer,
                    },
                    ValueKind::Pointer,
                )
            },
            ValueKind::NoneValue => {
                let operand = self.add_text("None".to_owned());
                Value { operand, kind: ValueKind::Pointer }
            },
            _ => value,
        }
    }

    fn print_float(&mut self, value: Operand, end: &str)
        ensures
            final(self)@ == print_float(old(self)@, value, end@),
    {
        proof {
            reveal(print_float);
        }
        let zero = self.add_float("0.0".to_owned());
        let is_zero = self.emit(Instruction::FloatEqual { left: value, right: zero });
        self.branch_on(is_zero, 1, 2);
        self.block(BlockLabel::PrintZero);
        self.print_text(joined("0.0", end), None);
        self.branch(2);
        self.block(BlockLabel::PrintFloat);
        self.print_text(joined("%g", end), Some(value));
        self.branch(1);
        self.block(BlockLabel::PrintDone);
    }

    fn print_value(&mut self, value: Value, end: &str)
        ensures
            final(self)@ == print_value(old(self)@, value, end@),
    {
        proof {
            reveal(print_value);
        }
        let value = self.shown(value);
        match value.kind {
            ValueKind::Int => self.print_text(joined("%ld", end), Some(value.operand)),
            ValueKind::Float => self.print_float(value.operand, end),
            _ => self.print_text(joined("%s", end), Some(value.operand)),
        }
    }

    /// Lowers the built-in `print` on lowered arguments.
    fn print_call(&mut self, values: &Vec<Value>) -> (value: Value)
        ensures
            (final(self)@, value) == print_call(old(self)@, values@),
    {
        proof {
            reveal(print_call);
        }
        if values.len() == 0 {
            self.print_text("\n".to_owned(), None);
        } else {
            let mut i: usize = 0;
            while i < values.len()
                invariant
                    i <= values@.len(),
                    print_values(old(self)@, values@, 0) == print_values(self@, values@, i as nat),
                decreases values@.len() - i,
            {
                if i + 1 == values.len() {
                    self.print_value(values[i], "\n");
                } else {
                    self.print_value(values[i], " ");
                }
                i += 1;
            }
        }
        Value { operand: Operand::Integer(0), kind: ValueKind::NoneValue }
    }

    /// Lowers a call of the function with index `function` on lowered
    /// arguments.
    fn function_call(&mut self, function: usize, values: &Vec<Value>) -> (result: Result<
        Value,
        CodegenError,
    >)
        ensures
            (final(self)@, result_view(result)) == function_call(
                old(self)@,
                function as nat,
                values@,
            ),
    {
        proof {
            reveal(function_call);
        }
        if function >= self.signatures.len() || values.len()
            != self.signatures[function].parameters {
            return Err(CodegenError::UnsupportedOperation);
        }
        let mut arguments: Vec<Operand> = Vec::new();
        let mut integers = true;
        let mut i: usize = 0;
        while i < values.len()
            invariant
                i <= values@.len(),
                arguments@.len() == i,
                integers == forall|k: int|
                    0 <= k < i ==> (#[trigger] values@[k]).kind == ValueKind::Int,
                forall|k: int| 0 <= k < i ==> #[trigger] arguments@[k] == values@[k].operand,
            decreases values@.len() - i,
        {
            match values[i].kind {
                ValueKind::Int => {},
                _ => {
                    assert(values@[i as int].kind != ValueKind::Int);
                    integers = false;
                },
            }
            arguments.push(values[i].operand);
            i += 1;
        }
        if !integers {
            return Err(CodegenError::UnsupportedOperation);
        }
        assert(arguments@ =~= operands(values@));
        self.emit_arguments(&arguments);
        Ok(
            self.emit_value(
                Instruction::Call { callee: Callee::Function(function), arguments: values.len() },
                ValueKind::Int,
            ),
        )
    }
}

/// The view of a result that holds lowered values.
pub open spec fn values_result(result: Result<Vec<Value>, CodegenError>) -> Result<
    Seq<Value>,
    ErrorView,
> {
    match result {
        Ok(values) => Ok(values@),
        Err(error) => Err(error@),
    }
}

/// The view of a result that holds a finished unit.
pub open spec fn unit_result(result: Result<Lowering, CodegenError>) -> Result<State, ErrorView> {
    match result {
        Ok(unit) => Ok(unit@),
        Err(error) => Err(error@),
    }
}

proof fn lemma_buffer_size_floor(parts: Seq<FStringPartView>, from: nat)
    ensures
        buffer_size(parts, from) >= 256,
    decreases parts.len() - from,
{
    if from < parts.len() {
        lemma_buffer_size_floor(parts, from + 1);
    }
}

/// The size of the buffer for a template, unless it is too large.
fn template_buffer_size(parts: &Vec<FStringPart>) -> (size: Option<u32>)
    ensures
        match size {
            Some(n) => n == buffer_size(parts@.map_values(|p: FStringPart| p@), 0) && 256 <= n
                <= i32::MAX,
            None => buffer_size(parts@.map_values(|p: FStringPart| p@), 0) > i32::MAX,
        },
{
    let ghost all = parts@.map_values(|p: FStringPart| p@);
    let mut total: usize = 0;
    let mut i: usize = 0;
    while i < parts.len()
        invariant
            i <= parts@.len(),
            all == parts@.map_values(|p: FStringPart| p@),
            total + 256 <= i32::MAX,
            total + buffer_size(all, i as nat) == buffer_size(all, 0),
        decreases parts@.len() - i,
    {
        match &parts[i] {
            FStringPart::Literal(text) => {
                let length = text.as_str().len();
                assert(length == byte_length(text@));
                if length > 2147483647 - 256 - total {
                    proof {
                        lemma_buffer_size_floor(all, (i + 1) as nat);
                    }
                    return None;
                }
                total = total + length;
            },
            FStringPart::Expression(_) => {},
        }
        i += 1;
    }
    Some((total + 256) as u32)
}

impl Lowering {
    /// Lowers a template string.
    fn lower_template(&mut self, template: &FString) -> (result: Result<Value, CodegenError>)
        ensures
            (final(self)@, result_view(result)) == lower_template(old(self)@, template@),
        decreases 2nat, template,
    {
        proof {
            reveal(lower_template);
        }
        let ghost parts = template@;
        if template.parts.len() == 0 {
            let operand = self.add_text(String::new());
            return Ok(Value { operand, kind: ValueKind::Pointer });
        }
        let size = match template_buffer_size(&template.parts) {
            Some(size) => size,
            None => {
                return Err(CodegenError::UnsupportedOperation);
            },
        };
        let mut format = String::new();
        let mut values: Vec<Operand> = Vec::new();
        let mut i: usize = 0;
        assert(parts.subrange(0, parts.len() as int) == parts);
        while i < template.parts.len()
            invariant
                i <= template.parts@.len(),
                parts == template@,
                lower_segments(old(self)@, parts, Seq::empty(), Seq::empty()) == lower_segments(
                    self@,
                    parts.subrange(i as int, parts.len() as int),
                    format@,
                    values@,
                ),
                parts.len() > 0,
                buffer_size(parts, 0) <= i32::MAX,
            decreases template.parts@.len() - i,
        {
            let ghost now = parts.subrange(i as int, parts.len() as int);
            assert(now.subrange(1, now.len() as int) == parts.subrange(i + 1, parts.len() as int));
            assert(now[0] == template.parts@[i as int]@);
            match &template.parts[i] {
                FStringPart::Literal(text) => {
                    let escaped = escaped_percent(text.as_str());
                    format.append(escaped.as_str());
                },
                FStringPart::Expression(text) => match embedded_expression_of(text.as_str()) {
                    None => {
                        let operand = self.add_text(text.clone());
                        format.append("%s");
                        values.push(operand);
                    },
                    Some(node) => {
                        let value = match self.compile_expression(&node, true) {
                            Ok(value) => value,
                            Err(error) => {
                                proof {
                                    reveal(lower_template);
                                }
                                return Err(error);
                            },
                        };
                        let value = self.shown(value);
                        match value.kind {
                            ValueKind::Int => format.append("%ld"),
                            ValueKind::Float => format.append("%.6g"),
                            _ => format.append("%s"),
                        }
                        values.push(value.operand);
                    },
                },
            }
            i += 1;
        }
        let buffer = self.emit_value(Instruction::Buffer { size }, ValueKind::Pointer);
        let mut fill = two(buffer.operand, Operand::Int32(0));
        fill.push(Operand::Integer(size as i64));
        assert(fill@ =~= seq![buffer.operand, Operand::Int32(0), Operand::Integer(size as i64)]);
        self.call_external(External::Memset, &fill);
        let text = self.add_text(format);
        let mut arguments = two(buffer.operand, Operand::Integer((size - 1) as i64));
        arguments.push(text);
        let mut k: usize = 0;
        while k < values.len()
            invariant
                k <= values@.len(),
                arguments@ == seq![buffer.operand, Operand::Integer((size - 1) as i64), text]
                    + values@.subrange(0, k as int),
            decreases values@.len() - k,
        {
            arguments.push(values[k]);
            assert(values@.subrange(0, k + 1) == values@.subrange(0, k as int).push(values@[k as int]));
            k += 1;
        }
        assert(values@.subrange(0, values@.len() as int) == values@);
        self.call_external(External::Snprintf, &arguments);
        Ok(buffer)
    }

    /// Lowers the arguments of a call, in order.
    fn lower_arguments(&mut self, arguments: &Vec<Node>, embedded: bool) -> (result: Result<
        Vec<Value>,
        CodegenError,
    >)
        ensures
            (final(self)@, values_result(result)) == lower_arguments(
                old(self)@,
                nodes_view(arguments@),
                0,
                Seq::empty(),
                embedded,
            ),
        decreases
                if embedded {
                    0nat
                } else {
                    3nat
                },
                arguments,
    {
        let ghost all = nodes_view(arguments@);
        let mut values: Vec<Value> = Vec::new();
        let mut i: usize = 0;
        while i < arguments.len()
            invariant
                i <= arguments@.len(),
                all == nodes_view(arguments@),
                lower_arguments(old(self)@, all, 0, Seq::empty(), embedded) == lower_arguments(
                    self@,
                    all,
                    i as nat,
                    values@,
                    embedded,
                ),
            decreases arguments@.len() - i,
        {
            let value = match self.compile_expression(&arguments[i], embedded) {
                Ok(value) => value,
                Err(error) => {
                    return Err(error);
                },
            };
            values.push(value);
            i += 1;
        }
        Ok(values)
    }

    /// Lowers an expression; the value that it gives is left where the
    /// result says. `embedded` says that the expression stands between the
    /// braces of a template.
    pub fn compile_expression(&mut self, node: &Node, embedded: bool) -> (result: Result<
        Value,
        CodegenError,
    >)
        ensures
            (final(self)@, result_view(result)) == lower_expression(old(self)@, node@, embedded),
        decreases
                if embedded {
                    0nat
                } else {
                    3nat
                },
                node,
                1nat,
    {
        match node {
            Node::Literal(_) => self.lower_literal(node, embedded),
            Node::Identifier(identifier) => self.lower_identifier(&identifier.name),
            Node::Unary(unary) => {
                let operand = match self.compile_expression(&unary.operand, embedded) {
                    Ok(value) => value,
                    Err(error) => {
                        return Err(error);
                    },
                };
                self.lower_unary(unary.operator, operand)
            },
            Node::Binary(binary) => {
                let left = match self.compile_expression(&binary.left, embedded) {
                    Ok(value) => value,
                    Err(error) => {
                        return Err(error);
                    },
                };
                let right = match self.compile_expression(&binary.right, embedded) {
                    Ok(value) => value,
                    Err(error) => {
                        return Err(error);
                    },
                };
                self.lower_binary(binary.operator, left, right)
            },
            Node::Call(call) => {
                assert(node@->Call_arguments =~= nodes_view(call.arguments@));
                self.lower_call(call, embedded)
            },
            _ => Err(CodegenError::UnsupportedExpression),
        }
    }

    /// Lowers a literal.
    fn lower_literal(&mut self, node: &Node, embedded: bool) -> (result: Result<
        Value,
        CodegenError,
    >)
        requires
            node is Literal,
        ensures
            (final(self)@, result_view(result)) == lower_expression(old(self)@, node@, embedded),
        decreases
                if embedded {
                    0nat
                } else {
                    3nat
                },
                node,
                0nat,
    {
        proof {
            reveal_with_fuel(lower_template, 1);
        }
        let value = match node {
            Node::Literal(literal) => &literal.value,
            _ => {
                return Err(CodegenError::UnsupportedExpression);
            },
        };
        match value {
            LiteralValue::Integer(v) => Ok(
                Value { operand: Operand::Integer(*v), kind: ValueKind::Int },
            ),
            LiteralValue::Float(text) => {
                let operand = self.add_float(text.clone());
                Ok(Value { operand, kind: ValueKind::Float })
            },
            LiteralValue::String(text) => {
                let operand = self.add_text(text.clone());
                Ok(Value { operand, kind: ValueKind::Pointer })
            },
            LiteralValue::FString(template) => if embedded {
                Err(CodegenError::UnsupportedOperation)
            } else {
                self.lower_template(template)
            },
            LiteralValue::Boolean(b) => Ok(
                Value {
                    operand: if *b {
                        Operand::Integer(1)
                    } else {
                        Operand::Integer(0)
                    },
                    kind: ValueKind::Bool,
                },
            ),
            LiteralValue::NoneLiteral => Ok(
                Value { operand: Operand::Integer(0), kind: ValueKind::NoneValue },
            ),
        }
    }

    /// Lowers the use of a name: a load from the slot that it is bound to.
    fn lower_identifier(&mut self, name: &String) -> (result: Result<Value, CodegenError>)
        ensures
            (final(self)@, result_view(result)) == lower_expression(
                old(self)@,
                NodeView::Identifier { name: name@ },
                false,
            ),
            (final(self)@, result_view(result)) == lower_expression(
                old(self)@,
                NodeView::Identifier { name: name@ },
                true,
            ),
    {
        match self.lookup(name) {
            Some((slot, kind)) => Ok(
                self.emit_value(Instruction::Load { slot: Operand::Result(slot), kind }, kind),
            ),
            None => Err(CodegenError::UndefinedVariable(name.clone())),
        }
    }

    /// Lowers a call: of a function of the unit, or else of the built-in
    /// `print`.
    fn lower_call(&mut self, call: &Call, embedded: bool) -> (result: Result<Value, CodegenError>)
        ensures
            (final(self)@, result_view(result)) == lower_expression(
                old(self)@,
                NodeView::Call { callee: call.callee@, arguments: nodes_view(call.arguments@) },
                embedded,
            ),
        decreases
                if embedded {
                    0nat
                } else {
                    3nat
                },
                call,
    {
        let function = self.find_function(&call.callee);
        if function.is_none() && !same_text(&call.callee, "print") {
            return Err(CodegenError::UndefinedFunction(call.callee.clone()));
        }
        let values = match self.lower_arguments(&call.arguments, embedded) {
            Ok(values) => values,
            Err(error) => {
                return Err(error);
            },
        };
        match function {
            Some(index) => self.function_call(index, &values),
            None => Ok(self.print_call(&values)),
        }
    }

    /// Starts a new basic block where the one before has been closed.
    fn open_block(&mut self)
        ensures
            final(self)@ == open_block(old(self)@),
    {
        if self.body.len() > 0 && is_terminator(&self.body[self.body.len() - 1]) {
            self.block(BlockLabel::AfterReturn);
        }
    }

    /// Adds the return that a function needs where its last block is open.
    fn close_body(&mut self)
        ensures
            final(self)@ == close_body(old(self)@),
    {
        if !(self.body.len() > 0 && is_terminator(&self.body[self.body.len() - 1])) {
            let value = if self.entry {
                Operand::Int32(0)
            } else {
                Operand::Integer(0)
            };
            self.emit(Instruction::Return { value });
        }
    }

    /// Ends the function being built: its body joins the bodies of the unit.
    fn finish_body(&mut self)
        ensures
            final(self)@ == finish_body(old(self)@),
    {
        self.close_body();
        let mut instructions: Vec<Instruction> = Vec::new();
        core::mem::swap(&mut self.body, &mut instructions);
        let ghost before = self@.bodies;
        self.bodies.push(Body { function: self.function, instructions });
        self.variables = Vec::new();
        assert(self@.bodies =~= before.push(
            BodyView { function: self.function as nat, instructions: instructions@ },
        ));
        assert(self@.variables =~= Seq::empty());
    }

    /// Makes a slot for `value`, stores it, and binds `name` to the slot.
    fn bind(&mut self, name: String, value: Operand, kind: ValueKind)
        ensures
            final(self)@ == bind(old(self)@, name@, value, kind),
    {
        proof {
            reveal(bind);
        }
        let position = self.body.len();
        let slot = self.emit(Instruction::Alloca { kind });
        self.emit(Instruction::Store { slot, value });
        let ghost before = self@.variables;
        self.variables.push(Binding { name, slot: position, kind });
        assert(self@.variables =~= before.push(
            BindingView { name: name@, slot: position as nat, kind },
        ));
    }

    fn bind_parameters(&mut self, parameters: &Vec<String>)
        requires
            parameters@.len() <= usize::MAX,
        ensures
            final(self)@ == bind_parameters(
                old(self)@,
                parameters@.map_values(|p: String| p@),
                0,
            ),
    {
        let ghost names = parameters@.map_values(|p: String| p@);
        let mut i: usize = 0;
        while i < parameters.len()
            invariant
                i <= parameters@.len(),
                names == parameters@.map_values(|p: String| p@),
                bind_parameters(old(self)@, names, 0) == bind_parameters(self@, names, i as nat),
            decreases parameters@.len() - i,
        {
            self.bind(parameters[i].clone(), Operand::Parameter(i), ValueKind::Int);
            i += 1;
        }
    }

    /// Lowers a return statement.
    fn lower_return(&mut self, value: &Option<Box<Node>>) -> (result: Result<(), CodegenError>)
        ensures
            (final(self)@, result_view(result)) == lower_return(
                old(self)@,
                match value {
                    Some(node) => Some(Box::new(node@)),
                    None => None,
                },
            ),
    {
        proof {
            reveal(lower_return);
        }
        let status = if self.entry {
            Operand::Int32(0)
        } else {
            Operand::Integer(0)
        };
        match value {
            None => {
                self.emit(Instruction::Return { value: status });
                Ok(())
            },
            Some(node) => {
                let value = match self.compile_expression(node, false) {
                    Ok(value) => value,
                    Err(error) => {
                        return Err(error);
                    },
                };
                if self.entry {
                    self.emit(Instruction::Return { value: Operand::Int32(0) });
                    Ok(())
                } else {
                    match value.kind {
                        ValueKind::Int => {
                            self.emit(Instruction::Return { value: value.operand });
                            Ok(())
                        },
                        _ => Err(CodegenError::UnsupportedOperation),
                    }
                }
            },
        }
    }

    /// Lowers a statement into the function being built. A function
    /// definition becomes a function of its own.
    pub fn compile_statement(&mut self, node: &Node) -> (result: Result<(), CodegenError>)
        ensures
            (final(self)@, result_view(result)) == lower_statement(old(self)@, node@),
        decreases node,
    {
        self.open_block();
        match node {
            Node::Assignment(assignment) => {
                let value = match self.compile_expression(&assignment.value, false) {
                    Ok(value) => value,
                    Err(error) => {
                        return Err(error);
                    },
                };
                self.bind(assignment.name.clone(), value.operand, value.kind);
                Ok(())
            },
            Node::ExpressionStatement(statement) => {
                match self.compile_expression(&statement.expression, false) {
                    Ok(_) => Ok(()),
                    Err(error) => Err(error),
                }
            },
            Node::Function(function) => {
                let ghost outer = self@;
                let index = self.signatures.len();
                self.signatures.push(
                    Signature {
                        name: function.name.clone(),
                        parameters: function.parameters.len(),
                        entry: false,
                    },
                );
                let mut outer_body = one_label();
                core::mem::swap(&mut self.body, &mut outer_body);
                let mut outer_variables: Vec<Binding> = Vec::new();
                core::mem::swap(&mut self.variables, &mut outer_variables);
                let outer_function = self.function;
                let outer_entry = self.entry;
                self.function = index;
                self.entry = false;
                proof {
                    assert(self@.signatures =~= outer.signatures.push(
                        SignatureView {
                            name: function.name@,
                            parameters: function.parameters@.len(),
                            entry: false,
                        },
                    ));
                    assert(self@.variables =~= Seq::empty());
                }
                self.bind_parameters(&function.parameters);
                match self.compile_statement(&function.body) {
                    Err(error) => Err(error),
                    Ok(_) => {
                        self.finish_body();
                        self.body = outer_body;
                        self.variables = outer_variables;
                        self.function = outer_function;
                        self.entry = outer_entry;
                        Ok(())
                    },
                }
            },
            Node::Return(statement) => self.lower_return(&statement.value),
            _ => Ok(()),
        }
    }

    /// Lowers a whole program into a unit of its own. The unit is well
    /// formed: its blocks are closed and its instructions are in scope.
    pub fn lower(program: &Node) -> (result: Result<Lowering, CodegenError>)
        ensures
            unit_result(result) == lower_program(program@),
            result matches Ok(unit) ==> crate::codegen::laws::well_formed(unit@),
    {
        proof {
            crate::codegen::laws::lemma_unit_is_well_formed(program@);
        }
        match program {
            Node::Program(program_node) => {
                let mut unit = Lowering::new();
                unit.signatures.push(
                    Signature { name: "main".to_owned(), parameters: 0, entry: true },
                );
                unit.body.push(Instruction::Label { label: BlockLabel::Entry });
                unit.entry = true;
                assert(unit@.signatures =~= entry_state().signatures);
                assert(unit@.body =~= entry_state().body);
                assert(unit@ == entry_state());
                assert(program@->Program_statements =~= nodes_view(program_node.statements@));
                let ghost all = nodes_view(program_node.statements@);
                let mut i: usize = 0;
                while i < program_node.statements.len()
                    invariant
                        i <= program_node.statements@.len(),
                        all == nodes_view(program_node.statements@),
                        program@ == (NodeView::Program { statements: all }),
                        lower_statements(entry_state(), all, 0) == lower_statements(
                            unit@,
                            all,
                            i as nat,
                        ),
                    decreases program_node.statements@.len() - i,
                {
                    match unit.compile_statement(&program_node.statements[i]) {
                        Ok(_) => {},
                        Err(error) => {
                            return Err(error);
                        },
                    }
                    i += 1;
                }
                unit.finish_body();
                proof {
                    assert forall|b: int| 0 <= b < unit@.bodies.len() implies (
                    #[trigger] unit@.bodies[b]).instructions.len() <= usize::MAX by {
                        assert(unit@.bodies[b] == unit.bodies@[b]@);
                        assert(unit.bodies@[b].instructions@.len() == unit.bodies@[b].instructions.len());
                    }
                    assert(unit@.body.len() == unit.body.len());
                }
                Ok(unit)
            },
            _ => Err(CodegenError::ExpectedProgram),
        }
    }
}

/// A body that holds the label of its entry block and nothing else.
fn one_label() -> (body: Vec<Instruction>)
    ensures
        body@ == seq![Instruction::Label { label: BlockLabel::Entry }],
{
    let mut body: Vec<Instruction> = Vec::new();
    body.push(Instruction::Label { label: BlockLabel::Entry });
    assert(body@ =~= seq![Instruction::Label { label: BlockLabel::Entry }]);
    body
}

} // verus!
