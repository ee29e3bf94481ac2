//! The grammar, as functions from a token stream to a tree and the number of
//! tokens taken. A stream holds the tokens up to the end of input, without
//! the closing `Eof`.
//!
//! Precedence, lowest first: additive (`+ -`), multiplicative (`* / // %`),
//! power (`**`, right-associative), unary (`+ -`), primary. A rule that fails
//! gives no tree, and still says how many tokens it took before it failed.

use crate::ast::node::{
    template_segments, BinaryOperator, LiteralView, NodeView, UnaryOperator,
};
use crate::lexer::rules::tokens_of;
use crate::lexer::token::TokenView;
use vstd::prelude::*;

verus! {

/// The first token of a stream, or `Eof` where the stream is empty.
pub open spec fn head(ts: Seq<TokenView>) -> TokenView {
    if ts.len() > 0 {
        ts[0]
    } else {
        TokenView::Eof
    }
}

/// The second token of a stream, or `Eof` where there is none.
pub open spec fn second(ts: Seq<TokenView>) -> TokenView {
    if ts.len() > 1 {
        ts[1]
    } else {
        TokenView::Eof
    }
}

/// The stream without its first `n` tokens.
pub open spec fn rest(ts: Seq<TokenView>, n: nat) -> Seq<TokenView> {
    if n <= ts.len() {
        ts.subrange(n as int, ts.len() as int)
    } else {
        Seq::empty()
    }
}

pub open spec fn binary(left: NodeView, operator: BinaryOperator, right: NodeView) -> NodeView {
    NodeView::Binary { left: Box::new(left), operator, right: Box::new(right) }
}

pub open spec fn additive_operator(t: TokenView) -> Option<BinaryOperator> {
    match t {
        TokenView::Plus => Some(BinaryOperator::Add),
        TokenView::Minus => Some(BinaryOperator::Subtract),
        _ => None,
    }
}

pub open spec fn multiplicative_operator(t: TokenView) -> Option<BinaryOperator> {
    match t {
        TokenView::Multiply => Some(BinaryOperator::Multiply),
        TokenView::Divide => Some(BinaryOperator::Divide),
        TokenView::FloorDivide => Some(BinaryOperator::FloorDivide),
        TokenView::Modulo => Some(BinaryOperator::Modulo),
        _ => None,
    }
}

/// The value of a token that is a literal. A template string is split into
/// its segments here.
pub open spec fn literal_value(t: TokenView) -> Option<LiteralView> {
    match t {
        TokenView::Integer(v) => Some(LiteralView::Integer(v)),
        TokenView::Float(t) => Some(LiteralView::Float(t)),
        TokenView::String(t) => Some(LiteralView::String(t)),
        TokenView::FString(t) => Some(LiteralView::FString(template_segments(t))),
        TokenView::Boolean(b) => Some(LiteralView::Boolean(b)),
        TokenView::NoneLiteral => Some(LiteralView::NoneLiteral),
        _ => None,
    }
}

/// A literal, a name, a call, or an expression in parentheses.
#[verifier::opaque]
pub open spec fn primary(ts: Seq<TokenView>) -> (Option<NodeView>, nat)
    decreases ts.len(), 0nat,
{
    match (literal_value(head(ts)), head(ts)) {
        (Some(value), _) => (Some(NodeView::Literal { value }), 1),
        (None, TokenView::Identifier(name)) => if second(ts) is LeftParen {
            let (node, k) = call(name, rest(ts, 2));
            (node, 2 + k)
        } else {
            (Some(NodeView::Identifier { name }), 1)
        },
        (None, TokenView::LeftParen) => {
            let (inner, k) = expression(rest(ts, 1));
            if head(rest(ts, 1 + k)) is RightParen {
                (inner, k + 2)
            } else {
                (None, k + 1)
            }
        },
        _ => (None, 0),
    }
}

/// The arguments of a call and its closing parenthesis; `ts` starts after
/// the opening one.
#[verifier::opaque]
pub open spec fn call(callee: Seq<char>, ts: Seq<TokenView>) -> (Option<NodeView>, nat)
    decreases ts.len(), 9nat,
{
    let (found, k) = if head(ts) is RightParen {
        (Seq::empty(), 0nat)
    } else {
        arguments(ts, Seq::empty())
    };
    if head(rest(ts, k)) is RightParen {
        (Some(NodeView::Call { callee, arguments: found }), k + 1)
    } else {
        (None, k)
    }
}

/// Expressions separated by commas, added to `found`. The list ends before
/// the first token that is no comma, or after an expression that fails.
#[verifier::opaque]
pub open spec fn arguments(ts: Seq<TokenView>, found: Seq<NodeView>) -> (Seq<NodeView>, nat)
    decreases ts.len(), 8nat,
{
    let (argument, k) = expression(ts);
    match argument {
        None => (found, k),
        Some(node) => if head(rest(ts, k)) is Comma {
            let (all, m) = arguments(rest(ts, k + 1), found.push(node));
            (all, k + 1 + m)
        } else {
            (found.push(node), k)
        },
    }
}

pub open spec fn apply_unary(operator: UnaryOperator, operand: Option<NodeView>) -> Option<
    NodeView,
> {
    match operand {
        Some(node) => Some(NodeView::Unary { operator, operand: Box::new(node) }),
        None => None,
    }
}

/// Any number of signs and of `not` before a primary.
#[verifier::opaque]
pub open spec fn unary(ts: Seq<TokenView>) -> (Option<NodeView>, nat)
    decreases ts.len(), 1nat,
{
    match head(ts) {
        TokenView::Plus => {
            let (operand, k) = unary(rest(ts, 1));
            (apply_unary(UnaryOperator::Plus, operand), k + 1)
        },
        TokenView::Minus => {
            let (operand, k) = unary(rest(ts, 1));
            (apply_unary(UnaryOperator::Minus, operand), k + 1)
        },
        TokenView::Not => {
            let (operand, k) = unary(rest(ts, 1));
            (apply_unary(UnaryOperator::Not, operand), k + 1)
        },
        _ => primary(ts),
    }
}

/// A unary, optionally raised to a power; `a ** b ** c` is `a ** (b ** c)`.
#[verifier::opaque]
pub open spec fn power(ts: Seq<TokenView>) -> (Option<NodeView>, nat)
    decreases ts.len(), 2nat,
{
    let (base, k) = unary(ts);
    match base {
        None => (None, k),
        Some(left) => if head(rest(ts, k)) is Power {
            let (exponent, m) = power(rest(ts, k + 1));
            match exponent {
                None => (None, k + 1 + m),
                Some(right) => (Some(binary(left, BinaryOperator::Power, right)), k + 1 + m),
            }
        } else {
            (Some(left), k)
        },
    }
}

/// What follows the first operand of a product: operators and operands,
/// grouped to the left.
#[verifier::opaque]
pub open spec fn multiplicative_rest(left: NodeView, ts: Seq<TokenView>) -> (
    Option<NodeView>,
    nat,
)
    decreases ts.len(), 3nat,
{
    match multiplicative_operator(head(ts)) {
        None => (Some(left), 0),
        Some(operator) => {
            let (operand, k) = power(rest(ts, 1));
            match operand {
                None => (None, 1 + k),
                Some(right) => {
                    let (node, m) = multiplicative_rest(
                        binary(left, operator, right),
                        rest(ts, 1 + k),
                    );
                    (node, 1 + k + m)
                },
            }
        },
    }
}

#[verifier::opaque]
pub open spec fn multiplicative(ts: Seq<TokenView>) -> (Option<NodeView>, nat)
    decreases ts.len(), 4nat,
{
    let (first, k) = power(ts);
    match first {
        None => (None, k),
        Some(left) => {
            let (node, m) = multiplicative_rest(left, rest(ts, k));
            (node, k + m)
        },
    }
}

/// What follows the first operand of a sum: operators and operands, grouped
/// to the left.
#[verifier::opaque]
pub open spec fn additive_rest(left: NodeView, ts: Seq<TokenView>) -> (Option<NodeView>, nat)
    decreases ts.len(), 5nat,
{
    match additive_operator(head(ts)) {
        None => (Some(left), 0),
        Some(operator) => {
            let (operand, k) = multiplicative(rest(ts, 1));
            match operand {
                None => (None, 1 + k),
                Some(right) => {
                    let (node, m) = additive_rest(binary(left, operator, right), rest(ts, 1 + k));
                    (node, 1 + k + m)
                },
            }
        },
    }
}

#[verifier::opaque]
pub open spec fn additive(ts: Seq<TokenView>) -> (Option<NodeView>, nat)
    decreases ts.len(), 6nat,
{
    let (first, k) = multiplicative(ts);
    match first {
        None => (None, k),
        Some(left) => {
            let (node, m) = additive_rest(left, rest(ts, k));
            (node, k + m)
        },
    }
}

#[verifier::opaque]
pub open spec fn expression(ts: Seq<TokenView>) -> (Option<NodeView>, nat)
    decreases ts.len(), 7nat,
{
    additive(ts)
}

/// An expression that stands as a statement.
#[verifier::opaque]
pub open spec fn expression_statement(ts: Seq<TokenView>) -> (Option<NodeView>, nat) {
    let (inner, k) = expression(ts);
    match inner {
        Some(node) => (Some(NodeView::ExpressionStatement { expression: Box::new(node) }), k),
        None => (None, k),
    }
}

/// A return statement. The first token is taken for the keyword, whatever it
/// is. A value that fails to parse leaves a return without a value.
#[verifier::opaque]
pub open spec fn return_statement(ts: Seq<TokenView>) -> (Option<NodeView>, nat) {
    let after = rest(ts, 1);
    if !(head(after) is Eof) && !(head(after) is Semicolon) {
        let (value, k) = expression(after);
        match value {
            Some(node) => (Some(NodeView::Return { value: Some(Box::new(node)) }), 1 + k),
            None => (Some(NodeView::Return { value: None }), 1 + k),
        }
    } else {
        (Some(NodeView::Return { value: None }), 1)
    }
}

/// Names separated by commas, added to `found`.
#[verifier::opaque]
pub open spec fn parameters(ts: Seq<TokenView>, found: Seq<Seq<char>>) -> (Seq<Seq<char>>, nat)
    decreases ts.len(),
{
    match head(ts) {
        TokenView::Identifier(name) => if second(ts) is Comma {
            let (all, m) = parameters(rest(ts, 2), found.push(name));
            (all, 2 + m)
        } else {
            (found.push(name), 1)
        },
        _ => (found, 0),
    }
}

/// `def name(parameters):` and one statement for a body; `ts` starts at
/// `def`.
#[verifier::opaque]
pub open spec fn function_definition(ts: Seq<TokenView>) -> (Option<NodeView>, nat)
    decreases ts.len(), 0nat,
{
    match second(ts) {
        TokenView::Identifier(name) => if !(head(rest(ts, 2)) is LeftParen) {
            (None, 2)
        } else {
            let (names, k) = if head(rest(ts, 3)) is RightParen {
                (Seq::empty(), 0nat)
            } else {
                parameters(rest(ts, 3), Seq::empty())
            };
            if !(head(rest(ts, 3 + k)) is RightParen) {
                (None, 3 + k)
            } else if !(head(rest(ts, 4 + k)) is Colon) {
                (None, 4 + k)
            } else {
                let (body, m) = statement(rest(ts, 5 + k));
                match body {
                    Some(node) => (
                        Some(NodeView::Function { name, parameters: names, body: Box::new(node) }),
                        5 + k + m,
                    ),
                    None => (None, 5 + k + m),
                }
            }
        },
        _ => (None, 1),
    }
}

/// A statement that starts with a name: an assignment where `=` follows,
/// else an expression.
#[verifier::opaque]
pub open spec fn statement_with_identifier(name: Seq<char>, ts: Seq<TokenView>) -> (
    Option<NodeView>,
    nat,
) {
    if second(ts) is Assign {
        let (value, k) = expression(rest(ts, 2));
        match value {
            Some(node) => (Some(NodeView::Assignment { name, value: Box::new(node) }), 2 + k),
            None => (None, 2 + k),
        }
    } else {
        expression_statement(ts)
    }
}

/// One statement, told by its first token.
#[verifier::opaque]
pub open spec fn statement(ts: Seq<TokenView>) -> (Option<NodeView>, nat)
    decreases ts.len(), 1nat,
{
    match head(ts) {
        TokenView::Def => function_definition(ts),
        TokenView::Identifier(name) => statement_with_identifier(name, ts),
        TokenView::Return => return_statement(ts),
        _ => expression_statement(ts),
    }
}

/// The statements of a program, added to `found`. Comments are skipped.
/// Where no statement can be read, the tokens that the attempt took and one
/// more are dropped, and reading goes on after them.
#[verifier::opaque]
pub open spec fn statements(ts: Seq<TokenView>, found: Seq<NodeView>) -> Seq<NodeView>
    decreases ts.len(),
{
    if ts.len() == 0 {
        found
    } else if head(ts) is Comment {
        statements(rest(ts, 1), found)
    } else {
        let (node, k) = statement(ts);
        match node {
            Some(node) => if k > 0 {
                statements(rest(ts, k), found.push(node))
            } else {
                found.push(node)
            },
            None => statements(rest(ts, k + 1), found),
        }
    }
}

/// The tree of a whole token stream.
pub open spec fn program(ts: Seq<TokenView>) -> NodeView {
    NodeView::Program { statements: statements(ts, Seq::empty()) }
}

/// The tree of the expression that the whole of `text` is, if it is one.
pub open spec fn whole_expression(text: Seq<char>) -> Option<NodeView> {
    let tokens = tokens_of(text);
    let (node, taken) = expression(tokens);
    if node is Some && taken >= tokens.len() {
        node
    } else {
        None
    }
}

/// Dropping tokens twice is dropping their sum.
pub proof fn lemma_rest_rest(ts: Seq<TokenView>, a: nat, b: nat)
    ensures
        rest(rest(ts, a), b) == rest(ts, a + b),
{
    assert(rest(rest(ts, a), b) =~= rest(ts, a + b));
}

/// A primary that is read takes at least one token.
pub proof fn lemma_primary_takes_tokens(ts: Seq<TokenView>)
    ensures
        primary(ts).0 is Some ==> primary(ts).1 > 0,
{
    reveal_with_fuel(primary, 1);
}

pub proof fn lemma_unary_takes_tokens(ts: Seq<TokenView>)
    ensures
        unary(ts).0 is Some ==> unary(ts).1 > 0,
{
    reveal_with_fuel(unary, 1);
    reveal_with_fuel(primary, 1);
    lemma_primary_takes_tokens(ts);
}

pub proof fn lemma_power_takes_tokens(ts: Seq<TokenView>)
    ensures
        power(ts).0 is Some ==> power(ts).1 > 0,
{
    reveal_with_fuel(power, 1);
    reveal_with_fuel(unary, 1);
    lemma_unary_takes_tokens(ts);
}

pub proof fn lemma_multiplicative_takes_tokens(ts: Seq<TokenView>)
    ensures
        multiplicative(ts).0 is Some ==> multiplicative(ts).1 > 0,
{
    reveal_with_fuel(multiplicative, 1);
    reveal_with_fuel(power, 1);
    lemma_power_takes_tokens(ts);
}

/// An expression that is read takes at least one token.
pub proof fn lemma_expression_takes_tokens(ts: Seq<TokenView>)
    ensures
        expression(ts).0 is Some ==> expression(ts).1 > 0,
{
    reveal_with_fuel(expression, 1);
    reveal_with_fuel(additive, 1);
    reveal_with_fuel(multiplicative, 1);
    lemma_multiplicative_takes_tokens(ts);
}

/// Reading goes forward. A statement that is read takes at least one
/// token, so the statements of a program are read from ever shorter streams
/// and no token is read twice.
pub proof fn lemma_statement_takes_tokens(ts: Seq<TokenView>)
    ensures
        statement(ts).0 is Some ==> statement(ts).1 > 0,
{
    reveal_with_fuel(statement, 1);
    reveal_with_fuel(function_definition, 1);
    reveal(statement_with_identifier);
    reveal(return_statement);
    reveal(expression_statement);
    lemma_expression_takes_tokens(ts);
}

} // verus!
