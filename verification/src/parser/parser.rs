use crate::ast::node::{
    Assignment, Binary, BinaryOperator, Call, Expression, FString, Function, Identifier, Literal,
    LiteralValue, Node, NodeView, Program, Return, Unary, UnaryOperator,
};
use crate::lexer::lexer::Lexer;
use crate::lexer::rules::{lemma_token_progress, next_token_at, tokens_from};
use crate::lexer::token::{Token, TokenView};
use crate::parser::grammar::{
    additive, additive_operator, additive_rest, arguments, call, expression,
    expression_statement, function_definition, head, lemma_rest_rest, literal_value,
    multiplicative,
    multiplicative_operator, multiplicative_rest, parameters, power, primary, program, rest,
    return_statement, second, statement, statement_with_identifier, statements, unary,
    whole_expression,
};
use vstd::prelude::*;

verus! {

/// A recursive-descent parser over a lexer, with two tokens of lookahead.
pub struct Parser {
    lexer: Lexer,
    current_token: Token,
    peek_token: Token,
}

pub open spec fn option_view(node: Option<Node>) -> Option<NodeView> {
    match node {
        Some(n) => Some(n@),
        None => None,
    }
}

pub open spec fn nodes_view(nodes: Seq<Node>) -> Seq<NodeView> {
    Seq::new(nodes.len(), |i: int| nodes[i]@)
}

pub open spec fn names_view(names: Seq<String>) -> Seq<Seq<char>> {
    names.map_values(|n: String| n@)
}

/// An exec result and the stream left after it are what a grammar rule makes
/// of the stream `before`. A tree is only ever built from at least one token.
pub open spec fn agrees(
    node: Option<Node>,
    after: Seq<TokenView>,
    outcome: (Option<NodeView>, nat),
    before: Seq<TokenView>,
) -> bool {
    &&& option_view(node) == outcome.0
    &&& after == rest(before, outcome.1)
    &&& (node is Some ==> outcome.1 > 0)
}

fn additive_operator_of(token: &Token) -> (operator: Option<BinaryOperator>)
    ensures
        operator == additive_operator(token@),
{
    match token {
        Token::Plus => Some(BinaryOperator::Add),
        Token::Minus => Some(BinaryOperator::Subtract),
        _ => None,
    }
}

fn multiplicative_operator_of(token: &Token) -> (operator: Option<BinaryOperator>)
    ensures
        operator == multiplicative_operator(token@),
{
    match token {
        Token::Multiply => Some(BinaryOperator::Multiply),
        Token::Divide => Some(BinaryOperator::Divide),
        Token::FloorDivide => Some(BinaryOperator::FloorDivide),
        Token::Modulo => Some(BinaryOperator::Modulo),
        _ => None,
    }
}

fn binary_node(left: Node, operator: BinaryOperator, right: Node) -> (node: Node)
    ensures
        node@ == crate::parser::grammar::binary(left@, operator, right@),
{
    Node::Binary(Binary { left: Box::new(left), operator, right: Box::new(right) })
}

fn unary_node(operator: UnaryOperator, operand: Option<Node>) -> (node: Option<Node>)
    ensures
        option_view(node) == crate::parser::grammar::apply_unary(operator, option_view(operand)),
{
    match operand {
        Some(inner) => Some(Node::Unary(Unary { operator, operand: Box::new(inner) })),
        None => None,
    }
}

/// The value of a token that is a literal.
fn literal_of(token: &Token) -> (value: Option<LiteralValue>)
    ensures
        match value {
            Some(v) => literal_value(token@) == Some(v@),
            None => literal_value(token@) is None,
        },
{
    match token {
        Token::Integer(value) => Some(LiteralValue::Integer(*value)),
        Token::Float(value) => Some(LiteralValue::Float(value.clone())),
        Token::String(value) => Some(LiteralValue::String(value.clone())),
        Token::FString(value) => Some(LiteralValue::FString(FString::parse(value.as_str()))),
        Token::Boolean(value) => Some(LiteralValue::Boolean(*value)),
        Token::NoneLiteral => Some(LiteralValue::NoneLiteral),
        _ => None,
    }
}

fn literal_node(value: LiteralValue) -> (node: Node)
    ensures
        node@ == (NodeView::Literal { value: value@ }),
{
    Node::Literal(Literal { value })
}

fn call_node(callee: String, arguments: Vec<Node>) -> (node: Node)
    ensures
        node@ == (NodeView::Call { callee: callee@, arguments: nodes_view(arguments@) }),
{
    let node = Node::Call(Call { callee, arguments });
    assert(node@->Call_arguments =~= nodes_view(arguments@));
    node
}

fn program_node(program: Program) -> (node: Node)
    ensures
        node@ == (NodeView::Program { statements: nodes_view(program.statements@) }),
{
    let node = Node::Program(program);
    assert(node@->Program_statements =~= nodes_view(program.statements@));
    node
}

impl View for Parser {
    type V = Seq<TokenView>;

    /// The tokens not yet taken, up to the end of input.
    closed spec fn view(&self) -> Seq<TokenView> {
        self.remaining()
    }
}

impl Parser {
    /// The lookahead, as far as it is no `Eof`, and the tokens that the lexer
    /// has yet to read.
    #[verifier::opaque]
    closed spec fn remaining(&self) -> Seq<TokenView> {
        if self.current_token@ is Eof {
            Seq::empty()
        } else if self.peek_token@ is Eof {
            seq![self.current_token@]
        } else {
            seq![self.current_token@, self.peek_token@] + tokens_from(
                self.lexer.source(),
                self.lexer.offset() as int,
            )
        }
    }

    /// The lookahead agrees with the lexer: once the input has ended, every
    /// later token is `Eof`.
    pub closed spec fn wf(&self) -> bool {
        &&& self.current_token@ is Eof ==> self.peek_token@ is Eof
        &&& self.peek_token@ is Eof ==> next_token_at(
            self.lexer.source(),
            self.lexer.offset() as int,
        ).0 is Eof
        &&& self.current_token@ == head(self@)
        &&& self.peek_token@ == second(self@)
        &&& self.current_token@ is Eof <==> self@.len() == 0
    }

    /// A parser over what `lexer` has not read yet.
    pub fn new(lexer: Lexer) -> (parser: Self)
        ensures
            parser.wf(),
            parser@ == tokens_from(lexer.source(), lexer.offset() as int),
    {
        let mut lexer = lexer;
        let ghost source = lexer.source();
        let ghost start = lexer.offset() as int;
        let current_token = lexer.next_token();
        let ghost middle = lexer.offset() as int;
        let peek_token = lexer.next_token();
        let parser = Parser { lexer, current_token, peek_token };
        proof {
            reveal(Parser::remaining);
            lemma_token_progress(source, start);
            lemma_token_progress(source, middle);
            lemma_token_progress(source, parser.lexer.offset() as int);
            if !(parser.current_token@ is Eof) {
                assert(tokens_from(source, start) == seq![parser.current_token@] + tokens_from(
                    source,
                    middle,
                ));
                if !(parser.peek_token@ is Eof) {
                    assert(tokens_from(source, middle) == seq![parser.peek_token@] + tokens_from(
                        source,
                        parser.lexer.offset() as int,
                    ));
                }
            }
            assert(parser@ =~= tokens_from(source, start));
        }
        parser
    }

    /// Reads `text` as one expression. Gives nothing where the text is no
    /// expression, or where anything follows the expression.
    pub fn parse_expression_text(text: &str) -> (node: Option<Node>)
        ensures
            option_view(node) == whole_expression(text@),
    {
        let mut parser = Parser::new(Lexer::new(text));
        let node = parser.parse_expression();
        if matches!(parser.current_token, Token::Eof) {
            node
        } else {
            None
        }
    }

    /// Takes the current token: the lookahead moves on by one.
    fn next_token(&mut self)
        requires
            old(self).wf(),
        ensures
            final(self).wf(),
            final(self)@ == rest(old(self)@, 1),
    {
        let ghost source = self.lexer.source();
        let ghost start = self.lexer.offset() as int;
        let next = self.lexer.next_token();
        proof {
            reveal(Parser::remaining);
            lemma_token_progress(source, start);
            lemma_token_progress(source, self.lexer.offset() as int);
        }
        core::mem::swap(&mut self.current_token, &mut self.peek_token);
        self.peek_token = next;
        assert(self@ =~= rest(old(self)@, 1));
    }

    /// Reads a whole program. Comments are skipped; where no statement can be
    /// read, one token is dropped and reading goes on.
    pub fn parse_program(&mut self) -> (node: Node)
        requires
            old(self).wf(),
        ensures
            final(self).wf(),
            final(self)@.len() == 0,
            node@ == program(old(self)@),
    {
        let mut program = Program::new();
        assert(nodes_view(program.statements@) =~= Seq::empty());
        while !matches!(self.current_token, Token::Eof)
            invariant
                self.wf(),
                statements(old(self)@, Seq::empty()) == statements(
                    self@,
                    nodes_view(program.statements@),
                ),
            decreases self@.len(),
        {
            proof {
                reveal_with_fuel(statements, 1);
            }
            let ghost ts = self@;
            let ghost found = nodes_view(program.statements@);
            if matches!(self.current_token, Token::Comment(_)) {
                self.next_token();
            } else {
                match self.parse_statement() {
                    Some(node) => {
                        program.statements.push(node);
                        assert(nodes_view(program.statements@) =~= found.push(node@));
                    },
                    None => {
                        proof {
                            lemma_rest_rest(ts, statement(ts).1, 1);
                        }
                        self.next_token();
                    },
                }
            }
        }
        proof {
            reveal_with_fuel(statements, 1);
        }
        program_node(program)
    }

    fn parse_statement(&mut self) -> (node: Option<Node>)
        requires
            old(self).wf(),
        ensures
            final(self).wf(),
            agrees(node, final(self)@, statement(old(self)@), old(self)@),
        decreases old(self)@.len(), 1nat,
    {
        proof {
            reveal_with_fuel(statement, 1);
            reveal_with_fuel(function_definition, 1);
        }
        match &self.current_token {
            Token::Def => self.parse_function_definition(),
            Token::Identifier(_) => self.parse_statement_with_identifier(),
            Token::Return => self.parse_return_statement(),
            _ => self.parse_expression_statement(),
        }
    }

    fn parse_statement_with_identifier(&mut self) -> (node: Option<Node>)
        requires
            old(self).wf(),
            head(old(self)@) is Identifier,
        ensures
            final(self).wf(),
            agrees(
                node,
                final(self)@,
                statement_with_identifier(head(old(self)@)->Identifier_0, old(self)@),
                old(self)@,
            ),
    {
        proof {
            reveal(statement_with_identifier);
        }
        let ghost ts = self@;
        if matches!(self.peek_token, Token::Assign) {
            let name = match &self.current_token {
                Token::Identifier(name) => name.clone(),
                _ => String::new(),
            };
            self.next_token();
            self.next_token();
            proof {
                lemma_rest_rest(ts, 1, 1);
                lemma_rest_rest(ts, 2, expression(rest(ts, 2)).1);
            }
            match self.parse_expression() {
                Some(value) => Some(Node::Assignment(Assignment { name, value: Box::new(value) })),
                None => None,
            }
        } else {
            self.parse_expression_statement()
        }
    }

    /// Takes the current token for `return` and reads the value after it, if
    /// there is one.
    fn parse_return_statement(&mut self) -> (node: Option<Node>)
        requires
            old(self).wf(),
        ensures
            final(self).wf(),
            option_view(node) == return_statement(old(self)@).0,
            final(self)@ == rest(old(self)@, return_statement(old(self)@).1),
            return_statement(old(self)@).1 > 0,
            node is Some,
    {
        proof {
            reveal(return_statement);
        }
        let ghost ts = self@;
        self.next_token();
        if !matches!(self.current_token, Token::Eof) && !matches!(
            self.current_token,
            Token::Semicolon
        ) {
            proof {
                lemma_rest_rest(ts, 1, expression(rest(ts, 1)).1);
            }
            match self.parse_expression() {
                Some(value) => Some(Node::Return(Return { value: Some(Box::new(value)) })),
                None => Some(Node::Return(Return { value: None })),
            }
        } else {
            Some(Node::Return(Return { value: None }))
        }
    }

    /// Reads names separated by commas.
    fn parse_parameters(&mut self) -> (names: Vec<String>)
        requires
            old(self).wf(),
        ensures
            final(self).wf(),
            names_view(names@) == parameters(old(self)@, Seq::empty()).0,
            final(self)@ == rest(old(self)@, parameters(old(self)@, Seq::empty()).1),
    {
        let ghost ts = self@;
        let mut names: Vec<String> = Vec::new();
        assert(names_view(names@) =~= Seq::empty());
        loop
            invariant_except_break
                parameters(ts, Seq::empty()).0 == parameters(self@, names_view(names@)).0,
                rest(ts, parameters(ts, Seq::empty()).1) == rest(
                    self@,
                    parameters(self@, names_view(names@)).1,
                ),
            invariant
                self.wf(),
                ts == old(self)@,
            ensures
                self.wf(),
                names_view(names@) == parameters(ts, Seq::empty()).0,
                self@ == rest(ts, parameters(ts, Seq::empty()).1),
            decreases self@.len(),
        {
            proof {
                reveal_with_fuel(parameters, 1);
            }
            let ghost now = self@;
            let ghost found = names_view(names@);
            let name = match &self.current_token {
                Token::Identifier(name) => Some(name.clone()),
                _ => None,
            };
            match name {
                None => {
                    assert(rest(now, 0) =~= now);
                    break ;
                },
                Some(name) => {
                    names.push(name);
                    assert(names_view(names@) =~= found.push(name@));
                    self.next_token();
                    if matches!(self.current_token, Token::Comma) {
                        self.next_token();
                        proof {
                            lemma_rest_rest(now, 1, 1);
                            lemma_rest_rest(now, 2, parameters(rest(now, 2), found.push(name@)).1);
                        }
                    } else {
                        break ;
                    }
                },
            }
        }
        names
    }

    fn parse_function_definition(&mut self) -> (node: Option<Node>)
        requires
            old(self).wf(),
        ensures
            final(self).wf(),
            agrees(node, final(self)@, function_definition(old(self)@), old(self)@),
        decreases old(self)@.len(), 0nat,
    {
        proof {
            reveal_with_fuel(function_definition, 1);
            reveal_with_fuel(statement, 1);
        }
        let ghost ts = self@;
        self.next_token();
        let name = match &self.current_token {
            Token::Identifier(name) => name.clone(),
            _ => {
                return None;
            },
        };
        self.next_token();
        proof {
            lemma_rest_rest(ts, 1, 1);
        }
        if !matches!(self.current_token, Token::LeftParen) {
            return None;
        }
        self.next_token();
        proof {
            lemma_rest_rest(ts, 2, 1);
        }
        let parameters = if !matches!(self.current_token, Token::RightParen) {
            self.parse_parameters()
        } else {
            Vec::new()
        };
        let ghost k = if head(rest(ts, 3)) is RightParen {
            0nat
        } else {
            crate::parser::grammar::parameters(rest(ts, 3), Seq::empty()).1
        };
        proof {
            assert(rest(rest(ts, 3), 0) =~= rest(ts, 3));
            lemma_rest_rest(ts, 3, k);
            assert(names_view(parameters@) =~= if head(rest(ts, 3)) is RightParen {
                Seq::empty()
            } else {
                crate::parser::grammar::parameters(rest(ts, 3), Seq::empty()).0
            });
        }
        if !matches!(self.current_token, Token::RightParen) {
            return None;
        }
        self.next_token();
        proof {
            lemma_rest_rest(ts, 3 + k, 1);
        }
        if !matches!(self.current_token, Token::Colon) {
            return None;
        }
        self.next_token();
        proof {
            lemma_rest_rest(ts, 4 + k, 1);
            lemma_rest_rest(ts, 5 + k, statement(rest(ts, 5 + k)).1);
        }
        match self.parse_statement() {
            Some(body) => Some(Node::Function(Function { name, parameters, body: Box::new(body) })),
            None => None,
        }
    }

    fn parse_expression_statement(&mut self) -> (node: Option<Node>)
        requires
            old(self).wf(),
        ensures
            final(self).wf(),
            agrees(node, final(self)@, expression_statement(old(self)@), old(self)@),
    {
        proof {
            reveal(expression_statement);
        }
        match self.parse_expression() {
            Some(expression) => Some(
                Node::ExpressionStatement(Expression { expression: Box::new(expression) }),
            ),
            None => None,
        }
    }

    fn parse_expression(&mut self) -> (node: Option<Node>)
        requires
            old(self).wf(),
        ensures
            final(self).wf(),
            agrees(node, final(self)@, expression(old(self)@), old(self)@),
        decreases old(self)@.len(), 7nat,
    {
        proof {
            reveal_with_fuel(expression, 1);
            reveal_with_fuel(additive, 1);
        }
        self.parse_additive()
    }

    fn parse_additive(&mut self) -> (node: Option<Node>)
        requires
            old(self).wf(),
        ensures
            final(self).wf(),
            agrees(node, final(self)@, additive(old(self)@), old(self)@),
        decreases old(self)@.len(), 6nat,
    {
        proof {
            reveal_with_fuel(additive, 1);
            reveal_with_fuel(additive_rest, 1);
            reveal_with_fuel(multiplicative, 1);
        }
        let ghost ts = self@;
        let first = self.parse_multiplicative();
        let mut left = match first {
            Some(node) => node,
            None => {
                return None;
            },
        };
        let ghost k = multiplicative(ts).1;
        let ghost after = self@;
        let ghost first_view = left@;
        loop
            invariant_except_break
                additive_rest(first_view, after).0 == additive_rest(left@, self@).0,
                rest(after, additive_rest(first_view, after).1) == rest(
                    self@,
                    additive_rest(left@, self@).1,
                ),
            invariant
                self.wf(),
                ts == old(self)@,
                k == multiplicative(ts).1,
                multiplicative(ts).0 == Some(first_view),
                after == rest(ts, k),
                self@.len() <= after.len() <= ts.len(),
            ensures
                self.wf(),
                additive_rest(first_view, after).0 == Some(left@),
                rest(after, additive_rest(first_view, after).1) == self@,
            decreases self@.len(),
        {
            proof {
                reveal_with_fuel(additive, 1);
                reveal_with_fuel(additive_rest, 1);
                reveal_with_fuel(multiplicative, 1);
            }
            let ghost now = self@;
            let ghost left_view = left@;
            let operator = match additive_operator_of(&self.current_token) {
                Some(operator) => operator,
                None => {
                    assert(rest(now, 0) =~= now);
                    break ;
                },
            };
            self.next_token();
            proof {
                lemma_rest_rest(now, 1, multiplicative(rest(now, 1)).1);
                lemma_rest_rest(ts, k, additive_rest(first_view, after).1);
            }
            let right = match self.parse_multiplicative() {
                Some(node) => node,
                None => {
                    return None;
                },
            };
            left = binary_node(left, operator, right);
            proof {
                let m = 1 + multiplicative(rest(now, 1)).1;
                lemma_rest_rest(now, m as nat, additive_rest(left@, rest(now, m as nat)).1);
            }
        }
        proof {
            lemma_rest_rest(ts, k, additive_rest(first_view, after).1);
        }
        Some(left)
    }

    fn parse_multiplicative(&mut self) -> (node: Option<Node>)
        requires
            old(self).wf(),
        ensures
            final(self).wf(),
            agrees(node, final(self)@, multiplicative(old(self)@), old(self)@),
        decreases old(self)@.len(), 5nat,
    {
        proof {
            reveal_with_fuel(multiplicative, 1);
            reveal_with_fuel(multiplicative_rest, 1);
            reveal_with_fuel(power, 1);
        }
        let ghost ts = self@;
        let first = self.parse_power();
        let mut left = match first {
            Some(node) => node,
            None => {
                return None;
            },
        };
        let ghost k = power(ts).1;
        let ghost after = self@;
        let ghost first_view = left@;
        loop
            invariant_except_break
                multiplicative_rest(first_view, after).0 == multiplicative_rest(left@, self@).0,
                rest(after, multiplicative_rest(first_view, after).1) == rest(
                    self@,
                    multiplicative_rest(left@, self@).1,
                ),
            invariant
                self.wf(),
                ts == old(self)@,
                k == power(ts).1,
                power(ts).0 == Some(first_view),
                after == rest(ts, k),
                self@.len() <= after.len() <= ts.len(),
            ensures
                self.wf(),
                multiplicative_rest(first_view, after).0 == Some(left@),
                rest(after, multiplicative_rest(first_view, after).1) == self@,
            decreases self@.len(),
        {
            proof {
                reveal_with_fuel(multiplicative, 1);
                reveal_with_fuel(multiplicative_rest, 1);
                reveal_with_fuel(power, 1);
            }
            let ghost now = self@;
            let ghost left_view = left@;
            let operator = match multiplicative_operator_of(&self.current_token) {
                Some(operator) => operator,
                None => {
                    assert(rest(now, 0) =~= now);
                    break ;
                },
            };
            self.next_token();
            proof {
                lemma_rest_rest(now, 1, power(rest(now, 1)).1);
                lemma_rest_rest(ts, k, multiplicative_rest(first_view, after).1);
            }
            let right = match self.parse_power() {
                Some(node) => node,
                None => {
                    return None;
                },
            };
            left = binary_node(left, operator, right);
            proof {
                let m = 1 + power(rest(now, 1)).1;
                lemma_rest_rest(now, m as nat, multiplicative_rest(left@, rest(now, m as nat)).1);
            }
        }
        proof {
            lemma_rest_rest(ts, k, multiplicative_rest(first_view, after).1);
        }
        Some(left)
    }

    fn parse_power(&mut self) -> (node: Option<Node>)
        requires
            old(self).wf(),
        ensures
            final(self).wf(),
            agrees(node, final(self)@, power(old(self)@), old(self)@),
        decreases old(self)@.len(), 4nat,
    {
        proof {
            reveal_with_fuel(power, 1);
            reveal_with_fuel(unary, 1);
        }
        let ghost ts = self@;
        let left = match self.parse_unary() {
            Some(node) => node,
            None => {
                return None;
            },
        };
        let ghost k = unary(ts).1;
        if matches!(self.current_token, Token::Power) {
            self.next_token();
            proof {
                lemma_rest_rest(ts, k, 1);
                lemma_rest_rest(ts, k + 1, power(rest(ts, k + 1)).1);
            }
            match self.parse_power() {
                Some(right) => Some(binary_node(left, BinaryOperator::Power, right)),
                None => None,
            }
        } else {
            Some(left)
        }
    }

    fn parse_unary(&mut self) -> (node: Option<Node>)
        requires
            old(self).wf(),
        ensures
            final(self).wf(),
            agrees(node, final(self)@, unary(old(self)@), old(self)@),
        decreases old(self)@.len(), 3nat,
    {
        proof {
            reveal_with_fuel(unary, 1);
            reveal_with_fuel(primary, 1);
        }
        let ghost ts = self@;
        if matches!(self.current_token, Token::Plus) {
            self.next_token();
            proof {
                lemma_rest_rest(ts, 1, unary(rest(ts, 1)).1);
            }
            let operand = self.parse_unary();
            unary_node(UnaryOperator::Plus, operand)
        } else if matches!(self.current_token, Token::Minus) {
            self.next_token();
            proof {
                lemma_rest_rest(ts, 1, unary(rest(ts, 1)).1);
            }
            let operand = self.parse_unary();
            unary_node(UnaryOperator::Minus, operand)
        } else if matches!(self.current_token, Token::Not) {
            self.next_token();
            proof {
                lemma_rest_rest(ts, 1, unary(rest(ts, 1)).1);
            }
            let operand = self.parse_unary();
            unary_node(UnaryOperator::Not, operand)
        } else {
            self.parse_primary()
        }
    }

    fn parse_primary(&mut self) -> (node: Option<Node>)
        requires
            old(self).wf(),
        ensures
            final(self).wf(),
            agrees(node, final(self)@, primary(old(self)@), old(self)@),
        decreases old(self)@.len(), 2nat,
    {
        proof {
            reveal_with_fuel(primary, 1);
        }
        let ghost ts = self@;
        match literal_of(&self.current_token) {
            Some(value) => {
                self.next_token();
                return Some(literal_node(value));
            },
            None => {},
        }
        let name = match &self.current_token {
            Token::Identifier(name) => Some(name.clone()),
            _ => None,
        };
        match name {
            Some(name) => self.parse_name(name),
            None => {
                if matches!(self.current_token, Token::LeftParen) {
                    self.parse_parenthesized()
                } else {
                    assert(rest(ts, 0) =~= ts);
                    None
                }
            },
        }
    }

    /// Reads a name, and the call that it starts where a parenthesis follows.
    fn parse_name(&mut self, name: String) -> (node: Option<Node>)
        requires
            old(self).wf(),
            head(old(self)@) == TokenView::Identifier(name@),
        ensures
            final(self).wf(),
            agrees(node, final(self)@, primary(old(self)@), old(self)@),
        decreases old(self)@.len(), 1nat,
    {
        proof {
            reveal_with_fuel(primary, 1);
            reveal_with_fuel(call, 1);
        }
        let ghost ts = self@;
        self.next_token();
        if matches!(self.current_token, Token::LeftParen) {
            proof {
                lemma_rest_rest(ts, 1, 1);
                lemma_rest_rest(ts, 1, 1 + call(name@, rest(ts, 2)).1);
            }
            self.parse_function_call(name)
        } else {
            Some(Node::Identifier(Identifier { name }))
        }
    }

    /// Reads an expression between parentheses.
    fn parse_parenthesized(&mut self) -> (node: Option<Node>)
        requires
            old(self).wf(),
            head(old(self)@) is LeftParen,
        ensures
            final(self).wf(),
            agrees(node, final(self)@, primary(old(self)@), old(self)@),
        decreases old(self)@.len(), 1nat,
    {
        proof {
            reveal_with_fuel(primary, 1);
            reveal_with_fuel(expression, 1);
        }
        let ghost ts = self@;
        self.next_token();
        let inner = self.parse_expression();
        let ghost k = expression(rest(ts, 1)).1;
        proof {
            lemma_rest_rest(ts, 1, k);
            lemma_rest_rest(ts, 1 + k, 1);
        }
        if matches!(self.current_token, Token::RightParen) {
            self.next_token();
            inner
        } else {
            None
        }
    }

    /// Reads the arguments of a call to `name`, from the opening parenthesis
    /// to the closing one.
    fn parse_function_call(&mut self, name: String) -> (node: Option<Node>)
        requires
            old(self).wf(),
            head(old(self)@) is LeftParen,
        ensures
            final(self).wf(),
            agrees(
                node,
                final(self)@,
                (
                    call(name@, rest(old(self)@, 1)).0,
                    1 + call(name@, rest(old(self)@, 1)).1,
                ),
                old(self)@,
            ),
        decreases old(self)@.len(), 0nat,
    {
        proof {
            reveal_with_fuel(call, 1);
            reveal_with_fuel(arguments, 1);
            reveal_with_fuel(expression, 1);
        }
        self.next_token();
        let ghost ts = self@;
        let mut found: Vec<Node> = Vec::new();
        assert(nodes_view(found@) =~= Seq::empty());
        if !matches!(self.current_token, Token::RightParen) {
            loop
                invariant_except_break
                    arguments(ts, Seq::empty()).0 == arguments(self@, nodes_view(found@)).0,
                    rest(ts, arguments(ts, Seq::empty()).1) == rest(
                        self@,
                        arguments(self@, nodes_view(found@)).1,
                    ),
                invariant
                    self.wf(),
                    self@.len() <= ts.len() < old(self)@.len(),
                ensures
                    self.wf(),
                    nodes_view(found@) == arguments(ts, Seq::empty()).0,
                    self@ == rest(ts, arguments(ts, Seq::empty()).1),
                decreases self@.len(),
            {
                proof {
                    reveal_with_fuel(arguments, 1);
                    reveal_with_fuel(expression, 1);
                }
                let ghost now = self@;
                let ghost before = nodes_view(found@);
                match self.parse_expression() {
                    None => {
                        break ;
                    },
                    Some(argument) => {
                        found.push(argument);
                        assert(nodes_view(found@) =~= before.push(argument@));
                        if matches!(self.current_token, Token::Comma) {
                            let ghost k = expression(now).1;
                            self.next_token();
                            proof {
                                lemma_rest_rest(now, k, 1);
                                lemma_rest_rest(
                                    now,
                                    k + 1,
                                    arguments(rest(now, k + 1), before.push(argument@)).1,
                                );
                            }
                        } else {
                            break ;
                        }
                    },
                }
            }
        } else {
            assert(rest(ts, 0) =~= ts);
        }
        let ghost k = call(name@, ts).1;
        proof {
            lemma_rest_rest(old(self)@, 1, k);
            if head(ts) is RightParen {
                lemma_rest_rest(ts, 0, 1);
            } else {
                lemma_rest_rest(ts, arguments(ts, Seq::empty()).1, 1);
            }
        }
        if matches!(self.current_token, Token::RightParen) {
            self.next_token();
            Some(call_node(name, found))
        } else {
            None
        }
    }
}

} // verus!
