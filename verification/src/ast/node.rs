use crate::lexer::text::chars_of;
use vstd::prelude::*;

verus! {

/// One node of the syntax tree. A `Program` is the root; the statement
/// variants stand in its statement list and the expression variants below
/// them.
#[derive(Debug, PartialEq)]
pub enum Node {
    Program(Program),
    Function(Function),
    Assignment(Assignment),
    If(If),
    While(While),
    Return(Return),
    ExpressionStatement(Expression),
    Binary(Binary),
    Unary(Unary),
    Literal(Literal),
    Identifier(Identifier),
    Call(Call),
}

#[derive(Debug, Clone, PartialEq)]
pub struct Program {
    pub statements: Vec<Node>,
}

#[derive(Debug, Clone, PartialEq)]
pub struct Assignment {
    pub name: String,
    pub value: Box<Node>,
}

#[derive(Debug, Clone, PartialEq)]
pub struct If {
    pub condition: Box<Node>,
    pub then_branch: Box<Node>,
    pub else_branch: Option<Box<Node>>,
}

#[derive(Debug, Clone, PartialEq)]
pub struct While {
    pub condition: Box<Node>,
    pub body: Box<Node>,
}

#[derive(Debug, Clone, PartialEq)]
pub struct Return {
    pub value: Option<Box<Node>>,
}

#[derive(Debug, Clone, PartialEq)]
pub struct Expression {
    pub expression: Box<Node>,
}

#[derive(Debug, Clone, PartialEq)]
pub struct Binary {
    pub left: Box<Node>,
    pub operator: BinaryOperator,
    pub right: Box<Node>,
}

#[derive(Debug, Clone, Copy, PartialEq, Eq, Structural)]
pub enum BinaryOperator {
    Add,
    Subtract,
    Multiply,
    Divide,
    FloorDivide,
    Modulo,
    Power,
    Equal,
    NotEqual,
    Less,
    Greater,
    LessEqual,
    GreaterEqual,
    And,
    Or,
}

#[derive(Debug, Clone, PartialEq)]
pub struct Unary {
    pub operator: UnaryOperator,
    pub operand: Box<Node>,
}

#[derive(Debug, Clone, Copy, PartialEq, Eq, Structural)]
pub enum UnaryOperator {
    Plus,
    Minus,
    Not,
}

#[derive(Debug, Clone, PartialEq)]
pub struct Literal {
    pub value: LiteralValue,
}

#[derive(Debug, Clone, PartialEq)]
pub enum LiteralValue {
    Integer(i64),
    /// A decimal literal with a fraction part, kept exactly as written.
    Float(String),
    String(String),
    /// A template string, split into its segments.
    FString(FString),
    Boolean(bool),
    NoneLiteral,
}

/// A template string as a list of literal and embedded-expression segments.
#[derive(Debug, Clone, PartialEq)]
pub struct FString {
    pub parts: Vec<FStringPart>,
}

#[derive(Debug, Clone, PartialEq)]
pub enum FStringPart {
    /// Text that stands for itself.
    Literal(String),
    /// The source text of an expression between braces.
    Expression(String),
}

#[derive(Debug, Clone, PartialEq)]
pub struct Identifier {
    pub name: String,
}

#[derive(Debug, Clone, PartialEq)]
pub struct Function {
    pub name: String,
    pub parameters: Vec<String>,
    pub body: Box<Node>,
}

#[derive(Debug, Clone, PartialEq)]
pub struct Call {
    pub callee: String,
    pub arguments: Vec<Node>,
}

/// The mathematical value of an [`FStringPart`].
pub enum FStringPartView {
    Literal(Seq<char>),
    Expression(Seq<char>),
}

/// The mathematical value of a [`LiteralValue`].
pub enum LiteralView {
    Integer(i64),
    Float(Seq<char>),
    String(Seq<char>),
    FString(Seq<FStringPartView>),
    Boolean(bool),
    NoneLiteral,
}

/// The mathematical value of a [`Node`]: the same tree over sequences.
#[allow(inconsistent_fields)]
pub enum NodeView {
    Program { statements: Seq<NodeView> },
    Function { name: Seq<char>, parameters: Seq<Seq<char>>, body: Box<NodeView> },
    Assignment { name: Seq<char>, value: Box<NodeView> },
    If { condition: Box<NodeView>, then_branch: Box<NodeView>, else_branch: Option<Box<NodeView>> },
    While { condition: Box<NodeView>, body: Box<NodeView> },
    Return { value: Option<Box<NodeView>> },
    ExpressionStatement { expression: Box<NodeView> },
    Binary { left: Box<NodeView>, operator: BinaryOperator, right: Box<NodeView> },
    Unary { operator: UnaryOperator, operand: Box<NodeView> },
    Literal { value: LiteralView },
    Identifier { name: Seq<char> },
    Call { callee: Seq<char>, arguments: Seq<NodeView> },
}

impl View for FStringPart {
    type V = FStringPartView;

    open spec fn view(&self) -> FStringPartView {
        match self {
            FStringPart::Literal(t) => FStringPartView::Literal(t@),
            FStringPart::Expression(t) => FStringPartView::Expression(t@),
        }
    }
}

impl View for FString {
    type V = Seq<FStringPartView>;

    open spec fn view(&self) -> Seq<FStringPartView> {
        self.parts@.map_values(|p: FStringPart| p@)
    }
}

impl View for LiteralValue {
    type V = LiteralView;

    open spec fn view(&self) -> LiteralView {
        match self {
            LiteralValue::Integer(v) => LiteralView::Integer(*v),
            LiteralValue::Float(t) => LiteralView::Float(t@),
            LiteralValue::String(t) => LiteralView::String(t@),
            LiteralValue::FString(f) => LiteralView::FString(f@),
            LiteralValue::Boolean(b) => LiteralView::Boolean(*b),
            LiteralValue::NoneLiteral => LiteralView::NoneLiteral,
        }
    }
}

/// The value of a node: strings become character sequences, vectors become
/// sequences.
pub open spec fn node_view(node: Node) -> NodeView
    decreases node,
{
    match node {
        Node::Program(p) => NodeView::Program {
            statements: Seq::new(
                p.statements.len() as nat,
                |i: int|
                    if 0 <= i < p.statements.len() {
                        node_view(p.statements[i])
                    } else {
                        arbitrary()
                    },
            ),
        },
        Node::Function(f) => NodeView::Function {
            name: f.name@,
            parameters: f.parameters@.map_values(|p: String| p@),
            body: Box::new(node_view(*f.body)),
        },
        Node::Assignment(a) => NodeView::Assignment {
            name: a.name@,
            value: Box::new(node_view(*a.value)),
        },
        Node::If(c) => NodeView::If {
            condition: Box::new(node_view(*c.condition)),
            then_branch: Box::new(node_view(*c.then_branch)),
            else_branch: match c.else_branch {
                Some(e) => Some(Box::new(node_view(*e))),
                None => None,
            },
        },
        Node::While(w) => NodeView::While {
            condition: Box::new(node_view(*w.condition)),
            body: Box::new(node_view(*w.body)),
        },
        Node::Return(r) => NodeView::Return {
            value: match r.value {
                Some(v) => Some(Box::new(node_view(*v))),
                None => None,
            },
        },
        Node::ExpressionStatement(e) => NodeView::ExpressionStatement {
            expression: Box::new(node_view(*e.expression)),
        },
        Node::Binary(b) => NodeView::Binary {
            left: Box::new(node_view(*b.left)),
            operator: b.operator,
            right: Box::new(node_view(*b.right)),
        },
        Node::Unary(u) => NodeView::Unary {
            operator: u.operator,
            operand: Box::new(node_view(*u.operand)),
        },
        Node::Literal(l) => NodeView::Literal { value: l.value@ },
        Node::Identifier(i) => NodeView::Identifier { name: i.name@ },
        Node::Call(c) => NodeView::Call {
            callee: c.callee@,
            arguments: Seq::new(
                c.arguments.len() as nat,
                |i: int|
                    if 0 <= i < c.arguments.len() {
                        node_view(c.arguments[i])
                    } else {
                        arbitrary()
                    },
            ),
        },
    }
}

impl View for Node {
    type V = NodeView;

    open spec fn view(&self) -> NodeView {
        node_view(*self)
    }
}

/// A copy of a list of nodes.
fn duplicate_all(nodes: &Vec<Node>) -> (copies: Vec<Node>)
    ensures
        copies@.len() == nodes@.len(),
        forall|i: int| 0 <= i < nodes@.len() ==> (#[trigger] copies@[i])@ == nodes@[i]@,
    decreases nodes,
{
    let mut copies: Vec<Node> = Vec::new();
    let mut i: usize = 0;
    while i < nodes.len()
        invariant
            i <= nodes@.len(),
            copies@.len() == i,
            forall|k: int| 0 <= k < i ==> (#[trigger] copies@[k])@ == nodes@[k]@,
        decreases nodes@.len() - i,
    {
        copies.push(nodes[i].duplicate());
        i += 1;
    }
    copies
}

/// A copy of a list of names.
fn duplicate_names(names: &Vec<String>) -> (copies: Vec<String>)
    ensures
        copies@.map_values(|p: String| p@) == names@.map_values(|p: String| p@),
{
    let mut copies: Vec<String> = Vec::new();
    let mut i: usize = 0;
    while i < names.len()
        invariant
            i <= names@.len(),
            copies@.len() == i,
            forall|k: int| 0 <= k < i ==> (#[trigger] copies@[k])@ == names@[k]@,
        decreases names@.len() - i,
    {
        copies.push(names[i].clone());
        i += 1;
    }
    assert(copies@.map_values(|p: String| p@) =~= names@.map_values(|p: String| p@));
    copies
}

impl Node {
    /// A copy of the whole tree.
    pub fn duplicate(&self) -> (copy: Node)
        ensures
            copy@ == self@,
        decreases self,
    {
        match self {
            Node::Program(p) => {
                let statements = duplicate_all(&p.statements);
                let copy = Node::Program(Program { statements });
                assert(copy@->Program_statements =~= self@->Program_statements);
                copy
            },
            Node::Function(f) => Node::Function(
                Function {
                    name: f.name.clone(),
                    parameters: duplicate_names(&f.parameters),
                    body: Box::new(f.body.duplicate()),
                },
            ),
            Node::Assignment(a) => Node::Assignment(
                Assignment { name: a.name.clone(), value: Box::new(a.value.duplicate()) },
            ),
            Node::If(c) => Node::If(
                If {
                    condition: Box::new(c.condition.duplicate()),
                    then_branch: Box::new(c.then_branch.duplicate()),
                    else_branch: match &c.else_branch {
                        Some(e) => Some(Box::new(e.duplicate())),
                        None => None,
                    },
                },
            ),
            Node::While(w) => Node::While(
                While {
                    condition: Box::new(w.condition.duplicate()),
                    body: Box::new(w.body.duplicate()),
                },
            ),
            Node::Return(r) => Node::Return(
                Return {
                    value: match &r.value {
                        Some(v) => Some(Box::new(v.duplicate())),
                        None => None,
                    },
                },
            ),
            Node::ExpressionStatement(e) => Node::ExpressionStatement(
                Expression { expression: Box::new(e.expression.duplicate()) },
            ),
            Node::Binary(b) => Node::Binary(
                Binary {
                    left: Box::new(b.left.duplicate()),
                    operator: b.operator,
                    right: Box::new(b.right.duplicate()),
                },
            ),
            Node::Unary(u) => Node::Unary(
                Unary { operator: u.operator, operand: Box::new(u.operand.duplicate()) },
            ),
            Node::Literal(l) => Node::Literal(Literal { value: l.value.duplicate() }),
            Node::Identifier(i) => Node::Identifier(Identifier { name: i.name.clone() }),
            Node::Call(c) => {
                let arguments = duplicate_all(&c.arguments);
                let copy = Node::Call(Call { callee: c.callee.clone(), arguments });
                assert(copy@->Call_arguments =~= self@->Call_arguments);
                copy
            },
        }
    }
}

impl Clone for Node {
    fn clone(&self) -> (copy: Self)
        ensures
            copy@ == self@,
    {
        self.duplicate()
    }
}

impl LiteralValue {
    /// A copy of the value.
    pub fn duplicate(&self) -> (copy: LiteralValue)
        ensures
            copy@ == self@,
    {
        match self {
            LiteralValue::Integer(v) => LiteralValue::Integer(*v),
            LiteralValue::Float(t) => LiteralValue::Float(t.clone()),
            LiteralValue::String(t) => LiteralValue::String(t.clone()),
            LiteralValue::FString(f) => {
                let mut parts: Vec<FStringPart> = Vec::new();
                let mut i: usize = 0;
                while i < f.parts.len()
                    invariant
                        i <= f.parts@.len(),
                        parts@.len() == i,
                        forall|k: int| 0 <= k < i ==> (#[trigger] parts@[k])@ == f.parts@[k]@,
                    decreases f.parts@.len() - i,
                {
                    let part = match &f.parts[i] {
                        FStringPart::Literal(t) => FStringPart::Literal(t.clone()),
                        FStringPart::Expression(t) => FStringPart::Expression(t.clone()),
                    };
                    parts.push(part);
                    i += 1;
                }
                let copy = FString { parts };
                assert(copy@ =~= f@);
                LiteralValue::FString(copy)
            },
            LiteralValue::Boolean(b) => LiteralValue::Boolean(*b),
            LiteralValue::NoneLiteral => LiteralValue::NoneLiteral,
        }
    }
}

/// The segment that finished text gives: none where the text is empty.
pub open spec fn literal_segment(text: Seq<char>) -> Seq<FStringPartView> {
    if text.len() > 0 {
        seq![FStringPartView::Literal(text)]
    } else {
        Seq::empty()
    }
}

/// The segment that a finished expression gives: none where it is empty.
pub open spec fn expression_segment(text: Seq<char>) -> Seq<FStringPartView> {
    if text.len() > 0 {
        seq![FStringPartView::Expression(text)]
    } else {
        Seq::empty()
    }
}

/// The segments of a template from index `i` on, where `literal` and
/// `expression` hold the text gathered so far, `inside` says whether `i` lies
/// between braces and `depth` counts the braces opened inside those.
///
/// A `{` outside an expression ends the literal before it and opens an
/// expression; the matching `}` ends the expression. Braces nested inside an
/// expression belong to its text. A backslash keeps itself and the character
/// after it in the current segment. An expression that the input leaves open
/// is dropped.
pub open spec fn segments_from(
    s: Seq<char>,
    i: int,
    literal: Seq<char>,
    expression: Seq<char>,
    inside: bool,
    depth: nat,
) -> Seq<FStringPartView>
    decreases s.len() - i,
{
    if !(0 <= i < s.len()) {
        literal_segment(literal)
    } else if s[i] == '\\' {
        let taken = if i + 1 < s.len() {
            seq![s[i], s[i + 1]]
        } else {
            seq![s[i]]
        };
        if inside {
            segments_from(s, i + taken.len(), literal, expression + taken, inside, depth)
        } else {
            segments_from(s, i + taken.len(), literal + taken, expression, inside, depth)
        }
    } else if s[i] == '{' {
        if inside {
            segments_from(s, i + 1, literal, expression.push(s[i]), true, depth + 1)
        } else {
            literal_segment(literal) + segments_from(
                s,
                i + 1,
                Seq::empty(),
                Seq::empty(),
                true,
                depth,
            )
        }
    } else if s[i] == '}' {
        if inside && depth > 0 {
            segments_from(s, i + 1, literal, expression.push(s[i]), true, (depth - 1) as nat)
        } else if inside {
            expression_segment(expression) + segments_from(
                s,
                i + 1,
                literal,
                Seq::empty(),
                false,
                depth,
            )
        } else {
            segments_from(s, i + 1, literal.push(s[i]), expression, false, depth)
        }
    } else if inside {
        segments_from(s, i + 1, literal, expression.push(s[i]), true, depth)
    } else {
        segments_from(s, i + 1, literal.push(s[i]), expression, false, depth)
    }
}

/// The segments of the template text `s`.
pub open spec fn template_segments(s: Seq<char>) -> Seq<FStringPartView> {
    segments_from(s, 0, Seq::empty(), Seq::empty(), false, 0)
}

impl Default for Program {
    fn default() -> (program: Self)
        ensures
            program.statements@.len() == 0,
    {
        Program::new()
    }
}

impl Program {
    /// A program without statements.
    pub fn new() -> (program: Self)
        ensures
            program.statements@.len() == 0,
    {
        Program { statements: Vec::new() }
    }
}

impl FString {
    /// Splits the body of a template string into its segments.
    pub fn parse(content: &str) -> (template: FString)
        ensures
            template@ == template_segments(content@),
    {
        let chars = chars_of(content);
        let ghost s = chars@;
        let mut parts: Vec<FStringPart> = Vec::new();
        let mut literal = String::new();
        let mut expression = String::new();
        let mut inside = false;
        let mut depth: usize = 0;
        let mut i: usize = 0;
        while i < chars.len()
            invariant
                s == chars@,
                i <= s.len(),
                depth <= i,
                template_segments(s) == parts@.map_values(|p: FStringPart| p@) + segments_from(
                    s,
                    i as int,
                    literal@,
                    expression@,
                    inside,
                    depth as nat,
                ),
            decreases s.len() - i,
        {
            let ghost done = parts@.map_values(|p: FStringPart| p@);
            let ghost lit = literal@;
            let ghost exp = expression@;
            let ghost at = i as int;
            let ghost rest = segments_from(s, at, lit, exp, inside, depth as nat);
            let c = chars[i];
            if c == '\\' {
                if inside {
                    expression.push(c);
                } else {
                    literal.push(c);
                }
                i += 1;
                if i < chars.len() {
                    if inside {
                        expression.push(chars[i]);
                    } else {
                        literal.push(chars[i]);
                    }
                    i += 1;
                    assert(inside ==> expression@ =~= exp + seq![s[at], s[at + 1]]);
                    assert(!inside ==> literal@ =~= lit + seq![s[at], s[at + 1]]);
                } else {
                    assert(inside ==> expression@ =~= exp + seq![s[at]]);
                    assert(!inside ==> literal@ =~= lit + seq![s[at]]);
                }
                assert(rest == segments_from(
                    s,
                    i as int,
                    literal@,
                    expression@,
                    inside,
                    depth as nat,
                ));
            } else if c == '{' {
                if inside {
                    depth += 1;
                    expression.push(c);
                } else {
                    if !literal.as_str().is_empty() {
                        parts.push(FStringPart::Literal(literal));
                        literal = String::new();
                    }
                    inside = true;
                    expression = String::new();
                    assert(literal@ =~= Seq::<char>::empty());
                    assert(parts@.map_values(|p: FStringPart| p@) =~= done + literal_segment(lit));
                }
                i += 1;
            } else if c == '}' {
                if inside {
                    if depth > 0 {
                        depth -= 1;
                        expression.push(c);
                    } else {
                        if !expression.as_str().is_empty() {
                            parts.push(FStringPart::Expression(expression));
                            expression = String::new();
                        }
                        inside = false;
                        assert(expression@ =~= Seq::<char>::empty());
                        assert(parts@.map_values(|p: FStringPart| p@) =~= done
                            + expression_segment(exp));
                    }
                } else {
                    literal.push(c);
                }
                i += 1;
            } else {
                if inside {
                    expression.push(c);
                } else {
                    literal.push(c);
                }
                i += 1;
            }
            assert(done + rest =~= parts@.map_values(|p: FStringPart| p@) + segments_from(
                s,
                i as int,
                literal@,
                expression@,
                inside,
                depth as nat,
            ));
        }
        let ghost done = parts@.map_values(|p: FStringPart| p@);
        let ghost lit = literal@;
        if !literal.as_str().is_empty() {
            parts.push(FStringPart::Literal(literal));
        }
        let template = FString { parts };
        assert(template@ =~= done + literal_segment(lit));
        template
    }
}

/// Whether `s` holds no brace.
pub open spec fn no_braces(s: Seq<char>) -> bool {
    forall|k: int| 0 <= k < s.len() ==> #[trigger] s[k] != '{' && s[k] != '}'
}

/// Outside braces and without braces ahead, the rest of a template only adds
/// to the literal that is being gathered.
proof fn lemma_segments_of_plain_text(s: Seq<char>, i: int, literal: Seq<char>)
    requires
        0 <= i <= s.len(),
        no_braces(s),
    ensures
        segments_from(s, i, literal, Seq::empty(), false, 0) == literal_segment(
            literal + s.subrange(i, s.len() as int),
        ),
    decreases s.len() - i,
{
    let rest = s.subrange(i, s.len() as int);
    if i >= s.len() {
        assert(literal + rest =~= literal);
    } else if s[i] == '\\' && i + 1 < s.len() {
        let taken = seq![s[i], s[i + 1]];
        lemma_segments_of_plain_text(s, i + 2, literal + taken);
        assert(literal + taken + s.subrange(i + 2, s.len() as int) =~= literal + rest);
    } else {
        lemma_segments_of_plain_text(s, i + 1, literal.push(s[i]));
        assert(literal.push(s[i]) + s.subrange(i + 1, s.len() as int) =~= literal + rest);
        assert(literal + seq![s[i]] =~= literal.push(s[i]));
    }
}

/// A template without braces is one literal. Text that holds no brace
/// splits into a single literal segment that is the text itself; empty text
/// splits into nothing.
pub proof fn lemma_template_without_braces(s: Seq<char>)
    requires
        no_braces(s),
    ensures
        template_segments(s) == literal_segment(s),
{
    lemma_segments_of_plain_text(s, 0, Seq::empty());
    assert(Seq::<char>::empty() + s.subrange(0, s.len() as int) =~= s);
}

/// A segment as a template writes it: text as it is, an expression between
/// braces.
pub open spec fn written_segment(part: FStringPartView) -> Seq<char> {
    match part {
        FStringPartView::Literal(text) => text,
        FStringPartView::Expression(text) => seq!['{'] + text + seq!['}'],
    }
}

/// Segments written one after the other.
pub open spec fn joined(parts: Seq<FStringPartView>) -> Seq<char>
    decreases parts.len(),
{
    if parts.len() == 0 {
        Seq::empty()
    } else {
        joined(parts.drop_last()) + written_segment(parts.last())
    }
}

/// Whether the text from index `i` on closes every expression that it opens
/// and leaves none empty, where `inside` says whether `i` lies between
/// braces, `depth` counts the braces opened inside those and `blank` says
/// that the expression has no character yet.
pub open spec fn braces_close(s: Seq<char>, i: int, inside: bool, depth: nat, blank: bool) -> bool
    decreases s.len() - i,
{
    if !(0 <= i < s.len()) {
        !inside
    } else if s[i] == '\\' {
        let taken: int = if i + 1 < s.len() {
            2
        } else {
            1
        };
        braces_close(s, i + taken, inside, depth, blank && !inside)
    } else if s[i] == '{' {
        if inside {
            braces_close(s, i + 1, true, depth + 1, false)
        } else {
            braces_close(s, i + 1, true, depth, true)
        }
    } else if s[i] == '}' {
        if inside && depth > 0 {
            braces_close(s, i + 1, true, (depth - 1) as nat, false)
        } else if inside {
            !blank && braces_close(s, i + 1, false, depth, true)
        } else {
            braces_close(s, i + 1, false, depth, blank)
        }
    } else if inside {
        braces_close(s, i + 1, true, depth, false)
    } else {
        braces_close(s, i + 1, false, depth, blank)
    }
}

/// Writing segments one after the other writes the first ones, then the
/// others.
proof fn lemma_joined_both(first: Seq<FStringPartView>, second: Seq<FStringPartView>)
    ensures
        joined(first + second) == joined(first) + joined(second),
    decreases second.len(),
{
    if second.len() == 0 {
        assert(first + second =~= first);
        assert(joined(first) + joined(second) =~= joined(first));
    } else {
        lemma_joined_both(first, second.drop_last());
        assert((first + second).drop_last() =~= first + second.drop_last());
        assert((first + second).last() == second.last());
        assert(joined(first) + (joined(second.drop_last()) + written_segment(second.last()))
            =~= (joined(first) + joined(second.drop_last())) + written_segment(second.last()));
    }
}

/// One segment written is that segment.
proof fn lemma_joined_one(part: FStringPartView)
    ensures
        joined(seq![part]) == written_segment(part),
{
    assert(seq![part].drop_last() =~= Seq::<FStringPartView>::empty());
    assert(joined(seq![part].drop_last()) =~= Seq::<char>::empty());
    assert(seq![part].last() == part);
    assert(joined(seq![part]) =~= written_segment(part));
}

/// From index `i` on, the segments written one after the other are what was
/// gathered so far and the rest of the text.
proof fn lemma_joined_from(
    s: Seq<char>,
    i: int,
    literal: Seq<char>,
    expression: Seq<char>,
    inside: bool,
    depth: nat,
)
    requires
        0 <= i <= s.len(),
        inside ==> literal.len() == 0,
        braces_close(s, i, inside, depth, expression.len() == 0),
    ensures
        joined(segments_from(s, i, literal, expression, inside, depth)) == literal + (if inside {
            seq!['{'] + expression
        } else {
            Seq::empty()
        }) + s.subrange(i, s.len() as int),
    decreases s.len() - i,
{
    let rest = s.subrange(i, s.len() as int);
    let open = seq!['{'];
    let none = Seq::<char>::empty();
    if i >= s.len() {
        if literal.len() > 0 {
            lemma_joined_one(FStringPartView::Literal(literal));
        }
        assert(literal + none + rest =~= literal);
    } else if s[i] == '\\' {
        let taken = if i + 1 < s.len() {
            seq![s[i], s[i + 1]]
        } else {
            seq![s[i]]
        };
        assert(rest =~= taken + s.subrange(i + taken.len(), s.len() as int));
        if inside {
            lemma_joined_from(s, i + taken.len(), literal, expression + taken, inside, depth);
            assert(literal + (open + (expression + taken)) + s.subrange(
                i + taken.len(),
                s.len() as int,
            ) =~= literal + (open + expression) + rest);
        } else {
            lemma_joined_from(s, i + taken.len(), literal + taken, expression, inside, depth);
            assert((literal + taken) + none + s.subrange(i + taken.len(), s.len() as int)
                =~= literal + none + rest);
        }
    } else {
        let later = s.subrange(i + 1, s.len() as int);
        assert(rest =~= seq![s[i]] + later);
        if s[i] == '{' && !inside {
            lemma_joined_from(s, i + 1, none, none, true, depth);
            lemma_joined_both(
                literal_segment(literal),
                segments_from(s, i + 1, none, none, true, depth),
            );
            if literal.len() > 0 {
                lemma_joined_one(FStringPartView::Literal(literal));
            }
            assert(joined(literal_segment(literal)) =~= literal);
            assert(literal + (none + (open + none) + later) =~= literal + none + rest);
        } else if s[i] == '}' && inside && depth == 0 {
            lemma_joined_from(s, i + 1, literal, none, false, depth);
            lemma_joined_both(
                expression_segment(expression),
                segments_from(s, i + 1, literal, none, false, depth),
            );
            lemma_joined_one(FStringPartView::Expression(expression));
            assert((open + expression + seq!['}']) + (literal + none + later) =~= literal + (open
                + expression) + rest);
        } else if inside {
            let depth_after = if s[i] == '{' {
                depth + 1
            } else if s[i] == '}' {
                (depth - 1) as nat
            } else {
                depth
            };
            lemma_joined_from(s, i + 1, literal, expression.push(s[i]), true, depth_after);
            assert(literal + (open + expression.push(s[i])) + later =~= literal + (open
                + expression) + rest);
        } else {
            lemma_joined_from(s, i + 1, literal.push(s[i]), expression, false, depth);
            assert(literal.push(s[i]) + none + later =~= literal + none + rest);
        }
    }
}

/// The segments of a template, written one after the other with each
/// expression between braces, are the template. This holds of every text
/// that closes each expression it opens and leaves no pair of braces empty;
/// an expression left open and an empty pair of braces give no segment.
pub proof fn lemma_segments_join(s: Seq<char>)
    requires
        braces_close(s, 0, false, 0, true),
    ensures
        joined(template_segments(s)) == s,
{
    lemma_joined_from(s, 0, Seq::empty(), Seq::empty(), false, 0);
    assert(Seq::<char>::empty() + Seq::<char>::empty() + s.subrange(0, s.len() as int) =~= s);
}

} // verus!
