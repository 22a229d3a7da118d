//! The tree of expressions that the builder makes and the interpreter walks.
//!
//! Each type has a mathematical twin (`SpecValue`, `SpecExpression`, ...)
//! in which strings are sequences of characters and vectors are sequences;
//! contracts speak of those.
use vstd::prelude::*;

verus! {

/// `let key = value`.
#[derive(Debug)]
pub struct LetExpression {
    pub key: Box<Value>,
    pub vartype: Option<String>,
    pub value: Box<Value>,
}

/// `first && second`.
#[derive(Debug)]
pub struct AndExpression {
    pub first: Box<Expression>,
    pub second: Box<Expression>,
}

/// `first || second`.
#[derive(Debug)]
pub struct OrExpression {
    pub first: Box<Expression>,
    pub second: Box<Expression>,
}

/// `if condition ; contents ; else ; else_contents ; end`.
#[derive(Debug)]
pub struct IfExpression {
    pub condition: Box<Expression>,
    pub contents: Vec<Expression>,
    pub else_contents: Vec<Expression>,
}

/// `while condition ; contents ; end`.
#[derive(Debug)]
pub struct WhileExpression {
    pub condition: Box<Expression>,
    pub contents: Vec<Expression>,
}

/// `for arg_key arg_value in list ; contents ; else ; else_contents ; end`.
#[derive(Debug)]
pub struct ForExpression {
    pub arg_value: Value,
    pub arg_key: Option<Value>,
    pub list: Value,
    pub contents: Vec<Expression>,
    pub else_contents: Vec<Expression>,
}

/// What a `for` loop may run over.
#[derive(Debug)]
pub enum ForValue {
    Value(Value),
    Range(Option<u32>, Option<u32>),
}

/// A call of a built-in: its name with the sigil, and its arguments.
#[derive(Debug)]
pub struct DefinedFunctionCall {
    pub name: String,
    pub args: Vec<Value>,
}

/// Something that evaluates to a variable.
#[derive(Debug)]
pub enum Value {
    Literal(String),
    Variable(String),
    ArrayVariable(String),
    ArrayDefinition(Vec<Value>),
    ValueFunction(DefinedFunctionCall),
    Expressions(Vec<Expression>),
    Values(Vec<Value>),
}

/// A parameter of a function definition.
#[derive(Debug, Clone)]
pub struct FunctionVariable {
    pub name: String,
    pub vartype: Option<String>,
}

/// `fn name(args) body end`.
#[derive(Debug)]
pub struct FunctionDefinitionExpression {
    pub name: String,
    pub description: Option<String>,
    pub on_event: Option<String>,
    pub args: Vec<FunctionVariable>,
    pub body: Box<Expression>,
}

/// `source | target`.
#[derive(Debug)]
pub struct RedirectTargetExpression {
    pub source: Box<Expression>,
    pub target: Box<Expression>,
}

/// `source > target`.
#[derive(Debug)]
pub struct FileTargetExpression {
    pub source: Option<Box<Expression>>,
    pub target: Box<Value>,
}

/// `target < source`.
#[derive(Debug)]
pub struct FileSourceExpression {
    pub source: Box<Value>,
    pub target: Option<Box<Expression>>,
}

/// One word of a command.
#[derive(Debug)]
pub enum CommandValue {
    Value(Value),
    Var(String, Value),
}

/// `break num`.
#[derive(Debug)]
pub struct BreakExpression {
    pub num: Box<Value>,
}

/// A statement, or a part of one.
#[derive(Debug)]
pub enum Expression {
    LetExpression(LetExpression),
    Command(Vec<CommandValue>),
    JobCommand(Box<Expression>),
    Function(FunctionDefinitionExpression),
    IfExpression(IfExpression),
    WhileExpression(WhileExpression),
    ForExpression(ForExpression),
    RedirectTargetExpression(RedirectTargetExpression),
    FileTargetExpression(FileTargetExpression),
    FileSourceExpression(FileSourceExpression),
    Expressions(Vec<Expression>),
    OrExpression(OrExpression),
    AndExpression(AndExpression),
    BreakExpression(BreakExpression),
}

/// `Value` as a mathematical value.
pub enum SpecValue {
    Literal(Seq<char>),
    Variable(Seq<char>),
    ArrayVariable(Seq<char>),
    ArrayDefinition(Seq<SpecValue>),
    ValueFunction(Seq<char>, Seq<SpecValue>),
    Expressions(Seq<SpecExpression>),
    Values(Seq<SpecValue>),
}

/// `CommandValue` as a mathematical value.
pub enum SpecCommandValue {
    Value(SpecValue),
    Var(Seq<char>, SpecValue),
}

/// `FunctionVariable` as a mathematical value.
pub struct SpecFunctionVariable {
    pub name: Seq<char>,
    pub vartype: Option<Seq<char>>,
}

/// `Expression` as a mathematical value.
pub enum SpecExpression {
    Let { key: Box<SpecValue>, vartype: Option<Seq<char>>, value: Box<SpecValue> },
    Command(Seq<SpecCommandValue>),
    JobCommand(Box<SpecExpression>),
    Function {
        name: Seq<char>,
        description: Option<Seq<char>>,
        on_event: Option<Seq<char>>,
        args: Seq<SpecFunctionVariable>,
        body: Box<SpecExpression>,
    },
    If {
        condition: Box<SpecExpression>,
        contents: Seq<SpecExpression>,
        else_contents: Seq<SpecExpression>,
    },
    While { condition: Box<SpecExpression>, contents: Seq<SpecExpression> },
    For {
        arg_value: Box<SpecValue>,
        arg_key: Option<Box<SpecValue>>,
        list: Box<SpecValue>,
        contents: Seq<SpecExpression>,
        else_contents: Seq<SpecExpression>,
    },
    RedirectTarget { source: Box<SpecExpression>, target: Box<SpecExpression> },
    FileTarget { source: Option<Box<SpecExpression>>, target: Box<SpecValue> },
    FileSource { source: Box<SpecValue>, target: Option<Box<SpecExpression>> },
    Expressions(Seq<SpecExpression>),
    Or { first: Box<SpecExpression>, second: Box<SpecExpression> },
    And { first: Box<SpecExpression>, second: Box<SpecExpression> },
    Break { num: Box<SpecValue> },
}

pub open spec fn text_view(s: Option<String>) -> Option<Seq<char>> {
    match s {
        Some(s) => Some(s@),
        None => None,
    }
}

/// The mathematical value of `v`.
#[verifier::opaque]
pub open spec fn value_view(v: Value) -> SpecValue
    decreases v,
{
    match v {
        Value::Literal(s) => SpecValue::Literal(s@),
        Value::Variable(s) => SpecValue::Variable(s@),
        Value::ArrayVariable(s) => SpecValue::ArrayVariable(s@),
        Value::ArrayDefinition(items) => SpecValue::ArrayDefinition(
            Seq::new(
                items.len() as nat,
                |i: int|
                    if 0 <= i < items.len() {
                        value_view(items[i])
                    } else {
                        SpecValue::Values(Seq::empty())
                    },
            ),
        ),
        Value::ValueFunction(call) => SpecValue::ValueFunction(
            call.name@,
            Seq::new(
                call.args.len() as nat,
                |i: int|
                    if 0 <= i < call.args.len() {
                        value_view(call.args[i])
                    } else {
                        SpecValue::Values(Seq::empty())
                    },
            ),
        ),
        Value::Expressions(body) => SpecValue::Expressions(
            Seq::new(
                body.len() as nat,
                |i: int|
                    if 0 <= i < body.len() {
                        expression_view(body[i])
                    } else {
                        SpecExpression::Expressions(Seq::empty())
                    },
            ),
        ),
        Value::Values(items) => SpecValue::Values(
            Seq::new(
                items.len() as nat,
                |i: int|
                    if 0 <= i < items.len() {
                        value_view(items[i])
                    } else {
                        SpecValue::Values(Seq::empty())
                    },
            ),
        ),
    }
}

/// The mathematical value of `c`.
#[verifier::opaque]
pub open spec fn command_value_view(c: CommandValue) -> SpecCommandValue
    decreases c,
{
    match c {
        CommandValue::Value(v) => SpecCommandValue::Value(value_view(v)),
        CommandValue::Var(name, v) => SpecCommandValue::Var(name@, value_view(v)),
    }
}

/// The mathematical value of `e`.
#[verifier::opaque]
pub open spec fn expression_view(e: Expression) -> SpecExpression
    decreases e,
{
    match e {
        Expression::LetExpression(l) => SpecExpression::Let {
            key: Box::new(value_view(*l.key)),
            vartype: text_view(l.vartype),
            value: Box::new(value_view(*l.value)),
        },
        Expression::Command(words) => SpecExpression::Command(
            Seq::new(
                words.len() as nat,
                |i: int|
                    if 0 <= i < words.len() {
                        command_value_view(words[i])
                    } else {
                        SpecCommandValue::Value(SpecValue::Values(Seq::empty()))
                    },
            ),
        ),
        Expression::JobCommand(inner) => SpecExpression::JobCommand(
            Box::new(expression_view(*inner)),
        ),
        Expression::Function(f) => SpecExpression::Function {
            name: f.name@,
            description: text_view(f.description),
            on_event: text_view(f.on_event),
            args: Seq::new(
                f.args.len() as nat,
                |i: int|
                    SpecFunctionVariable {
                        name: f.args[i].name@,
                        vartype: text_view(f.args[i].vartype),
                    },
            ),
            body: Box::new(expression_view(*f.body)),
        },
        Expression::IfExpression(x) => SpecExpression::If {
            condition: Box::new(expression_view(*x.condition)),
            contents: Seq::new(
                x.contents.len() as nat,
                |i: int|
                    if 0 <= i < x.contents.len() {
                        expression_view(x.contents[i])
                    } else {
                        SpecExpression::Expressions(Seq::empty())
                    },
            ),
            else_contents: Seq::new(
                x.else_contents.len() as nat,
                |i: int|
                    if 0 <= i < x.else_contents.len() {
                        expression_view(x.else_contents[i])
                    } else {
                        SpecExpression::Expressions(Seq::empty())
                    },
            ),
        },
        Expression::WhileExpression(x) => SpecExpression::While {
            condition: Box::new(expression_view(*x.condition)),
            contents: Seq::new(
                x.contents.len() as nat,
                |i: int|
                    if 0 <= i < x.contents.len() {
                        expression_view(x.contents[i])
                    } else {
                        SpecExpression::Expressions(Seq::empty())
                    },
            ),
        },
        Expression::ForExpression(x) => SpecExpression::For {
            arg_value: Box::new(value_view(x.arg_value)),
            arg_key: match x.arg_key {
                Some(k) => Some(Box::new(value_view(k))),
                None => None,
            },
            list: Box::new(value_view(x.list)),
            contents: Seq::new(
                x.contents.len() as nat,
                |i: int|
                    if 0 <= i < x.contents.len() {
                        expression_view(x.contents[i])
                    } else {
                        SpecExpression::Expressions(Seq::empty())
                    },
            ),
            else_contents: Seq::new(
                x.else_contents.len() as nat,
                |i: int|
                    if 0 <= i < x.else_contents.len() {
                        expression_view(x.else_contents[i])
                    } else {
                        SpecExpression::Expressions(Seq::empty())
                    },
            ),
        },
        Expression::RedirectTargetExpression(x) => SpecExpression::RedirectTarget {
            source: Box::new(expression_view(*x.source)),
            target: Box::new(expression_view(*x.target)),
        },
        Expression::FileTargetExpression(x) => SpecExpression::FileTarget {
            source: match x.source {
                Some(s) => Some(Box::new(expression_view(*s))),
                None => None,
            },
            target: Box::new(value_view(*x.target)),
        },
        Expression::FileSourceExpression(x) => SpecExpression::FileSource {
            source: Box::new(value_view(*x.source)),
            target: match x.target {
                Some(t) => Some(Box::new(expression_view(*t))),
                None => None,
            },
        },
        Expression::Expressions(body) => SpecExpression::Expressions(
            Seq::new(
                body.len() as nat,
                |i: int|
                    if 0 <= i < body.len() {
                        expression_view(body[i])
                    } else {
                        SpecExpression::Expressions(Seq::empty())
                    },
            ),
        ),
        Expression::OrExpression(x) => SpecExpression::Or {
            first: Box::new(expression_view(*x.first)),
            second: Box::new(expression_view(*x.second)),
        },
        Expression::AndExpression(x) => SpecExpression::And {
            first: Box::new(expression_view(*x.first)),
            second: Box::new(expression_view(*x.second)),
        },
        Expression::BreakExpression(x) => SpecExpression::Break {
            num: Box::new(value_view(*x.num)),
        },
    }
}

impl View for Value {
    type V = SpecValue;

    open spec fn view(&self) -> SpecValue {
        value_view(*self)
    }
}

impl View for CommandValue {
    type V = SpecCommandValue;

    open spec fn view(&self) -> SpecCommandValue {
        command_value_view(*self)
    }
}

impl View for Expression {
    type V = SpecExpression;

    open spec fn view(&self) -> SpecExpression {
        expression_view(*self)
    }
}

/// The mathematical values of a list of values.
pub open spec fn values_view(items: Seq<Value>) -> Seq<SpecValue> {
    Seq::new(items.len(), |i: int| value_view(items[i]))
}

/// The mathematical values of the words of a command.
pub open spec fn command_values_view(items: Seq<CommandValue>) -> Seq<SpecCommandValue> {
    Seq::new(items.len(), |i: int| command_value_view(items[i]))
}

/// The mathematical values of a list of expressions.
pub open spec fn expressions_view(items: Seq<Expression>) -> Seq<SpecExpression> {
    Seq::new(items.len(), |i: int| expression_view(items[i]))
}


impl Value {
    /// The literal word `s`.
    pub fn literal(s: String) -> (v: Value)
        ensures
            v@ == SpecValue::Literal(s@),
    {
        reveal(value_view);
        reveal(command_value_view);
        reveal(expression_view);
        Value::Literal(s)
    }

    /// The string variable `name`.
    pub fn variable(name: String) -> (v: Value)
        ensures
            v@ == SpecValue::Variable(name@),
    {
        reveal(value_view);
        reveal(command_value_view);
        reveal(expression_view);
        Value::Variable(name)
    }

    /// The array variable `name`.
    pub fn array_variable(name: String) -> (v: Value)
        ensures
            v@ == SpecValue::ArrayVariable(name@),
    {
        reveal(value_view);
        reveal(command_value_view);
        reveal(expression_view);
        Value::ArrayVariable(name)
    }

    /// The word made of several pieces, or the list made of several words.
    pub fn values(items: Vec<Value>) -> (v: Value)
        ensures
            v@ == SpecValue::Values(values_view(items@)),
    {
        reveal(value_view);
        reveal(command_value_view);
        reveal(expression_view);
        let ghost inner = items@;
        let v = Value::Values(items);
        assert(v@ matches SpecValue::Values(s) && s =~= values_view(inner));
        v
    }

    /// The array literal with the given items.
    pub fn array(items: Vec<Value>) -> (v: Value)
        ensures
            v@ == SpecValue::ArrayDefinition(values_view(items@)),
    {
        reveal(value_view);
        reveal(command_value_view);
        reveal(expression_view);
        let ghost inner = items@;
        let v = Value::ArrayDefinition(items);
        assert(v@ matches SpecValue::ArrayDefinition(s) && s =~= values_view(inner));
        v
    }

    /// The call of `name` on `args`.
    pub fn call(name: String, args: Vec<Value>) -> (v: Value)
        ensures
            v@ == SpecValue::ValueFunction(name@, values_view(args@)),
    {
        reveal(value_view);
        reveal(command_value_view);
        reveal(expression_view);
        let ghost inner = args@;
        let v = Value::ValueFunction(DefinedFunctionCall { name, args });
        assert(v@ matches SpecValue::ValueFunction(_, s) && s =~= values_view(inner));
        v
    }

    /// The substitution of what `body` prints.
    pub fn substitution(body: Vec<Expression>) -> (v: Value)
        ensures
            v@ == SpecValue::Expressions(expressions_view(body@)),
    {
        reveal(value_view);
        reveal(command_value_view);
        reveal(expression_view);
        let ghost inner = body@;
        let v = Value::Expressions(body);
        assert(v@ matches SpecValue::Expressions(s) && s =~= expressions_view(inner));
        v
    }
}

impl CommandValue {
    /// The word `v` of a command.
    pub fn word(v: Value) -> (c: CommandValue)
        ensures
            c@ == SpecCommandValue::Value(v@),
    {
        reveal(value_view);
        reveal(command_value_view);
        reveal(expression_view);
        CommandValue::Value(v)
    }
}

impl Expression {
    /// `let key = value`.
    pub fn assignment(key: Value, value: Value) -> (e: Expression)
        ensures
            e@ == (SpecExpression::Let {
                key: Box::new(key@),
                vartype: None,
                value: Box::new(value@),
            }),
    {
        reveal(value_view);
        reveal(command_value_view);
        reveal(expression_view);
        Expression::LetExpression(
            LetExpression { key: Box::new(key), vartype: None, value: Box::new(value) },
        )
    }

    /// `source | target`.
    pub fn pipe(source: Expression, target: Expression) -> (e: Expression)
        ensures
            e@ == (SpecExpression::RedirectTarget {
                source: Box::new(source@),
                target: Box::new(target@),
            }),
    {
        reveal(value_view);
        reveal(command_value_view);
        reveal(expression_view);
        Expression::RedirectTargetExpression(
            RedirectTargetExpression { source: Box::new(source), target: Box::new(target) },
        )
    }

    /// `first && second`.
    pub fn both(first: Expression, second: Expression) -> (e: Expression)
        ensures
            e@ == (SpecExpression::And { first: Box::new(first@), second: Box::new(second@) }),
    {
        reveal(value_view);
        reveal(command_value_view);
        reveal(expression_view);
        Expression::AndExpression(
            AndExpression { first: Box::new(first), second: Box::new(second) },
        )
    }

    /// `first || second`.
    pub fn either(first: Expression, second: Expression) -> (e: Expression)
        ensures
            e@ == (SpecExpression::Or { first: Box::new(first@), second: Box::new(second@) }),
    {
        reveal(value_view);
        reveal(command_value_view);
        reveal(expression_view);
        Expression::OrExpression(OrExpression { first: Box::new(first), second: Box::new(second) })
    }

    /// `source > target`.
    pub fn write_to(source: Option<Expression>, target: Value) -> (e: Expression)
        ensures
            e@ == (SpecExpression::FileTarget {
                source: match source {
                    Some(s) => Some(Box::new(s@)),
                    None => None,
                },
                target: Box::new(target@),
            }),
    {
        reveal(value_view);
        reveal(command_value_view);
        reveal(expression_view);
        Expression::FileTargetExpression(
            FileTargetExpression {
                source: match source {
                    Some(e) => Some(Box::new(e)),
                    None => None,
                },
                target: Box::new(target),
            },
        )
    }

    /// `target < source`.
    pub fn read_from(source: Value, target: Option<Expression>) -> (e: Expression)
        ensures
            e@ == (SpecExpression::FileSource {
                source: Box::new(source@),
                target: match target {
                    Some(t) => Some(Box::new(t@)),
                    None => None,
                },
            }),
    {
        reveal(value_view);
        reveal(command_value_view);
        reveal(expression_view);
        Expression::FileSourceExpression(
            FileSourceExpression {
                source: Box::new(source),
                target: match target {
                    Some(e) => Some(Box::new(e)),
                    None => None,
                },
            },
        )
    }

    /// `break num`.
    pub fn stop(num: Value) -> (e: Expression)
        ensures
            e@ == (SpecExpression::Break { num: Box::new(num@) }),
    {
        reveal(value_view);
        reveal(command_value_view);
        reveal(expression_view);
        Expression::BreakExpression(BreakExpression { num: Box::new(num) })
    }

    /// The command with the given words.
    pub fn command(words: Vec<CommandValue>) -> (e: Expression)
        ensures
            e@ == SpecExpression::Command(command_values_view(words@)),
    {
        reveal(value_view);
        reveal(command_value_view);
        reveal(expression_view);
        let ghost inner = words@;
        let e = Expression::Command(words);
        assert(e@ matches SpecExpression::Command(s) && s =~= command_values_view(inner));
        e
    }

    /// `if condition ; contents ; else ; else_contents ; end`.
    pub fn conditional(
        condition: Expression,
        contents: Vec<Expression>,
        else_contents: Vec<Expression>,
    ) -> (e: Expression)
        ensures
            e@ == (SpecExpression::If {
                condition: Box::new(condition@),
                contents: expressions_view(contents@),
                else_contents: expressions_view(else_contents@),
            }),
    {
        reveal(value_view);
        reveal(command_value_view);
        reveal(expression_view);
        let ghost a = contents@;
        let ghost b = else_contents@;
        let e = Expression::IfExpression(
            IfExpression { condition: Box::new(condition), contents, else_contents },
        );
        assert(e@ matches SpecExpression::If { contents: x, else_contents: y, .. } && x
            =~= expressions_view(a) && y =~= expressions_view(b));
        e
    }

    /// `while condition ; contents ; end`.
    pub fn repeat(condition: Expression, contents: Vec<Expression>) -> (e: Expression)
        ensures
            e@ == (SpecExpression::While {
                condition: Box::new(condition@),
                contents: expressions_view(contents@),
            }),
    {
        reveal(value_view);
        reveal(command_value_view);
        reveal(expression_view);
        let ghost a = contents@;
        let e = Expression::WhileExpression(
            WhileExpression { condition: Box::new(condition), contents },
        );
        assert(e@ matches SpecExpression::While { contents: x, .. } && x =~= expressions_view(a));
        e
    }

    /// `for arg_key arg_value in list ; contents ; else ; else_contents ; end`.
    pub fn each(
        arg_value: Value,
        arg_key: Option<Value>,
        list: Value,
        contents: Vec<Expression>,
        else_contents: Vec<Expression>,
    ) -> (e: Expression)
        ensures
            e@ == (SpecExpression::For {
                arg_value: Box::new(arg_value@),
                arg_key: match arg_key {
                    Some(k) => Some(Box::new(k@)),
                    None => None,
                },
                list: Box::new(list@),
                contents: expressions_view(contents@),
                else_contents: expressions_view(else_contents@),
            }),
    {
        reveal(value_view);
        reveal(command_value_view);
        reveal(expression_view);
        let ghost a = contents@;
        let ghost b = else_contents@;
        let e = Expression::ForExpression(
            ForExpression { arg_value, arg_key, list, contents, else_contents },
        );
        assert(e@ matches SpecExpression::For { contents: x, else_contents: y, .. } && x
            =~= expressions_view(a) && y =~= expressions_view(b));
        e
    }
}

/// Appends a value; the views follow.
pub fn push_value(items: &mut Vec<Value>, v: Value)
    ensures
        final(items)@ == old(items)@.push(v),
        values_view(final(items)@) == values_view(old(items)@).push(v@),
{
    items.push(v);
    assert(values_view(items@) =~= values_view(old(items)@).push(v@));
}

/// Appends an expression; the views follow.
pub fn push_expression(items: &mut Vec<Expression>, e: Expression)
    ensures
        final(items)@ == old(items)@.push(e),
        expressions_view(final(items)@) == expressions_view(old(items)@).push(e@),
{
    items.push(e);
    assert(expressions_view(items@) =~= expressions_view(old(items)@).push(e@));
}

} // verus!
