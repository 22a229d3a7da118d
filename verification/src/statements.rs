//! The statements of the script notation: what the reader of `parser`
//! makes of a text.
//!
//! Each type has a mathematical twin (`SpecStatement`, `SpecValue`, ...)
//! in which strings are sequences of characters and vectors are sequences;
//! the twins fold the small wrapper structs into their enums.
use vstd::prelude::*;

verus! {

/// `value[index]`.
#[derive(Debug)]
pub struct Index {
    pub value: Box<Value>,
    pub index: Box<Value>,
}

/// One piece of a word: text, or the name of a variable.
#[derive(Debug)]
pub enum FormatStringPart {
    String(String),
    Variable(String),
}

/// A word: its pieces in order.
#[derive(Debug)]
pub struct FormatString {
    pub values: Vec<FormatStringPart>,
}

/// A number (kept as it was written), a word, or an indexed value.
#[derive(Debug)]
pub enum Primitive {
    Number(String),
    FormatString(FormatString),
    Index(Index),
}

/// What a name can be bound to.
#[derive(Debug)]
pub enum Bindable {
    Primitive(Primitive),
}

/// A command: its name and its arguments.
#[derive(Debug)]
pub struct Command {
    pub name: Box<Value>,
    pub args: Vec<Value>,
}

/// `lhs | rhs`.
#[derive(Debug)]
pub struct CommandPipe {
    pub lhs: Box<Statement>,
    pub rhs: Box<Statement>,
}

/// `cmd > target`.
#[derive(Debug)]
pub struct TargetFilePipe {
    pub cmd: Option<Box<Statement>>,
    pub target: Box<Value>,
    pub overwrite: bool,
}

/// `cmd < source`.
#[derive(Debug)]
pub struct SourceFilePipe {
    pub cmd: Option<Box<Statement>>,
    pub source: Box<Value>,
}

/// `lhs && rhs`.
#[derive(Debug)]
pub struct And {
    pub lhs: Box<Statement>,
    pub rhs: Box<Statement>,
}

/// `lhs || rhs`.
#[derive(Debug)]
pub struct Or {
    pub lhs: Box<Statement>,
    pub rhs: Box<Statement>,
}

/// The negation of a statement.
#[derive(Debug)]
pub struct Not {
    pub value: Box<Statement>,
}

/// `set name = value`.
#[derive(Debug)]
pub struct SetVar {
    pub name: Box<Bindable>,
    pub value: Box<Value>,
}

/// `if condition { body } else { else_body }`.
#[derive(Debug)]
pub struct If {
    pub condition: Box<Command>,
    pub body: Vec<Statement>,
    pub else_body: Option<Vec<Statement>>,
}

/// `while condition { body } else { else_body }`.
#[derive(Debug)]
pub struct While {
    pub condition: Box<Command>,
    pub body: Vec<Statement>,
    pub else_body: Option<Vec<Statement>>,
}

/// `for name in iterable { body } else { else_body }`.
#[derive(Debug)]
pub struct For {
    pub name: Box<Bindable>,
    pub iterable: Box<Value>,
    pub body: Vec<Statement>,
    pub else_body: Option<Vec<Statement>>,
}

/// `loop { body }`.
#[derive(Debug)]
pub struct Loop {
    pub body: Vec<Statement>,
}

/// `fn name(args) { body }`.
#[derive(Debug)]
pub struct Function {
    pub name: String,
    pub args: Vec<Bindable>,
    pub body: Vec<Statement>,
}

/// One statement.
#[derive(Debug)]
pub enum Statement {
    Command(Command),
    SetVar(SetVar),
    For(For),
    While(While),
    If(If),
    Loop(Loop),
    Function(Function),
    Return(Option<Value>),
    Break,
    Continue,
    Or(Or),
    And(And),
    Not(Not),
    CommandPipe(CommandPipe),
    TargetFilePipe(TargetFilePipe),
    SourceFilePipe(SourceFilePipe),
}

/// A primitive, or statements in parentheses.
#[derive(Debug)]
pub enum Value {
    Primitive(Primitive),
    Group(Vec<Statement>),
}

/// The twin of `FormatStringPart`.
pub enum SpecPart {
    String(Seq<char>),
    Variable(Seq<char>),
}

/// The twin of `Primitive` and of `Bindable`.
pub enum SpecPrimitive {
    Number(Seq<char>),
    FormatString(Seq<SpecPart>),
    Index { value: Box<SpecValue>, index: Box<SpecValue> },
}

/// The twin of `Value`.
pub enum SpecValue {
    Primitive(SpecPrimitive),
    Group(Seq<SpecStatement>),
}

/// The twin of `Command`.
pub struct SpecCommand {
    pub name: SpecValue,
    pub args: Seq<SpecValue>,
}

/// The twin of `Statement`.
pub enum SpecStatement {
    Command(SpecCommand),
    SetVar { name: SpecPrimitive, value: SpecValue },
    For {
        name: SpecPrimitive,
        iterable: SpecValue,
        body: Seq<SpecStatement>,
        else_body: Option<Seq<SpecStatement>>,
    },
    While { condition: SpecCommand, body: Seq<SpecStatement>, else_body: Option<Seq<SpecStatement>> },
    If { condition: SpecCommand, body: Seq<SpecStatement>, else_body: Option<Seq<SpecStatement>> },
    Loop { body: Seq<SpecStatement> },
    Function { called: Seq<char>, args: Seq<SpecPrimitive>, body: Seq<SpecStatement> },
    Return(Option<SpecValue>),
    Break,
    Continue,
    Or { lhs: Box<SpecStatement>, rhs: Box<SpecStatement> },
    And { lhs: Box<SpecStatement>, rhs: Box<SpecStatement> },
    Not { negated: Box<SpecStatement> },
    CommandPipe { lhs: Box<SpecStatement>, rhs: Box<SpecStatement> },
    TargetFilePipe { cmd: Option<Box<SpecStatement>>, target: SpecValue, overwrite: bool },
    SourceFilePipe { cmd: Option<Box<SpecStatement>>, source: SpecValue },
}

/// The mathematical value of one piece of a word.
pub open spec fn part_view(p: FormatStringPart) -> SpecPart {
    match p {
        FormatStringPart::String(s) => SpecPart::String(s@),
        FormatStringPart::Variable(s) => SpecPart::Variable(s@),
    }
}

/// The mathematical values of the pieces of a word.
pub open spec fn parts_view(items: Seq<FormatStringPart>) -> Seq<SpecPart> {
    Seq::new(items.len(), |i: int| part_view(items[i]))
}

/// What stands for an item that is not there.
pub open spec fn no_statement() -> SpecStatement {
    SpecStatement::Break
}

/// What stands for a value that is not there.
pub open spec fn no_value() -> SpecValue {
    SpecValue::Group(Seq::empty())
}

/// The mathematical value of `p`.
#[verifier::opaque]
pub open spec fn primitive_view(p: Primitive) -> SpecPrimitive
    decreases p,
{
    match p {
        Primitive::Number(s) => SpecPrimitive::Number(s@),
        Primitive::FormatString(f) => SpecPrimitive::FormatString(parts_view(f.values@)),
        Primitive::Index(x) => SpecPrimitive::Index {
            value: Box::new(value_view(*x.value)),
            index: Box::new(value_view(*x.index)),
        },
    }
}

/// The mathematical value of `v`.
#[verifier::opaque]
pub open spec fn value_view(v: Value) -> SpecValue
    decreases v,
{
    match v {
        Value::Primitive(p) => SpecValue::Primitive(primitive_view(p)),
        Value::Group(body) => SpecValue::Group(
            Seq::new(
                body.len() as nat,
                |i: int|
                    if 0 <= i < body.len() {
                        statement_view(body[i])
                    } else {
                        no_statement()
                    },
            ),
        ),
    }
}

/// The mathematical value of `c`.
#[verifier::opaque]
pub open spec fn command_view(c: Command) -> SpecCommand
    decreases c,
{
    SpecCommand {
        name: value_view(*c.name),
        args: Seq::new(
            c.args.len() as nat,
            |i: int|
                if 0 <= i < c.args.len() {
                    value_view(c.args[i])
                } else {
                    no_value()
                },
        ),
    }
}

/// The mathematical value of `b`.
pub open spec fn bindable_view(b: Bindable) -> SpecPrimitive {
    match b {
        Bindable::Primitive(p) => primitive_view(p),
    }
}

/// The mathematical value of `s`.
#[verifier::opaque]
pub open spec fn statement_view(s: Statement) -> SpecStatement
    decreases s,
{
    match s {
        Statement::Command(c) => SpecStatement::Command(command_view(c)),
        Statement::SetVar(x) => SpecStatement::SetVar {
            name: match *x.name {
                Bindable::Primitive(p) => primitive_view(p),
            },
            value: value_view(*x.value),
        },
        Statement::For(x) => SpecStatement::For {
            name: match *x.name {
                Bindable::Primitive(p) => primitive_view(p),
            },
            iterable: value_view(*x.iterable),
            body: Seq::new(
                x.body.len() as nat,
                |i: int|
                    if 0 <= i < x.body.len() {
                        statement_view(x.body[i])
                    } else {
                        no_statement()
                    },
            ),
            else_body: match x.else_body {
                Some(b) => Some(
                    Seq::new(
                        b.len() as nat,
                        |i: int|
                            if 0 <= i < b.len() {
                                statement_view(b[i])
                            } else {
                                no_statement()
                            },
                    ),
                ),
                None => None,
            },
        },
        Statement::While(x) => SpecStatement::While {
            condition: command_view(*x.condition),
            body: Seq::new(
                x.body.len() as nat,
                |i: int|
                    if 0 <= i < x.body.len() {
                        statement_view(x.body[i])
                    } else {
                        no_statement()
                    },
            ),
            else_body: match x.else_body {
                Some(b) => Some(
                    Seq::new(
                        b.len() as nat,
                        |i: int|
                            if 0 <= i < b.len() {
                                statement_view(b[i])
                            } else {
                                no_statement()
                            },
                    ),
                ),
                None => None,
            },
        },
        Statement::If(x) => SpecStatement::If {
            condition: command_view(*x.condition),
            body: Seq::new(
                x.body.len() as nat,
                |i: int|
                    if 0 <= i < x.body.len() {
                        statement_view(x.body[i])
                    } else {
                        no_statement()
                    },
            ),
            else_body: match x.else_body {
                Some(b) => Some(
                    Seq::new(
                        b.len() as nat,
                        |i: int|
                            if 0 <= i < b.len() {
                                statement_view(b[i])
                            } else {
                                no_statement()
                            },
                    ),
                ),
                None => None,
            },
        },
        Statement::Loop(x) => SpecStatement::Loop {
            body: Seq::new(
                x.body.len() as nat,
                |i: int|
                    if 0 <= i < x.body.len() {
                        statement_view(x.body[i])
                    } else {
                        no_statement()
                    },
            ),
        },
        Statement::Function(x) => SpecStatement::Function {
            called: x.name@,
            args: Seq::new(
                x.args.len() as nat,
                |i: int|
                    if 0 <= i < x.args.len() {
                        match x.args[i] {
                            Bindable::Primitive(p) => primitive_view(p),
                        }
                    } else {
                        SpecPrimitive::Number(Seq::empty())
                    },
            ),
            body: Seq::new(
                x.body.len() as nat,
                |i: int|
                    if 0 <= i < x.body.len() {
                        statement_view(x.body[i])
                    } else {
                        no_statement()
                    },
            ),
        },
        Statement::Return(v) => SpecStatement::Return(
            match v {
                Some(v) => Some(value_view(v)),
                None => None,
            },
        ),
        Statement::Break => SpecStatement::Break,
        Statement::Continue => SpecStatement::Continue,
        Statement::Or(x) => SpecStatement::Or {
            lhs: Box::new(statement_view(*x.lhs)),
            rhs: Box::new(statement_view(*x.rhs)),
        },
        Statement::And(x) => SpecStatement::And {
            lhs: Box::new(statement_view(*x.lhs)),
            rhs: Box::new(statement_view(*x.rhs)),
        },
        Statement::Not(x) => SpecStatement::Not { negated: Box::new(statement_view(*x.value)) },
        Statement::CommandPipe(x) => SpecStatement::CommandPipe {
            lhs: Box::new(statement_view(*x.lhs)),
            rhs: Box::new(statement_view(*x.rhs)),
        },
        Statement::TargetFilePipe(x) => SpecStatement::TargetFilePipe {
            cmd: match x.cmd {
                Some(c) => Some(Box::new(statement_view(*c))),
                None => None,
            },
            target: value_view(*x.target),
            overwrite: x.overwrite,
        },
        Statement::SourceFilePipe(x) => SpecStatement::SourceFilePipe {
            cmd: match x.cmd {
                Some(c) => Some(Box::new(statement_view(*c))),
                None => None,
            },
            source: value_view(*x.source),
        },
    }
}

impl View for FormatStringPart {
    type V = SpecPart;

    open spec fn view(&self) -> SpecPart {
        part_view(*self)
    }
}

impl View for Primitive {
    type V = SpecPrimitive;

    open spec fn view(&self) -> SpecPrimitive {
        primitive_view(*self)
    }
}

impl View for Bindable {
    type V = SpecPrimitive;

    open spec fn view(&self) -> SpecPrimitive {
        bindable_view(*self)
    }
}

impl View for Value {
    type V = SpecValue;

    open spec fn view(&self) -> SpecValue {
        value_view(*self)
    }
}

impl View for Command {
    type V = SpecCommand;

    open spec fn view(&self) -> SpecCommand {
        command_view(*self)
    }
}

impl View for Statement {
    type V = SpecStatement;

    open spec fn view(&self) -> SpecStatement {
        statement_view(*self)
    }
}

/// The mathematical values of a list of values.
pub open spec fn values_view(items: Seq<Value>) -> Seq<SpecValue> {
    Seq::new(items.len(), |i: int| value_view(items[i]))
}

/// The mathematical values of a list of names.
pub open spec fn bindables_view(items: Seq<Bindable>) -> Seq<SpecPrimitive> {
    Seq::new(items.len(), |i: int| bindable_view(items[i]))
}

/// The mathematical values of a list of statements.
pub open spec fn statements_view(items: Seq<Statement>) -> Seq<SpecStatement> {
    Seq::new(items.len(), |i: int| statement_view(items[i]))
}

/// The mathematical values of a list of statements that may be absent.
pub open spec fn body_view(body: Option<Vec<Statement>>) -> Option<Seq<SpecStatement>> {
    match body {
        Some(b) => Some(statements_view(b@)),
        None => None,
    }
}

/// The mathematical value of a value that may be absent.
pub open spec fn optional_view(v: Option<Value>) -> Option<SpecValue> {
    match v {
        Some(v) => Some(v@),
        None => None,
    }
}

impl Primitive {
    /// The number written as `text`.
    pub fn number(text: String) -> (p: Primitive)
        ensures
            p@ == SpecPrimitive::Number(text@),
    {
        reveal(primitive_view);
        reveal(value_view);
        reveal(command_view);
        reveal(statement_view);
        Primitive::Number(text)
    }

    /// The word made of `parts`.
    pub fn word(parts: Vec<FormatStringPart>) -> (p: Primitive)
        ensures
            p@ == SpecPrimitive::FormatString(parts_view(parts@)),
    {
        reveal(primitive_view);
        reveal(value_view);
        reveal(command_view);
        reveal(statement_view);
        Primitive::FormatString(FormatString { values: parts })
    }
}

impl Value {
    /// The value that is the primitive `p`.
    pub fn primitive(p: Primitive) -> (v: Value)
        ensures
            v@ == SpecValue::Primitive(p@),
    {
        reveal(primitive_view);
        reveal(value_view);
        reveal(command_view);
        reveal(statement_view);
        Value::Primitive(p)
    }

    /// The statements `body` in parentheses.
    pub fn group(body: Vec<Statement>) -> (v: Value)
        ensures
            v@ == SpecValue::Group(statements_view(body@)),
    {
        reveal(primitive_view);
        reveal(value_view);
        reveal(command_view);
        reveal(statement_view);
        let ghost inner = body@;
        let v = Value::Group(body);
        assert(v@ matches SpecValue::Group(s) && s =~= statements_view(inner));
        v
    }

    /// `value[index]`.
    pub fn indexed(value: Value, index: Value) -> (v: Value)
        ensures
            v@ == SpecValue::Primitive(
                SpecPrimitive::Index { value: Box::new(value@), index: Box::new(index@) },
            ),
    {
        reveal(primitive_view);
        reveal(value_view);
        reveal(command_view);
        reveal(statement_view);
        Value::Primitive(Primitive::Index(Index { value: Box::new(value), index: Box::new(index) }))
    }
}

impl Command {
    /// The command `name` with the arguments `args`.
    pub fn new(name: Value, args: Vec<Value>) -> (c: Command)
        ensures
            c@ == (SpecCommand { name: name@, args: values_view(args@) }),
    {
        reveal(primitive_view);
        reveal(value_view);
        reveal(command_view);
        reveal(statement_view);
        let ghost inner = args@;
        let c = Command { name: Box::new(name), args };
        assert(c@.args =~= values_view(inner));
        c
    }
}

impl Statement {
    /// The statement that runs `c`.
    pub fn command(c: Command) -> (s: Statement)
        ensures
            s@ == SpecStatement::Command(c@),
    {
        reveal(primitive_view);
        reveal(value_view);
        reveal(command_view);
        reveal(statement_view);
        Statement::Command(c)
    }

    /// `set name = value`.
    pub fn set(name: Primitive, value: Value) -> (s: Statement)
        ensures
            s@ == (SpecStatement::SetVar { name: name@, value: value@ }),
    {
        reveal(primitive_view);
        reveal(value_view);
        reveal(command_view);
        reveal(statement_view);
        Statement::SetVar(SetVar { name: Box::new(Bindable::Primitive(name)), value: Box::new(value) })
    }

    /// `for name in iterable { body } else { else_body }`.
    pub fn each(
        name: Primitive,
        iterable: Value,
        body: Vec<Statement>,
        else_body: Option<Vec<Statement>>,
    ) -> (s: Statement)
        ensures
            s@ == (SpecStatement::For {
                name: name@,
                iterable: iterable@,
                body: statements_view(body@),
                else_body: body_view(else_body),
            }),
    {
        reveal(primitive_view);
        reveal(value_view);
        reveal(command_view);
        reveal(statement_view);
        let ghost inner = body@;
        let ghost other = body_view(else_body);
        let s = Statement::For(
            For {
                name: Box::new(Bindable::Primitive(name)),
                iterable: Box::new(iterable),
                body,
                else_body,
            },
        );
        assert(s@ matches SpecStatement::For { body: b, else_body: e, .. } && b =~= statements_view(
            inner,
        ) && match e {
            Some(e) => other is Some && e =~= other->0,
            None => other is None,
        });
        s
    }

    /// `while condition { body } else { else_body }`.
    pub fn repeat(condition: Command, body: Vec<Statement>, else_body: Option<Vec<Statement>>) -> (s:
        Statement)
        ensures
            s@ == (SpecStatement::While {
                condition: condition@,
                body: statements_view(body@),
                else_body: body_view(else_body),
            }),
    {
        reveal(primitive_view);
        reveal(value_view);
        reveal(command_view);
        reveal(statement_view);
        let ghost inner = body@;
        let ghost other = body_view(else_body);
        let s = Statement::While(While { condition: Box::new(condition), body, else_body });
        assert(s@ matches SpecStatement::While { body: b, else_body: e, .. } && b
            =~= statements_view(inner) && match e {
            Some(e) => other is Some && e =~= other->0,
            None => other is None,
        });
        s
    }

    /// `if condition { body } else { else_body }`.
    pub fn conditional(
        condition: Command,
        body: Vec<Statement>,
        else_body: Option<Vec<Statement>>,
    ) -> (s: Statement)
        ensures
            s@ == (SpecStatement::If {
                condition: condition@,
                body: statements_view(body@),
                else_body: body_view(else_body),
            }),
    {
        reveal(primitive_view);
        reveal(value_view);
        reveal(command_view);
        reveal(statement_view);
        let ghost inner = body@;
        let ghost other = body_view(else_body);
        let s = Statement::If(If { condition: Box::new(condition), body, else_body });
        assert(s@ matches SpecStatement::If { body: b, else_body: e, .. } && b =~= statements_view(
            inner,
        ) && match e {
            Some(e) => other is Some && e =~= other->0,
            None => other is None,
        });
        s
    }

    /// `loop { body }`.
    pub fn forever(body: Vec<Statement>) -> (s: Statement)
        ensures
            s@ == (SpecStatement::Loop { body: statements_view(body@) }),
    {
        reveal(primitive_view);
        reveal(value_view);
        reveal(command_view);
        reveal(statement_view);
        let ghost inner = body@;
        let s = Statement::Loop(Loop { body });
        assert(s@ matches SpecStatement::Loop { body: b } && b =~= statements_view(inner));
        s
    }

    /// `fn name(args) { body }`.
    pub fn function(name: String, args: Vec<Bindable>, body: Vec<Statement>) -> (s: Statement)
        ensures
            s@ == (SpecStatement::Function {
                called: name@,
                args: bindables_view(args@),
                body: statements_view(body@),
            }),
    {
        reveal(primitive_view);
        reveal(value_view);
        reveal(command_view);
        reveal(statement_view);
        let ghost inner = body@;
        let ghost names = args@;
        let s = Statement::Function(Function { name, args, body });
        assert(s@ matches SpecStatement::Function { args: a, body: b, .. } && b =~= statements_view(
            inner,
        ) && a =~= bindables_view(names));
        s
    }

    /// `return`, with or without a value.
    pub fn give_back(value: Option<Value>) -> (s: Statement)
        ensures
            s@ == SpecStatement::Return(optional_view(value)),
    {
        reveal(primitive_view);
        reveal(value_view);
        reveal(command_view);
        reveal(statement_view);
        Statement::Return(value)
    }

    /// `break`.
    pub fn leave() -> (s: Statement)
        ensures
            s@ == SpecStatement::Break,
    {
        reveal(primitive_view);
        reveal(value_view);
        reveal(command_view);
        reveal(statement_view);
        Statement::Break
    }

    /// `continue`.
    pub fn go_on() -> (s: Statement)
        ensures
            s@ == SpecStatement::Continue,
    {
        reveal(primitive_view);
        reveal(value_view);
        reveal(command_view);
        reveal(statement_view);
        Statement::Continue
    }

    /// `lhs || rhs`.
    pub fn either(lhs: Statement, rhs: Statement) -> (s: Statement)
        ensures
            s@ == (SpecStatement::Or { lhs: Box::new(lhs@), rhs: Box::new(rhs@) }),
    {
        reveal(primitive_view);
        reveal(value_view);
        reveal(command_view);
        reveal(statement_view);
        Statement::Or(Or { lhs: Box::new(lhs), rhs: Box::new(rhs) })
    }

    /// `lhs && rhs`.
    pub fn both(lhs: Statement, rhs: Statement) -> (s: Statement)
        ensures
            s@ == (SpecStatement::And { lhs: Box::new(lhs@), rhs: Box::new(rhs@) }),
    {
        reveal(primitive_view);
        reveal(value_view);
        reveal(command_view);
        reveal(statement_view);
        Statement::And(And { lhs: Box::new(lhs), rhs: Box::new(rhs) })
    }

    /// `lhs | rhs`.
    pub fn pipe(lhs: Statement, rhs: Statement) -> (s: Statement)
        ensures
            s@ == (SpecStatement::CommandPipe { lhs: Box::new(lhs@), rhs: Box::new(rhs@) }),
    {
        reveal(primitive_view);
        reveal(value_view);
        reveal(command_view);
        reveal(statement_view);
        Statement::CommandPipe(CommandPipe { lhs: Box::new(lhs), rhs: Box::new(rhs) })
    }

    /// `cmd > target`.
    pub fn write_to(cmd: Statement, target: Value) -> (s: Statement)
        ensures
            s@ == (SpecStatement::TargetFilePipe {
                cmd: Some(Box::new(cmd@)),
                target: target@,
                overwrite: false,
            }),
    {
        reveal(primitive_view);
        reveal(value_view);
        reveal(command_view);
        reveal(statement_view);
        Statement::TargetFilePipe(
            TargetFilePipe { cmd: Some(Box::new(cmd)), target: Box::new(target), overwrite: false },
        )
    }

    /// `cmd < source`.
    pub fn read_from(cmd: Statement, source: Value) -> (s: Statement)
        ensures
            s@ == (SpecStatement::SourceFilePipe { cmd: Some(Box::new(cmd@)), source: source@ }),
    {
        reveal(primitive_view);
        reveal(value_view);
        reveal(command_view);
        reveal(statement_view);
        Statement::SourceFilePipe(
            SourceFilePipe { cmd: Some(Box::new(cmd)), source: Box::new(source) },
        )
    }
}

/// Appends a piece; the views follow.
pub fn push_part(items: &mut Vec<FormatStringPart>, p: FormatStringPart)
    ensures
        final(items)@ == old(items)@.push(p),
        parts_view(final(items)@) == parts_view(old(items)@).push(p@),
{
    items.push(p);
    assert(parts_view(items@) =~= parts_view(old(items)@).push(p@));
}

/// Appends a value; the views follow.
pub fn push_value(items: &mut Vec<Value>, v: Value)
    ensures
        final(items)@ == old(items)@.push(v),
        values_view(final(items)@) == values_view(old(items)@).push(v@),
{
    items.push(v);
    assert(values_view(items@) =~= values_view(old(items)@).push(v@));
}

/// Appends a name; the views follow.
pub fn push_bindable(items: &mut Vec<Bindable>, p: Primitive)
    ensures
        bindables_view(final(items)@) == bindables_view(old(items)@).push(p@),
{
    items.push(Bindable::Primitive(p));
    assert(bindables_view(items@) =~= bindables_view(old(items)@).push(p@));
}

/// Appends a statement; the views follow.
pub fn push_statement(items: &mut Vec<Statement>, s: Statement)
    ensures
        final(items)@ == old(items)@.push(s),
        statements_view(final(items)@) == statements_view(old(items)@).push(s@),
{
    items.push(s);
    assert(statements_view(items@) =~= statements_view(old(items)@).push(s@));
}

} // verus!
