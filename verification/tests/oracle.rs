//! The notation written with parser combinators, as an oracle: the reader
//! must give the same statements on every text tried, and fail on the same
//! texts.
use chumsky::{
    prelude::{any, choice, end, just, none_of, one_of, recursive},
    text, IterParser, Parser,
};


#[derive(Debug, Clone)]
pub struct Index {
    pub value: Box<Value>,
    pub index: Box<Value>
}

#[derive(Debug, Clone)]
pub enum FormatStringPart {
    String(String),
    Variable(String),
}

#[derive(Debug, Clone)]
pub struct FormatString {
    pub values: Vec<FormatStringPart>
}

#[derive(Debug, Clone)]
pub enum Primitive {
    Number(String),
    FormatString(FormatString),
    Index(Index)
}

#[derive(Debug, Clone)]
pub enum Bindable {
    Primitive(Primitive)
}

#[derive(Debug, Clone)]
pub struct Command {
    pub name: Box<Value>,
    pub args: Vec<Value>
}

#[derive(Debug, Clone)]
pub struct CommandPipe {
    pub lhs: Box<Statement>,
    pub rhs: Box<Statement>
}

#[derive(Debug, Clone)]
pub struct TargetFilePipe {
    pub cmd: Option<Box<Statement>>,
    pub target: Box<Value>,
    pub overwrite: bool
}

#[derive(Debug, Clone)]
pub struct SourceFilePipe {
    pub cmd: Option<Box<Statement>>,
    pub source: Box<Value>
}

#[derive(Debug, Clone)]
pub struct And {
    pub lhs: Box<Statement>,
    pub rhs: Box<Statement>
}

#[derive(Debug, Clone)]
pub struct Or {
    pub lhs: Box<Statement>,
    pub rhs: Box<Statement>
}

#[derive(Debug, Clone)]
pub struct Not {
    pub value: Box<Statement>
}

#[derive(Debug, Clone)]
pub struct SetVar {
    pub name: Box<Bindable>,
    pub value: Box<Value>
}

#[derive(Debug, Clone)]
pub struct If {
    pub condition: Box<Command>,
    pub body: Vec<Statement>,
    pub else_body: Option<Vec<Statement>>
}

#[derive(Debug, Clone)]
pub struct While {
    pub condition: Box<Command>,
    pub body: Vec<Statement>,
    pub else_body: Option<Vec<Statement>>
}

#[derive(Debug, Clone)]
pub struct For {
    pub name: Box<Bindable>,
    pub iterable: Box<Value>,
    pub body: Vec<Statement>,
    pub else_body: Option<Vec<Statement>>
}

#[derive(Debug, Clone)]
pub struct Loop {
    pub body: Vec<Statement>
}

#[derive(Debug, Clone)]
pub struct Function {
    pub name: String,
    pub args: Vec<Bindable>,
    pub body: Vec<Statement>
}

#[derive(Debug, Clone)]
pub enum Statement {
    Command(Command),
    SetVar(SetVar),
    For(For),
    While(While),
    If(If),
    Loop(Loop),
    Function(Function),
    Return(Option<Value>),
    Break,
    Continue,
    Or(Or),
    And(And),
    Not(Not),
    CommandPipe(CommandPipe),
    TargetFilePipe(TargetFilePipe),
    SourceFilePipe(SourceFilePipe),
}

#[derive(Debug, Clone)]
pub enum Value {
    Primitive(Primitive),
    Group(Vec<Statement>)
}

pub fn oracle<'a>() -> impl Parser<'a, &'a str, Vec<Statement>, chumsky::extra::Default> {
    let digits = text::digits(10).to_slice();

    let frac = just('.').then(digits);

    let exp = just('e')
        .or(just('E'))
        .then(one_of("+-").or_not())
        .then(digits);

    let number = just('-')
        .or_not()
        .then(text::int(10))
        .then(frac.or_not())
        .then(exp.or_not())
        .to_slice()
        .map(|s: &str| s.to_string())
        .boxed();
    let escape = just('\\')
        .then(choice((
            just('\\'),
            just('/'),
            just('"'),
            just('b').to('\x08'),
            just('f').to('\x0C'),
            just('n').to('\n'),
            just('r').to('\r'),
            just('t').to('\t'),
            just('u').ignore_then(text::digits(16).exactly(4).to_slice().validate(
                |digits, _e, _emitter| {
                    char::from_u32(u32::from_str_radix(digits, 16).unwrap()).unwrap_or_else(
                        || {
                            '\u{FFFD}' // unicode replacement character
                        },
                    )
                },
            )),
        )))
        .ignored()
        .boxed();

    let direct_string = none_of("$()[]{}\\\"\n;|&<>#")
        .and_is(text::whitespace().at_least(1).not())
        .ignored()
        .or(escape.clone())
        .repeated()
        .at_least(1)
        .to_slice()
        .map(ToString::to_string)
        .boxed();

    let delimited_string = none_of("\\\"")
        .ignored()
        .or(escape)
        .repeated()
        .to_slice()
        .map(ToString::to_string)
        .delimited_by(just('"'), just('"'))
        .boxed();

    let string = choice((
        delimited_string.clone(),
        direct_string.clone(),
    ));
    let eol = one_of("\n\r;");

    let variable = just('$').ignore_then(text::ident());

    let comment = just('#').then(any().and_is(just('\n').not()).repeated());

    let empty_block = text::whitespace().ignored()
        .or(comment.ignored())
        .or(eol.ignored());

    let and = just("&&");
    let or = just("||");
    let pipe = just('|');
    let pipe_target = just(">");
    let pipe_target_append = just(">>");
    let pipe_source = just("<");

    recursive(|expr| {
        let format_string_part = choice((
            variable.map(|s: &str| FormatStringPart::Variable(s.to_string())),
            string.map(FormatStringPart::String),
        ))
            .repeated()
            .at_least(1)
            .collect()
            .map(|v| FormatString {
                values: v
            });

        let primitive = choice((
            number.map(Primitive::Number),
            format_string_part.map(Primitive::FormatString),
        ));

        let group = expr.clone()
            .delimited_by(just('('), just(')'))
            .map(|v| Value::Group(v));

        let value = choice((
            group,
            primitive.clone().map(Value::Primitive),
        ));

        let index = value.clone()
            .foldl(
            value
                .clone()
                .padded_by(text::inline_whitespace())
                .delimited_by(just('['), just(']'))
                .repeated(),
                |value, index| Value::Primitive(Primitive::Index(Index {
                value: Box::new(value.clone()),
                index: Box::new(index)
            })));

        let value = choice((
            index,
            value,
        ));
        
        let bindable = primitive.clone().map(Bindable::Primitive);

        let bindable_group = bindable
            .clone()
            .padded()
            .separated_by(just(","))
            .collect()
            .delimited_by(just('('), just(')'));
        
        let block = choice((
            expr.clone(),
            empty_block.to(vec![]),
        ))
            .delimited_by(just('{'), just('}'))
            .boxed();

        let cmdname = value.clone()
            .and_is(choice((
                just("set"),
                just("if"),
                just("while"),
                just("for"),
                just("loop"),
                just("break"),
                just("continue"),
                just("return"),
                just("fn")
            )).then(end()).not());

        let args = value.clone()
            .separated_by(text::inline_whitespace().at_least(1))
            .allow_leading()
            .allow_trailing()
            .collect();

        let command = 
            text::inline_whitespace().ignore_then(cmdname)
            .then_ignore(text::inline_whitespace().at_least(1))
            .then(args)
            .map(|(name, args): (Value, Vec<Value>)| {
                Command {
                    name: Box::new(name),
                    args: args.into_iter().map(|v| v.clone()).collect()
                }
            })
            .boxed();

        let set = just("set")
            .then_ignore(text::inline_whitespace().at_least(1))
            .ignore_then(bindable.clone())
            .then_ignore(just('=').padded_by(text::inline_whitespace()))
            .then(value.clone())
            .map(|(name, value): (Bindable, Value)| {
                SetVar {
                    name: Box::new(name),
                    value: Box::new(value)
                }
            })
            .boxed();

        let else_ = just("else")
            .then(text::inline_whitespace().at_least(1))
            .ignore_then(choice((
                block.clone(),
                expr.clone()
            )));

        let if_ = just("if")
            .then_ignore(text::inline_whitespace().at_least(1))
            .ignore_then(command.clone())
            .then(block.clone().padded_by(text::inline_whitespace()))
            .then(else_.clone().or_not())
            .map(|((cond, body), else_body): ((Command, Vec<Statement>), _)| {
                If {
                    condition: Box::new(cond),
                    body,
                    else_body
                }
            })
            .boxed();

        let while_ = just("while")
            .then_ignore(text::inline_whitespace().at_least(1))
            .ignore_then(command.clone())
            .then(block.clone().padded_by(text::inline_whitespace()))
            .then(else_.clone().or_not())
            .map(|((cond, body), else_body): ((Command, Vec<Statement>), _)| {
                While {
                    condition: Box::new(cond),
                    body,
                    else_body
                }
            })
            .boxed();

        let for_ = just("for")
            .then_ignore(text::inline_whitespace().at_least(1))
            .ignore_then(bindable.clone())
            .then_ignore(just("in").padded())
            .then(value.clone())
            .then(block.clone().padded_by(text::inline_whitespace()))
            .then(else_.clone().or_not())
            .map(|(((name, iterable), body), else_body): (((Bindable, Value), Vec<Statement>), _)| {
                For {
                    name: Box::new(name),
                    iterable: Box::new(iterable),
                    body,
                    else_body
                }
            })
            .boxed();

        let loop_ = just("loop")
            .ignore_then(block.clone().padded_by(text::inline_whitespace()))
            .map(|body: Vec<Statement>| {
                Loop {
                    body
                }
            })
            .boxed();

        let return_ = just("return")
            .then_ignore(text::inline_whitespace().at_least(1))
            .ignore_then(value.clone().or_not())
            .map(|v: Option<Value>| {
                Statement::Return(v)
            })
            .boxed();

        let function = just("fn")
            .then_ignore(text::inline_whitespace().at_least(1))
            .ignore_then(text::ident())
            .then(bindable_group.clone())
            .then(block.clone().padded_by(text::inline_whitespace()))
            .map(|((name, args), body): ((&str, Vec<Bindable>), Vec<Statement>)| {
                Function {
                    name: name.to_string(),
                    args: args,
                    body
                }
            })
            .boxed();

        let command = command.map(Statement::Command);

        let mapable = choice((
            if_.map(Statement::If),
            while_.map(Statement::While),
            for_.map(Statement::For),
            loop_.map(Statement::Loop),
            command,
        )).padded_by(text::inline_whitespace().ignored().or(comment.ignored())).boxed();

        let pipe_target = mapable.clone()
            .foldl(
            pipe_target.or(pipe_target_append)
                .padded_by(text::inline_whitespace())
                .ignore_then(value.clone())
                .repeated(),
            |lhs, rhs| Statement::TargetFilePipe(TargetFilePipe {
                cmd: Some(Box::new(lhs)),
                target: Box::new(rhs),
                overwrite: false
            })).boxed();

        let pipe_source = pipe_target.clone()
            .foldl(
            pipe_source
                .padded_by(text::inline_whitespace())
                .ignore_then(value.clone())
                .repeated(),
            |lhs, rhs| Statement::SourceFilePipe(SourceFilePipe {
                cmd: Some(Box::new(lhs)),
                source: Box::new(rhs)
            })).boxed();

        let pipe = pipe_source.clone()
            .foldl(
            pipe
                .padded_by(text::inline_whitespace())
                .ignore_then(pipe_source)
                .repeated(),
            |lhs, rhs| Statement::CommandPipe(CommandPipe {
                lhs: Box::new(lhs),
                rhs: Box::new(rhs)
            })).boxed();

        let or = pipe.clone()
            .foldl(
            or
                .padded_by(text::inline_whitespace())
                .ignore_then(pipe)
                .repeated(),
            |lhs, rhs| Statement::Or(Or {
                lhs: Box::new(lhs),
                rhs: Box::new(rhs)
            })).boxed();

        let and = or.clone()
            .foldl(
            and
                .padded_by(text::inline_whitespace())
                .ignore_then(or)
                .repeated(),
            |lhs, rhs| Statement::And(And {
                lhs: Box::new(lhs),
                rhs: Box::new(rhs)
            })).boxed();

        let statement = choice((
            set.map(Statement::SetVar),
            function.map(Statement::Function),
            return_,
            just("break").to(Statement::Break),
            just("continue").to(Statement::Continue),
            and
        ));

        statement
            .padded_by(text::inline_whitespace().ignored().or(comment.ignored()))
            .separated_by(eol.repeated().at_least(1))
            .at_least(1)
            .allow_trailing()
            .allow_leading()
            .collect()
    })
}

fn agree(text: &str) -> bool {
    let ours = format!("{:?}", rush::parser::parse(text));
    let theirs = format!("{:?}", oracle().parse(text).into_output());
    if ours != theirs {
        println!("on {:?}\n  ours:   {}\n  theirs: {}", text, ours, theirs);
    }
    ours == theirs
}

const WORDS: [&str; 60] = [
    "echo", "a", "b", "1", "-2.5e3", "$x", "\"q r\"", "\\n", " ", "  ", "\t", "\n", ";", "|", "||",
    "&&", ">", "<", ">>", "(", ")", "[", "]", "{", "}", "if", "while", "for", "loop", "else", "set",
    "fn", "return", "break", "continue", "in", "=", ",", "#c", "0", "007", "\\u00e9", "\u{e9}",
    "\u{a0}", "\r", "-", ".", "e", "E5", "+", "\"", "\\", "$", "_", "x1", "1x", "\\u12", " ", " ", "\n",
];

fn fuzz(seed: u64, rounds: usize, longest: u64) -> usize {
    let mut state = seed;
    let mut bad = 0;
    for _ in 0..rounds {
        let mut text = String::new();
        state = state.wrapping_mul(6364136223846793005).wrapping_add(1442695040888963407);
        let len = 1 + (state >> 33) % longest;
        for _ in 0..len {
            state = state.wrapping_mul(6364136223846793005).wrapping_add(1442695040888963407);
            text.push_str(WORDS[((state >> 33) % 60) as usize]);
        }
        if !agree(&text) {
            bad += 1;
        }
    }
    bad
}

#[test]
fn agrees_on_chosen_texts() {
    let cases = [
        "echo a", "echo a ", "ls", "ls ", "echo a b  c", "echo 1 2.5 -3e4 0 007", "echo $x \"a b\" c\"d\"$e",
        "set x = 1", "set x=1", "set  x  =  (echo a )", "if test a { echo b } else { echo c }",
        "if test a {}", "if test a { }", "if test a {\n echo b \n}", "if test a { echo b; }", "if test a { echo b;}",
        "while true { break }", "while true  {continue}", "for x in $list { echo $x }", "for x\nin\n$list { echo $x }",
        "loop { echo a }", "loop{echo a }", "fn f() { echo a }", "fn f(a, b) { echo a }", "fn f( ) { echo a }", "fn f(a,b){}",
        "return 1", "return ", "return", "break", "continue", "breakfast x", "echo a | cat ", "echo a || cat ", "echo a && cat ",
        "echo a > f", "echo a >> f", "echo a < f", "echo a > f < g | cat b && x y || z w", "echo a[1]", "echo a[ 1 ][2]", "echo (echo a )[0]",
        "echo a\necho b ", "echo a ;;\n echo b ", "\n\necho a \n\n", "", " ", "\n", "echo # c", "# c", "echo \"a\\nb\" ", "echo a\\nb ",
        "echo \\u00e9 ", "echo \\u00 ", "if", "if ", "echo if", "if x ", "set", "echo (set) ", "x ", "$x ", "(echo a ) b", "1 2", "-1 ", "- 1",
        "echo a |cat ", "echo a| cat ", "echo a | if true {} ", "if true {} | cat ", "if a {} else echo b ", "if a {} else { echo b } ", "if a {} else if b {} else {} ",
        "echo \u{a0}a ", "echo\u{a0}a ", "echo a\tb\t", "echo a\r\necho b ", "echo 1e5 1e 1.e5 1.5e+3 1.5e-3x ",
    ];
    let mut bad = 0;
    for c in cases.iter() {
        if !agree(c) {
            bad += 1;
        }
    }
    assert_eq!(bad, 0);
}

#[test]
fn agrees_on_short_texts() {
    assert_eq!(fuzz(1, 4000, 5), 0);
}

#[test]
fn agrees_on_long_texts() {
    assert_eq!(fuzz(2, 2000, 14), 0);
}

#[test]
fn agrees_on_more_texts() {
    assert_eq!(fuzz(3, 3000, 9), 0);
}


const PHRASES: [&str; 40] = [
    "echo a ", "| ", "&& ", "|| ", "if test a ", "{ ", "} ", "else ", "\n", "; ", "set x = ", "(echo b ) ",
    "[1] ", "> f ", "< g ", "for x in ", "while t ", "loop ", "fn f(a, b) ", "return ", "break", "continue",
    "$x ", "\"s\" ", "1 ", "{", "}", "(", ")", "cat ", "x", " ", "[$i]", "{}", "{ }", "else { echo c } ", "a b ",
    "if t {} ", "\t", "=",
];

#[test]
fn agrees_on_phrases() {
    let mut state: u64 = 99;
    let mut good = 0;
    let mut bad = 0;
    for _ in 0..20000 {
        let mut text = String::new();
        state = state.wrapping_mul(6364136223846793005).wrapping_add(1442695040888963407);
        let len = 1 + (state >> 33) % 9;
        for _ in 0..len {
            state = state.wrapping_mul(6364136223846793005).wrapping_add(1442695040888963407);
            text.push_str(PHRASES[((state >> 33) % 40) as usize]);
        }
        if rush::parser::parse(&text).is_some() {
            good += 1;
        }
        if !agree(&text) {
            bad += 1;
        }
    }
    assert_eq!(bad, 0);
    assert!(good >= 2000);
}
