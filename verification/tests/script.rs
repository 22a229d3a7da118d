//! The reader of the script notation on chosen texts.
use rush::parser::{parse, read_primitive, read_value};
use rush::statements::{
    And, Bindable, Command, CommandPipe, For, FormatString, FormatStringPart, Function, If, Index,
    Loop, Or, Primitive, SetVar, SourceFilePipe, Statement, TargetFilePipe, Value, While,
};

fn show(program: &Option<Vec<Statement>>) -> String {
    format!("{:?}", program)
}

fn text(s: &str) -> FormatStringPart {
    FormatStringPart::String(s.to_string())
}

fn var(s: &str) -> FormatStringPart {
    FormatStringPart::Variable(s.to_string())
}

fn pieces(parts: Vec<FormatStringPart>) -> Primitive {
    Primitive::FormatString(FormatString { values: parts })
}

fn word(s: &str) -> Value {
    Value::Primitive(pieces(vec![text(s)]))
}

fn number(s: &str) -> Value {
    Value::Primitive(Primitive::Number(s.to_string()))
}

fn command(name: &str, args: Vec<Value>) -> Command {
    Command { name: Box::new(word(name)), args }
}

fn run(name: &str, args: Vec<Value>) -> Statement {
    Statement::Command(command(name, args))
}

fn same(source: &str, expected: Vec<Statement>) {
    assert_eq!(show(&parse(source)), show(&Some(expected)));
}

fn refused(source: &str) {
    assert!(parse(source).is_none(), "{:?} was read", source);
}

#[test]
fn script_command_with_arguments() {
    same("echo a b ", vec![run("echo", vec![word("a"), word("b")])]);
    same("echo a  b", vec![run("echo", vec![word("a"), word("b")])]);
    same("  echo \ta", vec![run("echo", vec![word("a")])]);
    same("ls ", vec![run("ls", vec![])]);
}

#[test]
fn command_needs_a_space_after_its_name() {
    refused("ls");
    refused("");
    refused(" ");
    refused("\n");
}

#[test]
fn numbers_are_kept_as_written() {
    same(
        "echo 1 -2.5e3 0 1.5E+10 7e-2 ",
        vec![run(
            "echo",
            vec![number("1"), number("-2.5e3"), number("0"), number("1.5E+10"), number("7e-2")],
        )],
    );
    let float: f64 = "-2.5e3".parse().unwrap();
    assert_eq!(float, -2500.0);
}

#[test]
fn number_takes_no_leading_zero() {
    let src: Vec<char> = "007".chars().collect();
    let (p, n) = read_primitive(&src, 0).unwrap();
    assert_eq!(format!("{:?}", p), "Number(\"0\")");
    assert_eq!(n, 1);
    refused("echo 007 ");
}

#[test]
fn number_without_digits_after_dot_or_exponent() {
    let src: Vec<char> = "12.e5".chars().collect();
    let (p, n) = read_primitive(&src, 0).unwrap();
    assert_eq!(format!("{:?}", p), "Number(\"12\")");
    assert_eq!(n, 2);
    let src: Vec<char> = "3e+".chars().collect();
    let (_, n) = read_primitive(&src, 0).unwrap();
    assert_eq!(n, 1);
    let src: Vec<char> = "-x".chars().collect();
    let (p, n) = read_primitive(&src, 0).unwrap();
    assert_eq!(format!("{:?}", p), "FormatString(FormatString { values: [String(\"-x\")] })");
    assert_eq!(n, 2);
}

#[test]
fn word_of_several_pieces() {
    same(
        "echo a\"b c\"$d ",
        vec![run("echo", vec![Value::Primitive(pieces(vec![text("a"), text("b c"), var("d")]))])],
    );
    same("echo \"\" ", vec![run("echo", vec![word("")])]);
    refused("echo \"open ");
}

#[test]
fn escapes_stay_as_written() {
    same("echo a\\nb ", vec![run("echo", vec![word("a\\nb")])]);
    same("echo \"q\\\"r\" ", vec![run("echo", vec![word("q\\\"r")])]);
    same("echo \\u00e9x ", vec![run("echo", vec![word("\\u00e9x")])]);
    refused("echo \\u00 ");
    refused("echo \\x ");
}

#[test]
fn names_of_variables() {
    same("echo $_x1 ", vec![run("echo", vec![Value::Primitive(pieces(vec![var("_x1")]))])]);
    same("echo $\u{e9}t\u{e9} ", vec![run("echo", vec![Value::Primitive(pieces(vec![var("\u{e9}t\u{e9}")]))])]);
    same(
        "echo $a-b ",
        vec![run("echo", vec![Value::Primitive(pieces(vec![var("a"), text("-b")]))])],
    );
    refused("echo $1 ");
    refused("echo $ ");
}

#[test]
fn white_space_of_any_kind_ends_a_word() {
    refused("echo\u{a0}a ");
    same("if t {\u{2003}\n}", vec![Statement::If(If {
        condition: Box::new(command("t", vec![])),
        body: vec![],
        else_body: None,
    })]);
}

#[test]
fn special_characters_cannot_stand_bare() {
    refused("echo # note");
    refused("echo a&b ");
    refused("echo a}b ");
}

#[test]
fn set_statement() {
    same(
        "set x = 1",
        vec![Statement::SetVar(SetVar {
            name: Box::new(Bindable::Primitive(pieces(vec![text("x")]))),
            value: Box::new(number("1")),
        })],
    );
    same(
        "set x  =  (ls )",
        vec![Statement::SetVar(SetVar {
            name: Box::new(Bindable::Primitive(pieces(vec![text("x")]))),
            value: Box::new(Value::Group(vec![run("ls", vec![])])),
        })],
    );
    same("set x=1", vec![run("set", vec![word("x=1")])]);
}

#[test]
fn if_with_else() {
    same(
        "if test a { echo b } else { echo c }",
        vec![Statement::If(If {
            condition: Box::new(command("test", vec![word("a")])),
            body: vec![run("echo", vec![word("b")])],
            else_body: Some(vec![run("echo", vec![word("c")])]),
        })],
    );
    same(
        "if a {} else echo b ",
        vec![Statement::If(If {
            condition: Box::new(command("a", vec![])),
            body: vec![],
            else_body: Some(vec![run("echo", vec![word("b")])]),
        })],
    );
}

#[test]
fn block_ends_right_after_its_last_statement() {
    same(
        "if a { echo b;}",
        vec![Statement::If(If {
            condition: Box::new(command("a", vec![])),
            body: vec![run("echo", vec![word("b")])],
            else_body: None,
        })],
    );
    refused("if a { echo b; }");
}

#[test]
fn while_for_and_loop() {
    same(
        "while t { break }",
        vec![Statement::While(While {
            condition: Box::new(command("t", vec![])),
            body: vec![Statement::Break],
            else_body: None,
        })],
    );
    same(
        "for x in $list { continue }",
        vec![Statement::For(For {
            name: Box::new(Bindable::Primitive(pieces(vec![text("x")]))),
            iterable: Box::new(Value::Primitive(pieces(vec![var("list")]))),
            body: vec![Statement::Continue],
            else_body: None,
        })],
    );
    same("loop{ echo a }", vec![Statement::Loop(Loop { body: vec![run("echo", vec![word("a")])] })]);
}

#[test]
fn function_definition() {
    same(
        "fn f(a , 1) { return 2 }",
        vec![Statement::Function(Function {
            name: "f".to_string(),
            args: vec![
                Bindable::Primitive(pieces(vec![text("a")])),
                Bindable::Primitive(Primitive::Number("1".to_string())),
            ],
            body: vec![Statement::Return(Some(number("2")))],
        })],
    );
    same(
        "fn f() {}",
        vec![Statement::Function(Function { name: "f".to_string(), args: vec![], body: vec![] })],
    );
    refused("fn f( ) {}");
    refused("fn f(a, b) {}");
}

#[test]
fn return_with_and_without_value() {
    same("return 1", vec![Statement::Return(Some(number("1")))]);
    same("return ", vec![Statement::Return(None)]);
    refused("return");
}

#[test]
fn reserved_word_alone_is_no_command() {
    same("break", vec![Statement::Break]);
    same("continue", vec![Statement::Continue]);
    refused("if");
    refused("echo a \nset");
    same("echo if ", vec![run("echo", vec![word("if")])]);
}

#[test]
fn operators_bind_in_levels() {
    same(
        "a x | b y && c z || d w ",
        vec![Statement::And(And {
            lhs: Box::new(Statement::CommandPipe(CommandPipe {
                lhs: Box::new(run("a", vec![word("x")])),
                rhs: Box::new(run("b", vec![word("y")])),
            })),
            rhs: Box::new(Statement::Or(Or {
                lhs: Box::new(run("c", vec![word("z")])),
                rhs: Box::new(run("d", vec![word("w")])),
            })),
        })],
    );
}

#[test]
fn operators_group_to_the_left() {
    same(
        "a | b | c ",
        vec![Statement::CommandPipe(CommandPipe {
            lhs: Box::new(Statement::CommandPipe(CommandPipe {
                lhs: Box::new(run("a", vec![])),
                rhs: Box::new(run("b", vec![])),
            })),
            rhs: Box::new(run("c", vec![])),
        })],
    );
}

#[test]
fn redirections() {
    same(
        "echo a > f < g",
        vec![Statement::SourceFilePipe(SourceFilePipe {
            cmd: Some(Box::new(Statement::TargetFilePipe(TargetFilePipe {
                cmd: Some(Box::new(run("echo", vec![word("a")]))),
                target: Box::new(word("f")),
                overwrite: false,
            }))),
            source: Box::new(word("g")),
        })],
    );
    refused("echo a >> f");
}

#[test]
fn indexed_values() {
    let src: Vec<char> = "a[ 1 ][$i] rest".chars().collect();
    let (v, n) = read_value(&src, 0).unwrap();
    let expected = Value::Primitive(Primitive::Index(Index {
        value: Box::new(Value::Primitive(Primitive::Index(Index {
            value: Box::new(word("a")),
            index: Box::new(number("1")),
        }))),
        index: Box::new(Value::Primitive(pieces(vec![var("i")]))),
    }));
    assert_eq!(format!("{:?}", v), format!("{:?}", expected));
    assert_eq!(n, 10);
}

#[test]
fn group_of_statements() {
    same(
        "echo (date ;ls ) ",
        vec![run("echo", vec![Value::Group(vec![run("date", vec![]), run("ls", vec![])])])],
    );
    refused("echo (date ");
}

#[test]
fn statements_are_separated_by_ends_of_line() {
    same(
        "\n\necho a \r\n;; echo b \n",
        vec![run("echo", vec![word("a")]), run("echo", vec![word("b")])],
    );
    refused("echo a \n echo b \n x");
}

#[test]
fn value_at_the_end_of_the_text_takes_nothing_more() {
    let src: Vec<char> = "ab".chars().collect();
    assert!(read_value(&src, 2).is_none());
    let (_, n) = read_value(&src, 1).unwrap();
    assert_eq!(n, 1);
}
