use std::collections::HashMap;

use rush::ast::{CommandValue, Expression, Value};
use rush::context::{Context, Native, NativeFunction};
use rush::exec::{Action, CommandSpec, Effect, Event, ExecError, Machine};
use rush::moves::exec_tree;
use rush::natives::get_native_functions;
use rush::tokens::tokenize;
use rush::tree::build_tree;
use rush::vars::Variable;

/// A caller that plays the processes itself: it knows a few programs and
/// keeps pipes and files as buffers.
struct Host {
    handles: HashMap<usize, usize>,
    buffers: Vec<String>,
    files: HashMap<String, usize>,
    terminal: String,
    started: Vec<String>,
    closed: Vec<usize>,
    opened: Vec<usize>,
}

impl Host {
    fn new() -> Host {
        Host {
            handles: HashMap::new(),
            buffers: Vec::new(),
            files: HashMap::new(),
            terminal: String::new(),
            started: Vec::new(),
            closed: Vec::new(),
            opened: Vec::new(),
        }
    }

    fn buffer(&mut self) -> usize {
        self.buffers.push(String::new());
        self.buffers.len() - 1
    }

    fn apply(&mut self, effect: &Effect) -> Result<(), String> {
        match effect {
            Effect::Pipe { reader, writer } => {
                let b = self.buffer();
                self.handles.insert(*reader, b);
                self.handles.insert(*writer, b);
                self.opened.push(*reader);
                self.opened.push(*writer);
            }
            Effect::Create { path, handle } => {
                let b = self.buffer();
                self.files.insert(path.clone(), b);
                self.handles.insert(*handle, b);
                self.opened.push(*handle);
            }
            Effect::Open { path, handle } => match self.files.get(path) {
                Some(b) => {
                    self.handles.insert(*handle, *b);
                    self.opened.push(*handle);
                }
                None => return Err(format!("cannot open {}", path)),
            },
            Effect::Capture { writer } => {
                let b = self.buffer();
                self.handles.insert(*writer, b);
                self.opened.push(*writer);
            }
            Effect::Clone { from, to } => {
                let b = *self.handles.get(from).unwrap();
                self.handles.insert(*to, b);
                self.opened.push(*to);
            }
            Effect::Close { handle } => {
                if self.handles.remove(handle).is_some() {
                    self.closed.push(*handle);
                }
            }
        }
        Ok(())
    }

    fn start(&mut self, cmd: &CommandSpec) -> Option<i32> {
        let mut line = cmd.program.clone();
        for a in &cmd.args {
            line.push(' ');
            line.push_str(a);
        }
        self.started.push(line);
        let input = match cmd.stdin {
            Some(h) => self.buffers[self.handles[&h]].clone(),
            None => String::new(),
        };
        let (output, code) = match cmd.program.as_str() {
            "echo" => (format!("{}\n", cmd.args.join(" ")), 0),
            "true" => (String::new(), 0),
            "false" => (String::new(), 1),
            "cat" => (input, 0),
            "tr" => (input.to_uppercase(), 0),
            "test" => {
                let holds = match cmd.args[1].as_str() {
                    "=" => cmd.args[0] == cmd.args[2],
                    _ => cmd.args[0] != cmd.args[2],
                };
                (String::new(), if holds { 0 } else { 1 })
            }
            _ => return None,
        };
        match cmd.stdout {
            Some(h) => {
                let b = self.handles[&h];
                self.buffers[b].push_str(&output);
            }
            None => self.terminal.push_str(&output),
        }
        for h in [cmd.stdin, cmd.stdout, cmd.stderr].into_iter().flatten() {
            self.handles.remove(&h);
            self.closed.push(h);
        }
        Some(code)
    }
}

struct Outcome {
    host: Host,
    ctx: Context,
    error: Option<ExecError>,
}

fn run_in(text: &str, mut ctx: Context) -> Outcome {
    ctx.native_func = get_native_functions();
    let tree = build_tree(tokenize(text).unwrap()).unwrap();
    let mut machine = exec_tree(&tree, ctx);
    let mut host = Host::new();
    let mut event = Event::Resume;
    let mut moves = 0;
    let error = loop {
        moves += 1;
        assert!(moves < 100000);
        let step = machine.step(event);
        let mut failed = None;
        for effect in &step.effects {
            if let Err(message) = host.apply(effect) {
                failed = Some(message);
                break;
            }
        }
        if let Some(message) = failed {
            event = Event::Failed(message);
            continue;
        }
        event = match step.action {
            Action::Continue => Event::Resume,
            Action::Run(cmds) => {
                let mut last = None;
                let mut missing = None;
                for cmd in &cmds {
                    match host.start(cmd) {
                        Some(code) => last = Some(code),
                        None => {
                            missing = Some(cmd.program.clone());
                            break;
                        }
                    }
                }
                match missing {
                    Some(name) => Event::Failed(format!("Failed to spawn process {}", name)),
                    None => Event::Exited(last),
                }
            }
            Action::Collect(writer) => {
                let b = host.handles.get(&writer).copied();
                assert!(b.is_none(), "the writing end is closed before the text is collected");
                let b = host.opened.iter().position(|h| *h == writer).unwrap();
                let _ = b;
                Event::Captured(host.buffers.last().cloned().unwrap())
            }
            Action::Done => break None,
            Action::Failed(e) => break Some(e),
        };
    };
    assert!(machine.stack.is_empty());
    Outcome { host, ctx: machine.finish(), error }
}

fn run(text: &str) -> Outcome {
    run_in(text, Context::new())
}

fn printed(text: &str) -> String {
    let out = run(text);
    assert!(out.error.is_none(), "{:?}", out.error);
    out.host.terminal
}

fn text_of(ctx: &Context, name: &str) -> Option<String> {
    ctx.get_var(name).map(|v| v.to_string())
}

#[test]
fn let_then_echo() {
    let out = run("let x = 42 ; echo $x");
    assert!(out.error.is_none());
    assert_eq!(out.host.terminal, "42\n");
    assert_eq!(out.host.started, vec!["echo 42"]);
    assert_eq!(out.ctx.get_last_exit_code(), Some(0));
}

#[test]
fn pipe_into_tr() {
    let out = run("echo hello | tr a-z A-Z");
    assert!(out.error.is_none());
    assert_eq!(out.host.terminal, "HELLO\n");
    assert_eq!(out.host.started, vec!["echo hello", "tr a-z A-Z"]);
    assert_eq!(out.ctx.get_last_exit_code(), Some(0));
}

#[test]
fn if_takes_the_first_branch() {
    assert_eq!(printed("if test 1 = 1 ; echo yes ; else ; echo no ; end"), "yes\n");
}

#[test]
fn if_takes_the_else_branch() {
    assert_eq!(printed("if test 1 = 2 ; echo yes ; else ; echo no ; end"), "no\n");
    assert_eq!(printed("if false ; echo yes ; end ; echo after"), "after\n");
}

#[test]
fn substitution_keeps_the_newline() {
    let out = run("let s = $(echo abc) ; echo $s");
    assert!(out.error.is_none());
    assert_eq!(text_of(&out.ctx, "s"), Some("abc\n".to_string()));
    assert_eq!(out.host.started, vec!["echo abc", "echo abc\n"]);
}

#[test]
fn for_binds_index_and_element() {
    assert_eq!(
        printed("for i x in [ a b c ] ; echo $i $x ; end"),
        "0 a\n1 b\n2 c\n"
    );
}

#[test]
fn for_prints_elements_in_order() {
    assert_eq!(printed("for v in [ a b c ] ; echo $v ; end"), "a\nb\nc\n");
    assert_eq!(printed("let l = [ x y ] ; for v in @l ; echo $v ; end"), "x\ny\n");
}

#[test]
fn for_over_a_string_takes_its_characters() {
    assert_eq!(printed("for c in abc ; echo $c ; end"), "a\nb\nc\n");
}

#[test]
fn for_else_runs_on_an_empty_list() {
    assert_eq!(printed("for v in [ ] ; echo $v ; else ; echo none ; end"), "none\n");
    assert_eq!(printed("for v in [ a ] ; echo $v ; else ; echo none ; end"), "a\n");
}

#[test]
fn for_over_a_number_fails() {
    let mut ctx = Context::new();
    ctx.set_var("n".to_string(), Variable::I32(3));
    let out = run_in("for v in $n ; echo $v ; end", ctx);
    assert!(matches!(out.error, Some(ExecError::InvalidFor)));
    assert_eq!(out.ctx.scopes.len(), 1);
}

#[test]
fn while_false_runs_nothing() {
    let out = run("while false ; echo never ; end ; echo done");
    assert!(out.error.is_none());
    assert_eq!(out.host.terminal, "done\n");
    assert_eq!(out.host.started, vec!["false", "echo done"]);
}

#[test]
fn while_runs_until_the_condition_fails() {
    assert_eq!(
        printed("let x = a ; while test $x = a ; echo $x ; let x = b ; end ; echo $x"),
        "a\na\n"
    );
}

#[test]
fn and_or_follow_the_exit_code() {
    assert_eq!(printed("true && echo x"), "x\n");
    assert_eq!(printed("false && echo x"), "");
    assert_eq!(printed("true || echo x"), "");
    assert_eq!(printed("false || echo x"), "x\n");
    assert_eq!(run("false && echo x").host.started, vec!["false"]);
    assert_eq!(run("true || echo x").host.started, vec!["true"]);
}

#[test]
fn quoted_words_reach_the_command_unchanged() {
    assert_eq!(printed("let x = \"hello world\"; echo $x"), "hello world\n");
    assert_eq!(printed("let x = \"a#b\"; echo $x"), "a#b\n");
    assert_eq!(printed("let x = 'it''s'; echo $x"), "its\n");
}

#[test]
fn break_leaves_one_loop() {
    assert_eq!(
        printed("for i in [ a b ] ; for j in [ x y ] ; echo $j ; break ; end ; echo $i ; end"),
        "x\na\nx\nb\n"
    );
}

#[test]
fn break_two_leaves_two_loops() {
    let out = run(
        "for i in [ a b ] ; for j in [ x y ] ; echo $j ; break 2 ; end ; echo $i ; end ; echo out",
    );
    assert!(out.error.is_none());
    assert_eq!(out.host.terminal, "x\nout\n");
    assert_eq!(out.ctx.break_num, 0);
}

#[test]
fn break_zero_counts_as_one() {
    assert_eq!(printed("while true ; echo once ; break 0 ; end ; echo out"), "once\nout\n");
}

#[test]
fn break_out_of_more_loops_than_there_are_fails() {
    let out = run("while true ; break 2 ; end ; echo out");
    assert!(matches!(out.error, Some(ExecError::TooManyBreaks)));
    assert_eq!(out.ctx.break_num, 0);
    assert_eq!(out.ctx.scopes.len(), 1);
    let out = run("break x");
    assert!(matches!(out.error, Some(ExecError::InvalidBreakCount)));
}

#[test]
fn scopes_are_balanced_after_a_program() {
    let out = run("if true ; for v in [ a b ] ; echo $v | cat ; end ; end ; let y = $(echo z)");
    assert!(out.error.is_none());
    assert_eq!(out.ctx.scopes.len(), 1);
    assert_eq!(out.ctx.break_num, 0);
    assert_eq!(out.ctx.continue_num, 0);
}

#[test]
fn pipe_ends_are_closed() {
    let out = run("echo a | cat | cat");
    assert!(out.error.is_none());
    assert_eq!(out.host.terminal, "a\n");
    assert!(out.host.handles.is_empty());
    let mut opened = out.host.opened.clone();
    let mut closed = out.host.closed.clone();
    opened.sort();
    closed.sort();
    assert_eq!(opened, closed);
}

#[test]
fn redirects_to_and_from_files() {
    let out = run("echo kept > out.txt ; cat < out.txt");
    assert!(out.error.is_none());
    assert_eq!(out.host.terminal, "kept\n");
    assert!(out.host.handles.is_empty());
}

#[test]
fn reading_a_missing_file_fails() {
    let out = run("cat < nothing.txt");
    assert!(matches!(out.error, Some(ExecError::Host(_))));
    assert_eq!(out.ctx.scopes.len(), 1);
}

#[test]
fn redirect_without_a_command_fails() {
    let out = run("> out.txt");
    assert!(matches!(out.error, Some(ExecError::MissingRedirectSource)));
}

#[test]
fn spawn_failure_is_an_error() {
    let out = run("no-such-program ; echo after");
    match out.error {
        Some(ExecError::Host(message)) => {
            assert_eq!(message, "Failed to spawn process no-such-program")
        }
        other => panic!("{:?}", other),
    }
    assert_eq!(out.host.terminal, "");
}

#[test]
fn unset_variables_are_empty() {
    assert_eq!(run("echo $nothing").host.started, vec!["echo "]);
    assert_eq!(run("echo @nothing").host.started, vec!["echo "]);
}

#[test]
fn builtin_calls() {
    assert_eq!(printed("echo $trim(\"  a b  \")"), "a b\n");
    let out = run("echo $missing(a)");
    assert!(matches!(out.error, Some(ExecError::FunctionNotFound)));
}

#[test]
fn environment_names_are_exported() {
    let out = run("let env::NAME = value ; echo $env::NAME");
    assert!(out.error.is_none());
    assert_eq!(out.host.terminal, "value\n");
    assert_eq!(out.ctx.exports.len(), 1);
    assert_eq!(out.ctx.exports[0].0, "NAME");
    assert_eq!(out.ctx.exports[0].1.to_string(), "value");
}

#[test]
fn exit_code_is_recorded() {
    let out = run("false");
    assert_eq!(out.ctx.get_last_exit_code(), Some(1));
    assert_eq!(printed("false ; echo $?"), "1\n");
}

#[test]
fn words_of_several_pieces_are_joined_by_spaces() {
    assert_eq!(run("let b = x ; echo a${b}c").host.started, vec!["echo a x c"]);
}


fn drive(tree: &Vec<Expression>, first_handle: usize) -> (Vec<String>, Option<ExecError>) {
    let mut ctx = Context::new();
    ctx.native_func = get_native_functions();
    let mut machine = Machine::new(ctx, tree, first_handle);
    let mut log = Vec::new();
    let mut event = Event::Resume;
    for _ in 0..1000 {
        let step = machine.step(event);
        for effect in &step.effects {
            log.push(format!("{:?}", effect));
        }
        event = match step.action {
            Action::Continue => Event::Resume,
            Action::Run(cmds) => {
                log.push(format!("{:?}", cmds));
                Event::Exited(Some(0))
            }
            Action::Collect(w) => {
                log.push(format!("collect {}", w));
                Event::Captured("text".to_string())
            }
            Action::Done => return (log, None),
            Action::Failed(e) => return (log, Some(e)),
        };
    }
    panic!("the program does not end");
}

fn parsed(text: &str) -> Vec<Expression> {
    build_tree(tokenize(text).unwrap()).unwrap()
}

#[test]
fn a_pipe_names_copies_and_closes_its_ends() {
    let (log, error) = drive(&parsed("a | b"), 3);
    assert!(error.is_none());
    assert_eq!(
        log,
        vec![
            "Pipe { reader: 3, writer: 4 }",
            "Clone { from: 4, to: 5 }",
            "Close { handle: 4 }",
            "Clone { from: 3, to: 6 }",
            "Close { handle: 3 }",
            "[CommandSpec { program: \"a\", args: [], stdin: None, stdout: Some(5), stderr: None }, \
             CommandSpec { program: \"b\", args: [], stdin: Some(6), stdout: None, stderr: None }]",
        ]
    );
}

#[test]
fn a_substitution_is_captured_and_collected() {
    let (log, error) = drive(&parsed("echo $(date)"), 3);
    assert!(error.is_none());
    assert_eq!(
        log,
        vec![
            "Capture { writer: 3 }",
            "Clone { from: 3, to: 4 }",
            "[CommandSpec { program: \"date\", args: [], stdin: None, stdout: Some(4), stderr: None }]",
            "Close { handle: 3 }",
            "collect 3",
            "[CommandSpec { program: \"echo\", args: [\"text\"], stdin: None, stdout: None, stderr: None }]",
        ]
    );
}

#[test]
fn file_redirects_name_their_files() {
    let (log, error) = drive(&parsed("a > out ; < in"), 7);
    assert!(error.is_none());
    assert_eq!(
        log,
        vec![
            "Create { path: \"out\", handle: 7 }",
            "Clone { from: 7, to: 8 }",
            "Close { handle: 7 }",
            "[CommandSpec { program: \"a\", args: [], stdin: None, stdout: Some(8), stderr: None }]",
            "Open { path: \"in\", handle: 9 }",
            "Clone { from: 9, to: 10 }",
            "Close { handle: 9 }",
            "[CommandSpec { program: \"less\", args: [], stdin: Some(10), stdout: None, stderr: None }]",
        ]
    );
}

#[test]
fn handles_run_out() {
    let (_, error) = drive(&parsed("a | b"), usize::MAX - 1);
    assert!(matches!(error, Some(ExecError::OutOfHandles)));
    let (_, error) = drive(&parsed("echo $(date)"), usize::MAX);
    assert!(matches!(error, Some(ExecError::OutOfHandles)));
    let (_, error) = drive(&parsed("a > out"), usize::MAX - 1);
    assert!(matches!(error, Some(ExecError::OutOfHandles)));
}

#[test]
fn broken_trees_are_errors() {
    let (_, error) = drive(&vec![Expression::Command(vec![])], 3);
    assert!(matches!(error, Some(ExecError::EmptyCommand)));
    let word = CommandValue::Var("X".to_string(), Value::Literal("1".to_string()));
    let (_, error) = drive(&vec![Expression::Command(vec![word])], 3);
    assert!(matches!(error, Some(ExecError::BrokenCommand)));
    let inner = Box::new(Expression::Command(vec![CommandValue::Value(Value::Literal("a".to_string()))]));
    let (_, error) = drive(&vec![Expression::JobCommand(inner)], 3);
    assert!(matches!(error, Some(ExecError::NotImplemented)));
}

#[test]
fn builtins_refuse_wrong_arguments() {
    let tree = parsed("echo $typeof(a b)");
    let (_, error) = drive(&tree, 3);
    assert!(matches!(error, Some(ExecError::FunctionNotFound)));
    let mut ctx = Context::new();
    ctx.native_func.push((
        "$typeof".to_string(),
        NativeFunction {
            name: "$typeof".to_string(),
            description: String::new(),
            args: vec![],
            func: Native::Typeof,
        },
    ));
    let mut machine = Machine::new(ctx, &tree, 3);
    let mut event = Event::Resume;
    let error = loop {
        let step = machine.step(event);
        event = match step.action {
            Action::Failed(e) => break e,
            Action::Done => panic!("no error"),
            _ => Event::Resume,
        };
    };
    assert!(matches!(error, ExecError::Native(_)));
    assert_eq!(error.message(), "Wrong number of arguments");
}

#[test]
fn events_that_were_not_asked_for_are_errors() {
    let tree = parsed("echo a");
    let mut machine = Machine::new(Context::new(), &tree, 3);
    let step = machine.step(Event::Exited(Some(0)));
    assert!(matches!(step.action, Action::Failed(ExecError::UnexpectedEvent)));
    assert!(machine.stack.is_empty());
    assert_eq!(machine.ctx.scopes.len(), 1);
    let step = machine.step(Event::Resume);
    assert!(matches!(step.action, Action::Done));
}

#[test]
fn a_failure_is_an_error_in_any_state() {
    let tree = parsed("if true ; echo a | cat ; end");
    let mut machine = exec_tree(&tree, Context::new());
    let mut event = Event::Resume;
    let mut closed = 0;
    for round in 0..40 {
        let step = machine.step(event);
        if round == 12 {
            event = Event::Failed("lost".to_string());
            continue;
        }
        closed += step.effects.iter().filter(|e| matches!(e, Effect::Close { .. })).count();
        event = match step.action {
            Action::Run(_) => Event::Exited(Some(0)),
            Action::Failed(ExecError::Host(message)) => {
                assert_eq!(message, "lost");
                assert!(closed > 0);
                assert_eq!(machine.ctx.scopes.len(), 1);
                return;
            }
            _ => Event::Resume,
        };
    }
    panic!("the failure was not reported");
}

#[test]
fn the_condition_of_while_runs_before_each_round() {
    let mut ctx = Context::new();
    ctx.set_var("n".to_string(), Variable::String("a".to_string()));
    let out = run_in("while test $n \"!=\" b ; echo $n ; let n = b ; end", ctx);
    assert!(out.error.is_none());
    assert_eq!(out.host.started, vec!["test a != b", "echo a", "test b != b"]);
    assert_eq!(out.host.terminal, "a\n");
}

#[test]
fn break_inside_if_leaves_the_loop() {
    assert_eq!(
        printed("for v in [ a b c ] ; if test $v = b ; break ; end ; echo $v ; end ; echo out"),
        "a\nout\n"
    );
}

#[test]
fn loops_nest() {
    assert_eq!(
        printed("for i in [ 1 2 ] ; for j in [ a b ] ; echo $i $j ; end ; end"),
        "1 a\n1 b\n2 a\n2 b\n"
    );
}

#[test]
fn variables_of_a_round_do_not_outlive_it() {
    let out = run("for v in [ a ] ; let w = $v ; echo $w ; end");
    assert!(out.error.is_none());
    assert_eq!(out.host.terminal, "a\n");
    assert!(out.ctx.get_var("v").is_none());
    assert!(out.ctx.get_var("w").is_none());
}

#[test]
fn let_binds_in_the_innermost_scope() {
    let out = run("let x = outer ; if true ; let x = inner ; echo $x ; end ; echo $x");
    assert!(out.error.is_none());
    assert_eq!(out.host.terminal, "inner\nouter\n");
}

#[test]
fn substitution_inside_a_pipe_and_a_loop() {
    assert_eq!(
        printed("for v in [ a b ] ; echo $(echo $v) | tr a-z A-Z ; end"),
        "A\n\nB\n\n"
    );
}

#[test]
fn blocks_in_parentheses_compose_in_pipes() {
    assert_eq!(printed("( echo a && echo b ) | cat"), "a\nb\n");
}

#[test]
fn else_if_chains() {
    let program = "if test $x = a ; echo A ; else if test $x = b ; echo B ; else ; echo C ; end";
    for (value, expected) in [("a", "A\n"), ("b", "B\n"), ("c", "C\n")] {
        let mut ctx = Context::new();
        ctx.set_var("x".to_string(), Variable::String(value.to_string()));
        let out = run_in(program, ctx);
        assert!(out.error.is_none());
        assert_eq!(out.host.terminal, expected);
        assert_eq!(out.ctx.scopes.len(), 1);
    }
}

#[test]
fn arrays_are_arguments_joined_by_spaces() {
    assert_eq!(run("let l = [ a b ] ; echo @l x").host.started, vec!["echo a b x"]);
}

#[test]
fn the_key_of_for_may_be_the_name() {
    assert_eq!(printed("for v v in [ a b ] ; echo $v ; end"), "a\nb\n");
}

#[test]
fn redirect_applies_to_a_whole_if() {
    let out = run("if true ; echo a ; echo b ; end > out.txt ; cat < out.txt");
    assert!(out.error.is_none());
    assert_eq!(out.host.terminal, "a\nb\n");
}

#[test]
fn the_fifteenth_move_asks_for_echo() {
    let tree = parsed("let x = \"hello world\" ; echo $x");
    let mut machine = exec_tree(&tree, Context::new());
    for _ in 0..14 {
        let step = machine.step(Event::Resume);
        assert!(step.effects.is_empty());
        assert!(matches!(step.action, Action::Continue));
    }
    let step = machine.step(Event::Resume);
    match step.action {
        Action::Run(cmds) => {
            assert_eq!(cmds.len(), 1);
            assert_eq!(cmds[0].program, "echo");
            assert_eq!(cmds[0].args, vec!["hello world".to_string()]);
        }
        other => panic!("{:?}", other),
    }
}

#[test]
fn a_failure_inside_a_pipe_closes_its_ends() {
    let (log, error) = drive(&parsed("a | echo $nosuch(x)"), 3);
    assert!(matches!(error, Some(ExecError::FunctionNotFound)));
    assert_eq!(
        log,
        vec![
            "Pipe { reader: 3, writer: 4 }",
            "Clone { from: 4, to: 5 }",
            "Close { handle: 4 }",
            "Close { handle: 3 }",
        ]
    );
    let (log, error) = drive(&parsed("echo $nosuch(x) | b"), 3);
    assert!(matches!(error, Some(ExecError::FunctionNotFound)));
    assert_eq!(log, vec!["Pipe { reader: 3, writer: 4 }", "Close { handle: 4 }", "Close { handle: 3 }"]);
}
