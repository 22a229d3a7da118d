use rush::grammar::{ParseError, ParseErrorKind};
use rush::tokens::{tokenize, Token, Tokens};
use rush::tree::{build_tree, describe};

fn tree(text: &str) -> String {
    format!("{:?}", build_tree(tokenize(text).unwrap()).unwrap())
}

fn failure(text: &str) -> ParseError {
    build_tree(tokenize(text).unwrap()).unwrap_err()
}

#[test]
fn command_with_arguments() {
    assert_eq!(
        tree("echo hello world"),
        "[Command([Value(Literal(\"echo\")), Value(Literal(\"hello\")), Value(Literal(\"world\"))])]"
    );
}

#[test]
fn pipeline_leans_right() {
    assert_eq!(
        tree("a | b | c"),
        "[RedirectTargetExpression(RedirectTargetExpression { source: Command([Value(Literal(\"a\"))]), \
         target: RedirectTargetExpression(RedirectTargetExpression { source: Command([Value(Literal(\"b\"))]), \
         target: Command([Value(Literal(\"c\"))]) }) })]"
    );
}

#[test]
fn let_and_echo() {
    assert_eq!(
        tree("let x = 42 ; echo $x"),
        "[LetExpression(LetExpression { key: Literal(\"x\"), vartype: None, value: Literal(\"42\") }), \
         Command([Value(Literal(\"echo\")), Value(Variable(\"x\"))])]"
    );
}

#[test]
fn words_of_several_pieces() {
    assert_eq!(
        tree("echo foo$bar\"baz\""),
        "[Command([Value(Literal(\"echo\")), Value(Values([Literal(\"foo\"), Variable(\"bar\"), Literal(\"baz\")]))])]"
    );
}

#[test]
fn if_else() {
    assert_eq!(
        tree("if test 1 = 1 ; echo yes ; else ; echo no ; end"),
        "[IfExpression(IfExpression { condition: Command([Value(Literal(\"test\")), Value(Literal(\"1\")), \
         Value(Literal(\"=\")), Value(Literal(\"1\"))]), contents: [Command([Value(Literal(\"echo\")), \
         Value(Literal(\"yes\"))])], else_contents: [Command([Value(Literal(\"echo\")), Value(Literal(\"no\"))])] })]"
    );
}

#[test]
fn else_if_shares_the_end() {
    assert_eq!(
        tree("if a ; b ; else if c ; d ; end"),
        "[IfExpression(IfExpression { condition: Command([Value(Literal(\"a\"))]), contents: \
         [Command([Value(Literal(\"b\"))])], else_contents: [IfExpression(IfExpression { condition: \
         Command([Value(Literal(\"c\"))]), contents: [Command([Value(Literal(\"d\"))])], else_contents: [] })] })]"
    );
}

#[test]
fn while_loop() {
    assert_eq!(
        tree("while false ; echo never ; end ; echo done"),
        "[WhileExpression(WhileExpression { condition: Command([Value(Literal(\"false\"))]), contents: \
         [Command([Value(Literal(\"echo\")), Value(Literal(\"never\"))])] }), \
         Command([Value(Literal(\"echo\")), Value(Literal(\"done\"))])]"
    );
}

#[test]
fn for_with_key_and_value() {
    assert_eq!(
        tree("for i x in [ a b c ] ; echo $x ; end"),
        "[ForExpression(ForExpression { arg_value: Literal(\"x\"), arg_key: Some(Literal(\"i\")), list: \
         ArrayDefinition([Literal(\"a\"), Literal(\"b\"), Literal(\"c\")]), contents: \
         [Command([Value(Literal(\"echo\")), Value(Variable(\"x\"))])], else_contents: [] })]"
    );
}

#[test]
fn for_with_value_and_else() {
    assert_eq!(
        tree("for v in @list ; echo $v ; else ; echo none ; end"),
        "[ForExpression(ForExpression { arg_value: Literal(\"v\"), arg_key: None, list: ArrayVariable(\"list\"), \
         contents: [Command([Value(Literal(\"echo\")), Value(Variable(\"v\"))])], else_contents: \
         [Command([Value(Literal(\"echo\")), Value(Literal(\"none\"))])] })]"
    );
}

#[test]
fn substitution_and_call() {
    assert_eq!(
        tree("let s = $(echo abc)"),
        "[LetExpression(LetExpression { key: Literal(\"s\"), vartype: None, value: \
         Expressions([Command([Value(Literal(\"echo\")), Value(Literal(\"abc\"))])]) })]"
    );
    assert_eq!(
        tree("echo $trim(a b)"),
        "[Command([Value(Literal(\"echo\")), Value(ValueFunction(DefinedFunctionCall { name: \"$trim\", \
         args: [Literal(\"a\"), Literal(\"b\")] }))])]"
    );
}

#[test]
fn redirects_wrap_what_was_read() {
    assert_eq!(
        tree("echo a > out.txt"),
        "[FileTargetExpression(FileTargetExpression { source: Some(Command([Value(Literal(\"echo\")), \
         Value(Literal(\"a\"))])), target: Literal(\"out.txt\") })]"
    );
    assert_eq!(
        tree("cat < in.txt | wc"),
        "[RedirectTargetExpression(RedirectTargetExpression { source: \
         FileSourceExpression(FileSourceExpression { source: Literal(\"in.txt\"), target: \
         Some(Command([Value(Literal(\"cat\"))])) }), target: Command([Value(Literal(\"wc\"))]) })]"
    );
    assert_eq!(
        tree("< in.txt"),
        "[FileSourceExpression(FileSourceExpression { source: Literal(\"in.txt\"), target: None })]"
    );
}

#[test]
fn and_or_group_to_the_right() {
    assert_eq!(
        tree("a && b || c"),
        "[AndExpression(AndExpression { first: Command([Value(Literal(\"a\"))]), second: \
         OrExpression(OrExpression { first: Command([Value(Literal(\"b\"))]), second: \
         Command([Value(Literal(\"c\"))]) }) })]"
    );
}

#[test]
fn parentheses_group() {
    assert_eq!(
        tree("( a && b ) | c"),
        "[RedirectTargetExpression(RedirectTargetExpression { source: AndExpression(AndExpression { first: \
         Command([Value(Literal(\"a\"))]), second: Command([Value(Literal(\"b\"))]) }), target: \
         Command([Value(Literal(\"c\"))]) })]"
    );
}

#[test]
fn break_with_and_without_count() {
    assert_eq!(tree("break 2"), "[BreakExpression(BreakExpression { num: Literal(\"2\") })]");
    assert_eq!(tree("break"), "[BreakExpression(BreakExpression { num: Values([]) })]");
}

#[test]
fn blank_programs_are_empty() {
    assert_eq!(tree(""), "[]");
    assert_eq!(tree(" ;; \n "), "[]");
}

#[test]
fn parse_errors() {
    assert_eq!(failure("| a").kind, ParseErrorKind::UnexpectedToken);
    assert_eq!(failure("end").kind, ParseErrorKind::UnexpectedToken);
    assert_eq!(failure("else").kind, ParseErrorKind::UnexpectedToken);
    assert_eq!(failure("if a ; b").kind, ParseErrorKind::MissingEnd);
    assert_eq!(failure("while a ; b ; else ; c ; end").kind, ParseErrorKind::UnexpectedElse);
    assert_eq!(failure("echo $(a").kind, ParseErrorKind::UnbalancedParenthesis);
    assert_eq!(failure("( a").kind, ParseErrorKind::UnbalancedParenthesis);
    assert_eq!(failure("let x").kind, ParseErrorKind::LetWithoutAssignment);
    assert_eq!(failure("for a b c ; end").kind, ParseErrorKind::ExpectedIn);
    assert_eq!(failure("echo a >").kind, ParseErrorKind::UnexpectedCommandEnd);
    assert_eq!(failure("echo a > ; b").kind, ParseErrorKind::UnexpectedCommandEnd);
    assert_eq!(failure("return 1").kind, ParseErrorKind::ReservedWord);
    assert_eq!(failure("fn f ; end").kind, ParseErrorKind::ReservedWord);
    assert_eq!(failure("a ; | b"), ParseError { kind: ParseErrorKind::UnexpectedToken, at: 4 });
}

#[test]
fn more_parse_errors() {
    assert_eq!(failure("echo $").kind, ParseErrorKind::ExpectedVariableName);
    assert_eq!(failure("a |").kind, ParseErrorKind::NoExpression);
    assert_eq!(failure("let x = [ a"), ParseError { kind: ParseErrorKind::UnbalancedParenthesis, at: 6 });
    assert_eq!(failure("let x = 1 | cat").kind, ParseErrorKind::UnexpectedToken);
    assert_eq!(failure("( a ; b )").kind, ParseErrorKind::UnexpectedToken);
    assert_eq!(failure("echo a b) > > c").kind, ParseErrorKind::UnexpectedToken);
    let tokens = vec![Token { token: Tokens::Function, start: 0, end: 2 }];
    let error = build_tree(tokens).unwrap_err();
    assert_eq!(error, ParseError { kind: ParseErrorKind::NotImplemented, at: 0 });
    let tokens = tokenize("echo a ; end").unwrap();
    let listed = tokenize("echo a ; end").unwrap();
    let error = build_tree(tokens).unwrap_err();
    assert_eq!(describe(&error, &listed), "unexpected token: end");
    let tokens = tokenize("if a ; b").unwrap();
    let listed = tokenize("if a ; b").unwrap();
    let error = build_tree(tokens).unwrap_err();
    assert_eq!(describe(&error, &listed), "missing end");
}

#[test]
fn commands_take_brackets_and_keywords_as_words() {
    assert_eq!(
        tree("echo [ if ] = ("),
        "[Command([Value(Literal(\"echo\")), Value(Literal(\"[\")), Value(Literal(\"if\")), \
         Value(Literal(\"]\")), Value(Literal(\"=\")), Value(Literal(\"(\"))])]"
    );
}

#[test]
fn values_take_keywords_as_words() {
    assert_eq!(
        tree("let x = if"),
        "[LetExpression(LetExpression { key: Literal(\"x\"), vartype: None, value: Literal(\"if\") })]"
    );
    assert_eq!(
        tree("let x = a b"),
        "[LetExpression(LetExpression { key: Literal(\"x\"), vartype: None, value: \
         Values([Literal(\"a\"), Literal(\"b\")]) })]"
    );
}

#[test]
fn nested_arrays_and_calls() {
    assert_eq!(
        tree("let x = [ a [ b c ] $f($g(d)) ]"),
        "[LetExpression(LetExpression { key: Literal(\"x\"), vartype: None, value: \
         ArrayDefinition([Literal(\"a\"), ArrayDefinition([Literal(\"b\"), Literal(\"c\")]), \
         ValueFunction(DefinedFunctionCall { name: \"$f\", args: [ValueFunction(DefinedFunctionCall \
         { name: \"$g\", args: [Literal(\"d\")] })] })]) })]"
    );
}

#[test]
fn four_stages_lean_right() {
    let t = tree("a | b | c | d");
    assert_eq!(t.matches("RedirectTargetExpression {").count(), 3);
    assert!(t.starts_with(
        "[RedirectTargetExpression(RedirectTargetExpression { source: Command([Value(Literal(\"a\"))]), target: \
         RedirectTargetExpression(RedirectTargetExpression { source: Command([Value(Literal(\"b\"))]), target: \
         RedirectTargetExpression(RedirectTargetExpression { source: Command([Value(Literal(\"c\"))]), target: \
         Command([Value(Literal(\"d\"))])"
    ));
}

#[test]
fn closing_parenthesis_is_found_from_the_first_token_on() {
    let tokens = tokenize("a (b) c) d").unwrap();
    assert_eq!(tokens.len(), 10);
    let tree = rush::tree::Tree { tokens, i: 0 };
    assert_eq!(tree.get_parens_vals(10), (7, 0));
    assert_eq!(tree.get_parens_vals(7), (7, 1));
    let open = rush::tree::Tree { tokens: tokenize("((").unwrap(), i: 0 };
    assert_eq!(open.get_parens_vals(2), (2, 3));
}

#[test]
fn pipeline_with_spaces_leans_right() {
    assert_eq!(tree("A | B | C"), tree("A|B|C"));
    assert_eq!(tree("  A  |   B |C  "), tree("A|B|C"));
    assert_eq!(
        tree("A | B | C"),
        "[RedirectTargetExpression(RedirectTargetExpression { source: Command([Value(Literal(\"A\"))]), \
         target: RedirectTargetExpression(RedirectTargetExpression { source: Command([Value(Literal(\"B\"))]), \
         target: Command([Value(Literal(\"C\"))]) }) })]"
    );
}
