use rush::text::Source;
use rush::tokens::{read_var_ahead, tokenize, LexError, Token, Tokens};

fn kinds(text: &str) -> Vec<String> {
    tokenize(text).unwrap().iter().map(|t| format!("{:?}", t.token)).collect()
}

fn spans(text: &str) -> Vec<(usize, usize)> {
    tokenize(text).unwrap().iter().map(|t: &Token| (t.start, t.end)).collect()
}

#[test]
fn words_and_spaces() {
    assert_eq!(
        kinds("echo  hello"),
        vec!["Literal(\"echo\")", "Space", "Literal(\"hello\")"]
    );
    assert_eq!(spans("echo  hello"), vec![(0, 4), (4, 6), (6, 11)]);
}

#[test]
fn keywords_are_detected() {
    assert_eq!(
        kinds("if while for let else end break"),
        vec![
            "If", "Space", "While", "Space", "For", "Space", "Let", "Space", "Else", "Space",
            "End", "Space", "Break"
        ]
    );
}

#[test]
fn let_statement() {
    assert_eq!(
        kinds("let x = 42 ; echo $x"),
        vec![
            "Let",
            "Space",
            "Literal(\"x\")",
            "Space",
            "ExportSet",
            "Space",
            "Literal(\"42\")",
            "Space",
            "CommandEnd(';')",
            "Space",
            "Literal(\"echo\")",
            "Space",
            "StringVariable(\"x\", false)"
        ]
    );
}

#[test]
fn separators_collapse() {
    assert_eq!(kinds("a;\n;b"), vec!["Literal(\"a\")", "CommandEnd(';')", "Literal(\"b\")"]);
    assert_eq!(spans("a;\n;b"), vec![(0, 1), (1, 4), (4, 5)]);
    assert_eq!(kinds("a\r\nb"), vec!["Literal(\"a\")", "CommandEnd('\\r')", "Literal(\"b\")"]);
}

#[test]
fn operators() {
    assert_eq!(
        kinds("a&&b||c|d&e<f>g"),
        vec![
            "Literal(\"a\")",
            "And",
            "Literal(\"b\")",
            "Or",
            "Literal(\"c\")",
            "RedirectInto",
            "Literal(\"d\")",
            "JobCommandEnd",
            "Literal(\"e\")",
            "FileRead",
            "Literal(\"f\")",
            "FileWrite",
            "Literal(\"g\")"
        ]
    );
}

#[test]
fn quotes() {
    assert_eq!(kinds("\"a b\""), vec!["Literal(\"a b\")"]);
    assert_eq!(spans("\"a b\""), vec![(0, 5)]);
    assert_eq!(kinds("'a $b'"), vec!["Literal(\"a $b\")"]);
    assert_eq!(kinds("'a\\'"), vec!["Literal(\"a\\\\\")"]);
    assert_eq!(kinds("\"\""), Vec::<String>::new());
}

#[test]
fn escapes() {
    assert_eq!(kinds("a\\ b"), vec!["Literal(\"a b\")"]);
    assert_eq!(kinds("\\$x"), vec!["Literal(\"$x\")"]);
    assert_eq!(kinds("a\\\\b"), vec!["Literal(\"a\\\\b\")"]);
}

#[test]
fn variables() {
    assert_eq!(kinds("$name"), vec!["StringVariable(\"name\", false)"]);
    assert_eq!(kinds("${name}"), vec!["StringVariable(\"name\", true)"]);
    assert_eq!(kinds("@list"), vec!["ArrayVariable(\"list\", false)"]);
    assert_eq!(kinds("@{list}"), vec!["ArrayVariable(\"list\", true)"]);
    assert_eq!(kinds("$env::HOME"), vec!["StringVariable(\"env::HOME\", false)"]);
    assert_eq!(kinds("$?"), vec!["StringVariable(\"?\", false)"]);
    assert_eq!(kinds("${?}"), vec!["StringVariable(\"?\", true)"]);
    assert_eq!(
        kinds("$a?b"),
        vec!["StringVariable(\"a?\", false)", "Literal(\"b\")"]
    );
    assert_eq!(
        kinds("\"$x y\""),
        vec!["StringVariable(\"x\", false)", "Literal(\" y\")"]
    );
}

#[test]
fn calls_and_substitutions() {
    assert_eq!(
        kinds("$trim( a )"),
        vec![
            "StringFunction(\"trim\")",
            "Space",
            "Literal(\"a\")",
            "Space",
            "ParenthesisEnd"
        ]
    );
    assert_eq!(kinds("@f(x)"), vec!["ArrayFunction(\"f\")", "Literal(\"x\")", "ParenthesisEnd"]);
    assert_eq!(
        kinds("$(echo)"),
        vec!["SubStart", "Literal(\"echo\")", "ParenthesisEnd"]
    );
    assert_eq!(spans("$(echo)"), vec![(0, 2), (2, 6), (6, 7)]);
    assert_eq!(
        kinds("\"$f(\""),
        vec!["StringVariable(\"f\", false)", "ParenthesisStart"]
    );
}

#[test]
fn comments() {
    assert_eq!(
        kinds("a # b c\nd"),
        vec!["Literal(\"a\")", "Space", "CommandEnd('\\n')", "Literal(\"d\")"]
    );
    assert_eq!(kinds("# only"), Vec::<String>::new());
}

#[test]
fn spans_are_bytes() {
    assert_eq!(kinds("é ü"), vec!["Literal(\"é\")", "Space", "Literal(\"ü\")"]);
    assert_eq!(spans("é ü"), vec![(0, 2), (2, 3), (3, 5)]);
}

#[test]
fn lex_errors() {
    assert_eq!(tokenize("${abc!").err(), Some(LexError::InvalidVariableName));
    assert_eq!(tokenize("${abc").err(), Some(LexError::UnterminatedVariable));
    assert_eq!(tokenize("@{a b}").err(), Some(LexError::InvalidVariableName));
    assert_eq!(tokenize("${a?b}").err(), Some(LexError::InvalidVariableName));
}

#[test]
fn detect_and_to_str() {
    assert!(matches!(Tokens::detect("if".to_string()), Tokens::If));
    assert!(matches!(Tokens::detect("\r\n".to_string()), Tokens::CommandEnd('\r')));
    assert!(matches!(Tokens::detect("&&".to_string()), Tokens::Literal(_)));
    assert_eq!(Tokens::StringVariable("x".to_string(), true).to_str(), "${x}");
    assert_eq!(Tokens::ArrayVariable("x".to_string(), false).to_str(), "@x");
    assert_eq!(Tokens::CommandEnd(';').to_str(), ";");
    assert_eq!(Tokens::Or.to_str(), "||");
}

/// The kinds of the tokens of the piece `[start, end)` of `text`.
fn kinds_of_piece(text: &str, start: usize, end: usize) -> Vec<String> {
    kinds(&text[start..end])
}

#[test]
fn every_token_lexes_to_itself_again() {
    let programs = [
        "let x = 42 ; echo $x",
        "echo hello | tr a-z A-Z && true || false &",
        "if test 1 = 1 ; echo yes ; else ; echo no ; end",
        "for i x in [ a b c ] ; echo $i:$x ; end   # done",
        "echo \"quoted word\" 'single $x' a\\ b ${name} @{list} $f(x) @g(y) $(sub) ;;\n\n cat < in > out",
        "echo \"$x\" é ü \"ü $y\"",
        "\"\"abc \"if\" '&&' \"(\"",
    ];
    for text in programs {
        let tokens = tokenize(text).unwrap();
        for (k, t) in tokens.iter().enumerate() {
            let first = text[t.start..].chars().next().unwrap();
            let quoted = text[..t.start].chars().filter(|c| *c == '"').count() % 2 == 1;
            if first == '$' || first == '@' || !quoted {
                assert_eq!(
                    kinds_of_piece(text, t.start, t.end),
                    vec![format!("{:?}", t.token)],
                    "token {} of {:?}",
                    k,
                    text
                );
                assert_eq!(spans(&text[t.start..t.end]), vec![(0, t.end - t.start)]);
            }
        }
    }
}

#[test]
fn a_word_that_starts_inside_quotes_need_not_lex_to_itself() {
    let text = "\"$x y\"";
    let tokens = tokenize(text).unwrap();
    assert_eq!(format!("{:?}", tokens[1].token), "Literal(\" y\")");
    assert_eq!((tokens[1].start, tokens[1].end), (3, 6));
    assert_eq!(kinds_of_piece(text, 3, 6), vec!["Space", "Literal(\"y\")"]);
}

#[test]
fn quoted_text_is_one_word() {
    for inner in ["hello world", "a|b && c", "#;\n<>", "it's", "if", "é"] {
        let text = format!("\"{}\"", inner);
        let tokens = tokenize(&text).unwrap();
        assert_eq!(tokens.len(), 1);
        assert_eq!((tokens[0].start, tokens[0].end), (0, text.len()));
        assert_eq!(tokens[0].token.to_str(), inner);
    }
}

#[test]
fn reading_a_variable_where_there_is_none() {
    let src = Source::new("ab$c");
    assert_eq!(read_var_ahead(0, &src).err(), Some(LexError::InvalidValue));
    assert_eq!(read_var_ahead(9, &src).err(), Some(LexError::InvalidValue));
    let (skipped, token) = read_var_ahead(2, &src).unwrap();
    assert_eq!(skipped, 1);
    assert_eq!((token.start, token.end), (2, 4));
    assert_eq!(LexError::InvalidValue.message(), "invalid value");
    assert_eq!(LexError::InvalidVariableName.message(), "invalid variable name");
}

fn relexes(text: &str, k: usize) -> bool {
    let tokens = tokenize(text).unwrap();
    let t = &tokens[k];
    assert!(t.start < t.end && t.end <= text.len());
    let again = tokenize(&text[t.start..t.end]).unwrap();
    again.len() == 1
        && format!("{:?}", again[0].token) == format!("{:?}", t.token)
        && again[0].start == 0
        && again[0].end == t.end - t.start
}

#[test]
fn the_bytes_of_a_token_lex_to_it_again() {
    for text in ["echo  hello | cat > f ; ls", "let x = $(echo \u{e9}t\u{e9}) && a||b", "a\u{20ac}b $name @list[1]"] {
        let n = tokenize(text).unwrap().len();
        for k in 0..n {
            assert!(relexes(text, k), "{:?} token {}", text, k);
        }
    }
}

#[test]
fn a_token_inside_quotes_lexes_again_where_it_reads_the_same_outside() {
    assert_eq!(kinds("\"$x-y\""), vec!["StringVariable(\"x\", false)", "Literal(\"-y\")"]);
    assert!(relexes("\"$x-y\"", 0));
    assert!(relexes("\"$x-y\"", 1));
    assert!(relexes("\"$x b\"", 0));
    assert!(!relexes("\"$x b\"", 1));
}
