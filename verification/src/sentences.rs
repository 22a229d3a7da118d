//! One program through the whole pipeline: `let NAME = "TEXT" ; echo $NAME`.
//!
//! Whatever the text in the quotes is, as long as it holds none of `"`,
//! `\`, `$` and `@` and is no operator written as a word, it comes through
//! unchanged: the lexer reads it as one word, the tree binds that word as a
//! literal, and the literal evaluates to a string of the same text, which
//! then is the one argument of `echo`.
use vstd::prelude::*;
use crate::ast::{SpecCommandValue, SpecExpression, SpecValue};
use crate::grammar::{
    count_blanks, count_spaces, find_assignment, parse_command, parse_command_line,
    parse_expression, parse_fragment, parse_let, parse_program, parse_rest, parse_sequence,
    parse_value, parse_word, parse_words, reads_as_text, ParseError,
};
use crate::relex::{
    all_word_steps, is_ordinary, is_plain_char, lemma_lex_through_word, lemma_plain_word,
    lemma_quoted_segment, word_run,
};
use crate::tokens::{
    detect, in_class, initial_state, is_name_char, is_separator, kinds, lex, lex_from, lex_step,
    run_end,
    spec_to_str, CharClass, LexError, LexState, SpecToken, SpecTokens,
};

verus! {

/// The tokens of `let KEY = VALUE ; echo $NAME`.
#[verifier::opaque]
pub open spec fn let_then_echo(key: SpecTokens, name: Seq<char>, value: SpecTokens) -> Seq<
    SpecTokens,
> {
    seq![
        SpecTokens::Let,
        SpecTokens::Space,
        key,
        SpecTokens::Space,
        SpecTokens::ExportSet,
        SpecTokens::Space,
        value,
        SpecTokens::Space,
        SpecTokens::CommandEnd(';'),
        SpecTokens::Space,
        SpecTokens::Literal("echo"@),
        SpecTokens::Space,
        SpecTokens::StringVariable(name, false),
    ]
}

proof fn lemma_shape(key: SpecTokens, name: Seq<char>, value: SpecTokens)
    ensures
        ({
            let t = let_then_echo(key, name, value);
            &&& t.len() == 13
            &&& t[0] == SpecTokens::Let
            &&& t[1] == SpecTokens::Space
            &&& t[2] == key
            &&& t[3] == SpecTokens::Space
            &&& t[4] == SpecTokens::ExportSet
            &&& t[5] == SpecTokens::Space
            &&& t[6] == value
            &&& t[7] == SpecTokens::Space
            &&& t[8] == SpecTokens::CommandEnd(';')
            &&& t[9] == SpecTokens::Space
            &&& t[10] == SpecTokens::Literal("echo"@)
            &&& t[11] == SpecTokens::Space
            &&& t[12] == SpecTokens::StringVariable(name, false)
        }),
{
    reveal(let_then_echo);
}

/// Whether the token is a word of a value: a literal, or a keyword, which
/// stands for its text there.
pub open spec fn is_word_token(k: SpecTokens) -> bool {
    k is Literal || k is Else || k is End || k is For || k is If || k is Let || k is While
        || k is Break
}

/// A word that is no operator lexes to a token that stands for the word.
pub proof fn lemma_detect_keeps_text(word: Seq<char>)
    requires
        is_word_token(detect(word)),
    ensures
        spec_to_str(detect(word)) == word,
{
}

proof fn lemma_echo_is_no_reserved_word()
    ensures
        !crate::grammar::is_reserved("echo"@),
{
    reveal_strlit("echo");
    reveal_strlit("set");
    reveal_strlit("loop");
    reveal_strlit("continue");
    reveal_strlit("return");
    reveal_strlit("fn");
    assert("echo"@[0] == 'e');
    assert("set"@[0] == 's');
    assert("loop"@[0] == 'l');
    assert("continue"@[0] == 'c');
    assert("return"@[0] == 'r');
    assert("fn"@[0] == 'f');
}

/// The word at `p`, between spaces or at the end, is read as one value.
proof fn lemma_single_word(t: Seq<SpecTokens>, p: int, end: int, command: bool, word: SpecValue)
    requires
        0 <= p < end <= t.len(),
        parse_fragment(t, p, end, command) == Ok::<(SpecValue, nat), ParseError>((word, 0)),
        !(t[p] is Space) && !crate::grammar::ends_words(t[p], command),
        p + 1 == end || t[p + 1] is Space || crate::grammar::ends_words(t[p + 1], command),
    ensures
        parse_word(t, p, end, command, Seq::empty()) == Ok::<(SpecValue, nat), ParseError>(
            (word, 1),
        ),
{
    reveal_with_fuel(parse_word, 2);
    reveal(parse_fragment);
    assert(Seq::<SpecValue>::empty().push(word).len() == 1);
    assert(Seq::<SpecValue>::empty().push(word)[0] == word);
}

/// The tree of `let KEY = WORD`.
pub open spec fn binding(key: SpecTokens, value: SpecTokens) -> SpecExpression {
    SpecExpression::Let {
        key: Box::new(SpecValue::Literal(spec_to_str(key))),
        vartype: None,
        value: Box::new(SpecValue::Literal(spec_to_str(value))),
    }
}

/// The tree of `echo $NAME`.
pub open spec fn echoing(name: Seq<char>) -> SpecExpression {
    SpecExpression::Command(
        seq![
            SpecCommandValue::Value(SpecValue::Literal("echo"@)),
            SpecCommandValue::Value(SpecValue::Variable(name)),
        ],
    )
}

proof fn lemma_the_key(key: SpecTokens, name: Seq<char>, value: SpecTokens)
    requires
        is_word_token(key),
    ensures
        parse_value(let_then_echo(key, name, value), 1, 4, false) == Ok::<
            (SpecValue, nat),
            ParseError,
        >((SpecValue::Literal(spec_to_str(key)), 3)),
{
    let t = let_then_echo(key, name, value);
    lemma_shape(key, name, value);
    let bound = SpecValue::Literal(spec_to_str(key));
    reveal(parse_value);
    reveal_with_fuel(parse_words, 2);
    reveal(parse_fragment);
    reveal_with_fuel(count_spaces, 2);
    lemma_single_word(t, 2, 4, false, bound);
    assert(Seq::<SpecValue>::empty().push(bound).len() == 1);
}

proof fn lemma_the_value(key: SpecTokens, name: Seq<char>, value: SpecTokens)
    requires
        is_word_token(value),
    ensures
        parse_value(let_then_echo(key, name, value), 5, 13, false) == Ok::<
            (SpecValue, nat),
            ParseError,
        >((SpecValue::Literal(spec_to_str(value)), 3)),
{
    let t = let_then_echo(key, name, value);
    lemma_shape(key, name, value);
    let given = SpecValue::Literal(spec_to_str(value));
    reveal(parse_value);
    reveal_with_fuel(parse_words, 2);
    reveal(parse_fragment);
    reveal_with_fuel(count_spaces, 2);
    lemma_single_word(t, 6, 13, false, given);
    assert(Seq::<SpecValue>::empty().push(given).len() == 1);
}

proof fn lemma_the_binding(key: SpecTokens, name: Seq<char>, value: SpecTokens)
    requires
        is_word_token(key),
        is_word_token(value),
    ensures
        parse_expression(let_then_echo(key, name, value), 0, 13) == Ok::<
            (SpecExpression, nat),
            ParseError,
        >((binding(key, value), 7)),
{
    let t = let_then_echo(key, name, value);
    lemma_shape(key, name, value);
    lemma_the_key(key, name, value);
    lemma_the_value(key, name, value);
    reveal(parse_expression);
    reveal(parse_let);
    reveal(parse_value);
    reveal_with_fuel(find_assignment, 5);
    assert(count_blanks(t, 0, 13) == 0);
}

proof fn lemma_the_words(key: SpecTokens, name: Seq<char>, value: SpecTokens)
    requires
        name.len() > 0,
    ensures
        parse_words(let_then_echo(key, name, value), 10, 13, true, Seq::empty()) == Ok::<
            (Seq<SpecValue>, nat),
            ParseError,
        >((seq![SpecValue::Literal("echo"@), SpecValue::Variable(name)], 3)),
{
    let t = let_then_echo(key, name, value);
    lemma_shape(key, name, value);
    let echo = SpecValue::Literal("echo"@);
    let var = SpecValue::Variable(name);
    reveal_with_fuel(parse_words, 3);
    reveal(parse_fragment);
    reveal(parse_word);
    reveal_with_fuel(count_spaces, 2);
    lemma_single_word(t, 10, 13, true, echo);
    lemma_single_word(t, 12, 13, true, var);
    assert(Seq::<SpecValue>::empty().push(echo).push(var) =~= seq![echo, var]);
}

proof fn lemma_the_command(key: SpecTokens, name: Seq<char>, value: SpecTokens)
    requires
        name.len() > 0,
    ensures
        parse_command(let_then_echo(key, name, value), 10, 13) == Ok::<
            (SpecExpression, nat),
            ParseError,
        >((echoing(name), 3)),
{
    let words = seq![SpecValue::Literal("echo"@), SpecValue::Variable(name)];
    lemma_the_words(key, name, value);
    lemma_echo_is_no_reserved_word();
    assert(words[0] == SpecValue::Literal("echo"@));
    assert(!crate::grammar::starts_reserved(words));
    assert(crate::grammar::as_command(words) =~= seq![
        SpecCommandValue::Value(SpecValue::Literal("echo"@)),
        SpecCommandValue::Value(SpecValue::Variable(name)),
    ]);
    assert(parse_command(let_then_echo(key, name, value), 10, 13) == Ok::<
        (SpecExpression, nat),
        ParseError,
    >((echoing(name), 3))) by {
        reveal(parse_command);
        reveal(parse_words);
    }
}

proof fn lemma_the_echo(key: SpecTokens, name: Seq<char>, value: SpecTokens)
    requires
        name.len() > 0,
    ensures
        parse_expression(let_then_echo(key, name, value), 10, 13) == Ok::<
            (SpecExpression, nat),
            ParseError,
        >((echoing(name), 2)),
{
    let t = let_then_echo(key, name, value);
    lemma_shape(key, name, value);
    lemma_the_command(key, name, value);
    assert(parse_rest(t, Some(echoing(name)), 13, 13) == Ok::<(SpecExpression, nat), ParseError>(
        (echoing(name), 0),
    )) by {
        reveal(parse_rest);
        assert(count_spaces(t, 13, 13) == 0);
    }
    assert(parse_command_line(t, 10, 13) == Ok::<(SpecExpression, nat), ParseError>(
        (echoing(name), 2),
    )) by {
        reveal(parse_command_line);
        reveal(parse_command);
        reveal(parse_rest);
    }
    reveal(parse_expression);
    reveal(parse_command_line);
    assert(count_blanks(t, 10, 13) == 0);
}

/// `let KEY = WORD ; echo $NAME` is built into a tree of two statements:
/// one binds the literal of the key to the literal of the word, the other
/// is the command `echo` with the variable `NAME` as its argument.
pub proof fn lemma_let_then_echo(key: SpecTokens, name: Seq<char>, value: SpecTokens)
    requires
        name.len() > 0,
        is_word_token(key),
        is_word_token(value),
    ensures
        parse_program(let_then_echo(key, name, value)) == Ok::<Seq<SpecExpression>, ParseError>(
            seq![binding(key, value), echoing(name)],
        ),
{
    let t = let_then_echo(key, name, value);
    lemma_shape(key, name, value);
    lemma_the_binding(key, name, value);
    lemma_the_echo(key, name, value);
    reveal_with_fuel(parse_sequence, 3);
    reveal(parse_expression);
    reveal_with_fuel(count_blanks, 3);
    assert(count_blanks(t, 0, 13) == 0);
    assert(count_blanks(t, 8, 13) == 2);
    assert(count_blanks(t, 13, 13) == 0);
    assert(Seq::<SpecExpression>::empty().push(binding(key, value)).push(echoing(name)) =~= seq![
        binding(key, value),
        echoing(name),
    ]);
}


/// The lexer between two tokens, outside quotes, at `pos`.
pub open spec fn between(pos: int, tokens: Seq<SpecToken>) -> LexState {
    LexState {
        pos,
        single_quote: false,
        double_quote: false,
        escape: false,
        word_start: pos,
        buf: Seq::empty(),
        tokens,
    }
}

pub open spec fn token(kind: SpecTokens, start: int, end: int) -> SpecToken {
    SpecToken { token: kind, start: start as nat, end: end as nat }
}

/// A word that is followed by one space gives its token and a space.
proof fn lemma_word_then_space(
    s: Seq<char>,
    a: int,
    b: int,
    word: Seq<char>,
    tokens: Seq<SpecToken>,
)
    requires
        0 <= a < b < s.len(),
        all_word_steps(s, between(a, tokens), b),
        word_run(s, between(a, tokens), b) == (LexState { pos: b, buf: word, ..between(a, tokens) }),
        word.len() > 0,
        s[b] == ' ',
        b + 1 == s.len() || s[b + 1] != ' ',
    ensures
        lex_from(s, between(a, tokens)) == lex_from(
            s,
            between(
                b + 1,
                tokens.push(token(detect(word), a, b)).push(token(SpecTokens::Space, b, b + 1)),
            ),
        ),
{
    let st = between(a, tokens);
    let open = word_run(s, st, b);
    lemma_lex_through_word(s, st, b);
    assert(run_end(s, b + 1, CharClass::Space) == b + 1);
    assert(lex_from(s, open) == lex_from(s, lex_step(s, open)->Ok_0));
}

/// An ordinary word that is followed by one space gives its token and a
/// space.
proof fn lemma_plain_then_space(s: Seq<char>, a: int, b: int, tokens: Seq<SpecToken>)
    requires
        0 <= a < b < s.len(),
        forall|k: int| a <= k < b ==> is_plain_char(#[trigger] s[k]),
        s[b] == ' ',
        b + 1 == s.len() || s[b + 1] != ' ',
    ensures
        lex_from(s, between(a, tokens)) == lex_from(
            s,
            between(
                b + 1,
                tokens.push(token(detect(s.subrange(a, b)), a, b)).push(
                    token(SpecTokens::Space, b, b + 1),
                ),
            ),
        ),
{
    lemma_plain_word(s, between(a, tokens), b);
    assert(Seq::<char>::empty() + s.subrange(a, b) =~= s.subrange(a, b));
    lemma_word_then_space(s, a, b, s.subrange(a, b), tokens);
}

/// A quoted text that is followed by one space gives the token of the
/// text and a space.
proof fn lemma_quoted_then_space(s: Seq<char>, a: int, b: int, tokens: Seq<SpecToken>)
    requires
        0 <= a,
        a + 2 < b < s.len(),
        s[a] == '"',
        s[b - 1] == '"',
        forall|k: int| a < k < b - 1 ==> is_ordinary(#[trigger] s[k]),
        s[b] == ' ',
        b + 1 == s.len() || s[b + 1] != ' ',
    ensures
        lex_from(s, between(a, tokens)) == lex_from(
            s,
            between(
                b + 1,
                tokens.push(token(detect(s.subrange(a + 1, b - 1)), a, b)).push(
                    token(SpecTokens::Space, b, b + 1),
                ),
            ),
        ),
{
    lemma_quoted_segment(s, between(a, tokens), b);
    assert(Seq::<char>::empty() + s.subrange(a + 1, b - 1) =~= s.subrange(a + 1, b - 1));
    lemma_word_then_space(s, a, b, s.subrange(a + 1, b - 1), tokens);
}

/// One space, `=` or `;` between two tokens gives its token.
proof fn lemma_operator_step(s: Seq<char>, p: int, tokens: Seq<SpecToken>)
    requires
        0 <= p < s.len(),
        s[p] == ' ' || s[p] == '=' || s[p] == ';',
        p + 1 == s.len() || (s[p + 1] != ' ' && !is_separator(s[p + 1])) || s[p] == '=' || (s[p]
            == ' ' && s[p + 1] != ' ') || (s[p] == ';' && !is_separator(s[p + 1])),
    ensures
        lex_from(s, between(p, tokens)) == lex_from(
            s,
            between(
                p + 1,
                tokens.push(
                    token(
                        if s[p] == ' ' {
                            SpecTokens::Space
                        } else if s[p] == '=' {
                            SpecTokens::ExportSet
                        } else {
                            SpecTokens::CommandEnd(';')
                        },
                        p,
                        p + 1,
                    ),
                ),
            ),
        ),
{
    let st = between(p, tokens);
    assert(run_end(s, p + 1, CharClass::Space) == p + 1 || s[p] != ' ');
    assert(run_end(s, p + 1, CharClass::Separator) == p + 1 || s[p] != ';');
    assert(lex_from(s, st) == lex_from(s, lex_step(s, st)->Ok_0));
}

proof fn lemma_run_to_end(s: Seq<char>, from: int, class: CharClass)
    requires
        0 <= from <= s.len(),
        forall|k: int| from <= k < s.len() ==> in_class(class, #[trigger] s[k]),
    ensures
        run_end(s, from, class) == s.len(),
    decreases s.len() - from,
{
    if from < s.len() {
        assert(in_class(class, s[from]));
        lemma_run_to_end(s, from + 1, class);
    }
}

/// `$` and a name up to the end of the text give the variable of that
/// name.
proof fn lemma_variable_at_end(s: Seq<char>, p: int, tokens: Seq<SpecToken>)
    requires
        0 <= p,
        p + 1 < s.len(),
        s[p] == '$',
        forall|k: int| p < k < s.len() ==> is_name_char(#[trigger] s[k]),
    ensures
        lex_from(s, between(p, tokens)) == Ok::<Seq<SpecToken>, LexError>(
            tokens.push(
                token(
                    SpecTokens::StringVariable(s.subrange(p + 1, s.len() as int), false),
                    p,
                    s.len() as int,
                ),
            ),
        ),
{
    let st = between(p, tokens);
    assert(is_name_char(s[p + 1]));
    lemma_run_to_end(s, p + 1, CharClass::Name);
    let next = lex_step(s, st)->Ok_0;
    assert(lex_from(s, st) == lex_from(s, next));
    assert(next.pos == s.len());
}

/// The text of `let NAME = "TEXT" ; echo $NAME`.
#[verifier::opaque]
pub open spec fn line(name: Seq<char>, inner: Seq<char>) -> Seq<char> {
    seq!['l', 'e', 't', ' '] + name + seq![' ', '=', ' ', '"'] + inner + seq![
        '"',
        ' ',
        ';',
        ' ',
        'e',
        'c',
        'h',
        'o',
        ' ',
        '$',
    ] + name
}

proof fn lemma_line_shape(name: Seq<char>, inner: Seq<char>)
    ensures
        ({
            let t = line(name, inner);
            let n = name.len() as int;
            let m = inner.len() as int;
            &&& t.len() == 18 + 2 * n + m
            &&& t[0] == 'l' && t[1] == 'e' && t[2] == 't' && t[3] == ' '
            &&& forall|k: int| 0 <= k < n ==> #[trigger] t[4 + k] == name[k]
            &&& t[4 + n] == ' ' && t[5 + n] == '=' && t[6 + n] == ' ' && t[7 + n] == '"'
            &&& forall|k: int| 0 <= k < m ==> #[trigger] t[8 + n + k] == inner[k]
            &&& t[8 + n + m] == '"' && t[9 + n + m] == ' ' && t[10 + n + m] == ';' && t[11 + n + m]
                == ' '
            &&& t[12 + n + m] == 'e' && t[13 + n + m] == 'c' && t[14 + n + m] == 'h' && t[15 + n
                + m] == 'o'
            &&& t[16 + n + m] == ' ' && t[17 + n + m] == '$'
            &&& forall|k: int| 0 <= k < n ==> #[trigger] t[18 + n + m + k] == name[k]
        }),
{
    reveal(line);
}

/// A character of a name is an ordinary one.
proof fn lemma_name_chars_are_plain(c: char)
    requires
        is_name_char(c),
    ensures
        is_plain_char(c),
        c != '(' && c != '{' && c != ' ',
{
}

/// `let` is the keyword, and `echo` is a word.
proof fn lemma_detect_let_and_echo()
    ensures
        detect(seq!['l', 'e', 't']) == SpecTokens::Let,
        detect(seq!['e', 'c', 'h', 'o']) == SpecTokens::Literal("echo"@),
{
    reveal_strlit("if");
    reveal_strlit("while");
    reveal_strlit("for");
    reveal_strlit("let");
    reveal_strlit("else");
    reveal_strlit("end");
    reveal_strlit("break");
    reveal_strlit("$(");
    reveal_strlit("(");
    reveal_strlit(")");
    reveal_strlit("[");
    reveal_strlit("]");
    reveal_strlit(">");
    reveal_strlit("<");
    reveal_strlit("|");
    reveal_strlit(";");
    reveal_strlit("\n");
    reveal_strlit("\r\n");
    reveal_strlit("=");
    reveal_strlit("echo");
    let l = seq!['l', 'e', 't'];
    let e = seq!['e', 'c', 'h', 'o'];
    assert(l =~= "let"@);
    assert(e =~= "echo"@);
    assert("if"@[0] == 'i' && "while"@[0] == 'w' && "for"@[0] == 'f');
    assert("else"@[1] == 'l' && "end"@.len() == 3 && "break"@.len() == 5);
    assert("let"@[0] == 'l' && "echo"@[0] == 'e' && "echo"@[1] == 'c');
}

/// A name lexes to a word: to a keyword or to the literal of the name.
proof fn lemma_detect_name(name: Seq<char>)
    requires
        name.len() > 0,
        forall|k: int| 0 <= k < name.len() ==> is_name_char(#[trigger] name[k]),
    ensures
        is_word_token(detect(name)),
{
    reveal_strlit("$(");
    reveal_strlit("(");
    reveal_strlit(")");
    reveal_strlit("[");
    reveal_strlit("]");
    reveal_strlit(">");
    reveal_strlit("<");
    reveal_strlit("|");
    reveal_strlit(";");
    reveal_strlit("\n");
    reveal_strlit("\r\n");
    reveal_strlit("=");
    assert(is_name_char(name[0]));
    assert("$("@[0] == '$' && "("@[0] == '(' && ")"@[0] == ')' && "["@[0] == '[' && "]"@[0] == ']');
    assert(">"@[0] == '>' && "<"@[0] == '<' && "|"@[0] == '|' && ";"@[0] == ';');
    assert("\n"@[0] == '\n' && "\r\n"@[0] == '\r' && "="@[0] == '=');
}

/// The tokens of `let NAME = "TEXT" ; echo $NAME`: of a name made of
/// letters, digits, `:` and `_`, and of a text that holds none of `"`,
/// `\`, `$` and `@`.
pub proof fn lemma_line_lexes(name: Seq<char>, inner: Seq<char>)
    requires
        name.len() > 0,
        forall|k: int| 0 <= k < name.len() ==> is_name_char(#[trigger] name[k]),
        inner.len() > 0,
        forall|k: int| 0 <= k < inner.len() ==> is_ordinary(#[trigger] inner[k]),
    ensures
        lex(line(name, inner)) matches Ok(tokens) && kinds(tokens) == let_then_echo(
            detect(name),
            name,
            detect(inner),
        ),
{
    let t = line(name, inner);
    let n = name.len() as int;
    let m = inner.len() as int;
    lemma_line_shape(name, inner);
    lemma_detect_let_and_echo();
    assert forall|k: int| 4 <= k < 4 + n implies is_plain_char(#[trigger] t[k]) by {
        assert(t[4 + (k - 4)] == name[k - 4]);
        lemma_name_chars_are_plain(name[k - 4]);
    }
    assert forall|k: int| 7 + n < k < 8 + n + m implies is_ordinary(#[trigger] t[k]) by {
        assert(t[8 + n + (k - 8 - n)] == inner[k - 8 - n]);
    }
    assert forall|k: int| 17 + n + m < k < t.len() implies is_name_char(#[trigger] t[k]) by {
        assert(t[18 + n + m + (k - 18 - n - m)] == name[k - 18 - n - m]);
    }
    assert(t[4 + 0int] == name[0]);
    lemma_name_chars_are_plain(name[0]);
    assert(t.subrange(0, 3) =~= seq!['l', 'e', 't']);
    assert(t.subrange(4, 4 + n) =~= name) by {
        assert forall|k: int| 0 <= k < n implies t.subrange(4, 4 + n)[k] == name[k] by {
            assert(t[4 + k] == name[k]);
        }
    }
    assert(t.subrange(8 + n, 8 + n + m) =~= inner) by {
        assert forall|k: int| 0 <= k < m implies t.subrange(8 + n, 8 + n + m)[k] == inner[k] by {
            assert(t[8 + n + k] == inner[k]);
        }
    }
    assert(t.subrange(12 + n + m, 16 + n + m) =~= seq!['e', 'c', 'h', 'o']);
    assert(t.subrange(18 + n + m, t.len() as int) =~= name) by {
        assert forall|k: int| 0 <= k < n implies t.subrange(18 + n + m, t.len() as int)[k]
            == name[k] by {
            assert(t[18 + n + m + k] == name[k]);
        }
    }
    let k0 = Seq::<SpecToken>::empty();
    let k2 = k0.push(token(SpecTokens::Let, 0, 3)).push(token(SpecTokens::Space, 3, 4));
    let k4 = k2.push(token(detect(name), 4, 4 + n)).push(token(SpecTokens::Space, 4 + n, 5 + n));
    let k5 = k4.push(token(SpecTokens::ExportSet, 5 + n, 6 + n));
    let k6 = k5.push(token(SpecTokens::Space, 6 + n, 7 + n));
    let k8 = k6.push(token(detect(inner), 7 + n, 9 + n + m)).push(
        token(SpecTokens::Space, 9 + n + m, 10 + n + m),
    );
    let k9 = k8.push(token(SpecTokens::CommandEnd(';'), 10 + n + m, 11 + n + m));
    let k10 = k9.push(token(SpecTokens::Space, 11 + n + m, 12 + n + m));
    let k12 = k10.push(token(SpecTokens::Literal("echo"@), 12 + n + m, 16 + n + m)).push(
        token(SpecTokens::Space, 16 + n + m, 17 + n + m),
    );
    let k13 = k12.push(token(SpecTokens::StringVariable(name, false), 17 + n + m, t.len() as int));
    assert(between(0, k0) == initial_state());
    lemma_plain_then_space(t, 0, 3, k0);
    lemma_plain_then_space(t, 4, 4 + n, k2);
    lemma_operator_step(t, 5 + n, k4);
    lemma_operator_step(t, 6 + n, k5);
    lemma_quoted_then_space(t, 7 + n, 9 + n + m, k6);
    lemma_operator_step(t, 10 + n + m, k8);
    lemma_operator_step(t, 11 + n + m, k9);
    lemma_plain_then_space(t, 12 + n + m, 16 + n + m, k10);
    lemma_variable_at_end(t, 17 + n + m, k12);
    assert(lex(t) == Ok::<Seq<SpecToken>, LexError>(k13));
    reveal(let_then_echo);
    assert(kinds(k13) =~= let_then_echo(detect(name), name, detect(inner)));
}

/// `let NAME = "TEXT" ; echo $NAME` comes through the lexer and the tree
/// builder as two statements: the first binds the name to the literal of
/// the text, unchanged, and the second is the command `echo` with the
/// variable of that name as its argument. This holds of every name made of
/// letters, digits, `:` and `_`, and of every text that holds none of `"`,
/// `\`, `$` and `@` and is no operator written as a word.
pub proof fn lemma_text_comes_through(name: Seq<char>, inner: Seq<char>)
    requires
        name.len() > 0,
        forall|k: int| 0 <= k < name.len() ==> is_name_char(#[trigger] name[k]),
        inner.len() > 0,
        forall|k: int| 0 <= k < inner.len() ==> is_ordinary(#[trigger] inner[k]),
        is_word_token(detect(inner)),
    ensures
        lex(line(name, inner)) matches Ok(tokens) && parse_program(kinds(tokens)) == Ok::<
            Seq<SpecExpression>,
            ParseError,
        >(
            seq![
                SpecExpression::Let {
                    key: Box::new(SpecValue::Literal(name)),
                    vartype: None,
                    value: Box::new(SpecValue::Literal(inner)),
                },
                echoing(name),
            ],
        ),
{
    lemma_line_lexes(name, inner);
    lemma_detect_name(name);
    lemma_detect_keeps_text(name);
    lemma_detect_keeps_text(inner);
    lemma_let_then_echo(detect(name), name, detect(inner));
}

} // verus!
