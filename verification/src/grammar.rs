//! The grammar, as functions on sequences of tokens.
//!
//! Each function reads one construct that starts at a position `i` and lies
//! before the bound `end`, and gives the tree it stands for and how many
//! tokens it took. The tree builder in `tree` is proved to return exactly
//! what these functions say.
//!
//! Binary operators (`|`, `&&`, `||`) all bind alike and group to the right:
//! what stands right of the operator is parsed as one expression. A file
//! redirect (`>`, `<`) wraps what has been read so far.
use vstd::prelude::*;
use crate::ast::{SpecCommandValue, SpecExpression, SpecValue};
use crate::tokens::{spec_to_str, SpecTokens};

verus! {

/// What went wrong while a tree was built.
#[derive(Debug, Clone, Copy, PartialEq, Eq, Structural)]
pub enum ParseErrorKind {
    /// A token stands where the grammar has no use for it.
    UnexpectedToken,
    /// An opening parenthesis or bracket has no partner.
    UnbalancedParenthesis,
    /// A block was not closed by `end`.
    MissingEnd,
    /// `else` stands where only `end` may.
    UnexpectedElse,
    /// `let` is not followed by a name and `=`.
    LetWithoutAssignment,
    /// The names of a `for` loop are not followed by `in`.
    ExpectedIn,
    /// A command holds `$` without a name.
    ExpectedVariableName,
    /// A redirect is not followed by a file name.
    UnexpectedCommandEnd,
    /// A command starts with a word that the language keeps for itself.
    ReservedWord,
    /// The construct is recognised but cannot be built yet.
    NotImplemented,
    /// There is nothing to parse.
    NoExpression,
}

/// An error and the index of the token at which it was found.
#[derive(Debug, Clone, Copy, PartialEq, Eq, Structural)]
pub struct ParseError {
    pub kind: ParseErrorKind,
    pub at: usize,
}

pub open spec fn error(kind: ParseErrorKind, at: int) -> ParseError {
    ParseError { kind, at: at as usize }
}

/// How many tokens lie from `i` up to `end`.
pub open spec fn tokens_left(i: int, end: int) -> nat {
    if i <= end {
        (end - i) as nat
    } else {
        0
    }
}

/// How many of the tokens from `i` on, before `end`, are spaces in a row.
pub open spec fn count_spaces(t: Seq<SpecTokens>, i: int, end: int) -> nat
    decreases end - i,
{
    if 0 <= i < end && i < t.len() && t[i] is Space {
        1 + count_spaces(t, i + 1, end)
    } else {
        0
    }
}

/// How many of the tokens from `i` on, before `end`, are spaces or
/// separators in a row.
pub open spec fn count_blanks(t: Seq<SpecTokens>, i: int, end: int) -> nat
    decreases end - i,
{
    if 0 <= i < end && i < t.len() && (t[i] is Space || t[i] is CommandEnd) {
        1 + count_blanks(t, i + 1, end)
    } else {
        0
    }
}

/// By how much a token changes the depth of nesting: of parentheses, or of
/// square brackets.
pub open spec fn depth_change(k: SpecTokens, square: bool) -> int {
    if square {
        if k is ArrayStart {
            1
        } else if k is ArrayEnd {
            -1
        } else {
            0
        }
    } else {
        if k is SubStart || k is StringFunction || k is ArrayFunction || k is ParenthesisStart {
            1
        } else if k is ParenthesisEnd {
            -1
        } else {
            0
        }
    }
}

/// Looks for the token that closes a region opened before `i`, `lvl` levels
/// deep. Gives the number of tokens before that closer and the depth that is
/// left: 0 where the closer was found before `end`.
pub open spec fn closer_scan(t: Seq<SpecTokens>, i: int, end: int, lvl: int, square: bool) -> (
    nat,
    int,
)
    decreases end - i,
{
    if !(0 <= i < end && i < t.len()) {
        (0, lvl)
    } else {
        let l = lvl + depth_change(t[i], square);
        if l == 0 {
            (0, 0)
        } else {
            let (n, r) = closer_scan(t, i + 1, end, l, square);
            (n + 1, r)
        }
    }
}

/// How many tokens from `i` on, before `end`, come before the first `=`;
/// `None` where there is none.
pub open spec fn find_assignment(t: Seq<SpecTokens>, i: int, end: int) -> Option<nat>
    decreases end - i,
{
    if !(0 <= i < end && i < t.len()) {
        None
    } else if t[i] is ExportSet {
        Some(0)
    } else {
        match find_assignment(t, i + 1, end) {
            Some(n) => Some(n + 1),
            None => None,
        }
    }
}

/// Whether the token ends the word before it. In a command the operators do
/// so too.
pub open spec fn ends_word(k: SpecTokens, command: bool) -> bool {
    k is Space || ends_words(k, command)
}

/// Whether the token ends a list of words.
pub open spec fn ends_words(k: SpecTokens, command: bool) -> bool {
    k is CommandEnd || (command && (k is FileWrite || k is FileRead || k is RedirectInto || k is And
        || k is Or || k is JobCommandEnd))
}

/// Whether a token that is no value of its own stands for its text: in a
/// command every such token does, elsewhere only keywords and the file
/// redirects do.
pub open spec fn reads_as_text(k: SpecTokens, command: bool) -> bool {
    if command {
        k is Let || k is ExportSet || k is ParenthesisStart || k is ParenthesisEnd || k is ArrayStart
            || k is ArrayEnd || k is If || k is Else || k is While || k is For || k is Function
            || k is End || k is Break
    } else {
        k is FileRead || k is FileWrite || k is Function || k is Else || k is End || k is For
            || k is If || k is Let || k is While || k is Break
    }
}

/// The value of the words of one list: the word itself where there is one,
/// else the list.
pub open spec fn join(words: Seq<SpecValue>) -> SpecValue {
    if words.len() == 1 {
        words[0]
    } else {
        SpecValue::Values(words)
    }
}

/// The words that a command may not start with.
pub open spec fn is_reserved(word: Seq<char>) -> bool {
    word == "set"@ || word == "loop"@ || word == "continue"@ || word == "return"@ || word == "fn"@
}

/// Whether the first of the words is a literal that a command may not
/// start with.
pub open spec fn starts_reserved(words: Seq<SpecValue>) -> bool {
    words.len() > 0 && match words[0] {
        SpecValue::Literal(w) => is_reserved(w),
        _ => false,
    }
}

/// One piece of a word: a literal, a variable, an array, a substitution or
/// a call. Gives the value and the number of tokens after the first that
/// belong to it.
#[verifier::opaque]
pub open spec fn parse_fragment(t: Seq<SpecTokens>, p: int, end: int, command: bool) -> Result<
    (SpecValue, nat),
    ParseError,
>
    recommends
        0 <= p < end <= t.len(),
    decreases tokens_left(p, end), 1int,
{
    match t[p] {
        SpecTokens::Literal(s) => Ok((SpecValue::Literal(s), 0)),
        SpecTokens::StringVariable(name, _) => if command && name.len() == 0 {
            Err(error(ParseErrorKind::ExpectedVariableName, p))
        } else {
            Ok((SpecValue::Variable(name), 0))
        },
        SpecTokens::ArrayVariable(name, _) => Ok((SpecValue::ArrayVariable(name), 0)),
        SpecTokens::SubStart => {
            let (len, lvl) = closer_scan(t, p + 1, end, 1, false);
            if lvl != 0 || p + 1 + len >= end {
                Err(error(ParseErrorKind::UnbalancedParenthesis, p))
            } else {
                match parse_sequence(t, p + 1, p + 1 + len, Seq::empty()) {
                    Err(e) => Err(e),
                    Ok((body, _)) => Ok((SpecValue::Expressions(body), len + 1)),
                }
            }
        },
        SpecTokens::StringFunction(name) => parse_call_arguments(t, p, end, "$"@ + name),
        SpecTokens::ArrayFunction(name) => parse_call_arguments(t, p, end, "@"@ + name),
        SpecTokens::ArrayStart => if command {
            Ok((SpecValue::Literal(spec_to_str(t[p])), 0))
        } else {
            let (len, lvl) = closer_scan(t, p + 1, end, 1, true);
            if lvl != 0 || p + 1 + len >= end {
                Err(error(ParseErrorKind::UnbalancedParenthesis, p))
            } else {
                match parse_words(t, p + 1, p + 1 + len, false, Seq::empty()) {
                    Err(e) => Err(e),
                    Ok((items, n)) => if n != len {
                        Err(error(ParseErrorKind::UnexpectedToken, p + 1 + n))
                    } else {
                        Ok((SpecValue::ArrayDefinition(items), len + 1))
                    },
                }
            }
        },
        k => if reads_as_text(k, command) {
            Ok((SpecValue::Literal(spec_to_str(k)), 0))
        } else {
            Err(error(ParseErrorKind::UnexpectedToken, p))
        },
    }
}

/// The arguments of the call that opens at `p`, up to its closing
/// parenthesis.
#[verifier::opaque]
pub open spec fn parse_call_arguments(
    t: Seq<SpecTokens>,
    p: int,
    end: int,
    name: Seq<char>,
) -> Result<(SpecValue, nat), ParseError>
    recommends
        0 <= p < end <= t.len(),
    decreases tokens_left(p, end), 0int,
{
    let (len, lvl) = closer_scan(t, p + 1, end, 1, false);
    if lvl != 0 || p + 1 + len >= end {
        Err(error(ParseErrorKind::UnbalancedParenthesis, p))
    } else {
        match parse_words(t, p + 1, p + 1 + len, false, Seq::empty()) {
            Err(e) => Err(e),
            Ok((args, n)) => if n != len {
                Err(error(ParseErrorKind::UnexpectedToken, p + 1 + n))
            } else {
                Ok((SpecValue::ValueFunction(name, args), len + 1))
            },
        }
    }
}

/// The rest of a word whose pieces so far are `acc`: pieces are read until
/// a token ends the word. Gives the word and the number of tokens read.
#[verifier::opaque]
pub open spec fn parse_word(
    t: Seq<SpecTokens>,
    p: int,
    end: int,
    command: bool,
    acc: Seq<SpecValue>,
) -> Result<(SpecValue, nat), ParseError>
    decreases tokens_left(p, end), 2int,
{
    if !(0 <= p < end && p < t.len()) || ends_word(t[p], command) {
        Ok((join(acc), 0))
    } else {
        match parse_fragment(t, p, end, command) {
            Err(e) => Err(e),
            Ok((piece, extra)) => match parse_word(
                t,
                p + 1 + extra,
                end,
                command,
                acc.push(piece),
            ) {
                Err(e) => Err(e),
                Ok((word, n)) => Ok((word, 1 + extra + n)),
            },
        }
    }
}

/// The words from `i` on, after those in `acc`: words are read, with the
/// spaces between them, until a token ends the list. Gives all the words
/// and the number of tokens read.
#[verifier::opaque]
pub open spec fn parse_words(
    t: Seq<SpecTokens>,
    i: int,
    end: int,
    command: bool,
    acc: Seq<SpecValue>,
) -> Result<(Seq<SpecValue>, nat), ParseError>
    decreases tokens_left(i, end), 3int,
{
    let s = count_spaces(t, i, end);
    let p = i + s;
    if !(0 <= p < end && p < t.len()) || ends_words(t[p], command) {
        Ok((acc, s))
    } else {
        match parse_word(t, p, end, command, Seq::empty()) {
            Err(e) => Err(e),
            Ok((word, n)) => if n == 0 {
                Err(error(ParseErrorKind::UnexpectedToken, p))
            } else {
                match parse_words(t, p + n, end, command, acc.push(word)) {
                    Err(e) => Err(e),
                    Ok((words, m)) => Ok((words, s + n + m)),
                }
            },
        }
    }
}

/// A value: with `one_word`, the next word; without, all the words up to
/// the end of the statement.
#[verifier::opaque]
pub open spec fn parse_value(t: Seq<SpecTokens>, i: int, end: int, one_word: bool) -> Result<
    (SpecValue, nat),
    ParseError,
>
    decreases tokens_left(i, end), 4int,
{
    if one_word {
        let s = count_spaces(t, i, end);
        match parse_word(t, i + s, end, false, Seq::empty()) {
            Err(e) => Err(e),
            Ok((word, n)) => Ok((word, s + n)),
        }
    } else {
        match parse_words(t, i, end, false, Seq::empty()) {
            Err(e) => Err(e),
            Ok((words, n)) => Ok((join(words), n)),
        }
    }
}

/// The words of a command as the tree holds them.
pub open spec fn as_command(words: Seq<SpecValue>) -> Seq<SpecCommandValue> {
    Seq::new(words.len(), |i: int| SpecCommandValue::Value(words[i]))
}

/// A command: the words from `p` on, up to a separator or an operator.
/// Gives the command and the number of tokens read.
#[verifier::opaque]
pub open spec fn parse_command(t: Seq<SpecTokens>, p: int, end: int) -> Result<
    (SpecExpression, nat),
    ParseError,
>
    decreases tokens_left(p, end), 4int,
{
    match parse_words(t, p, end, true, Seq::empty()) {
        Err(e) => Err(e),
        Ok((words, n)) => if starts_reserved(words) {
            Err(error(ParseErrorKind::ReservedWord, p))
        } else {
            Ok((SpecExpression::Command(as_command(words)), n))
        },
    }
}

/// The file name after `<` or `>`: one word. Gives it and the number of
/// tokens read from `i` on.
#[verifier::opaque]
pub open spec fn parse_redirect_name(t: Seq<SpecTokens>, i: int, end: int) -> Result<
    (SpecValue, nat),
    ParseError,
>
    decreases tokens_left(i, end), 4int,
{
    let s = count_spaces(t, i, end);
    let p = i + s;
    if !(0 <= p < end && p < t.len()) || t[p] is CommandEnd {
        Err(error(ParseErrorKind::UnexpectedCommandEnd, p))
    } else if t[p] is FileRead || t[p] is FileWrite {
        Err(error(ParseErrorKind::UnexpectedToken, p))
    } else {
        match parse_word(t, p, end, false, Seq::empty()) {
            Err(e) => Err(e),
            Ok((word, n)) => Ok((word, s + n)),
        }
    }
}

/// `let key = value`, with `let` at `p`. Gives the tree and the number of
/// tokens after `let` that belong to it.
#[verifier::opaque]
pub open spec fn parse_let(t: Seq<SpecTokens>, p: int, end: int) -> Result<
    (SpecExpression, nat),
    ParseError,
>
    decreases tokens_left(p, end), 6int,
{
    if !(0 <= p < end && p < t.len()) {
        Err(error(ParseErrorKind::NoExpression, p))
    } else {
        match find_assignment(t, p + 1, end) {
            None => Err(error(ParseErrorKind::LetWithoutAssignment, p)),
            Some(k) => if p + 1 + k >= end {
                Err(error(ParseErrorKind::LetWithoutAssignment, p))
            } else {
                match parse_value(t, p + 1, p + 1 + k, false) {
                    Err(e) => Err(e),
                    Ok((key, n)) => if n != k {
                        Err(error(ParseErrorKind::UnexpectedToken, p + 1 + n))
                    } else {
                        match parse_value(t, p + 1 + k + 1, end, false) {
                            Err(e) => Err(e),
                            Ok((value, m)) => Ok(
                                (
                                    SpecExpression::Let {
                                        key: Box::new(key),
                                        vartype: None,
                                        value: Box::new(value),
                                    },
                                    k + 1 + m,
                                ),
                            ),
                        }
                    },
                }
            },
        }
    }
}

/// The statements of a block, after those in `acc`, up to the `else` or
/// `end` that closes it. Gives them and the number of tokens read; the
/// closing token is not among those.
#[verifier::opaque]
pub open spec fn parse_block(
    t: Seq<SpecTokens>,
    i: int,
    end: int,
    acc: Seq<SpecExpression>,
) -> Result<(Seq<SpecExpression>, nat), ParseError>
    decreases tokens_left(i, end), 11int,
{
    let b = count_blanks(t, i, end);
    let p = i + b;
    if !(0 <= p < end && p < t.len()) {
        Err(error(ParseErrorKind::MissingEnd, p))
    } else if t[p] is End || t[p] is Else {
        Ok((acc, b))
    } else {
        match parse_expression(t, p, end) {
            Err(e) => Err(e),
            Ok((statement, extra)) => match parse_block(
                t,
                p + 1 + extra,
                end,
                acc.push(statement),
            ) {
                Err(e) => Err(e),
                Ok((all, n)) => Ok((all, b + 1 + extra + n)),
            },
        }
    }
}

/// What closes a block whose body ended at `i`: `end`, or `else` with its
/// own body and `end`, or `else if` with a whole further `if`. Gives the
/// statements of the else branch and the number of tokens read.
#[verifier::opaque]
pub open spec fn parse_else(t: Seq<SpecTokens>, i: int, end: int) -> Result<
    (Seq<SpecExpression>, nat),
    ParseError,
>
    decreases tokens_left(i, end), 12int,
{
    if !(0 <= i < end && i < t.len()) {
        Err(error(ParseErrorKind::MissingEnd, i))
    } else if t[i] is End {
        Ok((Seq::empty(), 1))
    } else if t[i] is Else {
        let b = count_blanks(t, i + 1, end);
        let p = i + 1 + b;
        if 0 <= p < end && p < t.len() && t[p] is If {
            match parse_if(t, p, end) {
                Err(e) => Err(e),
                Ok((inner, extra)) => Ok((seq![inner], 1 + b + 1 + extra)),
            }
        } else {
            match parse_block(t, i + 1, end, Seq::empty()) {
                Err(e) => Err(e),
                Ok((body, n)) => if t[i + 1 + n] is End {
                    Ok((body, 1 + n + 1))
                } else {
                    Err(error(ParseErrorKind::UnexpectedElse, i + 1 + n))
                },
            }
        }
    } else {
        Err(error(ParseErrorKind::MissingEnd, i))
    }
}

/// `if condition ; body ; else ; body ; end`, with `if` at `p`. Gives the
/// tree and the number of tokens after `if` that belong to it.
#[verifier::opaque]
pub open spec fn parse_if(t: Seq<SpecTokens>, p: int, end: int) -> Result<
    (SpecExpression, nat),
    ParseError,
>
    decreases tokens_left(p, end), 6int,
{
    if !(0 <= p < end && p < t.len()) {
        Err(error(ParseErrorKind::NoExpression, p))
    } else {
        match parse_expression(t, p + 1, end) {
            Err(e) => Err(e),
            Ok((condition, c)) => match parse_block(t, p + 1 + 1 + c, end, Seq::empty()) {
                Err(e) => Err(e),
                Ok((contents, n)) => match parse_else(t, p + 1 + 1 + c + n, end) {
                    Err(e) => Err(e),
                    Ok((else_contents, m)) => Ok(
                        (
                            SpecExpression::If {
                                condition: Box::new(condition),
                                contents,
                                else_contents,
                            },
                            1 + c + n + m,
                        ),
                    ),
                },
            },
        }
    }
}

/// `while condition ; body ; end`, with `while` at `p`. Gives the tree and
/// the number of tokens after `while` that belong to it.
#[verifier::opaque]
pub open spec fn parse_while(t: Seq<SpecTokens>, p: int, end: int) -> Result<
    (SpecExpression, nat),
    ParseError,
>
    decreases tokens_left(p, end), 6int,
{
    if !(0 <= p < end && p < t.len()) {
        Err(error(ParseErrorKind::NoExpression, p))
    } else {
        match parse_expression(t, p + 1, end) {
            Err(e) => Err(e),
            Ok((condition, c)) => match parse_block(t, p + 1 + 1 + c, end, Seq::empty()) {
                Err(e) => Err(e),
                Ok((contents, n)) => if t[p + 1 + 1 + c + n] is End {
                    Ok(
                        (
                            SpecExpression::While { condition: Box::new(condition), contents },
                            1 + c + n + 1,
                        ),
                    )
                } else {
                    Err(error(ParseErrorKind::UnexpectedElse, p + 1 + 1 + c + n))
                },
            },
        }
    }
}

/// `for value in list ...` or `for key value in list ...`, with `for` at
/// `p`: with two names the first is bound to the index and the second to
/// the element. Gives the tree and the number of tokens after `for` that
/// belong to it.
#[verifier::opaque]
pub open spec fn parse_for(t: Seq<SpecTokens>, p: int, end: int) -> Result<
    (SpecExpression, nat),
    ParseError,
>
    decreases tokens_left(p, end), 6int,
{
    if !(0 <= p < end && p < t.len()) {
        Err(error(ParseErrorKind::NoExpression, p))
    } else {
        match parse_value(t, p + 1, end, true) {
            Err(e) => Err(e),
            Ok((first, a)) => match parse_value(t, p + 1 + a, end, true) {
                Err(e) => Err(e),
                Ok((second, b)) => if second == SpecValue::Literal("in"@) {
                    parse_for_body(t, p, end, first, None, a + b)
                } else {
                    match parse_value(t, p + 1 + a + b, end, true) {
                        Err(e) => Err(e),
                        Ok((third, c)) => if third == SpecValue::Literal("in"@) {
                            parse_for_body(t, p, end, second, Some(Box::new(first)), a + b + c)
                        } else {
                            Err(error(ParseErrorKind::ExpectedIn, p + 1 + a + b))
                        },
                    }
                },
            },
        }
    }
}

/// The list and the bodies of a `for` loop whose names took `used` tokens
/// after the `for` at `p`.
#[verifier::opaque]
pub open spec fn parse_for_body(
    t: Seq<SpecTokens>,
    p: int,
    end: int,
    arg_value: SpecValue,
    arg_key: Option<Box<SpecValue>>,
    used: nat,
) -> Result<(SpecExpression, nat), ParseError>
    decreases tokens_left(p, end), 5int,
{
    if !(0 <= p < end && p < t.len()) {
        Err(error(ParseErrorKind::NoExpression, p))
    } else {
        match parse_value(t, p + 1 + used, end, false) {
            Err(e) => Err(e),
            Ok((list, l)) => match parse_block(t, p + 1 + used + l, end, Seq::empty()) {
                Err(e) => Err(e),
                Ok((contents, n)) => match parse_else(t, p + 1 + used + l + n, end) {
                    Err(e) => Err(e),
                    Ok((else_contents, m)) => Ok(
                        (
                            SpecExpression::For {
                                arg_value: Box::new(arg_value),
                                arg_key,
                                list: Box::new(list),
                                contents,
                                else_contents,
                            },
                            used + l + n + m,
                        ),
                    ),
                },
            },
        }
    }
}

/// What follows an expression: nothing, a file redirect that wraps it, or
/// an operator with all that stands to its right. `left` is what has been
/// read so far. Gives the whole expression and the number of tokens read
/// from `i` on.
#[verifier::opaque]
pub open spec fn parse_rest(
    t: Seq<SpecTokens>,
    left: Option<SpecExpression>,
    i: int,
    end: int,
) -> Result<(SpecExpression, nat), ParseError>
    decreases tokens_left(i, end), 8int,
{
    let s = count_spaces(t, i, end);
    let p = i + s;
    if !(0 <= p < end && p < t.len()) || t[p] is CommandEnd {
        match left {
            Some(e) => Ok((e, s)),
            None => Err(error(ParseErrorKind::NoExpression, p)),
        }
    } else if t[p] is FileRead || t[p] is FileWrite {
        match parse_redirect_name(t, p + 1, end) {
            Err(e) => Err(e),
            Ok((name, n)) => {
                let inner = match left {
                    Some(e) => Some(Box::new(e)),
                    None => None,
                };
                let wrapped = if t[p] is FileRead {
                    SpecExpression::FileSource { source: Box::new(name), target: inner }
                } else {
                    SpecExpression::FileTarget { source: inner, target: Box::new(name) }
                };
                match parse_rest(t, Some(wrapped), p + 1 + n, end) {
                    Err(e) => Err(e),
                    Ok((all, m)) => Ok((all, s + 1 + n + m)),
                }
            },
        }
    } else if t[p] is RedirectInto || t[p] is And || t[p] is Or {
        match left {
            None => Err(error(ParseErrorKind::UnexpectedToken, p)),
            Some(first) => match parse_expression(t, p + 1, end) {
                Err(e) => Err(e),
                Ok((second, n)) => {
                    let joined = if t[p] is RedirectInto {
                        SpecExpression::RedirectTarget {
                            source: Box::new(first),
                            target: Box::new(second),
                        }
                    } else if t[p] is And {
                        SpecExpression::And { first: Box::new(first), second: Box::new(second) }
                    } else {
                        SpecExpression::Or { first: Box::new(first), second: Box::new(second) }
                    };
                    Ok((joined, s + 1 + 1 + n))
                },
            },
        }
    } else {
        Err(error(ParseErrorKind::UnexpectedToken, p))
    }
}

/// A result with `k` more tokens counted as read.
pub open spec fn shifted<T>(r: Result<(T, nat), ParseError>, k: nat) -> Result<
    (T, nat),
    ParseError,
> {
    match r {
        Ok((v, n)) => Ok((v, n + k)),
        Err(e) => Err(e),
    }
}

/// A command at `p` and what follows it. Gives the tree and the number of
/// tokens after the first that were read.
#[verifier::opaque]
pub open spec fn parse_command_line(t: Seq<SpecTokens>, p: int, end: int) -> Result<
    (SpecExpression, nat),
    ParseError,
>
    decreases tokens_left(p, end), 9int,
{
    match parse_command(t, p, end) {
        Err(e) => Err(e),
        Ok((command, n)) => if n == 0 {
            Err(error(ParseErrorKind::UnexpectedToken, p))
        } else {
            match parse_rest(t, Some(command), p + n, end) {
                Err(e) => Err(e),
                Ok((all, m)) => Ok((all, (n + m - 1) as nat)),
            }
        },
    }
}

/// A redirect at `p` that wraps nothing, and what follows it. Gives the
/// tree and the number of tokens after the first that were read.
#[verifier::opaque]
pub open spec fn parse_redirect_line(t: Seq<SpecTokens>, p: int, end: int) -> Result<
    (SpecExpression, nat),
    ParseError,
>
    decreases tokens_left(p, end), 9int,
{
    match parse_rest(t, None, p, end) {
        Err(e) => Err(e),
        Ok((all, m)) => if m == 0 {
            Err(error(ParseErrorKind::UnexpectedToken, p))
        } else {
            Ok((all, (m - 1) as nat))
        },
    }
}

/// An expression in parentheses, which open at `p`, and what follows it:
/// the parentheses hold exactly one expression. Gives the tree and the
/// number of tokens after the first that were read.
#[verifier::opaque]
pub open spec fn parse_grouped(t: Seq<SpecTokens>, p: int, end: int) -> Result<
    (SpecExpression, nat),
    ParseError,
>
    decreases tokens_left(p, end), 9int,
{
    let (len, lvl) = closer_scan(t, p + 1, end, 1, false);
    if lvl != 0 || p + 1 + len >= end {
        Err(error(ParseErrorKind::UnbalancedParenthesis, p))
    } else {
        match parse_expression(t, p + 1, p + 1 + len) {
            Err(e) => Err(e),
            Ok((inner, n)) => {
                let after = p + 1 + 1 + n;
                let stop = after + count_blanks(t, after, p + 1 + len);
                if stop != p + 1 + len {
                    Err(error(ParseErrorKind::UnexpectedToken, stop))
                } else {
                    match parse_rest(t, Some(inner), p + 1 + len + 1, end) {
                        Err(e) => Err(e),
                        Ok((all, m)) => Ok((all, len + 1 + m)),
                    }
                }
            },
        }
    }
}

/// `if` or `for` at `p`, and what follows it. Gives the tree and the number
/// of tokens after the first that were read.
#[verifier::opaque]
pub open spec fn parse_branching(t: Seq<SpecTokens>, p: int, end: int) -> Result<
    (SpecExpression, nat),
    ParseError,
>
    decreases tokens_left(p, end), 9int,
{
    let first = if 0 <= p < t.len() && t[p] is If {
        parse_if(t, p, end)
    } else {
        parse_for(t, p, end)
    };
    match first {
        Err(e) => Err(e),
        Ok((tree, n)) => match parse_rest(t, Some(tree), p + 1 + n, end) {
            Err(e) => Err(e),
            Ok((all, m)) => Ok((all, n + m)),
        },
    }
}

/// `break` at `p` with its count. Gives the tree and the number of tokens
/// after the first that were read.
#[verifier::opaque]
pub open spec fn parse_break(t: Seq<SpecTokens>, p: int, end: int) -> Result<
    (SpecExpression, nat),
    ParseError,
>
    decreases tokens_left(p, end), 9int,
{
    if !(0 <= p < end) {
        Err(error(ParseErrorKind::NoExpression, p))
    } else {
        match parse_value(t, p + 1, end, false) {
            Err(e) => Err(e),
            Ok((num, n)) => Ok((SpecExpression::Break { num: Box::new(num) }, n)),
        }
    }
}

/// One expression: blanks are passed over, then a command, a construct
/// that starts with a keyword or a parenthesised expression is read, and
/// what follows it. `while` and `let` take nothing after them. Gives the
/// tree and the number of tokens after the first that were read.
#[verifier::opaque]
pub open spec fn parse_expression(t: Seq<SpecTokens>, i: int, end: int) -> Result<
    (SpecExpression, nat),
    ParseError,
>
    decreases tokens_left(i, end), 10int,
{
    let b = count_blanks(t, i, end);
    let p = i + b;
    if !(0 <= p < end && p < t.len()) {
        Err(error(ParseErrorKind::NoExpression, p))
    } else {
        match t[p] {
            SpecTokens::Literal(_) | SpecTokens::SubStart | SpecTokens::StringVariable(
                _,
                _,
            ) => shifted(parse_command_line(t, p, end), b),
            SpecTokens::FileRead | SpecTokens::FileWrite => shifted(
                parse_redirect_line(t, p, end),
                b,
            ),
            SpecTokens::ParenthesisStart => shifted(parse_grouped(t, p, end), b),
            SpecTokens::If | SpecTokens::For => shifted(parse_branching(t, p, end), b),
            SpecTokens::While => shifted(parse_while(t, p, end), b),
            SpecTokens::Let => shifted(parse_let(t, p, end), b),
            SpecTokens::Break => shifted(parse_break(t, p, end), b),
            SpecTokens::Function => Err(error(ParseErrorKind::NotImplemented, p)),
            _ => Err(error(ParseErrorKind::UnexpectedToken, p)),
        }
    }
}

/// The statements from `i` up to `end`, after those in `acc`. Gives them
/// and the number of tokens read.
#[verifier::opaque]
pub open spec fn parse_sequence(
    t: Seq<SpecTokens>,
    i: int,
    end: int,
    acc: Seq<SpecExpression>,
) -> Result<(Seq<SpecExpression>, nat), ParseError>
    decreases tokens_left(i, end), 11int,
{
    let b = count_blanks(t, i, end);
    let p = i + b;
    if !(0 <= p < end && p < t.len()) {
        Ok((acc, b))
    } else {
        match parse_expression(t, p, end) {
            Err(e) => Err(e),
            Ok((statement, extra)) => match parse_sequence(
                t,
                p + 1 + extra,
                end,
                acc.push(statement),
            ) {
                Err(e) => Err(e),
                Ok((all, n)) => Ok((all, b + 1 + extra + n)),
            },
        }
    }
}

/// The tree of a whole program.
pub open spec fn parse_program(t: Seq<SpecTokens>) -> Result<Seq<SpecExpression>, ParseError> {
    match parse_sequence(t, 0, t.len() as int, Seq::empty()) {
        Err(e) => Err(e),
        Ok((all, _)) => Ok(all),
    }
}

} // verus!
