//! The script notation as mathematics: for each phrase, what it is and how
//! many characters it takes, at any place of any text.
//!
//! A phrase is tried at a place `p` of the text `s`. It either fails or
//! gives a value and the number of characters it took; among alternatives
//! the first that succeeds is taken, and a run takes as many items as it
//! can. Nothing is ever tried again another way once it has succeeded.
use vstd::prelude::*;
use crate::statements::{SpecCommand, SpecPart, SpecPrimitive, SpecStatement, SpecValue};
use crate::text::white_space;

verus! {

/// Whether a name may start with `c`, as
/// `chumsky::text::Char::is_ident_start` tells of a `char`.
pub uninterp spec fn name_start(c: char) -> bool;

/// Whether a name may go on with `c`, as
/// `chumsky::text::Char::is_ident_continue` tells of a `char`.
pub uninterp spec fn name_part(c: char) -> bool;

/// `chumsky::text::Char::is_ident_start` on a `char`: whether `c` is `_`
/// or may start an identifier by the tables of `unicode_ident`. The answer
/// depends on `c` alone and is given the name `name_start`.
#[verifier::external_body]
pub(crate) fn is_name_start(c: char) -> (b: bool)
    ensures
        b == name_start(c),
{
    chumsky::text::Char::is_ident_start(&c)
}

/// `chumsky::text::Char::is_ident_continue` on a `char`: whether `c` may
/// go on an identifier by the tables of `unicode_ident`. The answer depends
/// on `c` alone and is given the name `name_part`.
#[verifier::external_body]
pub(crate) fn is_name_part(c: char) -> (b: bool)
    ensures
        b == name_part(c),
{
    chumsky::text::Char::is_ident_continue(&c)
}

/// How many characters lie from `p` to the end of `s`.
pub open spec fn ahead(s: Seq<char>, p: int) -> nat {
    if p <= s.len() {
        (s.len() - p) as nat
    } else {
        0
    }
}

/// Whether the character at `p` is `c`.
pub open spec fn at(s: Seq<char>, p: int, c: char) -> bool {
    0 <= p < s.len() && s[p] == c
}

/// Whether the characters of `w` stand at `p`.
pub open spec fn word_at(s: Seq<char>, p: int, w: Seq<char>) -> bool {
    0 <= p && p + w.len() <= s.len() && s.subrange(p, p + w.len()) == w
}

/// The kinds of character of which a run is made.
#[derive(Clone, Copy, PartialEq, Eq, Debug)]
pub enum Class {
    /// A space or a tab.
    Inline,
    /// White space of any kind.
    White,
    /// A decimal digit.
    Decimal,
    /// What ends a statement: a line feed, a carriage return, a semicolon.
    Eol,
    /// What a name may go on with.
    NamePart,
}

/// Whether `c` is a decimal digit.
pub open spec fn is_decimal(c: char) -> bool {
    '0' <= c && c <= '9'
}

/// Whether `c` is a hexadecimal digit.
pub open spec fn is_hex(c: char) -> bool {
    is_decimal(c) || ('a' <= c && c <= 'f') || ('A' <= c && c <= 'F')
}

/// Whether `c` is of the class.
pub open spec fn belongs(c: char, class: Class) -> bool {
    match class {
        Class::Inline => c == ' ' || c == '\t',
        Class::White => white_space(c),
        Class::Decimal => is_decimal(c),
        Class::Eol => c == '\n' || c == '\r' || c == ';',
        Class::NamePart => name_part(c),
    }
}

/// How many characters of the class stand in a row at `p`.
pub open spec fn run(s: Seq<char>, p: int, class: Class) -> nat
    decreases ahead(s, p),
{
    if 0 <= p < s.len() && belongs(s[p], class) {
        1 + run(s, p + 1, class)
    } else {
        0
    }
}

/// The length of the whole number at `p`: a digit other than zero and the
/// digits after it, or a single zero.
pub open spec fn whole_len(s: Seq<char>, p: int) -> Option<nat> {
    if 0 <= p < s.len() && is_decimal(s[p]) && s[p] != '0' {
        Some(1 + run(s, p + 1, Class::Decimal))
    } else if at(s, p, '0') {
        Some(1)
    } else {
        None
    }
}

/// The length of the fraction at `p`: a dot and at least one digit; zero
/// where there is none.
pub open spec fn fraction_len(s: Seq<char>, p: int) -> nat {
    if at(s, p, '.') && run(s, p + 1, Class::Decimal) >= 1 {
        1 + run(s, p + 1, Class::Decimal)
    } else {
        0
    }
}

/// The length of the sign at `p`, if there is one.
pub open spec fn sign_len(s: Seq<char>, p: int) -> nat {
    if at(s, p, '+') || at(s, p, '-') {
        1
    } else {
        0
    }
}

/// The length of the exponent at `p`: `e` or `E`, a sign or none, and at
/// least one digit; zero where there is none.
pub open spec fn exponent_len(s: Seq<char>, p: int) -> nat {
    let g = sign_len(s, p + 1);
    if (at(s, p, 'e') || at(s, p, 'E')) && run(s, p + 1 + g, Class::Decimal) >= 1 {
        1 + g + run(s, p + 1 + g, Class::Decimal)
    } else {
        0
    }
}

/// The length of the number at `p`: a minus sign or none, a whole number,
/// a fraction or none, an exponent or none.
pub open spec fn number_len(s: Seq<char>, p: int) -> Option<nat> {
    let m: nat = if at(s, p, '-') {
        1
    } else {
        0
    };
    match whole_len(s, p + m) {
        Some(n) => {
            let f = fraction_len(s, p + m + n);
            Some(m + n + f + exponent_len(s, p + m + n + f))
        },
        None => None,
    }
}

/// Whether `c` may follow a backslash by itself.
pub open spec fn is_escaped(c: char) -> bool {
    c == '\\' || c == '/' || c == '"' || c == 'b' || c == 'f' || c == 'n' || c == 'r' || c == 't'
}

/// The length of the escape at `p`: a backslash and one of the characters
/// that may follow it, or a backslash, `u` and four hexadecimal digits;
/// zero where there is none.
pub open spec fn escape_len(s: Seq<char>, p: int) -> nat {
    if at(s, p, '\\') && p + 1 < s.len() {
        if is_escaped(s[p + 1]) {
            2
        } else if s[p + 1] == 'u' && p + 6 <= s.len() && is_hex(s[p + 2]) && is_hex(s[p + 3])
            && is_hex(s[p + 4]) && is_hex(s[p + 5]) {
            6
        } else {
            0
        }
    } else {
        0
    }
}

/// Whether `c` has a meaning of its own and so cannot stand in bare text.
pub open spec fn is_special(c: char) -> bool {
    c == '$' || c == '(' || c == ')' || c == '[' || c == ']' || c == '{' || c == '}' || c == '\\'
        || c == '"' || c == '\n' || c == ';' || c == '|' || c == '&' || c == '<' || c == '>' || c
        == '#'
}

/// Whether `c` may stand in text: between quotes anything but a quote and
/// a backslash, bare anything but white space and the special characters.
pub open spec fn is_text(c: char, quoted: bool) -> bool {
    if quoted {
        c != '\\' && c != '"'
    } else {
        !is_special(c) && !white_space(c)
    }
}

/// The length of the text at `p`: characters of text and escapes, as many
/// as there are.
pub open spec fn text_len(s: Seq<char>, p: int, quoted: bool) -> nat
    decreases ahead(s, p),
{
    if 0 <= p < s.len() && is_text(s[p], quoted) {
        1 + text_len(s, p + 1, quoted)
    } else if escape_len(s, p) > 0 {
        escape_len(s, p) + text_len(s, p + escape_len(s, p), quoted)
    } else {
        0
    }
}

/// The length of the name at `p`; zero where there is none.
pub open spec fn name_len(s: Seq<char>, p: int) -> nat {
    if 0 <= p < s.len() && name_start(s[p]) {
        1 + run(s, p + 1, Class::NamePart)
    } else {
        0
    }
}

/// One piece of a word at `p`: `$` and a name, text between quotes (given
/// without them, escapes as they were written), or bare text.
pub open spec fn part(s: Seq<char>, p: int) -> Option<(SpecPart, nat)> {
    if at(s, p, '$') {
        let n = name_len(s, p + 1);
        if n > 0 {
            Some((SpecPart::Variable(s.subrange(p + 1, p + 1 + n)), 1 + n))
        } else {
            None
        }
    } else if at(s, p, '"') {
        let n = text_len(s, p + 1, true);
        if at(s, p + 1 + n, '"') {
            Some((SpecPart::String(s.subrange(p + 1, p + 1 + n)), n + 2))
        } else {
            None
        }
    } else {
        let n = text_len(s, p, false);
        if n > 0 {
            Some((SpecPart::String(s.subrange(p, p + n)), n))
        } else {
            None
        }
    }
}

/// The pieces that follow `acc` from `p` on, as many as there are.
pub open spec fn parts(s: Seq<char>, p: int, acc: Seq<SpecPart>) -> (Seq<SpecPart>, nat)
    decreases ahead(s, p),
{
    match part(s, p) {
        Some((x, n)) => if 0 <= p < s.len() && n > 0 {
            let r = parts(s, p + n, acc.push(x));
            (r.0, n + r.1)
        } else {
            (acc, 0)
        },
        None => (acc, 0),
    }
}

/// The primitive at `p`: a number, or else a word of at least one piece.
pub open spec fn primitive(s: Seq<char>, p: int) -> Option<(SpecPrimitive, nat)> {
    match number_len(s, p) {
        Some(n) => Some((SpecPrimitive::Number(s.subrange(p, p + n)), n)),
        None => {
            let r = parts(s, p, Seq::empty());
            if r.0.len() >= 1 {
                Some((SpecPrimitive::FormatString(r.0), r.1))
            } else {
                None
            }
        },
    }
}

/// The names that follow `acc` from `p` on, each after a comma and with
/// white space around it.
pub open spec fn names_more(s: Seq<char>, p: int, acc: Seq<SpecPrimitive>) -> (
    Seq<SpecPrimitive>,
    nat,
)
    decreases ahead(s, p),
{
    if at(s, p, ',') {
        let w = run(s, p + 1, Class::White);
        match primitive(s, p + 1 + w) {
            Some((x, n)) => {
                let t = 1 + w + n + run(s, p + 1 + w + n, Class::White);
                let r = names_more(s, p + t, acc.push(x));
                (r.0, t + r.1)
            },
            None => (acc, 0),
        }
    } else {
        (acc, 0)
    }
}

/// The names of a function's parameters at `p`: in parentheses, with
/// commas between them; none where the parentheses hold nothing.
pub open spec fn names(s: Seq<char>, p: int) -> Option<(Seq<SpecPrimitive>, nat)> {
    if at(s, p, '(') {
        let w = run(s, p + 1, Class::White);
        let r = match primitive(s, p + 1 + w) {
            Some((x, n)) => {
                let t = w + n + run(s, p + 1 + w + n, Class::White);
                let r = names_more(s, p + 1 + t, seq![x]);
                (r.0, t + r.1)
            },
            None => (Seq::empty(), 0),
        };
        if at(s, p + 1 + r.1, ')') {
            Some((r.0, r.1 + 2))
        } else {
            None
        }
    } else {
        None
    }
}

/// Whether the text from `p` to its end is one of the reserved words.
pub open spec fn reserved_alone(s: Seq<char>, p: int) -> bool {
    0 <= p <= s.len() && {
        let w = s.subrange(p, s.len() as int);
        w == "set"@ || w == "if"@ || w == "while"@ || w == "for"@ || w == "loop"@ || w == "break"@
            || w == "continue"@ || w == "return"@ || w == "fn"@
    }
}

/// The sign of each level of operators, from the one that binds tightest.
pub open spec fn operator(level: nat) -> Seq<char> {
    if level == 1 {
        ">"@
    } else if level == 2 {
        "<"@
    } else if level == 3 {
        "|"@
    } else if level == 4 {
        "||"@
    } else {
        "&&"@
    }
}

/// A value that is not indexed: statements in parentheses, or a primitive.
#[verifier::opaque]
pub open spec fn plain_value(s: Seq<char>, p: int) -> Option<(SpecValue, nat)>
    decreases ahead(s, p), 0nat,
{
    if at(s, p, '(') {
        match statements(s, p + 1) {
            Some((b, n)) => if at(s, p + 1 + n, ')') {
                Some((SpecValue::Group(b), n + 2))
            } else {
                None
            },
            None => None,
        }
    } else {
        match primitive(s, p) {
            Some((x, n)) => Some((SpecValue::Primitive(x), n)),
            None => None,
        }
    }
}

/// The indices that follow `acc` from `p` on: each a plain value in
/// square brackets, with spaces around it, applied to what stands before.
#[verifier::opaque]
pub open spec fn indices(s: Seq<char>, p: int, acc: SpecValue) -> (SpecValue, nat)
    decreases ahead(s, p), 1nat,
{
    if at(s, p, '[') {
        let w = run(s, p + 1, Class::Inline);
        match plain_value(s, p + 1 + w) {
            Some((x, n)) => {
                let v = run(s, p + 1 + w + n, Class::Inline);
                if at(s, p + 1 + w + n + v, ']') {
                    let t = 1 + w + n + v + 1;
                    let r = indices(
                        s,
                        p + t,
                        SpecValue::Primitive(
                            SpecPrimitive::Index { value: Box::new(acc), index: Box::new(x) },
                        ),
                    );
                    (r.0, t + r.1)
                } else {
                    (acc, 0)
                }
            },
            None => (acc, 0),
        }
    } else {
        (acc, 0)
    }
}

/// The value at `p`: a plain value and the indices after it.
#[verifier::opaque]
pub open spec fn value(s: Seq<char>, p: int) -> Option<(SpecValue, nat)>
    decreases ahead(s, p), 2nat,
{
    match plain_value(s, p) {
        Some((x, n)) => {
            let r = indices(s, p + n, x);
            Some((r.0, n + r.1))
        },
        None => None,
    }
}

/// The arguments that follow `acc` from `p` on, each after at least one
/// space; the spaces after the last are taken too.
#[verifier::opaque]
pub open spec fn arguments_more(s: Seq<char>, p: int, acc: Seq<SpecValue>) -> (Seq<SpecValue>, nat)
    decreases ahead(s, p), 3nat,
{
    let w = run(s, p, Class::Inline);
    if 0 <= p < s.len() && w >= 1 {
        match value(s, p + w) {
            Some((x, n)) => {
                let r = arguments_more(s, p + w + n, acc.push(x));
                (r.0, w + n + r.1)
            },
            None => (acc, w),
        }
    } else {
        (acc, 0)
    }
}

/// The arguments of a command at `p`: values with spaces between them,
/// also before the first and after the last.
#[verifier::opaque]
pub open spec fn arguments(s: Seq<char>, p: int) -> (Seq<SpecValue>, nat)
    decreases ahead(s, p), 4nat,
{
    let w = run(s, p, Class::Inline);
    match value(s, p + w) {
        Some((x, n)) => {
            let r = arguments_more(s, p + w + n, seq![x]);
            (r.0, w + n + r.1)
        },
        None => (Seq::empty(), w),
    }
}

/// The command at `p`: spaces or none, a value for its name that is not a
/// reserved word at the very end of the text, at least one space, and its
/// arguments.
#[verifier::opaque]
pub open spec fn command(s: Seq<char>, p: int) -> Option<(SpecCommand, nat)>
    decreases ahead(s, p), 5nat,
{
    let w = run(s, p, Class::Inline);
    match value(s, p + w) {
        Some((name, n)) => {
            let v = run(s, p + w + n, Class::Inline);
            if !reserved_alone(s, p + w) && v >= 1 {
                let r = arguments(s, p + w + n + v);
                Some((SpecCommand { name, args: r.0 }, w + n + v + r.1))
            } else {
                None
            }
        },
        None => None,
    }
}

/// The block at `p`: statements in braces, or braces that hold white
/// space only.
#[verifier::opaque]
pub open spec fn block(s: Seq<char>, p: int) -> Option<(Seq<SpecStatement>, nat)>
    decreases ahead(s, p), 6nat,
{
    if at(s, p, '{') {
        match statements(s, p + 1) {
            Some((b, n)) => if at(s, p + 1 + n, '}') {
                Some((b, n + 2))
            } else {
                None
            },
            None => {
                let w = run(s, p + 1, Class::White);
                if at(s, p + 1 + w, '}') {
                    Some((Seq::empty(), w + 2))
                } else {
                    None
                }
            },
        }
    } else {
        None
    }
}

/// What `else` brings at `p`: after the word and at least one space a
/// block, or else statements; nothing where that fails.
#[verifier::opaque]
pub open spec fn otherwise(s: Seq<char>, p: int) -> (Option<Seq<SpecStatement>>, nat)
    decreases ahead(s, p), 7nat,
{
    let k = "else"@.len();
    let w = run(s, p + k, Class::Inline);
    if 0 <= p < s.len() && word_at(s, p, "else"@) && w >= 1 {
        match block(s, p + k + w) {
            Some((b, n)) => (Some(b), k + w + n),
            None => match statements(s, p + k + w) {
                Some((b, n)) => (Some(b), k + w + n),
                None => (None, 0),
            },
        }
    } else {
        (None, 0)
    }
}

/// A block at `p` with spaces before and after it, and what `else` brings
/// after that.
#[verifier::opaque]
pub open spec fn bodies(s: Seq<char>, p: int) -> Option<
    ((Seq<SpecStatement>, Option<Seq<SpecStatement>>), nat),
>
    decreases ahead(s, p), 8nat,
{
    let w = run(s, p, Class::Inline);
    match block(s, p + w) {
        Some((b, n)) => {
            let v = run(s, p + w + n, Class::Inline);
            let e = otherwise(s, p + w + n + v);
            Some(((b, e.0), w + n + v + e.1))
        },
        None => None,
    }
}

/// What follows the word `key` at `p`: at least one space, a command, and
/// the bodies. This is an `if` and a `while`.
#[verifier::opaque]
pub open spec fn guarded(s: Seq<char>, p: int, key: Seq<char>) -> Option<
    ((SpecCommand, Seq<SpecStatement>, Option<Seq<SpecStatement>>), nat),
>
    decreases ahead(s, p), 9nat,
{
    let k = key.len();
    let w = run(s, p + k, Class::Inline);
    if word_at(s, p, key) && w >= 1 {
        match command(s, p + k + w) {
            Some((c, n)) => match bodies(s, p + k + w + n) {
                Some((b, m)) => Some(((c, b.0, b.1), k + w + n + m)),
                None => None,
            },
            None => None,
        }
    } else {
        None
    }
}

/// The `for` statement at `p`: the word, at least one space, the name,
/// `in` with white space around it, the value to run over, and the bodies.
#[verifier::opaque]
pub open spec fn for_each(s: Seq<char>, p: int) -> Option<(SpecStatement, nat)>
    decreases ahead(s, p), 9nat,
{
    let k = "for"@.len();
    let w = run(s, p + k, Class::Inline);
    if word_at(s, p, "for"@) && w >= 1 {
        match primitive(s, p + k + w) {
            Some((name, n)) => {
                let a = p + k + w + n;
                let u = run(s, a, Class::White);
                let i = "in"@.len();
                let v = run(s, a + u + i, Class::White);
                if word_at(s, a + u, "in"@) {
                    match value(s, a + u + i + v) {
                        Some((iterable, m)) => match bodies(s, a + u + i + v + m) {
                            Some((b, l)) => Some(
                                (
                                    SpecStatement::For {
                                        name,
                                        iterable,
                                        body: b.0,
                                        else_body: b.1,
                                    },
                                    k + w + n + u + i + v + m + l,
                                ),
                            ),
                            None => None,
                        },
                        None => None,
                    }
                } else {
                    None
                }
            },
            None => None,
        }
    } else {
        None
    }
}

/// The `loop` statement at `p`: the word and a block with spaces before
/// and after it.
#[verifier::opaque]
pub open spec fn forever(s: Seq<char>, p: int) -> Option<(SpecStatement, nat)>
    decreases ahead(s, p), 9nat,
{
    let k = "loop"@.len();
    let w = run(s, p + k, Class::Inline);
    if word_at(s, p, "loop"@) {
        match block(s, p + k + w) {
            Some((b, n)) => Some(
                (SpecStatement::Loop { body: b }, k + w + n + run(s, p + k + w + n, Class::Inline)),
            ),
            None => None,
        }
    } else {
        None
    }
}

/// What can stand on either side of an operator: the first that succeeds
/// of `if`, `while`, `for`, `loop` and a command.
#[verifier::opaque]
pub open spec fn simple(s: Seq<char>, p: int) -> Option<(SpecStatement, nat)>
    decreases ahead(s, p), 10nat,
{
    match guarded(s, p, "if"@) {
        Some((x, n)) => Some(
            (SpecStatement::If { condition: x.0, body: x.1, else_body: x.2 }, n),
        ),
        None => match guarded(s, p, "while"@) {
            Some((x, n)) => Some(
                (SpecStatement::While { condition: x.0, body: x.1, else_body: x.2 }, n),
            ),
            None => match for_each(s, p) {
                Some(r) => Some(r),
                None => match forever(s, p) {
                    Some(r) => Some(r),
                    None => match command(s, p) {
                        Some((c, n)) => Some((SpecStatement::Command(c), n)),
                        None => None,
                    },
                },
            },
        },
    }
}

/// A simple statement at `p` with spaces before and after it.
#[verifier::opaque]
pub open spec fn padded(s: Seq<char>, p: int) -> Option<(SpecStatement, nat)>
    decreases ahead(s, p), 11nat,
{
    let w = run(s, p, Class::Inline);
    match simple(s, p + w) {
        Some((x, n)) => Some((x, w + n + run(s, p + w + n, Class::Inline))),
        None => None,
    }
}

/// The statement that `lhs`, an operator of the level and a file make.
pub open spec fn redirected(level: nat, lhs: SpecStatement, file: SpecValue) -> SpecStatement {
    if level == 1 {
        SpecStatement::TargetFilePipe { cmd: Some(Box::new(lhs)), target: file, overwrite: false }
    } else {
        SpecStatement::SourceFilePipe { cmd: Some(Box::new(lhs)), source: file }
    }
}

/// The statement that `lhs`, an operator of the level and `rhs` make.
pub open spec fn linked(level: nat, lhs: SpecStatement, rhs: SpecStatement) -> SpecStatement {
    if level == 3 {
        SpecStatement::CommandPipe { lhs: Box::new(lhs), rhs: Box::new(rhs) }
    } else if level == 4 {
        SpecStatement::Or { lhs: Box::new(lhs), rhs: Box::new(rhs) }
    } else {
        SpecStatement::And { lhs: Box::new(lhs), rhs: Box::new(rhs) }
    }
}

/// The statement at `p` that holds operators up to the level: one of the
/// level below, and what follows it. Level 0 has no operator.
#[verifier::opaque]
pub open spec fn chain(s: Seq<char>, p: int, level: nat) -> Option<(SpecStatement, nat)>
    decreases ahead(s, p), 13 + 2 * level,
{
    if level == 0 {
        padded(s, p)
    } else {
        match chain(s, p, (level - 1) as nat) {
            Some((x, n)) => {
                let r = chain_more(s, p + n, level, x);
                Some((r.0, n + r.1))
            },
            None => None,
        }
    }
}

/// What follows `acc` from `p` on at the level: as often as it can be, the
/// operator with spaces around it and its right side, which is a value for
/// `>` and `<` and a statement of the level below for the others. Each is
/// joined to what stands before it.
#[verifier::opaque]
pub open spec fn chain_more(s: Seq<char>, p: int, level: nat, acc: SpecStatement) -> (
    SpecStatement,
    nat,
)
    decreases ahead(s, p), 12 + 2 * level,
{
    let w = run(s, p, Class::Inline);
    let k = operator(level).len();
    let v = run(s, p + w + k, Class::Inline);
    let q = p + w + k + v;
    if level >= 1 && 0 <= p < s.len() && k >= 1 && word_at(s, p + w, operator(level)) {
        if level <= 2 {
            match value(s, q) {
                Some((x, n)) => {
                    let r = chain_more(s, q + n, level, redirected(level, acc, x));
                    (r.0, w + k + v + n + r.1)
                },
                None => (acc, 0),
            }
        } else {
            match chain(s, q, (level - 1) as nat) {
                Some((x, n)) => {
                    let r = chain_more(s, q + n, level, linked(level, acc, x));
                    (r.0, w + k + v + n + r.1)
                },
                None => (acc, 0),
            }
        }
    } else {
        (acc, 0)
    }
}

/// The `set` statement at `p`: the word, at least one space, the name, `=`
/// with spaces around it, and the value.
#[verifier::opaque]
pub open spec fn setting(s: Seq<char>, p: int) -> Option<(SpecStatement, nat)>
    decreases ahead(s, p), 30nat,
{
    let k = "set"@.len();
    let w = run(s, p + k, Class::Inline);
    if word_at(s, p, "set"@) && w >= 1 {
        match primitive(s, p + k + w) {
            Some((name, n)) => {
                let a = p + k + w + n;
                let u = run(s, a, Class::Inline);
                let v = run(s, a + u + 1, Class::Inline);
                if at(s, a + u, '=') {
                    match value(s, a + u + 1 + v) {
                        Some((x, m)) => Some(
                            (SpecStatement::SetVar { name, value: x }, k + w + n + u + 1 + v + m),
                        ),
                        None => None,
                    }
                } else {
                    None
                }
            },
            None => None,
        }
    } else {
        None
    }
}

/// The definition of a function at `p`: `fn`, at least one space, its
/// name, its parameters, and its block with spaces before and after it.
#[verifier::opaque]
pub open spec fn definition(s: Seq<char>, p: int) -> Option<(SpecStatement, nat)>
    decreases ahead(s, p), 30nat,
{
    let k = "fn"@.len();
    let w = run(s, p + k, Class::Inline);
    let a = p + k + w;
    let n = name_len(s, a);
    if word_at(s, p, "fn"@) && w >= 1 && n >= 1 {
        match names(s, a + n) {
            Some((args, m)) => {
                let u = run(s, a + n + m, Class::Inline);
                match block(s, a + n + m + u) {
                    Some((body, l)) => Some(
                        (
                            SpecStatement::Function { called: s.subrange(a, a + n), args, body },
                            k + w + n + m + u + l + run(s, a + n + m + u + l, Class::Inline),
                        ),
                    ),
                    None => None,
                }
            },
            None => None,
        }
    } else {
        None
    }
}

/// The `return` statement at `p`: the word, at least one space, and a
/// value or none.
#[verifier::opaque]
pub open spec fn returning(s: Seq<char>, p: int) -> Option<(SpecStatement, nat)>
    decreases ahead(s, p), 30nat,
{
    let k = "return"@.len();
    let w = run(s, p + k, Class::Inline);
    if word_at(s, p, "return"@) && w >= 1 {
        match value(s, p + k + w) {
            Some((x, n)) => Some((SpecStatement::Return(Some(x)), k + w + n)),
            None => Some((SpecStatement::Return(None), k + w)),
        }
    } else {
        None
    }
}

/// The statement at `p`: the first that succeeds of `set`, a definition,
/// `return`, `break`, `continue`, and a chain of all operators.
#[verifier::opaque]
pub open spec fn statement(s: Seq<char>, p: int) -> Option<(SpecStatement, nat)>
    decreases ahead(s, p), 31nat,
{
    match setting(s, p) {
        Some(r) => Some(r),
        None => match definition(s, p) {
            Some(r) => Some(r),
            None => match returning(s, p) {
                Some(r) => Some(r),
                None => if word_at(s, p, "break"@) {
                    Some((SpecStatement::Break, "break"@.len()))
                } else if word_at(s, p, "continue"@) {
                    Some((SpecStatement::Continue, "continue"@.len()))
                } else {
                    chain(s, p, 5)
                },
            },
        },
    }
}

/// A statement at `p` with spaces before and after it.
#[verifier::opaque]
pub open spec fn item(s: Seq<char>, p: int) -> Option<(SpecStatement, nat)>
    decreases ahead(s, p), 32nat,
{
    let w = run(s, p, Class::Inline);
    match statement(s, p + w) {
        Some((x, n)) => Some((x, w + n + run(s, p + w + n, Class::Inline))),
        None => None,
    }
}

/// The statements that follow `acc` from `p` on, each after at least one
/// end of line; the ends of line after the last are taken too.
#[verifier::opaque]
pub open spec fn statements_more(s: Seq<char>, p: int, acc: Seq<SpecStatement>) -> (
    Seq<SpecStatement>,
    nat,
)
    decreases ahead(s, p), 33nat,
{
    let e = run(s, p, Class::Eol);
    if 0 <= p < s.len() && e >= 1 {
        match item(s, p + e) {
            Some((x, n)) => {
                let r = statements_more(s, p + e + n, acc.push(x));
                (r.0, e + n + r.1)
            },
            None => (acc, e),
        }
    } else {
        (acc, 0)
    }
}

/// The statements at `p`: at least one, with ends of line between them,
/// also before the first and after the last.
#[verifier::opaque]
pub open spec fn statements(s: Seq<char>, p: int) -> Option<(Seq<SpecStatement>, nat)>
    decreases ahead(s, p), 34nat,
{
    let e = run(s, p, Class::Eol);
    match item(s, p + e) {
        Some((x, n)) => {
            let r = statements_more(s, p + e + n, seq![x]);
            Some((r.0, e + n + r.1))
        },
        None => None,
    }
}

/// The statements that the whole of `s` is, if it is any.
pub open spec fn script(s: Seq<char>) -> Option<Seq<SpecStatement>> {
    match statements(s, 0) {
        Some((b, n)) => if n == s.len() {
            Some(b)
        } else {
            None
        },
        None => None,
    }
}

} // verus!
