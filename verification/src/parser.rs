//! The reader of the script notation: from a text to its statements.
//!
//! Every routine here reads one phrase of `notation` at a place of the
//! text and is proved to give what the phrase is there.
use vstd::prelude::*;
use crate::notation::{
    ahead, arguments, arguments_more, at, belongs, block, bodies, chain, chain_more, command,
    definition, escape_len, exponent_len, for_each, forever, fraction_len, guarded, indices,
    is_hex, is_name_part, is_name_start, is_text, item, name_len, names,
    names_more, number_len, operator, otherwise, padded, part, parts, plain_value, primitive,
    reserved_alone, returning, run, script, setting, simple, statement, statements,
    statements_more, text_len, value, whole_len, word_at, Class,
};
use crate::statements::{
    bindables_view, body_view, parts_view, push_bindable, push_part, push_statement, push_value,
    statements_view, values_view, Bindable, Command, FormatStringPart, Primitive, Statement, Value,
};
use crate::text::{chars_of, is_white_space, string_of};

verus! {

/// Whether `c` is of the class.
fn is_of(c: char, class: Class) -> (b: bool)
    ensures
        b == belongs(c, class),
{
    match class {
        Class::Inline => c == ' ' || c == '\t',
        Class::White => is_white_space(c),
        Class::Decimal => '0' <= c && c <= '9',
        Class::Eol => c == '\n' || c == '\r' || c == ';',
        Class::NamePart => is_name_part(c),
    }
}

/// How many characters of the class stand in a row at `p`.
fn skip(src: &Vec<char>, p: usize, class: Class) -> (n: usize)
    requires
        p <= src.len(),
    ensures
        n == run(src@, p as int, class),
        p + n <= src.len(),
{
    let mut i: usize = p;
    while i < src.len() && is_of(src[i], class)
        invariant
            p <= i <= src.len(),
            run(src@, p as int, class) == (i - p) + run(src@, i as int, class),
        decreases src.len() - i,
    {
        i += 1;
    }
    i - p
}

/// Whether the character at `p` is `c`.
fn is_at(src: &Vec<char>, p: usize, c: char) -> (b: bool)
    ensures
        b == at(src@, p as int, c),
{
    p < src.len() && src[p] == c
}

/// The length of `w` if its characters stand at `p`.
fn take_word(src: &Vec<char>, p: usize, w: &str) -> (n: Option<usize>)
    requires
        p <= src.len(),
    ensures
        match n {
            Some(k) => word_at(src@, p as int, w@) && k == w@.len() && p + k <= src.len(),
            None => !word_at(src@, p as int, w@),
        },
{
    let word = chars_of(w);
    let k = word.len();
    if k > src.len() - p {
        return None;
    }
    let mut i: usize = 0;
    while i < k
        invariant
            i <= k,
            k == word.len(),
            word@ == w@,
            p + k <= src.len(),
            forall|j: int| 0 <= j < i ==> src@[p + j] == word@[j],
        decreases k - i,
    {
        if src[p + i] != word[i] {
            proof {
                assert(src@.subrange(p as int, p + k)[i as int] == src@[p + i]);
            }
            return None;
        }
        i += 1;
    }
    proof {
        assert(src@.subrange(p as int, p + k) =~= w@);
    }
    Some(k)
}

/// The length of the whole number at `p`.
fn whole(src: &Vec<char>, p: usize) -> (n: Option<usize>)
    requires
        p <= src.len(),
    ensures
        match n {
            Some(k) => whole_len(src@, p as int) == Some(k as nat) && p + k <= src.len(),
            None => whole_len(src@, p as int) is None,
        },
{
    if p < src.len() && '0' <= src[p] && src[p] <= '9' && src[p] != '0' {
        let n = skip(src, p + 1, Class::Decimal);
        Some(1 + n)
    } else if is_at(src, p, '0') {
        Some(1)
    } else {
        None
    }
}

/// The length of the fraction at `p`.
fn fraction(src: &Vec<char>, p: usize) -> (n: usize)
    requires
        p <= src.len(),
    ensures
        n == fraction_len(src@, p as int),
        p + n <= src.len(),
{
    if is_at(src, p, '.') {
        let n = skip(src, p + 1, Class::Decimal);
        if n >= 1 {
            1 + n
        } else {
            0
        }
    } else {
        0
    }
}

/// The length of the exponent at `p`.
fn exponent(src: &Vec<char>, p: usize) -> (n: usize)
    requires
        p <= src.len(),
    ensures
        n == exponent_len(src@, p as int),
        p + n <= src.len(),
{
    if is_at(src, p, 'e') || is_at(src, p, 'E') {
        let g: usize = if is_at(src, p + 1, '+') || is_at(src, p + 1, '-') {
            1
        } else {
            0
        };
        let n = skip(src, p + 1 + g, Class::Decimal);
        if n >= 1 {
            1 + g + n
        } else {
            0
        }
    } else {
        0
    }
}

/// The length of the number at `p`.
fn number(src: &Vec<char>, p: usize) -> (n: Option<usize>)
    requires
        p <= src.len(),
    ensures
        match n {
            Some(k) => number_len(src@, p as int) == Some(k as nat) && p + k <= src.len(),
            None => number_len(src@, p as int) is None,
        },
{
    let m: usize = if is_at(src, p, '-') {
        1
    } else {
        0
    };
    match whole(src, p + m) {
        Some(n) => {
            let f = fraction(src, p + m + n);
            let e = exponent(src, p + m + n + f);
            Some(m + n + f + e)
        },
        None => None,
    }
}

/// Whether `c` is a hexadecimal digit.
fn is_hex_digit(c: char) -> (b: bool)
    ensures
        b == is_hex(c),
{
    ('0' <= c && c <= '9') || ('a' <= c && c <= 'f') || ('A' <= c && c <= 'F')
}

/// The length of the escape at `p`.
fn escape(src: &Vec<char>, p: usize) -> (n: usize)
    requires
        p <= src.len(),
    ensures
        n == escape_len(src@, p as int),
        p + n <= src.len(),
{
    if is_at(src, p, '\\') && p + 1 < src.len() {
        let c = src[p + 1];
        if c == '\\' || c == '/' || c == '"' || c == 'b' || c == 'f' || c == 'n' || c == 'r' || c
            == 't' {
            2
        } else if c == 'u' && src.len() - p >= 6 && is_hex_digit(src[p + 2]) && is_hex_digit(
            src[p + 3],
        ) && is_hex_digit(src[p + 4]) && is_hex_digit(src[p + 5]) {
            6
        } else {
            0
        }
    } else {
        0
    }
}

/// Whether `c` may stand in text.
fn is_text_char(c: char, quoted: bool) -> (b: bool)
    ensures
        b == is_text(c, quoted),
{
    if quoted {
        c != '\\' && c != '"'
    } else {
        !(c == '$' || c == '(' || c == ')' || c == '[' || c == ']' || c == '{' || c == '}' || c
            == '\\' || c == '"' || c == '\n' || c == ';' || c == '|' || c == '&' || c == '<' || c
            == '>' || c == '#') && !is_white_space(c)
    }
}

/// The length of the text at `p`.
fn text(src: &Vec<char>, p: usize, quoted: bool) -> (n: usize)
    requires
        p <= src.len(),
    ensures
        n == text_len(src@, p as int, quoted),
        p + n <= src.len(),
{
    let mut i: usize = p;
    loop
        invariant_except_break
            text_len(src@, p as int, quoted) == (i - p) + text_len(src@, i as int, quoted),
        invariant
            p <= i <= src.len(),
        ensures
            text_len(src@, p as int, quoted) == i - p,
        decreases src.len() - i,
    {
        if i < src.len() && is_text_char(src[i], quoted) {
            i += 1;
        } else {
            let e = escape(src, i);
            if e > 0 {
                i += e;
            } else {
                break ;
            }
        }
    }
    i - p
}

/// The length of the name at `p`.
fn name(src: &Vec<char>, p: usize) -> (n: usize)
    requires
        p <= src.len(),
    ensures
        n == name_len(src@, p as int),
        p + n <= src.len(),
{
    if p < src.len() && is_name_start(src[p]) {
        1 + skip(src, p + 1, Class::NamePart)
    } else {
        0
    }
}

/// One piece of a word at `p`.
fn read_part(src: &Vec<char>, p: usize) -> (res: Option<(FormatStringPart, usize)>)
    requires
        p <= src.len(),
    ensures
        match res {
            Some((x, n)) => part(src@, p as int) == Some((x@, n as nat)) && p + n <= src.len(),
            None => part(src@, p as int) is None,
        },
{
    if is_at(src, p, '$') {
        let n = name(src, p + 1);
        if n > 0 {
            Some((FormatStringPart::Variable(string_of(src, p + 1, p + 1 + n)), 1 + n))
        } else {
            None
        }
    } else if is_at(src, p, '"') {
        let n = text(src, p + 1, true);
        if is_at(src, p + 1 + n, '"') {
            Some((FormatStringPart::String(string_of(src, p + 1, p + 1 + n)), n + 2))
        } else {
            None
        }
    } else {
        let n = text(src, p, false);
        if n > 0 {
            Some((FormatStringPart::String(string_of(src, p, p + n)), n))
        } else {
            None
        }
    }
}

/// The pieces of a word at `p`, as many as there are.
fn read_parts(src: &Vec<char>, p: usize) -> (res: (Vec<FormatStringPart>, usize))
    requires
        p <= src.len(),
    ensures
        parts(src@, p as int, Seq::empty()) == (parts_view(res.0@), res.1 as nat),
        p + res.1 <= src.len(),
{
    let mut acc: Vec<FormatStringPart> = Vec::new();
    let mut i: usize = p;
    assert(parts_view(acc@) =~= Seq::empty());
    loop
        invariant_except_break
            ({
                let r = parts(src@, i as int, parts_view(acc@));
                parts(src@, p as int, Seq::empty()) == (r.0, ((i - p) + r.1) as nat)
            }),
        invariant
            p <= i <= src.len(),
        ensures
            parts(src@, p as int, Seq::empty()) == (parts_view(acc@), (i - p) as nat),
        decreases src.len() - i,
    {
        match read_part(src, i) {
            Some((x, n)) => {
                if i < src.len() && n > 0 {
                    push_part(&mut acc, x);
                    i += n;
                } else {
                    break ;
                }
            },
            None => {
                break ;
            },
        }
    }
    (acc, i - p)
}

/// The primitive at `p`.
pub fn read_primitive(src: &Vec<char>, p: usize) -> (res: Option<(Primitive, usize)>)
    requires
        p <= src.len(),
    ensures
        match res {
            Some((x, n)) => primitive(src@, p as int) == Some((x@, n as nat)) && p + n
                <= src.len(),
            None => primitive(src@, p as int) is None,
        },
{
    match number(src, p) {
        Some(n) => Some((Primitive::number(string_of(src, p, p + n)), n)),
        None => {
            let (found, n) = read_parts(src, p);
            if found.len() >= 1 {
                Some((Primitive::word(found), n))
            } else {
                None
            }
        },
    }
}

/// The names of a function's parameters at `p`.
fn read_names(src: &Vec<char>, p: usize) -> (res: Option<(Vec<Bindable>, usize)>)
    requires
        p <= src.len(),
    ensures
        match res {
            Some((x, n)) => names(src@, p as int) == Some((bindables_view(x@), n as nat)) && p + n
                <= src.len(),
            None => names(src@, p as int) is None,
        },
{
    if !is_at(src, p, '(') {
        return None;
    }
    let mut acc: Vec<Bindable> = Vec::new();
    let w = skip(src, p + 1, Class::White);
    let mut i: usize = p + 1;
    assert(bindables_view(acc@) =~= Seq::empty());
    match read_primitive(src, p + 1 + w) {
        Some((x, n)) => {
            let v = skip(src, p + 1 + w + n, Class::White);
            let ghost first = x@;
            proof {
                assert(bindables_view(acc@).push(first) =~= seq![first]);
            }
            push_bindable(&mut acc, x);
            i = p + 1 + w + n + v;
            loop
                invariant_except_break
                    ({
                        let r = names_more(src@, i as int, bindables_view(acc@));
                        let t = p + 1 + w + n + v;
                        names_more(src@, t, seq![first]) == (r.0, ((i - t) + r.1) as nat)
                    }),
                invariant
                    p + 1 + w + n + v <= i <= src.len(),
                ensures
                    names_more(src@, p + 1 + w + n + v, seq![first]) == (
                        bindables_view(acc@),
                        (i - (p + 1 + w + n + v)) as nat,
                    ),
                decreases src.len() - i,
            {
                if !is_at(src, i, ',') {
                    break ;
                }
                let a = skip(src, i + 1, Class::White);
                match read_primitive(src, i + 1 + a) {
                    Some((y, m)) => {
                        let b = skip(src, i + 1 + a + m, Class::White);
                        push_bindable(&mut acc, y);
                        i = i + 1 + a + m + b;
                    },
                    None => {
                        break ;
                    },
                }
            }
        },
        None => {},
    }
    if is_at(src, i, ')') {
        Some((acc, i - p + 1))
    } else {
        None
    }
}

/// Whether the text from `p` to its end is the word `w`.
fn ends_with(src: &Vec<char>, p: usize, w: &str) -> (b: bool)
    requires
        p <= src.len(),
    ensures
        b == (src@.subrange(p as int, src.len() as int) == w@),
{
    match take_word(src, p, w) {
        Some(k) => {
            proof {
                if p + k != src.len() {
                    assert(src@.subrange(p as int, src.len() as int).len() != w@.len());
                }
            }
            p + k == src.len()
        },
        None => {
            proof {
                if src@.subrange(p as int, src.len() as int) == w@ {
                    assert(src@.subrange(p as int, src.len() as int).len() == w@.len());
                    assert(word_at(src@, p as int, w@));
                }
            }
            false
        },
    }
}

/// Whether the text from `p` to its end is one of the reserved words.
fn is_reserved_alone(src: &Vec<char>, p: usize) -> (b: bool)
    requires
        p <= src.len(),
    ensures
        b == reserved_alone(src@, p as int),
{
    ends_with(src, p, "set") || ends_with(src, p, "if") || ends_with(src, p, "while") || ends_with(
        src,
        p,
        "for",
    ) || ends_with(src, p, "loop") || ends_with(src, p, "break") || ends_with(src, p, "continue")
        || ends_with(src, p, "return") || ends_with(src, p, "fn")
}

/// The sign of each level of operators.
fn operator_of(level: u8) -> (w: &'static str)
    ensures
        w@ == operator(level as nat),
{
    if level == 1 {
        ">"
    } else if level == 2 {
        "<"
    } else if level == 3 {
        "|"
    } else if level == 4 {
        "||"
    } else {
        "&&"
    }
}

/// A value that is not indexed, at `p`.
#[verifier::spinoff_prover]
pub fn read_plain_value(src: &Vec<char>, p: usize) -> (res: Option<(Value, usize)>)
    requires
        p <= src.len(),
    ensures
        match res {
            Some((x, n)) => plain_value(src@, p as int) == Some((x@, n as nat)) && p + n
                <= src.len(),
            None => plain_value(src@, p as int) is None,
        },
    decreases ahead(src@, p as int), 0nat,
{
    reveal(plain_value);
    reveal(statements);
    if is_at(src, p, '(') {
        match read_statements(src, p + 1) {
            Some((b, n)) => {
                if is_at(src, p + 1 + n, ')') {
                    Some((Value::group(b), n + 2))
                } else {
                    None
                }
            },
            None => None,
        }
    } else {
        match read_primitive(src, p) {
            Some((x, n)) => Some((Value::primitive(x), n)),
            None => None,
        }
    }
}

/// The value at `p`.
#[verifier::spinoff_prover]
pub fn read_value(src: &Vec<char>, p: usize) -> (res: Option<(Value, usize)>)
    requires
        p <= src.len(),
    ensures
        match res {
            Some((x, n)) => value(src@, p as int) == Some((x@, n as nat)) && p + n <= src.len(),
            None => value(src@, p as int) is None,
        },
    decreases ahead(src@, p as int), 2nat,
{
    reveal(value);
    reveal(plain_value);
    reveal(indices);
    match read_plain_value(src, p) {
        None => None,
        Some((x, n)) => {
            let ghost first = x@;
            let mut acc = x;
            let mut i: usize = p + n;
            loop
                invariant_except_break
                    ({
                        let r = indices(src@, i as int, acc@);
                        indices(src@, p + n, first) == (r.0, ((i - (p + n)) + r.1) as nat)
                    }),
                invariant
                    p + n <= i <= src.len(),
                ensures
                    indices(src@, p + n, first) == (acc@, (i - (p + n)) as nat),
                decreases src.len() - i,
            {
                reveal(indices);
                reveal(plain_value);
                if !is_at(src, i, '[') {
                    break ;
                }
                let w = skip(src, i + 1, Class::Inline);
                match read_plain_value(src, i + 1 + w) {
                    Some((y, m)) => {
                        let v = skip(src, i + 1 + w + m, Class::Inline);
                        if is_at(src, i + 1 + w + m + v, ']') {
                            acc = Value::indexed(acc, y);
                            i = i + 1 + w + m + v + 1;
                        } else {
                            break ;
                        }
                    },
                    None => {
                        break ;
                    },
                }
            }
            Some((acc, i - p))
        },
    }
}

/// The arguments of a command at `p`.
#[verifier::spinoff_prover]
pub fn read_arguments(src: &Vec<char>, p: usize) -> (res: (Vec<Value>, usize))
    requires
        p <= src.len(),
    ensures
        arguments(src@, p as int) == (values_view(res.0@), res.1 as nat),
        p + res.1 <= src.len(),
    decreases ahead(src@, p as int), 4nat,
{
    reveal(arguments);
    reveal(value);
    reveal(arguments_more);
    let mut acc: Vec<Value> = Vec::new();
    let w = skip(src, p, Class::Inline);
    assert(values_view(acc@) =~= Seq::empty());
    match read_value(src, p + w) {
        None => (acc, w),
        Some((x, n)) => {
            let ghost first = x@;
            proof {
                assert(values_view(acc@).push(first) =~= seq![first]);
            }
            push_value(&mut acc, x);
            let mut i: usize = p + w + n;
            loop
                invariant_except_break
                    ({
                        let r = arguments_more(src@, i as int, values_view(acc@));
                        arguments_more(src@, p + w + n, seq![first]) == (
                            r.0,
                            ((i - (p + w + n)) + r.1) as nat,
                        )
                    }),
                invariant
                    p + w + n <= i <= src.len(),
                ensures
                    arguments_more(src@, p + w + n, seq![first]) == (
                        values_view(acc@),
                        (i - (p + w + n)) as nat,
                    ),
                decreases src.len() - i,
            {
                reveal(arguments_more);
                reveal(value);
                let a = skip(src, i, Class::Inline);
                if !(i < src.len() && a >= 1) {
                    break ;
                }
                match read_value(src, i + a) {
                    Some((y, m)) => {
                        push_value(&mut acc, y);
                        i = i + a + m;
                    },
                    None => {
                        i = i + a;
                        break ;
                    },
                }
            }
            (acc, i - p)
        },
    }
}

/// The command at `p`.
#[verifier::spinoff_prover]
pub fn read_command(src: &Vec<char>, p: usize) -> (res: Option<(Command, usize)>)
    requires
        p <= src.len(),
    ensures
        match res {
            Some((x, n)) => command(src@, p as int) == Some((x@, n as nat)) && p + n <= src.len(),
            None => command(src@, p as int) is None,
        },
    decreases ahead(src@, p as int), 5nat,
{
    reveal(command);
    reveal(value);
    reveal(arguments);
    let w = skip(src, p, Class::Inline);
    match read_value(src, p + w) {
        None => None,
        Some((name, n)) => {
            let v = skip(src, p + w + n, Class::Inline);
            if !is_reserved_alone(src, p + w) && v >= 1 {
                let (args, m) = read_arguments(src, p + w + n + v);
                Some((Command::new(name, args), w + n + v + m))
            } else {
                None
            }
        },
    }
}

/// The block at `p`.
#[verifier::spinoff_prover]
pub fn read_block(src: &Vec<char>, p: usize) -> (res: Option<(Vec<Statement>, usize)>)
    requires
        p <= src.len(),
    ensures
        match res {
            Some((x, n)) => block(src@, p as int) == Some((statements_view(x@), n as nat)) && p
                + n <= src.len(),
            None => block(src@, p as int) is None,
        },
    decreases ahead(src@, p as int), 6nat,
{
    reveal(block);
    reveal(statements);
    if !is_at(src, p, '{') {
        return None;
    }
    match read_statements(src, p + 1) {
        Some((b, n)) => {
            if is_at(src, p + 1 + n, '}') {
                Some((b, n + 2))
            } else {
                None
            }
        },
        None => {
            let w = skip(src, p + 1, Class::White);
            if is_at(src, p + 1 + w, '}') {
                let b: Vec<Statement> = Vec::new();
                assert(statements_view(b@) =~= Seq::empty());
                Some((b, w + 2))
            } else {
                None
            }
        },
    }
}

/// What `else` brings at `p`.
#[verifier::spinoff_prover]
pub fn read_otherwise(src: &Vec<char>, p: usize) -> (res: (Option<Vec<Statement>>, usize))
    requires
        p <= src.len(),
    ensures
        otherwise(src@, p as int) == (body_view(res.0), res.1 as nat),
        p + res.1 <= src.len(),
    decreases ahead(src@, p as int), 7nat,
{
    reveal(otherwise);
    reveal(block);
    reveal(statements);
    match take_word(src, p, "else") {
        None => (None, 0),
        Some(k) => {
            let w = skip(src, p + k, Class::Inline);
            if p < src.len() && w >= 1 {
                match read_block(src, p + k + w) {
                    Some((b, n)) => (Some(b), k + w + n),
                    None => match read_statements(src, p + k + w) {
                        Some((b, n)) => (Some(b), k + w + n),
                        None => (None, 0),
                    },
                }
            } else {
                (None, 0)
            }
        },
    }
}

/// A block at `p` with spaces around it, and what `else` brings.
#[verifier::spinoff_prover]
pub fn read_bodies(src: &Vec<char>, p: usize) -> (res: Option<
    ((Vec<Statement>, Option<Vec<Statement>>), usize),
>)
    requires
        p <= src.len(),
    ensures
        match res {
            Some((x, n)) => bodies(src@, p as int) == Some(
                ((statements_view(x.0@), body_view(x.1)), n as nat),
            ) && p + n <= src.len(),
            None => bodies(src@, p as int) is None,
        },
    decreases ahead(src@, p as int), 8nat,
{
    reveal(bodies);
    reveal(block);
    reveal(otherwise);
    let w = skip(src, p, Class::Inline);
    match read_block(src, p + w) {
        Some((b, n)) => {
            let v = skip(src, p + w + n, Class::Inline);
            let (e, m) = read_otherwise(src, p + w + n + v);
            Some(((b, e), w + n + v + m))
        },
        None => None,
    }
}

/// What follows the word `key` at `p` in an `if` or a `while`.
#[verifier::spinoff_prover]
pub fn read_guarded(src: &Vec<char>, p: usize, key: &str) -> (res: Option<
    ((Command, Vec<Statement>, Option<Vec<Statement>>), usize),
>)
    requires
        p <= src.len(),
    ensures
        match res {
            Some((x, n)) => guarded(src@, p as int, key@) == Some(
                ((x.0@, statements_view(x.1@), body_view(x.2)), n as nat),
            ) && p + n <= src.len(),
            None => guarded(src@, p as int, key@) is None,
        },
    decreases ahead(src@, p as int), 9nat,
{
    reveal(guarded);
    reveal(command);
    reveal(bodies);
    match take_word(src, p, key) {
        None => None,
        Some(k) => {
            let w = skip(src, p + k, Class::Inline);
            if w < 1 {
                return None;
            }
            match read_command(src, p + k + w) {
                Some((c, n)) => match read_bodies(src, p + k + w + n) {
                    Some((b, m)) => Some(((c, b.0, b.1), k + w + n + m)),
                    None => None,
                },
                None => None,
            }
        },
    }
}

/// The `for` statement at `p`.
#[verifier::spinoff_prover]
pub fn read_for(src: &Vec<char>, p: usize) -> (res: Option<(Statement, usize)>)
    requires
        p <= src.len(),
    ensures
        match res {
            Some((x, n)) => for_each(src@, p as int) == Some((x@, n as nat)) && p + n
                <= src.len(),
            None => for_each(src@, p as int) is None,
        },
    decreases ahead(src@, p as int), 9nat,
{
    reveal(for_each);
    reveal(value);
    reveal(bodies);
    match take_word(src, p, "for") {
        None => None,
        Some(k) => {
            let w = skip(src, p + k, Class::Inline);
            if w < 1 {
                return None;
            }
            match read_primitive(src, p + k + w) {
                None => None,
                Some((name, n)) => {
                    let a = p + k + w + n;
                    let u = skip(src, a, Class::White);
                    match take_word(src, a + u, "in") {
                        None => None,
                        Some(i) => {
                            let v = skip(src, a + u + i, Class::White);
                            match read_value(src, a + u + i + v) {
                                None => None,
                                Some((iterable, m)) => match read_bodies(
                                    src,
                                    a + u + i + v + m,
                                ) {
                                    None => None,
                                    Some((b, l)) => Some(
                                        (
                                            Statement::each(name, iterable, b.0, b.1),
                                            k + w + n + u + i + v + m + l,
                                        ),
                                    ),
                                },
                            }
                        },
                    }
                },
            }
        },
    }
}

/// The `loop` statement at `p`.
#[verifier::spinoff_prover]
pub fn read_loop(src: &Vec<char>, p: usize) -> (res: Option<(Statement, usize)>)
    requires
        p <= src.len(),
    ensures
        match res {
            Some((x, n)) => forever(src@, p as int) == Some((x@, n as nat)) && p + n <= src.len(),
            None => forever(src@, p as int) is None,
        },
    decreases ahead(src@, p as int), 9nat,
{
    reveal(forever);
    reveal(block);
    match take_word(src, p, "loop") {
        None => None,
        Some(k) => {
            let w = skip(src, p + k, Class::Inline);
            match read_block(src, p + k + w) {
                Some((b, n)) => {
                    let v = skip(src, p + k + w + n, Class::Inline);
                    Some((Statement::forever(b), k + w + n + v))
                },
                None => None,
            }
        },
    }
}

/// What can stand on either side of an operator, at `p`.
#[verifier::spinoff_prover]
pub fn read_simple(src: &Vec<char>, p: usize) -> (res: Option<(Statement, usize)>)
    requires
        p <= src.len(),
    ensures
        match res {
            Some((x, n)) => simple(src@, p as int) == Some((x@, n as nat)) && p + n <= src.len(),
            None => simple(src@, p as int) is None,
        },
    decreases ahead(src@, p as int), 10nat,
{
    reveal(simple);
    reveal(guarded);
    reveal(for_each);
    reveal(forever);
    reveal(command);
    if let Some((x, n)) = read_guarded(src, p, "if") {
        return Some((Statement::conditional(x.0, x.1, x.2), n));
    }
    if let Some((x, n)) = read_guarded(src, p, "while") {
        return Some((Statement::repeat(x.0, x.1, x.2), n));
    }
    if let Some(r) = read_for(src, p) {
        return Some(r);
    }
    if let Some(r) = read_loop(src, p) {
        return Some(r);
    }
    match read_command(src, p) {
        Some((c, n)) => Some((Statement::command(c), n)),
        None => None,
    }
}

/// A simple statement at `p` with spaces before and after it.
#[verifier::spinoff_prover]
pub fn read_padded(src: &Vec<char>, p: usize) -> (res: Option<(Statement, usize)>)
    requires
        p <= src.len(),
    ensures
        match res {
            Some((x, n)) => padded(src@, p as int) == Some((x@, n as nat)) && p + n <= src.len(),
            None => padded(src@, p as int) is None,
        },
    decreases ahead(src@, p as int), 11nat,
{
    reveal(padded);
    reveal(simple);
    let w = skip(src, p, Class::Inline);
    match read_simple(src, p + w) {
        Some((x, n)) => {
            let v = skip(src, p + w + n, Class::Inline);
            Some((x, w + n + v))
        },
        None => None,
    }
}

/// The statement at `p` that holds operators up to the level.
#[verifier::spinoff_prover]
pub fn read_chain(src: &Vec<char>, p: usize, level: u8) -> (res: Option<(Statement, usize)>)
    requires
        p <= src.len(),
        level <= 5,
    ensures
        match res {
            Some((x, n)) => chain(src@, p as int, level as nat) == Some((x@, n as nat)) && p + n
                <= src.len(),
            None => chain(src@, p as int, level as nat) is None,
        },
    decreases ahead(src@, p as int), 13 + 2 * level,
{
    reveal(chain);
    reveal(padded);
    reveal(value);
    reveal(chain_more);
    if level == 0 {
        return read_padded(src, p);
    }
    match read_chain(src, p, level - 1) {
        None => None,
        Some((x, n)) => {
            let ghost first = x@;
            let mut acc = x;
            let mut i: usize = p + n;
            loop
                invariant_except_break
                    ({
                        let r = chain_more(src@, i as int, level as nat, acc@);
                        chain_more(src@, p + n, level as nat, first) == (
                            r.0,
                            ((i - (p + n)) + r.1) as nat,
                        )
                    }),
                invariant
                    p + n <= i <= src.len(),
                    1 <= level <= 5,
                ensures
                    chain_more(src@, p + n, level as nat, first) == (acc@, (i - (p + n)) as nat),
                decreases src.len() - i,
            {
                reveal(chain_more);
                reveal(chain);
                reveal(value);
                let w = skip(src, i, Class::Inline);
                let k = match take_word(src, i + w, operator_of(level)) {
                    Some(k) => k,
                    None => {
                        break ;
                    },
                };
                if !(i < src.len() && k >= 1) {
                    break ;
                }
                let v = skip(src, i + w + k, Class::Inline);
                let q = i + w + k + v;
                if level <= 2 {
                    match read_value(src, q) {
                        Some((y, m)) => {
                            acc = if level == 1 {
                                Statement::write_to(acc, y)
                            } else {
                                Statement::read_from(acc, y)
                            };
                            i = q + m;
                        },
                        None => {
                            break ;
                        },
                    }
                } else {
                    match read_chain(src, q, level - 1) {
                        Some((y, m)) => {
                            acc = if level == 3 {
                                Statement::pipe(acc, y)
                            } else if level == 4 {
                                Statement::either(acc, y)
                            } else {
                                Statement::both(acc, y)
                            };
                            i = q + m;
                        },
                        None => {
                            break ;
                        },
                    }
                }
            }
            Some((acc, i - p))
        },
    }
}

/// The `set` statement at `p`.
#[verifier::spinoff_prover]
pub fn read_setting(src: &Vec<char>, p: usize) -> (res: Option<(Statement, usize)>)
    requires
        p <= src.len(),
    ensures
        match res {
            Some((x, n)) => setting(src@, p as int) == Some((x@, n as nat)) && p + n <= src.len(),
            None => setting(src@, p as int) is None,
        },
    decreases ahead(src@, p as int), 30nat,
{
    reveal(setting);
    reveal(value);
    match take_word(src, p, "set") {
        None => None,
        Some(k) => {
            let w = skip(src, p + k, Class::Inline);
            if w < 1 {
                return None;
            }
            match read_primitive(src, p + k + w) {
                None => None,
                Some((name, n)) => {
                    let a = p + k + w + n;
                    let u = skip(src, a, Class::Inline);
                    if !is_at(src, a + u, '=') {
                        return None;
                    }
                    let v = skip(src, a + u + 1, Class::Inline);
                    match read_value(src, a + u + 1 + v) {
                        Some((x, m)) => Some((Statement::set(name, x), k + w + n + u + 1 + v + m)),
                        None => None,
                    }
                },
            }
        },
    }
}

/// The definition of a function at `p`.
#[verifier::spinoff_prover]
pub fn read_definition(src: &Vec<char>, p: usize) -> (res: Option<(Statement, usize)>)
    requires
        p <= src.len(),
    ensures
        match res {
            Some((x, n)) => definition(src@, p as int) == Some((x@, n as nat)) && p + n
                <= src.len(),
            None => definition(src@, p as int) is None,
        },
    decreases ahead(src@, p as int), 30nat,
{
    reveal(definition);
    reveal(block);
    match take_word(src, p, "fn") {
        None => None,
        Some(k) => {
            let w = skip(src, p + k, Class::Inline);
            let a = p + k + w;
            let n = name(src, a);
            if w < 1 || n < 1 {
                return None;
            }
            match read_names(src, a + n) {
                None => None,
                Some((args, m)) => {
                    let u = skip(src, a + n + m, Class::Inline);
                    match read_block(src, a + n + m + u) {
                        None => None,
                        Some((body, l)) => {
                            let v = skip(src, a + n + m + u + l, Class::Inline);
                            Some(
                                (
                                    Statement::function(string_of(src, a, a + n), args, body),
                                    k + w + n + m + u + l + v,
                                ),
                            )
                        },
                    }
                },
            }
        },
    }
}

/// The `return` statement at `p`.
#[verifier::spinoff_prover]
pub fn read_returning(src: &Vec<char>, p: usize) -> (res: Option<(Statement, usize)>)
    requires
        p <= src.len(),
    ensures
        match res {
            Some((x, n)) => returning(src@, p as int) == Some((x@, n as nat)) && p + n
                <= src.len(),
            None => returning(src@, p as int) is None,
        },
    decreases ahead(src@, p as int), 30nat,
{
    reveal(returning);
    reveal(value);
    match take_word(src, p, "return") {
        None => None,
        Some(k) => {
            let w = skip(src, p + k, Class::Inline);
            if w < 1 {
                return None;
            }
            match read_value(src, p + k + w) {
                Some((x, n)) => Some((Statement::give_back(Some(x)), k + w + n)),
                None => Some((Statement::give_back(None), k + w)),
            }
        },
    }
}

/// The statement at `p`.
#[verifier::spinoff_prover]
pub fn read_statement(src: &Vec<char>, p: usize) -> (res: Option<(Statement, usize)>)
    requires
        p <= src.len(),
    ensures
        match res {
            Some((x, n)) => statement(src@, p as int) == Some((x@, n as nat)) && p + n
                <= src.len(),
            None => statement(src@, p as int) is None,
        },
    decreases ahead(src@, p as int), 31nat,
{
    reveal(statement);
    reveal(setting);
    reveal(definition);
    reveal(returning);
    reveal(chain);
    if let Some(r) = read_setting(src, p) {
        return Some(r);
    }
    if let Some(r) = read_definition(src, p) {
        return Some(r);
    }
    if let Some(r) = read_returning(src, p) {
        return Some(r);
    }
    if let Some(k) = take_word(src, p, "break") {
        return Some((Statement::leave(), k));
    }
    if let Some(k) = take_word(src, p, "continue") {
        return Some((Statement::go_on(), k));
    }
    read_chain(src, p, 5)
}

/// A statement at `p` with spaces before and after it.
#[verifier::spinoff_prover]
pub fn read_item(src: &Vec<char>, p: usize) -> (res: Option<(Statement, usize)>)
    requires
        p <= src.len(),
    ensures
        match res {
            Some((x, n)) => item(src@, p as int) == Some((x@, n as nat)) && p + n <= src.len(),
            None => item(src@, p as int) is None,
        },
    decreases ahead(src@, p as int), 32nat,
{
    reveal(item);
    reveal(statement);
    let w = skip(src, p, Class::Inline);
    match read_statement(src, p + w) {
        Some((x, n)) => {
            let v = skip(src, p + w + n, Class::Inline);
            Some((x, w + n + v))
        },
        None => None,
    }
}

/// The statements at `p`.
#[verifier::spinoff_prover]
pub fn read_statements(src: &Vec<char>, p: usize) -> (res: Option<(Vec<Statement>, usize)>)
    requires
        p <= src.len(),
    ensures
        match res {
            Some((x, n)) => statements(src@, p as int) == Some((statements_view(x@), n as nat))
                && p + n <= src.len(),
            None => statements(src@, p as int) is None,
        },
    decreases ahead(src@, p as int), 34nat,
{
    reveal(statements);
    reveal(item);
    reveal(statements_more);
    let e = skip(src, p, Class::Eol);
    match read_item(src, p + e) {
        None => None,
        Some((x, n)) => {
            let ghost first = x@;
            let mut acc: Vec<Statement> = Vec::new();
            proof {
                assert(statements_view(acc@).push(first) =~= seq![first]);
            }
            push_statement(&mut acc, x);
            let mut i: usize = p + e + n;
            loop
                invariant_except_break
                    ({
                        let r = statements_more(src@, i as int, statements_view(acc@));
                        statements_more(src@, p + e + n, seq![first]) == (
                            r.0,
                            ((i - (p + e + n)) + r.1) as nat,
                        )
                    }),
                invariant
                    p + e + n <= i <= src.len(),
                ensures
                    statements_more(src@, p + e + n, seq![first]) == (
                        statements_view(acc@),
                        (i - (p + e + n)) as nat,
                    ),
                decreases src.len() - i,
            {
                reveal(statements_more);
                reveal(item);
                let a = skip(src, i, Class::Eol);
                if !(i < src.len() && a >= 1) {
                    break ;
                }
                match read_item(src, i + a) {
                    Some((y, m)) => {
                        push_statement(&mut acc, y);
                        i = i + a + m;
                    },
                    None => {
                        i = i + a;
                        break ;
                    },
                }
            }
            Some((acc, i - p))
        },
    }
}

/// Reads a whole text: its statements, or nothing where the text is not
/// statements from its first character to its last.
pub fn parse(text: &str) -> (res: Option<Vec<Statement>>)
    ensures
        body_view(res) == script(text@),
{
    let src = chars_of(text);
    match read_statements(&src, 0) {
        Some((b, n)) => {
            if n == src.len() {
                Some(b)
            } else {
                None
            }
        },
        None => None,
    }
}

} // verus!
