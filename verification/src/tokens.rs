//! The lexer: source text to tokens.
//!
//! The lexer is a small machine that reads one character at a time and
//! carries three mode flags (inside single quotes, inside double quotes,
//! after a backslash) and the word collected so far. `lex` is that machine
//! as a function on character sequences; `tokenize` runs it on a string and
//! is proved to return what `lex` says, with each span given in bytes.
use vstd::prelude::*;
use vstd::string::*;
use crate::text::{byte_offset, push_char, same_text, Source, string_of};

verus! {

/// What a token is.
#[derive(Debug, Clone)]
pub enum Tokens {
    Space,
    Literal(String),
    Let,
    ExportSet,
    StringVariable(String, bool),
    ArrayVariable(String, bool),
    ArrayFunction(String),
    StringFunction(String),
    ParenthesisStart,
    ParenthesisEnd,
    ArrayStart,
    ArrayEnd,
    CommandEnd(char),
    If,
    Else,
    While,
    For,
    Function,
    End,
    SubStart,
    RedirectInto,
    FileRead,
    FileWrite,
    And,
    Or,
    Break,
    JobCommandEnd,
}

/// A token and the bytes `[start, end)` of the input that it was read from.
#[derive(Debug, Clone)]
pub struct Token {
    pub token: Tokens,
    pub start: usize,
    pub end: usize,
}

/// Why a text could not be cut into tokens.
#[derive(Debug, Clone, Copy, PartialEq, Eq, Structural)]
pub enum LexError {
    /// A character that cannot stand in a name was found inside `${` or `@{`.
    InvalidVariableName,
    /// The text ended inside `${` or `@{`.
    UnterminatedVariable,
    /// A variable was asked for where the text holds neither `$` nor `@`.
    InvalidValue,
}

/// What the user is told of the error.
pub open spec fn lex_error_text(e: LexError) -> Seq<char> {
    match e {
        LexError::InvalidVariableName => "invalid variable name"@,
        LexError::UnterminatedVariable => "unterminated variable name"@,
        LexError::InvalidValue => "invalid value"@,
    }
}

impl LexError {
    /// The message shown to the user.
    pub fn message(&self) -> (m: String)
        ensures
            m@ == lex_error_text(*self),
    {
        match self {
            LexError::InvalidVariableName => String::from_str("invalid variable name"),
            LexError::UnterminatedVariable => String::from_str("unterminated variable name"),
            LexError::InvalidValue => String::from_str("invalid value"),
        }
    }
}

/// `Tokens` with each string as a sequence of characters.
pub enum SpecTokens {
    Space,
    Literal(Seq<char>),
    Let,
    ExportSet,
    StringVariable(Seq<char>, bool),
    ArrayVariable(Seq<char>, bool),
    ArrayFunction(Seq<char>),
    StringFunction(Seq<char>),
    ParenthesisStart,
    ParenthesisEnd,
    ArrayStart,
    ArrayEnd,
    CommandEnd(char),
    If,
    Else,
    While,
    For,
    Function,
    End,
    SubStart,
    RedirectInto,
    FileRead,
    FileWrite,
    And,
    Or,
    Break,
    JobCommandEnd,
}

/// `Token` as a mathematical value.
pub struct SpecToken {
    pub token: SpecTokens,
    pub start: nat,
    pub end: nat,
}

impl View for Tokens {
    type V = SpecTokens;

    open spec fn view(&self) -> SpecTokens {
        match self {
            Tokens::Space => SpecTokens::Space,
            Tokens::Literal(s) => SpecTokens::Literal(s@),
            Tokens::Let => SpecTokens::Let,
            Tokens::ExportSet => SpecTokens::ExportSet,
            Tokens::StringVariable(s, b) => SpecTokens::StringVariable(s@, *b),
            Tokens::ArrayVariable(s, b) => SpecTokens::ArrayVariable(s@, *b),
            Tokens::ArrayFunction(s) => SpecTokens::ArrayFunction(s@),
            Tokens::StringFunction(s) => SpecTokens::StringFunction(s@),
            Tokens::ParenthesisStart => SpecTokens::ParenthesisStart,
            Tokens::ParenthesisEnd => SpecTokens::ParenthesisEnd,
            Tokens::ArrayStart => SpecTokens::ArrayStart,
            Tokens::ArrayEnd => SpecTokens::ArrayEnd,
            Tokens::CommandEnd(c) => SpecTokens::CommandEnd(*c),
            Tokens::If => SpecTokens::If,
            Tokens::Else => SpecTokens::Else,
            Tokens::While => SpecTokens::While,
            Tokens::For => SpecTokens::For,
            Tokens::Function => SpecTokens::Function,
            Tokens::End => SpecTokens::End,
            Tokens::SubStart => SpecTokens::SubStart,
            Tokens::RedirectInto => SpecTokens::RedirectInto,
            Tokens::FileRead => SpecTokens::FileRead,
            Tokens::FileWrite => SpecTokens::FileWrite,
            Tokens::And => SpecTokens::And,
            Tokens::Or => SpecTokens::Or,
            Tokens::Break => SpecTokens::Break,
            Tokens::JobCommandEnd => SpecTokens::JobCommandEnd,
        }
    }
}

impl DeepView for Tokens {
    type V = SpecTokens;

    open spec fn deep_view(&self) -> SpecTokens {
        self@
    }
}

impl View for Token {
    type V = SpecToken;

    open spec fn view(&self) -> SpecToken {
        SpecToken { token: self.token@, start: self.start as nat, end: self.end as nat }
    }
}

impl DeepView for Token {
    type V = SpecToken;

    open spec fn deep_view(&self) -> SpecToken {
        self@
    }
}

/// The kinds of token, without their spans.
pub open spec fn kinds(tokens: Seq<SpecToken>) -> Seq<SpecTokens> {
    Seq::new(tokens.len(), |i: int| tokens[i].token)
}

/// The token that a finished word stands for: a keyword, an operator that
/// was written as a word, or else the word itself.
pub open spec fn detect(word: Seq<char>) -> SpecTokens {
    if word == "if"@ {
        SpecTokens::If
    } else if word == "while"@ {
        SpecTokens::While
    } else if word == "for"@ {
        SpecTokens::For
    } else if word == "let"@ {
        SpecTokens::Let
    } else if word == "else"@ {
        SpecTokens::Else
    } else if word == "end"@ {
        SpecTokens::End
    } else if word == "break"@ {
        SpecTokens::Break
    } else if word == "$("@ {
        SpecTokens::SubStart
    } else if word == "("@ {
        SpecTokens::ParenthesisStart
    } else if word == ")"@ {
        SpecTokens::ParenthesisEnd
    } else if word == "["@ {
        SpecTokens::ArrayStart
    } else if word == "]"@ {
        SpecTokens::ArrayEnd
    } else if word == ">"@ {
        SpecTokens::FileWrite
    } else if word == "<"@ {
        SpecTokens::FileRead
    } else if word == "|"@ {
        SpecTokens::RedirectInto
    } else if word == ";"@ {
        SpecTokens::CommandEnd(';')
    } else if word == "\n"@ {
        SpecTokens::CommandEnd('\n')
    } else if word == "\r\n"@ {
        SpecTokens::CommandEnd('\r')
    } else if word == "="@ {
        SpecTokens::ExportSet
    } else {
        SpecTokens::Literal(word)
    }
}

/// The source text that a token stands for.
pub open spec fn spec_to_str(token: SpecTokens) -> Seq<char> {
    match token {
        SpecTokens::Space => " "@,
        SpecTokens::Literal(s) => s,
        SpecTokens::Let => "let"@,
        SpecTokens::ExportSet => "="@,
        SpecTokens::StringVariable(name, braced) => if braced {
            "${"@ + name + "}"@
        } else {
            "$"@ + name
        },
        SpecTokens::ArrayVariable(name, braced) => if braced {
            "@{"@ + name + "}"@
        } else {
            "@"@ + name
        },
        SpecTokens::ArrayFunction(name) => "@"@ + name,
        SpecTokens::StringFunction(name) => "$"@ + name,
        SpecTokens::ParenthesisStart => "("@,
        SpecTokens::ParenthesisEnd => ")"@,
        SpecTokens::ArrayStart => "["@,
        SpecTokens::ArrayEnd => "]"@,
        SpecTokens::CommandEnd(c) => seq![c],
        SpecTokens::If => "if"@,
        SpecTokens::Else => "else"@,
        SpecTokens::While => "while"@,
        SpecTokens::For => "for"@,
        SpecTokens::Function => "function"@,
        SpecTokens::End => "end"@,
        SpecTokens::SubStart => "$("@,
        SpecTokens::RedirectInto => "|"@,
        SpecTokens::FileRead => "<"@,
        SpecTokens::FileWrite => ">"@,
        SpecTokens::And => "&&"@,
        SpecTokens::Or => "||"@,
        SpecTokens::Break => "break"@,
        SpecTokens::JobCommandEnd => "&"@,
    }
}

impl Tokens {
    /// A copy of the token.
    pub fn duplicate(&self) -> (t: Tokens)
        ensures
            t@ == self@,
    {
        match self {
            Tokens::Space => Tokens::Space,
            Tokens::Literal(s) => Tokens::Literal(s.clone()),
            Tokens::Let => Tokens::Let,
            Tokens::ExportSet => Tokens::ExportSet,
            Tokens::StringVariable(s, b) => Tokens::StringVariable(s.clone(), *b),
            Tokens::ArrayVariable(s, b) => Tokens::ArrayVariable(s.clone(), *b),
            Tokens::ArrayFunction(s) => Tokens::ArrayFunction(s.clone()),
            Tokens::StringFunction(s) => Tokens::StringFunction(s.clone()),
            Tokens::ParenthesisStart => Tokens::ParenthesisStart,
            Tokens::ParenthesisEnd => Tokens::ParenthesisEnd,
            Tokens::ArrayStart => Tokens::ArrayStart,
            Tokens::ArrayEnd => Tokens::ArrayEnd,
            Tokens::CommandEnd(c) => Tokens::CommandEnd(*c),
            Tokens::If => Tokens::If,
            Tokens::Else => Tokens::Else,
            Tokens::While => Tokens::While,
            Tokens::For => Tokens::For,
            Tokens::Function => Tokens::Function,
            Tokens::End => Tokens::End,
            Tokens::SubStart => Tokens::SubStart,
            Tokens::RedirectInto => Tokens::RedirectInto,
            Tokens::FileRead => Tokens::FileRead,
            Tokens::FileWrite => Tokens::FileWrite,
            Tokens::And => Tokens::And,
            Tokens::Or => Tokens::Or,
            Tokens::Break => Tokens::Break,
            Tokens::JobCommandEnd => Tokens::JobCommandEnd,
        }
    }

    /// Turns a finished word into its token.
    pub fn detect(str: String) -> (t: Tokens)
        ensures
            t@ == detect(str@),
    {
        let s = str.as_str();
        if same_text(s, "if") {
            Tokens::If
        } else if same_text(s, "while") {
            Tokens::While
        } else if same_text(s, "for") {
            Tokens::For
        } else if same_text(s, "let") {
            Tokens::Let
        } else if same_text(s, "else") {
            Tokens::Else
        } else if same_text(s, "end") {
            Tokens::End
        } else if same_text(s, "break") {
            Tokens::Break
        } else if same_text(s, "$(") {
            Tokens::SubStart
        } else if same_text(s, "(") {
            Tokens::ParenthesisStart
        } else if same_text(s, ")") {
            Tokens::ParenthesisEnd
        } else if same_text(s, "[") {
            Tokens::ArrayStart
        } else if same_text(s, "]") {
            Tokens::ArrayEnd
        } else if same_text(s, ">") {
            Tokens::FileWrite
        } else if same_text(s, "<") {
            Tokens::FileRead
        } else if same_text(s, "|") {
            Tokens::RedirectInto
        } else if same_text(s, ";") {
            Tokens::CommandEnd(';')
        } else if same_text(s, "\n") {
            Tokens::CommandEnd('\n')
        } else if same_text(s, "\r\n") {
            Tokens::CommandEnd('\r')
        } else if same_text(s, "=") {
            Tokens::ExportSet
        } else {
            Tokens::Literal(str)
        }
    }

    /// The source text that the token stands for.
    pub fn to_str(&self) -> (s: String)
        ensures
            s@ == spec_to_str(self@),
    {
        match self {
            Tokens::Space => String::from_str(" "),
            Tokens::Literal(str) => str.clone(),
            Tokens::Let => String::from_str("let"),
            Tokens::ExportSet => String::from_str("="),
            Tokens::StringVariable(name, braced) => {
                if *braced {
                    let mut s = String::from_str("${");
                    s.append(name.as_str());
                    s.append("}");
                    s
                } else {
                    let mut s = String::from_str("$");
                    s.append(name.as_str());
                    s
                }
            },
            Tokens::ArrayVariable(name, braced) => {
                if *braced {
                    let mut s = String::from_str("@{");
                    s.append(name.as_str());
                    s.append("}");
                    s
                } else {
                    let mut s = String::from_str("@");
                    s.append(name.as_str());
                    s
                }
            },
            Tokens::ArrayFunction(name) => {
                let mut s = String::from_str("@");
                s.append(name.as_str());
                s
            },
            Tokens::StringFunction(name) => {
                let mut s = String::from_str("$");
                s.append(name.as_str());
                s
            },
            Tokens::ParenthesisStart => String::from_str("("),
            Tokens::ParenthesisEnd => String::from_str(")"),
            Tokens::ArrayStart => String::from_str("["),
            Tokens::ArrayEnd => String::from_str("]"),
            Tokens::CommandEnd(c) => {
                let mut s = String::new();
                push_char(&mut s, *c);
                assert(s@ == seq![*c]);
                s
            },
            Tokens::If => String::from_str("if"),
            Tokens::Else => String::from_str("else"),
            Tokens::While => String::from_str("while"),
            Tokens::For => String::from_str("for"),
            Tokens::Function => String::from_str("function"),
            Tokens::End => String::from_str("end"),
            Tokens::SubStart => String::from_str("$("),
            Tokens::RedirectInto => String::from_str("|"),
            Tokens::FileRead => String::from_str("<"),
            Tokens::FileWrite => String::from_str(">"),
            Tokens::And => String::from_str("&&"),
            Tokens::Or => String::from_str("||"),
            Tokens::Break => String::from_str("break"),
            Tokens::JobCommandEnd => String::from_str("&"),
        }
    }
}

/// The classes of character that the lexer reads in runs.
#[derive(Debug, Clone, Copy, PartialEq, Eq, Structural)]
pub enum CharClass {
    /// The space character.
    Space,
    /// `;`, newline and carriage return.
    Separator,
    /// What a variable name is made of: ASCII letters, digits, `:` and `_`.
    Name,
    /// Anything but a newline: the body of a comment.
    Comment,
}

pub open spec fn is_name_char(c: char) -> bool {
    ('a' <= c && c <= 'z') || ('A' <= c && c <= 'Z') || ('0' <= c && c <= '9') || c == ':' || c
        == '_'
}

pub open spec fn is_separator(c: char) -> bool {
    c == ';' || c == '\n' || c == '\r'
}

pub open spec fn in_class(class: CharClass, c: char) -> bool {
    match class {
        CharClass::Space => c == ' ',
        CharClass::Separator => is_separator(c),
        CharClass::Name => is_name_char(c),
        CharClass::Comment => c != '\n',
    }
}

/// Where the run of characters of `class` that starts at `from` ends: the
/// first position from `from` on that holds another character, or the end
/// of the text.
pub open spec fn run_end(s: Seq<char>, from: int, class: CharClass) -> int
    decreases s.len() - from,
{
    if 0 <= from < s.len() && in_class(class, s[from]) {
        run_end(s, from + 1, class)
    } else {
        from
    }
}

pub proof fn lemma_run_end_bounds(s: Seq<char>, from: int, class: CharClass)
    requires
        0 <= from <= s.len(),
    ensures
        from <= run_end(s, from, class) <= s.len(),
        forall|k: int| from <= k < run_end(s, from, class) ==> in_class(class, #[trigger] s[k]),
        run_end(s, from, class) < s.len() ==> !in_class(class, s[run_end(s, from, class)]),
    decreases s.len() - from,
{
    if from < s.len() && in_class(class, s[from]) {
        lemma_run_end_bounds(s, from + 1, class);
    }
}

pub fn class_holds(class: CharClass, c: char) -> (r: bool)
    ensures
        r == in_class(class, c),
{
    match class {
        CharClass::Space => c == ' ',
        CharClass::Separator => c == ';' || c == '\n' || c == '\r',
        CharClass::Name => ('a' <= c && c <= 'z') || ('A' <= c && c <= 'Z') || ('0' <= c && c
            <= '9') || c == ':' || c == '_',
        CharClass::Comment => c != '\n',
    }
}

/// Reads the run of `class` that starts at `from`.
pub fn scan_run(chars: &Vec<char>, from: usize, class: CharClass) -> (end: usize)
    requires
        from <= chars.len(),
    ensures
        end == run_end(chars@, from as int, class),
        from <= end <= chars.len(),
{
    let mut i: usize = from;
    while i < chars.len() && class_holds(class, chars[i])
        invariant
            from <= i <= chars.len(),
            run_end(chars@, i as int, class) == run_end(chars@, from as int, class),
        decreases chars.len() - i,
    {
        i += 1;
    }
    i
}

/// A variable reference as read from the text: its name, whether it was
/// written in braces, and the position after it.
pub struct VarRead {
    pub name: Seq<char>,
    pub braced: bool,
    pub end: int,
}

/// Reads the variable reference whose sigil (`$` or `@`) stands at `i`.
///
/// The name is the run of name characters after the sigil, or after the
/// opening brace; a `?` directly after it belongs to the name and ends it.
/// A braced name must be closed by `}`.
pub open spec fn read_var(s: Seq<char>, i: int) -> Result<VarRead, LexError> {
    if !(0 <= i < s.len() && (s[i] == '$' || s[i] == '@')) {
        Err(LexError::InvalidValue)
    } else {
        let braced = i + 1 < s.len() && s[i + 1] == '{';
        let from = if braced {
            i + 2
        } else {
            i + 1
        };
        let stop = run_end(s, from, CharClass::Name);
        let marked = stop < s.len() && s[stop] == '?';
        let last = if marked {
            stop + 1
        } else {
            stop
        };
        let name = s.subrange(from, last);
        if !braced {
            Ok(VarRead { name, braced, end: last })
        } else if last < s.len() && s[last] == '}' {
            Ok(VarRead { name, braced, end: last + 1 })
        } else if last < s.len() {
            Err(LexError::InvalidVariableName)
        } else {
            Err(LexError::UnterminatedVariable)
        }
    }
}

/// The token of a variable reference, by its sigil.
pub open spec fn var_token(sigil: char, v: VarRead) -> SpecTokens {
    if sigil == '$' {
        SpecTokens::StringVariable(v.name, v.braced)
    } else {
        SpecTokens::ArrayVariable(v.name, v.braced)
    }
}

/// The token of a call: a variable reference directly followed by `(`.
pub open spec fn call_token(sigil: char, v: VarRead) -> SpecTokens {
    if sigil == '$' {
        SpecTokens::StringFunction(v.name)
    } else {
        SpecTokens::ArrayFunction(v.name)
    }
}

/// The state of the lexer between two characters.
pub struct LexState {
    /// The next character to read.
    pub pos: int,
    pub single_quote: bool,
    pub double_quote: bool,
    pub escape: bool,
    /// Where the word that is being collected began.
    pub word_start: int,
    /// The characters of that word.
    pub buf: Seq<char>,
    /// The tokens found so far, with spans in characters.
    pub tokens: Seq<SpecToken>,
}

pub open spec fn initial_state() -> LexState {
    LexState {
        pos: 0,
        single_quote: false,
        double_quote: false,
        escape: false,
        word_start: 0,
        buf: Seq::empty(),
        tokens: Seq::empty(),
    }
}

/// The tokens once the pending word, if there is one, has been emitted
/// as ending at `at`.
pub open spec fn flush(st: LexState, at: int) -> Seq<SpecToken> {
    if st.buf.len() > 0 {
        st.tokens.push(
            SpecToken { token: detect(st.buf), start: st.word_start as nat, end: at as nat },
        )
    } else {
        st.tokens
    }
}

/// The state after the pending word and then a token read from
/// `[st.pos, end)` have been emitted.
pub open spec fn emit(st: LexState, token: SpecTokens, end: int) -> LexState {
    LexState {
        pos: end,
        escape: false,
        word_start: end,
        buf: Seq::empty(),
        tokens: flush(st, st.pos).push(
            SpecToken { token, start: st.pos as nat, end: end as nat },
        ),
        ..st
    }
}

/// The state after the pending word has been emitted and the text up to
/// `end` has been passed over.
pub open spec fn skip(st: LexState, end: int) -> LexState {
    LexState {
        pos: end,
        escape: false,
        word_start: end,
        buf: Seq::empty(),
        tokens: flush(st, st.pos),
        ..st
    }
}

/// The token of an operator that is one character long.
pub open spec fn single_operator(c: char) -> Option<SpecTokens> {
    if c == '(' {
        Some(SpecTokens::ParenthesisStart)
    } else if c == ')' {
        Some(SpecTokens::ParenthesisEnd)
    } else if c == '[' {
        Some(SpecTokens::ArrayStart)
    } else if c == ']' {
        Some(SpecTokens::ArrayEnd)
    } else if c == '=' {
        Some(SpecTokens::ExportSet)
    } else if c == '<' {
        Some(SpecTokens::FileRead)
    } else if c == '>' {
        Some(SpecTokens::FileWrite)
    } else {
        None
    }
}

/// Whether the character after `st.pos` is `c`.
pub open spec fn next_is(s: Seq<char>, pos: int, c: char) -> bool {
    pos + 1 < s.len() && s[pos + 1] == c
}

/// One move of the lexer: reads the character at `st.pos`, and whatever
/// belongs to the same token.
///
/// Quotes switch their mode and emit nothing. `$` and `@` start a variable
/// reference, a call or a substitution, also inside double quotes. Outside
/// quotes, operators, spaces, separators and comments end the pending word;
/// runs of spaces and runs of separators give one token each. A backslash
/// outside single quotes makes the next character an ordinary one. Every
/// other character joins the pending word.
pub open spec fn lex_step(s: Seq<char>, st: LexState) -> Result<LexState, LexError>
    recommends
        0 <= st.pos < s.len(),
{
    let c = s[st.pos];
    let plain = !st.escape && !st.single_quote && !st.double_quote;
    if c == '"' && !st.escape && !st.single_quote {
        Ok(LexState { pos: st.pos + 1, double_quote: !st.double_quote, ..st })
    } else if c == '\'' && !st.escape && !st.double_quote {
        Ok(LexState { pos: st.pos + 1, single_quote: !st.single_quote, ..st })
    } else if (c == '$' || c == '@') && !st.escape && !st.single_quote {
        if c == '$' && next_is(s, st.pos, '(') {
            Ok(emit(st, SpecTokens::SubStart, st.pos + 2))
        } else {
            match read_var(s, st.pos) {
                Err(e) => Err(e),
                Ok(v) => if !v.braced && !st.double_quote && v.end < s.len() && s[v.end] == '(' {
                    Ok(emit(st, call_token(c, v), v.end + 1))
                } else {
                    Ok(emit(st, var_token(c, v), v.end))
                },
            }
        }
    } else if is_separator(c) && plain {
        Ok(emit(st, SpecTokens::CommandEnd(c), run_end(s, st.pos + 1, CharClass::Separator)))
    } else if c == '&' && plain {
        if next_is(s, st.pos, '&') {
            Ok(emit(st, SpecTokens::And, st.pos + 2))
        } else {
            Ok(emit(st, SpecTokens::JobCommandEnd, st.pos + 1))
        }
    } else if c == '|' && plain {
        if next_is(s, st.pos, '|') {
            Ok(emit(st, SpecTokens::Or, st.pos + 2))
        } else {
            Ok(emit(st, SpecTokens::RedirectInto, st.pos + 1))
        }
    } else if c == ' ' && plain {
        Ok(emit(st, SpecTokens::Space, run_end(s, st.pos + 1, CharClass::Space)))
    } else if single_operator(c) is Some && plain {
        Ok(emit(st, single_operator(c)->0, st.pos + 1))
    } else if c == '\\' && !st.escape && !st.single_quote {
        Ok(LexState { pos: st.pos + 1, escape: true, ..st })
    } else if c == '#' && plain {
        Ok(skip(st, run_end(s, st.pos + 1, CharClass::Comment)))
    } else {
        Ok(LexState { pos: st.pos + 1, escape: false, buf: st.buf.push(c), ..st })
    }
}

/// Every move reads at least one character and stays inside the text.
pub proof fn lemma_step_advances(s: Seq<char>, st: LexState)
    requires
        0 <= st.pos < s.len(),
    ensures
        lex_step(s, st) matches Ok(next) ==> st.pos < next.pos <= s.len(),
{
    lemma_run_end_bounds(s, st.pos + 1, CharClass::Separator);
    lemma_run_end_bounds(s, st.pos + 1, CharClass::Space);
    lemma_run_end_bounds(s, st.pos + 1, CharClass::Comment);
    if st.pos + 2 <= s.len() {
        lemma_run_end_bounds(s, st.pos + 2, CharClass::Name);
    }
    lemma_run_end_bounds(s, st.pos + 1, CharClass::Name);
}

/// The tokens of `s` from the state `st` on.
pub open spec fn lex_from(s: Seq<char>, st: LexState) -> Result<Seq<SpecToken>, LexError>
    decreases s.len() - st.pos,
{
    if !(0 <= st.pos < s.len()) {
        Ok(flush(st, s.len() as int))
    } else {
        match lex_step(s, st) {
            Err(e) => Err(e),
            Ok(next) => {
                proof {
                    lemma_step_advances(s, st);
                }
                lex_from(s, next)
            },
        }
    }
}

/// The tokens of `s`, with spans in characters.
pub open spec fn lex(s: Seq<char>) -> Result<Seq<SpecToken>, LexError> {
    lex_from(s, initial_state())
}

/// A token with its span given in bytes of the UTF-8 text.
pub open spec fn byte_span(s: Seq<char>, t: SpecToken) -> SpecToken {
    SpecToken {
        token: t.token,
        start: byte_offset(s, t.start as int),
        end: byte_offset(s, t.end as int),
    }
}

/// The tokens with their spans given in bytes.
pub open spec fn byte_spans(s: Seq<char>, tokens: Seq<SpecToken>) -> Seq<SpecToken> {
    Seq::new(tokens.len(), |i: int| byte_span(s, tokens[i]))
}

fn push_token(
    tokens: &mut Vec<Token>,
    src: &Source,
    token: Tokens,
    start: usize,
    end: usize,
    Ghost(before): Ghost<Seq<SpecToken>>,
)
    requires
        src.wf(),
        start <= end <= src.chars.len(),
        old(tokens).deep_view() == byte_spans(src.chars@, before),
    ensures
        final(tokens).deep_view() == byte_spans(
            src.chars@,
            before.push(SpecToken { token: token@, start: start as nat, end: end as nat }),
        ),
{
    let ghost added = SpecToken { token: token@, start: start as nat, end: end as nat };
    let ghost earlier = tokens.deep_view();
    let ghost held = tokens@;
    let t = Token { token, start: src.offsets[start], end: src.offsets[end] };
    assert(t@ == byte_span(src.chars@, added));
    tokens.push(t);
    assert forall|k: int| 0 <= k < tokens.len() implies #[trigger] tokens.deep_view()[k]
        == byte_spans(src.chars@, before.push(added))[k] by {
        if k < held.len() {
            assert(earlier.len() == held.len());
            assert(byte_spans(src.chars@, before).len() == before.len());
            assert(earlier == byte_spans(src.chars@, before));
            assert(byte_spans(src.chars@, before)[k] == byte_span(src.chars@, before[k]));
            assert(tokens@[k] == held[k]);
            assert(earlier[k] == held[k].deep_view());
            assert(earlier[k] == byte_span(src.chars@, before[k]));
        }
    }
    assert(tokens.deep_view() =~= byte_spans(src.chars@, before.push(added)));
}

/// Emits the pending word, if there is one, as a token that ends at `at`.
fn save_buf(
    word: String,
    tokens: &mut Vec<Token>,
    src: &Source,
    word_start: usize,
    at: usize,
    Ghost(st): Ghost<LexState>,
)
    requires
        src.wf(),
        word_start <= at <= src.chars.len(),
        word@ == st.buf,
        st.word_start == word_start,
        old(tokens).deep_view() == byte_spans(src.chars@, st.tokens),
    ensures
        final(tokens).deep_view() == byte_spans(src.chars@, flush(st, at as int)),
{
    if !word.as_str().is_empty() {
        let token = Tokens::detect(word);
        push_token(tokens, src, token, word_start, at, Ghost(st.tokens));
    }
}

/// Reads the variable reference whose sigil stands at `i`. Returns how many
/// characters after the sigil belong to it, and its token.
pub fn read_var_ahead(i: usize, src: &Source) -> (res: Result<(usize, Token), LexError>)
    requires
        src.wf(),
    ensures
        match res {
            Ok((skipped, token)) => {
                &&& read_var(src.chars@, i as int) matches Ok(v)
                &&& i + 1 + skipped == v.end
                &&& v.end <= src.chars.len()
                &&& token@ == byte_span(
                    src.chars@,
                    SpecToken {
                        token: var_token(src.chars@[i as int], v),
                        start: i as nat,
                        end: v.end as nat,
                    },
                )
            },
            Err(e) => read_var(src.chars@, i as int) == Err::<VarRead, LexError>(e),
        },
{
    let n = src.chars.len();
    if i >= n {
        return Err(LexError::InvalidValue);
    }
    let sigil = src.chars[i];
    if sigil != '$' && sigil != '@' {
        return Err(LexError::InvalidValue);
    }
    let braced = i + 1 < n && src.chars[i + 1] == '{';
    let from = if braced {
        i + 2
    } else {
        i + 1
    };
    let stop = scan_run(&src.chars, from, CharClass::Name);
    let marked = stop < n && src.chars[stop] == '?';
    let last = if marked {
        stop + 1
    } else {
        stop
    };
    let end = if !braced {
        last
    } else if last < n && src.chars[last] == '}' {
        last + 1
    } else if last < n {
        return Err(LexError::InvalidVariableName);
    } else {
        return Err(LexError::UnterminatedVariable);
    };
    let name = string_of(&src.chars, from, last);
    let token = if sigil == '$' {
        Tokens::StringVariable(name, braced)
    } else {
        Tokens::ArrayVariable(name, braced)
    };
    Ok((end - i - 1, Token { token, start: src.offsets[i], end: src.offsets[end] }))
}

/// Cuts `text` into tokens.
///
/// The result is what `lex` gives for the characters of `text`, with each
/// span given in bytes; it fails exactly where `lex` fails, with the same
/// error.
pub fn tokenize(text: &str) -> (res: Result<Vec<Token>, LexError>)
    ensures
        match res {
            Ok(tokens) => lex(text@) matches Ok(found) && tokens.deep_view() == byte_spans(
                text@,
                found,
            ),
            Err(e) => lex(text@) == Err::<Seq<SpecToken>, LexError>(e),
        },
{
    let src = Source::new(text);
    let n = src.chars.len();
    let mut tokens: Vec<Token> = Vec::new();
    let mut buf = String::new();
    let mut single_quote = false;
    let mut double_quote = false;
    let mut escape = false;
    let mut word_start: usize = 0;
    let mut i: usize = 0;
    let ghost s = text@;
    let ghost mut st = initial_state();
    assert(tokens.deep_view() =~= byte_spans(s, st.tokens));
    while i < n
        invariant
            src.wf(),
            src.chars@ == s,
            s == text@,
            n == s.len(),
            i <= n,
            st.pos == i,
            st.single_quote == single_quote,
            st.double_quote == double_quote,
            st.escape == escape,
            st.word_start == word_start,
            word_start <= i,
            st.buf == buf@,
            tokens.deep_view() == byte_spans(s, st.tokens),
            lex_from(s, st) == lex(s),
        decreases n - i,
    {
        let c = src.chars[i];
        let plain = !escape && !single_quote && !double_quote;
        proof {
            lemma_step_advances(s, st);
        }
        let ghost prev = st;
        if c == '"' && !escape && !single_quote {
            double_quote = !double_quote;
            i += 1;
        } else if c == '\'' && !escape && !double_quote {
            single_quote = !single_quote;
            i += 1;
        } else if (c == '$' || c == '@') && !escape && !single_quote {
            save_buf(buf, &mut tokens, &src, word_start, i, Ghost(st));
            buf = String::new();
            if c == '$' && i + 1 < n && src.chars[i + 1] == '(' {
                push_token(&mut tokens, &src, Tokens::SubStart, i, i + 2, Ghost(flush(st, i as int)));
                i += 2;
            } else {
                match read_var_ahead(i, &src) {
                    Err(e) => {
                        return Err(e);
                    },
                    Ok((skipped, token)) => {
                        let end = i + 1 + skipped;
                        let ghost v = read_var(s, i as int)->Ok_0;
                        match token.token {
                            Tokens::StringVariable(name, braced) => {
                                if !braced && !double_quote && end < n && src.chars[end] == '(' {
                                    push_token(
                                        &mut tokens,
                                        &src,
                                        Tokens::StringFunction(name),
                                        i,
                                        end + 1,
                                        Ghost(flush(st, i as int)),
                                    );
                                    i = end + 1;
                                } else {
                                    push_token(
                                        &mut tokens,
                                        &src,
                                        Tokens::StringVariable(name, braced),
                                        i,
                                        end,
                                        Ghost(flush(st, i as int)),
                                    );
                                    i = end;
                                }
                            },
                            Tokens::ArrayVariable(name, braced) => {
                                if !braced && !double_quote && end < n && src.chars[end] == '(' {
                                    push_token(
                                        &mut tokens,
                                        &src,
                                        Tokens::ArrayFunction(name),
                                        i,
                                        end + 1,
                                        Ghost(flush(st, i as int)),
                                    );
                                    i = end + 1;
                                } else {
                                    push_token(
                                        &mut tokens,
                                        &src,
                                        Tokens::ArrayVariable(name, braced),
                                        i,
                                        end,
                                        Ghost(flush(st, i as int)),
                                    );
                                    i = end;
                                }
                            },
                            _ => {
                                assert(false);
                            },
                        }
                    },
                }
            }
            word_start = i;
        } else if (c == ';' || c == '\n' || c == '\r') && plain {
            save_buf(buf, &mut tokens, &src, word_start, i, Ghost(st));
            buf = String::new();
            let end = scan_run(&src.chars, i + 1, CharClass::Separator);
            push_token(&mut tokens, &src, Tokens::CommandEnd(c), i, end, Ghost(flush(st, i as int)));
            i = end;
            word_start = i;
        } else if c == '&' && plain {
            save_buf(buf, &mut tokens, &src, word_start, i, Ghost(st));
            buf = String::new();
            if i + 1 < n && src.chars[i + 1] == '&' {
                push_token(&mut tokens, &src, Tokens::And, i, i + 2, Ghost(flush(st, i as int)));
                i += 2;
            } else {
                push_token(
                    &mut tokens,
                    &src,
                    Tokens::JobCommandEnd,
                    i,
                    i + 1,
                    Ghost(flush(st, i as int)),
                );
                i += 1;
            }
            word_start = i;
        } else if c == '|' && plain {
            save_buf(buf, &mut tokens, &src, word_start, i, Ghost(st));
            buf = String::new();
            if i + 1 < n && src.chars[i + 1] == '|' {
                push_token(&mut tokens, &src, Tokens::Or, i, i + 2, Ghost(flush(st, i as int)));
                i += 2;
            } else {
                push_token(
                    &mut tokens,
                    &src,
                    Tokens::RedirectInto,
                    i,
                    i + 1,
                    Ghost(flush(st, i as int)),
                );
                i += 1;
            }
            word_start = i;
        } else if c == ' ' && plain {
            save_buf(buf, &mut tokens, &src, word_start, i, Ghost(st));
            buf = String::new();
            let end = scan_run(&src.chars, i + 1, CharClass::Space);
            push_token(&mut tokens, &src, Tokens::Space, i, end, Ghost(flush(st, i as int)));
            i = end;
            word_start = i;
        } else if (c == '(' || c == ')' || c == '[' || c == ']' || c == '=' || c == '<' || c
            == '>') && plain {
            save_buf(buf, &mut tokens, &src, word_start, i, Ghost(st));
            buf = String::new();
            let token = if c == '(' {
                Tokens::ParenthesisStart
            } else if c == ')' {
                Tokens::ParenthesisEnd
            } else if c == '[' {
                Tokens::ArrayStart
            } else if c == ']' {
                Tokens::ArrayEnd
            } else if c == '=' {
                Tokens::ExportSet
            } else if c == '<' {
                Tokens::FileRead
            } else {
                Tokens::FileWrite
            };
            push_token(&mut tokens, &src, token, i, i + 1, Ghost(flush(st, i as int)));
            i += 1;
            word_start = i;
        } else if c == '\\' && !escape && !single_quote {
            escape = true;
            i += 1;
        } else if c == '#' && plain {
            save_buf(buf, &mut tokens, &src, word_start, i, Ghost(st));
            buf = String::new();
            i = scan_run(&src.chars, i + 1, CharClass::Comment);
            word_start = i;
        } else {
            push_char(&mut buf, c);
            escape = false;
            i += 1;
        }
        proof {
            st = lex_step(s, prev)->Ok_0;
        }
    }
    save_buf(buf, &mut tokens, &src, word_start, n, Ghost(st));
    Ok(tokens)
}

} // verus!
