//! The tree builder: tokens to a tree of expressions.
//!
//! A cursor walks the tokens. Every routine reads one construct of the
//! grammar from the cursor on, never past its bound `end`, and leaves the
//! cursor behind what it read. Each is proved to return what the function of
//! the same name in `grammar` says.
use vstd::prelude::*;
use vstd::string::*;
use crate::ast::{
    command_values_view, CommandValue, Expression, expressions_view, push_expression, push_value,
    SpecCommandValue, SpecExpression, SpecValue, Value, value_view, values_view,
};
use crate::grammar::{
    as_command, closer_scan, count_blanks, count_spaces, depth_change, ends_word, ends_words, error,
    find_assignment, join, parse_block, parse_branching, parse_break, parse_call_arguments,
    parse_command, parse_command_line, parse_else, parse_expression, parse_for, parse_for_body,
    parse_fragment, parse_grouped, parse_if, parse_let, parse_program, parse_redirect_line,
    parse_redirect_name, parse_rest, parse_sequence, parse_value, parse_while, parse_word,
    parse_words, ParseError, ParseErrorKind, reads_as_text, shifted, starts_reserved, tokens_left,
};
use crate::text::same_text;
use crate::tokens::{spec_to_str, SpecTokens, Token, Tokens};

verus! {

/// The kinds of the tokens, which is all that the grammar reads.
pub open spec fn kinds_of(tokens: Seq<Token>) -> Seq<SpecTokens> {
    Seq::new(tokens.len(), |i: int| tokens[i].token@)
}

fn fail<T>(kind: ParseErrorKind, at: usize) -> (res: Result<T, ParseError>)
    ensures
        res == Err::<T, ParseError>(error(kind, at as int)),
{
    Err(ParseError { kind, at })
}

/// The tokens and the cursor.
pub struct Tree {
    pub tokens: Vec<Token>,
    pub i: usize,
}

impl Tree {
    pub open spec fn kinds(&self) -> Seq<SpecTokens> {
        kinds_of(self.tokens@)
    }

    /// Moves the cursor on by one token.
    pub fn inc(&mut self)
        requires
            old(self).i < usize::MAX,
        ensures
            final(self).i == old(self).i + 1,
            final(self).tokens == old(self).tokens,
    {
        self.i += 1;
    }

    /// The token under the cursor.
    pub fn get_current_token(&self) -> (t: &Tokens)
        requires
            self.i < self.tokens.len(),
        ensures
            *t == self.tokens[self.i as int].token,
            t@ == self.kinds()[self.i as int],
    {
        &self.tokens[self.i].token
    }

    /// Looks from `from` on for the token that closes a region which is
    /// one level deep there.
    fn scan_closer(&self, from: usize, end: usize, square: bool) -> (res: (usize, usize))
        requires
            from <= end <= self.tokens.len(),
            end - from < usize::MAX,
        ensures
            (res.0 as nat, res.1 as int) == closer_scan(
                self.kinds(),
                from as int,
                end as int,
                1,
                square,
            ),
            from + res.0 <= end,
    {
        let mut p = from;
        let mut lvl: usize = 1;
        let ghost t = self.kinds();
        loop
            invariant_except_break
                from <= p <= end,
                1 <= lvl <= 1 + (p - from),
                closer_scan(t, from as int, end as int, 1, square) == (
                    ((p - from) + closer_scan(t, p as int, end as int, lvl as int, square).0) as nat,
                    closer_scan(t, p as int, end as int, lvl as int, square).1,
                ),
            invariant
                from <= end <= self.tokens.len(),
                end - from < usize::MAX,
                t == self.kinds(),
            ensures
                from <= p <= end,
                closer_scan(t, from as int, end as int, 1, square) == ((p - from) as nat, lvl as int),
            decreases end - p,
        {
            if p >= end {
                break ;
            }
            let opens = match &self.tokens[p].token {
                Tokens::ArrayStart => square,
                Tokens::SubStart | Tokens::StringFunction(_) | Tokens::ArrayFunction(_)
                | Tokens::ParenthesisStart => !square,
                _ => false,
            };
            let closes = match &self.tokens[p].token {
                Tokens::ArrayEnd => square,
                Tokens::ParenthesisEnd => !square,
                _ => false,
            };
            assert(depth_change(t[p as int], square) == if opens {
                1int
            } else if closes {
                -1
            } else {
                0
            });
            if opens {
                lvl += 1;
            } else if closes {
                lvl -= 1;
            }
            if lvl == 0 {
                break ;
            }
            p += 1;
        }
        (p - from, lvl)
    }

    /// Looks from the cursor on for the parenthesis that closes the region
    /// opened by a token before the cursor: the number of tokens before it,
    /// and the depth that is left, 0 where it was found. The depth that is
    /// left may be one more than the number of tokens looked at, which
    /// therefore has to be less than the largest `usize`.
    pub fn get_parens_vals(&self, end: usize) -> (res: (usize, usize))
        requires
            self.i <= end <= self.tokens.len(),
            end - self.i < usize::MAX,
        ensures
            (res.0 as nat, res.1 as int) == closer_scan(
                self.kinds(),
                self.i as int,
                end as int,
                1,
                false,
            ),
            self.i + res.0 <= end,
    {
        self.scan_closer(self.i, end, false)
    }

    /// Passes over spaces.
    fn skip_spaces(&mut self, end: usize)
        requires
            old(self).i <= end <= old(self).tokens.len(),
        ensures
            final(self).tokens == old(self).tokens,
            final(self).i == old(self).i + count_spaces(
                old(self).kinds(),
                old(self).i as int,
                end as int,
            ),
            final(self).i <= end,
            final(self).i < end ==> !(final(self).kinds()[final(self).i as int] is Space),
    {
        let ghost t = self.kinds();
        let ghost start = self.i;
        while self.i < end && matches!(self.tokens[self.i].token, Tokens::Space)
            invariant
                start <= self.i <= end <= self.tokens.len(),
                self.tokens == old(self).tokens,
                t == self.kinds(),
                count_spaces(t, start as int, end as int) == (self.i - start) + count_spaces(
                    t,
                    self.i as int,
                    end as int,
                ),
            decreases end - self.i,
        {
            self.i += 1;
        }
    }

    /// Passes over spaces and separators.
    fn skip_blanks(&mut self, end: usize)
        requires
            old(self).i <= end <= old(self).tokens.len(),
        ensures
            final(self).tokens == old(self).tokens,
            final(self).i == old(self).i + count_blanks(
                old(self).kinds(),
                old(self).i as int,
                end as int,
            ),
            final(self).i <= end,
    {
        let ghost t = self.kinds();
        let ghost start = self.i;
        while self.i < end && matches!(
            self.tokens[self.i].token,
            Tokens::Space | Tokens::CommandEnd(_)
        )
            invariant
                start <= self.i <= end <= self.tokens.len(),
                self.tokens == old(self).tokens,
                t == self.kinds(),
                count_blanks(t, start as int, end as int) == (self.i - start) + count_blanks(
                    t,
                    self.i as int,
                    end as int,
                ),
            decreases end - self.i,
        {
            self.i += 1;
        }
    }

    /// One piece of a word, with the cursor on its first token.
    #[verifier::spinoff_prover]
    fn parse_fragment(&mut self, end: usize, command: bool) -> (res: Result<Value, ParseError>)
        requires
            old(self).i < end <= old(self).tokens.len(),
        ensures
            final(self).tokens == old(self).tokens,
            parse_fragment(old(self).kinds(), old(self).i as int, end as int, command) == outcome(
                seen_value(res),
                final(self).i - old(self).i - 1,
            ),
            res is Ok ==> old(self).i < final(self).i <= end,
        decreases tokens_left(old(self).i as int, end as int), 1int,
    {
        reveal(parse_fragment);
        reveal(parse_sequence);
        reveal(parse_call_arguments);
        reveal(parse_words);
        let p = self.i;
        let token = self.tokens[p].token.duplicate();
        match token {
            Tokens::Literal(s) => {
                self.i = p + 1;
                Ok(Value::literal(s))
            },
            Tokens::StringVariable(name, _) => {
                if command && name.as_str().is_empty() {
                    return fail(ParseErrorKind::ExpectedVariableName, p);
                }
                self.i = p + 1;
                Ok(Value::variable(name))
            },
            Tokens::ArrayVariable(name, _) => {
                self.i = p + 1;
                Ok(Value::array_variable(name))
            },
            Tokens::SubStart => {
                self.i = p + 1;
                let (len, lvl) = self.get_parens_vals(end);
                if lvl != 0 || p + 1 + len >= end {
                    return fail(ParseErrorKind::UnbalancedParenthesis, p);
                }
                match self.parse_sub(p + 1 + len) {
                    Err(e) => Err(e),
                    Ok(body) => {
                        self.i = p + 1 + len + 1;
                        Ok(Value::substitution(body))
                    },
                }
            },
            Tokens::StringFunction(name) => {
                let mut full = String::from_str("$");
                full.append(name.as_str());
                self.parse_string_or_array_func_call(end, full)
            },
            Tokens::ArrayFunction(name) => {
                let mut full = String::from_str("@");
                full.append(name.as_str());
                self.parse_string_or_array_func_call(end, full)
            },
            Tokens::ArrayStart => {
                if command {
                    self.i = p + 1;
                    return Ok(Value::literal(token.to_str()));
                }
                self.i = p + 1;
                let (len, lvl) = self.scan_closer(p + 1, end, true);
                if lvl != 0 || p + 1 + len >= end {
                    return fail(ParseErrorKind::UnbalancedParenthesis, p);
                }
                match self.parse_array_definition(p + 1 + len) {
                    Err(e) => Err(e),
                    Ok(items) => {
                        if self.i != p + 1 + len {
                            return fail(ParseErrorKind::UnexpectedToken, self.i);
                        }
                        self.i = p + 1 + len + 1;
                        Ok(Value::array(items))
                    },
                }
            },
            other => {
                if stands_for_text(&other, command) {
                    self.i = p + 1;
                    Ok(Value::literal(other.to_str()))
                } else {
                    fail(ParseErrorKind::UnexpectedToken, p)
                }
            },
        }
    }

    /// The arguments of the call whose opening token is under the cursor.
    #[verifier::spinoff_prover]
    fn parse_string_or_array_func_call(&mut self, end: usize, name: String) -> (res: Result<
        Value,
        ParseError,
    >)
        requires
            old(self).i < end <= old(self).tokens.len(),
        ensures
            final(self).tokens == old(self).tokens,
            parse_call_arguments(old(self).kinds(), old(self).i as int, end as int, name@)
                == outcome(seen_value(res), final(self).i - old(self).i - 1),
            res is Ok ==> old(self).i < final(self).i <= end,
        decreases tokens_left(old(self).i as int, end as int), 0int,
    {
        reveal(parse_call_arguments);
        reveal(parse_words);
        let p = self.i;
        let ghost t = self.kinds();
        self.i = p + 1;
        let (len, lvl) = self.get_parens_vals(end);
        if lvl != 0 || p + 1 + len >= end {
            return fail(ParseErrorKind::UnbalancedParenthesis, p);
        }
        match self.parse_words(p + 1 + len, false) {
            Err(e) => Err(e),
            Ok(args) => {
                if self.i != p + 1 + len {
                    return fail(ParseErrorKind::UnexpectedToken, self.i);
                }
                self.i = p + 1 + len + 1;
                Ok(Value::call(name, args))
            },
        }
    }

    /// The items of an array literal, with the cursor behind its opening
    /// bracket and `end` at its closing one.
    fn parse_array_definition(&mut self, end: usize) -> (res: Result<Vec<Value>, ParseError>)
        requires
            old(self).i <= end <= old(self).tokens.len(),
        ensures
            final(self).tokens == old(self).tokens,
            parse_words(old(self).kinds(), old(self).i as int, end as int, false, Seq::empty())
                == outcome(seen_values(res), final(self).i - old(self).i),
            res is Ok ==> old(self).i <= final(self).i <= end,
        decreases tokens_left(old(self).i as int, end as int), 4int,
    {
        self.parse_words(end, false)
    }

    /// One word: pieces up to the token that ends it.
    #[verifier::spinoff_prover]
    fn parse_word(&mut self, end: usize, command: bool) -> (res: Result<Value, ParseError>)
        requires
            old(self).i <= end <= old(self).tokens.len(),
        ensures
            final(self).tokens == old(self).tokens,
            parse_word(old(self).kinds(), old(self).i as int, end as int, command, Seq::empty())
                == outcome(seen_value(res), final(self).i - old(self).i),
            res is Ok ==> old(self).i <= final(self).i <= end,
        decreases tokens_left(old(self).i as int, end as int), 2int,
    {
        reveal(parse_word);
        reveal(parse_fragment);
        let start = self.i;
        let mut pieces: Vec<Value> = Vec::new();
        let ghost t = self.kinds();
        let ghost whole = parse_word(t, start as int, end as int, command, Seq::empty());
        assert(values_view(pieces@) =~= Seq::empty());
        loop
            invariant
                start <= self.i <= end <= self.tokens.len(),
                start == old(self).i,
                self.tokens == old(self).tokens,
                t == self.kinds(),
                whole == parse_word(t, start as int, end as int, command, Seq::empty()),
                whole == shifted(
                    parse_word(t, self.i as int, end as int, command, values_view(pieces@)),
                    (self.i - start) as nat,
                ),
            ensures
                start <= self.i <= end,
                self.tokens == old(self).tokens,
                whole == Ok::<(SpecValue, nat), ParseError>(
                    (join(values_view(pieces@)), (self.i - start) as nat),
                ),
            decreases end - self.i,
        {
            reveal(parse_word);
            reveal(parse_fragment);
            if self.i >= end || closes_word(&self.tokens[self.i].token, command) {
                break ;
            }
            match self.parse_fragment(end, command) {
                Err(e) => {
                    return Err(e);
                },
                Ok(piece) => {
                    push_value(&mut pieces, piece);
                },
            }
        }
        Ok(join_words(pieces))
    }

    /// Words and the spaces between them, up to the token that ends the
    /// list.
    #[verifier::spinoff_prover]
    fn parse_words(&mut self, end: usize, command: bool) -> (res: Result<Vec<Value>, ParseError>)
        requires
            old(self).i <= end <= old(self).tokens.len(),
        ensures
            final(self).tokens == old(self).tokens,
            parse_words(old(self).kinds(), old(self).i as int, end as int, command, Seq::empty())
                == outcome(seen_values(res), final(self).i - old(self).i),
            res is Ok ==> old(self).i <= final(self).i <= end,
        decreases tokens_left(old(self).i as int, end as int), 3int,
    {
        reveal(parse_words);
        reveal(parse_word);
        let start = self.i;
        let mut words: Vec<Value> = Vec::new();
        let ghost t = self.kinds();
        let ghost whole = parse_words(t, start as int, end as int, command, Seq::empty());
        assert(values_view(words@) =~= Seq::empty());
        loop
            invariant
                start <= self.i <= end <= self.tokens.len(),
                start == old(self).i,
                self.tokens == old(self).tokens,
                t == self.kinds(),
                whole == parse_words(t, start as int, end as int, command, Seq::empty()),
                whole == shifted(
                    parse_words(t, self.i as int, end as int, command, values_view(words@)),
                    (self.i - start) as nat,
                ),
            ensures
                start <= self.i <= end,
                self.tokens == old(self).tokens,
                whole == Ok::<(Seq<SpecValue>, nat), ParseError>(
                    (values_view(words@), (self.i - start) as nat),
                ),
            decreases end - self.i,
        {
            reveal(parse_words);
            reveal(parse_word);
            let ghost from = self.i;
            self.skip_spaces(end);
            if self.i >= end || closes_words(&self.tokens[self.i].token, command) {
                break ;
            }
            let before = self.i;
            match self.parse_word(end, command) {
                Err(e) => {
                    return Err(e);
                },
                Ok(word) => {
                    if self.i == before {
                        return fail(ParseErrorKind::UnexpectedToken, before);
                    }
                    push_value(&mut words, word);
                },
            }
        }
        Ok(words)
    }

    /// A value: with `stop_on_space`, the next word; without, all the words
    /// up to the end of the statement.
    #[verifier::spinoff_prover]
    pub fn get_value(&mut self, end: usize, stop_on_space: bool) -> (res: Result<Value, ParseError>)
        requires
            old(self).i <= end <= old(self).tokens.len(),
        ensures
            final(self).tokens == old(self).tokens,
            parse_value(old(self).kinds(), old(self).i as int, end as int, stop_on_space)
                == outcome(seen_value(res), final(self).i - old(self).i),
            res is Ok ==> old(self).i <= final(self).i <= end,
        decreases tokens_left(old(self).i as int, end as int), 4int,
    {
        reveal(parse_value);
        reveal(parse_word);
        reveal(parse_words);
        if stop_on_space {
            self.skip_spaces(end);
            self.parse_word(end, false)
        } else {
            match self.parse_words(end, false) {
                Err(e) => Err(e),
                Ok(words) => Ok(join_words(words)),
            }
        }
    }

    /// A command: words up to a separator or an operator.
    #[verifier::spinoff_prover]
    fn parse_call(&mut self, end: usize) -> (res: Result<Expression, ParseError>)
        requires
            old(self).i <= end <= old(self).tokens.len(),
        ensures
            final(self).tokens == old(self).tokens,
            parse_command(old(self).kinds(), old(self).i as int, end as int) == outcome(
                seen_expression(res),
                final(self).i - old(self).i,
            ),
            res is Ok ==> old(self).i <= final(self).i <= end,
        decreases tokens_left(old(self).i as int, end as int), 4int,
    {
        reveal(parse_command);
        reveal(parse_words);
        let start = self.i;
        match self.parse_words(end, true) {
            Err(e) => Err(e),
            Ok(words) => {
                if first_is_reserved(&words) {
                    return fail(ParseErrorKind::ReservedWord, start);
                }
                Ok(Expression::command(to_command(words)))
            },
        }
    }

    /// The file name after a redirect, with the cursor behind the operator.
    #[verifier::spinoff_prover]
    fn parse_redirect_name(&mut self, end: usize) -> (res: Result<Value, ParseError>)
        requires
            old(self).i <= end <= old(self).tokens.len(),
        ensures
            final(self).tokens == old(self).tokens,
            parse_redirect_name(old(self).kinds(), old(self).i as int, end as int) == outcome(
                seen_value(res),
                final(self).i - old(self).i,
            ),
            res is Ok ==> old(self).i <= final(self).i <= end,
        decreases tokens_left(old(self).i as int, end as int), 4int,
    {
        reveal(parse_redirect_name);
        reveal(parse_word);
        self.skip_spaces(end);
        if self.i >= end {
            return fail(ParseErrorKind::UnexpectedCommandEnd, self.i);
        }
        match &self.tokens[self.i].token {
            Tokens::CommandEnd(_) => {
                return fail(ParseErrorKind::UnexpectedCommandEnd, self.i);
            },
            Tokens::FileRead | Tokens::FileWrite => {
                return fail(ParseErrorKind::UnexpectedToken, self.i);
            },
            _ => {},
        }
        self.parse_word(end, false)
    }

    /// `target < source`, with the cursor on `<`.
    fn parse_read(&mut self, target: Option<Expression>, end: usize) -> (res: Result<
        Expression,
        ParseError,
    >)
        requires
            old(self).i < end <= old(self).tokens.len(),
        ensures
            final(self).tokens == old(self).tokens,
            match res {
                Ok(e) => {
                    &&& parse_redirect_name(old(self).kinds(), old(self).i + 1, end as int) matches Ok(
                        (name, n),
                    )
                    &&& e@ == (SpecExpression::FileSource {
                        source: Box::new(name),
                        target: boxed(seen(target)),
                    })
                    &&& final(self).i == old(self).i + 1 + n
                    &&& final(self).i <= end
                },
                Err(e) => parse_redirect_name(old(self).kinds(), old(self).i + 1, end as int)
                    == Err::<(SpecValue, nat), ParseError>(e),
            },
        decreases tokens_left(old(self).i as int, end as int), 5int,
    {
        self.i += 1;
        match self.parse_redirect_name(end) {
            Err(e) => Err(e),
            Ok(source) => Ok(Expression::read_from(source, target)),
        }
    }

    /// `source > target`, with the cursor on `>`.
    fn parse_write(&mut self, source: Option<Expression>, end: usize) -> (res: Result<
        Expression,
        ParseError,
    >)
        requires
            old(self).i < end <= old(self).tokens.len(),
        ensures
            final(self).tokens == old(self).tokens,
            match res {
                Ok(e) => {
                    &&& parse_redirect_name(old(self).kinds(), old(self).i + 1, end as int) matches Ok(
                        (name, n),
                    )
                    &&& e@ == (SpecExpression::FileTarget {
                        source: boxed(seen(source)),
                        target: Box::new(name),
                    })
                    &&& final(self).i == old(self).i + 1 + n
                    &&& final(self).i <= end
                },
                Err(e) => parse_redirect_name(old(self).kinds(), old(self).i + 1, end as int)
                    == Err::<(SpecValue, nat), ParseError>(e),
            },
        decreases tokens_left(old(self).i as int, end as int), 5int,
    {
        self.i += 1;
        match self.parse_redirect_name(end) {
            Err(e) => Err(e),
            Ok(target) => Ok(Expression::write_to(source, target)),
        }
    }

    /// `let key = value`, with the cursor on `let`.
    #[verifier::spinoff_prover]
    fn parse_let(&mut self, end: usize) -> (res: Result<Expression, ParseError>)
        requires
            old(self).i < end <= old(self).tokens.len(),
        ensures
            final(self).tokens == old(self).tokens,
            parse_let(old(self).kinds(), old(self).i as int, end as int) == outcome(
                seen_expression(res),
                final(self).i - old(self).i - 1,
            ),
            res is Ok ==> old(self).i < final(self).i <= end,
        decreases tokens_left(old(self).i as int, end as int), 6int,
    {
        reveal(parse_let);
        reveal(parse_value);
        let p = self.i;
        let ghost t = self.kinds();
        let mut k: usize = 0;
        let mut found = false;
        while p + 1 + k < end
            invariant_except_break
                !found,
            invariant
                p < end <= self.tokens.len(),
                p + 1 + k <= end,
                t == self.kinds(),
                find_assignment(t, p + 1, end as int) == match find_assignment(
                    t,
                    p + 1 + k,
                    end as int,
                ) {
                    Some(n) => Some((n + k) as nat),
                    None => None,
                },
            ensures
                p + 1 + k <= end,
                found ==> find_assignment(t, p + 1, end as int) == Some(k as nat) && p + 1 + k
                    < end,
                !found ==> find_assignment(t, p + 1, end as int) is None,
            decreases end - (p + 1 + k),
        {
            if matches!(self.tokens[p + 1 + k].token, Tokens::ExportSet) {
                found = true;
                break ;
            }
            k += 1;
        }
        if !found {
            return fail(ParseErrorKind::LetWithoutAssignment, p);
        }
        self.i = p + 1;
        let key = match self.get_value(p + 1 + k, false) {
            Err(e) => {
                return Err(e);
            },
            Ok(key) => key,
        };
        if self.i != p + 1 + k {
            return fail(ParseErrorKind::UnexpectedToken, self.i);
        }
        self.i = p + 1 + k + 1;
        match self.get_value(end, false) {
            Err(e) => Err(e),
            Ok(value) => Ok(Expression::assignment(key, value)),
        }
    }

    /// A function definition. The language keeps the syntax for it; the
    /// builder does not make the tree yet.
    fn parse_function(&mut self, end: usize) -> (res: Result<Expression, ParseError>)
        ensures
            *final(self) == *old(self),
            res == Err::<Expression, ParseError>(
                error(ParseErrorKind::NotImplemented, old(self).i as int),
            ),
    {
        fail(ParseErrorKind::NotImplemented, self.i)
    }

    /// The statements of a block, up to the `else` or `end` that closes it;
    /// the cursor is left on that token.
    #[verifier::spinoff_prover]
    fn parse_block(&mut self, end: usize) -> (res: Result<Vec<Expression>, ParseError>)
        requires
            old(self).i <= end <= old(self).tokens.len(),
        ensures
            final(self).tokens == old(self).tokens,
            parse_block(old(self).kinds(), old(self).i as int, end as int, Seq::empty())
                == outcome(seen_expressions(res), final(self).i - old(self).i),
            res is Ok ==> old(self).i <= final(self).i < end,
            res is Ok ==> (old(self).kinds()[final(self).i as int] is End
                || old(self).kinds()[final(self).i as int] is Else),
        decreases tokens_left(old(self).i as int, end as int), 11int,
    {
        reveal(parse_block);
        reveal(parse_expression);
        let start = self.i;
        let mut body: Vec<Expression> = Vec::new();
        let ghost t = self.kinds();
        let ghost whole = parse_block(t, start as int, end as int, Seq::empty());
        assert(expressions_view(body@) =~= Seq::empty());
        loop
            invariant
                start <= self.i <= end <= self.tokens.len(),
                start == old(self).i,
                self.tokens == old(self).tokens,
                t == self.kinds(),
                whole == parse_block(t, start as int, end as int, Seq::empty()),
                whole == shifted(
                    parse_block(t, self.i as int, end as int, expressions_view(body@)),
                    (self.i - start) as nat,
                ),
            ensures
                start <= self.i < end,
                self.tokens == old(self).tokens,
                t[self.i as int] is End || t[self.i as int] is Else,
                whole == Ok::<(Seq<SpecExpression>, nat), ParseError>(
                    (expressions_view(body@), (self.i - start) as nat),
                ),
            decreases end - self.i,
        {
            reveal(parse_block);
            reveal(parse_expression);
            let ghost from = self.i;
            self.skip_blanks(end);
            if self.i >= end {
                return fail(ParseErrorKind::MissingEnd, self.i);
            }
            if matches!(self.tokens[self.i].token, Tokens::End | Tokens::Else) {
                break ;
            }
            match self.get_expression(end) {
                Err(e) => {
                    return Err(e);
                },
                Ok(statement) => {
                    push_expression(&mut body, statement);
                },
            }
        }
        Ok(body)
    }

    /// What closes a block, with the cursor on `else` or `end`: gives the
    /// statements of the else branch.
    #[verifier::spinoff_prover]
    fn parse_else(&mut self, end: usize) -> (res: Result<Vec<Expression>, ParseError>)
        requires
            old(self).i <= end <= old(self).tokens.len(),
        ensures
            final(self).tokens == old(self).tokens,
            parse_else(old(self).kinds(), old(self).i as int, end as int) == outcome(
                seen_expressions(res),
                final(self).i - old(self).i,
            ),
            res is Ok ==> old(self).i < final(self).i <= end,
        decreases tokens_left(old(self).i as int, end as int), 12int,
    {
        reveal(parse_else);
        reveal(parse_if);
        reveal(parse_block);
        let i = self.i;
        if i >= end {
            return fail(ParseErrorKind::MissingEnd, i);
        }
        match &self.tokens[i].token {
            Tokens::End => {
                self.i = i + 1;
                let none: Vec<Expression> = Vec::new();
                assert(expressions_view(none@) =~= Seq::empty());
                Ok(none)
            },
            Tokens::Else => {
                self.i = i + 1;
                self.skip_blanks(end);
                if self.i < end && matches!(self.tokens[self.i].token, Tokens::If) {
                    match self.parse_if(end) {
                        Err(e) => Err(e),
                        Ok(inner) => {
                            let mut one: Vec<Expression> = Vec::new();
                            let ghost seen_inner = inner@;
                            push_expression(&mut one, inner);
                            assert(expressions_view(one@) =~= seq![seen_inner]);
                            Ok(one)
                        },
                    }
                } else {
                    self.i = i + 1;
                    match self.parse_block(end) {
                        Err(e) => Err(e),
                        Ok(body) => {
                            if matches!(self.tokens[self.i].token, Tokens::End) {
                                self.i += 1;
                                Ok(body)
                            } else {
                                fail(ParseErrorKind::UnexpectedElse, self.i)
                            }
                        },
                    }
                }
            },
            _ => fail(ParseErrorKind::MissingEnd, i),
        }
    }

    /// `if ...`, with the cursor on `if`.
    #[verifier::spinoff_prover]
    fn parse_if(&mut self, end: usize) -> (res: Result<Expression, ParseError>)
        requires
            old(self).i < end <= old(self).tokens.len(),
        ensures
            final(self).tokens == old(self).tokens,
            parse_if(old(self).kinds(), old(self).i as int, end as int) == outcome(
                seen_expression(res),
                final(self).i - old(self).i - 1,
            ),
            res is Ok ==> old(self).i < final(self).i <= end,
        decreases tokens_left(old(self).i as int, end as int), 6int,
    {
        reveal(parse_if);
        reveal(parse_expression);
        reveal(parse_block);
        reveal(parse_else);
        self.i += 1;
        let condition = match self.get_expression(end) {
            Err(e) => {
                return Err(e);
            },
            Ok(c) => c,
        };
        let contents = match self.parse_block(end) {
            Err(e) => {
                return Err(e);
            },
            Ok(b) => b,
        };
        match self.parse_else(end) {
            Err(e) => Err(e),
            Ok(else_contents) => Ok(Expression::conditional(condition, contents, else_contents)),
        }
    }

    /// `while ...`, with the cursor on `while`.
    #[verifier::spinoff_prover]
    fn parse_while(&mut self, end: usize) -> (res: Result<Expression, ParseError>)
        requires
            old(self).i < end <= old(self).tokens.len(),
        ensures
            final(self).tokens == old(self).tokens,
            parse_while(old(self).kinds(), old(self).i as int, end as int) == outcome(
                seen_expression(res),
                final(self).i - old(self).i - 1,
            ),
            res is Ok ==> old(self).i < final(self).i <= end,
        decreases tokens_left(old(self).i as int, end as int), 6int,
    {
        reveal(parse_while);
        reveal(parse_expression);
        reveal(parse_block);
        self.i += 1;
        let condition = match self.get_expression(end) {
            Err(e) => {
                return Err(e);
            },
            Ok(c) => c,
        };
        let contents = match self.parse_block(end) {
            Err(e) => {
                return Err(e);
            },
            Ok(b) => b,
        };
        if matches!(self.tokens[self.i].token, Tokens::End) {
            self.i += 1;
            Ok(Expression::repeat(condition, contents))
        } else {
            fail(ParseErrorKind::UnexpectedElse, self.i)
        }
    }

    /// `for ...`, with the cursor on `for`.
    #[verifier::spinoff_prover]
    fn parse_for(&mut self, end: usize) -> (res: Result<Expression, ParseError>)
        requires
            old(self).i < end <= old(self).tokens.len(),
        ensures
            final(self).tokens == old(self).tokens,
            parse_for(old(self).kinds(), old(self).i as int, end as int) == outcome(
                seen_expression(res),
                final(self).i - old(self).i - 1,
            ),
            res is Ok ==> old(self).i < final(self).i <= end,
        decreases tokens_left(old(self).i as int, end as int), 6int,
    {
        reveal(parse_for);
        reveal(parse_value);
        reveal(parse_for_body);
        let p = self.i;
        self.i += 1;
        let first = match self.get_value(end, true) {
            Err(e) => {
                return Err(e);
            },
            Ok(v) => v,
        };
        let second = match self.get_value(end, true) {
            Err(e) => {
                return Err(e);
            },
            Ok(v) => v,
        };
        if is_in(&second) {
            return self.parse_for_body(p, end, first, None);
        }
        let before = self.i;
        let third = match self.get_value(end, true) {
            Err(e) => {
                return Err(e);
            },
            Ok(v) => v,
        };
        if !is_in(&third) {
            return fail(ParseErrorKind::ExpectedIn, before);
        }
        self.parse_for_body(p, end, second, Some(first))
    }

    /// The list and the bodies of a `for` loop, with the cursor behind
    /// `in`; `p` is where the `for` stands.
    #[verifier::spinoff_prover]
    fn parse_for_body(
        &mut self,
        p: usize,
        end: usize,
        arg_value: Value,
        arg_key: Option<Value>,
    ) -> (res: Result<Expression, ParseError>)
        requires
            p < old(self).i <= end <= old(self).tokens.len(),
        ensures
            final(self).tokens == old(self).tokens,
            parse_for_body(
                old(self).kinds(),
                p as int,
                end as int,
                arg_value@,
                match arg_key {
                    Some(k) => Some(Box::new(k@)),
                    None => None,
                },
                (old(self).i - p - 1) as nat,
            ) == outcome(seen_expression(res), final(self).i - p - 1),
            res is Ok ==> old(self).i <= final(self).i <= end,
        decreases tokens_left(p as int, end as int), 5int,
    {
        reveal(parse_for_body);
        reveal(parse_value);
        reveal(parse_block);
        reveal(parse_else);
        let list = match self.get_value(end, false) {
            Err(e) => {
                return Err(e);
            },
            Ok(v) => v,
        };
        let contents = match self.parse_block(end) {
            Err(e) => {
                return Err(e);
            },
            Ok(b) => b,
        };
        match self.parse_else(end) {
            Err(e) => Err(e),
            Ok(else_contents) => Ok(
                Expression::each(arg_value, arg_key, list, contents, else_contents),
            ),
        }
    }

    /// What follows an expression: file redirects, which wrap it, and an
    /// operator with all that stands to its right.
    #[verifier::spinoff_prover]
    fn parse_rest(&mut self, left: Option<Expression>, end: usize) -> (res: Result<
        Expression,
        ParseError,
    >)
        requires
            old(self).i <= end <= old(self).tokens.len(),
        ensures
            final(self).tokens == old(self).tokens,
            parse_rest(old(self).kinds(), seen(left), old(self).i as int, end as int) == outcome(
                seen_expression(res),
                final(self).i - old(self).i,
            ),
            res is Ok ==> old(self).i <= final(self).i <= end,
        decreases tokens_left(old(self).i as int, end as int), 8int,
    {
        reveal(parse_rest);
        reveal(parse_redirect_name);
        reveal(parse_expression);
        let ghost start = self.i;
        self.skip_spaces(end);
        if self.i >= end {
            return match left {
                Some(e) => Ok(e),
                None => fail(ParseErrorKind::NoExpression, self.i),
            };
        }
        let p = self.i;
        match self.tokens[p].token.duplicate() {
            Tokens::CommandEnd(_) => match left {
                Some(e) => Ok(e),
                None => fail(ParseErrorKind::NoExpression, p),
            },
            Tokens::FileRead => match self.parse_read(left, end) {
                Err(e) => Err(e),
                Ok(wrapped) => self.parse_rest(Some(wrapped), end),
            },
            Tokens::FileWrite => match self.parse_write(left, end) {
                Err(e) => Err(e),
                Ok(wrapped) => self.parse_rest(Some(wrapped), end),
            },
            Tokens::RedirectInto => match left {
                None => fail(ParseErrorKind::UnexpectedToken, p),
                Some(first) => {
                    self.i = p + 1;
                    match self.get_expression(end) {
                        Err(e) => Err(e),
                        Ok(second) => Ok(Expression::pipe(first, second)),
                    }
                },
            },
            Tokens::And => match left {
                None => fail(ParseErrorKind::UnexpectedToken, p),
                Some(first) => {
                    self.i = p + 1;
                    match self.get_expression(end) {
                        Err(e) => Err(e),
                        Ok(second) => Ok(Expression::both(first, second)),
                    }
                },
            },
            Tokens::Or => match left {
                None => fail(ParseErrorKind::UnexpectedToken, p),
                Some(first) => {
                    self.i = p + 1;
                    match self.get_expression(end) {
                        Err(e) => Err(e),
                        Ok(second) => Ok(Expression::either(first, second)),
                    }
                },
            },
            _ => fail(ParseErrorKind::UnexpectedToken, p),
        }
    }

    /// A command and what follows it, with the cursor on its first token.
    #[verifier::spinoff_prover]
    fn command_line(&mut self, end: usize) -> (res: Result<Expression, ParseError>)
        requires
            old(self).i < end <= old(self).tokens.len(),
        ensures
            final(self).tokens == old(self).tokens,
            parse_command_line(old(self).kinds(), old(self).i as int, end as int) == outcome(
                seen_expression(res),
                final(self).i - old(self).i - 1,
            ),
            res is Ok ==> old(self).i < final(self).i <= end,
        decreases tokens_left(old(self).i as int, end as int), 9int,
    {
        reveal(parse_command_line);
        reveal(parse_command);
        reveal(parse_rest);
        let p = self.i;
        match self.parse_call(end) {
            Err(e) => Err(e),
            Ok(command) => {
                if self.i == p {
                    return fail(ParseErrorKind::UnexpectedToken, p);
                }
                self.parse_rest(Some(command), end)
            },
        }
    }

    /// A redirect that wraps nothing, and what follows it, with the cursor
    /// on the operator.
    #[verifier::spinoff_prover]
    fn redirect_line(&mut self, end: usize) -> (res: Result<Expression, ParseError>)
        requires
            old(self).i < end <= old(self).tokens.len(),
        ensures
            final(self).tokens == old(self).tokens,
            parse_redirect_line(old(self).kinds(), old(self).i as int, end as int) == outcome(
                seen_expression(res),
                final(self).i - old(self).i - 1,
            ),
            res is Ok ==> old(self).i < final(self).i <= end,
        decreases tokens_left(old(self).i as int, end as int), 9int,
    {
        reveal(parse_redirect_line);
        reveal(parse_rest);
        let p = self.i;
        match self.parse_rest(None, end) {
            Err(e) => Err(e),
            Ok(all) => {
                if self.i == p {
                    return fail(ParseErrorKind::UnexpectedToken, p);
                }
                Ok(all)
            },
        }
    }

    /// An expression in parentheses and what follows it, with the cursor on
    /// the opening parenthesis.
    #[verifier::spinoff_prover]
    fn grouped(&mut self, end: usize) -> (res: Result<Expression, ParseError>)
        requires
            old(self).i < end <= old(self).tokens.len(),
        ensures
            final(self).tokens == old(self).tokens,
            parse_grouped(old(self).kinds(), old(self).i as int, end as int) == outcome(
                seen_expression(res),
                final(self).i - old(self).i - 1,
            ),
            res is Ok ==> old(self).i < final(self).i <= end,
        decreases tokens_left(old(self).i as int, end as int), 9int,
    {
        reveal(parse_grouped);
        reveal(parse_expression);
        reveal(parse_rest);
        let p = self.i;
        self.i = p + 1;
        let (len, lvl) = self.get_parens_vals(end);
        if lvl != 0 || p + 1 + len >= end {
            return fail(ParseErrorKind::UnbalancedParenthesis, p);
        }
        match self.get_expression(p + 1 + len) {
            Err(e) => Err(e),
            Ok(inner) => {
                self.skip_blanks(p + 1 + len);
                if self.i != p + 1 + len {
                    return fail(ParseErrorKind::UnexpectedToken, self.i);
                }
                self.i = p + 1 + len + 1;
                self.parse_rest(Some(inner), end)
            },
        }
    }

    /// `if` or `for` and what follows it, with the cursor on the keyword.
    #[verifier::spinoff_prover]
    fn branching(&mut self, end: usize) -> (res: Result<Expression, ParseError>)
        requires
            old(self).i < end <= old(self).tokens.len(),
            old(self).kinds()[old(self).i as int] is If || old(self).kinds()[old(self).i as int] is For,
        ensures
            final(self).tokens == old(self).tokens,
            parse_branching(old(self).kinds(), old(self).i as int, end as int) == outcome(
                seen_expression(res),
                final(self).i - old(self).i - 1,
            ),
            res is Ok ==> old(self).i < final(self).i <= end,
        decreases tokens_left(old(self).i as int, end as int), 9int,
    {
        reveal(parse_branching);
        reveal(parse_if);
        reveal(parse_for);
        reveal(parse_rest);
        let first = if matches!(self.tokens[self.i].token, Tokens::If) {
            self.parse_if(end)
        } else {
            self.parse_for(end)
        };
        match first {
            Err(e) => Err(e),
            Ok(tree) => self.parse_rest(Some(tree), end),
        }
    }

    /// `break` with its count, with the cursor on `break`.
    #[verifier::spinoff_prover]
    fn parse_break(&mut self, end: usize) -> (res: Result<Expression, ParseError>)
        requires
            old(self).i < end <= old(self).tokens.len(),
        ensures
            final(self).tokens == old(self).tokens,
            parse_break(old(self).kinds(), old(self).i as int, end as int) == outcome(
                seen_expression(res),
                final(self).i - old(self).i - 1,
            ),
            res is Ok ==> old(self).i < final(self).i <= end,
        decreases tokens_left(old(self).i as int, end as int), 9int,
    {
        reveal(parse_break);
        reveal(parse_value);
        self.i += 1;
        match self.get_value(end, false) {
            Err(e) => Err(e),
            Ok(num) => Ok(Expression::stop(num)),
        }
    }

    /// One expression.
    #[verifier::spinoff_prover]
    pub fn get_expression(&mut self, end: usize) -> (res: Result<Expression, ParseError>)
        requires
            old(self).i <= end <= old(self).tokens.len(),
        ensures
            final(self).tokens == old(self).tokens,
            parse_expression(old(self).kinds(), old(self).i as int, end as int) == outcome(
                seen_expression(res),
                final(self).i - old(self).i - 1,
            ),
            res is Ok ==> old(self).i < final(self).i <= end,
        decreases tokens_left(old(self).i as int, end as int), 10int,
    {
        reveal(parse_expression);
        reveal(parse_command_line);
        reveal(parse_redirect_line);
        reveal(parse_grouped);
        reveal(parse_branching);
        reveal(parse_while);
        reveal(parse_let);
        reveal(parse_break);
        self.skip_blanks(end);
        if self.i >= end {
            return fail(ParseErrorKind::NoExpression, self.i);
        }
        let p = self.i;
        match &self.tokens[p].token {
            Tokens::Literal(_) | Tokens::SubStart | Tokens::StringVariable(_, _) => {
                self.command_line(end)
            },
            Tokens::FileRead | Tokens::FileWrite => self.redirect_line(end),
            Tokens::ParenthesisStart => self.grouped(end),
            Tokens::If | Tokens::For => self.branching(end),
            Tokens::While => self.parse_while(end),
            Tokens::Let => self.parse_let(end),
            Tokens::Break => self.parse_break(end),
            Tokens::Function => self.parse_function(end),
            _ => fail(ParseErrorKind::UnexpectedToken, p),
        }
    }

    /// The statements from the cursor up to `end`.
    #[verifier::spinoff_prover]
    fn parse_sub(&mut self, end: usize) -> (res: Result<Vec<Expression>, ParseError>)
        requires
            old(self).i <= end <= old(self).tokens.len(),
        ensures
            final(self).tokens == old(self).tokens,
            parse_sequence(old(self).kinds(), old(self).i as int, end as int, Seq::empty())
                == outcome(seen_expressions(res), final(self).i - old(self).i),
            res is Ok ==> old(self).i <= final(self).i <= end,
        decreases tokens_left(old(self).i as int, end as int), 11int,
    {
        reveal(parse_sequence);
        reveal(parse_expression);
        let start = self.i;
        let mut body: Vec<Expression> = Vec::new();
        let ghost t = self.kinds();
        let ghost whole = parse_sequence(t, start as int, end as int, Seq::empty());
        assert(expressions_view(body@) =~= Seq::empty());
        loop
            invariant
                start <= self.i <= end <= self.tokens.len(),
                start == old(self).i,
                self.tokens == old(self).tokens,
                t == self.kinds(),
                whole == parse_sequence(t, start as int, end as int, Seq::empty()),
                whole == shifted(
                    parse_sequence(t, self.i as int, end as int, expressions_view(body@)),
                    (self.i - start) as nat,
                ),
            ensures
                start <= self.i <= end,
                self.tokens == old(self).tokens,
                whole == Ok::<(Seq<SpecExpression>, nat), ParseError>(
                    (expressions_view(body@), (self.i - start) as nat),
                ),
            decreases end - self.i,
        {
            reveal(parse_sequence);
            reveal(parse_expression);
            self.skip_blanks(end);
            if self.i >= end {
                break ;
            }
            match self.get_expression(end) {
                Err(e) => {
                    return Err(e);
                },
                Ok(statement) => {
                    push_expression(&mut body, statement);
                },
            }
        }
        Ok(body)
    }
}

/// What a routine returned, as the grammar states it: the tree and the
/// number of tokens, or the error.
pub open spec fn outcome<S>(res: Result<S, ParseError>, n: int) -> Result<(S, nat), ParseError> {
    match res {
        Ok(v) => Ok((v, n as nat)),
        Err(e) => Err(e),
    }
}

pub open spec fn seen_value(res: Result<Value, ParseError>) -> Result<SpecValue, ParseError> {
    match res {
        Ok(v) => Ok(v@),
        Err(e) => Err(e),
    }
}

pub open spec fn seen_values(res: Result<Vec<Value>, ParseError>) -> Result<
    Seq<SpecValue>,
    ParseError,
> {
    match res {
        Ok(v) => Ok(values_view(v@)),
        Err(e) => Err(e),
    }
}

pub open spec fn seen_expression(res: Result<Expression, ParseError>) -> Result<
    SpecExpression,
    ParseError,
> {
    match res {
        Ok(v) => Ok(v@),
        Err(e) => Err(e),
    }
}

pub open spec fn seen_expressions(res: Result<Vec<Expression>, ParseError>) -> Result<
    Seq<SpecExpression>,
    ParseError,
> {
    match res {
        Ok(v) => Ok(expressions_view(v@)),
        Err(e) => Err(e),
    }
}

pub open spec fn seen(e: Option<Expression>) -> Option<SpecExpression> {
    match e {
        Some(e) => Some(e@),
        None => None,
    }
}

pub open spec fn boxed(e: Option<SpecExpression>) -> Option<Box<SpecExpression>> {
    match e {
        Some(e) => Some(Box::new(e)),
        None => None,
    }
}

fn stands_for_text(token: &Tokens, command: bool) -> (r: bool)
    ensures
        r == reads_as_text(token@, command),
{
    if command {
        matches!(
            token,
            Tokens::Let | Tokens::ExportSet | Tokens::ParenthesisStart | Tokens::ParenthesisEnd
                | Tokens::ArrayStart | Tokens::ArrayEnd | Tokens::If | Tokens::Else | Tokens::While
                | Tokens::For | Tokens::Function | Tokens::End | Tokens::Break
        )
    } else {
        matches!(
            token,
            Tokens::FileRead | Tokens::FileWrite | Tokens::Function | Tokens::Else | Tokens::End
                | Tokens::For | Tokens::If | Tokens::Let | Tokens::While | Tokens::Break
        )
    }
}

fn closes_words(token: &Tokens, command: bool) -> (r: bool)
    ensures
        r == ends_words(token@, command),
{
    match token {
        Tokens::CommandEnd(_) => true,
        Tokens::FileWrite | Tokens::FileRead | Tokens::RedirectInto | Tokens::And | Tokens::Or
        | Tokens::JobCommandEnd => command,
        _ => false,
    }
}

fn closes_word(token: &Tokens, command: bool) -> (r: bool)
    ensures
        r == ends_word(token@, command),
{
    match token {
        Tokens::Space => true,
        _ => closes_words(token, command),
    }
}

fn join_words(words: Vec<Value>) -> (v: Value)
    ensures
        v@ == join(values_view(words@)),
{
    let mut words = words;
    if words.len() == 1 {
        match words.pop() {
            Some(w) => w,
            None => Value::values(words),
        }
    } else {
        Value::values(words)
    }
}

fn first_is_reserved(words: &Vec<Value>) -> (r: bool)
    ensures
        r == starts_reserved(values_view(words@)),
{
    reveal(value_view);
    if words.len() == 0 {
        return false;
    }
    match &words[0] {
        Value::Literal(w) => {
            let w = w.as_str();
            same_text(w, "set") || same_text(w, "loop") || same_text(w, "continue") || same_text(
                w,
                "return",
            ) || same_text(w, "fn")
        },
        _ => false,
    }
}

fn is_in(v: &Value) -> (r: bool)
    ensures
        r == (v@ == SpecValue::Literal("in"@)),
{
    reveal(value_view);
    match v {
        Value::Literal(w) => same_text(w.as_str(), "in"),
        _ => false,
    }
}

fn to_command(words: Vec<Value>) -> (out: Vec<CommandValue>)
    ensures
        command_values_view(out@) == as_command(values_view(words@)),
{
    let mut words = words;
    let ghost all = words@;
    let mut back: Vec<CommandValue> = Vec::new();
    while words.len() > 0
        invariant
            words@ == all.take(words.len() as int),
            back.len() + words.len() == all.len(),
            forall|k: int|
                0 <= k < back.len() ==> #[trigger] back[k]@ == SpecCommandValue::Value(
                    all[all.len() - 1 - k]@,
                ),
        decreases words.len(),
    {
        match words.pop() {
            Some(w) => back.push(CommandValue::word(w)),
            None => {},
        }
    }
    let mut out: Vec<CommandValue> = Vec::new();
    while back.len() > 0
        invariant
            back.len() + out.len() == all.len(),
            forall|k: int|
                0 <= k < back.len() ==> #[trigger] back[k]@ == SpecCommandValue::Value(
                    all[all.len() - 1 - k]@,
                ),
            forall|k: int|
                0 <= k < out.len() ==> #[trigger] out[k]@ == SpecCommandValue::Value(all[k]@),
        decreases back.len(),
    {
        match back.pop() {
            Some(w) => out.push(w),
            None => {},
        }
    }
    assert forall|k: int| 0 <= k < out.len() implies #[trigger] command_values_view(out@)[k]
        == as_command(values_view(all))[k] by {
        assert(out[k]@ == SpecCommandValue::Value(all[k]@));
    }
    assert(command_values_view(out@) =~= as_command(values_view(all)));
    out
}

/// What the user is told of an error of that kind.
pub open spec fn kind_text(kind: ParseErrorKind) -> Seq<char> {
    match kind {
        ParseErrorKind::UnexpectedToken => "unexpected token"@,
        ParseErrorKind::UnbalancedParenthesis => "parenthesis do not match"@,
        ParseErrorKind::MissingEnd => "missing end"@,
        ParseErrorKind::UnexpectedElse => "unexpected else"@,
        ParseErrorKind::LetWithoutAssignment => "let needs name and equal sign (=) at minimum"@,
        ParseErrorKind::ExpectedIn => "expected 'in' after for key"@,
        ParseErrorKind::ExpectedVariableName => "expected variable name"@,
        ParseErrorKind::UnexpectedCommandEnd => "unexpected command end"@,
        ParseErrorKind::ReservedWord => "reserved word"@,
        ParseErrorKind::NotImplemented => "not yet implemented"@,
        ParseErrorKind::NoExpression => "no expression found"@,
    }
}

/// What the user is told of the error: its kind, and the text of the token
/// at which it was found, where it was found at one.
pub open spec fn error_text(e: ParseError, tokens: Seq<Token>) -> Seq<char> {
    if e.at < tokens.len() {
        kind_text(e.kind) + ": "@ + spec_to_str(tokens[e.at as int].token@)
    } else {
        kind_text(e.kind)
    }
}

/// The message shown to the user for an error that building the tree of
/// `tokens` gave.
pub fn describe(e: &ParseError, tokens: &Vec<Token>) -> (m: String)
    ensures
        m@ == error_text(*e, tokens@),
{
    let mut m = String::from_str(
        match e.kind {
            ParseErrorKind::UnexpectedToken => "unexpected token",
            ParseErrorKind::UnbalancedParenthesis => "parenthesis do not match",
            ParseErrorKind::MissingEnd => "missing end",
            ParseErrorKind::UnexpectedElse => "unexpected else",
            ParseErrorKind::LetWithoutAssignment => "let needs name and equal sign (=) at minimum",
            ParseErrorKind::ExpectedIn => "expected 'in' after for key",
            ParseErrorKind::ExpectedVariableName => "expected variable name",
            ParseErrorKind::UnexpectedCommandEnd => "unexpected command end",
            ParseErrorKind::ReservedWord => "reserved word",
            ParseErrorKind::NotImplemented => "not yet implemented",
            ParseErrorKind::NoExpression => "no expression found",
        },
    );
    if e.at < tokens.len() {
        m.append(": ");
        m.append(tokens[e.at].token.to_str().as_str());
    }
    m
}

/// Builds the tree of a whole program.
///
/// The result is what the grammar gives for the kinds of the tokens; it
/// fails exactly where the grammar fails, with the same error.
pub fn build_tree(tokens: Vec<Token>) -> (res: Result<Vec<Expression>, ParseError>)
    ensures
        parse_program(kinds_of(tokens@)) == seen_expressions(res),
{
    let end = tokens.len();
    let mut tree = Tree { tokens, i: 0 };
    tree.parse_sub(end)
}

} // verus!
