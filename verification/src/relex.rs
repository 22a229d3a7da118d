//! The text of a token lexes to that token again.
//!
//! Take the text that a token was read from and lex it alone: the result is
//! one token of the same kind, which spans the whole text. This holds of
//! every token that starts with `$` or `@`, and of every other token that
//! starts outside double quotes. A word that starts inside double quotes
//! (behind a variable that stands in them) is lexed alone from outside
//! quotes: the law holds of it where its text reads the same there, as
//! `-y"` does, and not where it does not, as ` b"` does not. The law is
//! stated over positions in characters and over the spans in bytes that
//! `tokenize` gives.
use vstd::prelude::*;
use vstd::utf8::{decode_utf8, encode_utf8};
use crate::text::{byte_offset, lemma_byte_offset_monotone, lemma_bytes_of_range};
use crate::tokens::{
    byte_spans, CharClass, detect, emit, flush, in_class, initial_state, is_separator,
    lemma_run_end_bounds, lemma_step_advances, lex, lex_from, lex_step, LexError, LexState, next_is,
    read_var, run_end, single_operator, SpecToken, SpecTokens, VarRead,
};

verus! {

/// Whether the move from `st` ends the pending word: a token is read, or
/// a comment is passed over.
pub open spec fn ends_word(s: Seq<char>, st: LexState) -> bool {
    let c = s[st.pos];
    let plain = !st.escape && !st.single_quote && !st.double_quote;
    ((c == '$' || c == '@') && !st.escape && !st.single_quote) || (plain && (is_separator(c) || c
        == '&' || c == '|' || c == ' ' || single_operator(c) is Some || c == '#'))
}

/// The state after a move that does not end the word: a quote switches its
/// mode, a backslash marks the next character, any other character joins
/// the word.
pub open spec fn word_step(st: LexState, c: char) -> LexState {
    if c == '"' && !st.escape && !st.single_quote {
        LexState { pos: st.pos + 1, double_quote: !st.double_quote, ..st }
    } else if c == '\'' && !st.escape && !st.double_quote {
        LexState { pos: st.pos + 1, single_quote: !st.single_quote, ..st }
    } else if c == '\\' && !st.escape && !st.single_quote {
        LexState { pos: st.pos + 1, escape: true, ..st }
    } else {
        LexState { pos: st.pos + 1, escape: false, buf: st.buf.push(c), ..st }
    }
}

pub proof fn lemma_word_step(s: Seq<char>, st: LexState)
    requires
        0 <= st.pos < s.len(),
        !ends_word(s, st),
    ensures
        lex_step(s, st) == Ok::<LexState, LexError>(word_step(st, s[st.pos])),
{
}

/// Whether the moves from `st` up to the position `b` all leave the word
/// open.
pub open spec fn all_word_steps(s: Seq<char>, st: LexState, b: int) -> bool
    decreases b - st.pos,
{
    st.pos >= b || (0 <= st.pos < s.len() && !ends_word(s, st) && all_word_steps(
        s,
        word_step(st, s[st.pos]),
        b,
    ))
}

/// The state at `b` after such moves.
pub open spec fn word_run(s: Seq<char>, st: LexState, b: int) -> LexState
    decreases b - st.pos,
{
    if st.pos >= b {
        st
    } else {
        word_run(s, word_step(st, s[st.pos]), b)
    }
}

proof fn lemma_word_run_shape(s: Seq<char>, st: LexState, b: int)
    requires
        st.pos <= b,
    ensures
        word_run(s, st, b).pos == b,
        word_run(s, st, b).word_start == st.word_start,
        word_run(s, st, b).tokens == st.tokens,
    decreases b - st.pos,
{
    if st.pos < b {
        lemma_word_run_shape(s, word_step(st, s[st.pos]), b);
    }
}

proof fn lemma_word_run_extend(s: Seq<char>, q: LexState, p: int)
    requires
        0 <= q.pos <= p < s.len(),
        all_word_steps(s, q, p),
        !ends_word(s, word_run(s, q, p)),
    ensures
        all_word_steps(s, q, p + 1),
        word_run(s, q, p + 1) == word_step(word_run(s, q, p), s[p]),
    decreases p - q.pos,
{
    lemma_word_run_shape(s, q, p);
    if q.pos < p {
        lemma_word_run_extend(s, word_step(q, s[q.pos]), p);
    } else {
        let next = word_step(q, s[q.pos]);
        assert(all_word_steps(s, next, p + 1));
        assert(word_run(s, next, p + 1) == next);
    }
}

/// A run of characters ends where it ends in any piece of the text that
/// holds it.
proof fn lemma_run_end_local(s: Seq<char>, a: int, b: int, from: int, class: CharClass)
    requires
        0 <= a <= from <= b <= s.len(),
        run_end(s, from, class) <= b,
    ensures
        run_end(s.subrange(a, b), from - a, class) == run_end(s, from, class) - a,
    decreases b - from,
{
    let sub = s.subrange(a, b);
    lemma_run_end_bounds(s, from, class);
    if from < b {
        assert(sub[from - a] == s[from]);
        if in_class(class, s[from]) {
            lemma_run_end_bounds(s, from + 1, class);
            lemma_run_end_local(s, a, b, from + 1, class);
        }
    }
}

/// The one token of a text that a single move reads whole.
pub open spec fn alone(token: SpecTokens, len: int) -> Result<Seq<SpecToken>, LexError> {
    Ok(seq![SpecToken { token, start: 0, end: len as nat }])
}

/// The text lexes to the one token `token`.
pub open spec fn lexes_alone(text: Seq<char>, token: SpecTokens) -> bool {
    lex(text) == alone(token, text.len() as int)
}

/// Once a first move has read the whole text as one token, that token is
/// all there is.
proof fn lemma_one_move(text: Seq<char>, token: SpecTokens)
    requires
        text.len() > 0,
        lex_step(text, initial_state()) == Ok::<LexState, LexError>(
            emit(initial_state(), token, text.len() as int),
        ),
    ensures
        lexes_alone(text, token),
{
    let next = emit(initial_state(), token, text.len() as int);
    assert(lex_from(text, initial_state()) == lex_from(text, next));
    assert(initial_state().buf.len() == 0);
    assert(next.tokens =~= seq![SpecToken { token, start: 0, end: text.len() }]);
    assert(lex_from(text, next) == Ok::<Seq<SpecToken>, LexError>(flush(next, text.len() as int)));
}

/// The text of an operator, of a run of spaces or of a run of separators
/// lexes to that token again.
proof fn lemma_operator_relexes(s: Seq<char>, st: LexState)
    requires
        0 <= st.pos < s.len(),
        !st.escape && !st.single_quote && !st.double_quote,
        ends_word(s, st),
        s[st.pos] != '$' && s[st.pos] != '@' && s[st.pos] != '#',
    ensures
        lex_step(s, st) matches Ok(next) && next.tokens.len() > 0 && next.pos == next.tokens.last().end
            && st.pos == next.tokens.last().start && lexes_alone(
            s.subrange(st.pos, next.pos),
            next.tokens.last().token,
        ),
{
    lemma_step_advances(s, st);
    let next = lex_step(s, st)->Ok_0;
    let c = s[st.pos];
    let text = s.subrange(st.pos, next.pos);
    let token = next.tokens.last().token;
    assert(text[0] == c);
    if is_separator(c) {
        lemma_run_end_local(s, st.pos, next.pos, st.pos + 1, CharClass::Separator);
    } else if c == ' ' {
        lemma_run_end_local(s, st.pos, next.pos, st.pos + 1, CharClass::Space);
    } else if c == '&' || c == '|' {
        if next_is(s, st.pos, c) {
            assert(text[1] == s[st.pos + 1]);
        }
    }
    lemma_one_move(text, token);
}


/// A variable reference reads alike in any piece of the text that holds
/// it.
proof fn lemma_read_var_local(s: Seq<char>, a: int, b: int)
    requires
        0 <= a < b <= s.len(),
        read_var(s, a) matches Ok(v) && v.end <= b,
    ensures
        read_var(s.subrange(a, b), 0) == Ok::<VarRead, LexError>(
            VarRead {
                name: read_var(s, a)->Ok_0.name,
                braced: read_var(s, a)->Ok_0.braced,
                end: read_var(s, a)->Ok_0.end - a,
            },
        ),
{
    let sub = s.subrange(a, b);
    let v = read_var(s, a)->Ok_0;
    assert(sub[0] == s[a]);
    let braced = a + 1 < s.len() && s[a + 1] == '{';
    let from = if braced {
        a + 2
    } else {
        a + 1
    };
    if from <= s.len() {
        lemma_run_end_bounds(s, from, CharClass::Name);
    }
    let stop = run_end(s, from, CharClass::Name);
    if 1 < sub.len() {
        assert(sub[1] == s[a + 1]);
    }
    assert(from <= b);
    lemma_run_end_local(s, a, b, from, CharClass::Name);
    if stop < b {
        assert(sub[stop - a] == s[stop]);
    }
    let marked = stop < s.len() && s[stop] == '?';
    let last = if marked {
        stop + 1
    } else {
        stop
    };
    if last < b {
        assert(sub[last - a] == s[last]);
    }
    assert(sub.subrange(from - a, last - a) =~= s.subrange(from, last));
}

/// The text of a variable reference, of a call or of the start of a
/// substitution lexes to that token again.
proof fn lemma_sigil_relexes(s: Seq<char>, st: LexState)
    requires
        0 <= st.pos < s.len(),
        s[st.pos] == '$' || s[st.pos] == '@',
        !st.escape && !st.single_quote,
        lex_step(s, st) is Ok,
    ensures
        lex_step(s, st) matches Ok(next) && next.tokens.len() > 0 && next.pos == next.tokens.last().end
            && st.pos == next.tokens.last().start && lexes_alone(
            s.subrange(st.pos, next.pos),
            next.tokens.last().token,
        ),
{
    lemma_step_advances(s, st);
    let next = lex_step(s, st)->Ok_0;
    let c = s[st.pos];
    let text = s.subrange(st.pos, next.pos);
    let token = next.tokens.last().token;
    assert(text[0] == c);
    if text.len() > 1 {
        assert(text[1] == s[st.pos + 1]);
    }
    if c == '$' && next_is(s, st.pos, '(') {
    } else {
        let v = read_var(s, st.pos)->Ok_0;
        lemma_read_var_local(s, st.pos, next.pos);
        if v.end < next.pos {
            assert(text[v.end - st.pos] == s[v.end]);
        }
    }
    lemma_one_move(text, token);
}

/// Two states, one in the text and one in a piece of it, that hold the same
/// word in the same modes.
pub open spec fn alike(st: LexState, part: LexState, a: int) -> bool {
    &&& part.pos == st.pos - a
    &&& part.single_quote == st.single_quote
    &&& part.double_quote == st.double_quote
    &&& part.escape == st.escape
    &&& part.buf == st.buf
}

/// The moves that leave a word open do in a piece of the text what they do
/// in the text.
proof fn lemma_word_alike(s: Seq<char>, a: int, b: int, st: LexState, part: LexState)
    requires
        0 <= a <= st.pos <= b <= s.len(),
        alike(st, part, a),
        part.tokens.len() == 0,
        all_word_steps(s, st, b),
    ensures
        lex_from(s.subrange(a, b), part) == Ok::<Seq<SpecToken>, LexError>(
            flush(
                LexState {
                    buf: word_run(s, st, b).buf,
                    word_start: part.word_start,
                    tokens: Seq::empty(),
                    ..part
                },
                b - a,
            ),
        ),
    decreases b - st.pos,
{
    let sub = s.subrange(a, b);
    if st.pos < b {
        let c = s[st.pos];
        assert(sub[part.pos] == c);
        assert(!ends_word(sub, part));
        lemma_word_step(sub, part);
        lemma_word_alike(s, a, b, word_step(st, c), word_step(part, c));
    } else {
        assert(part.tokens =~= Seq::empty());
    }
}

/// The text of a word that starts outside quotes lexes to that word
/// again.
proof fn lemma_word_relexes(s: Seq<char>, q: LexState, b: int)
    requires
        0 <= q.pos < b <= s.len(),
        q.buf.len() == 0,
        !q.escape && !q.single_quote && !q.double_quote,
        all_word_steps(s, q, b),
        word_run(s, q, b).buf.len() > 0,
    ensures
        lexes_alone(s.subrange(q.pos, b), detect(word_run(s, q, b).buf)),
{
    assert(q.buf =~= initial_state().buf);
    lemma_word_alike(s, q.pos, b, q, initial_state());
}

/// The state of the lexer when it has come to the position `p`, or beyond
/// it.
pub open spec fn seek(s: Seq<char>, st: LexState, p: int) -> LexState
    decreases s.len() - st.pos,
{
    if st.pos >= p || !(0 <= st.pos < s.len()) {
        st
    } else {
        match lex_step(s, st) {
            Err(e) => st,
            Ok(next) => {
                proof {
                    lemma_step_advances(s, st);
                }
                seek(s, next, p)
            },
        }
    }
}

/// Whether the lexer is inside double quotes when it comes to `p`.
pub open spec fn quoted_at(s: Seq<char>, p: int) -> bool {
    seek(s, initial_state(), p).double_quote
}

proof fn lemma_seek_twice(s: Seq<char>, st: LexState, near: int, far: int)
    requires
        near <= far,
    ensures
        seek(s, st, far) == seek(s, seek(s, st, near), far),
    decreases s.len() - st.pos,
{
    if st.pos >= near || !(0 <= st.pos < s.len()) {
    } else {
        match lex_step(s, st) {
            Err(e) => {},
            Ok(next) => {
                lemma_step_advances(s, st);
                lemma_seek_twice(s, next, near, far);
            },
        }
    }
}

proof fn lemma_seek_step(s: Seq<char>, st: LexState)
    requires
        0 <= st.pos < s.len(),
        seek(s, initial_state(), st.pos) == st,
        lex_step(s, st) is Ok,
    ensures
        seek(s, initial_state(), lex_step(s, st)->Ok_0.pos) == lex_step(s, st)->Ok_0,
{
    let next = lex_step(s, st)->Ok_0;
    lemma_step_advances(s, st);
    lemma_seek_twice(s, initial_state(), st.pos, next.pos);
    assert(seek(s, st, next.pos) == seek(s, next, next.pos));
}

/// Whether the token lexes to itself again when its text is lexed alone.
pub open spec fn relexes(s: Seq<char>, t: SpecToken) -> bool {
    t.start <= t.end <= s.len() && lexes_alone(s.subrange(t.start as int, t.end as int), t.token)
}

/// Whether the token starts with `$` or `@`, or outside double quotes.
pub open spec fn starts_clear(s: Seq<char>, t: SpecToken) -> bool {
    t.start < s.len() && (s[t.start as int] == '$' || s[t.start as int] == '@' || !quoted_at(
        s,
        t.start as int,
    ))
}

pub open spec fn good(s: Seq<char>, t: SpecToken) -> bool {
    starts_clear(s, t) ==> relexes(s, t)
}

/// The state in which the pending word of `st` began.
pub open spec fn word_origin(st: LexState, quoted: bool) -> LexState {
    LexState {
        pos: st.word_start,
        single_quote: false,
        double_quote: quoted,
        escape: false,
        word_start: st.word_start,
        buf: Seq::empty(),
        tokens: st.tokens,
    }
}

/// What holds of the lexer between any two moves: it has come to where it
/// is from the start of the text; the pending word has been open since it
/// began; and the tokens so far are good.
pub open spec fn on_track(s: Seq<char>, st: LexState, quoted: bool) -> bool {
    &&& 0 <= st.word_start <= st.pos <= s.len()
    &&& seek(s, initial_state(), st.pos) == st
    &&& quoted == quoted_at(s, st.word_start)
    &&& all_word_steps(s, word_origin(st, quoted), st.pos)
    &&& word_run(s, word_origin(st, quoted), st.pos) == st
    &&& forall|k: int| 0 <= k < st.tokens.len() ==> good(s, #[trigger] st.tokens[k])
}

/// The pending word, once it is emitted as ending where the lexer stands,
/// is good.
proof fn lemma_flushed_word_good(s: Seq<char>, st: LexState, quoted: bool)
    requires
        on_track(s, st, quoted),
    ensures
        forall|k: int|
            0 <= k < flush(st, st.pos).len() ==> good(s, #[trigger] flush(st, st.pos)[k]),
{
    if st.buf.len() > 0 {
        let q = word_origin(st, quoted);
        let t = SpecToken { token: detect(st.buf), start: st.word_start as nat, end: st.pos as nat };
        assert(q.pos < st.pos);
        assert(!ends_word(s, q));
        if !quoted {
            lemma_word_relexes(s, q, st.pos);
        }
        assert(good(s, t));
        assert forall|k: int| 0 <= k < flush(st, st.pos).len() implies good(
            s,
            #[trigger] flush(st, st.pos)[k],
        ) by {
            if k < st.tokens.len() {
                assert(flush(st, st.pos)[k] == st.tokens[k]);
            }
        }
    }
}

/// Every token that the lexer goes on to find is good.
proof fn lemma_run_good(s: Seq<char>, st: LexState, quoted: bool)
    requires
        on_track(s, st, quoted),
        lex_from(s, st) is Ok,
    ensures
        forall|k: int|
            0 <= k < lex_from(s, st)->Ok_0.len() ==> good(s, #[trigger] lex_from(s, st)->Ok_0[k]),
    decreases s.len() - st.pos,
{
    lemma_flushed_word_good(s, st, quoted);
    if 0 <= st.pos < s.len() {
        lemma_step_advances(s, st);
        let next = lex_step(s, st)->Ok_0;
        lemma_seek_step(s, st);
        let c = s[st.pos];
        if ends_word(s, st) {
            if c == '#' {
            } else if c == '$' || c == '@' {
                lemma_sigil_relexes(s, st);
                assert(good(s, next.tokens.last()));
            } else {
                lemma_operator_relexes(s, st);
                assert(good(s, next.tokens.last()));
            }
            assert(next.pos == next.word_start);
            assert(next.buf.len() == 0 && !next.escape && !next.single_quote);
            assert(word_origin(next, next.double_quote) == next);
            assert forall|k: int| 0 <= k < next.tokens.len() implies good(
                s,
                #[trigger] next.tokens[k],
            ) by {
                if k < flush(st, st.pos).len() {
                    assert(next.tokens[k] == flush(st, st.pos)[k]);
                }
            }
            lemma_run_good(s, next, next.double_quote);
        } else {
            lemma_word_step(s, st);
            lemma_word_run_extend(s, word_origin(st, quoted), st.pos);
            assert(word_origin(next, quoted) == word_origin(st, quoted));
            lemma_run_good(s, next, quoted);
        }
    } else {
        assert(st.pos == s.len());
    }
}

/// The state of a lexer that is about to read a word from `p` on, outside
/// quotes.
pub open spec fn word_from(p: int) -> LexState {
    LexState {
        pos: p,
        single_quote: false,
        double_quote: false,
        escape: false,
        word_start: p,
        buf: Seq::empty(),
        tokens: Seq::empty(),
    }
}

/// Whether the text of the token, read from outside quotes, is one word
/// that makes the token: each of its characters leaves the word open, and
/// the characters that the word gathers are those of the token.
pub open spec fn reads_as_word(s: Seq<char>, t: SpecToken) -> bool {
    &&& t.start < t.end <= s.len()
    &&& all_word_steps(s, word_from(t.start as int), t.end as int)
    &&& word_run(s, word_from(t.start as int), t.end as int).buf.len() > 0
    &&& t.token == detect(word_run(s, word_from(t.start as int), t.end as int).buf)
}

/// Whether the token is one of which the law speaks: it starts with `$`
/// or `@`, or outside double quotes; or it starts inside double quotes
/// and its text reads the same outside them. Left out are the tokens
/// inside double quotes whose text means something else outside them, as
/// the second token of `"$x b"` does: its text starts with a space, which
/// outside quotes is a token of its own.
pub open spec fn relexable(s: Seq<char>, t: SpecToken) -> bool {
    starts_clear(s, t) || reads_as_word(s, t)
}

/// A text that lexes to one token is not empty.
proof fn lemma_alone_is_not_empty(text: Seq<char>, token: SpecTokens)
    requires
        lexes_alone(text, token),
    ensures
        text.len() > 0,
{
    if text.len() == 0 {
        assert(lex(text) == Ok::<Seq<SpecToken>, LexError>(flush(initial_state(), 0)));
        assert(flush(initial_state(), 0).len() == 0);
        assert(seq![SpecToken { token, start: 0, end: 0 }].len() == 1);
    }
}

/// Take any token of a text that starts with `$` or `@`, or that starts
/// outside double quotes, or whose text reads the same outside double
/// quotes as inside. The piece of the text that it spans is not empty,
/// and lexed alone it gives that token again and nothing else: one token
/// of the same kind, which spans the whole piece.
pub proof fn lemma_token_relexes(s: Seq<char>, k: int)
    requires
        lex(s) is Ok,
        0 <= k < lex(s)->Ok_0.len(),
        relexable(s, lex(s)->Ok_0[k]),
    ensures
        ({
            let t = lex(s)->Ok_0[k];
            &&& t.start < t.end <= s.len()
            &&& lex(s.subrange(t.start as int, t.end as int)) == Ok::<Seq<SpecToken>, LexError>(
                seq![SpecToken { token: t.token, start: 0, end: (t.end - t.start) as nat }],
            )
        }),
{
    let t = lex(s)->Ok_0[k];
    if starts_clear(s, t) {
        let st = initial_state();
        assert(word_origin(st, false) == st);
        lemma_run_good(s, st, false);
        assert(good(s, t));
    } else {
        lemma_word_relexes(s, word_from(t.start as int), t.end as int);
    }
    lemma_alone_is_not_empty(s.subrange(t.start as int, t.end as int), t.token);
}

/// The same in bytes, as `tokenize` gives the spans. Take any such token
/// of a text. Its span is not empty and lies in the text; the bytes that
/// it spans are the UTF-8 encoding of a text; and that text, lexed alone,
/// gives one token of the same kind, which spans all its bytes.
pub proof fn lemma_token_relexes_in_bytes(s: Seq<char>, k: int)
    requires
        lex(s) is Ok,
        0 <= k < lex(s)->Ok_0.len(),
        relexable(s, lex(s)->Ok_0[k]),
    ensures
        ({
            let t = byte_spans(s, lex(s)->Ok_0)[k];
            let piece = decode_utf8(encode_utf8(s).subrange(t.start as int, t.end as int));
            &&& t.start < t.end <= encode_utf8(s).len()
            &&& encode_utf8(piece) == encode_utf8(s).subrange(t.start as int, t.end as int)
            &&& lex(piece) matches Ok(again)
            &&& byte_spans(piece, again) == seq![
                SpecToken { token: t.token, start: 0, end: (t.end - t.start) as nat },
            ]
        }),
{
    broadcast use vstd::utf8::encode_utf8_decode_utf8;

    let c = lex(s)->Ok_0[k];
    let t = byte_spans(s, lex(s)->Ok_0)[k];
    let a = c.start as int;
    let b = c.end as int;
    lemma_token_relexes(s, k);
    lemma_bytes_of_range(s, a, b);
    lemma_byte_offset_monotone(s, a, b);
    let piece = s.subrange(a, b);
    assert(decode_utf8(encode_utf8(piece)) == piece);
    let again = lex(piece)->Ok_0;
    assert(byte_offset(piece, 0) == 0) by {
        assert(piece.take(0) =~= Seq::<char>::empty());
    }
    assert(byte_spans(piece, again) =~= seq![
        SpecToken { token: t.token, start: 0, end: (t.end - t.start) as nat },
    ]);
}

/// Whether the character is an ordinary one inside double quotes: it
/// neither ends the quotes, nor escapes, nor starts a variable.
pub open spec fn is_ordinary(c: char) -> bool {
    c != '"' && c != '\\' && c != '$' && c != '@'
}

/// Whether the character is an ordinary one outside quotes: it is part of
/// a word and nothing else.
pub open spec fn is_plain_char(c: char) -> bool {
    is_ordinary(c) && c != '\'' && !is_separator(c) && c != '&' && c != '|' && c != ' '
        && single_operator(c) is None && c != '#'
}

/// The lexer goes through the moves that leave a word open without
/// finding a token.
pub proof fn lemma_lex_through_word(s: Seq<char>, st: LexState, b: int)
    requires
        0 <= st.pos <= b <= s.len(),
        all_word_steps(s, st, b),
    ensures
        lex_from(s, st) == lex_from(s, word_run(s, st, b)),
    decreases b - st.pos,
{
    if st.pos < b {
        lemma_word_step(s, st);
        lemma_lex_through_word(s, word_step(st, s[st.pos]), b);
    }
}

/// Outside quotes, ordinary characters join the pending word one by one.
pub proof fn lemma_plain_word(s: Seq<char>, st: LexState, b: int)
    requires
        0 <= st.pos <= b <= s.len(),
        !st.escape && !st.single_quote && !st.double_quote,
        forall|k: int| st.pos <= k < b ==> is_plain_char(#[trigger] s[k]),
    ensures
        all_word_steps(s, st, b),
        word_run(s, st, b) == (LexState {
            pos: b,
            buf: st.buf + s.subrange(st.pos, b),
            ..st
        }),
    decreases b - st.pos,
{
    if st.pos < b {
        let c = s[st.pos];
        assert(is_plain_char(c));
        let next = word_step(st, c);
        lemma_plain_word(s, next, b);
        assert(next.buf + s.subrange(next.pos, b) =~= st.buf + s.subrange(st.pos, b));
    } else {
        assert(st.buf + s.subrange(st.pos, b) =~= st.buf);
    }
}

proof fn lemma_quoted_run(s: Seq<char>, st: LexState, b: int)
    requires
        1 <= st.pos < b <= s.len(),
        s[b - 1] == '"',
        forall|i: int| st.pos <= i < b - 1 ==> is_ordinary(#[trigger] s[i]),
        st.double_quote && !st.single_quote && !st.escape,
    ensures
        all_word_steps(s, st, b),
        word_run(s, st, b) == (LexState {
            pos: b,
            double_quote: false,
            buf: st.buf + s.subrange(st.pos, b - 1),
            ..st
        }),
    decreases b - st.pos,
{
    let c = s[st.pos];
    let next = word_step(st, c);
    if st.pos < b - 1 {
        assert(is_ordinary(c));
        lemma_quoted_run(s, next, b);
        assert(next.buf + s.subrange(next.pos, b - 1) =~= st.buf + s.subrange(st.pos, b - 1));
    } else {
        assert(all_word_steps(s, next, b));
        assert(word_run(s, next, b) == next);
        assert(st.buf + s.subrange(st.pos, b - 1) =~= st.buf);
    }
}

/// A text in double quotes that holds none of `"`, `\`, `$` and `@` joins
/// the pending word unchanged, and the quotes are closed behind it.
pub proof fn lemma_quoted_segment(s: Seq<char>, st: LexState, b: int)
    requires
        0 <= st.pos,
        st.pos + 2 <= b <= s.len(),
        s[st.pos] == '"',
        s[b - 1] == '"',
        forall|i: int| st.pos < i < b - 1 ==> is_ordinary(#[trigger] s[i]),
        !st.double_quote && !st.single_quote && !st.escape,
    ensures
        all_word_steps(s, st, b),
        word_run(s, st, b) == (LexState {
            pos: b,
            buf: st.buf + s.subrange(st.pos + 1, b - 1),
            ..st
        }),
{
    let first = word_step(st, '"');
    lemma_quoted_run(s, first, b);
}

/// A text in double quotes that holds none of `"`, `\`, `$` and `@` lexes
/// to one word, which holds the text unchanged: to the literal of that
/// text, unless the text is a keyword or an operator written as a word.
pub proof fn lemma_quoted_word(inner: Seq<char>)
    requires
        inner.len() > 0,
        forall|i: int| 0 <= i < inner.len() ==> is_ordinary(#[trigger] inner[i]),
    ensures
        lex(seq!['"'] + inner + seq!['"']) == alone(detect(inner), (inner.len() + 2) as int),
{
    let text = seq!['"'] + inner + seq!['"'];
    assert(text[0] == '"');
    assert forall|i: int| 0 < i < text.len() - 1 implies is_ordinary(#[trigger] text[i]) by {
        assert(text[i] == inner[i - 1]);
    }
    lemma_quoted_segment(text, initial_state(), text.len() as int);
    assert(text.subrange(1, text.len() - 1) =~= inner);
    assert(Seq::<char>::empty() + inner =~= inner);
    assert(text.subrange(0, text.len() as int) =~= text);
    lemma_word_alike(text, 0, text.len() as int, initial_state(), initial_state());
}

} // verus!
