//! Pipelines of plain commands group to the right.
//!
//! A plain command is made of words and variables only, with or without
//! spaces around it. However many of them are joined by `|`, the tree is
//! the first command piped into the tree of all the others.
use vstd::prelude::*;
use crate::ast::SpecExpression;
use crate::grammar::{
    as_command, count_blanks, count_spaces, ends_word, ends_words, is_reserved, join, parse_command,
    parse_command_line, starts_reserved,
    parse_expression, parse_fragment, parse_program, parse_rest, parse_sequence, parse_word,
    parse_words, ParseError,
};
use crate::ast::SpecValue;
use crate::tokens::SpecTokens;

verus! {

/// A token that a plain command may hold.
pub open spec fn is_plain(k: SpecTokens) -> bool {
    k is Literal || k is StringVariable || k is ArrayVariable || k is Space
}

/// How many spaces stand before the name of the command.
pub open spec fn lead(c: Seq<SpecTokens>) -> int {
    count_spaces(c, 0, c.len() as int) as int
}

/// A command made of words and variables only: after the spaces before
/// it, if there are any, comes its name; spaces may follow it too.
pub open spec fn plain_command(c: Seq<SpecTokens>) -> bool {
    &&& lead(c) < c.len()
    &&& (c[lead(c)] is Literal || c[lead(c)] is StringVariable)
    &&& forall|k: int| 0 <= k < c.len() ==> is_plain(#[trigger] c[k])
}

/// The tokens of the commands with `|` between each two.
pub open spec fn pipeline_tokens(commands: Seq<Seq<SpecTokens>>) -> Seq<SpecTokens>
    decreases commands.len(),
{
    if commands.len() == 0 {
        Seq::empty()
    } else if commands.len() == 1 {
        commands[0]
    } else {
        commands[0] + seq![SpecTokens::RedirectInto] + pipeline_tokens(commands.drop_first())
    }
}

/// The trees nested to the right: the first piped into the nest of the
/// others.
pub open spec fn pipeline_tree(trees: Seq<SpecExpression>) -> SpecExpression
    decreases trees.len(),
{
    if trees.len() <= 1 {
        trees[0]
    } else {
        SpecExpression::RedirectTarget {
            source: Box::new(trees[0]),
            target: Box::new(pipeline_tree(trees.drop_first())),
        }
    }
}

/// `trees[k]` is what `commands[k]` parses to when it stands alone.
pub open spec fn trees_of(commands: Seq<Seq<SpecTokens>>, trees: Seq<SpecExpression>) -> bool {
    &&& trees.len() == commands.len()
    &&& forall|k: int|
        0 <= k < commands.len() ==> plain_command(#[trigger] commands[k]) && parse_command(
            commands[k],
            0,
            commands[k].len() as int,
        ) == Ok::<(SpecExpression, nat), ParseError>((trees[k], commands[k].len()))
}

/// `c` stands in `t` from `off` on, up to the end of `t` or to a `|`.
pub open spec fn sits_at(t: Seq<SpecTokens>, off: int, c: Seq<SpecTokens>) -> bool {
    &&& 0 <= off
    &&& off + c.len() <= t.len()
    &&& forall|k: int| 0 <= k < c.len() ==> #[trigger] t[off + k] == c[k]
    &&& (off + c.len() == t.len() || t[off + c.len()] is RedirectInto)
}

proof fn lemma_spaces_local(t: Seq<SpecTokens>, off: int, c: Seq<SpecTokens>, i: int)
    requires
        sits_at(t, off, c),
        0 <= i <= c.len(),
    ensures
        count_spaces(t, off + i, t.len() as int) == count_spaces(c, i, c.len() as int),
        i + count_spaces(c, i, c.len() as int) <= c.len(),
        i + count_spaces(c, i, c.len() as int) < c.len() ==> !(c[i + count_spaces(
            c,
            i,
            c.len() as int,
        )] is Space),
    decreases c.len() - i,
{
    if i < c.len() {
        assert(t[off + i] == c[i]);
        if c[i] is Space {
            lemma_spaces_local(t, off, c, i + 1);
        }
    }
}

proof fn lemma_word_local(
    t: Seq<SpecTokens>,
    off: int,
    c: Seq<SpecTokens>,
    i: int,
    acc: Seq<SpecValue>,
)
    requires
        sits_at(t, off, c),
        0 <= i <= c.len(),
        forall|k: int| 0 <= k < c.len() ==> is_plain(#[trigger] c[k]),
        parse_word(c, i, c.len() as int, true, acc) is Ok,
    ensures
        parse_word(t, off + i, t.len() as int, true, acc) == parse_word(
            c,
            i,
            c.len() as int,
            true,
            acc,
        ),
        parse_word(c, i, c.len() as int, true, acc) matches Ok((_, n)) && i + n <= c.len() && (i
            < c.len() && !(c[i] is Space) ==> n > 0),
    decreases c.len() - i,
{
    reveal(parse_word);
    reveal(parse_fragment);
    if i < c.len() {
        assert(t[off + i] == c[i]);
        assert(is_plain(c[i]));
        if !(c[i] is Space) {
            let piece = parse_fragment(c, i, c.len() as int, true);
            assert(piece is Ok);
            assert(parse_fragment(t, off + i, t.len() as int, true) == piece);
            assert(piece->Ok_0.1 == 0);
            lemma_word_local(t, off, c, i + 1, acc.push(piece->Ok_0.0));
        }
    }
}

proof fn lemma_words_local(
    t: Seq<SpecTokens>,
    off: int,
    c: Seq<SpecTokens>,
    i: int,
    acc: Seq<SpecValue>,
)
    requires
        sits_at(t, off, c),
        0 <= i <= c.len(),
        forall|k: int| 0 <= k < c.len() ==> is_plain(#[trigger] c[k]),
        parse_words(c, i, c.len() as int, true, acc) is Ok,
    ensures
        parse_words(t, off + i, t.len() as int, true, acc) == parse_words(
            c,
            i,
            c.len() as int,
            true,
            acc,
        ),
    decreases c.len() - i,
{
    reveal(parse_words);
    reveal(parse_word);
    lemma_spaces_local(t, off, c, i);
    let s = count_spaces(c, i, c.len() as int);
    let p = i + s;
    if p < c.len() {
        assert(t[off + p] == c[p]);
        assert(is_plain(c[p]));
        let word = parse_word(c, p, c.len() as int, true, Seq::empty());
        assert(word is Ok);
        lemma_word_local(t, off, c, p, Seq::empty());
        let n = word->Ok_0.1;
        lemma_words_local(t, off, c, p + n, acc.push(word->Ok_0.0));
    }
}

/// The spaces before a command are all the blanks there.
proof fn lemma_blanks_local(t: Seq<SpecTokens>, off: int, c: Seq<SpecTokens>, i: int)
    requires
        sits_at(t, off, c),
        0 <= i <= c.len(),
        forall|k: int| 0 <= k < c.len() ==> is_plain(#[trigger] c[k]),
        i + count_spaces(c, i, c.len() as int) < c.len(),
    ensures
        count_blanks(t, off + i, t.len() as int) == count_spaces(c, i, c.len() as int),
    decreases c.len() - i,
{
    if i < c.len() {
        assert(t[off + i] == c[i]);
        assert(is_plain(c[i]));
        if c[i] is Space {
            lemma_blanks_local(t, off, c, i + 1);
        }
    }
}

/// A plain command parses in its place, from its name on, as it does
/// alone.
proof fn lemma_command_local(t: Seq<SpecTokens>, off: int, c: Seq<SpecTokens>, tree: SpecExpression)
    requires
        sits_at(t, off, c),
        plain_command(c),
        parse_command(c, 0, c.len() as int) == Ok::<(SpecExpression, nat), ParseError>(
            (tree, c.len()),
        ),
    ensures
        parse_command(t, off + lead(c), t.len() as int) == Ok::<(SpecExpression, nat), ParseError>(
            (tree, (c.len() - lead(c)) as nat),
        ),
{
    reveal(parse_command);
    reveal(parse_words);
    let n = c.len() as int;
    let l = lead(c);
    lemma_spaces_local(t, off, c, 0);
    assert(count_spaces(c, l, n) == 0);
    let whole = parse_words(c, 0, n, true, Seq::empty());
    let named = parse_words(c, l, n, true, Seq::empty());
    assert(whole is Ok);
    assert(named is Ok && named->Ok_0.0 == whole->Ok_0.0 && named->Ok_0.1 + l == whole->Ok_0.1);
    lemma_words_local(t, off, c, l, Seq::empty());
}

/// An expression that starts with a plain command is that command and
/// what follows it.
proof fn lemma_expression_starts(
    t: Seq<SpecTokens>,
    off: int,
    c: Seq<SpecTokens>,
    tree: SpecExpression,
)
    requires
        sits_at(t, off, c),
        plain_command(c),
        parse_command(t, off + lead(c), t.len() as int) == Ok::<(SpecExpression, nat), ParseError>(
            (tree, (c.len() - lead(c)) as nat),
        ),
    ensures
        parse_expression(t, off, t.len() as int) == match parse_rest(
            t,
            Some(tree),
            off + c.len(),
            t.len() as int,
        ) {
            Err(e) => Err(e),
            Ok((all, m)) => Ok((all, (c.len() + m - 1) as nat)),
        },
{
    reveal(parse_expression);
    reveal(parse_command_line);
    reveal(parse_command);
    reveal(parse_rest);
    lemma_blanks_local(t, off, c, 0);
    assert(t[off + lead(c)] == c[lead(c)]);
    assert(count_blanks(t, off, t.len() as int) == lead(c));
}

/// Behind the last command nothing follows; behind another, `|` and the
/// expression to its right.
proof fn lemma_rest_of_stage(t: Seq<SpecTokens>, at: int, tree: SpecExpression)
    requires
        0 <= at <= t.len(),
        at == t.len() || t[at] is RedirectInto,
    ensures
        at == t.len() ==> parse_rest(t, Some(tree), at, t.len() as int) == Ok::<
            (SpecExpression, nat),
            ParseError,
        >((tree, 0)),
        at < t.len() ==> parse_rest(t, Some(tree), at, t.len() as int) == match parse_expression(
            t,
            at + 1,
            t.len() as int,
        ) {
            Err(e) => Err(e),
            Ok((second, n)) => Ok(
                (
                    SpecExpression::RedirectTarget {
                        source: Box::new(tree),
                        target: Box::new(second),
                    },
                    n + 2,
                ),
            ),
        },
{
    reveal(parse_rest);
    reveal(parse_expression);
    assert(count_spaces(t, at, t.len() as int) == 0);
}

/// Where a pipeline stands in `t`, its first command stands there, and
/// behind the `|` that follows it stands the pipeline of the others.
proof fn lemma_pipeline_shape(t: Seq<SpecTokens>, off: int, commands: Seq<Seq<SpecTokens>>)
    requires
        0 <= off <= t.len(),
        commands.len() > 0,
        t.subrange(off, t.len() as int) == pipeline_tokens(commands),
    ensures
        sits_at(t, off, commands[0]),
        commands.len() == 1 ==> off + commands[0].len() == t.len(),
        commands.len() > 1 ==> off + commands[0].len() < t.len() && t.subrange(
            off + commands[0].len() + 1,
            t.len() as int,
        ) == pipeline_tokens(commands.drop_first()),
{
    let c = commands[0];
    let end = t.len() as int;
    let rest = t.subrange(off, end);
    if commands.len() > 1 {
        let tail = pipeline_tokens(commands.drop_first());
        assert(rest == c + seq![SpecTokens::RedirectInto] + tail);
        assert(rest.len() == c.len() + 1 + tail.len());
        assert forall|k: int| 0 <= k < c.len() implies #[trigger] t[off + k] == c[k] by {
            assert(rest[k] == t[off + k]);
        }
        assert(rest[c.len() as int] == t[off + c.len()]);
        assert(t.subrange(off + c.len() + 1, end) =~= tail) by {
            assert forall|k: int| 0 <= k < tail.len() implies t.subrange(
                off + c.len() + 1,
                end,
            )[k] == tail[k] by {
                assert(rest[c.len() + 1 + k] == tail[k]);
            }
        }
    } else {
        assert(rest == c);
        assert forall|k: int| 0 <= k < c.len() implies #[trigger] t[off + k] == c[k] by {
            assert(rest[k] == t[off + k]);
        }
    }
}

proof fn lemma_pipeline_at(
    t: Seq<SpecTokens>,
    off: int,
    commands: Seq<Seq<SpecTokens>>,
    trees: Seq<SpecExpression>,
)
    requires
        0 <= off <= t.len(),
        commands.len() > 0,
        trees_of(commands, trees),
        t.subrange(off, t.len() as int) == pipeline_tokens(commands),
    ensures
        parse_expression(t, off, t.len() as int) == Ok::<(SpecExpression, nat), ParseError>(
            (pipeline_tree(trees), (t.len() - off - 1) as nat),
        ),
    decreases commands.len(),
{
    let c = commands[0];
    assert(plain_command(c));
    lemma_pipeline_shape(t, off, commands);
    lemma_command_local(t, off, c, trees[0]);
    lemma_expression_starts(t, off, c, trees[0]);
    let at = off + c.len();
    lemma_rest_of_stage(t, at, trees[0]);
    if commands.len() > 1 {
        let others = commands.drop_first();
        let other_trees = trees.drop_first();
        assert(trees_of(others, other_trees)) by {
            assert forall|k: int| 0 <= k < others.len() implies plain_command(
                #[trigger] others[k],
            ) && parse_command(others[k], 0, others[k].len() as int) == Ok::<
                (SpecExpression, nat),
                ParseError,
            >((other_trees[k], others[k].len())) by {
                assert(others[k] == commands[k + 1]);
                assert(other_trees[k] == trees[k + 1]);
            }
        }
        lemma_pipeline_at(t, at + 1, others, other_trees);
    }
}

/// However many plain commands are joined by `|`, the program parses to one
/// expression: the first command piped into the tree of the others, which
/// is built in the same way.
pub proof fn lemma_pipeline_leans_right(
    commands: Seq<Seq<SpecTokens>>,
    trees: Seq<SpecExpression>,
)
    requires
        commands.len() > 0,
        trees_of(commands, trees),
    ensures
        parse_program(pipeline_tokens(commands)) == Ok::<Seq<SpecExpression>, ParseError>(
            seq![pipeline_tree(trees)],
        ),
{
    reveal_with_fuel(parse_sequence, 2);
    reveal(parse_expression);
    let t = pipeline_tokens(commands);
    let c = commands[0];
    let l = lead(c);
    let end = t.len() as int;
    assert(plain_command(c));
    assert(t.subrange(0, end) == t);
    lemma_pipeline_shape(t, 0, commands);
    lemma_blanks_local(t, 0, c, 0);
    lemma_blanks_local(t, 0, c, l);
    assert(t[0 + l] == c[l]);
    assert(count_blanks(t, 0, end) == l);
    assert(count_blanks(t, l, end) == 0);
    lemma_pipeline_at(t, 0, commands, trees);
    assert(parse_expression(t, l, end) == Ok::<(SpecExpression, nat), ParseError>(
        (pipeline_tree(trees), (end - l - 1) as nat),
    ));
    assert(count_blanks(t, end, end) == 0);
    assert(Seq::<SpecExpression>::empty().push(pipeline_tree(trees)) == seq![
        pipeline_tree(trees),
    ]);
}

/// `a | b | c` parses to `a` piped into the pipe of `b` into `c`.
pub proof fn lemma_three_stages_lean_right(
    a: Seq<SpecTokens>,
    b: Seq<SpecTokens>,
    c: Seq<SpecTokens>,
    first: SpecExpression,
    second: SpecExpression,
    third: SpecExpression,
)
    requires
        trees_of(seq![a, b, c], seq![first, second, third]),
    ensures
        parse_program(
            a + seq![SpecTokens::RedirectInto] + b + seq![SpecTokens::RedirectInto] + c,
        ) == Ok::<Seq<SpecExpression>, ParseError>(
            seq![
                SpecExpression::RedirectTarget {
                    source: Box::new(first),
                    target: Box::new(
                        SpecExpression::RedirectTarget {
                            source: Box::new(second),
                            target: Box::new(third),
                        },
                    ),
                },
            ],
        ),
{
    let commands = seq![a, b, c];
    let trees = seq![first, second, third];
    lemma_pipeline_leans_right(commands, trees);
    reveal_with_fuel(pipeline_tokens, 3);
    reveal_with_fuel(pipeline_tree, 3);
    assert(commands.drop_first() =~= seq![b, c]);
    assert(commands.drop_first().drop_first() =~= seq![c]);
    assert(trees.drop_first() =~= seq![second, third]);
    assert(trees.drop_first().drop_first() =~= seq![third]);
    assert(pipeline_tokens(commands) =~= a + seq![SpecTokens::RedirectInto] + b + seq![
        SpecTokens::RedirectInto,
    ] + c);
}

/// The command that is the one word `w`.
pub open spec fn word_command(w: Seq<char>) -> SpecExpression {
    SpecExpression::Command(seq![crate::ast::SpecCommandValue::Value(SpecValue::Literal(w))])
}

/// A literal that ends there is a word of its own.
proof fn lemma_literal_word(c: Seq<SpecTokens>, p: int, w: Seq<char>)
    requires
        0 <= p < c.len(),
        c[p] == SpecTokens::Literal(w),
        p + 1 == c.len() || c[p + 1] is Space,
    ensures
        parse_word(c, p, c.len() as int, true, Seq::empty()) == Ok::<(SpecValue, nat), ParseError>(
            (SpecValue::Literal(w), 1),
        ),
{
    reveal_with_fuel(parse_word, 2);
    reveal(parse_fragment);
    let word = SpecValue::Literal(w);
    assert(Seq::<SpecValue>::empty().push(word).len() == 1);
    assert(Seq::<SpecValue>::empty().push(word)[0] == word);
}

/// The words of a command that is one word, with one space before it
/// or none, and one after it or none.
proof fn lemma_spaced_words(c: Seq<SpecTokens>, l: int, w: Seq<char>)
    requires
        0 <= l < c.len(),
        count_spaces(c, 0, c.len() as int) == l,
        c[l] == SpecTokens::Literal(w),
        l + 1 == c.len() || (l + 2 == c.len() && c[l + 1] is Space),
    ensures
        parse_words(c, 0, c.len() as int, true, Seq::empty()) == Ok::<
            (Seq<SpecValue>, nat),
            ParseError,
        >((seq![SpecValue::Literal(w)], c.len())),
{
    let n = c.len() as int;
    let word = SpecValue::Literal(w);
    let words = Seq::<SpecValue>::empty().push(word);
    lemma_literal_word(c, l, w);
    assert(count_spaces(c, l + 1, n) == n - l - 1) by {
        reveal_with_fuel(count_spaces, 2);
    }
    assert(words =~= seq![word]);
    assert(!ends_words(c[l], true));
    assert(parse_words(c, l + 1, n, true, words) == Ok::<(Seq<SpecValue>, nat), ParseError>(
        (words, (n - l - 1) as nat),
    )) by {
        reveal(parse_words);
    }
    assert(parse_words(c, 0, n, true, Seq::empty()) == Ok::<(Seq<SpecValue>, nat), ParseError>(
        (words, n as nat),
    )) by {
        reveal(parse_words);
        reveal(parse_word);
    }
}

/// One word, with one space before it, after it, both or neither, is a
/// plain command, and alone it parses to the command of that word.
proof fn lemma_spaced_word(c: Seq<SpecTokens>, l: int, w: Seq<char>)
    requires
        !is_reserved(w),
        l == 0 || (l == 1 && c.len() > 0 && c[0] is Space),
        l < c.len(),
        c[l] == SpecTokens::Literal(w),
        l + 1 == c.len() || (l + 2 == c.len() && c[l + 1] is Space),
    ensures
        plain_command(c),
        parse_command(c, 0, c.len() as int) == Ok::<(SpecExpression, nat), ParseError>(
            (word_command(w), c.len()),
        ),
{
    let n = c.len() as int;
    let word = SpecValue::Literal(w);
    assert(count_spaces(c, 0, n) == l) by {
        reveal_with_fuel(count_spaces, 2);
    }
    lemma_spaced_words(c, l, w);
    assert(as_command(seq![word]) =~= seq![crate::ast::SpecCommandValue::Value(word)]);
    reveal(parse_command);
}

/// `A | B | C`, written with a space on either side of each `|`, parses
/// to `A` piped into the pipe of `B` into `C`, whatever the three words
/// are, as long as none is a word that no command may start with.
pub proof fn lemma_spaced_words_lean_right(a: Seq<char>, b: Seq<char>, c: Seq<char>)
    requires
        !is_reserved(a),
        !is_reserved(b),
        !is_reserved(c),
    ensures
        parse_program(
            seq![
                SpecTokens::Literal(a),
                SpecTokens::Space,
                SpecTokens::RedirectInto,
                SpecTokens::Space,
                SpecTokens::Literal(b),
                SpecTokens::Space,
                SpecTokens::RedirectInto,
                SpecTokens::Space,
                SpecTokens::Literal(c),
            ],
        ) == Ok::<Seq<SpecExpression>, ParseError>(
            seq![
                SpecExpression::RedirectTarget {
                    source: Box::new(word_command(a)),
                    target: Box::new(
                        SpecExpression::RedirectTarget {
                            source: Box::new(word_command(b)),
                            target: Box::new(word_command(c)),
                        },
                    ),
                },
            ],
        ),
{
    let first = seq![SpecTokens::Literal(a), SpecTokens::Space];
    let second = seq![SpecTokens::Space, SpecTokens::Literal(b), SpecTokens::Space];
    let third = seq![SpecTokens::Space, SpecTokens::Literal(c)];
    lemma_spaced_word(first, 0, a);
    lemma_spaced_word(second, 1, b);
    lemma_spaced_word(third, 1, c);
    lemma_three_stages_lean_right(
        first,
        second,
        third,
        word_command(a),
        word_command(b),
        word_command(c),
    );
    assert(first + seq![SpecTokens::RedirectInto] + second + seq![SpecTokens::RedirectInto] + third
        =~= seq![
        SpecTokens::Literal(a),
        SpecTokens::Space,
        SpecTokens::RedirectInto,
        SpecTokens::Space,
        SpecTokens::Literal(b),
        SpecTokens::Space,
        SpecTokens::RedirectInto,
        SpecTokens::Space,
        SpecTokens::Literal(c),
    ]);
}

} // verus!
