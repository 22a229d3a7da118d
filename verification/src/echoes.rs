//! A text that `let` binds reaches the command that names it.
//!
//! The machine is followed, move by move, through the two statements
//! `let NAME = TEXT` and `echo $NAME`: after fifteen moves it asks its
//! caller to run `echo` with the text as its one argument.
use vstd::prelude::*;
use crate::ast::{
    command_value_view, expression_view, expressions_view, value_view, CommandValue, Expression,
    LetExpression, SpecExpression, SpecValue, Value,
};
use crate::context::{nearest, Context, Scope, Stream};
use crate::exec::{gives_nothing, Action, Control, Event, ExecError, Frame, Machine, Step};
use crate::moves::{bound, made_of, views};
use crate::runs::{before_move, is_run, lemma_each_move_is_a_step, Move};
use crate::sentences::echoing;
use crate::vars::SpecVariable;

verus! {

/// Whether `v` is the literal `text`.
pub open spec fn is_literal(v: Value, text: Seq<char>) -> bool {
    v matches Value::Literal(s) && s@ == text
}

/// Whether `v` is the variable `name`.
pub open spec fn is_variable(v: Value, name: Seq<char>) -> bool {
    v matches Value::Variable(s) && s@ == name
}

/// Whether `x` binds the literal `name` to the literal `inner`.
pub open spec fn binds(x: LetExpression, name: Seq<char>, inner: Seq<char>) -> bool {
    is_literal(*x.key, name) && is_literal(*x.value, inner)
}

/// Whether `e` is `let NAME = TEXT`.
pub open spec fn is_let(e: Expression, name: Seq<char>, inner: Seq<char>) -> bool {
    e matches Expression::LetExpression(x) && binds(x, name, inner)
}

/// Whether the word is the literal `text`.
pub open spec fn is_text_word(w: CommandValue, text: Seq<char>) -> bool {
    w matches CommandValue::Value(v) && is_literal(v, text)
}

/// Whether the word is the variable `name`.
pub open spec fn is_name_word(w: CommandValue, name: Seq<char>) -> bool {
    w matches CommandValue::Value(v) && is_variable(v, name)
}

/// Whether the words are `echo` and `$NAME`.
pub open spec fn echoes(words: Seq<CommandValue>, name: Seq<char>) -> bool {
    words.len() == 2 && is_text_word(words[0], "echo"@) && is_name_word(words[1], name)
}

/// Whether `e` is `echo $NAME`.
pub open spec fn is_echo(e: Expression, name: Seq<char>) -> bool {
    e matches Expression::Command(words) && echoes(words@, name)
}

/// Whether the statements are `let NAME = TEXT` and `echo $NAME`.
pub open spec fn binds_then_echoes(tree: Seq<Expression>, name: Seq<char>, inner: Seq<char>) -> bool {
    tree.len() == 2 && is_let(tree[0], name, inner) && is_echo(tree[1], name)
}

/// The tree whose value is that of `let NAME = TEXT ; echo $NAME` is those
/// two statements.
pub proof fn lemma_tree_is_let_then_echo(tree: Seq<Expression>, name: Seq<char>, inner: Seq<char>)
    requires
        expressions_view(tree) == seq![
            SpecExpression::Let {
                key: Box::new(SpecValue::Literal(name)),
                vartype: None,
                value: Box::new(SpecValue::Literal(inner)),
            },
            echoing(name),
        ],
    ensures
        binds_then_echoes(tree, name, inner),
{
    reveal(expression_view);
    reveal(value_view);
    reveal(command_value_view);
    let v = expressions_view(tree);
    assert(tree.len() == v.len());
    assert(v[0] == expression_view(tree[0]));
    assert(v[1] == expression_view(tree[1]));
    match tree[0] {
        Expression::LetExpression(x) => {
            assert(value_view(*x.key) == SpecValue::Literal(name));
            assert(value_view(*x.value) == SpecValue::Literal(inner));
            assert(is_literal(*x.key, name));
            assert(is_literal(*x.value, inner));
        },
        _ => {},
    }
    assert(is_let(tree[0], name, inner));
    match tree[1] {
        Expression::Command(words) => {
            let w = expression_view(tree[1])->Command_0;
            assert(w.len() == 2);
            assert(w[0] == command_value_view(words@[0]));
            assert(w[1] == command_value_view(words@[1]));
        },
        _ => {},
    }
}

/// Whether no scope of the context replaces a stream.
pub open spec fn replaces_nothing(ctx: Context) -> bool {
    forall|s: Stream| ctx.effective(s) is None
}

/// What the innermost scope puts in place of a stream depends only on
/// what each scope replaces.
pub proof fn lemma_nearest_by_replaces(a: Seq<Scope>, b: Seq<Scope>, s: Stream, upto: int)
    requires
        upto <= a.len() == b.len(),
        forall|i: int| 0 <= i < a.len() ==> (#[trigger] a[i]).replaces(s) == b[i].replaces(s),
    ensures
        nearest(a, s, upto) == nearest(b, s, upto),
    decreases upto,
{
    if upto > 0 {
        lemma_nearest_by_replaces(a, b, s, upto - 1);
    }
}

/// Binding a variable changes nothing of what a process gets in place of
/// its streams.
pub proof fn lemma_bound_keeps_streams(
    before: Context,
    after: Context,
    key: Seq<char>,
    val: SpecVariable,
    s: Stream,
)
    requires
        before.scopes@.len() >= 1,
        bound(before, after, key, val),
    ensures
        after.effective(s) == before.effective(s),
{
    let a = before.scopes@;
    let b = after.scopes@;
    assert forall|i: int| 0 <= i < a.len() implies (#[trigger] a[i]).replaces(s) == b[i].replaces(
        s,
    ) by {
        if i < a.len() - 1 {
            assert(a[i] == a.drop_last()[i]);
            assert(b[i] == b.drop_last()[i]);
        } else {
            assert(a[i] == a.last());
            assert(b[i] == b.last());
        }
    }
    lemma_nearest_by_replaces(a, b, s, a.len() as int);
}

/// Where the machine stands after `k` moves through the two statements,
/// started in the context `first`.
pub open spec fn stage<'a>(
    k: int,
    m: Machine<'a>,
    tree: &'a Vec<Expression>,
    first: Context,
    name: Seq<char>,
    inner: Seq<char>,
) -> bool {
    let bound_now = bound(first, m.ctx, name, SpecVariable::String(inner));
    let in_let = m.stack@.len() == 2 && m.stack@[0] == (Frame::Program { items: tree, next: 1 });
    let in_echo = m.stack@.len() == 2 && m.stack@[0] == (Frame::Program { items: tree, next: 2 });
    if k == 0 {
        m.ctx == first && m.stack@ == seq![Frame::Program { items: tree, next: 0 }] && m.control
            == Control::<'a>::Next
    } else if k == 1 {
        m.ctx == first && m.stack@ == seq![Frame::Program { items: tree, next: 1 }] && (
        m.control matches Control::Expression(e) && is_let(*e, name, inner))
    } else if k == 2 {
        m.ctx == first && in_let && (m.stack@[1] matches Frame::LetKey(x) && binds(*x, name, inner)
            && m.control == Control::Value(&*x.key))
    } else if k == 3 {
        m.ctx == first && in_let && (m.stack@[1] matches Frame::LetKey(x) && binds(*x, name, inner))
            && (m.control matches Control::Given(g) && g@ == SpecVariable::String(name))
    } else if k == 4 {
        m.ctx == first && in_let && (m.stack@[1] matches Frame::LetValue { assignment, key }
            && binds(*assignment, name, inner) && key@ == name && m.control == Control::Value(
            &*assignment.value,
        ))
    } else if k == 5 {
        m.ctx == first && in_let && (m.stack@[1] matches Frame::LetValue { assignment, key } && key@
            == name) && (m.control matches Control::Given(g) && g@ == SpecVariable::String(inner))
    } else if k == 6 {
        bound_now && m.stack@ == seq![Frame::Program { items: tree, next: 1 }] && gives_nothing(
            m.control,
        )
    } else if k == 7 {
        bound_now && m.stack@ == seq![Frame::Program { items: tree, next: 1 }] && m.control
            == Control::<'a>::Exited(None)
    } else if k == 8 {
        bound_now && m.stack@ == seq![Frame::Program { items: tree, next: 1 }] && m.control
            == Control::<'a>::Next
    } else if k == 9 {
        bound_now && m.stack@ == seq![Frame::Program { items: tree, next: 2 }] && (
        m.control matches Control::Expression(e) && is_echo(*e, name))
    } else if k == 10 {
        bound_now && in_echo && (m.stack@[1] matches Frame::Words { words, next, texts } && echoes(
            words@,
            name,
        ) && next == 0 && texts@.len() == 0) && (m.control matches Control::Value(v) && is_literal(
            *v,
            "echo"@,
        ))
    } else if k == 11 {
        bound_now && in_echo && (m.stack@[1] matches Frame::Words { words, next, texts } && echoes(
            words@,
            name,
        ) && next == 0 && texts@.len() == 0) && (m.control matches Control::Given(g) && g@
            == SpecVariable::String("echo"@))
    } else if k == 12 {
        bound_now && in_echo && (m.stack@[1] matches Frame::Words { words, next, texts } && echoes(
            words@,
            name,
        ) && next == 1 && views(texts@) == seq!["echo"@]) && (m.control matches Control::Value(v)
            && is_variable(*v, name))
    } else if k == 13 {
        bound_now && in_echo && (m.stack@[1] matches Frame::Words { words, next, texts } && echoes(
            words@,
            name,
        ) && next == 1 && views(texts@) == seq!["echo"@]) && (m.control matches Control::Given(g)
            && g@ == SpecVariable::String(inner))
    } else {
        bound_now && m.stack@ == seq![Frame::Program { items: tree, next: 2 }] && (
        m.control matches Control::Pending(c) && c@.len() == 1 && made_of(
            c@[0],
            seq!["echo"@, inner],
        ))
    }
}

/// One move takes the machine from each of the first stages to the next,
/// and asks nothing of the caller.
proof fn lemma_next_stage<'a>(
    k: int,
    before: Machine<'a>,
    after: Machine<'a>,
    step: Step,
    tree: &'a Vec<Expression>,
    first: Context,
    name: Seq<char>,
    inner: Seq<char>,
)
    requires
        0 <= k <= 12,
        binds_then_echoes(tree@, name, inner),
        first.wf(),
        first.break_num == 0,
        stage(k, before, tree, first, name, inner),
        after.stepped(&before, Event::Resume, step),
    ensures
        step.action is Continue,
        stage(k + 1, after, tree, first, name, inner),
{
    let s0 = before.stack@;
    let s1 = after.stack@;
    if k == 0 || k == 8 {
        assert(s0.drop_last() =~= Seq::<Frame<'a>>::empty());
        assert(s1 =~= seq![s1[0]]);
    }
    if k == 3 || k == 11 {
        assert(s1.drop_last() == s0.drop_last());
        assert(s1.drop_last().len() == s1.len() - 1);
        assert(s1[0] == s1.drop_last()[0]);
        assert(s0[0] == s0.drop_last()[0]);
        assert(s1[1] == s1.last());
        assert(s0[1] == s0.last());
    }
    if k == 5 {
        assert(s0.drop_last() =~= seq![s0[0]]);
    }
    if k == 0 {
        assert(stage(1, after, tree, first, name, inner));
    }
    if k == 1 {
        assert(stage(2, after, tree, first, name, inner));
    }
    if k == 2 {
        assert(stage(3, after, tree, first, name, inner));
    }
    if k == 3 {
        assert(stage(4, after, tree, first, name, inner));
    }
    if k == 4 {
        assert(stage(5, after, tree, first, name, inner));
    }
    if k == 5 {
        assert(stage(6, after, tree, first, name, inner));
    }
    if k == 6 {
        assert(stage(7, after, tree, first, name, inner));
    }
    if k == 7 {
        assert(stage(8, after, tree, first, name, inner));
    }
    if k == 8 {
        assert(stage(9, after, tree, first, name, inner));
    }
    if k == 9 {
        assert(stage(10, after, tree, first, name, inner));
    }
    if k == 10 {
        assert(stage(11, after, tree, first, name, inner));
    }
    if k == 11 {
        match s0[1] {
            Frame::Words { words, next, texts } => {
                assert(views(texts@) =~= Seq::<Seq<char>>::empty());
                assert(views(texts@).push("echo"@) =~= seq!["echo"@]);
            },
            _ => {},
        }
        assert(stage(12, after, tree, first, name, inner));
    }
    if k == 12 {
        assert(stage(13, after, tree, first, name, inner));
    }
}

/// The move after the last word makes the command: `echo` with the text
/// as its one argument. It can fail only for want of numbers to name the
/// handles of the command, and not where no stream is replaced.
proof fn lemma_command_is_made<'a>(
    before: Machine<'a>,
    after: Machine<'a>,
    step: Step,
    tree: &'a Vec<Expression>,
    first: Context,
    name: Seq<char>,
    inner: Seq<char>,
)
    requires
        binds_then_echoes(tree@, name, inner),
        first.wf(),
        first.break_num == 0,
        stage(13, before, tree, first, name, inner),
        after.stepped(&before, Event::Resume, step),
    ensures
        step.action == Action::Failed(ExecError::OutOfHandles) || (step.action is Continue && stage(
            14,
            after,
            tree,
            first,
            name,
            inner,
        )),
        replaces_nothing(first) ==> step.action is Continue,
{
    let s0 = before.stack@;
    assert(s0.drop_last() =~= seq![s0[0]]);
    assert(s0[1] == s0.last());
    match s0[1] {
        Frame::Words { words, next, texts } => {
            assert(views(texts@).push(inner) =~= seq!["echo"@, inner]);
        },
        _ => {},
    }
    if replaces_nothing(first) {
        lemma_bound_keeps_streams(first, before.ctx, name, SpecVariable::String(inner), Stream::Stdin);
        lemma_bound_keeps_streams(
            first,
            before.ctx,
            name,
            SpecVariable::String(inner),
            Stream::Stdout,
        );
        lemma_bound_keeps_streams(
            first,
            before.ctx,
            name,
            SpecVariable::String(inner),
            Stream::Stderr,
        );
    }
}

/// The move after the command is made asks the caller to run it.
proof fn lemma_command_is_asked_for<'a>(
    before: Machine<'a>,
    after: Machine<'a>,
    step: Step,
    tree: &'a Vec<Expression>,
    first: Context,
    name: Seq<char>,
    inner: Seq<char>,
)
    requires
        stage(14, before, tree, first, name, inner),
        after.stepped(&before, Event::Resume, step),
    ensures
        asks_for_echo(step.action, inner),
{
    let s0 = before.stack@;
    assert(s0[0] == s0.last());
}

/// Whether the action is to run one command, `echo` with `inner` as its
/// one argument.
pub open spec fn asks_for_echo(action: Action, inner: Seq<char>) -> bool {
    action matches Action::Run(cmds) && cmds@.len() == 1 && made_of(cmds@[0], seq!["echo"@, inner])
}

/// The machine is at stage `i` before the move `i` of a run through the
/// two statements, and the moves before it asked nothing of the caller.
proof fn lemma_stages<'a>(
    start: Machine<'a>,
    moves: Seq<Move<'a>>,
    tree: &'a Vec<Expression>,
    name: Seq<char>,
    inner: Seq<char>,
    i: int,
)
    requires
        binds_then_echoes(tree@, name, inner),
        start.wf(),
        start.ctx.break_num == 0,
        stage(0, start, tree, start.ctx, name, inner),
        is_run(start, moves),
        0 <= i <= 13,
        i <= moves.len(),
        forall|j: int| 0 <= j < i ==> moves[j].event == Event::Resume,
    ensures
        stage(i, before_move(start, moves, i), tree, start.ctx, name, inner),
        forall|j: int| 0 <= j < i ==> moves[j].step.action is Continue,
    decreases i,
{
    if i > 0 {
        lemma_stages(start, moves, tree, name, inner, i - 1);
        lemma_each_move_is_a_step(start, moves, i - 1);
        lemma_next_stage(
            i - 1,
            before_move(start, moves, i - 1),
            moves[i - 1].after,
            moves[i - 1].step,
            tree,
            start.ctx,
            name,
            inner,
        );
    }
}

/// The program `let NAME = TEXT ; echo $NAME` has the text reach `echo`:
/// with a caller that has nothing to report, the first thirteen moves of
/// the machine ask for nothing, and unless the fourteenth gives up for
/// want of numbers to name handles, it asks for nothing either and the
/// fifteenth asks to run one command, `echo` with the text as its one
/// argument. Where no scope replaces a stream the fourteenth does not give
/// up. What `echo` then prints is not the machine's to say.
pub proof fn lemma_bound_text_is_echoed<'a>(
    start: Machine<'a>,
    moves: Seq<Move<'a>>,
    tree: &'a Vec<Expression>,
    name: Seq<char>,
    inner: Seq<char>,
)
    requires
        expressions_view(tree@) == seq![
            SpecExpression::Let {
                key: Box::new(SpecValue::Literal(name)),
                vartype: None,
                value: Box::new(SpecValue::Literal(inner)),
            },
            echoing(name),
        ],
        start.wf(),
        start.ctx.break_num == 0,
        start.stack@ == seq![Frame::Program { items: tree, next: 0 }],
        start.control == Control::<'a>::Next,
        is_run(start, moves),
        moves.len() == 15,
        forall|j: int| 0 <= j < 15 ==> moves[j].event == Event::Resume,
    ensures
        forall|j: int| 0 <= j < 13 ==> moves[j].step.action is Continue,
        moves[13].step.action == Action::Failed(ExecError::OutOfHandles) || (
        moves[13].step.action is Continue && asks_for_echo(moves[14].step.action, inner)),
        replaces_nothing(start.ctx) ==> asks_for_echo(moves[14].step.action, inner),
{
    lemma_tree_is_let_then_echo(tree@, name, inner);
    lemma_stages(start, moves, tree, name, inner, 13);
    lemma_each_move_is_a_step(start, moves, 13);
    lemma_command_is_made(
        before_move(start, moves, 13),
        moves[13].after,
        moves[13].step,
        tree,
        start.ctx,
        name,
        inner,
    );
    if moves[13].step.action is Continue {
        lemma_each_move_is_a_step(start, moves, 14);
        lemma_command_is_asked_for(
            before_move(start, moves, 14),
            moves[14].after,
            moves[14].step,
            tree,
            start.ctx,
            name,
            inner,
        );
    }
}

} // verus!
