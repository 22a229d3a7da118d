//! What holds of every run of the machine.
use vstd::prelude::*;
use crate::ast::{AndExpression, OrExpression};
use crate::context::{lookup, Context, Stream};
use crate::exec::{
    after_body, closing, gives_nothing, is_success, lemma_scope_closes_its_handle, opened_scope,
    stopped, unwound, Action, CommandSpec, Control, Effect, Event, ForState, Frame, Machine, Step,
};

verus! {

/// One move of a run: what the caller reported, what the machine was
/// afterwards, and what it gave the caller.
pub struct Move<'a> {
    pub event: Event,
    pub after: Machine<'a>,
    pub step: Step,
}

/// The machine after the moves: the one that the last move left, or the
/// one at the start where there are no moves.
pub open spec fn last_of<'a>(start: Machine<'a>, moves: Seq<Move<'a>>) -> Machine<'a> {
    if moves.len() == 0 {
        start
    } else {
        moves.last().after
    }
}

/// Whether the moves are a run of the machine `start`: each is a move that
/// `step` may make from where the one before left the machine.
pub open spec fn is_run<'a>(start: Machine<'a>, moves: Seq<Move<'a>>) -> bool
    decreases moves.len(),
{
    moves.len() == 0 || {
        &&& is_run(start, moves.drop_last())
        &&& moves.last().after.stepped(
            &last_of(start, moves.drop_last()),
            moves.last().event,
            moves.last().step,
        )
    }
}

/// The machine before the move `i` of a run.
pub open spec fn before_move<'a>(start: Machine<'a>, moves: Seq<Move<'a>>, i: int) -> Machine<'a> {
    if i == 0 {
        start
    } else {
        moves[i - 1].after
    }
}

/// Each move of a run is a move that `step` may make from where the one
/// before it left the machine.
pub proof fn lemma_each_move_is_a_step<'a>(start: Machine<'a>, moves: Seq<Move<'a>>, i: int)
    requires
        is_run(start, moves),
        0 <= i < moves.len(),
    ensures
        moves[i].after.stepped(&before_move(start, moves, i), moves[i].event, moves[i].step),
    decreases moves.len(),
{
    if i < moves.len() - 1 {
        lemma_each_move_is_a_step(start, moves.drop_last(), i);
    } else if i > 0 {
        assert(last_of(start, moves.drop_last()) == moves[i - 1].after);
    }
}

/// Whatever the program does and whatever the caller reports, the machine
/// stays sound and never touches the count of loops to pass on. When the
/// program is over, with or without an error, the context has the scopes
/// that it started with, and no loop is left to be left: in a context that
/// started with one scope and with both counts at 0, one scope is left and
/// both counts are 0.
pub proof fn lemma_runs_end_in_good_order<'a>(start: Machine<'a>, moves: Seq<Move<'a>>)
    requires
        start.wf(),
        is_run(start, moves),
    ensures
        last_of(start, moves).wf(),
        last_of(start, moves).base == start.base,
        last_of(start, moves).ctx.continue_num == start.ctx.continue_num,
        moves.len() > 0 && (moves.last().step.action is Done || moves.last().step.action is Failed)
            ==> {
            &&& last_of(start, moves).ctx.scopes.len() == start.base
            &&& last_of(start, moves).ctx.break_num == 0
            &&& last_of(start, moves).stack@.len() == 0
        },
    decreases moves.len(),
{
    if moves.len() > 0 {
        lemma_runs_end_in_good_order(start, moves.drop_last());
    }
}

/// `first && second`: once `first` has exited, `second` is evaluated where
/// `first` succeeded, and is not where it did not: then the whole gives no
/// commands.
pub proof fn lemma_and_follows_exit_code<'a>(
    before: Machine<'a>,
    after: Machine<'a>,
    x: &'a AndExpression,
    code: Option<i32>,
    action: Action,
)
    requires
        before.stack@.len() > 0,
        before.top() == Frame::AndChoice(x),
        after.resumes(&before, code, action),
    ensures
        after.stack@ == before.below(),
        code == Some(0i32) ==> after.control == Control::Expression(&*x.second),
        code != Some(0i32) ==> gives_nothing(after.control),
{
}

/// `first || second`: once `first` has exited, `second` is evaluated where
/// `first` did not succeed, and is not where it did: then the whole gives
/// no commands.
pub proof fn lemma_or_follows_exit_code<'a>(
    before: Machine<'a>,
    after: Machine<'a>,
    x: &'a OrExpression,
    code: Option<i32>,
    action: Action,
)
    requires
        before.stack@.len() > 0,
        before.top() == Frame::OrChoice(x),
        after.resumes(&before, code, action),
    ensures
        after.stack@ == before.below(),
        code == Some(0i32) ==> gives_nothing(after.control),
        code != Some(0i32) ==> after.control == Control::Expression(&*x.second),
{
}

/// A round of `for` binds the name of the loop to the element of that
/// round: the rounds take the elements in order, since each round that
/// goes on hands the loop on with the index of the next element.
pub proof fn lemma_rounds_take_elements_in_order<'a>(
    before: Machine<'a>,
    after: Machine<'a>,
    state: ForState<'a>,
    action: Action,
    body_done: Machine<'a>,
    next_round: Machine<'a>,
    cmds: Vec<CommandSpec>,
    then: Action,
)
    requires
        state.next < state.items.len(),
        after.begins_round(&before, state, action),
        body_done.stack@.len() > 0,
        body_done.top() == Frame::ForBody(state),
        body_done.ctx.break_num == 0,
        next_round.takes_pending(&body_done, cmds, then),
    ensures
        lookup(after.ctx.scopes@.last().vars@, state.name@) matches Some(element) && element@
            == state.items[state.next as int]@,
        next_round.stack@.len() > 0,
        next_round.top() matches Frame::ForEach(following) && following.next == state.next + 1
            && following.items == state.items && following.name == state.name && following.last
            == Some(cmds),
{
    let following = ForState {
        next: if state.next < usize::MAX {
            (state.next + 1) as usize
        } else {
            state.next
        },
        last: Some(cmds),
        ..state
    };
    assert(next_round.stack@ == body_done.below().push(Frame::ForEach(following)));
    assert(next_round.stack@.last() == Frame::ForEach(following));
}

/// A loop whose body is done, while `break` has loops to leave, stops and
/// counts itself off; so `break n` inside `depth` loops stops the innermost
/// `n` of them, or all where there are no more, and then leaves as many to
/// be left as it found too few: none where the loops are `n` or more.
pub proof fn lemma_break_stops_loops<'a>(
    before: Machine<'a>,
    after: Machine<'a>,
    cmds: Vec<CommandSpec>,
    action: Action,
    n: u16,
    depth: nat,
)
    requires
        before.stack@.len() > 0,
        before.top() is WhileBody || before.top() is ForBody,
        after.takes_pending(&before, cmds, action),
    ensures
        after.ctx.break_num == after_body(before.ctx.break_num).1,
        after_body(before.ctx.break_num).0 ==> after.stack@ == before.below() && after.control
            == Control::Pending(cmds),
        !after_body(before.ctx.break_num).0 ==> after.stack@.len() == before.stack@.len(),
        stopped(n, depth) == if n <= depth {
            n as nat
        } else {
            depth
        },
        unwound(n, depth) == if n <= depth {
            0
        } else {
            n - depth
        },
{
    crate::exec::lemma_break_leaves_loops(n, depth);
}

/// The ends of a pipe are closed in the caller. The first part of a pipe
/// is evaluated in a scope that writes to the pipe; once it is evaluated
/// that scope is left, which closes the writing end, and the second part
/// is evaluated in a scope that reads from the pipe; once that is
/// evaluated this scope is left, which closes the reading end. The
/// commands of both parts hold copies of their own.
pub proof fn lemma_pipe_ends_are_closed<'a>(
    outer: Context,
    before: Machine<'a>,
    middle: Machine<'a>,
    second: Machine<'a>,
    after: Machine<'a>,
    pipe: &'a crate::ast::RedirectTargetExpression,
    reader: usize,
    writer: usize,
    first_part: Vec<CommandSpec>,
    second_part: Vec<CommandSpec>,
    a: Action,
    b: Action,
)
    requires
        before.stack@.len() > 0,
        before.top() == (Frame::PipeSource { pipe, reader }),
        opened_scope(outer, before.ctx, Some((Stream::Stdout, writer))),
        middle.takes_pending(&before, first_part, a),
        second.stack@.len() > 0,
        second.top() == (Frame::PipeTarget { source: first_part }),
        second.ctx.scopes@.len() > 0,
        second.ctx.scopes@.last() == middle.ctx.scopes@.last(),
        after.takes_pending(&second, second_part, b),
    ensures
        middle.effects@ == before.effects@.push(Effect::Close { handle: writer }),
        middle.ctx.scopes@.last().stdin_override == Some(reader),
        after.effects@ == second.effects@.push(Effect::Close { handle: reader }),
        after.control matches Control::Pending(all) && all@ == first_part@ + second_part@,
{
    lemma_scope_closes_its_handle(outer, before.ctx, Stream::Stdout, writer);
    assert(before.effects@ + seq![Effect::Close { handle: writer }] =~= before.effects@.push(
        Effect::Close { handle: writer },
    ));
    let scope = second.ctx.scopes@.last();
    assert(closing(scope) =~= seq![Effect::Close { handle: reader }]);
    assert(second.effects@ + seq![Effect::Close { handle: reader }] =~= second.effects@.push(
        Effect::Close { handle: reader },
    ));
}

/// A move that does not give the program up changes the frames at the top
/// only: all but the topmost frame stay as they are, in their places.
pub proof fn lemma_move_keeps_lower_frames<'a>(
    before: Machine<'a>,
    after: Machine<'a>,
    event: Event,
    step: Step,
)
    requires
        before.stack@.len() > 0,
        after.stepped(&before, event, step),
        !(step.action is Failed),
    ensures
        after.stack@.len() >= before.stack@.len() - 1,
        after.stack@.take(before.stack@.len() - 1) == before.below(),
{
    let n = before.stack@.len() - 1;
    let low = before.below();
    let full = before.stack@;
    assert(full.take(n) =~= low);
    assert forall|f: Frame<'a>| #[trigger] low.push(f).take(n) == low by {
        assert(low.push(f).take(n) =~= low);
    }
    assert forall|f: Frame<'a>| #[trigger] full.push(f).take(n) == low by {
        assert(full.push(f).take(n) =~= low);
    }
    assert(low.take(n) =~= low);
    if after.stack@.len() > 0 && after.below() == low {
        assert(after.stack@.take(n) =~= after.stack@.drop_last());
    }
    if after.stack@.len() > 0 && after.below() == full {
        assert(after.stack@.take(n) =~= after.stack@.drop_last().take(n));
    }
    if after.stack@.len() == 0 {
        assert(after.stack@ =~= low);
    }
}

} // verus!
