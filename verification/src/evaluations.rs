//! What holds while a part of a program is evaluated: the frames below it
//! and the scopes of those frames wait unchanged until it is done.
use vstd::prelude::*;
use crate::context::{lookup, Scope, Stream};
use crate::ast::Value;
use crate::exec::{
    closing, held, holds_scope, lemma_held_push, lemma_scope_closes_its_handle, Action,
    CommandSpec, Control, Effect, Event, ForState, Frame, Machine, Step,
};
use crate::vars::Variable;
use crate::runs::{
    before_move, is_run, lemma_each_move_is_a_step, lemma_move_keeps_lower_frames, Move,
};

verus! {

/// Whether two scopes hold the same handles.
pub open spec fn same_handles(a: Scope, b: Scope) -> bool {
    &&& a.fd@ == b.fd@
    &&& forall|s: Stream| a.replaces(s) == b.replaces(s)
}

/// Whether the machine is about to begin something: an expression, a
/// block or a value.
pub open spec fn begins(control: Control) -> bool {
    control is Expression || control is Block || control is Value
}

/// A move that begins something and does not give the program up leaves
/// all frames and all scopes as they are, and may add to them.
pub proof fn lemma_begin_keeps_all<'a>(
    before: Machine<'a>,
    after: Machine<'a>,
    event: Event,
    step: Step,
)
    requires
        begins(before.control),
        after.stepped(&before, event, step),
        !(step.action is Failed),
    ensures
        after.stack@.len() >= before.stack@.len(),
        after.stack@.take(before.stack@.len() as int) == before.stack@,
        after.ctx.scopes@.len() >= before.ctx.scopes@.len(),
        forall|q: int|
            0 <= q < before.ctx.scopes@.len() ==> same_handles(
                #[trigger] after.ctx.scopes@[q],
                before.ctx.scopes@[q],
            ),
{
    let full = before.stack@;
    let n = full.len() as int;
    assert(full.take(n) =~= full);
    assert forall|f: Frame<'a>| #[trigger] full.push(f).take(n) == full by {
        assert(full.push(f).take(n) =~= full);
    }
    if after.stack@.len() > 0 && after.below() == full {
        assert(after.stack@.take(n) =~= after.stack@.drop_last());
    }
    let a = before.ctx.scopes@;
    let b = after.ctx.scopes@;
    if b.len() > 0 && b.drop_last() == a {
        assert forall|q: int| 0 <= q < a.len() implies same_handles(#[trigger] b[q], a[q]) by {
            assert(b[q] == b.drop_last()[q]);
        }
    }
}

/// A move that does not give the program up leaves the scopes of the
/// frames below the topmost, and those the machine started with, in
/// their places with their handles.
pub proof fn lemma_move_keeps_lower_scopes<'a>(
    before: Machine<'a>,
    after: Machine<'a>,
    event: Event,
    step: Step,
)
    requires
        before.wf(),
        before.stack@.len() > 0,
        after.stepped(&before, event, step),
        !(step.action is Failed),
    ensures
        forall|q: int|
            0 <= q < before.base + held(before.below()) ==> q < after.ctx.scopes@.len()
                && same_handles(#[trigger] after.ctx.scopes@[q], before.ctx.scopes@[q]),
{
    let a = before.ctx.scopes@;
    let b = after.ctx.scopes@;
    let m = before.base + held(before.below());
    assert(before.stack@ =~= before.below().push(before.top()));
    crate::exec::lemma_held_push(before.below(), before.top());
    assert forall|q: int| 0 <= q < m implies q < b.len() && same_handles(
        #[trigger] b[q],
        a[q],
    ) by {
        if b == a {
        } else if b.len() > 0 && b.drop_last() == a {
            assert(b[q] == b.drop_last()[q]);
        } else if a.len() > 0 && b == a.drop_last() {
            assert(b[q] == a[q]);
        } else if a.len() > 0 && b.len() == a.len() && b.drop_last() == a.drop_last() {
            if q < a.len() - 1 {
                assert(b[q] == b.drop_last()[q]);
                assert(a[q] == a.drop_last()[q]);
            } else {
                assert(b[q] == b.last());
                assert(a[q] == a.last());
                assert(!holds_scope(before.top()));
                assert(same_handles(b.last(), a.last()));
            }
        } else {
            assert(false);
        }
    }
}

/// Scopes that hold the same handles are closed in the same way.
pub proof fn lemma_same_handles_close_alike(a: Scope, b: Scope)
    requires
        same_handles(a, b),
    ensures
        closing(a) == closing(b),
{
    assert(a.replaces(Stream::Stdin) == b.replaces(Stream::Stdin));
    assert(a.replaces(Stream::Stdout) == b.replaces(Stream::Stdout));
    assert(a.replaces(Stream::Stderr) == b.replaces(Stream::Stderr));
    assert(closing(a) =~= closing(b));
}

/// The first frames hold no more scopes than all of them.
pub proof fn lemma_held_take(stack: Seq<Frame>, m: int)
    requires
        0 <= m <= stack.len(),
    ensures
        held(stack.take(m)) <= held(stack),
    decreases stack.len(),
{
    if m < stack.len() {
        assert(stack.drop_last().take(m) =~= stack.take(m));
        lemma_held_take(stack.drop_last(), m);
    } else {
        assert(stack.take(m) =~= stack);
    }
}

/// The machine before each move of a run is sound, with the base that the
/// run started with, and has no effects left to hand over.
pub proof fn lemma_sound_before_move<'a>(start: Machine<'a>, moves: Seq<Move<'a>>, r: int)
    requires
        start.wf(),
        start.effects@.len() == 0,
        is_run(start, moves),
        0 <= r <= moves.len(),
    ensures
        before_move(start, moves, r).wf(),
        before_move(start, moves, r).base == start.base,
        before_move(start, moves, r).effects@.len() == 0,
    decreases r,
{
    if r > 0 {
        lemma_sound_before_move(start, moves, r - 1);
        lemma_each_move_is_a_step(start, moves, r - 1);
    }
}

/// Whether from move `i` up to move `j` the machine evaluates what stands
/// on its first `keep` frames: no move gives the program up, and each
/// move is made with more frames than those, or with just those and
/// something to begin.
pub open spec fn evaluating<'a>(
    start: Machine<'a>,
    moves: Seq<Move<'a>>,
    i: int,
    j: int,
    keep: int,
) -> bool {
    &&& 0 <= i <= j <= moves.len()
    &&& forall|r: int|
        i <= r < j ==> {
            let m = before_move(start, moves, r);
            &&& !((#[trigger] moves[r]).step.action is Failed)
            &&& (m.stack@.len() > keep || (m.stack@.len() == keep && begins(m.control)))
        }
}

/// While the machine evaluates what stands on its first `keep` frames,
/// those frames stay as they are, and so do the handles of their scopes
/// and of the scopes that the machine started with.
pub proof fn lemma_evaluation_keeps_what_is_below<'a>(
    start: Machine<'a>,
    moves: Seq<Move<'a>>,
    i: int,
    j: int,
    keep: int,
)
    requires
        start.wf(),
        start.effects@.len() == 0,
        is_run(start, moves),
        evaluating(start, moves, i, j, keep),
        0 <= keep <= before_move(start, moves, i).stack@.len(),
    ensures
        ({
            let first = before_move(start, moves, i);
            let last = before_move(start, moves, j);
            let kept = first.stack@.take(keep);
            &&& last.stack@.len() >= keep
            &&& last.stack@.take(keep) == kept
            &&& forall|q: int|
                0 <= q < start.base + held(kept) ==> q < last.ctx.scopes@.len() && q
                    < first.ctx.scopes@.len() && same_handles(
                    #[trigger] last.ctx.scopes@[q],
                    first.ctx.scopes@[q],
                )
        }),
    decreases j - i,
{
    let first = before_move(start, moves, i);
    let kept = first.stack@.take(keep);
    let depth = start.base + held(kept);
    lemma_sound_before_move(start, moves, i);
    lemma_held_take(first.stack@, keep);
    if i < j {
        assert(evaluating(start, moves, i, j - 1, keep));
        lemma_evaluation_keeps_what_is_below(start, moves, i, j - 1, keep);
        let m = before_move(start, moves, j - 1);
        let n = before_move(start, moves, j);
        lemma_sound_before_move(start, moves, j - 1);
        lemma_each_move_is_a_step(start, moves, j - 1);
        let mv = moves[j - 1];
        assert(n == mv.after);
        assert(!(mv.step.action is Failed));
        lemma_held_take(m.stack@, keep);
        if m.stack@.len() > keep {
            lemma_move_keeps_lower_frames(m, n, mv.event, mv.step);
            lemma_move_keeps_lower_scopes(m, n, mv.event, mv.step);
            assert(n.stack@.take(keep) =~= n.stack@.take(m.stack@.len() - 1).take(keep));
            assert(m.below().take(keep) =~= m.stack@.take(keep));
            lemma_held_take(m.below(), keep);
        } else {
            lemma_begin_keeps_all(m, n, mv.event, mv.step);
            assert(n.stack@.take(keep) =~= n.stack@.take(m.stack@.len() as int).take(keep));
        }
        assert forall|q: int| 0 <= q < depth implies q < n.ctx.scopes@.len() && q
            < first.ctx.scopes@.len() && same_handles(
            #[trigger] n.ctx.scopes@[q],
            first.ctx.scopes@[q],
        ) by {
            assert(same_handles(m.ctx.scopes@[q], first.ctx.scopes@[q]));
            assert(same_handles(n.ctx.scopes@[q], m.ctx.scopes@[q]));
        }
    } else {
        assert(depth <= first.ctx.scopes@.len());
    }
}

/// The commands that the machine is about to hand on.
pub open spec fn pending(m: Machine) -> Seq<CommandSpec> {
    match m.control {
        Control::Pending(cmds) => cmds@,
        _ => Seq::empty(),
    }
}

/// Whether the move `at` of the run hands on what was evaluated on the
/// first `keep` frames: the machine has just those frames and commands to
/// hand on, the caller has nothing to report, and the move does not give
/// the program up.
pub open spec fn hands_on<'a>(start: Machine<'a>, moves: Seq<Move<'a>>, at: int, keep: int) -> bool {
    &&& 0 <= at < moves.len()
    &&& before_move(start, moves, at).stack@.len() == keep
    &&& before_move(start, moves, at).control is Pending
    &&& moves[at].event == Event::Resume
    &&& !(moves[at].step.action is Failed)
}

/// A pipe over a whole run. Move `i` begins `source | target`; from then
/// up to move `j` the source is evaluated, and move `j` hands its commands
/// on; from then up to move `k` the target is evaluated, and move `k`
/// hands its commands on. Whatever the source and the target are, and
/// however they are evaluated: move `i` makes the pipe; move `j` closes
/// its writing end; move `k` closes its reading end; after move `k` the
/// frames are those from before the pipe, the commands of the source come
/// before those of the target, and the context has the scopes from before
/// the pipe with the handles that they had, so that it holds neither end
/// of the pipe.
pub proof fn lemma_pipe_closes_its_ends_in_turn<'a>(
    start: Machine<'a>,
    moves: Seq<Move<'a>>,
    i: int,
    j: int,
    k: int,
)
    requires
        start.wf(),
        start.effects@.len() == 0,
        is_run(start, moves),
        0 <= i < j < k < moves.len(),
        before_move(start, moves, i).control matches Control::Expression(e)
            && e is RedirectTargetExpression,
        before_move(start, moves, i).ctx.break_num == 0,
        moves[i].event == Event::Resume,
        !(moves[i].step.action is Failed),
        evaluating(start, moves, i + 1, j, (before_move(start, moves, i).stack@.len() + 1) as int),
        hands_on(start, moves, j, (before_move(start, moves, i).stack@.len() + 1) as int),
        evaluating(start, moves, j + 1, k, (before_move(start, moves, i).stack@.len() + 1) as int),
        hands_on(start, moves, k, (before_move(start, moves, i).stack@.len() + 1) as int),
    ensures
        ({
            let outer = before_move(start, moves, i);
            let reader = outer.next_handle;
            let writer = (outer.next_handle + 1) as usize;
            let done = moves[k].after;
            &&& moves[i].step.effects@ == seq![Effect::Pipe { reader, writer }]
            &&& moves[j].step.effects@ == seq![Effect::Close { handle: writer }]
            &&& moves[k].step.effects@ == seq![Effect::Close { handle: reader }]
            &&& done.stack@ == outer.stack@
            &&& pending(done) == pending(before_move(start, moves, j)) + pending(
                before_move(start, moves, k),
            )
            &&& done.control is Pending
            &&& done.ctx.scopes@.len() == outer.ctx.scopes@.len()
            &&& forall|q: int|
                0 <= q < outer.ctx.scopes@.len() ==> same_handles(
                    #[trigger] done.ctx.scopes@[q],
                    outer.ctx.scopes@[q],
                )
        }),
{
    let outer = before_move(start, moves, i);
    let keep = (outer.stack@.len() + 1) as int;
    let reader = outer.next_handle;
    let writer = (outer.next_handle + 1) as usize;
    let begun = moves[i].after;
    let m = before_move(start, moves, j);
    let piped = moves[j].after;
    let n = before_move(start, moves, k);
    let done = moves[k].after;
    let d = outer.ctx.scopes@.len() as int;
    lemma_sound_before_move(start, moves, i);
    lemma_sound_before_move(start, moves, i + 1);
    lemma_sound_before_move(start, moves, j);
    lemma_sound_before_move(start, moves, j + 1);
    lemma_sound_before_move(start, moves, k);
    lemma_sound_before_move(start, moves, k + 1);
    lemma_each_move_is_a_step(start, moves, i);
    lemma_each_move_is_a_step(start, moves, j);
    lemma_each_move_is_a_step(start, moves, k);
    // Move `i` makes the pipe and enters the scope that writes to it.
    assert(moves[i].step.effects@ =~= seq![Effect::Pipe { reader, writer }]);
    lemma_held_push(outer.stack@, begun.stack@.last());
    assert(begun.stack@.len() == keep);
    assert(begun.stack@.take(keep) =~= begun.stack@);
    lemma_scope_closes_its_handle(outer.ctx, begun.ctx, Stream::Stdout, writer);
    // The source is evaluated.
    lemma_evaluation_keeps_what_is_below(start, moves, i + 1, j, keep);
    assert(m.stack@ =~= begun.stack@) by {
        assert(m.stack@.take(keep) =~= m.stack@);
    }
    assert(begun.ctx.scopes@.len() == d + 1);
    assert(m.ctx.scopes@.len() == d + 1);
    assert(same_handles(m.ctx.scopes@[d], begun.ctx.scopes@[d]));
    lemma_same_handles_close_alike(m.ctx.scopes@.last(), begun.ctx.scopes@.last());
    // Move `j` leaves that scope and enters the one that reads from the pipe.
    assert(moves[j].step.effects@ =~= seq![Effect::Close { handle: writer }]);
    lemma_held_push(m.below(), piped.stack@.last());
    assert(piped.stack@.len() == keep);
    assert(piped.stack@.take(keep) =~= piped.stack@);
    let scope = piped.ctx.scopes@.last();
    assert(closing(scope) =~= seq![Effect::Close { handle: reader }]);
    // The target is evaluated.
    lemma_evaluation_keeps_what_is_below(start, moves, j + 1, k, keep);
    assert(n.stack@ =~= piped.stack@) by {
        assert(n.stack@.take(keep) =~= n.stack@);
    }
    assert(n.ctx.scopes@.len() == d + 1);
    assert(same_handles(n.ctx.scopes@[d], piped.ctx.scopes@[d]));
    lemma_same_handles_close_alike(n.ctx.scopes@.last(), piped.ctx.scopes@.last());
    // Move `k` leaves the scope and hands the commands of both on.
    assert(moves[k].step.effects@ =~= seq![Effect::Close { handle: reader }]);
    assert(done.stack@ =~= outer.stack@);
    assert forall|q: int| 0 <= q < d implies same_handles(
        #[trigger] done.ctx.scopes@[q],
        outer.ctx.scopes@[q],
    ) by {
        assert(done.ctx.scopes@[q] == n.ctx.scopes@.drop_last()[q]);
        assert(same_handles(n.ctx.scopes@[q], piped.ctx.scopes@[q]));
        assert(piped.ctx.scopes@[q] == piped.ctx.scopes@.drop_last()[q]);
        assert(m.ctx.scopes@[q] == m.ctx.scopes@.drop_last()[q]);
        assert(same_handles(m.ctx.scopes@[q], begun.ctx.scopes@[q]));
        assert(begun.ctx.scopes@[q] == begun.ctx.scopes@.drop_last()[q]);
    }
}

/// The move at which the commands of a substitution, handed on at move
/// `j`, have been run: the one after `j` where there were none, and the
/// one after the caller has reported how they exited where there were
/// some.
pub open spec fn after_run<'a>(start: Machine<'a>, moves: Seq<Move<'a>>, j: int) -> int {
    if pending(before_move(start, moves, j)).len() == 0 {
        j + 1
    } else {
        j + 2
    }
}

/// A substitution over a whole run. Move `i` begins `$(body)`; from then
/// up to move `j` the body is evaluated, and move `j` hands its commands
/// on: the caller is asked to run them, if there are any, and reports how
/// they exited. The next move closes the capture and asks the caller to
/// collect it; the caller reports the text that was captured; and the
/// move after that gives that text, as it is, as the value of the
/// substitution. Whatever the body is and however it is evaluated: the
/// text is handed on unchanged, so a newline at its end is kept; the
/// frames are then those from before the substitution, and the context
/// has the scopes from before it with the handles that they had.
pub proof fn lemma_substitution_gives_what_was_captured<'a>(
    start: Machine<'a>,
    moves: Seq<Move<'a>>,
    i: int,
    j: int,
    code: Option<i32>,
    text: String,
)
    requires
        start.wf(),
        start.effects@.len() == 0,
        is_run(start, moves),
        0 <= i < j,
        after_run(start, moves, j) + 2 < moves.len(),
        before_move(start, moves, i).control matches Control::Value(v) && v is Expressions,
        moves[i].event == Event::Resume,
        !(moves[i].step.action is Failed),
        evaluating(start, moves, i + 1, j, (before_move(start, moves, i).stack@.len() + 1) as int),
        hands_on(start, moves, j, (before_move(start, moves, i).stack@.len() + 1) as int),
        pending(before_move(start, moves, j)).len() > 0 ==> moves[j + 1].event == Event::Exited(
            code,
        ),
        moves[after_run(start, moves, j)].event == Event::Resume,
        moves[after_run(start, moves, j) + 1].event == Event::Captured(text),
        moves[after_run(start, moves, j) + 2].event == Event::Resume,
    ensures
        ({
            let outer = before_move(start, moves, i);
            let writer = outer.next_handle;
            let t = after_run(start, moves, j);
            let done = moves[t + 2].after;
            &&& moves[i].step.effects@ == seq![Effect::Capture { writer }]
            &&& pending(before_move(start, moves, j)).len() > 0 ==> moves[j].step.action
                == Action::Run(before_move(start, moves, j).control->Pending_0)
            &&& moves[t].step.action == Action::Collect(writer)
            &&& moves[t].step.effects@ == seq![Effect::Close { handle: writer }]
            &&& moves[t + 2].step.action is Continue
            &&& done.control == Control::<'a>::Given(Variable::String(text))
            &&& done.stack@ == outer.stack@
            &&& done.ctx.scopes@.len() == outer.ctx.scopes@.len()
            &&& forall|q: int|
                0 <= q < outer.ctx.scopes@.len() ==> same_handles(
                    #[trigger] done.ctx.scopes@[q],
                    outer.ctx.scopes@[q],
                )
        }),
{
    let outer = before_move(start, moves, i);
    let keep = (outer.stack@.len() + 1) as int;
    let writer = outer.next_handle;
    let begun = moves[i].after;
    let m = before_move(start, moves, j);
    let t = after_run(start, moves, j);
    let d = outer.ctx.scopes@.len() as int;
    lemma_sound_before_move(start, moves, i);
    lemma_sound_before_move(start, moves, i + 1);
    lemma_sound_before_move(start, moves, j);
    lemma_sound_before_move(start, moves, j + 1);
    lemma_sound_before_move(start, moves, t);
    lemma_sound_before_move(start, moves, t + 1);
    lemma_sound_before_move(start, moves, t + 2);
    lemma_each_move_is_a_step(start, moves, i);
    lemma_each_move_is_a_step(start, moves, j);
    lemma_each_move_is_a_step(start, moves, t);
    lemma_each_move_is_a_step(start, moves, t + 1);
    lemma_each_move_is_a_step(start, moves, t + 2);
    // Move `i` starts the capture and enters the scope that writes to it.
    assert(moves[i].step.effects@ =~= seq![Effect::Capture { writer }]);
    lemma_held_push(outer.stack@, begun.stack@.last());
    assert(begun.stack@.len() == keep);
    assert(begun.stack@.take(keep) =~= begun.stack@);
    lemma_scope_closes_its_handle(outer.ctx, begun.ctx, Stream::Stdout, writer);
    // The body is evaluated.
    lemma_evaluation_keeps_what_is_below(start, moves, i + 1, j, keep);
    assert(m.stack@ =~= begun.stack@) by {
        assert(m.stack@.take(keep) =~= m.stack@);
    }
    assert(m.ctx.scopes@.len() == d + 1);
    assert(same_handles(m.ctx.scopes@[d], begun.ctx.scopes@[d]));
    // Move `j` has the commands run.
    let ran = moves[j].after;
    assert(ran.stack@ =~= outer.stack@.push(Frame::SubstitutionRun { writer }));
    assert(ran.ctx == m.ctx);
    let waited = before_move(start, moves, t);
    if pending(m).len() > 0 {
        lemma_each_move_is_a_step(start, moves, j + 1);
    }
    assert(waited.stack@ == ran.stack@);
    assert(waited.control is Exited);
    assert(waited.ctx.scopes@.len() == d + 1);
    assert(same_handles(waited.ctx.scopes@.last(), m.ctx.scopes@.last()));
    assert forall|q: int| 0 <= q < d implies waited.ctx.scopes@[q] == m.ctx.scopes@[q] by {
        assert(waited.ctx.scopes@[q] == waited.ctx.scopes@.drop_last()[q]);
        assert(m.ctx.scopes@[q] == m.ctx.scopes@.drop_last()[q]);
    }
    lemma_same_handles_close_alike(waited.ctx.scopes@.last(), m.ctx.scopes@.last());
    lemma_same_handles_close_alike(m.ctx.scopes@.last(), begun.ctx.scopes@.last());
    // Move `t` closes the capture and asks for what was captured.
    let asked = moves[t].after;
    assert(moves[t].step.effects@ =~= seq![Effect::Close { handle: writer }]);
    assert(asked.stack@ =~= outer.stack@.push(Frame::SubstitutionCollect));
    // The caller reports the text, and the next move gives it.
    let told = moves[t + 1].after;
    let done = moves[t + 2].after;
    assert(told.stack@ == asked.stack@);
    assert(done.stack@ =~= outer.stack@);
    assert forall|q: int| 0 <= q < d implies same_handles(
        #[trigger] done.ctx.scopes@[q],
        outer.ctx.scopes@[q],
    ) by {
        assert(done.ctx.scopes@[q] == waited.ctx.scopes@.drop_last()[q]);
        assert(same_handles(m.ctx.scopes@[q], begun.ctx.scopes@[q]));
        assert(begun.ctx.scopes@[q] == begun.ctx.scopes@.drop_last()[q]);
    }
}

/// The loop that the machine is about to go on with.
pub open spec fn loop_of<'a>(m: Machine<'a>) -> ForState<'a> {
    match m.top() {
        Frame::ForEach(state) => state,
        _ => arbitrary(),
    }
}

/// How many moves a round takes before its body is begun: one that
/// enters the round, and, where the round before gave commands, those in
/// which they are run.
pub open spec fn lead(state: ForState) -> int {
    match state.last {
        None => 1,
        Some(cmds) => if cmds@.len() == 0 {
            2
        } else {
            3
        },
    }
}

/// The loop as it stands once the round is done in which the body gave
/// `cmds`.
pub open spec fn next_round<'a>(state: ForState<'a>, cmds: Vec<CommandSpec>) -> ForState<'a> {
    ForState { next: (state.next + 1) as usize, last: Some(cmds), ..state }
}

/// Whether the moves from `a` to `b` are one round of a `for` loop: at
/// `a` the machine goes on with a loop that has an element left; the
/// caller reports how the commands of the round before exited, if it was
/// asked to run any; then the body is evaluated, up to move `b`, which
/// hands on what it gave, with no loop to be left.
pub open spec fn round<'a>(
    start: Machine<'a>,
    moves: Seq<Move<'a>>,
    a: int,
    b: int,
    code: Option<i32>,
) -> bool {
    let m = before_move(start, moves, a);
    let state = loop_of(m);
    let keep = m.stack@.len() as int;
    &&& 0 <= a
    &&& a + lead(state) <= b < moves.len()
    &&& m.stack@.len() > 0
    &&& m.control is Next
    &&& m.top() is ForEach
    &&& state.next < state.items.len()
    &&& state.name@ != seq!['?']
    &&& moves[a].event == Event::Resume
    &&& lead(state) == 2 ==> moves[a + 1].event == Event::Resume
    &&& lead(state) == 3 ==> moves[a + 1].event == Event::Exited(code) && moves[a + 2].event
        == Event::Resume
    &&& evaluating(start, moves, a + lead(state), b, keep)
    &&& hands_on(start, moves, b, keep)
    &&& before_move(start, moves, b).ctx.break_num == 0
}

/// One round of a `for` loop over a whole run, whatever the body is and
/// however it is evaluated. The caller is first asked to run what the
/// round before gave, if that was any command. The body is then begun in
/// a scope of its own, which replaces no stream and binds the name of the
/// loop to the element of this round. Once the body has been evaluated
/// the scope is left: the frames are those from before the round, but
/// that the loop now stands at the next element and holds what the body
/// gave; the scopes are those from before the round, with their handles.
pub proof fn lemma_round_over_a_run<'a>(
    start: Machine<'a>,
    moves: Seq<Move<'a>>,
    a: int,
    b: int,
    code: Option<i32>,
)
    requires
        start.wf(),
        start.effects@.len() == 0,
        is_run(start, moves),
        round(start, moves, a, b, code),
    ensures
        ({
            let m = before_move(start, moves, a);
            let state = loop_of(m);
            let body = before_move(start, moves, a + lead(state));
            let given = before_move(start, moves, b).control->Pending_0;
            let done = moves[b].after;
            &&& lead(state) == 3 ==> moves[a].step.action == Action::Run(state.last->0)
            &&& body.stack@ == m.below().push(Frame::ForBody(ForState { last: None, ..state }))
            &&& body.control == Control::Block(&state.each.contents)
            &&& body.ctx.scopes@.len() == m.ctx.scopes@.len() + 1
            &&& forall|s: Stream| body.ctx.scopes@.last().replaces(s) is None
            &&& lookup(body.ctx.scopes@.last().vars@, state.name@) matches Some(element)
                && element@ == state.items[state.next as int]@
            &&& moves[b].step.action is Continue
            &&& done.control == Control::<'a>::Next
            &&& done.stack@ == m.below().push(Frame::ForEach(next_round(state, given)))
            &&& done.ctx.scopes@.len() == m.ctx.scopes@.len()
            &&& forall|q: int|
                0 <= q < m.ctx.scopes@.len() ==> same_handles(
                    #[trigger] done.ctx.scopes@[q],
                    m.ctx.scopes@[q],
                )
        }),
{
    let m = before_move(start, moves, a);
    let state = loop_of(m);
    let low = m.below();
    let keep = m.stack@.len() as int;
    let d = m.ctx.scopes@.len() as int;
    let s = a + lead(state);
    let body = before_move(start, moves, s);
    let last = before_move(start, moves, b);
    let done = moves[b].after;
    let inner = ForState { last: None, ..state };
    lemma_sound_before_move(start, moves, a);
    lemma_sound_before_move(start, moves, a + 1);
    lemma_sound_before_move(start, moves, s);
    lemma_sound_before_move(start, moves, b);
    lemma_sound_before_move(start, moves, b + 1);
    lemma_each_move_is_a_step(start, moves, a);
    lemma_each_move_is_a_step(start, moves, b);
    let entered = moves[a].after;
    assert(entered.ctx.scopes@.len() == d + 1);
    assert(entered.ctx.scopes@.drop_last() == m.ctx.scopes@);
    if lead(state) == 1 {
        assert(inner == state);
    } else if lead(state) == 2 {
        lemma_each_move_is_a_step(start, moves, a + 1);
    } else {
        lemma_sound_before_move(start, moves, a + 2);
        lemma_each_move_is_a_step(start, moves, a + 1);
        lemma_each_move_is_a_step(start, moves, a + 2);
        let told = moves[a + 1].after;
        assert(told.ctx.scopes@.len() == d + 1);
        assert(told.ctx.scopes@.drop_last() == entered.ctx.scopes@.drop_last());
    }
    assert(body.stack@ =~= low.push(Frame::ForBody(inner)));
    assert(body.ctx.scopes@.drop_last() == m.ctx.scopes@);
    // The body is evaluated.
    assert(body.stack@.take(keep) =~= body.stack@);
    lemma_held_push(low, Frame::ForBody(inner));
    lemma_evaluation_keeps_what_is_below(start, moves, s, b, keep);
    assert(last.stack@ =~= body.stack@) by {
        assert(last.stack@.take(keep) =~= last.stack@);
    }
    assert(last.ctx.scopes@.len() == d + 1);
    assert(done.stack@ =~= low.push(Frame::ForEach(next_round(state, last.control->Pending_0))));
    assert forall|q: int| 0 <= q < d implies same_handles(
        #[trigger] done.ctx.scopes@[q],
        m.ctx.scopes@[q],
    ) by {
        assert(done.ctx.scopes@[q] == last.ctx.scopes@.drop_last()[q]);
        assert(same_handles(last.ctx.scopes@[q], body.ctx.scopes@[q]));
        assert(body.ctx.scopes@[q] == body.ctx.scopes@.drop_last()[q]);
    }
}

/// The move at which round `j` begins, where the first round begins at
/// `a` and each round ends at its place in `ends`.
pub open spec fn round_start(a: int, ends: Seq<int>, j: int) -> int {
    if j <= 0 {
        a
    } else {
        ends[j - 1] + 1
    }
}

/// Whether the run holds the rounds of a loop one after the other: the
/// first begins at `a`, each ends at its place in `ends`, and the next
/// begins with the move after.
pub open spec fn rounds<'a>(
    start: Machine<'a>,
    moves: Seq<Move<'a>>,
    a: int,
    ends: Seq<int>,
    codes: Seq<Option<i32>>,
) -> bool {
    &&& codes.len() == ends.len()
    &&& forall|j: int|
        0 <= j < ends.len() ==> round(
            start,
            moves,
            round_start(a, ends, j),
            #[trigger] ends[j],
            codes[j],
        )
}

/// What the body of round `j` gave.
pub open spec fn given<'a>(start: Machine<'a>, moves: Seq<Move<'a>>, ends: Seq<int>, j: int) -> Vec<
    CommandSpec,
> {
    before_move(start, moves, ends[j]).control->Pending_0
}

/// The rounds of a `for` loop over a whole run, whatever the body is and
/// however it is evaluated. Round `j` goes on with the loop at the
/// element `j` places after the one that the first round took: the rounds
/// take the elements in order, each once. Its body is begun in a scope of
/// its own that binds the name of the loop to that element. And what the
/// body of a round gave is what the caller is asked to run when the next
/// round begins, before the body of that round is begun: the commands of
/// the rounds are run in the order of the elements.
pub proof fn lemma_rounds_over_a_run<'a>(
    start: Machine<'a>,
    moves: Seq<Move<'a>>,
    a: int,
    ends: Seq<int>,
    codes: Seq<Option<i32>>,
    j: int,
)
    requires
        start.wf(),
        start.effects@.len() == 0,
        is_run(start, moves),
        rounds(start, moves, a, ends, codes),
        0 <= j < ends.len(),
    ensures
        ({
            let first = loop_of(before_move(start, moves, a));
            let m = before_move(start, moves, round_start(a, ends, j));
            let state = loop_of(m);
            let body = before_move(start, moves, round_start(a, ends, j) + lead(state));
            &&& m.below() == before_move(start, moves, a).below()
            &&& m.ctx.scopes@.len() == before_move(start, moves, a).ctx.scopes@.len()
            &&& state.next == first.next + j
            &&& state.items == first.items
            &&& state.name == first.name
            &&& state.key == first.key
            &&& state.each == first.each
            &&& j > 0 ==> state.last == Some(given(start, moves, ends, j - 1))
            &&& j > 0 && given(start, moves, ends, j - 1)@.len() > 0 ==> moves[round_start(
                a,
                ends,
                j,
            )].step.action == Action::Run(given(start, moves, ends, j - 1))
            &&& body.control == Control::Block(&first.each.contents)
            &&& lookup(body.ctx.scopes@.last().vars@, first.name@) matches Some(element)
                && element@ == first.items[first.next + j]@
        }),
    decreases j,
{
    let b = ends[j];
    assert(round(start, moves, round_start(a, ends, j), b, codes[j]));
    if j > 0 {
        lemma_rounds_over_a_run(start, moves, a, ends, codes, j - 1);
        let before = ends[j - 1];
        assert(round(start, moves, round_start(a, ends, j - 1), before, codes[j - 1]));
        lemma_round_over_a_run(start, moves, round_start(a, ends, j - 1), before, codes[j - 1]);
        let m = before_move(start, moves, round_start(a, ends, j));
        assert(m == moves[before].after);
        let earlier = loop_of(before_move(start, moves, round_start(a, ends, j - 1)));
        let now = next_round(earlier, given(start, moves, ends, j - 1));
        assert(m.stack@.last() == Frame::ForEach(now));
        assert(m.below() =~= before_move(start, moves, round_start(a, ends, j - 1)).below());
    }
    lemma_round_over_a_run(start, moves, round_start(a, ends, j), b, codes[j]);
}

/// After the last round. Where the machine goes on with a loop that has
/// no element left, the loop is over: its frame is gone, nothing else has
/// changed, and what the body of the last round gave is handed on. The
/// body is not begun again, and nothing else is.
pub proof fn lemma_loop_is_over<'a>(before: Machine<'a>, after: Machine<'a>, step: Step)
    requires
        before.stack@.len() > 0,
        before.effects@.len() == 0,
        before.control is Next,
        before.top() is ForEach,
        loop_of(before).next >= loop_of(before).items.len(),
        after.stepped(&before, Event::Resume, step),
    ensures
        step.action is Continue,
        step.effects@.len() == 0,
        after.stack@ == before.below(),
        after.ctx == before.ctx,
        match loop_of(before).last {
            Some(cmds) => after.control == Control::Pending(cmds),
            None => after.control is Pending && pending(after).len() == 0,
        },
{
    assert(step.effects@ =~= before.effects@) by {
        assert(before.at_rest().effects@ == before.effects@);
    }
}

/// Whether the topmost frames are those of `n` loops, one in the other,
/// each with the block that is its body on top of it.
pub open spec fn in_loops(stack: Seq<Frame>, n: int) -> bool {
    &&& 0 <= n
    &&& 2 * n <= stack.len()
    &&& forall|t: int|
        0 <= t < n ==> (#[trigger] stack[stack.len() - 1 - 2 * t]) is Block && (stack[stack.len()
            - 2 - 2 * t] is ForBody || stack[stack.len() - 2 - 2 * t] is WhileBody)
}

/// `break n` over a whole run. Take the machine where `n` loops are still
/// to be left, inside at least `n` loops, with something to hand on (as
/// it is once `break` has been evaluated). Every two moves then end one
/// loop, the innermost first: the block that is its body is dropped
/// without another of its statements being begun, the loop itself is
/// dropped without another round, its scope is left, and one loop less is
/// to be left. After twice `n` moves exactly the `n` innermost loops are
/// over, no loop is left to be left, and the frames of all other loops
/// are as they were.
pub proof fn lemma_break_leaves_the_loops<'a>(
    start: Machine<'a>,
    moves: Seq<Move<'a>>,
    i: int,
    n: int,
    t: int,
)
    requires
        start.wf(),
        start.effects@.len() == 0,
        is_run(start, moves),
        0 <= i,
        i + 2 * n <= moves.len(),
        before_move(start, moves, i).control is Pending,
        before_move(start, moves, i).ctx.break_num == n,
        in_loops(before_move(start, moves, i).stack@, n),
        forall|r: int| i <= r < i + 2 * n ==> (#[trigger] moves[r]).event == Event::Resume,
        0 <= t <= n,
    ensures
        ({
            let m = before_move(start, moves, i);
            let w = before_move(start, moves, i + 2 * t);
            &&& w.stack@ == m.stack@.take(m.stack@.len() - 2 * t)
            &&& w.ctx.break_num == n - t
            &&& w.control == m.control
            &&& t <= m.ctx.scopes@.len()
            &&& w.ctx.scopes@ == m.ctx.scopes@.take(m.ctx.scopes@.len() - t)
            &&& forall|r: int| i <= r < i + 2 * t ==> (#[trigger] moves[r]).step.action is Continue
        }),
    decreases t,
{
    let m = before_move(start, moves, i);
    let len = m.stack@.len() as int;
    if t == 0 {
        assert(m.stack@.take(len) =~= m.stack@);
        assert(m.ctx.scopes@.take(m.ctx.scopes@.len() as int) =~= m.ctx.scopes@);
    } else {
        lemma_break_leaves_the_loops(start, moves, i, n, t - 1);
        let r = i + 2 * (t - 1);
        let w = before_move(start, moves, r);
        lemma_sound_before_move(start, moves, r);
        lemma_sound_before_move(start, moves, r + 1);
        lemma_sound_before_move(start, moves, r + 2);
        lemma_each_move_is_a_step(start, moves, r);
        lemma_each_move_is_a_step(start, moves, r + 1);
        assert(moves[r].event == Event::Resume);
        assert(moves[r + 1].event == Event::Resume);
        let top = len - 2 * (t - 1);
        assert(w.stack@.len() == top);
        assert(w.stack@.last() == m.stack@[len - 1 - 2 * (t - 1)]);
        assert(w.stack@[top - 2] == m.stack@[len - 2 - 2 * (t - 1)]);
        let mid = moves[r].after;
        assert(mid.stack@ =~= m.stack@.take(top - 1));
        assert(mid.stack@.last() == w.stack@[top - 2]);
        let out = moves[r + 1].after;
        assert(out.stack@ =~= m.stack@.take(top - 2));
        assert(out.ctx.scopes@ =~= m.ctx.scopes@.take(m.ctx.scopes@.len() - t));
        assert forall|q: int| i <= q < i + 2 * t implies (#[trigger] moves[q]).step.action
            is Continue by {
            if q < r {
            }
        }
    }
}

} // verus!
