//! The interpreter: a machine that walks the tree one move at a time.
//!
//! The machine never starts a process, opens a file or reads a pipe. Each
//! move ends in an action that it asks its caller to perform: run some
//! commands and tell how the last one exited, or collect what a
//! substitution printed. The caller performs the action and hands the
//! outcome back as the event of the next move. Pipes and files are named by
//! handles, numbers that the machine picks; what the caller has to do to
//! them (create, copy, close) is listed, in order, with each move.
//!
//! Every construct that opens a scope is a frame on the machine's stack for
//! as long as that scope lives, so the scopes of the context are always
//! those the machine started with and one for each such frame.
use vstd::prelude::*;
use vstd::string::*;
use crate::ast::{
    AndExpression, CommandValue, DefinedFunctionCall, Expression, FileSourceExpression,
    FileTargetExpression, ForExpression, IfExpression, LetExpression, OrExpression,
    RedirectTargetExpression, Value, WhileExpression,
};
use crate::context::{Context, Native, Scope, Stream};
use crate::natives::NativeError;
use crate::numbers::{parse_bounded, parse_unsigned};
use crate::text::{chars_of, push_char};
use crate::vars::{SpecVariable, Variable};

verus! {

/// A process that is ready to be started: its program, its arguments, and
/// the handles that take the place of its standard streams. The handles are
/// the command's own: they are closed in the caller once it has started.
#[derive(Debug)]
pub struct CommandSpec {
    pub program: String,
    pub args: Vec<String>,
    pub stdin: Option<usize>,
    pub stdout: Option<usize>,
    pub stderr: Option<usize>,
}

/// What the caller has to do to its handles.
#[derive(Debug)]
pub enum Effect {
    /// Create a pipe and name its ends.
    Pipe { reader: usize, writer: usize },
    /// Create or truncate the file and name it.
    Create { path: String, handle: usize },
    /// Open the file for reading and name it.
    Open { path: String, handle: usize },
    /// Create a pipe, start reading all that is written to it, and name
    /// its writing end.
    Capture { writer: usize },
    /// Copy the handle `from` and name the copy `to`.
    Clone { from: usize, to: usize },
    /// Close the handle.
    Close { handle: usize },
}

/// Why a program stopped.
#[derive(Debug)]
pub enum ExecError {
    /// A command without words.
    EmptyCommand,
    /// A word of a command that is no value.
    BrokenCommand,
    /// `>` with nothing to its left.
    MissingRedirectSource,
    /// `for` over something that is neither an array nor a string.
    InvalidFor,
    /// The count of `break` is no number below 65536.
    InvalidBreakCount,
    /// `break` asked to leave more loops than there are.
    TooManyBreaks,
    /// A call of a function that nothing defines.
    FunctionNotFound,
    /// The construct cannot be run yet.
    NotImplemented,
    /// A built-in refused its arguments.
    Native(NativeError),
    /// No number is left to name a handle.
    OutOfHandles,
    /// The caller reported something that the machine had not asked for.
    UnexpectedEvent,
    /// The caller could not perform an action.
    Host(String),
}

/// What the user is told of the error.
pub open spec fn exec_error_text(e: ExecError) -> Seq<char> {
    match e {
        ExecError::EmptyCommand => "Command with 0 length"@,
        ExecError::BrokenCommand => "Broken executor"@,
        ExecError::MissingRedirectSource => "Redirect without target file"@,
        ExecError::InvalidFor => "Invalid for expression"@,
        ExecError::InvalidBreakCount => "invalid digit found in string"@,
        ExecError::TooManyBreaks => "Too many break statements"@,
        ExecError::FunctionNotFound => "Function not found"@,
        ExecError::NotImplemented => "Not implemented yet"@,
        ExecError::Native(inner) => crate::natives::native_error_text(inner),
        ExecError::OutOfHandles => "Out of handles"@,
        ExecError::UnexpectedEvent => "Unexpected event"@,
        ExecError::Host(message) => message@,
    }
}

impl ExecError {
    /// The message shown to the user.
    pub fn message(&self) -> (m: String)
        ensures
            m@ == exec_error_text(*self),
    {
        match self {
            ExecError::EmptyCommand => String::from_str("Command with 0 length"),
            ExecError::BrokenCommand => String::from_str("Broken executor"),
            ExecError::MissingRedirectSource => String::from_str("Redirect without target file"),
            ExecError::InvalidFor => String::from_str("Invalid for expression"),
            ExecError::InvalidBreakCount => String::from_str("invalid digit found in string"),
            ExecError::TooManyBreaks => String::from_str("Too many break statements"),
            ExecError::FunctionNotFound => String::from_str("Function not found"),
            ExecError::NotImplemented => String::from_str("Not implemented yet"),
            ExecError::Native(inner) => inner.message(),
            ExecError::OutOfHandles => String::from_str("Out of handles"),
            ExecError::UnexpectedEvent => String::from_str("Unexpected event"),
            ExecError::Host(message) => message.clone(),
        }
    }
}

/// What the caller reports.
#[derive(Debug)]
pub enum Event {
    /// Nothing: the machine had asked for nothing.
    Resume,
    /// The commands ran; this is the exit code of the last one.
    Exited(Option<i32>),
    /// This is what the substitution printed.
    Captured(String),
    /// The action, or one of the effects before it, failed.
    Failed(String),
}

/// What the machine asks its caller to do before the next move.
#[derive(Debug)]
pub enum Action {
    /// Nothing.
    Continue,
    /// Start these commands in order, wait for each in order, and report
    /// `Exited` with the exit code of the last.
    Run(Vec<CommandSpec>),
    /// Wait until all that was written to the capture with that writing
    /// end has been read, and report it as `Captured`.
    Collect(usize),
    /// Nothing more: the program has run.
    Done,
    /// Nothing more: the program has failed.
    Failed(ExecError),
}

/// A move of the machine: what to do to the handles, then the action.
#[derive(Debug)]
pub struct Step {
    pub effects: Vec<Effect>,
    pub action: Action,
}

/// What the machine does next.
pub enum Control<'a> {
    /// Evaluate the expression.
    Expression(&'a Expression),
    /// Evaluate the statements.
    Block(&'a Vec<Expression>),
    /// Evaluate the value.
    Value(&'a Value),
    /// An expression gave these commands, which are still to be run.
    Pending(Vec<CommandSpec>),
    /// A value gave this variable.
    Given(Variable),
    /// Commands were run and exited so.
    Exited(Option<i32>),
    /// Go on with the topmost frame.
    Next,
    /// The caller owes an event.
    Waiting,
    /// The program is over.
    Stopped,
}

/// A `for` loop in progress.
pub struct ForState<'a> {
    pub each: &'a ForExpression,
    /// The name that takes the element.
    pub name: String,
    /// The name that takes the index.
    pub key: Option<String>,
    pub items: Vec<Variable>,
    /// The index of the next element.
    pub next: usize,
    /// What the body gave last, still to be run.
    pub last: Option<Vec<CommandSpec>>,
}

/// What is left to do in a construct once the part now being evaluated is
/// done.
pub enum Frame<'a> {
    /// The statements of the program; `next` is the first not yet begun.
    Program { items: &'a Vec<Expression>, next: usize },
    /// The statements of a block.
    Block { items: &'a Vec<Expression>, next: usize, last: Option<Vec<CommandSpec>> },
    LetKey(&'a LetExpression),
    LetValue { assignment: &'a LetExpression, key: String },
    /// The words of a command; `texts` are those already evaluated.
    Words { words: &'a Vec<CommandValue>, next: usize, texts: Vec<String> },
    IfCondition(&'a IfExpression),
    IfChoice(&'a IfExpression),
    /// A body whose scope is left when it is done.
    Scoped,
    WhileCondition(&'a WhileExpression),
    WhileChoice(&'a WhileExpression),
    WhileBody(&'a WhileExpression),
    WhileRun(&'a WhileExpression),
    ForName(&'a ForExpression),
    ForKey { each: &'a ForExpression, name: String },
    ForList { each: &'a ForExpression, name: String, key: Option<String> },
    /// Between two rounds.
    ForEach(ForState<'a>),
    /// In a round, while what the round before gave is run.
    ForRun(ForState<'a>),
    /// In a round, while the body is evaluated.
    ForBody(ForState<'a>),
    PipeSource { pipe: &'a RedirectTargetExpression, reader: usize },
    PipeTarget { source: Vec<CommandSpec> },
    FileTargetName(&'a FileTargetExpression),
    FileSourceName(&'a FileSourceExpression),
    AndFirst(&'a AndExpression),
    AndChoice(&'a AndExpression),
    OrFirst(&'a OrExpression),
    OrChoice(&'a OrExpression),
    BreakCount,
    /// The parts of a word or the items of an array.
    List { items: &'a Vec<Value>, next: usize, done: Vec<Variable> },
    Arguments { call: &'a DefinedFunctionCall, next: usize, done: Vec<Variable> },
    Substitution { writer: usize },
    SubstitutionRun { writer: usize },
    SubstitutionCollect,
}

/// Whether a scope lives as long as the frame does.
pub open spec fn holds_scope(f: Frame) -> bool {
    f is IfChoice || f is Scoped || f is WhileCondition || f is WhileChoice || f is WhileBody
        || f is WhileRun || f is ForRun || f is ForBody || f is PipeSource || f is PipeTarget
        || f is Substitution || f is SubstitutionRun
}

/// How many scopes the frames hold.
pub open spec fn held(stack: Seq<Frame>) -> nat
    decreases stack.len(),
{
    if stack.len() == 0 {
        0
    } else {
        held(stack.drop_last()) + if holds_scope(stack.last()) {
            1nat
        } else {
            0nat
        }
    }
}

pub proof fn lemma_held_push(stack: Seq<Frame>, f: Frame)
    ensures
        held(stack.push(f)) == held(stack) + if holds_scope(f) {
            1nat
        } else {
            0nat
        },
{
    assert(stack.push(f).drop_last() == stack);
}

/// Whether commands that exited so count as a success.
pub open spec fn is_success(code: Option<i32>) -> bool {
    code == Some(0i32)
}

/// Whether commands that exited so count as a success: only the exit code
/// 0 does; commands that gave no code, or no commands at all, do not.
pub fn succeeded(code: Option<i32>) -> (r: bool)
    ensures
        r == is_success(code),
{
    match code {
        Some(c) => c == 0,
        None => false,
    }
}

/// How many loops `break` with the count `text` leaves: without a count
/// one, and never none.
pub open spec fn spec_break_count(text: Seq<char>) -> Option<u16> {
    if text.len() == 0 {
        Some(1u16)
    } else {
        match parse_unsigned(text) {
            Some(n) => if n == 0 {
                Some(1u16)
            } else if n <= 65535 {
                Some(n as u16)
            } else {
                None
            },
            None => None,
        }
    }
}

/// How many loops `break` with the count `text` leaves.
pub fn break_count(text: &str) -> (res: Option<u16>)
    ensures
        res == spec_break_count(text@),
{
    if text.is_empty() {
        return Some(1);
    }
    match parse_bounded(text, 65535) {
        Some(n) => if n == 0 {
            Some(1)
        } else {
            Some(n as u16)
        },
        None => None,
    }
}

/// What a loop does once its body is done: with loops still to leave it
/// stops and counts itself off; without it goes on.
pub open spec fn after_body(break_num: u16) -> (bool, u16) {
    if break_num > 0 {
        (true, (break_num - 1) as u16)
    } else {
        (false, 0u16)
    }
}

/// How many loops are still to be left once the innermost `depth` loops
/// around a `break` have each seen their body end.
pub open spec fn unwound(break_num: u16, depth: nat) -> u16
    decreases depth,
{
    if depth == 0 {
        break_num
    } else {
        unwound(after_body(break_num).1, (depth - 1) as nat)
    }
}

/// How many of the innermost `depth` loops around a `break` stop.
pub open spec fn stopped(break_num: u16, depth: nat) -> nat
    decreases depth,
{
    if depth == 0 {
        0
    } else {
        stopped(after_body(break_num).1, (depth - 1) as nat) + if after_body(break_num).0 {
            1nat
        } else {
            0nat
        }
    }
}

/// `break n` inside `depth` loops stops the innermost `n` of them, or all
/// where there are no more, and leaves as many to be left as it found too
/// few: none where the loops are `n` or more.
pub proof fn lemma_break_leaves_loops(n: u16, depth: nat)
    ensures
        stopped(n, depth) == if n <= depth {
            n as nat
        } else {
            depth
        },
        unwound(n, depth) == if n <= depth {
            0
        } else {
            n - depth
        },
    decreases depth,
{
    if depth > 0 {
        lemma_break_leaves_loops(after_body(n).1, (depth - 1) as nat);
    }
}

/// The elements that a `for` loop runs over.
pub open spec fn spec_loop_items(list: SpecVariable) -> Option<Seq<SpecVariable>> {
    match list {
        SpecVariable::Array(items) => Some(items),
        SpecVariable::String(s) => Some(Seq::new(s.len(), |i: int| SpecVariable::String(seq![s[i]]))),
        _ => None,
    }
}

/// The elements that a `for` loop runs over: those of an array, in order,
/// or the characters of a string, each as a string.
pub fn loop_items(list: Variable) -> (res: Option<Vec<Variable>>)
    ensures
        match res {
            Some(items) => spec_loop_items(list@) == Some(crate::vars::variables_view(items@)),
            None => spec_loop_items(list@) is None,
        },
{
    match list {
        Variable::Array(arr) => {
            assert(list@->Array_0 =~= crate::vars::variables_view(arr@));
            Some(arr)
        },
        Variable::String(text) => {
            let chars = chars_of(text.as_str());
            let mut out: Vec<Variable> = Vec::new();
            let mut i: usize = 0;
            while i < chars.len()
                invariant
                    i <= chars.len(),
                    out.len() == i,
                    forall|k: int|
                        0 <= k < i ==> #[trigger] out[k]@ == SpecVariable::String(seq![chars[k]]),
                decreases chars.len() - i,
            {
                let mut one = String::new();
                push_char(&mut one, chars[i]);
                assert(one@ =~= seq![chars[i as int]]);
                out.push(Variable::String(one));
                i += 1;
            }
            assert(chars@ == text@);
            assert forall|k: int| 0 <= k < out.len() implies #[trigger] crate::vars::variables_view(
                out@,
            )[k] == SpecVariable::String(seq![text@[k]]) by {
                assert(out[k]@ == SpecVariable::String(seq![chars[k]]));
            }
            assert(crate::vars::variables_view(out@) =~= Seq::new(
                text@.len(),
                |i: int| SpecVariable::String(seq![text@[i]]),
            ));
            assert(list@ == SpecVariable::String(text@));
            Some(out)
        },
        _ => None,
    }
}

/// The machine: a context, the frames of what is in progress, and what to
/// do next.
pub struct Machine<'a> {
    pub ctx: Context,
    pub stack: Vec<Frame<'a>>,
    pub control: Control<'a>,
    /// What the caller has to do to its handles before the next action.
    pub effects: Vec<Effect>,
    /// The next number that names a handle.
    pub next_handle: usize,
    /// How many scopes the context had when the machine was made.
    pub base: usize,
}

/// `after` is `before` with one more scope, which binds nothing and
/// replaces at most the one stream.
pub open spec fn opened_scope(
    before: Context,
    after: Context,
    replaced: Option<(Stream, usize)>,
) -> bool {
    &&& after.scopes@.len() == before.scopes@.len() + 1
    &&& after.scopes@.drop_last() == before.scopes@
    &&& after.scopes@.last().vars@.len() == 0
    &&& after.scopes@.last().func@.len() == 0
    &&& after.scopes@.last().fd@.len() == 0
    &&& forall|s: Stream|
        after.scopes@.last().replaces(s) == match replaced {
            Some((r, h)) => if r == s {
                Some(h)
            } else {
                None
            },
            None => None,
        }
    &&& after.exports == before.exports
    &&& after.native_func == before.native_func
    &&& after.break_num == before.break_num
    &&& after.continue_num == before.continue_num
}

/// `after` is `before` without its innermost scope.
pub open spec fn closed_scope(before: Context, after: Context) -> bool {
    &&& after.scopes@ == before.scopes@.drop_last()
    &&& after.exports == before.exports
    &&& after.native_func == before.native_func
    &&& after.break_num == before.break_num
    &&& after.continue_num == before.continue_num
}

/// What closes all that a scope holds: what it put in place of the
/// streams, then its other handles.
pub open spec fn closing(scope: Scope) -> Seq<Effect> {
    (match scope.stdin_override {
        Some(h) => seq![Effect::Close { handle: h }],
        None => Seq::empty(),
    }) + (match scope.stdout_override {
        Some(h) => seq![Effect::Close { handle: h }],
        None => Seq::empty(),
    }) + (match scope.stderr_override {
        Some(h) => seq![Effect::Close { handle: h }],
        None => Seq::empty(),
    }) + Seq::new(scope.fd@.len(), |i: int| Effect::Close { handle: scope.fd@[i] })
}

/// What closes the handle that a frame holds beside its scope: the first
/// part of a pipe holds the reading end for the second.
pub open spec fn letting_go(f: Frame) -> Seq<Effect> {
    match f {
        Frame::PipeSource { pipe, reader } => seq![Effect::Close { handle: reader }],
        _ => Seq::empty(),
    }
}

/// What closes all that the frames hold, the topmost frame first: for
/// each frame what its scope holds, where it has one, then what the frame
/// itself holds.
pub open spec fn abandoning(stack: Seq<Frame>, scopes: Seq<Scope>) -> Seq<Effect>
    decreases stack.len(),
{
    if stack.len() == 0 {
        Seq::empty()
    } else if holds_scope(stack.last()) && scopes.len() > 0 {
        closing(scopes.last()) + letting_go(stack.last()) + abandoning(
            stack.drop_last(),
            scopes.drop_last(),
        )
    } else {
        letting_go(stack.last()) + abandoning(stack.drop_last(), scopes)
    }
}

/// Whether the effects close all that the frames and their scopes hold:
/// the scopes of the frames are those above the first `base`.
pub open spec fn releases(
    stack: Seq<Frame>,
    scopes: Seq<Scope>,
    base: int,
    effects: Seq<Effect>,
) -> bool {
    &&& forall|i: int, e: Effect|
        base <= i < scopes.len() && 0 <= i && closing(#[trigger] scopes[i]).contains(e)
            ==> #[trigger] effects.contains(e)
    &&& forall|j: int, e: Effect|
        0 <= j < stack.len() && letting_go(#[trigger] stack[j]).contains(e)
            ==> #[trigger] effects.contains(e)
}

/// Abandoning the frames releases them and their scopes, whatever was
/// asked before.
pub proof fn lemma_abandoning_releases(stack: Seq<Frame>, scopes: Seq<Scope>, sofar: Seq<Effect>)
    requires
        scopes.len() >= held(stack),
    ensures
        releases(stack, scopes, scopes.len() - held(stack), sofar + abandoning(stack, scopes)),
    decreases stack.len(),
{
    let all = sofar + abandoning(stack, scopes);
    let base = scopes.len() - held(stack);
    if stack.len() > 0 {
        let f = stack.last();
        let own = letting_go(f);
        if holds_scope(f) {
            let top = closing(scopes.last());
            let rest = abandoning(stack.drop_last(), scopes.drop_last());
            lemma_abandoning_releases(stack.drop_last(), scopes.drop_last(), sofar + top + own);
            assert(sofar + top + own + rest =~= all);
            assert forall|i: int, e: Effect|
                base <= i < scopes.len() && 0 <= i && closing(#[trigger] scopes[i]).contains(
                    e,
                ) implies #[trigger] all.contains(e) by {
                if i < scopes.len() - 1 {
                    assert(scopes[i] == scopes.drop_last()[i]);
                } else {
                    let k = choose|k: int| 0 <= k < top.len() && top[k] == e;
                    assert(all[sofar.len() + k] == e);
                }
            }
            assert forall|j: int, e: Effect|
                0 <= j < stack.len() && letting_go(#[trigger] stack[j]).contains(
                    e,
                ) implies #[trigger] all.contains(e) by {
                if j < stack.len() - 1 {
                    assert(stack[j] == stack.drop_last()[j]);
                } else {
                    let k = choose|k: int| 0 <= k < own.len() && own[k] == e;
                    assert(all[sofar.len() + top.len() + k] == e);
                }
            }
        } else {
            let rest = abandoning(stack.drop_last(), scopes);
            lemma_abandoning_releases(stack.drop_last(), scopes, sofar + own);
            assert(sofar + own + rest =~= all);
            assert forall|j: int, e: Effect|
                0 <= j < stack.len() && letting_go(#[trigger] stack[j]).contains(
                    e,
                ) implies #[trigger] all.contains(e) by {
                if j < stack.len() - 1 {
                    assert(stack[j] == stack.drop_last()[j]);
                } else {
                    let k = choose|k: int| 0 <= k < own.len() && own[k] == e;
                    assert(all[sofar.len() + k] == e);
                }
            }
        }
    }
}

/// Effects that release the frames below the topmost release them all
/// where the topmost frame holds nothing itself.
pub proof fn lemma_released_below(
    stack: Seq<Frame>,
    scopes: Seq<Scope>,
    base: int,
    effects: Seq<Effect>,
)
    requires
        stack.len() > 0,
        letting_go(stack.last()).len() == 0,
        releases(stack.drop_last(), scopes, base, effects),
    ensures
        releases(stack, scopes, base, effects),
{
    assert forall|j: int, e: Effect|
        0 <= j < stack.len() && letting_go(#[trigger] stack[j]).contains(
            e,
        ) implies #[trigger] effects.contains(e) by {
        if j < stack.len() - 1 {
            assert(stack[j] == stack.drop_last()[j]);
        }
    }
}

/// Effects that release more frames and scopes release those among them
/// that were there before.
pub proof fn lemma_released_within(
    stack: Seq<Frame>,
    scopes: Seq<Scope>,
    more_stack: Seq<Frame>,
    more_scopes: Seq<Scope>,
    base: int,
    effects: Seq<Effect>,
)
    requires
        stack.len() <= more_stack.len(),
        forall|j: int| 0 <= j < stack.len() ==> more_stack[j] == stack[j],
        scopes.len() <= more_scopes.len(),
        forall|i: int| 0 <= i < scopes.len() ==> more_scopes[i] == scopes[i],
        releases(more_stack, more_scopes, base, effects),
    ensures
        releases(stack, scopes, base, effects),
{
    assert forall|i: int, e: Effect|
        base <= i < scopes.len() && 0 <= i && closing(#[trigger] scopes[i]).contains(
            e,
        ) implies #[trigger] effects.contains(e) by {
        assert(more_scopes[i] == scopes[i]);
    }
    assert forall|j: int, e: Effect|
        0 <= j < stack.len() && letting_go(#[trigger] stack[j]).contains(
            e,
        ) implies #[trigger] effects.contains(e) by {
        assert(more_stack[j] == stack[j]);
    }
}

impl<'a> Machine<'a> {
    /// The context is sound, and its scopes are those the machine started
    /// with and one for each frame that holds one.
    pub open spec fn wf(&self) -> bool {
        &&& self.ctx.wf()
        &&& self.base >= 1
        &&& self.ctx.scopes.len() == self.base + held(self.stack@)
    }

    /// Whether the program is over: nothing is in progress.
    pub open spec fn is_over(&self) -> bool {
        self.stack@.len() == 0 && self.control is Stopped
    }

    /// A machine that is about to run `program` in `ctx`. Handles are named
    /// from `first_handle` on.
    pub fn new(ctx: Context, program: &'a Vec<Expression>, first_handle: usize) -> (m: Machine<'a>)
        requires
            ctx.wf(),
        ensures
            m.wf(),
            m.ctx == ctx,
            m.base == ctx.scopes.len(),
            m.effects@.len() == 0,
            m.next_handle == first_handle,
            m.control == Control::<'a>::Next,
            m.stack@ == seq![Frame::Program { items: program, next: 0 }],
    {
        let base = ctx.scopes.len();
        let mut stack: Vec<Frame<'a>> = Vec::new();
        stack.push(Frame::Program { items: program, next: 0 });
        proof {
            lemma_held_push(Seq::empty(), Frame::Program { items: program, next: 0 });
        }
        Machine {
            ctx,
            stack,
            control: Control::Next,
            effects: Vec::new(),
            next_handle: first_handle,
            base,
        }
    }

    /// Gives the context back once the program is over.
    pub fn finish(self) -> (ctx: Context)
        requires
            self.wf(),
            self.is_over(),
        ensures
            ctx == self.ctx,
            ctx.wf(),
            ctx.scopes.len() == self.base,
    {
        self.ctx
    }

    pub(crate) fn take_control(&mut self) -> (c: Control<'a>)
        ensures
            c == old(self).control,
            final(self).control is Stopped,
            final(self).ctx == old(self).ctx,
            final(self).stack == old(self).stack,
            final(self).effects == old(self).effects,
            final(self).next_handle == old(self).next_handle,
            final(self).base == old(self).base,
    {
        let mut taken = Control::Stopped;
        core::mem::swap(&mut self.control, &mut taken);
        taken
    }

    pub(crate) fn push(&mut self, f: Frame<'a>)
        ensures
            final(self).stack@ == old(self).stack@.push(f),
            held(final(self).stack@) == held(old(self).stack@) + if holds_scope(f) {
                1nat
            } else {
                0nat
            },
            final(self).ctx == old(self).ctx,
            final(self).control == old(self).control,
            final(self).effects == old(self).effects,
            final(self).next_handle == old(self).next_handle,
            final(self).base == old(self).base,
    {
        proof {
            lemma_held_push(self.stack@, f);
        }
        self.stack.push(f);
    }

    pub(crate) fn pop(&mut self) -> (f: Option<Frame<'a>>)
        ensures
            final(self).ctx == old(self).ctx,
            final(self).control == old(self).control,
            final(self).effects == old(self).effects,
            final(self).next_handle == old(self).next_handle,
            final(self).base == old(self).base,
            match f {
                Some(top) => old(self).stack@.len() > 0 && top == old(self).stack@.last()
                    && final(self).stack@ == old(self).stack@.drop_last() && held(
                    old(self).stack@,
                ) == held(final(self).stack@) + if holds_scope(top) {
                    1nat
                } else {
                    0nat
                },
                None => old(self).stack@.len() == 0 && final(self).stack@ == old(self).stack@,
            },
    {
        self.stack.pop()
    }

    /// A number that names no handle yet.
    pub(crate) fn fresh(&mut self) -> (h: Option<usize>)
        ensures
            final(self).ctx == old(self).ctx,
            final(self).stack == old(self).stack,
            final(self).control == old(self).control,
            final(self).effects == old(self).effects,
            final(self).base == old(self).base,
            match h {
                Some(n) => n == old(self).next_handle && final(self).next_handle == n + 1,
                None => old(self).next_handle == usize::MAX && final(self).next_handle == old(self).next_handle,
            },
    {
        if self.next_handle == usize::MAX {
            None
        } else {
            let h = self.next_handle;
            self.next_handle += 1;
            Some(h)
        }
    }

    /// Enters a scope that replaces `stream` by `handle`.
    pub(crate) fn enter_scope(&mut self, replaced: Option<(Stream, usize)>)
        requires
            old(self).ctx.wf(),
        ensures
            final(self).ctx.wf(),
            opened_scope(old(self).ctx, final(self).ctx, replaced),
            final(self).stack == old(self).stack,
            final(self).control == old(self).control,
            final(self).effects == old(self).effects,
            final(self).next_handle == old(self).next_handle,
            final(self).base == old(self).base,
    {
        let mut scope = Scope::new();
        match replaced {
            Some((Stream::Stdin, h)) => {
                scope.stdin_override = Some(h);
            },
            Some((Stream::Stdout, h)) => {
                scope.stdout_override = Some(h);
            },
            Some((Stream::Stderr, h)) => {
                scope.stderr_override = Some(h);
            },
            None => {},
        }
        let ghost before = self.ctx.scopes@;
        self.ctx.scopes.push(scope);
        assert(self.ctx.scopes@.drop_last() =~= before);
        assert forall|i: int| 0 <= i < self.ctx.scopes.len() implies (
        #[trigger] self.ctx.scopes[i]).wf() by {
            if i < before.len() {
                assert(self.ctx.scopes[i] == before[i]);
            }
        }
    }


    /// Leaves the innermost scope and has all that it holds closed.
    pub(crate) fn leave_scope(&mut self)
        requires
            old(self).ctx.wf(),
            old(self).ctx.scopes.len() >= 2,
        ensures
            final(self).ctx.wf(),
            closed_scope(old(self).ctx, final(self).ctx),
            final(self).effects@ == old(self).effects@ + closing(old(self).ctx.scopes@.last()),
            final(self).stack == old(self).stack,
            final(self).control == old(self).control,
            final(self).next_handle == old(self).next_handle,
            final(self).base == old(self).base,
    {
        let ghost before = self.ctx.scopes@;
        let ghost effects = self.effects@;
        match self.ctx.scopes.pop() {
            Some(scope) => {
                assert forall|i: int| 0 <= i < self.ctx.scopes.len() implies (
                #[trigger] self.ctx.scopes[i]).wf() by {
                    assert(self.ctx.scopes[i] == before[i]);
                }
                if let Some(h) = scope.stdin_override {
                    self.effects.push(Effect::Close { handle: h });
                }
                if let Some(h) = scope.stdout_override {
                    self.effects.push(Effect::Close { handle: h });
                }
                if let Some(h) = scope.stderr_override {
                    self.effects.push(Effect::Close { handle: h });
                }
                let ghost streams = self.effects@;
                assert(streams =~= effects + ((match scope.stdin_override {
                    Some(h) => seq![Effect::Close { handle: h }],
                    None => Seq::empty(),
                }) + (match scope.stdout_override {
                    Some(h) => seq![Effect::Close { handle: h }],
                    None => Seq::empty(),
                }) + (match scope.stderr_override {
                    Some(h) => seq![Effect::Close { handle: h }],
                    None => Seq::empty(),
                })));
                let mut i: usize = 0;
                while i < scope.fd.len()
                    invariant
                        i <= scope.fd.len(),
                        self.effects@ == streams + Seq::new(
                            i as nat,
                            |k: int| Effect::Close { handle: scope.fd@[k] },
                        ),
                        self.ctx.wf(),
                        self.ctx.scopes@ == before.drop_last(),
                        self.ctx.break_num == old(self).ctx.break_num,
                        self.ctx.continue_num == old(self).ctx.continue_num,
                        self.ctx.exports == old(self).ctx.exports,
                        self.ctx.native_func == old(self).ctx.native_func,
                        self.stack == old(self).stack,
                        self.control == old(self).control,
                        self.next_handle == old(self).next_handle,
                        self.base == old(self).base,
                    decreases scope.fd.len() - i,
                {
                    self.effects.push(Effect::Close { handle: scope.fd[i] });
                    assert(self.effects@ =~= streams + Seq::new(
                        (i + 1) as nat,
                        |k: int| Effect::Close { handle: scope.fd@[k] },
                    ));
                    i += 1;
                }
                assert(self.effects@ =~= effects + closing(scope));
            },
            None => {},
        }
    }
}

/// Leaving a scope that was entered to replace one stream closes the
/// handle that replaced it, and nothing else: so each end of a pipe is
/// closed when the part of the pipeline that uses it has been evaluated.
pub proof fn lemma_scope_closes_its_handle(
    before: Context,
    after: Context,
    stream: Stream,
    handle: usize,
)
    requires
        opened_scope(before, after, Some((stream, handle))),
    ensures
        closing(after.scopes@.last()) == seq![Effect::Close { handle }],
{
    let scope = after.scopes@.last();
    assert(scope.replaces(Stream::Stdin) == if stream == Stream::Stdin {
        Some(handle)
    } else {
        None
    });
    assert(scope.replaces(Stream::Stdout) == if stream == Stream::Stdout {
        Some(handle)
    } else {
        None
    });
    assert(scope.replaces(Stream::Stderr) == if stream == Stream::Stderr {
        Some(handle)
    } else {
        None
    });
    assert(closing(scope) =~= seq![Effect::Close { handle }]);
}

/// Whether the table binds `key` to the index `at`.
pub open spec fn bound_index(vars: Seq<(String, Variable)>, key: Seq<char>, at: usize) -> bool {
    crate::context::lookup(vars, key) matches Some(index) && index@ == SpecVariable::U64(at as u64)
}

/// Whether the control holds the outcome of an expression that gave no
/// commands.
pub open spec fn gives_nothing(control: Control) -> bool {
    control matches Control::Pending(c) && c@.len() == 0
}

/// A list without commands.
pub fn nothing() -> (cmds: Vec<CommandSpec>)
    ensures
        cmds@.len() == 0,
{
    Vec::new()
}

/// Whether the machine has asked its caller to run the commands: with
/// commands it waits for the caller to tell how they exited; without, it
/// takes them to have exited without a code.
pub open spec fn asked_to_run(control: Control, action: Action, cmds: Vec<CommandSpec>) -> bool {
    if cmds@.len() == 0 {
        action is Continue && control == Control::Exited(None)
    } else {
        action == Action::Run(cmds) && control is Waiting
    }
}

/// The copy of a handle for a command: its name, what makes it, and the
/// next free name.
pub open spec fn copy_of(from: Option<usize>, next: int) -> (Option<usize>, Seq<Effect>, int) {
    match from {
        None => (None, Seq::empty(), next),
        Some(h) => (
            Some(next as usize),
            seq![Effect::Clone { from: h, to: next as usize }],
            next + 1,
        ),
    }
}

/// How a command is wired whose streams are to be replaced by copies of
/// the given handles, with new handles named from `next` on. Gives the
/// handles of the command (input, output, errors), what makes them, and
/// the next free name.
pub open spec fn wiring_of(
    inp: Option<usize>,
    out: Option<usize>,
    err: Option<usize>,
    next: int,
) -> ((Option<usize>, Option<usize>, Option<usize>), Seq<Effect>, int) {
    let o = copy_of(out, next);
    let e = copy_of(err, o.2);
    let i = copy_of(inp, e.2);
    ((i.0, o.0, e.0), o.1 + e.1 + i.1, i.2)
}

/// How a command that starts in `ctx` is wired: for each stream that a
/// scope replaces, with a copy of what the innermost such scope puts
/// there.
pub open spec fn wiring(ctx: Context, next: int) -> (
    (Option<usize>, Option<usize>, Option<usize>),
    Seq<Effect>,
    int,
) {
    wiring_of(
        ctx.effective(Stream::Stdin),
        ctx.effective(Stream::Stdout),
        ctx.effective(Stream::Stderr),
        next,
    )
}

/// A scope that replaces a stream decides what a process gets in its
/// place; one that does not leaves it to the scopes around it.
pub proof fn lemma_effective_in_scope(
    before: Context,
    after: Context,
    replaced: Option<(Stream, usize)>,
    s: Stream,
)
    requires
        opened_scope(before, after, replaced),
    ensures
        after.effective(s) == match replaced {
            Some((r, h)) => if r == s {
                Some(h)
            } else {
                before.effective(s)
            },
            None => before.effective(s),
        },
{
    lemma_nearest_prefix(before.scopes@, after.scopes@, s, before.scopes@.len() as int);
}

/// What the innermost of the first scopes puts in place of a stream
/// depends on those scopes only.
pub proof fn lemma_nearest_prefix(a: Seq<Scope>, b: Seq<Scope>, s: Stream, upto: int)
    requires
        upto <= a.len() <= b.len(),
        forall|i: int| 0 <= i < a.len() ==> a[i] == b[i],
    ensures
        crate::context::nearest(a, s, upto) == crate::context::nearest(b, s, upto),
    decreases upto,
{
    if upto > 0 {
        lemma_nearest_prefix(a, b, s, upto - 1);
    }
}

impl<'a> Machine<'a> {
    /// What every move keeps: the machine stays sound, keeps its base, and
    /// leaves the count of loops to pass on as it is.
    pub open spec fn follows(&self, before: &Machine<'a>) -> bool {
        self.wf() && self.base == before.base && self.ctx.continue_num
            == before.ctx.continue_num
    }

    /// Whether the action ends the program in good order: nothing is in
    /// progress, the scopes are those the machine started with, and no
    /// loop is left to be left.
    pub open spec fn settled(&self, action: Action) -> bool {
        (action is Done || action is Failed) ==> self.is_over() && self.ctx.scopes.len()
            == self.base && self.ctx.break_num == 0
    }

    /// The frames but the topmost.
    pub open spec fn below(&self) -> Seq<Frame<'a>> {
        self.stack@.drop_last()
    }

    /// The topmost frame.
    pub open spec fn top(&self) -> Frame<'a> {
        self.stack@.last()
    }

    /// Nothing but the control has changed since `before`.
    pub open spec fn turned(&self, before: &Machine<'a>) -> bool {
        &&& self.ctx == before.ctx
        &&& self.stack@ == before.stack@
        &&& self.effects@ == before.effects@
        &&& self.next_handle == before.next_handle
    }

    /// The topmost frame of `before` has been replaced by `f`, and nothing
    /// else but the control has changed.
    pub open spec fn swapped(&self, before: &Machine<'a>, f: Frame<'a>) -> bool {
        &&& self.ctx == before.ctx
        &&& self.stack@ == before.below().push(f)
        &&& self.effects@ == before.effects@
        &&& self.next_handle == before.next_handle
    }

    /// The topmost frame of `before` is gone, and nothing else but the
    /// control has changed.
    pub open spec fn dropped(&self, before: &Machine<'a>) -> bool {
        &&& self.ctx == before.ctx
        &&& self.stack@ == before.below()
        &&& self.effects@ == before.effects@
        &&& self.next_handle == before.next_handle
    }

    /// The innermost scope of `before` has been left, and what it held is
    /// closed.
    pub open spec fn left_scope(&self, before: &Machine<'a>) -> bool {
        &&& closed_scope(before.ctx, self.ctx)
        &&& self.effects@ == before.effects@ + closing(before.ctx.scopes@.last())
        &&& self.next_handle == before.next_handle
    }

    /// Whether a move that gave the program up has released what was held:
    /// what it asks of the caller closes all that the frames, and the
    /// scopes above the base, held before the move.
    pub open spec fn released(&self, before: &Machine<'a>, action: Action) -> bool {
        action is Failed ==> releases(
            before.stack@,
            before.ctx.scopes@,
            before.base as int,
            self.effects@,
        )
    }

    /// The program has been given up with the error `e`.
    pub open spec fn gave_up(&self, action: Action, e: ExecError) -> bool {
        action == Action::Failed(e) && self.is_over()
    }

    /// Gives the program up: every frame is dropped, topmost first; the
    /// scope of each is left and what the frame holds is closed, so that
    /// the context is as deep as it was at the start and no handle is left
    /// open.
    pub(crate) fn fail(&mut self, e: ExecError) -> (action: Action)
        requires
            old(self).ctx.wf(),
            old(self).base >= 1,
            old(self).ctx.scopes.len() >= old(self).base + held(old(self).stack@),
        ensures
            final(self).base == old(self).base,
            final(self).ctx.wf(),
            final(self).ctx.scopes.len() + held(old(self).stack@) == old(self).ctx.scopes.len(),
            final(self).is_over(),
            final(self).ctx.break_num == 0,
            final(self).ctx.continue_num == old(self).ctx.continue_num,
            final(self).ctx.exports == old(self).ctx.exports,
            final(self).ctx.native_func == old(self).ctx.native_func,
            final(self).next_handle == old(self).next_handle,
            final(self).ctx.scopes@ == old(self).ctx.scopes@.take(
                old(self).ctx.scopes.len() - held(old(self).stack@),
            ),
            final(self).effects@ == old(self).effects@ + abandoning(
                old(self).stack@,
                old(self).ctx.scopes@,
            ),
            releases(
                old(self).stack@,
                old(self).ctx.scopes@,
                old(self).ctx.scopes.len() - held(old(self).stack@),
                final(self).effects@,
            ),
            final(self).gave_up(action, e),
    {
        let ghost whole = old(self).effects@ + abandoning(old(self).stack@, old(self).ctx.scopes@);
        proof {
            lemma_abandoning_releases(old(self).stack@, old(self).ctx.scopes@, old(self).effects@);
        }
        assert(self.ctx.scopes@.take(self.ctx.scopes.len() as int) =~= self.ctx.scopes@);
        while self.stack.len() > 0
            invariant
                self.ctx.continue_num == old(self).ctx.continue_num,
                self.ctx.exports == old(self).ctx.exports,
                self.ctx.native_func == old(self).ctx.native_func,
                self.next_handle == old(self).next_handle,
                self.ctx.wf(),
                self.base >= 1,
                self.ctx.scopes.len() >= self.base + held(self.stack@),
                self.ctx.scopes.len() - held(self.stack@) == old(self).ctx.scopes.len() - held(
                    old(self).stack@,
                ),
                self.base == old(self).base,
                self.ctx.scopes.len() <= old(self).ctx.scopes.len(),
                self.ctx.scopes@ == old(self).ctx.scopes@.take(self.ctx.scopes.len() as int),
                self.effects@ + abandoning(self.stack@, self.ctx.scopes@) == whole,
            decreases self.stack.len(),
        {
            let ghost stack = self.stack@;
            let ghost scopes = self.ctx.scopes@;
            let ghost sofar = self.effects@;
            match self.pop() {
                Some(frame) => {
                    if keeps_scope(&frame) {
                        self.leave_scope();
                        assert(self.ctx.scopes@ =~= old(self).ctx.scopes@.take(
                            self.ctx.scopes.len() as int,
                        ));
                    }
                    if let Frame::PipeSource { pipe: _, reader } = frame {
                        self.effects.push(Effect::Close { handle: reader });
                    }
                    assert(self.effects@ =~= sofar + if holds_scope(frame) {
                        closing(scopes.last()) + letting_go(frame)
                    } else {
                        letting_go(frame)
                    });
                    assert(self.effects@ + abandoning(self.stack@, self.ctx.scopes@) =~= sofar
                        + abandoning(stack, scopes));
                },
                None => {},
            }
        }
        self.ctx.break_num = 0;
        self.control = Control::Stopped;
        assert(held(self.stack@) == 0);
        assert(self.effects@ + abandoning(self.stack@, self.ctx.scopes@) =~= self.effects@);
        Action::Failed(e)
    }

    /// Has the commands run: asks the caller where there are any, and
    /// takes none for commands that gave no exit code.
    pub(crate) fn run(&mut self, cmds: Vec<CommandSpec>) -> (action: Action)
        ensures
            final(self).turned(old(self)),
            final(self).base == old(self).base,
            asked_to_run(final(self).control, action, cmds),
    {
        if cmds.len() == 0 {
            self.control = Control::Exited(None);
            Action::Continue
        } else {
            self.control = Control::Waiting;
            Action::Run(cmds)
        }
    }

    /// Copies the handle for a command, if there is one.
    pub(crate) fn copy_handle(&mut self, from: Option<usize>) -> (res: Option<Option<usize>>)
        ensures
            final(self).ctx == old(self).ctx,
            final(self).stack == old(self).stack,
            final(self).control == old(self).control,
            final(self).base == old(self).base,
            old(self).effects@.is_prefix_of(final(self).effects@),
            res is None <==> from is Some && old(self).next_handle == usize::MAX,
            res matches Some(to) ==> {
                &&& to == copy_of(from, old(self).next_handle as int).0
                &&& final(self).effects@ == old(self).effects@ + copy_of(from, old(self).next_handle as int).1
                &&& final(self).next_handle == copy_of(from, old(self).next_handle as int).2
            },
    {
        match from {
            None => {
                assert(self.effects@ + Seq::<Effect>::empty() =~= self.effects@);
                Some(None)
            },
            Some(h) => match self.fresh() {
                None => None,
                Some(copy) => {
                    self.effects.push(Effect::Clone { from: h, to: copy });
                    assert(self.effects@ =~= old(self).effects@ + seq![
                        Effect::Clone { from: h, to: copy },
                    ]);
                    Some(Some(copy))
                },
            },
        }
    }

    /// The command with the given program and arguments, as it would start
    /// now; `None` where no numbers are left to name its handles.
    pub(crate) fn command_spec(&mut self, program: String, args: Vec<String>) -> (res: Option<CommandSpec>)
        ensures
            final(self).ctx == old(self).ctx,
            final(self).stack == old(self).stack,
            final(self).control == old(self).control,
            final(self).base == old(self).base,
            old(self).effects@.is_prefix_of(final(self).effects@),
            res is Some <==> wiring(old(self).ctx, old(self).next_handle as int).2 <= usize::MAX,
            res matches Some(spec) ==> {
                &&& spec.program == program
                &&& spec.args == args
                &&& (spec.stdin, spec.stdout, spec.stderr) == wiring(old(self).ctx, old(self).next_handle as int).0
                &&& final(self).effects@ == old(self).effects@ + wiring(old(self).ctx, old(self).next_handle as int).1
                &&& final(self).next_handle == wiring(old(self).ctx, old(self).next_handle as int).2
            },
    {
        let overrides = self.ctx.get_overrides();
        let ghost first = self.effects@;
        let stdout = match self.copy_handle(overrides.stdout) {
            None => {
                return None;
            },
            Some(h) => h,
        };
        let ghost second = self.effects@;
        let stderr = match self.copy_handle(overrides.stderr) {
            None => {
                assert(first.is_prefix_of(self.effects@));
                return None;
            },
            Some(h) => h,
        };
        let ghost third = self.effects@;
        let stdin = match self.copy_handle(overrides.stdin) {
            None => {
                assert(first.is_prefix_of(self.effects@));
                return None;
            },
            Some(h) => h,
        };
        assert(self.effects@ =~= first + wiring(old(self).ctx, old(self).next_handle as int).1);
        Some(CommandSpec { program, args, stdin, stdout, stderr })
    }
}

/// Whether a scope lives as long as the frame does.
pub(crate) fn keeps_scope(f: &Frame) -> (r: bool)
    ensures
        r == holds_scope(*f),
{
    match f {
        Frame::IfChoice(_) | Frame::Scoped | Frame::WhileCondition(_) | Frame::WhileChoice(_)
        | Frame::WhileBody(_) | Frame::WhileRun(_) | Frame::ForRun(_) | Frame::ForBody(_)
        | Frame::PipeSource { .. } | Frame::PipeTarget { .. } | Frame::Substitution { .. }
        | Frame::SubstitutionRun { .. } => true,
        _ => false,
    }
}

} // verus!
