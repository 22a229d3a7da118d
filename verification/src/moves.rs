//! The moves of the machine.
//!
//! For each thing that the machine may be about to do there is a relation
//! that says what a move makes of it (`begins_expression`, `takes_pending`
//! and so on), and a routine that makes the move and is proved to stand in
//! that relation. `step` picks the routine.
use vstd::prelude::*;
use vstd::string::*;
use crate::ast::{CommandValue, Expression, Value};
use crate::context::{
    AnyFunction, Context, find_func, has_env_prefix, lookup, Native, Stream, without_env,
};
use crate::exec::{
    Action, after_body, asked_to_run, break_count, closing, CommandSpec, Control, Effect, Event,
    ExecError, ForState, Frame, gives_nothing, held, is_success, lemma_effective_in_scope,
    loop_items, Machine, nothing, opened_scope, spec_break_count, spec_loop_items, Step, succeeded,
    wiring, wiring_of, lemma_released_below, lemma_released_within, letting_go, releases,
};
use crate::natives::{call_native, NativeError, pure_result};
use crate::text::push_char;
use crate::vars::{spec_to_string, SpecVariable, Variable, variables_view};

verus! {

/// The context is `before` but for the variable `key`, which the innermost
/// scope binds to a value that looks like `val`; a name of the environment
/// is exported as well, as the text of the value.
pub open spec fn bound(before: Context, after: Context, key: Seq<char>, val: SpecVariable) -> bool {
    &&& after.scopes@.len() == before.scopes@.len()
    &&& after.scopes@.drop_last() == before.scopes@.drop_last()
    &&& after.scopes@.last().func == before.scopes@.last().func
    &&& after.scopes@.last().fd == before.scopes@.last().fd
    &&& forall|s: Stream| after.scopes@.last().replaces(s) == before.scopes@.last().replaces(s)
    &&& lookup(after.scopes@.last().vars@, key) matches Some(v) && v@ == val
    &&& forall|k: Seq<char>|
        k != key ==> lookup(after.scopes@.last().vars@, k) == lookup(
            before.scopes@.last().vars@,
            k,
        )
    &&& after.native_func == before.native_func
    &&& after.break_num == before.break_num
    &&& after.continue_num == before.continue_num
    &&& if has_env_prefix(key) {
        &&& lookup(after.exports@, without_env(key)) matches Some(exported)
        &&& exported@ == SpecVariable::String(spec_to_string(val))
        &&& forall|k: Seq<char>|
            k != without_env(key) ==> lookup(after.exports@, k) == lookup(before.exports@, k)
    } else {
        after.exports == before.exports
    }
}

/// What a command that is made of the texts is: the first is the program,
/// the others are the arguments.
pub open spec fn made_of(spec: CommandSpec, texts: Seq<Seq<char>>) -> bool {
    &&& texts.len() > 0
    &&& spec.program@ == texts[0]
    &&& spec.args@.len() == texts.len() - 1
    &&& forall|i: int| 0 <= i < spec.args@.len() ==> (#[trigger] spec.args@[i])@ == texts[i + 1]
}

/// The texts of the strings.
pub open spec fn views(texts: Seq<String>) -> Seq<Seq<char>> {
    Seq::new(texts.len(), |i: int| texts[i]@)
}

impl<'a> Machine<'a> {
    /// `f` has been put on the frames of `before`, and nothing else but
    /// the control has changed.
    pub open spec fn pushed(&self, before: &Machine<'a>, f: Frame<'a>) -> bool {
        &&& self.ctx == before.ctx
        &&& self.stack@ == before.stack@.push(f)
        &&& self.effects@ == before.effects@
        &&& self.next_handle == before.next_handle
    }

    /// A scope has been entered that replaces at most one stream, and `f`
    /// has been put on the frames.
    pub open spec fn entered(
        &self,
        before: &Machine<'a>,
        replaced: Option<(Stream, usize)>,
        f: Frame<'a>,
    ) -> bool {
        &&& opened_scope(before.ctx, self.ctx, replaced)
        &&& self.stack@ == before.stack@.push(f)
    }

    /// What beginning the expression `e` makes of the machine. While loops
    /// are still to be left nothing runs, and a loop counts itself off.
    /// Otherwise the first part of `e` is what is evaluated next, and a
    /// frame holds what is left to do; a loop and a pipe enter a scope.
    pub open spec fn begins_expression(
        &self,
        before: &Machine<'a>,
        e: &'a Expression,
        action: Action,
    ) -> bool {
        if before.ctx.break_num > 0 {
            &&& action is Continue
            &&& gives_nothing(self.control)
            &&& self.stack@ == before.stack@
            &&& self.effects@ == before.effects@
            &&& self.next_handle == before.next_handle
            &&& self.ctx.scopes == before.ctx.scopes
            &&& self.ctx.exports == before.ctx.exports
            &&& self.ctx.native_func == before.ctx.native_func
            &&& self.ctx.continue_num == before.ctx.continue_num
            &&& self.ctx.break_num == if e is WhileExpression || e is ForExpression {
                before.ctx.break_num - 1
            } else {
                before.ctx.break_num as int
            }
        } else {
            match e {
                Expression::LetExpression(x) => action is Continue && self.pushed(
                    before,
                    Frame::LetKey(x),
                ) && self.control == Control::Value(&*x.key),
                Expression::Command(words) => if words.len() == 0 {
                    self.gave_up(action, ExecError::EmptyCommand)
                } else {
                    match &words[0] {
                        CommandValue::Value(v) => {
                            &&& action is Continue
                            &&& self.control == Control::Value(v)
                            &&& self.ctx == before.ctx
                            &&& self.effects@ == before.effects@
                            &&& self.next_handle == before.next_handle
                            &&& self.below() == before.stack@
                            &&& self.stack@.len() > 0
                            &&& self.top() matches Frame::Words { words: w, next, texts }
                            &&& w == words && next == 0 && texts@.len() == 0
                        },
                        CommandValue::Var(_, _) => self.gave_up(action, ExecError::BrokenCommand),
                    }
                },
                Expression::JobCommand(_) => self.gave_up(action, ExecError::NotImplemented),
                Expression::Function(_) => self.gave_up(action, ExecError::NotImplemented),
                Expression::IfExpression(x) => action is Continue && self.pushed(
                    before,
                    Frame::IfCondition(x),
                ) && self.control == Control::Expression(&*x.condition),
                Expression::WhileExpression(x) => {
                    &&& action is Continue
                    &&& self.entered(before, None, Frame::WhileCondition(x))
                    &&& self.effects@ == before.effects@
                    &&& self.next_handle == before.next_handle
                    &&& self.control == Control::Expression(&*x.condition)
                },
                Expression::ForExpression(x) => action is Continue && self.pushed(
                    before,
                    Frame::ForName(x),
                ) && self.control == Control::Value(&x.arg_value),
                Expression::RedirectTargetExpression(x) => if before.next_handle + 2
                    > usize::MAX {
                    self.gave_up(action, ExecError::OutOfHandles)
                } else {
                    let reader = before.next_handle;
                    let writer = (before.next_handle + 1) as usize;
                    &&& action is Continue
                    &&& self.entered(
                        before,
                        Some((Stream::Stdout, writer)),
                        Frame::PipeSource { pipe: x, reader },
                    )
                    &&& self.effects@ == before.effects@.push(Effect::Pipe { reader, writer })
                    &&& self.next_handle == before.next_handle + 2
                    &&& self.control == Control::Expression(&*x.source)
                },
                Expression::FileTargetExpression(x) => action is Continue && self.pushed(
                    before,
                    Frame::FileTargetName(x),
                ) && self.control == Control::Value(&*x.target),
                Expression::FileSourceExpression(x) => action is Continue && self.pushed(
                    before,
                    Frame::FileSourceName(x),
                ) && self.control == Control::Value(&*x.source),
                Expression::Expressions(items) => action is Continue && self.turned(before)
                    && self.control == Control::Block(items),
                Expression::OrExpression(x) => action is Continue && self.pushed(
                    before,
                    Frame::OrFirst(x),
                ) && self.control == Control::Expression(&*x.first),
                Expression::AndExpression(x) => action is Continue && self.pushed(
                    before,
                    Frame::AndFirst(x),
                ) && self.control == Control::Expression(&*x.first),
                Expression::BreakExpression(x) => action is Continue && self.pushed(
                    before,
                    Frame::BreakCount,
                ) && self.control == Control::Value(&*x.num),
            }
        }
    }

    /// Begins an expression.
    #[verifier::spinoff_prover]
    pub(crate) fn begin_expression(&mut self, e: &'a Expression) -> (action: Action)
        requires
            old(self).wf(),
        ensures
            final(self).follows(old(self)),
            final(self).settled(action),
            final(self).released(old(self), action),
            final(self).begins_expression(old(self), e, action),
    {
        if self.ctx.break_num > 0 {
            match e {
                Expression::WhileExpression(_) | Expression::ForExpression(_) => {
                    self.ctx.break_num = self.ctx.break_num - 1;
                },
                _ => {},
            }
            self.control = Control::Pending(nothing());
            return Action::Continue;
        }
        match e {
            Expression::LetExpression(x) => {
                self.push(Frame::LetKey(x));
                self.control = Control::Value(&*x.key);
                Action::Continue
            },
            Expression::Command(words) => {
                if words.len() == 0 {
                    return self.fail(ExecError::EmptyCommand);
                }
                match &words[0] {
                    CommandValue::Value(v) => {
                        self.push(Frame::Words { words, next: 0, texts: Vec::new() });
                        self.control = Control::Value(v);
                        assert(self.stack@.drop_last() == old(self).stack@);
                        Action::Continue
                    },
                    CommandValue::Var(_, _) => self.fail(ExecError::BrokenCommand),
                }
            },
            Expression::JobCommand(_) => self.fail(ExecError::NotImplemented),
            Expression::Function(_) => self.fail(ExecError::NotImplemented),
            Expression::IfExpression(x) => {
                self.push(Frame::IfCondition(x));
                self.control = Control::Expression(&*x.condition);
                Action::Continue
            },
            Expression::WhileExpression(x) => {
                self.enter_scope(None);
                self.push(Frame::WhileCondition(x));
                self.control = Control::Expression(&*x.condition);
                Action::Continue
            },
            Expression::ForExpression(x) => {
                self.push(Frame::ForName(x));
                self.control = Control::Value(&x.arg_value);
                Action::Continue
            },
            Expression::RedirectTargetExpression(x) => {
                if self.next_handle >= usize::MAX - 1 {
                    return self.fail(ExecError::OutOfHandles);
                }
                let reader = self.next_handle;
                let writer = self.next_handle + 1;
                self.next_handle = self.next_handle + 2;
                self.effects.push(Effect::Pipe { reader, writer });
                self.enter_scope(Some((Stream::Stdout, writer)));
                self.push(Frame::PipeSource { pipe: x, reader });
                self.control = Control::Expression(&*x.source);
                Action::Continue
            },
            Expression::FileTargetExpression(x) => {
                self.push(Frame::FileTargetName(x));
                self.control = Control::Value(&*x.target);
                Action::Continue
            },
            Expression::FileSourceExpression(x) => {
                self.push(Frame::FileSourceName(x));
                self.control = Control::Value(&*x.source);
                Action::Continue
            },
            Expression::Expressions(items) => {
                self.control = Control::Block(items);
                Action::Continue
            },
            Expression::OrExpression(x) => {
                self.push(Frame::OrFirst(x));
                self.control = Control::Expression(&*x.first);
                Action::Continue
            },
            Expression::AndExpression(x) => {
                self.push(Frame::AndFirst(x));
                self.control = Control::Expression(&*x.first);
                Action::Continue
            },
            Expression::BreakExpression(x) => {
                self.push(Frame::BreakCount);
                self.control = Control::Value(&*x.num);
                Action::Continue
            },
        }
    }

    /// What beginning a block makes of the machine: while loops are still
    /// to be left the block gives nothing; otherwise its first statement
    /// is up next.
    pub open spec fn begins_block(
        &self,
        before: &Machine<'a>,
        items: &'a Vec<Expression>,
        action: Action,
    ) -> bool {
        &&& action is Continue
        &&& if before.ctx.break_num > 0 {
            self.turned(before) && gives_nothing(self.control)
        } else {
            self.pushed(before, Frame::Block { items, next: 0, last: None }) && self.control
                == Control::<'a>::Next
        }
    }

    /// Begins a block.
    pub(crate) fn begin_block(&mut self, items: &'a Vec<Expression>) -> (action: Action)
        requires
            old(self).wf(),
        ensures
            final(self).follows(old(self)),
            final(self).settled(action),
            final(self).released(old(self), action),
            final(self).begins_block(old(self), items, action),
    {
        if self.ctx.break_num > 0 {
            self.control = Control::Pending(nothing());
        } else {
            self.push(Frame::Block { items, next: 0, last: None });
            self.control = Control::Next;
        }
        Action::Continue
    }
}


impl<'a> Machine<'a> {
    /// What calling the function `name` on `args` makes of the machine. A
    /// function that a scope defines cannot be called yet; a built-in
    /// gives its answer; a name that nothing defines is an error.
    pub open spec fn invoked(
        &self,
        before: &Machine<'a>,
        stack: Seq<Frame<'a>>,
        name: Seq<char>,
        args: Seq<SpecVariable>,
        action: Action,
    ) -> bool {
        if find_func(before.ctx.scopes@, name, before.ctx.scopes.len() as int) is Some {
            self.gave_up(action, ExecError::NotImplemented)
        } else {
            match lookup(before.ctx.native_func@, name) {
                None => self.gave_up(action, ExecError::FunctionNotFound),
                Some(f) => if f.func == Native::Export {
                    if args.len() != 1 && args.len() != 3 {
                        self.gave_up(action, ExecError::Native(NativeError::Arity))
                    } else {
                        &&& action is Continue
                        &&& self.stack@ == stack
                        &&& self.effects@ == before.effects@
                        &&& self.next_handle == before.next_handle
                        &&& self.control matches Control::Given(v)
                        &&& crate::natives::export_result(
                            before.ctx,
                            args,
                            self.ctx,
                            Ok::<Variable, NativeError>(v),
                        )
                    }
                } else {
                    match pure_result(f.func, args) {
                        Ok(answer) => {
                            &&& action is Continue
                            &&& self.ctx == before.ctx
                            &&& self.stack@ == stack
                            &&& self.effects@ == before.effects@
                            &&& self.next_handle == before.next_handle
                            &&& self.control matches Control::Given(v)
                            &&& v@ == answer
                        },
                        Err(e) => self.gave_up(action, ExecError::Native(e)),
                    }
                },
            }
        }
    }

    /// Calls the function `name` on `args`.
    #[verifier::spinoff_prover]
    pub(crate) fn invoke(&mut self, name: &str, args: Vec<Variable>) -> (action: Action)
        requires
            old(self).wf(),
        ensures
            final(self).follows(old(self)),
            final(self).settled(action),
            final(self).released(old(self), action),
            final(self).invoked(old(self), old(self).stack@, name@, variables_view(args@), action),
    {
        let kind: Option<Native> = match self.ctx.get_func(name) {
            None => {
                return self.fail(ExecError::FunctionNotFound);
            },
            Some(AnyFunction::UserDefined(_)) => None,
            Some(AnyFunction::Native(f)) => Some(f.func),
        };
        match kind {
            None => self.fail(ExecError::NotImplemented),
            Some(native) => match call_native(native, &mut self.ctx, args) {
                Ok(v) => {
                    self.control = Control::Given(v);
                    Action::Continue
                },
                Err(e) => self.fail(ExecError::Native(e)),
            },
        }
    }

    /// What beginning a list of values makes of the machine: an empty list
    /// gives the empty array; otherwise the first value is evaluated next.
    pub open spec fn begins_list(
        &self,
        before: &Machine<'a>,
        items: &'a Vec<Value>,
        action: Action,
    ) -> bool {
        &&& action is Continue
        &&& if items.len() == 0 {
            &&& self.turned(before)
            &&& self.control matches Control::Given(v)
            &&& v@ == SpecVariable::Array(Seq::empty())
        } else {
            &&& self.ctx == before.ctx
            &&& self.effects@ == before.effects@
            &&& self.next_handle == before.next_handle
            &&& self.stack@.len() > 0
            &&& self.below() == before.stack@
            &&& self.top() matches Frame::List { items: i, next, done }
            &&& i == items && next == 0 && done@.len() == 0
            &&& self.control == Control::Value(&items[0])
        }
    }

    pub(crate) fn begin_list(&mut self, items: &'a Vec<Value>) -> (action: Action)
        requires
            old(self).wf(),
        ensures
            final(self).follows(old(self)),
            final(self).settled(action),
            final(self).released(old(self), action),
            final(self).begins_list(old(self), items, action),
    {
        if items.len() == 0 {
            let empty = Variable::array(Vec::new());
            assert(empty@ == SpecVariable::Array(Seq::empty())) by {
                assert(variables_view(Seq::<Variable>::empty()) =~= Seq::<SpecVariable>::empty());
            }
            self.control = Control::Given(empty);
        } else {
            self.push(Frame::List { items, next: 0, done: Vec::new() });
            self.control = Control::Value(&items[0]);
            assert(self.stack@.drop_last() == old(self).stack@);
        }
        Action::Continue
    }

    /// What beginning the value `v` makes of the machine. A literal gives
    /// its text; a variable gives what it is bound to, or the empty string
    /// or the empty array where it is not bound; a list has its values
    /// evaluated one by one; a call has its arguments evaluated, or is made
    /// at once where it has none; a substitution enters a scope that
    /// replaces the standard output by a capture, and has its body
    /// evaluated.
    pub open spec fn begins_value(&self, before: &Machine<'a>, v: &'a Value, action: Action) -> bool {
        match v {
            Value::Literal(s) => {
                &&& action is Continue
                &&& self.turned(before)
                &&& self.control matches Control::Given(g)
                &&& g@ == SpecVariable::String(s@)
            },
            Value::Variable(name) => {
                &&& action is Continue
                &&& self.turned(before)
                &&& self.control matches Control::Given(g)
                &&& g@ == match before.ctx.var(name@) {
                    Some(found) => found@,
                    None => SpecVariable::String(Seq::empty()),
                }
            },
            Value::ArrayVariable(name) => {
                &&& action is Continue
                &&& self.turned(before)
                &&& self.control matches Control::Given(g)
                &&& g@ == match before.ctx.var(name@) {
                    Some(found) => found@,
                    None => SpecVariable::Array(Seq::empty()),
                }
            },
            Value::ArrayDefinition(items) => self.begins_list(before, items, action),
            Value::Values(items) => self.begins_list(before, items, action),
            Value::ValueFunction(call) => if call.args.len() == 0 {
                self.invoked(before, before.stack@, call.name@, Seq::empty(), action)
            } else {
                &&& action is Continue
                &&& self.ctx == before.ctx
                &&& self.effects@ == before.effects@
                &&& self.next_handle == before.next_handle
                &&& self.stack@.len() > 0
                &&& self.below() == before.stack@
                &&& self.top() matches Frame::Arguments { call: c, next, done }
                &&& c == call && next == 0 && done@.len() == 0
                &&& self.control == Control::Value(&call.args[0])
            },
            Value::Expressions(body) => if before.next_handle == usize::MAX {
                self.gave_up(action, ExecError::OutOfHandles)
            } else {
                let writer = before.next_handle;
                &&& action is Continue
                &&& self.entered(
                    before,
                    Some((Stream::Stdout, writer)),
                    Frame::Substitution { writer },
                )
                &&& self.effects@ == before.effects@.push(Effect::Capture { writer })
                &&& self.next_handle == before.next_handle + 1
                &&& self.control == Control::Block(body)
            },
        }
    }

    /// Begins a value.
    #[verifier::spinoff_prover]
    pub(crate) fn begin_value(&mut self, v: &'a Value) -> (action: Action)
        requires
            old(self).wf(),
        ensures
            final(self).follows(old(self)),
            final(self).settled(action),
            final(self).released(old(self), action),
            final(self).begins_value(old(self), v, action),
    {
        match v {
            Value::Literal(s) => {
                self.control = Control::Given(Variable::String(s.clone()));
                Action::Continue
            },
            Value::Variable(name) => {
                let found = match self.ctx.get_var(name.as_str()) {
                    Some(var) => var.duplicate(),
                    None => Variable::String(String::new()),
                };
                self.control = Control::Given(found);
                Action::Continue
            },
            Value::ArrayVariable(name) => {
                let found = match self.ctx.get_var(name.as_str()) {
                    Some(var) => var.duplicate(),
                    None => {
                        let empty = Variable::array(Vec::new());
                        assert(variables_view(Seq::<Variable>::empty()) =~= Seq::<
                            SpecVariable,
                        >::empty());
                        empty
                    },
                };
                self.control = Control::Given(found);
                Action::Continue
            },
            Value::ArrayDefinition(items) => self.begin_list(items),
            Value::Values(items) => self.begin_list(items),
            Value::ValueFunction(call) => {
                if call.args.len() == 0 {
                    let none: Vec<Variable> = Vec::new();
                    assert(variables_view(none@) =~= Seq::<SpecVariable>::empty());
                    self.invoke(call.name.as_str(), none)
                } else {
                    self.push(Frame::Arguments { call, next: 0, done: Vec::new() });
                    self.control = Control::Value(&call.args[0]);
                    assert(self.stack@.drop_last() == old(self).stack@);
                    Action::Continue
                }
            },
            Value::Expressions(body) => {
                let writer = match self.fresh() {
                    None => {
                        return self.fail(ExecError::OutOfHandles);
                    },
                    Some(h) => h,
                };
                self.effects.push(Effect::Capture { writer });
                self.enter_scope(Some((Stream::Stdout, writer)));
                self.push(Frame::Substitution { writer });
                self.control = Control::Block(body);
                Action::Continue
            },
        }
    }
}


impl<'a> Machine<'a> {
    /// What handing the commands `cmds`, which an expression gave, to the
    /// frame that waits for them makes of the machine.
    ///
    /// The program, a condition, the first part of `&&` and `||`, and a
    /// substitution have them run. A block keeps them to run them before
    /// its next statement, or hands them on where it is over or loops are
    /// to be left. A loop whose body gave them leaves its round; it stops,
    /// counts itself off and hands them on where loops are to be left, and
    /// else goes on. The first part of a pipe leaves its scope, which
    /// closes the writing end, and has the second part evaluated in a scope
    /// that reads from the pipe; the second part leaves its scope, which
    /// closes the reading end, and hands on the commands of both parts,
    /// those of the first before those of the second.
    pub open spec fn takes_pending(
        &self,
        before: &Machine<'a>,
        cmds: Vec<CommandSpec>,
        action: Action,
    ) -> bool {
        if before.stack@.len() == 0 {
            self.gave_up(action, ExecError::UnexpectedEvent)
        } else {
            match before.top() {
                Frame::Program { items, next } => {
                    &&& self.turned(before)
                    &&& asked_to_run(self.control, action, cmds)
                },
                Frame::Block { items, next, last } => {
                    &&& action is Continue
                    &&& if before.ctx.break_num > 0 || next >= items.len() {
                        self.dropped(before) && self.control == Control::Pending(cmds)
                    } else {
                        self.swapped(before, Frame::Block { items, next, last: Some(cmds) })
                            && self.control == Control::<'a>::Next
                    }
                },
                Frame::IfCondition(x) => {
                    &&& opened_scope(before.ctx, self.ctx, None)
                    &&& self.stack@ == before.below().push(Frame::IfChoice(x))
                    &&& self.effects@ == before.effects@
                    &&& self.next_handle == before.next_handle
                    &&& asked_to_run(self.control, action, cmds)
                },
                Frame::Scoped => {
                    &&& action is Continue
                    &&& self.left_scope(before)
                    &&& self.stack@ == before.below()
                    &&& self.control == Control::Pending(cmds)
                },
                Frame::WhileCondition(x) => {
                    &&& self.swapped(before, Frame::WhileChoice(x))
                    &&& asked_to_run(self.control, action, cmds)
                },
                Frame::WhileBody(x) => {
                    let (stop, left) = after_body(before.ctx.break_num);
                    &&& self.ctx.break_num == left
                    &&& self.ctx.exports == before.ctx.exports
                    &&& self.ctx.native_func == before.ctx.native_func
                    &&& self.ctx.continue_num == before.ctx.continue_num
                    &&& self.next_handle == before.next_handle
                    &&& if stop {
                        &&& action is Continue
                        &&& self.ctx.scopes@ == before.ctx.scopes@.drop_last()
                        &&& self.effects@ == before.effects@ + closing(
                            before.ctx.scopes@.last(),
                        )
                        &&& self.stack@ == before.below()
                        &&& self.control == Control::Pending(cmds)
                    } else {
                        &&& self.ctx.scopes == before.ctx.scopes
                        &&& self.effects@ == before.effects@
                        &&& self.stack@ == before.below().push(Frame::WhileRun(x))
                        &&& asked_to_run(self.control, action, cmds)
                    }
                },
                Frame::ForBody(state) => {
                    let (stop, left) = after_body(before.ctx.break_num);
                    &&& action is Continue
                    &&& self.ctx.break_num == left
                    &&& self.ctx.scopes@ == before.ctx.scopes@.drop_last()
                    &&& self.ctx.exports == before.ctx.exports
                    &&& self.ctx.native_func == before.ctx.native_func
                    &&& self.ctx.continue_num == before.ctx.continue_num
                    &&& self.effects@ == before.effects@ + closing(before.ctx.scopes@.last())
                    &&& self.next_handle == before.next_handle
                    &&& if stop {
                        self.stack@ == before.below() && self.control == Control::Pending(cmds)
                    } else {
                        &&& self.stack@ == before.below().push(
                            Frame::ForEach(
                                ForState {
                                    next: if state.next < usize::MAX {
                                        (state.next + 1) as usize
                                    } else {
                                        state.next
                                    },
                                    last: Some(cmds),
                                    ..state
                                },
                            ),
                        )
                        &&& self.control == Control::<'a>::Next
                    }
                },
                Frame::PipeSource { pipe, reader } => {
                    &&& action is Continue
                    &&& self.ctx.scopes@.len() == before.ctx.scopes@.len()
                    &&& self.ctx.scopes@.drop_last() == before.ctx.scopes@.drop_last()
                    &&& self.ctx.scopes@.last().vars@.len() == 0
                    &&& self.ctx.scopes@.last().func@.len() == 0
                    &&& self.ctx.scopes@.last().fd@.len() == 0
                    &&& self.ctx.scopes@.last().stdin_override == Some(reader)
                    &&& self.ctx.scopes@.last().stdout_override is None
                    &&& self.ctx.scopes@.last().stderr_override is None
                    &&& self.ctx.exports == before.ctx.exports
                    &&& self.ctx.native_func == before.ctx.native_func
                    &&& self.ctx.break_num == before.ctx.break_num
                    &&& self.ctx.continue_num == before.ctx.continue_num
                    &&& self.effects@ == before.effects@ + closing(before.ctx.scopes@.last())
                    &&& self.next_handle == before.next_handle
                    &&& self.stack@ == before.below().push(Frame::PipeTarget { source: cmds })
                    &&& self.control == Control::Expression(&*pipe.target)
                },
                Frame::PipeTarget { source } => {
                    &&& action is Continue
                    &&& self.left_scope(before)
                    &&& self.stack@ == before.below()
                    &&& self.control matches Control::Pending(all)
                    &&& all@ == source@ + cmds@
                },
                Frame::AndFirst(x) => {
                    &&& self.swapped(before, Frame::AndChoice(x))
                    &&& asked_to_run(self.control, action, cmds)
                },
                Frame::OrFirst(x) => {
                    &&& self.swapped(before, Frame::OrChoice(x))
                    &&& asked_to_run(self.control, action, cmds)
                },
                Frame::Substitution { writer } => {
                    &&& self.swapped(before, Frame::SubstitutionRun { writer })
                    &&& asked_to_run(self.control, action, cmds)
                },
                _ => self.gave_up(action, ExecError::UnexpectedEvent),
            }
        }
    }

    /// Hands the commands that an expression gave to the frame that waits
    /// for them.
    #[verifier::spinoff_prover]
    pub(crate) fn take_pending(&mut self, cmds: Vec<CommandSpec>) -> (action: Action)
        requires
            old(self).wf(),
        ensures
            final(self).follows(old(self)),
            final(self).settled(action),
            final(self).released(old(self), action),
            final(self).takes_pending(old(self), cmds, action),
    {
        let ghost before = *self;
        match self.pop() {
            None => self.fail(ExecError::UnexpectedEvent),
            Some(Frame::Program { items, next }) => {
                self.push(Frame::Program { items, next });
                assert(self.stack@ == before.stack@);
                self.run(cmds)
            },
            Some(Frame::Block { items, next, last }) => {
                if self.ctx.break_num > 0 || next >= items.len() {
                    self.control = Control::Pending(cmds);
                } else {
                    self.push(Frame::Block { items, next, last: Some(cmds) });
                    self.control = Control::Next;
                }
                Action::Continue
            },
            Some(Frame::IfCondition(x)) => {
                self.enter_scope(None);
                self.push(Frame::IfChoice(x));
                self.run(cmds)
            },
            Some(Frame::Scoped) => {
                self.leave_scope();
                self.control = Control::Pending(cmds);
                Action::Continue
            },
            Some(Frame::WhileCondition(x)) => {
                self.push(Frame::WhileChoice(x));
                self.run(cmds)
            },
            Some(Frame::WhileBody(x)) => {
                if self.leave_or_go_on() {
                    self.leave_scope();
                    self.control = Control::Pending(cmds);
                    Action::Continue
                } else {
                    self.push(Frame::WhileRun(x));
                    self.run(cmds)
                }
            },
            Some(Frame::ForBody(state)) => {
                let mut state = state;
                self.leave_scope();
                if self.leave_or_go_on() {
                    self.control = Control::Pending(cmds);
                } else {
                    state.last = Some(cmds);
                    if state.next < usize::MAX {
                        state.next = state.next + 1;
                    }
                    self.push(Frame::ForEach(state));
                    self.control = Control::Next;
                }
                Action::Continue
            },
            Some(Frame::PipeSource { pipe, reader }) => {
                self.leave_scope();
                self.enter_scope(Some((Stream::Stdin, reader)));
                self.push(Frame::PipeTarget { source: cmds });
                self.control = Control::Expression(&*pipe.target);
                assert(self.ctx.scopes@.last().replaces(Stream::Stdin) == Some(reader));
                assert(self.ctx.scopes@.last().replaces(Stream::Stdout) is None);
                assert(self.ctx.scopes@.last().replaces(Stream::Stderr) is None);
                Action::Continue
            },
            Some(Frame::PipeTarget { source }) => {
                let mut source = source;
                let mut target = cmds;
                self.leave_scope();
                source.append(&mut target);
                self.control = Control::Pending(source);
                Action::Continue
            },
            Some(Frame::AndFirst(x)) => {
                self.push(Frame::AndChoice(x));
                self.run(cmds)
            },
            Some(Frame::OrFirst(x)) => {
                self.push(Frame::OrChoice(x));
                self.run(cmds)
            },
            Some(Frame::Substitution { writer }) => {
                self.push(Frame::SubstitutionRun { writer });
                self.run(cmds)
            },
            Some(other) => {
                self.push(other);
                assert(self.stack@ =~= before.stack@);
                self.fail(ExecError::UnexpectedEvent)
            },
        }
    }

    /// A loop once its body is done: with loops still to leave it stops
    /// and counts itself off.
    pub(crate) fn leave_or_go_on(&mut self) -> (stop: bool)
        ensures
            (stop, final(self).ctx.break_num) == after_body(old(self).ctx.break_num),
            final(self).ctx.scopes == old(self).ctx.scopes,
            final(self).ctx.exports == old(self).ctx.exports,
            final(self).ctx.native_func == old(self).ctx.native_func,
            final(self).ctx.continue_num == old(self).ctx.continue_num,
            final(self).stack == old(self).stack,
            final(self).control == old(self).control,
            final(self).effects == old(self).effects,
            final(self).next_handle == old(self).next_handle,
            final(self).base == old(self).base,
    {
        if self.ctx.break_num > 0 {
            self.ctx.break_num = self.ctx.break_num - 1;
            true
        } else {
            false
        }
    }
}


impl<'a> Machine<'a> {
    /// The topmost frame of `before` has been replaced, and nothing else
    /// but the control has changed.
    pub open spec fn reframed(&self, before: &Machine<'a>) -> bool {
        &&& self.ctx == before.ctx
        &&& self.effects@ == before.effects@
        &&& self.next_handle == before.next_handle
        &&& self.stack@.len() > 0
        &&& self.below() == before.below()
    }

    /// The machine holds one command, made of the texts, whose streams are
    /// replaced by copies of the given handles, and what makes the copies
    /// comes after the effects `sofar`; or the program was given up for
    /// want of numbers to name the copies.
    pub open spec fn holds_command(
        &self,
        streams: (Option<usize>, Option<usize>, Option<usize>),
        sofar: Seq<Effect>,
        next: int,
        texts: Seq<Seq<char>>,
        action: Action,
    ) -> bool {
        let wires = wiring_of(streams.0, streams.1, streams.2, next);
        if wires.2 > usize::MAX {
            self.gave_up(action, ExecError::OutOfHandles)
        } else {
            &&& action is Continue
            &&& self.effects@ == sofar + wires.1
            &&& self.next_handle == wires.2
            &&& self.control matches Control::Pending(c)
            &&& c@.len() == 1
            &&& made_of(c@[0], texts)
            &&& (c@[0].stdin, c@[0].stdout, c@[0].stderr) == wires.0
        }
    }

    /// What handing the variable `var`, which a value gave, to the frame
    /// that waits for it makes of the machine.
    ///
    /// `let` takes the text of its key and then binds it to its value. A
    /// command takes the text of each word; after the last it is made:
    /// the first text is the program, the others are the arguments, and
    /// each stream that a scope replaces is replaced by a copy of what the
    /// innermost such scope puts there. `for` takes the texts of its names
    /// and then the elements to run over; over nothing it has its else
    /// branch evaluated. A file redirect takes the text as the name of the
    /// file and has what it wraps evaluated in a scope that replaces a
    /// stream by the file; `<` that wraps nothing wraps the command `less`.
    /// `break` takes the text as its count. A list takes the variable as
    /// its next item and gives the array of all once it has the last; a
    /// call does so with its arguments and is made once it has the last.
    pub open spec fn takes_value(&self, before: &Machine<'a>, var: Variable, action: Action) -> bool {
        let text = spec_to_string(var@);
        if before.stack@.len() == 0 {
            self.gave_up(action, ExecError::UnexpectedEvent)
        } else {
            match before.top() {
                Frame::LetKey(x) => {
                    &&& action is Continue
                    &&& self.reframed(before)
                    &&& self.top() matches Frame::LetValue { assignment, key }
                    &&& assignment == x && key@ == text
                    &&& self.control == Control::Value(&*x.value)
                },
                Frame::LetValue { assignment, key } => {
                    &&& action is Continue
                    &&& bound(before.ctx, self.ctx, key@, var@)
                    &&& self.stack@ == before.below()
                    &&& self.effects@ == before.effects@
                    &&& self.next_handle == before.next_handle
                    &&& gives_nothing(self.control)
                },
                Frame::Words { words, next, texts } => {
                    let all = views(texts@).push(text);
                    if next + 1 < words.len() {
                        match &words[next + 1] {
                            CommandValue::Value(v) => {
                                &&& action is Continue
                                &&& self.reframed(before)
                                &&& self.top() matches Frame::Words { words: w, next: n, texts: t }
                                &&& w == words && n == next + 1 && views(t@) == all
                                &&& self.control == Control::Value(v)
                            },
                            CommandValue::Var(_, _) => self.gave_up(
                                action,
                                ExecError::BrokenCommand,
                            ),
                        }
                    } else {
                        &&& self.holds_command(
(
                                before.ctx.effective(Stream::Stdin),
                                before.ctx.effective(Stream::Stdout),
                                before.ctx.effective(Stream::Stderr),
                            ),
                            before.effects@,
                            before.next_handle as int,
                            all,
                            action,
                        )
                        &&& action is Continue ==> self.ctx == before.ctx && self.stack@
                            == before.below()
                    }
                },
                Frame::ForName(each) => {
                    &&& action is Continue
                    &&& self.reframed(before)
                    &&& match &each.arg_key {
                        Some(k) => {
                            &&& self.top() matches Frame::ForKey { each: e, name }
                            &&& e == each && name@ == text
                            &&& self.control == Control::Value(k)
                        },
                        None => {
                            &&& self.top() matches Frame::ForList { each: e, name, key }
                            &&& e == each && name@ == text && key is None
                            &&& self.control == Control::Value(&each.list)
                        },
                    }
                },
                Frame::ForKey { each, name } => {
                    &&& action is Continue
                    &&& self.reframed(before)
                    &&& self.top() matches Frame::ForList { each: e, name: n, key }
                    &&& e == each && n == name
                    &&& key matches Some(k)
                    &&& k@ == text
                    &&& self.control == Control::Value(&each.list)
                },
                Frame::ForList { each, name, key } => match spec_loop_items(var@) {
                    None => self.gave_up(action, ExecError::InvalidFor),
                    Some(items) => {
                        &&& action is Continue
                        &&& if items.len() == 0 {
                            self.dropped(before) && self.control == Control::Block(
                                &each.else_contents,
                            )
                        } else {
                            &&& self.reframed(before)
                            &&& self.top() matches Frame::ForEach(state)
                            &&& state.each == each && state.name == name && state.key == key
                            &&& variables_view(state.items@) == items
                            &&& state.next == 0 && state.last is None
                            &&& self.control == Control::<'a>::Next
                        }
                    },
                },
                Frame::FileTargetName(x) => match &x.source {
                    None => self.gave_up(action, ExecError::MissingRedirectSource),
                    Some(source) => if before.next_handle == usize::MAX {
                        self.gave_up(action, ExecError::OutOfHandles)
                    } else {
                        &&& action is Continue
                        &&& opened_scope(
                            before.ctx,
                            self.ctx,
                            Some((Stream::Stdout, before.next_handle)),
                        )
                        &&& self.stack@ == before.below().push(Frame::Scoped)
                        &&& self.effects@.len() == before.effects@.len() + 1
                        &&& self.effects@.drop_last() == before.effects@
                        &&& self.effects@.last() matches Effect::Create { path, handle }
                        &&& path@ == text && handle == before.next_handle
                        &&& self.next_handle == before.next_handle + 1
                        &&& self.control == Control::Expression(&**source)
                    },
                },
                Frame::FileSourceName(x) => if before.next_handle == usize::MAX {
                    self.gave_up(action, ExecError::OutOfHandles)
                } else {
                    let handle = before.next_handle;
                    match &x.target {
                        Some(target) => {
                            &&& action is Continue
                            &&& opened_scope(
                                before.ctx,
                                self.ctx,
                                Some((Stream::Stdin, handle)),
                            )
                            &&& self.stack@ == before.below().push(Frame::Scoped)
                            &&& self.effects@.len() == before.effects@.len() + 1
                            &&& self.effects@.drop_last() == before.effects@
                            &&& is_open(self.effects@.last(), text, handle)
                            &&& self.next_handle == before.next_handle + 1
                            &&& self.control == Control::Expression(&**target)
                        },
                        None => {
                            &&& exists|open: Effect|
                                is_open(open, text, handle) && #[trigger] self.holds_command(
(
                                        Some(handle),
                                        before.ctx.effective(Stream::Stdout),
                                        before.ctx.effective(Stream::Stderr),
                                    ),
                                    before.effects@.push(open),
                                    handle + 1,
                                    seq!["less"@],
                                    action,
                                )
                            &&& action is Continue ==> opened_scope(
                                before.ctx,
                                self.ctx,
                                Some((Stream::Stdin, handle)),
                            ) && self.stack@ == before.below().push(Frame::Scoped)
                        },
                    }
                },
                Frame::BreakCount => match spec_break_count(text) {
                    None => self.gave_up(action, ExecError::InvalidBreakCount),
                    Some(n) => {
                        &&& action is Continue
                        &&& self.ctx.break_num == n
                        &&& self.ctx.scopes == before.ctx.scopes
                        &&& self.ctx.exports == before.ctx.exports
                        &&& self.ctx.native_func == before.ctx.native_func
                        &&& self.ctx.continue_num == before.ctx.continue_num
                        &&& self.stack@ == before.below()
                        &&& self.effects@ == before.effects@
                        &&& self.next_handle == before.next_handle
                        &&& gives_nothing(self.control)
                    },
                },
                Frame::List { items, next, done } => {
                    let all = variables_view(done@).push(var@);
                    &&& action is Continue
                    &&& if next + 1 < items.len() {
                        &&& self.reframed(before)
                        &&& self.top() matches Frame::List { items: i, next: n, done: d }
                        &&& i == items && n == next + 1 && variables_view(d@) == all
                        &&& self.control == Control::Value(&items[next + 1])
                    } else {
                        &&& self.dropped(before)
                        &&& self.control matches Control::Given(g)
                        &&& g@ == SpecVariable::Array(all)
                    }
                },
                Frame::Arguments { call, next, done } => {
                    let all = variables_view(done@).push(var@);
                    if next + 1 < call.args.len() {
                        &&& action is Continue
                        &&& self.reframed(before)
                        &&& self.top() matches Frame::Arguments { call: c, next: n, done: d }
                        &&& c == call && n == next + 1 && variables_view(d@) == all
                        &&& self.control == Control::Value(&call.args[next + 1])
                    } else {
                        self.invoked(before, before.below(), call.name@, all, action)
                    }
                },
                Frame::SubstitutionCollect => {
                    &&& action is Continue
                    &&& self.dropped(before)
                    &&& self.control == Control::Given(var)
                },
                _ => self.gave_up(action, ExecError::UnexpectedEvent),
            }
        }
    }
}

/// Whether the effect opens the file named `text` as `handle`.
pub open spec fn is_open(effect: Effect, text: Seq<char>, handle: usize) -> bool {
    &&& effect matches Effect::Open { path, handle: h }
    &&& path@ == text && h == handle
}


impl<'a> Machine<'a> {
    /// The command made of the texts of its words.
    pub(crate) fn command_of(&mut self, texts: Vec<String>) -> (res: Option<CommandSpec>)
        requires
            texts@.len() > 0,
        ensures
            final(self).ctx == old(self).ctx,
            final(self).stack == old(self).stack,
            final(self).control == old(self).control,
            final(self).base == old(self).base,
            old(self).effects@.is_prefix_of(final(self).effects@),
            res is Some <==> wiring(old(self).ctx, old(self).next_handle as int).2 <= usize::MAX,
            res matches Some(spec) ==> {
                &&& made_of(spec, views(texts@))
                &&& (spec.stdin, spec.stdout, spec.stderr) == wiring(
                    old(self).ctx,
                    old(self).next_handle as int,
                ).0
                &&& final(self).effects@ == old(self).effects@ + wiring(
                    old(self).ctx,
                    old(self).next_handle as int,
                ).1
                &&& final(self).next_handle == wiring(old(self).ctx, old(self).next_handle as int).2
            },
    {
        let mut texts = texts;
        let ghost all = texts@;
        let program = texts.remove(0);
        assert(texts@ =~= all.subrange(1, all.len() as int));
        self.command_spec(program, texts)
    }

    /// Hands the variable that a value gave to the frame that waits for
    /// it.
    #[verifier::spinoff_prover]
    #[verifier::rlimit(50)]
    pub(crate) fn take_value(&mut self, var: Variable) -> (action: Action)
        requires
            old(self).wf(),
        ensures
            final(self).follows(old(self)),
            final(self).settled(action),
            final(self).released(old(self), action),
            final(self).takes_value(old(self), var, action),
    {
        let ghost before = *self;
        let action = match self.pop() {
            None => self.fail(ExecError::UnexpectedEvent),
            Some(Frame::LetKey(x)) => {
                self.push(Frame::LetValue { assignment: x, key: var.to_string() });
                self.control = Control::Value(&*x.value);
                assert(self.stack@.drop_last() == before.below());
                Action::Continue
            },
            Some(Frame::LetValue { assignment, key }) => {
                self.ctx.set_var(key, var);
                self.control = Control::Pending(nothing());
                Action::Continue
            },
            Some(Frame::Words { words, next, texts }) => self.take_word(words, next, texts, var),
            Some(Frame::ForName(each)) => {
                match &each.arg_key {
                    Some(k) => {
                        self.push(Frame::ForKey { each, name: var.to_string() });
                        self.control = Control::Value(k);
                    },
                    None => {
                        self.push(Frame::ForList { each, name: var.to_string(), key: None });
                        self.control = Control::Value(&each.list);
                    },
                }
                assert(self.stack@.drop_last() == before.below());
                Action::Continue
            },
            Some(Frame::ForKey { each, name }) => {
                self.push(Frame::ForList { each, name, key: Some(var.to_string()) });
                self.control = Control::Value(&each.list);
                assert(self.stack@.drop_last() == before.below());
                Action::Continue
            },
            Some(Frame::ForList { each, name, key }) => {
                match loop_items(var) {
                    None => self.fail(ExecError::InvalidFor),
                    Some(items) => {
                        if items.len() == 0 {
                            self.control = Control::Block(&each.else_contents);
                        } else {
                            self.push(
                                Frame::ForEach(
                                    ForState { each, name, key, items, next: 0, last: None },
                                ),
                            );
                            self.control = Control::Next;
                            assert(self.stack@.drop_last() == before.below());
                        }
                        Action::Continue
                    },
                }
            },
            Some(Frame::FileTargetName(x)) => {
                match &x.source {
                    None => self.fail(ExecError::MissingRedirectSource),
                    Some(source) => {
                        let handle = match self.fresh() {
                            None => {
                                let action = self.fail(ExecError::OutOfHandles);
                                proof {
                                    lemma_released_below(
                                        before.stack@,
                                        before.ctx.scopes@,
                                        before.base as int,
                                        self.effects@,
                                    );
                                }
                                return action;
                            },
                            Some(h) => h,
                        };
                        self.effects.push(Effect::Create { path: var.to_string(), handle });
                        self.enter_scope(Some((Stream::Stdout, handle)));
                        self.push(Frame::Scoped);
                        self.control = Control::Expression(&**source);
                        assert(self.effects@.drop_last() == before.effects@);
                        Action::Continue
                    },
                }
            },
            Some(Frame::FileSourceName(x)) => self.take_source(x, var),
            Some(Frame::BreakCount) => {
                match break_count(var.to_string().as_str()) {
                    None => self.fail(ExecError::InvalidBreakCount),
                    Some(n) => {
                        self.ctx.break_num = n;
                        self.control = Control::Pending(nothing());
                        Action::Continue
                    },
                }
            },
            Some(Frame::List { items, next, done }) => {
                let mut done = done;
                let ghost earlier = done@;
                done.push(var);
                assert(variables_view(done@) =~= variables_view(earlier).push(var@));
                if next < items.len() && next + 1 < items.len() {
                    self.push(Frame::List { items, next: next + 1, done });
                    self.control = Control::Value(&items[next + 1]);
                    assert(self.stack@.drop_last() == before.below());
                } else {
                    self.control = Control::Given(Variable::array(done));
                }
                Action::Continue
            },
            Some(Frame::Arguments { call, next, done }) => {
                let mut done = done;
                let ghost earlier = done@;
                done.push(var);
                assert(variables_view(done@) =~= variables_view(earlier).push(var@));
                if next < call.args.len() && next + 1 < call.args.len() {
                    self.push(Frame::Arguments { call, next: next + 1, done });
                    self.control = Control::Value(&call.args[next + 1]);
                    assert(self.stack@.drop_last() == before.below());
                    Action::Continue
                } else {
                    self.invoke(call.name.as_str(), done)
                }
            },
            Some(Frame::SubstitutionCollect) => {
                self.control = Control::Given(var);
                Action::Continue
            },
            Some(other) => {
                self.push(other);
                assert(self.stack@ =~= before.stack@);
                self.fail(ExecError::UnexpectedEvent)
            },
        };
        proof {
            if action is Failed && before.stack@.len() > 0 && letting_go(before.top()).len() == 0
                && releases(
                before.below(),
                before.ctx.scopes@,
                before.base as int,
                self.effects@,
            ) {
                lemma_released_below(
                    before.stack@,
                    before.ctx.scopes@,
                    before.base as int,
                    self.effects@,
                );
            }
        }
        action
    }

    /// Takes the text of a word of a command; after the last word the
    /// command is made.
    #[verifier::spinoff_prover]
    fn take_word(
        &mut self,
        words: &'a Vec<CommandValue>,
        next: usize,
        texts: Vec<String>,
        var: Variable,
    ) -> (action: Action)
        requires
            old(self).ctx.wf(),
            old(self).base >= 1,
            old(self).ctx.scopes.len() == old(self).base + held(old(self).stack@),
        ensures
            final(self).follows(old(self)),
            final(self).settled(action),
            final(self).released(old(self), action),
            ({
                let all = views(texts@).push(spec_to_string(var@));
                if next + 1 < words.len() {
                    match &words[next + 1] {
                        CommandValue::Value(v) => {
                            &&& action is Continue
                            &&& final(self).ctx == old(self).ctx
                            &&& final(self).effects@ == old(self).effects@
                            &&& final(self).next_handle == old(self).next_handle
                            &&& final(self).stack@.len() > 0
                            &&& final(self).below() == old(self).stack@
                            &&& final(self).top() matches Frame::Words { words: w, next: n, texts: t }
                            &&& w == words && n == next + 1 && views(t@) == all
                            &&& final(self).control == Control::Value(v)
                        },
                        CommandValue::Var(_, _) => final(self).gave_up(
                            action,
                            ExecError::BrokenCommand,
                        ),
                    }
                } else {
                    &&& final(self).holds_command(
(
                            old(self).ctx.effective(Stream::Stdin),
                            old(self).ctx.effective(Stream::Stdout),
                            old(self).ctx.effective(Stream::Stderr),
                        ),
                        old(self).effects@,
                        old(self).next_handle as int,
                        all,
                        action,
                    )
                    &&& action is Continue ==> final(self).ctx == old(self).ctx && final(self).stack@ == old(self).stack@
                }
            }),
    {
        let mut texts = texts;
        let ghost earlier = texts@;
        texts.push(var.to_string());
        assert(views(texts@) =~= views(earlier).push(spec_to_string(var@)));
        if next < words.len() && next + 1 < words.len() {
            match &words[next + 1] {
                CommandValue::Value(v) => {
                    self.push(Frame::Words { words, next: next + 1, texts });
                    self.control = Control::Value(v);
                    assert(self.stack@.drop_last() == old(self).stack@);
                    Action::Continue
                },
                CommandValue::Var(_, _) => self.fail(ExecError::BrokenCommand),
            }
        } else {
            match self.command_of(texts) {
                None => self.fail(ExecError::OutOfHandles),
                Some(spec) => {
                    let mut cmds = nothing();
                    cmds.push(spec);
                    self.control = Control::Pending(cmds);
                    Action::Continue
                },
            }
        }
    }

    /// Takes the name of the file that `<` reads.
    #[verifier::spinoff_prover]
    fn take_source(&mut self, x: &'a crate::ast::FileSourceExpression, var: Variable) -> (action:
        Action)
        requires
            old(self).ctx.wf(),
            old(self).base >= 1,
            old(self).ctx.scopes.len() == old(self).base + held(old(self).stack@),
        ensures
            final(self).follows(old(self)),
            final(self).settled(action),
            final(self).released(old(self), action),
            ({
                let text = spec_to_string(var@);
                if old(self).next_handle == usize::MAX {
                    final(self).gave_up(action, ExecError::OutOfHandles)
                } else {
                    let handle = old(self).next_handle;
                    match &x.target {
                        Some(target) => {
                            &&& action is Continue
                            &&& opened_scope(
                                old(self).ctx,
                                final(self).ctx,
                                Some((Stream::Stdin, handle)),
                            )
                            &&& final(self).stack@ == old(self).stack@.push(Frame::Scoped)
                            &&& final(self).effects@.len() == old(self).effects@.len() + 1
                            &&& final(self).effects@.drop_last() == old(self).effects@
                            &&& is_open(final(self).effects@.last(), text, handle)
                            &&& final(self).next_handle == old(self).next_handle + 1
                            &&& final(self).control == Control::Expression(&**target)
                        },
                        None => {
                            &&& exists|open: Effect|
                                is_open(open, text, handle) && #[trigger] final(self).holds_command(
(
                                        Some(handle),
                                        old(self).ctx.effective(Stream::Stdout),
                                        old(self).ctx.effective(Stream::Stderr),
                                    ),
                                    old(self).effects@.push(open),
                                    handle + 1,
                                    seq!["less"@],
                                    action,
                                )
                            &&& action is Continue ==> opened_scope(
                                old(self).ctx,
                                final(self).ctx,
                                Some((Stream::Stdin, handle)),
                            ) && final(self).stack@ == old(self).stack@.push(Frame::Scoped)
                        },
                    }
                }
            }),
    {
        let handle = match self.fresh() {
            None => {
                return self.fail(ExecError::OutOfHandles);
            },
            Some(h) => h,
        };
        let open = Effect::Open { path: var.to_string(), handle };
        let ghost opening = open;
        self.effects.push(open);
        self.enter_scope(Some((Stream::Stdin, handle)));
        self.push(Frame::Scoped);
        assert(self.effects@.drop_last() == old(self).effects@);
        match &x.target {
            Some(target) => {
                self.control = Control::Expression(&**target);
                Action::Continue
            },
            None => {
                proof {
                    lemma_effective_in_scope(
                        old(self).ctx,
                        self.ctx,
                        Some((Stream::Stdin, handle)),
                        Stream::Stdin,
                    );
                    lemma_effective_in_scope(
                        old(self).ctx,
                        self.ctx,
                        Some((Stream::Stdin, handle)),
                        Stream::Stdout,
                    );
                    lemma_effective_in_scope(
                        old(self).ctx,
                        self.ctx,
                        Some((Stream::Stdin, handle)),
                        Stream::Stderr,
                    );
                }
                let mut texts: Vec<String> = Vec::new();
                texts.push(String::from_str("less"));
                assert(views(texts@) =~= seq!["less"@]);
                let ghost entered = *self;
                let action = match self.command_of(texts) {
                    None => self.fail(ExecError::OutOfHandles),
                    Some(spec) => {
                        let mut cmds = nothing();
                        cmds.push(spec);
                        self.control = Control::Pending(cmds);
                        Action::Continue
                    },
                };
                proof {
                    if action is Failed {
                        assert forall|i: int| 0 <= i < old(self).ctx.scopes@.len() implies entered.ctx.scopes@[i]
                            == old(self).ctx.scopes@[i] by {
                            assert(entered.ctx.scopes@[i] == entered.ctx.scopes@.drop_last()[i]);
                        }
                        lemma_released_within(
                            old(self).stack@,
                            old(self).ctx.scopes@,
                            entered.stack@,
                            entered.ctx.scopes@,
                            old(self).base as int,
                            self.effects@,
                        );
                    }
                }
                assert(is_open(opening, spec_to_string(var@), handle));
                assert(self.holds_command(
(
                        Some(handle),
                        old(self).ctx.effective(Stream::Stdout),
                        old(self).ctx.effective(Stream::Stderr),
                    ),
                    old(self).effects@.push(opening),
                    handle + 1,
                    seq!["less"@],
                    action,
                ));
                action
            },
        }
    }
}

impl<'a> Machine<'a> {
    /// What going on after commands have exited with `code` makes of the
    /// machine.
    ///
    /// The program goes on with its next statement, unless loops were to
    /// be left, which is an error there. `if` has its body evaluated where
    /// the condition succeeded and its else branch where it did not.
    /// `while` has its body evaluated where the condition succeeded; where
    /// it did not the loop is over, leaves its scope and gives nothing.
    /// `first && second` has `second` evaluated where `first` succeeded
    /// and gives nothing where it did not; `first || second` gives nothing
    /// where `first` succeeded and has `second` evaluated where it did not.
    /// A substitution leaves its scope, which closes the capture, and asks
    /// for what was captured.
    pub open spec fn resumes(&self, before: &Machine<'a>, code: Option<i32>, action: Action) -> bool {
        if before.stack@.len() == 0 {
            self.gave_up(action, ExecError::UnexpectedEvent)
        } else {
            match before.top() {
                Frame::Program { items, next } => if before.ctx.break_num > 0 {
                    self.gave_up(action, ExecError::TooManyBreaks)
                } else {
                    action is Continue && self.turned(before) && self.control == Control::<
                        'a,
                    >::Next
                },
                Frame::Block { items, next, last } => action is Continue && self.turned(before)
                    && self.control == Control::<'a>::Next,
                Frame::IfChoice(x) => {
                    &&& action is Continue
                    &&& self.swapped(before, Frame::Scoped)
                    &&& self.control == if is_success(code) {
                        Control::Block(&x.contents)
                    } else {
                        Control::Block(&x.else_contents)
                    }
                },
                Frame::WhileChoice(x) => {
                    &&& action is Continue
                    &&& if is_success(code) {
                        self.swapped(before, Frame::WhileBody(x)) && self.control
                            == Control::Block(&x.contents)
                    } else {
                        &&& self.left_scope(before)
                        &&& self.stack@ == before.below()
                        &&& gives_nothing(self.control)
                    }
                },
                Frame::WhileRun(x) => {
                    &&& action is Continue
                    &&& self.swapped(before, Frame::WhileCondition(x))
                    &&& self.control == Control::Expression(&*x.condition)
                },
                Frame::ForRun(state) => {
                    &&& action is Continue
                    &&& self.swapped(before, Frame::ForBody(state))
                    &&& self.control == Control::Block(&state.each.contents)
                },
                Frame::AndChoice(x) => {
                    &&& action is Continue
                    &&& self.dropped(before)
                    &&& if is_success(code) {
                        self.control == Control::Expression(&*x.second)
                    } else {
                        gives_nothing(self.control)
                    }
                },
                Frame::OrChoice(x) => {
                    &&& action is Continue
                    &&& self.dropped(before)
                    &&& if is_success(code) {
                        gives_nothing(self.control)
                    } else {
                        self.control == Control::Expression(&*x.second)
                    }
                },
                Frame::SubstitutionRun { writer } => {
                    &&& action == Action::Collect(writer)
                    &&& self.left_scope(before)
                    &&& self.stack@ == before.below().push(Frame::SubstitutionCollect)
                    &&& self.control is Waiting
                },
                _ => self.gave_up(action, ExecError::UnexpectedEvent),
            }
        }
    }

    /// Goes on once commands have exited.
    #[verifier::spinoff_prover]
    pub(crate) fn resume_exited(&mut self, code: Option<i32>) -> (action: Action)
        requires
            old(self).wf(),
        ensures
            final(self).follows(old(self)),
            final(self).settled(action),
            final(self).released(old(self), action),
            final(self).resumes(old(self), code, action),
    {
        let ghost before = *self;
        match self.pop() {
            None => self.fail(ExecError::UnexpectedEvent),
            Some(Frame::Program { items, next }) => {
                self.push(Frame::Program { items, next });
                assert(self.stack@ == before.stack@);
                if self.ctx.break_num > 0 {
                    self.fail(ExecError::TooManyBreaks)
                } else {
                    self.control = Control::Next;
                    Action::Continue
                }
            },
            Some(Frame::Block { items, next, last }) => {
                self.push(Frame::Block { items, next, last });
                assert(self.stack@ == before.stack@);
                self.control = Control::Next;
                Action::Continue
            },
            Some(Frame::IfChoice(x)) => {
                self.push(Frame::Scoped);
                if succeeded(code) {
                    self.control = Control::Block(&x.contents);
                } else {
                    self.control = Control::Block(&x.else_contents);
                }
                Action::Continue
            },
            Some(Frame::WhileChoice(x)) => {
                if succeeded(code) {
                    self.push(Frame::WhileBody(x));
                    self.control = Control::Block(&x.contents);
                } else {
                    self.leave_scope();
                    self.control = Control::Pending(nothing());
                }
                Action::Continue
            },
            Some(Frame::WhileRun(x)) => {
                self.push(Frame::WhileCondition(x));
                self.control = Control::Expression(&*x.condition);
                Action::Continue
            },
            Some(Frame::ForRun(state)) => {
                self.control = Control::Block(&state.each.contents);
                self.push(Frame::ForBody(state));
                Action::Continue
            },
            Some(Frame::AndChoice(x)) => {
                if succeeded(code) {
                    self.control = Control::Expression(&*x.second);
                } else {
                    self.control = Control::Pending(nothing());
                }
                Action::Continue
            },
            Some(Frame::OrChoice(x)) => {
                if succeeded(code) {
                    self.control = Control::Pending(nothing());
                } else {
                    self.control = Control::Expression(&*x.second);
                }
                Action::Continue
            },
            Some(Frame::SubstitutionRun { writer }) => {
                self.leave_scope();
                self.push(Frame::SubstitutionCollect);
                self.control = Control::Waiting;
                Action::Collect(writer)
            },
            Some(other) => {
                self.push(other);
                assert(self.stack@ =~= before.stack@);
                self.fail(ExecError::UnexpectedEvent)
            },
        }
    }

    /// What beginning a round of a `for` loop makes of the machine, once
    /// the frame of the loop is off the stack. After the last round the
    /// loop is over and gives what its last body gave. Otherwise a scope is
    /// entered that binds the index, if it has a name, and then the
    /// element; what the round before gave is run first, and then the body
    /// is evaluated.
    pub open spec fn begins_round(
        &self,
        before: &Machine<'a>,
        state: ForState<'a>,
        action: Action,
    ) -> bool {
        if state.next >= state.items.len() {
            &&& action is Continue
            &&& self.ctx == before.ctx
            &&& self.stack@ == before.stack@
            &&& self.effects@ == before.effects@
            &&& self.next_handle == before.next_handle
            &&& match state.last {
                Some(cmds) => self.control == Control::Pending(cmds),
                None => gives_nothing(self.control),
            }
        } else {
            &&& self.ctx.scopes@.len() == before.ctx.scopes@.len() + 1
            &&& self.ctx.scopes@.drop_last() == before.ctx.scopes@
            &&& forall|s: Stream| self.ctx.scopes@.last().replaces(s) is None
            &&& lookup(self.ctx.scopes@.last().vars@, state.name@) matches Some(element)
            &&& element@ == state.items[state.next as int]@
            &&& state.key is Some && state.key->0@ != state.name@ ==> crate::exec::bound_index(
                self.ctx.scopes@.last().vars@,
                state.key->0@,
                state.next,
            )
            &&& forall|k: Seq<char>|
                k != state.name@ && !(state.key is Some && state.key->0@ == k) ==> lookup(
                    self.ctx.scopes@.last().vars@,
                    k,
                ) is None
            &&& self.ctx.native_func == before.ctx.native_func
            &&& self.ctx.break_num == before.ctx.break_num
            &&& self.ctx.continue_num == before.ctx.continue_num
            &&& self.effects@ == before.effects@
            &&& self.next_handle == before.next_handle
            &&& match state.last {
                Some(cmds) => {
                    &&& self.stack@ == before.stack@.push(
                        Frame::ForRun(ForState { last: None, ..state }),
                    )
                    &&& asked_to_run(self.control, action, cmds)
                },
                None => {
                    &&& action is Continue
                    &&& self.stack@ == before.stack@.push(Frame::ForBody(state))
                    &&& self.control == Control::Block(&state.each.contents)
                },
            }
        }
    }

    /// Begins a round of a `for` loop.
    #[verifier::spinoff_prover]
    pub(crate) fn begin_round(&mut self, state: ForState<'a>) -> (action: Action)
        requires
            old(self).wf(),
        ensures
            final(self).follows(old(self)),
            final(self).settled(action),
            final(self).released(old(self), action),
            final(self).begins_round(old(self), state, action),
    {
        let mut state = state;
        let ghost given = state;
        if state.next >= state.items.len() {
            let last = match state.last.take() {
                Some(cmds) => cmds,
                None => nothing(),
            };
            self.control = Control::Pending(last);
            return Action::Continue;
        }
        self.enter_scope(None);
        let ghost opened = self.ctx;
        assert(forall|k: Seq<char>| lookup(opened.scopes@.last().vars@, k) is None);
        match &state.key {
            Some(k) => {
                self.ctx.set_var(k.clone(), Variable::U64(state.next as u64));
            },
            None => {},
        }
        let ghost keyed = self.ctx;
        self.ctx.set_var(state.name.clone(), state.items[state.next].duplicate());
        assert(self.ctx.scopes@.drop_last() == old(self).ctx.scopes@) by {
            assert(keyed.scopes@.drop_last() == opened.scopes@.drop_last());
            assert(self.ctx.scopes@.drop_last() == keyed.scopes@.drop_last());
        }
        match state.last.take() {
            Some(cmds) => {
                assert(state == ForState { last: None, ..given });
                self.push(Frame::ForRun(state));
                self.run(cmds)
            },
            None => {
                assert(state == given);
                self.control = Control::Block(&state.each.contents);
                self.push(Frame::ForBody(state));
                Action::Continue
            },
        }
    }

    /// What going on with the topmost frame makes of the machine.
    ///
    /// The program and a block begin their next statement; a block first
    /// has run what the statement before gave. The program is over after
    /// its last statement; a block then gives nothing, since what its last
    /// statement gave was handed on. A `for` loop begins its next round.
    pub open spec fn advances(&self, before: &Machine<'a>, action: Action) -> bool {
        if before.stack@.len() == 0 {
            self.gave_up(action, ExecError::UnexpectedEvent)
        } else {
            match before.top() {
                Frame::Program { items, next } => if next >= items.len() {
                    if before.stack@.len() > 1 {
                        self.gave_up(action, ExecError::UnexpectedEvent)
                    } else {
                        &&& action is Done
                        &&& self.is_over()
                        &&& self.ctx.scopes == before.ctx.scopes
                        &&& self.ctx.exports == before.ctx.exports
                        &&& self.ctx.native_func == before.ctx.native_func
                        &&& self.effects@ == before.effects@
                    }
                } else {
                    &&& action is Continue
                    &&& self.swapped(before, Frame::Program { items, next: (next + 1) as usize })
                    &&& self.control == Control::Expression(&items[next as int])
                },
                Frame::Block { items, next, last } => match last {
                    Some(cmds) => {
                        &&& self.swapped(before, Frame::Block { items, next, last: None })
                        &&& asked_to_run(self.control, action, cmds)
                    },
                    None => {
                        &&& action is Continue
                        &&& if next >= items.len() {
                            self.dropped(before) && gives_nothing(self.control)
                        } else {
                            &&& self.swapped(
                                before,
                                Frame::Block { items, next: (next + 1) as usize, last: None },
                            )
                            &&& self.control == Control::Expression(&items[next as int])
                        }
                    },
                },
                Frame::ForEach(state) => exists|mid: Machine<'a>|
                    mid.ctx == before.ctx && mid.stack@ == before.below() && mid.effects@
                        == before.effects@ && mid.next_handle == before.next_handle
                        && #[trigger] self.begins_round(&mid, state, action),
                _ => self.gave_up(action, ExecError::UnexpectedEvent),
            }
        }
    }

    /// Goes on with the topmost frame.
    #[verifier::spinoff_prover]
    pub(crate) fn advance(&mut self) -> (action: Action)
        requires
            old(self).wf(),
        ensures
            final(self).follows(old(self)),
            final(self).settled(action),
            final(self).released(old(self), action),
            final(self).advances(old(self), action),
    {
        let ghost before = *self;
        match self.pop() {
            None => self.fail(ExecError::UnexpectedEvent),
            Some(Frame::Program { items, next }) => {
                if next >= items.len() {
                    if self.stack.len() > 0 {
                        let action = self.fail(ExecError::UnexpectedEvent);
                        proof {
                            lemma_released_below(
                                before.stack@,
                                before.ctx.scopes@,
                                before.base as int,
                                self.effects@,
                            );
                        }
                        return action;
                    }
                    self.ctx.break_num = 0;
                    self.control = Control::Stopped;
                    assert(held(self.stack@) == 0);
                    Action::Done
                } else {
                    self.push(Frame::Program { items, next: next + 1 });
                    self.control = Control::Expression(&items[next]);
                    Action::Continue
                }
            },
            Some(Frame::Block { items, next, last }) => {
                match last {
                    Some(cmds) => {
                        self.push(Frame::Block { items, next, last: None });
                        self.run(cmds)
                    },
                    None => {
                        if next >= items.len() {
                            self.control = Control::Pending(nothing());
                        } else {
                            self.push(Frame::Block { items, next: next + 1, last: None });
                            self.control = Control::Expression(&items[next]);
                        }
                        Action::Continue
                    },
                }
            },
            Some(Frame::ForEach(state)) => {
                let ghost mid = *self;
                let ghost given = state;
                let action = self.begin_round(state);
                assert(self.begins_round(&mid, given, action));
                action
            },
            Some(other) => {
                self.push(other);
                assert(self.stack@ =~= before.stack@);
                self.fail(ExecError::UnexpectedEvent)
            },
        }
    }

    /// What taking the event that the caller reports makes of the machine.
    /// An exit code is bound to the variable `?` in the innermost scope,
    /// where there is one; what a substitution printed becomes its value.
    pub open spec fn receives(&self, before: &Machine<'a>, event: Event, action: Action) -> bool {
        match event {
            Event::Exited(code) => {
                &&& action is Continue
                &&& self.stack@ == before.stack@
                &&& self.effects@ == before.effects@
                &&& self.next_handle == before.next_handle
                &&& self.control == Control::<'a>::Exited(code)
                &&& match code {
                    Some(c) => bound(before.ctx, self.ctx, seq!['?'], SpecVariable::I32(c)),
                    None => self.ctx == before.ctx,
                }
            },
            Event::Captured(text) => {
                &&& action is Continue
                &&& self.turned(before)
                &&& self.control == Control::Given(Variable::String(text))
            },
            Event::Failed(message) => self.gave_up(action, ExecError::Host(message)),
            Event::Resume => self.gave_up(action, ExecError::UnexpectedEvent),
        }
    }

    /// Takes what the caller reports.
    pub(crate) fn receive(&mut self, event: Event) -> (action: Action)
        requires
            old(self).wf(),
        ensures
            final(self).follows(old(self)),
            final(self).settled(action),
            final(self).released(old(self), action),
            final(self).receives(old(self), event, action),
    {
        match event {
            Event::Exited(code) => {
                match code {
                    Some(c) => {
                        let mut name = String::new();
                        push_char(&mut name, '?');
                        assert(name@ =~= seq!['?']);
                        assert(!has_env_prefix(name@));
                        self.ctx.set_var(name, Variable::I32(c));
                    },
                    None => {},
                }
                self.control = Control::Exited(code);
                Action::Continue
            },
            Event::Captured(text) => {
                self.control = Control::Given(Variable::String(text));
                Action::Continue
            },
            Event::Failed(message) => self.fail(ExecError::Host(message)),
            Event::Resume => self.fail(ExecError::UnexpectedEvent),
        }
    }

    /// The machine with nothing to do next: what a move finds once it has
    /// taken the control off it.
    pub open spec fn at_rest(&self) -> Machine<'a> {
        Machine {
            ctx: self.ctx,
            stack: self.stack,
            control: Control::Stopped,
            effects: self.effects,
            next_handle: self.next_handle,
            base: self.base,
        }
    }

    /// The machine with `effects` still to be handed to the caller.
    pub open spec fn with_effects(&self, effects: Vec<Effect>) -> Machine<'a> {
        Machine {
            ctx: self.ctx,
            stack: self.stack,
            control: self.control,
            effects,
            next_handle: self.next_handle,
            base: self.base,
        }
    }

    /// What a move makes of the machine `before`, which was about to do
    /// `control`, when the caller reports `event`. A failure that the
    /// caller reports ends the program whatever was going on. An event is
    /// taken where the machine waited for one; everything else happens
    /// when the caller reports nothing.
    pub open spec fn moved(
        &self,
        before: &Machine<'a>,
        control: Control<'a>,
        event: Event,
        action: Action,
    ) -> bool {
        match (control, event) {
            (_, Event::Failed(message)) => self.gave_up(action, ExecError::Host(message)),
            (Control::Waiting, event) => self.receives(before, event, action),
            (Control::Expression(e), Event::Resume) => self.begins_expression(before, e, action),
            (Control::Block(items), Event::Resume) => self.begins_block(before, items, action),
            (Control::Value(v), Event::Resume) => self.begins_value(before, v, action),
            (Control::Pending(cmds), Event::Resume) => self.takes_pending(before, cmds, action),
            (Control::Given(var), Event::Resume) => self.takes_value(before, var, action),
            (Control::Exited(code), Event::Resume) => self.resumes(before, code, action),
            (Control::Next, Event::Resume) => self.advances(before, action),
            (Control::Stopped, Event::Resume) => if before.stack@.len() > 0
                || before.ctx.break_num > 0 {
                self.gave_up(action, ExecError::UnexpectedEvent)
            } else {
                action is Done && self.ctx == before.ctx && self.is_over() && self.effects@
                    == before.effects@
            },
            (_, _) => self.gave_up(action, ExecError::UnexpectedEvent),
        }
    }

    /// What a move makes of the machine and gives the caller: the machine
    /// stays sound; what is left of it, with what the caller is to do to
    /// its handles, is what `moved` says; once the action is `Done` or
    /// `Failed` the program is over in good order; and a move that gives
    /// the program up has the caller close all that the frames and the
    /// scopes above the base held.
    pub open spec fn stepped(&self, before: &Machine<'a>, event: Event, res: Step) -> bool {
        &&& self.follows(before)
        &&& self.settled(res.action)
        &&& self.effects@.len() == 0
        &&& self.with_effects(res.effects).released(before, res.action)
        &&& self.with_effects(res.effects).moved(
            &before.at_rest(),
            before.control,
            event,
            res.action,
        )
    }

    /// One move. The caller hands in what happened since the last move:
    /// `Resume` where the machine had asked for nothing, the outcome of the
    /// action where it had asked for one, and `Failed` where the action or
    /// one of the effects could not be performed. It gets back what to do
    /// to its handles, and the next action.
    ///
    /// What the move makes of the machine is what `moved` says. Once the
    /// action is `Done` or `Failed` the program is over: nothing is in
    /// progress, the context has the scopes that it started with, and no
    /// loop is left to be left. Where the program is given up, the effects
    /// close every handle that a scope above the base or a frame held.
    #[verifier::spinoff_prover]
    pub fn step(&mut self, event: Event) -> (res: Step)
        requires
            old(self).wf(),
            old(self).effects@.len() == 0,
        ensures
            final(self).stepped(old(self), event, res),
    {
        let control = self.take_control();
        assert(*self == old(self).at_rest());
        let action = match (control, event) {
            (_, Event::Failed(message)) => self.fail(ExecError::Host(message)),
            (Control::Waiting, event) => self.receive(event),
            (Control::Expression(e), Event::Resume) => self.begin_expression(e),
            (Control::Block(items), Event::Resume) => self.begin_block(items),
            (Control::Value(v), Event::Resume) => self.begin_value(v),
            (Control::Pending(cmds), Event::Resume) => self.take_pending(cmds),
            (Control::Given(var), Event::Resume) => self.take_value(var),
            (Control::Exited(code), Event::Resume) => self.resume_exited(code),
            (Control::Next, Event::Resume) => self.advance(),
            (Control::Stopped, Event::Resume) => {
                if self.stack.len() > 0 || self.ctx.break_num > 0 {
                    self.fail(ExecError::UnexpectedEvent)
                } else {
                    assert(held(self.stack@) == 0);
                    Action::Done
                }
            },
            (_, _) => self.fail(ExecError::UnexpectedEvent),
        };
        let ghost done = *self;
        let mut effects: Vec<Effect> = Vec::new();
        core::mem::swap(&mut self.effects, &mut effects);
        assert(self.with_effects(effects) == done);
        Step { effects, action }
    }
}

/// The machine that is about to run `tree` in `ctx`. The first handles that
/// it names are those behind the three standard streams.
pub fn exec_tree<'a>(tree: &'a Vec<Expression>, ctx: Context) -> (m: Machine<'a>)
    requires
        ctx.wf(),
    ensures
        m.wf(),
        m.ctx == ctx,
        m.base == ctx.scopes.len(),
        m.effects@.len() == 0,
        m.control == Control::<'a>::Next,
        m.stack@ == seq![Frame::Program { items: tree, next: 0 }],
{
    Machine::new(ctx, tree, 3)
}

} // verus!
