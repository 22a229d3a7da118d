//! Scopes and the context: where variables, functions and stream
//! overrides live while a program runs.
//!
//! A table of names is kept as a list of pairs in which no name occurs
//! twice; `lookup` is what the table holds under a name.
use vstd::prelude::*;
use crate::ast::FunctionDefinitionExpression;
use crate::text::{chars_of, push_char, same_text};
use crate::vars::{spec_to_string, SpecVariable, Variable};

verus! {

/// Whether the table holds `key`.
pub open spec fn has_key<V>(entries: Seq<(String, V)>, key: Seq<char>) -> bool {
    exists|i: int| 0 <= i < entries.len() && #[trigger] entries[i].0@ == key
}

/// Where the table holds `key`.
pub open spec fn key_index<V>(entries: Seq<(String, V)>, key: Seq<char>) -> int {
    choose|i: int| 0 <= i < entries.len() && #[trigger] entries[i].0@ == key
}

/// No name occurs twice.
pub open spec fn distinct_keys<V>(entries: Seq<(String, V)>) -> bool {
    forall|i: int, j: int|
        0 <= i < j < entries.len() ==> #[trigger] entries[i].0@ != #[trigger] entries[j].0@
}

/// What the table holds under `key`.
pub open spec fn lookup<V>(entries: Seq<(String, V)>, key: Seq<char>) -> Option<V> {
    if has_key(entries, key) {
        Some(entries[key_index(entries, key)].1)
    } else {
        None
    }
}

/// An entry of a table without repeated names is what `lookup` finds under
/// its name.
pub proof fn lemma_lookup_at<V>(entries: Seq<(String, V)>, i: int)
    requires
        distinct_keys(entries),
        0 <= i < entries.len(),
    ensures
        lookup(entries, entries[i].0@) == Some(entries[i].1),
{
    let key = entries[i].0@;
    assert(has_key(entries, key));
    let j = key_index(entries, key);
    assert(0 <= j < entries.len() && entries[j].0@ == key);
    if i < j {
        assert(entries[i].0@ != entries[j].0@);
    } else if j < i {
        assert(entries[j].0@ != entries[i].0@);
    }
}

/// Where the table holds `key`, if it does.
pub fn find_key<V>(entries: &Vec<(String, V)>, key: &str) -> (res: Option<usize>)
    requires
        distinct_keys(entries@),
    ensures
        match res {
            Some(i) => i < entries.len() && entries[i as int].0@ == key@ && lookup(
                entries@,
                key@,
            ) == Some(entries[i as int].1),
            None => lookup(entries@, key@) is None,
        },
{
    let mut i: usize = 0;
    while i < entries.len()
        invariant
            i <= entries.len(),
            distinct_keys(entries@),
            forall|k: int| 0 <= k < i ==> #[trigger] entries[k].0@ != key@,
        decreases entries.len() - i,
    {
        if same_text(entries[i].0.as_str(), key) {
            proof {
                lemma_lookup_at(entries@, i as int);
            }
            return Some(i);
        }
        i += 1;
    }
    None
}

/// Puts `val` under `key`, in place of what stood there.
pub fn put<V>(entries: &mut Vec<(String, V)>, key: String, val: V)
    requires
        distinct_keys(old(entries)@),
    ensures
        distinct_keys(final(entries)@),
        lookup(final(entries)@, key@) == Some(val),
        forall|k: Seq<char>| k != key@ ==> lookup(final(entries)@, k) == lookup(old(entries)@, k),
{
    let ghost before = entries@;
    let ghost name = key@;
    match find_key(entries, key.as_str()) {
        Some(i) => {
            entries.set(i, (key, val));
            let ghost after = entries@;
            assert(forall|k: int| 0 <= k < after.len() ==> #[trigger] after[k].0@ == before[k].0@);
            assert(distinct_keys(after));
            proof {
                lemma_lookup_at(after, i as int);
            }
            assert forall|k: Seq<char>| k != name implies lookup(after, k) == lookup(
                before,
                k,
            ) by {
                if has_key(before, k) {
                    let j = key_index(before, k);
                    assert(after[j].0@ == k);
                    lemma_lookup_at(after, j);
                    lemma_lookup_at(before, j);
                } else if has_key(after, k) {
                    let j = key_index(after, k);
                    assert(before[j].0@ == k);
                }
            }
        },
        None => {
            entries.push((key, val));
            let ghost after = entries@;
            let ghost last = after.len() - 1;
            assert(forall|k: int| 0 <= k < before.len() ==> #[trigger] after[k] == before[k]);
            assert forall|a: int, b: int| 0 <= a < b < after.len() implies #[trigger] after[a].0@
                != #[trigger] after[b].0@ by {
                if b == last {
                    assert(before[a].0@ != name);
                } else {
                    assert(before[a].0@ != before[b].0@);
                }
            }
            proof {
                lemma_lookup_at(after, last);
            }
            assert forall|k: Seq<char>| k != name implies lookup(after, k) == lookup(
                before,
                k,
            ) by {
                if has_key(before, k) {
                    let j = key_index(before, k);
                    assert(after[j].0@ == k);
                    lemma_lookup_at(after, j);
                    lemma_lookup_at(before, j);
                } else if has_key(after, k) {
                    let j = key_index(after, k);
                    assert(j != last);
                    assert(before[j].0@ == k);
                }
            }
        },
    }
}

/// The prefix that marks a name of the environment.
pub open spec fn env_prefix() -> Seq<char> {
    seq!['e', 'n', 'v', ':', ':']
}

/// Whether the text starts at `i` with the prefix.
pub open spec fn prefix_at(s: Seq<char>, i: int) -> bool {
    0 <= i && i + 5 <= s.len() && s.subrange(i, i + 5) == env_prefix()
}

/// Whether the name belongs to the environment.
pub open spec fn has_env_prefix(s: Seq<char>) -> bool {
    prefix_at(s, 0)
}

/// The name with every occurrence of the prefix taken out, read from the
/// left.
pub open spec fn without_env(s: Seq<char>) -> Seq<char>
    decreases s.len(),
{
    if s.len() == 0 {
        s
    } else if prefix_at(s, 0) {
        without_env(s.subrange(5, s.len() as int))
    } else {
        seq![s[0]] + without_env(s.drop_first())
    }
}

fn is_prefix_at(chars: &Vec<char>, i: usize) -> (r: bool)
    requires
        i <= chars.len(),
    ensures
        r == prefix_at(chars@, i as int),
{
    if chars.len() - i < 5 {
        return false;
    }
    let r = chars[i] == 'e' && chars[i + 1] == 'n' && chars[i + 2] == 'v' && chars[i + 3] == ':'
        && chars[i + 4] == ':';
    proof {
        let part = chars@.subrange(i as int, i + 5);
        if r {
            assert(part =~= env_prefix());
        } else {
            assert(part[0] == chars[i as int]);
            assert(part[1] == chars[i + 1]);
            assert(part[2] == chars[i + 2]);
            assert(part[3] == chars[i + 3]);
            assert(part[4] == chars[i + 4]);
        }
    }
    r
}

/// Whether the name belongs to the environment.
pub fn names_environment(name: &str) -> (r: bool)
    ensures
        r == has_env_prefix(name@),
{
    let chars = chars_of(name);
    is_prefix_at(&chars, 0)
}

/// The name with every occurrence of the prefix taken out.
pub fn strip_environment(name: &str) -> (out: String)
    ensures
        out@ == without_env(name@),
{
    let chars = chars_of(name);
    let mut out = String::new();
    let mut i: usize = 0;
    assert(chars@.subrange(0, chars.len() as int) == chars@);
    while i < chars.len()
        invariant
            i <= chars.len(),
            chars@ == name@,
            without_env(name@) == out@ + without_env(
                chars@.subrange(i as int, chars.len() as int),
            ),
        decreases chars.len() - i,
    {
        let ghost rest = chars@.subrange(i as int, chars.len() as int);
        assert(prefix_at(rest, 0) == prefix_at(chars@, i as int)) by {
            if i + 5 <= chars.len() {
                assert(rest.subrange(0, 5) == chars@.subrange(i as int, i + 5));
            }
        }
        if is_prefix_at(&chars, i) {
            assert(rest.subrange(5, rest.len() as int) == chars@.subrange(
                i + 5,
                chars.len() as int,
            ));
            i += 5;
        } else {
            assert(rest.drop_first() == chars@.subrange(i + 1, chars.len() as int));
            assert(out@ + (seq![rest[0]] + without_env(rest.drop_first())) =~= out@.push(
                chars[i as int],
            ) + without_env(rest.drop_first()));
            push_char(&mut out, chars[i]);
            i += 1;
        }
    }
    assert(out@ + Seq::<char>::empty() =~= out@);
    out
}

/// The three standard streams of a process.
#[derive(Debug, Clone, Copy, PartialEq, Eq, Structural)]
pub enum Stream {
    Stdin,
    Stdout,
    Stderr,
}

/// A layer of the context: what was bound, and which streams were
/// replaced, since the construct that opened it began. A stream is replaced
/// by a handle: a number that the caller gave to a pipe end or an open file.
#[derive(Debug)]
pub struct Scope {
    /// The variables.
    pub vars: Vec<(String, Variable)>,
    /// The functions.
    pub func: Vec<(String, FunctionDefinitionExpression)>,
    /// Handles to close when the scope is left.
    pub fd: Vec<usize>,
    pub stdin_override: Option<usize>,
    pub stdout_override: Option<usize>,
    pub stderr_override: Option<usize>,
}

impl Scope {
    /// No name is bound twice.
    pub open spec fn wf(&self) -> bool {
        distinct_keys(self.vars@) && distinct_keys(self.func@)
    }

    /// What the scope puts in place of `stream`.
    pub open spec fn replaces(&self, stream: Stream) -> Option<usize> {
        match stream {
            Stream::Stdin => self.stdin_override,
            Stream::Stdout => self.stdout_override,
            Stream::Stderr => self.stderr_override,
        }
    }

    /// A scope that binds and replaces nothing.
    pub fn new() -> (scope: Scope)
        ensures
            scope.wf(),
            scope.vars@.len() == 0,
            scope.func@.len() == 0,
            scope.fd@.len() == 0,
            scope.stdin_override is None,
            scope.stdout_override is None,
            scope.stderr_override is None,
    {
        Scope {
            vars: Vec::new(),
            func: Vec::new(),
            fd: Vec::new(),
            stdin_override: None,
            stdout_override: None,
            stderr_override: None,
        }
    }
}

/// The built-ins.
#[derive(Debug, Clone, Copy, PartialEq, Eq, Structural)]
pub enum Native {
    Trim,
    Test,
    True,
    False,
    Export,
    Typeof,
}

/// A built-in as the registry holds it.
#[derive(Debug)]
pub struct NativeFunction {
    pub name: String,
    pub description: String,
    pub args: Vec<String>,
    pub func: Native,
}

/// A function found by name.
pub enum AnyFunction<'a> {
    Native(&'a NativeFunction),
    UserDefined(&'a FunctionDefinitionExpression),
}

/// What a new process gets in place of its standard streams.
#[derive(Debug, Clone, Copy, PartialEq, Eq, Structural)]
pub struct Overrides {
    pub stdin: Option<usize>,
    pub stdout: Option<usize>,
    pub stderr: Option<usize>,
}

/// The value of `key` in the innermost of the first `upto` scopes that
/// binds it.
pub open spec fn find_var(scopes: Seq<Scope>, key: Seq<char>, upto: int) -> Option<Variable>
    decreases upto,
{
    if upto <= 0 {
        None
    } else {
        match lookup(scopes[upto - 1].vars@, key) {
            Some(v) => Some(v),
            None => find_var(scopes, key, upto - 1),
        }
    }
}

/// The function `key` in the innermost of the first `upto` scopes that
/// defines it.
pub open spec fn find_func(scopes: Seq<Scope>, key: Seq<char>, upto: int) -> Option<
    FunctionDefinitionExpression,
>
    decreases upto,
{
    if upto <= 0 {
        None
    } else {
        match lookup(scopes[upto - 1].func@, key) {
            Some(f) => Some(f),
            None => find_func(scopes, key, upto - 1),
        }
    }
}

/// What the innermost of the first `upto` scopes that replaces `stream`
/// puts in its place.
pub open spec fn nearest(scopes: Seq<Scope>, stream: Stream, upto: int) -> Option<usize>
    decreases upto,
{
    if upto <= 0 {
        None
    } else if scopes[upto - 1].replaces(stream) is Some {
        scopes[upto - 1].replaces(stream)
    } else {
        nearest(scopes, stream, upto - 1)
    }
}

/// The state of a session: the stack of scopes, the exported variables, the
/// built-ins, and how many loops are still to be left.
#[derive(Debug)]
pub struct Context {
    pub scopes: Vec<Scope>,
    /// The variables of the environment.
    pub exports: Vec<(String, Variable)>,
    /// The built-ins by name.
    pub native_func: Vec<(String, NativeFunction)>,
    /// How many loops `break` still has to leave.
    pub break_num: u16,
    /// How many loops `continue` still has to pass.
    pub continue_num: u16,
}

impl Context {
    /// There is a scope, and no table holds a name twice.
    pub open spec fn wf(&self) -> bool {
        &&& self.scopes.len() >= 1
        &&& distinct_keys(self.exports@)
        &&& distinct_keys(self.native_func@)
        &&& forall|i: int| 0 <= i < self.scopes.len() ==> (#[trigger] self.scopes[i]).wf()
    }

    /// The value of the variable `name`: a name of the environment is
    /// looked up among the exports, under what is left of it without the
    /// prefix; any other in the scopes, innermost first.
    pub open spec fn var(&self, name: Seq<char>) -> Option<Variable> {
        if has_env_prefix(name) {
            lookup(self.exports@, without_env(name))
        } else {
            find_var(self.scopes@, name, self.scopes.len() as int)
        }
    }

    /// What a process started now gets in place of `stream`.
    pub open spec fn effective(&self, stream: Stream) -> Option<usize> {
        nearest(self.scopes@, stream, self.scopes.len() as int)
    }

    /// A context with one empty scope.
    pub fn new() -> (ctx: Context)
        ensures
            ctx.wf(),
            ctx.scopes.len() == 1,
            ctx.break_num == 0,
            ctx.continue_num == 0,
            ctx.exports@.len() == 0,
            ctx.native_func@.len() == 0,
    {
        let mut res = Context {
            scopes: Vec::new(),
            exports: Vec::new(),
            native_func: Vec::new(),
            break_num: 0,
            continue_num: 0,
        };
        res.add_scope();
        res
    }

    /// Leaves the innermost scope.
    pub fn pop_scope(&mut self) -> (res: Option<Scope>)
        ensures
            final(self).exports == old(self).exports,
            final(self).native_func == old(self).native_func,
            final(self).break_num == old(self).break_num,
            final(self).continue_num == old(self).continue_num,
            old(self).scopes.len() > 0 ==> res == Some(old(self).scopes@.last())
                && final(self).scopes@ == old(self).scopes@.drop_last(),
            old(self).scopes.len() == 0 ==> res is None && final(self).scopes@ == old(
                self,
            ).scopes@,
    {
        self.scopes.pop()
    }

    /// Enters a new, empty scope.
    pub fn add_scope(&mut self)
        ensures
            final(self).exports == old(self).exports,
            final(self).native_func == old(self).native_func,
            final(self).break_num == old(self).break_num,
            final(self).continue_num == old(self).continue_num,
            final(self).scopes@.len() == old(self).scopes@.len() + 1,
            final(self).scopes@.drop_last() == old(self).scopes@,
            final(self).scopes@.last().wf(),
            final(self).scopes@.last().vars@.len() == 0,
            final(self).scopes@.last().func@.len() == 0,
            forall|s: Stream| final(self).scopes@.last().replaces(s) is None,
            old(self).wf() ==> final(self).wf(),
    {
        let scope = Scope::new();
        self.scopes.push(scope);
        assert(self.scopes@.drop_last() =~= old(self).scopes@);
    }

    /// The variable `var`, if it is bound.
    pub fn get_var(&self, var: &str) -> (res: Option<&Variable>)
        requires
            self.wf(),
        ensures
            match res {
                Some(v) => self.var(var@) == Some(*v),
                None => self.var(var@) is None,
            },
    {
        if names_environment(var) {
            let key = strip_environment(var);
            return match find_key(&self.exports, key.as_str()) {
                Some(i) => Some(&self.exports[i].1),
                None => None,
            };
        }
        let mut upto: usize = self.scopes.len();
        while upto > 0
            invariant
                upto <= self.scopes.len(),
                self.wf(),
                !has_env_prefix(var@),
                self.var(var@) == find_var(self.scopes@, var@, upto as int),
            decreases upto,
        {
            match find_key(&self.scopes[upto - 1].vars, var) {
                Some(i) => {
                    return Some(&self.scopes[upto - 1].vars[i].1);
                },
                None => {},
            }
            upto -= 1;
        }
        None
    }

    /// The exit code of the last command that was waited for.
    pub fn get_last_exit_code(&self) -> (res: Option<i32>)
        requires
            self.wf(),
        ensures
            res == match self.var(seq!['?']) {
                Some(Variable::I32(code)) => Some(code),
                _ => None,
            },
    {
        proof {
            reveal_strlit("?");
        }
        assert("?"@ =~= seq!['?']);
        match self.get_var("?") {
            Some(Variable::I32(code)) => Some(*code),
            _ => None,
        }
    }

    /// Binds `key` to `val` in the innermost scope. A name of the
    /// environment is exported as well: under what is left of it without
    /// the prefix, as the text of `val`.
    pub fn set_var(&mut self, key: String, val: Variable)
        requires
            old(self).wf(),
        ensures
            final(self).wf(),
            final(self).native_func == old(self).native_func,
            final(self).break_num == old(self).break_num,
            final(self).continue_num == old(self).continue_num,
            final(self).scopes@.len() == old(self).scopes@.len(),
            final(self).scopes@.drop_last() == old(self).scopes@.drop_last(),
            final(self).scopes@.last().func == old(self).scopes@.last().func,
            final(self).scopes@.last().fd == old(self).scopes@.last().fd,
            forall|s: Stream|
                final(self).scopes@.last().replaces(s) == old(self).scopes@.last().replaces(s),
            lookup(final(self).scopes@.last().vars@, key@) == Some(val),
            forall|k: Seq<char>|
                k != key@ ==> lookup(final(self).scopes@.last().vars@, k) == lookup(
                    old(self).scopes@.last().vars@,
                    k,
                ),
            !has_env_prefix(key@) ==> final(self).exports == old(self).exports,
            has_env_prefix(key@) ==> {
                &&& lookup(final(self).exports@, without_env(key@)) matches Some(exported)
                &&& exported@ == SpecVariable::String(spec_to_string(val@))
                &&& forall|k: Seq<char>|
                    k != without_env(key@) ==> lookup(final(self).exports@, k) == lookup(
                        old(self).exports@,
                        k,
                    )
            },
    {
        if names_environment(key.as_str()) {
            let name = strip_environment(key.as_str());
            let text = val.to_string();
            put(&mut self.exports, name, Variable::String(text));
        }
        let ghost before = self.scopes@;
        let last = self.scopes.len() - 1;
        let mut scope = match self.scopes.pop() {
            Some(s) => s,
            None => Scope::new(),
        };
        put(&mut scope.vars, key, val);
        self.scopes.push(scope);
        assert(self.scopes@.drop_last() =~= before.drop_last());
        assert forall|i: int| 0 <= i < self.scopes.len() implies (#[trigger] self.scopes[i]).wf() by {
            if i < last {
                assert(self.scopes[i] == before[i]);
            }
        }
    }

    /// The function `key`: one that a scope defines, innermost first, or
    /// else a built-in.
    pub fn get_func(&self, key: &str) -> (res: Option<AnyFunction<'_>>)
        requires
            self.wf(),
        ensures
            match res {
                Some(AnyFunction::UserDefined(f)) => find_func(
                    self.scopes@,
                    key@,
                    self.scopes.len() as int,
                ) == Some(*f),
                Some(AnyFunction::Native(f)) => find_func(
                    self.scopes@,
                    key@,
                    self.scopes.len() as int,
                ) is None && lookup(self.native_func@, key@) == Some(*f),
                None => find_func(self.scopes@, key@, self.scopes.len() as int) is None && lookup(
                    self.native_func@,
                    key@,
                ) is None,
            },
    {
        let mut upto: usize = self.scopes.len();
        while upto > 0
            invariant
                upto <= self.scopes.len(),
                self.wf(),
                find_func(self.scopes@, key@, self.scopes.len() as int) == find_func(
                    self.scopes@,
                    key@,
                    upto as int,
                ),
            decreases upto,
        {
            match find_key(&self.scopes[upto - 1].func, key) {
                Some(i) => {
                    return Some(AnyFunction::UserDefined(&self.scopes[upto - 1].func[i].1));
                },
                None => {},
            }
            upto -= 1;
        }
        match find_key(&self.native_func, key) {
            Some(i) => Some(AnyFunction::Native(&self.native_func[i].1)),
            None => None,
        }
    }

    /// Defines the function `key` in the innermost scope.
    pub fn set_func(&mut self, key: String, val: FunctionDefinitionExpression)
        requires
            old(self).wf(),
        ensures
            final(self).wf(),
            final(self).exports == old(self).exports,
            final(self).native_func == old(self).native_func,
            final(self).break_num == old(self).break_num,
            final(self).continue_num == old(self).continue_num,
            final(self).scopes@.len() == old(self).scopes@.len(),
            final(self).scopes@.drop_last() == old(self).scopes@.drop_last(),
            final(self).scopes@.last().vars == old(self).scopes@.last().vars,
            final(self).scopes@.last().fd == old(self).scopes@.last().fd,
            forall|s: Stream|
                final(self).scopes@.last().replaces(s) == old(self).scopes@.last().replaces(s),
            lookup(final(self).scopes@.last().func@, key@) == Some(val),
            forall|k: Seq<char>|
                k != key@ ==> lookup(final(self).scopes@.last().func@, k) == lookup(
                    old(self).scopes@.last().func@,
                    k,
                ),
    {
        let ghost before = self.scopes@;
        let last = self.scopes.len() - 1;
        let mut scope = match self.scopes.pop() {
            Some(s) => s,
            None => Scope::new(),
        };
        put(&mut scope.func, key, val);
        self.scopes.push(scope);
        assert(self.scopes@.drop_last() =~= before.drop_last());
        assert forall|i: int| 0 <= i < self.scopes.len() implies (#[trigger] self.scopes[i]).wf() by {
            if i < last {
                assert(self.scopes[i] == before[i]);
            }
        }
    }

    /// What a process started now gets in place of its standard streams:
    /// for each stream, what the innermost scope that replaces it puts
    /// there.
    pub fn get_overrides(&self) -> (res: Overrides)
        ensures
            res.stdin == self.effective(Stream::Stdin),
            res.stdout == self.effective(Stream::Stdout),
            res.stderr == self.effective(Stream::Stderr),
    {
        let mut overrides = Overrides { stdin: None, stdout: None, stderr: None };
        let mut upto: usize = self.scopes.len();
        while upto > 0
            invariant
                upto <= self.scopes.len(),
                self.effective(Stream::Stdin) == match overrides.stdin {
                    Some(h) => Some(h),
                    None => nearest(self.scopes@, Stream::Stdin, upto as int),
                },
                self.effective(Stream::Stdout) == match overrides.stdout {
                    Some(h) => Some(h),
                    None => nearest(self.scopes@, Stream::Stdout, upto as int),
                },
                self.effective(Stream::Stderr) == match overrides.stderr {
                    Some(h) => Some(h),
                    None => nearest(self.scopes@, Stream::Stderr, upto as int),
                },
            decreases upto,
        {
            let scope = &self.scopes[upto - 1];
            if overrides.stdin.is_none() {
                overrides.stdin = scope.stdin_override;
            }
            if overrides.stderr.is_none() {
                overrides.stderr = scope.stderr_override;
            }
            if overrides.stdout.is_none() {
                overrides.stdout = scope.stdout_override;
            }
            upto -= 1;
        }
        overrides
    }
}

} // verus!
