//! The built-ins: the functions that a program can call with `$name(...)`
//! and that the interpreter answers itself.
use vstd::prelude::*;
use vstd::string::*;
use crate::context::{has_env_prefix, without_env, Context, distinct_keys, lookup, Native, NativeFunction, put, Stream};
use crate::text::{chars_of, is_white_space, same_text, string_of, white_space};
use crate::vars::{
    join_with_space, spec_to_string, SpecVariable, texts, Variable, variables_to_string,
    variables_view,
};

verus! {

/// Why a built-in refused its arguments.
#[derive(Debug, Clone, Copy, PartialEq, Eq, Structural)]
pub enum NativeError {
    /// The number of arguments is not one that the built-in takes.
    Arity,
    /// `test` was given an operator other than `=` and `!=`.
    UnsupportedOperand,
}

/// What the user is told of the error.
pub open spec fn native_error_text(e: NativeError) -> Seq<char> {
    match e {
        NativeError::Arity => "Wrong number of arguments"@,
        NativeError::UnsupportedOperand => "Unsupported operand"@,
    }
}

impl NativeError {
    /// The message shown to the user.
    pub fn message(&self) -> (m: String)
        ensures
            m@ == native_error_text(*self),
    {
        match self {
            NativeError::Arity => String::from_str("Wrong number of arguments"),
            NativeError::UnsupportedOperand => String::from_str("Unsupported operand"),
        }
    }
}

/// Where the text starts once the white space from `i` on is passed over.
pub open spec fn skip_white(s: Seq<char>, i: int) -> int
    decreases s.len() - i,
{
    if 0 <= i < s.len() && white_space(s[i]) {
        skip_white(s, i + 1)
    } else {
        i
    }
}

/// Where the text ends once the white space before `j` is cut off, not
/// going back beyond `from`.
pub open spec fn cut_white(s: Seq<char>, from: int, j: int) -> int
    decreases j,
{
    if 0 <= from < j <= s.len() && white_space(s[j - 1]) {
        cut_white(s, from, j - 1)
    } else {
        j
    }
}

/// The text without the white space at its ends.
pub open spec fn trimmed(s: Seq<char>) -> Seq<char> {
    let start = skip_white(s, 0);
    let end = cut_white(s, start, s.len() as int);
    s.subrange(start, end)
}

/// The text without the white space at its ends.
pub fn trim(text: &str) -> (out: String)
    ensures
        out@ == trimmed(text@),
{
    let chars = chars_of(text);
    let mut start: usize = 0;
    while start < chars.len() && is_white_space(chars[start])
        invariant
            start <= chars.len(),
            skip_white(chars@, 0) == skip_white(chars@, start as int),
        decreases chars.len() - start,
    {
        start += 1;
    }
    let mut end: usize = chars.len();
    while end > start && is_white_space(chars[end - 1])
        invariant
            start <= end <= chars.len(),
            cut_white(chars@, start as int, chars.len() as int) == cut_white(
                chars@,
                start as int,
                end as int,
            ),
        decreases end,
    {
        end -= 1;
    }
    string_of(&chars, start, end)
}

/// The name of the kind of a variable.
pub open spec fn kind_name(v: SpecVariable) -> Seq<char> {
    match v {
        SpecVariable::String(_) => "string"@,
        SpecVariable::I32(_) => "i32"@,
        SpecVariable::I64(_) => "i64"@,
        SpecVariable::I128(_) => "i128"@,
        SpecVariable::U32(_) => "u32"@,
        SpecVariable::U64(_) => "u64"@,
        SpecVariable::U128(_) => "u128"@,
        SpecVariable::F32(_, _) => "f32"@,
        SpecVariable::F64(_, _) => "f64"@,
        SpecVariable::Bool(_) => "bool"@,
        SpecVariable::Array(_) => "array"@,
        SpecVariable::HMap(_) => "HMap"@,
    }
}

/// What `test` answers: 0 where the comparison holds, 1 where it does not.
pub open spec fn test_result(args: Seq<SpecVariable>) -> Result<SpecVariable, NativeError> {
    if args.len() != 3 {
        Err(NativeError::Arity)
    } else {
        match args[1] {
            SpecVariable::String(op) => if op == "="@ {
                Ok(
                    SpecVariable::I32(
                        if spec_to_string(args[0]) == spec_to_string(args[2]) {
                            0
                        } else {
                            1
                        },
                    ),
                )
            } else if op == "!="@ {
                Ok(
                    SpecVariable::I32(
                        if spec_to_string(args[0]) != spec_to_string(args[2]) {
                            0
                        } else {
                            1
                        },
                    ),
                )
            } else {
                Err(NativeError::UnsupportedOperand)
            },
            _ => Err(NativeError::UnsupportedOperand),
        }
    }
}

/// What a built-in that changes nothing answers.
pub open spec fn pure_result(kind: Native, args: Seq<SpecVariable>) -> Result<
    SpecVariable,
    NativeError,
>
    recommends
        kind != Native::Export,
{
    match kind {
        Native::Trim => Ok(SpecVariable::String(trimmed(join_with_space(texts(args))))),
        Native::Test => test_result(args),
        Native::True => Ok(SpecVariable::I32(0)),
        Native::False => Ok(SpecVariable::I32(1)),
        Native::Typeof => if args.len() != 1 {
            Err(NativeError::Arity)
        } else {
            Ok(SpecVariable::String(kind_name(args[0])))
        },
        Native::Export => Err(NativeError::Arity),
    }
}

/// `$trim`: the texts of the arguments, joined by spaces, without the
/// white space at the ends.
pub fn rush_trim(args: Vec<Variable>) -> (res: Result<Variable, NativeError>)
    ensures
        res matches Ok(v) && Ok::<SpecVariable, NativeError>(v@) == pure_result(
            Native::Trim,
            variables_view(args@),
        ),
{
    let text = variables_to_string(args);
    Ok(Variable::String(trim(text.as_str())))
}

/// `test`: compares the texts of its first and third argument.
pub fn rush_test(args: Vec<Variable>) -> (res: Result<Variable, NativeError>)
    ensures
        match res {
            Ok(v) => Ok::<SpecVariable, NativeError>(v@) == test_result(variables_view(args@)),
            Err(e) => Err::<SpecVariable, NativeError>(e) == test_result(variables_view(args@)),
        },
{
    if args.len() != 3 {
        return Err(NativeError::Arity);
    }
    let ghost seen = variables_view(args@);
    assert(seen[0] == args[0]@ && seen[1] == args[1]@ && seen[2] == args[2]@);
    match &args[1] {
        Variable::String(operand) => {
            if same_text(operand.as_str(), "=") {
                let same = same_text(args[0].to_string().as_str(), args[2].to_string().as_str());
                Ok(
                    Variable::I32(
                        if same {
                            0
                        } else {
                            1
                        },
                    ),
                )
            } else if same_text(operand.as_str(), "!=") {
                let same = same_text(args[0].to_string().as_str(), args[2].to_string().as_str());
                Ok(
                    Variable::I32(
                        if !same {
                            0
                        } else {
                            1
                        },
                    ),
                )
            } else {
                Err(NativeError::UnsupportedOperand)
            }
        },
        _ => Err(NativeError::UnsupportedOperand),
    }
}

/// `true`: 0.
pub fn rush_true(args: Vec<Variable>) -> (res: Result<Variable, NativeError>)
    ensures
        res matches Ok(v) && v@ == SpecVariable::I32(0),
{
    Ok(Variable::I32(0))
}

/// `false`: 1.
pub fn rush_false(args: Vec<Variable>) -> (res: Result<Variable, NativeError>)
    ensures
        res matches Ok(v) && v@ == SpecVariable::I32(1),
{
    Ok(Variable::I32(1))
}

/// `typeof`: the name of the kind of its argument.
pub fn rush_typeof(args: Vec<Variable>) -> (res: Result<Variable, NativeError>)
    ensures
        match res {
            Ok(v) => Ok::<SpecVariable, NativeError>(v@) == pure_result(
                Native::Typeof,
                variables_view(args@),
            ),
            Err(e) => Err::<SpecVariable, NativeError>(e) == pure_result(
                Native::Typeof,
                variables_view(args@),
            ),
        },
{
    if args.len() != 1 {
        return Err(NativeError::Arity);
    }
    let ghost seen = variables_view(args@);
    assert(seen[0] == args[0]@);
    let res = match &args[0] {
        Variable::String(_) => "string",
        Variable::I32(_) => "i32",
        Variable::I64(_) => "i64",
        Variable::I128(_) => "i128",
        Variable::U32(_) => "u32",
        Variable::U64(_) => "u64",
        Variable::U128(_) => "u128",
        Variable::F32(_) => "f32",
        Variable::F64(_) => "f64",
        Variable::Bool(_) => "bool",
        Variable::Array(_) => "array",
        Variable::HMap(_) => "HMap",
    };
    Ok(Variable::String(String::from_str(res)))
}

/// What `export` makes of the context and answers: with one argument, a
/// name, it exports the variable of that name and answers 0, or answers 1
/// where there is none; with three, a name, `=` and a value, it binds the
/// name to the value, exports it and answers 0. With another number of
/// arguments it fails and changes nothing.
pub open spec fn export_result(
    before: Context,
    args: Seq<SpecVariable>,
    after: Context,
    res: Result<Variable, NativeError>,
) -> bool {
    &&& after.scopes@.len() == before.scopes@.len()
    &&& after.native_func == before.native_func
    &&& after.break_num == before.break_num
    &&& after.continue_num == before.continue_num
    &&& forall|s: Stream| after.effective(s) == before.effective(s)
    &&& args.len() != 1 && args.len() != 3 <==> res is Err
    &&& res matches Err(e) ==> e == NativeError::Arity && after == before
    &&& args.len() == 1 ==> {
        let name = spec_to_string(args[0]);
        match before.var(name) {
            Some(value) => {
                &&& res matches Ok(v) && v@ == SpecVariable::I32(0)
                &&& after.scopes == before.scopes
                &&& lookup(after.exports@, name) matches Some(exported) && exported@ == value@
                &&& forall|k: Seq<char>|
                    k != name ==> lookup(after.exports@, k) == lookup(before.exports@, k)
            },
            None => {
                &&& res matches Ok(v) && v@ == SpecVariable::I32(1)
                &&& after == before
            },
        }
    }
    &&& args.len() == 3 ==> {
        let name = spec_to_string(args[0]);
        &&& res matches Ok(v) && v@ == SpecVariable::I32(0)
        &&& after.scopes@.drop_last() == before.scopes@.drop_last()
        &&& after.scopes@.last().func == before.scopes@.last().func
        &&& after.scopes@.last().fd == before.scopes@.last().fd
        &&& forall|s: Stream| after.scopes@.last().replaces(s) == before.scopes@.last().replaces(s)
        &&& lookup(after.scopes@.last().vars@, name) matches Some(bound) && bound@ == args[2]
        &&& forall|k: Seq<char>|
            k != name ==> lookup(after.scopes@.last().vars@, k) == lookup(
                before.scopes@.last().vars@,
                k,
            )
        &&& lookup(after.exports@, name) matches Some(exported) && exported@ == args[2]
        &&& forall|k: Seq<char>|
            k != name && !(has_env_prefix(name) && k == without_env(name)) ==> lookup(
                after.exports@,
                k,
            ) == lookup(before.exports@, k)
    }
}

/// `export`: exports a variable, or binds and exports one.
pub fn rush_export(ctx: &mut Context, args: Vec<Variable>) -> (res: Result<Variable, NativeError>)
    requires
        old(ctx).wf(),
    ensures
        final(ctx).wf(),
        export_result(*old(ctx), variables_view(args@), *final(ctx), res),
{
    if args.len() != 1 && args.len() != 3 {
        return Err(NativeError::Arity);
    }
    let ghost seen = variables_view(args@);
    assert(seen[0] == args[0]@);
    let name = args[0].to_string();
    if args.len() == 1 {
        let found = match ctx.get_var(name.as_str()) {
            Some(value) => Some(value.duplicate()),
            None => None,
        };
        match found {
            Some(value) => {
                put(&mut ctx.exports, name, value);
                Ok(Variable::I32(0))
            },
            None => Ok(Variable::I32(1)),
        }
    } else {
        assert(seen[2] == args[2]@);
        let ghost before = *ctx;
        ctx.set_var(name.clone(), args[2].duplicate());
        assert forall|s: Stream| ctx.effective(s) == before.effective(s) by {
            let last = ctx.scopes.len() - 1;
            assert forall|i: int| 0 <= i < before.scopes@.len() implies (
            #[trigger] before.scopes@[i]).replaces(s) == ctx.scopes@[i].replaces(s) by {
                if i < last {
                    assert(before.scopes@.drop_last()[i] == ctx.scopes@.drop_last()[i]);
                } else {
                    assert(before.scopes@[i] == before.scopes@.last());
                    assert(ctx.scopes@[i] == ctx.scopes@.last());
                }
            }
            lemma_same_overrides(before.scopes@, ctx.scopes@, s, ctx.scopes.len() as int);
        }
        put(&mut ctx.exports, name, args[2].duplicate());
        Ok(Variable::I32(0))
    }
}

/// Scopes that replace the same streams give the same overrides.
pub proof fn lemma_same_overrides(
    a: Seq<crate::context::Scope>,
    b: Seq<crate::context::Scope>,
    s: Stream,
    upto: int,
)
    requires
        a.len() == b.len(),
        upto <= a.len(),
        forall|i: int| 0 <= i < a.len() ==> (#[trigger] a[i]).replaces(s) == b[i].replaces(s),
    ensures
        crate::context::nearest(a, s, upto) == crate::context::nearest(b, s, upto),
    decreases upto,
{
    if upto > 0 {
        lemma_same_overrides(a, b, s, upto - 1);
    }
}

/// Calls the built-in `kind` on `args`.
pub fn call_native(kind: Native, ctx: &mut Context, args: Vec<Variable>) -> (res: Result<
    Variable,
    NativeError,
>)
    requires
        old(ctx).wf(),
    ensures
        final(ctx).wf(),
        final(ctx).scopes@.len() == old(ctx).scopes@.len(),
        final(ctx).break_num == old(ctx).break_num,
        kind != Native::Export ==> *final(ctx) == *old(ctx) && match res {
            Ok(v) => Ok::<SpecVariable, NativeError>(v@) == pure_result(
                kind,
                variables_view(args@),
            ),
            Err(e) => Err::<SpecVariable, NativeError>(e) == pure_result(
                kind,
                variables_view(args@),
            ),
        },
        kind == Native::Export ==> export_result(
            *old(ctx),
            variables_view(args@),
            *final(ctx),
            res,
        ),
{
    match kind {
        Native::Trim => rush_trim(args),
        Native::Test => rush_test(args),
        Native::True => rush_true(args),
        Native::False => rush_false(args),
        Native::Export => rush_export(ctx, args),
        Native::Typeof => rush_typeof(args),
    }
}

fn name_list(names: Vec<&str>) -> (out: Vec<String>)
    ensures
        out.len() == names.len(),
        forall|i: int| 0 <= i < out.len() ==> #[trigger] out[i]@ == names[i]@,
{
    let mut out: Vec<String> = Vec::new();
    let mut i: usize = 0;
    while i < names.len()
        invariant
            i <= names.len(),
            out.len() == i,
            forall|k: int| 0 <= k < i ==> #[trigger] out[k]@ == names[k]@,
        decreases names.len() - i,
    {
        out.push(String::from_str(names[i]));
        i += 1;
    }
    out
}

/// The texts of the names.
pub open spec fn names_of(names: Seq<String>) -> Seq<Seq<char>> {
    Seq::new(names.len(), |i: int| names[i]@)
}

/// Whether the registry holds, under `key`, the built-in of that name
/// with the given description, names of arguments and kind.
pub open spec fn registered(
    map: Seq<(String, NativeFunction)>,
    key: Seq<char>,
    description: Seq<char>,
    args: Seq<Seq<char>>,
    func: Native,
) -> bool {
    lookup(map, key) matches Some(f) && f.name@ == key && f.description@ == description
        && names_of(f.args@) == args && f.func == func
}

fn register(
    map: &mut Vec<(String, NativeFunction)>,
    name: &str,
    description: &str,
    args: Vec<&str>,
    func: Native,
)
    requires
        distinct_keys(old(map)@),
    ensures
        distinct_keys(final(map)@),
        registered(
            final(map)@,
            name@,
            description@,
            Seq::new(args@.len(), |i: int| args@[i]@),
            func,
        ),
        forall|k: Seq<char>| k != name@ ==> lookup(final(map)@, k) == lookup(old(map)@, k),
{
    let ghost wanted = Seq::new(args@.len(), |i: int| args@[i]@);
    let list = name_list(args);
    assert(names_of(list@) =~= wanted);
    let entry = NativeFunction {
        name: String::from_str(name),
        description: String::from_str(description),
        args: list,
        func,
    };
    put(map, String::from_str(name), entry);
}

/// No names.
fn no_names() -> (v: Vec<&'static str>)
    ensures
        v@.len() == 0,
{
    Vec::new()
}

/// One name.
fn one_name(a: &'static str) -> (v: Vec<&'static str>)
    ensures
        v@ == seq![a],
{
    let mut v: Vec<&'static str> = Vec::new();
    v.push(a);
    v
}

/// Three names.
fn three_names(a: &'static str, b: &'static str, c: &'static str) -> (v: Vec<&'static str>)
    ensures
        v@ == seq![a, b, c],
{
    let mut v: Vec<&'static str> = Vec::new();
    v.push(a);
    v.push(b);
    v.push(c);
    v
}

/// The names of the built-ins differ from each other.
proof fn lemma_names_differ()
    ensures
        "$trim"@ != "test"@,
        "$trim"@ != "true"@,
        "$trim"@ != "false"@,
        "$trim"@ != "export"@,
        "$trim"@ != "typeof"@,
        "test"@ != "true"@,
        "test"@ != "false"@,
        "test"@ != "export"@,
        "test"@ != "typeof"@,
        "true"@ != "false"@,
        "true"@ != "export"@,
        "true"@ != "typeof"@,
        "false"@ != "export"@,
        "false"@ != "typeof"@,
        "export"@ != "typeof"@,
{
    reveal_strlit("$trim");
    reveal_strlit("test");
    reveal_strlit("true");
    reveal_strlit("false");
    reveal_strlit("export");
    reveal_strlit("typeof");
    assert("$trim"@[0] == '$');
    assert("test"@[0] == 't' && "test"@[1] == 'e');
    assert("true"@[0] == 't' && "true"@[1] == 'r');
    assert("false"@[0] == 'f');
    assert("export"@[0] == 'e');
    assert("typeof"@[0] == 't');
    assert("$trim"@.len() == 5 && "test"@.len() == 4 && "true"@.len() == 4 && "false"@.len() == 5
        && "export"@.len() == 6 && "typeof"@.len() == 6);
}

/// The registry of built-ins: `$trim`, `test`, `true`, `false`, `export`
/// and `typeof`, each under its name, with its description and the names
/// of its arguments; and nothing else.
pub fn get_native_functions() -> (map: Vec<(String, NativeFunction)>)
    ensures
        distinct_keys(map@),
        registered(
            map@,
            "$trim"@,
            "Removes leading and trailing whitespaces from a string"@,
            seq!["str"@],
            Native::Trim,
        ),
        registered(
            map@,
            "test"@,
            "Compares values. Supported operands are = != > < >= <="@,
            seq!["source"@, "operand"@, "target"@],
            Native::Test,
        ),
        registered(map@, "true"@, "Returns 0"@, Seq::empty(), Native::True),
        registered(map@, "false"@, "Returns 1"@, Seq::empty(), Native::False),
        registered(
            map@,
            "export"@,
            "Exports a variable to the environment"@,
            seq!["name"@, "="@, "value"@],
            Native::Export,
        ),
        registered(
            map@,
            "typeof"@,
            "Returns the type of a variable"@,
            seq!["var"@],
            Native::Typeof,
        ),
        forall|k: Seq<char>|
            k != "$trim"@ && k != "test"@ && k != "true"@ && k != "false"@ && k != "export"@ && k
                != "typeof"@ ==> lookup(map@, k) is None,
{
    proof {
        lemma_names_differ();
    }
    let mut map: Vec<(String, NativeFunction)> = Vec::new();
    assert(forall|k: Seq<char>| lookup(map@, k) is None);
    let args = one_name("str");
    assert(Seq::new(args@.len(), |i: int| args@[i]@) =~= seq!["str"@]);
    register(
        &mut map,
        "$trim",
        "Removes leading and trailing whitespaces from a string",
        args,
        Native::Trim,
    );
    let args = three_names("source", "operand", "target");
    assert(Seq::new(args@.len(), |i: int| args@[i]@) =~= seq!["source"@, "operand"@, "target"@]);
    register(
        &mut map,
        "test",
        "Compares values. Supported operands are = != > < >= <=",
        args,
        Native::Test,
    );
    let args = no_names();
    assert(Seq::new(args@.len(), |i: int| args@[i]@) =~= Seq::<Seq<char>>::empty());
    register(&mut map, "true", "Returns 0", args, Native::True);
    let args = no_names();
    assert(Seq::new(args@.len(), |i: int| args@[i]@) =~= Seq::<Seq<char>>::empty());
    register(&mut map, "false", "Returns 1", args, Native::False);
    let args = three_names("name", "=", "value");
    assert(Seq::new(args@.len(), |i: int| args@[i]@) =~= seq!["name"@, "="@, "value"@]);
    register(&mut map, "export", "Exports a variable to the environment", args, Native::Export);
    let args = one_name("var");
    assert(Seq::new(args@.len(), |i: int| args@[i]@) =~= seq!["var"@]);
    register(&mut map, "typeof", "Returns the type of a variable", args, Native::Typeof);
    map
}

} // verus!
