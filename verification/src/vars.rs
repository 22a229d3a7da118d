//! What the interpreter holds while it runs: variables, scopes and the
//! context.
use vstd::prelude::*;
use vstd::string::*;
use crate::numbers::{decimal, parse_bounded, parse_unsigned, signed_to_string, unsigned_to_string};
use crate::text::{chars_of, push_char, same_text};

verus! {

/// A floating-point number as the interpreter sees it: how it prints, and
/// which element of an array it selects.
#[derive(Debug, Clone)]
pub struct Float {
    pub text: String,
    pub index: usize,
}

/// A value at run time.
#[derive(Debug)]
pub enum Variable {
    String(String),
    I32(i32),
    I64(i64),
    I128(i128),
    U32(u32),
    U64(u64),
    U128(u128),
    F32(Float),
    F64(Float),
    /// Keys with their values; no key occurs twice.
    HMap(Vec<(String, Variable)>),
    Array(Vec<Variable>),
    Bool(bool),
}

/// `Variable` as a mathematical value.
pub enum SpecVariable {
    String(Seq<char>),
    I32(i32),
    I64(i64),
    I128(i128),
    U32(u32),
    U64(u64),
    U128(u128),
    F32(Seq<char>, usize),
    F64(Seq<char>, usize),
    HMap(Seq<(Seq<char>, SpecVariable)>),
    Array(Seq<SpecVariable>),
    Bool(bool),
}

/// The mathematical value of `v`.
pub open spec fn variable_view(v: Variable) -> SpecVariable
    decreases v,
{
    match v {
        Variable::String(s) => SpecVariable::String(s@),
        Variable::I32(n) => SpecVariable::I32(n),
        Variable::I64(n) => SpecVariable::I64(n),
        Variable::I128(n) => SpecVariable::I128(n),
        Variable::U32(n) => SpecVariable::U32(n),
        Variable::U64(n) => SpecVariable::U64(n),
        Variable::U128(n) => SpecVariable::U128(n),
        Variable::F32(f) => SpecVariable::F32(f.text@, f.index),
        Variable::F64(f) => SpecVariable::F64(f.text@, f.index),
        Variable::HMap(entries) => SpecVariable::HMap(
            Seq::new(
                entries.len() as nat,
                |i: int|
                    if 0 <= i < entries.len() {
                        (entries[i].0@, variable_view(entries[i].1))
                    } else {
                        (Seq::empty(), SpecVariable::Bool(false))
                    },
            ),
        ),
        Variable::Array(items) => SpecVariable::Array(
            Seq::new(
                items.len() as nat,
                |i: int|
                    if 0 <= i < items.len() {
                        variable_view(items[i])
                    } else {
                        SpecVariable::Bool(false)
                    },
            ),
        ),
        Variable::Bool(b) => SpecVariable::Bool(b),
    }
}

impl View for Variable {
    type V = SpecVariable;

    open spec fn view(&self) -> SpecVariable {
        variable_view(*self)
    }
}

/// The mathematical values of a list of variables.
pub open spec fn variables_view(items: Seq<Variable>) -> Seq<SpecVariable> {
    Seq::new(items.len(), |i: int| variable_view(items[i]))
}

/// The texts with one space between each two.
pub open spec fn join_with_space(parts: Seq<Seq<char>>) -> Seq<char>
    decreases parts.len(),
{
    if parts.len() == 0 {
        Seq::empty()
    } else if parts.len() == 1 {
        parts[0]
    } else {
        join_with_space(parts.drop_last()) + seq![' '] + parts.last()
    }
}

/// How a variable prints. A number prints in decimal, a truth value as
/// `true` or `false`, a map as a fixed word, and an array as the texts of
/// its elements with one space between each two: so an array of one element
/// prints as that element does.
pub open spec fn spec_to_string(v: SpecVariable) -> Seq<char>
    decreases v,
{
    match v {
        SpecVariable::String(s) => s,
        SpecVariable::I32(n) => decimal(n as int),
        SpecVariable::I64(n) => decimal(n as int),
        SpecVariable::I128(n) => decimal(n as int),
        SpecVariable::U32(n) => decimal(n as int),
        SpecVariable::U64(n) => decimal(n as int),
        SpecVariable::U128(n) => decimal(n as int),
        SpecVariable::F32(text, _) => text,
        SpecVariable::F64(text, _) => text,
        SpecVariable::HMap(_) => seq!['[', 'O', 'b', 'j', 'e', 'c', 't', ' ', 'o', 'b', 'j', 'e', 'c', 't', ']'],
        SpecVariable::Array(items) => join_with_space(texts(items)),
        SpecVariable::Bool(b) => if b {
            seq!['t', 'r', 'u', 'e']
        } else {
            seq!['f', 'a', 'l', 's', 'e']
        },
    }
}

/// The texts of the variables.
pub open spec fn texts(items: Seq<SpecVariable>) -> Seq<Seq<char>>
    decreases items,
{
    Seq::new(
        items.len(),
        |i: int|
            if 0 <= i < items.len() {
                spec_to_string(items[i])
            } else {
                Seq::empty()
            },
    )
}

/// Why a variable could not be indexed.
#[derive(Debug, Clone, Copy, PartialEq, Eq, Structural)]
pub enum IndexError {
    /// The map holds no such key.
    KeyNotFound,
    /// A map was indexed with something that is no string.
    NonStringKey,
    /// The array has no element at that position.
    OutOfBounds,
    /// An array was indexed with something that is no number.
    NonIntegerIndex,
    /// An array was indexed with a string that is no unsigned number.
    InvalidNumber,
    /// The variable is neither a map nor an array.
    Unsupported,
}

/// What the user is told of the error.
pub open spec fn index_error_text(e: IndexError) -> Seq<char> {
    match e {
        IndexError::KeyNotFound => "Key not found"@,
        IndexError::NonStringKey => "Cannot index with non-string"@,
        IndexError::OutOfBounds => "Index out of bounds"@,
        IndexError::NonIntegerIndex => "Cannot index with non-integer"@,
        IndexError::InvalidNumber => "invalid digit found in string"@,
        IndexError::Unsupported => "Cannot index unsupported types"@,
    }
}

impl IndexError {
    /// The message shown to the user.
    pub fn message(&self) -> (m: String)
        ensures
            m@ == index_error_text(*self),
    {
        match self {
            IndexError::KeyNotFound => String::from_str("Key not found"),
            IndexError::NonStringKey => String::from_str("Cannot index with non-string"),
            IndexError::OutOfBounds => String::from_str("Index out of bounds"),
            IndexError::NonIntegerIndex => String::from_str("Cannot index with non-integer"),
            IndexError::InvalidNumber => String::from_str("invalid digit found in string"),
            IndexError::Unsupported => String::from_str("Cannot index unsupported types"),
        }
    }
}

/// The value under `key`, where the entries hold it.
pub open spec fn entry_of(entries: Seq<(Seq<char>, SpecVariable)>, key: Seq<char>) -> Option<
    SpecVariable,
>
    decreases entries.len(),
{
    if entries.len() == 0 {
        None
    } else if entries[0].0 == key {
        Some(entries[0].1)
    } else {
        entry_of(entries.drop_first(), key)
    }
}

/// The position that an index stands for.
pub open spec fn index_position(index: SpecVariable) -> Result<int, IndexError> {
    match index {
        SpecVariable::I32(n) => Ok(n as int),
        SpecVariable::I64(n) => Ok(n as int),
        SpecVariable::I128(n) => Ok(n as int),
        SpecVariable::U32(n) => Ok(n as int),
        SpecVariable::U64(n) => Ok(n as int),
        SpecVariable::U128(n) => Ok(n as int),
        SpecVariable::F32(_, at) => Ok(at as int),
        SpecVariable::F64(_, at) => Ok(at as int),
        SpecVariable::String(s) => match parse_unsigned(s) {
            Some(n) => Ok(n as int),
            None => Err(IndexError::InvalidNumber),
        },
        _ => Err(IndexError::NonIntegerIndex),
    }
}

/// The element of `v` that `index` selects. A map is indexed by a string,
/// an array by a number or by a string that holds an unsigned number;
/// nothing else can be indexed.
pub open spec fn spec_index(v: SpecVariable, index: SpecVariable) -> Result<
    SpecVariable,
    IndexError,
> {
    match v {
        SpecVariable::HMap(entries) => match index {
            SpecVariable::String(key) => match entry_of(entries, key) {
                Some(found) => Ok(found),
                None => Err(IndexError::KeyNotFound),
            },
            _ => Err(IndexError::NonStringKey),
        },
        SpecVariable::Array(items) => match index_position(index) {
            Err(e) => Err(e),
            Ok(at) => if 0 <= at < items.len() {
                Ok(items[at])
            } else {
                Err(IndexError::OutOfBounds)
            },
        },
        _ => Err(IndexError::Unsupported),
    }
}

/// Whether the text is an unsigned number.
pub fn is_number(text: &str) -> (r: bool)
    ensures
        r == parse_unsigned(text@) is Some,
{
    let chars = chars_of(text);
    let start: usize = if chars.len() > 0 && chars[0] == '+' {
        1
    } else {
        0
    };
    if start == chars.len() {
        return false;
    }
    let ghost body = chars@.subrange(start as int, chars.len() as int);
    assert(body == if chars@.len() > 0 && chars@[0] == '+' {
        chars@.drop_first()
    } else {
        chars@
    });
    let mut i: usize = start;
    assert(chars@.subrange(start as int, chars.len() as int) == body);
    while i < chars.len()
        invariant
            start <= i <= chars.len(),
            start < chars.len(),
            chars@ == text@,
            body == chars@.subrange(start as int, chars.len() as int),
            parse_unsigned(text@) == crate::numbers::read_digits(body, 0),
            crate::numbers::read_digits(body, 0) is Some == crate::numbers::read_digits(
                chars@.subrange(i as int, chars.len() as int),
                0,
            ) is Some,
        decreases chars.len() - i,
    {
        let c = chars[i];
        let ghost rest = chars@.subrange(i as int, chars.len() as int);
        assert(rest[0] == c);
        assert(rest.drop_first() == chars@.subrange(i + 1, chars.len() as int));
        if !('0' <= c && c <= '9') {
            return false;
        }
        proof {
            lemma_digits_any_start(
                rest.drop_first(),
                0 * 10 + crate::numbers::digit_value(c)->0,
                0,
            );
        }
        i += 1;
    }
    assert(chars@.subrange(i as int, chars.len() as int).len() == 0);
    true
}

/// Whether a run of digits is a number does not depend on what was read
/// before it.
proof fn lemma_digits_any_start(s: Seq<char>, a: nat, b: nat)
    ensures
        crate::numbers::read_digits(s, a) is Some == crate::numbers::read_digits(s, b) is Some,
    decreases s.len(),
{
    if s.len() > 0 {
        match crate::numbers::digit_value(s[0]) {
            None => {},
            Some(d) => {
                lemma_digits_any_start(s.drop_first(), a * 10 + d, b * 10 + d);
            },
        }
    }
}

impl Variable {
    /// The text of the variable.
    pub fn to_string(&self) -> (s: String)
        ensures
            s@ == spec_to_string(self@),
        decreases self,
    {
        match self {
            Variable::String(var) => var.clone(),
            Variable::I32(num) => signed_to_string(*num as i128),
            Variable::I64(num) => signed_to_string(*num as i128),
            Variable::I128(num) => signed_to_string(*num),
            Variable::U32(num) => unsigned_to_string(*num as u128),
            Variable::U64(num) => unsigned_to_string(*num as u128),
            Variable::U128(num) => unsigned_to_string(*num),
            Variable::F32(num) => num.text.clone(),
            Variable::F64(num) => num.text.clone(),
            Variable::Bool(val) => {
                proof {
                    reveal_strlit("true");
                    reveal_strlit("false");
                }
                if *val {
                    let s = String::from_str("true");
                    assert(s@ =~= seq!['t', 'r', 'u', 'e']);
                    s
                } else {
                    let s = String::from_str("false");
                    assert(s@ =~= seq!['f', 'a', 'l', 's', 'e']);
                    s
                }
            },
            Variable::HMap(_map) => {
                proof {
                    reveal_strlit("[Object object]");
                }
                let s = String::from_str("[Object object]");
                assert(s@ =~= seq![
                    '[',
                    'O',
                    'b',
                    'j',
                    'e',
                    'c',
                    't',
                    ' ',
                    'o',
                    'b',
                    'j',
                    'e',
                    'c',
                    't',
                    ']',
                ]);
                s
            },
            Variable::Array(vars) => {
                let mut out = String::new();
                let mut i: usize = 0;
                let ghost items = self@->Array_0;
                let ghost all = texts(items);
                assert(items.len() == vars.len());
                assert forall|k: int| 0 <= k < all.len() implies all[k] == spec_to_string(
                    vars[k]@,
                ) by {
                    assert(items[k] == vars[k]@);
                }
                assert(all.take(0) =~= Seq::<Seq<char>>::empty());
                while i < vars.len()
                    invariant
                        i <= vars.len(),
                        self matches Variable::Array(inner) && inner == vars,
                        items == self@->Array_0,
                        items.len() == vars.len(),
                        all.len() == vars.len(),
                        forall|k: int| 0 <= k < all.len() ==> all[k] == spec_to_string(vars[k]@),
                        out@ == join_with_space(all.take(i as int)),
                    decreases vars.len() - i,
                {
                    let part = vars[i].to_string();
                    if i > 0 {
                        push_char(&mut out, ' ');
                    }
                    out.append(part.as_str());
                    proof {
                        let before = all.take(i as int);
                        let now = all.take(i + 1);
                        assert(now.drop_last() == before);
                        assert(now.last() == all[i as int]);
                        if i > 0 {
                            assert(out@ =~= join_with_space(before) + seq![' '] + all[i as int]);
                        } else {
                            assert(out@ =~= all[i as int]);
                        }
                    }
                    i += 1;
                }
                assert(all.take(vars.len() as int) == all);
                out
            },
        }
    }

    /// The element that `index` selects.
    pub fn index(&self, index: &Variable) -> (res: Result<&Variable, IndexError>)
        ensures
            match res {
                Ok(found) => spec_index(self@, index@) == Ok::<SpecVariable, IndexError>(found@),
                Err(e) => spec_index(self@, index@) == Err::<SpecVariable, IndexError>(e),
            },
    {
        match self {
            Variable::HMap(map) => match index {
                Variable::String(key) => {
                    let ghost entries = self@->HMap_0;
                    let mut i: usize = 0;
                    assert(entries.subrange(0, entries.len() as int) =~= entries);
                    while i < map.len()
                        invariant
                            i <= map.len(),
                            self matches Variable::HMap(inner) && inner == map,
                            index matches Variable::String(k) && k == key,
                            entries == self@->HMap_0,
                            entries.len() == map.len(),
                            forall|k: int|
                                0 <= k < map.len() ==> #[trigger] entries[k] == (
                                    map[k].0@,
                                    map[k].1@,
                                ),
                            entry_of(entries, key@) == entry_of(
                                entries.subrange(i as int, entries.len() as int),
                                key@,
                            ),
                        decreases map.len() - i,
                    {
                        let ghost rest = entries.subrange(i as int, entries.len() as int);
                        assert(rest[0] == entries[i as int]);
                        assert(rest.drop_first() == entries.subrange(i + 1, entries.len() as int));
                        assert(entries[i as int] == (map[i as int].0@, map[i as int].1@));
                        if same_text(map[i].0.as_str(), key.as_str()) {
                            assert(entry_of(rest, key@) == Some(map[i as int].1@));
                            assert(index@ == SpecVariable::String(key@));
                            return Ok(&map[i].1);
                        }
                        i += 1;
                    }
                    Err(IndexError::KeyNotFound)
                },
                _ => Err(IndexError::NonStringKey),
            },
            Variable::Array(arr) => {
                let ghost items = self@->Array_0;
                assert(items.len() == arr.len());
                assert(forall|k: int| 0 <= k < arr.len() ==> items[k] == arr[k]@);
                let len = arr.len();
                let at: usize = match index {
                    Variable::I32(idx) => {
                        if *idx < 0 || *idx as u128 >= len as u128 {
                            return Err(IndexError::OutOfBounds);
                        }
                        *idx as usize
                    },
                    Variable::I64(idx) => {
                        if *idx < 0 || *idx as u128 >= len as u128 {
                            return Err(IndexError::OutOfBounds);
                        }
                        *idx as usize
                    },
                    Variable::I128(idx) => {
                        if *idx < 0 || *idx as u128 >= len as u128 {
                            return Err(IndexError::OutOfBounds);
                        }
                        *idx as usize
                    },
                    Variable::U32(idx) => {
                        if *idx as u128 >= len as u128 {
                            return Err(IndexError::OutOfBounds);
                        }
                        *idx as usize
                    },
                    Variable::U64(idx) => {
                        if *idx as u128 >= len as u128 {
                            return Err(IndexError::OutOfBounds);
                        }
                        *idx as usize
                    },
                    Variable::U128(idx) => {
                        if *idx >= len as u128 {
                            return Err(IndexError::OutOfBounds);
                        }
                        *idx as usize
                    },
                    Variable::F32(idx) => {
                        if idx.index >= len {
                            return Err(IndexError::OutOfBounds);
                        }
                        idx.index
                    },
                    Variable::F64(idx) => {
                        if idx.index >= len {
                            return Err(IndexError::OutOfBounds);
                        }
                        idx.index
                    },
                    Variable::String(idx) => {
                        if !is_number(idx.as_str()) {
                            return Err(IndexError::InvalidNumber);
                        }
                        if len == 0 {
                            return Err(IndexError::OutOfBounds);
                        }
                        match parse_bounded(idx.as_str(), (len - 1) as u64) {
                            Some(n) => n as usize,
                            None => {
                                return Err(IndexError::OutOfBounds);
                            },
                        }
                    },
                    _ => {
                        return Err(IndexError::NonIntegerIndex);
                    },
                };
                Ok(&arr[at])
            },
            _ => Err(IndexError::Unsupported),
        }
    }

    /// A copy of the variable.
    pub fn duplicate(&self) -> (v: Variable)
        ensures
            v@ == self@,
        decreases self,
    {
        match self {
            Variable::String(s) => Variable::String(s.clone()),
            Variable::I32(n) => Variable::I32(*n),
            Variable::I64(n) => Variable::I64(*n),
            Variable::I128(n) => Variable::I128(*n),
            Variable::U32(n) => Variable::U32(*n),
            Variable::U64(n) => Variable::U64(*n),
            Variable::U128(n) => Variable::U128(*n),
            Variable::F32(f) => Variable::F32(Float { text: f.text.clone(), index: f.index }),
            Variable::F64(f) => Variable::F64(Float { text: f.text.clone(), index: f.index }),
            Variable::Bool(b) => Variable::Bool(*b),
            Variable::HMap(entries) => {
                let mut out: Vec<(String, Variable)> = Vec::new();
                let mut i: usize = 0;
                while i < entries.len()
                    invariant
                        i <= entries.len(),
                        self matches Variable::HMap(inner) && inner == entries,
                        out.len() == i,
                        forall|k: int|
                            0 <= k < i ==> #[trigger] out[k].0@ == entries[k].0@ && out[k].1@
                                == entries[k].1@,
                    decreases entries.len() - i,
                {
                    out.push((entries[i].0.clone(), entries[i].1.duplicate()));
                    i += 1;
                }
                let v = Variable::HMap(out);
                assert(v@->HMap_0 =~= self@->HMap_0);
                v
            },
            Variable::Array(items) => {
                let mut out: Vec<Variable> = Vec::new();
                let mut i: usize = 0;
                while i < items.len()
                    invariant
                        i <= items.len(),
                        self matches Variable::Array(inner) && inner == items,
                        out.len() == i,
                        forall|k: int| 0 <= k < i ==> #[trigger] out[k]@ == items[k]@,
                    decreases items.len() - i,
                {
                    out.push(items[i].duplicate());
                    i += 1;
                }
                let ghost copied = out@;
                let v = Variable::Array(out);
                assert forall|k: int| 0 <= k < items.len() implies #[trigger] v@->Array_0[k]
                    == self@->Array_0[k] by {
                    assert(copied[k]@ == items[k]@);
                }
                assert(v@->Array_0 =~= self@->Array_0);
                v
            },
        }
    }

    /// The array of the given items.
    pub fn array(items: Vec<Variable>) -> (v: Variable)
        ensures
            v@ == SpecVariable::Array(variables_view(items@)),
    {
        let ghost inner = items@;
        let v = Variable::Array(items);
        assert(v@->Array_0 =~= variables_view(inner));
        v
    }
}

/// The texts of the variables with one space between each two.
pub fn variables_to_string(vars: Vec<Variable>) -> (s: String)
    ensures
        s@ == join_with_space(texts(variables_view(vars@))),
{
    let mut out = String::new();
    let mut i: usize = 0;
    let ghost all = texts(variables_view(vars@));
    assert(all.take(0) =~= Seq::<Seq<char>>::empty());
    while i < vars.len()
        invariant
            i <= vars.len(),
            all == texts(variables_view(vars@)),
            out@ == join_with_space(all.take(i as int)),
        decreases vars.len() - i,
    {
        let part = vars[i].to_string();
        if i > 0 {
            push_char(&mut out, ' ');
        }
        out.append(part.as_str());
        proof {
            let before = all.take(i as int);
            let now = all.take(i + 1);
            assert(now.drop_last() == before);
            assert(now.last() == all[i as int]);
            if i > 0 {
                assert(out@ =~= join_with_space(before) + seq![' '] + all[i as int]);
            } else {
                assert(out@ =~= all[i as int]);
            }
        }
        i += 1;
    }
    assert(all.take(vars.len() as int) == all);
    out
}

} // verus!
