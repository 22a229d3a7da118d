use rush::context::{find_key, names_environment, put, strip_environment, Context, Stream};
use rush::escape;
use rush::exec::{break_count, loop_items, succeeded};
use rush::natives::{
    call_native, get_native_functions, rush_export, rush_test, rush_trim, rush_typeof, trim,
    NativeError,
};
use rush::context::Native;
use rush::numbers::{parse_bounded, signed_to_string, unsigned_to_string};
use rush::vars::{is_number, variables_to_string, Float, IndexError, Variable};

fn s(text: &str) -> Variable {
    Variable::String(text.to_string())
}

#[test]
fn escape_changes_nothing() {
    assert_eq!(escape("a b\\c".to_string()), "a b\\c");
}

#[test]
fn numbers_print_in_decimal() {
    assert_eq!(unsigned_to_string(0), "0");
    assert_eq!(unsigned_to_string(7), "7");
    assert_eq!(unsigned_to_string(1234567890), "1234567890");
    assert_eq!(unsigned_to_string(u128::MAX), u128::MAX.to_string());
    assert_eq!(signed_to_string(-1), "-1");
    assert_eq!(signed_to_string(42), "42");
    assert_eq!(signed_to_string(i128::MIN), i128::MIN.to_string());
    assert_eq!(signed_to_string(i128::MAX), i128::MAX.to_string());
}

#[test]
fn numbers_are_read_within_bounds() {
    assert_eq!(parse_bounded("0", 10), Some(0));
    assert_eq!(parse_bounded("10", 10), Some(10));
    assert_eq!(parse_bounded("11", 10), None);
    assert_eq!(parse_bounded("+7", 10), Some(7));
    assert_eq!(parse_bounded("007", 10), Some(7));
    assert_eq!(parse_bounded("", 10), None);
    assert_eq!(parse_bounded("+", 10), None);
    assert_eq!(parse_bounded("-1", 10), None);
    assert_eq!(parse_bounded("1a", 10), None);
    assert_eq!(parse_bounded("18446744073709551615", u64::MAX), Some(u64::MAX));
    assert_eq!(parse_bounded("18446744073709551616", u64::MAX), None);
    assert!(is_number("18446744073709551616"));
    assert!(!is_number("1 "));
}

#[test]
fn variables_print() {
    assert_eq!(s("text").to_string(), "text");
    assert_eq!(Variable::I32(-5).to_string(), "-5");
    assert_eq!(Variable::I64(i64::MIN).to_string(), i64::MIN.to_string());
    assert_eq!(Variable::I128(9).to_string(), "9");
    assert_eq!(Variable::U32(5).to_string(), "5");
    assert_eq!(Variable::U64(u64::MAX).to_string(), u64::MAX.to_string());
    assert_eq!(Variable::U128(0).to_string(), "0");
    assert_eq!(Variable::Bool(true).to_string(), "true");
    assert_eq!(Variable::Bool(false).to_string(), "false");
    assert_eq!(Variable::HMap(vec![("k".to_string(), s("v"))]).to_string(), "[Object object]");
    assert_eq!(Variable::F32(Float { text: "1.5".to_string(), index: 1 }).to_string(), "1.5");
    assert_eq!(Variable::F64(Float { text: "-0.25".to_string(), index: 0 }).to_string(), "-0.25");
}

#[test]
fn arrays_print_their_elements() {
    assert_eq!(Variable::Array(vec![]).to_string(), "");
    assert_eq!(Variable::Array(vec![s("only")]).to_string(), "only");
    assert_eq!(Variable::Array(vec![s("a"), Variable::I32(2), s("c")]).to_string(), "a 2 c");
    assert_eq!(
        Variable::Array(vec![Variable::Array(vec![s("a"), s("b")]), s("c")]).to_string(),
        "a b c"
    );
    assert_eq!(variables_to_string(vec![s("a"), s("b")]), "a b");
    assert_eq!(variables_to_string(vec![]), "");
}

#[test]
fn arrays_are_indexed_by_numbers() {
    let a = Variable::Array(vec![s("x"), s("y"), s("z")]);
    assert_eq!(a.index(&Variable::I32(0)).unwrap().to_string(), "x");
    assert_eq!(a.index(&Variable::I64(1)).unwrap().to_string(), "y");
    assert_eq!(a.index(&Variable::I128(2)).unwrap().to_string(), "z");
    assert_eq!(a.index(&Variable::U32(2)).unwrap().to_string(), "z");
    assert_eq!(a.index(&Variable::U64(1)).unwrap().to_string(), "y");
    assert_eq!(a.index(&Variable::U128(0)).unwrap().to_string(), "x");
    assert_eq!(a.index(&s("1")).unwrap().to_string(), "y");
    assert_eq!(
        a.index(&Variable::F64(Float { text: "2.9".to_string(), index: 2 })).unwrap().to_string(),
        "z"
    );
    assert_eq!(a.index(&Variable::I32(3)).err(), Some(IndexError::OutOfBounds));
    assert_eq!(a.index(&Variable::I32(-1)).err(), Some(IndexError::OutOfBounds));
    assert_eq!(a.index(&Variable::U128(1 << 64)).err(), Some(IndexError::OutOfBounds));
    assert_eq!(a.index(&s("3")).err(), Some(IndexError::OutOfBounds));
    assert_eq!(a.index(&s("one")).err(), Some(IndexError::InvalidNumber));
    assert_eq!(a.index(&Variable::Bool(true)).err(), Some(IndexError::NonIntegerIndex));
}

#[test]
fn maps_are_indexed_by_strings() {
    let m = Variable::HMap(vec![("a".to_string(), s("1")), ("b".to_string(), s("2"))]);
    assert_eq!(m.index(&s("b")).unwrap().to_string(), "2");
    assert_eq!(m.index(&s("c")).err(), Some(IndexError::KeyNotFound));
    assert_eq!(m.index(&Variable::I32(0)).err(), Some(IndexError::NonStringKey));
    assert_eq!(s("text").index(&Variable::I32(0)).err(), Some(IndexError::Unsupported));
}

#[test]
fn tables_hold_each_name_once() {
    let mut t: Vec<(String, i32)> = Vec::new();
    put(&mut t, "a".to_string(), 1);
    put(&mut t, "b".to_string(), 2);
    put(&mut t, "a".to_string(), 3);
    assert_eq!(t.len(), 2);
    assert_eq!(find_key(&t, "a"), Some(0));
    assert_eq!(t[0].1, 3);
    assert_eq!(find_key(&t, "c"), None);
}

#[test]
fn environment_names() {
    assert!(names_environment("env::HOME"));
    assert!(!names_environment("HOME"));
    assert!(!names_environment("env:"));
    assert_eq!(strip_environment("env::HOME"), "HOME");
    assert_eq!(strip_environment("env::a::env::b"), "a::b");
    assert_eq!(strip_environment("plain"), "plain");
}

#[test]
fn inner_scopes_shadow_outer_ones() {
    let mut ctx = Context::new();
    assert_eq!(ctx.scopes.len(), 1);
    ctx.set_var("x".to_string(), s("outer"));
    ctx.add_scope();
    assert_eq!(ctx.get_var("x").unwrap().to_string(), "outer");
    ctx.set_var("x".to_string(), s("inner"));
    assert_eq!(ctx.get_var("x").unwrap().to_string(), "inner");
    assert!(ctx.pop_scope().is_some());
    assert_eq!(ctx.get_var("x").unwrap().to_string(), "outer");
    assert!(ctx.get_var("y").is_none());
}

#[test]
fn environment_variables_are_mirrored() {
    let mut ctx = Context::new();
    ctx.set_var("env::N".to_string(), Variable::I32(4));
    assert_eq!(ctx.exports.len(), 1);
    assert_eq!(ctx.exports[0].0, "N");
    assert!(matches!(&ctx.exports[0].1, Variable::String(t) if t == "4"));
    assert_eq!(ctx.get_var("env::N").unwrap().to_string(), "4");
    assert!(ctx.get_var("N").is_none());
}

#[test]
fn last_exit_code() {
    let mut ctx = Context::new();
    assert_eq!(ctx.get_last_exit_code(), None);
    ctx.set_var("?".to_string(), Variable::I32(3));
    assert_eq!(ctx.get_last_exit_code(), Some(3));
    ctx.set_var("?".to_string(), s("3"));
    assert_eq!(ctx.get_last_exit_code(), None);
}

#[test]
fn nearest_override_wins() {
    let mut ctx = Context::new();
    ctx.scopes[0].stdout_override = Some(7);
    ctx.scopes[0].stdin_override = Some(5);
    ctx.add_scope();
    ctx.scopes[1].stdout_override = Some(9);
    let o = ctx.get_overrides();
    assert_eq!(o.stdout, Some(9));
    assert_eq!(o.stdin, Some(5));
    assert_eq!(o.stderr, None);
    let _ = Stream::Stdin;
}

#[test]
fn functions_are_found_by_name() {
    let mut ctx = Context::new();
    ctx.native_func = get_native_functions();
    assert!(matches!(ctx.get_func("$trim"), Some(rush::context::AnyFunction::Native(_))));
    assert!(matches!(ctx.get_func("test"), Some(rush::context::AnyFunction::Native(_))));
    assert!(ctx.get_func("trim").is_none());
}

#[test]
fn registry_holds_the_builtins() {
    let map = get_native_functions();
    let names: Vec<&str> = map.iter().map(|(k, _)| k.as_str()).collect();
    assert_eq!(names, vec!["$trim", "test", "true", "false", "export", "typeof"]);
    assert_eq!(map[1].1.args, vec!["source", "operand", "target"]);
    assert_eq!(map[0].1.name, "$trim");
}

#[test]
fn trim_cuts_white_space() {
    assert_eq!(trim("  a b \t\n"), "a b");
    assert_eq!(trim("   "), "");
    assert_eq!(trim("\u{3000}x\u{a0}"), "x");
    assert_eq!(rush_trim(vec![s(" a"), s("b ")]).unwrap().to_string(), "a b");
}

#[test]
fn test_compares_texts() {
    let t = |a: &str, op: &str, b: &str| rush_test(vec![s(a), s(op), s(b)]).map(|v| v.to_string());
    assert_eq!(t("1", "=", "1"), Ok("0".to_string()));
    assert_eq!(t("1", "=", "2"), Ok("1".to_string()));
    assert_eq!(t("1", "!=", "2"), Ok("0".to_string()));
    assert_eq!(t("1", "!=", "1"), Ok("1".to_string()));
    assert_eq!(t("1", ">", "1"), Err(NativeError::UnsupportedOperand));
    assert_eq!(rush_test(vec![s("1")]).err(), Some(NativeError::Arity));
    assert_eq!(
        rush_test(vec![s("1"), Variable::I32(0), s("1")]).err(),
        Some(NativeError::UnsupportedOperand)
    );
    assert!(matches!(
        rush_test(vec![Variable::I32(1), s("="), s("1")]),
        Ok(Variable::I32(0))
    ));
}

#[test]
fn typeof_names_the_kind() {
    let k = |v: Variable| rush_typeof(vec![v]).unwrap().to_string();
    assert_eq!(k(s("")), "string");
    assert_eq!(k(Variable::I32(0)), "i32");
    assert_eq!(k(Variable::U128(0)), "u128");
    assert_eq!(k(Variable::Bool(false)), "bool");
    assert_eq!(k(Variable::Array(vec![])), "array");
    assert_eq!(k(Variable::HMap(vec![])), "HMap");
    assert_eq!(k(Variable::F32(Float { text: "0".to_string(), index: 0 })), "f32");
    assert_eq!(rush_typeof(vec![]).err(), Some(NativeError::Arity));
}

#[test]
fn true_and_false() {
    let mut ctx = Context::new();
    assert!(matches!(call_native(Native::True, &mut ctx, vec![]), Ok(Variable::I32(0))));
    assert!(matches!(call_native(Native::False, &mut ctx, vec![]), Ok(Variable::I32(1))));
}

#[test]
fn export_mirrors_variables() {
    let mut ctx = Context::new();
    assert!(matches!(rush_export(&mut ctx, vec![s("x")]), Ok(Variable::I32(1))));
    ctx.set_var("x".to_string(), s("1"));
    assert!(matches!(rush_export(&mut ctx, vec![s("x")]), Ok(Variable::I32(0))));
    assert_eq!(ctx.exports[0].0, "x");
    assert!(matches!(rush_export(&mut ctx, vec![s("y"), s("="), s("2")]), Ok(Variable::I32(0))));
    assert_eq!(ctx.get_var("y").unwrap().to_string(), "2");
    assert_eq!(ctx.get_var("env::y").unwrap().to_string(), "2");
    assert_eq!(rush_export(&mut ctx, vec![s("a"), s("b")]).err(), Some(NativeError::Arity));
}

#[test]
fn error_messages() {
    assert_eq!(IndexError::OutOfBounds.message(), "Index out of bounds");
    assert_eq!(IndexError::KeyNotFound.message(), "Key not found");
    assert_eq!(NativeError::UnsupportedOperand.message(), "Unsupported operand");
    assert_eq!(rush::exec::ExecError::TooManyBreaks.message(), "Too many break statements");
    assert_eq!(rush::exec::ExecError::Host("x".to_string()).message(), "x");
}

#[test]
fn break_counts() {
    assert_eq!(break_count(""), Some(1));
    assert_eq!(break_count("0"), Some(1));
    assert_eq!(break_count("1"), Some(1));
    assert_eq!(break_count("65535"), Some(65535));
    assert_eq!(break_count("65536"), None);
    assert_eq!(break_count("two"), None);
    assert!(succeeded(Some(0)));
    assert!(!succeeded(Some(1)));
    assert!(!succeeded(None));
    assert_eq!(loop_items(s("ab")).unwrap().len(), 2);
    assert_eq!(loop_items(Variable::Array(vec![s("x")])).unwrap().len(), 1);
    assert!(loop_items(Variable::Bool(true)).is_none());
}

#[test]
fn copies_are_equal() {
    let v = Variable::HMap(vec![("k".to_string(), Variable::Array(vec![s("a"), Variable::I32(1)]))]);
    assert_eq!(format!("{:?}", v.duplicate()), format!("{:?}", v));
}

#[test]
fn builtins_are_registered_under_their_names() {
    let map = get_native_functions();
    let expected: Vec<(&str, &str, Vec<&str>, Native)> = vec![
        (
            "$trim",
            "Removes leading and trailing whitespaces from a string",
            vec!["str"],
            Native::Trim,
        ),
        (
            "test",
            "Compares values. Supported operands are = != > < >= <=",
            vec!["source", "operand", "target"],
            Native::Test,
        ),
        ("true", "Returns 0", vec![], Native::True),
        ("false", "Returns 1", vec![], Native::False),
        ("export", "Exports a variable to the environment", vec!["name", "=", "value"], Native::Export),
        ("typeof", "Returns the type of a variable", vec!["var"], Native::Typeof),
    ];
    assert_eq!(map.len(), expected.len());
    for (key, description, args, func) in expected {
        let found: Vec<_> = map.iter().filter(|(k, _)| k == key).collect();
        assert_eq!(found.len(), 1, "{}", key);
        let f = &found[0].1;
        assert_eq!(f.name, key);
        assert_eq!(f.description, description);
        assert_eq!(f.args, args);
        assert_eq!(f.func, func);
    }
}

#[test]
fn white_space_is_the_unicode_property() {
    let mut c = 0u32;
    while c <= 0x10FFFF {
        if let Some(ch) = char::from_u32(c) {
            assert_eq!(rush::text::is_white_space(ch), ch.is_whitespace(), "U+{:04X}", c);
        }
        c += 1;
    }
}
