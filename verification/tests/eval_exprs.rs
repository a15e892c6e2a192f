use mini_lua::eval::eval_exp;
use mini_lua::parser::exp;
use mini_lua::state::{LuaState, DEFAULT_FUEL};
use mini_lua::value::Value;

fn eval_src(src: &str) -> Result<Value, mini_lua::state::LuaError> {
    let (rule, pos) = exp(src, 0).expect("expression must parse");
    assert_eq!(pos, src.chars().count(), "the whole input must be consumed");
    let mut l = LuaState::new(64);
    eval_exp(&mut l, &rule, DEFAULT_FUEL)
}

fn eval_num(src: &str) -> i64 {
    match eval_src(src) {
        Ok(Value::Number(n)) => n,
        other => panic!("{:?} expected a number, got {:?}", src, other),
    }
}

fn eval_bool(src: &str) -> bool {
    match eval_src(src) {
        Ok(Value::Bool(b)) => b,
        other => panic!("{:?} expected a boolean, got {:?}", src, other),
    }
}

#[test]
fn literal_nil_round_trips() {
    assert!(matches!(eval_src("nil"), Ok(Value::Nil)));
}

#[test]
fn literal_bools_round_trip() {
    assert!(eval_bool("true"));
    assert!(!eval_bool("false"));
}

#[test]
fn literal_integer_round_trips() {
    assert_eq!(eval_num("42"), 42);
    assert_eq!(eval_num("0"), 0);
    assert_eq!(eval_num("2147483648"), 2147483648);
    assert_eq!(eval_num("9223372036854775807"), i64::MAX);
}

#[test]
fn literal_string_round_trips() {
    match eval_src("\"hello\"") {
        Ok(Value::LuaString(s)) => assert_eq!(s, "hello"),
        other => panic!("expected a string, got {:?}", other),
    }
    match eval_src("\"a\\nb\"") {
        Ok(Value::LuaString(s)) => assert_eq!(s, "a\nb"),
        other => panic!("expected a string, got {:?}", other),
    }
}

#[test]
fn subtraction_is_left_associative() {
    assert_eq!(eval_num("1 - 2 - 3"), -4);
}

#[test]
fn multiplication_binds_tighter_than_addition() {
    assert_eq!(eval_num("2 + 3 * 4"), 14);
}

#[test]
fn arithmetic_values() {
    assert_eq!(eval_num("2 + 3"), 5);
    assert_eq!(eval_num("2 * 3"), 6);
    assert_eq!(eval_num("7 / 2"), 3);
    assert_eq!(eval_num("-5"), -5);
}

#[test]
fn division_by_zero_is_an_error() {
    assert!(eval_src("1 / 0").is_err());
}

#[test]
fn arithmetic_overflow_is_an_error() {
    // (2^30)^2 fits; multiplying twice more leaves the 64-bit range
    assert!(eval_src("1073741824 * 1073741824 * 1073741824 * 1073741824").is_err());
}

#[test]
fn comparisons() {
    assert!(eval_bool("1 < 2"));
    assert!(!eval_bool("2 < 1"));
    assert!(eval_bool("2 <= 2"));
    assert!(!eval_bool("3 <= 2"));
    assert!(eval_bool("3 >= 3"));
    assert!(!eval_bool("3 >= 4"));
    assert!(eval_bool("2 > 1"));
    assert!(eval_bool("1 == 1"));
    assert!(!eval_bool("1 == 2"));
    assert!(eval_bool("1 ~= 2"));
    assert!(!eval_bool("1 ~= 1"));
}

#[test]
fn logical_operators_on_bools() {
    assert!(!eval_bool("true and false"));
    assert!(eval_bool("true and true"));
    assert!(eval_bool("true or false"));
    assert!(!eval_bool("false or false"));
}

#[test]
fn string_equality() {
    assert!(eval_bool("\"ab\" == \"ab\""));
    assert!(!eval_bool("\"ab\" == \"cd\""));
    assert!(eval_bool("\"ab\" ~= \"cd\""));
}

#[test]
fn unary_not_uses_truthiness() {
    assert!(eval_bool("not nil"));
    assert!(eval_bool("not false"));
    assert!(!eval_bool("not true"));
    assert!(!eval_bool("not 0"), "every number is truthy");
}

#[test]
fn unary_length_of_string() {
    assert_eq!(eval_num("#\"abc\""), 3);
    assert_eq!(eval_num("#\"\""), 0);
}

#[test]
fn logical_operators_do_not_short_circuit() {
    // and/or are ordinary strict operators at the AST level: the right
    // operand is evaluated even when the left already decides, so its
    // error surfaces
    assert!(eval_src("false and 1 / 0").is_err());
    assert!(eval_src("true or 1 / 0").is_err());
}

#[test]
fn type_error_string_plus_number() {
    assert!(eval_src("\"a\" + 1").is_err());
}

#[test]
fn type_error_equality_across_kinds() {
    assert!(eval_src("1 == \"a\"").is_err());
    assert!(eval_src("true == 1").is_err());
}

#[test]
fn type_error_unsupported_operator_for_kind() {
    assert!(eval_src("true + false").is_err(), "booleans support only and/or");
    assert!(eval_src("\"a\" < \"b\"").is_err(), "strings support only equality");
    assert!(eval_src("-\"a\"").is_err(), "negation needs a number");
}

#[test]
fn parenthesized_expression() {
    assert_eq!(eval_num("(2 + 3) * 4"), 20);
}

#[test]
fn table_constructor_appends_in_order() {
    let (rule, _) = exp("{1, 2, 3}", 0).expect("table must parse");
    let mut l = LuaState::new(64);
    let v = eval_exp(&mut l, &rule, DEFAULT_FUEL).expect("table must evaluate");
    let id = match v {
        Value::Table(id) => id,
        other => panic!("expected a table, got {:?}", other),
    };
    assert_eq!(l.table_len(id), Some(3));
    assert!(matches!(l.table_get(id, 0), Some(Value::Number(1))));
    assert!(matches!(l.table_get(id, 1), Some(Value::Number(2))));
    assert!(matches!(l.table_get(id, 2), Some(Value::Number(3))));
}

#[test]
fn keyed_table_field_fails_loudly() {
    let (rule, _) = exp("{x = 1}", 0).expect("keyed table must still parse");
    let mut l = LuaState::new(64);
    assert!(eval_exp(&mut l, &rule, DEFAULT_FUEL).is_err());
}

#[test]
fn bracket_keyed_table_field_fails_loudly() {
    // no whitespace before the equals sign: no token there skips it
    let (rule, _) = exp("{[1]= 2}", 0).expect("bracket-keyed table must still parse");
    let mut l = LuaState::new(64);
    assert!(eval_exp(&mut l, &rule, DEFAULT_FUEL).is_err());
}

#[test]
fn unresolved_variable_is_a_name_error() {
    assert!(eval_src("nosuch").is_err());
}
