use mini_lua::state::{LuaState, Registry};
use mini_lua::value::{LuaFn, Value};

#[test]
fn registry_push_pop_last() {
    let mut reg = Registry { array: Vec::new(), top: 0, max_size: 8 };
    assert_eq!(reg.push(Value::Number(1)), 1);
    assert_eq!(reg.push(Value::Number(2)), 2);
    assert!(matches!(reg.last(), Some(Value::Number(2))));
    assert!(matches!(reg.pop(), Some(Value::Number(2))));
    assert!(matches!(reg.pop(), Some(Value::Number(1))));
    assert!(reg.pop().is_none());
    assert!(reg.last().is_none());
    assert_eq!(reg.top, 0);
}

#[test]
fn registry_ensure_pop_reports_empty() {
    let mut reg = Registry { array: Vec::new(), top: 0, max_size: 8 };
    assert!(reg.ensure_pop().is_err());
    reg.push(Value::Bool(true));
    assert!(matches!(reg.ensure_pop(), Ok(Value::Bool(true))));
}

#[test]
fn registry_positional_reads() {
    let mut reg = Registry { array: Vec::new(), top: 0, max_size: 8 };
    reg.push(Value::Number(10));
    reg.push(Value::LuaString("hi".to_string()));
    // position 1 is the value below the cursor
    assert_eq!(reg.to_string(1).unwrap(), "hi");
    assert_eq!(reg.to_int(2).unwrap(), 10);
    assert!(reg.to_int(1).is_err(), "a string is not an integer");
    assert!(reg.to_string(2).is_err(), "a number is not a string");
}

#[test]
fn state_new_is_empty() {
    let l = LuaState::new(32);
    assert_eq!(l.reg.top, 0);
    assert_eq!(l.reg.max_size, 32);
    assert!(l.frame_stack.is_empty());
    assert!(l.g.global.is_empty());
    assert!(l.current_frame().is_none());
}

#[test]
fn globals_assign_overwrite_lookup() {
    let mut l = LuaState::new(32);
    assert!(l.get_global("x").is_none());
    l.assign_global("x", Value::Number(1));
    assert!(matches!(l.get_global("x"), Some(Value::Number(1))));
    l.assign_global("x", Value::Number(2));
    assert!(matches!(l.get_global("x"), Some(Value::Number(2))));
    assert_eq!(l.g.global.len(), 1, "reassignment replaces the binding");
    l.assign_global("y", Value::Bool(true));
    assert!(matches!(l.get_global("x"), Some(Value::Number(2))));
    assert!(matches!(l.get_global("y"), Some(Value::Bool(true))));
}

#[test]
fn to_return_is_false_without_a_frame() {
    let mut l = LuaState::new(32);
    assert!(!l.to_return());
}

#[test]
fn native_call_balances_the_stack() {
    let mut l = LuaState::new(32);
    l.register_global_fn("strlen", LuaFn::StrLen);
    let before = l.reg.top;
    let r = l.global_funcall1("strlen", Value::LuaString("hello".to_string()));
    assert!(matches!(r, Ok(Value::Number(5))));
    assert_eq!(l.reg.top, before, "a successful call has net zero stack effect");
}

#[test]
fn native_call_type_error() {
    let mut l = LuaState::new(32);
    l.register_global_fn("strlen", LuaFn::StrLen);
    assert!(l.global_funcall1("strlen", Value::Number(1)).is_err());
}

#[test]
fn call_of_missing_function_fails() {
    let mut l = LuaState::new(32);
    assert!(l.global_funcall1("nosuch", Value::Nil).is_err());
}

#[test]
fn call_of_non_function_fails() {
    let mut l = LuaState::new(32);
    l.assign_global("x", Value::Number(1));
    assert!(l.global_funcall1("x", Value::Nil).is_err());
}

#[test]
fn call_on_full_registry_reports_overflow() {
    let mut l = LuaState::new(0);
    l.register_global_fn("strlen", LuaFn::StrLen);
    assert!(l.global_funcall1("strlen", Value::LuaString("a".to_string())).is_err());
}

#[test]
fn funcall_multi_returns_the_iterator_triple() {
    let mut l = LuaState::new(32);
    l.register_global_fn("range", LuaFn::Range);
    let func = l.get_global("range").unwrap();
    let before = l.reg.top;
    let vals = l.funcall(func, vec![Value::Number(7)]).expect("range must succeed");
    assert_eq!(vals.len(), 3);
    assert!(matches!(vals[0], Value::Function(_)));
    assert!(matches!(vals[1], Value::Number(7)));
    assert!(matches!(vals[2], Value::Number(0)));
    assert_eq!(l.reg.top, before, "a successful call has net zero stack effect");
}

#[test]
fn range_next_steps_then_stops() {
    let mut l = LuaState::new(32);
    let next = Value::Function(mini_lua::value::LuaFunction::Native(LuaFn::RangeNext));
    let vals = l
        .funcall(next.dup(), vec![Value::Number(2), Value::Number(0)])
        .expect("step must succeed");
    assert!(matches!(vals[0], Value::Number(1)));
    let vals = l
        .funcall(next.dup(), vec![Value::Number(2), Value::Number(2)])
        .expect("step must succeed");
    assert!(matches!(vals[0], Value::Nil), "the iterator yields nil once exhausted");
}

#[test]
fn table_store_handles() {
    let mut l = LuaState::new(32);
    let a = l.newtable();
    let b = l.newtable();
    assert_ne!(a, b);
    l.table_append(a, Value::Number(1)).unwrap();
    l.table_append(a, Value::Number(2)).unwrap();
    l.table_append(b, Value::Bool(true)).unwrap();
    assert_eq!(l.table_len(a), Some(2));
    assert_eq!(l.table_len(b), Some(1));
    assert!(matches!(l.table_get(a, 1), Some(Value::Number(2))));
    assert!(l.table_append(99, Value::Nil).is_err(), "an unknown handle is an error");
}

#[test]
fn value_dup_preserves_table_identity() {
    let mut l = LuaState::new(32);
    let id = l.newtable();
    let v1 = Value::Table(id);
    let v2 = v1.dup();
    // both handles alias the same backing store
    l.table_append(id, Value::Number(9)).unwrap();
    match (v1, v2) {
        (Value::Table(a), Value::Table(b)) => {
            assert_eq!(a, b);
            assert!(matches!(l.table_get(a, 0), Some(Value::Number(9))));
            assert!(matches!(l.table_get(b, 0), Some(Value::Number(9))));
        }
        _ => panic!("expected table handles"),
    }
}

#[test]
fn error_carries_the_message() {
    let l = LuaState::new(1);
    let e = l.error("boom");
    assert_eq!(e.message, "boom");
}
