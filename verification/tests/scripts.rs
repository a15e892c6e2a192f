use mini_lua::eval::eval_chunk;
use mini_lua::parser::parse;
use mini_lua::state::{LuaError, LuaState, DEFAULT_FUEL};
use mini_lua::value::{LuaFn, Value};

fn run(src: &str) -> (LuaState, Result<Value, LuaError>) {
    let chunk = parse(src).expect("script must parse");
    let mut l = LuaState::new(256);
    l.register_global_fn("range", LuaFn::Range);
    l.register_global_fn("strlen", LuaFn::StrLen);
    let r = eval_chunk(&mut l, &chunk, DEFAULT_FUEL);
    (l, r)
}

fn global_num(l: &LuaState, name: &str) -> i64 {
    match l.get_global(name) {
        Some(Value::Number(n)) => n,
        other => panic!("global {:?} expected a number, got {:?}", name, other),
    }
}

#[test]
fn assignment_writes_a_global() {
    let (l, r) = run("x = 1 + 2");
    r.expect("script must run");
    assert_eq!(global_num(&l, "x"), 3);
}

#[test]
fn declared_function_runs_with_its_parameter() {
    let (l, r) = run("function dbl(a) return a + a end y = dbl(21)");
    r.expect("script must run");
    assert_eq!(global_num(&l, "y"), 42);
}

#[test]
fn local_variable_inside_a_function() {
    let (l, r) = run("function h(a) local b = 10 return a + b end y = h(5)");
    r.expect("script must run");
    assert_eq!(global_num(&l, "y"), 15);
}

#[test]
fn assignment_targets_the_resolving_binding() {
    // b is a local: assignment mutates the slot, not a global
    let (l, r) = run("function m(a) local b = 1 b = 7 return b end y = m(0)");
    r.expect("script must run");
    assert_eq!(global_num(&l, "y"), 7);
    assert!(l.get_global("b").is_none());
}

#[test]
fn function_can_write_globals() {
    let (l, r) = run("function k(a) g1 = 77 return 0 end y = k(0)");
    r.expect("script must run");
    assert_eq!(global_num(&l, "g1"), 77);
}

#[test]
fn native_called_from_script() {
    let (l, r) = run("y = strlen(\"hello\")");
    r.expect("script must run");
    assert_eq!(global_num(&l, "y"), 5);
}

#[test]
fn if_chain_first_truthy_condition_wins() {
    let (l, r) = run(
        "function f(a) if false then return 1 elseif true then return 2 elseif true then return 3 else return 4 end return 9 end y = f(0)",
    );
    r.expect("script must run");
    assert_eq!(global_num(&l, "y"), 2, "exactly the first matching branch runs");
}

#[test]
fn if_chain_else_branch() {
    let (l, r) = run("function f(a) if false then return 1 else return 4 end return 9 end y = f(0)");
    r.expect("script must run");
    assert_eq!(global_num(&l, "y"), 4);
}

#[test]
fn if_chain_no_match_yields_nil() {
    let (l, r) = run("function f(a) if false then return 1 end return 9 end y = f(0)");
    r.expect("script must run");
    // the if-chain itself evaluated to nil, so execution went on to return 9
    assert_eq!(global_num(&l, "y"), 9);
}

#[test]
fn if_condition_truthiness_is_not_boolean_only() {
    let (l, r) = run("function f(a) if 0 then return 1 else return 2 end return 9 end y = f(0)");
    r.expect("script must run");
    assert_eq!(global_num(&l, "y"), 1, "any value but nil and false is truthy");
}

#[test]
fn generic_for_counts_iterations() {
    // range(n) iterates 1, 2, ..., n: the iterator yields nil on call n + 1,
    // so the body runs exactly n times
    let (l, r) = run("function s(n) r = 0 for i in range(n) do r = r + i end return r end a = s(4)");
    r.expect("script must run");
    assert_eq!(global_num(&l, "a"), 10);
}

#[test]
fn generic_for_zero_iterations() {
    let (l, r) = run("function s(n) r = 0 for i in range(n) do r = r + i end return r end a = s(0)");
    r.expect("script must run");
    assert_eq!(global_num(&l, "r"), 0);
    assert_eq!(global_num(&l, "a"), 0);
}

#[test]
fn for_in_body_local_does_not_leak_or_alias_a_global() {
    let (l, r) = run(
        "x = 5 function f(n) for i in range(n) do local x = 99 end return x end y = f(3)",
    );
    r.expect("script must run");
    assert_eq!(global_num(&l, "y"), 5, "after the loop, x resolves to the global again");
    assert_eq!(global_num(&l, "x"), 5, "the body local never touched the global");
}

#[test]
fn for_in_body_local_is_gone_after_the_loop() {
    let (_, r) = run("function g(n) for i in range(n) do local z = 1 end return z end w = g(2)");
    assert!(r.is_err(), "z is out of scope after the loop and resolves nowhere");
}

#[test]
fn loop_variable_is_fresh_each_iteration() {
    let (l, r) = run(
        "function s(n) last = 0 for i in range(n) do last = i end return last end a = s(3)",
    );
    r.expect("script must run");
    assert_eq!(global_num(&l, "a"), 3);
}

#[test]
fn stack_is_balanced_after_a_whole_script() {
    let (l, r) = run("function dbl(a) return a + a end y = dbl(dbl(2)) z = dbl(y)");
    r.expect("script must run");
    assert_eq!(l.reg.top, 0, "every call restored the registry to its prior depth");
    assert_eq!(global_num(&l, "z"), 16);
}

#[test]
fn unsupported_statements_fail_loudly() {
    let (_, r) = run("break");
    assert!(r.is_err());
    let (_, r) = run("do end");
    assert!(r.is_err());
    let (_, r) = run("for i = 1, 3 do end");
    assert!(r.is_err(), "the numeric for parses but is not implemented");
}

#[test]
fn local_at_top_level_is_an_error() {
    let (_, r) = run("local x = 1");
    assert!(r.is_err(), "locals need an active call frame");
}

#[test]
fn type_error_inside_a_function_propagates() {
    let (_, r) = run("function f(a) return a + \"x\" end y = f(1)");
    assert!(r.is_err());
}

#[test]
fn chunk_value_is_the_trailing_return() {
    let (_, r) = run("x = 1 return x + 1");
    assert!(matches!(r, Ok(Value::Number(2))));
}

#[test]
fn separators_do_nothing() {
    let (l, r) = run("; x = 1 ; ; y = 2 ;");
    r.expect("script must run");
    assert_eq!(global_num(&l, "x"), 1);
    assert_eq!(global_num(&l, "y"), 2);
}

#[test]
fn recursion_through_the_global_table() {
    let (l, r) = run(
        "function fact(n) if n <= 1 then return 1 end return n * fact(n - 1) end y = fact(5)",
    );
    r.expect("script must run");
    assert_eq!(global_num(&l, "y"), 120);
}

#[test]
fn local_declaration_shadows_the_parameter() {
    let (l, r) = run("function f(a) local a = 2 return a end y = f(9)");
    r.expect("script must run");
    assert_eq!(global_num(&l, "y"), 2);
}

#[test]
fn if_branch_locals_stay_in_the_frame() {
    // only the generic for rolls its scope back; an if branch does not,
    // so a local declared there is still visible after the branch
    let (l, r) = run("function f(a) if true then local b = 5 end return b end y = f(0)");
    r.expect("script must run");
    assert_eq!(global_num(&l, "y"), 5);
}
