//! The tree-walking evaluator.
//!
//! Each function evaluates one kind of syntax-tree node against the
//! virtual-machine state; a node of any other kind is a shape error,
//! reported as an ordinary error value, never a panic. Every function
//! takes a fuel budget that bounds the number of evaluation steps, so
//! that evaluation provably terminates; a guest program that runs past
//! the budget gets a budget-exhausted error.
//!
//! Successful expression evaluation is stack-neutral: the registry and
//! the frame stack come back exactly as they were. Successful statement
//! evaluation keeps every enclosing frame untouched and only ever extends
//! the innermost frame with fresh locals above the old registry cursor.

use vstd::prelude::*;

use crate::parser::{Rule, StatKind};
use crate::state::{LuaError, LuaState};
use crate::value::Value;
use std::rc::Rc;

verus! {

/// What a successful expression step leaves behind: the registry and the
/// frame stack exactly as before (the global table and the table store
/// may change, and tables are never dropped).
pub open spec fn exp_st(pre: LuaState, post: LuaState) -> bool {
    &&& post.reg.array@ == pre.reg.array@
    &&& post.reg.top == pre.reg.top
    &&& post.reg.max_size == pre.reg.max_size
    &&& post.frame_stack@ == pre.frame_stack@
    &&& post.tables@.len() >= pre.tables@.len()
}

/// Whether some binding of the innermost frame points at registry slot
/// `t`: these are the only slots below the cursor a statement may write.
pub open spec fn slot_bound(st: LuaState, t: int) -> bool {
    st.frame_stack@.len() > 0 && exists|j: int|
        0 <= j < st.cur_env().len() && (#[trigger] st.cur_env()[j]).1 == t
}

/// What a successful statement step leaves behind: the same number of
/// frames, every enclosing frame untouched, the innermost frame's
/// bindings preserved as a prefix, extended only with locals that point
/// at or above the old registry cursor, and every registry slot below the
/// old cursor untouched unless a binding of the innermost frame points at
/// it.
pub open spec fn stat_st(pre: LuaState, post: LuaState) -> bool {
    &&& post.reg.max_size == pre.reg.max_size
    &&& post.reg.top >= pre.reg.top
    &&& post.frame_stack@.len() == pre.frame_stack@.len()
    &&& post.tables@.len() >= pre.tables@.len()
    &&& forall|t: int|
        0 <= t < pre.reg.top && !slot_bound(pre, t) ==> #[trigger] post.reg.array@[t]
            == pre.reg.array@[t]
    &&& pre.frame_stack@.len() > 0 ==> {
        &&& post.frame_stack@.drop_last() == pre.frame_stack@.drop_last()
        &&& post.cur_env().len() >= pre.cur_env().len()
        &&& post.cur_env().take(pre.cur_env().len() as int) == pre.cur_env()
        &&& forall|k: int|
            pre.cur_env().len() <= k < post.cur_env().len() ==> #[trigger] post.cur_env()[k].1
                >= pre.reg.top
    }
}

/// Whether a field node carries a symbol key (the unsupported keyed
/// form of a table constructor).
pub open spec fn has_symbol_key(f: Rule) -> bool {
    f matches Rule::Field(key, _) && *key is Symbol
}

/// The outcome of evaluating an expression node, as far as it is decided
/// by the node alone: a value (a constant expression), a guaranteed error
/// (a wrong shape, a type error, overflow, division by zero, or an erring
/// subterm — which strict evaluation must reach even under `and`/`or`, so
/// an erring right operand dooms the operation whatever the left one is),
/// or unknown (a state-dependent subterm decides).
pub enum ConstEval {
    Val(Value),
    Fail,
    Unknown,
}

/// Evaluate an expression node at the specification level, as far as the
/// node alone decides it. This is the specification the evaluator's
/// expression functions are held to: a `Val` result may never be missed
/// (short of fuel the call errs, but never returns a different value),
/// and a `Fail` node must err.
pub open spec fn const_eval(r: Rule) -> ConstEval
    decreases r,
{
    match r {
        Rule::Exp(e) => if *e is Nil || *e is Bool || *e is Numeral || *e is LiteralString
            || *e is BinOp || *e is UnOp {
            const_eval(*e)
        } else if *e is Prefixexp || *e is TableConst {
            ConstEval::Unknown
        } else {
            ConstEval::Fail
        },
        Rule::Nil => ConstEval::Val(Value::Nil),
        Rule::Bool(b) => ConstEval::Val(Value::Bool(b)),
        Rule::Numeral(n) => ConstEval::Val(Value::Number(n)),
        Rule::LiteralString(s) => ConstEval::Val(Value::LuaString(s)),
        Rule::BinOp(c, lhs, rhs) => if (*lhs is Exp || *lhs is BinOp || *lhs is UnOp) && (
        *rhs is Exp || *rhs is BinOp || *rhs is UnOp) {
            match (const_eval(*lhs), const_eval(*rhs)) {
                (ConstEval::Fail, _) => ConstEval::Fail,
                (_, ConstEval::Fail) => ConstEval::Fail,
                (ConstEval::Val(a), ConstEval::Val(b)) => match crate::state::spec_op_value(
                    c,
                    a,
                    b,
                ) {
                    Some(v) => ConstEval::Val(v),
                    None => ConstEval::Fail,
                },
                _ => ConstEval::Unknown,
            }
        } else {
            ConstEval::Fail
        },
        Rule::UnOp(c, x) => if *x is Exp || *x is BinOp || *x is UnOp {
            match const_eval(*x) {
                ConstEval::Val(a) => match crate::state::spec_unop(c, a) {
                    Some(v) => ConstEval::Val(v),
                    None => ConstEval::Fail,
                },
                ConstEval::Fail => ConstEval::Fail,
                ConstEval::Unknown => ConstEval::Unknown,
            }
        } else {
            ConstEval::Fail
        },
        _ => ConstEval::Fail,
    }
}

/// The value of a constant expression, where the node alone decides one.
pub open spec fn const_value(r: Rule) -> Option<Value> {
    match const_eval(r) {
        ConstEval::Val(v) => Some(v),
        _ => None,
    }
}

/// The number of expression nodes; a fuel budget of at least this size
/// cannot run out while evaluating the expression.
pub open spec fn exp_size(r: Rule) -> nat
    decreases r,
{
    match r {
        Rule::Exp(e) => 1 + exp_size(*e),
        Rule::BinOp(_, lhs, rhs) => 1 + exp_size(*lhs) + exp_size(*rhs),
        Rule::UnOp(_, x) => 1 + exp_size(*x),
        _ => 1,
    }
}

/// A stack-neutral step is in particular a valid statement step.
pub proof fn lemma_exp_st_stat_st(pre: LuaState, post: LuaState)
    requires
        exp_st(pre, post),
    ensures
        stat_st(pre, post),
{
    assert(forall|t: int|
        0 <= t < pre.reg.top ==> #[trigger] post.reg.array@[t] == pre.reg.array@[t]);
    if pre.frame_stack@.len() > 0 {
        assert(post.cur_env().take(pre.cur_env().len() as int) =~= pre.cur_env());
    }
}

/// A state is a valid statement step from itself.
pub proof fn lemma_stat_st_refl(s: LuaState)
    ensures
        stat_st(s, s),
{
    if s.frame_stack@.len() > 0 {
        assert(s.cur_env().take(s.cur_env().len() as int) =~= s.cur_env());
    }
}

/// Statement steps compose.
pub proof fn lemma_stat_st_trans(s1: LuaState, s2: LuaState, s3: LuaState)
    requires
        stat_st(s1, s2),
        stat_st(s2, s3),
    ensures
        stat_st(s1, s3),
{
    assert forall|t: int|
        0 <= t < s1.reg.top && !slot_bound(s1, t) implies #[trigger] s3.reg.array@[t]
        == s1.reg.array@[t] by {
        assert(s2.reg.array@[t] == s1.reg.array@[t]);
        assert(!slot_bound(s2, t)) by {
            if slot_bound(s2, t) {
                let j = choose|j: int|
                    0 <= j < s2.cur_env().len() && (#[trigger] s2.cur_env()[j]).1 == t;
                if j < s1.cur_env().len() {
                    assert(s2.cur_env().take(s1.cur_env().len() as int) == s1.cur_env());
                    assert(s2.cur_env()[j] == s1.cur_env()[j]);
                } else {
                    assert(s2.cur_env()[j].1 >= s1.reg.top);
                }
            }
        }
    }
    if s1.frame_stack@.len() > 0 {
        assert(s3.cur_env().take(s1.cur_env().len() as int) =~= s2.cur_env().take(
            s1.cur_env().len() as int,
        ));
        assert forall|k: int|
            s1.cur_env().len() <= k < s3.cur_env().len() implies #[trigger] s3.cur_env()[k].1
            >= s1.reg.top by {
            if k < s2.cur_env().len() {
                assert(s3.cur_env().take(s2.cur_env().len() as int) == s2.cur_env());
                assert(s3.cur_env()[k] == s2.cur_env()[k]);
            }
        }
    }
}

/// A successful association-list lookup points at one of its entries.
proof fn lemma_assoc_value_bound(env: Seq<(String, usize)>, name: Seq<char>)
    requires
        crate::state::assoc_lookup(env, name) is Some,
    ensures
        exists|j: int|
            0 <= j < env.len() && (#[trigger] env[j]).1 == crate::state::assoc_lookup(
                env,
                name,
            ).unwrap(),
    decreases env.len(),
{
    if env.len() > 0 {
        if env.last().0@ == name {
            assert(env[env.len() - 1].1 == crate::state::assoc_lookup(env, name).unwrap());
        } else {
            lemma_assoc_value_bound(env.drop_last(), name);
            let j = choose|j: int|
                0 <= j < env.drop_last().len() && (#[trigger] env.drop_last()[j]).1
                    == crate::state::assoc_lookup(env.drop_last(), name).unwrap();
            assert(env[j] == env.drop_last()[j]);
        }
    }
}

/// The slot a local name resolves to is bound in the innermost frame.
proof fn lemma_local_slot_is_bound(st: LuaState, name: Seq<char>)
    requires
        st.local_slot(name) is Some,
    ensures
        slot_bound(st, st.local_slot(name).unwrap() as int),
{
    lemma_assoc_value_bound(st.cur_env(), name);
}

/// Evaluate an expression node: literals map directly to values, the
/// composite forms dispatch on the wrapped variant.
pub fn eval_exp(l: &mut LuaState, exp: &Rule, fuel: u64) -> (r: Result<Value, LuaError>)
    requires
        old(l).wf(),
    ensures
        final(l).wf(),
        final(l).reg.max_size == old(l).reg.max_size,
        r is Ok ==> exp_st(*old(l), *final(l)),
        !(*exp is Exp) ==> r is Err,
        *exp matches Rule::Exp(e) ==> (*e == Rule::Nil ==> (r matches Ok(v) && v == Value::Nil)),
        *exp matches Rule::Exp(e) ==> (*e matches Rule::Bool(b) ==> (r matches Ok(v) && v
            == Value::Bool(b))),
        *exp matches Rule::Exp(e) ==> (*e matches Rule::Numeral(n) ==> (r matches Ok(v) && v
            == Value::Number(n))),
        *exp matches Rule::Exp(e) ==> (*e matches Rule::LiteralString(s) ==> (r matches Ok(v) && v
            == Value::LuaString(s))),
        const_value(*exp) matches Some(v) ==> ((*exp is Exp && fuel >= exp_size(*exp)) ==> (r
            matches Ok(rv) && rv == v && *final(l) == *old(l))),
        const_eval(*exp) matches ConstEval::Val(v) ==> (r matches Ok(rv) ==> rv == v),
        const_eval(*exp) == ConstEval::Fail ==> r is Err,
        *exp matches Rule::Exp(e) ==> (*e matches Rule::Prefixexp(x) ==> (fuel > 1 ==>
            funcall_native_spec(*x, *old(l), r, (fuel - 2) as u64))),
    decreases fuel, 0int,
{
    proof {
        reveal_with_fuel(const_eval, 2);
        reveal_with_fuel(exp_size, 2);
    }
    match exp {
        Rule::Exp(e) => match &**e {
            Rule::Nil => Ok(Value::Nil),
            Rule::Bool(b) => Ok(Value::Bool(*b)),
            Rule::Numeral(n) => Ok(Value::Number(*n)),
            Rule::LiteralString(s) => Ok(Value::LuaString(s.clone())),
            Rule::Prefixexp(_) => {
                if fuel == 0 {
                    return Err(l.error("evaluation budget exhausted"));
                }
                eval_prefixexp(l, &**e, fuel - 1)
            },
            Rule::TableConst(_) => {
                if fuel == 0 {
                    return Err(l.error("evaluation budget exhausted"));
                }
                eval_tableconst(l, &**e, fuel - 1)
            },
            Rule::BinOp(_, _, _) => {
                if fuel == 0 {
                    return Err(l.error("evaluation budget exhausted"));
                }
                eval_binop(l, &**e, fuel - 1)
            },
            Rule::UnOp(_, _) => {
                if fuel == 0 {
                    return Err(l.error("evaluation budget exhausted"));
                }
                eval_unop(l, &**e, fuel - 1)
            },
            _ => Err(l.error("unsupported exp rule")),
        },
        _ => Err(l.error("invalid rule passed: exp expected")),
    }
}

/// Evaluate a binary operation: both operands are evaluated fully, in
/// order (no short-circuiting, also for the logical operators), then the
/// same-kind operator table decides.
pub fn eval_binop(l: &mut LuaState, binop: &Rule, fuel: u64) -> (r: Result<Value, LuaError>)
    requires
        old(l).wf(),
    ensures
        final(l).wf(),
        final(l).reg.max_size == old(l).reg.max_size,
        r is Ok ==> exp_st(*old(l), *final(l)),
        !(*binop is BinOp) ==> r is Err,
        const_value(*binop) matches Some(v) ==> ((*binop is BinOp && fuel >= exp_size(*binop))
            ==> (r matches Ok(rv) && rv == v && *final(l) == *old(l))),
        const_eval(*binop) matches ConstEval::Val(v) ==> (r matches Ok(rv) ==> rv == v),
        const_eval(*binop) == ConstEval::Fail ==> r is Err,
    decreases fuel, 0int,
{
    proof {
        reveal_with_fuel(const_eval, 2);
        reveal_with_fuel(exp_size, 2);
    }
    match binop {
        Rule::BinOp(c, lhs, rhs) => {
            if fuel == 0 {
                return Err(l.error("evaluation budget exhausted"));
            }
            let lvalue = match &**lhs {
                Rule::Exp(_) => eval_exp(l, &**lhs, fuel - 1)?,
                Rule::BinOp(_, _, _) => eval_binop(l, &**lhs, fuel - 1)?,
                Rule::UnOp(_, _) => eval_unop(l, &**lhs, fuel - 1)?,
                _ => {
                    return Err(l.error("lhs invalid"));
                },
            };
            let rvalue = match &**rhs {
                Rule::Exp(_) => eval_exp(l, &**rhs, fuel - 1)?,
                Rule::BinOp(_, _, _) => eval_binop(l, &**rhs, fuel - 1)?,
                Rule::UnOp(_, _) => eval_unop(l, &**rhs, fuel - 1)?,
                _ => {
                    return Err(l.error("rhs invalid"));
                },
            };
            l.process_op(c, lvalue, rvalue)
        },
        _ => Err(l.error("binop invalid")),
    }
}

/// Evaluate a unary operation: the operand is evaluated fully, then the
/// unary operator table decides.
pub fn eval_unop(l: &mut LuaState, unop: &Rule, fuel: u64) -> (r: Result<Value, LuaError>)
    requires
        old(l).wf(),
    ensures
        final(l).wf(),
        final(l).reg.max_size == old(l).reg.max_size,
        r is Ok ==> exp_st(*old(l), *final(l)),
        !(*unop is UnOp) ==> r is Err,
        const_value(*unop) matches Some(v) ==> ((*unop is UnOp && fuel >= exp_size(*unop)) ==> (
        r matches Ok(rv) && rv == v && *final(l) == *old(l))),
        const_eval(*unop) matches ConstEval::Val(v) ==> (r matches Ok(rv) ==> rv == v),
        const_eval(*unop) == ConstEval::Fail ==> r is Err,
    decreases fuel, 0int,
{
    proof {
        reveal_with_fuel(const_eval, 2);
        reveal_with_fuel(exp_size, 2);
    }
    match unop {
        Rule::UnOp(c, exp) => {
            if fuel == 0 {
                return Err(l.error("evaluation budget exhausted"));
            }
            let value = match &**exp {
                Rule::Exp(_) => eval_exp(l, &**exp, fuel - 1)?,
                Rule::BinOp(_, _, _) => eval_binop(l, &**exp, fuel - 1)?,
                Rule::UnOp(_, _) => eval_unop(l, &**exp, fuel - 1)?,
                _ => {
                    return Err(l.error("unop exp invalid"));
                },
            };
            l.process_unop(c, value)
        },
        _ => Err(l.error("unop invalid")),
    }
}

/// Resolve a variable reference: the innermost frame's locals first, the
/// global table second; a miss on both is a name error.
pub fn eval_get_var(l: &mut LuaState, exp: &Rule) -> (r: Result<Value, LuaError>)
    requires
        old(l).wf(),
    ensures
        *final(l) == *old(l),
        !(*exp matches Rule::Var(v) && *v is Symbol) ==> r is Err,
        *exp matches Rule::Var(v) ==> (*v matches Rule::Symbol(nm) ==> match r {
            Ok(value) => (old(l).local_slot(nm@) matches Some(i) && value == old(l).reg.array@[i as int]) || (old(l).local_slot(nm@) is None && old(l).global_of(nm@)
                == Some(value)),
            Err(_) => old(l).local_slot(nm@) is None && old(l).global_of(nm@) is None,
        }),
{
    let name = match exp {
        Rule::Var(v) => match &**v {
            Rule::Symbol(name) => name,
            _ => {
                return Err(l.error("invalid rule passed: symbol expected"));
            },
        },
        _ => {
            return Err(l.error("invalid rule passed: var expected"));
        },
    };
    match l.get_local(name.as_str()) {
        Some(value) => Ok(value),
        None => match l.get_global(name.as_str()) {
            Some(value) => Ok(value),
            None => Err(l.error("Variable not found")),
        },
    }
}

/// Evaluate a prefix expression: a function call, a variable reference,
/// or a nested parenthesized expression.
pub fn eval_prefixexp(l: &mut LuaState, pexp: &Rule, fuel: u64) -> (r: Result<Value, LuaError>)
    requires
        old(l).wf(),
    ensures
        final(l).wf(),
        final(l).reg.max_size == old(l).reg.max_size,
        r is Ok ==> exp_st(*old(l), *final(l)),
        !(*pexp is Prefixexp) ==> r is Err,
        *pexp matches Rule::Prefixexp(x) ==> (const_value(*x) matches Some(v) ==> ((*x is Exp
            && fuel > exp_size(*x)) ==> (r matches Ok(rv) && rv == v && *final(l) == *old(l)))),
        *pexp matches Rule::Prefixexp(x) ==> ((*x is Exp && const_eval(*x) == ConstEval::Fail
            && fuel > 0) ==> r is Err),
        *pexp matches Rule::Prefixexp(x) ==> (fuel > 0 ==> funcall_native_spec(
            *x,
            *old(l),
            r,
            (fuel - 1) as u64,
        )),
        *pexp matches Rule::Prefixexp(x) ==> (*x matches Rule::Var(vsym) ==> (*vsym matches
            Rule::Symbol(nm) ==> (*final(l) == *old(l) && match r {
            Ok(value) => (old(l).local_slot(nm@) matches Some(idx) && value == old(l).reg.array@[idx as int]) || (old(l).local_slot(nm@) is None && old(l).global_of(nm@)
                == Some(value)),
            Err(_) => old(l).local_slot(nm@) is None && old(l).global_of(nm@) is None,
        }))),
    decreases fuel, 0int,
{
    match pexp {
        Rule::Prefixexp(value) => match &**value {
            Rule::FunctionCall(_, _) => {
                if fuel == 0 {
                    return Err(l.error("evaluation budget exhausted"));
                }
                eval_funcall(l, &**value, fuel - 1)
            },
            Rule::Var(_) => eval_get_var(l, &**value),
            Rule::Exp(_) => {
                if fuel == 0 {
                    return Err(l.error("evaluation budget exhausted"));
                }
                eval_exp(l, &**value, fuel - 1)
            },
            _ => Err(l.error("unsupported prefixexp rule")),
        },
        _ => Err(l.error("invalid rule passed: prefixexp expected")),
    }
}

/// Evaluate a table constructor: a fresh shared table is created and the
/// un-keyed fields are appended to its array part in source order. Keyed
/// fields are not supported and fail loudly, never silently evaluate
/// wrong.
#[verifier::loop_isolation(false)]
pub fn eval_tableconst(l: &mut LuaState, exp: &Rule, fuel: u64) -> (r: Result<Value, LuaError>)
    requires
        old(l).wf(),
    ensures
        final(l).wf(),
        final(l).reg.max_size == old(l).reg.max_size,
        r is Ok ==> exp_st(*old(l), *final(l)),
        r is Ok ==> (r matches Ok(v) && v == Value::Table(old(l).tables@.len() as usize) && final(l).tables@.len() > old(l).tables@.len()),
        !(*exp matches Rule::TableConst(list) && *list is FieldList) ==> r is Err,
        *exp matches Rule::TableConst(list) ==> (*list matches Rule::FieldList(fs) ==> ((exists|
            k: int,
        |
            0 <= k < fs.len() && has_symbol_key(#[trigger] *fs[k])) ==> r is Err)),
        *exp matches Rule::TableConst(list) ==> (*list matches Rule::FieldList(fs) ==> ((forall|
            k: int,
        |
            0 <= k < fs@.len() ==> field_const(*(#[trigger] fs@[k])) is Some && fuel > field_size(
                *fs@[k],
            )) ==> (r matches Ok(v) && v == Value::Table(old(l).tables@.len() as usize) && final(l).table_view(old(l).tables@.len() as int) == Seq::new(
            fs@.len(),
            |k: int| field_const(*fs@[k]).unwrap(),
        )))),
    decreases fuel, 0int,
{
    let fields = match exp {
        Rule::TableConst(list) => match &**list {
            Rule::FieldList(fields) => fields,
            _ => {
                return Err(l.error("invalid rule passed: field list expected"));
            },
        },
        _ => {
            return Err(l.error("invalid rule passed: table constructor expected"));
        },
    };
    let id = l.newtable();
    let n = fields.len();
    let mut i: usize = 0;
    while i < n
        invariant
            old(l).wf(),
            l.wf(),
            i <= n,
            n == fields@.len(),
            exp_st(*old(l), *l),
            id == old(l).tables@.len(),
            l.tables@.len() > id,
            forall|k: int|
                0 <= k < i ==> !((#[trigger] *fields@[k]) matches Rule::Field(key, _)
                    && *key is Symbol),
            (forall|k: int|
                0 <= k < fields@.len() ==> field_const(*(#[trigger] fields@[k])) is Some && fuel
                    > field_size(*fields@[k])) ==> l.table_view(id as int) == Seq::new(
                i as nat,
                |k: int| field_const(*fields@[k]).unwrap(),
            ),
        decreases n - i,
    {
        match &*fields[i] {
            Rule::Field(key, value) => match &**key {
                Rule::Symbol(_) => {
                    return Err(l.error("keyed table fields are not supported"));
                },
                Rule::Nop => {
                    if fuel == 0 {
                        return Err(l.error("evaluation budget exhausted"));
                    }
                    let item = eval_exp(l, &**value, fuel - 1)?;
                    let ghost pre_app = *l;
                    match l.table_append(id, item) {
                        Ok(_) => {},
                        Err(e) => {
                            return Err(e);
                        },
                    }
                    proof {
                        if forall|k: int|
                            0 <= k < fields@.len() ==> field_const(*(#[trigger] fields@[k]))
                                is Some && fuel > field_size(*fields@[k]) {
                            assert(field_const(*fields@[i as int]) is Some);
                            assert(l.table_view(id as int) =~= Seq::new(
                                (i + 1) as nat,
                                |k: int| field_const(*fields@[k]).unwrap(),
                            ));
                        }
                    }
                },
                _ => {
                    return Err(l.error("unsupported rule for field key"));
                },
            },
            _ => {
                return Err(l.error("invalid rule passed: field expected"));
            },
        }
        i = i + 1;
    }
    proof {
        assert(Seq::new(n as nat, |k: int| field_const(*fields@[k]).unwrap()) =~= Seq::new(
            fields@.len(),
            |k: int| field_const(*fields@[k]).unwrap(),
        ));
    }
    Ok(Value::Table(id))
}

/// The value the single argument slot of a call carries when it is
/// statically known: `nil` for an empty argument list, the constant's
/// value for a constant argument expression.
pub open spec fn arg_const(a: Rule) -> Option<Value> {
    match a {
        Rule::Nop => Some(Value::Nil),
        Rule::Exp(_) => const_value(a),
        _ => None,
    }
}

/// A fuel budget strictly above this evaluates the argument slot.
pub open spec fn arg_fuel(a: Rule) -> nat {
    match a {
        Rule::Exp(_) => 1 + exp_size(a),
        _ => 1,
    }
}

/// What a call of a global native function with a statically known
/// argument must do: it is owed success, returning exactly the value the
/// native's one-argument calling convention produces.
pub open spec fn funcall_native_spec(
    fc: Rule,
    pre: LuaState,
    r: Result<Value, LuaError>,
    fuel: u64,
) -> bool {
    match fc {
        Rule::FunctionCall(name, args) => match (*name, *args) {
            (Rule::Symbol(nm), Rule::Args(a)) => match arg_const(*a) {
                Some(av) => match pre.global_of(nm@) {
                    Some(gv) => match gv {
                        Value::Function(gf) => match gf {
                            crate::value::LuaFunction::Native(nf) => (
                            crate::state::native_call1_ok(nf, pre, av) && fuel > arg_fuel(*a))
                                ==> (r matches Ok(rv) && rv == crate::state::native_call1_result(
                                nf,
                                pre,
                                av,
                            )),
                            _ => true,
                        },
                        _ => true,
                    },
                    None => true,
                },
                None => true,
            },
            _ => true,
        },
        _ => true,
    }
}

/// Evaluate a function call in single-value position: the callee name is
/// resolved in the global table and invoked through the calling
/// convention with exactly one argument slot (`nil` when the argument
/// list is empty).
pub fn eval_funcall(l: &mut LuaState, fc: &Rule, fuel: u64) -> (r: Result<Value, LuaError>)
    requires
        old(l).wf(),
    ensures
        final(l).wf(),
        final(l).reg.max_size == old(l).reg.max_size,
        r is Ok ==> exp_st(*old(l), *final(l)),
        !(*fc is FunctionCall) ==> r is Err,
        funcall_native_spec(*fc, *old(l), r, fuel),
    decreases fuel, 0int,
{
    let (name, args) = match fc {
        Rule::FunctionCall(name, args) => (name, args),
        _ => {
            return Err(l.error("invalid rule passed: function call expected"));
        },
    };
    let name = match &**name {
        Rule::Symbol(name) => name,
        _ => {
            return Err(l.error("invalid rule passed: symbol expected"));
        },
    };
    let exp = match &**args {
        Rule::Args(e) => e,
        _ => {
            return Err(l.error("invalid rule passed: args expected"));
        },
    };
    if fuel == 0 {
        return Err(l.error("evaluation budget exhausted"));
    }
    match &**exp {
        Rule::Exp(_) => {
            let arg1v = eval_exp(l, &**exp, fuel - 1)?;
            let name2 = name.clone();
            let ret = l.global_funcall1_fuel(name2.as_str(), arg1v, fuel - 1)?;
            Ok(ret)
        },
        Rule::Nop => {
            let name2 = name.clone();
            let ret = l.global_funcall1_fuel(name2.as_str(), Value::Nil, fuel - 1)?;
            Ok(ret)
        },
        _ => Err(l.error("invalid rule")),
    }
}

/// The argument list a call in multi-value position passes when it is
/// statically known: empty for an absent argument, the constant's value
/// for a constant argument expression.
pub open spec fn multi_args(a: Rule) -> Option<Seq<Value>> {
    match a {
        Rule::Nop => Some(Seq::empty()),
        Rule::Exp(_) => match const_value(a) {
            Some(v) => Some(seq![v]),
            None => None,
        },
        _ => None,
    }
}

/// What a multi-value call of a global native with statically known
/// arguments must do: it is owed success, returning exactly the values
/// the native pushes.
pub open spec fn funcall_multi_native_spec(
    fc: Rule,
    pre: LuaState,
    r: Result<Vec<Value>, LuaError>,
    fuel: u64,
) -> bool {
    match fc {
        Rule::FunctionCall(name, args) => match (*name, *args) {
            (Rule::Symbol(nm), Rule::Args(a)) => match multi_args(*a) {
                Some(argseq) => match pre.global_of(nm@) {
                    Some(gv) => match gv {
                        Value::Function(gf) => match gf {
                            crate::value::LuaFunction::Native(nf) => (
                            crate::state::native_calln_ok(nf, pre, argseq) && fuel > arg_fuel(*a))
                                ==> (r matches Ok(vals) && vals@
                                == crate::state::native_calln_results(nf, argseq)),
                            _ => true,
                        },
                        _ => true,
                    },
                    None => true,
                },
                None => true,
            },
            _ => true,
        },
        _ => true,
    }
}

/// Evaluate a function call keeping all returned values: the callee is
/// looked up directly and invoked through the calling convention; used by
/// the generic-for protocol, which needs the iterator triple.
pub fn eval_funcall_multi(l: &mut LuaState, fc: &Rule, fuel: u64) -> (r: Result<
    Vec<Value>,
    LuaError,
>)
    requires
        old(l).wf(),
    ensures
        final(l).wf(),
        final(l).reg.max_size == old(l).reg.max_size,
        r is Ok ==> exp_st(*old(l), *final(l)),
        !(*fc is FunctionCall) ==> r is Err,
        *fc matches Rule::FunctionCall(name, args) ==> (*name matches Rule::Symbol(nm) ==> (old(l).global_of(nm@) is None ==> r is Err)),
        funcall_multi_native_spec(*fc, *old(l), r, fuel),
    decreases fuel, 0int,
{
    let (name, args) = match fc {
        Rule::FunctionCall(name, args) => (name, args),
        _ => {
            return Err(l.error("invalid rule passed: function call expected"));
        },
    };
    let name = match &**name {
        Rule::Symbol(name) => name,
        _ => {
            return Err(l.error("invalid rule passed: symbol expected"));
        },
    };
    let exp = match &**args {
        Rule::Args(e) => e,
        _ => {
            return Err(l.error("invalid rule passed: args expected"));
        },
    };
    let func = match l.get_global(name.as_str()) {
        Some(f) => f,
        None => {
            return Err(l.error("Please specify func name"));
        },
    };
    if fuel == 0 {
        return Err(l.error("evaluation budget exhausted"));
    }
    match &**exp {
        Rule::Exp(_) => {
            let arg1v = eval_exp(l, &**exp, fuel - 1)?;
            let mut argv: Vec<Value> = Vec::new();
            argv.push(arg1v);
            l.funcall_fuel(func, argv, fuel - 1)
        },
        Rule::Nop => {
            let argv: Vec<Value> = Vec::new();
            l.funcall_fuel(func, argv, fuel - 1)
        },
        _ => Err(l.error("invalid rule")),
    }
}

/// Evaluate an if-chain: conditions are evaluated in order and the block
/// paired with the first truthy one (anything but `nil` and `false`) is
/// the result; a trailing `Nop` condition (the `else` branch) always
/// matches; no match at all yields `nil`.
#[verifier::loop_isolation(false)]
pub fn eval_ifthen(l: &mut LuaState, stat: &Rule, fuel: u64) -> (r: Result<Value, LuaError>)
    requires
        old(l).wf(),
    ensures
        final(l).wf(),
        final(l).reg.max_size == old(l).reg.max_size,
        r is Ok ==> stat_st(*old(l), *final(l)),
        !(*stat is IfStat) ==> r is Err,
        ifthen_const_spec(*stat, r, fuel),
        *stat matches Rule::IfStat(exps, blocks) ==> ((const_all_false(exps@, 0) && (forall|
            k: int,
        |
            0 <= k < exps@.len() ==> fuel > exp_size(*(#[trigger] exps@[k])) + 1)) ==> (r matches
            Ok(rv) && rv == Value::Nil)),
    decreases fuel, 0int,
{
    let (exps, blocks) = match stat {
        Rule::IfStat(exps, blocks) => (exps, blocks),
        _ => {
            return Err(l.error("invalid rule passed: if statement expected"));
        },
    };
    let n = exps.len();
    let mut i: usize = 0;
    while i < n
        invariant
            old(l).wf(),
            l.wf(),
            i <= n,
            n == exps@.len(),
            l.reg.max_size == old(l).reg.max_size,
            exp_st(*old(l), *l),
            (match const_first_match(exps@, 0) {
                Some(ix) => (forall|k: int|
                    0 <= k <= ix ==> fuel > exp_size(*(#[trigger] exps@[k])) + 1)
                    ==> const_first_match(exps@, i as int) == const_first_match(exps@, 0),
                None => true,
            }),
            (const_all_false(exps@, 0) && (forall|k: int|
                0 <= k < exps@.len() ==> fuel > exp_size(*(#[trigger] exps@[k])) + 1))
                ==> const_all_false(exps@, i as int),
        decreases n - i,
    {
        proof {
            if const_first_match(exps@, i as int) is Some {
                lemma_first_match_lb(exps@, i as int);
            }
        }
        if fuel == 0 {
            return Err(l.error("evaluation budget exhausted"));
        }
        match &*exps[i] {
            Rule::Exp(_) => {
                let v = eval_exp(l, &*exps[i], fuel - 1)?;
                if v.is_truthy() {
                    if i >= blocks.len() {
                        return Err(l.error("malformed if statement"));
                    }
                    let ghost pre = *l;
                    let ret = eval_block(l, &*blocks[i], fuel - 1);
                    proof {
                        if ret is Ok {
                            lemma_exp_st_stat_st(*old(l), pre);
                            lemma_stat_st_trans(*old(l), pre, *l);
                        }
                    }
                    return ret;
                }
            },
            Rule::Nop => {
                if i >= blocks.len() {
                    return Err(l.error("malformed if statement"));
                }
                let ghost pre = *l;
                let ret = eval_block(l, &*blocks[i], fuel - 1);
                proof {
                    if ret is Ok {
                        lemma_exp_st_stat_st(*old(l), pre);
                        lemma_stat_st_trans(*old(l), pre, *l);
                    }
                }
                return ret;
            },
            _ => {
                return Err(l.error("invalid rule"));
            },
        }
        i = i + 1;
    }
    proof {
        lemma_exp_st_stat_st(*old(l), *l);
    }
    Ok(Value::Nil)
}

/// Extract the declared name from a function-name node.
pub fn process_funcname(_l: &mut LuaState, fname: &Rule) -> (r: Result<String, LuaError>)
    ensures
        *final(_l) == *old(_l),
        match r {
            Ok(name) => *fname matches Rule::FuncName(s) && *s matches Rule::Symbol(n) && name
                == n,
            Err(_) => !(*fname matches Rule::FuncName(s) && *s is Symbol),
        },
{
    match fname {
        Rule::FuncName(name) => match &**name {
            Rule::Symbol(n) => Ok(n.clone()),
            _ => Err(LuaError { message: "invalid rule passed: symbol expected".to_owned() }),
        },
        _ => Err(LuaError { message: "invalid rule passed: function name expected".to_owned() }),
    }
}

/// Extract the formal parameter names from a parameter-list node;
/// currently a single-identifier list.
pub fn process_params(_l: &mut LuaState, params: &Rule) -> (r: Result<Vec<String>, LuaError>)
    ensures
        *final(_l) == *old(_l),
        match r {
            Ok(v) => *params matches Rule::ParList1(s) && *s matches Rule::Symbol(n) && v@ == seq![
                n,
            ],
            Err(_) => !(*params matches Rule::ParList1(s) && *s is Symbol),
        },
{
    match params {
        Rule::ParList1(name) => match &**name {
            Rule::Symbol(n) => {
                let mut v: Vec<String> = Vec::new();
                v.push(n.clone());
                proof {
                    assert(v@ =~= seq![*n]);
                }
                Ok(v)
            },
            _ => Err(LuaError { message: "invalid rule passed: symbol expected".to_owned() }),
        },
        _ => Err(LuaError { message: "invalid rule passed: parameter list expected".to_owned() }),
    }
}

/// A function-body node the evaluator accepts: a block body and, if a
/// parameter list is present, a single-identifier one.
pub open spec fn funcbody_shape_ok(fb: Rule) -> bool {
    match fb {
        Rule::FuncBody(p, b) => *b is Block && match p {
            Some(pl) => *pl matches Rule::ParList1(sym) && *sym is Symbol,
            None => true,
        },
        _ => false,
    }
}

/// Take a function body apart into its formal parameter names and its
/// shared block.
pub fn eval_funcbody(l: &mut LuaState, fb: &Rule) -> (r: Result<(Vec<String>, Rc<Rule>), LuaError>)
    ensures
        *final(l) == *old(l),
        match r {
            Ok(pb) => *fb matches Rule::FuncBody(p, b) && pb.1 == b && *b is Block && (match p {
                Some(pl) => *pl matches Rule::ParList1(s) && *s matches Rule::Symbol(n) && pb.0@
                    == seq![n],
                None => pb.0@.len() == 0,
            }),
            Err(_) => !funcbody_shape_ok(*fb),
        },
{
    match fb {
        Rule::FuncBody(params, body) => {
            match &**body {
                Rule::Block(_) => {},
                _ => {
                    return Err(l.error("invalid composite of funcbody"));
                },
            }
            let plist: Vec<String> = match params {
                Some(p) => process_params(l, &**p)?,
                None => Vec::new(),
            };
            Ok((plist, crate::value::rc_rule_clone(body)))
        },
        _ => Err(l.error("invalid composite of funcbody")),
    }
}

/// Run a chunk: statements in order, stopping early when a return is
/// pending; a trailing return statement evaluates its expression, marks
/// the innermost frame as returning, and yields the value.
#[verifier::loop_isolation(false)]
pub fn eval_chunk(l: &mut LuaState, chunk: &Rule, fuel: u64) -> (r: Result<Value, LuaError>)
    requires
        old(l).wf(),
    ensures
        final(l).wf(),
        final(l).reg.max_size == old(l).reg.max_size,
        r is Ok ==> stat_st(*old(l), *final(l)),
        !(*chunk is Chunk) ==> r is Err,
        (*chunk matches Rule::Chunk(stats2, last2) && stats2.len() == 0 && last2 is None) ==> (r
            matches Ok(v) && v == Value::Nil && *final(l) == *old(l)),
        *chunk matches Rule::Chunk(stats2, last2) ==> ((last2 is None && r is Ok && !(final(l).frame_stack@.len() > 0 && final(l).frame_stack@.last().to_return)) ==> (r matches Ok(v)
            && v == Value::Nil)),
        *chunk matches Rule::Chunk(stats2, last2) ==> (last2 matches Some(ls) ==> (*ls matches
            Rule::LastStat(e) ==> ((stats2.len() == 0 && *e is Exp) ==> (const_value(*e) matches
            Some(v) ==> (fuel > exp_size(*e) ==> (r matches Ok(rv) && rv == v)))))),
        *chunk matches Rule::Chunk(stats2, last2) ==> ((last2 is Some && r is Ok && final(l).frame_stack@.len() > 0) ==> final(l).frame_stack@.last().to_return),
    decreases fuel, 0int,
{
    let (stats, last) = match chunk {
        Rule::Chunk(stats, last) => (stats, last),
        _ => {
            return Err(l.error("Not a chunk"));
        },
    };
    let n = stats.len();
    let mut i: usize = 0;
    proof {
        lemma_stat_st_refl(*old(l));
    }
    while i < n
        invariant
            old(l).wf(),
            l.wf(),
            i <= n,
            n == stats@.len(),
            l.reg.max_size == old(l).reg.max_size,
            stat_st(*old(l), *l),
            i == 0 ==> *l == *old(l),
        decreases n - i,
    {
        if fuel == 0 {
            return Err(l.error("evaluation budget exhausted"));
        }
        let ghost pre = *l;
        let v = eval_stat(l, &*stats[i], fuel - 1)?;
        proof {
            lemma_stat_st_trans(*old(l), pre, *l);
        }
        if l.to_return() {
            return Ok(v);
        }
        i = i + 1;
    }
    match last {
        Some(stat) => {
            let exp = match &**stat {
                Rule::LastStat(exp) => exp,
                _ => {
                    return Err(l.error("invalid rule passed: last statement expected"));
                },
            };
            if fuel == 0 {
                return Err(l.error("evaluation budget exhausted"));
            }
            let ghost pre = *l;
            let ret = eval_exp(l, &**exp, fuel - 1)?;
            proof {
                lemma_exp_st_stat_st(pre, *l);
                lemma_stat_st_trans(*old(l), pre, *l);
            }
            let has_frame = match l.current_frame() {
                Some(_) => true,
                None => false,
            };
            if has_frame {
                l.set_to_return(true);
                proof {
                    assert(l.cur_env() == pre.cur_env());
                    assert(stat_st(*old(l), *l));
                }
            }
            Ok(ret)
        },
        None => Ok(Value::Nil),
    }
}

/// The least index whose condition is the `else` marker or a constant
/// truthy expression, scanning from `k`; `None` when a non-constant
/// condition intervenes (no claim then) or no condition matches.
pub open spec fn const_first_match(exps: Seq<Box<Rule>>, k: int) -> Option<int>
    decreases exps.len() - k,
{
    if k < 0 || k >= exps.len() {
        None
    } else if *exps[k] is Nop {
        Some(k)
    } else if *exps[k] is Exp && const_value(*exps[k]) is Some {
        if const_value(*exps[k]).unwrap().spec_truthy() {
            Some(k)
        } else {
            const_first_match(exps, k + 1)
        }
    } else {
        None
    }
}

/// The value of a block that consists of nothing but an optional constant
/// trailing return: `nil` for the empty block, the returned constant
/// otherwise; `None` where the block is not of that shape.
pub open spec fn block_const_ret(b: Rule) -> Option<Value> {
    match b {
        Rule::Block(c) => match *c {
            Rule::Chunk(st2, last) => if st2.len() == 0 {
                match last {
                    Some(ls) => match *ls {
                        Rule::LastStat(e) => if *e is Exp {
                            const_value(*e)
                        } else {
                            None
                        },
                        _ => None,
                    },
                    None => Some(Value::Nil),
                }
            } else {
                None
            },
            _ => None,
        },
        _ => None,
    }
}

/// A fuel budget strictly above this evaluates such a block.
pub open spec fn block_const_size(b: Rule) -> nat {
    match b {
        Rule::Block(c) => match *c {
            Rule::Chunk(_st2, last) => match last {
                Some(ls) => match *ls {
                    Rule::LastStat(e) => 1 + exp_size(*e),
                    _ => 0,
                },
                None => 1,
            },
            _ => 0,
        },
        _ => 0,
    }
}

proof fn lemma_first_match_lb(exps: Seq<Box<Rule>>, k: int)
    requires
        const_first_match(exps, k) is Some,
    ensures
        k <= const_first_match(exps, k).unwrap() < exps.len(),
    decreases exps.len() - k,
{
    if !(k < 0 || k >= exps.len()) {
        if *exps[k] is Nop {
        } else if *exps[k] is Exp && const_value(*exps[k]) is Some {
            if !const_value(*exps[k]).unwrap().spec_truthy() {
                lemma_first_match_lb(exps, k + 1);
            }
        }
    }
}

/// Every condition from `k` on is a constant that evaluates falsy: such
/// an if-chain selects no branch at all.
pub open spec fn const_all_false(exps: Seq<Box<Rule>>, k: int) -> bool
    decreases exps.len() - k,
{
    if k < 0 {
        false
    } else if k >= exps.len() {
        true
    } else {
        *exps[k] is Exp && (const_value(*exps[k]) matches Some(v) && !v.spec_truthy())
            && const_all_false(exps, k + 1)
    }
}

/// What an if-chain with constant conditions must do: exactly the block
/// paired with the first truthy (or `else`) condition decides, and when
/// that block is a bare constant return, its value is the result.
pub open spec fn ifthen_const_spec(stat: Rule, r: Result<Value, LuaError>, fuel: u64) -> bool {
    match stat {
        Rule::IfStat(exps, blocks) => match const_first_match(exps@, 0) {
            Some(ix) => if ix < blocks@.len() {
                match block_const_ret(*blocks@[ix]) {
                    Some(v) => (fuel > block_const_size(*blocks@[ix]) + 1 && (forall|k: int|
                        0 <= k <= ix ==> fuel > exp_size(*(#[trigger] exps@[k])) + 1)) ==> (r
                        matches Ok(rv) && rv == v),
                    None => true,
                }
            } else {
                true
            },
            None => true,
        },
        _ => true,
    }
}

/// The value of a bare (un-keyed) table field whose expression is
/// constant; `None` for keyed fields and non-constant expressions.
pub open spec fn field_const(f: Rule) -> Option<Value> {
    match f {
        Rule::Field(key, val) => if *key is Nop && *val is Exp {
            const_value(*val)
        } else {
            None
        },
        _ => None,
    }
}

/// A fuel budget strictly above this evaluates the field's expression.
pub open spec fn field_size(f: Rule) -> nat {
    match f {
        Rule::Field(_key, val) => exp_size(*val),
        _ => 0,
    }
}

/// What a `local nm = e` declaration with a constant initializer must
/// do: inside a frame with registry room, it succeeds with `nil`, leaves
/// the global table alone, pushes the value, and binds the name to the
/// fresh slot as the innermost frame's newest local.
pub open spec fn localvar_const_spec(
    stat: Rule,
    pre: LuaState,
    post: LuaState,
    r: Result<Value, LuaError>,
    fuel: u64,
) -> bool {
    match stat {
        Rule::Stat(kind, a, b, _c, _d, _e) => match (kind, a, b) {
            (StatKind::LocalVar, Some(sym), Some(be)) => match (*sym, const_value(*be)) {
                (Rule::Symbol(nm), Some(v)) => (*be is Exp && fuel > exp_size(*be)
                    && pre.frame_stack@.len() > 0 && pre.reg.top < pre.reg.max_size) ==> {
                    &&& r matches Ok(rv) && rv == Value::Nil
                    &&& post.g == pre.g
                    &&& post.reg.top == pre.reg.top + 1
                    &&& post.reg.array@ == pre.reg.array@.push(v)
                    &&& post.cur_env().len() == pre.cur_env().len() + 1
                    &&& post.cur_env().last().0@ == nm@
                    &&& post.cur_env().last().1 == pre.reg.top
                },
                _ => true,
            },
            _ => true,
        },
        _ => true,
    }
}

/// What an assignment with a constant right-hand side must do: it
/// succeeds with `nil` and writes the value to whichever binding the name
/// resolves to — the innermost frame's local slot if one exists (globals
/// untouched), else the global table entry (registry untouched).
pub open spec fn varassign_const_spec(
    stat: Rule,
    pre: LuaState,
    post: LuaState,
    r: Result<Value, LuaError>,
    fuel: u64,
) -> bool {
    match stat {
        Rule::Stat(kind, a, b, _c, _d, _e) => match (kind, a, b) {
            (StatKind::VarAssign, Some(va), Some(be)) => match *va {
                Rule::Var(sym) => match (*sym, const_value(*be)) {
                    (Rule::Symbol(nm), Some(v)) => (*be is Exp && fuel > exp_size(*be)) ==> {
                        &&& r matches Ok(rv) && rv == Value::Nil
                        &&& match pre.local_slot(nm@) {
                            Some(slot) => post.g == pre.g && post.reg.array@
                                == pre.reg.array@.update(slot as int, v),
                            None => post.reg == pre.reg && post.global_of(nm@) == Some(v) && (
                            forall|m: Seq<char>|
                                m != nm@ ==> post.global_of(m) == pre.global_of(m)),
                        }
                    },
                    _ => true,
                },
                _ => true,
            },
            _ => true,
        },
        _ => true,
    }
}

/// What a successful function declaration must do: return `nil` and bind
/// the declared name in the global table to an interpreted closure whose
/// parameter list is exactly the declared one (empty when absent, the one
/// declared name otherwise) and which shares exactly the declared body
/// block. The body is held, not evaluated.
pub open spec fn declfn_spec(
    stat: Rule,
    pre: LuaState,
    post: LuaState,
    r: Result<Value, LuaError>,
) -> bool {
    match stat {
        Rule::Stat(kind, a, b, _c, _d, _e) => match (kind, a, b) {
            (StatKind::DeclareFunction, Some(fname), Some(fb)) => match (*fname, *fb) {
                (Rule::FuncName(fsym), Rule::FuncBody(ps, blk)) => match *fsym {
                    Rule::Symbol(nm) => (r is Ok && *blk is Block) ==> {
                        &&& r matches Ok(rv) && rv == Value::Nil
                        &&& post.global_of(nm@) matches Some(fv) && (fv matches Value::Function(
                            ff,
                        ) && (ff matches crate::value::LuaFunction::Code(def) && def.body == blk
                            && (match ps {
                            Some(pl) => *pl matches Rule::ParList1(psym) && (*psym matches
                                Rule::Symbol(pn) && def.params@ == seq![pn]),
                            None => def.params@.len() == 0,
                        })))
                    },
                    _ => true,
                },
                _ => true,
            },
            _ => true,
        },
        _ => true,
    }
}

/// Run one statement. Separators do nothing; assignment targets whichever
/// binding currently resolves (innermost-frame local first, else global);
/// function declarations bind an interpreted closure in the global table;
/// local declarations need an active frame and push a fresh binding; the
/// statement kinds the evaluator does not implement fail loudly as
/// unsupported. A successful generic `for-in` leaves the innermost
/// frame's bindings and the registry cursor exactly as they were: locals
/// declared in the loop body do not survive the loop.
pub fn eval_stat(l: &mut LuaState, stat: &Rule, fuel: u64) -> (r: Result<Value, LuaError>)
    requires
        old(l).wf(),
    ensures
        final(l).wf(),
        final(l).reg.max_size == old(l).reg.max_size,
        r is Ok ==> stat_st(*old(l), *final(l)),
        !(*stat is Stat) ==> r is Err,
        *stat matches Rule::Stat(kind, a, b, c, d, e) ==> (!(kind == StatKind::Sep || kind
            == StatKind::VarAssign || kind == StatKind::FunctionCall || kind
            == StatKind::DeclareFunction || kind == StatKind::IfThen || kind == StatKind::LocalVar
            || kind == StatKind::ForIn) ==> r is Err),
        *stat matches Rule::Stat(kind, a, b, c, d, e) ==> ((kind == StatKind::ForIn && r is Ok)
            ==> final(l).reg.top == old(l).reg.top && (old(l).frame_stack@.len() > 0 ==> final(l).cur_env() == old(l).cur_env())),
        *stat matches Rule::Stat(kind, a, b, c, d, e) ==> (kind == StatKind::Sep ==> (r matches
            Ok(rv) && rv == Value::Nil && *final(l) == *old(l))),
        *stat matches Rule::Stat(kind, a, b, c, d, e) ==> (kind == StatKind::FunctionCall ==> (
        a matches Some(fc) ==> (fuel > 0 ==> funcall_native_spec(*fc, *old(l), r, (fuel
            - 1) as u64)))),
        *stat matches Rule::Stat(kind, a, b, c, d, e) ==> ((kind == StatKind::LocalVar && old(l).frame_stack@.len() == 0) ==> r is Err),
        localvar_const_spec(*stat, *old(l), *final(l), r, fuel),
        *stat matches Rule::Stat(kind, a, b, c, d, e) ==> (kind == StatKind::LocalVar ==> (
        a matches Some(sym) ==> (*sym matches Rule::Symbol(nm) ==> ((r is Ok && old(l).frame_stack@.len() > 0) ==> (final(l).reg.top == old(l).reg.top + 1 && final(l).cur_env().len() == old(l).cur_env().len() + 1 && final(l).cur_env().take(
            old(l).cur_env().len() as int,
        ) == old(l).cur_env() && final(l).cur_env().last().0@ == nm@ && final(l).cur_env().last().1 == old(l).reg.top))))),
        *stat matches Rule::Stat(kind, a, b, c, d, e) ==> (kind == StatKind::VarAssign ==> (
        r is Ok ==> (final(l).reg.top == old(l).reg.top && (old(l).frame_stack@.len() > 0
            ==> final(l).cur_env() == old(l).cur_env())))),
        varassign_const_spec(*stat, *old(l), *final(l), r, fuel),
        declfn_spec(*stat, *old(l), *final(l), r),
    decreases fuel, 1int,
{
    let (kind, a, b, c) = match stat {
        Rule::Stat(kind, a, b, c, _d, _e) => (kind, a, b, c),
        _ => {
            return Err(l.error("Not a stat"));
        },
    };
    match kind {
        StatKind::Sep => {
            proof {
                lemma_exp_st_stat_st(*old(l), *l);
            }
            Ok(Value::Nil)
        },
        StatKind::VarAssign => {
            let var = match a {
                Some(v) => &**v,
                None => {
                    return Err(l.error("malformed assignment"));
                },
            };
            let name = match var {
                Rule::Var(v) => match &**v {
                    Rule::Symbol(name) => name.clone(),
                    _ => {
                        return Err(l.error("invalid rule passed: symbol expected"));
                    },
                },
                _ => {
                    return Err(l.error("invalid rule passed: var expected"));
                },
            };
            let bexp = match b {
                Some(e) => &**e,
                None => {
                    return Err(l.error("malformed assignment"));
                },
            };
            if fuel == 0 {
                return Err(l.error("evaluation budget exhausted"));
            }
            let ghost pre = *l;
            let value = eval_exp(l, bexp, fuel - 1)?;
            let ghost mid = *l;
            let is_local = l.has_local_name(name.as_str());
            if is_local {
                proof {
                    lemma_local_slot_is_bound(mid, name@);
                }
                l.assign_local(name.as_str(), value);
            } else {
                l.assign_global(name.as_str(), value);
            }
            proof {
                lemma_exp_st_stat_st(pre, mid);
                assert(stat_st(mid, *l)) by {
                    if mid.frame_stack@.len() > 0 {
                        assert(l.cur_env().take(mid.cur_env().len() as int) =~= mid.cur_env());
                    }
                }
                lemma_stat_st_trans(*old(l), mid, *l);
            }
            Ok(Value::Nil)
        },
        StatKind::FunctionCall => {
            let fc = match a {
                Some(f) => &**f,
                None => {
                    return Err(l.error("malformed call statement"));
                },
            };
            if fuel == 0 {
                return Err(l.error("evaluation budget exhausted"));
            }
            let r = eval_funcall(l, fc, fuel - 1);
            proof {
                if r is Ok {
                    lemma_exp_st_stat_st(*old(l), *l);
                }
            }
            r
        },
        StatKind::DeclareFunction => {
            let fname = match a {
                Some(f) => &**f,
                None => {
                    return Err(l.error("malformed function declaration"));
                },
            };
            let fbody = match b {
                Some(f) => &**f,
                None => {
                    return Err(l.error("malformed function declaration"));
                },
            };
            let name = process_funcname(l, fname)?;
            let pb = eval_funcbody(l, fbody)?;
            l.register_global_code(name.as_str(), pb.0, pb.1);
            proof {
                lemma_exp_st_stat_st(*old(l), *l);
            }
            Ok(Value::Nil)
        },
        StatKind::IfThen => {
            let ifst = match a {
                Some(f) => &**f,
                None => {
                    return Err(l.error("malformed if statement"));
                },
            };
            if fuel == 0 {
                return Err(l.error("evaluation budget exhausted"));
            }
            eval_ifthen(l, ifst, fuel - 1)
        },
        StatKind::LocalVar => {
            let name = match a {
                Some(n) => match &**n {
                    Rule::Symbol(name) => name.clone(),
                    _ => {
                        return Err(l.error("invalid rule passed: symbol expected"));
                    },
                },
                None => {
                    return Err(l.error("malformed local declaration"));
                },
            };
            let bexp = match b {
                Some(e) => &**e,
                None => {
                    return Err(l.error("malformed local declaration"));
                },
            };
            match bexp {
                Rule::Exp(_) => {},
                _ => {
                    return Err(l.error("Expected exp"));
                },
            }
            if fuel == 0 {
                return Err(l.error("evaluation budget exhausted"));
            }
            let ghost pre = *l;
            let value = eval_exp(l, bexp, fuel - 1)?;
            let has_frame = match l.current_frame() {
                Some(_) => true,
                None => false,
            };
            if !has_frame {
                return Err(l.error("Expected in function def"));
            }
            match l.declare_local(name.as_str(), value) {
                Ok(_) => {},
                Err(e) => {
                    return Err(e);
                },
            }
            proof {
                lemma_exp_st_stat_st(*old(l), pre);
                assert(stat_st(pre, *l)) by {
                    assert(l.cur_env().take(pre.cur_env().len() as int) =~= pre.cur_env());
                }
                lemma_stat_st_trans(*old(l), pre, *l);
            }
            Ok(Value::Nil)
        },
        StatKind::ForIn => eval_forin(l, a, b, c, fuel),
        _ => Err(l.error("unsupported statement kind")),
    }
}

/// Run a generic `for-in` loop: the iterator expression yields the triple
/// (iterator function, state value, initial control value); the iterator
/// is then called with (state, control) until its first returned value is
/// `nil`. Each iteration binds the loop variables right to left in a
/// fresh scope and rolls the scope back afterwards, so body locals never
/// leak across iterations or out of the loop.
#[verifier::loop_isolation(false)]
fn eval_forin(
    l: &mut LuaState,
    a: &Option<Box<Rule>>,
    b: &Option<Box<Rule>>,
    c: &Option<Box<Rule>>,
    fuel: u64,
) -> (r: Result<Value, LuaError>)
    requires
        old(l).wf(),
    ensures
        final(l).wf(),
        final(l).reg.max_size == old(l).reg.max_size,
        r is Ok ==> stat_st(*old(l), *final(l)) && final(l).reg.top == old(l).reg.top && (old(l).frame_stack@.len() > 0 ==> final(l).cur_env() == old(l).cur_env()),
    decreases fuel, 0int,
{
    let vars = match a {
        Some(v) => match &**v {
            Rule::SymbolList(vars) => vars,
            _ => {
                return Err(l.error("invalid rule passed: symbol list expected"));
            },
        },
        None => {
            return Err(l.error("malformed for-in"));
        },
    };
    let funex = match b {
        Some(e) => match &**e {
            Rule::Exp(inner) => inner,
            _ => {
                return Err(l.error("invalid rule passed: exp expected"));
            },
        },
        None => {
            return Err(l.error("malformed for-in"));
        },
    };
    let fc = match &**funex {
        Rule::Prefixexp(inner) => inner,
        _ => {
            return Err(l.error("invalid rule passed: prefixexp expected"));
        },
    };
    let body = match c {
        Some(blk) => &**blk,
        None => {
            return Err(l.error("malformed for-in"));
        },
    };
    let has_frame = match l.current_frame() {
        Some(_) => true,
        None => false,
    };
    if !has_frame {
        return Err(l.error("for-in needs an enclosing function frame"));
    }
    if fuel == 0 {
        return Err(l.error("evaluation budget exhausted"));
    }
    let ghost entry = *l;
    let mut loop_params = eval_funcall_multi(l, &**fc, fuel - 1)?;
    if loop_params.len() < 3 {
        return Err(l.error("iterator expression must yield three values"));
    }
    let mut key = match loop_params.pop() {
        Some(v) => v,
        None => {
            return Err(l.error("iterator expression must yield three values"));
        },
    };
    let collction = match loop_params.pop() {
        Some(v) => v,
        None => {
            return Err(l.error("iterator expression must yield three values"));
        },
    };
    let next = match loop_params.pop() {
        Some(v) => v,
        None => {
            return Err(l.error("iterator expression must yield three values"));
        },
    };
    let mut fl = fuel - 1;
    loop
        invariant
            fl < fuel,
            entry.wf(),
            l.wf(),
            l.reg.max_size == entry.reg.max_size,
            l.reg.top == entry.reg.top,
            l.reg.array@.len() == entry.reg.array@.len(),
            l.frame_stack@.len() == entry.frame_stack@.len(),
            l.frame_stack@.len() > 0,
            l.frame_stack@.drop_last() == entry.frame_stack@.drop_last(),
            l.cur_env() == entry.cur_env(),
            l.tables@.len() >= entry.tables@.len(),
            forall|t: int|
                0 <= t < entry.reg.top && !slot_bound(entry, t) ==> #[trigger] l.reg.array@[t]
                    == entry.reg.array@[t],
        decreases fl,
    {
        if fl == 0 {
            return Err(l.error("evaluation budget exhausted"));
        }
        fl = fl - 1;
        let mut argv: Vec<Value> = Vec::new();
        argv.push(collction.dup());
        argv.push(key.dup());
        let mut values = l.funcall_fuel(next.dup(), argv, fl)?;
        if values.len() == 0 {
            return Err(l.error("iterator returned no value"));
        }
        let stop = match &values[0] {
            Value::Nil => true,
            _ => false,
        };
        if stop {
            break ;
        }
        key = values[0].dup();
        let ghost pre_iter = *l;
        let oldtop = l.start_block_raw();
        proof {
            assert(forall|j: int|
                0 <= j < pre_iter.cur_env().len() ==> #[trigger] pre_iter.cur_env()[j].1 < oldtop);
            assert(l.reg.array@.take(oldtop as int) =~= pre_iter.reg.array@);
        }
        // bind the loop variables right to left from the returned values
        let mut vi = vars.len();
        while vi > 0
            invariant
                l.wf(),
                vi <= vars@.len(),
                l.reg.max_size == pre_iter.reg.max_size,
                l.reg.top >= oldtop,
                oldtop == pre_iter.reg.top,
                l.frame_stack@.len() == pre_iter.frame_stack@.len(),
                l.frame_stack@.len() > 0,
                l.frame_stack@.drop_last() == pre_iter.frame_stack@.drop_last(),
                l.cur_env().len() >= pre_iter.cur_env().len(),
                l.cur_env().take(pre_iter.cur_env().len() as int) == pre_iter.cur_env(),
                forall|k: int|
                    pre_iter.cur_env().len() <= k < l.cur_env().len()
                        ==> #[trigger] l.cur_env()[k].1 >= oldtop,
                l.reg.array@.take(oldtop as int) == pre_iter.reg.array@,
                l.tables@.len() >= pre_iter.tables@.len(),
            decreases vi,
        {
            vi = vi - 1;
            let name = match &*vars[vi] {
                Rule::Symbol(name) => name.clone(),
                _ => {
                    return Err(l.error("invalid rule passed: symbol expected"));
                },
            };
            let value = match values.pop() {
                Some(v) => v,
                None => {
                    return Err(l.error("iterator returned too few values for the loop variables"));
                },
            };
            let ghost pre_bind = *l;
            match l.declare_local(name.as_str(), value) {
                Ok(_) => {},
                Err(e) => {
                    return Err(e);
                },
            }
            proof {
                assert(l.reg.array@.take(oldtop as int) =~= pre_bind.reg.array@.take(
                    oldtop as int,
                ));
                assert(l.cur_env().take(pre_iter.cur_env().len() as int) =~= pre_bind.cur_env().take(
                    pre_iter.cur_env().len() as int,
                ));
                assert forall|k: int|
                    pre_iter.cur_env().len() <= k < l.cur_env().len() implies #[trigger] l.cur_env()[k].1
                    >= oldtop by {
                    if k < l.cur_env().len() - 1 {
                        assert(l.cur_env().drop_last() == pre_bind.cur_env());
                        assert(l.cur_env()[k] == l.cur_env().drop_last()[k]);
                    } else {
                        assert(l.cur_env()[k] == l.cur_env().last());
                    }
                }
            }
        }
        let ghost pre_body = *l;
        let bret = eval_block(l, body, fl);
        match bret {
            Ok(_) => {},
            Err(e) => {
                return Err(e);
            },
        }
        proof {
            assert(l.cur_env().take(pre_iter.cur_env().len() as int) =~= pre_body.cur_env().take(
                pre_iter.cur_env().len() as int,
            ));
            assert forall|k: int|
                pre_iter.cur_env().len() <= k < l.cur_env().len() implies #[trigger] l.cur_env()[k].1
                >= oldtop by {
                if k < pre_body.cur_env().len() {
                    assert(l.cur_env().take(pre_body.cur_env().len() as int)
                        == pre_body.cur_env());
                    assert(l.cur_env()[k] == pre_body.cur_env()[k]);
                }
            }
        }
        let ghost pre_end = *l;
        proof {
            assert forall|fi: int, fj: int|
                0 <= fi < l.frame_stack@.len() - 1 && 0 <= fj < l.frame_stack@[fi].env@.len()
                implies #[trigger] l.frame_stack@[fi].env@[fj].1 < oldtop by {
                assert(l.frame_stack@.drop_last() == entry.frame_stack@.drop_last());
                assert(l.frame_stack@[fi] == l.frame_stack@.drop_last()[fi]);
                assert(entry.frame_stack@[fi] == entry.frame_stack@.drop_last()[fi]);
                assert(entry.frame_stack@[fi].env@[fj].1 < entry.reg.top);
            }
        }
        match l.end_block_raw(oldtop) {
            Ok(_) => {},
            Err(e) => {
                return Err(e);
            },
        }
        proof {
            let kept = pre_iter.cur_env();
            let added = pre_end.cur_env().skip(kept.len() as int);
            assert(pre_end.cur_env() =~= kept + added);
            assert(forall|j: int| 0 <= j < kept.len() ==> #[trigger] kept[j].1 < oldtop);
            assert(forall|j: int|
                0 <= j < added.len() ==> #[trigger] added[j].1 >= oldtop) by {
                assert(forall|j: int|
                    0 <= j < added.len() ==> added[j] == #[trigger] pre_end.cur_env()[j
                        + kept.len()]);
            }
            crate::state::lemma_env_below_restore(kept, added, oldtop);
            assert forall|t: int|
                0 <= t < entry.reg.top && !slot_bound(entry, t) implies #[trigger] l.reg.array@[t]
                == entry.reg.array@[t] by {
                assert(l.reg.array@[t] == pre_end.reg.array@[t]);
                assert(!slot_bound(pre_body, t)) by {
                    if slot_bound(pre_body, t) {
                        let j = choose|j: int|
                            0 <= j < pre_body.cur_env().len() && (
                        #[trigger] pre_body.cur_env()[j]).1 == t;
                        if j < pre_iter.cur_env().len() {
                            assert(pre_body.cur_env().take(pre_iter.cur_env().len() as int)
                                == pre_iter.cur_env());
                            assert(pre_body.cur_env()[j] == pre_iter.cur_env()[j]);
                            assert(slot_bound(entry, t));
                        } else {
                            assert(pre_body.cur_env()[j].1 >= oldtop);
                        }
                    }
                }
                assert(pre_end.reg.array@[t] == pre_body.reg.array@[t]);
                assert(pre_body.reg.array@.take(oldtop as int)[t] == pre_body.reg.array@[t]);
                assert(pre_body.reg.array@[t] == pre_iter.reg.array@[t]);
            }
        }
    }
    proof {
        assert(stat_st(entry, *l)) by {
            assert(l.cur_env().take(entry.cur_env().len() as int) =~= entry.cur_env());
        }
    }
    Ok(Value::Nil)
}

/// Run a block: its chunk, in the current scope.
pub fn eval_block(l: &mut LuaState, block: &Rule, fuel: u64) -> (r: Result<Value, LuaError>)
    requires
        old(l).wf(),
    ensures
        final(l).wf(),
        final(l).reg.max_size == old(l).reg.max_size,
        r is Ok ==> stat_st(*old(l), *final(l)),
        !(*block is Block) ==> r is Err,
        *block matches Rule::Block(c) ==> ((*c matches Rule::Chunk(stats2, last2) && stats2.len()
            == 0 && last2 is None) ==> (r matches Ok(v) && v == Value::Nil && *final(l) == *old(l))),
        *block matches Rule::Block(c) ==> (*c matches Rule::Chunk(stats2, last2) ==> (last2
            matches Some(ls) ==> (*ls matches Rule::LastStat(e) ==> ((stats2.len() == 0
            && *e is Exp) ==> (const_value(*e) matches Some(v) ==> (fuel > exp_size(*e) ==> (r
            matches Ok(rv) && rv == v))))))),
    decreases fuel, 2int,
{
    match block {
        Rule::Block(chunk) => eval_chunk(l, &**chunk, fuel),
        _ => Err(l.error("invalid rule passed: block expected")),
    }
}

} // verus!
