//! Runtime values and call frames.
//!
//! A `Value` is a tagged union of nil, booleans, 64-bit integers, strings,
//! functions and tables. Functions are either native built-ins or
//! interpreted closures (a parameter list plus a shared syntax-tree block).
//! Tables have reference semantics: a `Value::Table` is a handle (an index
//! into the interpreter state's table store), so copying a table value
//! aliases the same backing store.

use vstd::prelude::*;

use crate::parser::Rule;
use std::rc::Rc;

verus! {

/// The native functions that can be bound to a global name.
#[derive(Debug, PartialEq, Eq, Clone, Copy)]
pub enum LuaFn {
    /// `range(n)` pushes the iterator triple `(RangeNext, n, 0)` used by
    /// the generic `for`, iterating `1, 2, ..., n`.
    Range,
    /// `RangeNext(limit, cur)` pushes `cur + 1` while `cur < limit`, and
    /// `nil` once `cur >= limit`.
    RangeNext,
    /// `strlen(s)` pushes the length of the string `s`.
    StrLen,
}

/// The interpreted-closure payload: ordered formal parameter names and the
/// shared body block.
#[derive(Debug)]
pub struct FuncDef {
    pub params: Vec<String>,
    pub body: Rc<Rule>,
}

/// A function value: a native binding or a shared interpreted closure.
#[derive(Debug)]
pub enum LuaFunction {
    Native(LuaFn),
    Code(Rc<FuncDef>),
}

/// A runtime value.
#[derive(Debug)]
pub enum Value {
    Nil,
    Bool(bool),
    Number(i64),
    LuaString(String),
    Function(LuaFunction),
    /// A shared handle into the interpreter state's table store.
    Table(usize),
}

/// One record per active interpreted call: local-variable names mapped to
/// absolute registry slots, and the return-pending flag.
#[derive(Debug)]
pub struct CallFrame {
    /// Later entries shadow earlier ones of the same name.
    pub env: Vec<(String, usize)>,
    pub to_return: bool,
}

/// Relies on `Rc::clone`: the clone is a second handle to the same shared
/// function definition.
#[verifier::external_body]
fn rc_funcdef_clone(f: &Rc<FuncDef>) -> (r: Rc<FuncDef>)
    ensures
        r == *f,
{
    Rc::clone(f)
}

/// Relies on `Rc::clone`: the clone is a second handle to the same shared
/// syntax-tree node.
#[verifier::external_body]
pub(crate) fn rc_rule_clone(r: &Rc<Rule>) -> (res: Rc<Rule>)
    ensures
        res == *r,
{
    Rc::clone(r)
}

impl LuaFunction {
    /// Construct a function value from a native binding.
    pub fn from_fn(func: LuaFn) -> (r: LuaFunction)
        ensures
            r == LuaFunction::Native(func),
    {
        LuaFunction::Native(func)
    }

    /// Construct an interpreted closure from its formal parameter names and
    /// its (shared) body block.
    pub fn from_code(params: Vec<String>, block: Rc<Rule>) -> (r: LuaFunction)
        ensures
            r == LuaFunction::Code(Rc::new(FuncDef { params, body: block })),
    {
        LuaFunction::Code(Rc::new(FuncDef { params, body: block }))
    }

    /// An aliasing-preserving duplicate: natives copy, interpreted closures
    /// share the same definition.
    pub fn dup(&self) -> (r: LuaFunction)
        ensures
            r == *self,
    {
        match self {
            LuaFunction::Native(f) => LuaFunction::Native(*f),
            LuaFunction::Code(def) => LuaFunction::Code(rc_funcdef_clone(def)),
        }
    }
}

impl Value {
    /// A cheap, aliasing-preserving duplicate: scalars copy by value,
    /// strings copy their contents, functions and tables keep identity.
    pub fn dup(&self) -> (r: Value)
        ensures
            r == *self,
    {
        match self {
            Value::Nil => Value::Nil,
            Value::Bool(b) => Value::Bool(*b),
            Value::Number(n) => Value::Number(*n),
            Value::LuaString(s) => Value::LuaString(s.clone()),
            Value::Function(f) => Value::Function(f.dup()),
            Value::Table(t) => Value::Table(*t),
        }
    }

    /// The integer behind a `Number`, if this is one.
    pub fn to_int(&self) -> (r: Option<i64>)
        ensures
            match r {
                Some(n) => *self == Value::Number(n),
                None => !(self is Number),
            },
    {
        match self {
            Value::Number(n) => Some(*n),
            _ => None,
        }
    }

    /// The contents behind a `LuaString`, if this is one.
    pub fn to_lua_string(&self) -> (r: Option<String>)
        ensures
            match r {
                Some(s) => *self == Value::LuaString(s),
                None => !(self is LuaString),
            },
    {
        match self {
            Value::LuaString(s) => Some(s.clone()),
            _ => None,
        }
    }

    /// Truthiness: everything except `nil` and `false` is truthy.
    pub fn is_truthy(&self) -> (r: bool)
        ensures
            r == self.spec_truthy(),
    {
        match self {
            Value::Nil => false,
            Value::Bool(b) => *b,
            _ => true,
        }
    }

    /// What counts as true in a condition.
    pub open spec fn spec_truthy(self) -> bool {
        match self {
            Value::Nil => false,
            Value::Bool(b) => b,
            _ => true,
        }
    }
}

} // verus!
