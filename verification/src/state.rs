//! The virtual-machine state and its operations.
//!
//! A [`LuaState`] owns the global table, the registry (a flat value stack
//! shared by argument passing, return passing and local-variable storage)
//! and the stack of call frames. The evaluator drives it through scope
//! operations, operator semantics and the calling convention.

use vstd::prelude::*;

use crate::parser::Rule;
use crate::value::{CallFrame, LuaFn, LuaFunction, Value};
use std::rc::Rc;

verus! {

/// The single, flat error kind of the language implementation; the message
/// distinguishes parse, shape, name, type, stack and unsupported-feature
/// failures.
#[derive(Debug)]
pub struct LuaError {
    pub message: String,
}

/// The global table: name/value bindings with pairwise distinct names.
pub struct Global {
    pub global: Vec<(String, Value)>,
}

/// The registry: an indexable value stack with a cursor and a configured
/// capacity bound. `top` always equals the number of stored values;
/// oversubscription is reported as an error by the state operations, never
/// silently truncated.
pub struct Registry {
    pub array: Vec<Value>,
    pub top: usize,
    pub max_size: usize,
}

/// Scan an association list from its most recent (last) entry backwards;
/// later bindings shadow earlier ones of the same name.
pub open spec fn assoc_lookup<T>(s: Seq<(String, T)>, name: Seq<char>) -> Option<T>
    decreases s.len(),
{
    if s.len() == 0 {
        None
    } else if s.last().0@ == name {
        Some(s.last().1)
    } else {
        assoc_lookup(s.drop_last(), name)
    }
}

/// All keys of the association list are pairwise distinct.
pub open spec fn keys_unique<T>(s: Seq<(String, T)>) -> bool {
    forall|i: int, j: int| 0 <= i < j < s.len() ==> s[i].0@ != s[j].0@
}

proof fn lemma_assoc_found<T>(s: Seq<(String, T)>, i: int, name: Seq<char>)
    requires
        keys_unique(s),
        0 <= i < s.len(),
        s[i].0@ == name,
    ensures
        assoc_lookup(s, name) == Some(s[i].1),
    decreases s.len(),
{
    if i == s.len() - 1 {
    } else {
        assert(s.last().0@ != name);
        assert(s.drop_last()[i] == s[i]);
        lemma_assoc_found(s.drop_last(), i, name);
    }
}

proof fn lemma_assoc_absent<T>(s: Seq<(String, T)>, name: Seq<char>)
    requires
        forall|j: int| 0 <= j < s.len() ==> s[j].0@ != name,
    ensures
        assoc_lookup(s, name) == None::<T>,
    decreases s.len(),
{
    if s.len() > 0 {
        lemma_assoc_absent(s.drop_last(), name);
    }
}

proof fn lemma_assoc_update<T>(s: Seq<(String, T)>, i: int, k: String, v: T)
    requires
        keys_unique(s),
        0 <= i < s.len(),
        k@ == s[i].0@,
    ensures
        keys_unique(s.update(i, (k, v))),
        forall|m: Seq<char>| #[trigger]
            assoc_lookup(s.update(i, (k, v)), m) == if m == k@ {
                Some(v)
            } else {
                assoc_lookup(s, m)
            },
    decreases s.len(),
{
    let s2 = s.update(i, (k, v));
    assert(s2.len() == s.len());
    assert(s2[i] == (k, v));
    assert forall|m: Seq<char>|
        #[trigger] assoc_lookup(s2, m) == if m == k@ {
            Some(v)
        } else {
            assoc_lookup(s, m)
        } by {
        if i == s.len() - 1 {
            assert(s2.last() == (k, v));
            assert(s2.drop_last() =~= s.drop_last());
            if m != k@ {
                assert(s.last().0@ == k@);
                assert(assoc_lookup(s2, m) == assoc_lookup(s2.drop_last(), m));
                assert(assoc_lookup(s, m) == assoc_lookup(s.drop_last(), m));
            }
        } else {
            assert(s2.last() == s[s.len() - 1]);
            assert(s2.drop_last() =~= s.drop_last().update(i, (k, v)));
            assert(s.drop_last()[i] == s[i]);
            lemma_assoc_update(s.drop_last(), i, k, v);
            assert(assoc_lookup(s.drop_last().update(i, (k, v)), m) == if m == k@ {
                Some(v)
            } else {
                assoc_lookup(s.drop_last(), m)
            });
            if m == k@ {
                assert(s.last().0@ != m);
            }
        }
    }
}

proof fn lemma_assoc_push<T>(s: Seq<(String, T)>, k: String, v: T)
    requires
        keys_unique(s),
        forall|j: int| 0 <= j < s.len() ==> s[j].0@ != k@,
    ensures
        keys_unique(s.push((k, v))),
        forall|m: Seq<char>| #[trigger]
            assoc_lookup(s.push((k, v)), m) == if m == k@ {
                Some(v)
            } else {
                assoc_lookup(s, m)
            },
{
    assert(s.push((k, v)).drop_last() =~= s);
    assert(forall|i: int| 0 <= i < s.len() ==> s.push((k, v))[i] == s[i]);
}

impl Registry {
    /// The registry is consistent: the cursor equals the number of stored
    /// values, which stays within the configured capacity.
    pub open spec fn wf(self) -> bool {
        self.top == self.array@.len() && self.array@.len() <= self.max_size
    }

    /// Push one value; returns the new cursor. The caller is responsible
    /// for the capacity bound (the state's fallible push reports
    /// oversubscription as an error).
    pub fn push(&mut self, value: Value) -> (r: usize)
        requires
            old(self).wf(),
            old(self).top < old(self).max_size,
        ensures
            final(self).wf(),
            final(self).array@ == old(self).array@.push(value),
            final(self).top == old(self).top + 1,
            final(self).max_size == old(self).max_size,
            r == final(self).top,
    {
        self.array.push(value);
        self.top = self.top + 1;
        self.top
    }

    /// The value below the cursor, if any.
    pub fn last(&self) -> (r: Option<&Value>)
        requires
            self.wf(),
        ensures
            match r {
                Some(v) => self.top > 0 && *v == self.array@.last(),
                None => self.top == 0,
            },
    {
        if self.top == 0 {
            None
        } else {
            Some(&self.array[self.top - 1])
        }
    }

    /// Pop the value below the cursor, if any.
    pub fn pop(&mut self) -> (r: Option<Value>)
        requires
            old(self).wf(),
        ensures
            final(self).wf(),
            final(self).max_size == old(self).max_size,
            match r {
                Some(v) => old(self).top > 0 && v == old(self).array@.last() && final(self).top
                    == old(self).top - 1 && final(self).array@ == old(self).array@.drop_last(),
                None => old(self).top == 0 && *final(self) == *old(self),
            },
    {
        if self.top == 0 {
            None
        } else {
            self.top = self.top - 1;
            self.array.pop()
        }
    }

    /// Pop, reporting an empty registry as an error.
    pub fn ensure_pop(&mut self) -> (r: Result<Value, LuaError>)
        requires
            old(self).wf(),
        ensures
            final(self).wf(),
            final(self).max_size == old(self).max_size,
            match r {
                Ok(v) => old(self).top > 0 && v == old(self).array@.last() && final(self).top
                    == old(self).top - 1 && final(self).array@ == old(self).array@.drop_last(),
                Err(_) => old(self).top == 0 && *final(self) == *old(self),
            },
    {
        match self.pop() {
            Some(v) => Ok(v),
            None => Err(
                LuaError {
                    message: "Cannot find value from registry, maybe empty".to_owned(),
                },
            ),
        }
    }

    /// Read the integer at position `pos` counted down from the cursor
    /// (`pos == 1` is the value below the cursor); a non-number is a type
    /// error.
    pub fn to_int(&self, pos: usize) -> (r: Result<i64, LuaError>)
        requires
            self.wf(),
            1 <= pos <= self.top,
        ensures
            match r {
                Ok(n) => self.array@[self.top - pos] == Value::Number(n),
                Err(_) => !(self.array@[self.top - pos] is Number),
            },
    {
        let idx = self.top - pos;
        let value = &self.array[idx];
        match value.to_int() {
            Some(n) => Ok(n),
            None => Err(
                LuaError {
                    message: "TypeError: cannot cast into int".to_owned(),
                },
            ),
        }
    }

    /// Read the string at position `pos` counted down from the cursor; a
    /// non-string is a type error.
    pub fn to_string(&self, pos: usize) -> (r: Result<String, LuaError>)
        requires
            self.wf(),
            1 <= pos <= self.top,
        ensures
            match r {
                Ok(s) => self.array@[self.top - pos] == Value::LuaString(s),
                Err(_) => !(self.array@[self.top - pos] is LuaString),
            },
    {
        let idx = self.top - pos;
        let value = &self.array[idx];
        match value.to_lua_string() {
            Some(s) => Ok(s),
            None => Err(
                LuaError {
                    message: "TypeError: cannot cast into str".to_owned(),
                },
            ),
        }
    }
}

/// The whole execution state of one interpreter run.
pub struct LuaState {
    pub g: Global,
    pub reg: Registry,
    pub frame_stack: Vec<CallFrame>,
    /// The backing store of all tables; a `Value::Table(id)` is a shared
    /// handle into this store, so copied table values alias one entry.
    pub tables: Vec<Vec<Value>>,
}

impl LuaState {
    /// The registry is consistent, every recorded local slot lies below the
    /// registry cursor, and global names are pairwise distinct.
    pub open spec fn wf(self) -> bool {
        &&& self.reg.wf()
        &&& keys_unique(self.g.global@)
        &&& forall|i: int, j: int|
            0 <= i < self.frame_stack@.len() && 0 <= j < self.frame_stack@[i].env@.len()
                ==> #[trigger] self.frame_stack@[i].env@[j].1 < self.reg.top
    }

    /// What the global table binds `name` to.
    pub open spec fn global_of(self, name: Seq<char>) -> Option<Value> {
        assoc_lookup(self.g.global@, name)
    }

    /// The innermost call frame's bindings (meaningful only when a frame is
    /// active).
    pub open spec fn cur_env(self) -> Seq<(String, usize)> {
        self.frame_stack@.last().env@
    }

    /// The registry slot the innermost frame binds `name` to, if an
    /// interpreted call is active and the name is a local there.
    pub open spec fn local_slot(self, name: Seq<char>) -> Option<usize> {
        if self.frame_stack@.len() == 0 {
            None
        } else {
            assoc_lookup(self.cur_env(), name)
        }
    }

    /// A fresh state: empty global table, empty registry of capacity
    /// `reg_size`, no call frames, no tables.
    pub fn new(reg_size: usize) -> (r: Self)
        ensures
            r.wf(),
            r.g.global@.len() == 0,
            r.reg.array@.len() == 0,
            r.reg.top == 0,
            r.reg.max_size == reg_size,
            r.frame_stack@.len() == 0,
            r.tables@.len() == 0,
    {
        let global = Vec::new();
        let g = Global { global };
        let reg = Registry { array: Vec::new(), top: 0, max_size: reg_size };
        let frame_stack = Vec::new();
        Self { g, reg, frame_stack, tables: Vec::new() }
    }

    /// Build the flat error value from a message.
    pub fn error(&self, msg: &str) -> (r: LuaError)
        ensures
            r.message@ == msg@,
    {
        LuaError { message: msg.to_owned() }
    }

    /// Read a native-call argument as an integer, `pos` counted down from
    /// the registry cursor.
    pub fn arg_int(&self, pos: usize) -> (r: Result<i64, LuaError>)
        requires
            self.wf(),
            1 <= pos <= self.reg.top,
        ensures
            match r {
                Ok(n) => self.reg.array@[self.reg.top - pos] == Value::Number(n),
                Err(_) => !(self.reg.array@[self.reg.top - pos] is Number),
            },
    {
        self.reg.to_int(pos)
    }

    /// Read a native-call argument as a string, `pos` counted down from the
    /// registry cursor.
    pub fn arg_string(&self, pos: usize) -> (r: Result<String, LuaError>)
        requires
            self.wf(),
            1 <= pos <= self.reg.top,
        ensures
            match r {
                Ok(s) => self.reg.array@[self.reg.top - pos] == Value::LuaString(s),
                Err(_) => !(self.reg.array@[self.reg.top - pos] is LuaString),
            },
    {
        self.reg.to_string(pos)
    }

    /// Bind `name` to `value` in the global table, overwriting any earlier
    /// binding of that name; all other bindings are untouched.
    #[verifier::loop_isolation(false)]
    pub fn assign_global(&mut self, name: &str, value: Value)
        requires
            old(self).wf(),
        ensures
            final(self).wf(),
            final(self).reg == old(self).reg,
            final(self).frame_stack == old(self).frame_stack,
            final(self).tables == old(self).tables,
            final(self).global_of(name@) == Some(value),
            forall|m: Seq<char>| m != name@ ==> final(self).global_of(m) == old(self).global_of(m),
    {
        let key: String = name.to_owned();
        let n = self.g.global.len();
        let mut i: usize = 0;
        while i < n
            invariant
                i <= n,
                *self == *old(self),
                n == self.g.global@.len(),
                forall|j: int| 0 <= j < i ==> self.g.global@[j].0@ != name@,
            decreases n - i,
        {
            if self.g.global[i].0 == key {
                proof {
                    lemma_assoc_update(self.g.global@, i as int, key, value);
                }
                self.g.global[i] = (key, value);
                return ;
            }
            i = i + 1;
        }
        proof {
            lemma_assoc_push(self.g.global@, key, value);
        }
        self.g.global.push((key, value));
    }

    /// Look `name` up in the global table; the returned value is an
    /// aliasing-preserving duplicate of the stored one.
    #[verifier::loop_isolation(false)]
    pub fn get_global(&self, name: &str) -> (r: Option<Value>)
        requires
            self.wf(),
        ensures
            r == self.global_of(name@),
    {
        let key: String = name.to_owned();
        let n = self.g.global.len();
        let mut i: usize = 0;
        while i < n
            invariant
                i <= n,
                forall|j: int| 0 <= j < i ==> self.g.global@[j].0@ != name@,
            decreases n - i,
        {
            if self.g.global[i].0 == key {
                proof {
                    lemma_assoc_found(self.g.global@, i as int, name@);
                }
                return Some(self.g.global[i].1.dup());
            }
            i = i + 1;
        }
        proof {
            lemma_assoc_absent(self.g.global@, name@);
        }
        None
    }

    /// Bind `name` to the native function `func` in the global table.
    pub fn register_global_fn(&mut self, name: &str, func: LuaFn)
        requires
            old(self).wf(),
        ensures
            final(self).wf(),
            final(self).reg == old(self).reg,
            final(self).frame_stack == old(self).frame_stack,
            final(self).tables == old(self).tables,
            final(self).global_of(name@) == Some(Value::Function(LuaFunction::Native(func))),
            forall|m: Seq<char>| m != name@ ==> final(self).global_of(m) == old(self).global_of(m),
    {
        self.assign_global(name, Value::Function(LuaFunction::from_fn(func)));
    }

    /// Bind `name` to an interpreted closure over the formal parameters
    /// `params` and the (shared) body `block` in the global table.
    pub fn register_global_code(&mut self, name: &str, params: Vec<String>, block: Rc<Rule>)
        requires
            old(self).wf(),
        ensures
            final(self).wf(),
            final(self).reg == old(self).reg,
            final(self).frame_stack == old(self).frame_stack,
            final(self).tables == old(self).tables,
            final(self).global_of(name@) matches Some(v) && v matches Value::Function(f) && f
                matches LuaFunction::Code(def) && def.params == params && def.body == block,
            forall|m: Seq<char>| m != name@ ==> final(self).global_of(m) == old(self).global_of(m),
    {
        self.assign_global(name, Value::Function(LuaFunction::from_code(params, block)));
    }

    /// The innermost call frame, if an interpreted call is active.
    pub fn current_frame(&self) -> (r: Option<&CallFrame>)
        ensures
            match r {
                Some(f) => self.frame_stack@.len() > 0 && *f == self.frame_stack@.last(),
                None => self.frame_stack@.len() == 0,
            },
    {
        let n = self.frame_stack.len();
        if n == 0 {
            None
        } else {
            Some(&self.frame_stack[n - 1])
        }
    }

    /// Whether `name` is a local of the innermost frame.
    #[verifier::loop_isolation(false)]
    pub fn has_local_name(&self, name: &str) -> (r: bool)
        requires
            self.wf(),
        ensures
            r == (self.local_slot(name@) is Some),
    {
        let n = self.frame_stack.len();
        if n == 0 {
            return false;
        }
        let key: String = name.to_owned();
        let frame = &self.frame_stack[n - 1];
        let len = frame.env.len();
        proof {
            assert(self.frame_stack@.last() == self.frame_stack@[n - 1]);
            assert(self.cur_env().take(len as int) =~= self.cur_env());
        }
        let mut k = len;
        while k > 0
            invariant
                k <= len,
                assoc_lookup(self.cur_env(), name@) == assoc_lookup(
                    self.cur_env().take(k as int),
                    name@,
                ),
            decreases k,
        {
            if frame.env[k - 1].0 == key {
                assert(self.cur_env().take(k as int).last() == self.cur_env()[k - 1]);
                return true;
            }
            assert(self.cur_env().take(k as int).drop_last() =~= self.cur_env().take(k - 1));
            k = k - 1;
        }
        false
    }

    /// Look `name` up among the innermost frame's locals and duplicate the
    /// registry slot it is bound to.
    #[verifier::loop_isolation(false)]
    pub fn get_local(&self, name: &str) -> (r: Option<Value>)
        requires
            self.wf(),
        ensures
            r == match self.local_slot(name@) {
                Some(i) => Some(self.reg.array@[i as int]),
                None => None::<Value>,
            },
    {
        let n = self.frame_stack.len();
        if n == 0 {
            return None;
        }
        let key: String = name.to_owned();
        let frame = &self.frame_stack[n - 1];
        let len = frame.env.len();
        proof {
            assert(self.frame_stack@.last() == self.frame_stack@[n - 1]);
            assert(self.cur_env().take(len as int) =~= self.cur_env());
        }
        let mut k = len;
        while k > 0
            invariant
                k <= len,
                assoc_lookup(self.cur_env(), name@) == assoc_lookup(
                    self.cur_env().take(k as int),
                    name@,
                ),
            decreases k,
        {
            if frame.env[k - 1].0 == key {
                assert(self.cur_env().take(k as int).last() == self.cur_env()[k - 1]);
                let idx = frame.env[k - 1].1;
                assert(idx < self.reg.top);
                return Some(self.reg.array[idx].dup());
            }
            assert(self.cur_env().take(k as int).drop_last() =~= self.cur_env().take(k - 1));
            k = k - 1;
        }
        None
    }

    /// Push `value` onto the registry and record `name` as a fresh local of
    /// the innermost frame, bound to the new slot; later bindings shadow
    /// earlier ones of the same name. Fails only when the registry is full.
    pub fn declare_local(&mut self, name: &str, value: Value) -> (r: Result<(), LuaError>)
        requires
            old(self).wf(),
            old(self).frame_stack@.len() > 0,
        ensures
            final(self).wf(),
            final(self).g == old(self).g,
            final(self).tables == old(self).tables,
            final(self).reg.max_size == old(self).reg.max_size,
            match r {
                Ok(_) => {
                    &&& final(self).reg.array@ == old(self).reg.array@.push(value)
                    &&& final(self).reg.top == old(self).reg.top + 1
                    &&& final(self).frame_stack@.len() == old(self).frame_stack@.len()
                    &&& final(self).frame_stack@.drop_last() == old(self).frame_stack@.drop_last()
                    &&& final(self).frame_stack@.last().to_return == old(self).frame_stack@.last().to_return
                    &&& final(self).cur_env().len() == old(self).cur_env().len() + 1
                    &&& final(self).cur_env().drop_last() == old(self).cur_env()
                    &&& final(self).cur_env().last().0@ == name@
                    &&& final(self).cur_env().last().1 == old(self).reg.top
                },
                Err(_) => old(self).reg.top == old(self).reg.max_size && *final(self) == *old(self),
            },
    {
        if self.reg.top == self.reg.max_size {
            return Err(self.error("registry overflow"));
        }
        let idx = self.reg.top;
        self.reg.push(value);
        let mut fr = match self.frame_stack.pop() {
            Some(fr) => fr,
            None => {
                return Err(self.error("no active call frame"));
            },
        };
        fr.env.push((name.to_owned(), idx));
        self.frame_stack.push(fr);
        proof {
            assert(final(self).frame_stack@.drop_last() =~= old(self).frame_stack@.drop_last());
            assert(final(self).cur_env().drop_last() =~= old(self).cur_env());
        }
        Ok(())
    }

    /// Overwrite the registry slot that the innermost frame binds `name`
    /// to; the bindings themselves are untouched.
    #[verifier::loop_isolation(false)]
    pub fn assign_local(&mut self, name: &str, value: Value)
        requires
            old(self).wf(),
            old(self).local_slot(name@) is Some,
        ensures
            final(self).wf(),
            final(self).g == old(self).g,
            final(self).tables == old(self).tables,
            final(self).frame_stack == old(self).frame_stack,
            final(self).reg.top == old(self).reg.top,
            final(self).reg.max_size == old(self).reg.max_size,
            final(self).reg.array@ == old(self).reg.array@.update(
                old(self).local_slot(name@).unwrap() as int,
                value,
            ),
    {
        let n = self.frame_stack.len();
        let key: String = name.to_owned();
        let len = self.frame_stack[n - 1].env.len();
        proof {
            assert(self.frame_stack@.last() == self.frame_stack@[n - 1]);
            assert(self.cur_env().take(len as int) =~= self.cur_env());
        }
        let mut k = len;
        while k > 0
            invariant
                k <= len,
                *self == *old(self),
                assoc_lookup(self.cur_env(), name@) == assoc_lookup(
                    self.cur_env().take(k as int),
                    name@,
                ),
            decreases k,
        {
            if self.frame_stack[n - 1].env[k - 1].0 == key {
                proof {
                    assert(self.cur_env().take(k as int).last() == self.cur_env()[k - 1]);
                }
                let idx = self.frame_stack[n - 1].env[k - 1].1;
                assert(idx < self.reg.top);
                self.reg.array[idx] = value;
                return ;
            }
            assert(self.cur_env().take(k as int).drop_last() =~= self.cur_env().take(k - 1));
            k = k - 1;
        }
        proof {
            assert(self.cur_env().take(0) =~= Seq::<(String, usize)>::empty());
        }
    }

    /// Set the innermost frame's return-pending flag.
    pub fn set_to_return(&mut self, to_return: bool)
        requires
            old(self).wf(),
            old(self).frame_stack@.len() > 0,
        ensures
            final(self).wf(),
            final(self).g == old(self).g,
            final(self).reg == old(self).reg,
            final(self).tables == old(self).tables,
            final(self).frame_stack@.len() == old(self).frame_stack@.len(),
            final(self).frame_stack@.drop_last() == old(self).frame_stack@.drop_last(),
            final(self).frame_stack@.last().env == old(self).frame_stack@.last().env,
            final(self).frame_stack@.last().to_return == to_return,
    {
        let mut fr = match self.frame_stack.pop() {
            Some(fr) => fr,
            None => {
                return ;
            },
        };
        fr.to_return = to_return;
        self.frame_stack.push(fr);
        proof {
            assert(final(self).frame_stack@.drop_last() =~= old(self).frame_stack@.drop_last());
        }
    }

    /// Whether the innermost frame has a pending return; false at top
    /// level, where no frame is active.
    pub fn to_return(&mut self) -> (r: bool)
        ensures
            *final(self) == *old(self),
            r == (old(self).frame_stack@.len() > 0 && old(self).frame_stack@.last().to_return),
    {
        match self.current_frame() {
            Some(f) => f.to_return,
            None => false,
        }
    }

    /// Push a function's return value onto the registry.
    pub fn push_return(&mut self, retval: Value)
        requires
            old(self).wf(),
            old(self).reg.top < old(self).reg.max_size,
        ensures
            final(self).wf(),
            final(self).g == old(self).g,
            final(self).tables == old(self).tables,
            final(self).frame_stack == old(self).frame_stack,
            final(self).reg.max_size == old(self).reg.max_size,
            final(self).reg.array@ == old(self).reg.array@.push(retval),
            final(self).reg.top == old(self).reg.top + 1,
    {
        self.reg.push(retval);
    }

    /// Push a value onto the registry, reporting oversubscription of the
    /// configured capacity as an error instead of growing past it.
    pub fn push_value(&mut self, value: Value) -> (r: Result<(), LuaError>)
        requires
            old(self).wf(),
        ensures
            final(self).wf(),
            final(self).g == old(self).g,
            final(self).tables == old(self).tables,
            final(self).frame_stack == old(self).frame_stack,
            final(self).reg.max_size == old(self).reg.max_size,
            match r {
                Ok(_) => final(self).reg.array@ == old(self).reg.array@.push(value) && final(self).reg.top == old(self).reg.top + 1,
                Err(_) => old(self).reg.top == old(self).reg.max_size && *final(self) == *old(self),
            },
    {
        if self.reg.top == self.reg.max_size {
            return Err(self.error("registry overflow"));
        }
        self.reg.push(value);
        Ok(())
    }

    /// Record the block-entry checkpoint: the current registry cursor.
    pub fn start_block_raw(&mut self) -> (r: usize)
        ensures
            *final(self) == *old(self),
            r == old(self).reg.top,
    {
        self.reg.top
    }

    /// Leave a block: roll the registry back to the checkpoint and drop the
    /// innermost frame's bindings that pointed into the discarded region.
    #[verifier::loop_isolation(false)]
    pub fn end_block_raw(&mut self, oldtop: usize) -> (r: Result<(), LuaError>)
        requires
            old(self).wf(),
            old(self).frame_stack@.len() > 0,
            oldtop <= old(self).reg.top,
            forall|i: int, j: int|
                0 <= i < old(self).frame_stack@.len() - 1 && 0 <= j < old(self).frame_stack@[i].env@.len() ==> #[trigger] old(self).frame_stack@[i].env@[j].1
                    < oldtop,
        ensures
            final(self).wf(),
            r is Ok,
            final(self).g == old(self).g,
            final(self).tables == old(self).tables,
            final(self).reg.max_size == old(self).reg.max_size,
            final(self).reg.top == oldtop,
            final(self).reg.array@ == old(self).reg.array@.take(oldtop as int),
            final(self).frame_stack@.len() == old(self).frame_stack@.len(),
            final(self).frame_stack@.drop_last() == old(self).frame_stack@.drop_last(),
            final(self).frame_stack@.last().to_return == old(self).frame_stack@.last().to_return,
            final(self).cur_env() == env_below(old(self).cur_env(), oldtop),
    {
        self.reg.array.truncate(oldtop);
        self.reg.top = oldtop;
        let mut fr = match self.frame_stack.pop() {
            Some(fr) => fr,
            None => {
                return Err(self.error("no active call frame"));
            },
        };
        let len = fr.env.len();
        let mut kept: Vec<(String, usize)> = Vec::new();
        let mut j: usize = 0;
        while j < len
            invariant
                j <= len,
                len == fr.env@.len(),
                kept@ == env_below(fr.env@.take(j as int), oldtop),
            decreases len - j,
        {
            proof {
                assert(fr.env@.take(j + 1).last() == fr.env@[j as int]);
                assert(fr.env@.take(j + 1).drop_last() =~= fr.env@.take(j as int));
            }
            if fr.env[j].1 < oldtop {
                let entry = (fr.env[j].0.clone(), fr.env[j].1);
                assert(entry == fr.env@[j as int]);
                kept.push(entry);
            }
            j = j + 1;
        }
        proof {
            assert(fr.env@.take(len as int) =~= fr.env@);
        }
        let fr2 = CallFrame { env: kept, to_return: fr.to_return };
        self.frame_stack.push(fr2);
        proof {
            assert(final(self).frame_stack@.drop_last() =~= old(self).frame_stack@.drop_last());
            lemma_env_below_bounded(old(self).cur_env(), oldtop);
        }
        Ok(())
    }

    /// Create a fresh, empty shared table and return its handle.
    pub fn newtable(&mut self) -> (id: usize)
        requires
            old(self).wf(),
        ensures
            final(self).wf(),
            final(self).g == old(self).g,
            final(self).reg == old(self).reg,
            final(self).frame_stack == old(self).frame_stack,
            final(self).tables@.len() == old(self).tables@.len() + 1,
            final(self).tables@.drop_last() == old(self).tables@,
            final(self).tables@.last()@ == Seq::<Value>::empty(),
            id == old(self).tables@.len(),
    {
        let id = self.tables.len();
        let t: Vec<Value> = Vec::new();
        self.tables.push(t);
        proof {
            assert(final(self).tables@.drop_last() =~= old(self).tables@);
        }
        id
    }

    /// The contents of the table behind handle `id`.
    pub open spec fn table_view(self, id: int) -> Seq<Value> {
        self.tables@[id]@
    }

    /// Append `value` to the array part of the table behind `id`; all
    /// copies of the handle observe the change. An unknown handle is an
    /// error.
    pub fn table_append(&mut self, id: usize, value: Value) -> (r: Result<(), LuaError>)
        requires
            old(self).wf(),
        ensures
            final(self).wf(),
            final(self).g == old(self).g,
            final(self).reg == old(self).reg,
            final(self).frame_stack == old(self).frame_stack,
            final(self).tables@.len() == old(self).tables@.len(),
            match r {
                Ok(_) => {
                    &&& id < old(self).tables@.len()
                    &&& final(self).table_view(id as int) == old(self).table_view(
                        id as int,
                    ).push(value)
                    &&& forall|k: int|
                        0 <= k < old(self).tables@.len() && k != id ==> final(self).tables@[k]
                            == old(self).tables@[k]
                },
                Err(_) => id >= old(self).tables@.len() && *final(self) == *old(self),
            },
    {
        let n = self.tables.len();
        if id >= n {
            return Err(self.error("invalid table handle"));
        }
        if id == n - 1 {
            let mut t = match self.tables.pop() {
                Some(t) => t,
                None => {
                    return Err(self.error("invalid table handle"));
                },
            };
            t.push(value);
            self.tables.push(t);
            proof {
                assert(final(self).tables@ =~= old(self).tables@.update(
                    id as int,
                    final(self).tables@[id as int],
                ));
            }
        } else {
            let mut t = self.tables.swap_remove(id);
            t.push(value);
            self.tables.push(t);
            let displaced = self.tables.swap_remove(id);
            self.tables.push(displaced);
            proof {
                assert(final(self).tables@ =~= old(self).tables@.update(
                    id as int,
                    final(self).tables@[id as int],
                ));
            }
        }
        Ok(())
    }

    /// Read one element of a table's array part, for inspection from
    /// outside the evaluator.
    pub fn table_get(&self, id: usize, idx: usize) -> (r: Option<Value>)
        ensures
            match r {
                Some(v) => id < self.tables@.len() && idx < self.table_view(id as int).len() && v
                    == self.table_view(id as int)[idx as int],
                None => id >= self.tables@.len() || idx >= self.table_view(id as int).len(),
            },
    {
        if id >= self.tables.len() {
            return None;
        }
        if idx >= self.tables[id].len() {
            return None;
        }
        Some(self.tables[id][idx].dup())
    }

    /// The number of elements in a table's array part, or `None` for an
    /// unknown handle.
    pub fn table_len(&self, id: usize) -> (r: Option<usize>)
        ensures
            match r {
                Some(n) => id < self.tables@.len() && n == self.table_view(id as int).len(),
                None => id >= self.tables@.len(),
            },
    {
        if id >= self.tables.len() {
            return None;
        }
        Some(self.tables[id].len())
    }

    /// Apply a binary operator to two operands of the same kind; numbers
    /// support arithmetic and all six comparisons, booleans support
    /// conjunction and disjunction, strings support equality and
    /// inequality. Operands of differing kinds, and kind/operator
    /// combinations outside this table, are type errors.
    pub fn process_op(&self, op: &char, lvalue: Value, rvalue: Value) -> (r: Result<
        Value,
        LuaError,
    >)
        ensures
            match spec_op_value(*op, lvalue, rvalue) {
                Some(v) => r matches Ok(x) && x == v,
                None => r is Err,
            },
    {
        match (lvalue, rvalue) {
            (Value::Number(n), Value::Number(m)) => self.process_op_number(op, n, m),
            (Value::Bool(n), Value::Bool(m)) => self.process_op_bool(op, n, m),
            (Value::LuaString(n), Value::LuaString(m)) => self.process_op_str(
                op,
                n.as_str(),
                m.as_str(),
            ),
            _ => Err(self.error("type error")),
        }
    }

    /// The arithmetic and comparison table on integers; arithmetic that
    /// overflows 64 bits, and division by zero, are errors.
    pub fn process_op_number(&self, op: &char, l: i64, r: i64) -> (res: Result<Value, LuaError>)
        ensures
            match spec_op_number(*op, l, r) {
                Some(v) => res matches Ok(x) && x == v,
                None => res is Err,
            },
    {
        let ret = match *op {
            '+' => match l.checked_add(r) {
                Some(n) => Value::Number(n),
                None => {
                    return Err(self.error("arithmetic overflow"));
                },
            },
            '-' => match l.checked_sub(r) {
                Some(n) => Value::Number(n),
                None => {
                    return Err(self.error("arithmetic overflow"));
                },
            },
            '*' => match l.checked_mul(r) {
                Some(n) => Value::Number(n),
                None => {
                    return Err(self.error("arithmetic overflow"));
                },
            },
            '/' => match l.checked_div(r) {
                Some(n) => Value::Number(n),
                None => {
                    return Err(self.error("division by zero or overflow"));
                },
            },
            'l' => Value::Bool(l <= r),
            '<' => Value::Bool(l < r),
            'g' => Value::Bool(l >= r),
            '>' => Value::Bool(l > r),
            'e' => Value::Bool(l == r),
            'n' => Value::Bool(l != r),
            _ => {
                return Err(self.error("unsupported op"));
            },
        };
        Ok(ret)
    }

    /// The logical operator table on booleans.
    pub fn process_op_bool(&self, op: &char, l: bool, r: bool) -> (res: Result<Value, LuaError>)
        ensures
            match spec_op_bool(*op, l, r) {
                Some(v) => res matches Ok(x) && x == v,
                None => res is Err,
            },
    {
        let ret = match *op {
            '&' => Value::Bool(l && r),
            '|' => Value::Bool(l || r),
            _ => {
                return Err(self.error("unsupported op"));
            },
        };
        Ok(ret)
    }

    /// The operator table on strings: only equality and inequality.
    pub fn process_op_str(&self, op: &char, l: &str, r: &str) -> (res: Result<Value, LuaError>)
        ensures
            match spec_op_str(*op, l@, r@) {
                Some(v) => res matches Ok(x) && x == v,
                None => res is Err,
            },
    {
        let ret = match *op {
            'e' => Value::Bool(l.to_owned() == r.to_owned()),
            'n' => Value::Bool(!(l.to_owned() == r.to_owned())),
            _ => {
                return Err(self.error("unsupported op"));
            },
        };
        Ok(ret)
    }

    /// Apply a unary operator: `not` (any value, by truthiness), numeric
    /// negation, and string length; everything else is an error.
    pub fn process_unop(&self, op: &char, value: Value) -> (res: Result<Value, LuaError>)
        ensures
            match spec_unop(*op, value) {
                Some(v) => res matches Ok(x) && x == v,
                None => res is Err,
            },
    {
        if *op == '!' {
            return Ok(Value::Bool(!value.is_truthy()));
        }
        match *op {
            '-' => match value {
                Value::Number(n) => match 0i64.checked_sub(n) {
                    Some(m) => Ok(Value::Number(m)),
                    None => Err(self.error("arithmetic overflow")),
                },
                _ => Err(self.error("type error")),
            },
            '#' => match value {
                Value::LuaString(s) => {
                    let l = s.as_str().unicode_len();
                    if l as u64 <= i64::MAX as u64 {
                        Ok(Value::Number(l as i64))
                    } else {
                        Err(self.error("string too long"))
                    }
                },
                _ => Err(self.error("type error")),
            },
            _ => Err(self.error("unsupported op")),
        }
    }
}

/// The bindings of `env` that point below `bound`, in order.
pub open spec fn env_below(env: Seq<(String, usize)>, bound: usize) -> Seq<(String, usize)>
    decreases env.len(),
{
    if env.len() == 0 {
        Seq::empty()
    } else if env.last().1 < bound {
        env_below(env.drop_last(), bound).push(env.last())
    } else {
        env_below(env.drop_last(), bound)
    }
}

/// Every binding kept by `env_below` points below the bound.
pub proof fn lemma_env_below_bounded(env: Seq<(String, usize)>, bound: usize)
    ensures
        forall|j: int|
            0 <= j < env_below(env, bound).len() ==> #[trigger] env_below(env, bound)[j].1 < bound,
    decreases env.len(),
{
    if env.len() > 0 {
        lemma_env_below_bounded(env.drop_last(), bound);
        let b = env_below(env, bound);
        let bd = env_below(env.drop_last(), bound);
        if env.last().1 < bound {
            assert forall|j: int| 0 <= j < b.len() implies #[trigger] b[j].1 < bound by {
                if j < bd.len() {
                    assert(b[j] == bd[j]);
                } else {
                    assert(b[j] == env.last());
                }
            }
        }
    }
}

/// Rolling a block back removes exactly the bindings made inside it: if
/// everything old points below the checkpoint and everything added inside
/// the block points at or above it, what is kept is the old bindings,
/// unchanged and in order.
pub proof fn lemma_env_below_restore(
    pre: Seq<(String, usize)>,
    added: Seq<(String, usize)>,
    bound: usize,
)
    requires
        forall|j: int| 0 <= j < pre.len() ==> #[trigger] pre[j].1 < bound,
        forall|j: int| 0 <= j < added.len() ==> #[trigger] added[j].1 >= bound,
    ensures
        env_below(pre + added, bound) == pre,
    decreases added.len(),
{
    if added.len() == 0 {
        assert(pre + added =~= pre);
        lemma_env_below_all(pre, bound);
    } else {
        assert((pre + added).last() == added.last());
        assert((pre + added).drop_last() =~= pre + added.drop_last());
        lemma_env_below_restore(pre, added.drop_last(), bound);
    }
}

/// When every binding points below the bound, nothing is removed.
proof fn lemma_env_below_all(env: Seq<(String, usize)>, bound: usize)
    requires
        forall|j: int| 0 <= j < env.len() ==> #[trigger] env[j].1 < bound,
    ensures
        env_below(env, bound) == env,
    decreases env.len(),
{
    if env.len() > 0 {
        lemma_env_below_all(env.drop_last(), bound);
        assert(env_below(env, bound) =~= env);
    }
}

/// The integer operator table: arithmetic through the checked operations,
/// comparisons by the mathematical order. `None` is an error (overflow,
/// division by zero, or an operator numbers do not support).
pub open spec fn spec_op_number(op: char, l: i64, r: i64) -> Option<Value> {
    if op == '+' {
        match l.checked_add(r) {
            Some(n) => Some(Value::Number(n)),
            None => None,
        }
    } else if op == '-' {
        match l.checked_sub(r) {
            Some(n) => Some(Value::Number(n)),
            None => None,
        }
    } else if op == '*' {
        match l.checked_mul(r) {
            Some(n) => Some(Value::Number(n)),
            None => None,
        }
    } else if op == '/' {
        match l.checked_div(r) {
            Some(n) => Some(Value::Number(n)),
            None => None,
        }
    } else if op == 'l' {
        Some(Value::Bool(l <= r))
    } else if op == '<' {
        Some(Value::Bool(l < r))
    } else if op == 'g' {
        Some(Value::Bool(l >= r))
    } else if op == '>' {
        Some(Value::Bool(l > r))
    } else if op == 'e' {
        Some(Value::Bool(l == r))
    } else if op == 'n' {
        Some(Value::Bool(l != r))
    } else {
        None
    }
}

/// The boolean operator table: conjunction and disjunction only.
pub open spec fn spec_op_bool(op: char, l: bool, r: bool) -> Option<Value> {
    if op == '&' {
        Some(Value::Bool(l && r))
    } else if op == '|' {
        Some(Value::Bool(l || r))
    } else {
        None
    }
}

/// The string operator table: equality and inequality only.
pub open spec fn spec_op_str(op: char, l: Seq<char>, r: Seq<char>) -> Option<Value> {
    if op == 'e' {
        Some(Value::Bool(l == r))
    } else if op == 'n' {
        Some(Value::Bool(l != r))
    } else {
        None
    }
}

/// Binary operators are defined only on operands of the same kind; a
/// mixed-kind application is a type error (`None`).
pub open spec fn spec_op_value(op: char, l: Value, r: Value) -> Option<Value> {
    match (l, r) {
        (Value::Number(a), Value::Number(b)) => spec_op_number(op, a, b),
        (Value::Bool(a), Value::Bool(b)) => spec_op_bool(op, a, b),
        (Value::LuaString(a), Value::LuaString(b)) => spec_op_str(op, a@, b@),
        _ => None,
    }
}

/// The unary operator table: `not` by truthiness on any value, negation on
/// numbers, length on strings; everything else (including bitwise not) is
/// unsupported and an error.
pub open spec fn spec_unop(op: char, v: Value) -> Option<Value> {
    if op == '!' {
        Some(Value::Bool(!v.spec_truthy()))
    } else if op == '-' {
        match v {
            Value::Number(n) => if n == i64::MIN {
                None
            } else {
                Some(Value::Number((0 - n) as i64))
            },
            _ => None,
        }
    } else if op == '#' {
        match v {
            Value::LuaString(s) => if s@.len() <= i64::MAX {
                Some(Value::Number(s@.len() as i64))
            } else {
                None
            },
            _ => None,
        }
    } else {
        None
    }
}


/// The evaluation budget a convenience call starts with; each evaluation
/// step and each loop iteration consumes one unit.
pub const DEFAULT_FUEL: u64 = 1000000;

/// What one step of the built-in range iterator yields: the next control
/// value while the limit is not reached, and `nil` from then on.
pub open spec fn range_step(lim: i64, cur: i64) -> Value {
    if cur < lim {
        Value::Number((cur + 1) as i64)
    } else {
        Value::Nil
    }
}

/// The generic-for driver stops at the first `nil` from the iterator. For
/// the built-in range iterator over limit `n`, the step from control `k`
/// yields `k + 1` (never `nil`) exactly while `k < n`, and `nil` exactly
/// from `k == n` on: a loop whose control starts at 0 and follows the
/// steps sees `nil` on call `n + 1` and therefore runs exactly `n`
/// iterations.
pub proof fn lemma_range_iteration_count(n: i64, k: i64)
    requires
        0 <= k <= n,
    ensures
        k < n ==> range_step(n, k) == Value::Number((k + 1) as i64),
        (range_step(n, k) == Value::Nil) <==> k == n,
{
}

/// Exactly the values a native call pushes, as a function of the state it
/// runs against (its arguments sit below the registry cursor).
pub open spec fn native_pushes(f: LuaFn, st: LuaState) -> Seq<Value> {
    match f {
        LuaFn::Range => seq![
            Value::Function(LuaFunction::Native(LuaFn::RangeNext)),
            st.reg.array@[st.reg.top - 1],
            Value::Number(0),
        ],
        LuaFn::RangeNext => seq![
            match (st.reg.array@[st.reg.top - 2], st.reg.array@[st.reg.top - 1]) {
                (Value::Number(lim), Value::Number(cur)) => range_step(lim, cur),
                _ => Value::Nil,
            },
        ],
        LuaFn::StrLen => seq![
            match st.reg.array@[st.reg.top - 1] {
                Value::LuaString(s2) => Value::Number(s2@.len() as i64),
                _ => Value::Nil,
            },
        ],
    }
}

/// When a native call is owed success: the arguments it reads are on the
/// registry with the right kinds, and the registry has room for what it
/// pushes.
pub open spec fn native_args_ok(f: LuaFn, st: LuaState) -> bool {
    match f {
        LuaFn::Range => st.reg.top >= 1 && st.reg.array@[st.reg.top - 1] is Number && st.reg.top
            + 3 <= st.reg.max_size,
        LuaFn::RangeNext => st.reg.top >= 2 && st.reg.array@[st.reg.top - 2] is Number
            && st.reg.array@[st.reg.top - 1] is Number && st.reg.top + 1 <= st.reg.max_size,
        LuaFn::StrLen => st.reg.top >= 1 && (st.reg.array@[st.reg.top - 1] matches
            Value::LuaString(s2) && s2@.len() <= i64::MAX) && st.reg.top + 1 <= st.reg.max_size,
    }
}

/// When a call of a native with an explicit argument list is owed
/// success: the list has the native's arity with the kinds it reads, and
/// the registry has room for the arguments and everything it pushes.
pub open spec fn native_calln_ok(f: LuaFn, st: LuaState, args: Seq<Value>) -> bool {
    match f {
        LuaFn::Range => args.len() == 1 && args[0] is Number && st.reg.top + 4
            <= st.reg.max_size,
        LuaFn::RangeNext => args.len() == 2 && args[0] is Number && args[1] is Number
            && st.reg.top + 3 <= st.reg.max_size,
        LuaFn::StrLen => args.len() == 1 && (args[0] matches Value::LuaString(s2) && s2@.len()
            <= i64::MAX) && st.reg.top + 2 <= st.reg.max_size,
    }
}

/// The values such a call returns, in push order.
pub open spec fn native_calln_results(f: LuaFn, args: Seq<Value>) -> Seq<Value> {
    match f {
        LuaFn::Range => seq![
            Value::Function(LuaFunction::Native(LuaFn::RangeNext)),
            args[0],
            Value::Number(0),
        ],
        LuaFn::RangeNext => seq![
            match (args[0], args[1]) {
                (Value::Number(lim), Value::Number(cur)) => range_step(lim, cur),
                _ => Value::Nil,
            },
        ],
        LuaFn::StrLen => seq![
            match args[0] {
                Value::LuaString(s2) => Value::Number(s2@.len() as i64),
                _ => Value::Nil,
            },
        ],
    }
}

/// When the one-argument convenience call of a native is owed success:
/// the argument (which the call pushes) and the values already below the
/// cursor have the kinds the native reads, and the registry has room for
/// the argument and everything the native pushes.
pub open spec fn native_call1_ok(f: LuaFn, st: LuaState, arg: Value) -> bool {
    match f {
        LuaFn::Range => arg is Number && st.reg.top + 4 <= st.reg.max_size,
        LuaFn::RangeNext => st.reg.top >= 1 && st.reg.array@[st.reg.top - 1] is Number
            && arg is Number && st.reg.top + 2 <= st.reg.max_size,
        LuaFn::StrLen => (arg matches Value::LuaString(s2) && s2@.len() <= i64::MAX) && st.reg.top
            + 2 <= st.reg.max_size,
    }
}

/// The value the one-argument convenience call of a native returns: the
/// single value the native pushed, or `nil` where it pushed none or more
/// than one (only the single declared return is kept).
pub open spec fn native_call1_result(f: LuaFn, st: LuaState, arg: Value) -> Value {
    match f {
        LuaFn::Range => Value::Nil,
        LuaFn::RangeNext => match (st.reg.array@[st.reg.top - 1], arg) {
            (Value::Number(lim), Value::Number(cur)) => range_step(lim, cur),
            _ => Value::Nil,
        },
        LuaFn::StrLen => match arg {
            Value::LuaString(s2) => Value::Number(s2@.len() as i64),
            _ => Value::Nil,
        },
    }
}

impl LuaState {
    /// Run a native function: it reads its arguments by position relative
    /// to the registry cursor, pushes its results, and reports how many
    /// values it pushed. No call frame is involved. It succeeds exactly
    /// when its arguments are in place and the registry has room; on
    /// failure the state is untouched.
    pub fn call_native(&mut self, f: LuaFn) -> (r: Result<usize, LuaError>)
        requires
            old(self).wf(),
        ensures
            final(self).wf(),
            final(self).g == old(self).g,
            final(self).tables == old(self).tables,
            final(self).frame_stack == old(self).frame_stack,
            final(self).reg.max_size == old(self).reg.max_size,
            match r {
                Ok(n) => {
                    &&& native_args_ok(f, *old(self))
                    &&& final(self).reg.top == old(self).reg.top + n
                    &&& final(self).reg.array@.subrange(0, old(self).reg.top as int) == old(self).reg.array@
                    &&& final(self).reg.array@ == old(self).reg.array@ + native_pushes(
                        f,
                        *old(self),
                    )
                    &&& n == native_pushes(f, *old(self)).len()
                    &&& match f {
                        LuaFn::Range => n == 3 && (old(self).reg.array@[old(self).reg.top
                            - 1] matches Value::Number(lim) && final(self).reg.array@[old(self).reg.top as int] == Value::Function(LuaFunction::Native(LuaFn::RangeNext))
                            && final(self).reg.array@[old(self).reg.top + 1] == Value::Number(lim)
                            && final(self).reg.array@[old(self).reg.top + 2] == Value::Number(0)),
                        LuaFn::RangeNext => n == 1 && (old(self).reg.array@[old(self).reg.top
                            - 2] matches Value::Number(lim) && old(self).reg.array@[old(self).reg.top - 1] matches Value::Number(cur) && final(self).reg.array@[old(self).reg.top as int] == range_step(lim, cur)),
                        LuaFn::StrLen => n == 1 && (old(self).reg.array@[old(self).reg.top
                            - 1] matches Value::LuaString(s2) && final(self).reg.array@[old(self).reg.top as int] == Value::Number(s2@.len() as i64)),
                    }
                },
                Err(_) => !native_args_ok(f, *old(self)) && *final(self) == *old(self),
            },
    {
        match f {
            LuaFn::Range => {
                if self.reg.top < 1 {
                    return Err(self.error("range expects one integer argument"));
                }
                let lim = match self.arg_int(1) {
                    Ok(n) => n,
                    Err(e) => {
                        return Err(e);
                    },
                };
                if self.reg.max_size - self.reg.top < 3 {
                    return Err(self.error("registry overflow"));
                }
                self.reg.push(Value::Function(LuaFunction::Native(LuaFn::RangeNext)));
                self.reg.push(Value::Number(lim));
                self.reg.push(Value::Number(0));
                proof {
                    assert(final(self).reg.array@.subrange(0, old(self).reg.top as int) =~= old(self).reg.array@);
                    assert(final(self).reg.array@ =~= old(self).reg.array@ + native_pushes(
                        f,
                        *old(self),
                    ));
                }
                Ok(3)
            },
            LuaFn::RangeNext => {
                if self.reg.top < 2 {
                    return Err(self.error("range iterator expects two integer arguments"));
                }
                let lim = match self.arg_int(2) {
                    Ok(n) => n,
                    Err(e) => {
                        return Err(e);
                    },
                };
                let cur = match self.arg_int(1) {
                    Ok(n) => n,
                    Err(e) => {
                        return Err(e);
                    },
                };
                if self.reg.max_size - self.reg.top < 1 {
                    return Err(self.error("registry overflow"));
                }
                if cur < lim {
                    self.reg.push(Value::Number(cur + 1));
                } else {
                    self.reg.push(Value::Nil);
                }
                proof {
                    assert(final(self).reg.array@.subrange(0, old(self).reg.top as int) =~= old(self).reg.array@);
                    assert(final(self).reg.array@ =~= old(self).reg.array@ + native_pushes(
                        f,
                        *old(self),
                    ));
                }
                Ok(1)
            },
            LuaFn::StrLen => {
                if self.reg.top < 1 {
                    return Err(self.error("strlen expects one string argument"));
                }
                let s2 = match self.arg_string(1) {
                    Ok(s2) => s2,
                    Err(e) => {
                        return Err(e);
                    },
                };
                let n = s2.as_str().unicode_len();
                if n as u64 > i64::MAX as u64 {
                    return Err(self.error("string too long"));
                }
                if self.reg.max_size - self.reg.top < 1 {
                    return Err(self.error("registry overflow"));
                }
                self.reg.push(Value::Number(n as i64));
                proof {
                    assert(final(self).reg.array@.subrange(0, old(self).reg.top as int) =~= old(self).reg.array@);
                    assert(final(self).reg.array@ =~= old(self).reg.array@ + native_pushes(
                        f,
                        *old(self),
                    ));
                }
                Ok(1)
            },
        }
    }

    /// Invoke a function value through the calling convention, with
    /// `nargs` arguments already pushed. A native reads the arguments in
    /// place and pushes its results. An interpreted callee gets a fresh
    /// call frame whose formal parameters are bound to the pushed
    /// argument slots (the locals are the registry slots themselves); its
    /// body runs, the frame is popped, the registry is rolled back to the
    /// entry cursor, and the pending return value, if any, is pushed.
    /// Returns how many values the callee left on the registry.
    #[verifier::loop_isolation(false)]
    pub fn do_call(&mut self, func: LuaFunction, nargs: usize, fuel: u64) -> (r: Result<
        usize,
        LuaError,
    >)
        requires
            old(self).wf(),
            nargs <= old(self).reg.top,
        ensures
            final(self).wf(),
            final(self).reg.max_size == old(self).reg.max_size,
            r matches Ok(n) ==> {
                &&& final(self).frame_stack@ == old(self).frame_stack@
                &&& final(self).reg.top == old(self).reg.top + n
                &&& final(self).tables@.len() >= old(self).tables@.len()
                &&& final(self).reg.array@.subrange(0, old(self).reg.top - nargs) == old(self).reg.array@.subrange(0, old(self).reg.top - nargs)
            },
            func matches LuaFunction::Native(nf) ==> {
                &&& (r is Ok <==> native_args_ok(nf, *old(self)))
                &&& (r is Ok ==> final(self).reg.array@ == old(self).reg.array@ + native_pushes(
                    nf,
                    *old(self),
                ) && final(self).g == old(self).g && final(self).tables == old(self).tables)
                &&& (r is Err ==> *final(self) == *old(self))
            },
        decreases fuel, 3int,
    {
        match func {
            LuaFunction::Native(f) => {
                let r = self.call_native(f);
                proof {
                    if r is Ok {
                        assert(final(self).reg.array@.subrange(0, old(self).reg.top - nargs)
                            =~= old(self).reg.array@.subrange(0, old(self).reg.top - nargs));
                    }
                }
                r
            },
            LuaFunction::Code(def) => {
                if fuel == 0 {
                    return Err(self.error("evaluation budget exhausted"));
                }
                let nparams = def.params.len();
                if nparams > nargs {
                    return Err(self.error("not enough arguments for function parameters"));
                }
                let entry = self.reg.top;
                let mut env: Vec<(String, usize)> = Vec::new();
                let mut i: usize = 0;
                while i < nparams
                    invariant
                        *self == *old(self),
                        i <= nparams,
                        nparams <= nargs <= entry == self.reg.top,
                        nparams == def.params@.len(),
                        env@.len() == i,
                        forall|k: int|
                            0 <= k < i ==> (#[trigger] env@[k]).1 == entry - nargs + k,
                    decreases nparams - i,
                {
                    env.push((def.params[i].clone(), entry - nargs + i));
                    i = i + 1;
                }
                self.frame_stack.push(CallFrame { env, to_return: false });
                proof {
                    assert(self.wf());
                    assert(self.frame_stack@.drop_last() =~= old(self).frame_stack@);
                }
                let ghost pushed = *self;
                let ret = match crate::eval::eval_block(self, &def.body, fuel - 1) {
                    Ok(v) => v,
                    Err(e) => {
                        return Err(e);
                    },
                };
                let ghost pre_pop = *self;
                let tr = self.to_return();
                let popped = self.frame_stack.pop();
                self.reg.array.truncate(entry);
                self.reg.top = entry;
                proof {
                    assert(self.frame_stack@ =~= old(self).frame_stack@);
                    assert(self.wf());
                    assert forall|t: int|
                        0 <= t < entry - nargs implies #[trigger] self.reg.array@[t] == old(self).reg.array@[t] by {
                        assert(!crate::eval::slot_bound(pushed, t)) by {
                            if crate::eval::slot_bound(pushed, t) {
                                let j = choose|j: int|
                                    0 <= j < pushed.cur_env().len() && (
                                #[trigger] pushed.cur_env()[j]).1 == t;
                                assert(pushed.cur_env()[j].1 == entry - nargs + j);
                            }
                        }
                        assert(crate::eval::stat_st(pushed, pre_pop));
                        assert(pre_pop.reg.array@[t] == pushed.reg.array@[t]);
                    }
                    assert(self.reg.array@.subrange(0, entry - nargs) =~= old(self).reg.array@.subrange(0, entry - nargs));
                }
                if tr {
                    if self.reg.top == self.reg.max_size {
                        return Err(self.error("registry overflow"));
                    }
                    let ghost before_push = *self;
                    self.reg.push(ret);
                    proof {
                        assert(self.reg.array@.subrange(0, entry - nargs) =~= before_push.reg.array@.subrange(
                            0,
                            entry - nargs,
                        ));
                    }
                    Ok(1)
                } else {
                    Ok(0)
                }
            },
        }
    }

    /// Call the function bound to `name` in the global table with a
    /// single argument, enforcing the calling convention: the argument is
    /// pushed, the callee invoked, the net stack effect verified, the
    /// single return value (or `nil`) popped, and the registry restored
    /// to its depth before the call. On success the registry contents,
    /// the cursor and the frame stack come back exactly as they were:
    /// a successful call has net zero stack effect.
    #[verifier::loop_isolation(false)]
    pub fn global_funcall1_fuel(&mut self, name: &str, arg1: Value, fuel: u64) -> (r: Result<
        Value,
        LuaError,
    >)
        requires
            old(self).wf(),
        ensures
            final(self).wf(),
            final(self).reg.max_size == old(self).reg.max_size,
            r is Ok ==> final(self).reg.top == old(self).reg.top && final(self).reg.array@ == old(self).reg.array@ && final(self).frame_stack@ == old(self).frame_stack@ && final(self).tables@.len() >= old(self).tables@.len(),
            old(self).global_of(name@) is None ==> r is Err,
            (old(self).global_of(name@) matches Some(v) && !(v is Function)) ==> r is Err,
            ((old(self).global_of(name@) is None || (old(self).global_of(name@) matches Some(v)
                && !(v is Function))) && old(self).reg.top < old(self).reg.max_size) ==> (final(self).reg.top == old(self).reg.top + 1 && final(self).reg.array@ == old(self).reg.array@.push(arg1)),
            old(self).global_of(name@) matches Some(gv) ==> (gv matches Value::Function(gf) ==> (
            gf matches LuaFunction::Native(nf) ==> (native_call1_ok(nf, *old(self), arg1) ==> (r
                matches Ok(rv) && rv == native_call1_result(nf, *old(self), arg1))))),
        decreases fuel, 4int,
    {
        let oldtop = self.reg.top;
        match self.push_value(arg1) {
            Ok(_) => {},
            Err(e) => {
                return Err(e);
            },
        }
        let func = match self.get_global(name) {
            Some(Value::Function(f)) => f,
            Some(_) => {
                return Err(self.error("Specified name is not func"));
            },
            None => {
                return Err(self.error("Specified func not found"));
            },
        };
        let ghost after_push = *self;
        let retnr = match self.do_call(func, 1, fuel) {
            Ok(n) => n,
            Err(e) => {
                return Err(e);
            },
        };
        proof {
            assert(after_push.reg.array@.subrange(0, oldtop as int) =~= old(self).reg.array@);
            assert(self.reg.array@.subrange(0, oldtop as int) == after_push.reg.array@.subrange(
                0,
                oldtop as int,
            ));
        }
        if self.reg.top != oldtop + 1 + retnr {
            return Err(self.error("callee broke the calling convention"));
        }
        let ghost after_call = *self;
        let vret = if retnr == 1 {
            match self.reg.ensure_pop() {
                Ok(v) => v,
                Err(e) => {
                    return Err(e);
                },
            }
        } else {
            Value::Nil
        };
        proof {
            assert(self.reg.array@.subrange(0, oldtop as int) =~= after_call.reg.array@.subrange(
                0,
                oldtop as int,
            ));
        }
        while self.reg.top > oldtop
            invariant
                self.wf(),
                self.reg.max_size == old(self).reg.max_size,
                self.reg.top >= oldtop,
                self.frame_stack@ == old(self).frame_stack@,
                self.tables@.len() >= old(self).tables@.len(),
                self.reg.array@.subrange(0, oldtop as int) == old(self).reg.array@,
            decreases self.reg.top - oldtop,
        {
            let ghost before = *self;
            match self.reg.ensure_pop() {
                Ok(_) => {},
                Err(e) => {
                    return Err(e);
                },
            }
            proof {
                assert(self.reg.array@.subrange(0, oldtop as int) =~= before.reg.array@.subrange(
                    0,
                    oldtop as int,
                ));
            }
        }
        proof {
            assert(self.reg.array@ =~= self.reg.array@.subrange(0, oldtop as int));
        }
        Ok(vret)
    }

    /// `global_funcall1_fuel` with the default evaluation budget.
    pub fn global_funcall1(&mut self, name: &str, arg1: Value) -> (r: Result<Value, LuaError>)
        requires
            old(self).wf(),
        ensures
            final(self).wf(),
            final(self).reg.max_size == old(self).reg.max_size,
            r is Ok ==> final(self).reg.top == old(self).reg.top && final(self).reg.array@ == old(self).reg.array@ && final(self).frame_stack@ == old(self).frame_stack@,
            old(self).global_of(name@) is None ==> r is Err,
            (old(self).global_of(name@) matches Some(v) && !(v is Function)) ==> r is Err,
            ((old(self).global_of(name@) is None || (old(self).global_of(name@) matches Some(v)
                && !(v is Function))) && old(self).reg.top < old(self).reg.max_size) ==> (final(self).reg.top == old(self).reg.top + 1 && final(self).reg.array@ == old(self).reg.array@.push(arg1)),
            old(self).global_of(name@) matches Some(gv) ==> (gv matches Value::Function(gf) ==> (
            gf matches LuaFunction::Native(nf) ==> (native_call1_ok(nf, *old(self), arg1) ==> (r
                matches Ok(rv) && rv == native_call1_result(nf, *old(self), arg1))))),
    {
        self.global_funcall1_fuel(name, arg1, DEFAULT_FUEL)
    }

    /// Invoke a function value with an argument list, keeping every
    /// returned value: the arguments are pushed, the callee invoked, the
    /// net stack effect verified, the returned values collected in order,
    /// and the registry restored to its depth before the call.
    #[verifier::loop_isolation(false)]
    pub fn funcall_fuel(&mut self, func: Value, args: Vec<Value>, fuel: u64) -> (r: Result<
        Vec<Value>,
        LuaError,
    >)
        requires
            old(self).wf(),
        ensures
            final(self).wf(),
            final(self).reg.max_size == old(self).reg.max_size,
            r is Ok ==> final(self).reg.top == old(self).reg.top && final(self).reg.array@ == old(self).reg.array@ && final(self).frame_stack@ == old(self).frame_stack@ && final(self).tables@.len() >= old(self).tables@.len(),
            !(func is Function) ==> r is Err,
            func matches Value::Function(gf) ==> (gf matches LuaFunction::Native(nf) ==> (
            native_calln_ok(nf, *old(self), args@) ==> (r matches Ok(vals) && vals@
                == native_calln_results(nf, args@)))),
        decreases fuel, 4int,
    {
        let oldtop = self.reg.top;
        let nargs = args.len();
        let mut i: usize = 0;
        proof {
            assert(self.reg.array@ =~= old(self).reg.array@ + args@.subrange(0, 0));
            assert(self.reg.array@.subrange(0, oldtop as int) =~= old(self).reg.array@);
        }
        while i < nargs
            invariant
                self.wf(),
                i <= nargs,
                self.reg.max_size == old(self).reg.max_size,
                self.reg.top == oldtop + i,
                oldtop == old(self).reg.top,
                self.reg.array@.subrange(0, oldtop as int) == old(self).reg.array@,
                self.reg.array@ == old(self).reg.array@ + args@.subrange(0, i as int),
                self.frame_stack@ == old(self).frame_stack@,
                self.g == old(self).g,
                self.tables == old(self).tables,
                nargs == args@.len(),
            decreases nargs - i,
        {
            let ghost before = *self;
            match self.push_value(args[i].dup()) {
                Ok(_) => {},
                Err(e) => {
                    return Err(e);
                },
            }
            proof {
                assert(self.reg.array@.subrange(0, oldtop as int) =~= before.reg.array@.subrange(
                    0,
                    oldtop as int,
                ));
                assert(before.reg.array@.subrange(0, oldtop as int) =~= old(self).reg.array@);
                assert(self.reg.array@ =~= old(self).reg.array@ + args@.subrange(0, i + 1));
            }
            i = i + 1;
        }
        let f = match func {
            Value::Function(f) => f,
            _ => {
                return Err(self.error("not a function"));
            },
        };
        let ghost after_args = *self;
        let retnr = match self.do_call(f, nargs, fuel) {
            Ok(n) => n,
            Err(e) => {
                return Err(e);
            },
        };
        proof {
            assert(self.reg.array@.subrange(0, oldtop as int) == after_args.reg.array@.subrange(
                0,
                oldtop as int,
            ));
            assert(self.reg.array@.subrange(0, oldtop as int) =~= old(self).reg.array@);
        }
        if self.reg.top != oldtop + nargs + retnr {
            return Err(self.error("callee broke the calling convention"));
        }
        let base = self.reg.top - retnr;
        let mut rets: Vec<Value> = Vec::new();
        proof {
            assert(rets@ =~= self.reg.array@.subrange(base as int, base as int));
        }
        let mut k: usize = 0;
        while k < retnr
            invariant
                self.wf(),
                k <= retnr,
                base + retnr == self.reg.top,
                self.reg.top <= self.reg.array@.len(),
                rets@.len() == k,
                rets@ == self.reg.array@.subrange(base as int, base + k),
            decreases retnr - k,
        {
            rets.push(self.reg.array[base + k].dup());
            proof {
                assert(rets@ =~= self.reg.array@.subrange(base as int, base + k + 1));
            }
            k = k + 1;
        }
        while self.reg.top > oldtop
            invariant
                self.wf(),
                self.reg.max_size == old(self).reg.max_size,
                self.reg.top >= oldtop,
                self.frame_stack@ == old(self).frame_stack@,
                self.tables@.len() >= old(self).tables@.len(),
                self.reg.array@.subrange(0, oldtop as int) == old(self).reg.array@,
            decreases self.reg.top - oldtop,
        {
            let ghost before = *self;
            match self.reg.ensure_pop() {
                Ok(_) => {},
                Err(e) => {
                    return Err(e);
                },
            }
            proof {
                assert(self.reg.array@.subrange(0, oldtop as int) =~= before.reg.array@.subrange(
                    0,
                    oldtop as int,
                ));
            }
        }
        proof {
            assert(self.reg.array@ =~= self.reg.array@.subrange(0, oldtop as int));
        }
        Ok(rets)
    }

    /// `funcall_fuel` with the default evaluation budget.
    pub fn funcall(&mut self, func: Value, args: Vec<Value>) -> (r: Result<Vec<Value>, LuaError>)
        requires
            old(self).wf(),
        ensures
            final(self).wf(),
            final(self).reg.max_size == old(self).reg.max_size,
            r is Ok ==> final(self).reg.top == old(self).reg.top && final(self).reg.array@ == old(self).reg.array@ && final(self).frame_stack@ == old(self).frame_stack@,
            !(func is Function) ==> r is Err,
            func matches Value::Function(gf) ==> (gf matches LuaFunction::Native(nf) ==> (
            native_calln_ok(nf, *old(self), args@) ==> (r matches Ok(vals) && vals@
                == native_calln_results(nf, args@)))),
    {
        self.funcall_fuel(func, args, DEFAULT_FUEL)
    }
}

} // verus!
