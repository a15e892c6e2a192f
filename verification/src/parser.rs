//! The grammar: a recursive-descent parser with ordered backtracking.
//!
//! Each parsing function takes the source text and a character position,
//! and returns the parsed node together with the position just after the
//! consumed text, or `None` when its alternative does not match there.
//! Alternatives are tried in a fixed order with full backtracking on
//! failure; the order is part of the grammar contract (first match wins).
//! Trailing whitespace is consumed eagerly after every token; there is no
//! separate lexer pass. String literals support exactly one escape
//! (backslash-n); numerals are unsigned digit runs read as signed 64-bit
//! integers, and a run whose value does not fit is a parse failure rather
//! than a wrong value.

use vstd::prelude::*;

use crate::state::LuaError;
use std::rc::Rc;
use vstd::string::StrSliceExecFns;

verus! {

/// One node of the abstract syntax tree: a tagged variant tree with
/// exclusive ownership of its children. The only shared part is the block
/// of a function body, which function values keep alive after declaration.
#[derive(Debug)]
pub enum Rule {
    Nil,
    Reserved(&'static str),
    Bool(bool),
    Numeral(i64),
    LiteralString(String),
    Symbol(String),
    SymbolList(Vec<Box<Rule>>),
    /// Statements plus an optional trailing return statement.
    Chunk(Vec<Box<Rule>>, Option<Box<Rule>>),
    Block(Box<Rule>),
    /// One record for every statement form: a kind tag plus up to five
    /// operand slots; which slots are populated depends on the kind.
    Stat(
        StatKind,
        Option<Box<Rule>>,
        Option<Box<Rule>>,
        Option<Box<Rule>>,
        Option<Box<Rule>>,
        Option<Box<Rule>>,
    ),
    LastStat(Box<Rule>),
    /// Parallel, index-aligned lists of condition expressions and blocks;
    /// a trailing `Nop` condition encodes the `else` branch.
    IfStat(Vec<Box<Rule>>, Vec<Box<Rule>>),
    FuncName(Box<Rule>),
    Var(Box<Rule>),
    Exp(Box<Rule>),
    Prefixexp(Box<Rule>),
    /// Callee symbol and arguments.
    FunctionCall(Box<Rule>, Box<Rule>),
    Args(Box<Rule>),
    /// Optional single-parameter list and the body block; the block is
    /// shared so that declared functions can hold on to it.
    FuncBody(Option<Box<Rule>>, Rc<Rule>),
    ParList1(Box<Rule>),
    TableConst(Box<Rule>),
    FieldList(Vec<Box<Rule>>),
    /// Key (or `Nop` for "no key") and value expression.
    Field(Box<Rule>, Box<Rule>),
    /// Operator tag and the two operand subtrees.
    BinOp(char, Box<Rule>, Box<Rule>),
    /// Operator tag and the single operand subtree.
    UnOp(char, Box<Rule>),
    /// Explicit "absent" placeholder for optional slots.
    Nop,
}

/// The statement kinds. Only a subset is implemented by the evaluator;
/// the rest parse (or are reserved) and fail loudly when executed.
#[derive(Debug, PartialEq, Eq, Clone, Copy)]
pub enum StatKind {
    Sep,
    VarAssign,
    FunctionCall,
    Label,
    Break,
    GoTo,
    Do,
    While,
    Repeat,
    IfThen,
    For,
    ForIn,
    DeclareFunction,
    LocalFunction,
    LocalVar,
}

/// Structural well-formedness of a syntax tree, as the parser guarantees
/// it and the evaluator expects it: every composite variant wraps children
/// of the right variants, and an `if`'s condition and block lists are
/// index-aligned with equal length.
pub open spec fn rule_wf(r: Rule) -> bool
    decreases r, 1int,
{
    match r {
        Rule::Nil => true,
        Rule::Reserved(_) => true,
        Rule::Bool(_) => true,
        Rule::Numeral(_) => true,
        Rule::LiteralString(_) => true,
        Rule::Symbol(_) => true,
        Rule::Nop => true,
        Rule::SymbolList(v) => v.len() >= 1 && forall|k: int|
            0 <= k < v.len() ==> (#[trigger] rule_wf(*v[k])) && *v[k] is Symbol,
        Rule::Chunk(stats, last) => (forall|k: int|
            0 <= k < stats.len() ==> (#[trigger] rule_wf(*stats[k])) && *stats[k] is Stat) && match last {
            Some(l) => rule_wf(*l) && *l is LastStat,
            None => true,
        },
        Rule::Block(c) => rule_wf(*c) && *c is Chunk,
        Rule::Stat(_, _, _, _, _, _) => stat_slots_wf(r),
        Rule::LastStat(x) => rule_wf(*x) && *x is Exp,
        Rule::IfStat(exps, blocks) => {
            &&& exps.len() == blocks.len()
            &&& exps.len() >= 1
            &&& forall|k: int|
                0 <= k < exps.len() ==> (#[trigger] rule_wf(*exps[k])) && (*exps[k] is Exp
                    || *exps[k] is Nop)
            &&& forall|k: int|
                0 <= k < blocks.len() ==> (#[trigger] rule_wf(*blocks[k])) && *blocks[k] is Block
        },
        Rule::FuncName(x) => rule_wf(*x) && *x is Symbol,
        Rule::Var(x) => rule_wf(*x) && *x is Symbol,
        Rule::Exp(x) => rule_wf(*x) && (*x is Nil || *x is Bool || *x is Numeral
            || *x is LiteralString || *x is Prefixexp || *x is TableConst || *x is BinOp
            || *x is UnOp),
        Rule::Prefixexp(x) => rule_wf(*x) && (*x is FunctionCall || *x is Var || *x is Exp),
        Rule::FunctionCall(n, a) => rule_wf(*n) && rule_wf(*a) && *n is Symbol && *a is Args,
        Rule::Args(x) => rule_wf(*x) && (*x is Exp || *x is Nop),
        Rule::FuncBody(p, b) => (match p {
            Some(pl) => rule_wf(*pl) && *pl is ParList1,
            None => true,
        }) && rule_wf(*b) && *b is Block,
        Rule::ParList1(x) => rule_wf(*x) && *x is Symbol,
        Rule::TableConst(x) => rule_wf(*x) && *x is FieldList,
        Rule::FieldList(v) => v.len() >= 1 && forall|k: int|
            0 <= k < v.len() ==> (#[trigger] rule_wf(*v[k])) && *v[k] is Field,
        Rule::Field(k, v) => rule_wf(*k) && rule_wf(*v) && (*k is Nop || *k is Symbol || *k is Exp)
            && *v is Exp,
        Rule::BinOp(_, l, r2) => rule_wf(*l) && rule_wf(*r2) && (*l is Exp || *l is BinOp
            || *l is UnOp) && (*r2 is Exp || *r2 is BinOp || *r2 is UnOp),
        Rule::UnOp(_, x) => rule_wf(*x) && (*x is Exp || *x is BinOp || *x is UnOp),
    }
}

/// Which operand slots each statement kind populates, and with what.
pub open spec fn stat_slots_wf(r: Rule) -> bool
    decreases r, 0int,
{
    match r {
        Rule::Stat(kind, a, b, c, d, e) => match kind {
        StatKind::Sep => a is None && b is None && c is None && d is None && e is None,
        StatKind::VarAssign => (a matches Some(v) && rule_wf(*v) && (*v matches Rule::Var(sym)
            && *sym is Symbol)) && (b matches Some(x) && rule_wf(*x) && *x is Exp) && c is None
            && d is None && e is None,
        StatKind::FunctionCall => (a matches Some(f) && rule_wf(*f) && *f is FunctionCall)
            && b is None && c is None && d is None && e is None,
        StatKind::IfThen => (a matches Some(f) && rule_wf(*f) && *f is IfStat) && b is None
            && c is None && d is None && e is None,
        StatKind::LocalVar => (a matches Some(n) && rule_wf(*n) && *n is Symbol) && (b matches
            Some(x) && rule_wf(*x) && *x is Exp) && c is None && d is None && e is None,
        StatKind::ForIn => (a matches Some(v) && rule_wf(*v) && *v is SymbolList) && (b matches
            Some(x) && rule_wf(*x) && *x is Exp) && (c matches Some(blk) && rule_wf(*blk)
            && *blk is Block) && d is None && e is None,
        StatKind::For => (a matches Some(n) && rule_wf(*n) && *n is Symbol) && (b matches Some(x)
            && rule_wf(*x) && *x is Exp) && (c matches Some(x) && rule_wf(*x) && *x is Exp) && (
        d matches Some(x) && rule_wf(*x) && (*x is Exp || *x is Nop)) && (e matches Some(blk)
            && rule_wf(*blk) && *blk is Block),
        StatKind::DeclareFunction => (a matches Some(n) && rule_wf(*n) && *n is FuncName) && (
        b matches Some(x) && rule_wf(*x) && *x is FuncBody) && c is None && d is None && e is None,
        StatKind::Break => a is None && b is None && c is None && d is None && e is None,
        StatKind::Do => (a matches Some(blk) && rule_wf(*blk) && *blk is Block) && b is None
            && c is None && d is None && e is None,
        _ => true,
        },
        _ => false,
    }
}

/// The whitespace the grammar skips after every token.
pub open spec fn is_space_char(c: char) -> bool {
    c == ' ' || c == '\t' || c == '\n' || c == '\r' || c == '\u{b}' || c == '\u{c}'
}

/// The decimal digits.
pub open spec fn is_digit_char(c: char) -> bool {
    '0' <= c && c <= '9'
}

/// The characters an identifier may start with.
pub open spec fn is_letter_char(c: char) -> bool {
    ('a' <= c && c <= 'z') || ('A' <= c && c <= 'Z')
}

/// The characters an identifier may continue with.
pub open spec fn is_alnum_char(c: char) -> bool {
    is_letter_char(c) || is_digit_char(c)
}

/// The characters an expression can begin with: identifier or literal
/// heads, a quote, a parenthesis, a brace, or a unary operator. Nothing
/// else starts an expression, so a parse that succeeds pins its first
/// character to this set.
pub open spec fn exp_start_char(c: char) -> bool {
    is_letter_char(c) || is_digit_char(c) || c == '"' || c == '(' || c == '{' || c == '-' || c
        == '#' || c == '~'
}

/// What a call of a named function with an empty argument list must
/// parse to: the full identifier at `i`, immediately (after its trailing
/// whitespace) followed by `()`, yields the call node with the no-key
/// argument marker, ending right after the closing parenthesis.
pub open spec fn fncall_empty_args_spec(
    sv: Seq<char>,
    i: int,
    r: Option<(Box<Rule>, usize)>,
) -> bool {
    (0 <= i < sv.len() && is_letter_char(sv[i]) && ({
        let m = spaces_end(sv, ident_end(sv, i + 1));
        m + 2 <= sv.len() && sv[m] == '(' && sv[m + 1] == ')'
    })) ==> (r matches Some(p) && ({
        let m = spaces_end(sv, ident_end(sv, i + 1));
        &&& p.1 == m + 2
        &&& *p.0 matches Rule::FunctionCall(sym, a) && (*sym matches Rule::Symbol(nm) && nm@
            == sv.subrange(i, ident_end(sv, i + 1))) && (*a matches Rule::Args(x) && *x
            == Rule::Nop)
    }))
}

fn is_space(c: char) -> (r: bool)
    ensures
        r == is_space_char(c),
{
    c == ' ' || c == '\t' || c == '\n' || c == '\r' || c == '\u{b}' || c == '\u{c}'
}

fn is_digit(c: char) -> (r: bool)
    ensures
        r == is_digit_char(c),
{
    '0' <= c && c <= '9'
}

fn is_letter(c: char) -> (r: bool)
    ensures
        r == is_letter_char(c),
{
    ('a' <= c && c <= 'z') || ('A' <= c && c <= 'Z')
}

fn is_alnum(c: char) -> (r: bool)
    ensures
        r == is_alnum_char(c),
{
    is_letter(c) || is_digit(c)
}

/// The first non-whitespace position at or after `k`: exactly where
/// skipping whitespace lands, so a token's contract can pin the position
/// it returns.
pub open spec fn spaces_end(sv: Seq<char>, k: int) -> int
    decreases sv.len() - k,
{
    if 0 <= k < sv.len() && is_space_char(sv[k]) {
        spaces_end(sv, k + 1)
    } else {
        k
    }
}

proof fn lemma_spaces_end_bounds(sv: Seq<char>, k: int)
    requires
        0 <= k <= sv.len(),
    ensures
        k <= spaces_end(sv, k) <= sv.len(),
        forall|m: int| k <= m < spaces_end(sv, k) ==> is_space_char(sv[m]),
        spaces_end(sv, k) < sv.len() ==> !is_space_char(sv[spaces_end(sv, k)]),
    decreases sv.len() - k,
{
    if k < sv.len() && is_space_char(sv[k]) {
        lemma_spaces_end_bounds(sv, k + 1);
    }
}

/// Consume whitespace from `i` on; returns exactly the first non-space
/// position: the gap between `i` and the result holds nothing but
/// whitespace.
#[verifier::loop_isolation(false)]
pub fn skip_spaces(s: &str, i: usize) -> (j: usize)
    requires
        i <= s@.len(),
    ensures
        i <= j <= s@.len(),
        j == spaces_end(s@, i as int),
        forall|k: int| i <= k < j ==> is_space_char(s@[k]),
        j < s@.len() ==> !is_space_char(s@[j as int]),
{
    proof {
        lemma_spaces_end_bounds(s@, i as int);
    }
    let ghost m = spaces_end(s@, i as int);
    let n = s.unicode_len();
    let mut j = i;
    while j < n && is_space(s.get_char(j))
        invariant
            i <= j <= n,
            n == s@.len(),
            i <= j <= m,
            forall|k: int| i <= k < j ==> is_space_char(s@[k]),
        decreases n - j,
    {
        proof {
            if j == m {
                assert(!is_space_char(s@[m]));
                assert(false);
            }
        }
        j = j + 1;
    }
    proof {
        if j < m {
            assert(is_space_char(s@[j as int]));
            assert(false);
        }
    }
    j
}

/// Match the single character `c` at `i`, without consuming whitespace.
pub fn tok(s: &str, i: usize, c: char) -> (r: Option<usize>)
    requires
        i <= s@.len(),
    ensures
        match r {
            Some(j) => j == i + 1 && i < s@.len() && s@[i as int] == c,
            None => i >= s@.len() || s@[i as int] != c,
        },
{
    if i < s.unicode_len() {
        if s.get_char(i) == c {
            return Some(i + 1);
        }
    }
    None
}

/// The explicit "absent" placeholder node.
pub fn nop() -> (r: Box<Rule>)
    ensures
        *r == Rule::Nop,
{
    Box::new(Rule::Nop)
}

/// Match the exact word `word` at `i`, then skip whitespace. Succeeds if
/// and only if the text at `i` starts with `word`.
pub fn reserved(s: &str, i: usize, word: &'static str) -> (r: Option<(Box<Rule>, usize)>)
    requires
        i <= s@.len(),
    ensures
        match r {
            Some((rule, j)) => {
                &&& *rule == Rule::Reserved(word)
                &&& i + word@.len() <= j <= s@.len()
                &&& s@.subrange(i as int, i + word@.len()) == word@
                &&& j == spaces_end(s@, i + word@.len())
            },
            None => !(i + word@.len() <= s@.len() && s@.subrange(i as int, i + word@.len())
                == word@),
        },
{
    let wn = word.unicode_len();
    let n = s.unicode_len();
    if wn > n - i {
        return None;
    }
    let mut k: usize = 0;
    while k < wn
        invariant
            0 <= k <= wn,
            wn == word@.len(),
            n == s@.len(),
            i + wn <= n,
            forall|m: int| 0 <= m < k ==> s@[i + m] == word@[m],
        decreases wn - k,
    {
        if s.get_char(i + k) != word.get_char(k) {
            proof {
                assert(s@.subrange(i as int, i + word@.len())[k as int] == s@[i + k]);
            }
            return None;
        }
        k = k + 1;
    }
    proof {
        assert(s@.subrange(i as int, i + word@.len()) =~= word@);
    }
    let j = skip_spaces(s, i + wn);
    Some((Box::new(Rule::Reserved(word)), j))
}

/// The `nil` literal.
pub fn nil(s: &str, i: usize) -> (r: Option<(Box<Rule>, usize)>)
    requires
        i <= s@.len(),
    ensures
        match r {
            Some((rule, j)) => {
                &&& *rule == Rule::Nil
                &&& rule_wf(*rule)
                &&& i + "nil"@.len() <= j <= s@.len()
                &&& s@.subrange(i as int, i + "nil"@.len()) == "nil"@
                &&& j == spaces_end(s@, i + "nil"@.len())
            },
            None => !(i + "nil"@.len() <= s@.len() && s@.subrange(i as int, i + "nil"@.len())
                == "nil"@),
        },
{
    match reserved(s, i, "nil") {
        Some((_, j)) => Some((Box::new(Rule::Nil), j)),
        None => None,
    }
}

/// The `true` and `false` literals.
pub fn boolean(s: &str, i: usize) -> (r: Option<(Box<Rule>, usize)>)
    requires
        i <= s@.len(),
    ensures
        match r {
            Some((rule, j)) => {
                &&& rule_wf(*rule)
                &&& i < j <= s@.len()
                &&& ((*rule == Rule::Bool(true) && i + "true"@.len() <= j && s@.subrange(
                    i as int,
                    i + "true"@.len(),
                ) == "true"@ && j == spaces_end(s@, i + "true"@.len())) || (*rule == Rule::Bool(
                    false,
                ) && i + "false"@.len() <= j && s@.subrange(i as int, i + "false"@.len())
                    == "false"@ && j == spaces_end(s@, i + "false"@.len())))
            },
            None => {
                &&& !(i + "true"@.len() <= s@.len() && s@.subrange(i as int, i + "true"@.len())
                    == "true"@)
                &&& !(i + "false"@.len() <= s@.len() && s@.subrange(i as int, i + "false"@.len())
                    == "false"@)
            },
        },
{
    proof {
        reveal_strlit("true");
        reveal_strlit("false");
    }
    match reserved(s, i, "true") {
        Some((_, j)) => Some((Box::new(Rule::Bool(true)), j)),
        None => match reserved(s, i, "false") {
            Some((_, j)) => Some((Box::new(Rule::Bool(false)), j)),
            None => None,
        },
    }
}

/// The value of a run of decimal digits, most significant first.
pub open spec fn digits_val(sv: Seq<char>) -> int
    decreases sv.len(),
{
    if sv.len() == 0 {
        0
    } else {
        digits_val(sv.drop_last()) * 10 + (sv.last() as int - '0' as int)
    }
}

/// The first position at or after `k` that does not hold a decimal digit.
pub open spec fn digits_end(sv: Seq<char>, k: int) -> int
    decreases sv.len() - k,
{
    if 0 <= k < sv.len() && is_digit_char(sv[k]) {
        digits_end(sv, k + 1)
    } else {
        k
    }
}

proof fn lemma_digits_end_bounds(sv: Seq<char>, k: int)
    requires
        0 <= k <= sv.len(),
    ensures
        k <= digits_end(sv, k) <= sv.len(),
        forall|m: int| k <= m < digits_end(sv, k) ==> is_digit_char(sv[m]),
        digits_end(sv, k) < sv.len() ==> !is_digit_char(sv[digits_end(sv, k)]),
    decreases sv.len() - k,
{
    if k < sv.len() && is_digit_char(sv[k]) {
        lemma_digits_end_bounds(sv, k + 1);
    }
}

proof fn lemma_digits_val_nonneg(sv: Seq<char>)
    requires
        forall|m: int| 0 <= m < sv.len() ==> is_digit_char(sv[m]),
    ensures
        digits_val(sv) >= 0,
    decreases sv.len(),
{
    if sv.len() > 0 {
        lemma_digits_val_nonneg(sv.drop_last());
    }
}

/// Extending a digit run never shrinks its value.
proof fn lemma_digits_val_monotone(sv: Seq<char>, k: int, m: int)
    requires
        forall|t: int| 0 <= t < sv.len() ==> is_digit_char(sv[t]),
        0 <= k <= m <= sv.len(),
    ensures
        digits_val(sv.take(k)) <= digits_val(sv.take(m)),
    decreases m - k,
{
    if k < m {
        lemma_digits_val_monotone(sv, k, m - 1);
        assert(sv.take(m).drop_last() =~= sv.take(m - 1));
        assert(forall|t: int| 0 <= t < sv.take(m - 1).len() ==> is_digit_char(#[trigger] sv.take(m - 1)[t]));
        lemma_digits_val_nonneg(sv.take(m - 1));
        assert(digits_val(sv.take(m)) == digits_val(sv.take(m - 1)) * 10 + (sv[m - 1] as int
            - '0' as int));
    }
}

/// When the run's value already exceeds the 64-bit range at some prefix,
/// the whole run's value exceeds it too.
proof fn lemma_numeral_overflow(sv: Seq<char>, i: int, k: int, m: int)
    requires
        0 <= i <= k < m <= sv.len(),
        m == digits_end(sv, i),
        forall|t: int| i <= t < k ==> is_digit_char(sv[t]),
        digits_val(sv.subrange(i, k)) * 10 + (sv[k] as int - '0' as int) > i64::MAX,
    ensures
        digits_val(sv.subrange(i, m)) > i64::MAX,
{
    lemma_digits_end_bounds(sv, i);
    let run = sv.subrange(i, m);
    assert(forall|t: int| 0 <= t < run.len() ==> is_digit_char(run[t]));
    assert(run.take(k + 1 - i) =~= sv.subrange(i, k + 1));
    assert(run.take(m - i) =~= run);
    assert(sv.subrange(i, k + 1).drop_last() =~= sv.subrange(i, k));
    lemma_digits_val_monotone(run, k + 1 - i, m - i);
}

/// An unsigned digit run, read as a 64-bit integer; a run whose value
/// exceeds the 64-bit range fails. Succeeds if and only if a digit stands
/// at `i` and the whole run's value fits.
#[verifier::loop_isolation(false)]
pub fn numeral(s: &str, i: usize) -> (r: Option<(Box<Rule>, usize)>)
    requires
        i <= s@.len(),
    ensures
        ({
            let m = digits_end(s@, i as int);
            match r {
                Some((rule, j)) => {
                    &&& m > i
                    &&& 0 <= digits_val(s@.subrange(i as int, m)) <= i64::MAX
                    &&& *rule == Rule::Numeral(digits_val(s@.subrange(i as int, m)) as i64)
                    &&& rule_wf(*rule)
                    &&& i < m <= j <= s@.len()
                    &&& j == spaces_end(s@, m)
                },
                None => m == i || digits_val(s@.subrange(i as int, m)) > i64::MAX,
            }
        }),
{
    proof {
        lemma_digits_end_bounds(s@, i as int);
    }
    let n = s.unicode_len();
    let ghost m = digits_end(s@, i as int);
    if i >= n || !is_digit(s.get_char(i)) {
        return None;
    }
    let mut k = i;
    let mut acc: i64 = 0;
    while k < n && is_digit(s.get_char(k))
        invariant
            i <= k <= n,
            n == s@.len(),
            m == digits_end(s@, i as int),
            i <= k <= m,
            0 <= acc <= i64::MAX,
            acc == digits_val(s@.subrange(i as int, k as int)),
            forall|t: int| i <= t < k ==> is_digit_char(s@[t]),
        decreases n - k,
    {
        proof {
            if k == m {
                assert(!is_digit_char(s@[m]));
                assert(false);
            }
            assert(s@.subrange(i as int, k + 1).drop_last() =~= s@.subrange(i as int, k as int));
        }
        let c = s.get_char(k);
        let d: i64 = (c as u32 as i64) - ('0' as u32 as i64);
        let acc2: i64 = match acc.checked_mul(10) {
            Some(x) => match x.checked_add(d) {
                Some(y) => y,
                None => {
                    proof {
                        lemma_numeral_overflow(s@, i as int, k as int, m);
                    }
                    return None;
                },
            },
            None => {
                proof {
                    lemma_numeral_overflow(s@, i as int, k as int, m);
                }
                return None;
            },
        };
        acc = acc2;
        k = k + 1;
    }
    proof {
        if k < m {
            assert(is_digit_char(s@[k as int]));
            assert(false);
        }
    }
    let j = skip_spaces(s, k);
    Some((Box::new(Rule::Numeral(acc)), j))
}

/// The first position at or after `k` that holds a double quote (or the
/// end of the text).
pub open spec fn quote_end(sv: Seq<char>, k: int) -> int
    decreases sv.len() - k,
{
    if 0 <= k < sv.len() && sv[k] != '"' {
        quote_end(sv, k + 1)
    } else {
        k
    }
}

proof fn lemma_quote_end_bounds(sv: Seq<char>, k: int)
    requires
        0 <= k <= sv.len(),
    ensures
        k <= quote_end(sv, k) <= sv.len(),
        forall|m: int| k <= m < quote_end(sv, k) ==> sv[m] != '"',
        quote_end(sv, k) < sv.len() ==> sv[quote_end(sv, k)] == '"',
    decreases sv.len() - k,
{
    if k < sv.len() && sv[k] != '"' {
        lemma_quote_end_bounds(sv, k + 1);
    }
}

/// The one escape the language normalizes: every backslash-n pair becomes
/// a newline, scanning left to right.
pub open spec fn unescape(sv: Seq<char>) -> Seq<char>
    decreases sv.len(),
{
    if sv.len() < 2 {
        sv
    } else if sv[0] == '\\' && sv[1] == 'n' {
        seq!['\n'] + unescape(sv.skip(2))
    } else {
        seq![sv[0]] + unescape(sv.skip(1))
    }
}

/// A double-quoted string literal; any character but the closing quote may
/// appear, and backslash-n is normalized to a newline. Succeeds if and
/// only if a quote stands at `i` and a closing quote follows.
#[verifier::loop_isolation(false)]
pub fn literal_string(s: &str, i: usize) -> (r: Option<(Box<Rule>, usize)>)
    requires
        i <= s@.len(),
    ensures
        ({
            let q = quote_end(s@, i + 1);
            match r {
                Some((rule, j)) => {
                    &&& i < s@.len() && s@[i as int] == '"'
                    &&& q < s@.len()
                    &&& *rule matches Rule::LiteralString(c) && c@ == unescape(
                        s@.subrange(i + 1, q),
                    )
                    &&& rule_wf(*rule)
                    &&& i < q + 1 <= j <= s@.len()
                    &&& j == spaces_end(s@, q + 1)
                },
                None => i >= s@.len() || s@[i as int] != '"' || quote_end(s@, i + 1) >= s@.len(),
            }
        }),
{
    let n = s.unicode_len();
    match tok(s, i, '"') {
        Some(_) => {},
        None => {
            return None;
        },
    }
    proof {
        lemma_quote_end_bounds(s@, i + 1);
    }
    let ghost q = quote_end(s@, i + 1);
    let mut k = i + 1;
    while k < n && s.get_char(k) != '"'
        invariant
            i + 1 <= k <= n,
            n == s@.len(),
            q == quote_end(s@, i + 1),
            i + 1 <= k <= q,
            forall|t: int| i + 1 <= t < k ==> s@[t] != '"',
        decreases n - k,
    {
        proof {
            if k == q {
                assert(s@[q] == '"');
                assert(false);
            }
        }
        k = k + 1;
    }
    proof {
        if k < q {
            assert(s@[k as int] != '"');
            assert(false);
        }
    }
    if k >= n {
        return None;
    }
    // Build the contents with the backslash-n escape normalized.
    let mut out = String::new();
    let mut p = i + 1;
    proof {
        reveal_strlit("\n");
    }
    while p < k
        invariant
            i + 1 <= p <= k <= n,
            n == s@.len(),
            q == quote_end(s@, i + 1),
            k == q,
            unescape(s@.subrange(i + 1, k as int)) == out@ + unescape(s@.subrange(p as int, k as int)),
        decreases k - p,
    {
        let ghost sub = s@.subrange(p as int, k as int);
        if p + 1 < k && s.get_char(p) == '\\' && s.get_char(p + 1) == 'n' {
            proof {
                assert(sub[0] == s@[p as int] && sub[1] == s@[p + 1]);
                assert(sub.skip(2) =~= s@.subrange(p + 2, k as int));
                assert(unescape(sub) == seq!['\n'] + unescape(s@.subrange(p + 2, k as int)));
                assert("\n"@ =~= seq!['\n']);
            }
            out.append("\n");
            p = p + 2;
        } else {
            proof {
                assert(sub[0] == s@[p as int]);
                assert(sub.skip(1) =~= s@.subrange(p + 1, k as int));
                if sub.len() >= 2 {
                    assert(unescape(sub) == seq![sub[0]] + unescape(sub.skip(1)));
                } else {
                    assert(sub =~= seq![sub[0]]);
                    assert(unescape(sub.skip(1)) =~= Seq::<char>::empty());
                    assert(unescape(sub) =~= seq![sub[0]] + unescape(sub.skip(1)));
                }
                assert(s@.subrange(p as int, p + 1) =~= seq![s@[p as int]]);
            }
            let piece = s.substring_char(p, p + 1);
            out.append(piece);
            p = p + 1;
        }
    }
    proof {
        assert(s@.subrange(k as int, k as int) =~= Seq::<char>::empty());
        assert(out@ + Seq::<char>::empty() =~= out@);
    }
    let j = skip_spaces(s, k + 1);
    Some((Box::new(Rule::LiteralString(out)), j))
}

/// The text from `i` on is exactly the word `w` and nothing else.
pub open spec fn lone_word(sv: Seq<char>, i: int, w: Seq<char>) -> bool {
    0 <= i && i + w.len() == sv.len() && sv.subrange(i, sv.len() as int) == w
}

/// The text from `i` on is exactly a digit run whose value fits 64 bits.
pub open spec fn lone_digits(sv: Seq<char>, i: int) -> bool {
    0 <= i < sv.len() && digits_end(sv, i) == sv.len() && 0 <= digits_val(
        sv.subrange(i, sv.len() as int),
    ) <= i64::MAX
}

/// The text from `i` on is exactly one quoted string literal.
pub open spec fn lone_string(sv: Seq<char>, i: int) -> bool {
    0 <= i < sv.len() && sv[i] == '"' && quote_end(sv, i + 1) == sv.len() - 1
}

/// The text from `i` on is exactly one bare literal expression.
pub open spec fn lone_literal(sv: Seq<char>, i: int) -> bool {
    lone_word(sv, i, "nil"@) || lone_word(sv, i, "true"@) || lone_word(sv, i, "false"@)
        || lone_digits(sv, i) || lone_string(sv, i)
}

/// `r` is the expression node that parsing the lone bare literal at `i`
/// must produce: the literal itself, wrapped in one expression node.
pub open spec fn denotes_literal(sv: Seq<char>, i: int, r: Rule) -> bool {
    r matches Rule::Exp(e) && match *e {
        Rule::Nil => lone_word(sv, i, "nil"@),
        Rule::Bool(b) => if b {
            lone_word(sv, i, "true"@)
        } else {
            lone_word(sv, i, "false"@)
        },
        Rule::Numeral(n) => lone_digits(sv, i) && n == digits_val(
            sv.subrange(i, sv.len() as int),
        ) as i64,
        Rule::LiteralString(c) => lone_string(sv, i) && c@ == unescape(
            sv.subrange(i + 1, sv.len() - 1),
        ),
        _ => false,
    }
}

/// A lone literal is recognizable by its first character: the literal
/// kinds are mutually exclusive.
proof fn lemma_lone_cases(sv: Seq<char>, i: int)
    requires
        lone_literal(sv, i),
    ensures
        i < sv.len(),
        lone_word(sv, i, "nil"@) ==> sv[i] == 'n' && sv.len() - i == 3 && ident_end(sv, i + 1)
            == sv.len(),
        lone_word(sv, i, "true"@) ==> sv[i] == 't' && sv.len() - i == 4 && ident_end(sv, i + 1)
            == sv.len(),
        lone_word(sv, i, "false"@) ==> sv[i] == 'f' && sv.len() - i == 5 && ident_end(sv, i + 1)
            == sv.len(),
        lone_digits(sv, i) ==> is_digit_char(sv[i]),
        lone_string(sv, i) ==> sv[i] == '"',
{
    reveal_strlit("nil");
    reveal_strlit("true");
    reveal_strlit("false");
    if lone_word(sv, i, "nil"@) {
        assert(sv.subrange(i, sv.len() as int)[0] == sv[i]);
        lemma_lone_word_runs_to_end(sv, i, "nil"@);
    }
    if lone_word(sv, i, "true"@) {
        assert(sv.subrange(i, sv.len() as int)[0] == sv[i]);
        lemma_lone_word_runs_to_end(sv, i, "true"@);
    }
    if lone_word(sv, i, "false"@) {
        assert(sv.subrange(i, sv.len() as int)[0] == sv[i]);
        lemma_lone_word_runs_to_end(sv, i, "false"@);
    }
    if lone_digits(sv, i) {
        if !is_digit_char(sv[i]) {
            assert(digits_end(sv, i) == i);
        }
    }
}

/// A keyword literal that fills the rest of the text scans to the end as
/// one identifier: every character after the first is a letter.
proof fn lemma_lone_word_runs_to_end(sv: Seq<char>, i: int, w: Seq<char>)
    requires
        lone_word(sv, i, w),
        w.len() >= 1,
        forall|t: int| 0 <= t < w.len() ==> is_letter_char(#[trigger] w[t]),
    ensures
        ident_end(sv, i + 1) == sv.len(),
{
    lemma_ident_end_bounds(sv, i + 1);
    let m = ident_end(sv, i + 1);
    if m < sv.len() {
        assert(sv.subrange(i, sv.len() as int)[m - i] == sv[m]);
        assert(is_letter_char(w[m - i]));
    }
}

/// The first position at or after `k` that cannot continue an identifier.
pub open spec fn ident_end(sv: Seq<char>, k: int) -> int
    decreases sv.len() - k,
{
    if 0 <= k < sv.len() && is_alnum_char(sv[k]) {
        ident_end(sv, k + 1)
    } else {
        k
    }
}

proof fn lemma_ident_end_bounds(sv: Seq<char>, k: int)
    requires
        0 <= k <= sv.len(),
    ensures
        k <= ident_end(sv, k) <= sv.len(),
        forall|m: int| k <= m < ident_end(sv, k) ==> is_alnum_char(sv[m]),
        ident_end(sv, k) < sv.len() ==> !is_alnum_char(sv[ident_end(sv, k)]),
    decreases sv.len() - k,
{
    if k < sv.len() && is_alnum_char(sv[k]) {
        lemma_ident_end_bounds(sv, k + 1);
    }
}

/// An identifier: a letter followed by letters and digits. Succeeds if and
/// only if a letter stands at `i`. No reserved word is excluded; ordered
/// backtracking in the callers resolves the overlap.
#[verifier::loop_isolation(false)]
pub fn symbol(s: &str, i: usize) -> (r: Option<(Box<Rule>, usize)>)
    requires
        i <= s@.len(),
    ensures
        ({
            let m = ident_end(s@, i + 1);
            match r {
                Some((rule, j)) => {
                    &&& i < s@.len() && is_letter_char(s@[i as int])
                    &&& *rule matches Rule::Symbol(nm) && nm@ == s@.subrange(i as int, m)
                    &&& rule_wf(*rule)
                    &&& i < m <= j <= s@.len()
                    &&& j == spaces_end(s@, m)
                },
                None => i >= s@.len() || !is_letter_char(s@[i as int]),
            }
        }),
{
    let n = s.unicode_len();
    if i >= n || !is_letter(s.get_char(i)) {
        return None;
    }
    proof {
        lemma_ident_end_bounds(s@, i + 1);
    }
    let ghost m = ident_end(s@, i + 1);
    let mut k = i + 1;
    while k < n && is_alnum(s.get_char(k))
        invariant
            i + 1 <= k <= n,
            n == s@.len(),
            m == ident_end(s@, i + 1),
            i + 1 <= k <= m,
        decreases n - k,
    {
        proof {
            if k == m {
                assert(!is_alnum_char(s@[m]));
                assert(false);
            }
        }
        k = k + 1;
    }
    proof {
        if k < m {
            assert(is_alnum_char(s@[k as int]));
            assert(false);
        }
    }
    let name = s.substring_char(i, k).to_owned();
    let j = skip_spaces(s, k);
    Some((Box::new(Rule::Symbol(name)), j))
}

/// A field separator: a comma or semicolon, then whitespace.
pub fn fieldsep(s: &str, i: usize) -> (r: Option<usize>)
    requires
        i <= s@.len(),
    ensures
        match r {
            Some(j) => i < j <= s@.len() && (s@[i as int] == ',' || s@[i as int] == ';') && j
                == spaces_end(s@, i + 1),
            None => i >= s@.len() || (s@[i as int] != ',' && s@[i as int] != ';'),
        },
{
    match tok(s, i, ',') {
        Some(j) => Some(skip_spaces(s, j)),
        None => match tok(s, i, ';') {
            Some(j) => Some(skip_spaces(s, j)),
            None => None,
        },
    }
}


/// A comma-separated, non-empty list of identifiers.
pub fn symbollist(s: &str, i: usize) -> (r: Option<(Box<Rule>, usize)>)
    requires
        i <= s@.len(),
    ensures
        r matches Some((rule, j)) ==> i < j <= s@.len() && rule_wf(*rule) && *rule is SymbolList
            && j == spaces_end(s@, j as int),
        (i < s@.len() && is_letter_char(s@[i as int]) && ({
            let m = spaces_end(s@, ident_end(s@, i + 1));
            m >= s@.len() || s@[m] != ','
        })) ==> (r matches Some(p) && p.1 == spaces_end(s@, ident_end(s@, i + 1)) && (*p.0
            matches Rule::SymbolList(syms) && syms@.len() == 1 && (*syms@[0] matches Rule::Symbol(
            nm,
        ) && nm@ == s@.subrange(i as int, ident_end(s@, i + 1))))),
    decreases s@.len() - i, 1int,
{
    proof {
        reveal_with_fuel(rule_wf, 4);
        reveal_with_fuel(stat_slots_wf, 2);
    }
    let (first, mut j) = match symbol(s, i) {
        Some(p) => p,
        None => {
            return None;
        },
    };
    let mut v: Vec<Box<Rule>> = Vec::new();
    v.push(first);
    loop
        invariant
            i < j <= s@.len(),
            v.len() >= 1,
            forall|k: int| 0 <= k < v@.len() ==> rule_wf(*(#[trigger] v@[k])) && *v@[k] is Symbol,
            (i < s@.len() && is_letter_char(s@[i as int]) && ({
                let m = spaces_end(s@, ident_end(s@, i + 1));
                m >= s@.len() || s@[m] != ','
            })) ==> (j == spaces_end(s@, ident_end(s@, i + 1)) && v@.len() == 1 && (*v@[0] matches
                Rule::Symbol(nm) && nm@ == s@.subrange(i as int, ident_end(s@, i + 1)))),
        decreases s@.len() - j,
    {
        let j2 = match tok(s, j, ',') {
            Some(j2) => skip_spaces(s, j2),
            None => {
                break ;
            },
        };
        match symbol(s, j2) {
            Some((sym, j3)) => {
                proof {
                    reveal_with_fuel(rule_wf, 4);
                }
                v.push(sym);
                j = j3;
            },
            None => {
                // a separator not followed by a name fails the whole list
                return None;
            },
        }
    }
    proof {
        if i < s@.len() {
            lemma_ident_end_bounds(s@, i + 1);
            lemma_spaces_end_bounds(s@, ident_end(s@, i + 1));
        }
    }
    let j = skip_spaces(s, j);
    proof {
        assert(forall|k: int|
            0 <= k < v.len() ==> (#[trigger] rule_wf(*v[k])) && *v[k] is Symbol);
        assert(rule_wf(Rule::SymbolList(v)));
    }
    Some((Box::new(Rule::SymbolList(v)), j))
}

/// A variable reference: today, a bare identifier. Succeeds if and only
/// if a letter stands at `i`; the name is the full identifier there.
pub fn var(s: &str, i: usize) -> (r: Option<(Box<Rule>, usize)>)
    requires
        i <= s@.len(),
    ensures
        match r {
            Some((rule, j)) => {
                &&& i < s@.len() && is_letter_char(s@[i as int])
                &&& i < j <= s@.len()
                &&& rule_wf(*rule)
                &&& *rule matches Rule::Var(sym) && (*sym matches Rule::Symbol(nm) && nm@
                    == s@.subrange(i as int, ident_end(s@, i + 1)))
                &&& j == spaces_end(s@, ident_end(s@, i + 1))
            },
            None => i >= s@.len() || !is_letter_char(s@[i as int]),
        },
{
    proof {
        reveal_with_fuel(rule_wf, 4);
        reveal_with_fuel(stat_slots_wf, 2);
    }
    match symbol(s, i) {
        Some((sym, j)) => Some((Box::new(Rule::Var(sym)), j)),
        None => None,
    }
}

/// A function name: an identifier. Succeeds if and only if a letter
/// stands at `i`; the name is the full identifier there.
pub fn funcname(s: &str, i: usize) -> (r: Option<(Box<Rule>, usize)>)
    requires
        i <= s@.len(),
    ensures
        match r {
            Some((rule, j)) => {
                &&& i < s@.len() && is_letter_char(s@[i as int])
                &&& i < j <= s@.len()
                &&& rule_wf(*rule)
                &&& *rule matches Rule::FuncName(sym) && (*sym matches Rule::Symbol(nm) && nm@
                    == s@.subrange(i as int, ident_end(s@, i + 1)))
                &&& j == spaces_end(s@, ident_end(s@, i + 1))
            },
            None => i >= s@.len() || !is_letter_char(s@[i as int]),
        },
{
    proof {
        reveal_with_fuel(rule_wf, 4);
        reveal_with_fuel(stat_slots_wf, 2);
    }
    match symbol(s, i) {
        Some((sym, j)) => Some((Box::new(Rule::FuncName(sym)), j)),
        None => None,
    }
}

/// A parenthesized argument list holding zero or one expression.
pub fn args(s: &str, i: usize) -> (r: Option<(Box<Rule>, usize)>)
    requires
        i <= s@.len(),
    ensures
        r matches Some((rule, j)) ==> i < j <= s@.len() && rule_wf(*rule) && *rule is Args
            && s@[i as int] == '(',
        (i + 2 <= s@.len() && s@[i as int] == '(' && s@[i + 1] == ')') ==> (r matches Some(p)
            && p.1 == i + 2 && (*p.0 matches Rule::Args(x) && *x == Rule::Nop)),
    decreases s@.len() - i, 1int,
{
    proof {
        reveal_with_fuel(rule_wf, 4);
        reveal_with_fuel(stat_slots_wf, 2);
    }
    let j = match tok(s, i, '(') {
        Some(j) => j,
        None => {
            return None;
        },
    };
    let (inner, j2) = match exp(s, j) {
        Some((e, j2)) => (e, j2),
        None => (nop(), j),
    };
    match tok(s, j2, ')') {
        Some(j3) => Some((Box::new(Rule::Args(inner)), j3)),
        None => None,
    }
}

/// A call of a named function: an identifier followed immediately by a
/// parenthesized argument list.
pub fn functioncall(s: &str, i: usize) -> (r: Option<(Box<Rule>, usize)>)
    requires
        i <= s@.len(),
    ensures
        r matches Some((rule, j)) ==> i < j <= s@.len() && rule_wf(*rule) && *rule is FunctionCall
            && is_letter_char(s@[i as int]),
        fncall_empty_args_spec(s@, i as int, r),
        (i < s@.len() && is_letter_char(s@[i as int]) && ({
            let m = spaces_end(s@, ident_end(s@, i + 1));
            m >= s@.len() || s@[m] != '('
        })) ==> r is None,
    decreases s@.len() - i, 2int,
{
    proof {
        reveal_with_fuel(rule_wf, 4);
        reveal_with_fuel(stat_slots_wf, 2);
    }
    let (name, j) = match symbol(s, i) {
        Some(p) => p,
        None => {
            return None;
        },
    };
    match args(s, j) {
        Some((a, j2)) => Some((Box::new(Rule::FunctionCall(name, a)), j2)),
        None => None,
    }
}

/// A unary operation: `not`, negation, length or bitwise-not tag, then a
/// primary expression.
pub fn unop(s: &str, i: usize) -> (r: Option<(Box<Rule>, usize)>)
    requires
        i <= s@.len(),
    ensures
        r matches Some((rule, j)) ==> i < j <= s@.len() && rule_wf(*rule) && *rule is UnOp && (
        s@[i as int] == '-' || s@[i as int] == '#' || s@[i as int] == '~' || s@[i as int] == 'n'),
        (i < s@.len() && s@[i as int] == '-' && lone_digits(s@, i + 1)) ==> (r matches Some(p)
            && p.1 == s@.len() && (*p.0 matches Rule::UnOp(c2, e2) && c2 == '-'
            && denotes_literal(s@, i + 1, *e2))),
    decreases s@.len() - i, 1int,
{
    proof {
        reveal_with_fuel(rule_wf, 4);
        reveal_with_fuel(stat_slots_wf, 2);
    }
    let (op, j) = match reserved(s, i, "not") {
        Some((_, j)) => {
            proof {
                reveal_strlit("not");
                assert(s@.subrange(i as int, i + "not"@.len())[0] == s@[i as int]);
            }
            ('!', j)
        },
        None => match tok(s, i, '-') {
            Some(j) => ('-', j),
            None => match tok(s, i, '#') {
                Some(j) => ('#', j),
                None => match tok(s, i, '~') {
                    Some(j) => ('~', j),
                    None => {
                        return None;
                    },
                },
            },
        },
    };
    match exp_(s, j) {
        Some((e, j2)) => Some((Box::new(Rule::UnOp(op, e)), j2)),
        None => None,
    }
}

/// The multiplicative operator tags.
pub open spec fn mul_op(c: char) -> bool {
    c == '*' || c == '/'
}

/// The additive operator tags.
pub open spec fn add_op(c: char) -> bool {
    c == '+' || c == '-'
}

/// The relational operator tags.
pub open spec fn rel_op(c: char) -> bool {
    c == 'l' || c == 'g' || c == '<' || c == '>' || c == 'e' || c == 'n'
}

/// The logical operator tags.
pub open spec fn log_op(c: char) -> bool {
    c == '&' || c == '|'
}

/// A primary result: an expression node that is no operation at all.
pub open spec fn level_primary(rule: Rule) -> bool {
    rule matches Rule::Exp(x) && !(*x is BinOp)
}

/// A multiplicative-level result: primary, or a multiplicative operation
/// whose right operand is primary — so a chain of `*`/`/` can only have
/// folded to the left.
pub open spec fn level_mul(rule: Rule) -> bool {
    rule matches Rule::Exp(x) && match *x {
        Rule::BinOp(c, _lhs, rhs) => mul_op(c) && level_primary(*rhs),
        _ => true,
    }
}

/// An additive-level result: multiplicative, or an additive operation
/// whose right operand is multiplicative — `a - b - c` can only be
/// `(a - b) - c`, and a multiplicative right operand binds tighter.
pub open spec fn level_add(rule: Rule) -> bool {
    rule matches Rule::Exp(x) && match *x {
        Rule::BinOp(c, _lhs, rhs) => (mul_op(c) && level_primary(*rhs)) || (add_op(c) && level_mul(
            *rhs,
        )),
        _ => true,
    }
}

/// A relational-level result: additive, or a comparison whose right
/// operand is additive.
pub open spec fn level_rel(rule: Rule) -> bool {
    rule matches Rule::Exp(x) && match *x {
        Rule::BinOp(c, _lhs, rhs) => (mul_op(c) && level_primary(*rhs)) || (add_op(c) && level_mul(
            *rhs,
        )) || (rel_op(c) && level_add(*rhs)),
        _ => true,
    }
}

/// A logical-level result: relational, or a conjunction/disjunction whose
/// right operand is relational — the loosest binding sits at the top.
pub open spec fn level_log(rule: Rule) -> bool {
    rule matches Rule::Exp(x) && match *x {
        Rule::BinOp(c, _lhs, rhs) => (mul_op(c) && level_primary(*rhs)) || (add_op(c) && level_mul(
            *rhs,
        )) || (rel_op(c) && level_add(*rhs)) || (log_op(c) && level_rel(*rhs)),
        _ => true,
    }
}

/// A primary expression: a literal, a unary operation, a prefix
/// expression or a table constructor, in that order of preference,
/// wrapped in an expression node.
pub fn exp_(s: &str, i: usize) -> (r: Option<(Box<Rule>, usize)>)
    requires
        i <= s@.len(),
    ensures
        r matches Some((rule, j)) ==> i < j <= s@.len() && rule_wf(*rule) && *rule is Exp
            && exp_start_char(s@[i as int]),
        lone_literal(s@, i as int) ==> (r matches Some(p) && p.1 == s@.len() && denotes_literal(
            s@,
            i as int,
            *p.0,
        )),
        r matches Some(p) ==> level_primary(*p.0),
    decreases s@.len() - i, 4int,
{
    proof {
        reveal_with_fuel(rule_wf, 4);
        reveal_with_fuel(stat_slots_wf, 2);
    }
    proof {
        reveal_strlit("nil");
        reveal_strlit("true");
        reveal_strlit("false");
    }
    match nil(s, i) {
        Some((inner, j)) => {
            proof {
                assert(s@.subrange(i as int, i + "nil"@.len())[0] == s@[i as int]);
                if lone_literal(s@, i as int) {
                    lemma_lone_cases(s@, i as int);
                }
            }
            return Some((Box::new(Rule::Exp(inner)), j));
        },
        None => {},
    }
    match boolean(s, i) {
        Some((inner, j)) => {
            proof {
                if i + "true"@.len() <= s@.len() {
                    assert(s@.subrange(i as int, i + "true"@.len())[0] == s@[i as int]);
                }
                if i + "false"@.len() <= s@.len() {
                    assert(s@.subrange(i as int, i + "false"@.len())[0] == s@[i as int]);
                }
                if lone_literal(s@, i as int) {
                    lemma_lone_cases(s@, i as int);
                }
            }
            return Some((Box::new(Rule::Exp(inner)), j));
        },
        None => {},
    }
    match numeral(s, i) {
        Some((inner, j)) => {
            proof {
                if !is_digit_char(s@[i as int]) {
                    assert(digits_end(s@, i as int) == i);
                }
                if lone_literal(s@, i as int) {
                    lemma_lone_cases(s@, i as int);
                    if lone_digits(s@, i as int) {
                        assert(s@.subrange(i as int, digits_end(s@, i as int)) == s@.subrange(
                            i as int,
                            s@.len() as int,
                        ));
                    }
                }
            }
            return Some((Box::new(Rule::Exp(inner)), j));
        },
        None => {},
    }
    match literal_string(s, i) {
        Some((inner, j)) => {
            proof {
                if lone_literal(s@, i as int) {
                    lemma_lone_cases(s@, i as int);
                }
            }
            return Some((Box::new(Rule::Exp(inner)), j));
        },
        None => {},
    }
    match unop(s, i) {
        Some((inner, j)) => {
            proof {
                if lone_literal(s@, i as int) {
                    assert(false);
                }
            }
            return Some((Box::new(Rule::Exp(inner)), j));
        },
        None => {},
    }
    match prefixexp(s, i) {
        Some((inner, j)) => {
            proof {
                if lone_literal(s@, i as int) {
                    assert(false);
                }
            }
            return Some((Box::new(Rule::Exp(inner)), j));
        },
        None => {},
    }
    match tableconstructor(s, i) {
        Some((inner, j)) => {
            proof {
                if lone_literal(s@, i as int) {
                    assert(false);
                }
            }
            return Some((Box::new(Rule::Exp(inner)), j));
        },
        None => {},
    }
    None
}

/// Multiplicative level: a left fold of `*` and `/` over primaries.
pub fn binop4(s: &str, i: usize) -> (r: Option<(Box<Rule>, usize)>)
    requires
        i <= s@.len(),
    ensures
        r matches Some((rule, j)) ==> i < j <= s@.len() && rule_wf(*rule) && *rule is Exp
            && exp_start_char(s@[i as int]),
        lone_literal(s@, i as int) ==> (r matches Some(p) && p.1 == s@.len() && denotes_literal(
            s@,
            i as int,
            *p.0,
        )),
        r matches Some(p) ==> level_mul(*p.0),
    decreases s@.len() - i, 5int,
{
    proof {
        reveal_with_fuel(rule_wf, 4);
        reveal_with_fuel(stat_slots_wf, 2);
    }
    let (mut acc, mut j) = match exp_(s, i) {
        Some(p) => p,
        None => {
            return None;
        },
    };
    loop
        invariant
            i < j <= s@.len(),
            rule_wf(*acc),
            *acc is Exp,
            level_mul(*acc),
            lone_literal(s@, i as int) ==> j == s@.len() && denotes_literal(s@, i as int, *acc),
        decreases s@.len() - j,
    {
        let (op, j2) = match tok(s, j, '*') {
            Some(j2) => ('*', j2),
            None => match tok(s, j, '/') {
                Some(j2) => ('/', j2),
                None => {
                    break ;
                },
            },
        };
        let j3 = skip_spaces(s, j2);
        match exp_(s, j3) {
            Some((rhs, j4)) => {
                proof {
                    reveal_with_fuel(rule_wf, 4);
                }
                acc = Box::new(Rule::Exp(Box::new(Rule::BinOp(op, acc, rhs))));
                j = j4;
            },
            None => {
                // an operator without a right operand fails the level
                return None;
            },
        }
    }
    Some((acc, j))
}

/// Additive level: a left fold of `+` and `-` over multiplicative terms,
/// so that `a - b - c` parses as `(a - b) - c`.
pub fn binop3(s: &str, i: usize) -> (r: Option<(Box<Rule>, usize)>)
    requires
        i <= s@.len(),
    ensures
        r matches Some((rule, j)) ==> i < j <= s@.len() && rule_wf(*rule) && *rule is Exp
            && exp_start_char(s@[i as int]),
        lone_literal(s@, i as int) ==> (r matches Some(p) && p.1 == s@.len() && denotes_literal(
            s@,
            i as int,
            *p.0,
        )),
        r matches Some(p) ==> level_add(*p.0),
    decreases s@.len() - i, 6int,
{
    proof {
        reveal_with_fuel(rule_wf, 4);
        reveal_with_fuel(stat_slots_wf, 2);
    }
    let (mut acc, mut j) = match binop4(s, i) {
        Some(p) => p,
        None => {
            return None;
        },
    };
    loop
        invariant
            i < j <= s@.len(),
            rule_wf(*acc),
            *acc is Exp,
            level_add(*acc),
            lone_literal(s@, i as int) ==> j == s@.len() && denotes_literal(s@, i as int, *acc),
        decreases s@.len() - j,
    {
        let (op, j2) = match tok(s, j, '+') {
            Some(j2) => ('+', j2),
            None => match tok(s, j, '-') {
                Some(j2) => ('-', j2),
                None => {
                    break ;
                },
            },
        };
        let j3 = skip_spaces(s, j2);
        match binop4(s, j3) {
            Some((rhs, j4)) => {
                proof {
                    reveal_with_fuel(rule_wf, 4);
                }
                acc = Box::new(Rule::Exp(Box::new(Rule::BinOp(op, acc, rhs))));
                j = j4;
            },
            None => {
                return None;
            },
        }
    }
    Some((acc, j))
}

/// Relational level: a left fold of the comparison operators, each
/// encoded as one tag character (`<=` as `l`, `>=` as `g`, `==` as `e`,
/// `~=` as `n`).
pub fn binop2(s: &str, i: usize) -> (r: Option<(Box<Rule>, usize)>)
    requires
        i <= s@.len(),
    ensures
        r matches Some((rule, j)) ==> i < j <= s@.len() && rule_wf(*rule) && *rule is Exp
            && exp_start_char(s@[i as int]),
        lone_literal(s@, i as int) ==> (r matches Some(p) && p.1 == s@.len() && denotes_literal(
            s@,
            i as int,
            *p.0,
        )),
        r matches Some(p) ==> level_rel(*p.0),
    decreases s@.len() - i, 7int,
{
    proof {
        reveal_with_fuel(rule_wf, 4);
        reveal_with_fuel(stat_slots_wf, 2);
    }
    let (mut acc, mut j) = match binop3(s, i) {
        Some(p) => p,
        None => {
            return None;
        },
    };
    loop
        invariant
            i < j <= s@.len(),
            rule_wf(*acc),
            *acc is Exp,
            level_rel(*acc),
            lone_literal(s@, i as int) ==> j == s@.len() && denotes_literal(s@, i as int, *acc),
        decreases s@.len() - j,
    {
        let mut op = ' ';
        let mut j2 = j;
        match tok(s, j, '<') {
            Some(ja) => match tok(s, ja, '=') {
                Some(jb) => {
                    op = 'l';
                    j2 = jb;
                },
                None => {
                    op = '<';
                    j2 = ja;
                },
            },
            None => match tok(s, j, '>') {
                Some(ja) => match tok(s, ja, '=') {
                    Some(jb) => {
                        op = 'g';
                        j2 = jb;
                    },
                    None => {
                        op = '>';
                        j2 = ja;
                    },
                },
                None => match tok(s, j, '=') {
                        Some(ja) => match tok(s, ja, '=') {
                            Some(jb) => {
                                op = 'e';
                                j2 = jb;
                            },
                            None => {
                                break ;
                            },
                        },
                    None => match tok(s, j, '~') {
                        Some(ja) => match tok(s, ja, '=') {
                            Some(jb) => {
                                op = 'n';
                                j2 = jb;
                            },
                            None => {
                                break ;
                            },
                        },
                        None => {
                            break ;
                        },
                    },
                },
            },
        }
        let j3 = skip_spaces(s, j2);
        match binop3(s, j3) {
            Some((rhs, j4)) => {
                proof {
                    reveal_with_fuel(rule_wf, 4);
                }
                acc = Box::new(Rule::Exp(Box::new(Rule::BinOp(op, acc, rhs))));
                j = j4;
            },
            None => {
                return None;
            },
        }
    }
    Some((acc, j))
}

/// Logical level, the loosest binding: a left fold of `and` and `or`
/// (encoded `&` and `|`) over relational terms.
pub fn binop1(s: &str, i: usize) -> (r: Option<(Box<Rule>, usize)>)
    requires
        i <= s@.len(),
    ensures
        r matches Some((rule, j)) ==> i < j <= s@.len() && rule_wf(*rule) && *rule is Exp
            && exp_start_char(s@[i as int]),
        lone_literal(s@, i as int) ==> (r matches Some(p) && p.1 == s@.len() && denotes_literal(
            s@,
            i as int,
            *p.0,
        )),
        r matches Some(p) ==> level_log(*p.0),
    decreases s@.len() - i, 8int,
{
    proof {
        reveal_with_fuel(rule_wf, 4);
        reveal_with_fuel(stat_slots_wf, 2);
    }
    let (mut acc, mut j) = match binop2(s, i) {
        Some(p) => p,
        None => {
            return None;
        },
    };
    loop
        invariant
            i < j <= s@.len(),
            rule_wf(*acc),
            *acc is Exp,
            level_log(*acc),
            lone_literal(s@, i as int) ==> j == s@.len() && denotes_literal(s@, i as int, *acc),
        decreases s@.len() - j,
    {
        let (op, j2) = match reserved(s, j, "and") {
            Some((_, j2)) => ('&', j2),
            None => match reserved(s, j, "or") {
                Some((_, j2)) => ('|', j2),
                None => {
                    break ;
                },
            },
        };
        proof {
            reveal_strlit("and");
            reveal_strlit("or");
        }
        match binop2(s, j2) {
            Some((rhs, j4)) => {
                proof {
                    reveal_with_fuel(rule_wf, 4);
                }
                acc = Box::new(Rule::Exp(Box::new(Rule::BinOp(op, acc, rhs))));
                j = j4;
            },
            None => {
                return None;
            },
        }
    }
    Some((acc, j))
}

/// An expression: the full operator-precedence ladder. When the text
/// from `i` on is exactly one bare literal, the result is exactly that
/// literal's node with the whole text consumed, so that parsing and then
/// evaluating a bare literal provably yields the corresponding value.
pub fn exp(s: &str, i: usize) -> (r: Option<(Box<Rule>, usize)>)
    requires
        i <= s@.len(),
    ensures
        r matches Some((rule, j)) ==> i < j <= s@.len() && rule_wf(*rule) && *rule is Exp
            && exp_start_char(s@[i as int]),
        lone_literal(s@, i as int) ==> (r matches Some(p) && p.1 == s@.len() && denotes_literal(
            s@,
            i as int,
            *p.0,
        )),
        r matches Some(p) ==> level_log(*p.0),
    decreases s@.len() - i, 9int,
{
    proof {
        reveal_with_fuel(rule_wf, 4);
        reveal_with_fuel(stat_slots_wf, 2);
    }
    binop1(s, i)
}

/// A prefix expression: a function call, a bare variable, or a
/// parenthesized expression, resolved by ordered backtracking in that
/// order (first match wins).
pub fn prefixexp(s: &str, i: usize) -> (r: Option<(Box<Rule>, usize)>)
    requires
        i <= s@.len(),
    ensures
        r matches Some((rule, j)) ==> i < j <= s@.len() && rule_wf(*rule) && *rule is Prefixexp
            && (is_letter_char(s@[i as int]) || s@[i as int] == '('),
        (i < s@.len() && is_letter_char(s@[i as int]) && ({
            let m = spaces_end(s@, ident_end(s@, i + 1));
            m >= s@.len() || s@[m] != '('
        })) ==> (r matches Some(p) && p.1 == spaces_end(s@, ident_end(s@, i + 1)) && (*p.0
            matches Rule::Prefixexp(x) && (*x matches Rule::Var(vsym) && (*vsym matches
            Rule::Symbol(nm) && nm@ == s@.subrange(i as int, ident_end(s@, i + 1)))))),
    decreases s@.len() - i, 3int,
{
    proof {
        reveal_with_fuel(rule_wf, 4);
        reveal_with_fuel(stat_slots_wf, 2);
    }
    let (inner, j) = match functioncall(s, i) {
        Some(p) => {
            proof {
                assert(is_letter_char(s@[i as int]));
            }
            p
        },
        None => match var(s, i) {
            Some(p) => {
                proof {
                    assert(is_letter_char(s@[i as int]));
                    lemma_ident_end_bounds(s@, i + 1);
                    lemma_spaces_end_bounds(s@, ident_end(s@, i + 1));
                }
                p
            },
            None => {
                let j = match tok(s, i, '(') {
                    Some(j) => j,
                    None => {
                        return None;
                    },
                };
                proof {
                    assert(s@[i as int] == '(');
                }
                let (e, j2) = match exp(s, j) {
                    Some(p) => p,
                    None => {
                        return None;
                    },
                };
                match tok(s, j2, ')') {
                    Some(j3) => (e, j3),
                    None => {
                        return None;
                    },
                }
            },
        },
    };
    let j = skip_spaces(s, j);
    Some((Box::new(Rule::Prefixexp(inner)), j))
}

/// A table constructor: a braced, non-empty field list.
pub fn tableconstructor(s: &str, i: usize) -> (r: Option<(Box<Rule>, usize)>)
    requires
        i <= s@.len(),
    ensures
        r matches Some((rule, j)) ==> i < j <= s@.len() && rule_wf(*rule) && *rule is TableConst
            && s@[i as int] == '{',
    decreases s@.len() - i, 1int,
{
    proof {
        reveal_with_fuel(rule_wf, 4);
        reveal_with_fuel(stat_slots_wf, 2);
    }
    let j = match tok(s, i, '{') {
        Some(j) => skip_spaces(s, j),
        None => {
            return None;
        },
    };
    let (fl, j2) = match fieldlist(s, j) {
        Some(p) => p,
        None => {
            return None;
        },
    };
    let j3 = skip_spaces(s, j2);
    match tok(s, j3, '}') {
        Some(j4) => Some((Box::new(Rule::TableConst(fl)), skip_spaces(s, j4))),
        None => None,
    }
}

/// A non-empty list of table fields separated by commas or semicolons.
pub fn fieldlist(s: &str, i: usize) -> (r: Option<(Box<Rule>, usize)>)
    requires
        i <= s@.len(),
    ensures
        r matches Some((rule, j)) ==> i < j <= s@.len() && rule_wf(*rule) && *rule is FieldList,
        lone_literal(s@, i as int) ==> (r matches Some(p) && p.1 == s@.len() && (*p.0 matches
            Rule::FieldList(fs) && fs@.len() == 1 && (*fs@[0] matches Rule::Field(k2, v2) && *k2
            == Rule::Nop && denotes_literal(s@, i as int, *v2)))),
    decreases s@.len() - i, 11int,
{
    proof {
        reveal_with_fuel(rule_wf, 4);
        reveal_with_fuel(stat_slots_wf, 2);
    }
    let (first, mut j) = match field(s, i) {
        Some(p) => p,
        None => {
            return None;
        },
    };
    let mut v: Vec<Box<Rule>> = Vec::new();
    v.push(first);
    loop
        invariant
            i < j <= s@.len(),
            v.len() >= 1,
            forall|k: int| 0 <= k < v@.len() ==> rule_wf(*(#[trigger] v@[k])) && *v@[k] is Field,
            lone_literal(s@, i as int) ==> (j == s@.len() && v@.len() == 1 && (*v@[0] matches
                Rule::Field(k2, v2) && *k2 == Rule::Nop && denotes_literal(s@, i as int, *v2))),
        decreases s@.len() - j,
    {
        let j2 = match fieldsep(s, j) {
            Some(j2) => j2,
            None => {
                break ;
            },
        };
        match field(s, j2) {
            Some((f, j3)) => {
                proof {
                    reveal_with_fuel(rule_wf, 4);
                }
                v.push(f);
                j = j3;
            },
            None => {
                // a separator not followed by a field fails the list
                return None;
            },
        }
    }
    proof {
        assert(forall|k: int|
            0 <= k < v.len() ==> (#[trigger] rule_wf(*v[k])) && *v[k] is Field);
        assert(rule_wf(Rule::FieldList(v)));
    }
    Some((Box::new(Rule::FieldList(v)), j))
}

/// One table field: a bracketed-key field, a symbol-keyed field, or a
/// bare (appended) value expression, in that order.
pub fn field(s: &str, i: usize) -> (r: Option<(Box<Rule>, usize)>)
    requires
        i <= s@.len(),
    ensures
        r matches Some((rule, j)) ==> i < j <= s@.len() && rule_wf(*rule) && *rule is Field,
        lone_literal(s@, i as int) ==> (r matches Some(p) && p.1 == s@.len() && (*p.0 matches
            Rule::Field(k2, v2) && *k2 == Rule::Nop && denotes_literal(s@, i as int, *v2))),
    decreases s@.len() - i, 10int,
{
    proof {
        reveal_with_fuel(rule_wf, 4);
        reveal_with_fuel(stat_slots_wf, 2);
    }
    match tok(s, i, '[') {
        Some(j) => {
            match exp(s, j) {
                Some((key, j2)) => match tok(s, j2, ']') {
                    Some(j3) => match tok(s, j3, '=') {
                        Some(j4) => {
                            let j5 = skip_spaces(s, j4);
                            match exp(s, j5) {
                                Some((value, j6)) => {
                                    proof {
                                        if lone_literal(s@, i as int) {
                                            lemma_lone_cases(s@, i as int);
                                            assert(false);
                                        }
                                    }
                                    return Some((Box::new(Rule::Field(key, value)), j6));
                                },
                                None => {},
                            }
                        },
                        None => {},
                    },
                    None => {},
                },
                None => {},
            }
        },
        None => {},
    }
    match symbol(s, i) {
        Some((key, j)) => match tok(s, j, '=') {
            Some(j2) => {
                proof {
                    if lone_literal(s@, i as int) {
                        lemma_lone_cases(s@, i as int);
                        assert(false);
                    }
                }
                let j3 = skip_spaces(s, j2);
                match exp(s, j3) {
                    Some((value, j4)) => {
                        return Some((Box::new(Rule::Field(key, value)), j4));
                    },
                    None => {},
                }
            },
            None => {},
        },
        None => {},
    }
    proof {
        if lone_literal(s@, i as int) {
            lemma_lone_cases(s@, i as int);
        }
    }
    match exp(s, i) {
        Some((value, j)) => {
            proof {
                assert(rule_wf(Rule::Nop));
            }
            Some((Box::new(Rule::Field(nop(), value)), j))
        },
        None => None,
    }
}

/// An optional single-identifier parameter list; always succeeds,
/// consuming the identifier exactly when a letter stands at `i`, and
/// nothing otherwise.
pub fn parlist1(s: &str, i: usize) -> (r: (Option<Box<Rule>>, usize))
    requires
        i <= s@.len(),
    ensures
        i <= r.1 <= s@.len(),
        match r.0 {
            Some(p) => {
                &&& i < s@.len() && is_letter_char(s@[i as int])
                &&& rule_wf(*p)
                &&& *p matches Rule::ParList1(sym) && (*sym matches Rule::Symbol(nm) && nm@
                    == s@.subrange(i as int, ident_end(s@, i + 1)))
                &&& r.1 == spaces_end(s@, ident_end(s@, i + 1))
            },
            None => r.1 == i && (i >= s@.len() || !is_letter_char(s@[i as int])),
        },
{
    proof {
        reveal_with_fuel(rule_wf, 4);
        reveal_with_fuel(stat_slots_wf, 2);
    }
    match symbol(s, i) {
        Some((sym, j)) => (Some(Box::new(Rule::ParList1(sym))), j),
        None => (None, i),
    }
}

/// A function body: a parenthesized optional parameter list and a block.
/// The block is shared, so that declaring the function can hand it to the
/// function value without copying the tree.
pub fn funcbody(s: &str, i: usize) -> (r: Option<(Box<Rule>, usize)>)
    requires
        i <= s@.len(),
    ensures
        r matches Some((rule, j)) ==> i < j <= s@.len() && rule_wf(*rule) && *rule is FuncBody,
        (i + 2 == s@.len() && s@[i as int] == '(' && s@[i + 1] == ')') ==> (r matches Some(p)
            && p.1 == s@.len() && (*p.0 matches Rule::FuncBody(ps, blk) && ps is None && (
        *blk matches Rule::Block(c) && (*c matches Rule::Chunk(st2, la2) && st2.len() == 0
            && la2 is None)))),
    decreases s@.len() - i, 1int,
{
    proof {
        reveal_with_fuel(rule_wf, 4);
        reveal_with_fuel(stat_slots_wf, 2);
    }
    let j = match tok(s, i, '(') {
        Some(j) => j,
        None => {
            return None;
        },
    };
    let (params, j2) = parlist1(s, j);
    let j3 = match tok(s, j2, ')') {
        Some(j3) => skip_spaces(s, j3),
        None => {
            return None;
        },
    };
    let (blk, j4) = block(s, j3);
    Some((Box::new(Rule::FuncBody(params, Rc::new(*blk))), j4))
}


/// The text at `i` is the word `local`, an identifier, and then no `=`:
/// a local declaration whose initializer defaults to `nil`.
pub open spec fn local_nil_decl_at(sv: Seq<char>, i: int) -> bool {
    &&& 0 <= i && i + "local"@.len() <= sv.len()
    &&& sv.subrange(i, i + "local"@.len()) == "local"@
    &&& ({
        let j = spaces_end(sv, i + "local"@.len());
        j < sv.len() && is_letter_char(sv[j]) && ({
            let m = spaces_end(sv, ident_end(sv, j + 1));
            m >= sv.len() || sv[m] != '='
        })
    })
}

/// What parsing that shape must produce: the local-declaration statement
/// of exactly that identifier with the `nil` default, ending after it.
pub open spec fn local_nil_decl_spec(sv: Seq<char>, i: int, r: Option<(Box<Rule>, usize)>) -> bool {
    local_nil_decl_at(sv, i) ==> (r matches Some(p) && ({
        let j = spaces_end(sv, i + "local"@.len());
        let m = spaces_end(sv, ident_end(sv, j + 1));
        &&& p.1 == m
        &&& *p.0 matches Rule::Stat(k2, a2, b2, c2, d2, e2) && k2 == StatKind::LocalVar && (
        a2 matches Some(sym) && (*sym matches Rule::Symbol(nm) && nm@ == sv.subrange(
            j,
            ident_end(sv, j + 1),
        ))) && (b2 matches Some(ini) && (*ini matches Rule::Exp(x) && *x == Rule::Nil))
            && c2 is None && d2 is None && e2 is None
    }))
}

/// The `if/elseif*/else?/end` statement: conditions and blocks are
/// collected into an if-statement node with index-aligned lists; a
/// trailing `Nop` condition encodes the `else` branch.
fn stat_if(s: &str, i: usize) -> (r: Option<(Box<Rule>, usize)>)
    requires
        i <= s@.len(),
    ensures
        r matches Some((rule, j)) ==> i < j <= s@.len() && rule_wf(*rule) && *rule is Stat,
        !(i + "if"@.len() <= s@.len() && s@.subrange(i as int, i + "if"@.len()) == "if"@)
            ==> r is None,
        r matches Some((rule, j)) ==> (*rule matches Rule::Stat(k2, a2, b2, c2, d2, e2) ==> (
        a2 matches Some(ifst) ==> (*ifst matches Rule::IfStat(conds, blocks2) ==> forall|k: int|
            0 <= k < conds@.len() - 1 ==> !((#[trigger] *conds@[k]) is Nop)))),
    decreases s@.len() - i, 12int,
{
    proof {
        reveal_with_fuel(rule_wf, 4);
        reveal_with_fuel(stat_slots_wf, 2);
    }
    let j0 = match reserved(s, i, "if") {
        Some((_, j)) => j,
        None => {
            return None;
        },
    };
    proof {
        reveal_strlit("if");
    }
    let (ifexp, j1) = match exp(s, j0) {
        Some(p) => p,
        None => {
            return None;
        },
    };
    let j2 = match reserved(s, j1, "then") {
        Some((_, j)) => j,
        None => {
            return None;
        },
    };
    let (thenblk, j3a) = block(s, j2);
    let mut j = skip_spaces(s, j3a);
    let mut conds: Vec<Box<Rule>> = Vec::new();
    let mut blocks: Vec<Box<Rule>> = Vec::new();
    conds.push(ifexp);
    blocks.push(thenblk);
    loop
        invariant
            i < j <= s@.len(),
            conds.len() == blocks.len(),
            conds.len() >= 1,
            forall|k: int|
                0 <= k < conds@.len() ==> rule_wf(*(#[trigger] conds@[k])) && *conds@[k] is Exp,
            forall|k: int|
                0 <= k < blocks@.len() ==> rule_wf(*(#[trigger] blocks@[k]))
                    && *blocks@[k] is Block,
        decreases s@.len() - j,
    {
        let ja = match reserved(s, j, "elseif") {
            Some((_, ja)) => ja,
            None => {
                break ;
            },
        };
        proof {
            reveal_strlit("elseif");
        }
        let (e, jb) = match exp(s, ja) {
            Some(p) => p,
            None => {
                return None;
            },
        };
        let jc = match reserved(s, jb, "then") {
            Some((_, jc)) => jc,
            None => {
                return None;
            },
        };
        let (blk, jd) = block(s, jc);
        proof {
            reveal_with_fuel(rule_wf, 4);
        }
        conds.push(e);
        blocks.push(blk);
        j = jd;
    }
    match reserved(s, j, "else") {
        Some((_, ja)) => {
            proof {
                reveal_strlit("else");
            }
            let (blk, jb) = block(s, ja);
            conds.push(nop());
            blocks.push(blk);
            j = jb;
        },
        None => {},
    }
    let j = skip_spaces(s, j);
    let j2 = match reserved(s, j, "end") {
        Some((_, j2)) => j2,
        None => {
            return None;
        },
    };
    proof {
        assert(forall|k: int|
            0 <= k < conds.len() ==> (#[trigger] rule_wf(*conds[k])) && (*conds[k] is Exp
                || *conds[k] is Nop));
        assert(forall|k: int|
            0 <= k < blocks.len() ==> (#[trigger] rule_wf(*blocks[k])) && *blocks[k] is Block);
        assert(rule_wf(Rule::IfStat(conds, blocks)));
    }
    let ifst = Box::new(Rule::IfStat(conds, blocks));
    Some((Box::new(Rule::Stat(StatKind::IfThen, Some(ifst), None, None, None, None)), j2))
}

/// The `local name [= expr]` statement; a missing initializer defaults to
/// a `nil` literal expression.
fn stat_local(s: &str, i: usize) -> (r: Option<(Box<Rule>, usize)>)
    requires
        i <= s@.len(),
    ensures
        r matches Some((rule, j)) ==> i < j <= s@.len() && rule_wf(*rule) && *rule is Stat,
        local_nil_decl_spec(s@, i as int, r),
    decreases s@.len() - i, 12int,
{
    proof {
        reveal_with_fuel(rule_wf, 4);
        reveal_with_fuel(stat_slots_wf, 2);
    }
    let j0 = match reserved(s, i, "local") {
        Some((_, j)) => j,
        None => {
            return None;
        },
    };
    proof {
        reveal_strlit("local");
    }
    let (name, j1) = match symbol(s, j0) {
        Some(p) => p,
        None => {
            return None;
        },
    };
    let (value, j2) = match tok(s, j1, '=') {
        Some(ja) => {
            let jb = skip_spaces(s, ja);
            match exp(s, jb) {
                Some(p) => p,
                None => {
                    return None;
                },
            }
        },
        None => (Box::new(Rule::Exp(Box::new(Rule::Nil))), j1),
    };
    Some((Box::new(Rule::Stat(StatKind::LocalVar, Some(name), Some(value), None, None, None)), j2))
}

/// The numeric `for name = e1, e2 [, e3] do ... end` statement; it parses
/// but the evaluator reports it as unsupported.
fn stat_for(s: &str, i: usize) -> (r: Option<(Box<Rule>, usize)>)
    requires
        i <= s@.len(),
    ensures
        r matches Some((rule, j)) ==> i < j <= s@.len() && rule_wf(*rule) && *rule is Stat,
    decreases s@.len() - i, 12int,
{
    proof {
        reveal_with_fuel(rule_wf, 4);
        reveal_with_fuel(stat_slots_wf, 2);
    }
    let j0 = match reserved(s, i, "for") {
        Some((_, j)) => j,
        None => {
            return None;
        },
    };
    proof {
        reveal_strlit("for");
    }
    let (name, j1) = match symbol(s, j0) {
        Some(p) => p,
        None => {
            return None;
        },
    };
    let j2 = match tok(s, j1, '=') {
        Some(ja) => skip_spaces(s, ja),
        None => {
            return None;
        },
    };
    let (e1, j3) = match exp(s, j2) {
        Some(p) => p,
        None => {
            return None;
        },
    };
    let j4 = match tok(s, j3, ',') {
        Some(ja) => skip_spaces(s, ja),
        None => {
            return None;
        },
    };
    let (e2, j5) = match exp(s, j4) {
        Some(p) => p,
        None => {
            return None;
        },
    };
    let (e3, j6) = match tok(s, j5, ',') {
        Some(ja) => {
            let jb = skip_spaces(s, ja);
            match exp(s, jb) {
                Some(p) => p,
                None => {
                    return None;
                },
            }
        },
        None => (nop(), j5),
    };
    let j7 = match reserved(s, j6, "do") {
        Some((_, j)) => j,
        None => {
            return None;
        },
    };
    proof {
        reveal_strlit("do");
    }
    let (blk, j8) = block(s, j7);
    let j9 = match reserved(s, j8, "end") {
        Some((_, j)) => j,
        None => {
            return None;
        },
    };
    Some(
        (
            Box::new(
                Rule::Stat(StatKind::For, Some(name), Some(e1), Some(e2), Some(e3), Some(blk)),
            ),
            j9,
        ),
    )
}

/// The generic `for names in expr do ... end` statement.
fn stat_forin(s: &str, i: usize) -> (r: Option<(Box<Rule>, usize)>)
    requires
        i <= s@.len(),
    ensures
        r matches Some((rule, j)) ==> i < j <= s@.len() && rule_wf(*rule) && *rule is Stat,
    decreases s@.len() - i, 12int,
{
    proof {
        reveal_with_fuel(rule_wf, 4);
        reveal_with_fuel(stat_slots_wf, 2);
    }
    let j0 = match reserved(s, i, "for") {
        Some((_, j)) => j,
        None => {
            return None;
        },
    };
    proof {
        reveal_strlit("for");
    }
    let (names, j1) = match symbollist(s, j0) {
        Some(p) => p,
        None => {
            return None;
        },
    };
    let j2 = match reserved(s, j1, "in") {
        Some((_, j)) => j,
        None => {
            return None;
        },
    };
    let (e, j3) = match exp(s, j2) {
        Some(p) => p,
        None => {
            return None;
        },
    };
    let j4 = match reserved(s, j3, "do") {
        Some((_, j)) => j,
        None => {
            return None;
        },
    };
    proof {
        reveal_strlit("do");
    }
    let (blk, j5) = block(s, j4);
    let j6 = match reserved(s, j5, "end") {
        Some((_, j)) => j,
        None => {
            return None;
        },
    };
    Some(
        (Box::new(Rule::Stat(StatKind::ForIn, Some(names), Some(e), Some(blk), None, None)), j6),
    )
}

/// The assignment statement `var = expr`.
fn stat_assign(s: &str, i: usize) -> (r: Option<(Box<Rule>, usize)>)
    requires
        i <= s@.len(),
    ensures
        r matches Some((rule, j)) ==> i < j <= s@.len() && rule_wf(*rule) && *rule is Stat,
    decreases s@.len() - i, 12int,
{
    proof {
        reveal_with_fuel(rule_wf, 4);
        reveal_with_fuel(stat_slots_wf, 2);
    }
    let (v, j1) = match var(s, i) {
        Some(p) => p,
        None => {
            return None;
        },
    };
    let j2 = match tok(s, j1, '=') {
        Some(ja) => skip_spaces(s, ja),
        None => {
            return None;
        },
    };
    match exp(s, j2) {
        Some((e, j3)) => Some(
            (Box::new(Rule::Stat(StatKind::VarAssign, Some(v), Some(e), None, None, None)), j3),
        ),
        None => None,
    }
}

/// The `function name(params) ... end` declaration statement.
fn stat_declfn(s: &str, i: usize) -> (r: Option<(Box<Rule>, usize)>)
    requires
        i <= s@.len(),
    ensures
        r matches Some((rule, j)) ==> i < j <= s@.len() && rule_wf(*rule) && *rule is Stat,
    decreases s@.len() - i, 12int,
{
    proof {
        reveal_with_fuel(rule_wf, 4);
        reveal_with_fuel(stat_slots_wf, 2);
    }
    let j0 = match reserved(s, i, "function") {
        Some((_, j)) => j,
        None => {
            return None;
        },
    };
    proof {
        reveal_strlit("function");
    }
    let (name, j1) = match funcname(s, j0) {
        Some(p) => p,
        None => {
            return None;
        },
    };
    let (body, j2) = match funcbody(s, j1) {
        Some(p) => p,
        None => {
            return None;
        },
    };
    let j3 = match reserved(s, j2, "end") {
        Some((_, j)) => j,
        None => {
            return None;
        },
    };
    Some(
        (
            Box::new(Rule::Stat(StatKind::DeclareFunction, Some(name), Some(body), None, None, None)),
            j3,
        ),
    )
}

/// A local declaration's text starts with the letter `l`, so no other
/// keyword alternative can claim it.
proof fn lemma_local_head(sv: Seq<char>, i: int)
    requires
        local_nil_decl_at(sv, i),
    ensures
        i < sv.len() && sv[i] == 'l',
        !(i + "if"@.len() <= sv.len() && sv.subrange(i, i + "if"@.len()) == "if"@),
        !(i + "break"@.len() <= sv.len() && sv.subrange(i, i + "break"@.len()) == "break"@),
        !(i + "do"@.len() <= sv.len() && sv.subrange(i, i + "do"@.len()) == "do"@),
{
    reveal_strlit("local");
    reveal_strlit("if");
    reveal_strlit("break");
    reveal_strlit("do");
    assert(sv.subrange(i, i + "local"@.len())[0] == sv[i]);
    if i + "if"@.len() <= sv.len() && sv.subrange(i, i + "if"@.len()) == "if"@ {
        assert(sv.subrange(i, i + "if"@.len())[0] == sv[i]);
    }
    if i + "break"@.len() <= sv.len() && sv.subrange(i, i + "break"@.len()) == "break"@ {
        assert(sv.subrange(i, i + "break"@.len())[0] == sv[i]);
    }
    if i + "do"@.len() <= sv.len() && sv.subrange(i, i + "do"@.len()) == "do"@ {
        assert(sv.subrange(i, i + "do"@.len())[0] == sv[i]);
    }
}

/// One statement, by ordered choice with full backtracking: separator,
/// if-chain, `break`, `do` block, local declaration, numeric `for`,
/// generic `for-in`, assignment, bare call, function declaration. The
/// order is load-bearing: the first alternative that matches wins.
pub fn stat(s: &str, i: usize) -> (r: Option<(Box<Rule>, usize)>)
    requires
        i <= s@.len(),
    ensures
        r matches Some((rule, j)) ==> i < j <= s@.len() && rule_wf(*rule) && *rule is Stat,
        (i < s@.len() && s@[i as int] == ';') ==> (r matches Some(p) && p.1 == i + 1 && (*p.0
            matches Rule::Stat(k2, a2, b2, c2, d2, e2) && k2 == StatKind::Sep && a2 is None
            && b2 is None && c2 is None && d2 is None && e2 is None)),
        local_nil_decl_spec(s@, i as int, r),
    decreases s@.len() - i, 13int,
{
    proof {
        reveal_with_fuel(rule_wf, 4);
        reveal_with_fuel(stat_slots_wf, 2);
    }
    match tok(s, i, ';') {
        Some(j) => {
            proof {
                if local_nil_decl_at(s@, i as int) {
                    lemma_local_head(s@, i as int);
                    assert(false);
                }
            }
            return Some(
                (Box::new(Rule::Stat(StatKind::Sep, None, None, None, None, None)), j),
            );
        },
        None => {},
    }
    match stat_if(s, i) {
        Some(p) => {
            proof {
                if local_nil_decl_at(s@, i as int) {
                    lemma_local_head(s@, i as int);
                    assert(false);
                }
            }
            return Some(p);
        },
        None => {},
    }
    match reserved(s, i, "break") {
        Some((_, j)) => {
            proof {
                reveal_strlit("break");
                if local_nil_decl_at(s@, i as int) {
                    lemma_local_head(s@, i as int);
                    assert(false);
                }
            }
            return Some(
                (Box::new(Rule::Stat(StatKind::Break, None, None, None, None, None)), j),
            );
        },
        None => {},
    }
    match reserved(s, i, "do") {
        Some((_, j)) => {
            proof {
                reveal_strlit("do");
                if local_nil_decl_at(s@, i as int) {
                    lemma_local_head(s@, i as int);
                    assert(false);
                }
            }
            let (blk, j2) = block(s, j);
            match reserved(s, j2, "end") {
                Some((_, j3)) => {
                    return Some(
                        (
                            Box::new(Rule::Stat(StatKind::Do, Some(blk), None, None, None, None)),
                            j3,
                        ),
                    );
                },
                None => {},
            }
        },
        None => {},
    }
    match stat_local(s, i) {
        Some(p) => {
            return Some(p);
        },
        None => {
            proof {
                if local_nil_decl_at(s@, i as int) {
                    lemma_local_head(s@, i as int);
                    assert(false);
                }
            }
        },
    }
    match stat_for(s, i) {
        Some(p) => {
            return Some(p);
        },
        None => {},
    }
    match stat_forin(s, i) {
        Some(p) => {
            return Some(p);
        },
        None => {},
    }
    match stat_assign(s, i) {
        Some(p) => {
            return Some(p);
        },
        None => {},
    }
    match functioncall(s, i) {
        Some((fc, j)) => {
            return Some(
                (
                    Box::new(Rule::Stat(StatKind::FunctionCall, Some(fc), None, None, None, None)),
                    j,
                ),
            );
        },
        None => {},
    }
    match stat_declfn(s, i) {
        Some(p) => {
            return Some(p);
        },
        None => {},
    }
    None
}

/// The optional trailing `return [expr]` of a chunk; `None` when no
/// `return` stands here, `Some((None, _))` for a bare `return`.
pub fn laststat(s: &str, i: usize) -> (r: Option<(Option<Box<Rule>>, usize)>)
    requires
        i <= s@.len(),
    ensures
        match r {
            Some((ls, j)) => {
                &&& i < j <= s@.len()
                &&& i + "return"@.len() <= s@.len() && s@.subrange(i as int, i + "return"@.len())
                    == "return"@
                &&& (ls matches Some(l) ==> rule_wf(*l) && *l is LastStat)
            },
            None => !(i + "return"@.len() <= s@.len() && s@.subrange(i as int, i
                + "return"@.len()) == "return"@),
        },
    decreases s@.len() - i, 12int,
{
    proof {
        reveal_with_fuel(rule_wf, 4);
        reveal_with_fuel(stat_slots_wf, 2);
    }
    let j0 = match reserved(s, i, "return") {
        Some((_, j)) => j,
        None => {
            return None;
        },
    };
    proof {
        reveal_strlit("return");
    }
    match exp(s, j0) {
        Some((e, j1)) => Some((Some(Box::new(Rule::LastStat(e))), j1)),
        None => Some((None, j0)),
    }
}

/// A chunk: statements in order, then an optional trailing return. A
/// chunk itself never fails; it stops before the first text that is no
/// statement.
pub fn chunk(s: &str, i: usize) -> (r: (Box<Rule>, usize))
    requires
        i <= s@.len(),
    ensures
        i <= r.1 <= s@.len(),
        rule_wf(*r.0),
        *r.0 is Chunk,
        i == s@.len() ==> (r.1 == i && (*r.0 matches Rule::Chunk(st2, la2) && st2.len() == 0
            && la2 is None)),
        (i + 1 == s@.len() && s@[i as int] == ';') ==> (r.1 == s@.len() && (*r.0 matches
            Rule::Chunk(st2, la2) && st2.len() == 1 && la2 is None && (*st2[0] matches Rule::Stat(
            k2,
            a2,
            b2,
            c2,
            d2,
            e2,
        ) && k2 == StatKind::Sep))),
    decreases s@.len() - i, 14int,
{
    proof {
        reveal_with_fuel(rule_wf, 4);
        reveal_with_fuel(stat_slots_wf, 2);
    }
    let mut stats: Vec<Box<Rule>> = Vec::new();
    let mut j = i;
    loop
        invariant
            i <= j <= s@.len(),
            forall|k: int|
                0 <= k < stats@.len() ==> rule_wf(*(#[trigger] stats@[k])) && *stats@[k] is Stat,
            i == s@.len() ==> j == i && stats@.len() == 0,
            (i + 1 == s@.len() && s@[i as int] == ';') ==> ((j == i && stats@.len() == 0) || (j
                == s@.len() && stats@.len() == 1 && (*stats@[0] matches Rule::Stat(
                k2,
                a2,
                b2,
                c2,
                d2,
                e2,
            ) && k2 == StatKind::Sep))),
        ensures
            (i + 1 == s@.len() && s@[i as int] == ';') ==> (j == s@.len() && stats@.len() == 1 && (
            *stats@[0] matches Rule::Stat(k2, a2, b2, c2, d2, e2) && k2 == StatKind::Sep)),
        decreases s@.len() - j,
    {
        match stat(s, j) {
            Some((st, j2)) => {
                proof {
                    reveal_with_fuel(rule_wf, 4);
                }
                stats.push(st);
                j = skip_spaces(s, j2);
            },
            None => {
                break ;
            },
        }
    }
    proof {
        assert(forall|k: int|
            0 <= k < stats.len() ==> (#[trigger] rule_wf(*stats[k])) && *stats[k] is Stat);
    }
    match laststat(s, j) {
        Some((ls, j2)) => (Box::new(Rule::Chunk(stats, ls)), j2),
        None => (Box::new(Rule::Chunk(stats, None)), j),
    }
}

/// A block: a chunk in statement position.
pub fn block(s: &str, i: usize) -> (r: (Box<Rule>, usize))
    requires
        i <= s@.len(),
    ensures
        i <= r.1 <= s@.len(),
        rule_wf(*r.0),
        *r.0 is Block,
        i == s@.len() ==> (r.1 == i && (*r.0 matches Rule::Block(c) && (*c matches Rule::Chunk(
            st2,
            la2,
        ) && st2.len() == 0 && la2 is None))),
        (i + 1 == s@.len() && s@[i as int] == ';') ==> (r.1 == s@.len() && (*r.0 matches
            Rule::Block(c) && (*c matches Rule::Chunk(st2, la2) && st2.len() == 1
            && la2 is None))),
    decreases s@.len() - i, 15int,
{
    proof {
        reveal_with_fuel(rule_wf, 4);
        reveal_with_fuel(stat_slots_wf, 2);
    }
    let (c, j) = chunk(s, i);
    (Box::new(Rule::Block(c)), j)
}

/// Parse a whole script: a chunk that must consume the entire text.
/// Anything left over (including a leading space, which no token eats) is
/// a parse error; the parser never loops and attempts no recovery.
pub fn parse(text: &str) -> (r: Result<Box<Rule>, LuaError>)
    ensures
        r matches Ok(rule) ==> rule_wf(*rule) && *rule is Chunk,
        text@.len() == 0 ==> (r matches Ok(rule) && (*rule matches Rule::Chunk(st2, la2)
            && st2.len() == 0 && la2 is None)),
        (text@.len() == 1 && text@[0] == ';') ==> (r matches Ok(rule) && (*rule matches
            Rule::Chunk(st2, la2) && st2.len() == 1 && la2 is None && (*st2[0] matches Rule::Stat(
            k2,
            a2,
            b2,
            c2,
            d2,
            e2,
        ) && k2 == StatKind::Sep))),
{
    let (rule, j) = chunk(text, 0);
    if j == text.unicode_len() {
        Ok(rule)
    } else {
        Err(LuaError { message: "parse error: no statement matches the remaining text".to_owned() })
    }
}

} // verus!
