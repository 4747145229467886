use vstd::prelude::*;
use crate::ast::{Expr, Stmt};
use crate::environment::Env;
use crate::errors::Fault;
use crate::object::{Builtin, Val};
use crate::token::TokenKind;

verus! {

/// How many function calls may be nested inside one another.
pub const CALL_DEPTH_LIMIT: u64 = 400;

/// A value that cuts short the evaluation around it: an error, or a `return`
/// on its way out of a function body.
pub open spec fn is_signal(v: Val) -> bool {
    v is Ret || v is Error
}

/// Everything but `null` and `false` counts as true.
pub open spec fn truthy(v: Val) -> bool {
    match v {
        Val::Null => false,
        Val::Bool(b) => b,
        _ => true,
    }
}

/// The innermost value of a chain of `return` wrappers.
pub open spec fn unwrap_return(v: Val) -> Val
    decreases v,
{
    match v {
        Val::Ret(inner) => unwrap_return(*inner),
        _ => v,
    }
}

/// The latest binding of `name` among `store`'s own entries.
pub open spec fn lookup_store(store: Seq<(Seq<char>, Val)>, name: Seq<char>) -> Option<Val>
    decreases store.len(),
{
    if store.len() == 0 {
        None
    } else if store.last().0 == name {
        Some(store.last().1)
    } else {
        lookup_store(store.drop_last(), name)
    }
}

/// The binding of `name` in `env` or, failing that, in the scopes around it.
pub open spec fn env_get(env: Env, name: Seq<char>) -> Option<Val>
    decreases env,
{
    match lookup_store(env.store, name) {
        Some(v) => Some(v),
        None => match env.outer {
            Some(o) => env_get(*o, name),
            None => None,
        },
    }
}

/// `env` with `name` bound to `v` in its own scope.
pub open spec fn env_set(env: Env, name: Seq<char>, v: Val) -> Env {
    Env { store: env.store.push((name, v)), outer: env.outer }
}

/// A fresh scope inside `outer`.
pub open spec fn env_enclosed(outer: Env) -> Env {
    Env { store: seq![], outer: Some(Box::new(outer)) }
}

/// An empty top-level scope.
pub open spec fn env_empty() -> Env {
    Env { store: seq![], outer: None }
}

/// The built-in function of a given name.
pub open spec fn builtin_named(name: Seq<char>) -> Option<Builtin> {
    if name == seq!['l', 'e', 'n'] {
        Some(Builtin::Len)
    } else if name == seq!['f', 'i', 'r', 's', 't'] {
        Some(Builtin::First)
    } else if name == seq!['l', 'a', 's', 't'] {
        Some(Builtin::Last)
    } else if name == seq!['r', 'e', 's', 't'] {
        Some(Builtin::Rest)
    } else if name == seq!['p', 'u', 's', 'h'] {
        Some(Builtin::Push)
    } else {
        None
    }
}

/// What an identifier evaluates to: its binding, else the built-in of that
/// name, else `null`.
pub open spec fn lookup_ident(env: Env, name: Seq<char>) -> Val {
    match env_get(env, name) {
        Some(v) => v,
        None => match builtin_named(name) {
            Some(b) => Val::Builtin(b),
            None => Val::Null,
        },
    }
}

/// Each parameter bound to the argument at its position, or to `null` where
/// arguments run out; extra arguments are ignored.
pub open spec fn bind_params(env: Env, params: Seq<Seq<char>>, args: Seq<Val>) -> Env
    decreases params.len(),
{
    if params.len() == 0 {
        env
    } else {
        let i = params.len() - 1;
        let v = if i < args.len() {
            args[i]
        } else {
            Val::Null
        };
        env_set(bind_params(env, params.drop_last(), args), params.last(), v)
    }
}

/// Integers, strings and booleans can be hash keys.
pub open spec fn usable_key(v: Val) -> bool {
    v is Int || v is Str || v is Bool
}

/// The position of the entry with key `k`.
pub open spec fn hash_find(ps: Seq<(Val, Val)>, k: Val) -> Option<int>
    decreases ps.len(),
{
    if ps.len() == 0 {
        None
    } else if ps.last().0 == k {
        Some(ps.len() - 1)
    } else {
        hash_find(ps.drop_last(), k)
    }
}

/// A position that `hash_find` reports holds an entry with that key.
pub proof fn lemma_hash_find(ps: Seq<(Val, Val)>, k: Val)
    ensures
        match hash_find(ps, k) {
            Some(i) => 0 <= i < ps.len() && ps[i].0 == k,
            None => forall|i: int| 0 <= i < ps.len() ==> #[trigger] ps[i].0 != k,
        },
    decreases ps.len(),
{
    if ps.len() > 0 {
        lemma_hash_find(ps.drop_last(), k);
        if hash_find(ps, k) is None {
            assert forall|i: int| 0 <= i < ps.len() implies #[trigger] ps[i].0 != k by {
                if i < ps.len() - 1 {
                    assert(ps.drop_last()[i] == ps[i]);
                }
            }
        }
    }
}

/// The value stored under key `k`.
pub open spec fn hash_get(ps: Seq<(Val, Val)>, k: Val) -> Option<Val> {
    match hash_find(ps, k) {
        Some(i) => Some(ps[i].1),
        None => None,
    }
}

/// `ps` with `v` stored under `k`: an entry with that key keeps its place and
/// takes the new value, otherwise the entry goes at the end.
pub open spec fn hash_insert(ps: Seq<(Val, Val)>, k: Val, v: Val) -> Seq<(Val, Val)> {
    match hash_find(ps, k) {
        Some(i) => ps.update(i, (k, v)),
        None => ps.push((k, v)),
    }
}

/// Rust's `/` on integers: the quotient rounded toward zero, where `MIN / -1`
/// wraps around to `MIN`.
pub open spec fn int_div(a: i64, b: i64) -> i64
    recommends
        b != 0,
{
    let q = (if a < 0 { -a } else { a as int }) / (if b < 0 { -b } else { b as int });
    let signed = if (a < 0) != (b < 0) { -q } else { q };
    if signed > i64::MAX {
        i64::MIN
    } else {
        signed as i64
    }
}

/// `-v`: wrapping negation of an integer.
pub open spec fn eval_minus(right: Val) -> Val {
    match right {
        Val::Int(i) => Val::Int((0i64).wrapping_sub(i)),
        _ => Val::Error(Fault::InvalidInteger(Box::new(right))),
    }
}

/// A prefix operator applied to an evaluated operand.
pub open spec fn eval_prefix(op: TokenKind, right: Val) -> Val {
    if op == TokenKind::BANG {
        Val::Bool(!truthy(right))
    } else if op == TokenKind::MINUS {
        eval_minus(right)
    } else {
        Val::Error(Fault::InvalidOperator(op))
    }
}

/// An infix operator applied to two evaluated operands. Integer arithmetic
/// wraps around; division by zero is an error.
pub open spec fn eval_infix(op: TokenKind, left: Val, right: Val) -> Val {
    match (left, right) {
        (Val::Int(a), Val::Int(b)) => {
            if op == TokenKind::PLUS {
                Val::Int(a.wrapping_add(b))
            } else if op == TokenKind::MINUS {
                Val::Int(a.wrapping_sub(b))
            } else if op == TokenKind::ASTERISK {
                Val::Int(a.wrapping_mul(b))
            } else if op == TokenKind::SLASH {
                if b == 0 {
                    Val::Error(Fault::DivisionByZero)
                } else {
                    Val::Int(int_div(a, b))
                }
            } else if op == TokenKind::LT {
                Val::Bool(a < b)
            } else if op == TokenKind::GT {
                Val::Bool(a > b)
            } else if op == TokenKind::EQ {
                Val::Bool(a == b)
            } else if op == TokenKind::NotEq {
                Val::Bool(a != b)
            } else {
                Val::Error(Fault::InvalidOperator(op))
            }
        },
        (Val::Bool(a), Val::Bool(b)) => {
            if op == TokenKind::EQ {
                Val::Bool(a == b)
            } else if op == TokenKind::NotEq {
                Val::Bool(a != b)
            } else {
                Val::Error(Fault::InvalidOperator(op))
            }
        },
        (Val::Str(a), Val::Str(b)) => {
            if op == TokenKind::PLUS {
                Val::Str(a + b)
            } else {
                Val::Error(Fault::InvalidOperator(op))
            }
        },
        _ => Val::Error(Fault::InvalidInfix),
    }
}

/// `collection[key]`: an array element or a hash entry, `null` when there is none.
pub open spec fn eval_index(collection: Val, key: Val) -> Val {
    match collection {
        Val::Array(vs) => match key {
            Val::Int(i) => if 0 <= i < vs.len() {
                vs[i as int]
            } else {
                Val::Null
            },
            _ => Val::Null,
        },
        Val::Hash(ps) => if usable_key(key) {
            match hash_get(ps, key) {
                Some(v) => v,
                None => Val::Null,
            }
        } else {
            Val::Null
        },
        _ => Val::Null,
    }
}

/// The number of bytes in the UTF-8 encoding of a string.
pub open spec fn byte_len(s: Seq<char>) -> usize {
    vstd::utf8::encode_utf8(s).len() as usize
}

/// A built-in function applied to evaluated arguments. `len` takes exactly
/// one argument; the others need an array first (and `push` a value after
/// it) and ignore any further arguments. `rest` gives every element but the
/// last.
pub open spec fn call_builtin(b: Builtin, args: Seq<Val>) -> Val {
    match b {
        Builtin::Len => if args.len() != 1 {
            Val::Error(Fault::InvalidNumberOfArguments(args.len(), 1))
        } else {
            match args[0] {
                Val::Str(s) => Val::Int(byte_len(s) as i64),
                Val::Array(vs) => Val::Int(vs.len() as i64),
                v => Val::Error(Fault::LenInvalidType(Box::new(v))),
            }
        },
        Builtin::First => if args.len() == 0 {
            Val::Error(Fault::InvalidNumberOfArguments(0, 1))
        } else {
            match args[0] {
                Val::Array(vs) => if vs.len() == 0 {
                    Val::Null
                } else {
                    vs[0]
                },
                v => Val::Error(Fault::FirstType(Box::new(v))),
            }
        },
        Builtin::Last => if args.len() == 0 {
            Val::Error(Fault::InvalidNumberOfArguments(0, 1))
        } else {
            match args[0] {
                Val::Array(vs) => if vs.len() == 0 {
                    Val::Null
                } else {
                    vs.last()
                },
                v => Val::Error(Fault::LastType(Box::new(v))),
            }
        },
        Builtin::Rest => if args.len() == 0 {
            Val::Error(Fault::InvalidNumberOfArguments(0, 1))
        } else {
            match args[0] {
                Val::Array(vs) => if vs.len() == 0 {
                    Val::Null
                } else {
                    Val::Array(vs.drop_last())
                },
                v => Val::Error(Fault::RestType(Box::new(v))),
            }
        },
        Builtin::Push => if args.len() == 0 {
            Val::Error(Fault::InvalidNumberOfArguments(0, 2))
        } else {
            match args[0] {
                Val::Array(vs) => if args.len() < 2 {
                    Val::Error(Fault::InvalidNumberOfArguments(args.len(), 2))
                } else {
                    Val::Array(vs.push(args[1]))
                },
                v => Val::Error(Fault::PushType(Box::new(v))),
            }
        },
    }
}

pub open spec fn expr_size(e: Expr) -> nat
    decreases e,
{
    match e {
        Expr::Array(v) => 1 + exprs_size(v),
        Expr::Hash(ps) => 1 + pairs_size(ps),
        Expr::Index(l, r) => 1 + expr_size(*l) + expr_size(*r),
        Expr::Prefix(_, r) => 1 + expr_size(*r),
        Expr::Infix(l, _, r) => 1 + expr_size(*l) + expr_size(*r),
        Expr::If(c, t, a) => 1 + expr_size(*c) + stmt_size(*t) + match a {
            Some(a) => stmt_size(*a),
            None => 0,
        },
        Expr::Call(f, args) => 1 + expr_size(*f) + exprs_size(args),
        _ => 1,
    }
}

pub open spec fn exprs_size(s: Seq<Expr>) -> nat
    decreases s,
{
    if s.len() == 0 {
        0
    } else {
        1 + expr_size(s[0]) + exprs_size(s.drop_first())
    }
}

pub open spec fn pairs_size(s: Seq<(Expr, Expr)>) -> nat
    decreases s,
{
    if s.len() == 0 {
        0
    } else {
        1 + expr_size(s[0].0) + expr_size(s[0].1) + pairs_size(s.drop_first())
    }
}

pub open spec fn stmt_size(s: Stmt) -> nat
    decreases s,
{
    match s {
        Stmt::Let(_, e) => 1 + expr_size(e),
        Stmt::Return(e) => 1 + expr_size(e),
        Stmt::Expression(e) => 1 + expr_size(e),
        Stmt::Block(ss) => 1 + stmts_size(ss),
    }
}

pub open spec fn stmts_size(s: Seq<Stmt>) -> nat
    decreases s,
{
    if s.len() == 0 {
        0
    } else {
        1 + stmt_size(s[0]) + stmts_size(s.drop_first())
    }
}

/// The value of an expression and the environment after it; `fuel` is how
/// many more function calls may be nested.
pub open spec fn eval_expr(env: Env, e: Expr, fuel: nat) -> (Val, Env)
    decreases fuel, expr_size(e),
{
    match e {
        Expr::Ident(n) => (lookup_ident(env, n), env),
        Expr::Str(s) => (Val::Str(s), env),
        Expr::Int(i) => (Val::Int(i), env),
        Expr::Bool(b) => (Val::Bool(b), env),
        Expr::Array(es) => match eval_exprs(env, es, fuel) {
            (Ok(vs), env1) => (Val::Array(vs), env1),
            (Err(sig), env1) => (sig, env1),
        },
        Expr::Hash(ps) => match eval_pairs(env, ps, seq![], fuel) {
            (Ok(entries), env1) => (Val::Hash(entries), env1),
            (Err(sig), env1) => (sig, env1),
        },
        Expr::Index(l, r) => {
            let (c, env1) = eval_expr(env, *l, fuel);
            if is_signal(c) {
                (c, env1)
            } else {
                let (k, env2) = eval_expr(env1, *r, fuel);
                if is_signal(k) {
                    (k, env2)
                } else {
                    (eval_index(c, k), env2)
                }
            }
        },
        Expr::Prefix(op, r) => {
            let (v, env1) = eval_expr(env, *r, fuel);
            if is_signal(v) {
                (v, env1)
            } else {
                (eval_prefix(op, v), env1)
            }
        },
        Expr::Infix(l, op, r) => {
            let (a, env1) = eval_expr(env, *l, fuel);
            if is_signal(a) {
                (a, env1)
            } else {
                let (b, env2) = eval_expr(env1, *r, fuel);
                if is_signal(b) {
                    (b, env2)
                } else {
                    (eval_infix(op, a, b), env2)
                }
            }
        },
        Expr::If(c, t, a) => {
            let (cv, env1) = eval_expr(env, *c, fuel);
            if is_signal(cv) {
                (cv, env1)
            } else if truthy(cv) {
                eval_stmt(env1, *t, fuel)
            } else {
                match a {
                    Some(a) => eval_stmt(env1, *a, fuel),
                    None => (Val::Null, env1),
                }
            }
        },
        Expr::Func(params, body) => (Val::Func(params, *body, env), env),
        Expr::Call(f, args) => {
            let (fv, env1) = eval_expr(env, *f, fuel);
            if is_signal(fv) {
                (fv, env1)
            } else {
                match eval_exprs(env1, args, fuel) {
                    (Err(sig), env2) => (sig, env2),
                    (Ok(vs), env2) => (apply_value(fv, vs, fuel), env2),
                }
            }
        },
    }
}

/// A function value called with evaluated arguments: a built-in runs
/// directly; a user function runs its body in a fresh scope inside the scope
/// it captured, with its parameters bound, and a `return` from the body is
/// unwrapped; anything else called gives `null`.
pub open spec fn apply_value(f: Val, args: Seq<Val>, fuel: nat) -> Val
    decreases fuel, 0nat,
{
    match f {
        Val::Builtin(b) => call_builtin(b, args),
        Val::Func(params, body, captured) => if fuel == 0 {
            Val::Error(Fault::CallDepthExceeded)
        } else {
            let inner = bind_params(env_enclosed(captured), params, args);
            unwrap_return(eval_stmt(inner, body, (fuel - 1) as nat).0)
        },
        _ => Val::Null,
    }
}

/// The values of expressions evaluated left to right, or the first signal.
pub open spec fn eval_exprs(env: Env, es: Seq<Expr>, fuel: nat) -> (Result<Seq<Val>, Val>, Env)
    decreases fuel, exprs_size(es),
{
    if es.len() == 0 {
        (Ok(seq![]), env)
    } else {
        let (v, env1) = eval_expr(env, es[0], fuel);
        if is_signal(v) {
            (Err(v), env1)
        } else {
            match eval_exprs(env1, es.drop_first(), fuel) {
                (Ok(vs), env2) => (Ok(seq![v] + vs), env2),
                (Err(sig), env2) => (Err(sig), env2),
            }
        }
    }
}

/// The entries of a hash literal evaluated left to right, key before value,
/// and stored in turn into `acc`; a key that cannot be a hash key is an error.
pub open spec fn eval_pairs(env: Env, ps: Seq<(Expr, Expr)>, acc: Seq<(Val, Val)>, fuel: nat) -> (
    Result<Seq<(Val, Val)>, Val>,
    Env,
)
    decreases fuel, pairs_size(ps),
{
    if ps.len() == 0 {
        (Ok(acc), env)
    } else {
        let (k, env1) = eval_expr(env, ps[0].0, fuel);
        if is_signal(k) {
            (Err(k), env1)
        } else {
            let (v, env2) = eval_expr(env1, ps[0].1, fuel);
            if is_signal(v) {
                (Err(v), env2)
            } else if !usable_key(k) {
                (Err(Val::Error(Fault::UnusableHashKey(Box::new(k)))), env2)
            } else {
                eval_pairs(env2, ps.drop_first(), hash_insert(acc, k, v), fuel)
            }
        }
    }
}

/// The value of a statement and the environment after it.
pub open spec fn eval_stmt(env: Env, s: Stmt, fuel: nat) -> (Val, Env)
    decreases fuel, stmt_size(s),
{
    match s {
        Stmt::Let(name, e) => {
            let (v, env1) = eval_expr(env, e, fuel);
            if is_signal(v) {
                (v, env1)
            } else {
                (v, env_set(env1, name, v))
            }
        },
        Stmt::Return(e) => {
            let (v, env1) = eval_expr(env, e, fuel);
            if is_signal(v) {
                (v, env1)
            } else {
                (Val::Ret(Box::new(v)), env1)
            }
        },
        Stmt::Expression(e) => eval_expr(env, e, fuel),
        Stmt::Block(ss) => eval_stmts(env, ss, fuel),
    }
}

/// Statements evaluated in order: the value of the last one, or the first
/// signal, still wrapped; `null` for none.
pub open spec fn eval_stmts(env: Env, ss: Seq<Stmt>, fuel: nat) -> (Val, Env)
    decreases fuel, stmts_size(ss),
{
    if ss.len() == 0 {
        (Val::Null, env)
    } else {
        let (v, env1) = eval_stmt(env, ss[0], fuel);
        if is_signal(v) || ss.len() == 1 {
            (v, env1)
        } else {
            eval_stmts(env1, ss.drop_first(), fuel)
        }
    }
}

/// A program's value: that of its last statement, the value of the first
/// `return` at top level, or the first error.
pub open spec fn eval_program(env: Env, ss: Seq<Stmt>) -> (Val, Env) {
    let (v, env1) = eval_stmts(env, ss, CALL_DEPTH_LIMIT as nat);
    (unwrap_return(v), env1)
}

} // verus!
