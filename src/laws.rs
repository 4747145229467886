use vstd::prelude::*;
use crate::ast::{Stmt};
use crate::environment::Env;
use crate::object::{key_of, Val};
use crate::semantics::{
    apply_value, env_empty, eval_index, eval_program, hash_insert, hash_find, unwrap_return,
};

verus! {

/// Unwrapping `return` wrappers leaves no wrapper behind.
pub proof fn lemma_unwrap_return_is_plain(v: Val)
    ensures
        !(unwrap_return(v) is Ret),
    decreases v,
{
    if let Val::Ret(inner) = v {
        lemma_unwrap_return_is_plain(*inner);
    }
}

/// Evaluation is a function of the program alone: two evaluations of the same
/// program, each in a fresh environment, give equal values.
pub proof fn law_fresh_evaluations_agree(p: Seq<Stmt>, first: Val, second: Val)
    requires
        first == eval_program(env_empty(), p).0,
        second == eval_program(env_empty(), p).0,
    ensures
        first == second,
{
}

/// Calling a user function never hands a `return` wrapper to the caller,
/// whatever the function, its captured scope and its arguments.
pub proof fn law_call_result_is_unwrapped(
    params: Seq<Seq<char>>,
    body: Stmt,
    captured: Env,
    args: Seq<Val>,
    fuel: nat,
)
    ensures
        !(apply_value(Val::Func(params, body, captured), args, fuel) is Ret),
{
    if fuel > 0 {
        let inner = crate::semantics::bind_params(
            crate::semantics::env_enclosed(captured),
            params,
            args,
        );
        lemma_unwrap_return_is_plain(
            crate::semantics::eval_stmt(inner, body, (fuel - 1) as nat).0,
        );
    }
}

/// A program's value is never a `return` wrapper.
pub proof fn law_program_result_is_unwrapped(env: Env, p: Seq<Stmt>)
    ensures
        !(eval_program(env, p).0 is Ret),
{
    lemma_unwrap_return_is_plain(crate::semantics::eval_stmts(env, p, crate::semantics::CALL_DEPTH_LIMIT as nat).0);
}

/// A one-entry hash `{a: x}` indexed by any `b` with the same hash-key
/// projection as `a` gives `x`.
pub proof fn law_hash_lookup_by_equal_key(a: Val, b: Val, x: Val)
    requires
        key_of(a) is Some,
        key_of(a) == key_of(b),
    ensures
        eval_index(Val::Hash(hash_insert(seq![], a, x)), b) == x,
{
    assert(hash_find(seq![], a) is None);
    let h = hash_insert(seq![], a, x);
    assert(h == seq![(a, x)]);
    assert(h.drop_last() =~= Seq::<(Val, Val)>::empty());
    assert(hash_find(h, b) == Some(0int));
}

} // verus!
