use vstd::prelude::*;
use std::rc::Rc;
use crate::ast::{
    expr_view, exprs_view, lemma_exprs_view, lemma_pairs_view, lemma_stmts_view, names_view,
    pairs_view, stmts_view, Expr, Expression, Program, Statement, Stmt,
};
use crate::builtins;
use crate::environment::{Env, Environment};
use crate::errors::Errors;
use crate::object::{
    error_object, hash_view, lemma_hash_view, lemma_objs_push, lemma_objs_view, obj_view,
    objs_view, HashKey, HashPair, Object, Val,
};
use crate::semantics::{
    apply_value, bind_params, env_enclosed, eval_expr, eval_exprs, eval_index, eval_infix,
    eval_minus, eval_pairs, eval_prefix, eval_program, eval_stmt, eval_stmts, expr_size,
    exprs_size, hash_find, hash_insert, lemma_hash_find, int_div, is_signal, pairs_size, stmt_size, stmts_size,
    truthy, unwrap_return, usable_key, CALL_DEPTH_LIMIT,
};
use crate::basics::{push_str, share};
use crate::token::TokenKind;

verus! {

proof fn lemma_exprs_size(s: Seq<Expr>, i: int)
    requires
        0 <= i < s.len(),
    ensures
        expr_size(s[i]) < exprs_size(s),
    decreases i,
{
    if i > 0 {
        lemma_exprs_size(s.drop_first(), i - 1);
    }
}

proof fn lemma_pairs_size(s: Seq<(Expr, Expr)>, i: int)
    requires
        0 <= i < s.len(),
    ensures
        expr_size(s[i].0) < pairs_size(s),
        expr_size(s[i].1) < pairs_size(s),
    decreases i,
{
    if i > 0 {
        lemma_pairs_size(s.drop_first(), i - 1);
    }
}

proof fn lemma_stmts_size(s: Seq<Stmt>, i: int)
    requires
        0 <= i < s.len(),
    ensures
        stmt_size(s[i]) < stmts_size(s),
    decreases i,
{
    if i > 0 {
        lemma_stmts_size(s.drop_first(), i - 1);
    }
}

/// `acc` put in front of the values of an evaluation that went on after it.
pub open spec fn prepend_vals(acc: Seq<Val>, r: (Result<Seq<Val>, Val>, Env)) -> (Result<Seq<Val>, Val>, Env) {
    match r {
        (Ok(vs), e) => (Ok(acc + vs), e),
        (Err(sig), e) => (Err(sig), e),
    }
}

/// Whether a value is truthy: everything but `null` and `false`.
pub fn is_truthy(object: &Object) -> (r: bool)
    ensures
        r == truthy(object@),
{
    match object {
        Object::Null => false,
        Object::Boolean(b) => *b,
        _ => true,
    }
}

/// Whether a value cuts short the evaluation around it.
pub fn is_signal_object(object: &Object) -> (r: bool)
    ensures
        r == is_signal(object@),
{
    match object {
        Object::Return(_) => true,
        Object::Error(_) => true,
        _ => false,
    }
}

/// The value inside any `return` wrappers.
pub fn unwrap_return_value(object: Object) -> (r: Object)
    ensures
        r@ == unwrap_return(object@),
    decreases object,
{
    match object {
        Object::Return(inner) => unwrap_return_value(*inner),
        other => other,
    }
}

/// `!v`: the negation of `v`'s truthiness.
pub fn evaluate_bang_operation_expression(right: &Object) -> (r: Object)
    ensures
        r@ == Val::Bool(!truthy(right@)),
{
    Object::Boolean(!is_truthy(right))
}

/// `-v`: wrapping negation of an integer; anything else is an error.
pub fn evaluate_minus_prefix_operator_expression(right: Object) -> (r: Object)
    ensures
        r@ == eval_minus(right@),
{
    match right {
        Object::Integer(i) => Object::Integer((0i64).wrapping_sub(i)),
        other => error_object(Errors::InvalidInteger(Box::new(other))),
    }
}

/// A prefix operator applied to its evaluated operand.
pub fn evaluate_prefix_expression(operator: TokenKind, right: Object) -> (r: Object)
    ensures
        r@ == eval_prefix(operator, right@),
{
    if operator == TokenKind::BANG {
        evaluate_bang_operation_expression(&right)
    } else if operator == TokenKind::MINUS {
        evaluate_minus_prefix_operator_expression(right)
    } else {
        error_object(Errors::InvalidOperator(operator))
    }
}

/// Integer division rounded toward zero, wrapping `MIN / -1` to `MIN`.
pub fn divide(a: i64, b: i64) -> (r: i64)
    requires
        b != 0,
    ensures
        r == int_div(a, b),
{
    let ua: u64 = if a < 0 {
        (-(a as i128)) as u64
    } else {
        a as u64
    };
    let ub: u64 = if b < 0 {
        (-(b as i128)) as u64
    } else {
        b as u64
    };
    let q = ua / ub;
    assert(q <= ua) by (nonlinear_arith)
        requires
            q == ua / ub,
            ub >= 1,
    ;
    if (a < 0) != (b < 0) {
        (-(q as i128)) as i64
    } else if q > i64::MAX as u64 {
        i64::MIN
    } else {
        q as i64
    }
}

fn evaluate_integer_infix(operator: TokenKind, a: i64, b: i64) -> (r: Object)
    ensures
        r@ == eval_infix(operator, Val::Int(a), Val::Int(b)),
{
    match operator {
        TokenKind::PLUS => Object::Integer(a.wrapping_add(b)),
        TokenKind::MINUS => Object::Integer(a.wrapping_sub(b)),
        TokenKind::ASTERISK => Object::Integer(a.wrapping_mul(b)),
        TokenKind::SLASH => if b == 0 {
            error_object(Errors::DivisionByZero)
        } else {
            Object::Integer(divide(a, b))
        },
        TokenKind::LT => Object::Boolean(a < b),
        TokenKind::GT => Object::Boolean(a > b),
        TokenKind::EQ => Object::Boolean(a == b),
        TokenKind::NotEq => Object::Boolean(a != b),
        _ => error_object(Errors::InvalidOperator(operator)),
    }
}

/// An infix operator applied to its evaluated operands.
pub fn evaluate_infix_expression(left: Object, operator: TokenKind, right: Object) -> (r: Object)
    ensures
        r@ == eval_infix(operator, left@, right@),
{
    match (left, right) {
        (Object::Integer(a), Object::Integer(b)) => evaluate_integer_infix(operator, a, b),
        (Object::Boolean(a), Object::Boolean(b)) => {
            if operator == TokenKind::EQ {
                Object::Boolean(a == b)
            } else if operator == TokenKind::NotEq {
                Object::Boolean(a != b)
            } else {
                error_object(Errors::InvalidOperator(operator))
            }
        },
        (Object::String(a), Object::String(b)) => {
            if operator == TokenKind::PLUS {
                let mut s = a;
                push_str(&mut s, b.as_str());
                Object::String(s)
            } else {
                error_object(Errors::InvalidOperator(operator))
            }
        },
        (l, r) => {
            proof {
                assert(!(l@ is Int && r@ is Int) && !(l@ is Bool && r@ is Bool) && !(l@ is Str
                    && r@ is Str));
            }
            error_object(Errors::InvalidInfix)
        },
    }
}

/// The element of an array at `index`, `null` outside it.
pub fn evaluate_array_index_expression(array: &Vec<Object>, index: i64) -> (r: Object)
    ensures
        r@ == if 0 <= index < array.len() {
            objs_view(array@)[index as int]
        } else {
            Val::Null
        },
{
    proof {
        lemma_objs_view(array@);
    }
    if index < 0 || index as u64 >= array.len() as u64 {
        Object::Null
    } else {
        array[index as usize].copy()
    }
}

/// The position of the entry whose key is `key`.
fn hash_position(pairs: &Vec<HashPair>, key: &HashKey) -> (r: Option<usize>)
    requires
        key.key_view() is Some,
    ensures
        match hash_find(hash_view(pairs@), key.key_view()->Some_0) {
            Some(i) => r is Some && r->Some_0 as int == i,
            None => r is None,
        },
{
    let ghost hv = hash_view(pairs@);
    let ghost k = key.key_view()->Some_0;
    proof {
        lemma_hash_view(pairs@);
        assert(hv.take(pairs.len() as int) =~= hv);
    }
    let mut i = pairs.len();
    while i > 0
        invariant
            i <= pairs.len(),
            hv == hash_view(pairs@),
            key.key_view() is Some,
            k == key.key_view()->Some_0,
            hv.len() == pairs.len(),
            forall|j: int|
                0 <= j < pairs.len() ==> #[trigger] hv[j] == (
                    obj_view(pairs@[j].key),
                    obj_view(pairs@[j].value),
                ),
            hash_find(hv, k) == hash_find(hv.take(i as int), k),
        decreases i,
    {
        proof {
            assert(hv.take(i as int).drop_last() =~= hv.take(i as int - 1));
            assert(hv.take(i as int).last() == hv[i - 1]);
        }
        if key.matches(&pairs[i - 1].key) {
            return Some(i - 1);
        }
        i = i - 1;
    }
    None
}

/// `collection[key]`: an array element or a hash entry, `null` when there is none.
pub fn evaluate_index_expression(left: &Object, index: &Object) -> (r: Object)
    ensures
        r@ == eval_index(left@, index@),
{
    match left {
        Object::Array(v) => match index {
            Object::Integer(i) => {
                proof {
                    lemma_objs_view((**v)@);
                }
                evaluate_array_index_expression(v, *i)
            },
            _ => Object::Null,
        },
        Object::Hash(ps) => {
            let k = HashKey::get_hashkey(index);
            match k {
                HashKey::Null => Object::Null,
                _ => {
                    proof {
                        lemma_hash_view((**ps)@);
                        lemma_hash_find(hash_view((**ps)@), index@);
                    }
                    match hash_position(ps, &k) {
                        Some(j) => ps[j].value.copy(),
                        None => Object::Null,
                    }
                },
            }
        },
        _ => Object::Null,
    }
}

/// Stores `value` under `key`: an entry with that key keeps its place.
fn hash_store(pairs: &mut Vec<HashPair>, key: Object, value: Object)
    requires
        usable_key(key@),
    ensures
        hash_view(final(pairs)@) == hash_insert(hash_view(old(pairs)@), key@, value@),
{
    let hk = HashKey::get_hashkey(&key);
    let ghost kv = key@;
    let ghost vv = value@;
    match hash_position(pairs, &hk) {
        Some(j) => {
            proof {
                lemma_hash_view(pairs@);
                lemma_hash_find(hash_view(pairs@), kv);
            }
            pairs.set(j, HashPair { key, value });
            proof {
                lemma_hash_view(pairs@);
                assert(hash_view(pairs@) =~= hash_view(old(pairs)@).update(j as int, (kv, vv)));
                assert(hk.key_view() == Some(kv));
            }
        },
        None => {
            let pair = HashPair { key, value };
            proof {
                assert(old(pairs)@.push(pair).drop_last() =~= old(pairs)@);
            }
            pairs.push(pair);
            proof {
                assert(hash_view(pairs@) == hash_view(old(pairs)@).push((kv, vv)));
            }
        },
    }
}

/// A function value called with evaluated arguments.
pub fn apply_function(func: Object, args: Vec<Object>, fuel: u64) -> (r: Object)
    ensures
        r@ == apply_value(func@, objs_view(args@), fuel as nat),
    decreases fuel, 0nat,
{
    match func {
        Object::Builtin { func } => builtins::call(func, args),
        Object::Function { params, body, env } => {
            if fuel == 0 {
                return error_object(Errors::CallDepthExceeded);
            }
            let ghost captured = (*env)@;
            let ghost names = names_view((*params)@);
            let mut inner = Environment::enclosed_by(&env);
            proof {
                lemma_objs_view(args@);
                assert(names.take(0) =~= Seq::<Seq<char>>::empty());
            }
            let mut i: usize = 0;
            while i < params.len()
                invariant
                    i <= params.len(),
                    names == names_view((*params)@),
                    objs_view(args@).len() == args.len(),
                    forall|j: int| 0 <= j < args.len() ==> #[trigger] objs_view(args@)[j] == args@[j]@,
                    inner@ == bind_params(env_enclosed(captured), names.take(i as int), objs_view(args@)),
                decreases params.len() - i,
            {
                let v = if i < args.len() {
                    args[i].copy()
                } else {
                    Object::Null
                };
                proof {
                    assert(names.take(i as int + 1).drop_last() =~= names.take(i as int));
                }
                inner.set(params[i].clone(), v);
                i = i + 1;
            }
            proof {
                assert(names.take(params.len() as int) =~= names);
            }
            let result = inner.evaluate_statement(&body, fuel - 1);
            unwrap_return_value(result)
        },
        _ => Object::Null,
    }
}

impl Environment {
    /// Evaluates a program in this environment, which keeps the bindings it
    /// makes: the value of the last statement, of the first `return` at top
    /// level, or the first error.
    pub fn evaluate(&mut self, program: &Program) -> (r: Result<Object, Errors>)
        ensures
            r is Ok,
            r->Ok_0@ == eval_program(old(self)@, program@).0,
            final(self)@ == eval_program(old(self)@, program@).1,
    {
        let v = self.evaluate_block_statements(&program.statements, CALL_DEPTH_LIMIT);
        Ok(unwrap_return_value(v))
    }

    /// The value of one statement.
    fn evaluate_statement(&mut self, statement: &Statement, fuel: u64) -> (r: Object)
        ensures
            (r@, final(self)@) == eval_stmt(old(self)@, statement@, fuel as nat),
        decreases fuel, stmt_size(statement@),
    {
        match statement {
            Statement::LetStatement { identifier, value } => {
                let v = self.evaluate_expression(value, fuel);
                if is_signal_object(&v) {
                    return v;
                }
                self.set(identifier.clone(), v)
            },
            Statement::Return(e) => {
                let v = self.evaluate_expression(e, fuel);
                if is_signal_object(&v) {
                    return v;
                }
                Object::Return(Box::new(v))
            },
            Statement::ExpressionStatement(e) => self.evaluate_expression(e, fuel),
            Statement::Block(ss) => self.evaluate_block_statements(ss, fuel),
        }
    }

    /// Statements in order, stopping at the first signal.
    fn evaluate_block_statements(&mut self, statements: &Vec<Statement>, fuel: u64) -> (r: Object)
        ensures
            (r@, final(self)@) == eval_stmts(old(self)@, stmts_view(statements@), fuel as nat),
        decreases fuel, stmts_size(stmts_view(statements@)),
    {
        let ghost all = stmts_view(statements@);
        proof {
            lemma_stmts_view(statements@);
        }
        if statements.len() == 0 {
            return Object::Null;
        }
        let mut i: usize = 0;
        proof {
            assert(all.subrange(0, all.len() as int) =~= all);
        }
        loop
            invariant
                i < statements.len(),
                all == stmts_view(statements@),
                all.len() == statements.len(),
                forall|j: int| 0 <= j < statements.len() ==> #[trigger] all[j] == statements@[j]@,
                eval_stmts(old(self)@, all, fuel as nat) == eval_stmts(
                    self@,
                    all.subrange(i as int, all.len() as int),
                    fuel as nat,
                ),
            decreases statements.len() - i,
        {
            proof {
                lemma_stmts_size(all, i as int);
                let sub = all.subrange(i as int, all.len() as int);
                assert(sub[0] == all[i as int]);
                assert(sub.drop_first() =~= all.subrange(i + 1, all.len() as int));
            }
            let v = self.evaluate_statement(&statements[i], fuel);
            if is_signal_object(&v) || i + 1 == statements.len() {
                return v;
            }
            i = i + 1;
        }
    }

    /// The value of an expression.
    fn evaluate_expression(&mut self, expression: &Expression, fuel: u64) -> (r: Object)
        ensures
            (r@, final(self)@) == eval_expr(old(self)@, expression@, fuel as nat),
        decreases fuel, expr_size(expression@),
    {
        match expression {
            Expression::Identifier(name) => match self.get(name.as_str()) {
                Some(v) => v,
                None => Object::Null,
            },
            Expression::String(s) => Object::String(s.clone()),
            Expression::Integer(i) => Object::Integer(*i),
            Expression::Bool(b) => Object::Boolean(*b),
            Expression::Array(es) => match self.evaluate_arguments(es, fuel) {
                Ok(vs) => Object::Array(Rc::new(vs)),
                Err(sig) => sig,
            },
            Expression::Hash(ps) => match self.evaluate_pairs(ps, fuel) {
                Ok(h) => Object::Hash(Rc::new(h)),
                Err(sig) => sig,
            },
            Expression::IndexExpression { left, right } => {
                let c = self.evaluate_expression(left, fuel);
                if is_signal_object(&c) {
                    return c;
                }
                let k = self.evaluate_expression(right, fuel);
                if is_signal_object(&k) {
                    return k;
                }
                evaluate_index_expression(&c, &k)
            },
            Expression::PrefixExpression { operator, right_expression } => {
                let v = self.evaluate_expression(right_expression, fuel);
                if is_signal_object(&v) {
                    return v;
                }
                evaluate_prefix_expression(*operator, v)
            },
            Expression::InfixExpression { left_expression, operator, right_expression } => {
                let a = self.evaluate_expression(left_expression, fuel);
                if is_signal_object(&a) {
                    return a;
                }
                let b = self.evaluate_expression(right_expression, fuel);
                if is_signal_object(&b) {
                    return b;
                }
                evaluate_infix_expression(a, *operator, b)
            },
            Expression::IfExpression { condition, consequence, alternative } => {
                let c = self.evaluate_expression(condition, fuel);
                if is_signal_object(&c) {
                    return c;
                }
                if is_truthy(&c) {
                    self.evaluate_statement(consequence, fuel)
                } else {
                    match alternative {
                        Some(a) => self.evaluate_statement(a, fuel),
                        None => Object::Null,
                    }
                }
            },
            Expression::FunctionLiteral { parameters, body } => {
                let env = self.snapshot();
                Object::Function { params: share(parameters), body: share(body), env: Rc::new(env) }
            },
            Expression::CallExpression { function, body } => {
                let f = self.evaluate_expression(function, fuel);
                if is_signal_object(&f) {
                    return f;
                }
                match self.evaluate_arguments(body, fuel) {
                    Err(sig) => sig,
                    Ok(args) => apply_function(f, args, fuel),
                }
            },
        }
    }

    /// Expressions evaluated left to right, or the first signal.
    fn evaluate_arguments(&mut self, expressions: &Vec<Expression>, fuel: u64) -> (r: Result<
        Vec<Object>,
        Object,
    >)
        ensures
            match eval_exprs(old(self)@, exprs_view(expressions@), fuel as nat) {
                (Ok(vs), env1) => r is Ok && objs_view(r->Ok_0@) == vs && final(self)@ == env1,
                (Err(sig), env1) => r is Err && r->Err_0@ == sig && final(self)@ == env1,
            },
        decreases fuel, exprs_size(exprs_view(expressions@)),
    {
        let ghost all = exprs_view(expressions@);
        proof {
            lemma_exprs_view(expressions@);
            assert(all.subrange(0, all.len() as int) =~= all);
        }
        let mut results: Vec<Object> = Vec::new();
        proof {
            assert(objs_view(results@) =~= Seq::<Val>::empty());
            assert(Seq::<Val>::empty() + eval_exprs(self@, all, fuel as nat).0->Ok_0 =~= eval_exprs(
                self@,
                all,
                fuel as nat,
            ).0->Ok_0);
        }
        let mut i: usize = 0;
        while i < expressions.len()
            invariant
                i <= expressions.len(),
                all == exprs_view(expressions@),
                all.len() == expressions.len(),
                forall|j: int| 0 <= j < expressions.len() ==> #[trigger] all[j] == expressions@[j]@,
                eval_exprs(old(self)@, all, fuel as nat) == prepend_vals(
                    objs_view(results@),
                    eval_exprs(self@, all.subrange(i as int, all.len() as int), fuel as nat),
                ),
            decreases expressions.len() - i,
        {
            proof {
                lemma_exprs_size(all, i as int);
                let sub = all.subrange(i as int, all.len() as int);
                assert(sub[0] == all[i as int]);
                assert(sub.drop_first() =~= all.subrange(i + 1, all.len() as int));
            }
            let ghost before = objs_view(results@);
            let v = self.evaluate_expression(&expressions[i], fuel);
            if is_signal_object(&v) {
                return Err(v);
            }
            proof {
                lemma_objs_push(results@, v);
                let rest = eval_exprs(
                    self@,
                    all.subrange(i + 1, all.len() as int),
                    fuel as nat,
                );
                match rest {
                    (Ok(vs), _) => {
                        assert(before + (seq![v@] + vs) =~= before.push(v@) + vs);
                    },
                    _ => {},
                }
            }
            results.push(v);
            i = i + 1;
        }
        proof {
            assert(all.subrange(i as int, all.len() as int) =~= Seq::<Expr>::empty());
            assert(objs_view(results@) + Seq::<Val>::empty() =~= objs_view(results@));
        }
        Ok(results)
    }

    /// The entries of a hash literal, stored as they are evaluated.
    fn evaluate_pairs(&mut self, pairs: &Vec<(Expression, Expression)>, fuel: u64) -> (r: Result<
        Vec<HashPair>,
        Object,
    >)
        ensures
            match eval_pairs(old(self)@, pairs_view(pairs@), seq![], fuel as nat) {
                (Ok(h), env1) => r is Ok && hash_view(r->Ok_0@) == h && final(self)@ == env1,
                (Err(sig), env1) => r is Err && r->Err_0@ == sig && final(self)@ == env1,
            },
        decreases fuel, pairs_size(pairs_view(pairs@)),
    {
        let ghost all = pairs_view(pairs@);
        proof {
            lemma_pairs_view(pairs@);
            assert(all.subrange(0, all.len() as int) =~= all);
        }
        let mut hash: Vec<HashPair> = Vec::new();
        proof {
            assert(hash_view(hash@) =~= Seq::<(Val, Val)>::empty());
        }
        let mut i: usize = 0;
        while i < pairs.len()
            invariant
                i <= pairs.len(),
                all == pairs_view(pairs@),
                all.len() == pairs.len(),
                forall|j: int|
                    0 <= j < pairs.len() ==> #[trigger] all[j] == (
                        expr_view(pairs@[j].0),
                        expr_view(pairs@[j].1),
                    ),
                eval_pairs(old(self)@, all, seq![], fuel as nat) == eval_pairs(
                    self@,
                    all.subrange(i as int, all.len() as int),
                    hash_view(hash@),
                    fuel as nat,
                ),
            decreases pairs.len() - i,
        {
            proof {
                lemma_pairs_size(all, i as int);
                let sub = all.subrange(i as int, all.len() as int);
                assert(sub[0] == all[i as int]);
                assert(sub.drop_first() =~= all.subrange(i + 1, all.len() as int));
            }
            let k = self.evaluate_expression(&pairs[i].0, fuel);
            if is_signal_object(&k) {
                return Err(k);
            }
            let v = self.evaluate_expression(&pairs[i].1, fuel);
            if is_signal_object(&v) {
                return Err(v);
            }
            match k {
                Object::Integer(_) | Object::String(_) | Object::Boolean(_) => {},
                _ => {
                    return Err(error_object(Errors::UnusableHashKey(Box::new(k))));
                },
            }
            hash_store(&mut hash, k, v);
            i = i + 1;
        }
        proof {
            assert(all.subrange(i as int, all.len() as int) =~= Seq::<(Expr, Expr)>::empty());
        }
        Ok(hash)
    }
}

} // verus!
