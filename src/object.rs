use vstd::prelude::*;
use std::rc::Rc;
use crate::ast::{names_view, stmt_view, Stmt};
use crate::environment::{env_view, Env, Environment};
use crate::errors::{err_view, Errors, Fault};
use crate::semantics::usable_key;
use crate::basics::{int_text, nat_text, push_count, push_int, push_str, share};
use crate::ast::{bool_text, names_text, operator_text, push_bool, push_operator, stmt_text};
use crate::token::{SpecToken, TokenKind};

verus! {

broadcast use vstd::std_specs::vec::axiom_vec_index_decreases,
    vstd::std_specs::vec::axiom_vec_decreases_to_view, vstd::seq::axiom_seq_index_decreases,
    vstd::seq::axiom_seq_subrange_decreases;

/// The built-in functions.
#[derive(Debug, Clone, Copy, PartialEq, Eq, Structural)]
pub enum Builtin {
    Len,
    First,
    Last,
    Rest,
    Push,
}

/// The model of a runtime value.
pub enum Val {
    Int(i64),
    Bool(bool),
    Str(Seq<char>),
    Null,
    Ret(Box<Val>),
    Error(Fault),
    Array(Seq<Val>),
    Hash(Seq<(Val, Val)>),
    Func(Seq<Seq<char>>, Stmt, Env),
    Builtin(Builtin),
}

/// A runtime value. Arrays, hashes and functions are shared, not copied.
#[derive(Debug)]
pub enum Object {
    Integer(i64),
    Boolean(bool),
    String(String),
    Null,
    Return(Box<Object>),
    Error(Errors),
    Array(Rc<Vec<Object>>),
    Hash(Rc<Vec<HashPair>>),
    Function {
        params: Rc<Vec<String>>,
        body: Rc<crate::ast::Statement>,
        env: Rc<Environment>,
    },
    Builtin { func: Builtin },
}

/// An entry of a hash: the key as it was written and the value stored under it.
#[derive(Debug)]
pub struct HashPair {
    pub key: Object,
    pub value: Object,
}

/// The part of a value that identifies a hash entry; `Null` stands for a
/// value that cannot be a key.
#[derive(Debug, Clone, PartialEq, Eq)]
pub enum HashKey {
    Integer(i64),
    String(String),
    Boolean(bool),
    Null,
}

pub open spec fn obj_view(o: Object) -> Val
    decreases o,
{
    match o {
        Object::Integer(i) => Val::Int(i),
        Object::Boolean(b) => Val::Bool(b),
        Object::String(s) => Val::Str(s@),
        Object::Null => Val::Null,
        Object::Return(v) => Val::Ret(Box::new(obj_view(*v))),
        Object::Error(e) => Val::Error(err_view(e)),
        Object::Array(v) => Val::Array(objs_view((*v)@)),
        Object::Hash(v) => Val::Hash(hash_view((*v)@)),
        Object::Function { params, body, env } => Val::Func(
            names_view((*params)@),
            stmt_view(*body),
            env_view(*env),
        ),
        Object::Builtin { func } => Val::Builtin(func),
    }
}

pub open spec fn objs_view(s: Seq<Object>) -> Seq<Val>
    decreases s,
{
    if s.len() == 0 {
        seq![]
    } else {
        objs_view(s.drop_last()).push(obj_view(s.last()))
    }
}

pub open spec fn hash_view(s: Seq<HashPair>) -> Seq<(Val, Val)>
    decreases s,
{
    if s.len() == 0 {
        seq![]
    } else {
        hash_view(s.drop_last()).push((obj_view(s.last().key), obj_view(s.last().value)))
    }
}

impl View for Object {
    type V = Val;

    open spec fn view(&self) -> Val {
        obj_view(*self)
    }
}

pub proof fn lemma_objs_view(s: Seq<Object>)
    ensures
        objs_view(s).len() == s.len(),
        forall|i: int| 0 <= i < s.len() ==> #[trigger] objs_view(s)[i] == obj_view(s[i]),
    decreases s.len(),
{
    if s.len() > 0 {
        lemma_objs_view(s.drop_last());
    }
}

pub proof fn lemma_objs_push(s: Seq<Object>, o: Object)
    ensures
        objs_view(s.push(o)) == objs_view(s).push(obj_view(o)),
{
    assert(s.push(o).drop_last() =~= s);
}

pub proof fn lemma_hash_view(s: Seq<HashPair>)
    ensures
        hash_view(s).len() == s.len(),
        forall|i: int|
            0 <= i < s.len() ==> #[trigger] hash_view(s)[i] == (
                obj_view(s[i].key),
                obj_view(s[i].value),
            ),
    decreases s.len(),
{
    if s.len() > 0 {
        lemma_hash_view(s.drop_last());
    }
}

/// An error value.
pub fn error_object(e: Errors) -> (r: Object)
    ensures
        r == Object::Error(e),
        r@ == Val::Error(e@),
{
    Object::Error(e)
}

impl Object {
    /// A copy of this value; arrays, hashes and functions are shared.
    pub fn copy(&self) -> (r: Object)
        ensures
            r == *self,
        decreases self,
    {
        match self {
            Object::Integer(i) => Object::Integer(*i),
            Object::Boolean(b) => Object::Boolean(*b),
            Object::String(s) => Object::String(s.clone()),
            Object::Null => Object::Null,
            Object::Return(v) => Object::Return(Box::new(v.copy())),
            Object::Error(e) => Object::Error(e.copy()),
            Object::Array(v) => Object::Array(share(v)),
            Object::Hash(v) => Object::Hash(share(v)),
            Object::Function { params, body, env } => Object::Function {
                params: share(params),
                body: share(body),
                env: share(env),
            },
            Object::Builtin { func } => Object::Builtin { func: *func },
        }
    }
}

impl Errors {
    /// A copy of this error.
    pub fn copy(&self) -> (r: Errors)
        ensures
            r == *self,
        decreases self,
    {
        match self {
            Errors::TokenInvalid(t) => Errors::TokenInvalid(t.duplicate()),
            Errors::InvalidOperator(k) => Errors::InvalidOperator(*k),
            Errors::InvalidInteger(v) => Errors::InvalidInteger(Box::new(v.copy())),
            Errors::InvalidInfix => Errors::InvalidInfix,
            Errors::InvalidNumberOfArguments { got, want } => Errors::InvalidNumberOfArguments {
                got: *got,
                want: *want,
            },
            Errors::LenInvalidTypeError(v) => Errors::LenInvalidTypeError(Box::new(v.copy())),
            Errors::FirstTypeError(v) => Errors::FirstTypeError(Box::new(v.copy())),
            Errors::LastTypeError(v) => Errors::LastTypeError(Box::new(v.copy())),
            Errors::RestTypeError(v) => Errors::RestTypeError(Box::new(v.copy())),
            Errors::PushTypeError(v) => Errors::PushTypeError(Box::new(v.copy())),
            Errors::UnusableHashKey(v) => Errors::UnusableHashKey(Box::new(v.copy())),
            Errors::DivisionByZero => Errors::DivisionByZero,
            Errors::CallDepthExceeded => Errors::CallDepthExceeded,
        }
    }
}

/// The key that a value stands for in a hash, if it can be one.
pub open spec fn key_of(v: Val) -> Option<Val> {
    if usable_key(v) {
        Some(v)
    } else {
        None
    }
}

impl HashKey {
    /// The model of this key: the value it was projected from.
    pub open spec fn key_view(self) -> Option<Val> {
        match self {
            HashKey::Integer(i) => Some(Val::Int(i)),
            HashKey::String(s) => Some(Val::Str(s@)),
            HashKey::Boolean(b) => Some(Val::Bool(b)),
            HashKey::Null => None,
        }
    }

    /// The hash key of a value: integers, strings and booleans project to
    /// themselves, anything else to `Null`.
    pub fn get_hashkey(key: &Object) -> (r: HashKey)
        ensures
            r.key_view() == key_of(key@),
    {
        match key {
            Object::Integer(i) => HashKey::Integer(*i),
            Object::String(s) => HashKey::String(s.clone()),
            Object::Boolean(b) => HashKey::Boolean(*b),
            _ => HashKey::Null,
        }
    }

    /// Whether this key identifies the entry whose key is `o`.
    pub fn matches(&self, o: &Object) -> (r: bool)
        ensures
            r == (self.key_view() == Some(o@)),
    {
        let r = match self {
            HashKey::Integer(a) => match o {
                Object::Integer(b) => {
                    assert(o@ == Val::Int(*b));
                    assert(self.key_view() == Some(Val::Int(*a)));
                    *a == *b
                },
                _ => false,
            },
            HashKey::String(a) => match o {
                Object::String(b) => *a == *b,
                _ => false,
            },
            HashKey::Boolean(a) => match o {
                Object::Boolean(b) => *a == *b,
                _ => false,
            },
            HashKey::Null => false,
        };
        proof {
            match o {
                Object::Integer(_) => {},
                Object::String(_) => {},
                Object::Boolean(_) => {},
                _ => {
                    assert(!(o@ is Int) && !(o@ is Str) && !(o@ is Bool));
                },
            }
        }
        r
    }
}

} // verus!

verus! {

/// The name of a token kind, as it is written in the source of this crate.
pub open spec fn kind_name(k: TokenKind) -> Seq<char> {
    match k {
        TokenKind::ILLEGAL => "ILLEGAL"@,
        TokenKind::EOF => "EOF"@,
        TokenKind::IDENT => "IDENT"@,
        TokenKind::INT => "INT"@,
        TokenKind::STRING => "STRING"@,
        TokenKind::ASSIGN => "ASSIGN"@,
        TokenKind::PLUS => "PLUS"@,
        TokenKind::MINUS => "MINUS"@,
        TokenKind::BANG => "BANG"@,
        TokenKind::ASTERISK => "ASTERISK"@,
        TokenKind::SLASH => "SLASH"@,
        TokenKind::LT => "LT"@,
        TokenKind::GT => "GT"@,
        TokenKind::EQ => "EQ"@,
        TokenKind::NotEq => "NotEq"@,
        TokenKind::COMMA => "COMMA"@,
        TokenKind::SEMICOLON => "SEMICOLON"@,
        TokenKind::COLON => "COLON"@,
        TokenKind::LPAREN => "LPAREN"@,
        TokenKind::RPAREN => "RPAREN"@,
        TokenKind::LBRACE => "LBRACE"@,
        TokenKind::RBRACE => "RBRACE"@,
        TokenKind::LBRACKET => "LBRACKET"@,
        TokenKind::RBRACKET => "RBRACKET"@,
        TokenKind::FUNCTION => "FUNCTION"@,
        TokenKind::LET => "LET"@,
        TokenKind::TRUE => "TRUE"@,
        TokenKind::FALSE => "FALSE"@,
        TokenKind::IF => "IF"@,
        TokenKind::ELSE => "ELSE"@,
        TokenKind::RETURN => "RETURN"@,
    }
}

/// The debug form of a token: `Token { token_type: KIND, literal: "text" }`.
pub open spec fn token_text(t: SpecToken) -> Seq<char> {
    "Token { token_type: "@ + kind_name(t.kind) + ", literal: \""@ + t.literal + "\" }"@
}

/// The textual form of a value.
pub open spec fn val_text(v: Val) -> Seq<char>
    decreases v,
{
    match v {
        Val::Int(i) => int_text(i as int),
        Val::Bool(b) => bool_text(b),
        Val::Str(s) => s,
        Val::Null => seq![],
        Val::Ret(inner) => val_text(*inner),
        Val::Error(f) => fault_text(f),
        Val::Array(vs) => "["@ + vals_text(vs) + "]"@,
        Val::Hash(ps) => "{"@ + entries_text(ps) + "}"@,
        Val::Func(params, body, _) => "fn("@ + names_text(params) + ") {"@ + stmt_text(body) + "}"@,
        Val::Builtin(_) => "builtin function"@,
    }
}

/// Values' textual forms separated by `", "`.
pub open spec fn vals_text(s: Seq<Val>) -> Seq<char>
    decreases s,
{
    if s.len() == 0 {
        seq![]
    } else if s.len() == 1 {
        val_text(s[0])
    } else {
        vals_text(s.drop_last()) + ", "@ + val_text(s.last())
    }
}

/// Hash entries `key: value` separated by `", "`.
pub open spec fn entries_text(s: Seq<(Val, Val)>) -> Seq<char>
    decreases s,
{
    if s.len() == 0 {
        seq![]
    } else if s.len() == 1 {
        val_text(s[0].0) + ": "@ + val_text(s[0].1)
    } else {
        entries_text(s.drop_last()) + ", "@ + val_text(s.last().0) + ": "@ + val_text(s.last().1)
    }
}

/// The diagnostic text of an error.
pub open spec fn fault_text(f: Fault) -> Seq<char>
    decreases f,
{
    match f {
        Fault::TokenInvalid(t) => "invalid token: "@ + token_text(t),
        Fault::InvalidOperator(op) => "invalid operator: "@ + operator_text(op),
        Fault::InvalidInteger(v) => "invalid integer: "@ + val_text(*v),
        Fault::InvalidInfix => "invalid_infix"@,
        Fault::InvalidNumberOfArguments(got, want) => "wrong number of arguments. got="@ + nat_text(
            got,
        ) + ", want="@ + nat_text(want),
        Fault::LenInvalidType(v) => "argument to len not supported got "@ + val_text(*v),
        Fault::FirstType(v) => "argument to 'first' must be array, got "@ + val_text(*v),
        Fault::LastType(v) => "argument to 'last' must be array, got "@ + val_text(*v),
        Fault::RestType(v) => "argument to 'rest' must be array, got "@ + val_text(*v),
        Fault::PushType(v) => "argument to 'push' must be array, got "@ + val_text(*v),
        Fault::UnusableHashKey(v) => "unusable as hash key: "@ + val_text(*v),
        Fault::DivisionByZero => "division by zero"@,
        Fault::CallDepthExceeded => "call depth exceeded"@,
    }
}

fn push_kind_name(out: &mut String, k: TokenKind)
    ensures
        final(out)@ == old(out)@ + kind_name(k),
{
    match k {
        TokenKind::ILLEGAL => push_str(out, "ILLEGAL"),
        TokenKind::EOF => push_str(out, "EOF"),
        TokenKind::IDENT => push_str(out, "IDENT"),
        TokenKind::INT => push_str(out, "INT"),
        TokenKind::STRING => push_str(out, "STRING"),
        TokenKind::ASSIGN => push_str(out, "ASSIGN"),
        TokenKind::PLUS => push_str(out, "PLUS"),
        TokenKind::MINUS => push_str(out, "MINUS"),
        TokenKind::BANG => push_str(out, "BANG"),
        TokenKind::ASTERISK => push_str(out, "ASTERISK"),
        TokenKind::SLASH => push_str(out, "SLASH"),
        TokenKind::LT => push_str(out, "LT"),
        TokenKind::GT => push_str(out, "GT"),
        TokenKind::EQ => push_str(out, "EQ"),
        TokenKind::NotEq => push_str(out, "NotEq"),
        TokenKind::COMMA => push_str(out, "COMMA"),
        TokenKind::SEMICOLON => push_str(out, "SEMICOLON"),
        TokenKind::COLON => push_str(out, "COLON"),
        TokenKind::LPAREN => push_str(out, "LPAREN"),
        TokenKind::RPAREN => push_str(out, "RPAREN"),
        TokenKind::LBRACE => push_str(out, "LBRACE"),
        TokenKind::RBRACE => push_str(out, "RBRACE"),
        TokenKind::LBRACKET => push_str(out, "LBRACKET"),
        TokenKind::RBRACKET => push_str(out, "RBRACKET"),
        TokenKind::FUNCTION => push_str(out, "FUNCTION"),
        TokenKind::LET => push_str(out, "LET"),
        TokenKind::TRUE => push_str(out, "TRUE"),
        TokenKind::FALSE => push_str(out, "FALSE"),
        TokenKind::IF => push_str(out, "IF"),
        TokenKind::ELSE => push_str(out, "ELSE"),
        TokenKind::RETURN => push_str(out, "RETURN"),
    }
}

fn push_vals(out: &mut String, v: &Vec<Object>)
    ensures
        final(out)@ == old(out)@ + vals_text(objs_view(v@)),
    decreases v,
{
    proof {
        lemma_objs_view(v@);
    }
    let mut i: usize = 0;
    while i < v.len()
        invariant
            i <= v.len(),
            objs_view(v@).len() == v.len(),
            forall|j: int| 0 <= j < v.len() ==> #[trigger] objs_view(v@)[j] == obj_view(v@[j]),
            out@ == old(out)@ + vals_text(objs_view(v@).take(i as int)),
        decreases v.len() - i,
    {
        proof {
            assert(objs_view(v@).take(i as int + 1).drop_last() =~= objs_view(v@).take(i as int));
        }
        if i > 0 {
            push_str(out, ", ");
        }
        v[i].push_text(out);
        i = i + 1;
    }
    assert(objs_view(v@).take(v.len() as int) =~= objs_view(v@));
}

fn push_entries(out: &mut String, v: &Vec<HashPair>)
    ensures
        final(out)@ == old(out)@ + entries_text(hash_view(v@)),
    decreases v,
{
    proof {
        lemma_hash_view(v@);
    }
    let mut i: usize = 0;
    while i < v.len()
        invariant
            i <= v.len(),
            hash_view(v@).len() == v.len(),
            forall|j: int|
                0 <= j < v.len() ==> #[trigger] hash_view(v@)[j] == (
                    obj_view(v@[j].key),
                    obj_view(v@[j].value),
                ),
            out@ == old(out)@ + entries_text(hash_view(v@).take(i as int)),
        decreases v.len() - i,
    {
        proof {
            assert(hash_view(v@).take(i as int + 1).drop_last() =~= hash_view(v@).take(i as int));
        }
        if i > 0 {
            push_str(out, ", ");
        }
        v[i].key.push_text(out);
        push_str(out, ": ");
        v[i].value.push_text(out);
        i = i + 1;
    }
    assert(hash_view(v@).take(v.len() as int) =~= hash_view(v@));
}

fn push_names(out: &mut String, ps: &Vec<String>)
    ensures
        final(out)@ == old(out)@ + names_text(names_view(ps@)),
{
    let mut i: usize = 0;
    while i < ps.len()
        invariant
            i <= ps.len(),
            out@ == old(out)@ + names_text(names_view(ps@).take(i as int)),
        decreases ps.len() - i,
    {
        proof {
            assert(names_view(ps@).take(i as int + 1).drop_last() =~= names_view(ps@).take(
                i as int,
            ));
        }
        if i > 0 {
            push_str(out, ", ");
        }
        push_str(out, ps[i].as_str());
        i = i + 1;
    }
    assert(names_view(ps@).take(ps.len() as int) =~= names_view(ps@));
}

impl Object {
    /// Appends the textual form of this value.
    pub fn push_text(&self, out: &mut String)
        ensures
            final(out)@ == old(out)@ + val_text(self@),
        decreases self,
    {
        match self {
            Object::Integer(i) => push_int(out, *i),
            Object::Boolean(b) => push_bool(out, *b),
            Object::String(s) => push_str(out, s.as_str()),
            Object::Null => {
                assert(old(out)@ + seq![] =~= old(out)@);
            },
            Object::Return(inner) => inner.push_text(out),
            Object::Error(e) => e.push_text(out),
            Object::Array(v) => {
                push_str(out, "[");
                push_vals(out, v);
                push_str(out, "]");
            },
            Object::Hash(v) => {
                push_str(out, "{");
                push_entries(out, v);
                push_str(out, "}");
            },
            Object::Function { params, body, env: _ } => {
                push_str(out, "fn(");
                push_names(out, params);
                push_str(out, ") {");
                body.push_text(out);
                push_str(out, "}");
            },
            Object::Builtin { func: _ } => push_str(out, "builtin function"),
        }
    }

    /// The textual form of this value.
    pub fn to_text(&self) -> (r: String)
        ensures
            r@ == val_text(self@),
    {
        let mut out = String::new();
        self.push_text(&mut out);
        out
    }
}

impl Errors {
    /// Appends the diagnostic text of this error.
    pub fn push_text(&self, out: &mut String)
        ensures
            final(out)@ == old(out)@ + fault_text(self@),
        decreases self,
    {
        match self {
            Errors::TokenInvalid(t) => {
                push_str(out, "invalid token: ");
                push_str(out, "Token { token_type: ");
                push_kind_name(out, t.token_type);
                push_str(out, ", literal: \"");
                push_str(out, t.literal.as_str());
                push_str(out, "\" }");
            },
            Errors::InvalidOperator(op) => {
                push_str(out, "invalid operator: ");
                push_operator(out, *op);
            },
            Errors::InvalidInteger(v) => {
                push_str(out, "invalid integer: ");
                v.push_text(out);
            },
            Errors::InvalidInfix => push_str(out, "invalid_infix"),
            Errors::InvalidNumberOfArguments { got, want } => {
                push_str(out, "wrong number of arguments. got=");
                push_count(out, *got);
                push_str(out, ", want=");
                push_count(out, *want);
            },
            Errors::LenInvalidTypeError(v) => {
                push_str(out, "argument to len not supported got ");
                v.push_text(out);
            },
            Errors::FirstTypeError(v) => {
                push_str(out, "argument to 'first' must be array, got ");
                v.push_text(out);
            },
            Errors::LastTypeError(v) => {
                push_str(out, "argument to 'last' must be array, got ");
                v.push_text(out);
            },
            Errors::RestTypeError(v) => {
                push_str(out, "argument to 'rest' must be array, got ");
                v.push_text(out);
            },
            Errors::PushTypeError(v) => {
                push_str(out, "argument to 'push' must be array, got ");
                v.push_text(out);
            },
            Errors::UnusableHashKey(v) => {
                push_str(out, "unusable as hash key: ");
                v.push_text(out);
            },
            Errors::DivisionByZero => push_str(out, "division by zero"),
            Errors::CallDepthExceeded => push_str(out, "call depth exceeded"),
        }
    }

    /// The diagnostic text of this error.
    pub fn to_text(&self) -> (r: String)
        ensures
            r@ == fault_text(self@),
    {
        let mut out = String::new();
        self.push_text(&mut out);
        out
    }
}

} // verus!
