use vstd::prelude::*;
use crate::object::{obj_view, Val};
use crate::token::{SpecToken, Token, TokenKind};

verus! {

/// The model of an error: what went wrong, with the values involved.
pub enum Fault {
    TokenInvalid(SpecToken),
    InvalidOperator(TokenKind),
    InvalidInteger(Box<Val>),
    InvalidInfix,
    InvalidNumberOfArguments(nat, nat),
    LenInvalidType(Box<Val>),
    FirstType(Box<Val>),
    LastType(Box<Val>),
    RestType(Box<Val>),
    PushType(Box<Val>),
    UnusableHashKey(Box<Val>),
    DivisionByZero,
    CallDepthExceeded,
}

/// A parse error, or an error raised while evaluating.
#[derive(Debug)]
pub enum Errors {
    TokenInvalid(Token),
    InvalidOperator(TokenKind),
    InvalidInteger(Box<crate::object::Object>),
    InvalidInfix,
    InvalidNumberOfArguments { got: usize, want: usize },
    LenInvalidTypeError(Box<crate::object::Object>),
    FirstTypeError(Box<crate::object::Object>),
    LastTypeError(Box<crate::object::Object>),
    RestTypeError(Box<crate::object::Object>),
    PushTypeError(Box<crate::object::Object>),
    UnusableHashKey(Box<crate::object::Object>),
    DivisionByZero,
    CallDepthExceeded,
}

pub open spec fn err_view(e: Errors) -> Fault
    decreases e,
{
    match e {
        Errors::TokenInvalid(t) => Fault::TokenInvalid(t@),
        Errors::InvalidOperator(k) => Fault::InvalidOperator(k),
        Errors::InvalidInteger(v) => Fault::InvalidInteger(Box::new(obj_view(*v))),
        Errors::InvalidInfix => Fault::InvalidInfix,
        Errors::InvalidNumberOfArguments { got, want } => Fault::InvalidNumberOfArguments(
            got as nat,
            want as nat,
        ),
        Errors::LenInvalidTypeError(v) => Fault::LenInvalidType(Box::new(obj_view(*v))),
        Errors::FirstTypeError(v) => Fault::FirstType(Box::new(obj_view(*v))),
        Errors::LastTypeError(v) => Fault::LastType(Box::new(obj_view(*v))),
        Errors::RestTypeError(v) => Fault::RestType(Box::new(obj_view(*v))),
        Errors::PushTypeError(v) => Fault::PushType(Box::new(obj_view(*v))),
        Errors::UnusableHashKey(v) => Fault::UnusableHashKey(Box::new(obj_view(*v))),
        Errors::DivisionByZero => Fault::DivisionByZero,
        Errors::CallDepthExceeded => Fault::CallDepthExceeded,
    }
}

impl View for Errors {
    type V = Fault;

    open spec fn view(&self) -> Fault {
        err_view(*self)
    }
}

} // verus!
