use vstd::prelude::*;
use crate::ast::{Expr, Stmt};
use crate::lexer::{mk_token, tokens_from};
use crate::basics::digits_value;
use crate::token::{precedence_of, Precedence, SpecToken, TokenKind};

verus! {

/// The token at `i`, or `EOF` outside the sequence.
pub open spec fn at(ts: Seq<SpecToken>, i: int) -> SpecToken {
    if 0 <= i < ts.len() {
        ts[i]
    } else {
        mk_token(TokenKind::EOF, seq![])
    }
}

pub open spec fn kind_at(ts: Seq<SpecToken>, i: int) -> TokenKind {
    at(ts, i).kind
}

/// Whether a parse that started at `pos` and stopped at `p` consumed tokens
/// and stayed inside the sequence.
pub open spec fn advanced(ts: Seq<SpecToken>, pos: int, p: int) -> bool {
    pos < p <= ts.len()
}

/// The position after an optional semicolon at `p`.
pub open spec fn skip_semicolon(ts: Seq<SpecToken>, p: int) -> int {
    if kind_at(ts, p) == TokenKind::SEMICOLON {
        p + 1
    } else {
        p
    }
}

pub open spec fn all_digits(s: Seq<char>) -> bool {
    forall|i: int| 0 <= i < s.len() ==> '0' <= #[trigger] s[i] && s[i] <= '9'
}

/// The value of an integer literal, when it is a run of digits that fits in
/// an `i64`.
pub open spec fn int_literal_value(s: Seq<char>) -> Option<i64> {
    if s.len() > 0 && all_digits(s) && digits_value(s) <= i64::MAX {
        Some(digits_value(s) as i64)
    } else {
        None
    }
}

/// An expression that starts at `pos` and binds tighter than `prec`, with the
/// position after it; or the offending token.
pub open spec fn parse_expr(ts: Seq<SpecToken>, pos: int, prec: nat) -> Result<(Expr, int), SpecToken>
    decreases ts.len() - pos, 3nat,
{
    if pos < 0 || pos >= ts.len() {
        Err(at(ts, pos))
    } else {
        match parse_prefix(ts, pos) {
            Err(t) => Err(t),
            Ok((left, p)) => if advanced(ts, pos, p) {
                parse_infix_loop(ts, left, p, prec)
            } else {
                Err(at(ts, pos))
            },
        }
    }
}

/// Extends `left` by infix operators, calls and index operations that bind
/// tighter than `prec`.
pub open spec fn parse_infix_loop(ts: Seq<SpecToken>, left: Expr, pos: int, prec: nat) -> Result<
    (Expr, int),
    SpecToken,
>
    decreases ts.len() - pos, 0nat,
{
    let t = at(ts, pos);
    if pos < 0 || pos >= ts.len() {
        Err(t)
    } else if t.kind == TokenKind::SEMICOLON || prec >= precedence_of(t.kind).rank() {
        Ok((left, pos))
    } else if t.kind == TokenKind::LPAREN {
        match parse_expr_list(ts, pos + 1, TokenKind::RPAREN) {
            Err(e) => Err(e),
            Ok((args, p)) => if advanced(ts, pos, p) {
                parse_infix_loop(ts, Expr::Call(Box::new(left), args), p, prec)
            } else {
                Err(t)
            },
        }
    } else if t.kind == TokenKind::LBRACKET {
        match parse_expr(ts, pos + 1, Precedence::LOWEST.rank()) {
            Err(e) => Err(e),
            Ok((key, p)) => if kind_at(ts, p) != TokenKind::RBRACKET {
                Err(at(ts, p))
            } else if advanced(ts, pos, p + 1) {
                parse_infix_loop(ts, Expr::Index(Box::new(left), Box::new(key)), p + 1, prec)
            } else {
                Err(t)
            },
        }
    } else {
        match parse_expr(ts, pos + 1, precedence_of(t.kind).rank()) {
            Err(e) => Err(e),
            Ok((right, p)) => if advanced(ts, pos, p) {
                parse_infix_loop(ts, Expr::Infix(Box::new(left), t.kind, Box::new(right)), p, prec)
            } else {
                Err(t)
            },
        }
    }
}

/// The operand that starts at `pos`.
pub open spec fn parse_prefix(ts: Seq<SpecToken>, pos: int) -> Result<(Expr, int), SpecToken>
    decreases ts.len() - pos, 2nat,
{
    let t = at(ts, pos);
    if pos < 0 || pos >= ts.len() {
        Err(t)
    } else {
        match t.kind {
            TokenKind::IDENT => Ok((Expr::Ident(t.literal), pos + 1)),
            TokenKind::INT => match int_literal_value(t.literal) {
                Some(v) => Ok((Expr::Int(v), pos + 1)),
                None => Err(t),
            },
            TokenKind::STRING => Ok((Expr::Str(t.literal), pos + 1)),
            TokenKind::TRUE => Ok((Expr::Bool(true), pos + 1)),
            TokenKind::FALSE => Ok((Expr::Bool(false), pos + 1)),
            TokenKind::BANG | TokenKind::MINUS => match parse_expr(
                ts,
                pos + 1,
                Precedence::PREFIX.rank(),
            ) {
                Err(e) => Err(e),
                Ok((right, p)) => Ok((Expr::Prefix(t.kind, Box::new(right)), p)),
            },
            TokenKind::LPAREN => match parse_expr(ts, pos + 1, Precedence::LOWEST.rank()) {
                Err(e) => Err(e),
                Ok((inner, p)) => if kind_at(ts, p) == TokenKind::RPAREN {
                    Ok((inner, p + 1))
                } else {
                    Err(at(ts, p))
                },
            },
            TokenKind::IF => parse_if(ts, pos),
            TokenKind::FUNCTION => parse_function(ts, pos),
            TokenKind::LBRACKET => match parse_expr_list(ts, pos + 1, TokenKind::RBRACKET) {
                Err(e) => Err(e),
                Ok((elems, p)) => Ok((Expr::Array(elems), p)),
            },
            TokenKind::LBRACE => match parse_hash(ts, pos + 1) {
                Err(e) => Err(e),
                Ok((pairs, p)) => Ok((Expr::Hash(pairs), p)),
            },
            _ => Err(t),
        }
    }
}

/// `if (cond) { ... }` with an optional `else { ... }`, starting at the `if`.
pub open spec fn parse_if(ts: Seq<SpecToken>, pos: int) -> Result<(Expr, int), SpecToken>
    decreases ts.len() - pos, 1nat,
{
    if pos < 0 || pos >= ts.len() {
        Err(at(ts, pos))
    } else if kind_at(ts, pos + 1) != TokenKind::LPAREN {
        Err(at(ts, pos + 1))
    } else {
        match parse_expr(ts, pos + 2, Precedence::LOWEST.rank()) {
            Err(e) => Err(e),
            Ok((cond, p)) => if kind_at(ts, p) != TokenKind::RPAREN {
                Err(at(ts, p))
            } else if kind_at(ts, p + 1) != TokenKind::LBRACE {
                Err(at(ts, p + 1))
            } else if !advanced(ts, pos, p + 2) {
                Err(at(ts, pos))
            } else {
                match parse_block(ts, p + 2, seq![]) {
                    Err(e) => Err(e),
                    Ok((cons, q)) => if kind_at(ts, q) != TokenKind::ELSE {
                        Ok((Expr::If(Box::new(cond), Box::new(Stmt::Block(cons)), None), q))
                    } else if kind_at(ts, q + 1) != TokenKind::LBRACE {
                        Err(at(ts, q + 1))
                    } else if !advanced(ts, pos, q + 2) {
                        Err(at(ts, pos))
                    } else {
                        match parse_block(ts, q + 2, seq![]) {
                            Err(e) => Err(e),
                            Ok((alt, r)) => Ok(
                                (
                                    Expr::If(
                                        Box::new(cond),
                                        Box::new(Stmt::Block(cons)),
                                        Some(Box::new(Stmt::Block(alt))),
                                    ),
                                    r,
                                ),
                            ),
                        }
                    },
                }
            },
        }
    }
}

/// `fn (params) { ... }`, starting at the `fn`.
pub open spec fn parse_function(ts: Seq<SpecToken>, pos: int) -> Result<(Expr, int), SpecToken>
    decreases ts.len() - pos, 1nat,
{
    if pos < 0 || pos >= ts.len() {
        Err(at(ts, pos))
    } else if kind_at(ts, pos + 1) != TokenKind::LPAREN {
        Err(at(ts, pos + 1))
    } else {
        match parse_params(ts, pos + 2) {
            Err(e) => Err(e),
            Ok((names, p)) => if kind_at(ts, p) != TokenKind::LBRACE {
                Err(at(ts, p))
            } else if !advanced(ts, pos, p + 1) {
                Err(at(ts, pos))
            } else {
                match parse_block(ts, p + 1, seq![]) {
                    Err(e) => Err(e),
                    Ok((body, q)) => Ok((Expr::Func(names, Box::new(Stmt::Block(body))), q)),
                }
            },
        }
    }
}

/// A parameter list after its `(`, through its `)`.
pub open spec fn parse_params(ts: Seq<SpecToken>, pos: int) -> Result<(Seq<Seq<char>>, int), SpecToken> {
    if kind_at(ts, pos) == TokenKind::RPAREN {
        Ok((seq![], pos + 1))
    } else {
        parse_params_rest(ts, pos, seq![])
    }
}

pub open spec fn parse_params_rest(ts: Seq<SpecToken>, pos: int, acc: Seq<Seq<char>>) -> Result<
    (Seq<Seq<char>>, int),
    SpecToken,
>
    decreases ts.len() - pos,
{
    if pos < 0 || pos >= ts.len() {
        Err(at(ts, pos))
    } else if kind_at(ts, pos) != TokenKind::IDENT {
        Err(at(ts, pos))
    } else {
        let names = acc.push(at(ts, pos).literal);
        if kind_at(ts, pos + 1) == TokenKind::COMMA {
            parse_params_rest(ts, pos + 2, names)
        } else if kind_at(ts, pos + 1) == TokenKind::RPAREN {
            Ok((names, pos + 2))
        } else {
            Err(at(ts, pos + 1))
        }
    }
}

/// Expressions separated by commas up to `closer`, starting after the opener;
/// the position returned is after the closer.
pub open spec fn parse_expr_list(ts: Seq<SpecToken>, pos: int, closer: TokenKind) -> Result<
    (Seq<Expr>, int),
    SpecToken,
>
    decreases ts.len() - pos, 4nat,
{
    if pos < 0 || pos >= ts.len() {
        Err(at(ts, pos))
    } else if kind_at(ts, pos) == closer {
        Ok((seq![], pos + 1))
    } else {
        match parse_expr(ts, pos, Precedence::LOWEST.rank()) {
            Err(e) => Err(e),
            Ok((first, p)) => if advanced(ts, pos, p) {
                parse_list_rest(ts, p, closer, seq![first])
            } else {
                Err(at(ts, pos))
            },
        }
    }
}

pub open spec fn parse_list_rest(
    ts: Seq<SpecToken>,
    pos: int,
    closer: TokenKind,
    acc: Seq<Expr>,
) -> Result<(Seq<Expr>, int), SpecToken>
    decreases ts.len() - pos, 0nat,
{
    if pos < 0 || pos >= ts.len() {
        Err(at(ts, pos))
    } else if kind_at(ts, pos) == TokenKind::COMMA {
        match parse_expr(ts, pos + 1, Precedence::LOWEST.rank()) {
            Err(e) => Err(e),
            Ok((e, p)) => if advanced(ts, pos, p) {
                parse_list_rest(ts, p, closer, acc.push(e))
            } else {
                Err(at(ts, pos))
            },
        }
    } else if kind_at(ts, pos) == closer {
        Ok((acc, pos + 1))
    } else {
        Err(at(ts, pos))
    }
}

/// The entries of a hash literal after its `{`, through its `}`.
pub open spec fn parse_hash(ts: Seq<SpecToken>, pos: int) -> Result<(Seq<(Expr, Expr)>, int), SpecToken>
    decreases ts.len() - pos, 5nat,
{
    if pos < 0 || pos >= ts.len() {
        Err(at(ts, pos))
    } else if kind_at(ts, pos) == TokenKind::RBRACE {
        Ok((seq![], pos + 1))
    } else {
        parse_hash_rest(ts, pos, seq![])
    }
}

pub open spec fn parse_hash_rest(ts: Seq<SpecToken>, pos: int, acc: Seq<(Expr, Expr)>) -> Result<
    (Seq<(Expr, Expr)>, int),
    SpecToken,
>
    decreases ts.len() - pos, 4nat,
{
    if pos < 0 || pos >= ts.len() {
        Err(at(ts, pos))
    } else {
        match parse_expr(ts, pos, Precedence::LOWEST.rank()) {
            Err(e) => Err(e),
            Ok((k, p)) => if kind_at(ts, p) != TokenKind::COLON {
                Err(at(ts, p))
            } else if !advanced(ts, pos, p + 1) {
                Err(at(ts, pos))
            } else {
                match parse_expr(ts, p + 1, Precedence::LOWEST.rank()) {
                    Err(e) => Err(e),
                    Ok((v, q)) => {
                        let entries = acc.push((k, v));
                        if kind_at(ts, q) == TokenKind::RBRACE {
                            Ok((entries, q + 1))
                        } else if kind_at(ts, q) != TokenKind::COMMA {
                            Err(at(ts, q))
                        } else if !advanced(ts, pos, q + 1) {
                            Err(at(ts, pos))
                        } else {
                            parse_hash_rest(ts, q + 1, entries)
                        }
                    },
                }
            },
        }
    }
}

/// The statements of a block after its `{`, through its `}`.
pub open spec fn parse_block(ts: Seq<SpecToken>, pos: int, acc: Seq<Stmt>) -> Result<
    (Seq<Stmt>, int),
    SpecToken,
>
    decreases ts.len() - pos, 5nat,
{
    if pos < 0 || pos >= ts.len() {
        Err(at(ts, pos))
    } else if kind_at(ts, pos) == TokenKind::RBRACE {
        Ok((acc, pos + 1))
    } else if kind_at(ts, pos) == TokenKind::EOF {
        Err(at(ts, pos))
    } else {
        match parse_statement(ts, pos) {
            Err(e) => Err(e),
            Ok((s, p)) => if advanced(ts, pos, p) {
                parse_block(ts, p, acc.push(s))
            } else {
                Err(at(ts, pos))
            },
        }
    }
}

/// One statement starting at `pos`, with its optional trailing semicolon.
pub open spec fn parse_statement(ts: Seq<SpecToken>, pos: int) -> Result<(Stmt, int), SpecToken>
    decreases ts.len() - pos, 4nat,
{
    if pos < 0 || pos >= ts.len() {
        Err(at(ts, pos))
    } else if kind_at(ts, pos) == TokenKind::LET {
        if kind_at(ts, pos + 1) != TokenKind::IDENT {
            Err(at(ts, pos + 1))
        } else if kind_at(ts, pos + 2) != TokenKind::ASSIGN {
            Err(at(ts, pos + 2))
        } else {
            match parse_expr(ts, pos + 3, Precedence::LOWEST.rank()) {
                Err(e) => Err(e),
                Ok((v, p)) => Ok((Stmt::Let(at(ts, pos + 1).literal, v), skip_semicolon(ts, p))),
            }
        }
    } else if kind_at(ts, pos) == TokenKind::RETURN {
        match parse_expr(ts, pos + 1, Precedence::LOWEST.rank()) {
            Err(e) => Err(e),
            Ok((v, p)) => Ok((Stmt::Return(v), skip_semicolon(ts, p))),
        }
    } else {
        match parse_expr(ts, pos, Precedence::LOWEST.rank()) {
            Err(e) => Err(e),
            Ok((v, p)) => Ok((Stmt::Expression(v), skip_semicolon(ts, p))),
        }
    }
}

/// The statements from `pos` up to `EOF`, after those already in `acc`.
pub open spec fn parse_statements(ts: Seq<SpecToken>, pos: int, acc: Seq<Stmt>) -> Result<
    Seq<Stmt>,
    SpecToken,
>
    decreases ts.len() - pos,
{
    if pos < 0 || pos >= ts.len() {
        Err(at(ts, pos))
    } else if kind_at(ts, pos) == TokenKind::EOF {
        Ok(acc)
    } else {
        match parse_statement(ts, pos) {
            Err(e) => Err(e),
            Ok((s, p)) => if advanced(ts, pos, p) {
                parse_statements(ts, p, acc.push(s))
            } else {
                Err(at(ts, pos))
            },
        }
    }
}

/// The program that a token sequence spells, or the first offending token.
pub open spec fn parse_tokens(ts: Seq<SpecToken>) -> Result<Seq<Stmt>, SpecToken> {
    parse_statements(ts, 0, seq![])
}

/// The program that a source text spells, or the first offending token.
pub open spec fn parse_source(s: Seq<char>) -> Result<Seq<Stmt>, SpecToken> {
    parse_tokens(tokens_from(s, 0))
}

} // verus!
