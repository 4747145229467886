use vstd::prelude::*;
use std::rc::Rc;
use crate::ast::{
    exprs_view, expr_view, names_view, pairs_view, stmts_view, stmt_view, Expr, Expression,
    Program, Statement, Stmt,
};
use crate::errors::Errors;
use crate::grammar::{
    all_digits, at, int_literal_value, kind_at, parse_block, parse_expr, parse_expr_list, parse_function,
    parse_hash, parse_hash_rest, parse_if, parse_infix_loop, parse_list_rest, parse_params,
    parse_params_rest, parse_prefix, parse_source, parse_statement, parse_statements, skip_semicolon,
};
use crate::lexer::{lemma_lex_advances, tokens_from, Lexer};
use crate::basics::digits_value;
use crate::token::{chars_of, Precedence, SpecToken, Token, TokenKind};

verus! {

/// Whether an executable parse result is the one the grammar gives.
pub open spec fn same_expr(r: Result<(Expression, usize), Token>, s: Result<(Expr, int), SpecToken>) -> bool {
    match s {
        Ok((e, p)) => r is Ok && r->Ok_0.0@ == e && r->Ok_0.1 == p,
        Err(t) => r is Err && r->Err_0@ == t,
    }
}

pub open spec fn same_exprs(
    r: Result<(Vec<Expression>, usize), Token>,
    s: Result<(Seq<Expr>, int), SpecToken>,
) -> bool {
    match s {
        Ok((e, p)) => r is Ok && exprs_view(r->Ok_0.0@) == e && r->Ok_0.1 == p,
        Err(t) => r is Err && r->Err_0@ == t,
    }
}

pub open spec fn same_pairs(
    r: Result<(Vec<(Expression, Expression)>, usize), Token>,
    s: Result<(Seq<(Expr, Expr)>, int), SpecToken>,
) -> bool {
    match s {
        Ok((e, p)) => r is Ok && pairs_view(r->Ok_0.0@) == e && r->Ok_0.1 == p,
        Err(t) => r is Err && r->Err_0@ == t,
    }
}

pub open spec fn same_stmts(
    r: Result<(Vec<Statement>, usize), Token>,
    s: Result<(Seq<Stmt>, int), SpecToken>,
) -> bool {
    match s {
        Ok((e, p)) => r is Ok && stmts_view(r->Ok_0.0@) == e && r->Ok_0.1 == p,
        Err(t) => r is Err && r->Err_0@ == t,
    }
}

pub open spec fn same_stmt(r: Result<(Statement, usize), Token>, s: Result<(Stmt, int), SpecToken>) -> bool {
    match s {
        Ok((e, p)) => r is Ok && r->Ok_0.0@ == e && r->Ok_0.1 == p,
        Err(t) => r is Err && r->Err_0@ == t,
    }
}

pub open spec fn same_names(
    r: Result<(Vec<String>, usize), Token>,
    s: Result<(Seq<Seq<char>>, int), SpecToken>,
) -> bool {
    match s {
        Ok((e, p)) => r is Ok && names_view(r->Ok_0.0@) == e && r->Ok_0.1 == p,
        Err(t) => r is Err && r->Err_0@ == t,
    }
}

proof fn lemma_exprs_push(s: Seq<Expression>, e: Expression)
    ensures
        exprs_view(s.push(e)) == exprs_view(s).push(expr_view(e)),
{
    assert(s.push(e).drop_last() =~= s);
}

proof fn lemma_pairs_push(s: Seq<(Expression, Expression)>, e: (Expression, Expression))
    ensures
        pairs_view(s.push(e)) == pairs_view(s).push((expr_view(e.0), expr_view(e.1))),
{
    assert(s.push(e).drop_last() =~= s);
}

proof fn lemma_stmts_push(s: Seq<Statement>, e: Statement)
    ensures
        stmts_view(s.push(e)) == stmts_view(s).push(stmt_view(e)),
{
    assert(s.push(e).drop_last() =~= s);
}

proof fn lemma_names_push(s: Seq<String>, e: String)
    ensures
        names_view(s.push(e)) == names_view(s).push(e@),
{
    assert(names_view(s.push(e)) =~= names_view(s).push(e@));
}

proof fn lemma_digits_prefix(s: Seq<char>, i: int)
    requires
        0 <= i <= s.len(),
        all_digits(s),
    ensures
        digits_value(s.take(i)) <= digits_value(s),
    decreases s.len() - i,
{
    if i < s.len() {
        lemma_digits_prefix(s, i + 1);
        assert(s.take(i + 1).drop_last() =~= s.take(i));
    } else {
        assert(s.take(i) =~= s);
    }
}

/// The value of an integer literal, if it is a run of digits that fits in an `i64`.
pub fn parse_int_literal(lit: &String) -> (r: Option<i64>)
    ensures
        r == int_literal_value(lit@),
{
    let cs = chars_of(lit.as_str());
    if cs.len() == 0 {
        return None;
    }
    let mut acc: i64 = 0;
    let mut i: usize = 0;
    while i < cs.len()
        invariant
            i <= cs.len(),
            cs@ == lit@,
            cs.len() > 0,
            forall|j: int| 0 <= j < i ==> '0' <= #[trigger] cs@[j] && cs@[j] <= '9',
            acc as int == digits_value(cs@.take(i as int)),
            0 <= acc,
        decreases cs.len() - i,
    {
        let c = cs[i];
        if !('0' <= c && c <= '9') {
            return None;
        }
        let d = (c as u32 - '0' as u32) as i64;
        proof {
            assert(cs@.take(i as int + 1).drop_last() =~= cs@.take(i as int));
        }
        if acc > (i64::MAX - d) / 10 {
            proof {
                assert(acc * 10 + d > i64::MAX) by (nonlinear_arith)
                    requires
                        acc > (i64::MAX - d) / 10,
                        0 <= d <= 9,
                ;
                assert(digits_value(cs@.take(i as int + 1)) > i64::MAX);
                if all_digits(cs@) {
                    lemma_digits_prefix(cs@, i as int + 1);
                }
            }
            return None;
        }
        assert(acc * 10 + d <= i64::MAX) by (nonlinear_arith)
            requires
                acc <= (i64::MAX - d) / 10,
                0 <= d <= 9,
                0 <= acc,
        ;
        acc = acc * 10 + d;
        i = i + 1;
    }
    assert(cs@.take(cs.len() as int) =~= cs@);
    Some(acc)
}

/// A Pratt parser over the tokens of one source text.
#[derive(Debug)]
pub struct Parser {
    tokens: Vec<Token>,
    position: usize,
}

impl Parser {
    /// The tokens being parsed, ending with `EOF`.
    pub closed spec fn token_seq(&self) -> Seq<SpecToken> {
        self.tokens@.map_values(|t: Token| t@)
    }

    /// The index of the current token.
    pub closed spec fn pos(&self) -> nat {
        self.position as nat
    }

    /// A parser over every token that `l` has yet to hand out.
    pub fn new(l: Lexer) -> (p: Parser)
        requires
            l.wf(),
        ensures
            p.token_seq() == tokens_from(l.source(), l.pos()),
            p.pos() == 0,
    {
        let mut lexer = l;
        let ghost src = l.source();
        proof {
            l.lemma_pos_bounded();
        }
        let mut tokens: Vec<Token> = Vec::new();
        loop
            invariant_except_break
                lexer.wf(),
                lexer.source() == src,
                lexer.pos() <= src.len(),
                tokens@.map_values(|t: Token| t@) + tokens_from(src, lexer.pos()) == tokens_from(
                    src,
                    l.pos(),
                ),
            ensures
                tokens@.map_values(|t: Token| t@) == tokens_from(src, l.pos()),
            decreases src.len() - lexer.pos(),
        {
            let ghost before = lexer.pos();
            let t = lexer.next_token();
            proof {
                lemma_lex_advances(src, before);
                assert(tokens@.push(t).map_values(|t: Token| t@) =~= tokens@.map_values(
                    |t: Token| t@,
                ).push(t@));
            }
            let eof = t.token_type == TokenKind::EOF;
            tokens.push(t);
            if eof {
                proof {
                    assert(tokens_from(src, before) == seq![t@]);
                    assert(tokens@.map_values(|t: Token| t@) =~= tokens_from(src, l.pos()));
                }
                break;
            }
            proof {
                assert(tokens_from(src, before) == seq![t@] + tokens_from(src, lexer.pos()));
                assert(tokens@.map_values(|t: Token| t@) + tokens_from(src, lexer.pos())
                    =~= tokens_from(src, l.pos()));
            }
        }
        Parser { tokens, position: 0 }
    }

    /// Moves to the next token; the last token, `EOF`, is never passed.
    pub fn next_token(&mut self)
        ensures
            final(self).token_seq() == old(self).token_seq(),
            final(self).pos() == if old(self).pos() + 1 < old(self).token_seq().len() {
                old(self).pos() + 1
            } else {
                old(self).pos()
            },
    {
        if self.position < self.tokens.len() && self.tokens.len() - self.position > 1 {
            self.position = self.position + 1;
        }
    }

    fn kind_at(&self, i: usize, k: usize) -> (r: TokenKind)
        ensures
            r == kind_at(self.token_seq(), i + k),
            r != TokenKind::EOF ==> i + k < self.tokens.len(),
            self.token_seq().len() == self.tokens.len(),
    {
        if i < self.tokens.len() && k < self.tokens.len() - i {
            self.tokens[i + k].token_type
        } else {
            TokenKind::EOF
        }
    }

    fn token_at(&self, i: usize, k: usize) -> (r: Token)
        ensures
            r@ == at(self.token_seq(), i + k),
    {
        if i < self.tokens.len() && k < self.tokens.len() - i {
            self.tokens[i + k].duplicate()
        } else {
            Token { token_type: TokenKind::EOF, literal: String::new() }
        }
    }

    fn parse_expression(&self, pos: usize, prec: u8) -> (r: Result<(Expression, usize), Token>)
        ensures
            same_expr(r, parse_expr(self.token_seq(), pos as int, prec as nat)),
        decreases self.token_seq().len() - pos, 3nat,
    {
        if pos >= self.tokens.len() {
            return Err(self.token_at(pos, 0));
        }
        match self.parse_prefix(pos) {
            Err(t) => Err(t),
            Ok((left, p)) => {
                if pos < p && p <= self.tokens.len() {
                    self.parse_infix_loop(left, p, prec)
                } else {
                    Err(self.token_at(pos, 0))
                }
            },
        }
    }

    fn parse_infix_loop(&self, left: Expression, pos: usize, prec: u8) -> (r: Result<
        (Expression, usize),
        Token,
    >)
        ensures
            same_expr(r, parse_infix_loop(self.token_seq(), left@, pos as int, prec as nat)),
        decreases self.token_seq().len() - pos, 0nat,
    {
        if pos >= self.tokens.len() {
            return Err(self.token_at(pos, 0));
        }
        let t = self.token_at(pos, 0);
        let kind = t.token_type;
        let level = t.get_precedence().level();
        if kind == TokenKind::SEMICOLON || prec >= level {
            return Ok((left, pos));
        }
        if kind == TokenKind::LPAREN {
            match self.parse_expr_list(pos + 1, TokenKind::RPAREN) {
                Err(e) => Err(e),
                Ok((args, p)) => {
                    if pos < p && p <= self.tokens.len() {
                        let call = Expression::CallExpression { function: Box::new(left), body: args };
                        self.parse_infix_loop(call, p, prec)
                    } else {
                        Err(t)
                    }
                },
            }
        } else if kind == TokenKind::LBRACKET {
            match self.parse_expression(pos + 1, 0) {
                Err(e) => Err(e),
                Ok((key, p)) => {
                    if self.kind_at(p, 0) != TokenKind::RBRACKET {
                        Err(self.token_at(p, 0))
                    } else if pos < p + 1 && p + 1 <= self.tokens.len() {
                        let index = Expression::IndexExpression {
                            left: Box::new(left),
                            right: Box::new(key),
                        };
                        self.parse_infix_loop(index, p + 1, prec)
                    } else {
                        Err(t)
                    }
                },
            }
        } else {
            match self.parse_expression(pos + 1, level) {
                Err(e) => Err(e),
                Ok((right, p)) => {
                    if pos < p && p <= self.tokens.len() {
                        let infix = Expression::InfixExpression {
                            left_expression: Box::new(left),
                            operator: kind,
                            right_expression: Box::new(right),
                        };
                        self.parse_infix_loop(infix, p, prec)
                    } else {
                        Err(t)
                    }
                },
            }
        }
    }

    fn parse_prefix(&self, pos: usize) -> (r: Result<(Expression, usize), Token>)
        ensures
            same_expr(r, parse_prefix(self.token_seq(), pos as int)),
        decreases self.token_seq().len() - pos, 2nat,
    {
        if pos >= self.tokens.len() {
            return Err(self.token_at(pos, 0));
        }
        let t = self.token_at(pos, 0);
        match t.token_type {
            TokenKind::IDENT => Ok((Expression::Identifier(t.literal), pos + 1)),
            TokenKind::INT => match parse_int_literal(&t.literal) {
                Some(v) => Ok((Expression::Integer(v), pos + 1)),
                None => Err(t),
            },
            TokenKind::STRING => Ok((Expression::String(t.literal), pos + 1)),
            TokenKind::TRUE => Ok((Expression::Bool(true), pos + 1)),
            TokenKind::FALSE => Ok((Expression::Bool(false), pos + 1)),
            TokenKind::BANG | TokenKind::MINUS => match self.parse_expression(
                pos + 1,
                Precedence::PREFIX.level(),
            ) {
                Err(e) => Err(e),
                Ok((right, p)) => Ok(
                    (
                        Expression::PrefixExpression {
                            operator: t.token_type,
                            right_expression: Box::new(right),
                        },
                        p,
                    ),
                ),
            },
            TokenKind::LPAREN => match self.parse_expression(pos + 1, 0) {
                Err(e) => Err(e),
                Ok((inner, p)) => {
                    if self.kind_at(p, 0) == TokenKind::RPAREN {
                        Ok((inner, p + 1))
                    } else {
                        Err(self.token_at(p, 0))
                    }
                },
            },
            TokenKind::IF => self.parse_if_expression(pos),
            TokenKind::FUNCTION => self.parse_function_expression(pos),
            TokenKind::LBRACKET => match self.parse_expr_list(pos + 1, TokenKind::RBRACKET) {
                Err(e) => Err(e),
                Ok((elems, p)) => Ok((Expression::Array(elems), p)),
            },
            TokenKind::LBRACE => match self.parse_hash(pos + 1) {
                Err(e) => Err(e),
                Ok((pairs, p)) => Ok((Expression::Hash(pairs), p)),
            },
            _ => Err(t),
        }
    }

    fn parse_if_expression(&self, pos: usize) -> (r: Result<(Expression, usize), Token>)
        ensures
            same_expr(r, parse_if(self.token_seq(), pos as int)),
        decreases self.token_seq().len() - pos, 1nat,
    {
        if pos >= self.tokens.len() {
            return Err(self.token_at(pos, 0));
        }
        if self.kind_at(pos, 1) != TokenKind::LPAREN {
            return Err(self.token_at(pos, 1));
        }
        let (cond, p) = match self.parse_expression(pos + 2, 0) {
            Err(e) => return Err(e),
            Ok(x) => x,
        };
        if self.kind_at(p, 0) != TokenKind::RPAREN {
            return Err(self.token_at(p, 0));
        }
        if self.kind_at(p, 1) != TokenKind::LBRACE {
            return Err(self.token_at(p, 1));
        }
        if !(pos < p + 2 && p + 2 <= self.tokens.len()) {
            return Err(self.token_at(pos, 0));
        }
        let (cons, q) = match self.parse_block(p + 2, Vec::new()) {
            Err(e) => return Err(e),
            Ok(x) => x,
        };
        proof {
            assert(stmts_view(Seq::<Statement>::empty()) == Seq::<Stmt>::empty());
        }
        let ghost cv = stmts_view(cons@);
        let consequence = Statement::Block(cons);
        assert(consequence@ == Stmt::Block(cv));
        if self.kind_at(q, 0) != TokenKind::ELSE {
            return Ok(
                (
                    Expression::IfExpression {
                        condition: Box::new(cond),
                        consequence: Box::new(consequence),
                        alternative: None,
                    },
                    q,
                ),
            );
        }
        if self.kind_at(q, 1) != TokenKind::LBRACE {
            return Err(self.token_at(q, 1));
        }
        if !(pos < q + 2 && q + 2 <= self.tokens.len()) {
            return Err(self.token_at(pos, 0));
        }
        match self.parse_block(q + 2, Vec::new()) {
            Err(e) => Err(e),
            Ok((alt, r)) => {
                let ghost av = stmts_view(alt@);
                let alternative = Statement::Block(alt);
                assert(alternative@ == Stmt::Block(av));
                Ok(
                    (
                        Expression::IfExpression {
                            condition: Box::new(cond),
                            consequence: Box::new(consequence),
                            alternative: Some(Box::new(alternative)),
                        },
                        r,
                    ),
                )
            },
        }
    }

    fn parse_function_expression(&self, pos: usize) -> (r: Result<(Expression, usize), Token>)
        ensures
            same_expr(r, parse_function(self.token_seq(), pos as int)),
        decreases self.token_seq().len() - pos, 1nat,
    {
        if pos >= self.tokens.len() {
            return Err(self.token_at(pos, 0));
        }
        if self.kind_at(pos, 1) != TokenKind::LPAREN {
            return Err(self.token_at(pos, 1));
        }
        let (names, p) = match self.parse_function_parameters(pos + 2) {
            Err(e) => return Err(e),
            Ok(x) => x,
        };
        if self.kind_at(p, 0) != TokenKind::LBRACE {
            return Err(self.token_at(p, 0));
        }
        if !(pos < p + 1 && p + 1 <= self.tokens.len()) {
            return Err(self.token_at(pos, 0));
        }
        proof {
            assert(stmts_view(Seq::<Statement>::empty()) == Seq::<Stmt>::empty());
        }
        match self.parse_block(p + 1, Vec::new()) {
            Err(e) => Err(e),
            Ok((body, q)) => {
                let ghost bv = stmts_view(body@);
                let block = Statement::Block(body);
                assert(block@ == Stmt::Block(bv));
                Ok(
                    (
                        Expression::FunctionLiteral {
                            parameters: Rc::new(names),
                            body: Rc::new(block),
                        },
                        q,
                    ),
                )
            },
        }
    }

    fn parse_function_parameters(&self, pos: usize) -> (r: Result<(Vec<String>, usize), Token>)
        requires
            pos <= self.token_seq().len(),
        ensures
            same_names(r, parse_params(self.token_seq(), pos as int)),
    {
        if self.kind_at(pos, 0) == TokenKind::RPAREN {
            proof {
                assert(names_view(Seq::<String>::empty()) =~= Seq::<Seq<char>>::empty());
            }
            return Ok((Vec::new(), pos + 1));
        }
        let mut names: Vec<String> = Vec::new();
        let mut i = pos;
        proof {
            assert(names_view(names@) =~= Seq::<Seq<char>>::empty());
        }
        loop
            invariant
                parse_params_rest(self.token_seq(), i as int, names_view(names@)) == parse_params(
                    self.token_seq(),
                    pos as int,
                ),
            decreases self.token_seq().len() - i,
        {
            if i >= self.tokens.len() {
                return Err(self.token_at(i, 0));
            }
            let t = self.token_at(i, 0);
            if t.token_type != TokenKind::IDENT {
                return Err(t);
            }
            proof {
                lemma_names_push(names@, t.literal);
            }
            names.push(t.literal);
            if self.kind_at(i, 1) == TokenKind::COMMA {
                i = i + 2;
            } else if self.kind_at(i, 1) == TokenKind::RPAREN {
                return Ok((names, i + 2));
            } else {
                return Err(self.token_at(i, 1));
            }
        }
    }

    fn parse_expr_list(&self, pos: usize, closer: TokenKind) -> (r: Result<
        (Vec<Expression>, usize),
        Token,
    >)
        ensures
            same_exprs(r, parse_expr_list(self.token_seq(), pos as int, closer)),
        decreases self.token_seq().len() - pos, 4nat,
    {
        if pos >= self.tokens.len() {
            return Err(self.token_at(pos, 0));
        }
        if self.kind_at(pos, 0) == closer {
            proof {
                assert(exprs_view(Seq::<Expression>::empty()) == Seq::<Expr>::empty());
            }
            return Ok((Vec::new(), pos + 1));
        }
        match self.parse_expression(pos, 0) {
            Err(e) => Err(e),
            Ok((first, p)) => {
                if pos < p && p <= self.tokens.len() {
                    let mut acc: Vec<Expression> = Vec::new();
                    proof {
                        lemma_exprs_push(acc@, first);
                        assert(acc@.push(first).drop_last() =~= acc@);
                    }
                    acc.push(first);
                    proof {
                        assert(exprs_view(acc@) =~= seq![expr_view(first)]);
                    }
                    self.parse_list_rest(p, closer, acc)
                } else {
                    Err(self.token_at(pos, 0))
                }
            },
        }
    }

    fn parse_list_rest(&self, pos: usize, closer: TokenKind, acc: Vec<Expression>) -> (r: Result<
        (Vec<Expression>, usize),
        Token,
    >)
        ensures
            same_exprs(r, parse_list_rest(self.token_seq(), pos as int, closer, exprs_view(acc@))),
        decreases self.token_seq().len() - pos, 0nat,
    {
        if pos >= self.tokens.len() {
            return Err(self.token_at(pos, 0));
        }
        let k = self.kind_at(pos, 0);
        if k == TokenKind::COMMA {
            match self.parse_expression(pos + 1, 0) {
                Err(e) => Err(e),
                Ok((e, p)) => {
                    if pos < p && p <= self.tokens.len() {
                        let mut acc = acc;
                        proof {
                            lemma_exprs_push(acc@, e);
                        }
                        acc.push(e);
                        self.parse_list_rest(p, closer, acc)
                    } else {
                        Err(self.token_at(pos, 0))
                    }
                },
            }
        } else if k == closer {
            Ok((acc, pos + 1))
        } else {
            Err(self.token_at(pos, 0))
        }
    }

    fn parse_hash(&self, pos: usize) -> (r: Result<(Vec<(Expression, Expression)>, usize), Token>)
        ensures
            same_pairs(r, parse_hash(self.token_seq(), pos as int)),
        decreases self.token_seq().len() - pos, 5nat,
    {
        if pos >= self.tokens.len() {
            return Err(self.token_at(pos, 0));
        }
        proof {
            assert(pairs_view(Seq::<(Expression, Expression)>::empty()) == Seq::<
                (Expr, Expr),
            >::empty());
        }
        if self.kind_at(pos, 0) == TokenKind::RBRACE {
            return Ok((Vec::new(), pos + 1));
        }
        self.parse_hash_rest(pos, Vec::new())
    }

    fn parse_hash_rest(&self, pos: usize, acc: Vec<(Expression, Expression)>) -> (r: Result<
        (Vec<(Expression, Expression)>, usize),
        Token,
    >)
        ensures
            same_pairs(r, parse_hash_rest(self.token_seq(), pos as int, pairs_view(acc@))),
        decreases self.token_seq().len() - pos, 4nat,
    {
        if pos >= self.tokens.len() {
            return Err(self.token_at(pos, 0));
        }
        let (k, p) = match self.parse_expression(pos, 0) {
            Err(e) => return Err(e),
            Ok(x) => x,
        };
        if self.kind_at(p, 0) != TokenKind::COLON {
            return Err(self.token_at(p, 0));
        }
        if !(pos < p + 1 && p + 1 <= self.tokens.len()) {
            return Err(self.token_at(pos, 0));
        }
        let (v, q) = match self.parse_expression(p + 1, 0) {
            Err(e) => return Err(e),
            Ok(x) => x,
        };
        let mut acc = acc;
        proof {
            lemma_pairs_push(acc@, (k, v));
        }
        acc.push((k, v));
        if self.kind_at(q, 0) == TokenKind::RBRACE {
            return Ok((acc, q + 1));
        }
        if self.kind_at(q, 0) != TokenKind::COMMA {
            return Err(self.token_at(q, 0));
        }
        if !(pos < q + 1 && q + 1 <= self.tokens.len()) {
            return Err(self.token_at(pos, 0));
        }
        self.parse_hash_rest(q + 1, acc)
    }

    fn parse_block(&self, pos: usize, acc: Vec<Statement>) -> (r: Result<(Vec<Statement>, usize), Token>)
        ensures
            same_stmts(r, parse_block(self.token_seq(), pos as int, stmts_view(acc@))),
        decreases self.token_seq().len() - pos, 5nat,
    {
        if pos >= self.tokens.len() {
            return Err(self.token_at(pos, 0));
        }
        let k = self.kind_at(pos, 0);
        if k == TokenKind::RBRACE {
            return Ok((acc, pos + 1));
        }
        if k == TokenKind::EOF {
            return Err(self.token_at(pos, 0));
        }
        match self.parse_statement(pos) {
            Err(e) => Err(e),
            Ok((s, p)) => {
                if pos < p && p <= self.tokens.len() {
                    let mut acc = acc;
                    proof {
                        lemma_stmts_push(acc@, s);
                    }
                    acc.push(s);
                    self.parse_block(p, acc)
                } else {
                    Err(self.token_at(pos, 0))
                }
            },
        }
    }

    fn skip_semicolon(&self, p: usize) -> (r: usize)
        ensures
            r == skip_semicolon(self.token_seq(), p as int),
    {
        if self.kind_at(p, 0) == TokenKind::SEMICOLON {
            p + 1
        } else {
            p
        }
    }

    fn parse_statement(&self, pos: usize) -> (r: Result<(Statement, usize), Token>)
        ensures
            same_stmt(r, parse_statement(self.token_seq(), pos as int)),
        decreases self.token_seq().len() - pos, 4nat,
    {
        if pos >= self.tokens.len() {
            return Err(self.token_at(pos, 0));
        }
        let k = self.kind_at(pos, 0);
        if k == TokenKind::LET {
            self.parse_let_statement(pos)
        } else if k == TokenKind::RETURN {
            match self.parse_expression(pos + 1, 0) {
                Err(e) => Err(e),
                Ok((v, p)) => Ok((Statement::Return(v), self.skip_semicolon(p))),
            }
        } else {
            match self.parse_expression(pos, 0) {
                Err(e) => Err(e),
                Ok((v, p)) => Ok((Statement::ExpressionStatement(v), self.skip_semicolon(p))),
            }
        }
    }

    fn parse_let_statement(&self, pos: usize) -> (r: Result<(Statement, usize), Token>)
        requires
            pos < self.token_seq().len(),
            kind_at(self.token_seq(), pos as int) == TokenKind::LET,
        ensures
            same_stmt(r, parse_statement(self.token_seq(), pos as int)),
        decreases self.token_seq().len() - pos, 3nat,
    {
        if self.kind_at(pos, 1) != TokenKind::IDENT {
            return Err(self.token_at(pos, 1));
        }
        if self.kind_at(pos, 2) != TokenKind::ASSIGN {
            return Err(self.token_at(pos, 2));
        }
        let name = self.token_at(pos, 1);
        match self.parse_expression(pos + 3, 0) {
            Err(e) => Err(e),
            Ok((v, p)) => Ok(
                (Statement::LetStatement { identifier: name.literal, value: v }, self.skip_semicolon(p)),
            ),
        }
    }

    /// Parses every statement up to `EOF`; the first token that fits no
    /// rule of the grammar is the error.
    pub fn parse_program(&mut self) -> (r: Result<Program, Errors>)
        ensures
            final(self).token_seq() == old(self).token_seq(),
            match parse_statements(old(self).token_seq(), old(self).pos() as int, seq![]) {
                Ok(stmts) => r is Ok && r->Ok_0@ == stmts,
                Err(t) => r is Err && r->Err_0 is TokenInvalid && r->Err_0->TokenInvalid_0@ == t,
            },
    {
        let mut statements: Vec<Statement> = Vec::new();
        let mut pos = self.position;
        proof {
            assert(stmts_view(statements@) =~= Seq::<Stmt>::empty());
        }
        loop
            invariant
                self.token_seq() == old(self).token_seq(),
                parse_statements(self.token_seq(), pos as int, stmts_view(statements@))
                    == parse_statements(old(self).token_seq(), old(self).pos() as int, seq![]),
            decreases self.token_seq().len() - pos,
        {
            if pos >= self.tokens.len() {
                return Err(Errors::TokenInvalid(self.token_at(pos, 0)));
            }
            if self.kind_at(pos, 0) == TokenKind::EOF {
                self.position = pos;
                return Ok(Program { statements });
            }
            match self.parse_statement(pos) {
                Err(e) => {
                    return Err(Errors::TokenInvalid(e));
                },
                Ok((s, p)) => {
                    if pos < p && p <= self.tokens.len() {
                        proof {
                            lemma_stmts_push(statements@, s);
                        }
                        statements.push(s);
                        pos = p;
                    } else {
                        return Err(Errors::TokenInvalid(self.token_at(pos, 0)));
                    }
                },
            }
        }
    }
}

/// Scans and parses a whole source text.
pub fn parse(input: &str) -> (r: Result<Program, Errors>)
    ensures
        match parse_source(input@) {
            Ok(stmts) => r is Ok && r->Ok_0@ == stmts,
            Err(t) => r is Err && r->Err_0 is TokenInvalid && r->Err_0->TokenInvalid_0@ == t,
        },
{
    let lexer = Lexer::new(input);
    let mut parser = Parser::new(lexer);
    parser.parse_program()
}

} // verus!
