use vstd::prelude::*;
use crate::ast::{program_text, Expr, Stmt};
use crate::grammar::{
    all_digits, at, int_literal_value, kind_at, parse_block, parse_expr, parse_expr_list,
    parse_function, parse_hash, parse_hash_rest, parse_if, parse_infix_loop, parse_list_rest,
    parse_params, parse_params_rest, parse_prefix, parse_statement, parse_statements, parse_tokens, parse_source,
};
use crate::lexer::{
    lemma_lex_advances,
    digits_end, is_digit_char, is_letter_char, is_space_char, letters_end, lex_at, mk_token,
    skip_space, string_end, tokens_from, char_at,
};
use crate::token::keyword_kind;
use crate::basics::{digit_char, digits_value, int_text, nat_text};
use crate::token::{precedence_of, Precedence, SpecToken, TokenKind};

verus! {

broadcast use vstd::seq::axiom_seq_index_decreases, vstd::seq::axiom_seq_subrange_decreases;

/// The source text of a token of fixed spelling.
pub open spec fn symbol_text(k: TokenKind) -> Seq<char> {
    match k {
        TokenKind::LPAREN => seq!['('],
        TokenKind::RPAREN => seq![')'],
        TokenKind::LBRACE => seq!['{'],
        TokenKind::RBRACE => seq!['}'],
        TokenKind::LBRACKET => seq!['['],
        TokenKind::RBRACKET => seq![']'],
        TokenKind::COMMA => seq![','],
        TokenKind::COLON => seq![':'],
        TokenKind::SEMICOLON => seq![';'],
        TokenKind::ASSIGN => seq!['='],
        TokenKind::PLUS => seq!['+'],
        TokenKind::MINUS => seq!['-'],
        TokenKind::ASTERISK => seq!['*'],
        TokenKind::SLASH => seq!['/'],
        TokenKind::LT => seq!['<'],
        TokenKind::GT => seq!['>'],
        TokenKind::EQ => seq!['=', '='],
        TokenKind::NotEq => seq!['!', '='],
        TokenKind::BANG => seq!['!'],
        TokenKind::LET => seq!['l', 'e', 't'],
        TokenKind::RETURN => seq!['r', 'e', 't', 'u', 'r', 'n'],
        TokenKind::IF => seq!['i', 'f'],
        TokenKind::ELSE => seq!['e', 'l', 's', 'e'],
        TokenKind::FUNCTION => seq!['f', 'n'],
        TokenKind::TRUE => seq!['t', 'r', 'u', 'e'],
        TokenKind::FALSE => seq!['f', 'a', 'l', 's', 'e'],
        _ => seq![],
    }
}

pub open spec fn sym(k: TokenKind) -> SpecToken {
    mk_token(k, symbol_text(k))
}

pub open spec fn is_infix_operator(op: TokenKind) -> bool {
    op == TokenKind::PLUS || op == TokenKind::MINUS || op == TokenKind::ASTERISK || op
        == TokenKind::SLASH || op == TokenKind::LT || op == TokenKind::GT || op == TokenKind::EQ
        || op == TokenKind::NotEq
}

/// The trees that the parser can produce: integer literals are not negative,
/// operators are ones the grammar has, the bodies of `if` and `fn` are blocks,
/// and blocks hold no blocks directly.
pub open spec fn wf_expr(e: Expr) -> bool
    decreases e,
{
    match e {
        Expr::Int(i) => i >= 0,
        Expr::Array(es) => wf_exprs(es),
        Expr::Hash(ps) => wf_pairs(ps),
        Expr::Index(l, k) => wf_expr(*l) && wf_expr(*k),
        Expr::Prefix(op, r) => (op == TokenKind::BANG || op == TokenKind::MINUS) && wf_expr(*r),
        Expr::Infix(l, op, r) => is_infix_operator(op) && wf_expr(*l) && wf_expr(*r),
        Expr::If(c, t, a) => wf_expr(*c) && wf_block(*t) && match a {
            Some(a) => wf_block(*a),
            None => true,
        },
        Expr::Func(_, b) => wf_block(*b),
        Expr::Call(f, args) => wf_expr(*f) && wf_exprs(args),
        _ => true,
    }
}

pub open spec fn wf_exprs(es: Seq<Expr>) -> bool
    decreases es,
{
    es.len() > 0 ==> wf_expr(es[0]) && wf_exprs(es.drop_first())
}

pub open spec fn wf_pairs(ps: Seq<(Expr, Expr)>) -> bool
    decreases ps,
{
    ps.len() > 0 ==> wf_expr(ps[0].0) && wf_expr(ps[0].1) && wf_pairs(ps.drop_first())
}

pub open spec fn wf_block(s: Stmt) -> bool
    decreases s,
{
    match s {
        Stmt::Block(ss) => wf_stmts(ss),
        _ => false,
    }
}

pub open spec fn wf_stmt(s: Stmt) -> bool
    decreases s,
{
    match s {
        Stmt::Let(_, e) => wf_expr(e),
        Stmt::Return(e) => wf_expr(e),
        Stmt::Expression(e) => wf_expr(e),
        Stmt::Block(_) => false,
    }
}

pub open spec fn wf_stmts(ss: Seq<Stmt>) -> bool
    decreases ss,
{
    ss.len() > 0 ==> wf_stmt(ss[0]) && wf_stmts(ss.drop_first())
}

/// The tokens of an expression with every compound part in parentheses.
pub open spec fn expr_tokens(e: Expr) -> Seq<SpecToken>
    decreases e,
{
    match e {
        Expr::Ident(n) => seq![mk_token(TokenKind::IDENT, n)],
        Expr::Int(i) => seq![mk_token(TokenKind::INT, int_text(i as int))],
        Expr::Str(s) => seq![mk_token(TokenKind::STRING, s)],
        Expr::Bool(b) => seq![sym(if b { TokenKind::TRUE } else { TokenKind::FALSE })],
        Expr::Array(es) => seq![sym(TokenKind::LBRACKET)] + list_tokens(es) + seq![sym(TokenKind::RBRACKET)],
        Expr::Hash(ps) => seq![sym(TokenKind::LBRACE)] + pairs_tokens(ps) + seq![sym(TokenKind::RBRACE)],
        Expr::Index(l, k) => seq![sym(TokenKind::LPAREN)] + expr_tokens(*l) + seq![sym(TokenKind::LBRACKET)]
            + expr_tokens(*k) + seq![sym(TokenKind::RBRACKET), sym(TokenKind::RPAREN)],
        Expr::Prefix(op, r) => seq![sym(TokenKind::LPAREN), sym(op)] + expr_tokens(*r) + seq![sym(TokenKind::RPAREN)],
        Expr::Infix(l, op, r) => seq![sym(TokenKind::LPAREN)] + expr_tokens(*l) + seq![sym(op)] + expr_tokens(*r)
            + seq![sym(TokenKind::RPAREN)],
        Expr::If(c, t, a) => seq![sym(TokenKind::LPAREN), sym(TokenKind::IF), sym(TokenKind::LPAREN)]
            + expr_tokens(*c) + seq![sym(TokenKind::RPAREN), sym(TokenKind::LBRACE)] + block_tokens(*t)
            + seq![sym(TokenKind::RBRACE)] + match a {
            Some(a) => seq![sym(TokenKind::ELSE), sym(TokenKind::LBRACE)] + block_tokens(*a) + seq![sym(TokenKind::RBRACE)],
            None => seq![],
        } + seq![sym(TokenKind::RPAREN)],
        Expr::Func(ps, b) => seq![sym(TokenKind::LPAREN), sym(TokenKind::FUNCTION), sym(TokenKind::LPAREN)]
            + params_tokens(ps) + seq![sym(TokenKind::RPAREN), sym(TokenKind::LBRACE)] + block_tokens(*b)
            + seq![sym(TokenKind::RBRACE), sym(TokenKind::RPAREN)],
        Expr::Call(f, args) => seq![sym(TokenKind::LPAREN)] + expr_tokens(*f) + seq![sym(TokenKind::LPAREN)]
            + list_tokens(args) + seq![sym(TokenKind::RPAREN), sym(TokenKind::RPAREN)],
    }
}

/// Expressions separated by commas.
pub open spec fn list_tokens(es: Seq<Expr>) -> Seq<SpecToken>
    decreases es,
{
    if es.len() == 0 {
        seq![]
    } else {
        expr_tokens(es[0]) + rest_tokens(es.drop_first())
    }
}

/// Each expression preceded by a comma.
pub open spec fn rest_tokens(es: Seq<Expr>) -> Seq<SpecToken>
    decreases es,
{
    if es.len() == 0 {
        seq![]
    } else {
        seq![sym(TokenKind::COMMA)] + expr_tokens(es[0]) + rest_tokens(es.drop_first())
    }
}

/// Hash entries `k : v` separated by commas.
pub open spec fn pairs_tokens(ps: Seq<(Expr, Expr)>) -> Seq<SpecToken>
    decreases ps,
{
    if ps.len() == 0 {
        seq![]
    } else {
        expr_tokens(ps[0].0) + seq![sym(TokenKind::COLON)] + expr_tokens(ps[0].1) + if ps.len() == 1 {
            seq![]
        } else {
            seq![sym(TokenKind::COMMA)] + pairs_tokens(ps.drop_first())
        }
    }
}

/// Parameter names separated by commas.
pub open spec fn params_tokens(ps: Seq<Seq<char>>) -> Seq<SpecToken>
    decreases ps.len(),
{
    if ps.len() == 0 {
        seq![]
    } else if ps.len() == 1 {
        seq![mk_token(TokenKind::IDENT, ps[0])]
    } else {
        seq![mk_token(TokenKind::IDENT, ps[0]), sym(TokenKind::COMMA)] + params_tokens(ps.drop_first())
    }
}

pub open spec fn block_tokens(s: Stmt) -> Seq<SpecToken>
    decreases s,
{
    match s {
        Stmt::Block(ss) => stmts_tokens(ss),
        _ => seq![],
    }
}

/// The tokens of a statement, ending with a semicolon.
pub open spec fn stmt_tokens(s: Stmt) -> Seq<SpecToken>
    decreases s,
{
    match s {
        Stmt::Let(n, e) => seq![sym(TokenKind::LET), mk_token(TokenKind::IDENT, n), sym(TokenKind::ASSIGN)]
            + expr_tokens(e) + seq![sym(TokenKind::SEMICOLON)],
        Stmt::Return(e) => seq![sym(TokenKind::RETURN)] + expr_tokens(e) + seq![sym(TokenKind::SEMICOLON)],
        Stmt::Expression(e) => expr_tokens(e) + seq![sym(TokenKind::SEMICOLON)],
        Stmt::Block(_) => seq![],
    }
}

pub open spec fn stmts_tokens(ss: Seq<Stmt>) -> Seq<SpecToken>
    decreases ss,
{
    if ss.len() == 0 {
        seq![]
    } else {
        stmt_tokens(ss[0]) + stmts_tokens(ss.drop_first())
    }
}

/// The token form of a program: its statements, then `EOF`.
pub open spec fn program_tokens(p: Seq<Stmt>) -> Seq<SpecToken> {
    stmts_tokens(p) + seq![sym(TokenKind::EOF)]
}

/// `s` stands in `ts` from position `pos` on.
pub open spec fn tokens_at(ts: Seq<SpecToken>, pos: int, s: Seq<SpecToken>) -> bool {
    0 <= pos && pos + s.len() <= ts.len() && forall|i: int|
        0 <= i < s.len() ==> #[trigger] ts[pos + i] == s[i]
}

proof fn lemma_split(ts: Seq<SpecToken>, pos: int, a: Seq<SpecToken>, b: Seq<SpecToken>)
    requires
        tokens_at(ts, pos, a + b),
    ensures
        tokens_at(ts, pos, a),
        tokens_at(ts, pos + a.len(), b),
{
    assert forall|i: int| 0 <= i < a.len() implies #[trigger] ts[pos + i] == a[i] by {
        assert((a + b)[i] == a[i]);
    }
    assert forall|j: int| 0 <= j < b.len() implies #[trigger] ts[pos + a.len() + j] == b[j] by {
        assert((a + b)[a.len() + j] == b[j]);
        assert(pos + (a.len() + j) == pos + a.len() + j);
    }
}

proof fn lemma_kind(ts: Seq<SpecToken>, pos: int, s: Seq<SpecToken>, i: int)
    requires
        tokens_at(ts, pos, s),
        0 <= i < s.len(),
    ensures
        at(ts, pos + i) == s[i],
{
    assert(ts[pos + i] == s[i]);
}

proof fn lemma_digits_push(s: Seq<char>, c: char)
    ensures
        digits_value(s.push(c)) == digits_value(s) * 10 + (c as u32 - '0' as u32) as nat,
{
    assert(s.push(c).drop_last() =~= s);
}

proof fn lemma_nat_text_value(n: nat)
    ensures
        nat_text(n).len() > 0,
        all_digits(nat_text(n)),
        digits_value(nat_text(n)) == n,
    decreases n,
{
    if n >= 10 {
        lemma_nat_text_value(n / 10);
        let s = nat_text(n / 10);
        let d = (n % 10) as int;
        let c = digit_char(d);
        assert(c as u32 - '0' as u32 == d);
        assert(nat_text(n) == s.push(c));
        lemma_digits_push(s, c);
        assert(digits_value(s.push(c)) == (n / 10) * 10 + d);
        assert((n / 10) * 10 + n % 10 == n);
        assert forall|i: int| 0 <= i < s.push(c).len() implies '0' <= #[trigger] s.push(c)[i]
            && s.push(c)[i] <= '9' by {
            if i < s.len() {
                assert(s.push(c)[i] == s[i]);
            }
        }
    } else {
        let c = digit_char(n as int);
        assert(c as u32 - '0' as u32 == n);
        assert(nat_text(n) == seq![c]);
        assert(seq![c] == Seq::<char>::empty().push(c));
        lemma_digits_push(Seq::<char>::empty(), c);
    }
}

proof fn lemma_int_literal(i: i64)
    requires
        i >= 0,
    ensures
        int_literal_value(int_text(i as int)) == Some(i),
{
    lemma_nat_text_value(i as nat);
}

/// The first token of an expression's token form can start an expression and
/// is none of the tokens that end a list, a block or a hash.
proof fn lemma_first_token(e: Expr)
    ensures
        expr_tokens(e).len() > 0,
        expr_tokens(e)[0].kind != TokenKind::RPAREN,
        expr_tokens(e)[0].kind != TokenKind::RBRACKET,
        expr_tokens(e)[0].kind != TokenKind::RBRACE,
        expr_tokens(e)[0].kind != TokenKind::EOF,
        expr_tokens(e)[0].kind != TokenKind::LET,
        expr_tokens(e)[0].kind != TokenKind::RETURN,
{
}

/// Parsing the token form of a well-formed expression as an operand gives the
/// expression back and stops right after its tokens.
proof fn lemma_parse_prefix_tokens(ts: Seq<SpecToken>, pos: int, e: Expr)
    requires
        wf_expr(e),
        tokens_at(ts, pos, expr_tokens(e)),
        pos + expr_tokens(e).len() < ts.len(),
    ensures
        parse_prefix(ts, pos) == Ok::<(Expr, int), SpecToken>((e, pos + expr_tokens(e).len())),
    decreases e, 1nat,
{
    let n = expr_tokens(e).len();
    lemma_first_token(e);
    lemma_kind(ts, pos, expr_tokens(e), 0);
    match e {
        Expr::Int(i) => {
            lemma_first_token(e);
            lemma_kind(ts, pos, expr_tokens(e), 0);
            lemma_int_literal(i);
        },
        Expr::Bool(_) | Expr::Ident(_) | Expr::Str(_) => {
            lemma_first_token(e);
            lemma_kind(ts, pos, expr_tokens(e), 0);
        },
        Expr::Array(..) => lemma_prefix_array(ts, pos, e),
        Expr::Hash(..) => lemma_prefix_hash(ts, pos, e),
        Expr::Prefix(..) => lemma_prefix_prefix(ts, pos, e),
        Expr::Infix(..) => lemma_prefix_infix(ts, pos, e),
        Expr::Index(..) => lemma_prefix_index(ts, pos, e),
        Expr::Call(..) => lemma_prefix_call(ts, pos, e),
        Expr::If(..) => lemma_prefix_if(ts, pos, e),
        Expr::Func(..) => lemma_prefix_func(ts, pos, e),
    }
}

#[verifier::rlimit(60)]
proof fn lemma_prefix_array(ts: Seq<SpecToken>, pos: int, e: Expr)
    requires
        e is Array,
        wf_expr(e),
        tokens_at(ts, pos, expr_tokens(e)),
        pos + expr_tokens(e).len() < ts.len(),
    ensures
        parse_prefix(ts, pos) == Ok::<(Expr, int), SpecToken>((e, pos + expr_tokens(e).len())),
    decreases e, 0nat,
{
    lemma_first_token(e);
    lemma_kind(ts, pos, expr_tokens(e), 0);
    let es = e->Array_0;
    let a = seq![sym(TokenKind::LBRACKET)];
    let b = list_tokens(es);
    let c = seq![sym(TokenKind::RBRACKET)];
    assert(expr_tokens(e) == a + b + c);
    lemma_split(ts, pos, a + b, c);
    lemma_split(ts, pos, a, b);
    lemma_split(ts, pos + 1, b, c);
    lemma_parse_list_tokens(ts, pos + 1, es, TokenKind::RBRACKET);
}

#[verifier::rlimit(60)]
proof fn lemma_prefix_hash(ts: Seq<SpecToken>, pos: int, e: Expr)
    requires
        e is Hash,
        wf_expr(e),
        tokens_at(ts, pos, expr_tokens(e)),
        pos + expr_tokens(e).len() < ts.len(),
    ensures
        parse_prefix(ts, pos) == Ok::<(Expr, int), SpecToken>((e, pos + expr_tokens(e).len())),
    decreases e, 0nat,
{
    lemma_first_token(e);
    lemma_kind(ts, pos, expr_tokens(e), 0);
    let ps = e->Hash_0;
    let a = seq![sym(TokenKind::LBRACE)];
    let b = pairs_tokens(ps);
    let c = seq![sym(TokenKind::RBRACE)];
    assert(expr_tokens(e) == a + b + c);
    lemma_split(ts, pos, a + b, c);
    lemma_split(ts, pos, a, b);
    lemma_split(ts, pos + 1, b, c);
    lemma_parse_hash_tokens(ts, pos + 1, ps);
}

#[verifier::rlimit(60)]
proof fn lemma_prefix_prefix(ts: Seq<SpecToken>, pos: int, e: Expr)
    requires
        e is Prefix,
        wf_expr(e),
        tokens_at(ts, pos, expr_tokens(e)),
        pos + expr_tokens(e).len() < ts.len(),
    ensures
        parse_prefix(ts, pos) == Ok::<(Expr, int), SpecToken>((e, pos + expr_tokens(e).len())),
    decreases e, 0nat,
{
    lemma_first_token(e);
    lemma_kind(ts, pos, expr_tokens(e), 0);
    let op = e->Prefix_0;
    let r = e->Prefix_1;
    let a = seq![sym(TokenKind::LPAREN), sym(op)];
    let b = expr_tokens(*r);
    let c = seq![sym(TokenKind::RPAREN)];
    assert(expr_tokens(e) == a + b + c);
    lemma_split(ts, pos, a + b, c);
    lemma_split(ts, pos, a, b);
    lemma_kind(ts, pos, a, 1);
    lemma_kind(ts, pos + 2 + b.len(), c, 0);
    lemma_parse_expr_tokens(ts, pos + 2, *r, Precedence::PREFIX.rank());
    lemma_parse_expr_tokens(ts, pos + 2, *r, Precedence::LOWEST.rank());
    assert(parse_prefix(ts, pos + 1) == Ok::<(Expr, int), SpecToken>((e, pos + 2 + b.len())));
    assert(parse_infix_loop(ts, e, pos + 2 + b.len(), 0) == Ok::<(Expr, int), SpecToken>(
        (e, pos + 2 + b.len()),
    ));
}

#[verifier::rlimit(60)]
proof fn lemma_prefix_infix(ts: Seq<SpecToken>, pos: int, e: Expr)
    requires
        e is Infix,
        wf_expr(e),
        tokens_at(ts, pos, expr_tokens(e)),
        pos + expr_tokens(e).len() < ts.len(),
    ensures
        parse_prefix(ts, pos) == Ok::<(Expr, int), SpecToken>((e, pos + expr_tokens(e).len())),
    decreases e, 0nat,
{
    lemma_first_token(e);
    lemma_kind(ts, pos, expr_tokens(e), 0);
    let l = e->Infix_0;
    let op = e->Infix_1;
    let r = e->Infix_2;
    let a = seq![sym(TokenKind::LPAREN)];
    let b = expr_tokens(*l);
    let c = seq![sym(op)];
    let d = expr_tokens(*r);
    let f = seq![sym(TokenKind::RPAREN)];
    assert(expr_tokens(e) == a + b + c + d + f);
    lemma_split(ts, pos, a + b + c + d, f);
    lemma_split(ts, pos, a + b + c, d);
    lemma_split(ts, pos, a + b, c);
    lemma_split(ts, pos, a, b);
    let p1 = pos + 1 + b.len();
    let p2 = p1 + 1 + d.len();
    lemma_kind(ts, p1, c, 0);
    lemma_kind(ts, p2, f, 0);
    lemma_parse_prefix_tokens(ts, pos + 1, *l);
    lemma_parse_expr_tokens(ts, p1 + 1, *r, precedence_of(op).rank());
    assert(parse_infix_loop(ts, e, p2, 0) == Ok::<(Expr, int), SpecToken>((e, p2)));
    assert(parse_infix_loop(ts, *l, p1, 0) == Ok::<(Expr, int), SpecToken>((e, p2)));
}

#[verifier::rlimit(60)]
proof fn lemma_prefix_index(ts: Seq<SpecToken>, pos: int, e: Expr)
    requires
        e is Index,
        wf_expr(e),
        tokens_at(ts, pos, expr_tokens(e)),
        pos + expr_tokens(e).len() < ts.len(),
    ensures
        parse_prefix(ts, pos) == Ok::<(Expr, int), SpecToken>((e, pos + expr_tokens(e).len())),
    decreases e, 0nat,
{
    lemma_first_token(e);
    lemma_kind(ts, pos, expr_tokens(e), 0);
    let l = e->Index_0;
    let k = e->Index_1;
    let a = seq![sym(TokenKind::LPAREN)];
    let b = expr_tokens(*l);
    let c = seq![sym(TokenKind::LBRACKET)];
    let d = expr_tokens(*k);
    let f = seq![sym(TokenKind::RBRACKET), sym(TokenKind::RPAREN)];
    assert(expr_tokens(e) == a + b + c + d + f);
    lemma_split(ts, pos, a + b + c + d, f);
    lemma_split(ts, pos, a + b + c, d);
    lemma_split(ts, pos, a + b, c);
    lemma_split(ts, pos, a, b);
    let p1 = pos + 1 + b.len();
    let p2 = p1 + 1 + d.len();
    lemma_kind(ts, p1, c, 0);
    lemma_kind(ts, p2, f, 0);
    lemma_kind(ts, p2, f, 1);
    lemma_parse_prefix_tokens(ts, pos + 1, *l);
    lemma_parse_expr_tokens(ts, p1 + 1, *k, 0);
    assert(parse_infix_loop(ts, e, p2 + 1, 0) == Ok::<(Expr, int), SpecToken>((e, p2 + 1)));
    assert(parse_infix_loop(ts, *l, p1, 0) == Ok::<(Expr, int), SpecToken>((e, p2 + 1)));
}

#[verifier::rlimit(60)]
proof fn lemma_prefix_call(ts: Seq<SpecToken>, pos: int, e: Expr)
    requires
        e is Call,
        wf_expr(e),
        tokens_at(ts, pos, expr_tokens(e)),
        pos + expr_tokens(e).len() < ts.len(),
    ensures
        parse_prefix(ts, pos) == Ok::<(Expr, int), SpecToken>((e, pos + expr_tokens(e).len())),
    decreases e, 0nat,
{
    lemma_first_token(e);
    lemma_kind(ts, pos, expr_tokens(e), 0);
    let g = e->Call_0;
    let args = e->Call_1;
    let a = seq![sym(TokenKind::LPAREN)];
    let b = expr_tokens(*g);
    let c = seq![sym(TokenKind::LPAREN)];
    let d = list_tokens(args);
    let f = seq![sym(TokenKind::RPAREN), sym(TokenKind::RPAREN)];
    assert(expr_tokens(e) == a + b + c + d + f);
    lemma_split(ts, pos, a + b + c + d, f);
    lemma_split(ts, pos, a + b + c, d);
    lemma_split(ts, pos, a + b, c);
    lemma_split(ts, pos, a, b);
    let p1 = pos + 1 + b.len();
    let p2 = p1 + 1 + d.len();
    lemma_kind(ts, p1, c, 0);
    lemma_kind(ts, p2, f, 0);
    lemma_kind(ts, p2, f, 1);
    lemma_parse_prefix_tokens(ts, pos + 1, *g);
    assert(tokens_at(ts, p1 + 1, d + seq![sym(TokenKind::RPAREN)]));
    lemma_parse_list_tokens(ts, p1 + 1, args, TokenKind::RPAREN);
    assert(parse_infix_loop(ts, e, p2 + 1, 0) == Ok::<(Expr, int), SpecToken>((e, p2 + 1)));
    assert(parse_infix_loop(ts, *g, p1, 0) == Ok::<(Expr, int), SpecToken>((e, p2 + 1)));
}

#[verifier::rlimit(60)]
proof fn lemma_prefix_if(ts: Seq<SpecToken>, pos: int, e: Expr)
    requires
        e is If,
        wf_expr(e),
        tokens_at(ts, pos, expr_tokens(e)),
        pos + expr_tokens(e).len() < ts.len(),
    ensures
        parse_prefix(ts, pos) == Ok::<(Expr, int), SpecToken>((e, pos + expr_tokens(e).len())),
    decreases e, 0nat,
{
    lemma_first_token(e);
    lemma_kind(ts, pos, expr_tokens(e), 0);
    let c = e->If_0;
    let t = e->If_1;
    let alt = e->If_2;
    let a = seq![sym(TokenKind::LPAREN), sym(TokenKind::IF), sym(TokenKind::LPAREN)];
    let b = expr_tokens(*c);
    let m = seq![sym(TokenKind::RPAREN), sym(TokenKind::LBRACE)];
    let d = block_tokens(*t);
    let f = seq![sym(TokenKind::RBRACE)];
    let g = match alt {
        Some(x) => seq![sym(TokenKind::ELSE), sym(TokenKind::LBRACE)] + block_tokens(*x)
            + seq![sym(TokenKind::RBRACE)],
        None => seq![],
    };
    let h = seq![sym(TokenKind::RPAREN)];
    assert(expr_tokens(e) == a + b + m + d + f + g + h);
    lemma_split(ts, pos, a + b + m + d + f + g, h);
    lemma_split(ts, pos, a + b + m + d + f, g);
    lemma_split(ts, pos, a + b + m + d, f);
    lemma_split(ts, pos, a + b + m, d);
    lemma_split(ts, pos, a + b, m);
    lemma_split(ts, pos, a, b);
    lemma_kind(ts, pos, a, 1);
    lemma_kind(ts, pos, a, 2);
    let p = pos + 3 + b.len();
    lemma_kind(ts, p, m, 0);
    lemma_kind(ts, p, m, 1);
    lemma_parse_expr_tokens(ts, pos + 3, *c, 0);
    let q = p + 2 + d.len();
    lemma_kind(ts, q, f, 0);
    assert(wf_block(*t));
    assert(*t is Block);
    let ss = (*t)->Block_0;
    assert(tokens_at(ts, p + 2, stmts_tokens(ss) + seq![sym(TokenKind::RBRACE)]));
    lemma_parse_block_tokens(ts, p + 2, ss, seq![]);
    assert(seq![] + ss =~= ss);
    let r = q + 1 + g.len();
    lemma_kind(ts, r, h, 0);
    match alt {
        Some(x) => {
            let g1 = seq![sym(TokenKind::ELSE), sym(TokenKind::LBRACE)];
            let g2 = block_tokens(*x);
            let g3 = seq![sym(TokenKind::RBRACE)];
            assert(g == g1 + g2 + g3);
            lemma_split(ts, q + 1, g1 + g2, g3);
            lemma_split(ts, q + 1, g1, g2);
            lemma_kind(ts, q + 1, g1, 0);
            lemma_kind(ts, q + 1, g1, 1);
            assert(wf_block(*x));
            assert(*x is Block);
            let ss2 = (*x)->Block_0;
            assert(tokens_at(ts, q + 3, stmts_tokens(ss2) + seq![sym(TokenKind::RBRACE)]));
            lemma_parse_block_tokens(ts, q + 3, ss2, seq![]);
            assert(seq![] + ss2 =~= ss2);
        },
        None => {},
    }
    assert(parse_if(ts, pos + 1) == Ok::<(Expr, int), SpecToken>((e, r)));
    assert(parse_prefix(ts, pos + 1) == Ok::<(Expr, int), SpecToken>((e, r)));
    assert(parse_infix_loop(ts, e, r, 0) == Ok::<(Expr, int), SpecToken>((e, r)));
    assert(parse_expr(ts, pos + 1, 0) == Ok::<(Expr, int), SpecToken>((e, r)));
}

#[verifier::rlimit(60)]
proof fn lemma_prefix_func(ts: Seq<SpecToken>, pos: int, e: Expr)
    requires
        e is Func,
        wf_expr(e),
        tokens_at(ts, pos, expr_tokens(e)),
        pos + expr_tokens(e).len() < ts.len(),
    ensures
        parse_prefix(ts, pos) == Ok::<(Expr, int), SpecToken>((e, pos + expr_tokens(e).len())),
    decreases e, 0nat,
{
    lemma_first_token(e);
    lemma_kind(ts, pos, expr_tokens(e), 0);
    let ps = e->Func_0;
    let body = e->Func_1;
    let a = seq![sym(TokenKind::LPAREN), sym(TokenKind::FUNCTION), sym(TokenKind::LPAREN)];
    let b = params_tokens(ps);
    let m = seq![sym(TokenKind::RPAREN), sym(TokenKind::LBRACE)];
    let d = block_tokens(*body);
    let f = seq![sym(TokenKind::RBRACE), sym(TokenKind::RPAREN)];
    assert(expr_tokens(e) == a + b + m + d + f);
    lemma_split(ts, pos, a + b + m + d, f);
    lemma_split(ts, pos, a + b + m, d);
    lemma_split(ts, pos, a + b, m);
    lemma_split(ts, pos, a, b);
    lemma_kind(ts, pos, a, 1);
    lemma_kind(ts, pos, a, 2);
    let p = pos + 3 + b.len();
    lemma_kind(ts, p, m, 0);
    lemma_kind(ts, p, m, 1);
    assert(tokens_at(ts, pos + 3, b + seq![sym(TokenKind::RPAREN)]));
    lemma_parse_params_tokens(ts, pos + 3, ps);
    let q = p + 2 + d.len();
    lemma_kind(ts, q, f, 0);
    lemma_kind(ts, q, f, 1);
    assert(wf_block(*body));
    assert(*body is Block);
    let ss = (*body)->Block_0;
    assert(tokens_at(ts, p + 2, stmts_tokens(ss) + seq![sym(TokenKind::RBRACE)]));
    lemma_parse_block_tokens(ts, p + 2, ss, seq![]);
    assert(seq![] + ss =~= ss);
    assert(parse_function(ts, pos + 1) == Ok::<(Expr, int), SpecToken>((e, q + 1)));
    assert(parse_prefix(ts, pos + 1) == Ok::<(Expr, int), SpecToken>((e, q + 1)));
    assert(parse_infix_loop(ts, e, q + 1, 0) == Ok::<(Expr, int), SpecToken>((e, q + 1)));
    assert(parse_expr(ts, pos + 1, 0) == Ok::<(Expr, int), SpecToken>((e, q + 1)));
}

/// With a token of the weakest precedence after it, the token form of a
/// well-formed expression parses back to the expression at any precedence.
proof fn lemma_parse_expr_tokens(ts: Seq<SpecToken>, pos: int, e: Expr, prec: nat)
    requires
        wf_expr(e),
        tokens_at(ts, pos, expr_tokens(e)),
        pos + expr_tokens(e).len() < ts.len(),
        precedence_of(kind_at(ts, pos + expr_tokens(e).len())).rank() == 0,
    ensures
        parse_expr(ts, pos, prec) == Ok::<(Expr, int), SpecToken>((e, pos + expr_tokens(e).len())),
    decreases e, 2nat,
{
    lemma_parse_prefix_tokens(ts, pos, e);
    lemma_first_token(e);
}

proof fn lemma_parse_list_tokens(ts: Seq<SpecToken>, pos: int, es: Seq<Expr>, closer: TokenKind)
    requires
        wf_exprs(es),
        tokens_at(ts, pos, list_tokens(es) + seq![sym(closer)]),
        closer == TokenKind::RPAREN || closer == TokenKind::RBRACKET,
    ensures
        parse_expr_list(ts, pos, closer) == Ok::<(Seq<Expr>, int), SpecToken>(
            (es, pos + list_tokens(es).len() + 1),
        ),
    decreases es, 1nat,
{
    let tail = seq![sym(closer)];
    if es.len() == 0 {
        assert(list_tokens(es) + tail =~= tail);
        lemma_kind(ts, pos, tail, 0);
        assert(es =~= Seq::<Expr>::empty());
    } else {
        let t0 = expr_tokens(es[0]);
        let r = rest_tokens(es.drop_first());
        assert(list_tokens(es) + tail =~= t0 + (r + tail));
        lemma_split(ts, pos, t0, r + tail);
        lemma_first_token(es[0]);
        lemma_kind(ts, pos, t0, 0);
        lemma_rest_first(es.drop_first(), closer);
        lemma_kind(ts, pos + t0.len(), r + tail, 0);
        lemma_parse_expr_tokens(ts, pos, es[0], 0);
        lemma_parse_rest_tokens(ts, pos + t0.len(), es.drop_first(), closer, seq![es[0]]);
        assert(seq![es[0]] + es.drop_first() =~= es);
    }
}

proof fn lemma_rest_first(rest: Seq<Expr>, closer: TokenKind)
    ensures
        (rest_tokens(rest) + seq![sym(closer)])[0].kind == if rest.len() == 0 {
            closer
        } else {
            TokenKind::COMMA
        },
{
    if rest.len() == 0 {
        assert(rest_tokens(rest) + seq![sym(closer)] =~= seq![sym(closer)]);
    }
}

proof fn lemma_parse_rest_tokens(
    ts: Seq<SpecToken>,
    pos: int,
    rest: Seq<Expr>,
    closer: TokenKind,
    acc: Seq<Expr>,
)
    requires
        wf_exprs(rest),
        tokens_at(ts, pos, rest_tokens(rest) + seq![sym(closer)]),
        closer == TokenKind::RPAREN || closer == TokenKind::RBRACKET,
    ensures
        parse_list_rest(ts, pos, closer, acc) == Ok::<(Seq<Expr>, int), SpecToken>(
            (acc + rest, pos + rest_tokens(rest).len() + 1),
        ),
    decreases rest, 1nat,
{
    let tail = seq![sym(closer)];
    if rest.len() == 0 {
        assert(rest_tokens(rest) + tail =~= tail);
        lemma_kind(ts, pos, tail, 0);
        assert(acc + rest =~= acc);
    } else {
        let t0 = expr_tokens(rest[0]);
        let r = rest_tokens(rest.drop_first());
        let c = seq![sym(TokenKind::COMMA)];
        assert(rest_tokens(rest) + tail =~= c + t0 + (r + tail));
        lemma_split(ts, pos, c + t0, r + tail);
        lemma_split(ts, pos, c, t0);
        lemma_kind(ts, pos, c, 0);
        lemma_rest_first(rest.drop_first(), closer);
        lemma_kind(ts, pos + 1 + t0.len(), r + tail, 0);
        lemma_parse_expr_tokens(ts, pos + 1, rest[0], 0);
        lemma_parse_rest_tokens(ts, pos + 1 + t0.len(), rest.drop_first(), closer, acc.push(rest[0]));
        assert(acc.push(rest[0]) + rest.drop_first() =~= acc + rest);
    }
}

proof fn lemma_parse_hash_tokens(ts: Seq<SpecToken>, pos: int, ps: Seq<(Expr, Expr)>)
    requires
        wf_pairs(ps),
        tokens_at(ts, pos, pairs_tokens(ps) + seq![sym(TokenKind::RBRACE)]),
    ensures
        parse_hash(ts, pos) == Ok::<(Seq<(Expr, Expr)>, int), SpecToken>(
            (ps, pos + pairs_tokens(ps).len() + 1),
        ),
    decreases ps, 1nat,
{
    let tail = seq![sym(TokenKind::RBRACE)];
    if ps.len() == 0 {
        assert(pairs_tokens(ps) + tail =~= tail);
        lemma_kind(ts, pos, tail, 0);
        assert(ps =~= Seq::<(Expr, Expr)>::empty());
    } else {
        lemma_first_token(ps[0].0);
        lemma_split(ts, pos, expr_tokens(ps[0].0), seq![sym(TokenKind::COLON)] + expr_tokens(ps[0].1) + (if ps.len() == 1 { seq![] } else { seq![sym(TokenKind::COMMA)] + pairs_tokens(ps.drop_first()) }) + tail);
        assert(pairs_tokens(ps) + tail =~= expr_tokens(ps[0].0) + (seq![sym(TokenKind::COLON)] + expr_tokens(ps[0].1) + (if ps.len() == 1 { seq![] } else { seq![sym(TokenKind::COMMA)] + pairs_tokens(ps.drop_first()) }) + tail));
        lemma_kind(ts, pos, expr_tokens(ps[0].0), 0);
        lemma_parse_hash_rest_tokens(ts, pos, ps, seq![]);
        assert(seq![] + ps =~= ps);
    }
}

proof fn lemma_parse_hash_rest_tokens(
    ts: Seq<SpecToken>,
    pos: int,
    ps: Seq<(Expr, Expr)>,
    acc: Seq<(Expr, Expr)>,
)
    requires
        ps.len() > 0,
        wf_pairs(ps),
        tokens_at(ts, pos, pairs_tokens(ps) + seq![sym(TokenKind::RBRACE)]),
    ensures
        parse_hash_rest(ts, pos, acc) == Ok::<(Seq<(Expr, Expr)>, int), SpecToken>(
            (acc + ps, pos + pairs_tokens(ps).len() + 1),
        ),
    decreases ps, 0nat,
{
    let tail = seq![sym(TokenKind::RBRACE)];
    let k = expr_tokens(ps[0].0);
    let colon = seq![sym(TokenKind::COLON)];
    let v = expr_tokens(ps[0].1);
    let more = if ps.len() == 1 {
        seq![]
    } else {
        seq![sym(TokenKind::COMMA)] + pairs_tokens(ps.drop_first())
    };
    assert(pairs_tokens(ps) + tail =~= k + colon + v + (more + tail));
    lemma_split(ts, pos, k + colon + v, more + tail);
    lemma_split(ts, pos, k + colon, v);
    lemma_split(ts, pos, k, colon);
    lemma_kind(ts, pos + k.len(), colon, 0);
    let q = pos + k.len() + 1 + v.len();
    lemma_kind(ts, q, more + tail, 0);
    lemma_parse_expr_tokens(ts, pos, ps[0].0, 0);
    lemma_parse_expr_tokens(ts, pos + k.len() + 1, ps[0].1, 0);
    if ps.len() == 1 {
        assert(more + tail =~= tail);
        assert(acc.push((ps[0].0, ps[0].1)) =~= acc + ps);
    } else {
        let c = seq![sym(TokenKind::COMMA)];
        let rest = pairs_tokens(ps.drop_first());
        assert(more + tail =~= c + (rest + tail));
        lemma_split(ts, q, c, rest + tail);
        lemma_kind(ts, q, c, 0);
        lemma_parse_hash_rest_tokens(ts, q + 1, ps.drop_first(), acc.push((ps[0].0, ps[0].1)));
        assert(acc.push((ps[0].0, ps[0].1)) + ps.drop_first() =~= acc + ps);
    }
}

proof fn lemma_parse_params_tokens(ts: Seq<SpecToken>, pos: int, ps: Seq<Seq<char>>)
    requires
        tokens_at(ts, pos, params_tokens(ps) + seq![sym(TokenKind::RPAREN)]),
    ensures
        parse_params(ts, pos) == Ok::<(Seq<Seq<char>>, int), SpecToken>(
            (ps, pos + params_tokens(ps).len() + 1),
        ),
{
    let tail = seq![sym(TokenKind::RPAREN)];
    if ps.len() == 0 {
        assert(params_tokens(ps) + tail =~= tail);
        lemma_kind(ts, pos, tail, 0);
        assert(ps =~= Seq::<Seq<char>>::empty());
    } else {
        lemma_kind(ts, pos, params_tokens(ps) + tail, 0);
        assert(params_tokens(ps)[0] == mk_token(TokenKind::IDENT, ps[0]));
        assert((params_tokens(ps) + tail)[0] == params_tokens(ps)[0]);
        lemma_parse_params_rest_tokens(ts, pos, ps, seq![]);
        assert(seq![] + ps =~= ps);
    }
}

proof fn lemma_parse_params_rest_tokens(
    ts: Seq<SpecToken>,
    pos: int,
    ps: Seq<Seq<char>>,
    acc: Seq<Seq<char>>,
)
    requires
        ps.len() > 0,
        tokens_at(ts, pos, params_tokens(ps) + seq![sym(TokenKind::RPAREN)]),
    ensures
        parse_params_rest(ts, pos, acc) == Ok::<(Seq<Seq<char>>, int), SpecToken>(
            (acc + ps, pos + params_tokens(ps).len() + 1),
        ),
    decreases ps.len(),
{
    let all = params_tokens(ps) + seq![sym(TokenKind::RPAREN)];
    lemma_kind(ts, pos, all, 0);
    lemma_kind(ts, pos, all, 1);
    if ps.len() == 1 {
        assert(acc.push(ps[0]) =~= acc + ps);
    } else {
        let head = seq![mk_token(TokenKind::IDENT, ps[0]), sym(TokenKind::COMMA)];
        let rest = params_tokens(ps.drop_first()) + seq![sym(TokenKind::RPAREN)];
        assert(all =~= head + rest);
        lemma_split(ts, pos, head, rest);
        lemma_parse_params_rest_tokens(ts, pos + 2, ps.drop_first(), acc.push(ps[0]));
        assert(acc.push(ps[0]) + ps.drop_first() =~= acc + ps);
    }
}

/// The first token of a statement's token form.
proof fn lemma_first_stmt_token(s: Stmt)
    requires
        wf_stmt(s),
    ensures
        stmt_tokens(s).len() > 0,
        stmt_tokens(s)[0].kind != TokenKind::RBRACE,
        stmt_tokens(s)[0].kind != TokenKind::EOF,
{
    match s {
        Stmt::Expression(e) => lemma_first_token(e),
        _ => {},
    }
}

#[verifier::rlimit(100)]
proof fn lemma_parse_stmt_tokens(ts: Seq<SpecToken>, pos: int, s: Stmt)
    requires
        wf_stmt(s),
        tokens_at(ts, pos, stmt_tokens(s)),
        pos + stmt_tokens(s).len() < ts.len(),
    ensures
        parse_statement(ts, pos) == Ok::<(Stmt, int), SpecToken>((s, pos + stmt_tokens(s).len())),
    decreases s, 1nat,
{
    let semi = seq![sym(TokenKind::SEMICOLON)];
    match s {
        Stmt::Let(n, e) => {
            let head = seq![sym(TokenKind::LET), mk_token(TokenKind::IDENT, n), sym(TokenKind::ASSIGN)];
            assert(stmt_tokens(s) == head + expr_tokens(e) + semi);
            lemma_split(ts, pos, head + expr_tokens(e), semi);
            lemma_split(ts, pos, head, expr_tokens(e));
            lemma_kind(ts, pos, head, 0);
            lemma_kind(ts, pos, head, 1);
            lemma_kind(ts, pos, head, 2);
            lemma_kind(ts, pos + 3 + expr_tokens(e).len(), semi, 0);
            lemma_parse_expr_tokens(ts, pos + 3, e, 0);
        },
        Stmt::Return(e) => {
            let head = seq![sym(TokenKind::RETURN)];
            assert(stmt_tokens(s) == head + expr_tokens(e) + semi);
            lemma_split(ts, pos, head + expr_tokens(e), semi);
            lemma_split(ts, pos, head, expr_tokens(e));
            lemma_kind(ts, pos, head, 0);
            lemma_kind(ts, pos + 1 + expr_tokens(e).len(), semi, 0);
            lemma_parse_expr_tokens(ts, pos + 1, e, 0);
        },
        Stmt::Expression(e) => {
            lemma_split(ts, pos, expr_tokens(e), semi);
            lemma_first_token(e);
            lemma_kind(ts, pos, expr_tokens(e), 0);
            lemma_kind(ts, pos + expr_tokens(e).len(), semi, 0);
            lemma_parse_expr_tokens(ts, pos, e, 0);
        },
        Stmt::Block(_) => {},
    }
}

#[verifier::rlimit(100)]
proof fn lemma_parse_block_tokens(ts: Seq<SpecToken>, pos: int, ss: Seq<Stmt>, acc: Seq<Stmt>)
    requires
        wf_stmts(ss),
        tokens_at(ts, pos, stmts_tokens(ss) + seq![sym(TokenKind::RBRACE)]),
    ensures
        parse_block(ts, pos, acc) == Ok::<(Seq<Stmt>, int), SpecToken>(
            (acc + ss, pos + stmts_tokens(ss).len() + 1),
        ),
    decreases ss, 1nat,
{
    let tail = seq![sym(TokenKind::RBRACE)];
    if ss.len() == 0 {
        assert(stmts_tokens(ss) + tail =~= tail);
        lemma_kind(ts, pos, tail, 0);
        assert(acc + ss =~= acc);
    } else {
        let st = stmt_tokens(ss[0]);
        let rest = stmts_tokens(ss.drop_first()) + tail;
        assert(stmts_tokens(ss) + tail =~= st + rest);
        lemma_split(ts, pos, st, rest);
        lemma_first_stmt_token(ss[0]);
        lemma_kind(ts, pos, st, 0);
        lemma_parse_stmt_tokens(ts, pos, ss[0]);
        lemma_parse_block_tokens(ts, pos + st.len(), ss.drop_first(), acc.push(ss[0]));
        assert(acc.push(ss[0]) + ss.drop_first() =~= acc + ss);
    }
}

#[verifier::rlimit(100)]
proof fn lemma_parse_statements_tokens(ts: Seq<SpecToken>, pos: int, ss: Seq<Stmt>, acc: Seq<Stmt>)
    requires
        wf_stmts(ss),
        tokens_at(ts, pos, stmts_tokens(ss) + seq![sym(TokenKind::EOF)]),
    ensures
        parse_statements(ts, pos, acc) == Ok::<Seq<Stmt>, SpecToken>(acc + ss),
    decreases ss,
{
    let tail = seq![sym(TokenKind::EOF)];
    if ss.len() == 0 {
        assert(stmts_tokens(ss) + tail =~= tail);
        lemma_kind(ts, pos, tail, 0);
        assert(acc + ss =~= acc);
    } else {
        let st = stmt_tokens(ss[0]);
        let rest = stmts_tokens(ss.drop_first()) + tail;
        assert(stmts_tokens(ss) + tail =~= st + rest);
        lemma_split(ts, pos, st, rest);
        lemma_first_stmt_token(ss[0]);
        lemma_kind(ts, pos, st, 0);
        lemma_parse_stmt_tokens(ts, pos, ss[0]);
        lemma_parse_statements_tokens(ts, pos + st.len(), ss.drop_first(), acc.push(ss[0]));
        assert(acc.push(ss[0]) + ss.drop_first() =~= acc + ss);
    }
}

/// Parsing the token form of a well-formed program, in which every compound
/// expression stands in parentheses, gives back the program; so the textual
/// form of what is parsed is the program's own canonical textual form, with
/// the parentheses gone.
pub proof fn law_parse_of_token_form(p: Seq<Stmt>)
    requires
        wf_stmts(p),
    ensures
        parse_tokens(program_tokens(p)) == Ok::<Seq<Stmt>, SpecToken>(p),
        program_text(parse_tokens(program_tokens(p))->Ok_0) == program_text(p),
{
    let ts = program_tokens(p);
    assert(tokens_at(ts, 0, ts));
    lemma_parse_statements_tokens(ts, 0, p, seq![]);
    assert(seq![] + p =~= p);
}

/// How a token is written in source: a string between double quotes, any
/// other token as its literal.
pub open spec fn token_source(t: SpecToken) -> Seq<char> {
    if t.kind == TokenKind::STRING {
        seq!['"'] + t.literal + seq!['"']
    } else {
        t.literal
    }
}

/// Source text for a token sequence: each token preceded by a space.
pub open spec fn source_of(ts: Seq<SpecToken>) -> Seq<char>
    decreases ts.len(),
{
    if ts.len() == 0 {
        seq![]
    } else {
        seq![' '] + token_source(ts[0]) + source_of(ts.drop_first())
    }
}

pub open spec fn all_letters(s: Seq<char>) -> bool {
    forall|i: int| 0 <= i < s.len() ==> is_letter_char(#[trigger] s[i])
}

/// A token that reads back as itself from its source text: a word that is
/// no keyword, a run of digits, a string without quotes or NUL characters,
/// or a keyword or punctuation token spelled as such.
pub open spec fn lexable(t: SpecToken) -> bool {
    match t.kind {
        TokenKind::IDENT => t.literal.len() > 0 && all_letters(t.literal) && keyword_kind(t.literal)
            == TokenKind::IDENT,
        TokenKind::INT => t.literal.len() > 0 && all_digits(t.literal),
        TokenKind::STRING => forall|i: int|
            0 <= i < t.literal.len() ==> #[trigger] t.literal[i] != '"' && t.literal[i] != '\0',
        TokenKind::ILLEGAL | TokenKind::EOF => false,
        _ => t.literal == symbol_text(t.kind),
    }
}

proof fn lemma_letters_run(s: Seq<char>, i: int, n: int)
    requires
        0 <= i,
        0 <= n,
        i + n <= s.len(),
        forall|k: int| i <= k < i + n ==> is_letter_char(#[trigger] s[k]),
        i + n == s.len() || !is_letter_char(s[i + n]),
    ensures
        letters_end(s, i as nat) == i + n,
    decreases n,
{
    if n > 0 {
        lemma_letters_run(s, i + 1, n - 1);
    }
}

proof fn lemma_digits_run(s: Seq<char>, i: int, n: int)
    requires
        0 <= i,
        0 <= n,
        i + n <= s.len(),
        forall|k: int| i <= k < i + n ==> is_digit_char(#[trigger] s[k]),
        i + n == s.len() || !is_digit_char(s[i + n]),
    ensures
        digits_end(s, i as nat) == i + n,
    decreases n,
{
    if n > 0 {
        lemma_digits_run(s, i + 1, n - 1);
    }
}

proof fn lemma_string_run(s: Seq<char>, i: int, n: int)
    requires
        0 <= i,
        0 <= n,
        i + n < s.len(),
        forall|k: int| i <= k < i + n ==> #[trigger] s[k] != '"' && s[k] != '\0',
        s[i + n] == '"',
    ensures
        string_end(s, i as nat) == i + n,
    decreases n,
{
    if n > 0 {
        lemma_string_run(s, i + 1, n - 1);
    }
}

proof fn lemma_source_first(t: SpecToken)
    requires
        lexable(t),
    ensures
        token_source(t).len() > 0,
        !is_space_char(token_source(t)[0]),
        token_source(t)[0] != '\0',
        t.kind == TokenKind::STRING <==> token_source(t)[0] == '"',
{
    if t.kind == TokenKind::IDENT {
        assert(is_letter_char(t.literal[0]));
    } else if t.kind == TokenKind::INT {
        assert('0' <= t.literal[0] && t.literal[0] <= '9');
    }
}

/// A lexable token written after a space, and followed by a space or the
/// end of the text, is scanned back as itself.
#[verifier::rlimit(100)]
proof fn lemma_lex_one(s: Seq<char>, pos: int, t: SpecToken)
    requires
        lexable(t),
        0 <= pos,
        pos + 1 + token_source(t).len() <= s.len(),
        s[pos] == ' ',
        s.subrange(pos + 1, pos + 1 + token_source(t).len()) == token_source(t),
        pos + 1 + token_source(t).len() == s.len() || s[pos + 1 + token_source(t).len()] == ' ',
    ensures
        lex_at(s, pos as nat) == (t, (pos + 1 + token_source(t).len()) as nat),
{
    let src = token_source(t);
    let n = src.len() as int;
    let q = pos + 1;
    assert forall|k: int| 0 <= k < n implies s[q + k] == #[trigger] src[k] by {
        assert(s.subrange(q, q + n)[k] == s[q + k]);
    }
    lemma_source_first(t);
    assert(s[q] == src[0]);
    assert(skip_space(s, (pos + 1) as nat) == pos + 1);
    assert(skip_space(s, pos as nat) == pos + 1);
    let c = s[q];
    assert(char_at(s, q) == c);
    if t.kind == TokenKind::IDENT || t.kind == TokenKind::LET || t.kind == TokenKind::RETURN
        || t.kind == TokenKind::IF || t.kind == TokenKind::ELSE || t.kind == TokenKind::FUNCTION
        || t.kind == TokenKind::TRUE || t.kind == TokenKind::FALSE {
        assert forall|k: int| q <= k < q + n implies is_letter_char(#[trigger] s[k]) by {
            assert(s[q + (k - q)] == src[k - q]);
        }
        lemma_letters_run(s, q, n);
        assert(s.subrange(q, q + n) == t.literal);
    } else if t.kind == TokenKind::INT {
        assert forall|k: int| q <= k < q + n implies is_digit_char(#[trigger] s[k]) by {
            assert(s[q + (k - q)] == src[k - q]);
        }
        lemma_digits_run(s, q, n);
    } else if t.kind == TokenKind::STRING {
        let m = t.literal.len() as int;
        assert forall|k: int| q + 1 <= k < q + 1 + m implies #[trigger] s[k] != '"' && s[k] != '\0' by {
            assert(s[q + (k - q)] == src[k - q]);
            assert(src[k - q] == t.literal[k - q - 1]);
        }
        assert(s[q + 1 + m] == src[m + 1]);
        lemma_string_run(s, q + 1, m);
        assert(s.subrange(q + 1, q + 1 + m) =~= t.literal) by {
            assert forall|k: int| 0 <= k < m implies s.subrange(q + 1, q + 1 + m)[k] == t.literal[k] by {
                assert(s[q + (k + 1)] == src[k + 1]);
            }
        }
    } else if t.kind == TokenKind::EQ || t.kind == TokenKind::NotEq {
        assert(s[q + 1] == src[1]);
        assert(char_at(s, q + 1) == '=');
    } else {
        assert(n == 1);
        assert(char_at(s, q + 1) != '=');
    }
}

/// The source text of a lexable token sequence is scanned back into that
/// sequence, followed by `EOF`.
proof fn lemma_lex_all(s: Seq<char>, pos: int, ts: Seq<SpecToken>)
    requires
        forall|i: int| 0 <= i < ts.len() ==> lexable(#[trigger] ts[i]),
        0 <= pos <= s.len(),
        s.subrange(pos, s.len() as int) == source_of(ts),
    ensures
        tokens_from(s, pos as nat) == ts + seq![sym(TokenKind::EOF)],
    decreases ts.len(),
{
    if ts.len() == 0 {
        assert(source_of(ts).len() == 0);
        assert(s.subrange(pos, s.len() as int).len() == s.len() - pos);
        assert(pos == s.len());
        assert(seq![sym(TokenKind::EOF)] =~= ts + seq![sym(TokenKind::EOF)]);
    } else {
        let t = ts[0];
        let n = token_source(t).len() as int;
        let rest = source_of(ts.drop_first());
        let sub = s.subrange(pos, s.len() as int);
        assert(sub == seq![' '] + token_source(t) + rest);
        assert(sub.len() == s.len() - pos);
        assert(pos + 1 + n + rest.len() == s.len());
        assert(s[pos] == sub[0]);
        assert(s.subrange(pos + 1, pos + 1 + n) =~= token_source(t)) by {
            assert forall|k: int| 0 <= k < n implies s.subrange(pos + 1, pos + 1 + n)[k] == token_source(t)[k] by {
                assert(s[pos + 1 + k] == sub[1 + k]);
            }
        }
        if pos + 1 + n < s.len() {
            assert(s[pos + 1 + n] == sub[1 + n]);
            if ts.len() > 1 {
                assert(rest[0] == ' ');
            } else {
                assert(rest.len() == 0);
            }
        }
        lemma_lex_one(s, pos, t);
        assert(s.subrange(pos + 1 + n, s.len() as int) =~= rest) by {
            assert forall|k: int| 0 <= k < rest.len() implies s.subrange(pos + 1 + n, s.len() as int)[k] == rest[k] by {
                assert(s[pos + 1 + n + k] == sub[1 + n + k]);
            }
        }
        assert(forall|i: int| 0 <= i < ts.drop_first().len() ==> ts.drop_first()[i] == ts[i + 1]);
        lemma_lex_all(s, pos + 1 + n, ts.drop_first());
        lemma_lex_advances(s, pos as nat);
        assert(seq![t] + (ts.drop_first() + seq![sym(TokenKind::EOF)]) =~= ts + seq![sym(TokenKind::EOF)]);
    }
}

/// A well-formed program written out as source text, with every compound
/// expression in parentheses and the tokens separated by spaces, is scanned
/// and parsed back into the same program, provided each of its tokens reads
/// back as itself. The textual form of the result is therefore the
/// program's canonical textual form.
pub proof fn law_source_round_trip(p: Seq<Stmt>)
    requires
        wf_stmts(p),
        forall|i: int|
            0 <= i < stmts_tokens(p).len() ==> lexable(#[trigger] stmts_tokens(p)[i]),
    ensures
        parse_source(source_of(stmts_tokens(p))) == Ok::<Seq<Stmt>, SpecToken>(p),
        program_text(parse_source(source_of(stmts_tokens(p)))->Ok_0) == program_text(p),
{
    let s = source_of(stmts_tokens(p));
    assert(s.subrange(0, s.len() as int) =~= s);
    lemma_lex_all(s, 0, stmts_tokens(p));
    law_parse_of_token_form(p);
}

} // verus!
