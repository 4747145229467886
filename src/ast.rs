use vstd::prelude::*;
use std::rc::Rc;
use crate::basics::{push_int, push_str, int_text};
use crate::token::TokenKind;

verus! {

broadcast use vstd::std_specs::vec::axiom_vec_index_decreases,
    vstd::std_specs::vec::axiom_vec_decreases_to_view, vstd::seq::axiom_seq_index_decreases,
    vstd::seq::axiom_seq_subrange_decreases;

/// The model of an expression.
pub enum Expr {
    Ident(Seq<char>),
    Str(Seq<char>),
    Int(i64),
    Bool(bool),
    Array(Seq<Expr>),
    Hash(Seq<(Expr, Expr)>),
    Index(Box<Expr>, Box<Expr>),
    Prefix(TokenKind, Box<Expr>),
    Infix(Box<Expr>, TokenKind, Box<Expr>),
    If(Box<Expr>, Box<Stmt>, Option<Box<Stmt>>),
    Func(Seq<Seq<char>>, Box<Stmt>),
    Call(Box<Expr>, Seq<Expr>),
}

/// The model of a statement.
pub enum Stmt {
    Let(Seq<char>, Expr),
    Return(Expr),
    Expression(Expr),
    Block(Seq<Stmt>),
}

/// An expression of the syntax tree.
#[derive(Debug)]
pub enum Expression {
    Identifier(String),
    String(String),
    Integer(i64),
    Bool(bool),
    Array(Vec<Expression>),
    Hash(Vec<(Expression, Expression)>),
    IndexExpression { left: Box<Expression>, right: Box<Expression> },
    PrefixExpression { operator: TokenKind, right_expression: Box<Expression> },
    InfixExpression {
        left_expression: Box<Expression>,
        operator: TokenKind,
        right_expression: Box<Expression>,
    },
    IfExpression {
        condition: Box<Expression>,
        consequence: Box<Statement>,
        alternative: Option<Box<Statement>>,
    },
    FunctionLiteral { parameters: Rc<Vec<String>>, body: Rc<Statement> },
    CallExpression { function: Box<Expression>, body: Vec<Expression> },
}

/// A statement of the syntax tree.
#[derive(Debug)]
pub enum Statement {
    LetStatement { identifier: String, value: Expression },
    Return(Expression),
    ExpressionStatement(Expression),
    Block(Vec<Statement>),
}

/// A parsed program: its statements in source order.
#[derive(Debug)]
pub struct Program {
    pub statements: Vec<Statement>,
}

pub open spec fn names_view(s: Seq<String>) -> Seq<Seq<char>> {
    s.map_values(|n: String| n@)
}

pub open spec fn expr_view(e: Expression) -> Expr
    decreases e,
{
    match e {
        Expression::Identifier(n) => Expr::Ident(n@),
        Expression::String(s) => Expr::Str(s@),
        Expression::Integer(i) => Expr::Int(i),
        Expression::Bool(b) => Expr::Bool(b),
        Expression::Array(v) => Expr::Array(exprs_view(v@)),
        Expression::Hash(v) => Expr::Hash(pairs_view(v@)),
        Expression::IndexExpression { left, right } => Expr::Index(
            Box::new(expr_view(*left)),
            Box::new(expr_view(*right)),
        ),
        Expression::PrefixExpression { operator, right_expression } => Expr::Prefix(
            operator,
            Box::new(expr_view(*right_expression)),
        ),
        Expression::InfixExpression { left_expression, operator, right_expression } => Expr::Infix(
            Box::new(expr_view(*left_expression)),
            operator,
            Box::new(expr_view(*right_expression)),
        ),
        Expression::IfExpression { condition, consequence, alternative } => Expr::If(
            Box::new(expr_view(*condition)),
            Box::new(stmt_view(*consequence)),
            match alternative {
                Some(a) => Some(Box::new(stmt_view(*a))),
                None => None,
            },
        ),
        Expression::FunctionLiteral { parameters, body } => Expr::Func(
            names_view(parameters@),
            Box::new(stmt_view(*body)),
        ),
        Expression::CallExpression { function, body } => Expr::Call(
            Box::new(expr_view(*function)),
            exprs_view(body@),
        ),
    }
}

pub open spec fn exprs_view(s: Seq<Expression>) -> Seq<Expr>
    decreases s,
{
    if s.len() == 0 {
        seq![]
    } else {
        exprs_view(s.drop_last()).push(expr_view(s.last()))
    }
}

pub open spec fn pairs_view(s: Seq<(Expression, Expression)>) -> Seq<(Expr, Expr)>
    decreases s,
{
    if s.len() == 0 {
        seq![]
    } else {
        pairs_view(s.drop_last()).push((expr_view(s.last().0), expr_view(s.last().1)))
    }
}

pub open spec fn stmt_view(s: Statement) -> Stmt
    decreases s,
{
    match s {
        Statement::LetStatement { identifier, value } => Stmt::Let(identifier@, expr_view(value)),
        Statement::Return(e) => Stmt::Return(expr_view(e)),
        Statement::ExpressionStatement(e) => Stmt::Expression(expr_view(e)),
        Statement::Block(v) => Stmt::Block(stmts_view(v@)),
    }
}

pub open spec fn stmts_view(s: Seq<Statement>) -> Seq<Stmt>
    decreases s,
{
    if s.len() == 0 {
        seq![]
    } else {
        stmts_view(s.drop_last()).push(stmt_view(s.last()))
    }
}

impl View for Expression {
    type V = Expr;

    open spec fn view(&self) -> Expr {
        expr_view(*self)
    }
}

impl View for Statement {
    type V = Stmt;

    open spec fn view(&self) -> Stmt {
        stmt_view(*self)
    }
}

impl View for Program {
    type V = Seq<Stmt>;

    open spec fn view(&self) -> Seq<Stmt> {
        stmts_view(self.statements@)
    }
}

pub proof fn lemma_exprs_view(s: Seq<Expression>)
    ensures
        exprs_view(s).len() == s.len(),
        forall|i: int| 0 <= i < s.len() ==> #[trigger] exprs_view(s)[i] == expr_view(s[i]),
    decreases s.len(),
{
    if s.len() > 0 {
        lemma_exprs_view(s.drop_last());
    }
}

pub proof fn lemma_pairs_view(s: Seq<(Expression, Expression)>)
    ensures
        pairs_view(s).len() == s.len(),
        forall|i: int|
            0 <= i < s.len() ==> #[trigger] pairs_view(s)[i] == (
                expr_view(s[i].0),
                expr_view(s[i].1),
            ),
    decreases s.len(),
{
    if s.len() > 0 {
        lemma_pairs_view(s.drop_last());
    }
}

pub proof fn lemma_stmts_view(s: Seq<Statement>)
    ensures
        stmts_view(s).len() == s.len(),
        forall|i: int| 0 <= i < s.len() ==> #[trigger] stmts_view(s)[i] == stmt_view(s[i]),
    decreases s.len(),
{
    if s.len() > 0 {
        lemma_stmts_view(s.drop_last());
    }
}

/// The source text of an operator.
pub open spec fn operator_text(op: TokenKind) -> Seq<char> {
    match op {
        TokenKind::PLUS => "+"@,
        TokenKind::MINUS => "-"@,
        TokenKind::ASTERISK => "*"@,
        TokenKind::SLASH => "/"@,
        TokenKind::EQ => "=="@,
        TokenKind::NotEq => "!="@,
        TokenKind::LT => "<"@,
        TokenKind::GT => ">"@,
        TokenKind::BANG => "!"@,
        _ => "?"@,
    }
}

pub open spec fn bool_text(b: bool) -> Seq<char> {
    if b {
        "true"@
    } else {
        "false"@
    }
}

/// The canonical textual form of an expression.
pub open spec fn expr_text(e: Expr) -> Seq<char>
    decreases e,
{
    match e {
        Expr::Ident(n) => n,
        Expr::Str(s) => s,
        Expr::Int(i) => int_text(i as int),
        Expr::Bool(b) => bool_text(b),
        Expr::Array(v) => "["@ + exprs_text(v) + "]"@,
        Expr::Hash(v) => "{"@ + pairs_text(v) + "}"@,
        Expr::Index(l, r) => expr_text(*l) + "["@ + expr_text(*r) + "]"@,
        Expr::Prefix(op, r) => operator_text(op) + expr_text(*r),
        Expr::Infix(l, op, r) => expr_text(*l) + " "@ + operator_text(op) + " "@ + expr_text(*r),
        Expr::If(c, t, a) => match a {
            Some(a) => "if ("@ + expr_text(*c) + ") {"@ + stmt_text(*t) + "} else {"@ + stmt_text(
                *a,
            ) + "}"@,
            None => "if ("@ + expr_text(*c) + ") {"@ + stmt_text(*t) + "}"@,
        },
        Expr::Func(ps, b) => "fn ("@ + names_text(ps) + ") {"@ + stmt_text(*b) + "}"@,
        Expr::Call(f, args) => expr_text(*f) + "("@ + exprs_text(args) + ");"@,
    }
}

/// Expressions' textual forms separated by `", "`.
pub open spec fn exprs_text(s: Seq<Expr>) -> Seq<char>
    decreases s,
{
    if s.len() == 0 {
        seq![]
    } else if s.len() == 1 {
        expr_text(s[0])
    } else {
        exprs_text(s.drop_last()) + ", "@ + expr_text(s.last())
    }
}

/// Hash literal entries `k: v` separated by `", "`.
pub open spec fn pairs_text(s: Seq<(Expr, Expr)>) -> Seq<char>
    decreases s,
{
    if s.len() == 0 {
        seq![]
    } else if s.len() == 1 {
        expr_text(s[0].0) + ": "@ + expr_text(s[0].1)
    } else {
        pairs_text(s.drop_last()) + ", "@ + expr_text(s.last().0) + ": "@ + expr_text(s.last().1)
    }
}

/// Names separated by `", "`.
pub open spec fn names_text(s: Seq<Seq<char>>) -> Seq<char>
    decreases s.len(),
{
    if s.len() == 0 {
        seq![]
    } else if s.len() == 1 {
        s[0]
    } else {
        names_text(s.drop_last()) + ", "@ + s.last()
    }
}

/// The canonical textual form of a statement.
pub open spec fn stmt_text(s: Stmt) -> Seq<char>
    decreases s,
{
    match s {
        Stmt::Let(n, v) => "let "@ + n + " = "@ + expr_text(v) + ";"@,
        Stmt::Return(e) => "return "@ + expr_text(e),
        Stmt::Expression(e) => expr_text(e),
        Stmt::Block(v) => stmts_text(v),
    }
}

/// The statements' textual forms, one after another.
pub open spec fn stmts_text(s: Seq<Stmt>) -> Seq<char>
    decreases s,
{
    if s.len() == 0 {
        seq![]
    } else {
        stmts_text(s.drop_last()) + stmt_text(s.last())
    }
}

/// A program's textual form: its statements separated by newlines.
pub open spec fn program_text(s: Seq<Stmt>) -> Seq<char>
    decreases s.len(),
{
    if s.len() == 0 {
        seq![]
    } else if s.len() == 1 {
        stmt_text(s[0])
    } else {
        program_text(s.drop_last()) + "\n"@ + stmt_text(s.last())
    }
}

/// Appends the source text of an operator.
pub fn push_operator(out: &mut String, op: TokenKind)
    ensures
        final(out)@ == old(out)@ + operator_text(op),
{
    match op {
        TokenKind::PLUS => push_str(out, "+"),
        TokenKind::MINUS => push_str(out, "-"),
        TokenKind::ASTERISK => push_str(out, "*"),
        TokenKind::SLASH => push_str(out, "/"),
        TokenKind::EQ => push_str(out, "=="),
        TokenKind::NotEq => push_str(out, "!="),
        TokenKind::LT => push_str(out, "<"),
        TokenKind::GT => push_str(out, ">"),
        TokenKind::BANG => push_str(out, "!"),
        _ => push_str(out, "?"),
    }
}

pub fn push_bool(out: &mut String, b: bool)
    ensures
        final(out)@ == old(out)@ + bool_text(b),
{
    if b {
        push_str(out, "true");
    } else {
        push_str(out, "false");
    }
}

fn push_exprs(out: &mut String, v: &Vec<Expression>)
    ensures
        final(out)@ == old(out)@ + exprs_text(exprs_view(v@)),
    decreases v,
{
    proof {
        lemma_exprs_view(v@);
    }
    let mut i: usize = 0;
    while i < v.len()
        invariant
            i <= v.len(),
            exprs_view(v@).len() == v.len(),
            forall|j: int| 0 <= j < v.len() ==> #[trigger] exprs_view(v@)[j] == expr_view(v@[j]),
            out@ == old(out)@ + exprs_text(exprs_view(v@).take(i as int)),
        decreases v.len() - i,
    {
        proof {
            let t = exprs_view(v@).take(i as int + 1);
            assert(t.drop_last() =~= exprs_view(v@).take(i as int));
        }
        if i > 0 {
            push_str(out, ", ");
        }
        v[i].push_text(out);
        i = i + 1;
    }
    assert(exprs_view(v@).take(v.len() as int) =~= exprs_view(v@));
}

fn push_pairs(out: &mut String, v: &Vec<(Expression, Expression)>)
    ensures
        final(out)@ == old(out)@ + pairs_text(pairs_view(v@)),
    decreases v,
{
    proof {
        lemma_pairs_view(v@);
    }
    let mut i: usize = 0;
    while i < v.len()
        invariant
            i <= v.len(),
            pairs_view(v@).len() == v.len(),
            forall|j: int|
                0 <= j < v.len() ==> #[trigger] pairs_view(v@)[j] == (
                    expr_view(v@[j].0),
                    expr_view(v@[j].1),
                ),
            out@ == old(out)@ + pairs_text(pairs_view(v@).take(i as int)),
        decreases v.len() - i,
    {
        proof {
            let t = pairs_view(v@).take(i as int + 1);
            assert(t.drop_last() =~= pairs_view(v@).take(i as int));
        }
        if i > 0 {
            push_str(out, ", ");
        }
        v[i].0.push_text(out);
        push_str(out, ": ");
        v[i].1.push_text(out);
        i = i + 1;
    }
    assert(pairs_view(v@).take(v.len() as int) =~= pairs_view(v@));
}

fn push_stmts(out: &mut String, v: &Vec<Statement>)
    ensures
        final(out)@ == old(out)@ + stmts_text(stmts_view(v@)),
    decreases v,
{
    proof {
        lemma_stmts_view(v@);
    }
    let mut i: usize = 0;
    while i < v.len()
        invariant
            i <= v.len(),
            stmts_view(v@).len() == v.len(),
            forall|j: int| 0 <= j < v.len() ==> #[trigger] stmts_view(v@)[j] == stmt_view(v@[j]),
            out@ == old(out)@ + stmts_text(stmts_view(v@).take(i as int)),
        decreases v.len() - i,
    {
        proof {
            let t = stmts_view(v@).take(i as int + 1);
            assert(t.drop_last() =~= stmts_view(v@).take(i as int));
        }
        v[i].push_text(out);
        i = i + 1;
    }
    assert(stmts_view(v@).take(v.len() as int) =~= stmts_view(v@));
}

impl Expression {
    /// Appends the canonical textual form of this expression.
    pub fn push_text(&self, out: &mut String)
        ensures
            final(out)@ == old(out)@ + expr_text(self@),
        decreases self,
    {
        match self {
            Expression::Identifier(n) => push_str(out, n.as_str()),
            Expression::String(s) => push_str(out, s.as_str()),
            Expression::Integer(i) => push_int(out, *i),
            Expression::Bool(b) => push_bool(out, *b),
            Expression::Array(v) => {
                push_str(out, "[");
                push_exprs(out, v);
                push_str(out, "]");
            },
            Expression::Hash(v) => {
                push_str(out, "{");
                push_pairs(out, v);
                push_str(out, "}");
            },
            Expression::IndexExpression { left, right } => {
                left.push_text(out);
                push_str(out, "[");
                right.push_text(out);
                push_str(out, "]");
            },
            Expression::PrefixExpression { operator, right_expression } => {
                push_operator(out, *operator);
                right_expression.push_text(out);
            },
            Expression::InfixExpression { left_expression, operator, right_expression } => {
                left_expression.push_text(out);
                push_str(out, " ");
                push_operator(out, *operator);
                push_str(out, " ");
                right_expression.push_text(out);
            },
            Expression::IfExpression { condition, consequence, alternative } => {
                push_str(out, "if (");
                condition.push_text(out);
                push_str(out, ") {");
                consequence.push_text(out);
                match alternative {
                    Some(a) => {
                        push_str(out, "} else {");
                        a.push_text(out);
                        push_str(out, "}");
                    },
                    None => push_str(out, "}"),
                }
            },
            Expression::FunctionLiteral { parameters, body } => {
                push_str(out, "fn (");
                let ps: &Vec<String> = parameters;
                let mut i: usize = 0;
                while i < ps.len()
                    invariant
                        i <= ps.len(),
                        out@ == old(out)@ + "fn ("@ + names_text(
                            names_view(ps@).take(i as int),
                        ),
                    decreases ps.len() - i,
                {
                    proof {
                        let t = names_view(ps@).take(i as int + 1);
                        assert(t.drop_last() =~= names_view(ps@).take(i as int));
                    }
                    if i > 0 {
                        push_str(out, ", ");
                    }
                    push_str(out, ps[i].as_str());
                    i = i + 1;
                }
                assert(names_view(ps@).take(ps.len() as int) =~= names_view(ps@));
                push_str(out, ") {");
                body.push_text(out);
                push_str(out, "}");
            },
            Expression::CallExpression { function, body } => {
                function.push_text(out);
                push_str(out, "(");
                push_exprs(out, body);
                push_str(out, ");");
            },
        }
    }

    /// The canonical textual form of this expression.
    pub fn to_text(&self) -> (r: String)
        ensures
            r@ == expr_text(self@),
    {
        let mut out = String::new();
        self.push_text(&mut out);
        out
    }
}

impl Statement {
    /// Appends the canonical textual form of this statement.
    pub fn push_text(&self, out: &mut String)
        ensures
            final(out)@ == old(out)@ + stmt_text(self@),
        decreases self,
    {
        match self {
            Statement::LetStatement { identifier, value } => {
                push_str(out, "let ");
                push_str(out, identifier.as_str());
                push_str(out, " = ");
                value.push_text(out);
                push_str(out, ";");
            },
            Statement::Return(e) => {
                push_str(out, "return ");
                e.push_text(out);
            },
            Statement::ExpressionStatement(e) => e.push_text(out),
            Statement::Block(v) => push_stmts(out, v),
        }
    }

    /// The canonical textual form of this statement.
    pub fn to_text(&self) -> (r: String)
        ensures
            r@ == stmt_text(self@),
    {
        let mut out = String::new();
        self.push_text(&mut out);
        out
    }
}

impl Program {
    /// The canonical textual form of this program.
    pub fn to_text(&self) -> (r: String)
        ensures
            r@ == program_text(self@),
    {
        let mut out = String::new();
        let v = &self.statements;
        proof {
            lemma_stmts_view(v@);
        }
        let mut i: usize = 0;
        while i < v.len()
            invariant
                i <= v.len(),
                stmts_view(v@).len() == v.len(),
                forall|j: int|
                    0 <= j < v.len() ==> #[trigger] stmts_view(v@)[j] == stmt_view(v@[j]),
                out@ == program_text(stmts_view(v@).take(i as int)),
            decreases v.len() - i,
        {
            proof {
                let t = stmts_view(v@).take(i as int + 1);
                assert(t.drop_last() =~= stmts_view(v@).take(i as int));
            }
            if i > 0 {
                push_str(&mut out, "\n");
            }
            v[i].push_text(&mut out);
            i = i + 1;
        }
        assert(stmts_view(v@).take(v.len() as int) =~= stmts_view(v@));
        out
    }
}

} // verus!
