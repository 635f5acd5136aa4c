use vstd::prelude::*;
use crate::token::{Token, TokenView};

verus! {

/// An expression of the language; each node owns its sub-expressions.
#[derive(Debug, PartialEq)]
pub enum Expr {
    Binary(Box<Expr>, Token, Box<Expr>),
    Grouping(Box<Expr>),
    Literal(String),
    Unary(Token, Box<Expr>),
    Variable(Token),
    Ternary(Box<Expr>, Box<Expr>, Box<Expr>),
    Assign(Token, Box<Expr>),
    Logical(Box<Expr>, Token, Box<Expr>),
}

/// A statement of the language; each node owns its children.
#[derive(Debug, PartialEq)]
pub enum Stmt {
    Expression(Box<Expr>),
    Print(Box<Expr>),
    Let(Token, Option<Box<Expr>>),
    Block(Vec<Box<Stmt>>),
    If(Expr, Box<Stmt>, Box<Option<Stmt>>),
    While(Expr, Box<Stmt>),
}

/// The mathematical form of an expression.
pub enum ExprV {
    Binary(Box<ExprV>, TokenView, Box<ExprV>),
    Grouping(Box<ExprV>),
    Literal(Seq<char>),
    Unary(TokenView, Box<ExprV>),
    Variable(TokenView),
    Ternary(Box<ExprV>, Box<ExprV>, Box<ExprV>),
    Assign(TokenView, Box<ExprV>),
    Logical(Box<ExprV>, TokenView, Box<ExprV>),
}

/// The mathematical form of a statement.
pub enum StmtV {
    Expression(ExprV),
    Print(ExprV),
    Let(TokenView, Option<ExprV>),
    Block(Seq<StmtV>),
    If(ExprV, Box<StmtV>, Option<Box<StmtV>>),
    While(ExprV, Box<StmtV>),
}

impl View for Expr {
    type V = ExprV;

    open spec fn view(&self) -> ExprV
        decreases self,
    {
        match self {
            Expr::Binary(l, op, r) => ExprV::Binary(Box::new((**l).view()), op@, Box::new((**r).view())),
            Expr::Grouping(e) => ExprV::Grouping(Box::new((**e).view())),
            Expr::Literal(s) => ExprV::Literal(s@),
            Expr::Unary(op, e) => ExprV::Unary(op@, Box::new((**e).view())),
            Expr::Variable(t) => ExprV::Variable(t@),
            Expr::Ternary(c, a, b) => ExprV::Ternary(
                Box::new((**c).view()),
                Box::new((**a).view()),
                Box::new((**b).view()),
            ),
            Expr::Assign(t, e) => ExprV::Assign(t@, Box::new((**e).view())),
            Expr::Logical(l, op, r) => ExprV::Logical(Box::new((**l).view()), op@, Box::new((**r).view())),
        }
    }
}

impl View for Stmt {
    type V = StmtV;

    open spec fn view(&self) -> StmtV
        decreases self,
    {
        match self {
            Stmt::Expression(e) => StmtV::Expression((**e)@),
            Stmt::Print(e) => StmtV::Print((**e)@),
            Stmt::Let(t, init) => StmtV::Let(t@, match init {
                Some(e) => Some((**e)@),
                None => None,
            }),
            Stmt::Block(v) => StmtV::Block(items_view(v@)),
            Stmt::If(c, t, e) => StmtV::If(c@, Box::new((**t).view()), match &**e {
                Some(s) => Some(Box::new(s.view())),
                None => None,
            }),
            Stmt::While(c, b) => StmtV::While(c@, Box::new((**b).view())),
        }
    }
}

/// The views of the statements of a block, in order.
pub open spec fn items_view(s: Seq<Box<Stmt>>) -> Seq<StmtV>
    decreases s,
{
    if s.len() == 0 {
        seq![]
    } else {
        items_view(s.subrange(0, s.len() - 1)).push((*s[s.len() - 1]).view())
    }
}

pub proof fn lemma_items_push(s: Seq<Box<Stmt>>, x: Box<Stmt>)
    ensures
        items_view(s.push(x)) == items_view(s).push((*x)@),
{
    assert(s.push(x).subrange(0, s.len() as int) =~= s);
}

pub proof fn lemma_items_index(s: Seq<Box<Stmt>>)
    ensures
        items_view(s).len() == s.len(),
        forall|i: int| 0 <= i < s.len() ==> #[trigger] items_view(s)[i] == (*s[i])@,
    decreases s.len(),
{
    if s.len() > 0 {
        let t = s.subrange(0, s.len() - 1);
        lemma_items_index(t);
        assert(items_view(s) == items_view(t).push((*s[s.len() - 1])@));
        assert forall|i: int| 0 <= i < s.len() implies #[trigger] items_view(s)[i] == (*s[i])@ by {
            if i < s.len() - 1 {
                assert(t[i] == s[i]);
            }
        }
    }
}

pub open spec fn stmts_view(v: Seq<Stmt>) -> Seq<StmtV> {
    v.map_values(|s: Stmt| s@)
}

} // verus!
